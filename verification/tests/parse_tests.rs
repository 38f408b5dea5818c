use spotify2media::csvparse::parse_csv;

fn bytes(s: &str) -> Vec<u8> {
    s.as_bytes().to_vec()
}

#[test]
fn header_matched_by_name() {
    let data = bytes("Album,Title,Artist\nAlbum C, Song A ,Artist B\n");
    let tracks = parse_csv(&data).unwrap();
    assert_eq!(tracks.len(), 1);
    assert_eq!(tracks[0].title, "Song A");
    assert_eq!(tracks[0].artist, "Artist B");
    assert_eq!(tracks[0].album, "Album C");
}

#[test]
fn header_track_alias_recognized() {
    let data = bytes("track,artist,album\nOne,Two,Three\n");
    let tracks = parse_csv(&data).unwrap();
    assert_eq!(tracks.len(), 1);
    assert_eq!(tracks[0].title, "One");
    assert_eq!(tracks[0].artist, "Two");
    assert_eq!(tracks[0].album, "Three");
}

#[test]
fn no_header_first_row_is_data() {
    let data = bytes("Song A,Artist B,Album C\nX,Y,Z\n");
    let tracks = parse_csv(&data).unwrap();
    assert_eq!(tracks.len(), 2);
    assert_eq!(tracks[0].title, "Song A");
    assert_eq!(tracks[1].title, "X");
}

#[test]
fn blank_rows_skipped_named_rows_kept() {
    // A row with neither title nor artist is skipped; a row with only an
    // artist is kept.
    let data = bytes("title,artist,album\n , ,Ghost Album\n ,Only Artist,\nReal,One,\n");
    let tracks = parse_csv(&data).unwrap();
    assert_eq!(tracks.len(), 2);
    assert_eq!(tracks[0].title, "");
    assert_eq!(tracks[0].artist, "Only Artist");
    assert_eq!(tracks[1].title, "Real");
}

#[test]
fn short_rows_read_as_empty_cells() {
    let data = bytes("title,artist,album\nAlone,,\n");
    let tracks = parse_csv(&data).unwrap();
    assert_eq!(tracks.len(), 1);
    assert_eq!(tracks[0].artist, "");
    assert_eq!(tracks[0].album, "");
}

#[test]
fn malformed_row_reports_its_line() {
    let data = bytes("a,b,c\nx,y\n");
    let err = parse_csv(&data).unwrap_err();
    assert_eq!(err.line, 2);
}

#[test]
fn empty_input_parses_to_no_tracks() {
    let tracks = parse_csv(&Vec::new()).unwrap();
    assert!(tracks.is_empty());
}

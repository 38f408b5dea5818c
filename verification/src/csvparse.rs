//! Parsing a CSV track list into track records.
//!
//! The csv crate splits the raw bytes into rows of fields; everything after
//! that — header recognition, column choice, trimming, and the skipping of
//! rows with neither title nor artist — is verified field mapping.

use vstd::prelude::*;
use crate::text::{eq_ignore_case, eq_ignore_case_spec, trim, trim_spec};
use crate::track::{TrackInfo, TrackView};

verus! {

/// A malformed row stopped the parse; holds the 1-based line the reader
/// reported (0 when it reported none).
#[derive(Debug, Clone, PartialEq, Eq)]
pub struct ParseError {
    pub line: u64,
}

/// What the csv crate yields for these bytes: either every row as a
/// sequence of fields, or the line of the first malformed row.
pub uninterp spec fn csv_rows_of(data: Seq<u8>) -> Result<Seq<Seq<Seq<char>>>, int>;

/// Relies on csv's `Reader`: splits bytes into records of fields by the CSV
/// quoting rules, with no header treatment, so every row comes back; a
/// malformed record ends the parse with the 1-based line the reader reports.
#[verifier::external_body]
fn read_csv_records(data: &Vec<u8>) -> (r: Result<Vec<Vec<String>>, u64>)
    ensures
        match r {
            Ok(rows) => csv_rows_of(data@) == Ok::<Seq<Seq<Seq<char>>>, int>(rows.deep_view()),
            Err(line) => csv_rows_of(data@) == Err::<Seq<Seq<Seq<char>>>, int>(line as int),
        },
{
    let mut rdr = csv::ReaderBuilder::new().has_headers(false).from_reader(data.as_slice());
    let mut rows: Vec<Vec<String>> = Vec::new();
    for rec in rdr.records() {
        match rec {
            Ok(fields) => rows.push(fields.iter().map(|f| f.to_string()).collect()),
            Err(e) => return Err(e.position().map(|p| p.line()).unwrap_or(0)),
        }
    }
    Ok(rows)
}

/// A header cell naming the title column.
pub open spec fn is_title_header(cell: Seq<char>) -> bool {
    eq_ignore_case_spec(cell, "title"@) || eq_ignore_case_spec(cell, "track"@)
}

/// A header cell naming the artist column.
pub open spec fn is_artist_header(cell: Seq<char>) -> bool {
    eq_ignore_case_spec(cell, "artist"@)
}

/// A header cell naming the album column.
pub open spec fn is_album_header(cell: Seq<char>) -> bool {
    eq_ignore_case_spec(cell, "album"@)
}

/// The first row is a recognizable header when one of its cells names the
/// title column.
pub open spec fn has_header_row(rows: Seq<Seq<Seq<char>>>) -> bool {
    rows.len() > 0 && exists|j: int| 0 <= j < rows[0].len() && is_title_header(#[trigger] rows[0][j])
}

/// The position of the first cell satisfying `pred`, if any.
pub open spec fn find_first(cells: Seq<Seq<char>>, pred: spec_fn(Seq<char>) -> bool) -> Option<int>
    decreases cells.len(),
{
    if cells.len() == 0 {
        None
    } else if pred(cells[0]) {
        Some(0)
    } else {
        match find_first(cells.drop_first(), pred) {
            Some(j) => Some(j + 1),
            None => None,
        }
    }
}

/// A found position, or the fallback column.
pub open spec fn col_or(found: Option<int>, dflt: int) -> int {
    match found {
        Some(j) => j,
        None => dflt,
    }
}

/// The column the title is read from.
pub open spec fn title_col(rows: Seq<Seq<Seq<char>>>) -> int {
    if has_header_row(rows) {
        col_or(find_first(rows[0], |c: Seq<char>| is_title_header(c)), 0)
    } else {
        0
    }
}

/// The column the artist is read from.
pub open spec fn artist_col(rows: Seq<Seq<Seq<char>>>) -> int {
    if has_header_row(rows) {
        col_or(find_first(rows[0], |c: Seq<char>| is_artist_header(c)), 1)
    } else {
        1
    }
}

/// The column the album is read from.
pub open spec fn album_col(rows: Seq<Seq<Seq<char>>>) -> int {
    if has_header_row(rows) {
        col_or(find_first(rows[0], |c: Seq<char>| is_album_header(c)), 2)
    } else {
        2
    }
}

/// The cell at column `j`, or empty when the row is too short.
pub open spec fn row_cell(row: Seq<Seq<char>>, j: int) -> Seq<char> {
    if 0 <= j < row.len() {
        row[j]
    } else {
        Seq::empty()
    }
}

/// The track a row maps to: its three cells, trimmed.
pub open spec fn row_track(row: Seq<Seq<char>>, tc: int, ac: int, alc: int) -> TrackView {
    TrackView {
        title: trim_spec(row_cell(row, tc)),
        artist: trim_spec(row_cell(row, ac)),
        album: trim_spec(row_cell(row, alc)),
    }
}

/// A row with neither title nor artist, which parsing skips.
pub open spec fn row_blank(row: Seq<Seq<char>>, tc: int, ac: int) -> bool {
    trim_spec(row_cell(row, tc)).len() == 0 && trim_spec(row_cell(row, ac)).len() == 0
}

/// The tracks of a run of data rows, in order, blank rows skipped.
pub open spec fn tracks_from(rows: Seq<Seq<Seq<char>>>, tc: int, ac: int, alc: int) -> Seq<
    TrackView,
>
    decreases rows.len(),
{
    if rows.len() == 0 {
        Seq::empty()
    } else {
        let rest = tracks_from(rows.drop_last(), tc, ac, alc);
        if row_blank(rows.last(), tc, ac) {
            rest
        } else {
            rest.push(row_track(rows.last(), tc, ac, alc))
        }
    }
}

/// The tracks of a whole parsed file: columns by header name when the first
/// row is a recognizable header, else by position.
pub open spec fn tracks_of(rows: Seq<Seq<Seq<char>>>) -> Seq<TrackView> {
    if has_header_row(rows) {
        tracks_from(rows.drop_first(), title_col(rows), artist_col(rows), album_col(rows))
    } else {
        tracks_from(rows, 0, 1, 2)
    }
}

proof fn lemma_find_first_at(cells: Seq<Seq<char>>, pred: spec_fn(Seq<char>) -> bool, j: int)
    requires
        0 <= j < cells.len(),
        pred(cells[j]),
        forall|k: int| 0 <= k < j ==> !pred(#[trigger] cells[k]),
    ensures
        find_first(cells, pred) == Some(j),
    decreases cells.len(),
{
    if j > 0 {
        lemma_find_first_at(cells.drop_first(), pred, j - 1);
    }
}

proof fn lemma_find_first_none(cells: Seq<Seq<char>>, pred: spec_fn(Seq<char>) -> bool)
    requires
        forall|k: int| 0 <= k < cells.len() ==> !pred(#[trigger] cells[k]),
    ensures
        find_first(cells, pred) == None::<int>,
    decreases cells.len(),
{
    if cells.len() > 0 {
        lemma_find_first_none(cells.drop_first(), pred);
    }
}

fn is_title_header_exec(cell: &str) -> (r: bool)
    ensures
        r == is_title_header(cell@),
{
    eq_ignore_case(cell, "title") || eq_ignore_case(cell, "track")
}

fn find_title_col(cells: &Vec<String>) -> (r: usize)
    ensures
        r == col_or(find_first(cells.deep_view(), |c: Seq<char>| is_title_header(c)), 0),
{
    let mut j: usize = 0;
    while j < cells.len()
        invariant
            j <= cells@.len(),
            forall|k: int| 0 <= k < j ==> !is_title_header(#[trigger] cells.deep_view()[k]),
        decreases cells@.len() - j,
    {
        if is_title_header_exec(cells[j].as_str()) {
            proof {
                assert(cells.deep_view()[j as int] == cells@[j as int]@);
                lemma_find_first_at(cells.deep_view(), |c: Seq<char>| is_title_header(c), j as int);
            }
            return j;
        }
        proof {
            assert(cells.deep_view()[j as int] == cells@[j as int]@);
        }
        j = j + 1;
    }
    proof {
        lemma_find_first_none(cells.deep_view(), |c: Seq<char>| is_title_header(c));
    }
    0
}

fn find_artist_col(cells: &Vec<String>) -> (r: usize)
    ensures
        r == col_or(find_first(cells.deep_view(), |c: Seq<char>| is_artist_header(c)), 1),
{
    let mut j: usize = 0;
    while j < cells.len()
        invariant
            j <= cells@.len(),
            forall|k: int| 0 <= k < j ==> !is_artist_header(#[trigger] cells.deep_view()[k]),
        decreases cells@.len() - j,
    {
        if eq_ignore_case(cells[j].as_str(), "artist") {
            proof {
                assert(cells.deep_view()[j as int] == cells@[j as int]@);
                lemma_find_first_at(cells.deep_view(), |c: Seq<char>| is_artist_header(c), j as int);
            }
            return j;
        }
        proof {
            assert(cells.deep_view()[j as int] == cells@[j as int]@);
        }
        j = j + 1;
    }
    proof {
        lemma_find_first_none(cells.deep_view(), |c: Seq<char>| is_artist_header(c));
    }
    1
}

fn find_album_col(cells: &Vec<String>) -> (r: usize)
    ensures
        r == col_or(find_first(cells.deep_view(), |c: Seq<char>| is_album_header(c)), 2),
{
    let mut j: usize = 0;
    while j < cells.len()
        invariant
            j <= cells@.len(),
            forall|k: int| 0 <= k < j ==> !is_album_header(#[trigger] cells.deep_view()[k]),
        decreases cells@.len() - j,
    {
        if eq_ignore_case(cells[j].as_str(), "album") {
            proof {
                assert(cells.deep_view()[j as int] == cells@[j as int]@);
                lemma_find_first_at(cells.deep_view(), |c: Seq<char>| is_album_header(c), j as int);
            }
            return j;
        }
        proof {
            assert(cells.deep_view()[j as int] == cells@[j as int]@);
        }
        j = j + 1;
    }
    proof {
        lemma_find_first_none(cells.deep_view(), |c: Seq<char>| is_album_header(c));
    }
    2
}

fn cell_trimmed(row: &Vec<String>, j: usize) -> (r: String)
    ensures
        r@ == trim_spec(row_cell(row.deep_view(), j as int)),
{
    if j < row.len() {
        proof {
            assert(row.deep_view()[j as int] == row@[j as int]@);
        }
        trim(row[j].as_str())
    } else {
        let r = String::new();
        proof {
            assert(trim_spec(Seq::<char>::empty()) =~= Seq::<char>::empty());
        }
        r
    }
}

fn rows_to_tracks(
    rows: &Vec<Vec<String>>,
    start: usize,
    tc: usize,
    ac: usize,
    alc: usize,
) -> (r: Vec<TrackInfo>)
    requires
        start <= rows@.len(),
    ensures
        r.deep_view() == tracks_from(
            rows.deep_view().skip(start as int),
            tc as int,
            ac as int,
            alc as int,
        ),
{
    let ghost all = rows.deep_view();
    let mut out: Vec<TrackInfo> = Vec::new();
    let mut i: usize = start;
    proof {
        assert(all.skip(start as int).take(0) =~= Seq::<Seq<Seq<char>>>::empty());
    }
    while i < rows.len()
        invariant
            start <= i <= rows@.len(),
            all == rows.deep_view(),
            all.len() == rows@.len(),
            forall|k: int| 0 <= k < all.len() ==> all[k] == #[trigger] rows@[k].deep_view(),
            out.deep_view() == tracks_from(
                all.skip(start as int).take(i - start),
                tc as int,
                ac as int,
                alc as int,
            ),
        decreases rows@.len() - i,
    {
        let row = &rows[i];
        let ghost seen = all.skip(start as int).take(i - start);
        let ghost now = all.skip(start as int).take(i + 1 - start);
        proof {
            assert(now.drop_last() =~= seen);
            assert(now.last() == all[i as int]);
        }
        let title = cell_trimmed(row, tc);
        let artist = cell_trimmed(row, ac);
        if title.as_str().unicode_len() == 0 && artist.as_str().unicode_len() == 0 {
            proof {
                assert(row_blank(all[i as int], tc as int, ac as int));
            }
        } else {
            let album = cell_trimmed(row, alc);
            let t = TrackInfo { title, artist, album };
            out.push(t);
            proof {
                assert(out.deep_view() =~= tracks_from(now, tc as int, ac as int, alc as int));
            }
        }
        i = i + 1;
    }
    proof {
        assert(all.skip(start as int).take(i - start) =~= all.skip(start as int));
    }
    out
}

/// Parse the bytes of a CSV file into the track list.
///
/// Succeeds exactly when every row is well formed; the result is then the
/// file's rows mapped by `tracks_of`: columns matched by header name when a
/// recognizable header row leads, else by position, each field trimmed, and
/// rows with neither title nor artist skipped.  Fails exactly when the
/// reader stops on a malformed row, naming its line.
pub fn parse_csv(data: &Vec<u8>) -> (r: Result<Vec<TrackInfo>, ParseError>)
    ensures
        match r {
            Ok(ts) => csv_rows_of(data@) is Ok && ts.deep_view() == tracks_of(
                csv_rows_of(data@)->Ok_0,
            ),
            Err(pe) => csv_rows_of(data@) is Err && pe.line as int == csv_rows_of(data@)->Err_0,
        },
{
    let rows = match read_csv_records(data) {
        Ok(rows) => rows,
        Err(line) => {
            return Err(ParseError { line });
        },
    };
    let ghost all = rows.deep_view();
    if rows.len() == 0 {
        let out: Vec<TrackInfo> = Vec::new();
        proof {
            assert(!has_header_row(all));
            assert(all.len() == rows@.len());
            assert(tracks_of(all) =~= Seq::<TrackView>::empty());
            assert(out.deep_view() =~= Seq::<TrackView>::empty());
        }
        return Ok(out);
    }
    proof {
        assert(all[0] == rows@[0].deep_view());
        assert(forall|k: int|
            0 <= k < rows@[0]@.len() ==> all[0][k] == #[trigger] rows@[0]@[k]@);
    }
    let hdr = &rows[0];
    let mut has_hdr = false;
    let mut j: usize = 0;
    while j < hdr.len() && !has_hdr
        invariant
            j <= hdr@.len(),
            all.len() > 0,
            all[0] == hdr.deep_view(),
            hdr.deep_view().len() == hdr@.len(),
            forall|k: int| 0 <= k < hdr@.len() ==> all[0][k] == #[trigger] hdr@[k]@,
            has_hdr ==> j < hdr@.len() && is_title_header(all[0][j as int]),
            !has_hdr ==> forall|k: int| 0 <= k < j ==> !is_title_header(#[trigger] all[0][k]),
        decreases hdr@.len() - j + (if has_hdr { 0int } else { 1int }),
    {
        if is_title_header_exec(hdr[j].as_str()) {
            has_hdr = true;
        } else {
            j = j + 1;
        }
    }
    if has_hdr {
        proof {
            assert(has_header_row(all));
        }
        let tc = find_title_col(hdr);
        let ac = find_artist_col(hdr);
        let alc = find_album_col(hdr);
        let out = rows_to_tracks(&rows, 1, tc, ac, alc);
        proof {
            assert(all.skip(1) =~= all.drop_first());
        }
        Ok(out)
    } else {
        proof {
            assert(!has_header_row(all));
            assert(all.skip(0) =~= all);
        }
        let out = rows_to_tracks(&rows, 0, 0, 1, 2);
        Ok(out)
    }
}

/// No well-formed data row with a non-blank title or artist is dropped: the
/// track it maps to appears in the parse result.
pub proof fn lemma_named_row_kept(rows: Seq<Seq<Seq<char>>>, tc: int, ac: int, alc: int, i: int)
    requires
        0 <= i < rows.len(),
        !row_blank(rows[i], tc, ac),
    ensures
        tracks_from(rows, tc, ac, alc).contains(row_track(rows[i], tc, ac, alc)),
    decreases rows.len(),
{
    let out = tracks_from(rows, tc, ac, alc);
    if i == rows.len() - 1 {
        assert(out[out.len() - 1] == row_track(rows[i], tc, ac, alc));
    } else {
        lemma_named_row_kept(rows.drop_last(), tc, ac, alc, i);
        let rest = tracks_from(rows.drop_last(), tc, ac, alc);
        let v = row_track(rows.drop_last()[i], tc, ac, alc);
        let j = choose|j: int| 0 <= j < rest.len() && rest[j] == v;
        assert(out[j] == v);
    }
}

/// The same guarantee at the level of a whole parsed file: any data row
/// whose title or artist is non-blank yields a track in `tracks_of`.
pub proof fn lemma_parse_keeps_named_rows(rows: Seq<Seq<Seq<char>>>, i: int)
    requires
        if has_header_row(rows) {
            1 <= i < rows.len()
        } else {
            0 <= i < rows.len()
        },
        !row_blank(rows[i], title_col(rows), artist_col(rows)),
    ensures
        tracks_of(rows).contains(
            row_track(rows[i], title_col(rows), artist_col(rows), album_col(rows)),
        ),
{
    if has_header_row(rows) {
        assert(rows.drop_first()[i - 1] == rows[i]);
        lemma_named_row_kept(
            rows.drop_first(),
            title_col(rows),
            artist_col(rows),
            album_col(rows),
            i - 1,
        );
    } else {
        lemma_named_row_kept(rows, title_col(rows), artist_col(rows), album_col(rows), i);
    }
}

} // verus!

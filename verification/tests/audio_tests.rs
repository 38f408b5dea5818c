use spotify2media::audio::{is_valid_mp3, set_basic_tags, tag_plan, TagPlan, TagRecord};
use spotify2media::config::AppConfig;

#[test]
fn signature_check_accepts_both_markers() {
    assert!(is_valid_mp3(b"ID3\x04rest"));
    assert!(is_valid_mp3(b"TAG"));
    assert!(!is_valid_mp3(b"XXX data"));
    assert!(!is_valid_mp3(b"ID"));
    assert!(!is_valid_mp3(b""));
}

#[test]
fn tag_plan_follows_settings_and_extension() {
    assert_eq!(tag_plan(true, "x.mp3"), TagPlan::CheckThenId3);
    assert_eq!(tag_plan(false, "x.mp3"), TagPlan::Skip);
    assert_eq!(tag_plan(true, "x.m4a"), TagPlan::Mp4);
    assert_eq!(tag_plan(false, "x.m4a"), TagPlan::Mp4);
    assert_eq!(tag_plan(true, "x.webm"), TagPlan::Skip);
    assert_eq!(tag_plan(true, "noext"), TagPlan::Skip);
}

#[test]
fn stamping_twice_equals_stamping_once() {
    let mut rec = TagRecord {
        title: "old title".to_string(),
        artist: "old artist".to_string(),
        album: "old album".to_string(),
        other: vec![("genre".to_string(), "jazz".to_string())],
    };
    set_basic_tags(&mut rec, "T", "A", "L");
    let once = rec.clone();
    set_basic_tags(&mut rec, "T", "A", "L");
    assert_eq!(rec.title, once.title);
    assert_eq!(rec.artist, once.artist);
    assert_eq!(rec.album, once.album);
    assert_eq!(rec.other, once.other);
}

#[test]
fn stamping_keeps_other_fields() {
    let mut rec = TagRecord {
        title: String::new(),
        artist: String::new(),
        album: String::new(),
        other: vec![("art".to_string(), "bytes".to_string())],
    };
    set_basic_tags(&mut rec, "T", "A", "L");
    assert_eq!(rec.title, "T");
    assert_eq!(rec.other.len(), 1);
    assert_eq!(rec.other[0].0, "art");
}

#[test]
fn config_defaults() {
    let c = AppConfig::default();
    assert!(c.transcode_mp3);
    assert!(c.generate_m3u);
    assert!(!c.exclude_instrumentals);
}

use spotify2media::fetch::{output_prefix, output_template, select_output};
use spotify2media::text::{eq_ignore_case, extension_of, str_eq, str_lt, trim, u64_to_dec};

#[test]
fn trim_strips_both_ends() {
    assert_eq!(trim("  a b\t"), "a b");
    assert_eq!(trim("no-trim"), "no-trim");
    assert_eq!(trim("\r\n x \n"), "x");
}

#[test]
fn trim_all_whitespace_is_empty() {
    assert_eq!(trim("   \t\r\n"), "");
    assert_eq!(trim(""), "");
}

#[test]
fn case_insensitive_equality() {
    assert!(eq_ignore_case("TiTLe", "title"));
    assert!(eq_ignore_case("ARTIST", "artist"));
    assert!(!eq_ignore_case("titles", "title"));
    assert!(!eq_ignore_case("titel", "title"));
    assert!(eq_ignore_case("", ""));
}

#[test]
fn exact_string_equality() {
    assert!(str_eq("abc", "abc"));
    assert!(!str_eq("abc", "Abc"));
    assert!(!str_eq("ab", "abc"));
}

#[test]
fn decimal_rendering() {
    assert_eq!(u64_to_dec(0), "0");
    assert_eq!(u64_to_dec(7), "7");
    assert_eq!(u64_to_dec(1234567), "1234567");
    assert_eq!(u64_to_dec(1000), "1000");
}

#[test]
fn extension_after_last_dot() {
    assert_eq!(extension_of("a.mp3").as_deref(), Some("mp3"));
    assert_eq!(extension_of("a.b.m4a").as_deref(), Some("m4a"));
    assert_eq!(extension_of("noext"), None);
    assert_eq!(extension_of("trailing.").as_deref(), Some(""));
}

#[test]
fn lexicographic_order() {
    assert!(str_lt("abc", "abd"));
    assert!(str_lt("ab", "abc"));
    assert!(!str_lt("b", "a"));
    assert!(!str_lt("abc", "abc"));
}

#[test]
fn prefix_carries_the_stamp() {
    assert_eq!(output_prefix(42), "yt2media_42_");
    assert_eq!(output_prefix(0), "yt2media_0_");
    assert_eq!(output_template(7), "yt2media_7_%(title)s.%(ext)s");
}

#[test]
fn distinct_stamps_never_claim_each_others_files() {
    // A name laid down under stamp 123 does not begin with the prefix of
    // stamp 12, although 12's digits lead 123's.
    let name = format!("{}song.mp3", output_prefix(123));
    assert!(!name.starts_with(&output_prefix(12)));
    let other = format!("{}song.mp3", output_prefix(12));
    assert!(!other.starts_with(&output_prefix(123)));
}

#[test]
fn select_output_takes_lexicographically_first_claimable() {
    let prefix = output_prefix(5);
    let names: Vec<String> = vec![
        format!("{}b.mp3", prefix),
        format!("{}a.mp3", prefix),
        "other.mp3".to_string(),
        format!("{}a.txt", prefix),
    ];
    let picked = select_output(&names, &prefix);
    assert_eq!(picked.as_deref(), Some(format!("{}a.mp3", prefix).as_str()));
    // Deterministic: the same listing in another order gives the same file.
    let mut reversed = names.clone();
    reversed.reverse();
    assert_eq!(select_output(&reversed, &prefix), picked);
}

#[test]
fn select_output_rejects_wrong_extension_and_prefix() {
    let prefix = output_prefix(5);
    let names: Vec<String> = vec![
        format!("{}a.webm", prefix),
        "yt2media_55_a.mp3".to_string(),
    ];
    assert_eq!(select_output(&names, &prefix), None);
    assert_eq!(select_output(&Vec::new(), &prefix), None);
}

#[test]
fn next_stamp_always_advances() {
    let s1 = spotify2media::fetch::next_stamp(0);
    let s2 = spotify2media::fetch::next_stamp(s1);
    assert!(s1 >= 1);
    assert!(s2 > s1);
    // At the top of the range the stamp saturates.
    assert_eq!(spotify2media::fetch::next_stamp(u64::MAX - 1), u64::MAX);
    assert_eq!(spotify2media::fetch::next_stamp(u64::MAX), u64::MAX);
    let p = output_prefix(s1);
    assert!(p.starts_with("yt2media_"));
    assert!(p.ends_with('_'));
    assert_eq!(p, format!("yt2media_{}_", u64_to_dec(s1)));
}

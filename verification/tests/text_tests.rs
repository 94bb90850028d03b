use engine::source::split_source_path;
use engine::text::{decimal_string, parse_u128, trim_text, split_once_colon_text, is_whitespace};

#[test]
fn decimal_round_trip() {
    for n in [0u128, 7, 10, 12345, u128::MAX] {
        let s = decimal_string(n);
        assert_eq!(s, n.to_string());
        assert_eq!(parse_u128(&s), Some(n));
    }
}

#[test]
fn parse_rejects_non_digits() {
    assert_eq!(parse_u128(""), None);
    assert_eq!(parse_u128("12a"), None);
    assert_eq!(parse_u128("-1"), None);
    assert_eq!(parse_u128("+5"), Some(5));
}

#[test]
fn trim_and_split() {
    assert_eq!(trim_text("  a b \n"), "a b");
    assert_eq!(
        split_once_colon_text("1:Assign:x"),
        Some((String::from("1"), String::from("Assign:x")))
    );
    assert_eq!(split_once_colon_text("none"), None);
    assert!(is_whitespace(' '));
    assert!(!is_whitespace('x'));
}

#[test]
fn source_paths_split_at_the_last_slash_and_dot() {
    assert_eq!(split_source_path("dir/sub/prog.en"), Some((String::from("dir/sub"), String::from("prog"))));
    assert_eq!(split_source_path("prog.en"), Some((String::new(), String::from("prog"))));
    assert_eq!(split_source_path("a.b.en"), Some((String::new(), String::from("a.b"))));
    assert_eq!(split_source_path("x/en"), Some((String::from("x"), String::new())));
    assert_eq!(split_source_path("prog.txt"), None);
    assert_eq!(split_source_path("dir.en/prog"), None);
}

#[test]
fn outputs_go_beside_the_source() {
    assert_eq!(engine::source::output_path("dir/sub", "prog", ".en.byte"), String::from("dir/sub/prog.en.byte"));
    assert_eq!(engine::source::output_path("", "test", ".en.byte"), String::from("test.en.byte"));
}

use rics::keyed::{sort_dedup, StrMap};
use rics::lines::{fold_line, join, push_line, terminate_lines};
use rics::numbers::{
    int_to_string, parse_i32, parse_u8, parse_usize, usize_to_string,
};
use rics::text::{
    chars_of, concat2, concat3, ends_with, eq_ignore_ascii_case, replace, split, split_whitespace,
    starts_with, str_less, string_of, strip_prefix, strip_suffix, to_ascii_lower, to_ascii_upper,
    trim, trim_with,
};
use rics::years::YearSet;

#[test]
fn chars_and_strings_round_trip() {
    let v = chars_of("héllo");
    assert_eq!(v, vec!['h', 'é', 'l', 'l', 'o']);
    assert_eq!(string_of(&v), "héllo");
    assert_eq!(concat2("ab", "cd"), "abcd");
    assert_eq!(concat3("a", "", "c"), "ac");
}

#[test]
fn trim_removes_unicode_white_space() {
    assert_eq!(trim("\u{00A0}\t a b \u{3000}\n"), "a b");
    assert_eq!(trim("   "), "");
    assert_eq!(trim(""), "");
    assert_eq!(trim("x"), "x");
}

#[test]
fn ascii_trim_leaves_other_white_space() {
    assert_eq!(trim_with("\u{00A0} a \u{00A0}", true), "\u{00A0} a \u{00A0}");
    assert_eq!(trim_with(" \t\r\n\u{000C}a b\n", true), "a b");
    assert_eq!(trim_with("\u{000B}a", true), "\u{000B}a");
    assert_eq!(trim_with("\u{000B}a", false), "a");
}

#[test]
fn ascii_case_touches_ascii_letters_only() {
    assert_eq!(to_ascii_upper("abc-Äé9z"), "ABC-Äé9Z");
    assert_eq!(to_ascii_lower("ABC-ÄÉ9Z"), "abc-ÄÉ9z");
    assert!(eq_ignore_ascii_case("Cancelled", "CANCELLED"));
    assert!(!eq_ignore_ascii_case("cancelled", "canceled"));
    assert!(!eq_ignore_ascii_case("ä", "Ä"));
    assert!(eq_ignore_ascii_case("", ""));
}

#[test]
fn strings_are_ordered_by_code_point() {
    assert!(str_less("a", "b"));
    assert!(str_less("a", "ab"));
    assert!(str_less("", "a"));
    assert!(str_less("Z", "a"));
    assert!(str_less("z", "é"));
    assert!(!str_less("b", "a"));
    assert!(!str_less("a", "a"));
    assert!(!str_less("ab", "a"));
    assert!(!str_less("", ""));
}

#[test]
fn replace_takes_occurrences_from_left_to_right() {
    assert_eq!(replace("a{{x}}b{{x}}", "{{x}}", "1"), "a1b1");
    assert_eq!(replace("aaa", "aa", "b"), "ba");
    assert_eq!(replace("abc", "x", "y"), "abc");
    assert_eq!(replace("abc", "", "y"), "abc");
    assert_eq!(replace("a\r\nb\r\n", "\r\n", "\n"), "a\nb\n");
    assert_eq!(replace("x;y", ";", ","), "x,y");
}

#[test]
fn split_keeps_empty_parts() {
    assert_eq!(split("a,b,,c", ','), vec!["a", "b", "", "c"]);
    assert_eq!(split("", ','), vec![""]);
    assert_eq!(split("abc", ','), vec!["abc"]);
    assert_eq!(split(",", ','), vec!["", ""]);
}

#[test]
fn split_whitespace_gives_the_words() {
    assert_eq!(split_whitespace("  a  b\tc\u{00A0}d "), vec!["a", "b", "c", "d"]);
    assert_eq!(split_whitespace("   "), Vec::<String>::new());
    assert_eq!(split_whitespace(""), Vec::<String>::new());
    assert_eq!(split_whitespace("one"), vec!["one"]);
}

#[test]
fn prefixes_and_suffixes() {
    assert!(starts_with("https://x", "https://"));
    assert!(!starts_with("http", "https://"));
    assert!(ends_with("a.ics", ".ics"));
    assert!(!ends_with("ics", ".ics"));
    assert_eq!(strip_prefix("field:title", "field:"), Some("title".to_string()));
    assert_eq!(strip_prefix("title", "field:"), None);
    assert_eq!(strip_suffix("name[*]", "[*]"), Some("name".to_string()));
    assert_eq!(strip_suffix("name", "[*]"), None);
    assert_eq!(strip_suffix(".ics", ".ics"), Some(String::new()));
}

#[test]
fn integers_are_read_as_rust_reads_them() {
    assert_eq!(parse_i32("42"), Some(42));
    assert_eq!(parse_i32("-42"), Some(-42));
    assert_eq!(parse_i32("+7"), Some(7));
    assert_eq!(parse_i32("007"), Some(7));
    assert_eq!(parse_i32("-0"), Some(0));
    assert_eq!(parse_i32("2147483647"), Some(i32::MAX));
    assert_eq!(parse_i32("-2147483648"), Some(i32::MIN));
    assert_eq!(parse_i32("2147483648"), None);
    assert_eq!(parse_i32("-2147483649"), None);
    assert_eq!(parse_i32("99999999999999999999999"), None);
    assert_eq!(parse_i32(""), None);
    assert_eq!(parse_i32("-"), None);
    assert_eq!(parse_i32("+"), None);
    assert_eq!(parse_i32("4x"), None);
    assert_eq!(parse_i32(" 4"), None);
    assert_eq!(parse_i32("٣"), None);
    for text in ["42", "-42", "+7", "", "-", "2147483648", "4x", "-0", "007"] {
        assert_eq!(parse_i32(text), text.parse::<i32>().ok());
    }
}

#[test]
fn unsigned_integers_refuse_a_minus_sign() {
    assert_eq!(parse_u8("255"), Some(255));
    assert_eq!(parse_u8("256"), None);
    assert_eq!(parse_u8("+5"), Some(5));
    assert_eq!(parse_u8("-0"), None);
    assert_eq!(parse_u8("-1"), None);
    assert_eq!(parse_usize("18446744073709551615"), "18446744073709551615".parse::<usize>().ok());
    assert_eq!(parse_usize("18446744073709551616"), None);
    assert_eq!(parse_usize("0"), Some(0));
    for text in ["255", "256", "+5", "-0", "", "1 "] {
        assert_eq!(parse_u8(text), text.parse::<u8>().ok());
    }
}

#[test]
fn integers_are_written_in_decimal() {
    assert_eq!(int_to_string(0), "0");
    assert_eq!(int_to_string(-5), "-5");
    assert_eq!(int_to_string(2026), "2026");
    assert_eq!(int_to_string(i64::MIN), i64::MIN.to_string());
    assert_eq!(int_to_string(i64::MAX), i64::MAX.to_string());
    assert_eq!(usize_to_string(0), "0");
    assert_eq!(usize_to_string(1234567890), "1234567890");
}

#[test]
fn fold_line_splits_between_characters() {
    let line = "é".repeat(40);
    let folded = fold_line(&line);
    assert_eq!(folded.len(), 2);
    assert_eq!(folded[0], "é".repeat(37));
    assert_eq!(folded[1], format!(" {}", "é".repeat(3)));
    for piece in &folded {
        assert!(piece.len() <= 75);
    }
}

#[test]
fn fold_line_loses_nothing() {
    let line: String = (0..500).map(|i| char::from(b'a' + (i % 26) as u8)).collect();
    let folded = fold_line(&line);
    let mut back = folded[0].clone();
    for piece in &folded[1..] {
        assert!(piece.starts_with(' '));
        back.push_str(&piece[1..]);
    }
    assert_eq!(back, line);
    for piece in &folded {
        assert!(piece.len() <= 75);
    }
    assert_eq!(folded[0].len(), 75);
    assert_eq!(folded[1].len(), 75);
}

#[test]
fn fold_line_handles_the_edges() {
    assert_eq!(fold_line(""), vec![""]);
    assert_eq!(fold_line(&"x".repeat(76)), vec!["x".repeat(75), " x".to_string()]);
    let wide = format!("{}{}", "x".repeat(74), "€");
    let folded = fold_line(&wide);
    assert_eq!(folded, vec!["x".repeat(74), " €".to_string()]);
}

#[test]
fn push_line_appends_the_folded_line() {
    let mut lines = vec!["first".to_string()];
    push_line(&mut lines, "y".repeat(80));
    assert_eq!(lines, vec!["first".to_string(), "y".repeat(75), format!(" {}", "y".repeat(5))]);
}

#[test]
fn join_and_terminate() {
    let items = vec!["a".to_string(), "b".to_string(), "c".to_string()];
    assert_eq!(join(&items, ","), "a,b,c");
    assert_eq!(join(&items[..1].to_vec(), ","), "a");
    assert_eq!(join(&Vec::new(), ","), "");
    assert_eq!(terminate_lines(&items), "a\r\nb\r\nc\r\n");
    assert_eq!(terminate_lines(&Vec::new()), "");
}

#[test]
fn sort_dedup_orders_and_removes_duplicates() {
    let list = vec!["b".to_string(), "a".to_string(), "b".to_string(), "A".to_string()];
    assert_eq!(sort_dedup(&list), vec!["A", "a", "b"]);
    assert_eq!(sort_dedup(&Vec::new()), Vec::<String>::new());
}

#[test]
fn string_map_keeps_its_keys_in_order() {
    let mut m: StrMap<String> = StrMap::new();
    assert!(m.is_empty());
    m.insert("b".to_string(), "2".to_string());
    m.insert("a".to_string(), "1".to_string());
    m.insert("c".to_string(), "3".to_string());
    m.insert("a".to_string(), "one".to_string());
    assert_eq!(m.len(), 3);
    assert_eq!(m.key_at(0), "a");
    assert_eq!(m.value_at(0), "one");
    assert_eq!(m.key_at(1), "b");
    assert_eq!(m.key_at(2), "c");
    assert_eq!(m.get("b"), Some(&"2".to_string()));
    assert_eq!(m.get("x"), None);
    assert!(m.contains_key("c"));
    assert_eq!(m.position("b"), Ok(1));
    assert_eq!(m.position("bb"), Err(2));
    m.set_value_at(2, "three".to_string());
    assert_eq!(m.get("c"), Some(&"three".to_string()));
    assert_eq!(m.into_keys(), vec!["a", "b", "c"]);
}

#[test]
fn year_set_is_a_sorted_set() {
    let mut years = YearSet::new();
    assert!(years.is_empty());
    years.insert(2027);
    years.insert(2025);
    years.insert(2027);
    years.insert_opt(None);
    years.insert_opt(Some(2026));
    assert_eq!(years.len(), 3);
    assert_eq!(years.year_at(0), 2025);
    assert_eq!(years.year_at(1), 2026);
    assert_eq!(years.year_at(2), 2027);
    assert!(years.contains(2026));
    assert!(!years.contains(2024));
}

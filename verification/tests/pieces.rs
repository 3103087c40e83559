//! Texts, numbers, orders, dates and maps.

use beads_store::assoc::{group_pairs, TextMap};
use beads_store::chunk::{chunks, list_texts, list_texts_in_runs};
use beads_store::clock::{opt_rfc3339, parse_datetime, parse_opt_datetime, settle_datetime, Timestamp};
use beads_store::error::BeadsError;
use beads_store::json::{decode_texts, encode_texts};
use beads_store::order::{place, place_unique, sort_texts, sort_unique};
use beads_store::pattern::escape_like_pattern;
use beads_store::scan::{
    before_first, is_white_space, parse_u32, position_from, strip_prefix, trim, write_decimal,
    write_signed,
};
use beads_store::sql::{size_from, Row, SqlBuilder, SqlValue};
use beads_store::text::{
    chars_of, copy_opt, copy_texts, holds, join_texts, joined, joined3, same_opt, same_text,
    text_at_most, text_between,
};

fn texts(list: &[&str]) -> Vec<String> {
    list.iter().map(|s| s.to_string()).collect()
}

fn at(seconds: i64, nanos: u32) -> Timestamp {
    Timestamp::new(seconds, nanos).unwrap()
}

#[test]
fn texts_are_joined_and_compared() {
    assert_eq!(joined("ab", "cé"), "abcé");
    assert_eq!(joined3("a", "", "c"), "ac");
    assert_eq!(join_texts(&texts(&["x", "y", "z"]), ", "), "x, y, z");
    assert_eq!(join_texts(&texts(&["x"]), ", "), "x");
    assert_eq!(join_texts(&texts(&[]), ", "), "");
    assert!(same_text("bd-1", "bd-1"));
    assert!(!same_text("bd-1", "bd-10"));
    assert!(holds(&texts(&["a", "b"]), "b"));
    assert!(!holds(&texts(&["a", "b"]), "ab"));
    assert_eq!(copy_texts(&texts(&["a", "b"])), texts(&["a", "b"]));
    assert_eq!(copy_opt(&Some("a".to_string())), Some("a".to_string()));
    assert!(same_opt(&None, &None));
    assert!(!same_opt(&Some(String::new()), &None));
    assert_eq!(chars_of("aé"), vec!['a', 'é']);
    assert_eq!(text_between(&chars_of("abcdé"), 1, 5), "bcdé");
    for (a, b) in [("a", "b"), ("", "a"), ("a", "aa"), ("B", "a"), ("a", "é"), ("z", "\u{ffff}")] {
        assert!(text_at_most(a, b) && a <= b);
        assert!(!text_at_most(b, a));
    }
    assert!(text_at_most("same", "same"));
}

#[test]
fn orders_agree_with_the_standard_library() {
    let mixed = texts(&["b", "a", "b", "", "é", "aa", "B", "\u{1F600}", "\u{ffff}"]);
    let mut sorted = mixed.clone();
    sorted.sort();
    assert_eq!(sort_texts(&mixed), sorted);
    sorted.dedup();
    assert_eq!(sort_unique(&mixed), sorted);
    let mut list = texts(&["a", "c"]);
    place(&mut list, "b".to_string());
    place(&mut list, "c".to_string());
    assert_eq!(list, texts(&["a", "b", "c", "c"]));
    let mut list = texts(&["a", "c"]);
    place_unique(&mut list, "c".to_string());
    place_unique(&mut list, "b".to_string());
    assert_eq!(list, texts(&["a", "b", "c"]));
}

#[test]
fn patterns_are_escaped() {
    assert_eq!(escape_like_pattern("100%_sure\\"), "100\\%\\_sure\\\\");
    assert_eq!(escape_like_pattern("plain"), "plain");
    assert_eq!(escape_like_pattern(""), "");
}

#[test]
fn numbers_are_written_and_read() {
    assert_eq!(write_decimal(0), "0");
    assert_eq!(write_decimal(1009), "1009");
    assert_eq!(write_decimal(u64::MAX), u64::MAX.to_string());
    assert_eq!(write_signed(0), "0");
    assert_eq!(write_signed(-40), "-40");
    assert_eq!(write_signed(i32::MIN), i32::MIN.to_string());
    assert_eq!(write_signed(i32::MAX), i32::MAX.to_string());
    for s in [
        "0", "7", "+7", "007", "4294967295", "4294967296", "", "+", "-1", "1a", " 1", "1.5", "++1",
        "99999999999999999999",
    ] {
        assert_eq!(parse_u32(s), s.parse::<u32>().ok(), "{s}");
    }
}

#[test]
fn texts_are_cut() {
    assert_eq!(strip_prefix("external:a:b", "external:"), Some("a:b".to_string()));
    assert_eq!(strip_prefix("externa", "external:"), None);
    assert_eq!(strip_prefix("a", ""), Some("a".to_string()));
    assert_eq!(before_first("bd-1:open", ':'), "bd-1");
    assert_eq!(before_first("bd-1", ':'), "bd-1");
    assert_eq!(before_first(":x", ':'), "");
    assert_eq!(position_from(&chars_of("a:b:c"), ':', 2), 3);
    assert_eq!(position_from(&chars_of("abc"), ':', 0), 3);
    for s in ["", "  ", " a ", "\t\u{2003}x y\u{00a0}\n", "x"] {
        assert_eq!(trim(s), s.trim());
    }
}

#[test]
fn white_space_agrees_with_the_standard_library() {
    for n in 0..=0x10FFFFu32 {
        if let Some(c) = char::from_u32(n) {
            assert_eq!(is_white_space(c), c.is_whitespace(), "{n:x}");
        }
    }
}

#[test]
fn dates_are_written() {
    assert_eq!(at(0, 0).to_rfc3339(), "1970-01-01T00:00:00+00:00");
    assert_eq!(at(1735689600, 0).to_rfc3339(), "2025-01-01T00:00:00+00:00");
    assert_eq!(at(1735689600, 500_000_000).to_rfc3339(), "2025-01-01T00:00:00.500+00:00");
    assert_eq!(at(-1, 1).to_rfc3339(), "1969-12-31T23:59:59.000000001+00:00");
    assert_eq!(opt_rfc3339(&None), None);
    assert_eq!(opt_rfc3339(&Some(at(0, 0))), Some("1970-01-01T00:00:00+00:00".to_string()));
    assert!(Timestamp::new(0, 2_000_000_000).is_none());
    assert!(Timestamp::new(0, 1_500_000_000).is_none());
    assert!(Timestamp::new(59, 1_500_000_000).is_some());
    assert!(Timestamp::new(i64::MAX, 0).is_none());
    assert!(Timestamp::new(8_210_266_876_799, 0).is_some());
    assert!(Timestamp::new(8_210_266_876_800, 0).is_none());
    assert!(Timestamp::new(-8_334_601_228_800, 0).is_some());
    assert!(Timestamp::new(-8_334_601_228_801, 0).is_none());
}

#[test]
fn dates_are_read_back() {
    for t in [
        at(0, 0),
        at(1735689600, 123_456_789),
        at(-62_167_219_200, 0),
        at(253_402_300_799, 999_999_999),
        at(1_483_228_799, 1_000_000_000),
        at(59, 1_500_000_000),
    ] {
        assert_eq!(parse_datetime(&t.to_rfc3339()).unwrap(), t);
    }
}

#[test]
fn dates_are_read_in_two_forms() {
    assert_eq!(parse_datetime("2025-07-01T02:00:00+02:00").unwrap(), at(1751328000, 0));
    assert_eq!(parse_datetime("2025-07-01 00:00:00").unwrap(), at(1751328000, 0));
    assert_eq!(
        parse_datetime("yesterday"),
        Err(BeadsError::Config("unparseable datetime: yesterday".to_string()))
    );
    assert_eq!(parse_opt_datetime(&None), Ok(None));
    assert!(parse_opt_datetime(&Some(String::new())).is_err());
    assert_eq!(
        parse_opt_datetime(&Some("2025-07-01 00:00:00".to_string())),
        Ok(Some(at(1751328000, 0)))
    );
    assert!(parse_opt_datetime(&Some("soon".to_string())).is_err());
    assert_eq!(settle_datetime("x", Some(at(1, 0)), Some(at(2, 0))), Ok(at(1, 0)));
    assert_eq!(settle_datetime("x", None, Some(at(2, 0))), Ok(at(2, 0)));
    assert!(settle_datetime("x", None, None).is_err());
}

#[test]
fn lists_of_texts_survive_json() {
    let list = texts(&["bd-1:open", "a\"b", "back\\slash", "new\nline", "é\u{1F600}", ""]);
    let json = encode_texts(&list);
    assert_ne!(json, "");
    assert_eq!(decode_texts(&json), Some(list));
    assert_eq!(encode_texts(&texts(&["a", "b"])), "[\"a\",\"b\"]");
    assert_eq!(decode_texts("[]"), Some(vec![]));
    assert_eq!(decode_texts("not json"), None);
    assert_eq!(decode_texts("[1]"), None);
    assert_eq!(decode_texts("{}"), None);
}

#[test]
fn maps_keep_the_order_of_their_keys() {
    let mut m: TextMap<usize> = TextMap::new();
    m.insert("b", 1);
    m.insert("a", 2);
    m.insert("b", 3);
    assert_eq!(m.len(), 2);
    assert_eq!((m.key(0), *m.value(0)), ("b", 3));
    assert_eq!((m.key(1), *m.value(1)), ("a", 2));
    assert_eq!(m.get("a"), Some(&2));
    assert_eq!(m.get("c"), None);
    assert!(m.has("b") && !m.has("c"));
    let pairs = vec![
        ("x".to_string(), "1".to_string()),
        ("y".to_string(), "2".to_string()),
        ("x".to_string(), "3".to_string()),
    ];
    let g = group_pairs(&pairs);
    assert_eq!(g.get("x"), Some(&texts(&["1", "3"])));
    assert_eq!(g.get("y"), Some(&texts(&["2"])));
}

#[test]
fn long_lists_are_cut_into_runs() {
    let ids: Vec<String> = (0..2000).map(|n| format!("bd-{n}")).collect();
    let runs = chunks(&ids, 900);
    assert_eq!(runs.iter().map(Vec::len).collect::<Vec<_>>(), vec![900, 900, 200]);
    assert_eq!(runs.concat(), ids);
    let statements = list_texts_in_runs("DELETE FROM t WHERE id IN (", &ids, ",", ")");
    assert_eq!(statements.len(), 3);
    for s in &statements {
        assert_eq!(s.sql.matches('?').count(), s.params.len());
    }
    let one = list_texts("IN (", &texts(&["a", "b"]), ", ", ");");
    assert_eq!(one.sql, "IN (?, ?);");
    assert_eq!(one.params, vec![SqlValue::text("a"), SqlValue::text("b")]);
    assert!(list_texts_in_runs("x", &vec![], ",", "y").is_empty());
}

#[test]
fn statements_are_put_together() {
    let mut b = SqlBuilder::new();
    b.raw("SELECT 1 WHERE a = ");
    b.bind(SqlValue::Integer(7));
    b.raw_if(false, " hidden");
    b.raw_if(true, " AND b");
    b.raw_bind(" = ", SqlValue::text("x"));
    b.one_of(" AND c IN (", vec![SqlValue::Null, SqlValue::truth(true)], ")");
    let s = b.finish();
    assert_eq!(s.sql, "SELECT 1 WHERE a = ? AND b = ? AND c IN (?,?)");
    assert_eq!(
        s.params,
        vec![
            SqlValue::Integer(7),
            SqlValue::text("x"),
            SqlValue::Null,
            SqlValue::Integer(1),
        ]
    );
    let row = Row { values: vec![SqlValue::text("t"), SqlValue::Integer(-3), SqlValue::Other] };
    assert_eq!(row.text(0), Some("t".to_string()));
    assert_eq!(row.text(1), None);
    assert_eq!(row.text(9), None);
    assert_eq!(row.text_or(2, "d"), "d");
    assert_eq!(row.integer(1), Some(-3));
    assert_eq!(row.integer_or_zero(0), 0);
    assert_eq!(size_from(-3), 0);
    assert_eq!(size_from(3), 3);
}

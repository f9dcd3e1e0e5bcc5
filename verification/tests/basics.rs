use hl_orderbook::bytes::{is_before, push_be, same_bytes, starts_with_bytes};
use hl_orderbook::history::{make_key, make_prefix, HistoryQuery};
use hl_orderbook::nameset::NameSet;
use hl_orderbook::order::stable_order;
use hl_orderbook::rows::RowMap;
use hl_orderbook::strategy::stats_db::StrategyStats;
use hl_orderbook::strmap::StrMap;
use hl_orderbook::text::{
    contains_text, decimal_string, eq_ignore_ascii_case, is_not_after, lines_of, parse_i128, parse_u32,
    parse_u64, signed_string, starts_with, text_before, to_ascii_lowercase, trim,
};
use hl_orderbook::types::{L2Book, Level};

#[test]
fn numbers_are_written_and_read() {
    for n in [0, 9, 10, u64::MAX] {
        assert_eq!(decimal_string(n), n.to_string());
        assert_eq!(parse_u64(&n.to_string()), Some(n));
    }
    for s in ["", "+", "-1", "1a", "18446744073709551616", "+7", "007"] {
        assert_eq!(parse_u64(s), s.parse::<u64>().ok());
        assert_eq!(parse_u32(s), s.parse::<u32>().ok());
        assert_eq!(parse_i128(s), s.parse::<i128>().ok());
    }
    for n in [0, -1, i128::MIN, i128::MAX] {
        assert_eq!(signed_string(n), n.to_string());
        assert_eq!(parse_i128(&n.to_string()), Some(n));
    }
}

#[test]
fn texts_are_searched_and_cut() {
    assert!(contains_text("abcabd", "abd"));
    assert!(!contains_text("ab", "abc"));
    assert!(contains_text("ab", ""));
    assert!(starts_with("abc", "ab"));
    assert_eq!(text_before("a:b:c", ':'), "a");
    assert_eq!(text_before("abc", ':'), "abc");
    assert_eq!(to_ascii_lowercase("AbÄ"), "abÄ");
    assert!(eq_ignore_ascii_case("AbC", "aBc"));
    assert_eq!(trim(" \t a b\u{3000}\n"), "a b");
    assert_eq!(trim("  "), "");
    for c in '\0'..=char::MAX {
        assert_eq!(trim(&c.to_string()).is_empty(), c.is_whitespace());
    }
    assert!(is_not_after("Z", "a"));
    assert!(!is_not_after("b", "a"));
    for s in ["", "a", "a\nb", "a\r\nb\n", "\n\n", "a\rb"] {
        let want: Vec<String> = s.lines().map(String::from).collect();
        assert_eq!(lines_of(s), want);
    }
}

#[test]
fn maps_forget_what_is_removed() {
    let mut m: StrMap<String> = StrMap::new();
    for (k, v) in [("b", "1"), ("a", "2"), ("c", "3")] {
        m.insert(k.to_string(), v.to_string());
    }
    assert_eq!(m.remove("b"), Some("1".to_string()));
    assert_eq!(m.remove("b"), None);
    assert_eq!(m.sorted_keys(), vec!["a", "c"]);
    assert_eq!(m.get("c").cloned(), Some("3".to_string()));
    m.clear();
    assert!(m.is_empty());
}

#[test]
fn names_come_in_order() {
    let mut s = NameSet::new();
    for n in ["c", "a", "b", "a"] {
        s.insert(n.to_string());
    }
    assert_eq!(s.len(), 3);
    assert_eq!(s.first(2), vec!["a", "b"]);
    assert!(s.contains("c"));
}

#[test]
fn sorting_keeps_equals_in_order() {
    assert_eq!(stable_order(&vec![3, 1, 3, 2, 1]), vec![1, 4, 3, 0, 2]);
    assert_eq!(stable_order(&Vec::new()), Vec::<usize>::new());
}

#[test]
fn bytes_compare_as_slices_do() {
    let cases: [&[u8]; 5] = [&[], &[0], &[0, 1], &[1], &[255]];
    for a in cases {
        for b in cases {
            assert_eq!(is_before(a, b), a < b);
            assert_eq!(same_bytes(a, b), a == b);
            assert_eq!(starts_with_bytes(a, b), a.starts_with(b));
        }
    }
    let mut v = Vec::new();
    push_be(&mut v, 0x0102, 4);
    assert_eq!(v, vec![0, 0, 1, 2]);
}

#[test]
fn rows_are_kept_by_key() {
    let mut rows: RowMap<StrategyStats> = RowMap::new();
    rows.add(vec![1], StrategyStats::default());
    assert!(rows.contains_key(&[1]));
    rows.get_mut(&[1]).unwrap().fill_count = 4;
    assert_eq!(rows.get(&[1]).unwrap().fill_count, 4);
    let (keys, vals) = rows.into_rows();
    assert_eq!((keys, vals.len()), (vec![vec![1]], 1));
}

#[test]
fn books_are_found_by_coin_and_time() {
    let q = HistoryQuery { coin: "BTC".to_string(), start: 5, end: 7, n_sig_figs: None, mantissa: None };
    assert!(!q.wants_rebucket());
    let b = q.bounds();
    assert!(b.start <= make_key("BTC", 5));
    assert!(b.goes_on(&make_key("BTC", 5)));
    assert!(b.goes_on(&make_key("BTC", 7)));
    assert!(!b.goes_on(&make_key("BTC", 8)));
    assert!(!b.goes_on(&make_key("BTCX", 6)));
    assert!(make_key("BTC", 1).starts_with(&make_prefix("BTC")));
    assert!(make_key("BTC", 1) < make_key("BTC", 256));
    let all = HistoryQuery { end: u64::MAX, ..q }.bounds();
    assert!(all.goes_on(&make_key("BTC", 5)));
    assert!(all.goes_on(&make_key("BTC", u64::MAX)));
    assert!(!all.goes_on(&make_key("BTCX", 6)));
}

#[test]
fn books_are_regrouped() {
    let level = |p: &str| Level::new(p.to_string(), "1".to_string(), 1);
    let book = L2Book::from_l2_snapshot("BTC".to_string(), [vec![level("1")], vec![]], 9, None, None, Some(3));
    let coarse = book.rebucket(Some(2), None, [vec![], vec![level("2")]]);
    assert_eq!((coarse.coin(), coarse.time(), coarse.n_sig_figs(), coarse.mantissa()), ("BTC", 9, Some(2), None));
    assert_eq!(coarse.levels()[1][0].px(), "2");
}

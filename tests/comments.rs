use danmaku::comment::{
    classify_user, escape_newlines, normalize, parse_entry, parse_position, sort_entries,
    CommentRecord, DanmakuEntry, Filter, Source,
};
use danmaku::ident::ResolveError;

fn entry(time_ms: u64, message: &str) -> DanmakuEntry {
    DanmakuEntry {
        message: message.to_string(),
        count: 1,
        time_ms,
        r: 0,
        g: 0,
        b: 0,
        source: Source::Unknown,
        blocked: false,
    }
}

fn record(p: &str, m: &str) -> CommentRecord {
    CommentRecord { p: p.to_string(), m: m.to_string() }
}

fn no_filter() -> Filter {
    Filter { keywords: Vec::new(), sources: Vec::new(), sources_rt: None }
}

#[test]
fn position_string_is_read() {
    let p = parse_position("12.5,1,16711680,[bilibili]42").unwrap();
    assert_eq!(p.time_ms, 12500);
    assert_eq!((p.r, p.g, p.b), (255, 0, 0));
    assert_eq!(p.source, Source::Bilibili);
}

#[test]
fn color_is_unpacked() {
    let p = parse_position("0,1,1193046,7").unwrap();
    assert_eq!((p.r, p.g, p.b), (0x12, 0x34, 0x56));
    assert_eq!(p.source, Source::Dandan);
    assert_eq!(p.time_ms, 0);
}

#[test]
fn malformed_positions_are_refused() {
    assert_eq!(parse_position("1.5,1,255"), None);
    assert_eq!(parse_position("x,1,255,u"), None);
    assert_eq!(parse_position("1.5,1,red,u"), None);
    assert_eq!(parse_position("1.5,1,16777216,u"), None);
    assert_eq!(parse_position(".,1,0,u"), None);
    assert_eq!(parse_position("1e3,1,0,u"), None);
    assert_eq!(parse_position("++1,1,0,u"), None);
}

#[test]
fn user_field_keeps_commas() {
    let p = parse_position("3.25,1,0,[QQ]a,b").unwrap();
    assert_eq!(p.source, Source::QQ);
    assert_eq!(p.time_ms, 3250);
}

#[test]
fn user_tags_are_classified() {
    assert_eq!(classify_user("12345"), Source::Dandan);
    assert_eq!(classify_user("[Gamer]abc"), Source::Gamer);
    assert_eq!(classify_user("[AcFun]"), Source::AcFun);
    assert_eq!(classify_user("[iqiyi]1"), Source::IQIYI);
    assert_eq!(classify_user("[d]1"), Source::D);
    assert_eq!(classify_user("[other]1"), Source::Unknown);
    assert_eq!(classify_user("[bilibili"), Source::Unknown);
    assert_eq!(classify_user("abc"), Source::Unknown);
}

#[test]
fn source_names_ignore_ascii_case() {
    assert_eq!(Source::from_name("BiliBili"), Source::Bilibili);
    assert_eq!(Source::from("DANDAN"), Source::Dandan);
    assert_eq!(Source::from_name("qq"), Source::QQ);
    assert_eq!(Source::from_name("qqq"), Source::Unknown);
}

#[test]
fn newlines_are_escaped() {
    assert_eq!(escape_newlines("a\nb\n"), "a\\Nb\\N");
    assert_eq!(escape_newlines(""), "");
}

#[test]
fn entries_are_sorted_by_time() {
    let out = sort_entries(vec![entry(3000, "c"), entry(1000, "a"), entry(2000, "b")]);
    let times: Vec<u64> = out.iter().map(|e| e.time_ms).collect();
    assert_eq!(times, vec![1000, 2000, 3000]);
}

#[test]
fn sorting_keeps_order_of_equal_times() {
    let out = sort_entries(vec![entry(5, "x"), entry(1, "a"), entry(5, "y"), entry(5, "z")]);
    let msgs: Vec<&str> = out.iter().map(|e| e.message.as_str()).collect();
    assert_eq!(msgs, vec!["a", "x", "y", "z"]);
}

#[test]
fn runtime_source_set_overrides_configured_one() {
    let f = Filter {
        keywords: Vec::new(),
        sources: vec![Source::QQ],
        sources_rt: Some(vec![Source::Bilibili]),
    };
    assert!(!f.is_blocked(Source::QQ));
    assert!(f.is_blocked(Source::Bilibili));
    let g = Filter { keywords: Vec::new(), sources: vec![Source::QQ], sources_rt: None };
    assert!(g.is_blocked(Source::QQ));
    assert!(!g.is_blocked(Source::Bilibili));
}

#[test]
fn keywords_drop_messages() {
    let f = Filter {
        keywords: vec!["spoil".to_string(), "ad".to_string()],
        sources: Vec::new(),
        sources_rt: None,
    };
    assert!(!f.keeps("no spoilers"));
    assert!(!f.keeps("bad"));
    assert!(f.keeps("Spoil"));
    assert!(f.keeps(""));
}

#[test]
fn entry_counts_graphemes_of_raw_message() {
    let e = parse_entry(&record("1,1,0,1", "e\u{301}\nx"), &no_filter()).unwrap();
    assert_eq!(e.count, 3);
    assert_eq!(e.message, "e\u{301}\\Nx");
    assert_eq!(
        parse_entry(&record("1;1;0;1", "m"), &no_filter()).err(),
        Some(ResolveError::ParseError)
    );
}

#[test]
fn pipeline_filters_parses_and_orders() {
    let f = Filter {
        keywords: vec!["bad".to_string()],
        sources: vec![Source::QQ],
        sources_rt: None,
    };
    let recs = vec![
        record("3.0,1,0,[qq]1", "third"),
        record("1.0,1,0,[bilibili]1", "first"),
        record("garbage", "bad word"),
        record("2.0,1,65280,77", "second"),
    ];
    let out = normalize(&recs, &f).unwrap();
    let msgs: Vec<&str> = out.iter().map(|e| e.message.as_str()).collect();
    assert_eq!(msgs, vec!["first", "second", "third"]);
    assert!(out[2].blocked);
    assert!(!out[0].blocked);
    assert_eq!(out[1].g, 255);
    assert_eq!(out[1].source, Source::Dandan);
}

#[test]
fn pipeline_fails_on_a_malformed_kept_record() {
    let recs = vec![record("1.0,1,0,1", "ok"), record("oops", "kept")];
    assert_eq!(normalize(&recs, &no_filter()).err(), Some(ResolveError::ParseError));
}

#[test]
fn time_forms_with_sign_or_bare_point() {
    assert_eq!(parse_position(".5,1,0,u").unwrap().time_ms, 500);
    assert_eq!(parse_position("7.,1,0,u").unwrap().time_ms, 7000);
    assert_eq!(parse_position("+2.0625,1,+255,u").unwrap().time_ms, 2062);
    assert_eq!(parse_position("+2.0625,1,+255,u").unwrap().b, 255);
}

#[test]
fn bracketed_tags_are_not_numeric() {
    assert_eq!(classify_user("[bilibili]42"), Source::Bilibili);
    assert_eq!(classify_user(""), Source::Dandan);
}

use rredis::config::Config;
use rredis::text::{fmt_i64, fmt_u64, join_tokens, parse_u64, tokenize};

#[test]
fn tokenize_splits_on_whitespace_runs() {
    let toks = tokenize("  GET\t key-1 \r\n");
    assert_eq!(toks, vec!["GET".to_string(), "key-1".to_string()]);
    assert_eq!(tokenize(""), Vec::<String>::new());
    assert_eq!(tokenize(" \t "), Vec::<String>::new());
    assert_eq!(tokenize("one"), vec!["one".to_string()]);
}

#[test]
fn join_rebuilds_with_single_spaces() {
    let toks = vec!["a".to_string(), "bb".to_string(), "c".to_string()];
    assert_eq!(join_tokens(&toks, 0, 3), "a bb c");
    assert_eq!(join_tokens(&toks, 1, 3), "bb c");
    assert_eq!(join_tokens(&toks, 1, 1), "");
}

#[test]
fn parse_u64_accepts_digit_strings() {
    assert_eq!(parse_u64("0"), Some(0));
    assert_eq!(parse_u64("123"), Some(123));
    assert_eq!(parse_u64("18446744073709551615"), Some(u64::MAX));
}

#[test]
fn parse_u64_rejects_the_rest() {
    assert_eq!(parse_u64(""), None);
    assert_eq!(parse_u64("12a"), None);
    assert_eq!(parse_u64("-1"), None);
    assert_eq!(parse_u64(" 1"), None);
    assert_eq!(parse_u64("18446744073709551616"), None);
}

#[test]
fn decimal_rendering() {
    assert_eq!(fmt_u64(0), "0");
    assert_eq!(fmt_u64(7), "7");
    assert_eq!(fmt_u64(1234), "1234");
    assert_eq!(fmt_u64(u64::MAX), "18446744073709551615");
    assert_eq!(fmt_i64(-1), "-1");
    assert_eq!(fmt_i64(0), "0");
    assert_eq!(fmt_i64(42), "42");
    assert_eq!(fmt_i64(-6000), "-6000");
}

#[test]
fn config_renders_its_address() {
    let c = Config::new("127.0.0.1".to_string(), 6380, 1024);
    assert_eq!(c.get_addr(), "127.0.0.1:6380");
    assert_eq!(c.get_max_conns(), 1024);
}

use localtoglobal::order::sort_stable;
use localtoglobal::routes::{sort_routes, ShareRoute};
use localtoglobal::text::chars::{chars_of, same, size_of};
use localtoglobal::text::class::{
    lines_of, split_by, split_once_by, trim_by, trim_end_by, trim_space, words_of, CharClass,
};
use localtoglobal::text::number::{
    parse_hex_usize, parse_u32, to_decimal, to_hexadecimal, to_signed_decimal,
};
use localtoglobal::text::search::{has, join, replaced, split_at_each, starts_with, strip_last};

fn samples() -> Vec<&'static str> {
    vec![
        "", " ", "a", "a b", "  a\tb \n", "a,,b,", ",", "one\r\ntwo\n\r\nthree\r", "\n", "\r\n",
        "gr\u{fc}n \u{2003}x\u{a0}", "\u{85}\u{3000}y\u{1680}", "x\u{b}\u{c}y", "\\n\\\\n", "aaa",
        "\u{1c}a\u{1f}", "\u{200b}a\u{feff}", "\u{2028}a\u{2029}\u{202f}\u{205f}",
    ]
}

#[test]
fn splits_like_the_standard_library() {
    for s in samples() {
        assert_eq!(split_by(s, CharClass::Char(',')), s.split(',').collect::<Vec<_>>());
        assert_eq!(words_of(s), s.split_whitespace().collect::<Vec<_>>());
        assert_eq!(lines_of(s), s.lines().collect::<Vec<_>>());
        assert_eq!(split_at_each(s, "\r\n"), s.split("\r\n").collect::<Vec<_>>());
        assert_eq!(
            split_once_by(s, CharClass::Char(',')),
            s.split_once(',').map(|(a, b)| (a.to_string(), b.to_string()))
        );
    }
}

#[test]
fn trims_like_the_standard_library() {
    for s in samples() {
        assert_eq!(trim_space(s), s.trim());
        assert_eq!(trim_by(s, CharClass::Char('a')), s.trim_matches('a'));
        assert_eq!(trim_end_by(s, CharClass::Char('a')), s.trim_end_matches('a'));
        assert_eq!(strip_last(s, 'a').as_deref(), s.strip_suffix('a'));
    }
    assert_eq!(trim_by("'\"x)',\"", CharClass::UrlEdge), "x");
}

#[test]
fn searches_like_the_standard_library() {
    for s in samples() {
        for p in ["", "a", "aa", "b", "\\n", "\r\n"] {
            assert_eq!(has(s, p), s.contains(p));
            assert_eq!(starts_with(s, p), s.starts_with(p));
        }
        assert_eq!(replaced(s, "a", "bb"), s.replace("a", "bb"));
        assert_eq!(replaced(s, "aa", "x"), s.replace("aa", "x"));
        assert_eq!(replaced(s, "\\n", "\n"), s.replace("\\n", "\n"));
    }
}

#[test]
fn measures_in_bytes_and_in_characters() {
    assert_eq!(size_of("gr\u{fc}n"), 5);
    assert_eq!(chars_of("gr\u{fc}n"), vec!['g', 'r', '\u{fc}', 'n']);
    assert!(same("gr\u{fc}n", "gr\u{fc}n"));
    assert!(!same("a", "ab"));
    assert!(!same("a", "b"));
}

#[test]
fn joins_like_the_standard_library() {
    let pieces = vec!["a".to_string(), "".to_string(), "b".to_string()];
    assert_eq!(join(&pieces, ", "), "a, , b");
    assert_eq!(join(&Vec::new(), ", "), "");
    assert_eq!(split_by(&join(&pieces, ","), CharClass::Char(',')), pieces);
}

#[test]
fn writes_numbers() {
    for n in [0, 9, 10, 255, 65536, u64::MAX] {
        assert_eq!(to_decimal(n), n.to_string());
        assert_eq!(to_hexadecimal(n), format!("{:x}", n));
    }
    for n in [0, -1, 95, -60, i32::MIN, i32::MAX] {
        assert_eq!(to_signed_decimal(n), n.to_string());
    }
}

#[test]
fn reads_numbers_like_the_standard_library() {
    for s in [
        "", "+", "-", "0", "+0", "007", "4294967295", "4294967296", "99999999999999999999x", "1 ",
        " 1", "++1", "-1", "1a", "ff", "FF", "+fF", "g", "0x1", "ffffffffffffffff",
        "10000000000000000", "00000000000000000000001", "\u{661}",
    ] {
        assert_eq!(parse_u32(s), s.parse::<u32>().ok(), "{}", s);
        assert_eq!(parse_hex_usize(s), usize::from_str_radix(s, 16).ok(), "{}", s);
    }
}

fn routes(list: &[(&str, u16)]) -> Vec<ShareRoute> {
    list.iter()
        .map(|(path, port)| ShareRoute { path: path.to_string(), upstream_port: *port })
        .collect()
}

#[test]
fn sorts_and_keeps_ties_in_order() {
    let unsorted = [("/a", 1), ("/\u{fc}", 2), ("/b", 3), ("", 4), ("/a", 5), ("/abc", 6)];
    let listed = |sorted: Vec<ShareRoute>| -> Vec<u16> {
        sorted.iter().map(|r| r.upstream_port).collect()
    };
    assert_eq!(listed(sort_routes(routes(&unsorted))), vec![6, 2, 1, 3, 5, 4]);
    assert_eq!(listed(sort_stable(routes(&unsorted))), vec![6, 2, 1, 3, 5, 4]);
    assert!(sort_routes(Vec::new()).is_empty());
}

use oma_browse::json::{inner_text, unquote};
use oma_browse::number::{parse_i64, parse_u32, parse_u64, to_decimal, to_hex, to_padded};
use oma_browse::pathname::{extension, file_name, file_stem, is_absolute, join, parent, same_path};
use oma_browse::text;

const PATHS: [&str; 22] = [
    "", "/", "//", ".", "..", "a", "a/", "a/b", "a//b", "/a", "/a/", "/a/b.txt", "/a/b.tar.gz",
    "/a/.hidden", "/a/..", "/a/.", "./a", "a/./b", "a/../b", "/a/b/./", "x.", ".x.y",
];

#[test]
fn a_path_comes_apart_the_way_the_standard_library_takes_it_apart() {
    for p in PATHS {
        let std = std::path::Path::new(p);
        let name = std.file_name().map(|n| n.to_string_lossy().into_owned());
        assert_eq!(file_name(p), name, "file_name of {p:?}");
        let stem = std.file_stem().map(|n| n.to_string_lossy().into_owned());
        assert_eq!(file_stem(p), stem, "file_stem of {p:?}");
        let ext = std.extension().map(|n| n.to_string_lossy().into_owned());
        assert_eq!(extension(p), ext, "extension of {p:?}");
        let up = std.parent().map(|n| n.to_string_lossy().into_owned());
        assert_eq!(parent(p), up, "parent of {p:?}");
        assert_eq!(is_absolute(p), std.is_absolute(), "is_absolute of {p:?}");
    }
}

#[test]
fn two_paths_are_put_together_and_told_apart_the_same_way() {
    for a in PATHS {
        for b in PATHS {
            let std_a = std::path::Path::new(a);
            let std_b = std::path::Path::new(b);
            assert_eq!(join(a, b), std_a.join(std_b).display().to_string(), "{a:?} join {b:?}");
            assert_eq!(same_path(a, b), std_a == std_b, "{a:?} == {b:?}");
        }
    }
}

#[test]
fn numbers_are_written_and_read_the_usual_way() {
    for n in [0u64, 9, 10, 255, 4096, u64::MAX] {
        assert_eq!(to_decimal(n), n.to_string());
        assert_eq!(to_hex(n), format!("{n:x}"));
        assert_eq!(to_padded(n, 4), format!("{n:04}"));
        assert_eq!(parse_u64(&to_decimal(n)), Some(n));
    }
    for raw in ["", "+", "-", "+7", "-7", "007", "7 ", "18446744073709551616", "4294967296", "x"] {
        assert_eq!(parse_u64(raw), raw.parse::<u64>().ok(), "{raw:?}");
        assert_eq!(parse_u32(raw), raw.parse::<u32>().ok(), "{raw:?}");
        assert_eq!(parse_i64(raw), raw.parse::<i64>().ok(), "{raw:?}");
    }
    for n in [i64::MIN, -1, 0, i64::MAX] {
        assert_eq!(parse_i64(&n.to_string()), Some(n));
    }
}

const TEXTS: [&str; 14] = [
    "", " ", "a", " a ", "a\nb", "a\r\nb\n", "\n\n", "a,b,,c", "aaa", "é ü", "\u{a0}x\u{3000}",
    "AbC", "x\ty  z", "\"q\"",
];

#[test]
fn text_is_cut_the_way_the_standard_library_cuts_it() {
    for t in TEXTS {
        assert_eq!(text::trim(t), t.trim(), "{t:?}");
        assert_eq!(text::trim_start(t), t.trim_start(), "{t:?}");
        assert_eq!(text::trim_end(t), t.trim_end(), "{t:?}");
        assert_eq!(text::split_lines(t), t.lines().collect::<Vec<_>>(), "{t:?}");
        assert_eq!(text::split(t, ','), t.split(',').collect::<Vec<_>>(), "{t:?}");
        assert_eq!(text::splitn(t, 2, ','), t.splitn(2, ',').collect::<Vec<_>>(), "{t:?}");
        assert_eq!(text::split_words(t), t.split_whitespace().collect::<Vec<_>>(), "{t:?}");
        assert_eq!(text::to_lower(t), t.to_ascii_lowercase(), "{t:?}");
        assert_eq!(text::replace(t, "a", "bb"), t.replace("a", "bb"), "{t:?}");
        assert_eq!(text::swap_char(t, 'a', 'b'), t.replace('a', "b"), "{t:?}");
        assert_eq!(text::trim_of(t, "a\""), t.trim_matches(|c| c == 'a' || c == '"'), "{t:?}");
        assert_eq!(text::trim_prefixes(t, "a"), t.trim_start_matches('a'), "{t:?}");
        assert_eq!(text::trim_suffixes(t, "a"), t.trim_end_matches('a'), "{t:?}");
        assert_eq!(text::align_right(t, 5), format!("{t:>5}"), "{t:?}");
        assert_eq!(text::align_left(t, 5), format!("{t:<5}"), "{t:?}");
        for u in TEXTS {
            assert_eq!(text::contains(t, u), t.contains(u), "{t:?} {u:?}");
            assert_eq!(text::starts_with(t, u), t.starts_with(u), "{t:?} {u:?}");
            assert_eq!(text::ends_with(t, u), t.ends_with(u), "{t:?} {u:?}");
            assert_eq!(text::before(t, u), t < u, "{t:?} {u:?}");
            assert_eq!(text::same(t, u), t == u, "{t:?} {u:?}");
            assert_eq!(
                text::strip_prefix(t, u).as_deref(),
                t.strip_prefix(u),
                "{t:?} {u:?}"
            );
        }
    }
}

#[test]
fn every_kind_of_white_space_is_white_space() {
    for n in 0..0x3100u32 {
        if let Some(c) = char::from_u32(n) {
            assert_eq!(text::space(c), c.is_whitespace(), "{n:x}");
        }
    }
}

#[test]
fn an_answer_in_quotes_is_the_text_in_them() {
    assert_eq!(unquote("\"a\\nb\"".to_string()), "a\nb");
    assert_eq!(unquote("[1]".to_string()), "[1]");
    assert_eq!(inner_text("raw".to_string(), Some("in".to_string())), "in");
    assert_eq!(inner_text("raw".to_string(), None), "raw");
}

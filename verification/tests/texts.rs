use pqcrypt::paths::{ends_in_name, join_path};
use pqcrypt::text::{
    chars_of, contains, contains_lowered, decimal_text, ends_with, has_space, join2, join3, lines,
    list4, list5, parse_u64, part, same_lowered, same_text, space, split, starts_with, strip_prefix,
    trim, trim_leading, trim_trailing, words,
};
use std::path::Path;

const SAMPLES: [&str; 16] = [
    "",
    " ",
    "\n",
    "\r\n",
    "a",
    " a b ",
    "\tpush  refs/heads/main:refs/heads/main \n",
    "one\ntwo\r\nthree",
    "one\n\ntwo\n",
    "trailing\r",
    "\u{3000}wide\u{a0}spaces\u{2003}",
    "a:b:c",
    ":",
    "::",
    "//a//b//",
    "żółw\nñandú",
];

#[test]
fn space_is_what_unicode_calls_white_space() {
    for code in 0..=0x10ffff_u32 {
        if let Some(c) = char::from_u32(code) {
            assert_eq!(space(c), c.is_whitespace(), "{code:x}");
        }
    }
}

#[test]
fn text_operations_agree_with_the_standard_library() {
    for sample in SAMPLES {
        assert_eq!(trim(sample), sample.trim());
        assert_eq!(words(sample), sample.split_whitespace().collect::<Vec<_>>());
        assert_eq!(lines(sample), sample.lines().collect::<Vec<_>>());
        assert_eq!(has_space(sample), sample.contains(char::is_whitespace));
        assert_eq!(chars_of(sample), sample.chars().collect::<Vec<_>>());
        for c in [':', '/', 'a'] {
            assert_eq!(split(sample, c), sample.split(c).collect::<Vec<_>>());
            assert_eq!(trim_leading(sample, c), sample.trim_start_matches(c));
            assert_eq!(trim_trailing(sample, c), sample.trim_end_matches(c));
        }
        for pattern in SAMPLES {
            assert_eq!(starts_with(sample, pattern), sample.starts_with(pattern));
            assert_eq!(ends_with(sample, pattern), sample.ends_with(pattern));
            assert_eq!(contains(sample, pattern), sample.contains(pattern));
            assert_eq!(strip_prefix(sample, pattern).as_deref(), sample.strip_prefix(pattern));
            assert_eq!(same_text(sample, pattern), sample == pattern);
            assert_eq!(join2(sample, pattern), format!("{sample}{pattern}"));
            assert_eq!(join3(sample, "-", pattern), format!("{sample}-{pattern}"));
        }
    }
    assert_eq!(part("abcdef", 2, 4), "cd");
    assert_eq!(list4("a", "b", "c", "d"), ["a", "b", "c", "d"]);
    assert_eq!(list5("a", "b", "c", "d", "e"), ["a", "b", "c", "d", "e"]);
}

#[test]
fn case_is_passed_over_where_asked() {
    assert!(contains_lowered("No Such File or directory", "no such file"));
    assert!(!contains_lowered("no such fil", "no such file"));
    assert!(same_lowered("OverWrite", "overwrite"));
    assert!(!same_lowered("overwrites", "overwrite"));
}

#[test]
fn numbers_are_read_like_the_standard_library_reads_them() {
    for text in [
        "", "0", "+", "+7", "-7", "007", "42", " 42", "4 2", "18446744073709551615",
        "18446744073709551616", "99999999999999999999999", "1e3", "+18446744073709551615", "++1",
    ] {
        assert_eq!(parse_u64(text), text.parse::<u64>().ok(), "{text}");
    }
}

#[test]
fn a_number_written_in_decimal_is_read_back() {
    for n in [0, 7, 10, 99, 100, 1_700_000_000, u64::MAX - 1, u64::MAX] {
        assert_eq!(decimal_text(n), n.to_string());
        assert_eq!(parse_u64(&decimal_text(n)), Some(n));
    }
}

#[test]
fn paths_are_joined_like_unix_paths() {
    for base in ["", "/", "/a", "/a/", "a/b", "."] {
        for relative in ["", "b", "b/c", "/b", "../b", ".config/pqcrypt"] {
            let expected = Path::new(base).join(relative);
            assert_eq!(join_path(base, relative), expected.to_str().unwrap(), "{base} {relative}");
        }
    }
}

#[test]
fn the_last_component_names_a_path() {
    let name = "git-remote-pqcrypt";
    for path in [
        "git-remote-pqcrypt", "/usr/bin/git-remote-pqcrypt", "./git-remote-pqcrypt",
        "/usr/bin/git-remote-pqcrypt/", "/usr/bin/git-remote-pqcrypt/.", "/usr/bin/git", "", ".",
        "..", "/", "git-remote-pqcrypt/..", "/x/git-remote-pqcrypt.exe",
    ] {
        let expected = Path::new(path).file_name().and_then(|n| n.to_str()) == Some(name);
        assert_eq!(ends_in_name(path, name), expected, "{path}");
    }
}

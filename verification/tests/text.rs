use nfs_mount::decimal::{format_usize, parse_usize};
use nfs_mount::markup::{error_markup, escape_markup, unsaved_markup};
use nfs_mount::text::{
    chars_of, is_white_space, lines, position, same_chars, split_whitespace, string_of, trim,
    trim_end_matches, trim_start, trimmed_string,
};

const SAMPLES: [&str; 14] = [
    "",
    "a",
    "\n",
    "\r\n",
    "a\nb",
    "a\r\nb\r\n",
    "a\r",
    "a\n\nb\n",
    "\na\r\r\n",
    "  two words ",
    "\u{3000}wide\u{a0}space\u{2028}",
    "\t\r\n ",
    "ünï cödé → ●\u{85}",
    "x\u{200b}y\u{180e}z",
];

#[test]
fn white_space_is_that_of_the_standard_library() {
    let mut n: u32 = 0;
    while n <= 0x10ffff {
        if let Some(c) = char::from_u32(n) {
            assert_eq!(is_white_space(c), c.is_whitespace(), "{:x}", n);
        }
        n += 1;
    }
}

#[test]
fn trimming_is_that_of_the_standard_library() {
    for s in SAMPLES {
        let chars = chars_of(s);
        assert_eq!(string_of(trim(&chars)), s.trim());
        assert_eq!(string_of(trim_start(&chars)), s.trim_start());
        assert_eq!(trimmed_string(s), s.trim());
        assert_eq!(trimmed_string(&trimmed_string(s)), s.trim());
    }
}

#[test]
fn trailing_characters_are_removed() {
    for s in ["", "/", "///", "/a", "/a/", "/a//b//"] {
        let chars = chars_of(s);
        assert_eq!(string_of(trim_end_matches(&chars, '/')), s.trim_end_matches('/'));
    }
}

#[test]
fn lines_are_those_of_the_standard_library() {
    for s in SAMPLES {
        let chars = chars_of(s);
        let got: Vec<String> = lines(&chars).into_iter().map(string_of).collect();
        let want: Vec<String> = s.lines().map(|l| l.to_string()).collect();
        assert_eq!(got, want);
    }
}

#[test]
fn words_are_those_of_the_standard_library() {
    for s in SAMPLES {
        let chars = chars_of(s);
        let got: Vec<String> = split_whitespace(&chars).into_iter().map(string_of).collect();
        let want: Vec<String> = s.split_whitespace().map(|w| w.to_string()).collect();
        assert_eq!(got, want);
    }
}

#[test]
fn characters_are_found_and_compared() {
    let chars = chars_of("a→b→");
    assert_eq!(chars, vec!['a', '→', 'b', '→']);
    assert_eq!(position(&chars, '→'), 1);
    assert_eq!(position(&chars, 'x'), 4);
    assert!(same_chars(&chars, &chars_of("a→b→")));
    assert!(!same_chars(&chars, &chars_of("a→b")));
    assert!(!same_chars(&chars, &chars_of("a→c→")));
}

#[test]
fn numbers_are_those_of_the_standard_library() {
    for n in [0, 1, 9, 10, 11, 99, 100, 1234567890, usize::MAX - 1, usize::MAX] {
        assert_eq!(format_usize(n), n.to_string());
        assert_eq!(parse_usize(&n.to_string()), Some(n));
    }
    for s in [
        "", "+", "-", "+7", "++7", "-0", "007", " 7", "7 ", "7a", "a", "٣",
        "18446744073709551615", "18446744073709551616", "99999999999999999999999",
        "000000000000000000000000000042", "+0",
    ] {
        assert_eq!(parse_usize(s), s.parse::<usize>().ok(), "{}", s);
    }
}

#[test]
fn markup_is_escaped() {
    assert_eq!(escape_markup(""), "");
    assert_eq!(escape_markup("plain 'text'"), "plain 'text'");
    assert_eq!(escape_markup("a < b && c > d"), "a &lt; b &amp;&amp; c &gt; d");
    assert_eq!(escape_markup("&lt;"), "&amp;lt;");
    assert_eq!(escape_markup("<b>é→</b>"), "&lt;b&gt;é→&lt;/b&gt;");
}

#[test]
fn escaping_is_three_replacements() {
    for s in ["&<>", "<<&amp;>>", "&&;lt", "x"] {
        let want = s.replace('&', "&amp;").replace('<', "&lt;").replace('>', "&gt;");
        assert_eq!(escape_markup(s), want);
    }
}

#[test]
fn escaped_text_reads_back() {
    for s in ["&", "<>", "&amp;", "a&lt;b", "&gt"] {
        let back = escape_markup(s).replace("&gt;", ">").replace("&lt;", "<").replace("&amp;", "&");
        assert_eq!(back, s);
    }
}

#[test]
fn errors_are_shown_in_spans() {
    assert_eq!(error_markup("no <x>"), "<span color='#e01b24'>no &lt;x&gt;</span>");
    assert_eq!(
        unsaved_markup("disk & full"),
        "<span color='#e01b24'>Mounted, but failed to save history: disk &amp; full</span>"
    );
}

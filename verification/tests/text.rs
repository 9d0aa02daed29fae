use turing_machine::decimal::push_decimal;
use turing_machine::order::{insert, position, rank, Rank};
use turing_machine::text::{is_whitespace, split_whitespace};
use turing_machine::TuringMachineError;

const SAMPLES: [&str; 14] = [
    "",
    " ",
    "a",
    "a b",
    "  a  b  ",
    "A 0 1 R B",
    "\tq0\u{a0}x\u{2003}y\r\n",
    "one\u{b}two\u{c}three\u{85}four",
    "\u{1680}\u{2028}\u{2029}\u{202f}\u{205f}\u{3000}",
    "zero\u{200b}width",
    "\u{e9}t\u{e9} \u{4e16}\u{754c}",
    "a\u{180e}b",
    "line one\nline two\n",
    "x\u{feff} y",
];

#[test]
fn whitespace_is_what_std_says() {
    for code in 0..=0x10ffff_u32 {
        if let Some(c) = char::from_u32(code) {
            assert_eq!(is_whitespace(c), c.is_whitespace(), "U+{:04X}", code);
        }
    }
}

#[test]
fn whitespace_of_common_characters() {
    for c in [' ', '\t', '\n', '\r', '\u{a0}', '\u{3000}'] {
        assert!(is_whitespace(c));
    }
    for c in ['a', '0', '_', '\u{0}', '\u{200b}', '\u{feff}'] {
        assert!(!is_whitespace(c));
    }
}

#[test]
fn split_whitespace_gives_the_tokens() {
    assert_eq!(split_whitespace("A 0 1 R B"), ["A", "0", "1", "R", "B"]);
    assert_eq!(split_whitespace("  a \t bc\n\nd  "), ["a", "bc", "d"]);
    assert_eq!(split_whitespace("word"), ["word"]);
}

#[test]
fn split_whitespace_of_blank_text_is_empty() {
    assert!(split_whitespace("").is_empty());
    assert!(split_whitespace(" \t\r\n\u{a0}").is_empty());
}

#[test]
fn split_whitespace_is_what_std_gives() {
    for s in SAMPLES {
        let expected: Vec<&str> = s.split_whitespace().collect();
        assert_eq!(split_whitespace(s), expected, "{:?}", s);
    }
}

#[test]
fn decimal_of_numbers() {
    let cases: [(u128, &str); 8] = [
        (0, "0"),
        (7, "7"),
        (10, "10"),
        (99, "99"),
        (100, "100"),
        (1234567890, "1234567890"),
        (18446744073709551616, "18446744073709551616"),
        (u128::MAX, "340282366920938463463374607431768211455"),
    ];
    for (n, text) in cases {
        let mut out = String::new();
        push_decimal(&mut out, n);
        assert_eq!(out, text);
    }
}

#[test]
fn decimal_is_appended() {
    let mut out = String::from("line ");
    push_decimal(&mut out, 42);
    push_decimal(&mut out, 0);
    assert_eq!(out, "line 420");
}

#[test]
fn rank_of_strings() {
    assert_eq!(rank("a", "b"), Rank::Before);
    assert_eq!(rank("b", "a"), Rank::After);
    assert_eq!(rank("ab", "ab"), Rank::Same);
    assert_eq!(rank("", ""), Rank::Same);
    assert_eq!(rank("", "a"), Rank::Before);
    assert_eq!(rank("a", "ab"), Rank::Before);
    assert_eq!(rank("ab", "a"), Rank::After);
    assert_eq!(rank("B", "a"), Rank::Before);
    assert_eq!(rank("10", "9"), Rank::Before);
}

#[test]
fn rank_is_the_order_of_std() {
    for a in SAMPLES {
        for b in SAMPLES {
            let expected = if a < b {
                Rank::Before
            } else if a == b {
                Rank::Same
            } else {
                Rank::After
            };
            assert_eq!(rank(a, b), expected, "{:?} {:?}", a, b);
        }
    }
}

#[test]
fn rank_beyond_the_basic_plane() {
    assert_eq!(rank("\u{ffff}", "\u{10000}"), Rank::Before);
    assert_eq!(rank("\u{1f600}", "\u{e000}"), Rank::After);
    assert_eq!(rank("\u{7f}", "\u{80}"), Rank::Before);
}

#[test]
fn insert_keeps_the_list_in_order() {
    let mut list: Vec<String> = Vec::new();
    for s in ["m", "b", "z", "m", "a", "b", "mm", ""] {
        insert(&mut list, s);
    }
    assert_eq!(list, ["", "a", "b", "m", "mm", "z"]);
}

#[test]
fn position_in_an_ordered_list() {
    let list: Vec<String> = ["b", "d", "f"].iter().map(|s| s.to_string()).collect();
    assert_eq!(position(&list, "a"), (0, false));
    assert_eq!(position(&list, "b"), (0, true));
    assert_eq!(position(&list, "c"), (1, false));
    assert_eq!(position(&list, "f"), (2, true));
    assert_eq!(position(&list, "g"), (3, false));
    assert_eq!(position(&Vec::new(), "a"), (0, false));
}

#[test]
fn message_is_the_text_of_the_error() {
    assert_eq!(TuringMachineError::Parse("p".to_string()).message(), "p");
    assert_eq!(TuringMachineError::Transformation("t".to_string()).message(), "t");
    assert_eq!(TuringMachineError::Args("a".to_string()).message(), "a");
}

#[test]
fn io_error_is_carried_along() {
    let inner = std::io::Error::new(std::io::ErrorKind::NotFound, "no such program");
    let text = inner.to_string();
    let e = TuringMachineError::from(inner);
    assert!(matches!(e, TuringMachineError::Io(_)));
    assert_eq!(e.message(), text);
    assert_eq!(e.message(), "no such program");
}

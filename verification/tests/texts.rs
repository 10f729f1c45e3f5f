use netman::number::{dec_text, hex_text, parse_hex_group, parse_number};
use netman::text::{
    chars_of, ends_with, find, holds, lines, part, same, spells, starts_with, str_same, string_of, trim, white_space,
    words,
};

fn strings(v: Vec<Vec<char>>) -> Vec<String> {
    v.iter().map(string_of).collect()
}

#[test]
fn white_space_is_that_of_unicode() {
    for n in 0..=0x10ffffu32 {
        if let Some(c) = char::from_u32(n) {
            assert_eq!(white_space(c), c.is_whitespace(), "{:x}", n);
        }
    }
}

#[test]
fn trimming() {
    for s in ["", "  ", " a b ", "\t\u{3000}x\r\n", "y"] {
        assert_eq!(string_of(&trim(&chars_of(s))), s.trim());
    }
}

#[test]
fn lines_are_those_of_std() {
    for s in ["", "\n", "a", "a\n", "a\r\nb", "a\n\nb\n", "a\r\r\n", "a\r", "\r\n\r", "x\ny\nz"] {
        let expected: Vec<String> = s.lines().map(|l| l.to_string()).collect();
        assert_eq!(strings(lines(&chars_of(s))), expected, "{:?}", s);
    }
}

#[test]
fn words_are_those_of_std() {
    for s in ["", "   ", "a", " a  b\tc ", "link eth0 up\n"] {
        let expected: Vec<String> = s.split_whitespace().map(|l| l.to_string()).collect();
        assert_eq!(strings(words(&chars_of(s))), expected, "{:?}", s);
    }
}

#[test]
fn looking_into_text() {
    let v = chars_of("nameserver 1.1.1.1 #eth0");
    assert!(starts_with(&v, &chars_of("nameserver ")));
    assert!(!starts_with(&v, &chars_of("search")));
    assert!(ends_with(&v, &chars_of("#eth0")));
    assert!(!ends_with(&v, &chars_of("#eth1")));
    assert!(holds(&v, '.') && !holds(&v, ':'));
    assert_eq!(find(&v, 0, '#'), 19);
    assert_eq!(find(&v, 20, '#'), v.len());
    assert_eq!(string_of(&part(&v, 11, 18)), "1.1.1.1");
    assert!(spells(&chars_of("up"), "up") && !spells(&chars_of("up"), "down"));
    assert!(same(&v, &v) && !same(&v, &chars_of("n")));
    assert!(str_same("eth0", "eth0") && !str_same("eth0", "eth01"));
}

#[test]
fn numbers() {
    assert_eq!(string_of(&dec_text(0)), "0");
    assert_eq!(string_of(&dec_text(4294967295)), "4294967295");
    assert_eq!(string_of(&hex_text(0)), "0");
    assert_eq!(string_of(&hex_text(0xbeef)), "beef");
    for s in ["0", "1000", "+7", "007", "255", "256", "", "+", "-1", "1a", "++1", "4294967295", "4294967296", "99999999999999999999999"] {
        assert_eq!(parse_number(&chars_of(s), u32::MAX), s.parse::<u32>().ok(), "{}", s);
        assert_eq!(parse_number(&chars_of(s), 255), s.parse::<u8>().ok().map(|n| n as u32), "{}", s);
    }
    assert_eq!(parse_hex_group(&chars_of("x0aFz"), 1, 4), Some(0xaf));
    assert_eq!(parse_hex_group(&chars_of("12345"), 0, 5), None);
    assert_eq!(parse_hex_group(&chars_of("1"), 1, 1), None);
}

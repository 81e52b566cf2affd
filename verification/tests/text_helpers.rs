use cpu_pin::text::{chars_of, find_char, is_space_char, parse_u64_in, parse_usize_in, trim_bounds};

#[test]
fn text_chars_and_spaces() {
    assert_eq!(chars_of("aé b"), vec!['a', 'é', ' ', 'b']);
    assert!(is_space_char(' '));
    assert!(is_space_char('\n'));
    assert!(is_space_char('\u{3000}'));
    assert!(is_space_char('\u{85}'));
    assert!(!is_space_char('x'));
    assert!(!is_space_char('\u{200B}'));
}

#[test]
fn text_trim_bounds() {
    let cs = chars_of("  ab c \t\n");
    let (a, b) = trim_bounds(&cs, 0, cs.len());
    assert_eq!(cs[a..b].iter().collect::<String>(), "ab c");
    let blank = chars_of(" \u{a0} ");
    let (a, b) = trim_bounds(&blank, 0, blank.len());
    assert_eq!(a, b);
}

#[test]
fn text_find_char() {
    let cs = chars_of("1-2-3");
    assert_eq!(find_char(&cs, 0, cs.len(), '-'), Some(1));
    assert_eq!(find_char(&cs, 2, cs.len(), '-'), Some(3));
    assert_eq!(find_char(&cs, 0, 1, '-'), None);
}

#[test]
fn text_parse_numbers() {
    let cs = chars_of("+42");
    assert_eq!(parse_u64_in(&cs, 0, cs.len()), Some(42));
    let cs = chars_of("18446744073709551615");
    assert_eq!(parse_u64_in(&cs, 0, cs.len()), Some(u64::MAX));
    let cs = chars_of("18446744073709551616");
    assert_eq!(parse_u64_in(&cs, 0, cs.len()), None);
    let cs = chars_of("12a");
    assert_eq!(parse_u64_in(&cs, 0, cs.len()), None);
    assert_eq!(parse_u64_in(&cs, 0, 2), Some(12));
    let cs = chars_of("+");
    assert_eq!(parse_u64_in(&cs, 0, cs.len()), None);
    let cs = chars_of("-1");
    assert_eq!(parse_usize_in(&cs, 0, cs.len()), None);
    let cs = chars_of("007");
    assert_eq!(parse_usize_in(&cs, 0, cs.len()), Some(7));
    assert_eq!(parse_usize_in(&cs, 0, 0), None);
}

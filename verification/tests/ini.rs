use fanctrl::ini::{parse_line, split_pair, trim, FieldParseError, IniLine};

#[test]
fn parse_hands_the_value_through() {
    assert_eq!(FieldParseError::parse(Some("10"), "interval").unwrap(), "10");
    let e = FieldParseError::parse(None, "interval").unwrap_err();
    assert_eq!(e.field, "interval");
    assert!(e.missing);
}

#[test]
fn malformed_marks_the_value_present() {
    let e = FieldParseError::malformed("interval");
    assert_eq!(e.field, "interval");
    assert!(!e.missing);
}

#[test]
fn trim_strips_both_ends() {
    assert_eq!(trim(b"  a b\t"), b"a b");
    assert_eq!(trim(b"\t\r\n "), b"");
    assert_eq!(trim(b"x"), b"x");
    assert_eq!(trim(b""), b"");
}

#[test]
fn split_pair_cuts_at_the_first_equals() {
    assert_eq!(split_pair(b"key = value"), (b"key".to_vec(), Some(b"value".to_vec())));
    assert_eq!(split_pair(b"key"), (b"key".to_vec(), None));
    assert_eq!(split_pair(b"key="), (b"key".to_vec(), Some(b"".to_vec())));
    assert_eq!(split_pair(b"a=b=c"), (b"a".to_vec(), Some(b"b=c".to_vec())));
}

#[test]
fn lines_classify_as_the_grammar_says() {
    assert_eq!(parse_line(b""), IniLine::Blank);
    assert_eq!(parse_line(b"   \t"), IniLine::Blank);
    assert_eq!(parse_line(b"  # comment"), IniLine::Blank);
    assert_eq!(parse_line(b"[main]"), IniLine::Section(b"main".to_vec()));
    assert_eq!(
        parse_line(b" watch = /sys/class/thermal/thermal_zone0 "),
        IniLine::Pair(b"watch".to_vec(), Some(b"/sys/class/thermal/thermal_zone0".to_vec()))
    );
    assert_eq!(parse_line(b"bare_key"), IniLine::Pair(b"bare_key".to_vec(), None));
    // An unclosed bracket is not a section header.
    assert_eq!(parse_line(b"[oops"), IniLine::Pair(b"[oops".to_vec(), None));
}

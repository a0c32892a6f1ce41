use tomsg_rs::{expect_word, parsei64, CloseReason, Id, Line, Word};

#[test]
fn word_accepts_plain_text() {
    let w = Word::try_from("this_is_a_valid_word".to_string()).unwrap();
    assert_eq!(w.as_str(), "this_is_a_valid_word");
    assert_eq!(w.into_string(), "this_is_a_valid_word".to_string());
}

#[test]
fn word_rejects_space() {
    assert!(Word::try_from("this is not a valid word".to_string()).is_err());
    assert!(Word::try_from_str("a b").is_err());
}

#[test]
fn word_rejects_newline() {
    assert!(Word::try_from("ab\ncd".to_string()).is_err());
    assert!(Word::try_from_str("\n").is_err());
}

#[test]
fn word_accepts_empty_and_unicode() {
    assert!(Word::try_from(String::new()).is_ok());
    let w = Word::try_from_str("héllo_wörld").unwrap();
    assert_eq!(w.as_str(), "héllo_wörld");
}

#[test]
fn word_from_chars_checks() {
    let ok: Vec<char> = "abc".chars().collect();
    let bad: Vec<char> = "a c".chars().collect();
    assert_eq!(Word::from_chars(&ok).unwrap().as_str(), "abc");
    assert!(Word::from_chars(&bad).is_none());
}

#[test]
fn word_clone_keeps_text() {
    let w = Word::try_from_str("room").unwrap();
    let c = w.clone();
    assert_eq!(c.as_str(), "room");
    assert_eq!(c, w);
}

#[test]
fn line_accepts_spaces() {
    let l = Line::try_from("this is a valid line".to_string()).unwrap();
    assert_eq!(l.as_str(), "this is a valid line");
}

#[test]
fn line_rejects_newline() {
    assert!(Line::try_from("this is not\na valid line".to_string()).is_err());
    assert!(Line::try_from_str("end\n").is_err());
}

#[test]
fn id_try_from_sign() {
    assert!(Id::try_from(0).is_ok());
    assert!(Id::try_from(i64::MAX).is_ok());
    assert!(Id::try_from(-1).is_err());
    assert!(Id::try_from(i64::MIN).is_err());
    assert_eq!(Id::try_from(42).unwrap().to_i64(), 42);
    assert_eq!(i64::from(Id::try_from(7).unwrap()), 7);
}

#[test]
fn parsei64_reads_signed_decimal() {
    assert_eq!(parsei64("0"), 0);
    assert_eq!(parsei64("-1"), -1);
    assert_eq!(parsei64("+17"), 17);
    assert_eq!(parsei64("9223372036854775807"), i64::MAX);
    assert_eq!(parsei64("-9223372036854775808"), i64::MIN);
}

#[test]
fn expect_word_wraps() {
    assert_eq!(expect_word("alice").as_str(), "alice");
}

#[test]
fn close_reason_clone_keeps_text() {
    let r = CloseReason::Error("reset".to_string());
    match r.clone() {
        CloseReason::Error(e) => assert_eq!(e, "reset"),
        CloseReason::EOF => panic!("wrong reason"),
    }
    assert!(matches!(CloseReason::EOF.clone(), CloseReason::EOF));
}

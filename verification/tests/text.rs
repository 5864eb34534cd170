use kobject_uevent::fields::parse_uevent_iter;
use kobject_uevent::text::{parse_u64, same_text, split_at_each, split_lines, split_once_at};
use kobject_uevent::{Action, Error};
use std::str::FromStr;

#[test]
fn splits_once_like_str() {
    for s in ["", "=", "a", "a=b", "a=b=c", "=b", "a=", "\u{e9}=\u{20ac}", "\u{13d}x", "\u{1f600}="] {
        assert_eq!(split_once_at(s, '='), s.split_once('='));
    }
}

#[test]
fn splits_like_str() {
    for s in ["", "\0", "a", "a\0b", "\0\0", "a\0", "\0b", "\u{e9}\0\u{20ac}\0"] {
        assert_eq!(split_at_each(s, '\0'), s.split('\0').collect::<Vec<_>>());
    }
}

#[test]
fn lines_like_str() {
    for s in [
        "", "\n", "a", "a\n", "a\nb", "a\r\nb", "a\r\r\nb", "a\r", "\r\n", "\r", "\n\n", "a\n\n",
        "\ra\n", "\u{e9}\r\n\u{20ac}",
    ] {
        assert_eq!(split_lines(s), s.lines().collect::<Vec<_>>());
    }
}

#[test]
fn numbers_like_str() {
    for s in [
        "", "+", "-", "0", "-0", "+0", "00012", "3469", " 1", "1 ", "1_0", "++1", "1+", "\u{661}",
        "+\u{661}", "18446744073709551615", "18446744073709551616", "99999999999999999999",
        "184467440737095516150", "+18446744073709551615", "0x10", "99999999999999999999x",
    ] {
        assert_eq!(parse_u64(s), s.parse::<u64>().ok());
    }
}

#[test]
fn numbers_are_read_back() {
    for n in [0, 9, 10, 3469, u64::MAX] {
        assert_eq!(parse_u64(&n.to_string()), Some(n));
    }
}

#[test]
fn texts_are_compared_whole() {
    assert!(same_text("", ""));
    assert!(same_text("\u{e9}", "\u{e9}"));
    assert!(!same_text("a", "ab"));
    assert!(!same_text("a", "b"));
}

#[test]
fn actions_have_distinct_names() {
    let names = [
        ("add", Action::Add),
        ("remove", Action::Remove),
        ("change", Action::Change),
        ("move", Action::Move),
        ("online", Action::Online),
        ("offline", Action::Offline),
        ("bind", Action::Bind),
        ("unbind", Action::Unbind),
    ];
    for (name, action) in names {
        assert_eq!(Action::from_str(name).unwrap(), action);
        assert_eq!(name.parse::<Action>().unwrap(), action);
    }
    for name in ["", "Add", "add ", "hello"] {
        assert!(matches!(Action::from_str(name), Err(Error::UnexpectedAction(s)) if s == name));
    }
}

#[test]
fn some_fields_may_be_missing() {
    let event = parse_uevent_iter(&vec!["header", "SEQNUM=1", "K=v", "K=w"]).unwrap();
    assert_eq!(event.action, None);
    assert_eq!(event.devpath, None);
    assert_eq!(event.subsystem, None);
    assert_eq!(event.seq, Some(1));
    assert_eq!(event.env.len(), 1);
    assert_eq!(event.env.get("K").unwrap(), "w");
}

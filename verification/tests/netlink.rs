use compact_str::ToCompactString;
use kobject_uevent::{Action, Error, UEvent};
use std::path::PathBuf;

fn uevent(
    action: Action,
    devpath: &str,
    subsystem: &str,
    env: &[(&str, &str)],
    seq: u64,
) -> UEvent {
    UEvent {
        action,
        devpath: PathBuf::from(devpath),
        subsystem: subsystem.to_compact_string(),
        env: env
            .iter()
            .map(|(k, v)| (k.to_compact_string(), v.to_compact_string()))
            .collect(),
        seq,
    }
}

#[test]
fn add_uevent() {
    const DATA: &[u8] = b"add@/devices/platform/serial8250/tty/ttyS6\0\
                          ACTION=add\0\
                          DEVPATH=/devices/platform/serial8250/tty/ttyS6\0\
                          SUBSYSTEM=tty\0\
                          SYNTH_UUID=0\0\
                          MAJOR=4\0\
                          MINOR=70\0\
                          DEVNAME=ttyS6\0\
                          SEQNUM=3469";
    assert!(UEvent::from_netlink_packet(DATA).unwrap().eq(&uevent(
        Action::Add,
        "/devices/platform/serial8250/tty/ttyS6",
        "tty",
        &[("SYNTH_UUID", "0"), ("MAJOR", "4"), ("MINOR", "70"), ("DEVNAME", "ttyS6")],
        3469,
    )));
}

#[test]
fn remove_uevent() {
    const DATA: &[u8] = b"remove@/devices/platform/serial8250/tty/ttyS6\0\
                          ACTION=remove\0\
                          DEVPATH=/devices/platform/serial8250/tty/ttyS6\0\
                          SUBSYSTEM=tty\0\
                          SYNTH_UUID=0\0\
                          MAJOR=4\0\
                          MINOR=70\0\
                          DEVNAME=ttyS6\0\
                          SEQNUM=3471";
    assert!(UEvent::from_netlink_packet(DATA).unwrap().eq(&uevent(
        Action::Remove,
        "/devices/platform/serial8250/tty/ttyS6",
        "tty",
        &[("SYNTH_UUID", "0"), ("MAJOR", "4"), ("MINOR", "70"), ("DEVNAME", "ttyS6")],
        3471,
    )));
}

#[test]
fn change_uevent() {
    const DATA: &[u8] = b"change@/devices/platform/serial8250/tty/ttyS6\0\
                          ACTION=change\0\
                          DEVPATH=/devices/platform/serial8250/tty/ttyS6\0\
                          SUBSYSTEM=tty\0\
                          SYNTH_UUID=0\0\
                          MAJOR=4\0\
                          MINOR=70\0\
                          DEVNAME=ttyS6\0\
                          SEQNUM=3472";
    assert!(UEvent::from_netlink_packet(DATA).unwrap().eq(&uevent(
        Action::Change,
        "/devices/platform/serial8250/tty/ttyS6",
        "tty",
        &[("SYNTH_UUID", "0"), ("MAJOR", "4"), ("MINOR", "70"), ("DEVNAME", "ttyS6")],
        3472,
    )));
}

#[test]
fn move_uevent() {
    const DATA: &[u8] = b"move@/devices/platform/serial8250/tty/ttyS6\0\
                          ACTION=move\0\
                          DEVPATH=/devices/platform/serial8250/tty/ttyS6\0\
                          SUBSYSTEM=tty\0\
                          SYNTH_UUID=0\0\
                          MAJOR=4\0\
                          MINOR=70\0\
                          DEVNAME=ttyS6\0\
                          SEQNUM=3473";
    assert!(UEvent::from_netlink_packet(DATA).unwrap().eq(&uevent(
        Action::Move,
        "/devices/platform/serial8250/tty/ttyS6",
        "tty",
        &[("SYNTH_UUID", "0"), ("MAJOR", "4"), ("MINOR", "70"), ("DEVNAME", "ttyS6")],
        3473,
    )));
}

#[test]
fn online_uevent() {
    const DATA: &[u8] = b"online@/devices/platform/serial8250/tty/ttyS6\0\
                          ACTION=online\0\
                          DEVPATH=/devices/platform/serial8250/tty/ttyS6\0\
                          SUBSYSTEM=tty\0\
                          SYNTH_UUID=0\0\
                          MAJOR=4\0\
                          MINOR=70\0\
                          DEVNAME=ttyS6\0\
                          SEQNUM=3474";
    assert!(UEvent::from_netlink_packet(DATA).unwrap().eq(&uevent(
        Action::Online,
        "/devices/platform/serial8250/tty/ttyS6",
        "tty",
        &[("SYNTH_UUID", "0"), ("MAJOR", "4"), ("MINOR", "70"), ("DEVNAME", "ttyS6")],
        3474,
    )));
}

#[test]
fn offline_uevent() {
    const DATA: &[u8] = b"offline@/devices/platform/serial8250/tty/ttyS6\0\
                          ACTION=offline\0\
                          DEVPATH=/devices/platform/serial8250/tty/ttyS6\0\
                          SUBSYSTEM=tty\0\
                          SYNTH_UUID=0\0\
                          MAJOR=4\0\
                          MINOR=70\0\
                          DEVNAME=ttyS6\0\
                          SEQNUM=3475";
    assert!(UEvent::from_netlink_packet(DATA).unwrap().eq(&uevent(
        Action::Offline,
        "/devices/platform/serial8250/tty/ttyS6",
        "tty",
        &[("SYNTH_UUID", "0"), ("MAJOR", "4"), ("MINOR", "70"), ("DEVNAME", "ttyS6")],
        3475,
    )));
}

#[test]
fn bind_uevent() {
    const DATA: &[u8] = b"bind@/devices/platform/serial8250/tty/ttyS6\0\
                          ACTION=bind\0\
                          DEVPATH=/devices/platform/serial8250/tty/ttyS6\0\
                          SUBSYSTEM=tty\0\
                          SYNTH_UUID=0\0\
                          MAJOR=4\0\
                          MINOR=70\0\
                          DEVNAME=ttyS6\0\
                          SEQNUM=3476";
    assert!(UEvent::from_netlink_packet(DATA).unwrap().eq(&uevent(
        Action::Bind,
        "/devices/platform/serial8250/tty/ttyS6",
        "tty",
        &[("SYNTH_UUID", "0"), ("MAJOR", "4"), ("MINOR", "70"), ("DEVNAME", "ttyS6")],
        3476,
    )));
}

#[test]
fn unbind_uevent() {
    const DATA: &[u8] = b"unbind@/devices/platform/serial8250/tty/ttyS6\0\
                          ACTION=unbind\0\
                          DEVPATH=/devices/platform/serial8250/tty/ttyS6\0\
                          SUBSYSTEM=tty\0\
                          SYNTH_UUID=0\0\
                          MAJOR=4\0\
                          MINOR=70\0\
                          DEVNAME=ttyS6\0\
                          SEQNUM=3477";
    assert!(UEvent::from_netlink_packet(DATA).unwrap().eq(&uevent(
        Action::Unbind,
        "/devices/platform/serial8250/tty/ttyS6",
        "tty",
        &[("SYNTH_UUID", "0"), ("MAJOR", "4"), ("MINOR", "70"), ("DEVNAME", "ttyS6")],
        3477,
    )));
}

#[test]
fn invalid_event() {
    const DATA: &[u8] = b"hello@/devices/platform/serial8250/tty/ttyS6\0\
                          ACTION=hello\0\
                          DEVPATH=/devices/platform/serial8250/tty/ttyS6\0\
                          SUBSYSTEM=tty\0\
                          SEQNUM=3477";
    assert!(UEvent::from_netlink_packet(DATA).is_err());
}

#[test]
fn missing_action() {
    const DATA: &[u8] = b"add@/devices/platform/serial8250/tty/ttyS6\0\
                          DEVPATH=/devices/platform/serial8250/tty/ttyS6\0\
                          SUBSYSTEM=tty\0\
                          SEQNUM=3477";
    assert!(UEvent::from_netlink_packet(DATA).is_err());
}

#[test]
fn missing_devpath() {
    const DATA: &[u8] = b"add@/devices/platform/serial8250/tty/ttyS6\0\
                          ACTION=unbind\0\
                          SUBSYSTEM=tty\0\
                          SEQNUM=3477";
    assert!(UEvent::from_netlink_packet(DATA).is_err());
}

#[test]
fn missing_subsystem() {
    const DATA: &[u8] = b"add@/devices/platform/serial8250/tty/ttyS6\0\
                          ACTION=unbind\0\
                          DEVPATH=/devices/platform/serial8250/tty/ttyS6\0\
                          SEQNUM=3477";
    assert!(UEvent::from_netlink_packet(DATA).is_err());
}

#[test]
fn missing_seqnum() {
    const DATA: &[u8] = b"add@/devices/platform/serial8250/tty/ttyS6\0\
                          ACTION=unbind\0\
                          DEVPATH=/devices/platform/serial8250/tty/ttyS6\0\
                          SUBSYSTEM=tty";
    assert!(UEvent::from_netlink_packet(DATA).is_err());
}

#[test]
fn errors_are_told_apart() {
    let parse = UEvent::from_netlink_packet;
    assert!(matches!(
        parse(b"ACTION=hello\0SEQNUM=x"),
        Err(Error::UnexpectedAction(s)) if s == "hello"
    ));
    assert!(matches!(
        parse(b"SEQNUM=12a\0ACTION=hello"),
        Err(Error::InvalidSeqNum(s)) if s == "12a"
    ));
    assert!(matches!(parse(b"ACTION=add\0\xff"), Err(Error::InvalidUtf8)));
    assert!(matches!(parse(b""), Err(Error::ActionNotFound)));
    assert!(matches!(parse(b"ACTION=add"), Err(Error::DevPathNotFound)));
    assert!(matches!(
        parse(b"ACTION=add\0DEVPATH=/a"),
        Err(Error::SubsystemNotFound)
    ));
    assert!(matches!(
        parse(b"ACTION=add\0DEVPATH=/a\0SUBSYSTEM=b"),
        Err(Error::SeqMissing)
    ));
}

#[test]
fn later_fields_win() {
    let event = UEvent::from_netlink_packet(
        b"ACTION=add\0DEVPATH=/a\0SUBSYSTEM=b\0SEQNUM=1\0K=1\0\
          ACTION=remove\0DEVPATH=/c\0SUBSYSTEM=d\0SEQNUM=2\0K=2",
    );
    assert!(event.unwrap().eq(&uevent(Action::Remove, "/c", "d", &[("K", "2")], 2)));
}

#[test]
fn a_bad_field_counts_though_a_good_one_follows() {
    let event = UEvent::from_netlink_packet(
        b"ACTION=bad\0ACTION=add\0DEVPATH=/a\0SUBSYSTEM=b\0SEQNUM=1",
    );
    assert!(matches!(event, Err(Error::UnexpectedAction(s)) if s == "bad"));
}

#[test]
fn order_of_keys_is_free() {
    let a = UEvent::from_netlink_packet(b"ACTION=add\0DEVPATH=/a\0SUBSYSTEM=b\0K=v\0SEQNUM=1");
    let b = UEvent::from_netlink_packet(b"SEQNUM=1\0K=v\0SUBSYSTEM=b\0DEVPATH=/a\0ACTION=add");
    assert!(a.unwrap().eq(&b.unwrap()));
}

#[test]
fn trailing_nul_is_ignored() {
    let a = UEvent::from_netlink_packet(b"ACTION=add\0DEVPATH=/a\0SUBSYSTEM=b\0SEQNUM=1\0");
    assert!(a.unwrap().eq(&uevent(Action::Add, "/a", "b", &[], 1)));
}

#[test]
fn a_value_may_hold_an_equals_sign() {
    let a = UEvent::from_netlink_packet(
        "x\0ACTION=add\0DEVPATH=/\u{e9}\0SUBSYSTEM=b\0K==v=w\0=empty\0E=\0SEQNUM=+7".as_bytes(),
    );
    let expected = uevent(
        Action::Add,
        "/\u{e9}",
        "b",
        &[("K", "=v=w"), ("", "empty"), ("E", "")],
        7,
    );
    assert!(a.unwrap().eq(&expected));
}

#[test]
fn env_holds_no_reserved_key() {
    let event = UEvent::from_netlink_packet(
        b"add@/a\0ACTION=add\0DEVPATH=/a\0SUBSYSTEM=b\0MAJOR=4\0SEQNUM=1",
    )
    .unwrap();
    assert_eq!(event.env.len(), 1);
    assert_eq!(event.env.get("MAJOR").unwrap(), "4");
    assert_eq!(event.env.get("ACTION"), None);
}

#[test]
fn long_texts_are_kept() {
    let long = "x".repeat(1000);
    let pkt = format!("ACTION=add\0DEVPATH=/{long}\0SUBSYSTEM={long}\0{long}={long}\0SEQNUM=1");
    let path = format!("/{long}");
    let expected = uevent(Action::Add, &path, &long, &[(&long, &long)], 1);
    let event = UEvent::from_netlink_packet(pkt.as_bytes()).unwrap();
    assert!(event.eq(&expected));
    assert_eq!(event.devpath.to_str().unwrap(), path);
    assert_eq!(event.subsystem.as_str(), long);
}

#[test]
fn events_differ_in_any_part() {
    let a = uevent(Action::Add, "/a/b", "s", &[("K", "v")], 1);
    assert!(a.eq(&a));
    assert!(a.eq(&a.clone()));
    assert!(a.eq(&uevent(Action::Add, "/a//./b/", "s", &[("K", "v")], 1)));
    assert!(!a.eq(&uevent(Action::Remove, "/a/b", "s", &[("K", "v")], 1)));
    assert!(!a.eq(&uevent(Action::Add, "/a/c", "s", &[("K", "v")], 1)));
    assert!(!a.eq(&uevent(Action::Add, "/a/b", "t", &[("K", "v")], 1)));
    assert!(!a.eq(&uevent(Action::Add, "/a/b", "s", &[("K", "w")], 1)));
    assert!(!a.eq(&uevent(Action::Add, "/a/b", "s", &[("L", "v")], 1)));
    assert!(!a.eq(&uevent(Action::Add, "/a/b", "s", &[], 1)));
    assert!(!a.eq(&uevent(Action::Add, "/a/b", "s", &[("K", "v")], 2)));
}

#[test]
fn same_event_is_an_equivalence() {
    let a = uevent(Action::Add, "/a/b", "s", &[("K", "v"), ("L", "w")], 1);
    let b = uevent(Action::Add, "/a//b", "s", &[("L", "w"), ("K", "v")], 1);
    let c = uevent(Action::Add, "/a/b/", "s", &[("K", "v"), ("L", "w")], 1);
    assert!(a.eq(&b) && b.eq(&a));
    assert!(b.eq(&c) && a.eq(&c));
}

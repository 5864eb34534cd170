use kobject_uevent::{Action, Error, SysfsReads, UEvent};
use std::io;
use std::path::PathBuf;

fn reads(uevent: &str, subsystem: &str, canonical: &str) -> SysfsReads {
    SysfsReads {
        uevent: Ok(String::from(uevent)),
        subsystem: Ok(PathBuf::from(subsystem)),
        canonical: Ok(PathBuf::from(canonical)),
    }
}

fn failed() -> io::Error {
    io::Error::new(io::ErrorKind::NotFound, "gone")
}

#[test]
fn a_device_is_an_added_one() {
    let event = UEvent::from_sysfs_path(
        reads(
            "MAJOR=4\nMINOR=70\r\nno field\n\nDEVNAME=ttyS6\n",
            "../../../../../class/tty",
            "/sys/devices/platform/serial8250/tty/ttyS6",
        ),
        &PathBuf::from("/sys"),
    )
    .unwrap();
    assert_eq!(event.action, Action::Add);
    assert_eq!(event.devpath, PathBuf::from("/devices/platform/serial8250/tty/ttyS6"));
    assert_eq!(event.devpath.to_str(), Some("/devices/platform/serial8250/tty/ttyS6"));
    assert_eq!(event.subsystem, "tty");
    assert_eq!(event.seq, 0);
    assert_eq!(event.env.len(), 3);
    assert_eq!(event.env.get("MAJOR").unwrap(), "4");
    assert_eq!(event.env.get("MINOR").unwrap(), "70");
    assert_eq!(event.env.get("DEVNAME").unwrap(), "ttyS6");
}

#[test]
fn reserved_fields_are_left_out() {
    let event = UEvent::from_sysfs_path(
        reads(
            "ACTION=remove\nDEVPATH=/x\nSUBSYSTEM=y\nSEQNUM=9\nK=v",
            "/sys/class/tty",
            "/sys/a",
        ),
        &PathBuf::from("/sys/"),
    )
    .unwrap();
    assert_eq!(event.action, Action::Add);
    assert_eq!(event.devpath, PathBuf::from("/a"));
    assert_eq!(event.subsystem, "tty");
    assert_eq!(event.seq, 0);
    assert_eq!(event.env.len(), 1);
    assert_eq!(event.env.get("K").unwrap(), "v");
}

#[test]
fn the_first_failure_is_told() {
    let root = PathBuf::from("/sys");
    let mut r = reads("ACTION=bad", "..", "/dev/a");
    r.canonical = Err(failed());
    assert!(matches!(
        UEvent::from_sysfs_path(r, &root),
        Err(Error::UnexpectedAction(s)) if s == "bad"
    ));
    let mut r = reads("SEQNUM=", "..", "/dev/a");
    r.subsystem = Err(failed());
    assert!(matches!(UEvent::from_sysfs_path(r, &root), Err(Error::Io(_))));
    let mut r = reads("K=v", "..", "/dev/a");
    r.uevent = Err(failed());
    assert!(matches!(UEvent::from_sysfs_path(r, &root), Err(Error::Io(_))));
    let mut r = reads("K=v", "..", "/dev/a");
    r.canonical = Err(failed());
    assert!(matches!(UEvent::from_sysfs_path(r, &root), Err(Error::Io(_))));
    assert!(matches!(
        UEvent::from_sysfs_path(reads("SEQNUM=-1", "..", "/dev/a"), &root),
        Err(Error::InvalidSeqNum(s)) if s == "-1"
    ));
    assert!(matches!(
        UEvent::from_sysfs_path(reads("K=v", "..", "/dev/a"), &root),
        Err(Error::NotUnderSysfs)
    ));
    assert!(matches!(
        UEvent::from_sysfs_path(reads("K=v", "a/..", "/sys/a"), &root),
        Err(Error::SubsystemNotFound)
    ));
}

#[test]
fn prefixes_are_whole_components() {
    let devpath = |path: &str, root: &str| {
        UEvent::from_sysfs_path(reads("", "tty", path), &PathBuf::from(root))
            .ok()
            .map(|e| e.devpath)
    };
    assert_eq!(devpath("/sysfs/a", "/sys"), None);
    assert_eq!(devpath("/sys/a", "sys"), None);
    assert_eq!(devpath("sys/a", "/sys"), None);
    assert_eq!(devpath("/sys", "/sys"), Some(PathBuf::from("/")));
    assert_eq!(devpath("/sys//a/./b/", "//sys/."), Some(PathBuf::from("/a/b")));
    assert_eq!(devpath("/sys/../a", "/sys"), Some(PathBuf::from("/../a")));
    assert_eq!(devpath("/sys/a", ""), Some(PathBuf::from("/sys/a")));
    assert_eq!(devpath("a/b", ""), Some(PathBuf::from("/a/b")));
    assert_eq!(devpath("./a/b", ""), Some(PathBuf::from("/a/b")));
    assert_eq!(devpath("./a/b", "."), Some(PathBuf::from("/a/b")));
    assert_eq!(devpath("/sys/a", "/"), Some(PathBuf::from("/sys/a")));
}

#[test]
fn names_of_subsystems() {
    let subsystem = |link: &str| {
        UEvent::from_sysfs_path(reads("", link, "/sys/a"), &PathBuf::from("/sys"))
            .ok()
            .map(|e| e.subsystem)
    };
    assert_eq!(subsystem("../../bus/usb").unwrap(), "usb");
    assert_eq!(subsystem("a/\u{e9}").unwrap(), "\u{e9}");
    assert_eq!(subsystem("usb/").unwrap(), "usb");
    assert_eq!(subsystem("usb/.").unwrap(), "usb");
    assert_eq!(subsystem("/"), None);
    assert_eq!(subsystem(""), None);
    assert_eq!(subsystem("."), None);
    assert_eq!(subsystem("usb/.."), None);
}

#[test]
fn sysfs_devpath_is_the_netlink_devpath() {
    let sysfs = UEvent::from_sysfs_path(
        reads("K=v\nL=w\n", "tty", "/sys/devices/a"),
        &PathBuf::from("/sys"),
    )
    .unwrap();
    let netlink = UEvent::from_netlink_packet(
        b"add@/devices/a\0ACTION=add\0DEVPATH=/devices/a\0SUBSYSTEM=tty\0K=v\0L=w\0SEQNUM=0",
    )
    .unwrap();
    assert!(sysfs.eq(&netlink));
}

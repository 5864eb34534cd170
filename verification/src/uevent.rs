//! Events, and how they are read from netlink packets and from sysfs.

use crate::action::Action;
use crate::error::{Error, ErrorView};
use crate::fields::{
    MaybeUEvent, action_of, devpath_of, env_of, fields, first_error, last_value,
    parse_uevent_iter, seq_of, subsystem_of,
};
use crate::outside::{
    compact_eq, compact_text, env_eq, file_name, join, lossy_text, path_bytes, path_components,
    path_eq, path_from_text, strip_prefix, text_map, to_compact, to_string_lossy,
};
use crate::path::{components, final_name, joined, lemma_root_components, Component};
use crate::text::{lines, split, split_at_each, split_lines, u64_value};
use compact_str::CompactString;
use std::collections::{hash_map::RandomState, HashMap};
use std::hash::BuildHasher;
use std::path::PathBuf;
use vstd::prelude::*;
use vstd::std_specs::hash::builds_valid_hashers;
use vstd::utf8::{decode_utf8, encode_utf8, encode_utf8_decode_utf8, valid_utf8};

verus! {

/// Linux kernel userspace event.
#[derive(Debug)]
#[verifier::reject_recursive_types(S)]
pub struct UEvent<S: BuildHasher = RandomState> {
    /// Action happening
    pub action: Action,
    /// Complete kobject path
    pub devpath: PathBuf,
    /// Origin subsystem of the event
    pub subsystem: CompactString,
    /// Miscellaneous arguments
    pub env: HashMap<CompactString, CompactString, S>,
    /// Sequence number
    pub seq: u64,
}

impl<S: BuildHasher> UEvent<S> {
    /// Whether two events are the same: action, sequence number, subsystem, path and arguments.
    /// Paths are the same when their components are.
    pub open spec fn same_as(self, other: Self) -> bool {
        &&& self.action == other.action
        &&& self.seq == other.seq
        &&& compact_text(self.subsystem) == compact_text(other.subsystem)
        &&& path_components(self.devpath) == path_components(other.devpath)
        &&& text_map(self.env@) == text_map(other.env@)
    }

    /// Whether this is the event that `fields` say.
    pub open spec fn says(self, fields: Seq<(Seq<char>, Seq<char>)>) -> bool {
        &&& action_of(fields) == Some(self.action)
        &&& devpath_of(fields) == Some(path_bytes(self.devpath))
        &&& subsystem_of(fields) == Some(compact_text(self.subsystem))
        &&& text_map(self.env@) == env_of(fields)
        &&& seq_of(fields) == Some(self.seq)
    }

    /// Whether two events are the same.
    ///
    /// This is a method of its own, and not that of `PartialEq`: an `impl` of that trait beside a
    /// `HashMap` brings in the `Eq` of `CompactString`, which Verus does not accept without its
    /// `PartialEq`, and that one it does not read.
    pub fn eq(&self, other: &Self) -> (res: bool)
        ensures
            builds_valid_hashers::<S>() ==> res == self.same_as(*other),
            res ==> self.action == other.action && self.seq == other.seq,
            res ==> compact_text(self.subsystem) == compact_text(other.subsystem),
            res ==> path_components(self.devpath) == path_components(other.devpath),
            res ==> components(path_bytes(self.devpath)) == components(path_bytes(other.devpath)),
            builds_valid_hashers::<S>() && res ==> text_map(self.env@) == text_map(other.env@),
            builds_valid_hashers::<S>() && self.action == other.action && self.seq == other.seq
                && compact_text(self.subsystem) == compact_text(other.subsystem) && components(
                path_bytes(self.devpath),
            ) == components(path_bytes(other.devpath)) && text_map(self.env@) == text_map(
                other.env@,
            ) ==> res,
    {
        self.action == other.action && self.seq == other.seq && compact_eq(
            &self.subsystem,
            &other.subsystem,
        ) && path_eq(&self.devpath, &other.devpath) && env_eq(&self.env, &other.env)
    }
}

impl<S: BuildHasher + Clone> Clone for UEvent<S> {
    fn clone(&self) -> (res: Self)
        ensures
            res.same_as(*self),
            path_bytes(res.devpath) == path_bytes(self.devpath),
            res.action == self.action,
            res.seq == self.seq,
            compact_text(res.subsystem) == compact_text(self.subsystem),
            text_map(res.env@) == text_map(self.env@),
    {
        UEvent {
            action: self.action,
            devpath: self.devpath.clone(),
            subsystem: self.subsystem.clone(),
            env: self.env.clone(),
            seq: self.seq,
        }
    }
}

/// What reading the sysfs directory of a device gave.
#[derive(Debug)]
pub struct SysfsReads {
    /// The text of the file `uevent` in the directory
    pub uevent: Result<String, std::io::Error>,
    /// Where the link `subsystem` in the directory leads to
    pub subsystem: Result<PathBuf, std::io::Error>,
    /// The canonical path of the directory
    pub canonical: Result<PathBuf, std::io::Error>,
}

/// The fields of a netlink packet: what stands between the NUL characters of its text.
pub open spec fn netlink_fields(pkt: Seq<u8>) -> Seq<(Seq<char>, Seq<char>)> {
    fields(split(decode_utf8(pkt), '\0'))
}

/// What keeps a netlink packet from being an event.
pub open spec fn netlink_error(pkt: Seq<u8>) -> Option<ErrorView> {
    let fields = netlink_fields(pkt);
    if !valid_utf8(pkt) {
        Some(ErrorView::InvalidUtf8)
    } else if first_error(fields) is Some {
        first_error(fields)
    } else if action_of(fields) is None {
        Some(ErrorView::ActionNotFound)
    } else if devpath_of(fields) is None {
        Some(ErrorView::DevPathNotFound)
    } else if subsystem_of(fields) is None {
        Some(ErrorView::SubsystemNotFound)
    } else if seq_of(fields) is None {
        Some(ErrorView::SeqMissing)
    } else {
        None
    }
}

/// The fields of the file `uevent` in sysfs: its lines.
pub open spec fn sysfs_fields(uevent: Seq<char>) -> Seq<(Seq<char>, Seq<char>)> {
    fields(lines(uevent))
}

/// The path of a kobject: that of its sysfs directory, with the sysfs root as the root directory.
pub open spec fn sysfs_devpath(
    canonical: Seq<Component>,
    sysfs_root: Seq<Component>,
) -> Seq<Component> {
    joined(seq![Component::Root], canonical.skip(sysfs_root.len() as int))
}

/// The name of the subsystem to which a link leads: the last name of the path.
pub open spec fn sysfs_subsystem(link: PathBuf) -> Seq<u8> {
    final_name(path_components(link))->0
}

/// What keeps a sysfs directory from being an event.
pub open spec fn sysfs_error(
    reads: SysfsReads,
    sysfs_root: Seq<Component>,
) -> Option<ErrorView> {
    match (reads.uevent, reads.subsystem) {
        (Err(e), _) => Some(ErrorView::Io(e)),
        (Ok(_), Err(e)) => Some(ErrorView::Io(e)),
        (Ok(uevent), Ok(subsystem)) => match (first_error(sysfs_fields(uevent@)), reads.canonical) {
            (Some(e), _) => Some(e),
            (None, Err(e)) => Some(ErrorView::Io(e)),
            (None, Ok(canonical)) => if !sysfs_root.is_prefix_of(path_components(canonical)) {
                Some(ErrorView::NotUnderSysfs)
            } else if final_name(path_components(subsystem)) is None {
                Some(ErrorView::SubsystemNotFound)
            } else {
                None
            },
        },
    }
}

impl UEvent {
    /// The event of a device that sysfs shows at `devpath`: an [`Action::Add`] without a sequence
    /// number.
    pub fn from_sysfs_parts(
        devpath: PathBuf,
        subsystem: &str,
        env: HashMap<CompactString, CompactString>,
    ) -> (res: UEvent)
        ensures
            res.action == Action::Add,
            res.devpath == devpath,
            compact_text(res.subsystem) == subsystem@,
            res.env == env,
            res.seq == 0,
    {
        UEvent { action: Action::Add, devpath, subsystem: to_compact(subsystem), env, seq: 0 }
    }

    /// Parse what a `sysfs(5)` path holds as an [`Action::Add`] [`UEvent`].
    ///
    /// The fields of `uevent` go into `env`, except those that have a place of their own in an
    /// event; these only have to be correct.
    pub fn from_sysfs_path(reads: SysfsReads, sysfs_root: &PathBuf) -> (res: Result<UEvent, Error>)
        ensures
            match res {
                Ok(event) => {
                    &&& sysfs_error(reads, path_components(*sysfs_root)) is None
                    &&& event.action == Action::Add
                    &&& path_components(event.devpath) == sysfs_devpath(
                        path_components(reads.canonical->Ok_0),
                        path_components(*sysfs_root),
                    )
                    &&& compact_text(event.subsystem)
                        == lossy_text(sysfs_subsystem(reads.subsystem->Ok_0))
                    &&& valid_utf8(sysfs_subsystem(reads.subsystem->Ok_0))
                        ==> compact_text(event.subsystem)
                        == decode_utf8(sysfs_subsystem(reads.subsystem->Ok_0))
                    &&& text_map(event.env@) == env_of(sysfs_fields(reads.uevent->Ok_0@))
                    &&& event.seq == 0
                },
                Err(e) => sysfs_error(reads, path_components(*sysfs_root)) == Some(e@),
            },
            ({
                let root = components(path_bytes(*sysfs_root));
                let read = reads.uevent is Ok && reads.subsystem is Ok;
                let correct = read && first_error(sysfs_fields(reads.uevent->Ok_0@)) is None;
                let found = correct && reads.canonical is Ok;
                let below = found && root.is_prefix_of(
                    components(path_bytes(reads.canonical->Ok_0)),
                );
                let name = final_name(components(path_bytes(reads.subsystem->Ok_0)));
                &&& res is Ok <==> below && name is Some
                &&& res matches Ok(event) ==> {
                    let fs = sysfs_fields(reads.uevent->Ok_0@);
                    &&& compact_text(event.subsystem) == lossy_text(name->0)
                    &&& valid_utf8(name->0) ==> compact_text(event.subsystem) == decode_utf8(
                        name->0,
                    )
                    &&& forall|k: Seq<char>| #[trigger]
                        text_map(event.env@).contains_key(k) <==> k != "ACTION"@ && k
                            != "DEVPATH"@ && k != "SUBSYSTEM"@ && k != "SEQNUM"@ && last_value(
                            fs,
                            k,
                        ) is Some
                    &&& forall|k: Seq<char>| #[trigger]
                        text_map(event.env@).contains_key(k) ==> last_value(fs, k) == Some(
                            text_map(event.env@)[k],
                        )
                }
                &&& reads.uevent matches Err(e) ==> res matches Err(Error::Io(cause)) && cause == e
                &&& reads.uevent is Ok ==> (reads.subsystem matches Err(e) ==> res matches Err(
                    Error::Io(cause),
                ) && cause == e)
                &&& correct ==> (reads.canonical matches Err(e) ==> res matches Err(
                    Error::Io(cause),
                ) && cause == e)
                &&& (res matches Err(Error::NotUnderSysfs)) <==> found && !below
                &&& (res matches Err(Error::SubsystemNotFound)) <==> below && name is None
                &&& read && !correct ==> match first_error(sysfs_fields(reads.uevent->Ok_0@))->0 {
                    ErrorView::UnexpectedAction(v) => res matches Err(Error::UnexpectedAction(s))
                        && compact_text(s) == v,
                    ErrorView::InvalidSeqNum(v) => res matches Err(Error::InvalidSeqNum(s))
                        && compact_text(s) == v,
                    _ => false,
                }
            }),
    {
        let uevent: String = match reads.uevent {
            Ok(uevent) => uevent,
            Err(e) => {
                return Err(Error::Io(e));
            },
        };
        let subsystem_path: PathBuf = match reads.subsystem {
            Ok(path) => path,
            Err(e) => {
                return Err(Error::Io(e));
            },
        };
        let lines: Vec<&str> = split_lines(uevent.as_str());
        let fields: MaybeUEvent = match parse_uevent_iter(&lines) {
            Ok(fields) => fields,
            Err(e) => {
                return Err(e);
            },
        };
        let canonical: PathBuf = match reads.canonical {
            Ok(path) => path,
            Err(e) => {
                return Err(Error::Io(e));
            },
        };
        // make it look like a netlink devpath
        let below: PathBuf = match strip_prefix(&canonical, sysfs_root) {
            Ok(path) => path,
            Err(_) => {
                return Err(Error::NotUnderSysfs);
            },
        };
        proof {
            lemma_root_components();
        }
        let devpath: PathBuf = join(&path_from_text("/"), &below);
        let name: PathBuf = match file_name(&subsystem_path) {
            Some(name) => name,
            None => {
                return Err(Error::SubsystemNotFound);
            },
        };
        let subsystem: String = to_string_lossy(&name);
        Ok(Self::from_sysfs_parts(devpath, subsystem.as_str(), fields.env))
    }

    /// Parse a netlink packet as received from the `NETLINK_KOBJECT_UEVENT` broadcast.
    pub fn from_netlink_packet(pkt: &[u8]) -> (res: Result<UEvent, Error>)
        ensures
            match res {
                Ok(event) => netlink_error(pkt@) is None && event.says(netlink_fields(pkt@)),
                Err(e) => netlink_error(pkt@) == Some(e@),
            },
            ({
                let fs = netlink_fields(pkt@);
                let correct = valid_utf8(pkt@) && first_error(fs) is None;
                let action = last_value(fs, "ACTION"@);
                let devpath = last_value(fs, "DEVPATH"@);
                let subsystem = last_value(fs, "SUBSYSTEM"@);
                let seq = last_value(fs, "SEQNUM"@);
                &&& res is Ok <==> correct && action is Some && devpath is Some && subsystem is Some
                    && seq is Some
                &&& res matches Ok(event) ==> {
                    &&& event.action.name() == action->0
                    &&& path_bytes(event.devpath) == encode_utf8(devpath->0)
                    &&& compact_text(event.subsystem) == subsystem->0
                    &&& u64_value(seq->0) == Some(event.seq)
                    &&& forall|k: Seq<char>| #[trigger]
                        text_map(event.env@).contains_key(k) <==> k != "ACTION"@ && k
                            != "DEVPATH"@ && k != "SUBSYSTEM"@ && k != "SEQNUM"@ && last_value(
                            fs,
                            k,
                        ) is Some
                    &&& forall|k: Seq<char>| #[trigger]
                        text_map(event.env@).contains_key(k) ==> last_value(fs, k) == Some(
                            text_map(event.env@)[k],
                        )
                }
                &&& (res matches Err(Error::InvalidUtf8)) <==> !valid_utf8(pkt@)
                &&& (res matches Err(Error::ActionNotFound)) <==> correct && action is None
                &&& (res matches Err(Error::DevPathNotFound)) <==> correct && action is Some
                    && devpath is None
                &&& (res matches Err(Error::SubsystemNotFound)) <==> correct && action is Some
                    && devpath is Some && subsystem is None
                &&& (res matches Err(Error::SeqMissing)) <==> correct && action is Some && devpath
                    is Some && subsystem is Some && seq is None
                &&& valid_utf8(pkt@) && !correct ==> match first_error(fs)->0 {
                    ErrorView::UnexpectedAction(v) => res matches Err(Error::UnexpectedAction(s))
                        && compact_text(s) == v,
                    ErrorView::InvalidSeqNum(v) => res matches Err(Error::InvalidSeqNum(s))
                        && compact_text(s) == v,
                    _ => false,
                }
            }),
    {
        let text: &str = match std::str::from_utf8(pkt) {
            Ok(text) => text,
            Err(_) => {
                return Err(Error::InvalidUtf8);
            },
        };
        proof {
            encode_utf8_decode_utf8(text@);
        }
        let lines: Vec<&str> = split_at_each(text, '\0');
        let MaybeUEvent { action, devpath, subsystem, env, seq } = match parse_uevent_iter(&lines) {
            Ok(fields) => fields,
            Err(e) => {
                return Err(e);
            },
        };
        let action: Action = match action {
            Some(action) => action,
            None => {
                return Err(Error::ActionNotFound);
            },
        };
        let devpath: PathBuf = match devpath {
            Some(devpath) => devpath,
            None => {
                return Err(Error::DevPathNotFound);
            },
        };
        let subsystem: CompactString = match subsystem {
            Some(subsystem) => subsystem,
            None => {
                return Err(Error::SubsystemNotFound);
            },
        };
        let seq: u64 = match seq {
            Some(seq) => seq,
            None => {
                return Err(Error::SeqMissing);
            },
        };
        Ok(UEvent { action, devpath, subsystem, env, seq })
    }
}

} // verus!

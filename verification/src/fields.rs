//! The `key=value` fields of an event.

use crate::action::{Action, action_named};
use crate::error::{Error, ErrorView};
use crate::outside::{compact_text, env_insert, path_bytes, path_from_text, text_map, to_compact};
use crate::text::{parse_u64, same_text, split_once, split_once_at, texts, u64_value};
use compact_str::CompactString;
use std::collections::HashMap;
use std::path::PathBuf;
use std::str::FromStr;
use vstd::prelude::*;
use vstd::utf8::encode_utf8;

verus! {

/// The fields among `lines`: each line with a `=` in it is one, and the first `=` ends its key.
/// Lines without a `=` are no fields.
pub open spec fn fields(lines: Seq<Seq<char>>) -> Seq<(Seq<char>, Seq<char>)>
    decreases lines.len(),
{
    if lines.len() == 0 {
        seq![]
    } else {
        match split_once(lines.last(), '=') {
            Some(field) => fields(lines.drop_last()).push(field),
            None => fields(lines.drop_last()),
        }
    }
}

/// The value of the last field with that key.
pub open spec fn last_value(fields: Seq<(Seq<char>, Seq<char>)>, key: Seq<char>) -> Option<
    Seq<char>,
>
    decreases fields.len(),
{
    if fields.len() == 0 {
        None
    } else if fields.last().0 == key {
        Some(fields.last().1)
    } else {
        last_value(fields.drop_last(), key)
    }
}

/// What is wrong with a field: an unknown action, or a sequence number that is no number.
pub open spec fn field_error(field: (Seq<char>, Seq<char>)) -> Option<ErrorView> {
    if field.0 == "ACTION"@ && action_named(field.1) is None {
        Some(ErrorView::UnexpectedAction(field.1))
    } else if field.0 == "SEQNUM"@ && u64_value(field.1) is None {
        Some(ErrorView::InvalidSeqNum(field.1))
    } else {
        None
    }
}

/// What is wrong with the first field with which something is wrong.
pub open spec fn first_error(fields: Seq<(Seq<char>, Seq<char>)>) -> Option<ErrorView>
    decreases fields.len(),
{
    if fields.len() == 0 {
        None
    } else {
        match first_error(fields.drop_last()) {
            Some(e) => Some(e),
            None => field_error(fields.last()),
        }
    }
}

/// Whether a key has a place of its own in an event, outside of `env`.
pub open spec fn is_reserved(key: Seq<char>) -> bool {
    key == "ACTION"@ || key == "DEVPATH"@ || key == "SUBSYSTEM"@ || key == "SEQNUM"@
}

/// The miscellaneous fields: each key without a place of its own, with its last value.
pub open spec fn env_of(fields: Seq<(Seq<char>, Seq<char>)>) -> Map<Seq<char>, Seq<char>> {
    Map::new(
        |k: Seq<char>| !is_reserved(k) && last_value(fields, k) is Some,
        |k: Seq<char>| last_value(fields, k)->0,
    )
}

/// The last action among the fields.
pub open spec fn action_of(fields: Seq<(Seq<char>, Seq<char>)>) -> Option<Action> {
    match last_value(fields, "ACTION"@) {
        Some(v) => action_named(v),
        None => None,
    }
}

/// The UTF-8 bytes of the last kobject path among the fields.
pub open spec fn devpath_of(fields: Seq<(Seq<char>, Seq<char>)>) -> Option<Seq<u8>> {
    match last_value(fields, "DEVPATH"@) {
        Some(v) => Some(encode_utf8(v)),
        None => None,
    }
}

/// The last subsystem among the fields.
pub open spec fn subsystem_of(fields: Seq<(Seq<char>, Seq<char>)>) -> Option<Seq<char>> {
    last_value(fields, "SUBSYSTEM"@)
}

/// The last sequence number among the fields.
pub open spec fn seq_of(fields: Seq<(Seq<char>, Seq<char>)>) -> Option<u64> {
    match last_value(fields, "SEQNUM"@) {
        Some(v) => u64_value(v),
        None => None,
    }
}

/// An event of which some parts may be missing.
#[derive(Debug)]
pub struct MaybeUEvent {
    /// Action happening
    pub action: Option<Action>,
    /// Complete Kernel Object path
    pub devpath: Option<PathBuf>,
    /// SubSystem originating the event
    pub subsystem: Option<CompactString>,
    /// Arguments
    pub env: HashMap<CompactString, CompactString>,
    /// Sequence number
    pub seq: Option<u64>,
}

impl MaybeUEvent {
    /// Whether this is what `fields` say.
    pub open spec fn says(self, fields: Seq<(Seq<char>, Seq<char>)>) -> bool {
        &&& self.action == action_of(fields)
        &&& match self.devpath {
            Some(p) => devpath_of(fields) == Some(path_bytes(p)),
            None => devpath_of(fields) is None,
        }
        &&& match self.subsystem {
            Some(s) => subsystem_of(fields) == Some(compact_text(s)),
            None => subsystem_of(fields) is None,
        }
        &&& text_map(self.env@) == env_of(fields)
        &&& self.seq == seq_of(fields)
    }
}

impl Default for MaybeUEvent {
    /// The event of which everything is missing.
    fn default() -> (res: Self)
        ensures
            res.says(seq![]),
            res.action is None,
            res.devpath is None,
            res.subsystem is None,
            text_map(res.env@) == Map::<Seq<char>, Seq<char>>::empty(),
            res.seq is None,
    {
        let res = MaybeUEvent {
            action: None,
            devpath: None,
            subsystem: None,
            env: HashMap::new(),
            seq: None,
        };
        assert(text_map(res.env@) =~= env_of(seq![]));
        assert(text_map(res.env@) =~= Map::<Seq<char>, Seq<char>>::empty());
        res
    }
}

/// The first error among the fields of some lines is the first error among all.
proof fn lemma_first_error_stays(lines: Seq<Seq<char>>, n: int)
    requires
        0 <= n <= lines.len(),
        first_error(fields(lines.take(n))) is Some,
    ensures
        first_error(fields(lines)) == first_error(fields(lines.take(n))),
    decreases lines.len() - n,
{
    if n == lines.len() {
        assert(lines.take(n) =~= lines);
    } else {
        assert(lines.take(n + 1).drop_last() =~= lines.take(n));
        let before = fields(lines.take(n));
        match split_once(lines.take(n + 1).last(), '=') {
            Some(field) => {
                assert(before.push(field).drop_last() =~= before);
            },
            None => {},
        }
        lemma_first_error_stays(lines, n + 1);
    }
}

/// What one more field changes.
proof fn lemma_one_more_field(before: Seq<(Seq<char>, Seq<char>)>, field: (Seq<char>, Seq<char>))
    ensures
        before.push(field).drop_last() == before,
        forall|k: Seq<char>|
            #[trigger] last_value(before.push(field), k) == if k == field.0 {
                Some(field.1)
            } else {
                last_value(before, k)
            },
        first_error(before) is None ==> first_error(before.push(field)) == field_error(field),
        is_reserved(field.0) ==> env_of(before.push(field)) == env_of(before),
        !is_reserved(field.0) ==> env_of(before.push(field)) == env_of(before).insert(
            field.0,
            field.1,
        ),
{
    assert(before.push(field).drop_last() =~= before);
    if is_reserved(field.0) {
        assert(env_of(before.push(field)) =~= env_of(before));
    } else {
        assert(env_of(before.push(field)) =~= env_of(before).insert(field.0, field.1));
    }
}

/// The keys that have a place of their own differ from each other.
pub(crate) proof fn lemma_keys_differ()
    ensures
        "ACTION"@ != "DEVPATH"@,
        "ACTION"@ != "SUBSYSTEM"@,
        "ACTION"@ != "SEQNUM"@,
        "DEVPATH"@ != "SUBSYSTEM"@,
        "DEVPATH"@ != "SEQNUM"@,
        "SUBSYSTEM"@ != "SEQNUM"@,
{
    reveal_strlit("ACTION");
    reveal_strlit("DEVPATH");
    reveal_strlit("SUBSYSTEM");
    reveal_strlit("SEQNUM");
    assert("ACTION"@[0] == 'A');
    assert("DEVPATH"@[0] == 'D');
    assert("SUBSYSTEM"@[1] == 'U');
    assert("SEQNUM"@[1] == 'E');
    assert("SEQNUM"@[0] == 'S');
    assert("SUBSYSTEM"@[0] == 'S');
}

/// What is wrong with fields is an unknown action or a sequence number that is no number. Where
/// nothing is wrong, the last action is one and the last sequence number is a number.
pub(crate) proof fn lemma_checked_values(fs: Seq<(Seq<char>, Seq<char>)>)
    ensures
        first_error(fs) matches Some(e) ==> e is UnexpectedAction || e is InvalidSeqNum,
        first_error(fs) is None ==> (last_value(fs, "ACTION"@) matches Some(v) ==> action_named(
            v,
        ) is Some),
        first_error(fs) is None ==> (last_value(fs, "SEQNUM"@) matches Some(v) ==> u64_value(
            v,
        ) is Some),
    decreases fs.len(),
{
    lemma_keys_differ();
    if fs.len() > 0 {
        lemma_checked_values(fs.drop_last());
    }
}

/// Parse `key=value` strings as an event. Some fields may be missing.
pub fn parse_uevent_iter(lines: &Vec<&str>) -> (res: Result<MaybeUEvent, Error>)
    ensures
        match res {
            Ok(event) => {
                &&& first_error(fields(texts(lines@))) is None
                &&& event.says(fields(texts(lines@)))
            },
            Err(e) => first_error(fields(texts(lines@))) == Some(e@),
        },
        ({
            let fs = fields(texts(lines@));
            let action = last_value(fs, "ACTION"@);
            let devpath = last_value(fs, "DEVPATH"@);
            let subsystem = last_value(fs, "SUBSYSTEM"@);
            let seq = last_value(fs, "SEQNUM"@);
            &&& res matches Ok(event) ==> {
                &&& event.action is Some <==> action is Some
                &&& event.action matches Some(a) ==> a.name() == action->0
                &&& event.devpath is Some <==> devpath is Some
                &&& event.devpath matches Some(p) ==> path_bytes(p) == encode_utf8(devpath->0)
                &&& event.subsystem is Some <==> subsystem is Some
                &&& event.subsystem matches Some(s) ==> compact_text(s) == subsystem->0
                &&& event.seq is Some <==> seq is Some
                &&& event.seq is Some ==> event.seq == u64_value(seq->0)
                &&& forall|k: Seq<char>| #[trigger]
                    text_map(event.env@).contains_key(k) <==> k != "ACTION"@ && k != "DEVPATH"@
                        && k != "SUBSYSTEM"@ && k != "SEQNUM"@ && last_value(fs, k) is Some
                &&& forall|k: Seq<char>| #[trigger]
                    text_map(event.env@).contains_key(k) ==> last_value(fs, k) == Some(
                        text_map(event.env@)[k],
                    )
            }
            &&& res matches Err(e) ==> match first_error(fs)->0 {
                ErrorView::UnexpectedAction(v) => e matches Error::UnexpectedAction(s)
                    && compact_text(s) == v,
                ErrorView::InvalidSeqNum(v) => e matches Error::InvalidSeqNum(s) && compact_text(s)
                    == v,
                _ => false,
            }
        }),
{
    let ghost all = texts(lines@);
    let mut ret = MaybeUEvent::default();
    let n: usize = lines.len();
    let mut i: usize = 0;
    assert(all.take(0) =~= seq![]);
    while i < n
        invariant
            i <= n,
            n == lines@.len(),
            all == texts(lines@),
            first_error(fields(all.take(i as int))) is None,
            ret.says(fields(all.take(i as int))),
        decreases n - i,
    {
        let f: &str = lines[i];
        let ghost before = fields(all.take(i as int));
        proof {
            assert(all.take(i + 1).drop_last() =~= all.take(i as int));
            assert(all.take(i + 1).last() == f@);
            lemma_keys_differ();
        }
        if let Some((key, value)) = split_once_at(f, '=') {
            proof {
                lemma_one_more_field(before, (key@, value@));
                if first_error(fields(all.take(i + 1))) is Some {
                    lemma_first_error_stays(all, i + 1);
                }
            }
            if same_text(key, "ACTION") {
                match Action::from_str(value) {
                    Ok(action) => {
                        ret.action = Some(action);
                    },
                    Err(e) => {
                        return Err(e);
                    },
                }
            } else if same_text(key, "DEVPATH") {
                ret.devpath = Some(path_from_text(value));
            } else if same_text(key, "SUBSYSTEM") {
                ret.subsystem = Some(to_compact(value));
            } else if same_text(key, "SEQNUM") {
                match parse_u64(value) {
                    Some(seq) => {
                        ret.seq = Some(seq);
                    },
                    None => {
                        return Err(Error::InvalidSeqNum(to_compact(value)));
                    },
                }
            } else {
                env_insert(&mut ret.env, to_compact(key), to_compact(value));
            }
        }
        i = i + 1;
    }
    proof {
        assert(all.take(n as int) =~= all);
        lemma_checked_values(fields(all));
    }
    Ok(ret)
}

} // verus!

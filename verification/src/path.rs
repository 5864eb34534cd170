//! What a path means: the sequence of its components.
//!
//! Two paths are the same path when they have the same components, whatever separators stand
//! between them. A path is taken here as its bytes, with `/` between the components.

use crate::text::{lemma_encode_ascii, lemma_split_once_parts, split};
use vstd::prelude::*;
use vstd::utf8::encode_utf8;

verus! {

/// One step of a path.
pub enum Component {
    /// The root directory, from which an absolute path starts.
    Root,
    /// A name, `..`, or the `.` that a relative path starts with.
    Part(Seq<u8>),
}

/// The byte between two components.
pub const SEPARATOR: u8 = 47;

/// The name of the directory itself, `.`.
pub open spec fn current_dir() -> Seq<u8> {
    seq![46u8]
}

/// The name of the directory above, `..`.
pub open spec fn parent_dir() -> Seq<u8> {
    seq![46u8, 46u8]
}

/// Whether a path is absolute: it starts with a separator.
pub open spec fn starts_at_root(path: Seq<u8>) -> bool {
    path.len() > 0 && path[0] == SEPARATOR
}

/// The components of a path. Repeated separators and a separator at the end make no component,
/// nor does a `.` other than at the start of a relative path.
pub open spec fn components(path: Seq<u8>) -> Seq<Component> {
    let segments = split(path, SEPARATOR);
    let root = if starts_at_root(path) {
        seq![Component::Root]
    } else {
        seq![]
    };
    let first = if segments[0].len() > 0 {
        seq![Component::Part(segments[0])]
    } else {
        seq![]
    };
    let later = segments.drop_first().filter(
        |s: Seq<u8>| s.len() > 0 && s != current_dir(),
    ).map_values(|s: Seq<u8>| Component::Part(s));
    root + first + later
}

/// Whether a path with these components is absolute.
pub open spec fn is_absolute(path: Seq<Component>) -> bool {
    path.len() > 0 && path[0] == Component::Root
}

/// A path without the `.` that it starts with, if it does.
pub open spec fn without_leading_dot(path: Seq<Component>) -> Seq<Component> {
    if path.len() > 0 && path[0] == Component::Part(current_dir()) {
        path.drop_first()
    } else {
        path
    }
}

/// `path` seen from `base`: an absolute path stays as it is, another one goes on where `base`
/// ends.
pub open spec fn joined(base: Seq<Component>, path: Seq<Component>) -> Seq<Component> {
    if is_absolute(path) || base.len() == 0 {
        path
    } else {
        base + without_leading_dot(path)
    }
}

/// The name at the end of a path: its last component, if that is a name.
pub open spec fn final_name(path: Seq<Component>) -> Option<Seq<u8>> {
    if path.len() == 0 {
        None
    } else {
        match path.last() {
            Component::Root => None,
            Component::Part(name) => if name == current_dir() || name == parent_dir() {
                None
            } else {
                Some(name)
            },
        }
    }
}

/// The path `/` is the root directory.
pub(crate) proof fn lemma_root_components()
    ensures
        components(encode_utf8("/"@)) == seq![Component::Root],
{
    reveal_strlit("/");
    assert("/"@ =~= seq!['/']);
    lemma_encode_ascii('/');
    let bytes = encode_utf8("/"@);
    let empty = Seq::<u8>::empty();
    assert(bytes =~= empty + seq![SEPARATOR] + empty);
    lemma_split_once_parts(bytes, empty, SEPARATOR, empty);
    empty.index_of_first_ensures(SEPARATOR);
    assert(split(empty, SEPARATOR) =~= seq![empty]);
    let segments = split(bytes, SEPARATOR);
    assert(segments =~= seq![empty, empty]);
    let keep = |s: Seq<u8>| s.len() > 0 && s != current_dir();
    assert(segments.drop_first() =~= seq![empty]);
    assert(segments.drop_first().filter(keep) =~= seq![]) by {
        reveal_with_fuel(Seq::<_>::filter, 2);
        assert(segments.drop_first().drop_last() =~= seq![]);
    }
}

} // verus!

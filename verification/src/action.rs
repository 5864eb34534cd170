//! What happened to a kobject.

use crate::error::{Error, ErrorView};
use crate::outside::{compact_text, to_compact};
use crate::text::same_text;
use std::str::FromStr;
use vstd::prelude::*;

verus! {

/// All possible `kobject` actions.
///
/// See [`include/linux/kobject.h`][1] (and [`lib/kobject_uevent.c`][2] regarding its parsing).
///
/// [1]: https://elixir.bootlin.com/linux/v6.15/source/include/linux/kobject.h#L43-L62
/// [2]: https://elixir.bootlin.com/linux/v6.15/source/lib/kobject_uevent.c#L49-L59
#[derive(Debug, Clone, Copy, Eq, PartialEq, Hash, Structural)]
pub enum Action {
    /// A new kobject is added.
    Add,
    /// A kobject is removed.
    Remove,
    /// The kobject changed its internal state.
    ///
    /// The `env` contains kobject-specific information.
    Change,
    /// The kobject is reparented as a result of `kobject_move`.
    ///
    /// The `env` contains `DEVPATH_OLD=<oldpath>`.
    Move,
    /// The device is back online after successful `device_offline`.
    Online,
    /// The device is ready to be hot-removed.
    Offline,
    /// The device is bound to a driver.
    Bind,
    /// The device is not bound to its driver anymore.
    Unbind,
}

impl Action {
    /// What the kernel calls the action.
    pub open spec fn name(self) -> Seq<char> {
        match self {
            Action::Add => "add"@,
            Action::Remove => "remove"@,
            Action::Change => "change"@,
            Action::Move => "move"@,
            Action::Online => "online"@,
            Action::Offline => "offline"@,
            Action::Bind => "bind"@,
            Action::Unbind => "unbind"@,
        }
    }
}

/// The action of that name, if there is one.
pub open spec fn action_named(name: Seq<char>) -> Option<Action> {
    if name == "add"@ {
        Some(Action::Add)
    } else if name == "remove"@ {
        Some(Action::Remove)
    } else if name == "change"@ {
        Some(Action::Change)
    } else if name == "move"@ {
        Some(Action::Move)
    } else if name == "online"@ {
        Some(Action::Online)
    } else if name == "offline"@ {
        Some(Action::Offline)
    } else if name == "bind"@ {
        Some(Action::Bind)
    } else if name == "unbind"@ {
        Some(Action::Unbind)
    } else {
        None
    }
}

/// The eight names are different texts, and each is the name of its action.
pub proof fn law_literal_names()
    ensures
        seq![
            "add"@,
            "remove"@,
            "change"@,
            "move"@,
            "online"@,
            "offline"@,
            "bind"@,
            "unbind"@,
        ].no_duplicates(),
        action_named("add"@) == Some(Action::Add),
        action_named("remove"@) == Some(Action::Remove),
        action_named("change"@) == Some(Action::Change),
        action_named("move"@) == Some(Action::Move),
        action_named("online"@) == Some(Action::Online),
        action_named("offline"@) == Some(Action::Offline),
        action_named("bind"@) == Some(Action::Bind),
        action_named("unbind"@) == Some(Action::Unbind),
{
    reveal_strlit("add");
    reveal_strlit("remove");
    reveal_strlit("change");
    reveal_strlit("move");
    reveal_strlit("online");
    reveal_strlit("offline");
    reveal_strlit("bind");
    reveal_strlit("unbind");
    assert("add"@.len() == 3 && "remove"@.len() == 6 && "change"@.len() == 6 && "move"@.len() == 4
        && "online"@.len() == 6 && "offline"@.len() == 7 && "bind"@.len() == 4 && "unbind"@.len()
        == 6);
    assert("remove"@[0] == 'r' && "change"@[0] == 'c' && "online"@[0] == 'o' && "unbind"@[0]
        == 'u' && "move"@[0] == 'm' && "bind"@[0] == 'b');
}

/// A text names an action only if it is one of eight texts.
pub proof fn law_no_other_names(name: Seq<char>)
    requires
        name != "add"@,
        name != "remove"@,
        name != "change"@,
        name != "move"@,
        name != "online"@,
        name != "offline"@,
        name != "bind"@,
        name != "unbind"@,
    ensures
        action_named(name) is None,
        forall|a: Action| #[trigger] a.name() != name,
{
}

/// Actions and their names belong together one to one: a text names an action exactly if it is
/// the name of that action.
pub proof fn law_actions_have_distinct_names(name: Seq<char>, a: Action)
    ensures
        action_named(name) == Some(a) <==> a.name() == name,
{
    reveal_strlit("add");
    reveal_strlit("remove");
    reveal_strlit("change");
    reveal_strlit("move");
    reveal_strlit("online");
    reveal_strlit("offline");
    reveal_strlit("bind");
    reveal_strlit("unbind");
    if a.name() == name {
        assert(name[0] == a.name()[0]);
        assert(name[1] == a.name()[1]);
    }
}

impl FromStr for Action {
    type Err = Error;

    /// The action that the kernel calls `s`.
    fn from_str(s: &str) -> (res: Result<Self, Error>)
        ensures
            (res matches Ok(Action::Add)) == (s@ == "add"@),
            (res matches Ok(Action::Remove)) == (s@ == "remove"@),
            (res matches Ok(Action::Change)) == (s@ == "change"@),
            (res matches Ok(Action::Move)) == (s@ == "move"@),
            (res matches Ok(Action::Online)) == (s@ == "online"@),
            (res matches Ok(Action::Offline)) == (s@ == "offline"@),
            (res matches Ok(Action::Bind)) == (s@ == "bind"@),
            (res matches Ok(Action::Unbind)) == (s@ == "unbind"@),
            res matches Err(e) ==> e is UnexpectedAction && compact_text(e->UnexpectedAction_0)
                == s@,
            match res {
                Ok(a) => action_named(s@) == Some(a),
                Err(e) => action_named(s@) is None && e@ == ErrorView::UnexpectedAction(s@),
            },
    {
        proof {
            law_literal_names();
        }
        if same_text(s, "add") {
            Ok(Action::Add)
        } else if same_text(s, "remove") {
            Ok(Action::Remove)
        } else if same_text(s, "change") {
            Ok(Action::Change)
        } else if same_text(s, "move") {
            Ok(Action::Move)
        } else if same_text(s, "online") {
            Ok(Action::Online)
        } else if same_text(s, "offline") {
            Ok(Action::Offline)
        } else if same_text(s, "bind") {
            Ok(Action::Bind)
        } else if same_text(s, "unbind") {
            Ok(Action::Unbind)
        } else {
            Err(Error::UnexpectedAction(to_compact(s)))
        }
    }
}

} // verus!

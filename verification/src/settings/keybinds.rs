//! Key bindings: which key triggers which action, and how the bindings are
//! read from and written to their configuration file.

use super::config_var::{entry_text, line_of, read_line, write_entry, Line, LineView};
use crate::decimal::{format_i32, i32_of_text, int_text, parse_i32};
use crate::text::{has_prefix, same_text, starts_with};
use std::str::FromStr;
use vstd::prelude::*;

verus! {

#[derive(Hash, PartialEq, Eq, Debug, Copy, Clone, Structural)]
pub enum Actionkey {
    Forward,
    Backward,
    Left,
    Right,
    OpenInv,
    Sneak,
    Sprint,
    Jump,
    ToggleHud,
    ToggleDebug,
    ToggleChat,
}

#[derive(Clone, Copy)]
pub struct Keybind {
    pub name: &'static str,
    pub description: &'static str,
    pub action: Actionkey,
}

const VALUES: [Actionkey; 11] = [
    Actionkey::Forward,
    Actionkey::Backward,
    Actionkey::Left,
    Actionkey::Right,
    Actionkey::OpenInv,
    Actionkey::Sneak,
    Actionkey::Sprint,
    Actionkey::Jump,
    Actionkey::ToggleHud,
    Actionkey::ToggleDebug,
    Actionkey::ToggleChat,
];

impl Actionkey {
    /// Every action, in the order of their declaration.
    pub open spec fn all() -> Seq<Actionkey> {
        seq![
            Actionkey::Forward,
            Actionkey::Backward,
            Actionkey::Left,
            Actionkey::Right,
            Actionkey::OpenInv,
            Actionkey::Sneak,
            Actionkey::Sprint,
            Actionkey::Jump,
            Actionkey::ToggleHud,
            Actionkey::ToggleDebug,
            Actionkey::ToggleChat,
        ]
    }

    /// The action that a name in the configuration file stands for.
    pub open spec fn of_name(name: Seq<char>) -> Option<Actionkey> {
        if name == "keybind_forward"@ {
            Some(Actionkey::Forward)
        } else if name == "keybind_backward"@ {
            Some(Actionkey::Backward)
        } else if name == "keybind_left"@ {
            Some(Actionkey::Left)
        } else if name == "keybind_right"@ {
            Some(Actionkey::Right)
        } else if name == "keybind_open_inv"@ {
            Some(Actionkey::OpenInv)
        } else if name == "keybind_sneak"@ {
            Some(Actionkey::Sneak)
        } else if name == "keybind_sprint"@ {
            Some(Actionkey::Sprint)
        } else if name == "keybind_jump"@ {
            Some(Actionkey::Jump)
        } else if name == "keybind_toggle_hud"@ {
            Some(Actionkey::ToggleHud)
        } else if name == "keybind_toggle_debug_info"@ {
            Some(Actionkey::ToggleDebug)
        } else if name == "keybind_toggle_chat"@ {
            Some(Actionkey::ToggleChat)
        } else {
            None
        }
    }

    pub fn values() -> (all: &'static [Actionkey])
        ensures
            all@ == Self::all(),
    {
        &VALUES
    }

    /// The action that a name in the configuration file stands for.
    pub fn from_name(s: &str) -> (r: Option<Actionkey>)
        ensures
            r == Self::of_name(s@),
    {
        if same_text(s, "keybind_forward") {
            Some(Actionkey::Forward)
        } else if same_text(s, "keybind_backward") {
            Some(Actionkey::Backward)
        } else if same_text(s, "keybind_left") {
            Some(Actionkey::Left)
        } else if same_text(s, "keybind_right") {
            Some(Actionkey::Right)
        } else if same_text(s, "keybind_open_inv") {
            Some(Actionkey::OpenInv)
        } else if same_text(s, "keybind_sneak") {
            Some(Actionkey::Sneak)
        } else if same_text(s, "keybind_sprint") {
            Some(Actionkey::Sprint)
        } else if same_text(s, "keybind_jump") {
            Some(Actionkey::Jump)
        } else if same_text(s, "keybind_toggle_hud") {
            Some(Actionkey::ToggleHud)
        } else if same_text(s, "keybind_toggle_debug_info") {
            Some(Actionkey::ToggleDebug)
        } else if same_text(s, "keybind_toggle_chat") {
            Some(Actionkey::ToggleChat)
        } else {
            None
        }
    }
}

impl FromStr for Actionkey {
    type Err = ();

    /// The action that a name in the configuration file stands for; any
    /// other text is refused.
    fn from_str(s: &str) -> (r: Result<Self, Self::Err>)
        ensures
            r == (match Actionkey::of_name(s@) {
                Some(action) => Ok::<Actionkey, ()>(action),
                None => Err::<Actionkey, ()>(()),
            }),
    {
        match Actionkey::from_name(s) {
            Some(action) => Ok(action),
            None => Err(()),
        }
    }
}

/// The key that a text in the configuration file stands for.
pub fn deserialize_key(input: &str) -> (key: Option<i32>)
    ensures
        key == i32_of_text(input@),
{
    parse_i32(input)
}

/// Where the first binding of an action stands, or the number of bindings
/// where the action is not bound.
pub open spec fn find_action(binds: Seq<(i32, Keybind)>, action: Actionkey) -> int
    decreases binds.len(),
{
    if binds.len() == 0 {
        0
    } else if binds[0].1.action == action {
        0
    } else {
        1 + find_action(binds.drop_first(), action)
    }
}

/// Where the binding of a key stands, or the number of bindings where the
/// key is not bound.
pub open spec fn find_key(binds: Seq<(i32, Keybind)>, key: i32) -> int
    decreases binds.len(),
{
    if binds.len() == 0 {
        0
    } else if binds[0].0 == key {
        0
    } else {
        1 + find_key(binds.drop_first(), key)
    }
}

/// Whether no key is bound twice.
pub open spec fn distinct_keys(binds: Seq<(i32, Keybind)>) -> bool {
    forall|i: int, j: int|
        0 <= i < j < binds.len() ==> (#[trigger] binds[i]).0 != (#[trigger] binds[j]).0
}

/// The bindings with `key` bound to `bind`: in the place of what the key was
/// bound to before, or at the end.
pub open spec fn bound_to(binds: Seq<(i32, Keybind)>, key: i32, bind: Keybind) -> Seq<
    (i32, Keybind),
> {
    let at = find_key(binds, key);
    if at < binds.len() {
        binds.update(at, (key, bind))
    } else {
        binds.push((key, bind))
    }
}

/// The bindings after an action that is bound was moved to `key`: its first
/// binding is taken out, and put under the new key.
pub open spec fn rebound(binds: Seq<(i32, Keybind)>, key: i32, action: Actionkey) -> Seq<
    (i32, Keybind),
> {
    let at = find_action(binds, action);
    bound_to(binds.remove(at), key, binds[at].1)
}

/// What reading a line of the configuration file came to.
#[derive(Clone, Copy, Debug, PartialEq, Eq, Structural)]
pub enum Loaded {
    /// A comment, an empty line, or a setting that is no key binding.
    Skipped,
    /// The action that the line names is bound to the key it gives.
    Rebound,
    /// The line names an action, but gives no key that can be read.
    BadKey,
    /// The line names no action that is bound.
    Unknown,
    /// The line has a name and nothing behind it.
    Broken,
}

/// What a line of the configuration file does to the bindings.
pub open spec fn loaded(binds: Seq<(i32, Keybind)>, line: Seq<char>) -> (
    Loaded,
    Seq<(i32, Keybind)>,
) {
    match line_of(line) {
        LineView::Skipped => (Loaded::Skipped, binds),
        LineView::Broken => (Loaded::Broken, binds),
        LineView::Entry { name, arg } => if !starts_with(name, "keybind_"@) {
            (Loaded::Skipped, binds)
        } else {
            match Actionkey::of_name(name) {
                None => (Loaded::Unknown, binds),
                Some(action) => if find_action(binds, action) >= binds.len() {
                    (Loaded::Unknown, binds)
                } else {
                    match i32_of_text(arg) {
                        None => (Loaded::BadKey, binds),
                        Some(key) => (Loaded::Rebound, rebound(binds, key, action)),
                    }
                },
            }
        },
    }
}

/// The configuration file that holds the bindings: the entry of each, with
/// its key as the value.
pub open spec fn config_text(binds: Seq<(i32, Keybind)>) -> Seq<char>
    decreases binds.len(),
{
    if binds.len() == 0 {
        Seq::empty()
    } else {
        config_text(binds.drop_last()) + entry_text(
            binds.last().1.description@,
            binds.last().1.name@,
            int_text(binds.last().0 as int),
        )
    }
}

proof fn lemma_find_key(binds: Seq<(i32, Keybind)>, key: i32)
    ensures
        0 <= find_key(binds, key) <= binds.len(),
        find_key(binds, key) < binds.len() ==> binds[find_key(binds, key)].0 == key,
        forall|i: int| 0 <= i < find_key(binds, key) ==> (#[trigger] binds[i]).0 != key,
    decreases binds.len(),
{
    if binds.len() > 0 && binds[0].0 != key {
        let rest = binds.drop_first();
        lemma_find_key(rest, key);
        assert forall|i: int| 0 <= i < find_key(binds, key) implies (#[trigger] binds[i]).0
            != key by {
            if i > 0 {
                assert(binds[i] == rest[i - 1]);
            }
        }
    }
}

proof fn lemma_find_action(binds: Seq<(i32, Keybind)>, action: Actionkey)
    ensures
        0 <= find_action(binds, action) <= binds.len(),
        find_action(binds, action) < binds.len() ==> binds[find_action(
            binds,
            action,
        )].1.action == action,
        forall|i: int|
            0 <= i < find_action(binds, action) ==> (#[trigger] binds[i]).1.action != action,
    decreases binds.len(),
{
    if binds.len() > 0 && binds[0].1.action != action {
        let rest = binds.drop_first();
        lemma_find_action(rest, action);
        assert forall|i: int| 0 <= i < find_action(binds, action) implies (
        #[trigger] binds[i]).1.action != action by {
            if i > 0 {
                assert(binds[i] == rest[i - 1]);
            }
        }
    }
}

/// The first index that meets what `find_key` promises is what it finds.
proof fn lemma_find_key_is(binds: Seq<(i32, Keybind)>, key: i32, at: int)
    requires
        0 <= at <= binds.len(),
        at < binds.len() ==> binds[at].0 == key,
        forall|i: int| 0 <= i < at ==> (#[trigger] binds[i]).0 != key,
    ensures
        find_key(binds, key) == at,
{
    lemma_find_key(binds, key);
    let found = find_key(binds, key);
    if found < at {
        assert(binds[found].0 != key);
    } else if found > at {
        assert(binds[at].0 != key);
    }
}

proof fn lemma_find_action_is(binds: Seq<(i32, Keybind)>, action: Actionkey, at: int)
    requires
        0 <= at <= binds.len(),
        at < binds.len() ==> binds[at].1.action == action,
        forall|i: int| 0 <= i < at ==> (#[trigger] binds[i]).1.action != action,
    ensures
        find_action(binds, action) == at,
{
    lemma_find_action(binds, action);
    let found = find_action(binds, action);
    if found < at {
        assert(binds[found].1.action != action);
    } else if found > at {
        assert(binds[at].1.action != action);
    }
}

/// The bindings of keys to actions, in the order in which they were made.
pub struct KeybindStore {
    binds: Vec<(i32, Keybind)>,
}

impl View for KeybindStore {
    type V = Seq<(i32, Keybind)>;

    closed spec fn view(&self) -> Seq<(i32, Keybind)> {
        self.binds@
    }
}

impl Default for KeybindStore {
    fn default() -> (store: KeybindStore)
        ensures
            store.wf(),
            store@ == Seq::<(i32, Keybind)>::empty(),
    {
        Self::new()
    }
}

impl KeybindStore {
    /// No key is bound twice.
    pub open spec fn wf(&self) -> bool {
        distinct_keys(self@)
    }

    /// A store without bindings.
    pub fn new() -> (store: KeybindStore)
        ensures
            store.wf(),
            store@ == Seq::<(i32, Keybind)>::empty(),
    {
        KeybindStore { binds: Vec::new() }
    }

    fn position(&self, key: i32) -> (at: usize)
        ensures
            at == find_key(self@, key),
            at <= self@.len(),
    {
        let mut i: usize = 0;
        while i < self.binds.len()
            invariant
                i <= self.binds@.len(),
                forall|j: int| 0 <= j < i ==> (#[trigger] self.binds@[j]).0 != key,
            decreases self.binds.len() - i,
        {
            if self.binds[i].0 == key {
                proof {
                    lemma_find_key_is(self@, key, i as int);
                }
                return i;
            }
            i += 1;
        }
        proof {
            lemma_find_key_is(self@, key, i as int);
        }
        i
    }

    /// The binding of a key, where it is bound.
    pub fn get(&self, key: i32) -> (bind: Option<Keybind>)
        ensures
            bind == (if find_key(self@, key) < self@.len() {
                Some(self@[find_key(self@, key)].1)
            } else {
                None
            }),
    {
        let at = self.position(key);
        if at < self.binds.len() {
            Some(self.binds[at].1)
        } else {
            None
        }
    }

    /// The key that an action is bound to first, where it is bound.
    pub fn key_of(&self, action: Actionkey) -> (key: Option<i32>)
        ensures
            key == (if find_action(self@, action) < self@.len() {
                Some(self@[find_action(self@, action)].0)
            } else {
                None
            }),
    {
        let mut i: usize = 0;
        while i < self.binds.len()
            invariant
                i <= self.binds@.len(),
                forall|j: int| 0 <= j < i ==> (#[trigger] self.binds@[j]).1.action != action,
            decreases self.binds.len() - i,
        {
            if self.binds[i].1.action == action {
                proof {
                    lemma_find_action_is(self@, action, i as int);
                }
                return Some(self.binds[i].0);
            }
            i += 1;
        }
        proof {
            lemma_find_action_is(self@, action, i as int);
        }
        None
    }

    /// Binds `key` to `bind`, in the place of what the key was bound to.
    pub fn insert(&mut self, key: i32, bind: Keybind)
        requires
            old(self).wf(),
        ensures
            final(self).wf(),
            final(self)@ == bound_to(old(self)@, key, bind),
    {
        let at = self.position(key);
        proof {
            lemma_find_key(self@, key);
        }
        if at < self.binds.len() {
            self.binds[at] = (key, bind);
        } else {
            self.binds.push((key, bind));
        }
    }

    /// Moves an action that is bound to another key.
    pub fn set(&mut self, key: i32, action: Actionkey)
        requires
            old(self).wf(),
            find_action(old(self)@, action) < old(self)@.len(),
        ensures
            final(self).wf(),
            final(self)@ == rebound(old(self)@, key, action),
    {
        let mut at: usize = 0;
        while at < self.binds.len() && !(self.binds[at].1.action == action)
            invariant
                at <= self.binds@.len(),
                self.binds@ == old(self).binds@,
                forall|j: int| 0 <= j < at ==> (#[trigger] self.binds@[j]).1.action != action,
            decreases self.binds.len() - at,
        {
            at += 1;
        }
        proof {
            lemma_find_action_is(self@, action, at as int);
        }
        let (_, old_val) = self.binds.remove(at);
        assert(distinct_keys(self.binds@)) by {
            assert forall|i: int, j: int| 0 <= i < j < self.binds@.len() implies (
            #[trigger] self.binds@[i]).0 != (#[trigger] self.binds@[j]).0 by {
                let a = if i < at {
                    i
                } else {
                    i + 1
                };
                let b = if j < at {
                    j
                } else {
                    j + 1
                };
                assert(old(self)@[a].0 != old(self)@[b].0);
            }
        }
        self.insert(key, old_val);
    }

    /// Reads a line of the configuration file.
    pub fn load_line(&mut self, line: &str) -> (r: Loaded)
        requires
            old(self).wf(),
        ensures
            final(self).wf(),
            (r, final(self)@) == loaded(old(self)@, line@),
    {
        let (name, arg) = match read_line(line) {
            Line::Skipped => {
                return Loaded::Skipped;
            },
            Line::Broken => {
                return Loaded::Broken;
            },
            Line::Entry { name, arg } => (name, arg),
        };
        if !has_prefix(name.as_str(), "keybind_") {
            return Loaded::Skipped;
        }
        let action = match Actionkey::from_name(name.as_str()) {
            Some(action) => action,
            None => {
                return Loaded::Unknown;
            },
        };
        if self.key_of(action).is_none() {
            return Loaded::Unknown;
        }
        match deserialize_key(arg.as_str()) {
            Some(new_key) => {
                self.set(new_key, action);
                Loaded::Rebound
            },
            None => Loaded::BadKey,
        }
    }

    /// The configuration file that holds the bindings.
    pub fn save_text(&self) -> (text: String)
        ensures
            text@ == config_text(self@),
    {
        let mut text = String::new();
        let mut i: usize = 0;
        assert(self@.take(0) =~= Seq::<(i32, Keybind)>::empty());
        while i < self.binds.len()
            invariant
                i <= self.binds@.len(),
                text@ == config_text(self@.take(i as int)),
            decreases self.binds.len() - i,
        {
            let (key, keybind) = self.binds[i];
            write_entry(&mut text, keybind.description, keybind.name, format_i32(key).as_str());
            proof {
                assert(self@.take(i + 1).drop_last() =~= self@.take(i as int));
            }
            i += 1;
        }
        assert(self@.take(self@.len() as int) =~= self@);
        text
    }
}

} // verus!

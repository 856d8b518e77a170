//! The picker for `pinst harness install`: which scope, which skills,
//! which commands.
//!
//! A state machine with no terminal in it: a key in, a new state out. The
//! terminal shell around it reads keys and draws.

use vstd::prelude::*;

verus! {

/// Which installs a harness command acts on.
#[derive(Debug, Clone, Copy, PartialEq, Eq, Structural)]
pub enum ScopeArg {
    Project,
    Global,
    Both,
}

/// A key the picker reacts to; every other key is `Other`.
#[derive(Debug, Clone, Copy, PartialEq, Eq, Structural)]
pub enum Key {
    Up,
    Down,
    Enter,
    Esc,
    Char(char),
    Other,
}

#[derive(Debug, Clone, Copy, PartialEq, Eq, Structural)]
pub enum PickStep {
    Scope,
    Skills,
    Commands,
    Confirm,
}

/// The picker's whole state: the step it is on, the scope choice, and a
/// checklist with a cursor for skills and for commands.
pub struct Picker {
    step: PickStep,
    scope: ScopeArg,
    skills: Vec<(String, bool)>,
    skill_cursor: usize,
    commands: Vec<(String, bool)>,
    command_cursor: usize,
    cancelled: bool,
    confirmed: bool,
}

/// What the picker resolved to: the scope, and the ticked items.
pub struct Picked {
    pub scope: ScopeArg,
    pub skills: Vec<String>,
    pub commands: Vec<String>,
}

/// The picker as plain values.
pub struct PickerView {
    pub step: PickStep,
    pub scope: ScopeArg,
    pub skills: Seq<(Seq<char>, bool)>,
    pub skill_cursor: nat,
    pub commands: Seq<(Seq<char>, bool)>,
    pub command_cursor: nat,
    pub cancelled: bool,
    pub confirmed: bool,
}

pub open spec fn items_view(items: Seq<(String, bool)>) -> Seq<(Seq<char>, bool)> {
    items.map_values(|e: (String, bool)| (e.0@, e.1))
}

impl View for Picker {
    type V = PickerView;

    closed spec fn view(&self) -> PickerView {
        PickerView {
            step: self.step,
            scope: self.scope,
            skills: items_view(self.skills@),
            skill_cursor: self.skill_cursor as nat,
            commands: items_view(self.commands@),
            command_cursor: self.command_cursor as nat,
            cancelled: self.cancelled,
            confirmed: self.confirmed,
        }
    }
}

/// A cursor is on an item, or at 0 on an empty list.
pub open spec fn cursor_ok(len: nat, cursor: nat) -> bool {
    if len == 0 { cursor == 0 } else { cursor < len }
}

impl PickerView {
    pub open spec fn wf(self) -> bool {
        cursor_ok(self.skills.len(), self.skill_cursor) && cursor_ok(self.commands.len(), self.command_cursor)
    }
}

/// One key on a checklist: move the cursor (wrapping), toggle the item
/// under it, tick everything with `a`; `Enter` is handled by the caller.
pub open spec fn list_key(items: Seq<(Seq<char>, bool)>, cursor: nat, key: Key) -> (Seq<(Seq<char>, bool)>, nat) {
    let n = items.len();
    match key {
        Key::Up | Key::Char('k') => if n > 0 { (items, ((cursor + n - 1) % (n as int)) as nat) } else { (items, cursor) },
        Key::Down | Key::Char('j') => if n > 0 { (items, ((cursor + 1) as int % (n as int)) as nat) } else { (items, cursor) },
        Key::Char(' ') => if cursor < n {
            (items.update(cursor as int, (items[cursor as int].0, !items[cursor as int].1)), cursor)
        } else {
            (items, cursor)
        },
        Key::Char('a') => (items.map_values(|e: (Seq<char>, bool)| (e.0, true)), cursor),
        _ => (items, cursor),
    }
}

/// The picker after one key. Nothing moves once it is cancelled or
/// confirmed; `Esc` cancels from any step; every other key acts on the step
/// showing.
pub open spec fn after_key(p: PickerView, key: Key) -> PickerView {
    if p.cancelled || p.confirmed {
        p
    } else if key == Key::Esc {
        PickerView { cancelled: true, ..p }
    } else {
        match p.step {
            PickStep::Scope => match key {
                Key::Up | Key::Down | Key::Char('j') | Key::Char('k') => PickerView {
                    scope: if p.scope == ScopeArg::Project { ScopeArg::Global } else { ScopeArg::Project },
                    ..p
                },
                Key::Enter => PickerView { step: PickStep::Skills, ..p },
                _ => p,
            },
            PickStep::Skills => if key == Key::Enter {
                PickerView { step: PickStep::Commands, ..p }
            } else {
                let (items, cursor) = list_key(p.skills, p.skill_cursor, key);
                PickerView { skills: items, skill_cursor: cursor, ..p }
            },
            PickStep::Commands => if key == Key::Enter {
                PickerView { step: PickStep::Confirm, ..p }
            } else {
                let (items, cursor) = list_key(p.commands, p.command_cursor, key);
                PickerView { commands: items, command_cursor: cursor, ..p }
            },
            PickStep::Confirm => if key == Key::Enter {
                PickerView { confirmed: true, ..p }
            } else {
                p
            },
        }
    }
}

/// The names of the ticked items, in order.
pub open spec fn ticked(items: Seq<(Seq<char>, bool)>) -> Seq<Seq<char>>
    decreases items.len(),
{
    if items.len() == 0 {
        Seq::empty()
    } else {
        let prev = ticked(items.drop_last());
        if items.last().1 {
            prev.push(items.last().0)
        } else {
            prev
        }
    }
}

fn handle_list_key(key: Key, items: &mut Vec<(String, bool)>, cursor: &mut usize)
    requires
        cursor_ok(old(items)@.len(), *old(cursor) as nat),
    ensures
        (items_view(final(items)@), *final(cursor) as nat) == list_key(items_view(old(items)@), *old(cursor) as nat, key),
        cursor_ok(final(items)@.len(), *final(cursor) as nat),
{
    let n = items.len();
    match key {
        Key::Up | Key::Char('k') => {
            if n > 0 {
                let c = *cursor;
                let back = if c == 0 { n - 1 } else { c - 1 };
                assert(back as int == (c + n - 1) as int % (n as int)) by (nonlinear_arith)
                    requires
                        c < n,
                        back == (if c == 0 { n - 1 } else { c - 1 }),
                ;
                *cursor = back;
            }
        },
        Key::Down | Key::Char('j') => {
            if n > 0 {
                *cursor = (*cursor + 1) % n;
            }
        },
        Key::Char(' ') => {
            if *cursor < n {
                let ghost before = items_view(items@);
                let name = items[*cursor].0.clone();
                let on = items[*cursor].1;
                items.set(*cursor, (name, !on));
                assert(items_view(items@) =~= before.update(*cursor as int, (before[*cursor as int].0, !before[*cursor as int].1)));
            }
        },
        Key::Char('a') => {
            let ghost before = items_view(items@);
            let mut k: usize = 0;
            while k < items.len()
                invariant
                    k <= items@.len(),
                    items@.len() == before.len(),
                    forall|j: int| 0 <= j < k ==> #[trigger] items_view(items@)[j] == (before[j].0, true),
                    forall|j: int| k <= j < items@.len() ==> #[trigger] items_view(items@)[j] == before[j],
                decreases items.len() - k,
            {
                let ghost prev = items_view(items@);
                let name = items[k].0.clone();
                items.set(k, (name, true));
                assert(items_view(items@) =~= prev.update(k as int, (prev[k as int].0, true)));
                k = k + 1;
            }
            assert(items_view(items@) =~= before.map_values(|e: (Seq<char>, bool)| (e.0, true)));
        },
        _ => {},
    }
}

fn ticked_names(items: &Vec<(String, bool)>) -> (r: Vec<String>)
    ensures
        r@.map_values(|s: String| s@) == ticked(items_view(items@)),
{
    let ghost iv = items_view(items@);
    let mut out: Vec<String> = Vec::new();
    let mut k: usize = 0;
    while k < items.len()
        invariant
            k <= items@.len(),
            iv == items_view(items@),
            out@.map_values(|s: String| s@) == ticked(iv.take(k as int)),
        decreases items.len() - k,
    {
        assert(iv.take(k + 1).drop_last() == iv.take(k as int));
        if items[k].1 {
            let name = items[k].0.clone();
            out.push(name);
            assert(out@.map_values(|s: String| s@) =~= ticked(iv.take(k as int)).push(iv[k as int].0));
        }
        k = k + 1;
    }
    assert(iv.take(items@.len() as int) == iv);
    out
}

impl Picker {
    /// A picker on the scope step at `initial_scope`, with the lists as
    /// given (pre-ticked with whatever is already installed).
    pub fn new(initial_scope: ScopeArg, skills: Vec<(String, bool)>, commands: Vec<(String, bool)>) -> (r: Picker)
        ensures
            r@.step == PickStep::Scope,
            r@.scope == initial_scope,
            r@.skills == items_view(skills@),
            r@.commands == items_view(commands@),
            r@.skill_cursor == 0 && r@.command_cursor == 0,
            !r@.cancelled && !r@.confirmed,
            r@.wf(),
    {
        Picker {
            step: PickStep::Scope,
            scope: initial_scope,
            skills,
            skill_cursor: 0,
            commands,
            command_cursor: 0,
            cancelled: false,
            confirmed: false,
        }
    }

    pub fn cancelled(&self) -> (r: bool)
        ensures
            r == self@.cancelled,
    {
        self.cancelled
    }

    pub fn confirmed(&self) -> (r: bool)
        ensures
            r == self@.confirmed,
    {
        self.confirmed
    }

    pub fn scope(&self) -> (r: ScopeArg)
        ensures
            r == self@.scope,
    {
        self.scope
    }

    pub fn selected_skills(&self) -> (r: Vec<String>)
        ensures
            r@.map_values(|s: String| s@) == ticked(self@.skills),
    {
        ticked_names(&self.skills)
    }

    pub fn selected_commands(&self) -> (r: Vec<String>)
        ensures
            r@.map_values(|s: String| s@) == ticked(self@.commands),
    {
        ticked_names(&self.commands)
    }

    /// Advances the state machine by one key.
    pub fn handle_key(&mut self, key: Key)
        requires
            old(self)@.wf(),
        ensures
            final(self)@ == after_key(old(self)@, key),
            final(self)@.wf(),
    {
        if self.cancelled || self.confirmed {
            return;
        }
        if key == Key::Esc {
            self.cancelled = true;
            return;
        }
        match self.step {
            PickStep::Scope => match key {
                Key::Up | Key::Down | Key::Char('j') | Key::Char('k') => {
                    self.scope = if self.scope == ScopeArg::Project { ScopeArg::Global } else { ScopeArg::Project };
                },
                Key::Enter => {
                    self.step = PickStep::Skills;
                },
                _ => {},
            },
            PickStep::Skills => {
                if key == Key::Enter {
                    self.step = PickStep::Commands;
                } else {
                    handle_list_key(key, &mut self.skills, &mut self.skill_cursor);
                }
            },
            PickStep::Commands => {
                if key == Key::Enter {
                    self.step = PickStep::Confirm;
                } else {
                    handle_list_key(key, &mut self.commands, &mut self.command_cursor);
                }
            },
            PickStep::Confirm => {
                if key == Key::Enter {
                    self.confirmed = true;
                }
            },
        }
    }
}

/// Once the picker is cancelled or confirmed, no key changes it.
pub proof fn lemma_terminal_states_are_final(p: PickerView, key: Key)
    requires
        p.cancelled || p.confirmed,
    ensures
        after_key(p, key) == p,
{
}

/// `Esc` cancels from any step that is still open, and never confirms.
pub proof fn lemma_esc_cancels(p: PickerView)
    requires
        !p.cancelled && !p.confirmed,
    ensures
        after_key(p, Key::Esc).cancelled,
        !after_key(p, Key::Esc).confirmed,
        after_key(p, Key::Esc).skills == p.skills,
        after_key(p, Key::Esc).commands == p.commands,
{
}

/// The picker confirms only from the confirm step, on `Enter`.
pub proof fn lemma_confirm_needs_the_confirm_step(p: PickerView, key: Key)
    requires
        !p.confirmed,
        after_key(p, key).confirmed,
    ensures
        p.step == PickStep::Confirm,
        key == Key::Enter,
        !p.cancelled,
{
}

/// Every key keeps both cursors on their lists.
pub proof fn lemma_keys_keep_cursors_in_range(p: PickerView, key: Key)
    requires
        p.wf(),
    ensures
        after_key(p, key).wf(),
{
    let n = p.skills.len();
    let m = p.commands.len();
    if n > 0 {
        assert(0 <= (p.skill_cursor + n - 1) % (n as int) < n);
        assert(0 <= (p.skill_cursor + 1) as int % (n as int) < n);
    }
    if m > 0 {
        assert(0 <= (p.command_cursor + m - 1) % (m as int) < m);
        assert(0 <= (p.command_cursor + 1) as int % (m as int) < m);
    }
}

} // verus!

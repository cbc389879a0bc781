//! The history of submitted commands, walked with the arrow keys.

use super::state::texts;
use super::types::{keep_last, push_bounded};
use std::collections::VecDeque;
use vstd::prelude::*;

verus! {

pub const HISTORY_CAPACITY: usize = 64;

/// Earlier commands, and the draft that was left for them.
pub struct CommandHistory {
    pub entries: VecDeque<String>,
    pub cursor: Option<usize>,
    pub draft: String,
}

pub struct HistoryView {
    pub entries: Seq<Seq<char>>,
    pub cursor: Option<usize>,
    pub draft: Seq<char>,
}

impl View for CommandHistory {
    type V = HistoryView;

    open spec fn view(&self) -> HistoryView {
        HistoryView { entries: texts(self.entries@), cursor: self.cursor, draft: self.draft@ }
    }
}

impl HistoryView {
    /// The cursor, where there is one, is on an entry.
    pub open spec fn wf(self) -> bool {
        &&& self.entries.len() <= HISTORY_CAPACITY
        &&& self.cursor matches Some(c) ==> c < self.entries.len()
    }
}

/// The history after a command: the latest commands, without a repetition at the end.
pub open spec fn recorded(h: HistoryView, command: Seq<char>) -> HistoryView {
    HistoryView {
        entries: if h.entries.len() > 0 && h.entries.last() == command {
            h.entries
        } else {
            keep_last(h.entries.push(command), HISTORY_CAPACITY as nat)
        },
        cursor: None,
        draft: Seq::empty(),
    }
}

/// One step back: the history and the text that is shown then.
pub open spec fn stepped_back(h: HistoryView, command: Seq<char>) -> (HistoryView, Seq<char>) {
    if h.entries.len() == 0 {
        (h, command)
    } else {
        match h.cursor {
            None => {
                let index = (h.entries.len() - 1) as usize;
                (
                    HistoryView { cursor: Some(index), draft: command, ..h },
                    h.entries[index as int],
                )
            },
            Some(c) => {
                let index = if c > 0 {
                    (c - 1) as usize
                } else {
                    0
                };
                (HistoryView { cursor: Some(index), ..h }, h.entries[index as int])
            },
        }
    }
}

/// One step forward: behind the last entry the draft is back.
pub open spec fn stepped_forward(h: HistoryView, command: Seq<char>) -> (HistoryView, Seq<char>) {
    match h.cursor {
        None => (h, command),
        Some(c) => if c + 1 < h.entries.len() {
            (HistoryView { cursor: Some((c + 1) as usize), ..h }, h.entries[c + 1])
        } else {
            (HistoryView { cursor: None, ..h }, h.draft)
        },
    }
}

impl Default for CommandHistory {
    fn default() -> (r: Self)
        ensures
            r@ == (HistoryView { entries: Seq::empty(), cursor: None, draft: Seq::empty() }),
            r@.wf(),
    {
        let r = CommandHistory {
            entries: VecDeque::new(),
            cursor: None,
            draft: String::new(),
        };
        assert(r@.entries =~= Seq::<Seq<char>>::empty());
        r
    }
}

impl CommandHistory {
    pub fn record(&mut self, command: String)
        requires
            old(self)@.wf(),
        ensures
            final(self)@.wf(),
            final(self)@ == recorded(old(self)@, command@),
    {
        let ghost before = self.entries@;
        let n: usize = self.entries.len();
        let repeated = n > 0 && self.entries[n - 1] == command;
        if !repeated {
            push_bounded(&mut self.entries, command, HISTORY_CAPACITY);
            assert(texts(before.push(command)) =~= texts(before).push(command@));
            assert(texts(self.entries@) =~= keep_last(
                texts(before).push(command@),
                HISTORY_CAPACITY as nat,
            ));
        }
        self.cursor = None;
        self.draft = String::new();
    }

    /// Shows the previous command; the first step back keeps the text as a draft.
    pub fn previous(&mut self, command: &mut String)
        requires
            old(self)@.wf(),
        ensures
            final(self)@.wf(),
            (final(self)@, final(command)@) == stepped_back(old(self)@, old(command)@),
    {
        let n: usize = self.entries.len();
        if n == 0 {
            return ;
        }
        let index: usize = match self.cursor {
            None => {
                self.draft = command.clone();
                n - 1
            },
            Some(index) => if index > 0 {
                index - 1
            } else {
                0
            },
        };
        self.cursor = Some(index);
        *command = self.entries[index].clone();
    }

    /// Shows the next command, or the draft behind the last one.
    pub fn next(&mut self, command: &mut String)
        requires
            old(self)@.wf(),
        ensures
            final(self)@.wf(),
            (final(self)@, final(command)@) == stepped_forward(old(self)@, old(command)@),
    {
        if let Some(index) = self.cursor {
            if index + 1 < self.entries.len() {
                self.cursor = Some(index + 1);
                *command = self.entries[index + 1].clone();
            } else {
                self.cursor = None;
                *command = self.draft.clone();
            }
        }
    }
}

/// Several steps back.
pub open spec fn back_by(h: HistoryView, command: Seq<char>, n: nat) -> (HistoryView, Seq<char>)
    decreases n,
{
    if n == 0 {
        (h, command)
    } else {
        let (h2, c2) = back_by(h, command, (n - 1) as nat);
        stepped_back(h2, c2)
    }
}

/// Several steps forward.
pub open spec fn forward_by(h: HistoryView, command: Seq<char>, n: nat) -> (HistoryView, Seq<char>)
    decreases n,
{
    if n == 0 {
        (h, command)
    } else {
        let (h2, c2) = stepped_forward(h, command);
        forward_by(h2, c2, (n - 1) as nat)
    }
}

proof fn lemma_back_by(h: HistoryView, command: Seq<char>, n: nat)
    requires
        h.wf(),
        h.cursor is None,
        h.entries.len() > 0,
        n > 0,
    ensures
        ({
            let h2 = back_by(h, command, n).0;
            &&& h2.entries == h.entries
            &&& h2.draft == command
            &&& h2.wf()
            &&& h2.cursor is Some
            &&& h2.cursor->0 == (if n <= h.entries.len() {
                h.entries.len() - n
            } else {
                0
            })
        }),
    decreases n,
{
    if n > 1 {
        lemma_back_by(h, command, (n - 1) as nat);
    } else {
        assert(back_by(h, command, 0) == (h, command));
    }
}

proof fn lemma_forward_by(h: HistoryView, command: Seq<char>, n: nat)
    requires
        h.wf(),
        h.cursor is Some,
        n >= h.entries.len() - h.cursor->0,
    ensures
        forward_by(h, command, n).1 == h.draft,
        forward_by(h, command, n).0.cursor is None,
        forward_by(h, command, n).0.entries == h.entries,
    decreases n,
{
    let (h2, c2) = stepped_forward(h, command);
    if h2.cursor is Some {
        lemma_forward_by(h2, c2, (n - 1) as nat);
    } else {
        lemma_forward_at_end(h2, c2, (n - 1) as nat);
    }
}

proof fn lemma_forward_at_end(h: HistoryView, command: Seq<char>, n: nat)
    requires
        h.cursor is None,
    ensures
        forward_by(h, command, n) == (h, command),
    decreases n,
{
    if n > 0 {
        lemma_forward_at_end(h, command, (n - 1) as nat);
    }
}

/// Walking back any number of steps and forward at least as many restores the draft,
/// and leaves the entries as they were.
pub proof fn law_walking_the_history_restores_the_draft(
    h: HistoryView,
    draft: Seq<char>,
    back: nat,
    forward: nat,
)
    requires
        h.wf(),
        h.cursor is None,
        back <= forward,
    ensures
        ({
            let (h2, c2) = back_by(h, draft, back);
            &&& forward_by(h2, c2, forward).1 == draft
            &&& forward_by(h2, c2, forward).0.cursor is None
            &&& forward_by(h2, c2, forward).0.entries == h.entries
        }),
{
    if back == 0 {
        lemma_forward_at_end(h, draft, forward);
    } else if h.entries.len() == 0 {
        lemma_back_of_empty(h, draft, back);
        lemma_forward_at_end(h, draft, forward);
    } else {
        lemma_back_by(h, draft, back);
        let (h2, c2) = back_by(h, draft, back);
        lemma_forward_by(h2, c2, forward);
    }
}

/// What can be done with a history. Walking it starts from the text that is shown.
pub enum HistoryStep {
    Record(Seq<char>),
    Back(Seq<char>),
    Forward(Seq<char>),
}

/// What a new history becomes by some steps.
pub open spec fn after_steps(steps: Seq<HistoryStep>) -> HistoryView
    decreases steps.len(),
{
    if steps.len() == 0 {
        HistoryView { entries: Seq::empty(), cursor: None, draft: Seq::empty() }
    } else {
        let before = after_steps(steps.drop_last());
        match steps.last() {
            HistoryStep::Record(command) => recorded(before, command),
            HistoryStep::Back(command) => stepped_back(before, command).0,
            HistoryStep::Forward(command) => stepped_forward(before, command).0,
        }
    }
}

/// Whatever is done with a history, it holds no command twice in a row, and no more commands
/// than its bound.
pub proof fn law_no_command_stands_twice_in_a_row(steps: Seq<HistoryStep>)
    ensures
        after_steps(steps).wf(),
        forall|i: int|
            0 < i < after_steps(steps).entries.len() ==> #[trigger] after_steps(steps).entries[i]
                != after_steps(steps).entries[i - 1],
    decreases steps.len(),
{
    if steps.len() > 0 {
        law_no_command_stands_twice_in_a_row(steps.drop_last());
        let before = after_steps(steps.drop_last()).entries;
        let after = after_steps(steps).entries;
        if let HistoryStep::Record(command) = steps.last() {
            if !(before.len() > 0 && before.last() == command) {
                let all = before.push(command);
                let gone = all.len() - after.len();
                assert(after =~= all.skip(gone));
                assert forall|i: int| 0 < i < after.len() implies #[trigger] after[i] != after[i
                    - 1] by {
                    assert(after[i] == all[gone + i]);
                    assert(after[i - 1] == all[gone + i - 1]);
                    if gone + i < before.len() {
                        assert(before[gone + i] != before[gone + i - 1]);
                    }
                }
            }
        }
    }
}

proof fn lemma_back_of_empty(h: HistoryView, command: Seq<char>, n: nat)
    requires
        h.entries.len() == 0,
    ensures
        back_by(h, command, n) == (h, command),
    decreases n,
{
    if n > 0 {
        lemma_back_of_empty(h, command, (n - 1) as nat);
    }
}

/// A command that is recorded is the last of the history, behind all of the others that there
/// is room for, and the first that a step back shows.
pub proof fn law_recorded_commands_come_back_first(
    h: HistoryView,
    command: Seq<char>,
    text: Seq<char>,
)
    requires
        h.wf(),
    ensures
        ({
            let after = recorded(h, command);
            &&& after.entries.len() > 0
            &&& after.entries.last() == command
            &&& after.cursor is None
            &&& stepped_back(after, text).1 == command
            &&& stepped_back(after, text).0.draft == text
            &&& h.entries.len() > 0 && h.entries.last() == command ==> after.entries == h.entries
            &&& (h.entries.len() == 0 || h.entries.last() != command) && h.entries.len() < 64
                ==> after.entries == h.entries.push(command)
            &&& (h.entries.len() > 0 && h.entries.last() != command) && h.entries.len() == 64
                ==> after.entries == h.entries.drop_first().push(command)
        }),
{
    if h.entries.len() == 64 {
        assert(h.entries.push(command).skip(1) =~= h.entries.drop_first().push(command));
    }
}

/// Each step back shows the command before the one that is shown, and stays at the first; each
/// step forward shows the one behind it, and the draft behind the last. Neither changes the
/// commands.
pub proof fn law_steps_show_neighbours(h: HistoryView, text: Seq<char>)
    requires
        h.wf(),
    ensures
        ({
            let (back, shown) = stepped_back(h, text);
            &&& back.entries == h.entries
            &&& h.entries.len() == 0 ==> back == h && shown == text
            &&& h.cursor matches Some(c) ==> back.draft == h.draft && shown == h.entries[if c > 0 {
                c - 1
            } else {
                0
            }]
            &&& h.cursor is None && h.entries.len() > 0 ==> back.draft == text && shown
                == h.entries.last()
            &&& h.entries.len() > 0 ==> back.cursor is Some && h.entries[back.cursor->0 as int]
                == shown
        }),
        ({
            let (forth, shown) = stepped_forward(h, text);
            &&& forth.entries == h.entries && forth.draft == h.draft
            &&& h.cursor is None ==> forth == h && shown == text
            &&& h.cursor matches Some(c) ==> {
                &&& c + 1 == h.entries.len() ==> forth.cursor is None && shown == h.draft
                &&& c + 1 < h.entries.len() ==> forth.cursor is Some && forth.cursor->0 == c + 1
                    && shown == h.entries[c + 1]
            }
        }),
{
}

} // verus!

//! A text kept per task while it runs: the tokens that tasks present when they call
//! back into the master (checked by equality, withdrawn when the run ends), and the names
//! under which workers reported their running tasks.
use vstd::prelude::*;
use crate::text::str_eq;
use crate::web::{ascii_alphanumeric, random_alphanumeric};

verus! {

/// The texts in force, at most one per task (the last one put in).
pub struct TaskTexts {
    pub entries: Vec<(u128, String)>,
}

/// The kind of `TaskTexts` that holds the tokens tasks call back with.
pub type TaskTokens = TaskTexts;

/// The text in force for `task`, if any.
pub open spec fn text_of(entries: Seq<(u128, String)>, task: u128) -> Option<Seq<char>>
    decreases entries.len(),
{
    if entries.len() == 0 {
        None
    } else if entries.last().0 == task {
        Some(entries.last().1@)
    } else {
        text_of(entries.drop_last(), task)
    }
}

impl TaskTexts {
    /// No text in force.
    pub fn new() -> (t: Self)
        ensures
            forall|task: u128| text_of(t.entries@, task) is None,
    {
        TaskTexts { entries: Vec::new() }
    }

    fn position(&self, task: u128) -> (p: Option<usize>)
        ensures
            match p {
                Some(i) => i < self.entries@.len() && self.entries@[i as int].0 == task
                    && forall|k: int| i < k < self.entries@.len() ==> self.entries@[k].0 != task,
                None => forall|k: int| 0 <= k < self.entries@.len() ==> self.entries@[k].0 != task,
            },
    {
        let mut i = self.entries.len();
        while i > 0
            invariant
                i <= self.entries@.len(),
                forall|k: int| i <= k < self.entries@.len() ==> self.entries@[k].0 != task,
            decreases i,
        {
            i = i - 1;
            if self.entries[i].0 == task {
                return Some(i);
            }
        }
        None
    }

    /// Puts `token` in force for `task`, replacing any earlier one.
    pub fn issue(&mut self, task: u128, token: String)
        ensures
            text_of(final(self).entries@, task) == Some(token@),
            forall|other: u128| other != task ==> text_of(final(self).entries@, other) == text_of(old(self).entries@, other),
    {
        self.revoke(task);
        let ghost before = self.entries@;
        self.entries.push((task, token));
        assert(self.entries@.drop_last() =~= before);
    }

    /// Puts a fresh token of 32 ASCII letters and digits in force for `task` and gives it.
    pub fn issue_fresh(&mut self, task: u128) -> (token: String)
        ensures
            token@.len() == 32,
            forall|i: int| 0 <= i < 32 ==> ascii_alphanumeric(#[trigger] token@[i]),
            text_of(final(self).entries@, task) == Some(token@),
            forall|other: u128| other != task ==> text_of(final(self).entries@, other) == text_of(old(self).entries@, other),
    {
        let token = random_alphanumeric(32);
        let kept = String::from_str(token.as_str());
        self.issue(task, kept);
        token
    }

    /// Withdraws the token of `task`.
    pub fn revoke(&mut self, task: u128)
        ensures
            text_of(final(self).entries@, task) is None,
            forall|other: u128| other != task ==> text_of(final(self).entries@, other) == text_of(old(self).entries@, other),
        decreases old(self).entries@.len(),
    {
        match self.position(task) {
            None => {
                proof {
                    lemma_text_absent(self.entries@, task);
                }
            },
            Some(i) => {
                let ghost before = self.entries@;
                self.entries.remove(i);
                proof {
                    lemma_text_remove(before, i as int, task);
                }
                self.revoke(task);
            },
        }
    }

    /// The text in force for `task`, if any.
    pub fn get(&self, task: u128) -> (t: Option<String>)
        ensures
            match t {
                Some(x) => text_of(self.entries@, task) == Some(x@),
                None => text_of(self.entries@, task) is None,
            },
    {
        match self.position(task) {
            None => {
                proof {
                    lemma_text_absent(self.entries@, task);
                }
                None
            },
            Some(i) => {
                proof {
                    lemma_text_last(self.entries@, i as int, task);
                }
                Some(self.entries[i].1.clone())
            },
        }
    }

    /// Whether `token` is the one in force for `task`.
    pub fn check(&self, task: u128, token: &str) -> (ok: bool)
        ensures
            ok == (text_of(self.entries@, task) == Some(token@)),
    {
        match self.position(task) {
            None => {
                proof {
                    lemma_text_absent(self.entries@, task);
                }
                false
            },
            Some(i) => {
                proof {
                    lemma_text_last(self.entries@, i as int, task);
                }
                str_eq(self.entries[i].1.as_str(), token)
            },
        }
    }
}

proof fn lemma_text_absent(entries: Seq<(u128, String)>, task: u128)
    requires
        forall|k: int| 0 <= k < entries.len() ==> entries[k].0 != task,
    ensures
        text_of(entries, task) is None,
    decreases entries.len(),
{
    if entries.len() > 0 {
        lemma_text_absent(entries.drop_last(), task);
    }
}

proof fn lemma_text_last(entries: Seq<(u128, String)>, i: int, task: u128)
    requires
        0 <= i < entries.len(),
        entries[i].0 == task,
        forall|k: int| i < k < entries.len() ==> entries[k].0 != task,
    ensures
        text_of(entries, task) == Some(entries[i].1@),
    decreases entries.len(),
{
    if i < entries.len() - 1 {
        lemma_text_last(entries.drop_last(), i, task);
    }
}

/// Removing an entry of `task` leaves every other task's token as it was.
proof fn lemma_text_remove(entries: Seq<(u128, String)>, i: int, task: u128)
    requires
        0 <= i < entries.len(),
        entries[i].0 == task,
    ensures
        forall|other: u128| other != task ==> text_of(entries.remove(i), other) == text_of(entries, other),
        entries.remove(i).len() == entries.len() - 1,
    decreases entries.len(),
{
    let r = entries.remove(i);
    assert forall|other: u128| other != task implies text_of(r, other) == text_of(entries, other) by {
        if i == entries.len() - 1 {
            assert(r =~= entries.drop_last());
        } else {
            lemma_text_remove(entries.drop_last(), i, task);
            assert(r.drop_last() =~= entries.drop_last().remove(i));
            assert(r.last() == entries.last());
        }
    }
}

} // verus!

//! The task record, the store that owns the collection, and the four
//! operations on it.
//!
//! The store keeps an ordered sequence of tasks, insertion order preserved.
//! It enforces no invariant on the records themselves: ids are caller-supplied
//! and may repeat, and the text is free-form. Exclusive access is expressed
//! through `&mut`; a caller that dispatches from several threads puts the
//! store behind a mutual-exclusion lock of its own.

use vstd::prelude::*;

verus! {

/// A single todo record: caller-supplied id, free-form text, completion flag.
pub struct Task {
    pub id: i64,
    pub text: String,
    pub completed: bool,
}

/// The mathematical value of a task: its id as an integer, its text as a
/// sequence of characters, and its completion flag.
pub ghost struct TaskView {
    pub id: int,
    pub text: Seq<char>,
    pub completed: bool,
}

impl View for Task {
    type V = TaskView;

    open spec fn view(&self) -> TaskView {
        TaskView { id: self.id as int, text: self.text@, completed: self.completed }
    }
}

impl Clone for Task {
    fn clone(&self) -> (res: Self)
        ensures
            res == *self,
    {
        Task { id: self.id, text: self.text.clone(), completed: self.completed }
    }
}

/// The one failure the store knows: an operation named an id that no task in
/// the collection carries.
#[derive(Clone, Copy, Debug, PartialEq, Eq, Structural)]
pub enum TodoError {
    NotFound,
}

impl TodoError {
    /// The failure signal as plain text, for a presentation layer that shows
    /// errors as messages.
    pub fn message(&self) -> (m: &'static str)
        ensures
            m@ == "Todo not found"@,
    {
        "Todo not found"
    }
}

/// Whether some task in `s` carries the id `id`.
pub open spec fn has_task(s: Seq<TaskView>, id: int) -> bool {
    exists|i: int| 0 <= i < s.len() && s[i].id == id
}

/// The position of the first task in `s` carrying the id `id`.
/// Meaningful only when `has_task(s, id)` holds.
pub open spec fn first_index(s: Seq<TaskView>, id: int) -> int
    decreases s.len(),
{
    if s.len() == 0 {
        0
    } else if s[0].id == id {
        0
    } else {
        1 + first_index(s.drop_first(), id)
    }
}

/// The task `t` with its completion flag negated and all else unchanged.
pub open spec fn flip(t: TaskView) -> TaskView {
    TaskView { completed: !t.completed, ..t }
}

/// The collection after a toggle of `id`: the first task carrying `id` has
/// its completion flag negated; with no such task the collection is unchanged.
pub open spec fn toggle_first(s: Seq<TaskView>, id: int) -> Seq<TaskView> {
    if has_task(s, id) {
        s.update(first_index(s, id), flip(s[first_index(s, id)]))
    } else {
        s
    }
}

/// The collection after a delete of `id`: every task carrying `id` is gone,
/// the rest keep their order.
pub open spec fn remove_id(s: Seq<TaskView>, id: int) -> Seq<TaskView>
    decreases s.len(),
{
    if s.len() == 0 {
        s
    } else {
        let rest = remove_id(s.drop_last(), id);
        if s.last().id == id {
            rest
        } else {
            rest.push(s.last())
        }
    }
}

/// The store: owns the ordered collection of tasks and serializes access to
/// it through exclusive references.
pub struct TodoStore {
    tasks: Vec<Task>,
}

impl View for TodoStore {
    type V = Seq<TaskView>;

    closed spec fn view(&self) -> Seq<TaskView> {
        Seq::new(self.tasks@.len(), |i: int| self.tasks@[i]@)
    }
}

impl TodoStore {
    /// A freshly initialized store holds no tasks.
    pub fn new() -> (s: Self)
        ensures
            s@ == Seq::<TaskView>::empty(),
    {
        let s = TodoStore { tasks: Vec::new() };
        proof {
            assert(s@ =~= Seq::<TaskView>::empty());
        }
        s
    }

    /// A copy of the current collection, in order. The store itself is left
    /// untouched.
    pub fn list(&self) -> (r: Vec<Task>)
        ensures
            r@.len() == self@.len(),
            forall|i: int| 0 <= i < self@.len() ==> r@[i]@ == self@[i],
    {
        let mut out: Vec<Task> = Vec::new();
        let n = self.tasks.len();
        let mut i: usize = 0;
        while i < n
            invariant
                n == self.tasks.len(),
                i <= n,
                out@.len() == i,
                forall|j: int| 0 <= j < i ==> out@[j]@ == self@[j],
            decreases n - i,
        {
            out.push(self.tasks[i].clone());
            i += 1;
        }
        out
    }

    /// Appends `task` at the end of the collection. Nothing is validated:
    /// a repeated id or empty text is accepted as given.
    pub fn add(&mut self, task: Task)
        ensures
            final(self)@ == old(self)@.push(task@),
    {
        let ghost s0 = self@;
        let ghost t = task@;
        self.tasks.push(task);
        proof {
            assert(self@ =~= s0.push(t));
        }
    }

    /// Negates the completion flag of the first task carrying `id`; with no
    /// such task, fails with `NotFound` and leaves the collection unchanged.
    pub fn toggle(&mut self, id: i64) -> (r: Result<(), TodoError>)
        ensures
            has_task(old(self)@, id as int) ==> r == Ok::<(), TodoError>(())
                && final(self)@ == toggle_first(old(self)@, id as int),
            !has_task(old(self)@, id as int) ==> r == Err::<(), TodoError>(TodoError::NotFound)
                && final(self)@ == old(self)@,
    {
        let ghost s0 = self@;
        let n = self.tasks.len();
        let mut i: usize = 0;
        while i < n
            invariant
                n == self.tasks.len(),
                i <= n,
                self@ == s0,
                old(self)@ == s0,
                forall|k: int| 0 <= k < i ==> s0[k].id != id as int,
            decreases n - i,
        {
            if self.tasks[i].id == id {
                proof {
                    lemma_first_index_at(s0, id as int, i as int);
                }
                let was_completed = self.tasks[i].completed;
                let t = &mut self.tasks[i];
                t.completed = !was_completed;
                proof {
                    assert(self@ =~= s0.update(i as int, flip(s0[i as int])));
                }
                return Ok(());
            }
            i += 1;
        }
        proof {
            assert(!has_task(s0, id as int));
        }
        Err(TodoError::NotFound)
    }

    /// Removes every task carrying `id`, keeping the rest in order. Removing
    /// an id that no task carries succeeds and changes nothing.
    pub fn delete(&mut self, id: i64)
        ensures
            final(self)@ == remove_id(old(self)@, id as int),
    {
        let ghost s0 = self@;
        let mut kept: Vec<Task> = Vec::new();
        let n = self.tasks.len();
        let mut i: usize = 0;
        while i < n
            invariant
                n == self.tasks.len(),
                i <= n,
                self@ == s0,
                Seq::new(kept@.len(), |j: int| kept@[j]@)
                    =~= remove_id(s0.subrange(0, i as int), id as int),
            decreases n - i,
        {
            proof {
                assert(s0.subrange(0, i as int + 1).drop_last() =~= s0.subrange(0, i as int));
                assert(s0.subrange(0, i as int + 1).last() == s0[i as int]);
            }
            if self.tasks[i].id != id {
                kept.push(self.tasks[i].clone());
            }
            i += 1;
        }
        proof {
            assert(s0.subrange(0, n as int) =~= s0);
        }
        self.tasks = kept;
        proof {
            assert(self@ =~= remove_id(s0, id as int));
        }
    }
}

/// When every position before `i` misses `id` and position `i` carries it,
/// `i` is the first index for `id`, and a toggle updates exactly there.
proof fn lemma_first_index_at(s: Seq<TaskView>, id: int, i: int)
    requires
        0 <= i < s.len(),
        s[i].id == id,
        forall|k: int| 0 <= k < i ==> s[k].id != id,
    ensures
        has_task(s, id),
        first_index(s, id) == i,
        toggle_first(s, id) == s.update(i, flip(s[i])),
    decreases i,
{
    assert(has_task(s, id));
    if i == 0 {
    } else {
        assert(s.drop_first()[i - 1].id == id);
        assert(forall|k: int| 0 <= k < i - 1 ==> s.drop_first()[k] == s[k + 1]);
        lemma_first_index_at(s.drop_first(), id, i - 1);
    }
}

} // verus!

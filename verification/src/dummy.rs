//! A task that counts, to have something to run.
use vstd::prelude::*;

verus! {

/// A count on its way to a goal.
#[derive(Clone, Copy, Debug, PartialEq, Eq)]
pub struct DummyTask {
    /// Where the count stands.
    pub curr: usize,
    /// Where it ends.
    pub goal: usize,
}

/// Where the count stands after `n` steps.
pub open spec fn after_steps(task: DummyTask, n: nat) -> DummyTask
    decreases n,
{
    if n == 0 {
        task
    } else {
        let before = after_steps(task, (n - 1) as nat);
        if before.curr == before.goal {
            before
        } else {
            DummyTask { curr: (before.curr + 1) as usize, ..before }
        }
    }
}

impl DummyTask {
    /// A count from zero.
    pub fn new(goal: usize) -> (r: DummyTask)
        ensures
            r == (DummyTask { curr: 0, goal }),
    {
        DummyTask { curr: 0, goal }
    }

    /// Counts on by one, or gives the result where the goal is reached.
    pub fn step(&mut self) -> (r: Option<usize>)
        requires
            old(self).curr <= old(self).goal,
        ensures
            *final(self) == after_steps(*old(self), 1),
            final(self).goal == old(self).goal,
            final(self).curr == if old(self).curr == old(self).goal {
                old(self).curr as int
            } else {
                old(self).curr + 1
            },
            r == if old(self).curr == old(self).goal {
                Some(old(self).curr)
            } else {
                None
            },
    {
        reveal_with_fuel(after_steps, 2);
        if self.curr == self.goal {
            return Some(self.curr);
        }
        self.curr = self.curr + 1;
        None
    }
}

/// A count from zero takes each value up to its goal, which it reaches after as many
/// steps as the goal says; the result is the goal.
pub proof fn law_count_reaches_goal(goal: usize, n: nat)
    requires
        n <= goal,
    ensures
        after_steps(DummyTask { curr: 0, goal }, n) == (DummyTask { curr: n as usize, goal }),
    decreases n,
{
    if n > 0 {
        law_count_reaches_goal(goal, (n - 1) as nat);
    }
}

/// From wherever it stands below its goal, a count moves on by one with each step until it
/// reaches the goal, where it stays; the goal never moves.
pub proof fn law_count_moves_by_one(task: DummyTask, n: nat)
    requires
        task.curr <= task.goal,
    ensures
        after_steps(task, n).goal == task.goal,
        after_steps(task, n).curr == if task.curr + n <= task.goal {
            task.curr + n
        } else {
            task.goal as int
        },
    decreases n,
{
    if n > 0 {
        law_count_moves_by_one(task, (n - 1) as nat);
    }
}

} // verus!

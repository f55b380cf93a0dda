use vstd::prelude::*;
use crate::chars::{chars_of, chars_eq, push_str_chars, chars_to_string};
use crate::clock::{now_epoch, ts_ok, opt_ts_ok};

verus! {

/// Urgency of a task; it drives the ordering of `tasks_by_priority`.
#[derive(Clone, Copy, Debug, PartialEq, Eq, Structural)]
pub enum Priority {
    High,
    Medium,
    Low,
}

impl Priority {
    /// Sort rank: High before Medium before Low.
    pub open spec fn rank_spec(self) -> int {
        match self {
            Priority::High => 0,
            Priority::Medium => 1,
            Priority::Low => 2,
        }
    }

    pub fn rank(&self) -> (r: u8)
        ensures
            r as int == self.rank_spec(),
    {
        match self {
            Priority::High => 0,
            Priority::Medium => 1,
            Priority::Low => 2,
        }
    }

    /// The token under which the priority is persisted and shown.
    pub open spec fn label_spec(self) -> Seq<char> {
        match self {
            Priority::High => "High"@,
            Priority::Medium => "Medium"@,
            Priority::Low => "Low"@,
        }
    }

    pub fn label(&self) -> (r: String)
        ensures
            r@ == self.label_spec(),
    {
        match self {
            Priority::High => "High".to_owned(),
            Priority::Medium => "Medium".to_owned(),
            Priority::Low => "Low".to_owned(),
        }
    }
}

/// ASCII lower-casing of one character; anything but A..Z stays itself.
pub open spec fn lower_char(c: char) -> char {
    if 65 <= c as u32 <= 90 {
        (((c as u32) as u8) + 32) as char
    } else {
        c
    }
}

pub open spec fn lower_of(s: Seq<char>) -> Seq<char> {
    s.map_values(|c: char| lower_char(c))
}

/// Which priority, if any, a user-supplied word names: `high`/`h`,
/// `medium`/`m` and `low`/`l`, in any mix of ASCII case.
pub open spec fn parse_priority_spec(s: Seq<char>) -> Option<Priority> {
    let l = lower_of(s);
    if l == "high"@ || l == "h"@ {
        Some(Priority::High)
    } else if l == "medium"@ || l == "m"@ {
        Some(Priority::Medium)
    } else if l == "low"@ || l == "l"@ {
        Some(Priority::Low)
    } else {
        None
    }
}

fn lower_char_exec(c: char) -> (r: char)
    ensures
        r == lower_char(c),
{
    let u = c as u32;
    if 65 <= u && u <= 90 {
        ((u as u8) + 32) as char
    } else {
        c
    }
}

/// Reads a priority word, rejecting anything
/// `parse_priority_spec` does not accept.
pub fn parse_priority(s: &str) -> (r: Result<Priority, String>)
    ensures
        match r {
            Ok(p) => parse_priority_spec(s@) == Some(p),
            Err(m) => parse_priority_spec(s@) is None && m@ == "Invalid priority: "@ + s@,
        },
{
    let cs = chars_of(s);
    let mut low: Vec<char> = Vec::new();
    let mut i: usize = 0;
    while i < cs.len()
        invariant
            cs@ == s@,
            i <= cs@.len(),
            low@ == lower_of(s@.take(i as int)),
        decreases cs@.len() - i,
    {
        low.push(lower_char_exec(cs[i]));
        proof {
            assert(low@ =~= lower_of(s@.take(i + 1 as int)));
        }
        i = i + 1;
    }
    proof {
        assert(s@.take(s@.len() as int) =~= s@);
    }
    let hi = chars_of("high");
    let h = chars_of("h");
    let me = chars_of("medium");
    let m = chars_of("m");
    let lo = chars_of("low");
    let l = chars_of("l");
    if chars_eq(&low, &hi) || chars_eq(&low, &h) {
        Ok(Priority::High)
    } else if chars_eq(&low, &me) || chars_eq(&low, &m) {
        Ok(Priority::Medium)
    } else if chars_eq(&low, &lo) || chars_eq(&low, &l) {
        Ok(Priority::Low)
    } else {
        let mut msg: Vec<char> = Vec::new();
        push_str_chars(&mut msg, "Invalid priority: ");
        push_str_chars(&mut msg, s);
        Err(chars_to_string(&msg))
    }
}

impl core::str::FromStr for Priority {
    type Err = String;

    fn from_str(s: &str) -> Result<Priority, String> {
        parse_priority(s)
    }
}

/// One unit of work.  Instants are whole seconds since the epoch.
#[derive(Debug)]
pub struct Task {
    pub id: u32,
    pub title: String,
    pub completed: bool,
    pub priority: Priority,
    pub created_at: i64,
    pub due_date: Option<i64>,
}

/// The mathematical value of a task.
#[verifier::ext_equal]
pub struct TaskV {
    pub id: u32,
    pub title: Seq<char>,
    pub completed: bool,
    pub priority: Priority,
    pub created_at: i64,
    pub due_date: Option<i64>,
}

impl View for Task {
    type V = TaskV;

    open spec fn view(&self) -> TaskV {
        TaskV {
            id: self.id,
            title: self.title@,
            completed: self.completed,
            priority: self.priority,
            created_at: self.created_at,
            due_date: self.due_date,
        }
    }
}

impl DeepView for Task {
    type V = TaskV;

    open spec fn deep_view(&self) -> TaskV {
        self.view()
    }
}

/// A task is overdue at `now` when it has a due date that lies strictly
/// in the past and it is not completed.
pub open spec fn overdue_at_spec(t: TaskV, now: i64) -> bool {
    match t.due_date {
        Some(d) => !t.completed && d < now,
        None => false,
    }
}

impl Task {
    /// A fresh, not yet completed task.  Creation time is read from the
    /// system clock.
    pub fn new(id: u32, title: String, priority: Priority, due_date: Option<i64>) -> (r: Task)
        ensures
            r@.id == id,
            r@.title == title@,
            r@.completed == false,
            r@.priority == priority,
            r@.due_date == due_date,
            ts_ok(r@.created_at),
    {
        Task { id, title, completed: false, priority, created_at: now_epoch(), due_date }
    }

    /// Marks the task completed; completion is one-way and idempotent.
    pub fn complete(&mut self)
        ensures
            final(self)@.id == old(self)@.id,
            final(self)@.title == old(self)@.title,
            final(self)@.completed == true,
            final(self)@.priority == old(self)@.priority,
            final(self)@.created_at == old(self)@.created_at,
            final(self)@.due_date == old(self)@.due_date,
    {
        self.completed = true;
    }

    /// Whether the task is overdue at the instant `now`.
    pub fn is_overdue_at(&self, now: i64) -> (r: bool)
        ensures
            r == overdue_at_spec(self@, now),
    {
        match self.due_date {
            Some(d) => !self.completed && d < now,
            None => false,
        }
    }

    /// Whether the task is overdue right now, by the system clock.  A
    /// task without a due date is never overdue, nor is a completed one,
    /// whatever the clock says.
    pub fn is_overdue(&self) -> (r: bool)
        ensures
            exists|now: i64| ts_ok(now) && r == overdue_at_spec(self@, now),
            self@.due_date is None ==> r == false,
            self@.completed ==> r == false,
    {
        let now = now_epoch();
        let r = self.is_overdue_at(now);
        proof {
            assert(ts_ok(now) && r == overdue_at_spec(self@, now));
        }
        r
    }

    /// A task is storable when its instants lie in the library's range.
    pub open spec fn task_wf(t: TaskV) -> bool {
        &&& 1 <= t.id
        &&& ts_ok(t.created_at)
        &&& opt_ts_ok(t.due_date)
    }
}

} // verus!

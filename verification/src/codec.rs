use vstd::prelude::*;
use crate::chars::{
    dec_of, val_of, is_digit, chars_of, chars_to_string, push_all, push_str_chars, u32_to_chars,
};
use crate::clock::{
    iso_of, format_timestamp, parse_timestamp, instant_readable, rfc3339_reading, ts_ok, opt_ts_ok,
    TS_MIN, TS_MAX,
};
use crate::error::{TodoError, TodoResult};
use crate::task::{Task, TaskV, Priority};
use crate::todo_list::{TodoList, TodoListV, list_wf, tasks_wf};

verus! {

// ---------------------------------------------------------------------------
// The canonical document
// ---------------------------------------------------------------------------
//
// A collection is persisted as one JSON document:
//
//     {
//     "tasks": [
//     {"id": 1, "title": "t", "completed": false, "priority": "High",
//      "created_at": "...", "due_date": null},
//     ...
//     ],
//     "next_id": 2
//     }
//
// (each task on one line).  `emit_collection` is the document, exactly,
// as a sequence of characters; the encoder below produces it and the
// decoder reads it back.

/// How one character of a title is written inside a JSON string: quote
/// and backslash get a backslash before them, all else stays itself.
pub open spec fn esc1(c: char) -> Seq<char> {
    if c == '"' {
        seq!['\\', '"']
    } else if c == '\\' {
        seq!['\\', '\\']
    } else {
        seq![c]
    }
}

/// A title, escaped for its place between quotes.
pub open spec fn esc(s: Seq<char>) -> Seq<char>
    decreases s.len(),
{
    if s.len() == 0 {
        Seq::empty()
    } else {
        esc1(s[0]) + esc(s.drop_first())
    }
}

pub open spec fn emit_bool(b: bool) -> Seq<char> {
    if b {
        "true"@
    } else {
        "false"@
    }
}

pub open spec fn emit_due(d: Option<i64>) -> Seq<char> {
    match d {
        None => "null"@,
        Some(t) => "\""@ + iso_of(t as int) + "\""@,
    }
}

/// One task, as one line of the document.
pub open spec fn emit_task(t: TaskV) -> Seq<char> {
    "{\"id\": "@ + dec_of(t.id as nat) + ", \"title\": \""@ + esc(t.title)
        + "\", \"completed\": "@ + emit_bool(t.completed) + ", \"priority\": \""@
        + t.priority.label_spec() + "\", \"created_at\": \""@ + iso_of(t.created_at as int)
        + "\", \"due_date\": "@ + emit_due(t.due_date) + "}"@
}

/// A non-empty run of tasks, separated by comma-newline.
pub open spec fn emit_tasks(ts: Seq<TaskV>) -> Seq<char>
    decreases ts.len(),
{
    if ts.len() <= 1 {
        emit_task(ts[0])
    } else {
        emit_task(ts[0]) + ",\n"@ + emit_tasks(ts.drop_first())
    }
}

/// The whole document.
pub open spec fn emit_collection(ts: Seq<TaskV>, next_id: u32) -> Seq<char> {
    "{\n\"tasks\": ["@ + (if ts.len() == 0 {
        Seq::<char>::empty()
    } else {
        "\n"@ + emit_tasks(ts) + "\n"@
    }) + "],\n\"next_id\": "@ + dec_of(next_id as nat) + "\n}"@
}

/// Appending a task to a non-empty run appends its line after a
/// separator.
pub proof fn lemma_emit_tasks_snoc(ts: Seq<TaskV>)
    requires
        ts.len() >= 2,
    ensures
        emit_tasks(ts) == emit_tasks(ts.drop_last()) + ",\n"@ + emit_task(ts.last()),
    decreases ts.len(),
{
    if ts.len() == 2 {
        assert(ts.drop_first().len() == 1);
        assert(ts.drop_last().len() == 1);
        assert(ts.drop_last()[0] == ts[0]);
        assert(ts.drop_first()[0] == ts.last());
    } else {
        lemma_emit_tasks_snoc(ts.drop_first());
        assert(ts.drop_first().drop_last() =~= ts.drop_last().drop_first());
        assert(ts.drop_first().last() == ts.last());
        assert(ts.drop_last()[0] == ts[0]);
        assert(emit_tasks(ts) == emit_task(ts[0]) + ",\n"@ + emit_tasks(ts.drop_first()));
        assert(emit_tasks(ts.drop_last()) == emit_task(ts[0]) + ",\n"@ + emit_tasks(
            ts.drop_last().drop_first(),
        ));
        assert((emit_task(ts[0]) + ",\n"@ + (emit_tasks(ts.drop_first().drop_last()) + ",\n"@
            + emit_task(ts.last()))) =~= ((emit_task(ts[0]) + ",\n"@ + emit_tasks(
            ts.drop_first().drop_last(),
        )) + ",\n"@ + emit_task(ts.last())));
    }
}

// ---------------------------------------------------------------------------
// The encoder
// ---------------------------------------------------------------------------

/// Appends the escaped form of `title` to `out`.
fn push_escaped(out: &mut Vec<char>, title: &str)
    ensures
        final(out)@ == old(out)@ + esc(title@),
{
    let cs = crate::chars::chars_of(title);
    let mut i: usize = 0;
    while i < cs.len()
        invariant
            cs@ == title@,
            i <= cs@.len(),
            out@ == old(out)@ + esc(title@.take(i as int)),
        decreases cs@.len() - i,
    {
        let c = cs[i];
        if c == '"' {
            out.push('\\');
            out.push('"');
        } else if c == '\\' {
            out.push('\\');
            out.push('\\');
        } else {
            out.push(c);
        }
        proof {
            lemma_esc_snoc(title@.take(i + 1 as int));
            assert(title@.take(i + 1 as int).drop_last() =~= title@.take(i as int));
            assert(title@.take(i + 1 as int).last() == title@[i as int]);
            assert(out@ =~= old(out)@ + esc(title@.take(i + 1 as int)));
        }
        i = i + 1;
    }
    proof {
        assert(title@.take(title@.len() as int) =~= title@);
    }
}

/// Escaping works one character at a time, from either end.
pub proof fn lemma_esc_snoc(s: Seq<char>)
    requires
        s.len() >= 1,
    ensures
        esc(s) == esc(s.drop_last()) + esc1(s.last()),
    decreases s.len(),
{
    if s.len() == 1 {
        assert(s.drop_first() =~= Seq::<char>::empty());
        assert(s.drop_last() =~= Seq::<char>::empty());
        assert(esc(Seq::<char>::empty()) == Seq::<char>::empty());
        assert(esc(s) =~= esc1(s[0]));
        assert(esc(s.drop_last()) + esc1(s.last()) =~= esc1(s[0]));
    } else {
        lemma_esc_snoc(s.drop_first());
        assert(s.drop_first().drop_last() =~= s.drop_last().drop_first());
        assert(s.drop_first().last() == s.last());
        assert(s.drop_last()[0] == s[0]);
        assert((esc1(s[0]) + (esc(s.drop_last().drop_first()) + esc1(s.last()))) =~= ((esc1(s[0])
            + esc(s.drop_last().drop_first())) + esc1(s.last())));
    }
}

/// An instant's notation is never empty and never holds a quote or a
/// backslash; the encoder learns this of each instant it writes, and
/// the decoder's completeness rests on it.
pub open spec fn iso_plain(c: Seq<char>) -> bool {
    c.len() >= 1 && forall|j: int| 0 <= j < c.len() ==> c[j] != '"' && c[j] != '\\'
}

pub open spec fn task_isos_plain(t: TaskV) -> bool {
    &&& iso_plain(iso_of(t.created_at as int))
    &&& match t.due_date {
        Some(d) => iso_plain(iso_of(d as int)),
        None => true,
    }
}

pub open spec fn isos_plain(ts: Seq<TaskV>) -> bool {
    forall|k: int| 0 <= k < ts.len() ==> task_isos_plain(#[trigger] ts[k])
}

/// Appends one task's line to `out`.
fn push_task(out: &mut Vec<char>, t: &Task)
    requires
        Task::task_wf(t@),
    ensures
        final(out)@ == old(out)@ + emit_task(t@),
        task_isos_plain(t@),
{
    push_str_chars(out, "{\"id\": ");
    let digits = u32_to_chars(t.id);
    push_all(out, &digits);
    push_str_chars(out, ", \"title\": \"");
    push_escaped(out, t.title.as_str());
    push_str_chars(out, "\", \"completed\": ");
    if t.completed {
        push_str_chars(out, "true");
    } else {
        push_str_chars(out, "false");
    }
    push_str_chars(out, ", \"priority\": \"");
    let label = t.priority.label();
    push_str_chars(out, label.as_str());
    push_str_chars(out, "\", \"created_at\": \"");
    let created = format_timestamp(t.created_at);
    push_str_chars(out, created.as_str());
    push_str_chars(out, "\", \"due_date\": ");
    match t.due_date {
        Some(d) => {
            push_str_chars(out, "\"");
            let due = format_timestamp(d);
            push_str_chars(out, due.as_str());
            push_str_chars(out, "\"");
        },
        None => {
            push_str_chars(out, "null");
        },
    }
    push_str_chars(out, "}");
    proof {
        assert(out@ =~= old(out)@ + emit_task(t@));
    }
}

/// The persisted document for `list`, exactly `emit_collection` of its
/// value.
pub fn to_json(list: &TodoList) -> (r: Vec<char>)
    requires
        list.wf(),
    ensures
        r@ == emit_collection(list@.tasks, list@.next_id),
        isos_plain(list@.tasks),
{
    let ghost ts = list@.tasks;
    let tasks = list.list_tasks();
    let mut out: Vec<char> = Vec::new();
    push_str_chars(&mut out, "{\n\"tasks\": [");
    if tasks.len() > 0 {
        push_str_chars(&mut out, "\n");
        let ghost base = out@;
        proof {
            assert(Task::task_wf(ts[0]));
            assert(tasks[0]@ == ts[0]);
        }
        push_task(&mut out, &tasks[0]);
        proof {
            assert(ts.take(1)[0] == ts[0]);
            assert(out@ == base + emit_tasks(ts.take(1)));
        }
        let mut k: usize = 1;
        while k < tasks.len()
            invariant
                tasks.deep_view() == ts,
                tasks_wf(ts, list@.next_id),
                1 <= k <= ts.len(),
                out@ == base + emit_tasks(ts.take(k as int)),
                forall|j: int| 0 <= j < k ==> task_isos_plain(#[trigger] ts[j]),
            decreases ts.len() - k,
        {
            push_str_chars(&mut out, ",\n");
            proof {
                assert(Task::task_wf(ts[k as int]));
                assert(tasks[k as int]@ == ts[k as int]);
            }
            push_task(&mut out, &tasks[k]);
            proof {
                assert(ts.take(k + 1 as int).drop_last() =~= ts.take(k as int));
                assert(ts.take(k + 1 as int).last() == ts[k as int]);
                lemma_emit_tasks_snoc(ts.take(k + 1 as int));
                assert(out@ =~= base + emit_tasks(ts.take(k + 1 as int)));
            }
            k = k + 1;
        }
        proof {
            assert(ts.take(ts.len() as int) =~= ts);
        }
        push_str_chars(&mut out, "\n");
    }
    push_str_chars(&mut out, "],\n\"next_id\": ");
    let digits = u32_to_chars(list.next_id_value());
    push_all(&mut out, &digits);
    push_str_chars(&mut out, "\n}");
    proof {
        assert(out@ =~= emit_collection(list@.tasks, list@.next_id));
    }
    out
}

// ---------------------------------------------------------------------------
// The decoder: a task as read from the document, instants still text
// ---------------------------------------------------------------------------

/// A task as the decoder first sees it: its instants still in their
/// textual notation.
pub struct RawTask {
    pub id: u32,
    pub title: Vec<char>,
    pub completed: bool,
    pub priority: Priority,
    pub created_at: Vec<char>,
    pub due_date: Option<Vec<char>>,
}

#[verifier::ext_equal]
pub struct RawTaskV {
    pub id: u32,
    pub title: Seq<char>,
    pub completed: bool,
    pub priority: Priority,
    pub created_at: Seq<char>,
    pub due_date: Option<Seq<char>>,
}

impl View for RawTask {
    type V = RawTaskV;

    open spec fn view(&self) -> RawTaskV {
        RawTaskV {
            id: self.id,
            title: self.title@,
            completed: self.completed,
            priority: self.priority,
            created_at: self.created_at@,
            due_date: match self.due_date {
                Some(ref v) => Some(v@),
                None => None,
            },
        }
    }
}

impl DeepView for RawTask {
    type V = RawTaskV;

    open spec fn deep_view(&self) -> RawTaskV {
        self.view()
    }
}

// ---------------------------------------------------------------------------
// The decoder: the accepted language, one spec function per rule
// ---------------------------------------------------------------------------

/// A fixed piece of text at position `i`; accepting means standing just
/// after it.
pub open spec fn sp_lit(s: Seq<char>, i: int, lit: Seq<char>) -> Option<int> {
    if 0 <= i && i + lit.len() <= s.len() && s.subrange(i, i + lit.len()) == lit {
        Some(i + lit.len())
    } else {
        None
    }
}

/// Where the run of decimal digits starting at `i` ends.
pub open spec fn digits_end(s: Seq<char>, i: int) -> int
    decreases s.len() - i when 0 <= i <= s.len()
{
    if i < s.len() && is_digit(s[i]) {
        digits_end(s, i + 1)
    } else {
        i
    }
}

/// A decimal number at `i`: the whole digit run, read as a `u32`.
pub open spec fn sp_u32(s: Seq<char>, i: int) -> Option<(u32, int)> {
    if 0 <= i <= s.len() {
        let e = digits_end(s, i);
        if e > i && val_of(s.subrange(i, e)) <= u32::MAX {
            Some((val_of(s.subrange(i, e)) as u32, e))
        } else {
            None
        }
    } else {
        None
    }
}

/// String content at `i`, up to and over the closing quote; a backslash
/// escapes exactly a quote or a backslash.
pub open spec fn sp_string(s: Seq<char>, i: int) -> Option<(Seq<char>, int)>
    decreases s.len() - i when 0 <= i <= s.len()
{
    if i >= s.len() {
        None
    } else if s[i] == '"' {
        Some((Seq::empty(), i + 1))
    } else if s[i] == '\\' {
        if i + 1 < s.len() && (s[i + 1] == '"' || s[i + 1] == '\\') {
            match sp_string(s, i + 2) {
                Some((t, e)) => Some((seq![s[i + 1]] + t, e)),
                None => None,
            }
        } else {
            None
        }
    } else {
        match sp_string(s, i + 1) {
            Some((t, e)) => Some((seq![s[i]] + t, e)),
            None => None,
        }
    }
}

pub open spec fn sp_bool(s: Seq<char>, i: int) -> Option<(bool, int)> {
    match sp_lit(s, i, "true"@) {
        Some(e) => Some((true, e)),
        None => match sp_lit(s, i, "false"@) {
            Some(e) => Some((false, e)),
            None => None,
        },
    }
}

pub open spec fn sp_priority(s: Seq<char>, i: int) -> Option<(Priority, int)> {
    match sp_lit(s, i, "High"@) {
        Some(e) => Some((Priority::High, e)),
        None => match sp_lit(s, i, "Medium"@) {
            Some(e) => Some((Priority::Medium, e)),
            None => match sp_lit(s, i, "Low"@) {
                Some(e) => Some((Priority::Low, e)),
                None => None,
            },
        },
    }
}

/// A due date: `null`, or an instant's notation between quotes.
pub open spec fn sp_due(s: Seq<char>, i: int) -> Option<(Option<Seq<char>>, int)> {
    match sp_lit(s, i, "null"@) {
        Some(e) => Some((None, e)),
        None => {
            if 0 <= i < s.len() && s[i] == '"' {
                match sp_string(s, i + 1) {
                    Some((t, e)) => Some((Some(t), e)),
                    None => None,
                }
            } else {
                None
            }
        },
    }
}

/// One task line.
pub open spec fn sp_task(s: Seq<char>, i: int) -> Option<(RawTaskV, int)> {
    match sp_lit(s, i, "{\"id\": "@) {
        None => None,
        Some(e1) => match sp_u32(s, e1) {
            None => None,
            Some((id, e2)) => match sp_lit(s, e2, ", \"title\": \""@) {
                None => None,
                Some(e3) => match sp_string(s, e3) {
                    None => None,
                    Some((title, e4)) => match sp_lit(s, e4, ", \"completed\": "@) {
                        None => None,
                        Some(e5) => match sp_bool(s, e5) {
                            None => None,
                            Some((completed, e6)) => match sp_lit(s, e6, ", \"priority\": \""@) {
                                None => None,
                                Some(e7) => match sp_priority(s, e7) {
                                    None => None,
                                    Some((priority, e8)) => match sp_lit(
                                        s,
                                        e8,
                                        "\", \"created_at\": \""@,
                                    ) {
                                        None => None,
                                        Some(e9) => match sp_string(s, e9) {
                                            None => None,
                                            Some((created_at, e10)) => match sp_lit(
                                                s,
                                                e10,
                                                ", \"due_date\": "@,
                                            ) {
                                                None => None,
                                                Some(e11) => match sp_due(s, e11) {
                                                    None => None,
                                                    Some((due_date, e12)) => match sp_lit(
                                                        s,
                                                        e12,
                                                        "}"@,
                                                    ) {
                                                        None => None,
                                                        Some(e13) => Some(
                                                            (
                                                                RawTaskV {
                                                                    id,
                                                                    title,
                                                                    completed,
                                                                    priority,
                                                                    created_at,
                                                                    due_date,
                                                                },
                                                                e13,
                                                            ),
                                                        ),
                                                    },
                                                },
                                            },
                                        },
                                    },
                                },
                            },
                        },
                    },
                },
            },
        },
    }
}

/// One or more task lines, separated by comma-newline.
pub open spec fn sp_tasks(s: Seq<char>, i: int) -> Option<(Seq<RawTaskV>, int)>
    decreases s.len() - i when 0 <= i <= s.len()
{
    match sp_task(s, i) {
        None => None,
        Some((t, e)) => {
            if !(i < e <= s.len()) {
                None
            } else {
                match sp_lit(s, e, ",\n"@) {
                    Some(e2) => match sp_tasks(s, e2) {
                        Some((rest, e3)) => Some((seq![t] + rest, e3)),
                        None => None,
                    },
                    None => Some((seq![t], e)),
                }
            }
        },
    }
}

/// The document's tail: the list's closing bracket, `next_id`, and the
/// closing brace, reaching exactly the end.
pub open spec fn sp_tail(s: Seq<char>, i: int, ts: Seq<RawTaskV>) -> Option<
    (Seq<RawTaskV>, u32),
> {
    match sp_lit(s, i, "],\n\"next_id\": "@) {
        None => None,
        Some(e) => match sp_u32(s, e) {
            None => None,
            Some((nid, e2)) => match sp_lit(s, e2, "\n}"@) {
                None => None,
                Some(e3) => if e3 == s.len() {
                    Some((ts, nid))
                } else {
                    None
                },
            },
        },
    }
}

/// The whole document.
pub open spec fn sp_collection(s: Seq<char>) -> Option<(Seq<RawTaskV>, u32)> {
    match sp_lit(s, 0, "{\n\"tasks\": ["@) {
        None => None,
        Some(e1) => match sp_lit(s, e1, "\n"@) {
            Some(e2) => match sp_tasks(s, e2) {
                None => None,
                Some((ts, e3)) => match sp_lit(s, e3, "\n"@) {
                    None => None,
                    Some(e4) => sp_tail(s, e4, ts),
                },
            },
            None => sp_tail(s, e1, Seq::empty()),
        },
    }
}

// ---------------------------------------------------------------------------
// The decoder: executable readers, one per rule
// ---------------------------------------------------------------------------

fn p_lit(s: &Vec<char>, i: usize, lit: &Vec<char>) -> (r: Option<usize>)
    ensures
        match r {
            Some(e) => sp_lit(s@, i as int, lit@) == Some(e as int) && i <= e <= s@.len(),
            None => sp_lit(s@, i as int, lit@) is None,
        },
{
    if i > s.len() || lit.len() > s.len() - i {
        return None;
    }
    let mut k: usize = 0;
    while k < lit.len()
        invariant
            i + lit@.len() <= s@.len(),
            s@.len() <= usize::MAX,
            k <= lit@.len(),
            forall|j: int| 0 <= j < k ==> s@[i + j] == lit@[j],
        decreases lit@.len() - k,
    {
        if s[i + k] != lit[k] {
            proof {
                assert(s@.subrange(i as int, i + lit@.len()) != lit@) by {
                    if s@.subrange(i as int, i + lit@.len()) == lit@ {
                        assert(s@.subrange(i as int, i + lit@.len())[k as int] == lit@[k as int]);
                    }
                }
            }
            return None;
        }
        k = k + 1;
    }
    proof {
        assert(s@.subrange(i as int, i + lit@.len()) =~= lit@);
    }
    Some(i + lit.len())
}

fn is_digit_exec(c: char) -> (r: bool)
    ensures
        r == is_digit(c),
{
    let u = c as u32;
    48 <= u && u <= 57
}

fn p_u32(s: &Vec<char>, i: usize) -> (r: Option<(u32, usize)>)
    requires
        i <= s@.len(),
    ensures
        match r {
            Some((v, e)) => sp_u32(s@, i as int) == Some((v, e as int)) && i < e <= s@.len(),
            None => sp_u32(s@, i as int) is None,
        },
{
    let mut e = i;
    while e < s.len() && is_digit_exec(s[e])
        invariant
            i <= e <= s@.len(),
            digits_end(s@, i as int) == digits_end(s@, e as int),
            forall|j: int| i <= j < e ==> is_digit(#[trigger] s@[j]),
        decreases s@.len() - e,
    {
        e = e + 1;
    }
    proof {
        assert(digits_end(s@, e as int) == e);
    }
    if e == i {
        return None;
    }
    let ghost whole = s@.subrange(i as int, e as int);
    let mut acc: u32 = 0;
    let mut k = i;
    proof {
        assert(s@.subrange(i as int, i as int) =~= Seq::<char>::empty());
    }
    while k < e
        invariant
            i <= k <= e <= s@.len(),
            digits_end(s@, i as int) == e,
            forall|j: int| i <= j < e ==> is_digit(#[trigger] s@[j]),
            whole == s@.subrange(i as int, e as int),
            acc == val_of(s@.subrange(i as int, k as int)),
        decreases e - k,
    {
        let d = (s[k] as u32) - 48;
        proof {
            assert(is_digit(s@[k as int]));
            assert(s@.subrange(i as int, k + 1 as int).drop_last() =~= s@.subrange(
                i as int,
                k as int,
            ));
            assert(s@.subrange(i as int, k + 1 as int).last() == s@[k as int]);
        }
        if acc > (u32::MAX - d) / 10 {
            proof {
                assert(val_of(s@.subrange(i as int, k + 1 as int)) == acc * 10 + d);
                assert(acc * 10 + d > u32::MAX) by (nonlinear_arith)
                    requires
                        acc > (u32::MAX - d) / 10,
                        d < 10,
                ;
                crate::chars::lemma_val_of_le(whole, k + 1 - i);
                assert(whole.take(k + 1 - i) =~= s@.subrange(i as int, k + 1 as int));
            }
            return None;
        }
        proof {
            assert(acc * 10 + d <= u32::MAX) by (nonlinear_arith)
                requires
                    acc <= (u32::MAX - d) / 10,
                    d < 10,
            ;
        }
        acc = acc * 10 + d;
        k = k + 1;
    }
    proof {
        assert(val_of(whole) == acc);
    }
    Some((acc, e))
}

fn p_string(s: &Vec<char>, i: usize) -> (r: Option<(Vec<char>, usize)>)
    requires
        i <= s@.len(),
    ensures
        match r {
            Some((v, e)) => sp_string(s@, i as int) == Some((v@, e as int)) && i < e <= s@.len(),
            None => sp_string(s@, i as int) is None,
        },
    decreases s@.len() - i,
{
    if i >= s.len() {
        return None;
    }
    let c = s[i];
    if c == '"' {
        let v: Vec<char> = Vec::new();
        proof {
            assert(v@ =~= Seq::<char>::empty());
        }
        Some((v, i + 1))
    } else if c == '\\' {
        if i + 1 < s.len() && (s[i + 1] == '"' || s[i + 1] == '\\') {
            match p_string(s, i + 2) {
                Some((mut t, e)) => {
                    let c2 = s[i + 1];
                    t.insert(0, c2);
                    proof {
                        assert(t@ =~= seq![s@[i + 1 as int]]
                            + sp_string(s@, i + 2 as int)->Some_0.0);
                    }
                    Some((t, e))
                },
                None => None,
            }
        } else {
            None
        }
    } else {
        match p_string(s, i + 1) {
            Some((mut t, e)) => {
                t.insert(0, c);
                proof {
                    assert(t@ =~= seq![s@[i as int]] + sp_string(s@, i + 1 as int)->Some_0.0);
                }
                Some((t, e))
            },
            None => None,
        }
    }
}

fn p_bool(s: &Vec<char>, i: usize) -> (r: Option<(bool, usize)>)
    ensures
        match r {
            Some((v, e)) => sp_bool(s@, i as int) == Some((v, e as int)) && i <= e <= s@.len(),
            None => sp_bool(s@, i as int) is None,
        },
{
    let lt = chars_of("true");
    let lf = chars_of("false");
    match p_lit(s, i, &lt) {
        Some(e) => Some((true, e)),
        None => match p_lit(s, i, &lf) {
            Some(e) => Some((false, e)),
            None => None,
        },
    }
}

fn p_priority(s: &Vec<char>, i: usize) -> (r: Option<(Priority, usize)>)
    ensures
        match r {
            Some((v, e)) => sp_priority(s@, i as int) == Some((v, e as int)) && i <= e
                <= s@.len(),
            None => sp_priority(s@, i as int) is None,
        },
{
    let lh = chars_of("High");
    let lm = chars_of("Medium");
    let ll = chars_of("Low");
    match p_lit(s, i, &lh) {
        Some(e) => Some((Priority::High, e)),
        None => match p_lit(s, i, &lm) {
            Some(e) => Some((Priority::Medium, e)),
            None => match p_lit(s, i, &ll) {
                Some(e) => Some((Priority::Low, e)),
                None => None,
            },
        },
    }
}

fn p_due(s: &Vec<char>, i: usize) -> (r: Option<(Option<Vec<char>>, usize)>)
    requires
        i <= s@.len(),
    ensures
        match r {
            Some((v, e)) => sp_due(s@, i as int) == Some(
                (
                    match v {
                        Some(ref t) => Some(t@),
                        None => None,
                    },
                    e as int,
                ),
            ) && i <= e <= s@.len(),
            None => sp_due(s@, i as int) is None,
        },
{
    let ln = chars_of("null");
    match p_lit(s, i, &ln) {
        Some(e) => Some((None, e)),
        None => {
            if i < s.len() && s[i] == '"' {
                match p_string(s, i + 1) {
                    Some((t, e)) => Some((Some(t), e)),
                    None => None,
                }
            } else {
                None
            }
        },
    }
}

fn p_task(s: &Vec<char>, i: usize) -> (r: Option<(RawTask, usize)>)
    requires
        i <= s@.len(),
    ensures
        match r {
            Some((t, e)) => sp_task(s@, i as int) == Some((t@, e as int)) && i < e <= s@.len(),
            None => sp_task(s@, i as int) is None,
        },
{
    let l1 = chars_of("{\"id\": ");
    let e1 = match p_lit(s, i, &l1) {
        Some(e) => e,
        None => {
            return None;
        },
    };
    let (id, e2) = match p_u32(s, e1) {
        Some(x) => x,
        None => {
            return None;
        },
    };
    let l2 = chars_of(", \"title\": \"");
    let e3 = match p_lit(s, e2, &l2) {
        Some(e) => e,
        None => {
            return None;
        },
    };
    let (title, e4) = match p_string(s, e3) {
        Some(x) => x,
        None => {
            return None;
        },
    };
    let l3 = chars_of(", \"completed\": ");
    let e5 = match p_lit(s, e4, &l3) {
        Some(e) => e,
        None => {
            return None;
        },
    };
    let (completed, e6) = match p_bool(s, e5) {
        Some(x) => x,
        None => {
            return None;
        },
    };
    let l4 = chars_of(", \"priority\": \"");
    let e7 = match p_lit(s, e6, &l4) {
        Some(e) => e,
        None => {
            return None;
        },
    };
    let (priority, e8) = match p_priority(s, e7) {
        Some(x) => x,
        None => {
            return None;
        },
    };
    let l5 = chars_of("\", \"created_at\": \"");
    let e9 = match p_lit(s, e8, &l5) {
        Some(e) => e,
        None => {
            return None;
        },
    };
    let (created_at, e10) = match p_string(s, e9) {
        Some(x) => x,
        None => {
            return None;
        },
    };
    let l6 = chars_of(", \"due_date\": ");
    let e11 = match p_lit(s, e10, &l6) {
        Some(e) => e,
        None => {
            return None;
        },
    };
    let (due_date, e12) = match p_due(s, e11) {
        Some(x) => x,
        None => {
            return None;
        },
    };
    let l7 = chars_of("}");
    let e13 = match p_lit(s, e12, &l7) {
        Some(e) => e,
        None => {
            return None;
        },
    };
    Some((RawTask { id, title, completed, priority, created_at, due_date }, e13))
}

fn p_tasks(s: &Vec<char>, i: usize) -> (r: Option<(Vec<RawTask>, usize)>)
    requires
        i <= s@.len(),
    ensures
        match r {
            Some((v, e)) => sp_tasks(s@, i as int) == Some((v.deep_view(), e as int)) && i < e
                <= s@.len(),
            None => sp_tasks(s@, i as int) is None,
        },
    decreases s@.len() - i,
{
    let (t, e) = match p_task(s, i) {
        Some(x) => x,
        None => {
            return None;
        },
    };
    let sep = chars_of(",\n");
    match p_lit(s, e, &sep) {
        Some(e2) => {
            match p_tasks(s, e2) {
                Some((mut rest, e3)) => {
                    rest.insert(0, t);
                    proof {
                        assert(rest.deep_view() =~= seq![sp_task(s@, i as int)->Some_0.0]
                            + sp_tasks(s@, e2 as int)->Some_0.0);
                    }
                    Some((rest, e3))
                },
                None => None,
            }
        },
        None => {
            let mut v: Vec<RawTask> = Vec::new();
            v.push(t);
            proof {
                assert(v.deep_view() =~= seq![sp_task(s@, i as int)->Some_0.0]);
            }
            Some((v, e))
        },
    }
}

fn p_tail(s: &Vec<char>, i: usize, acc: Vec<RawTask>) -> (r: Option<(Vec<RawTask>, u32)>)
    ensures
        match r {
            Some((v, nid)) => sp_tail(s@, i as int, acc.deep_view()) == Some(
                (v.deep_view(), nid),
            ),
            None => sp_tail(s@, i as int, acc.deep_view()) is None,
        },
{
    let lt = chars_of("],\n\"next_id\": ");
    let e = match p_lit(s, i, &lt) {
        Some(e) => e,
        None => {
            return None;
        },
    };
    let (nid, e2) = match p_u32(s, e) {
        Some(x) => x,
        None => {
            return None;
        },
    };
    let lc = chars_of("\n}");
    let e3 = match p_lit(s, e2, &lc) {
        Some(e) => e,
        None => {
            return None;
        },
    };
    if e3 == s.len() {
        Some((acc, nid))
    } else {
        None
    }
}

// ---------------------------------------------------------------------------
// The decoder accepts every document the encoder writes
// ---------------------------------------------------------------------------

/// The raw reading of a task: its instants still as text.
pub open spec fn raw_of(t: TaskV) -> RawTaskV {
    RawTaskV {
        id: t.id,
        title: t.title,
        completed: t.completed,
        priority: t.priority,
        created_at: iso_of(t.created_at as int),
        due_date: match t.due_date {
            Some(d) => Some(iso_of(d as int)),
            None => None,
        },
    }
}

pub open spec fn raws_of(ts: Seq<TaskV>) -> Seq<RawTaskV> {
    ts.map_values(|t: TaskV| raw_of(t))
}

/// The identifier discipline a document must show before its instants
/// are even looked at: what `tasks_wf` asks, read off the raw ids.
pub open spec fn raws_ids_wf(raws: Seq<RawTaskV>, next_id: u32) -> bool {
    &&& forall|k: int| 0 <= k < raws.len() ==> 1 <= (#[trigger] raws[k]).id < next_id
    &&& forall|p: int, q: int| 0 <= p < q < raws.len() ==> raws[p].id < raws[q].id
    &&& next_id >= 1
}

proof fn lemma_digits_end_at(s: Seq<char>, i: int, e: int)
    requires
        0 <= i <= e <= s.len(),
        forall|j: int| i <= j < e ==> is_digit(#[trigger] s[j]),
        e == s.len() || !is_digit(s[e]),
    ensures
        digits_end(s, i) == e,
    decreases e - i,
{
    if i < e {
        lemma_digits_end_at(s, i + 1, e);
    }
}

/// A decimal notation, followed by anything but a digit, reads back as
/// the number it was written from.
proof fn lemma_sp_u32_at(s: Seq<char>, i: int, v: u32)
    requires
        0 <= i,
        i + dec_of(v as nat).len() <= s.len(),
        s.subrange(i, i + dec_of(v as nat).len()) == dec_of(v as nat),
        i + dec_of(v as nat).len() == s.len() || !is_digit(s[i + dec_of(v as nat).len()]),
    ensures
        sp_u32(s, i) == Some((v, i + dec_of(v as nat).len())),
{
    crate::chars::lemma_dec_of(v as nat);
    let d = dec_of(v as nat);
    let e = i + d.len();
    assert forall|j: int| i <= j < e implies is_digit(#[trigger] s[j]) by {
        assert(s[j] == d[j - i]);
    }
    lemma_digits_end_at(s, i, e);
}

/// Text without quote or backslash is its own escaping.
proof fn lemma_esc_plain(s: Seq<char>)
    requires
        forall|j: int| 0 <= j < s.len() ==> s[j] != '"' && s[j] != '\\',
    ensures
        esc(s) == s,
    decreases s.len(),
{
    if s.len() > 0 {
        lemma_esc_plain(s.drop_first());
        assert(esc(s) =~= s);
    } else {
        assert(esc(s) =~= s);
    }
}

/// A stretch of the input known to be a concatenation splits into its
/// two parts.
proof fn lemma_split(s: Seq<char>, i: int, a: Seq<char>, b: Seq<char>)
    requires
        0 <= i,
        i + a.len() + b.len() <= s.len(),
        s.subrange(i, i + a.len() + b.len()) == a + b,
    ensures
        s.subrange(i, i + a.len()) == a,
        s.subrange(i + a.len(), i + a.len() + b.len()) == b,
{
    let w = i + a.len() + b.len();
    assert(s.subrange(i, i + a.len()) =~= a) by {
        assert forall|j: int| 0 <= j < a.len() implies s.subrange(i, i + a.len())[j] == a[j] by {
            assert(s.subrange(i, i + a.len())[j] == s[i + j]);
            assert(s.subrange(i, w)[j] == s[i + j]);
            assert((a + b)[j] == a[j]);
        }
    }
    assert(s.subrange(i + a.len(), w) =~= b) by {
        assert forall|j: int| 0 <= j < b.len() implies s.subrange(i + a.len(), w)[j] == b[j] by {
            assert(s.subrange(i + a.len(), w)[j] == s[i + a.len() + j]);
            assert(s.subrange(i, w)[a.len() + j] == s[i + (a.len() + j)]);
            assert((a + b)[a.len() + j] == b[j]);
        }
    }
}

/// Escaped text with a closing quote after it reads back as the text it
/// was escaped from.
proof fn lemma_sp_string_at(s: Seq<char>, i: int, t: Seq<char>)
    requires
        0 <= i,
        i + esc(t).len() + 1 <= s.len(),
        s.subrange(i, i + esc(t).len()) == esc(t),
        s[i + esc(t).len()] == '"',
    ensures
        sp_string(s, i) == Some((t, i + esc(t).len() + 1)),
    decreases t.len(),
{
    if t.len() == 0 {
        assert(esc(t).len() == 0);
        assert(sp_string(s, i) == Some((Seq::<char>::empty(), i + 1)));
        assert(t =~= Seq::<char>::empty());
    } else {
        let c = t[0];
        let rest = t.drop_first();
        assert(esc(t) == esc1(c) + esc(rest));
        if c == '"' || c == '\\' {
            assert(esc1(c).len() == 2);
            assert(s[i] == esc(t)[0]) by {
                assert(s.subrange(i, i + esc(t).len())[0] == s[i]);
            }
            assert(s[i] == '\\');
            assert(s[i + 1] == esc(t)[1]) by {
                assert(s.subrange(i, i + esc(t).len())[1] == s[i + 1]);
            }
            assert(s[i + 1] == c);
            assert(s.subrange(i + 2, i + 2 + esc(rest).len()) =~= esc(rest)) by {
                assert forall|j: int| 0 <= j < esc(rest).len() implies s.subrange(
                    i + 2,
                    i + 2 + esc(rest).len(),
                )[j] == esc(rest)[j] by {
                    assert(s.subrange(i + 2, i + 2 + esc(rest).len())[j] == s[i + 2 + j]);
                    assert(s.subrange(i, i + esc(t).len())[j + 2] == s[i + j + 2]);
                    assert((esc1(c) + esc(rest))[j + 2] == esc(rest)[j]);
                }
            }
            lemma_sp_string_at(s, i + 2, rest);
            assert(seq![s[i + 1]] + rest =~= t);
        } else {
            assert(esc1(c).len() == 1);
            assert(s[i] == esc(t)[0]) by {
                assert(s.subrange(i, i + esc(t).len())[0] == s[i]);
            }
            assert(s[i] == c);
            assert(s.subrange(i + 1, i + 1 + esc(rest).len()) =~= esc(rest)) by {
                assert forall|j: int| 0 <= j < esc(rest).len() implies s.subrange(
                    i + 1,
                    i + 1 + esc(rest).len(),
                )[j] == esc(rest)[j] by {
                    assert(s.subrange(i + 1, i + 1 + esc(rest).len())[j] == s[i + 1 + j]);
                    assert(s.subrange(i, i + esc(t).len())[j + 1] == s[i + j + 1]);
                    assert((esc1(c) + esc(rest))[j + 1] == esc(rest)[j]);
                }
            }
            lemma_sp_string_at(s, i + 1, rest);
            assert(seq![s[i]] + rest =~= t);
        }
    }
}

/// One emitted task line reads back as the raw form of the task.
proof fn lemma_sp_task_at(s: Seq<char>, i: int, t: TaskV)
    requires
        0 <= i,
        i + emit_task(t).len() <= s.len(),
        s.subrange(i, i + emit_task(t).len()) == emit_task(t),
        task_isos_plain(t),
    ensures
        sp_task(s, i) == Some((raw_of(t), i + emit_task(t).len())),
        emit_task(t).len() >= 1,
{
    reveal_strlit("{\"id\": ");
    reveal_strlit(", \"title\": \"");
    reveal_strlit("\", \"completed\": ");
    reveal_strlit(", \"completed\": ");
    reveal_strlit("\"");
    reveal_strlit("true");
    reveal_strlit("false");
    reveal_strlit(", \"priority\": \"");
    reveal_strlit("High");
    reveal_strlit("Medium");
    reveal_strlit("Low");
    reveal_strlit("\", \"created_at\": \"");
    reveal_strlit("\", \"due_date\": ");
    reveal_strlit(", \"due_date\": ");
    reveal_strlit("null");
    reveal_strlit("}");
    let whole = emit_task(t);
    let d = dec_of(t.id as nat);
    crate::chars::lemma_dec_of(t.id as nat);
    let et = esc(t.title);
    let lbl = t.priority.label_spec();
    let iso_c = iso_of(t.created_at as int);
    let due = emit_due(t.due_date);
    // split points, left to right
    let o1: int = i + "{\"id\": "@.len() as int;
    let o2: int = o1 + d.len() as int;
    let o3: int = o2 + ", \"title\": \""@.len() as int;
    let o4: int = o3 + et.len() as int;
    let o5: int = o4 + 1 + ", \"completed\": "@.len() as int;
    let o6: int = o5 + emit_bool(t.completed).len() as int;
    let o7: int = o6 + ", \"priority\": \""@.len() as int;
    let o8: int = o7 + lbl.len() as int;
    let o9: int = o8 + "\", \"created_at\": \""@.len() as int;
    let o10: int = o9 + iso_c.len() as int;
    let o11: int = o10 + 1 + ", \"due_date\": "@.len() as int;
    let o12: int = o11 + due.len() as int;
    let o13: int = o12 + "}"@.len() as int;
    assert("\", \"completed\": "@ =~= "\""@ + ", \"completed\": "@);
    assert("\", \"due_date\": "@ =~= "\""@ + ", \"due_date\": "@);
    assert(o13 == i + whole.len());
    let lid = "{\"id\": "@;
    let lti = ", \"title\": \""@;
    let qco = "\", \"completed\": "@;
    let lco = ", \"completed\": "@;
    let lpr = ", \"priority\": \""@;
    let lcr = "\", \"created_at\": \""@;
    let qdu = "\", \"due_date\": "@;
    let ldu = ", \"due_date\": "@;
    let bl = emit_bool(t.completed);
    let q = "\""@;
    assert(s.subrange(i, o13) == whole);
    // peel the pieces off, right to left
    let c12 = lid + d + lti + et + qco + bl + lpr + lbl + lcr + iso_c + qdu + due;
    assert(whole == c12 + "}"@);
    lemma_split(s, i, c12, "}"@);
    let c11 = lid + d + lti + et + qco + bl + lpr + lbl + lcr + iso_c + qdu;
    assert(c12 == c11 + due);
    lemma_split(s, i, c11, due);
    let c10 = lid + d + lti + et + qco + bl + lpr + lbl + lcr + iso_c;
    assert(c11 == c10 + qdu);
    lemma_split(s, i, c10, qdu);
    let c9 = lid + d + lti + et + qco + bl + lpr + lbl;
    assert(c10 == (c9 + lcr) + iso_c);
    lemma_split(s, i, c9 + lcr, iso_c);
    lemma_split(s, i, c9, lcr);
    let c7 = lid + d + lti + et + qco + bl;
    assert(c9 == (c7 + lpr) + lbl);
    lemma_split(s, i, c7 + lpr, lbl);
    lemma_split(s, i, c7, lpr);
    let c5 = lid + d + lti + et;
    assert(c7 == (c5 + qco) + bl);
    lemma_split(s, i, c5 + qco, bl);
    lemma_split(s, i, c5, qco);
    let c3 = lid + d;
    assert(c5 == (c3 + lti) + et);
    lemma_split(s, i, c3 + lti, et);
    lemma_split(s, i, c3, lti);
    lemma_split(s, i, lid, d);
    // the quotes that close the title and the created_at fields
    assert(qco =~= q + lco);
    assert(qdu =~= q + ldu);
    lemma_split(s, o4, q, lco);
    lemma_split(s, o10, q, ldu);
    assert(s[o4] == '"') by {
        assert(s.subrange(o4, o4 + 1)[0] == s[o4]);
    }
    assert(s[o10] == '"') by {
        assert(s.subrange(o10, o10 + 1)[0] == s[o10]);
    }
    // now follow the reader through the line
    assert(sp_lit(s, i, "{\"id\": "@) == Some(o1));
    assert(s[o2] == ',') by {
        assert(s.subrange(o2, o3)[0] == s[o2]);
    }
    assert(!is_digit(','));
    lemma_sp_u32_at(s, o1, t.id);
    assert(sp_lit(s, o2, ", \"title\": \""@) == Some(o3));
    lemma_sp_string_at(s, o3, t.title);
    assert(sp_lit(s, o4 + 1, ", \"completed\": "@) == Some(o5));
    if t.completed {
        assert(sp_lit(s, o5, "true"@) == Some(o6));
    } else {
        assert(sp_lit(s, o5, "true"@) is None) by {
            if sp_lit(s, o5, "true"@) is Some {
                assert(s.subrange(o5, o5 + 4)[0] == s[o5]);
                assert(s.subrange(o5, o6)[0] == s[o5]);
            }
        }
        assert(sp_lit(s, o5, "false"@) == Some(o6));
    }
    assert(sp_bool(s, o5) == Some((t.completed, o6)));
    assert(sp_lit(s, o6, ", \"priority\": \""@) == Some(o7));
    match t.priority {
        Priority::High => {
            assert(sp_lit(s, o7, "High"@) == Some(o8));
        },
        Priority::Medium => {
            assert(sp_lit(s, o7, "High"@) is None) by {
                if sp_lit(s, o7, "High"@) is Some {
                    assert(s.subrange(o7, o7 + 4)[0] == s[o7]);
                    assert(s.subrange(o7, o8)[0] == s[o7]);
                }
            }
            assert(sp_lit(s, o7, "Medium"@) == Some(o8));
        },
        Priority::Low => {
            assert(sp_lit(s, o7, "High"@) is None) by {
                if sp_lit(s, o7, "High"@) is Some {
                    assert(s.subrange(o7, o7 + 4)[0] == s[o7]);
                    assert(s.subrange(o7, o8)[0] == s[o7]);
                }
            }
            assert(sp_lit(s, o7, "Medium"@) is None) by {
                if sp_lit(s, o7, "Medium"@) is Some {
                    assert(s.subrange(o7, o7 + 6)[0] == s[o7]);
                    assert(s.subrange(o7, o8)[0] == s[o7]);
                }
            }
            assert(sp_lit(s, o7, "Low"@) == Some(o8));
        },
    }
    assert(sp_priority(s, o7) == Some((t.priority, o8)));
    assert(sp_lit(s, o8, "\", \"created_at\": \""@) == Some(o9));
    lemma_esc_plain(iso_c);
    lemma_sp_string_at(s, o9, iso_c);
    assert(sp_lit(s, o10 + 1, ", \"due_date\": "@) == Some(o11));
    match t.due_date {
        None => {
            assert(due == "null"@);
            assert(sp_lit(s, o11, "null"@) == Some(o12));
            assert(sp_due(s, o11) == Some((None::<Seq<char>>, o12)));
        },
        Some(dd) => {
            let iso_d = iso_of(dd as int);
            assert(due == (q + iso_d) + q);
            lemma_split(s, o11, q + iso_d, q);
            lemma_split(s, o11, q, iso_d);
            assert(s[o11] == '"') by {
                assert(s.subrange(o11, o11 + 1)[0] == s[o11]);
            }
            assert(s[o11 + 1 + iso_d.len() as int] == '"') by {
                assert(s.subrange(o11 + 1 + iso_d.len() as int, o12)[0] == s[o11 + 1
                    + iso_d.len() as int]);
            }
            assert(sp_lit(s, o11, "null"@) is None) by {
                if sp_lit(s, o11, "null"@) is Some {
                    assert(s.subrange(o11, o11 + 4)[0] == s[o11]);
                }
            }
            lemma_esc_plain(iso_d);
            lemma_sp_string_at(s, o11 + 1, iso_d);
            assert(sp_due(s, o11) == Some((Some(iso_d), o12)));
        },
    }
    assert(sp_lit(s, o12, "}"@) == Some(o13));
    assert(sp_task(s, i) matches Some(x) && x.1 == o13 && x.0 =~= raw_of(t));
}

/// An emitted run of task lines, with the list's closing newline after
/// it, reads back as the raw forms of the tasks.
proof fn lemma_sp_tasks_at(s: Seq<char>, i: int, ts: Seq<TaskV>)
    requires
        ts.len() >= 1,
        isos_plain(ts),
        0 <= i,
        i + emit_tasks(ts).len() < s.len(),
        s.subrange(i, i + emit_tasks(ts).len()) == emit_tasks(ts),
        s[i + emit_tasks(ts).len()] == '\n',
    ensures
        sp_tasks(s, i) == Some((raws_of(ts), i + emit_tasks(ts).len())),
    decreases ts.len(),
{
    reveal_strlit(",\n");
    assert(task_isos_plain(ts[0]));
    if ts.len() == 1 {
        assert(emit_tasks(ts) == emit_task(ts[0]));
        lemma_sp_task_at(s, i, ts[0]);
        let e = i + emit_task(ts[0]).len();
        assert(sp_lit(s, e, ",\n"@) is None) by {
            if sp_lit(s, e, ",\n"@) is Some {
                assert(s.subrange(e, e + 2)[0] == ',');
                assert(s[e] == '\n');
            }
        }
        assert(seq![raw_of(ts[0])] =~= raws_of(ts));
    } else {
        let rest = ts.drop_first();
        assert(emit_tasks(ts) == (emit_task(ts[0]) + ",\n"@) + emit_tasks(rest));
        let e = i + emit_task(ts[0]).len();
        lemma_split(s, i, emit_task(ts[0]) + ",\n"@, emit_tasks(rest));
        lemma_split(s, i, emit_task(ts[0]), ",\n"@);
        lemma_sp_task_at(s, i, ts[0]);
        assert(sp_lit(s, e, ",\n"@) == Some(e + 2));
        assert(isos_plain(rest)) by {
            assert(forall|k: int| 0 <= k < rest.len() ==> #[trigger] rest[k] == ts[k + 1]);
        }
        lemma_sp_tasks_at(s, e + 2, rest);
        assert(seq![raw_of(ts[0])] + raws_of(rest) =~= raws_of(ts));
    }
}

/// The whole emitted document reads back as the raw forms of the tasks
/// and the emitted `next_id`.
pub proof fn lemma_sp_collection_at(s: Seq<char>, ts: Seq<TaskV>, nid: u32)
    requires
        s == emit_collection(ts, nid),
        isos_plain(ts),
    ensures
        sp_collection(s) == Some((raws_of(ts), nid)),
{
    reveal_strlit("{\n\"tasks\": [");
    reveal_strlit("\n");
    reveal_strlit("],\n\"next_id\": ");
    reveal_strlit("\n}");
    let la = "{\n\"tasks\": ["@;
    let mid = if ts.len() == 0 {
        Seq::<char>::empty()
    } else {
        "\n"@ + emit_tasks(ts) + "\n"@
    };
    let lb = "],\n\"next_id\": "@;
    let d = dec_of(nid as nat);
    crate::chars::lemma_dec_of(nid as nat);
    let lc = "\n}"@;
    let o1: int = la.len() as int;
    let o2: int = o1 + mid.len() as int;
    let o3: int = o2 + lb.len() as int;
    let o4: int = o3 + d.len() as int;
    let o5: int = o4 + lc.len() as int;
    assert(s.len() == o5);
    assert(s == (((la + mid) + lb) + d) + lc);
    assert(s.subrange(0, o5) =~= s);
    lemma_split(s, 0, ((la + mid) + lb) + d, lc);
    lemma_split(s, 0, (la + mid) + lb, d);
    lemma_split(s, 0, la + mid, lb);
    lemma_split(s, 0, la, mid);
    assert(sp_lit(s, 0, la) == Some(o1));
    assert(s[o4] == '\n') by {
        assert(s.subrange(o4, o5)[0] == s[o4]);
    }
    assert(!is_digit('\n'));
    lemma_sp_u32_at(s, o3, nid);
    assert(sp_lit(s, o4, lc) == Some(o5));
    if ts.len() == 0 {
        assert(o1 == o2);
        assert(s[o1] == ']') by {
            assert(s.subrange(o2, o3)[0] == s[o2]);
        }
        assert(sp_lit(s, o1, "\n"@) is None) by {
            if sp_lit(s, o1, "\n"@) is Some {
                assert(s.subrange(o1, o1 + 1)[0] == s[o1]);
            }
        }
        assert(sp_lit(s, o1, lb) == Some(o3));
        assert(sp_tail(s, o1, Seq::<RawTaskV>::empty()) == Some((Seq::<RawTaskV>::empty(), nid)));
        assert(raws_of(ts) =~= Seq::<RawTaskV>::empty());
    } else {
        let et = emit_tasks(ts);
        assert(mid == ("\n"@ + et) + "\n"@);
        lemma_split(s, o1, "\n"@ + et, "\n"@);
        lemma_split(s, o1, "\n"@, et);
        assert(sp_lit(s, o1, "\n"@) == Some(o1 + 1));
        let e3 = o1 + 1 + et.len() as int;
        assert(s[e3] == '\n') by {
            assert(s.subrange(e3, o2)[0] == s[e3]);
        }
        lemma_sp_tasks_at(s, o1 + 1, ts);
        assert(sp_lit(s, e3, "\n"@) == Some(o2));
        assert(sp_lit(s, o2, lb) == Some(o3));
        assert(sp_tail(s, o2, raws_of(ts)) == Some((raws_of(ts), nid)));
    }
}

/// Reads a whole document, still with textual instants.
fn p_collection(s: &Vec<char>) -> (r: Option<(Vec<RawTask>, u32)>)
    ensures
        match r {
            Some((v, nid)) => sp_collection(s@) == Some((v.deep_view(), nid)),
            None => sp_collection(s@) is None,
        },
{
    let lo = chars_of("{\n\"tasks\": [");
    let e1 = match p_lit(s, 0, &lo) {
        Some(e) => e,
        None => {
            return None;
        },
    };
    let nl = chars_of("\n");
    match p_lit(s, e1, &nl) {
        Some(e2) => {
            let (ts, e3) = match p_tasks(s, e2) {
                Some(x) => x,
                None => {
                    return None;
                },
            };
            let e4 = match p_lit(s, e3, &nl) {
                Some(e) => e,
                None => {
                    return None;
                },
            };
            p_tail(s, e4, ts)
        },
        None => {
            let empty: Vec<RawTask> = Vec::new();
            proof {
                assert(empty.deep_view() =~= Seq::<RawTaskV>::empty());
            }
            p_tail(s, e1, empty)
        },
    }
}

// ---------------------------------------------------------------------------
// From raw readings to tasks, and the decoder's front door
// ---------------------------------------------------------------------------

/// How a decoded task relates to its raw reading: plain fields carried
/// over, instants decoded — any instant whose notation the raw reading
/// holds is the instant the task carries.
pub open spec fn task_matches_raw(t: TaskV, rt: RawTaskV) -> bool {
    &&& t.id == rt.id
    &&& t.title == rt.title
    &&& t.completed == rt.completed
    &&& t.priority == rt.priority
    &&& ts_ok(t.created_at)
    &&& opt_ts_ok(t.due_date)
    &&& forall|c: i64| ts_ok(c) && rt.created_at == iso_of(c as int) ==> t.created_at == c
    &&& (t.due_date is None <==> rt.due_date is None)
    &&& forall|c: i64| ts_ok(c) && rt.due_date == Some(iso_of(c as int)) ==> t.due_date == Some(c)
}

/// A raw reading whose instant texts chrono reads as storable instants.
pub open spec fn raw_readable(rt: RawTaskV) -> bool {
    &&& instant_readable(rt.created_at)
    &&& match rt.due_date {
        Some(ds) => instant_readable(ds),
        None => true,
    }
}

/// A raw reading whose instants are notations of storable instants.
pub open spec fn raw_decodable(rt: RawTaskV) -> bool {
    &&& exists|c: i64| ts_ok(c) && rt.created_at == iso_of(c as int)
    &&& match rt.due_date {
        Some(ds) => exists|c: i64| ts_ok(c) && ds == iso_of(c as int),
        None => true,
    }
}

/// Decodes one instant's notation, rejecting what chrono rejects and
/// what lies outside the storable range.
fn decode_instant(v: &Vec<char>) -> (r: Option<i64>)
    ensures
        r matches Some(c) ==> ts_ok(c) && (forall|c2: i64|
            ts_ok(c2) && v@ == iso_of(c2 as int) ==> c == c2),
        (exists|c: i64| ts_ok(c) && v@ == iso_of(c as int)) ==> r is Some,
        r is Some <==> instant_readable(v@),
{
    let s = chars_to_string(v);
    match parse_timestamp(s.as_str()) {
        Some(c) => {
            if TS_MIN <= c && c <= TS_MAX {
                Some(c)
            } else {
                None
            }
        },
        None => None,
    }
}

/// Decodes every raw reading, or reports that one of them holds no
/// storable instant.
fn tasks_from_raw(raw: Vec<RawTask>) -> (r: Option<Vec<Task>>)
    ensures
        r matches Some(v) ==> v.deep_view().len() == raw.deep_view().len() && (forall|k: int|
            0 <= k < raw.deep_view().len() ==> task_matches_raw(
                v.deep_view()[k],
                #[trigger] raw.deep_view()[k],
            )),
        (forall|k: int| 0 <= k < raw.deep_view().len() ==> raw_decodable(
            #[trigger] raw.deep_view()[k],
        )) ==> r is Some,
        r is Some ==> forall|k: int| 0 <= k < raw.deep_view().len() ==> raw_readable(
            #[trigger] raw.deep_view()[k],
        ),
{
    let ghost orig = raw.deep_view();
    let mut work = raw;
    let mut out: Vec<Task> = Vec::new();
    while work.len() > 0
        invariant
            orig == raw.deep_view(),
            out.deep_view().len() + work.deep_view().len() == orig.len(),
            forall|k: int| 0 <= k < out.deep_view().len() ==> task_matches_raw(
                out.deep_view()[k],
                #[trigger] orig[k],
            ),
            forall|k: int| 0 <= k < out.deep_view().len() ==> raw_readable(#[trigger] orig[k]),
            forall|k: int| 0 <= k < work.deep_view().len() ==> #[trigger] work.deep_view()[k]
                == orig[out.deep_view().len() + k],
        decreases work.deep_view().len(),
    {
        let ghost m = out.deep_view().len() as int;
        let ghost prev_work = work.deep_view();
        proof {
            assert(work.deep_view()[0] == orig[m]);
        }
        let rt = work.remove(0);
        proof {
            assert forall|k: int| 0 <= k < work.deep_view().len() implies #[trigger] work
                .deep_view()[k] == prev_work[k + 1] by {}
        }
        let created_at = match decode_instant(&rt.created_at) {
            Some(c) => c,
            None => {
                proof {
                    assert(!raw_decodable(orig[m])) by {
                        if raw_decodable(orig[m]) {
                            assert(exists|c: i64|
                                ts_ok(c) && rt.created_at@ == iso_of(c as int));
                        }
                    }
                }
                return None;
            },
        };
        let due_date = match rt.due_date {
            Some(dv) => {
                match decode_instant(&dv) {
                    Some(d) => Some(d),
                    None => {
                        proof {
                            assert(!raw_decodable(orig[m])) by {
                                if raw_decodable(orig[m]) {
                                    assert(exists|c: i64| ts_ok(c) && dv@ == iso_of(c as int));
                                }
                            }
                        }
                        return None;
                    },
                }
            },
            None => None,
        };
        let title = chars_to_string(&rt.title);
        let t = Task {
            id: rt.id,
            title,
            completed: rt.completed,
            priority: rt.priority,
            created_at,
            due_date,
        };
        proof {
            assert(task_matches_raw(t@, orig[m]));
        }
        let ghost prev_out = out.deep_view();
        out.push(t);
        proof {
            assert forall|k: int| 0 <= k < out.deep_view().len() implies task_matches_raw(
                out.deep_view()[k],
                #[trigger] orig[k],
            ) by {
                if k < m {
                    assert(out.deep_view()[k] == prev_out[k]);
                } else {
                    assert(out.deep_view()[k] == t@);
                }
            }
        }
    }
    Some(out)
}

/// Reads a persisted document back into a collection.
///
/// Every document `to_json` writes is accepted and yields exactly the
/// collection it was written from; whatever is accepted is well-formed;
/// everything else is rejected as a serialization failure.  Rejection
/// is owed, not merely permitted, to content outside the grammar and to
/// documents that break the identifier discipline.
pub fn from_json(s: &str) -> (r: TodoResult<TodoList>)
    ensures
        forall|lv: TodoListV|
            list_wf(lv) && isos_plain(lv.tasks) && s@ == emit_collection(lv.tasks, lv.next_id)
                ==> (r matches Ok(l) && l@ == lv),
        r matches Ok(l) ==> l.wf(),
        r matches Err(e) ==> e matches TodoError::SerdeError(_),
        sp_collection(s@) is None ==> r is Err,
        sp_collection(s@) matches Some(p) && !raws_ids_wf(p.0, p.1) ==> r is Err,
        sp_collection(s@) matches Some(p) && (exists|k: int|
            0 <= k < p.0.len() && !raw_readable(#[trigger] p.0[k])) ==> r is Err,
{
    let cs = chars_of(s);
    let parsed = p_collection(&cs);
    match parsed {
        None => {
            proof {
                assert forall|lv: TodoListV|
                    !(list_wf(lv) && isos_plain(lv.tasks) && s@ == emit_collection(
                        lv.tasks,
                        lv.next_id,
                    )) by {
                    if list_wf(lv) && isos_plain(lv.tasks) && s@ == emit_collection(
                        lv.tasks,
                        lv.next_id,
                    ) {
                        lemma_sp_collection_at(s@, lv.tasks, lv.next_id);
                    }
                }
            }
            Err(TodoError::SerdeError("not a saved task collection".to_owned()))
        },
        Some((rawv, nid)) => {
            let ghost raws = rawv.deep_view();
            match tasks_from_raw(rawv) {
                None => {
                    proof {
                        assert forall|lv: TodoListV|
                            !(list_wf(lv) && isos_plain(lv.tasks) && s@ == emit_collection(
                                lv.tasks,
                                lv.next_id,
                            )) by {
                            if list_wf(lv) && isos_plain(lv.tasks) && s@ == emit_collection(
                                lv.tasks,
                                lv.next_id,
                            ) {
                                lemma_sp_collection_at(s@, lv.tasks, lv.next_id);
                                assert(raws == raws_of(lv.tasks));
                                assert forall|k: int| 0 <= k < raws.len() implies raw_decodable(
                                    #[trigger] raws[k],
                                ) by {
                                    assert(raws[k] == raw_of(lv.tasks[k]));
                                    let t = lv.tasks[k];
                                    assert(Task::task_wf(t));
                                    assert(ts_ok(t.created_at) && raws[k].created_at == iso_of(
                                        t.created_at as int,
                                    ));
                                    match t.due_date {
                                        Some(d) => {
                                            assert(ts_ok(d) && raws[k].due_date == Some(
                                                iso_of(d as int),
                                            ));
                                        },
                                        None => {},
                                    }
                                }
                            }
                        }
                    }
                    Err(TodoError::SerdeError("an instant in the document is unreadable".to_owned()))
                },
                Some(tasks) => {
                    if crate::todo_list::check_tasks_wf(&tasks, nid) {
                        let l = TodoList::from_parts(tasks, nid);
                        proof {
                            let dv = l@.tasks;
                            assert(raws_ids_wf(raws, nid)) by {
                                assert forall|k: int| 0 <= k < raws.len() implies 1 <= (
                                #[trigger] raws[k]).id < nid by {
                                    assert(task_matches_raw(dv[k], raws[k]));
                                    assert(Task::task_wf(dv[k]));
                                }
                                assert forall|p: int, q: int|
                                    0 <= p < q < raws.len() implies raws[p].id < raws[q].id by {
                                    assert(task_matches_raw(dv[p], raws[p]));
                                    assert(task_matches_raw(dv[q], raws[q]));
                                    assert(dv[p].id < dv[q].id);
                                }
                            }
                            assert forall|lv: TodoListV|
                                list_wf(lv) && isos_plain(lv.tasks) && s@ == emit_collection(
                                    lv.tasks,
                                    lv.next_id,
                                ) implies l@ == lv by {
                                lemma_sp_collection_at(s@, lv.tasks, lv.next_id);
                                assert(raws == raws_of(lv.tasks));
                                assert(nid == lv.next_id);
                                lemma_decoded_matches(l@.tasks, raws, lv.tasks);
                                assert(l@ =~= lv);
                            }
                        }
                        Ok(l)
                    } else {
                        proof {
                            assert forall|lv: TodoListV|
                                !(list_wf(lv) && isos_plain(lv.tasks) && s@ == emit_collection(
                                    lv.tasks,
                                    lv.next_id,
                                )) by {
                                if list_wf(lv) && isos_plain(lv.tasks) && s@ == emit_collection(
                                    lv.tasks,
                                    lv.next_id,
                                ) {
                                    lemma_sp_collection_at(s@, lv.tasks, lv.next_id);
                                    assert(raws == raws_of(lv.tasks));
                                    lemma_decoded_matches(tasks.deep_view(), raws, lv.tasks);
                                    assert(tasks.deep_view() =~= lv.tasks);
                                    assert(tasks_wf(tasks.deep_view(), nid));
                                }
                            }
                        }
                        Err(TodoError::SerdeError("the document violates the collection invariant".to_owned()))
                    }
                },
            }
        },
    }
}

/// Decoded tasks that match the raw readings of a well-formed
/// collection are that collection's tasks.
proof fn lemma_decoded_matches(dec: Seq<TaskV>, raws: Seq<RawTaskV>, ts: Seq<TaskV>)
    requires
        raws == raws_of(ts),
        dec.len() == raws.len(),
        forall|k: int| 0 <= k < raws.len() ==> task_matches_raw(dec[k], #[trigger] raws[k]),
        forall|k: int| 0 <= k < ts.len() ==> Task::task_wf(#[trigger] ts[k]),
    ensures
        dec =~= ts,
{
    assert forall|k: int| 0 <= k < dec.len() implies dec[k] == ts[k] by {
        assert(raws[k] == raw_of(ts[k]));
        let t = ts[k];
        assert(task_matches_raw(dec[k], raws[k]));
        assert(ts_ok(t.created_at) && raws[k].created_at == iso_of(t.created_at as int));
        assert(dec[k].created_at == t.created_at);
        match t.due_date {
            Some(d) => {
                assert(ts_ok(d) && raws[k].due_date == Some(iso_of(d as int)));
                assert(dec[k].due_date == Some(d));
            },
            None => {
                assert(raws[k].due_date is None);
                assert(dec[k].due_date is None);
            },
        }
        assert(dec[k] =~= ts[k]);
    }
}

} // verus!

//! Plans: numbered steps parsed from the model's text, the board that
//! tracks their progress, and the history entry that records a board.

use vstd::prelude::*;
use crate::text::{
    chars_of, dec, dec_int, digit, flatten_newlines, is_space, lines, lines_of, push_dec, push_dec_i64,
    push_flattened, push_str, string_of, trim, trim_slice, trim_start, trim_end, lead_spaces,
    trail_spaces,
};

verus! {

broadcast use vstd::string::group_string_axioms;

// ---------------------------------------------------------------------------
// Numbered lines
// ---------------------------------------------------------------------------

/// An ASCII decimal digit.
pub open spec fn is_digit(c: char) -> bool {
    48 <= c as u32 <= 57
}

/// Number of leading ASCII digits of `s`.
pub open spec fn lead_digits(s: Seq<char>) -> nat
    decreases s.len(),
{
    if s.len() > 0 && is_digit(s[0]) {
        1 + lead_digits(s.drop_first())
    } else {
        0
    }
}

/// Number of leading spaces (`' '` only) of `s`.
pub open spec fn lead_blanks(s: Seq<char>) -> nat
    decreases s.len(),
{
    if s.len() > 0 && s[0] == ' ' {
        1 + lead_blanks(s.drop_first())
    } else {
        0
    }
}

/// A step separator: `.`, `)` or `:`.
pub open spec fn is_separator(c: char) -> bool {
    c == '.' || c == ')' || c == ':'
}

/// `(number, text)` of a line such as `12. Do it`: one or more digits, a
/// separator, any spaces, and a non-empty text.
pub open spec fn split_numbered(s: Seq<char>) -> Option<(Seq<char>, Seq<char>)> {
    let d = lead_digits(s);
    if d == 0 || d >= s.len() || !is_separator(s[d as int]) {
        None
    } else {
        let k = d + 1 + lead_blanks(s.skip((d + 1) as int));
        if k >= s.len() {
            None
        } else {
            Some((s.take(d as int), s.skip(k as int)))
        }
    }
}

/// The value of a string of decimal digits.
pub open spec fn digits_value(s: Seq<char>) -> nat
    decreases s.len(),
{
    if s.len() == 0 {
        0
    } else {
        digits_value(s.drop_last()) * 10 + (s.last() as u32 - 48) as nat
    }
}

proof fn lemma_lead_digits(s: Seq<char>)
    ensures
        lead_digits(s) <= s.len(),
        forall|j: int| 0 <= j < lead_digits(s) ==> is_digit(#[trigger] s[j]),
        lead_digits(s) < s.len() ==> !is_digit(s[lead_digits(s) as int]),
    decreases s.len(),
{
    if s.len() > 0 && is_digit(s[0]) {
        lemma_lead_digits(s.drop_first());
        assert forall|j: int| 0 <= j < lead_digits(s) implies is_digit(#[trigger] s[j]) by {
            if j > 0 {
                assert(s[j] == s.drop_first()[j - 1]);
            }
        }
    }
}

/// `split_numbered` as positions: `(d, k)` with the number in `cs[..d]`
/// and the text in `cs[k..]`.
pub fn split_numbered_at(cs: &[char]) -> (r: Option<(usize, usize)>)
    ensures
        match r {
            Some((d, k)) => d < k <= cs@.len() && split_numbered(cs@) == Some(
                (cs@.take(d as int), cs@.skip(k as int)),
            ),
            None => split_numbered(cs@) is None,
        },
{
    let n = cs.len();
    let mut d: usize = 0;
    assert(cs@.skip(0) == cs@);
    while d < n && 48 <= cs[d] as u32 && cs[d] as u32 <= 57
        invariant
            n == cs@.len(),
            d <= n,
            lead_digits(cs@) == d + lead_digits(cs@.skip(d as int)),
        decreases n - d,
    {
        assert(cs@.skip(d as int).drop_first() == cs@.skip(d + 1));
        d = d + 1;
    }
    if d < n {
        assert(cs@.skip(d as int)[0] == cs@[d as int]);
    }
    if d == 0 || d >= n {
        return None;
    }
    let sep = cs[d];
    if !(sep == '.' || sep == ')' || sep == ':') {
        return None;
    }
    let mut k: usize = d + 1;
    let ghost after = cs@.skip(d + 1);
    assert(after.skip(0) == after);
    while k < n && cs[k] == ' '
        invariant
            n == cs@.len(),
            d + 1 <= k <= n,
            after == cs@.skip(d + 1),
            lead_blanks(after) == (k - (d + 1)) + lead_blanks(cs@.skip(k as int)),
        decreases n - k,
    {
        assert(cs@.skip(k as int).drop_first() == cs@.skip(k + 1));
        k = k + 1;
    }
    if k < n {
        assert(cs@.skip(k as int)[0] == cs@[k as int]);
    }
    if k >= n {
        return None;
    }
    Some((d, k))
}

/// Splits a line such as `12. Do it` into its number and its text.
pub fn split_numbered_line(line: &str) -> (r: Option<(&str, &str)>)
    ensures
        match r {
            Some((num, rest)) => split_numbered(line@) == Some((num@, rest@)),
            None => split_numbered(line@) is None,
        },
{
    let cs = chars_of(line);
    match split_numbered_at(cs.as_slice()) {
        Some((d, k)) => Some((line.substring_char(0, d), line.substring_char(k, cs.len()))),
        None => None,
    }
}

/// The value of the digit string `cs`, when it fits in a `usize`
/// (`str::parse::<usize>` on digits).
pub fn parse_digits(cs: &[char]) -> (r: Option<usize>)
    requires
        forall|j: int| 0 <= j < cs@.len() ==> is_digit(#[trigger] cs@[j]),
    ensures
        match r {
            Some(v) => v == digits_value(cs@),
            None => digits_value(cs@) > usize::MAX,
        },
{
    let n = cs.len();
    let mut v: usize = 0;
    let mut i: usize = 0;
    assert(cs@.take(0) =~= Seq::<char>::empty());
    while i < n
        invariant
            n == cs@.len(),
            i <= n,
            forall|j: int| 0 <= j < cs@.len() ==> is_digit(#[trigger] cs@[j]),
            v == digits_value(cs@.take(i as int)),
        decreases n - i,
    {
        let ghost pre = cs@.take(i as int);
        assert(cs@.take(i + 1).drop_last() == pre);
        assert(is_digit(cs@[i as int]));
        let dig: usize = (cs[i] as u32 - 48) as usize;
        if v > (usize::MAX - dig) / 10 {
            proof {
                lemma_digits_prefix_grow(cs@, (i + 1) as nat);
            }
            return None;
        }
        v = v * 10 + dig;
        i = i + 1;
    }
    assert(cs@.take(n as int) == cs@);
    Some(v)
}

/// A digit string's value is at least that of any prefix.
proof fn lemma_digits_prefix_grow(s: Seq<char>, k: nat)
    requires
        k <= s.len(),
    ensures
        digits_value(s.take(k as int)) <= digits_value(s),
    decreases s.len() - k,
{
    if k < s.len() {
        lemma_digits_prefix_grow(s, k + 1);
        assert(s.take((k + 1) as int).drop_last() == s.take(k as int));
    } else {
        assert(s.take(k as int) == s);
    }
}

// ---------------------------------------------------------------------------
// Plans
// ---------------------------------------------------------------------------

/// The steps of a plan found in `ls`: each line, trimmed, that is numbered
/// with the next step number (1, 2, ...) contributes its text; every other
/// line is passed over.
pub open spec fn plan_steps(ls: Seq<Seq<char>>) -> Seq<Seq<char>>
    decreases ls.len(),
{
    if ls.len() == 0 {
        seq![]
    } else {
        let prev = plan_steps(ls.drop_last());
        match split_numbered(trim(ls.last())) {
            Some((num, rest)) => if digits_value(num) == prev.len() + 1 {
                prev.push(rest)
            } else {
                prev
            },
            None => prev,
        }
    }
}

/// Parses a numbered plan from the model's text: the steps of
/// `plan_steps(lines(text))` when there are at least two of them.
pub fn parse_plan(text: &str) -> (r: Option<Vec<String>>)
    ensures
        match r {
            Some(steps) => steps.deep_view() == plan_steps(lines(text@)) && steps@.len() >= 2,
            None => plan_steps(lines(text@)).len() < 2,
        },
{
    let cs = chars_of(text);
    let ls = lines_of(cs.as_slice());
    let n = ls.len();
    let mut steps: Vec<String> = Vec::new();
    let mut i: usize = 0;
    while i < n
        invariant
            n == ls@.len(),
            ls.deep_view() == lines(text@),
            i <= n,
            steps.deep_view() == plan_steps(ls.deep_view().take(i as int)),
            steps@.len() <= i,
        decreases n - i,
    {
        let ghost pre = ls.deep_view().take(i as int);
        assert(ls.deep_view().take(i + 1).drop_last() == pre);
        assert(ls.deep_view().take(i + 1).last() == ls[i as int]@);
        assert(ls[i as int].deep_view() =~= ls[i as int]@);
        let t = trim_slice(ls[i].as_slice());
        if let Some((d, k)) = split_numbered_at(t) {
            proof {
                lemma_lead_digits(t@);
            }
            let num = &t[0..d];
            assert(num@ == t@.take(d as int));
            match parse_digits(num) {
                Some(v) => {
                    if v == steps.len() + 1 {
                        let ghost before = steps.deep_view();
                        let rest = string_of(&t[k..t.len()]);
                        assert(t@.subrange(k as int, t@.len() as int) == t@.skip(k as int));
                        steps.push(rest);
                        assert(steps.deep_view() =~= before.push(rest@));
                    }
                },
                None => {},
            }
        }
        i = i + 1;
    }
    assert(ls.deep_view().take(n as int) == ls.deep_view());
    if steps.len() >= 2 {
        Some(steps)
    } else {
        None
    }
}

/// A plan line as it is usually written: the step number in decimal, a
/// period, a space, and the step's text.
pub open spec fn step_line(k: nat, text: Seq<char>) -> Seq<char> {
    dec(k) + seq!['.', ' '] + text
}

/// Text that a trimmed line can end with: not empty, and neither
/// starting nor ending with whitespace.
pub open spec fn plain_text(t: Seq<char>) -> bool {
    t.len() > 0 && !is_space(t[0]) && !is_space(t.last())
}

proof fn lemma_dec_digits(n: nat)
    ensures
        dec(n).len() > 0,
        forall|j: int| 0 <= j < dec(n).len() ==> is_digit(#[trigger] dec(n)[j]),
        digits_value(dec(n)) == n,
    decreases n,
{
    if n < 10 {
        assert(digit(n) as u32 == 48 + n);
        assert(dec(n).drop_last() =~= Seq::<char>::empty());
        assert(dec(n).last() == digit(n));
        assert(digits_value(dec(n).drop_last()) == 0);
        assert(digits_value(dec(n)) == digits_value(dec(n).drop_last()) * 10 + (dec(n).last() as u32
            - 48) as nat);
    } else {
        lemma_dec_digits(n / 10);
        let d = dec(n);
        assert(d.drop_last() =~= dec(n / 10));
        assert(d.last() == digit(n % 10));
        assert(digit(n % 10) as u32 == 48 + n % 10);
        assert(digits_value(d) == digits_value(dec(n / 10)) * 10 + (d.last() as u32 - 48) as nat);
        assert((n / 10) * 10 + n % 10 == n);
        assert forall|j: int| 0 <= j < d.len() implies is_digit(#[trigger] d[j]) by {
            if j < d.len() - 1 {
                assert(d[j] == dec(n / 10)[j]);
            }
        }
    }
}

proof fn lemma_lead_digits_concat(a: Seq<char>, r: Seq<char>)
    requires
        forall|j: int| 0 <= j < a.len() ==> is_digit(#[trigger] a[j]),
        r.len() > 0,
        !is_digit(r[0]),
    ensures
        lead_digits(a + r) == a.len(),
    decreases a.len(),
{
    if a.len() == 0 {
        assert(a + r =~= r);
    } else {
        assert((a + r).drop_first() =~= a.drop_first() + r);
        assert((a + r)[0] == a[0]);
        assert forall|j: int| 0 <= j < a.drop_first().len() implies is_digit(
            #[trigger] a.drop_first()[j],
        ) by {
            assert(a.drop_first()[j] == a[j + 1]);
        }
        lemma_lead_digits_concat(a.drop_first(), r);
    }
}

/// A step line with plain text reads back as its number and its text.
proof fn lemma_step_line_splits(k: nat, t: Seq<char>)
    requires
        plain_text(t),
    ensures
        trim(step_line(k, t)) == step_line(k, t),
        split_numbered(step_line(k, t)) == Some((dec(k), t)),
        digits_value(dec(k)) == k,
{
    let s = step_line(k, t);
    let dk = dec(k);
    lemma_dec_digits(k);
    let r = seq!['.', ' '] + t;
    assert(s =~= dk + r);
    assert(r[0] == '.');
    lemma_lead_digits_concat(dk, r);
    let d = dk.len();
    assert(s[d as int] == '.');
    let after = s.skip((d + 1) as int);
    assert(after =~= seq![' '] + t);
    assert(after.drop_first() =~= t);
    assert(lead_blanks(t) == 0) by {
        assert(t[0] != ' ');
    }
    assert(lead_blanks(after) == 1);
    assert(s.take(d as int) =~= dk);
    assert(s.skip((d + 2) as int) =~= t);
    assert(is_digit(s[0]));
    assert(lead_spaces(s) == 0);
    assert(s.last() == t.last());
    assert(trim_start(s) =~= s);
    assert(trail_spaces(s) == 0);
    assert(trim_end(s) =~= s);
}

/// Steps are numbered 1, 2, 3, ... with any number of digits: after the
/// steps found so far, a line numbered with the next number adds its text
/// as the next step.
pub proof fn lemma_next_step(ls: Seq<Seq<char>>, t: Seq<char>)
    requires
        plain_text(t),
    ensures
        plan_steps(ls.push(step_line(plan_steps(ls).len() + 1, t))) == plan_steps(ls).push(t),
{
    let k = plan_steps(ls).len() + 1;
    lemma_step_line_splits(k, t);
    let ls2 = ls.push(step_line(k, t));
    assert(ls2.drop_last() =~= ls);
    assert(ls2.last() == step_line(k, t));
}

/// Consecutively numbered lines `1. t1`, `2. t2`, ... are read as the
/// steps `t1, t2, ...`, however many there are.
pub proof fn lemma_numbered_list(ts: Seq<Seq<char>>)
    requires
        forall|i: int| 0 <= i < ts.len() ==> plain_text(#[trigger] ts[i]),
    ensures
        plan_steps(Seq::new(ts.len(), |i: int| step_line((i + 1) as nat, ts[i]))) == ts,
    decreases ts.len(),
{
    if ts.len() > 0 {
        let n = ts.len();
        let pre = ts.drop_last();
        assert forall|i: int| 0 <= i < pre.len() implies plain_text(#[trigger] pre[i]) by {
            assert(pre[i] == ts[i]);
        }
        lemma_numbered_list(pre);
        let ls = Seq::new(n, |i: int| step_line((i + 1) as nat, ts[i]));
        let lp = Seq::new(pre.len(), |i: int| step_line((i + 1) as nat, pre[i]));
        assert(ls =~= lp.push(step_line(n as nat, ts.last())));
        assert(plain_text(ts[n - 1]));
        lemma_next_step(lp, ts.last());
        assert(pre.push(ts.last()) =~= ts);
    }
}

/// Every step of a plan has non-empty text.
pub proof fn lemma_plan_steps_nonempty(ls: Seq<Seq<char>>)
    ensures
        forall|i: int| 0 <= i < plan_steps(ls).len() ==> (#[trigger] plan_steps(ls)[i]).len() > 0,
        plan_steps(ls).len() <= ls.len(),
    decreases ls.len(),
{
    if ls.len() > 0 {
        lemma_plan_steps_nonempty(ls.drop_last());
    }
}


// ---------------------------------------------------------------------------
// The board
// ---------------------------------------------------------------------------

/// Progress of one task.
#[derive(Debug, Clone, Copy, PartialEq, Eq, Structural)]
pub enum TaskStatus {
    Planned,
    InProgress,
    Done,
}

/// One task of a plan.
#[derive(Debug, Clone)]
pub struct PlanTask {
    pub id: usize,
    pub text: String,
    pub status: TaskStatus,
    pub activity: Option<String>,
    pub started_at: Option<i64>,
    pub completed_at: Option<i64>,
}

/// View of a task.
pub struct PlanTaskV {
    pub id: nat,
    pub text: Seq<char>,
    pub status: TaskStatus,
    pub activity: Option<Seq<char>>,
    pub started_at: Option<i64>,
    pub completed_at: Option<i64>,
}

impl DeepView for PlanTask {
    type V = PlanTaskV;

    open spec fn deep_view(&self) -> PlanTaskV {
        PlanTaskV {
            id: self.id as nat,
            text: self.text@,
            status: self.status,
            activity: self.activity.deep_view(),
            started_at: self.started_at,
            completed_at: self.completed_at,
        }
    }
}

impl PlanTask {
    /// A field-by-field copy.
    pub fn duplicate(&self) -> (r: PlanTask)
        ensures
            r.deep_view() == self.deep_view(),
    {
        PlanTask {
            id: self.id,
            text: self.text.clone(),
            status: self.status,
            activity: match &self.activity {
                Some(a) => Some(a.clone()),
                None => None,
            },
            started_at: self.started_at,
            completed_at: self.completed_at,
        }
    }
}

/// A change of the board, as subscribers are told of it.
#[derive(Debug, Clone)]
pub enum PlanEvent {
    PlanCreated { tasks: Vec<PlanTask> },
    TaskUpdate {
        id: usize,
        status: TaskStatus,
        activity: Option<String>,
        started_at: Option<i64>,
        completed_at: Option<i64>,
    },
    BoardReset,
    UsageUpdate { prompt_tokens: u64, completion_tokens: u64 },
}

/// View of an event.
pub enum PlanEventV {
    PlanCreated { tasks: Seq<PlanTaskV> },
    TaskUpdate {
        id: nat,
        status: TaskStatus,
        activity: Option<Seq<char>>,
        started_at: Option<i64>,
        completed_at: Option<i64>,
    },
    BoardReset,
    UsageUpdate { prompt_tokens: nat, completion_tokens: nat },
}

impl DeepView for PlanEvent {
    type V = PlanEventV;

    open spec fn deep_view(&self) -> PlanEventV {
        match self {
            PlanEvent::PlanCreated { tasks } => PlanEventV::PlanCreated { tasks: tasks.deep_view() },
            PlanEvent::TaskUpdate { id, status, activity, started_at, completed_at } =>
                PlanEventV::TaskUpdate {
                id: *id as nat,
                status: *status,
                activity: activity.deep_view(),
                started_at: *started_at,
                completed_at: *completed_at,
            },
            PlanEvent::BoardReset => PlanEventV::BoardReset,
            PlanEvent::UsageUpdate { prompt_tokens, completion_tokens } =>
                PlanEventV::UsageUpdate {
                prompt_tokens: *prompt_tokens as nat,
                completion_tokens: *completion_tokens as nat,
            },
        }
    }
}

/// View of a board.
pub struct BoardV {
    pub tasks: Seq<PlanTaskV>,
    pub current: Option<nat>,
    pub prompt_tokens: nat,
    pub completion_tokens: nat,
}

/// The plan of the current request with the progress of its tasks, and the
/// token usage of the session.  The methods return the events that
/// subscribers are to be told of.
pub struct PlanBoard {
    tasks: Vec<PlanTask>,
    current_step: Option<usize>,
    prompt_tokens: u64,
    completion_tokens: u64,
}

impl View for PlanBoard {
    type V = BoardV;

    closed spec fn view(&self) -> BoardV {
        BoardV {
            tasks: self.tasks.deep_view(),
            current: match self.current_step {
                Some(c) => Some(c as nat),
                None => None,
            },
            prompt_tokens: self.prompt_tokens as nat,
            completion_tokens: self.completion_tokens as nat,
        }
    }
}

/// A task's timestamps agree with its status: a planned task has none, a
/// task in progress has a start, a finished task has a start and an end.
pub open spec fn times_agree(t: PlanTaskV) -> bool {
    match t.status {
        TaskStatus::Planned => t.started_at is None && t.completed_at is None,
        TaskStatus::InProgress => t.started_at is Some && t.completed_at is None,
        TaskStatus::Done => t.started_at is Some && t.completed_at is Some,
    }
}

/// The board's invariant: task `i` has id `i` and timestamps that agree
/// with its status, and the one task in progress, if any, is the current
/// step.
pub open spec fn board_wf(b: BoardV) -> bool {
    &&& forall|i: int| 0 <= i < b.tasks.len() ==> (#[trigger] b.tasks[i]).id == i
    &&& forall|i: int| 0 <= i < b.tasks.len() ==> times_agree(#[trigger] b.tasks[i])
    &&& forall|i: int|
        0 <= i < b.tasks.len() ==> ((#[trigger] b.tasks[i]).status == TaskStatus::InProgress
            <==> b.current == Some(i as nat))
    &&& b.current matches Some(c) ==> c < b.tasks.len()
}
/// Position of the first planned task.
pub open spec fn first_planned(ts: Seq<PlanTaskV>) -> Option<nat>
    decreases ts.len(),
{
    if ts.len() == 0 {
        None
    } else {
        match first_planned(ts.drop_last()) {
            Some(i) => Some(i),
            None => if ts.last().status == TaskStatus::Planned {
                Some((ts.len() - 1) as nat)
            } else {
                None
            },
        }
    }
}

/// The tasks of a new plan: task `i` has text `texts[i]`, is planned, and
/// has no activity or timestamps.
pub open spec fn planned_tasks(texts: Seq<Seq<char>>) -> Seq<PlanTaskV> {
    Seq::new(
        texts.len(),
        |i: int|
            PlanTaskV {
                id: i as nat,
                text: texts[i],
                status: TaskStatus::Planned,
                activity: None,
                started_at: None,
                completed_at: None,
            },
    )
}

/// Task `t` finished at `now`.
pub open spec fn finished(t: PlanTaskV, now: i64) -> PlanTaskV {
    PlanTaskV { status: TaskStatus::Done, completed_at: Some(now), activity: None, ..t }
}

/// Task `t` started at `now`.
pub open spec fn started(t: PlanTaskV, now: i64) -> PlanTaskV {
    PlanTaskV { status: TaskStatus::InProgress, started_at: Some(now), ..t }
}

/// The tasks once the current step, if any, is finished at `now`.
pub open spec fn finish_current(b: BoardV, now: i64) -> Seq<PlanTaskV> {
    match b.current {
        Some(c) => b.tasks.update(c as int, finished(b.tasks[c as int], now)),
        None => b.tasks,
    }
}

/// The board after `advance` at `now`: the current step is finished and
/// the first planned task, if any, starts and becomes the current step.
pub open spec fn advanced(b: BoardV, now: i64) -> BoardV {
    let ts = finish_current(b, now);
    match first_planned(ts) {
        Some(n) => BoardV {
            tasks: ts.update(n as int, started(ts[n as int], now)),
            current: Some(n),
            ..b
        },
        None => BoardV { tasks: ts, current: None, ..b },
    }
}

/// The events of `advance` at `now`: the finished step, then the started one.
pub open spec fn advance_events(b: BoardV, now: i64) -> Seq<PlanEventV> {
    let ts = finish_current(b, now);
    let done = match b.current {
        Some(c) => seq![
            PlanEventV::TaskUpdate {
                id: c,
                status: TaskStatus::Done,
                activity: None,
                started_at: b.tasks[c as int].started_at,
                completed_at: Some(now),
            },
        ],
        None => seq![],
    };
    let start = match first_planned(ts) {
        Some(n) => seq![
            PlanEventV::TaskUpdate {
                id: n,
                status: TaskStatus::InProgress,
                activity: None,
                started_at: Some(now),
                completed_at: None,
            },
        ],
        None => seq![],
    };
    done + start
}

proof fn lemma_first_planned(ts: Seq<PlanTaskV>)
    ensures
        match first_planned(ts) {
            Some(n) => n < ts.len() && ts[n as int].status == TaskStatus::Planned && forall|j: int|
                0 <= j < n ==> (#[trigger] ts[j]).status != TaskStatus::Planned,
            None => forall|j: int| 0 <= j < ts.len() ==> (#[trigger] ts[j]).status != TaskStatus::Planned,
        },
    decreases ts.len(),
{
    if ts.len() > 0 {
        lemma_first_planned(ts.drop_last());
        assert forall|j: int| 0 <= j < ts.len() - 1 implies ts.drop_last()[j] == #[trigger] ts[j] by {}
    }
}

/// The position of the first planned task of `tasks`.
fn find_planned(tasks: &Vec<PlanTask>) -> (r: Option<usize>)
    ensures
        match r {
            Some(n) => first_planned(tasks.deep_view()) == Some(n as nat) && n < tasks@.len(),
            None => first_planned(tasks.deep_view()) is None,
        },
{
    let n = tasks.len();
    let mut i: usize = 0;
    proof {
        lemma_first_planned(tasks.deep_view());
    }
    while i < n
        invariant
            n == tasks@.len(),
            i <= n,
            forall|j: int| 0 <= j < i ==> (#[trigger] tasks.deep_view()[j]).status != TaskStatus::Planned,
            match first_planned(tasks.deep_view()) {
                Some(k) => k < n && tasks.deep_view()[k as int].status == TaskStatus::Planned
                    && forall|j: int| 0 <= j < k ==> (#[trigger] tasks.deep_view()[j]).status != TaskStatus::Planned,
                None => forall|j: int| 0 <= j < n ==> (#[trigger] tasks.deep_view()[j]).status != TaskStatus::Planned,
            },
        decreases n - i,
    {
        assert(tasks.deep_view()[i as int] == tasks[i as int].deep_view());
        if tasks[i].status == TaskStatus::Planned {
            return Some(i);
        }
        i = i + 1;
    }
    None
}

impl PlanBoard {
    /// The board's invariant (`board_wf` of its view).
    pub closed spec fn wf(&self) -> bool {
        board_wf(self@)
    }

    /// An empty board with no usage counted.
    pub fn new() -> (b: PlanBoard)
        ensures
            b.wf(),
            b@ == (BoardV { tasks: seq![], current: None, prompt_tokens: 0, completion_tokens: 0 }),
    {
        let b = PlanBoard {
            tasks: Vec::new(),
            current_step: None,
            prompt_tokens: 0,
            completion_tokens: 0,
        };
        assert(b@.tasks =~= seq![]);
        b
    }

    /// A copy of the tasks.
    pub fn snapshot(&self) -> (r: Vec<PlanTask>)
        ensures
            r.deep_view() == self@.tasks,
    {
        let n = self.tasks.len();
        let mut r: Vec<PlanTask> = Vec::new();
        let mut i: usize = 0;
        while i < n
            invariant
                n == self.tasks@.len(),
                i <= n,
                r.deep_view() =~= self.tasks.deep_view().take(i as int),
            decreases n - i,
        {
            let ghost before = r.deep_view();
            let t = self.tasks[i].duplicate();
            r.push(t);
            assert(r.deep_view() =~= before.push(t.deep_view()));
            i = i + 1;
        }
        assert(self.tasks.deep_view().take(n as int) =~= self.tasks.deep_view());
        r
    }

    /// Replaces the plan: one planned task per text, no current step.
    pub fn set_plan(&mut self, texts: Vec<String>) -> (ev: PlanEvent)
        ensures
            final(self).wf(),
            final(self)@ == (BoardV { tasks: planned_tasks(texts.deep_view()), current: None, ..old(self)@ }),
            ev.deep_view() == (PlanEventV::PlanCreated { tasks: planned_tasks(texts.deep_view()) }),
    {
        let n = texts.len();
        let mut tasks: Vec<PlanTask> = Vec::new();
        let mut i: usize = 0;
        while i < n
            invariant
                n == texts@.len(),
                i <= n,
                tasks.deep_view() =~= planned_tasks(texts.deep_view()).take(i as int),
            decreases n - i,
        {
            let ghost before = tasks.deep_view();
            let t = PlanTask {
                id: i,
                text: texts[i].clone(),
                status: TaskStatus::Planned,
                activity: None,
                started_at: None,
                completed_at: None,
            };
            tasks.push(t);
            assert(tasks.deep_view() =~= before.push(t.deep_view()));
            i = i + 1;
        }
        assert(planned_tasks(texts.deep_view()).take(n as int) =~= planned_tasks(texts.deep_view()));
        self.tasks = tasks;
        self.current_step = None;
        PlanEvent::PlanCreated { tasks: self.snapshot() }
    }

    /// Finishes the current step at `now` and starts the first planned task.
    pub fn advance(&mut self, now: i64) -> (evs: Vec<PlanEvent>)
        requires
            old(self).wf(),
        ensures
            final(self).wf(),
            final(self)@ == advanced(old(self)@, now),
            evs.deep_view() == advance_events(old(self)@, now),
    {
        let ghost b0 = self@;
        let mut evs: Vec<PlanEvent> = Vec::new();
        if let Some(cur) = self.current_step {
            let mut t = self.tasks[cur].duplicate();
            t.status = TaskStatus::Done;
            t.completed_at = Some(now);
            t.activity = None;
            let ev = PlanEvent::TaskUpdate {
                id: cur,
                status: TaskStatus::Done,
                activity: None,
                started_at: t.started_at,
                completed_at: t.completed_at,
            };
            evs.push(ev);
            let ghost before = self.tasks.deep_view();
            self.tasks.set(cur, t);
            assert(self.tasks.deep_view() =~= before.update(cur as int, t.deep_view()));
        }
        assert(self.tasks.deep_view() == finish_current(b0, now));
        let ghost mid = evs.deep_view();
        match find_planned(&self.tasks) {
            Some(next) => {
                let mut t = self.tasks[next].duplicate();
                t.status = TaskStatus::InProgress;
                t.started_at = Some(now);
                let ghost before = self.tasks.deep_view();
                self.tasks.set(next, t);
                assert(self.tasks.deep_view() =~= before.update(next as int, t.deep_view()));
                self.current_step = Some(next);
                let ev = PlanEvent::TaskUpdate {
                    id: next,
                    status: TaskStatus::InProgress,
                    activity: None,
                    started_at: Some(now),
                    completed_at: None,
                };
                evs.push(ev);
                assert(evs.deep_view() =~= mid.push(ev.deep_view()));
            },
            None => {
                self.current_step = None;
            },
        }
        assert(evs.deep_view() =~= advance_events(b0, now));
        proof {
            lemma_advance_wf(b0, now);
        }
        evs
    }

}

/// The board after `update_activity(a)`: the current step, if any,
/// carries the activity `a`.
pub open spec fn with_activity(b: BoardV, a: Seq<char>) -> BoardV {
    match b.current {
        Some(c) => BoardV {
            tasks: b.tasks.update(c as int, PlanTaskV { activity: Some(a), ..b.tasks[c as int] }),
            ..b
        },
        None => b,
    }
}

/// The board after `complete_current` at `now`: the current step, if any,
/// is finished and there is no current step.
pub open spec fn completed(b: BoardV, now: i64) -> BoardV {
    BoardV { tasks: finish_current(b, now), current: None, ..b }
}

impl PlanBoard {
    /// Records what the current step is doing.
    pub fn update_activity(&mut self, activity: &str) -> (ev: Option<PlanEvent>)
        requires
            old(self).wf(),
        ensures
            final(self).wf(),
            final(self)@ == with_activity(old(self)@, activity@),
            match old(self)@.current {
                Some(c) => ev matches Some(e) && e.deep_view() == (PlanEventV::TaskUpdate {
                    id: c,
                    status: TaskStatus::InProgress,
                    activity: Some(activity@),
                    started_at: old(self)@.tasks[c as int].started_at,
                    completed_at: None,
                }),
                None => ev is None,
            },
    {
        match self.current_step {
            Some(cur) => {
                let mut t = self.tasks[cur].duplicate();
                t.activity = Some(String::from_str(activity));
                let ev = PlanEvent::TaskUpdate {
                    id: cur,
                    status: TaskStatus::InProgress,
                    activity: Some(String::from_str(activity)),
                    started_at: t.started_at,
                    completed_at: None,
                };
                let ghost before = self.tasks.deep_view();
                self.tasks.set(cur, t);
                assert(self.tasks.deep_view() =~= before.update(cur as int, t.deep_view()));
                Some(ev)
            },
            None => None,
        }
    }

    /// Finishes the current step at `now`, leaving no current step.
    pub fn complete_current(&mut self, now: i64) -> (ev: Option<PlanEvent>)
        requires
            old(self).wf(),
        ensures
            final(self).wf(),
            final(self)@ == completed(old(self)@, now),
            match old(self)@.current {
                Some(c) => ev matches Some(e) && e.deep_view() == (PlanEventV::TaskUpdate {
                    id: c,
                    status: TaskStatus::Done,
                    activity: None,
                    started_at: old(self)@.tasks[c as int].started_at,
                    completed_at: Some(now),
                }),
                None => ev is None,
            },
    {
        match self.current_step {
            Some(cur) => {
                let mut t = self.tasks[cur].duplicate();
                t.status = TaskStatus::Done;
                t.completed_at = Some(now);
                t.activity = None;
                let ev = PlanEvent::TaskUpdate {
                    id: cur,
                    status: TaskStatus::Done,
                    activity: None,
                    started_at: t.started_at,
                    completed_at: t.completed_at,
                };
                let ghost before = self.tasks.deep_view();
                self.tasks.set(cur, t);
                assert(self.tasks.deep_view() =~= before.update(cur as int, t.deep_view()));
                self.current_step = None;
                Some(ev)
            },
            None => None,
        }
    }

    /// Adds to the session's token counts.
    pub fn update_usage(&mut self, prompt: u64, completion: u64) -> (ev: PlanEvent)
        requires
            old(self)@.prompt_tokens + prompt <= u64::MAX,
            old(self)@.completion_tokens + completion <= u64::MAX,
        ensures
            final(self)@ == (BoardV {
                prompt_tokens: old(self)@.prompt_tokens + prompt as nat,
                completion_tokens: old(self)@.completion_tokens + completion as nat,
                ..old(self)@
            }),
            ev.deep_view() == (PlanEventV::UsageUpdate {
                prompt_tokens: final(self)@.prompt_tokens,
                completion_tokens: final(self)@.completion_tokens,
            }),
            old(self).wf() ==> final(self).wf(),
    {
        self.prompt_tokens = self.prompt_tokens + prompt;
        self.completion_tokens = self.completion_tokens + completion;
        PlanEvent::UsageUpdate {
            prompt_tokens: self.prompt_tokens,
            completion_tokens: self.completion_tokens,
        }
    }

    /// The session's token counts: `(prompt, completion)`.
    pub fn usage(&self) -> (r: (u64, u64))
        ensures
            r.0 == self@.prompt_tokens,
            r.1 == self@.completion_tokens,
    {
        (self.prompt_tokens, self.completion_tokens)
    }

    /// Clears the plan; the token counts are kept.
    pub fn reset(&mut self) -> (ev: PlanEvent)
        ensures
            final(self).wf(),
            final(self)@ == (BoardV { tasks: seq![], current: None, ..old(self)@ }),
            ev.deep_view() == PlanEventV::BoardReset,
    {
        self.tasks.clear();
        self.current_step = None;
        assert(self@.tasks =~= seq![]);
        PlanEvent::BoardReset
    }
}

/// Finishing the current step keeps the board's invariant.
pub proof fn lemma_completed_wf(b: BoardV, now: i64)
    requires
        board_wf(b),
    ensures
        board_wf(completed(b, now)),
{
    let ts = finish_current(b, now);
    assert forall|i: int| 0 <= i < ts.len() implies (#[trigger] ts[i]).status != TaskStatus::InProgress by {
        assert(b.tasks[i].status == TaskStatus::InProgress <==> b.current == Some(i as nat));
    }
    assert forall|i: int| 0 <= i < ts.len() implies times_agree(#[trigger] ts[i]) && ts[i].id == i by {
        assert(times_agree(b.tasks[i]));
    }
}

/// `advance` keeps the board's invariant.
pub proof fn lemma_advance_wf(b: BoardV, now: i64)
    requires
        board_wf(b),
    ensures
        board_wf(advanced(b, now)),
{
    let ts = finish_current(b, now);
    lemma_first_planned(ts);
    assert forall|i: int| 0 <= i < ts.len() implies (#[trigger] ts[i]).status != TaskStatus::InProgress by {
        assert(b.tasks[i].status == TaskStatus::InProgress <==> b.current == Some(i as nat));
    }
    assert forall|i: int| 0 <= i < ts.len() implies times_agree(#[trigger] ts[i]) && ts[i].id == i by {
        assert(times_agree(b.tasks[i]));
    }
}


/// The place of a status in the order a task goes through.
pub open spec fn status_rank(s: TaskStatus) -> nat {
    match s {
        TaskStatus::Planned => 0,
        TaskStatus::InProgress => 1,
        TaskStatus::Done => 2,
    }
}

/// `after` keeps the tasks of `before` and only moves them forward: ids and
/// texts are kept, no status goes back, a start time once set stays, and a
/// finished task is left exactly as it was.
pub open spec fn moves_forward(before: Seq<PlanTaskV>, after: Seq<PlanTaskV>) -> bool {
    &&& after.len() == before.len()
    &&& forall|i: int|
        0 <= i < before.len() ==> {
            &&& (#[trigger] after[i]).id == before[i].id
            &&& after[i].text == before[i].text
            &&& status_rank(before[i].status) <= status_rank(after[i].status)
            &&& (before[i].started_at is Some ==> after[i].started_at == before[i].started_at)
            &&& (before[i].status == TaskStatus::Done ==> after[i] == before[i])
        }
}

/// Every finished task ended no earlier than it started.
pub open spec fn ends_after_start(ts: Seq<PlanTaskV>) -> bool {
    forall|i: int|
        0 <= i < ts.len() ==> match ((#[trigger] ts[i]).started_at, ts[i].completed_at) {
            (Some(s), Some(e)) => s <= e,
            _ => true,
        }
}

/// No task started later than `now`.
pub open spec fn started_by(ts: Seq<PlanTaskV>, now: i64) -> bool {
    forall|i: int|
        0 <= i < ts.len() ==> match (#[trigger] ts[i]).started_at {
            Some(s) => s <= now,
            None => true,
        }
}

/// A board has at most one task in progress.
pub proof fn lemma_one_in_progress(b: BoardV, i: int, j: int)
    requires
        board_wf(b),
        0 <= i < b.tasks.len(),
        0 <= j < b.tasks.len(),
        b.tasks[i].status == TaskStatus::InProgress,
        b.tasks[j].status == TaskStatus::InProgress,
    ensures
        i == j,
{
    assert(b.current == Some(i as nat));
    assert(b.current == Some(j as nat));
}

/// Advancing, finishing the current step and recording an activity only
/// move the tasks forward: a status never goes back, and a finished task is
/// never touched again.
pub proof fn lemma_board_moves_forward(b: BoardV, now: i64, activity: Seq<char>)
    requires
        board_wf(b),
    ensures
        moves_forward(b.tasks, advanced(b, now).tasks),
        moves_forward(b.tasks, completed(b, now).tasks),
        moves_forward(b.tasks, with_activity(b, activity).tasks),
{
    let ts = finish_current(b, now);
    lemma_first_planned(ts);
    assert forall|i: int| 0 <= i < b.tasks.len() implies #[trigger] ts[i] == b.tasks[i] || (
    b.current == Some(i as nat) && ts[i] == finished(b.tasks[i], now)) by {
        assert(b.tasks[i].status == TaskStatus::InProgress <==> b.current == Some(i as nat));
    }
    assert(moves_forward(b.tasks, ts));
    match first_planned(ts) {
        Some(n) => {
            let a = ts.update(n as int, started(ts[n as int], now));
            assert forall|i: int| 0 <= i < b.tasks.len() implies #[trigger] a[i] == ts[i] || (i
                == n && b.tasks[i].status == TaskStatus::Planned) by {
                if i == n && b.current == Some(i as nat) {
                    assert(ts[i].status == TaskStatus::Done);
                }
            }
            assert(moves_forward(b.tasks, a));
        },
        None => {},
    }
    if let Some(c) = b.current {
        assert(b.tasks[c as int].status == TaskStatus::InProgress);
    }
}

/// With a clock that never runs backward, every finished task ends no
/// earlier than it started: advancing or finishing the current step at a
/// time no earlier than any start keeps that so.
pub proof fn lemma_board_times(b: BoardV, now: i64)
    requires
        board_wf(b),
        ends_after_start(b.tasks),
        started_by(b.tasks, now),
    ensures
        ends_after_start(advanced(b, now).tasks),
        started_by(advanced(b, now).tasks, now),
        ends_after_start(completed(b, now).tasks),
        started_by(completed(b, now).tasks, now),
{
    let ts = finish_current(b, now);
    lemma_first_planned(ts);
    assert forall|i: int| 0 <= i < ts.len() implies match ((#[trigger] ts[i]).started_at, ts[i].completed_at) {
        (Some(s), Some(e)) => s <= e,
        _ => true,
    } by {
        assert(b.tasks[i].started_at matches Some(s) ==> s <= now);
    }
    assert(started_by(ts, now)) by {
        assert forall|i: int| 0 <= i < ts.len() implies match (#[trigger] ts[i]).started_at {
            Some(s) => s <= now,
            None => true,
        } by {
            assert(b.tasks[i].started_at matches Some(s) ==> s <= now);
        }
    }
    match first_planned(ts) {
        Some(n) => {
            let a = ts.update(n as int, started(ts[n as int], now));
            assert forall|i: int| 0 <= i < a.len() implies match ((#[trigger] a[i]).started_at, a[i].completed_at) {
                (Some(s), Some(e)) => s <= e,
                _ => true,
            } by {
                if i == n {
                    assert(times_agree(b.tasks[i]));
                    assert(b.tasks[i].status == TaskStatus::InProgress <==> b.current == Some(i as nat));
                    assert(ts[i].completed_at is None);
                } else {
                    assert(a[i] == ts[i]);
                }
            }
            assert forall|i: int| 0 <= i < a.len() implies match (#[trigger] a[i]).started_at {
                Some(s) => s <= now,
                None => true,
            } by {
                if i != n {
                    assert(a[i] == ts[i]);
                }
            }
        },
        None => {},
    }
}

// ---------------------------------------------------------------------------
// History
// ---------------------------------------------------------------------------

/// The file, in the working directory, that keeps the history of plans.
pub const TASKS_FILE: &'static str = "TASKS.md";

/// The text a new history file starts with.
pub const TASKS_HEADER: &'static str =
    "# Tasks\n\n<!-- strap-in automatically appends the plan and completion state here -->\n";

/// Integer division rounding toward zero, as Rust's `/` does.
pub open spec fn trunc_div(a: int, b: int) -> int {
    if a >= 0 {
        a / b
    } else {
        -((-a) / b)
    }
}

/// `[x]` for a finished task, `[ ]` otherwise.
pub open spec fn task_mark(t: PlanTaskV) -> Seq<char> {
    if t.status == TaskStatus::Done {
        "[x]"@
    } else {
        "[ ]"@
    }
}

/// How long a task took, when it has both timestamps: whole seconds
/// (rounded toward zero), written `_MmSs_` from a minute on and `_Ss_`
/// below.
pub open spec fn duration_note(t: PlanTaskV) -> Seq<char> {
    match (t.started_at, t.completed_at) {
        (Some(start), Some(end)) => {
            let secs = trunc_div(end - start, 1000);
            if secs >= 60 {
                " _"@ + dec_int(secs / 60) + "m"@ + dec_int(secs % 60) + "s_"@
            } else {
                " _"@ + dec_int(secs) + "s_"@
            }
        },
        _ => seq![],
    }
}

/// The history line of one task.
pub open spec fn task_line(t: PlanTaskV) -> Seq<char> {
    "- "@ + task_mark(t) + " "@ + t.text + (if t.status == TaskStatus::InProgress {
        " _(in progress)_"@
    } else {
        seq![]
    }) + duration_note(t) + "\n"@
}

/// The history lines of the tasks, in plan order.
pub open spec fn task_lines(ts: Seq<PlanTaskV>) -> Seq<char>
    decreases ts.len(),
{
    if ts.len() == 0 {
        seq![]
    } else {
        task_lines(ts.drop_last()) + task_line(ts.last())
    }
}

/// Number of finished tasks.
pub open spec fn done_count(ts: Seq<PlanTaskV>) -> nat
    decreases ts.len(),
{
    if ts.len() == 0 {
        0
    } else {
        done_count(ts.drop_last()) + if ts.last().status == TaskStatus::Done {
            1nat
        } else {
            0nat
        }
    }
}

/// The history entry for the tasks `ts` of a request, stamped `stamp`.
pub open spec fn history_entry(ts: Seq<PlanTaskV>, stamp: Seq<char>, request: Seq<char>) -> Seq<char> {
    "\n## "@ + stamp + " — "@ + dec(done_count(ts)) + "/"@ + dec(ts.len()) + " complete"@
        + "\n\n**Request:** "@ + trim(flatten_newlines(request)) + "\n\n"@ + task_lines(ts)
        + "\n---\n"@
}

/// The duration of each task with both timestamps fits in an `i64`.
pub open spec fn durations_fit(ts: Seq<PlanTaskV>) -> bool {
    forall|i: int|
        0 <= i < ts.len() ==> match ((#[trigger] ts[i]).started_at, ts[i].completed_at) {
            (Some(start), Some(end)) => i64::MIN <= end - start <= i64::MAX,
            _ => true,
        }
}

/// Appends the duration note of `t`.
fn push_duration(out: &mut String, t: &PlanTask)
    requires
        match (t.started_at, t.completed_at) {
            (Some(start), Some(end)) => i64::MIN <= end - start <= i64::MAX,
            _ => true,
        },
    ensures
        final(out)@ == old(out)@ + duration_note(t.deep_view()),
{
    match (t.started_at, t.completed_at) {
        (Some(start), Some(end)) => {
            let d: i128 = (end as i128) - (start as i128);
            let secs: i128 = if d >= 0 {
                d / 1000
            } else {
                -((-d) / 1000)
            };
            assert(secs == trunc_div(end - start, 1000));
            if secs >= 60 {
                push_str(out, " _");
                push_dec_i64(out, (secs / 60) as i64);
                push_str(out, "m");
                push_dec_i64(out, (secs % 60) as i64);
                push_str(out, "s_");
            } else {
                push_str(out, " _");
                push_dec_i64(out, secs as i64);
                push_str(out, "s_");
            }
        },
        _ => {},
    }
}

/// The history entry for `tasks` and `request`, stamped `stamp`.
pub fn history_entry_at(tasks: &Vec<PlanTask>, stamp: &str, request: &str) -> (r: String)
    requires
        durations_fit(tasks.deep_view()),
    ensures
        r@ == history_entry(tasks.deep_view(), stamp@, request@),
{
    let ghost ts = tasks.deep_view();
    let n = tasks.len();
    let mut done: usize = 0;
    let mut lines_text = String::new();
    let mut i: usize = 0;
    while i < n
        invariant
            n == tasks@.len(),
            ts == tasks.deep_view(),
            durations_fit(ts),
            i <= n,
            done <= i,
            done == done_count(ts.take(i as int)),
            lines_text@ == task_lines(ts.take(i as int)),
        decreases n - i,
    {
        let ghost cur = ts.take(i + 1);
        assert(cur.drop_last() == ts.take(i as int));
        assert(cur.last() == tasks[i as int].deep_view());
        let t = &tasks[i];
        assert(ts[i as int] == t.deep_view());
        if t.status == TaskStatus::Done {
            done = done + 1;
        }
        push_str(&mut lines_text, "- ");
        if t.status == TaskStatus::Done {
            push_str(&mut lines_text, "[x]");
        } else {
            push_str(&mut lines_text, "[ ]");
        }
        push_str(&mut lines_text, " ");
        push_str(&mut lines_text, t.text.as_str());
        if t.status == TaskStatus::InProgress {
            push_str(&mut lines_text, " _(in progress)_");
        }
        push_duration(&mut lines_text, t);
        push_str(&mut lines_text, "\n");
        assert(lines_text@ =~= task_lines(ts.take(i as int)) + task_line(t.deep_view()));
        i = i + 1;
    }
    assert(ts.take(n as int) == ts);
    let mut r = String::new();
    push_str(&mut r, "\n## ");
    push_str(&mut r, stamp);
    push_str(&mut r, " — ");
    push_dec(&mut r, done as u64);
    push_str(&mut r, "/");
    push_dec(&mut r, n as u64);
    push_str(&mut r, " complete");
    push_str(&mut r, "\n\n**Request:** ");
    let mut flat = String::new();
    let req = chars_of(request);
    push_flattened(&mut flat, req.as_slice());
    let flat_cs = chars_of(flat.as_str());
    let trimmed = trim_slice(flat_cs.as_slice());
    let trimmed_s = string_of(trimmed);
    push_str(&mut r, trimmed_s.as_str());
    push_str(&mut r, "\n\n");
    push_str(&mut r, lines_text.as_str());
    push_str(&mut r, "\n---\n");
    assert(r@ =~= history_entry(ts, stamp@, request@));
    r
}

/// What to append to the history file for `tasks` and `request`, stamped
/// `stamp`: nothing for an empty plan; otherwise the entry, after the
/// header when the file does not exist yet (the decisions of
/// `write_history`, whose clock and file access stay with the caller).
pub fn history_text(
    tasks: &Vec<PlanTask>,
    stamp: &str,
    request: &str,
    file_exists: bool,
) -> (r: Option<String>)
    requires
        durations_fit(tasks.deep_view()),
    ensures
        tasks@.len() == 0 ==> r is None,
        tasks@.len() > 0 ==> (r matches Some(t) && t@ == (if file_exists {
            seq![]
        } else {
            TASKS_HEADER@
        }) + history_entry(tasks.deep_view(), stamp@, request@)),
{
    if tasks.len() == 0 {
        return None;
    }
    let entry = history_entry_at(tasks, stamp, request);
    let mut t = String::new();
    if !file_exists {
        push_str(&mut t, TASKS_HEADER);
    }
    push_str(&mut t, entry.as_str());
    assert(t@ =~= (if file_exists {
        seq![]
    } else {
        TASKS_HEADER@
    }) + history_entry(tasks.deep_view(), stamp@, request@));
    Some(t)
}

} // verus!

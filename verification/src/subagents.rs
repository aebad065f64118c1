//! The registry of sub-agents: their tasks, progress, usage and results.

use vstd::prelude::*;
use crate::text::{dec, digit, push_dec, same_text};

verus! {

broadcast use vstd::string::group_string_axioms;

/// Where a sub-agent stands.
#[derive(Debug, Clone, Copy, PartialEq, Eq, Structural)]
pub enum SubagentStatus {
    Running,
    Completed,
    Failed,
}

/// One sub-agent.
#[derive(Debug, Clone)]
pub struct Subagent {
    pub id: String,
    pub task: String,
    pub status: SubagentStatus,
    pub activity: Option<String>,
    pub prompt_tokens: u64,
    pub completion_tokens: u64,
    pub started_at: i64,
    pub completed_at: Option<i64>,
    pub result: Option<String>,
}

/// View of a sub-agent.
pub struct SubagentV {
    pub id: Seq<char>,
    pub task: Seq<char>,
    pub status: SubagentStatus,
    pub activity: Option<Seq<char>>,
    pub prompt_tokens: u64,
    pub completion_tokens: u64,
    pub started_at: i64,
    pub completed_at: Option<i64>,
    pub result: Option<Seq<char>>,
}

impl DeepView for Subagent {
    type V = SubagentV;

    open spec fn deep_view(&self) -> SubagentV {
        SubagentV {
            id: self.id@,
            task: self.task@,
            status: self.status,
            activity: self.activity.deep_view(),
            prompt_tokens: self.prompt_tokens,
            completion_tokens: self.completion_tokens,
            started_at: self.started_at,
            completed_at: self.completed_at,
            result: self.result.deep_view(),
        }
    }
}

fn copy_text(t: &Option<String>) -> (r: Option<String>)
    ensures
        r.deep_view() == t.deep_view(),
{
    match t {
        Some(s) => Some(s.clone()),
        None => None,
    }
}

impl Subagent {
    /// A field-by-field copy.
    pub fn duplicate(&self) -> (r: Subagent)
        ensures
            r.deep_view() == self.deep_view(),
    {
        Subagent {
            id: self.id.clone(),
            task: self.task.clone(),
            status: self.status,
            activity: copy_text(&self.activity),
            prompt_tokens: self.prompt_tokens,
            completion_tokens: self.completion_tokens,
            started_at: self.started_at,
            completed_at: self.completed_at,
            result: copy_text(&self.result),
        }
    }
}

/// A change to the registry, as subscribers are told of it.
#[derive(Debug, Clone)]
pub enum SubagentEvent {
    Created(Subagent),
    Updated(Subagent),
}

/// The id of the `n`-th sub-agent registered (counting from 1).
pub open spec fn subagent_id(n: nat) -> Seq<char> {
    "sub-"@ + dec(n)
}

/// A sub-agent just registered for `task` at `now` under `id`: running, with
/// no activity, usage, end or result yet.
pub open spec fn registered(id: Seq<char>, task: Seq<char>, now: i64) -> SubagentV {
    SubagentV {
        id,
        task,
        status: SubagentStatus::Running,
        activity: None,
        prompt_tokens: 0,
        completion_tokens: 0,
        started_at: now,
        completed_at: None,
        result: None,
    }
}

/// View of the registry.
pub struct RegistryV {
    pub agents: Seq<SubagentV>,
    pub counter: nat,
}

/// The sub-agents registered so far.  The methods return the events that
/// subscribers are to be told of.
pub struct SubagentRegistry {
    agents: Vec<Subagent>,
    counter: u64,
}

impl View for SubagentRegistry {
    type V = RegistryV;

    closed spec fn view(&self) -> RegistryV {
        RegistryV { agents: self.agents.deep_view(), counter: self.counter as nat }
    }
}

/// The registry's invariant: the `i`-th agent has the id `sub-(i+1)` and
/// the counter is the number of agents.
pub open spec fn registry_wf(r: RegistryV) -> bool {
    &&& r.counter == r.agents.len()
    &&& forall|i: int| 0 <= i < r.agents.len() ==> (#[trigger] r.agents[i]).id == subagent_id(
        (i + 1) as nat,
    )
}

/// Position of the first agent with id `id`.
pub open spec fn position_of(agents: Seq<SubagentV>, id: Seq<char>) -> Option<nat>
    decreases agents.len(),
{
    if agents.len() == 0 {
        None
    } else {
        match position_of(agents.drop_last(), id) {
            Some(i) => Some(i),
            None => if agents.last().id == id {
                Some((agents.len() - 1) as nat)
            } else {
                None
            },
        }
    }
}

/// The agents with the agent `id`, if present, changed by `f`.
pub open spec fn update_agent(
    agents: Seq<SubagentV>,
    id: Seq<char>,
    f: spec_fn(SubagentV) -> SubagentV,
) -> Seq<SubagentV> {
    match position_of(agents, id) {
        Some(i) => agents.update(i as int, f(agents[i as int])),
        None => agents,
    }
}

/// The agents once the agent `id`, if present, has ended at `now` with
/// `status` and `result`, its activity cleared.
pub open spec fn completed_agents(
    agents: Seq<SubagentV>,
    id: Seq<char>,
    status: SubagentStatus,
    result: Option<Seq<char>>,
    now: i64,
) -> Seq<SubagentV> {
    update_agent(
        agents,
        id,
        |a: SubagentV|
            SubagentV { status: status, completed_at: Some(now), result: result, activity: None, ..a },
    )
}

proof fn lemma_position_of(agents: Seq<SubagentV>, id: Seq<char>)
    ensures
        match position_of(agents, id) {
            Some(i) => i < agents.len() && agents[i as int].id == id && forall|j: int|
                0 <= j < i ==> (#[trigger] agents[j]).id != id,
            None => forall|j: int| 0 <= j < agents.len() ==> (#[trigger] agents[j]).id != id,
        },
    decreases agents.len(),
{
    if agents.len() > 0 {
        lemma_position_of(agents.drop_last(), id);
        assert forall|j: int| 0 <= j < agents.len() - 1 implies agents.drop_last()[j]
            == #[trigger] agents[j] by {}
    }
}

impl SubagentRegistry {
    /// The registry's invariant (`registry_wf` of its view).
    pub closed spec fn wf(&self) -> bool {
        registry_wf(self@)
    }

    /// An empty registry.
    pub fn new() -> (r: SubagentRegistry)
        ensures
            r.wf(),
            r@ == (RegistryV { agents: seq![], counter: 0 }),
    {
        let r = SubagentRegistry { agents: Vec::new(), counter: 0 };
        assert(r@.agents =~= seq![]);
        r
    }

    /// Number of registrations so far.
    pub fn count(&self) -> (n: u64)
        ensures
            n == self@.counter,
    {
        self.counter
    }

    /// A copy of the agents.
    pub fn snapshot(&self) -> (r: Vec<Subagent>)
        ensures
            r.deep_view() == self@.agents,
    {
        let n = self.agents.len();
        let mut r: Vec<Subagent> = Vec::new();
        let mut i: usize = 0;
        while i < n
            invariant
                n == self.agents@.len(),
                i <= n,
                r.deep_view() =~= self.agents.deep_view().take(i as int),
            decreases n - i,
        {
            let ghost before = r.deep_view();
            let a = self.agents[i].duplicate();
            r.push(a);
            assert(r.deep_view() =~= before.push(a.deep_view()));
            i = i + 1;
        }
        assert(self.agents.deep_view().take(n as int) =~= self.agents.deep_view());
        r
    }

    /// The position of the agent `id`.
    fn find(&self, id: &str) -> (r: Option<usize>)
        ensures
            match r {
                Some(i) => position_of(self@.agents, id@) == Some(i as nat) && i < self@.agents.len(),
                None => position_of(self@.agents, id@) is None,
            },
    {
        proof {
            lemma_position_of(self@.agents, id@);
        }
        let n = self.agents.len();
        let mut i: usize = 0;
        while i < n
            invariant
                n == self.agents@.len(),
                i <= n,
                forall|j: int| 0 <= j < i ==> (#[trigger] self@.agents[j]).id != id@,
                match position_of(self@.agents, id@) {
                    Some(k) => k < n && self@.agents[k as int].id == id@ && forall|j: int|
                        0 <= j < k ==> (#[trigger] self@.agents[j]).id != id@,
                    None => forall|j: int| 0 <= j < n ==> (#[trigger] self@.agents[j]).id != id@,
                },
            decreases n - i,
        {
            assert(self@.agents[i as int] == self.agents[i as int].deep_view());
            if same_text(self.agents[i].id.as_str(), id) {
                return Some(i);
            }
            i = i + 1;
        }
        None
    }

    /// Registers a running sub-agent for `task`, started at `now`, and
    /// returns its id, `sub-N` for the `N`-th registration.
    pub fn register(&mut self, task: String, now: i64) -> (r: (String, SubagentEvent))
        requires
            old(self).wf(),
            old(self)@.counter < u64::MAX,
        ensures
            final(self).wf(),
            r.0@ == subagent_id(old(self)@.counter + 1),
            final(self)@.agents == old(self)@.agents.push(registered(r.0@, task@, now)),
            r.1 matches SubagentEvent::Created(a) && a.deep_view() == final(self)@.agents.last(),
    {
        self.counter = self.counter + 1;
        let mut id = String::from_str("sub-");
        push_dec(&mut id, self.counter);
        let agent = Subagent {
            id: id.clone(),
            task,
            status: SubagentStatus::Running,
            activity: None,
            prompt_tokens: 0,
            completion_tokens: 0,
            started_at: now,
            completed_at: None,
            result: None,
        };
        let ev = SubagentEvent::Created(agent.duplicate());
        let ghost before = self.agents.deep_view();
        self.agents.push(agent);
        assert(self.agents.deep_view() =~= before.push(agent.deep_view()));
        (id, ev)
    }

    /// Records what the agent `id` is doing.
    pub fn update_activity(&mut self, id: &str, activity: String) -> (ev: Option<SubagentEvent>)
        requires
            old(self).wf(),
        ensures
            final(self).wf(),
            final(self)@.counter == old(self)@.counter,
            final(self)@.agents == update_agent(
                old(self)@.agents,
                id@,
                |a: SubagentV| SubagentV { activity: Some(activity@), ..a },
            ),
            match position_of(old(self)@.agents, id@) {
                Some(p) => ev matches Some(SubagentEvent::Updated(a)) && a.deep_view()
                    == final(self)@.agents[p as int],
                None => ev is None,
            },
    {
        match self.find(id) {
            Some(i) => {
                let mut a = self.agents[i].duplicate();
                a.activity = Some(activity);
                let ev = SubagentEvent::Updated(a.duplicate());
                let ghost before = self.agents.deep_view();
                self.agents.set(i, a);
                assert(self.agents.deep_view() =~= before.update(i as int, a.deep_view()));
                proof {
                    lemma_update_keeps_wf(old(self)@, i as int, a.deep_view());
                }
                Some(ev)
            },
            None => None,
        }
    }

    /// Sets the token counts of the agent `id`.
    pub fn set_usage(&mut self, id: &str, prompt: u64, completion: u64) -> (ev: Option<SubagentEvent>)
        requires
            old(self).wf(),
        ensures
            final(self).wf(),
            final(self)@.counter == old(self)@.counter,
            final(self)@.agents == update_agent(
                old(self)@.agents,
                id@,
                |a: SubagentV| SubagentV { prompt_tokens: prompt, completion_tokens: completion, ..a },
            ),
            match position_of(old(self)@.agents, id@) {
                Some(p) => ev matches Some(SubagentEvent::Updated(a)) && a.deep_view()
                    == final(self)@.agents[p as int],
                None => ev is None,
            },
    {
        match self.find(id) {
            Some(i) => {
                let mut a = self.agents[i].duplicate();
                a.prompt_tokens = prompt;
                a.completion_tokens = completion;
                let ev = SubagentEvent::Updated(a.duplicate());
                let ghost before = self.agents.deep_view();
                self.agents.set(i, a);
                assert(self.agents.deep_view() =~= before.update(i as int, a.deep_view()));
                proof {
                    lemma_update_keeps_wf(old(self)@, i as int, a.deep_view());
                }
                Some(ev)
            },
            None => None,
        }
    }

    /// Ends the agent `id` at `now` with `status` and `result`.
    pub fn complete(
        &mut self,
        id: &str,
        status: SubagentStatus,
        result: Option<String>,
        now: i64,
    ) -> (ev: Option<SubagentEvent>)
        requires
            old(self).wf(),
        ensures
            final(self).wf(),
            final(self)@.counter == old(self)@.counter,
            final(self)@.agents == completed_agents(
                old(self)@.agents,
                id@,
                status,
                result.deep_view(),
                now,
            ),
            match position_of(old(self)@.agents, id@) {
                Some(p) => ev matches Some(SubagentEvent::Updated(a)) && a.deep_view()
                    == final(self)@.agents[p as int],
                None => ev is None,
            },
    {
        match self.find(id) {
            Some(i) => {
                let mut a = self.agents[i].duplicate();
                a.status = status;
                a.completed_at = Some(now);
                a.result = result;
                a.activity = None;
                let ev = SubagentEvent::Updated(a.duplicate());
                let ghost before = self.agents.deep_view();
                self.agents.set(i, a);
                assert(self.agents.deep_view() =~= before.update(i as int, a.deep_view()));
                proof {
                    lemma_update_keeps_wf(old(self)@, i as int, a.deep_view());
                }
                Some(ev)
            },
            None => None,
        }
    }

}

/// Replacing an agent by one with the same id keeps the invariant.
proof fn lemma_update_keeps_wf(r: RegistryV, i: int, x: SubagentV)
    requires
        registry_wf(r),
        0 <= i < r.agents.len(),
        x.id == r.agents[i].id,
    ensures
        registry_wf(RegistryV { agents: r.agents.update(i, x), ..r }),
{
    let a = r.agents.update(i, x);
    assert forall|j: int| 0 <= j < a.len() implies (#[trigger] a[j]).id == subagent_id((j + 1) as nat) by {
        assert(r.agents[j].id == subagent_id((j + 1) as nat));
    }
}

/// Decimal notation is one to one.
pub proof fn lemma_dec_injective(a: nat, b: nat)
    requires
        dec(a) == dec(b),
    ensures
        a == b,
    decreases a,
{
    lemma_dec_len(a);
    lemma_dec_len(b);
    let da = dec(a);
    let db = dec(b);
    if a < 10 && b < 10 {
        assert(da[0] == db[0]);
    } else if a >= 10 && b >= 10 {
        assert(da == dec(a / 10).push(digit(a % 10)));
        assert(db == dec(b / 10).push(digit(b % 10)));
        assert(da.last() == db.last());
        assert(da.drop_last() == dec(a / 10));
        assert(db.drop_last() == dec(b / 10));
        lemma_dec_injective(a / 10, b / 10);
    }
}

proof fn lemma_dec_len(n: nat)
    ensures
        dec(n).len() >= 1,
        n >= 10 ==> dec(n).len() >= 2,
    decreases n,
{
    if n >= 10 {
        lemma_dec_len(n / 10);
    }
}

/// No two registered sub-agents share an id.
pub proof fn lemma_ids_unique(r: RegistryV, i: int, j: int)
    requires
        registry_wf(r),
        0 <= i < r.agents.len(),
        0 <= j < r.agents.len(),
        i != j,
    ensures
        r.agents[i].id != r.agents[j].id,
{
    if r.agents[i].id == r.agents[j].id {
        reveal_strlit("sub-");
        assert(subagent_id((i + 1) as nat).skip(4) == dec((i + 1) as nat));
        assert(subagent_id((j + 1) as nat).skip(4) == dec((j + 1) as nat));
        lemma_dec_injective((i + 1) as nat, (j + 1) as nat);
    }
}

} // verus!

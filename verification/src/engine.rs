//! The chain execution machine. A run walks the declared nodes in order over
//! a shared context seeded with the caller's variables. The machine decides
//! everything — conditions, source resolution, rendering, fallback policy,
//! merging — and hands provider calls out to its driver, which performs them
//! and pushes the results back in.
//!
//! Within a parallel group every member call is rendered against the one
//! context as it stood at group entry; member outputs are merged only when
//! the whole group has settled, and any unrecovered member failure fails the
//! run at that join. After a failure the run is failed for good: no output
//! map is ever produced.

use crate::chain::{
    call_matches, err_matches, prepare_call, prepare_spec, step_active, CallV, ChatCall,
    ExecutionNode, PrepErr, StepSpec,
};
use crate::errors::RunError;
use crate::kvmap::StrMap;
use crate::store::PromptStore;
use vstd::prelude::*;

verus! {

/// What one group member is doing.
pub enum MemberState {
    /// Its condition did not hold; it runs nothing and writes nothing.
    Skipped,
    /// A call is outstanding; the flag says the fallback is already in use.
    Waiting(bool),
    /// It finished with this text.
    Output(String),
    /// It failed for good.
    Fail(RunError),
}

/// The spec-level outcome of entering one member against the snapshot.
pub ghost enum MemberOut {
    MSkip,
    MCall(CallV, bool),
    MFail(PrepErr),
}

/// Entering a member: evaluate its condition against the snapshot; resolve
/// and render its primary source; on a preparation failure fall back to the
/// fallback source once, with the same provider and mode.
pub open spec fn member_entry_spec(
    s: StepSpec,
    key: Seq<u8>,
    files: StrMap,
    ctx: Map<Seq<char>, Seq<char>>,
) -> MemberOut {
    if !step_active(s, ctx) {
        MemberOut::MSkip
    } else {
        match prepare_spec(s, s.source, key, files, ctx) {
            Ok(v) => MemberOut::MCall(v, false),
            Err(e) => match s.fallback_source {
                Some(f) => match prepare_spec(s, f, key, files, ctx) {
                    Ok(v) => MemberOut::MCall(v, true),
                    Err(e2) => MemberOut::MFail(e2),
                },
                None => MemberOut::MFail(e),
            },
        }
    }
}

/// Whether an executable member state realises a spec outcome.
pub open spec fn member_matches(ms: MemberState, mo: MemberOut) -> bool {
    match mo {
        MemberOut::MSkip => ms is Skipped,
        MemberOut::MCall(v, u) => ms matches MemberState::Waiting(u2) && u2 == u,
        MemberOut::MFail(k) => ms matches MemberState::Fail(e) && err_matches(e, k),
    }
}

/// The calls of the outstanding members, in member order.
pub open spec fn calls_of(mos: Seq<MemberOut>) -> Seq<CallV>
    decreases mos.len(),
{
    if mos.len() == 0 {
        Seq::empty()
    } else {
        (match mos.first() {
            MemberOut::MCall(v, _) => seq![v],
            _ => Seq::empty(),
        }) + calls_of(mos.drop_first())
    }
}

pub proof fn lemma_calls_of_snoc(mos: Seq<MemberOut>, m: MemberOut)
    ensures
        calls_of(mos.push(m)) == calls_of(mos) + (match m {
            MemberOut::MCall(v, _) => seq![v],
            _ => Seq::<CallV>::empty(),
        }),
    decreases mos.len(),
{
    let p = mos.push(m);
    let mm = match m {
        MemberOut::MCall(v, _) => seq![v],
        _ => Seq::<CallV>::empty(),
    };
    if mos.len() == 0 {
        assert(p.first() == m);
        assert(p.drop_first() =~= Seq::<MemberOut>::empty());
        assert(calls_of(p.drop_first()) =~= Seq::<CallV>::empty());
        assert(calls_of(mos) =~= Seq::<CallV>::empty());
        assert(calls_of(p) =~= calls_of(mos) + mm);
    } else {
        assert(p.first() == mos.first());
        assert(p.drop_first() =~= mos.drop_first().push(m));
        lemma_calls_of_snoc(mos.drop_first(), m);
        let hm = match mos.first() {
            MemberOut::MCall(v, _) => seq![v],
            _ => Seq::<CallV>::empty(),
        };
        assert(calls_of(p) == hm + (calls_of(mos.drop_first()) + mm));
        assert(calls_of(mos) == hm + calls_of(mos.drop_first()));
        assert(hm + (calls_of(mos.drop_first()) + mm) =~= (hm + calls_of(mos.drop_first())) + mm);
    }
}

/// How many members are outstanding.
pub open spec fn count_waiting(ms: Seq<MemberState>) -> int
    decreases ms.len(),
{
    if ms.len() == 0 {
        0
    } else {
        count_waiting(ms.drop_last()) + (if ms.last() is Waiting {
            1int
        } else {
            0int
        })
    }
}

pub proof fn lemma_count_waiting_nonneg(ms: Seq<MemberState>)
    ensures
        count_waiting(ms) >= 0,
    decreases ms.len(),
{
    if ms.len() > 0 {
        lemma_count_waiting_nonneg(ms.drop_last());
    }
}

/// The phase of a run.
pub enum Phase {
    /// At the next node, nothing outstanding.
    Ready,
    /// One sequential step's call is outstanding; the flag says the fallback
    /// is already in use.
    StepWait(bool),
    /// A parallel group's calls are outstanding.
    GroupWait(Vec<MemberState>),
    /// The run ended: successfully, or with the first fatal error.
    Finished(Option<RunError>),
}

/// What a poll asks the driver to do next.
pub enum RunPoll {
    /// Perform these provider calls and push the results back.
    Calls(Vec<ChatCall>),
    /// A node was settled without calls; poll again.
    Progressed,
    /// The run completed: every produced output, not the initial seeds.
    Done(StrMap),
    /// The run failed with its first fatal error; no outputs are exposed.
    Failed(RunError),
}

/// One chain run: the declared nodes, the position, the shared context (the
/// seeds plus everything merged so far), and the outputs produced.
pub struct ChainRun {
    pub nodes: Vec<ExecutionNode>,
    pub pos: usize,
    pub ctx: StrMap,
    pub produced: StrMap,
    pub phase: Phase,
    pub pending: Vec<ChatCall>,
}

impl ChainRun {
    pub open spec fn wf(&self) -> bool {
        &&& self.ctx.wf()
        &&& self.produced.wf()
        &&& self.pos <= self.nodes@.len()
        &&& match self.phase {
            Phase::Ready => self.pending@.len() == 0,
            Phase::StepWait(_) => self.pos < self.nodes@.len()
                && self.nodes@[self.pos as int] is Step && self.pending@.len() == 1,
            Phase::GroupWait(ms) => self.pos < self.nodes@.len() && (match self.nodes@[
                self.pos as int] {
                ExecutionNode::Parallel(g) => ms@.len() == g@.len() && self.pending@.len()
                    == count_waiting(ms@) && self.pending@.len() >= 1,
                ExecutionNode::Step(_) => false,
            }),
            Phase::Finished(_) => self.pending@.len() == 0,
        }
    }

    /// Whether the machine waits for pushed results.
    pub open spec fn awaiting(&self) -> bool {
        self.phase is StepWait || self.phase is GroupWait
    }

    /// Starts a run of the given nodes over the seed variables.
    pub fn start(nodes: Vec<ExecutionNode>, vars: StrMap) -> (r: ChainRun)
        requires
            vars.wf(),
        ensures
            r.wf(),
            r.nodes@ == nodes@,
            r.pos == 0,
            r.ctx@ == vars@,
            r.produced@ == Map::<Seq<char>, Seq<char>>::empty(),
            r.phase is Ready,
    {
        ChainRun {
            nodes,
            pos: 0,
            ctx: vars,
            produced: StrMap::new(),
            phase: Phase::Ready,
            pending: Vec::new(),
        }
    }

    fn duplicate_pending(&self) -> (r: Vec<ChatCall>)
        ensures
            r@ == self.pending@,
    {
        let mut out: Vec<ChatCall> = Vec::new();
        let mut i: usize = 0;
        while i < self.pending.len()
            invariant
                0 <= i <= self.pending@.len(),
                out@ =~= self.pending@.subrange(0, i as int),
            decreases self.pending@.len() - i,
        {
            out.push(self.pending[i].duplicate());
            proof {
                assert(out@ =~= self.pending@.subrange(0, i + 1));
            }
            i += 1;
        }
        proof {
            assert(out@ =~= self.pending@);
        }
        out
    }

    /// Advances the run by at most one node. While calls are outstanding it
    /// repeats them; a step whose condition does not hold is passed over with
    /// the context and outputs exactly as if it did not exist; a failure is
    /// final and absorbing, and after one no output map is ever produced.
    pub fn poll(&mut self, store: &PromptStore) -> (r: RunPoll)
        requires
            old(self).wf(),
            store.wf(),
        ensures
            final(self).wf(),
            final(self).nodes@ == old(self).nodes@,
            old(self).awaiting() ==> *final(self) == *old(self) && (r matches RunPoll::Calls(cs)
                && cs@ == old(self).pending@),
            old(self).phase matches Phase::Finished(o) ==> *final(self) == *old(self) && (match o {
                Some(e) => r matches RunPoll::Failed(e2) && e2 == e,
                None => r matches RunPoll::Done(m) && m@ == old(self).produced@,
            }),
            (old(self).phase is Ready && old(self).pos == old(self).nodes@.len()) ==> (
            r matches RunPoll::Done(m) && m@ == old(self).produced@) && final(self).phase
                == Phase::Finished(None::<RunError>) && final(self).ctx@ == old(self).ctx@
                && final(self).produced@ == old(self).produced@,
            old(self).phase is Ready && old(self).pos < old(self).nodes@.len() ==> (old(
                self,
            ).nodes@[old(self).pos as int] matches ExecutionNode::Step(s) ==> step_poll_post(
                *old(self),
                *final(self),
                s,
                store,
                r,
            )),
            old(self).phase is Ready && old(self).pos < old(self).nodes@.len() ==> (old(
                self,
            ).nodes@[old(self).pos as int] matches ExecutionNode::Parallel(g) ==> group_poll_post(
                *old(self),
                *final(self),
                g@,
                store,
                r,
            )),
    {
        match &self.phase {
            Phase::StepWait(_) => {
                return RunPoll::Calls(self.duplicate_pending());
            },
            Phase::GroupWait(_) => {
                return RunPoll::Calls(self.duplicate_pending());
            },
            Phase::Finished(o) => {
                match o {
                    Some(e) => {
                        return RunPoll::Failed(e.duplicate());
                    },
                    None => {
                        return RunPoll::Done(self.produced.duplicate());
                    },
                }
            },
            Phase::Ready => {},
        }
        if self.pos == self.nodes.len() {
            self.phase = Phase::Finished(None);
            return RunPoll::Done(self.produced.duplicate());
        }
        let is_step = match &self.nodes[self.pos] {
            ExecutionNode::Step(_) => true,
            ExecutionNode::Parallel(_) => false,
        };
        if is_step {
            self.poll_step(store)
        } else {
            self.poll_group(store)
        }
    }

    fn poll_step(&mut self, store: &PromptStore) -> (r: RunPoll)
        requires
            old(self).wf(),
            store.wf(),
            old(self).phase is Ready,
            old(self).pos < old(self).nodes@.len(),
            old(self).nodes@[old(self).pos as int] is Step,
        ensures
            final(self).wf(),
            final(self).nodes@ == old(self).nodes@,
            old(self).nodes@[old(self).pos as int] matches ExecutionNode::Step(s)
                ==> step_poll_post(*old(self), *final(self), s, store, r),
    {
        let active = match &self.nodes[self.pos] {
            ExecutionNode::Step(s) => {
                match &s.condition {
                    None => true,
                    Some(c) => crate::chain::check_condition(&self.ctx, c),
                }
            },
            ExecutionNode::Parallel(_) => false,
        };
        if !active {
            let n = self.nodes.len();
            self.pos = self.pos + 1;
            return RunPoll::Progressed;
        }
        let prep = match &self.nodes[self.pos] {
            ExecutionNode::Step(s) => prepare_call(s, &s.source, store, &self.ctx),
            ExecutionNode::Parallel(_) => Err(RunError::Llm(String::new())),
        };
        match prep {
            Ok(call) => {
                let mut pending: Vec<ChatCall> = Vec::new();
                pending.push(call);
                self.pending = pending;
                self.phase = Phase::StepWait(false);
                RunPoll::Calls(self.duplicate_pending())
            },
            Err(e) => {
                let fb = match &self.nodes[self.pos] {
                    ExecutionNode::Step(s) => {
                        match &s.fallback_source {
                            Some(f) => Some(prepare_call(s, f, store, &self.ctx)),
                            None => None,
                        }
                    },
                    ExecutionNode::Parallel(_) => None,
                };
                match fb {
                    Some(Ok(call)) => {
                        let mut pending: Vec<ChatCall> = Vec::new();
                        pending.push(call);
                        self.pending = pending;
                        self.phase = Phase::StepWait(true);
                        RunPoll::Calls(self.duplicate_pending())
                    },
                    Some(Err(e2)) => {
                        self.phase = Phase::Finished(Some(e2.duplicate()));
                        RunPoll::Failed(e2)
                    },
                    None => {
                        self.phase = Phase::Finished(Some(e.duplicate()));
                        RunPoll::Failed(e)
                    },
                }
            },
        }
    }

    fn poll_group(&mut self, store: &PromptStore) -> (r: RunPoll)
        requires
            old(self).wf(),
            store.wf(),
            old(self).phase is Ready,
            old(self).pos < old(self).nodes@.len(),
            old(self).nodes@[old(self).pos as int] is Parallel,
        ensures
            final(self).wf(),
            final(self).nodes@ == old(self).nodes@,
            old(self).nodes@[old(self).pos as int] matches ExecutionNode::Parallel(g)
                ==> group_poll_post(*old(self), *final(self), g@, store, r),
    {
        let ghost g = self.nodes@[self.pos as int]->Parallel_0@;
        let ghost key = store.key@;
        let ghost files = store.files;
        let ghost ctx0 = self.ctx@;
        let ghost mos = Seq::new(g.len(), |k: int| member_entry_spec(g[k], key, files, ctx0));
        let glen = match &self.nodes[self.pos] {
            ExecutionNode::Parallel(gv) => gv.len(),
            ExecutionNode::Step(_) => 0,
        };
        let mut members: Vec<MemberState> = Vec::new();
        let mut calls: Vec<ChatCall> = Vec::new();
        let mut first_err: Option<RunError> = None;
        let mut k: usize = 0;
        while k < glen
            invariant
                self.wf(),
                self == old(self),
                store.wf(),
                old(self).phase is Ready,
                old(self).pos < old(self).nodes@.len(),
                old(self).nodes@[old(self).pos as int] is Parallel,
                g == self.nodes@[self.pos as int]->Parallel_0@,
                key == store.key@,
                files == store.files,
                ctx0 == self.ctx@,
                mos == Seq::new(g.len(), |k2: int| member_entry_spec(g[k2], key, files, ctx0)),
                glen == g.len(),
                0 <= k <= glen,
                members@.len() == k,
                forall|j: int| 0 <= j < k ==> member_matches(#[trigger] members@[j], mos[j]),
                calls_matching(calls@, calls_of(mos.take(k as int))),
                first_err matches Some(e) ==> exists|j: int|
                    0 <= j < k && (#[trigger] mos[j] matches MemberOut::MFail(k2) && err_matches(
                        e,
                        k2,
                    )),
                first_err is None ==> forall|j: int| 0 <= j < k ==> !(#[trigger] mos[j] is MFail),
            decreases glen - k,
        {
            let ghost mo = mos[k as int];
            let entry = match &self.nodes[self.pos] {
                ExecutionNode::Parallel(gv) => {
                    let s = &gv[k];
                    let active = match &s.condition {
                        None => true,
                        Some(c) => crate::chain::check_condition(&self.ctx, c),
                    };
                    if !active {
                        MemberState::Skipped
                    } else {
                        match prepare_call(s, &s.source, store, &self.ctx) {
                            Ok(call) => {
                                calls.push(call);
                                MemberState::Waiting(false)
                            },
                            Err(e) => {
                                match &s.fallback_source {
                                    Some(f) => {
                                        match prepare_call(s, f, store, &self.ctx) {
                                            Ok(call) => {
                                                calls.push(call);
                                                MemberState::Waiting(true)
                                            },
                                            Err(e2) => MemberState::Fail(e2),
                                        }
                                    },
                                    None => MemberState::Fail(e),
                                }
                            },
                        }
                    }
                },
                ExecutionNode::Step(_) => MemberState::Skipped,
            };
            match &entry {
                MemberState::Fail(e) => {
                    if first_err.is_none() {
                        first_err = Some(e.duplicate());
                    }
                },
                _ => {},
            }
            members.push(entry);
            proof {
                lemma_calls_of_snoc(mos.take(k as int), mo);
                assert(mos.take(k as int).push(mo) =~= mos.take(k + 1));
            }
            k += 1;
        }
        proof {
            assert(mos.take(glen as int) =~= mos);
        }
        if calls.len() == 0 {
            match first_err {
                Some(e) => {
                    self.phase = Phase::Finished(Some(e.duplicate()));
                    RunPoll::Failed(e)
                },
                None => {
                    let n = self.nodes.len();
                    self.pos = self.pos + 1;
                    RunPoll::Progressed
                },
            }
        } else {
            proof {
                lemma_waiting_count_from_calls(members@, mos, calls@.len() as int);
            }
            self.pending = calls;
            self.phase = Phase::GroupWait(members);
            RunPoll::Calls(self.duplicate_pending())
        }
    }
}

/// Elementwise correspondence of executable calls and spec calls.
pub open spec fn calls_matching(cs: Seq<ChatCall>, vs: Seq<CallV>) -> bool {
    cs.len() == vs.len() && forall|k: int| 0 <= k < cs.len() ==> call_matches(#[trigger] cs[k], vs[k])
}

/// A member list realising outcomes has as many outstanding members as the
/// outcomes have calls.
pub proof fn lemma_waiting_count_from_calls(ms: Seq<MemberState>, mos: Seq<MemberOut>, n: int)
    requires
        ms.len() == mos.len(),
        forall|j: int| 0 <= j < ms.len() ==> member_matches(#[trigger] ms[j], mos[j]),
        calls_of(mos).len() == n,
    ensures
        count_waiting(ms) == n,
    decreases ms.len(),
{
    if ms.len() == 0 {
    } else {
        lemma_calls_of_snoc(mos.drop_last(), mos.last());
        assert(mos.drop_last().push(mos.last()) =~= mos);
        assert(forall|j: int|
            0 <= j < ms.drop_last().len() ==> member_matches(
                #[trigger] ms.drop_last()[j],
                mos.drop_last()[j],
            ));
        lemma_waiting_count_from_calls(
            ms.drop_last(),
            mos.drop_last(),
            calls_of(mos.drop_last()).len() as int,
        );
    }
}

/// What polling an active or inactive sequential step guarantees.
pub open spec fn step_poll_post(
    pre: ChainRun,
    post: ChainRun,
    s: StepSpec,
    store: &PromptStore,
    r: RunPoll,
) -> bool {
    if !step_active(s, pre.ctx@) {
        &&& r is Progressed
        &&& post.pos == pre.pos + 1
        &&& post.ctx@ == pre.ctx@
        &&& post.produced@ == pre.produced@
        &&& post.phase is Ready
    } else {
        &&& post.pos == pre.pos
        &&& post.ctx@ == pre.ctx@
        &&& post.produced@ == pre.produced@
        &&& match prepare_spec(s, s.source, store.key@, store.files, pre.ctx@) {
            Ok(v) => r matches RunPoll::Calls(cs) && cs.len() == 1 && call_matches(cs[0], v)
                && post.phase == Phase::StepWait(false) && post.pending@.len() == 1
                && call_matches(post.pending@[0], v),
            Err(k) => match s.fallback_source {
                Some(f) => match prepare_spec(s, f, store.key@, store.files, pre.ctx@) {
                    Ok(v) => r matches RunPoll::Calls(cs) && cs.len() == 1 && call_matches(
                        cs[0],
                        v,
                    ) && post.phase == Phase::StepWait(true) && post.pending@.len() == 1
                        && call_matches(post.pending@[0], v),
                    Err(k2) => (r matches RunPoll::Failed(e) && err_matches(e, k2)) && (
                    post.phase matches Phase::Finished(o) && o matches Some(e2) && err_matches(
                        e2,
                        k2,
                    )),
                },
                None => (r matches RunPoll::Failed(e) && err_matches(e, k)) && (
                post.phase matches Phase::Finished(o) && o matches Some(e2) && err_matches(
                    e2,
                    k,
                )),
            },
        }
    }
}

/// What polling a parallel group guarantees: every member is entered against
/// the one group-entry context — the members' declared order has no effect on
/// what each observes — and the outstanding calls are the members' calls in
/// member order.
pub open spec fn group_poll_post(
    pre: ChainRun,
    post: ChainRun,
    g: Seq<StepSpec>,
    store: &PromptStore,
    r: RunPoll,
) -> bool {
    let mos = Seq::new(g.len(), |k: int| member_entry_spec(g[k], store.key@, store.files, pre.ctx@));
    &&& post.ctx@ == pre.ctx@
    &&& if calls_of(mos).len() == 0 {
        if (exists|j: int| 0 <= j < mos.len() && #[trigger] mos[j] is MFail) {
            (r matches RunPoll::Failed(e) && exists|j: int|
                0 <= j < mos.len() && (#[trigger] mos[j] matches MemberOut::MFail(k)
                    && err_matches(e, k))) && post.phase is Finished && post.produced@
                == pre.produced@
        } else {
            r is Progressed && post.pos == pre.pos + 1 && post.produced@ == pre.produced@
                && post.phase is Ready
        }
    } else {
        &&& post.pos == pre.pos
        &&& post.produced@ == pre.produced@
        &&& (post.phase matches Phase::GroupWait(ms) && ms@.len() == g.len() && forall|j: int|
            0 <= j < g.len() ==> member_matches(#[trigger] ms@[j], mos[j]))
        &&& calls_matching(post.pending@, calls_of(mos))
        &&& r matches RunPoll::Calls(cs) && cs@ == post.pending@
    }
}

impl MemberState {
    /// Structural copy; spec equality with the original is part of the contract.
    pub fn duplicate(&self) -> (r: MemberState)
        ensures
            r == *self,
    {
        match self {
            MemberState::Skipped => MemberState::Skipped,
            MemberState::Waiting(u) => MemberState::Waiting(*u),
            MemberState::Output(t) => MemberState::Output(t.clone()),
            MemberState::Fail(e) => MemberState::Fail(e.duplicate()),
        }
    }
}

/// Structural copy of one pushed result.
fn dup_result(res: &Result<String, RunError>) -> (r: Result<String, RunError>)
    ensures
        r == *res,
{
    match res {
        Ok(t) => Ok(t.clone()),
        Err(e) => Err(e.duplicate()),
    }
}

/// The result slot a member reads: its rank among the outstanding members.
pub open spec fn result_for(
    ms: Seq<MemberState>,
    results: Seq<Result<String, RunError>>,
    j: int,
) -> Result<String, RunError> {
    results[count_waiting(ms.take(j))]
}

/// How one member changes when its result arrives: a success becomes its
/// output; a failure falls back once (re-resolving against the group-entry
/// context) and otherwise becomes final, carrying the pushed error verbatim.
/// Settled members do not change.
pub open spec fn member_push_ok(
    s: StepSpec,
    m: MemberState,
    res: Result<String, RunError>,
    key: Seq<u8>,
    files: StrMap,
    ctx: Map<Seq<char>, Seq<char>>,
    m2: MemberState,
) -> bool {
    match m {
        MemberState::Waiting(used) => match res {
            Ok(t) => m2 matches MemberState::Output(t2) && t2@ == t@,
            Err(e) => match (if used {
                None
            } else {
                s.fallback_source
            }) {
                Some(f) => match prepare_spec(s, f, key, files, ctx) {
                    Ok(v) => m2 matches MemberState::Waiting(u) && u == true,
                    Err(k2) => m2 matches MemberState::Fail(e2) && err_matches(e2, k2),
                },
                None => m2 matches MemberState::Fail(e2) && e2 == e,
            },
        },
        _ => m2 == m,
    }
}

/// The first member failure, scanning from position `j`.
pub open spec fn first_fail_from(ms: Seq<MemberState>, j: int) -> Option<RunError>
    decreases ms.len() - j,
{
    if j < 0 || j >= ms.len() {
        None
    } else {
        match ms[j] {
            MemberState::Fail(e) => Some(e),
            _ => first_fail_from(ms, j + 1),
        }
    }
}

/// The context after merging the outputs of the members from `j` on, in
/// member order; a later writer for the same key wins.
pub open spec fn merge_from(
    ms: Seq<MemberState>,
    g: Seq<StepSpec>,
    j: int,
    m: Map<Seq<char>, Seq<char>>,
) -> Map<Seq<char>, Seq<char>>
    decreases ms.len() - j,
{
    if j < 0 || j >= ms.len() {
        m
    } else {
        merge_from(
            ms,
            g,
            j + 1,
            match ms[j] {
                MemberState::Output(t) => m.insert(g[j].output_key@, t@),
                _ => m,
            },
        )
    }
}

/// What pushing one sequential step's result guarantees.
pub open spec fn step_push_post(
    pre: ChainRun,
    post: ChainRun,
    s: StepSpec,
    used: bool,
    store: &PromptStore,
    res: Result<String, RunError>,
) -> bool {
    match res {
        Ok(t) => {
            &&& post.ctx@ == pre.ctx@.insert(s.output_key@, t@)
            &&& post.produced@ == pre.produced@.insert(s.output_key@, t@)
            &&& post.pos == pre.pos + 1
            &&& post.phase is Ready
        },
        Err(e) => {
            &&& post.ctx@ == pre.ctx@
            &&& post.produced@ == pre.produced@
            &&& match (if used {
                None
            } else {
                s.fallback_source
            }) {
                Some(f) => match prepare_spec(s, f, store.key@, store.files, pre.ctx@) {
                    Ok(v) => post.phase == Phase::StepWait(true) && post.pending@.len() == 1
                        && call_matches(post.pending@[0], v) && post.pos == pre.pos,
                    Err(k2) => post.phase matches Phase::Finished(o) && o matches Some(e2)
                        && err_matches(e2, k2),
                },
                None => post.phase matches Phase::Finished(o) && o matches Some(e2) && e2 == e,
            }
        },
    }
}

/// What pushing a group's results guarantees: every member settles or takes
/// its one fallback against the group-entry context; when none is left
/// outstanding, the first member failure in declared order fails the whole
/// run with no outputs exposed, and otherwise all member outputs are merged
/// into the context, in member order, before the next node begins.
pub open spec fn group_push_post(
    pre: ChainRun,
    post: ChainRun,
    ms: Seq<MemberState>,
    g: Seq<StepSpec>,
    store: &PromptStore,
    results: Seq<Result<String, RunError>>,
) -> bool {
    exists|ms2: Seq<MemberState>|
        #![trigger ms2.len()]
        {
            &&& ms2.len() == ms.len()
            &&& (forall|j: int|
                0 <= j < ms.len() ==> member_push_ok(
                    g[j],
                    #[trigger] ms[j],
                    result_for(ms, results, j),
                    store.key@,
                    store.files,
                    pre.ctx@,
                    ms2[j],
                ))
            &&& if count_waiting(ms2) == 0 {
                match first_fail_from(ms2, 0) {
                    Some(e) => post.phase == Phase::Finished(Some(e)) && post.ctx@ == pre.ctx@
                        && post.produced@ == pre.produced@,
                    None => post.phase is Ready && post.pos == pre.pos + 1 && post.ctx@
                        == merge_from(ms2, g, 0, pre.ctx@) && post.produced@ == merge_from(
                        ms2,
                        g,
                        0,
                        pre.produced@,
                    ),
                }
            } else {
                &&& post.ctx@ == pre.ctx@
                &&& post.produced@ == pre.produced@
                &&& post.pos == pre.pos
                &&& post.phase matches Phase::GroupWait(ms3) && ms3@ == ms2
            }
        }
}

pub proof fn lemma_count_waiting_snoc(ms: Seq<MemberState>, m: MemberState)
    ensures
        count_waiting(ms.push(m)) == count_waiting(ms) + (if m is Waiting {
            1int
        } else {
            0int
        }),
{
    assert(ms.push(m).drop_last() =~= ms);
    assert(ms.push(m).last() == m);
}

impl ChainRun {
    /// Feeds the outstanding calls' results back, in call order.
    pub fn push_results(&mut self, store: &PromptStore, results: Vec<Result<String, RunError>>)
        requires
            old(self).wf(),
            store.wf(),
            old(self).awaiting(),
            results@.len() == old(self).pending@.len(),
        ensures
            final(self).wf(),
            final(self).nodes@ == old(self).nodes@,
            old(self).phase matches Phase::StepWait(used) ==> (old(self).nodes@[old(
                self,
            ).pos as int] matches ExecutionNode::Step(s) ==> step_push_post(
                *old(self),
                *final(self),
                s,
                used,
                store,
                results@[0],
            )),
            old(self).phase matches Phase::GroupWait(ms) ==> (old(self).nodes@[old(
                self,
            ).pos as int] matches ExecutionNode::Parallel(g) ==> group_push_post(
                *old(self),
                *final(self),
                ms@,
                g@,
                store,
                results@,
            )),
    {
        let mut ph = Phase::Ready;
        core::mem::swap(&mut self.phase, &mut ph);
        match ph {
            Phase::StepWait(used) => {
                self.push_step_result(store, results, used);
            },
            Phase::GroupWait(members) => {
                self.push_group_results(store, results, members);
            },
            Phase::Ready => {
                proof {
                    assert(false);
                }
            },
            Phase::Finished(_) => {
                proof {
                    assert(false);
                }
            },
        }
    }

    fn push_step_result(
        &mut self,
        store: &PromptStore,
        results: Vec<Result<String, RunError>>,
        used: bool,
    )
        requires
            old(self).wf() || (old(self).ctx.wf() && old(self).produced.wf() && old(self).phase
                is Ready && old(self).pos < old(self).nodes@.len() && old(self).nodes@[old(
                self,
            ).pos as int] is Step && old(self).pending@.len() == 1),
            old(self).ctx.wf(),
            old(self).produced.wf(),
            old(self).phase is Ready,
            old(self).pos < old(self).nodes@.len(),
            old(self).nodes@[old(self).pos as int] is Step,
            old(self).pending@.len() == 1,
            store.wf(),
            results@.len() == 1,
        ensures
            final(self).wf(),
            final(self).nodes@ == old(self).nodes@,
            old(self).nodes@[old(self).pos as int] matches ExecutionNode::Step(s)
                ==> step_push_post(*old(self), *final(self), s, used, store, results@[0]),
    {
        let mut results = results;
        let res = results.remove(0);
        match res {
            Ok(t) => {
                let key = match &self.nodes[self.pos] {
                    ExecutionNode::Step(s) => s.output_key.clone(),
                    ExecutionNode::Parallel(_) => String::new(),
                };
                self.ctx.insert(key.clone(), t.clone());
                self.produced.insert(key, t);
                self.pending = Vec::new();
                let n = self.nodes.len();
                self.pos = self.pos + 1;
            },
            Err(e) => {
                let fb = if used {
                    None
                } else {
                    match &self.nodes[self.pos] {
                        ExecutionNode::Step(s) => {
                            match &s.fallback_source {
                                Some(f) => Some(prepare_call(s, f, store, &self.ctx)),
                                None => None,
                            }
                        },
                        ExecutionNode::Parallel(_) => None,
                    }
                };
                match fb {
                    Some(Ok(call)) => {
                        let mut pending: Vec<ChatCall> = Vec::new();
                        pending.push(call);
                        self.pending = pending;
                        self.phase = Phase::StepWait(true);
                    },
                    Some(Err(e2)) => {
                        self.pending = Vec::new();
                        self.phase = Phase::Finished(Some(e2));
                    },
                    None => {
                        self.pending = Vec::new();
                        self.phase = Phase::Finished(Some(e));
                    },
                }
            },
        }
    }

    #[verifier::rlimit(100)]
    #[verifier::spinoff_prover]
    fn push_group_results(
        &mut self,
        store: &PromptStore,
        results: Vec<Result<String, RunError>>,
        members: Vec<MemberState>,
    )
        requires
            old(self).ctx.wf(),
            old(self).produced.wf(),
            old(self).phase is Ready,
            old(self).pos < old(self).nodes@.len(),
            old(self).nodes@[old(self).pos as int] matches ExecutionNode::Parallel(g)
                && members@.len() == g@.len(),
            store.wf(),
            results@.len() == count_waiting(members@),
            results@.len() == old(self).pending@.len(),
        ensures
            final(self).wf(),
            final(self).nodes@ == old(self).nodes@,
            old(self).nodes@[old(self).pos as int] matches ExecutionNode::Parallel(g)
                ==> group_push_post(*old(self), *final(self), members@, g@, store, results@),
    {
        let ghost g = self.nodes@[self.pos as int]->Parallel_0@;
        let ghost msv = members@;
        let ghost resv = results@;
        let ghost key = store.key@;
        let ghost files = store.files;
        let ghost ctx0 = self.ctx@;
        let glen = members.len();
        let mut new_members: Vec<MemberState> = Vec::new();
        let mut new_calls: Vec<ChatCall> = Vec::new();
        let mut ri: usize = 0;
        let mut k: usize = 0;
        while k < glen
            invariant
                self.ctx.wf(),
                self.produced.wf(),
                self == old(self),
                store.wf(),
                old(self).phase is Ready,
                old(self).pos < old(self).nodes@.len(),
                old(self).nodes@[old(self).pos as int] is Parallel,
                g == self.nodes@[self.pos as int]->Parallel_0@,
                msv == members@,
                resv == results@,
                key == store.key@,
                files == store.files,
                ctx0 == self.ctx@,
                glen == g.len(),
                msv.len() == g.len(),
                resv.len() == count_waiting(msv),
                0 <= k <= glen,
                ri == count_waiting(msv.take(k as int)),
                0 <= ri <= resv.len(),
                new_members@.len() == k,
                forall|j: int|
                    0 <= j < k ==> member_push_ok(
                        g[j],
                        #[trigger] msv[j],
                        result_for(msv, resv, j),
                        key,
                        files,
                        ctx0,
                        new_members@[j],
                    ),
                count_waiting(new_members@) == new_calls@.len(),
            decreases glen - k,
        {
            proof {
                lemma_count_waiting_snoc(msv.take(k as int), msv[k as int]);
                assert(msv.take(k as int).push(msv[k as int]) =~= msv.take(k + 1));
                lemma_count_waiting_prefix_bound(msv, k + 1);
            }
            let m2: MemberState = match &members[k] {
                MemberState::Waiting(used) => {
                    let res = dup_result(&results[ri]);
                    ri = ri + 1;
                    match res {
                        Ok(t) => MemberState::Output(t),
                        Err(e) => {
                            let fb = if *used {
                                None
                            } else {
                                match &self.nodes[self.pos] {
                                    ExecutionNode::Parallel(gv) => {
                                        match &gv[k].fallback_source {
                                            Some(f) => Some(
                                                prepare_call(&gv[k], f, store, &self.ctx),
                                            ),
                                            None => None,
                                        }
                                    },
                                    ExecutionNode::Step(_) => None,
                                }
                            };
                            match fb {
                                Some(Ok(call)) => {
                                    new_calls.push(call);
                                    MemberState::Waiting(true)
                                },
                                Some(Err(e2)) => MemberState::Fail(e2),
                                None => MemberState::Fail(e),
                            }
                        },
                    }
                },
                other => other.duplicate(),
            };
            let ghost before = new_members@;
            new_members.push(m2);
            proof {
                lemma_count_waiting_snoc(before, new_members@.last());
                assert(before.push(new_members@.last()) =~= new_members@);
            }
            k += 1;
        }
        proof {
            assert(msv.take(glen as int) =~= msv);
        }
        if new_calls.len() == 0 {
            let mut first_err: Option<RunError> = None;
            let mut k2: usize = 0;
            while k2 < glen
                invariant
                    glen == new_members@.len(),
                    0 <= k2 <= glen,
                    first_err is None ==> first_fail_from(new_members@, 0) == first_fail_from(
                        new_members@,
                        k2 as int,
                    ),
                    first_err matches Some(e) ==> first_fail_from(new_members@, 0) == Some(e),
                decreases glen - k2,
            {
                if first_err.is_none() {
                    match &new_members[k2] {
                        MemberState::Fail(e) => {
                            first_err = Some(e.duplicate());
                        },
                        _ => {},
                    }
                }
                k2 += 1;
            }
            match first_err {
                Some(e) => {
                    proof {
                        lemma_no_waiting(new_members@);
                    }
                    self.pending = Vec::new();
                    self.phase = Phase::Finished(Some(e.duplicate()));
                    proof {
                        assert(count_waiting(new_members@) == 0);
                        assert(group_push_post(
                            *old(self),
                            *self,
                            msv,
                            g,
                            store,
                            resv,
                        )) by {
                            assert(new_members@.len() == msv.len());
                            assert(first_fail_from(new_members@, 0) == Some(e));
                            assert(self.phase == Phase::Finished(Some(e)));
                        }
                    }
                },
                None => {
                    proof {
                        assert(first_fail_from(new_members@, glen as int) is None);
                        lemma_no_waiting(new_members@);
                    }
                    let ghost nmv = new_members@;
                    let ghost prod0 = self.produced@;
                    let mut k3: usize = 0;
                    while k3 < glen
                        invariant
                            self.ctx.wf(),
                            self.produced.wf(),
                            glen == nmv.len(),
                            nmv == new_members@,
                            self.nodes@ == old(self).nodes@,
                            self.pos == old(self).pos,
                            old(self).pos < old(self).nodes@.len(),
                            old(self).nodes@[old(self).pos as int] is Parallel,
                            g == self.nodes@[self.pos as int]->Parallel_0@,
                            glen == g.len(),
                            0 <= k3 <= glen,
                            self.phase is Ready,
                            merge_from(nmv, g, 0, ctx0) == merge_from(nmv, g, k3 as int, self.ctx@),
                            merge_from(nmv, g, 0, prod0) == merge_from(
                                nmv,
                                g,
                                k3 as int,
                                self.produced@,
                            ),
                        decreases glen - k3,
                    {
                        match &new_members[k3] {
                            MemberState::Output(t) => {
                                let okey = match &self.nodes[self.pos] {
                                    ExecutionNode::Parallel(gv) => gv[k3].output_key.clone(),
                                    ExecutionNode::Step(_) => String::new(),
                                };
                                self.ctx.insert(okey.clone(), t.clone());
                                self.produced.insert(okey, t.clone());
                            },
                            _ => {},
                        }
                        k3 += 1;
                    }
                    self.pending = Vec::new();
                    let n = self.nodes.len();
                    self.pos = self.pos + 1;
                    proof {
                        assert(merge_from(nmv, g, glen as int, self.ctx@) == self.ctx@);
                        assert(self.ctx@ == merge_from(nmv, g, 0, ctx0));
                        assert(self.produced@ == merge_from(nmv, g, 0, prod0));
                        assert(group_push_post(
                            *old(self),
                            *self,
                            msv,
                            g,
                            store,
                            resv,
                        )) by {
                            assert(nmv.len() == msv.len());
                            assert(forall|j: int|
                                0 <= j < msv.len() ==> member_push_ok(
                                    g[j],
                                    #[trigger] msv[j],
                                    result_for(msv, resv, j),
                                    key,
                                    files,
                                    ctx0,
                                    nmv[j],
                                ));
                            assert(ctx0 == old(self).ctx@);
                            assert(prod0 == old(self).produced@);
                            assert(count_waiting(nmv) == 0);
                            assert(first_fail_from(nmv, 0) is None);
                            assert(self.phase is Ready);
                            assert(self.pos == old(self).pos + 1);
                            assert(self.ctx@ == merge_from(nmv, g, 0, old(self).ctx@));
                            assert(self.produced@ == merge_from(nmv, g, 0, old(self).produced@));
                        }
                    }
                },
            }
        } else {
            proof {
                lemma_count_waiting_nonneg(new_members@);
            }
            self.pending = new_calls;
            self.phase = Phase::GroupWait(new_members);
            proof {
                assert(group_push_post(*old(self), *self, msv, g, store, resv)) by {
                    assert(new_members@.len() == msv.len());
                    assert(self.phase matches Phase::GroupWait(ms3) && ms3@ == new_members@);
                }
            }
        }
    }
}

/// Counting outstanding members over a prefix never exceeds the whole.
pub proof fn lemma_count_waiting_prefix_bound(ms: Seq<MemberState>, k: int)
    requires
        0 <= k <= ms.len(),
    ensures
        count_waiting(ms.take(k)) <= count_waiting(ms),
    decreases ms.len() - k,
{
    if k < ms.len() {
        lemma_count_waiting_snoc(ms.take(k), ms[k]);
        assert(ms.take(k).push(ms[k]) =~= ms.take(k + 1));
        lemma_count_waiting_prefix_bound(ms, k + 1);
    } else {
        assert(ms.take(k) =~= ms);
    }
}

/// A member list with no outstanding calls has a zero waiting count, and the
/// other way round.
pub proof fn lemma_no_waiting(ms: Seq<MemberState>)
    ensures
        count_waiting(ms) == 0 <==> forall|j: int| 0 <= j < ms.len() ==> !(#[trigger] ms[j]
            is Waiting),
    decreases ms.len(),
{
    lemma_count_waiting_nonneg(ms);
    if ms.len() > 0 {
        lemma_no_waiting(ms.drop_last());
        lemma_count_waiting_nonneg(ms.drop_last());
        assert(forall|j: int| 0 <= j < ms.len() - 1 ==> ms.drop_last()[j] == ms[j]);
    }
}

/// A successful sequential step's result stands in the produced outputs and
/// the context under the step's own output key, with the pushed text
/// verbatim, the moment its result is pushed.
pub proof fn lemma_step_output_recorded(
    pre: ChainRun,
    post: ChainRun,
    s: StepSpec,
    used: bool,
    store: &PromptStore,
    t: String,
)
    requires
        step_push_post(pre, post, s, used, store, Ok(t)),
    ensures
        post.produced@.dom().contains(s.output_key@),
        post.produced@[s.output_key@] == t@,
        post.ctx@.dom().contains(s.output_key@),
        post.ctx@[s.output_key@] == t@,
{
}

/// Parallel independence: what a group member observes — and therefore the
/// call it makes — depends only on the step itself, the store and the
/// group-entry context, never on its position in the group or on its
/// siblings. Two groups declaring the same step anywhere give it the same
/// entry.
pub proof fn lemma_parallel_independence(
    g1: Seq<StepSpec>,
    g2: Seq<StepSpec>,
    i: int,
    j: int,
    key: Seq<u8>,
    files: StrMap,
    ctx: Map<Seq<char>, Seq<char>>,
)
    requires
        0 <= i < g1.len(),
        0 <= j < g2.len(),
        g1[i] == g2[j],
    ensures
        member_entry_spec(g1[i], key, files, ctx) == member_entry_spec(g2[j], key, files, ctx),
{
}

} // verus!

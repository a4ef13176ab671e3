//! The fluent chain builder and the single-prompt runner.

use crate::chain::{
    fresh_step, same_but_fallback, same_but_mode, same_but_provider, Condition, ExecutionNode,
    ParallelGroupBuilder, PromptSource, StepMode, StepSpec,
};
use crate::engine::ChainRun;
use crate::errors::{RunError, StoreError};
use crate::kvmap::StrMap;
use crate::store::{find_spec, FindOut, PromptStore};
use crate::template::{render_spec, render_template};
use vstd::prelude::*;

verus! {

/// The result of running a prompt or a chain.
pub enum RunOutput {
    /// The text of a single prompt run.
    Prompt(String),
    /// The outputs of a chain run: every produced output key and text.
    Chain(StrMap),
}

/// A fluent builder that configures a single stored prompt for running.
pub struct PromptRunner {
    pub id_or_title: String,
    pub vars: StrMap,
}

impl PromptRunner {
    pub fn new(id_or_title: &str) -> (r: PromptRunner)
        ensures
            r.id_or_title@ == id_or_title@,
            r.vars@ == Map::<Seq<char>, Seq<char>>::empty(),
            r.vars.wf(),
    {
        PromptRunner { id_or_title: id_or_title.to_owned(), vars: StrMap::new() }
    }

    /// Replaces the variables used for template substitution.
    pub fn vars(self, vars: StrMap) -> (r: PromptRunner)
        ensures
            r.id_or_title@ == self.id_or_title@,
            r.vars == vars,
    {
        PromptRunner { id_or_title: self.id_or_title, vars }
    }

    /// Finds, decrypts and renders the prompt. With no backend this rendered
    /// text is the run's whole result; a driver may instead send it to a
    /// provider.
    pub fn render(&self, store: &PromptStore) -> (r: Result<String, RunError>)
        requires
            store.wf(),
            self.vars.wf(),
        ensures
            match find_spec(store.key@, store.files, self.id_or_title@) {
                FindOut::Found(v) => r matches Ok(t) && t@ == render_spec(v.content, self.vars@),
                FindOut::Missing => r matches Err(e) && (e matches RunError::Store(se)
                    && se is NotFound),
                FindOut::Ambiguous => r matches Err(e) && (e matches RunError::Store(se)
                    && se is AmbiguousTitle),
                FindOut::Unreadable(c) => r matches Err(e) && (e matches RunError::Store(se) && (c
                    ==> se is Crypto) && (!c ==> se is Json)),
            },
    {
        match store.find_prompt(self.id_or_title.as_str()) {
            Ok(pd) => Ok(render_template(pd.content.as_str(), &self.vars)),
            Err(e) => Err(RunError::Store(e)),
        }
    }
}

/// A fluent builder that declares a multi-step chain: sequential steps,
/// conditional steps, parallel groups, fallbacks, providers and seed
/// variables. `start` turns it into a run.
pub struct ChainRunner {
    pub nodes: Vec<ExecutionNode>,
    pub vars: StrMap,
}

impl ChainRunner {
    pub fn new() -> (r: ChainRunner)
        ensures
            r.nodes@.len() == 0,
            r.vars@ == Map::<Seq<char>, Seq<char>>::empty(),
            r.vars.wf(),
    {
        ChainRunner { nodes: Vec::new(), vars: StrMap::new() }
    }

    /// Adds a sequential step whose prompt is loaded from the store.
    pub fn step(self, output_key: &str, prompt_id_or_title: &str) -> (r: ChainRunner)
        ensures
            r.vars == self.vars,
            r.nodes@.len() == self.nodes@.len() + 1,
            r.nodes@.drop_last() == self.nodes@,
            r.nodes@.last() matches ExecutionNode::Step(s) && fresh_step(
                s,
                output_key@,
                Some(prompt_id_or_title@),
                None,
            ) && s.condition is None,
    {
        let mut nodes = self.nodes;
        nodes.push(
            ExecutionNode::Step(
                StepSpec {
                    output_key: output_key.to_owned(),
                    source: PromptSource::Stored(prompt_id_or_title.to_owned()),
                    provider_id: None,
                    mode: StepMode::Completion,
                    condition: None,
                    fallback_source: None,
                },
            ),
        );
        ChainRunner { nodes, vars: self.vars }
    }

    /// Adds a sequential step with a raw prompt template.
    pub fn step_raw(self, output_key: &str, prompt_content: &str) -> (r: ChainRunner)
        ensures
            r.vars == self.vars,
            r.nodes@.len() == self.nodes@.len() + 1,
            r.nodes@.drop_last() == self.nodes@,
            r.nodes@.last() matches ExecutionNode::Step(s) && fresh_step(
                s,
                output_key@,
                None,
                Some(prompt_content@),
            ) && s.condition is None,
    {
        let mut nodes = self.nodes;
        nodes.push(
            ExecutionNode::Step(
                StepSpec {
                    output_key: output_key.to_owned(),
                    source: PromptSource::Raw(prompt_content.to_owned()),
                    provider_id: None,
                    mode: StepMode::Completion,
                    condition: None,
                    fallback_source: None,
                },
            ),
        );
        ChainRunner { nodes, vars: self.vars }
    }

    /// Adds a conditional step loaded from the store; it runs only when the
    /// condition holds at its turn.
    pub fn step_if(self, output_key: &str, prompt_id_or_title: &str, condition: Condition) -> (r:
        ChainRunner)
        ensures
            r.vars == self.vars,
            r.nodes@.len() == self.nodes@.len() + 1,
            r.nodes@.drop_last() == self.nodes@,
            r.nodes@.last() matches ExecutionNode::Step(s) && fresh_step(
                s,
                output_key@,
                Some(prompt_id_or_title@),
                None,
            ) && (s.condition matches Some(c) && c == condition),
    {
        let mut nodes = self.nodes;
        nodes.push(
            ExecutionNode::Step(
                StepSpec {
                    output_key: output_key.to_owned(),
                    source: PromptSource::Stored(prompt_id_or_title.to_owned()),
                    provider_id: None,
                    mode: StepMode::Completion,
                    condition: Some(condition),
                    fallback_source: None,
                },
            ),
        );
        ChainRunner { nodes, vars: self.vars }
    }

    /// Adds a group of steps to run concurrently against one snapshot.
    pub fn parallel(self, group: ParallelGroupBuilder) -> (r: ChainRunner)
        ensures
            r.vars == self.vars,
            r.nodes@.len() == self.nodes@.len() + 1,
            r.nodes@.drop_last() == self.nodes@,
            r.nodes@.last() matches ExecutionNode::Parallel(g) && g@ == group.steps@,
    {
        let mut nodes = self.nodes;
        nodes.push(ExecutionNode::Parallel(group.steps));
        ChainRunner { nodes, vars: self.vars }
    }

    /// Sets a stored fallback prompt for the last added step; it is used once
    /// after the primary fails. A last node that is a group is unchanged.
    pub fn on_error_stored(self, fallback_id_or_title: &str) -> (r: ChainRunner)
        ensures
            r.vars == self.vars,
            self.nodes@.len() == 0 ==> r.nodes@ == self.nodes@,
            self.nodes@.len() > 0 ==> r.nodes@.len() == self.nodes@.len()
                && r.nodes@.drop_last() == self.nodes@.drop_last() && (match self.nodes@.last() {
                ExecutionNode::Step(s) => r.nodes@.last() matches ExecutionNode::Step(s2)
                    && same_but_fallback(s2, s) && (s2.fallback_source matches Some(f) && (
                    f matches PromptSource::Stored(q) && q@ == fallback_id_or_title@)),
                ExecutionNode::Parallel(_) => r.nodes@.last() == self.nodes@.last(),
            }),
    {
        self.set_fallback(PromptSource::Stored(fallback_id_or_title.to_owned()))
    }

    /// Sets a raw fallback prompt for the last added step.
    pub fn on_error_raw(self, fallback_content: &str) -> (r: ChainRunner)
        ensures
            r.vars == self.vars,
            self.nodes@.len() == 0 ==> r.nodes@ == self.nodes@,
            self.nodes@.len() > 0 ==> r.nodes@.len() == self.nodes@.len()
                && r.nodes@.drop_last() == self.nodes@.drop_last() && (match self.nodes@.last() {
                ExecutionNode::Step(s) => r.nodes@.last() matches ExecutionNode::Step(s2)
                    && same_but_fallback(s2, s) && (s2.fallback_source matches Some(f) && (
                    f matches PromptSource::Raw(q) && q@ == fallback_content@)),
                ExecutionNode::Parallel(_) => r.nodes@.last() == self.nodes@.last(),
            }),
    {
        self.set_fallback(PromptSource::Raw(fallback_content.to_owned()))
    }

    fn set_fallback(self, fb: PromptSource) -> (r: ChainRunner)
        ensures
            r.vars == self.vars,
            self.nodes@.len() == 0 ==> r.nodes@ == self.nodes@,
            self.nodes@.len() > 0 ==> r.nodes@.len() == self.nodes@.len()
                && r.nodes@.drop_last() == self.nodes@.drop_last() && (match self.nodes@.last() {
                ExecutionNode::Step(s) => r.nodes@.last() matches ExecutionNode::Step(s2)
                    && same_but_fallback(s2, s) && (s2.fallback_source matches Some(f) && f == fb),
                ExecutionNode::Parallel(_) => r.nodes@.last() == self.nodes@.last(),
            }),
    {
        let mut nodes = self.nodes;
        let n = nodes.len();
        if n > 0 {
            let last = nodes.remove(n - 1);
            let ghost pre = self.nodes@;
            match last {
                ExecutionNode::Step(s) => {
                    let updated = StepSpec { fallback_source: Some(fb), ..s };
                    nodes.push(ExecutionNode::Step(updated));
                },
                ExecutionNode::Parallel(g) => {
                    nodes.push(ExecutionNode::Parallel(g));
                },
            }
            proof {
                assert(nodes@.drop_last() =~= pre.drop_last());
            }
        }
        ChainRunner { nodes, vars: self.vars }
    }

    /// Sets the provider of the last added step, or of every member of the
    /// last added group that has none yet.
    pub fn with_provider(self, provider_id: &str) -> (r: ChainRunner)
        ensures
            r.vars == self.vars,
            self.nodes@.len() == 0 ==> r.nodes@ == self.nodes@,
            self.nodes@.len() > 0 ==> r.nodes@.len() == self.nodes@.len()
                && r.nodes@.drop_last() == self.nodes@.drop_last() && (match self.nodes@.last() {
                ExecutionNode::Step(s) => r.nodes@.last() matches ExecutionNode::Step(s2)
                    && same_but_provider(s2, s) && (s2.provider_id matches Some(p) && p@
                    == provider_id@),
                ExecutionNode::Parallel(g) => r.nodes@.last() matches ExecutionNode::Parallel(g2)
                    && g2@.len() == g@.len() && (forall|k: int|
                    0 <= k < g@.len() ==> same_but_provider(#[trigger] g2@[k], g@[k]) && (match g@[
                        k].provider_id {
                        None => g2@[k].provider_id matches Some(p) && p@ == provider_id@,
                        Some(_) => g2@[k].provider_id == g@[k].provider_id,
                    })),
            }),
    {
        let mut nodes = self.nodes;
        let n = nodes.len();
        if n > 0 {
            let last = nodes.remove(n - 1);
            let ghost pre = self.nodes@;
            match last {
                ExecutionNode::Step(s) => {
                    let updated = StepSpec { provider_id: Some(provider_id.to_owned()), ..s };
                    nodes.push(ExecutionNode::Step(updated));
                },
                ExecutionNode::Parallel(g) => {
                    let ghost gv = g@;
                    let mut g2: Vec<StepSpec> = Vec::new();
                    let mut g = g;
                    let mut k: usize = 0;
                    let glen = g.len();
                    while k < glen
                        invariant
                            0 <= k <= glen,
                            glen == gv.len(),
                            g@ == gv.subrange(k as int, glen as int),
                            g2@.len() == k,
                            forall|j: int|
                                0 <= j < k ==> same_but_provider(#[trigger] g2@[j], gv[j]) && (
                                match gv[j].provider_id {
                                    None => g2@[j].provider_id matches Some(p) && p@
                                        == provider_id@,
                                    Some(_) => g2@[j].provider_id == gv[j].provider_id,
                                }),
                        decreases glen - k,
                    {
                        let s = g.remove(0);
                        proof {
                            assert(gv.subrange(k as int, glen as int)[0] == gv[k as int]);
                            assert(gv.subrange(k as int, glen as int).subrange(
                                1,
                                glen - k,
                            ) =~= gv.subrange(k + 1, glen as int));
                        }
                        let has = match &s.provider_id {
                            Some(_) => true,
                            None => false,
                        };
                        if has {
                            g2.push(s);
                        } else {
                            g2.push(
                                StepSpec { provider_id: Some(provider_id.to_owned()), ..s },
                            );
                        }
                        k += 1;
                    }
                    nodes.push(ExecutionNode::Parallel(g2));
                },
            }
            proof {
                assert(nodes@.drop_last() =~= pre.drop_last());
            }
        }
        ChainRunner { nodes, vars: self.vars }
    }

    /// Sets the execution mode of the last added step; groups are unchanged.
    pub fn with_mode(self, mode: StepMode) -> (r: ChainRunner)
        ensures
            r.vars == self.vars,
            self.nodes@.len() == 0 ==> r.nodes@ == self.nodes@,
            self.nodes@.len() > 0 ==> r.nodes@.len() == self.nodes@.len()
                && r.nodes@.drop_last() == self.nodes@.drop_last() && (match self.nodes@.last() {
                ExecutionNode::Step(s) => r.nodes@.last() matches ExecutionNode::Step(s2)
                    && same_but_mode(s2, s) && s2.mode == mode,
                ExecutionNode::Parallel(_) => r.nodes@.last() == self.nodes@.last(),
            }),
    {
        let mut nodes = self.nodes;
        let n = nodes.len();
        if n > 0 {
            let last = nodes.remove(n - 1);
            let ghost pre = self.nodes@;
            match last {
                ExecutionNode::Step(s) => {
                    let updated = StepSpec { mode, ..s };
                    nodes.push(ExecutionNode::Step(updated));
                },
                ExecutionNode::Parallel(g) => {
                    nodes.push(ExecutionNode::Parallel(g));
                },
            }
            proof {
                assert(nodes@.drop_last() =~= pre.drop_last());
            }
        }
        ChainRunner { nodes, vars: self.vars }
    }

    /// Replaces the seed variables of the run.
    pub fn vars(self, vars: StrMap) -> (r: ChainRunner)
        ensures
            r.nodes@ == self.nodes@,
            r.vars == vars,
    {
        ChainRunner { nodes: self.nodes, vars }
    }

    /// Begins executing the declared chain over the seed variables.
    pub fn start(self) -> (r: ChainRun)
        requires
            self.vars.wf(),
        ensures
            r.wf(),
            r.nodes@ == self.nodes@,
            r.pos == 0,
            r.ctx@ == self.vars@,
            r.produced@ == Map::<Seq<char>, Seq<char>>::empty(),
            r.phase is Ready,
    {
        ChainRun::start(self.nodes, self.vars)
    }
}

} // verus!

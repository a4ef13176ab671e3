//! Chain declarations: step specifications, conditions, execution nodes and
//! the fluent builders, plus the resolution and rendering of one provider
//! call.

use crate::errors::{RunError, StoreError};
use crate::kvmap::StrMap;
use crate::store::{find_spec, FindOut, PromptStore};
use crate::template::{render_spec, render_template};
use crate::text::contains_spec;
use crate::trusted::str_to_chars;
use vstd::prelude::*;

verus! {

/// How a step drives its provider.
#[derive(Clone, Copy, PartialEq, Eq, Structural, Debug)]
pub enum StepMode {
    Chat,
    Completion,
    SpeechToText,
}

/// Where a step's prompt text comes from: the store, by id or title, or a
/// raw in-memory template.
pub enum PromptSource {
    Stored(String),
    Raw(String),
}

impl PromptSource {
    /// Structural copy; spec equality with the original is part of the contract.
    pub fn duplicate(&self) -> (r: PromptSource)
        ensures
            r == *self,
    {
        match self {
            PromptSource::Stored(s) => PromptSource::Stored(s.clone()),
            PromptSource::Raw(s) => PromptSource::Raw(s.clone()),
        }
    }
}

/// A declarative condition over the shared context: the variable must be
/// present, and equal to `equals` when given, else contain `contains` when
/// given; a condition with neither test never holds.
pub struct Condition {
    pub variable: String,
    pub equals: Option<String>,
    pub contains: Option<String>,
}

/// What a condition means over a context.
pub open spec fn cond_spec(cond: Condition, ctx: Map<Seq<char>, Seq<char>>) -> bool {
    if !ctx.dom().contains(cond.variable@) {
        false
    } else {
        match cond.equals {
            Some(e) => ctx[cond.variable@] == e@,
            None => match cond.contains {
                Some(sub) => contains_spec(ctx[cond.variable@], sub@),
                None => false,
            },
        }
    }
}

/// Evaluates a condition against the context.
pub fn check_condition(ctx: &StrMap, cond: &Condition) -> (r: bool)
    requires
        ctx.wf(),
    ensures
        r == cond_spec(*cond, ctx@),
{
    match ctx.get(&cond.variable) {
        None => false,
        Some(val) => {
            match &cond.equals {
                Some(e) => *val == *e,
                None => {
                    match &cond.contains {
                        Some(sub) => {
                            let h = str_to_chars(val.as_str());
                            let n = str_to_chars(sub.as_str());
                            crate::text::chars_contains(&h, &n)
                        },
                        None => false,
                    }
                },
            }
        },
    }
}

/// One declared step of a chain.
pub struct StepSpec {
    pub output_key: String,
    pub source: PromptSource,
    pub provider_id: Option<String>,
    pub mode: StepMode,
    pub condition: Option<Condition>,
    pub fallback_source: Option<PromptSource>,
}

/// Whether a step runs under the given context; no condition means always.
pub open spec fn step_active(step: StepSpec, ctx: Map<Seq<char>, Seq<char>>) -> bool {
    match step.condition {
        None => true,
        Some(c) => cond_spec(c, ctx),
    }
}

/// A node of the execution graph: one sequential step, or a group whose
/// members run concurrently against one snapshot.
pub enum ExecutionNode {
    Step(StepSpec),
    Parallel(Vec<StepSpec>),
}

/// One request to a text-generation provider.
pub struct ChatCall {
    pub provider_id: String,
    pub prompt: String,
    pub mode: StepMode,
    pub output_key: String,
}

impl ChatCall {
    /// Structural copy; spec equality with the original is part of the contract.
    pub fn duplicate(&self) -> (r: ChatCall)
        ensures
            r == *self,
    {
        ChatCall {
            provider_id: self.provider_id.clone(),
            prompt: self.prompt.clone(),
            mode: self.mode,
            output_key: self.output_key.clone(),
        }
    }
}

/// Mathematical value of a provider call.
pub ghost struct CallV {
    pub provider: Seq<char>,
    pub prompt: Seq<char>,
    pub mode: StepMode,
    pub key: Seq<char>,
}

pub open spec fn call_matches(c: ChatCall, v: CallV) -> bool {
    c.provider_id@ == v.provider && c.prompt@ == v.prompt && c.mode == v.mode && c.output_key@
        == v.key
}

/// Why preparing a call failed.
pub ghost enum PrepErr {
    /// The step names no provider.
    NoProvider,
    /// The stored source was not found.
    SourceMissing,
    /// The stored source's title was ambiguous.
    SourceAmbiguous,
    /// The stored source did not decrypt.
    SourceCrypto,
    /// The stored source's plaintext was malformed.
    SourceEncoding,
}

/// Which error value a preparation failure surfaces as.
pub open spec fn err_matches(e: RunError, k: PrepErr) -> bool {
    match e {
        RunError::Store(se) => match k {
            PrepErr::NoProvider => se is Configuration,
            PrepErr::SourceMissing => se is NotFound,
            PrepErr::SourceAmbiguous => se is AmbiguousTitle,
            PrepErr::SourceCrypto => se is Crypto,
            PrepErr::SourceEncoding => se is Json,
        },
        RunError::Llm(_) => false,
    }
}

/// The text a source resolves to: raw text verbatim, or the content of the
/// stored record the id or title denotes.
pub open spec fn source_text_spec(src: PromptSource, key: Seq<u8>, files: StrMap) -> Result<
    Seq<char>,
    PrepErr,
> {
    match src {
        PromptSource::Raw(s) => Ok(s@),
        PromptSource::Stored(q) => match find_spec(key, files, q@) {
            FindOut::Found(v) => Ok(v.content),
            FindOut::Missing => Err(PrepErr::SourceMissing),
            FindOut::Ambiguous => Err(PrepErr::SourceAmbiguous),
            FindOut::Unreadable(c) => if c {
                Err(PrepErr::SourceCrypto)
            } else {
                Err(PrepErr::SourceEncoding)
            },
        },
    }
}

/// The call a step makes for a given source: the step's provider and mode,
/// and the resolved source rendered against the context.
pub open spec fn prepare_spec(
    step: StepSpec,
    src: PromptSource,
    key: Seq<u8>,
    files: StrMap,
    ctx: Map<Seq<char>, Seq<char>>,
) -> Result<CallV, PrepErr> {
    match step.provider_id {
        None => Err(PrepErr::NoProvider),
        Some(pid) => match source_text_spec(src, key, files) {
            Err(k) => Err(k),
            Ok(text) => Ok(
                CallV {
                    provider: pid@,
                    prompt: render_spec(text, ctx),
                    mode: step.mode,
                    key: step.output_key@,
                },
            ),
        },
    }
}

/// Resolves a step's source and renders it, yielding the provider call, or
/// the typed error that rules the step's outcome.
pub fn prepare_call(step: &StepSpec, src: &PromptSource, store: &PromptStore, ctx: &StrMap) -> (r:
    Result<ChatCall, RunError>)
    requires
        store.wf(),
        ctx.wf(),
    ensures
        match prepare_spec(*step, *src, store.key@, store.files, ctx@) {
            Ok(v) => r matches Ok(c) && call_matches(c, v),
            Err(k) => r matches Err(e) && err_matches(e, k),
        },
{
    let pid = match &step.provider_id {
        Some(p) => p.clone(),
        None => {
            return Err(
                RunError::Store(
                    StoreError::Configuration("Step is missing a provider ID.".to_string()),
                ),
            );
        },
    };
    let text: String = match src {
        PromptSource::Raw(s) => s.clone(),
        PromptSource::Stored(q) => {
            match store.find_prompt(q.as_str()) {
                Ok(pd) => pd.content,
                Err(e) => {
                    return Err(RunError::Store(e));
                },
            }
        },
    };
    let rendered = render_template(text.as_str(), ctx);
    Ok(ChatCall { provider_id: pid, prompt: rendered, mode: step.mode, output_key: step.output_key.clone() })
}

/// A builder for the members of one parallel group.
pub struct ParallelGroupBuilder {
    pub steps: Vec<StepSpec>,
}

/// The default shape of a newly added step.
pub open spec fn fresh_step(
    s: StepSpec,
    key: Seq<char>,
    stored: Option<Seq<char>>,
    raw: Option<Seq<char>>,
) -> bool {
    s.output_key@ == key && (match stored {
        Some(q) => s.source matches PromptSource::Stored(x) && x@ == q,
        None => true,
    }) && (match raw {
        Some(q) => s.source matches PromptSource::Raw(x) && x@ == q,
        None => true,
    }) && s.provider_id is None && s.mode == StepMode::Completion && s.fallback_source is None
}

impl ParallelGroupBuilder {
    pub fn new() -> (r: ParallelGroupBuilder)
        ensures
            r.steps@.len() == 0,
    {
        ParallelGroupBuilder { steps: Vec::new() }
    }

    /// Adds a member whose prompt is loaded from the store.
    pub fn step(self, output_key: &str, prompt_id_or_title: &str) -> (r: ParallelGroupBuilder)
        ensures
            r.steps@.len() == self.steps@.len() + 1,
            r.steps@.drop_last() == self.steps@,
            fresh_step(r.steps@.last(), output_key@, Some(prompt_id_or_title@), None),
            r.steps@.last().condition is None,
    {
        let mut steps = self.steps;
        steps.push(
            StepSpec {
                output_key: output_key.to_owned(),
                source: PromptSource::Stored(prompt_id_or_title.to_owned()),
                provider_id: None,
                mode: StepMode::Completion,
                condition: None,
                fallback_source: None,
            },
        );
        ParallelGroupBuilder { steps }
    }

    /// Adds a member with a raw prompt template.
    pub fn step_raw(self, output_key: &str, prompt_content: &str) -> (r: ParallelGroupBuilder)
        ensures
            r.steps@.len() == self.steps@.len() + 1,
            r.steps@.drop_last() == self.steps@,
            fresh_step(r.steps@.last(), output_key@, None, Some(prompt_content@)),
            r.steps@.last().condition is None,
    {
        let mut steps = self.steps;
        steps.push(
            StepSpec {
                output_key: output_key.to_owned(),
                source: PromptSource::Raw(prompt_content.to_owned()),
                provider_id: None,
                mode: StepMode::Completion,
                condition: None,
                fallback_source: None,
            },
        );
        ParallelGroupBuilder { steps }
    }

    /// Adds a conditional member loaded from the store.
    pub fn step_if(self, output_key: &str, prompt_id_or_title: &str, condition: Condition) -> (r:
        ParallelGroupBuilder)
        ensures
            r.steps@.len() == self.steps@.len() + 1,
            r.steps@.drop_last() == self.steps@,
            fresh_step(r.steps@.last(), output_key@, Some(prompt_id_or_title@), None),
            r.steps@.last().condition matches Some(c) && c == condition,
    {
        let mut steps = self.steps;
        steps.push(
            StepSpec {
                output_key: output_key.to_owned(),
                source: PromptSource::Stored(prompt_id_or_title.to_owned()),
                provider_id: None,
                mode: StepMode::Completion,
                condition: Some(condition),
                fallback_source: None,
            },
        );
        ParallelGroupBuilder { steps }
    }

    /// Sets the provider of the last added member.
    pub fn with_provider(self, provider_id: &str) -> (r: ParallelGroupBuilder)
        ensures
            self.steps@.len() == 0 ==> r.steps@ == self.steps@,
            self.steps@.len() > 0 ==> r.steps@.len() == self.steps@.len() && r.steps@.drop_last()
                == self.steps@.drop_last() && (r.steps@.last().provider_id matches Some(p) && p@
                == provider_id@) && same_but_provider(r.steps@.last(), self.steps@.last()),
    {
        let mut steps = self.steps;
        let n = steps.len();
        if n > 0 {
            let last = steps.remove(n - 1);
            let updated = StepSpec { provider_id: Some(provider_id.to_owned()), ..last };
            steps.push(updated);
            proof {
                assert(steps@.drop_last() =~= old_steps_view(self.steps@));
            }
        }
        ParallelGroupBuilder { steps }
    }

    /// Sets a stored fallback prompt for the last added member; it is used
    /// once after the member's primary fails.
    pub fn on_error_stored(self, fallback_id_or_title: &str) -> (r: ParallelGroupBuilder)
        ensures
            self.steps@.len() == 0 ==> r.steps@ == self.steps@,
            self.steps@.len() > 0 ==> r.steps@.len() == self.steps@.len() && r.steps@.drop_last()
                == self.steps@.drop_last() && same_but_fallback(r.steps@.last(), self.steps@.last())
                && (r.steps@.last().fallback_source matches Some(f) && (
            f matches PromptSource::Stored(q) && q@ == fallback_id_or_title@)),
    {
        self.set_fallback(PromptSource::Stored(fallback_id_or_title.to_owned()))
    }

    /// Sets a raw fallback prompt for the last added member.
    pub fn on_error_raw(self, fallback_content: &str) -> (r: ParallelGroupBuilder)
        ensures
            self.steps@.len() == 0 ==> r.steps@ == self.steps@,
            self.steps@.len() > 0 ==> r.steps@.len() == self.steps@.len() && r.steps@.drop_last()
                == self.steps@.drop_last() && same_but_fallback(r.steps@.last(), self.steps@.last())
                && (r.steps@.last().fallback_source matches Some(f) && (
            f matches PromptSource::Raw(q) && q@ == fallback_content@)),
    {
        self.set_fallback(PromptSource::Raw(fallback_content.to_owned()))
    }

    fn set_fallback(self, fb: PromptSource) -> (r: ParallelGroupBuilder)
        ensures
            self.steps@.len() == 0 ==> r.steps@ == self.steps@,
            self.steps@.len() > 0 ==> r.steps@.len() == self.steps@.len() && r.steps@.drop_last()
                == self.steps@.drop_last() && same_but_fallback(r.steps@.last(), self.steps@.last())
                && (r.steps@.last().fallback_source matches Some(f) && f == fb),
    {
        let mut steps = self.steps;
        let n = steps.len();
        if n > 0 {
            let last = steps.remove(n - 1);
            let updated = StepSpec { fallback_source: Some(fb), ..last };
            steps.push(updated);
            proof {
                assert(steps@.drop_last() =~= old_steps_view(self.steps@));
            }
        }
        ParallelGroupBuilder { steps }
    }
}

/// The sequence without its last element; named for readability in proofs.
pub open spec fn old_steps_view(s: Seq<StepSpec>) -> Seq<StepSpec> {
    s.drop_last()
}

/// Two steps that agree on everything but the provider.
pub open spec fn same_but_provider(a: StepSpec, b: StepSpec) -> bool {
    a.output_key == b.output_key && a.source == b.source && a.mode == b.mode && a.condition
        == b.condition && a.fallback_source == b.fallback_source
}

/// Two steps that agree on everything but the fallback source.
pub open spec fn same_but_fallback(a: StepSpec, b: StepSpec) -> bool {
    a.output_key == b.output_key && a.source == b.source && a.mode == b.mode && a.condition
        == b.condition && a.provider_id == b.provider_id
}

/// Two steps that agree on everything but the mode.
pub open spec fn same_but_mode(a: StepSpec, b: StepSpec) -> bool {
    a.output_key == b.output_key && a.source == b.source && a.provider_id == b.provider_id
        && a.condition == b.condition && a.fallback_source == b.fallback_source
}

} // verus!

use prompt_store::chain::{check_condition, ChatCall, Condition, ParallelGroupBuilder};
use prompt_store::engine::{ChainRun, RunPoll};
use prompt_store::errors::{RunError, StoreError};
use prompt_store::kvmap::StrMap;
use prompt_store::runner::{ChainRunner, PromptRunner};
use prompt_store::store::PromptStore;

fn new_store() -> PromptStore {
    PromptStore::new_from_key((0u8..32).collect(), StrMap::new()).unwrap()
}

fn vars(pairs: &[(&str, &str)]) -> StrMap {
    let mut m = StrMap::new();
    for (k, v) in pairs {
        m.insert(k.to_string(), v.to_string());
    }
    m
}

fn eq_cond(var: &str, value: &str) -> Condition {
    Condition {
        variable: var.to_string(),
        equals: Some(value.to_string()),
        contains: None,
    }
}

/// Drives a run to completion, answering every call with `respond`.
fn drive(
    mut run: ChainRun,
    store: &PromptStore,
    respond: impl Fn(&ChatCall) -> Result<String, RunError>,
) -> Result<StrMap, RunError> {
    let mut fuel = 1000;
    loop {
        fuel -= 1;
        assert!(fuel > 0, "driver did not settle");
        match run.poll(store) {
            RunPoll::Progressed => continue,
            RunPoll::Done(outputs) => return Ok(outputs),
            RunPoll::Failed(e) => return Err(e),
            RunPoll::Calls(calls) => {
                let replies: Vec<Result<String, RunError>> =
                    calls.iter().map(|c| respond(c)).collect();
                run.push_results(store, replies);
            },
        }
    }
}

#[test]
fn empty_chain_yields_empty_success() {
    let store = new_store();
    let run = ChainRunner::new().vars(vars(&[("seed", "s")])).start();
    let out = drive(run, &store, |_| Ok("x".to_string())).unwrap();
    assert_eq!(out.len(), 0);
}

#[test]
fn sequential_steps_see_prior_outputs() {
    let store = new_store();
    let run = ChainRunner::new()
        .step_raw("first", "start {{seed}}")
        .with_provider("p")
        .step_raw("second", "then {{first}}")
        .with_provider("p")
        .vars(vars(&[("seed", "s0")]))
        .start();
    let out = drive(run, &store, |c| Ok(format!("[{}]", c.prompt))).unwrap();
    assert_eq!(out.get(&"first".to_string()).unwrap().as_str(), "[start s0]");
    assert_eq!(out.get(&"second".to_string()).unwrap().as_str(), "[then [start s0]]");
}

#[test]
fn conditional_step_skipped_key_absent() {
    let store = new_store();
    let run = ChainRunner::new()
        .step_if("gated", "whatever", eq_cond("flag", "on"))
        .with_provider("p")
        .vars(vars(&[("flag", "off")]))
        .start();
    let out = drive(run, &store, |_| Ok("ran".to_string())).unwrap();
    assert!(out.get(&"gated".to_string()).is_none());
    assert_eq!(out.len(), 0);
}

#[test]
fn conditional_step_taken_key_present() {
    let store = new_store();
    let run = ChainRunner::new()
        .step_raw("plain", "text")
        .with_provider("p")
        .step_if("gated", "missing-id", eq_cond("flag", "on"))
        .on_error_raw("fallback body")
        .with_provider("p")
        .vars(vars(&[("flag", "on")]))
        .start();
    let out = drive(run, &store, |c| Ok(format!("<{}>", c.prompt))).unwrap();
    assert_eq!(out.get(&"gated".to_string()).unwrap().as_str(), "<fallback body>");
    assert_eq!(out.len(), 2);
}

#[test]
fn fallback_success_keeps_output_key() {
    let store = new_store();
    // The primary stored source does not exist, so resolution fails; the raw
    // fallback is rendered and invoked instead, under the same key.
    let run = ChainRunner::new()
        .step("answer", "no-such-prompt")
        .on_error_raw("fb {{seed}}")
        .with_provider("p")
        .vars(vars(&[("seed", "s")]))
        .start();
    let out = drive(run, &store, |c| Ok(format!("ok:{}", c.prompt))).unwrap();
    assert_eq!(out.get(&"answer".to_string()).unwrap().as_str(), "ok:fb s");
}

#[test]
fn fallback_after_provider_failure() {
    let store = new_store();
    let run = ChainRunner::new()
        .step_raw("answer", "primary")
        .on_error_raw("secondary")
        .with_provider("p")
        .vars(StrMap::new())
        .start();
    let out = drive(run, &store, |c| {
        if c.prompt == "primary" {
            Err(RunError::Llm("boom".to_string()))
        } else {
            Ok("recovered".to_string())
        }
    })
    .unwrap();
    assert_eq!(out.get(&"answer".to_string()).unwrap().as_str(), "recovered");
}

#[test]
fn failure_without_fallback_fails_run_with_no_outputs() {
    let store = new_store();
    let run = ChainRunner::new()
        .step_raw("a", "first")
        .with_provider("p")
        .step_raw("b", "second")
        .with_provider("p")
        .vars(StrMap::new())
        .start();
    let r = drive(run, &store, |c| {
        if c.prompt == "second" {
            Err(RunError::Llm("down".to_string()))
        } else {
            Ok("fine".to_string())
        }
    });
    match r {
        Err(RunError::Llm(msg)) => assert_eq!(msg, "down"),
        other => panic!("expected the provider error verbatim, got {:?}", other.is_ok()),
    }
}

#[test]
fn failed_run_stays_failed() {
    let store = new_store();
    let mut run = ChainRunner::new()
        .step_raw("a", "p")
        .with_provider("p")
        .vars(StrMap::new())
        .start();
    let calls = match run.poll(&store) {
        RunPoll::Calls(cs) => cs,
        _ => panic!("expected a call"),
    };
    assert_eq!(calls.len(), 1);
    run.push_results(&store, vec![Err(RunError::Llm("x".to_string()))]);
    for _ in 0..3 {
        match run.poll(&store) {
            RunPoll::Failed(RunError::Llm(m)) => assert_eq!(m, "x"),
            _ => panic!("a failed run must stay failed"),
        }
    }
}

#[test]
fn missing_provider_is_configuration_error() {
    let store = new_store();
    let run = ChainRunner::new().step_raw("a", "p").vars(StrMap::new()).start();
    match drive(run, &store, |_| Ok("x".to_string())) {
        Err(RunError::Store(StoreError::Configuration(_))) => {},
        _ => panic!("expected a configuration error"),
    }
}

#[test]
fn parallel_members_observe_group_entry_context() {
    let store = new_store();
    let group = ParallelGroupBuilder::new()
        .step_raw("left", "L:{{seed}}:{{right}}")
        .step_raw("right", "R:{{seed}}:{{left}}");
    let run = ChainRunner::new()
        .parallel(group)
        .with_provider("p")
        .step_raw("after", "A:{{left}}:{{right}}")
        .with_provider("p")
        .vars(vars(&[("seed", "s")]))
        .start();
    let out = drive(run, &store, |c| Ok(c.prompt.clone())).unwrap();
    // Both members rendered against the context as it stood before the group:
    // neither saw the other's output, whichever was declared first.
    assert_eq!(out.get(&"left".to_string()).unwrap().as_str(), "L:s:");
    assert_eq!(out.get(&"right".to_string()).unwrap().as_str(), "R:s:");
    // The step after the group sees both merged outputs.
    assert_eq!(out.get(&"after".to_string()).unwrap().as_str(), "A:L:s::R:s:");
}

#[test]
fn parallel_snapshot_is_order_independent() {
    let store = new_store();
    let respond = |c: &ChatCall| Ok::<String, RunError>(c.prompt.clone());

    let g1 = ParallelGroupBuilder::new()
        .step_raw("left", "L:{{seed}}:{{right}}")
        .step_raw("right", "R:{{seed}}:{{left}}");
    let out1 = drive(
        ChainRunner::new().parallel(g1).with_provider("p").vars(vars(&[("seed", "s")])).start(),
        &store,
        respond,
    )
    .unwrap();

    let g2 = ParallelGroupBuilder::new()
        .step_raw("right", "R:{{seed}}:{{left}}")
        .step_raw("left", "L:{{seed}}:{{right}}");
    let out2 = drive(
        ChainRunner::new().parallel(g2).with_provider("p").vars(vars(&[("seed", "s")])).start(),
        &store,
        respond,
    )
    .unwrap();

    assert_eq!(out1.get(&"left".to_string()), out2.get(&"left".to_string()));
    assert_eq!(out1.get(&"right".to_string()), out2.get(&"right".to_string()));
}

#[test]
fn parallel_member_failure_fails_at_join_after_all_finish() {
    let store = new_store();
    let group = ParallelGroupBuilder::new()
        .step_raw("ok1", "one")
        .step_raw("bad", "two")
        .step_raw("ok2", "three");
    let mut run = ChainRunner::new()
        .parallel(group)
        .with_provider("p")
        .vars(StrMap::new())
        .start();
    let calls = match run.poll(&store) {
        RunPoll::Calls(cs) => cs,
        _ => panic!("expected the group's calls"),
    };
    // All three members were dispatched together before any failure counted.
    assert_eq!(calls.len(), 3);
    let replies = calls
        .iter()
        .map(|c| {
            if c.prompt == "two" {
                Err(RunError::Llm("member down".to_string()))
            } else {
                Ok("fine".to_string())
            }
        })
        .collect();
    run.push_results(&store, replies);
    match run.poll(&store) {
        RunPoll::Failed(RunError::Llm(m)) => assert_eq!(m, "member down"),
        _ => panic!("expected the member failure at the join"),
    }
}

#[test]
fn repeated_output_key_last_writer_wins() {
    let store = new_store();
    let run = ChainRunner::new()
        .step_raw("k", "one")
        .with_provider("p")
        .step_raw("k", "two")
        .with_provider("p")
        .vars(StrMap::new())
        .start();
    let out = drive(run, &store, |c| Ok(c.prompt.clone())).unwrap();
    assert_eq!(out.len(), 1);
    assert_eq!(out.get(&"k".to_string()).unwrap().as_str(), "two");
}

#[test]
fn end_to_end_feedback_scenario() {
    let mut store = new_store();
    store
        .create_prompt(
            "Sentiment".to_string(),
            "Classify: {{feedback}}".to_string(),
            Vec::new(),
            None,
        )
        .unwrap();
    let run = ChainRunner::new()
        .step("sentiment", "sentiment")
        .with_provider("p")
        .step_if("positive_reply", "reply", eq_cond("sentiment", "positive"))
        .with_provider("p")
        .step_if(
            "negative_reply",
            "reply-negative-missing",
            eq_cond("sentiment", "negative"),
        )
        .on_error_raw("We are sorry about: {{feedback}}")
        .with_provider("p")
        .vars(vars(&[("feedback", "The app keeps crashing")]))
        .start();
    let out = drive(run, &store, |c| {
        if c.prompt.starts_with("Classify:") {
            Ok("negative".to_string())
        } else {
            Ok(format!("reply({})", c.prompt))
        }
    })
    .unwrap();
    assert!(out.get(&"sentiment".to_string()).is_some());
    assert_eq!(out.get(&"sentiment".to_string()).unwrap().as_str(), "negative");
    assert!(out.get(&"positive_reply".to_string()).is_none());
    assert_eq!(
        out.get(&"negative_reply".to_string()).unwrap(),
        "reply(We are sorry about: The app keeps crashing)"
    );
    assert_eq!(out.len(), 2);
}

#[test]
fn prompt_runner_renders_stored_prompt() {
    let mut store = new_store();
    store
        .create_prompt("Hello".to_string(), "Hi {{name}}!".to_string(), Vec::new(), None)
        .unwrap();
    let rendered = PromptRunner::new("hello")
        .vars(vars(&[("name", "Ada")]))
        .render(&store)
        .unwrap();
    assert_eq!(rendered, "Hi Ada!");
    let missing = PromptRunner::new("absent").render(&store);
    assert!(matches!(missing, Err(RunError::Store(StoreError::NotFound(_)))));
}

#[test]
fn check_condition_variants() {
    let ctx = vars(&[("mood", "very happy")]);
    assert!(check_condition(&ctx, &eq_cond("mood", "very happy")));
    assert!(!check_condition(&ctx, &eq_cond("mood", "sad")));
    assert!(!check_condition(&ctx, &eq_cond("absent", "x")));
    let contains = Condition {
        variable: "mood".to_string(),
        equals: None,
        contains: Some("happy".to_string()),
    };
    assert!(check_condition(&ctx, &contains));
    let neither = Condition {
        variable: "mood".to_string(),
        equals: None,
        contains: None,
    };
    assert!(!check_condition(&ctx, &neither));
}

#[test]
fn parallel_member_fallback_recovers() {
    let store = new_store();
    let group = ParallelGroupBuilder::new()
        .step_raw("sturdy", "fine")
        .step_raw("shaky", "breaks")
        .on_error_raw("plan b {{seed}}")
        .with_provider("q");
    let run = ChainRunner::new()
        .parallel(group)
        .with_provider("p")
        .vars(vars(&[("seed", "s")]))
        .start();
    let out = drive(run, &store, |c| {
        if c.prompt == "breaks" {
            Err(RunError::Llm("first try down".to_string()))
        } else {
            Ok(format!("ok:{}", c.prompt))
        }
    })
    .unwrap();
    assert_eq!(out.get(&"sturdy".to_string()).unwrap().as_str(), "ok:fine");
    assert_eq!(out.get(&"shaky".to_string()).unwrap().as_str(), "ok:plan b s");
}

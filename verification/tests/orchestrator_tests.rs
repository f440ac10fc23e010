use rkllm_cli::detect::{ToolCall, ToolCallDetector};
use rkllm_cli::json::JsonValue;
use rkllm_cli::orchestrator::{
    dispatch_for, next_round, plan_tool_calls, Dispatch, ToolCallAllowance, TurnVerdict,
};

fn call(name: &str) -> ToolCall {
    ToolCall { name: name.to_string(), arguments: JsonValue::Obj(Vec::new()) }
}

#[test]
fn duplicate_calls_in_one_response_execute_once() {
    // The model emits the same call twice in one response; only the
    // first executes, the repeat blocks the turn.
    let text = "[TOOL_CALL]{\"name\":\"search\",\"arguments\":{}}[END_TOOL_CALL]\
                [TOOL_CALL]{\"name\":\"search\",\"arguments\":{}}[END_TOOL_CALL]";
    let calls = ToolCallDetector::new().detect(text);
    assert_eq!(calls.len(), 2);
    let mut seen: Vec<String> = Vec::new();
    let (plan, blocked) = plan_tool_calls(&calls, &mut seen, ToolCallAllowance::All);
    assert_eq!(plan.len(), 1);
    assert!(blocked);
    assert_eq!(seen, vec!["search".to_string()]);
}

#[test]
fn names_seen_in_an_earlier_round_stay_blocked() {
    let mut seen: Vec<String> = Vec::new();
    let round1 = vec![call("get_weather")];
    let (plan1, blocked1) = plan_tool_calls(&round1, &mut seen, ToolCallAllowance::All);
    assert_eq!(plan1.len(), 1);
    assert!(!blocked1);

    let round2 = vec![call("write_file"), call("get_weather")];
    let (plan2, blocked2) = plan_tool_calls(&round2, &mut seen, ToolCallAllowance::WriteOnly);
    assert_eq!(plan2.len(), 1);
    assert_eq!(plan2[0].name, "write_file");
    assert!(blocked2);
}

#[test]
fn write_only_round_blocks_other_tools() {
    // A write_file call in a later round executes under the WriteOnly
    // allowance; a search_docs call is blocked and ends the turn.
    let mut seen: Vec<String> = Vec::new();
    let calls = vec![call("write_file"), call("search_docs")];
    let (plan, blocked) = plan_tool_calls(&calls, &mut seen, ToolCallAllowance::WriteOnly);
    assert_eq!(plan.len(), 1);
    assert_eq!(plan[0].name, "write_file");
    assert!(blocked);
}

#[test]
fn round_cap_stops_a_looping_model_within_three_rounds() {
    let mut rounds: usize = 0;
    assert_eq!(next_round(1, false, &mut rounds), TurnVerdict::Continue);
    assert_eq!(next_round(1, false, &mut rounds), TurnVerdict::Continue);
    assert_eq!(next_round(1, false, &mut rounds), TurnVerdict::LimitReached);
    assert_eq!(rounds, 3);
}

#[test]
fn blocked_and_empty_rounds_end_the_turn() {
    let mut rounds: usize = 0;
    assert_eq!(next_round(2, true, &mut rounds), TurnVerdict::BlockedRepeat);
    assert_eq!(rounds, 0);
    assert_eq!(next_round(0, false, &mut rounds), TurnVerdict::NoCalls);
    assert_eq!(rounds, 0);
}

#[test]
fn reserved_names_bypass_the_registry() {
    assert_eq!(dispatch_for("read_file"), Dispatch::LocalRead);
    assert_eq!(dispatch_for("write_file"), Dispatch::LocalWrite);
    assert_eq!(dispatch_for("search_docs"), Dispatch::Registry);
}

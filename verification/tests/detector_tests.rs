use rkllm_cli::detect::ToolCallDetector;
use rkllm_cli::json::JsonValue;

fn arg_str<'a>(v: &'a JsonValue, key: &str) -> Option<&'a str> {
    v.get(key).and_then(|x| x.as_str()).map(|s| s.as_str())
}

#[test]
fn test_detect_json_style() {
    let detector = ToolCallDetector::new();

    let text = r#"
Let me check the weather for you.

[TOOL_CALL]
{
  "name": "get_weather",
  "arguments": {
    "location": "Tokyo"
  }
}
[END_TOOL_CALL]

I'll get that information for you.
"#;

    let calls = detector.detect(text);
    assert_eq!(calls.len(), 1);
    assert_eq!(calls[0].name, "get_weather");
    assert_eq!(arg_str(&calls[0].arguments, "location"), Some("Tokyo"));
}

#[test]
fn test_detect_xml_style() {
    let detector = ToolCallDetector::new();

    let text = r#"
I'll search for that file.

<tool_call name="list_files">
  <argument name="directory">/home/user</argument>
  <argument name="pattern">*.rs</argument>
</tool_call>

Here are the results.
"#;

    let calls = detector.detect(text);
    assert_eq!(calls.len(), 1);
    assert_eq!(calls[0].name, "list_files");
    assert_eq!(arg_str(&calls[0].arguments, "directory"), Some("/home/user"));
    assert_eq!(arg_str(&calls[0].arguments, "pattern"), Some("*.rs"));
}

#[test]
fn test_detect_multiple_calls() {
    let detector = ToolCallDetector::new();

    let text = r#"
First, I'll check the weather:

[TOOL_CALL]
{"name": "get_weather", "arguments": {"location": "Tokyo"}}
[END_TOOL_CALL]

Then I'll save it to a file:

[TOOL_CALL]
{"name": "write_file", "arguments": {"path": "weather.txt", "content": "sunny"}}
[END_TOOL_CALL]
"#;

    let calls = detector.detect(text);
    assert_eq!(calls.len(), 2);
    assert_eq!(calls[0].name, "get_weather");
    assert_eq!(calls[1].name, "write_file");
}

#[test]
fn test_no_tool_calls() {
    let detector = ToolCallDetector::new();

    let text = "This is just regular text without any tool calls.";

    let calls = detector.detect(text);
    assert_eq!(calls.len(), 0);
}

#[test]
fn detect_skips_malformed_json_block() {
    let detector = ToolCallDetector::new();
    let calls = detector.detect("[TOOL_CALL]{not json}[END_TOOL_CALL]");
    assert_eq!(calls.len(), 0);
}

#[test]
fn detect_exact_scenario_newlines() {
    let detector = ToolCallDetector::new();
    let text = "[TOOL_CALL]\n{\"name\":\"get_weather\",\"arguments\":{\"location\":\"Tokyo\"}}\n[END_TOOL_CALL]";
    let calls = detector.detect(text);
    assert_eq!(calls.len(), 1);
    assert_eq!(calls[0].name, "get_weather");
    assert_eq!(arg_str(&calls[0].arguments, "location"), Some("Tokyo"));
}

#[test]
fn detect_xml_body_parsed_whole_as_json() {
    let detector = ToolCallDetector::new();
    let text = "<tool_call name=\"read_file\">{\"path\":\"notes.txt\"}</tool_call>";
    let calls = detector.detect(text);
    assert_eq!(calls.len(), 1);
    assert_eq!(calls[0].name, "read_file");
    assert_eq!(arg_str(&calls[0].arguments, "path"), Some("notes.txt"));
}

#[test]
fn detect_keeps_going_after_bad_block() {
    let detector = ToolCallDetector::new();
    let text = "[TOOL_CALL]{oops}[END_TOOL_CALL] then [TOOL_CALL]{\"name\":\"a\",\"arguments\":{}}[END_TOOL_CALL]";
    let calls = detector.detect(text);
    assert_eq!(calls.len(), 1);
    assert_eq!(calls[0].name, "a");
}

#[test]
fn detect_xml_argument_value_json_typed() {
    let detector = ToolCallDetector::new();
    let text = "<tool_call name=\"t\"><argument name=\"count\">5</argument></tool_call>";
    let calls = detector.detect(text);
    assert_eq!(calls.len(), 1);
    match calls[0].arguments.get("count") {
        Some(JsonValue::Int(v)) => assert_eq!(*v, 5),
        other => panic!("count was not an integer: {:?}", other.is_some()),
    }
}

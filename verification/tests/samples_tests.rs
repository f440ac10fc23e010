use rkllm_cli::detect::ToolCallDetector;
use rkllm_cli::json::JsonValue;
use rkllm_cli::registry::{build_sample_arguments, build_tool_info, build_tool_sample_block};
use rkllm_cli::session::{Tool, ToolInputSchema};

fn schema_str() -> JsonValue {
    JsonValue::Obj(vec![("type".to_string(), JsonValue::Str("string".to_string()))])
}

fn schema_str_default(default: &str) -> JsonValue {
    JsonValue::Obj(vec![
        ("type".to_string(), JsonValue::Str("string".to_string())),
        ("default".to_string(), JsonValue::Str(default.to_string())),
    ])
}

#[test]
fn build_sample_arguments_prefers_required() {
    let tool = Tool {
        name: "list_directory".to_string(),
        description: None,
        input_schema: ToolInputSchema {
            schema_type: "object".to_string(),
            properties: Some(vec![
                ("path".to_string(), schema_str_default("/tmp")),
                ("recursive".to_string(), JsonValue::Obj(vec![(
                    "type".to_string(),
                    JsonValue::Str("boolean".to_string()),
                )])),
            ]),
            required: Some(vec!["path".to_string()]),
            additional_properties: None,
        },
    };

    let args = build_sample_arguments(&tool);
    match &args {
        JsonValue::Obj(members) => {
            assert_eq!(members.len(), 1);
            assert_eq!(members[0].0, "path");
        }
        _ => panic!("sample arguments must be an object"),
    }
    match args.get("path") {
        Some(JsonValue::Str(s)) => assert_eq!(s, "/tmp"),
        _ => panic!("the default value must win"),
    }
}

#[test]
fn build_sample_arguments_adds_placeholder_when_empty() {
    let tool = Tool {
        name: "ping".to_string(),
        description: None,
        input_schema: ToolInputSchema {
            schema_type: "object".to_string(),
            properties: None,
            required: None,
            additional_properties: None,
        },
    };

    let args = build_sample_arguments(&tool);
    match args.get("example") {
        Some(JsonValue::Str(s)) => assert_eq!(s, "value"),
        _ => panic!("the placeholder must be present"),
    }
}

#[test]
fn build_tool_sample_block_pretty_prints_the_arguments() {
    // The block wraps the pretty form: one member per line, two-space
    // indentation, a space after the colon.
    let tool = Tool {
        name: "echo".to_string(),
        description: None,
        input_schema: ToolInputSchema {
            schema_type: "object".to_string(),
            properties: Some(vec![("message".to_string(), schema_str())]),
            required: None,
            additional_properties: None,
        },
    };
    let block = build_tool_sample_block(&tool);
    assert_eq!(
        block,
        "<tool_call name=\"echo\">\n{\n  \"message\": \"example\"\n}\n</tool_call>\n"
    );
}

#[test]
fn build_tool_sample_block_contains_wrappers() {
    let tool = Tool {
        name: "echo".to_string(),
        description: None,
        input_schema: ToolInputSchema {
            schema_type: "object".to_string(),
            properties: Some(vec![("message".to_string(), schema_str())]),
            required: None,
            additional_properties: None,
        },
    };

    let block = build_tool_sample_block(&tool);
    assert!(block.contains("<tool_call name=\"echo\">"));
    assert!(block.contains("\"message\""));
    assert!(block.contains("</tool_call>"));
}

#[test]
fn sample_block_round_trips_through_detect() {
    // A generated sample block, fed back through the detector, recovers
    // the tool name and every required argument key.
    let tool = Tool {
        name: "copy_file".to_string(),
        description: Some("copies a file".to_string()),
        input_schema: ToolInputSchema {
            schema_type: "object".to_string(),
            properties: Some(vec![
                ("src".to_string(), schema_str()),
                ("dst".to_string(), schema_str()),
                ("mode".to_string(), schema_str()),
            ]),
            required: Some(vec!["src".to_string(), "dst".to_string()]),
            additional_properties: None,
        },
    };
    let block = build_tool_sample_block(&tool);
    let calls = ToolCallDetector::new().detect(&block);
    assert_eq!(calls.len(), 1);
    assert_eq!(calls[0].name, "copy_file");
    for key in ["src", "dst"] {
        assert!(calls[0].arguments.get(key).is_some(), "required key {} must survive", key);
    }
}

#[test]
fn tool_info_lists_every_tool_or_nothing() {
    assert!(build_tool_info(&Vec::new()).is_none());
    let tool = Tool {
        name: "echo".to_string(),
        description: Some("says things back".to_string()),
        input_schema: ToolInputSchema {
            schema_type: "object".to_string(),
            properties: None,
            required: None,
            additional_properties: None,
        },
    };
    let pairs: Vec<(&str, &Tool)> = vec![("srv", &tool)];
    let info = build_tool_info(&pairs).expect("one tool yields a listing");
    assert!(info.contains("## Available Tools"));
    assert!(info.contains("### echo"));
    assert!(info.contains("says things back"));
    assert!(info.contains("<tool_call name=\"echo\">"));
}

#[test]
fn strip_tool_calls_removes_blocks_only() {
    let text = "before <tool_call name=\"x\">{\"a\":1}</tool_call> after";
    assert_eq!(rkllm_cli::detect::strip_tool_calls(text), "before  after");
    assert_eq!(rkllm_cli::detect::strip_tool_calls("plain"), "plain");
}

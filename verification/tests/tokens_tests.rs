use rkllm_cli::registry::{select_write_tool_name, ServerEntry, ToolCatalog};
use rkllm_cli::session::{Tool, ToolInputSchema};
use rkllm_cli::template::ChatTemplate;
use rkllm_cli::tokens::{
    allocate_budget, estimate_tokens, take_head_by_bytes, take_tail_by_bytes,
    truncate_file_content, truncate_files_to_budget, FileContent,
};

#[test]
fn estimate_rounds_up_to_three_byte_tokens() {
    assert_eq!(estimate_tokens(""), 0);
    assert_eq!(estimate_tokens("ab"), 1);
    assert_eq!(estimate_tokens("abc"), 1);
    assert_eq!(estimate_tokens("abcd"), 2);
}

#[test]
fn allocation_consumes_the_budget_exactly() {
    // Files whose token counts exceed the budget: the sum of their
    // allocations is exactly the budget, no rounding loss or gain.
    let tokens = vec![100usize, 37, 7, 1];
    let budget = 99usize;
    let alloc = allocate_budget(&tokens, budget);
    assert_eq!(alloc.len(), 4);
    assert_eq!(alloc.iter().sum::<usize>(), budget);
}

#[test]
fn allocation_gives_leftovers_to_the_largest() {
    let tokens = vec![10usize, 1000];
    let alloc = allocate_budget(&tokens, 101);
    assert_eq!(alloc.iter().sum::<usize>(), 101);
    assert!(alloc[1] > alloc[0]);
}

#[test]
fn truncation_never_splits_a_multibyte_character() {
    // Multi-byte text cut at every byte budget: the kept head and tail
    // are whole-character slices of the input, so re-reading them never
    // sees a broken sequence.
    let text = "日本語のテキストですx";
    for budget in 0..text.len() + 2 {
        let head = take_head_by_bytes(text, budget);
        assert!(head.len() <= budget);
        assert!(text.starts_with(head));
        let tail = take_tail_by_bytes(text, budget);
        assert!(tail.len() <= budget);
        assert!(text.ends_with(tail));
    }
}

#[test]
fn truncated_content_keeps_head_and_tail_with_marker() {
    let content = "0123456789".repeat(30);
    let (kept, kept_tokens, truncated) = truncate_file_content(&content, 20);
    assert!(truncated);
    assert!(kept.contains("[...truncated...]"));
    assert!(kept.starts_with("0123"));
    assert!(kept.ends_with("6789"));
    assert!(kept.len() <= 60);
    assert_eq!(kept_tokens, estimate_tokens(&kept));
}

#[test]
fn small_content_passes_untouched() {
    let (kept, tokens, truncated) = truncate_file_content("short", 100);
    assert_eq!(kept, "short");
    assert!(!truncated);
    assert_eq!(tokens, estimate_tokens("short"));
}

#[test]
fn zero_budget_drops_every_file_and_reports_it() {
    let files = vec![FileContent { content: "abc".into(), original_path: "a.txt".into() }];
    let (kept, notices) = truncate_files_to_budget(&files, 0);
    assert_eq!(kept.len(), 0);
    assert_eq!(notices.len(), 1);
    assert_eq!(notices[0].path, "a.txt");
    assert_eq!(notices[0].kept_tokens, 0);
}

#[test]
fn fitting_files_pass_through() {
    let files = vec![FileContent { content: "abc".into(), original_path: "a.txt".into() }];
    let (kept, notices) = truncate_files_to_budget(&files, 100);
    assert_eq!(kept.len(), 1);
    assert_eq!(kept[0].content, "abc");
    assert_eq!(notices.len(), 0);
}

#[test]
fn chat_template_wraps_the_prompt() {
    assert_eq!(
        ChatTemplate::Gemma.apply("hi"),
        "<start_of_turn>user\nhi<end_of_turn>\n<start_of_turn>model\n"
    );
    assert_eq!(
        ChatTemplate::Qwen.apply("hi"),
        "<|im_start|>user\nhi<|im_end|>\n<|im_start|>assistant\n"
    );
}

fn tool_with_props(name: &str, keys: &[&str]) -> Tool {
    let props: Vec<(String, rkllm_cli::json::JsonValue)> = keys
        .iter()
        .map(|k| (k.to_string(), rkllm_cli::json::JsonValue::Obj(Vec::new())))
        .collect();
    Tool {
        name: name.to_string(),
        description: None,
        input_schema: ToolInputSchema {
            schema_type: "object".to_string(),
            properties: Some(props),
            required: None,
            additional_properties: None,
        },
    }
}

#[test]
fn select_write_tool_prefers_exact_match() {
    let save = tool_with_props("save_file", &["path", "content"]);
    let write = tool_with_props("write_file", &["path", "content"]);
    let pairs: Vec<(&str, &Tool)> = vec![("fs", &save), ("fs", &write)];
    let selected = select_write_tool_name(&pairs);
    assert_eq!(selected.as_deref(), Some("write_file"));
}

#[test]
fn select_write_tool_falls_back_on_props() {
    let store = tool_with_props("store", &["path", "content"]);
    let pairs: Vec<(&str, &Tool)> = vec![("fs", &store)];
    let selected = select_write_tool_name(&pairs);
    assert_eq!(selected.as_deref(), Some("store"));
}

#[test]
fn catalog_routes_to_the_first_server_with_the_tool() {
    let catalog = ToolCatalog {
        servers: vec![
            ServerEntry { name: "alpha".into(), tools: vec![tool_with_props("echo", &[])] },
            ServerEntry { name: "beta".into(), tools: vec![tool_with_props("echo", &[]),
                tool_with_props("search", &[])] },
        ],
    };
    assert_eq!(catalog.find_server_for_tool("echo"), Some(0));
    assert_eq!(catalog.find_server_for_tool("search"), Some(1));
    assert_eq!(catalog.find_server_for_tool("absent"), None);
    let listing = catalog.list_all_tools();
    assert_eq!(listing.len(), 3);
    assert_eq!(listing[0].0, "alpha");
    assert_eq!(listing[2].1.name, "search");
}

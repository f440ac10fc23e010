use rkllm_cli::config::ContextLimits;
use rkllm_cli::prompt::{build_chat_prompt, build_prompt, build_prompt_with_context_limit,
    build_simple_prompt};
use rkllm_cli::tokens::FileContent;

#[test]
fn test_build_prompt_with_files() {
    let files = vec![FileContent {
        content: "Hello, World!".to_string(),
        original_path: "test.txt".to_string(),
    }];

    let errors = vec![];
    let prompt = build_prompt("ファイルを要約して", &files, &errors);

    assert!(prompt.contains("<system>"));
    assert!(prompt.contains("<files>"));
    assert!(prompt.contains("<file path=\"test.txt\">"));
    assert!(prompt.contains("Hello, World!"));
    assert!(prompt.contains("</file>"));
    assert!(prompt.contains("</files>"));
    assert!(prompt.contains("<user_input>"));
    assert!(prompt.contains("ファイルを要約して"));
    assert!(prompt.contains("</user_input>"));
    assert!(!prompt.contains("File Operation Instructions"));
}

#[test]
fn test_build_prompt_with_errors() {
    let files = vec![];
    let errors = vec![("test.txt".to_string(), "File not found".to_string())];
    let prompt = build_prompt("ファイルを読んで", &files, &errors);

    assert!(prompt.contains("<files>"));
    assert!(prompt.contains("<file_error path=\"test.txt\">"));
    assert!(prompt.contains("File not found"));
    assert!(prompt.contains("</file_error>"));
    assert!(prompt.contains("</files>"));
}

#[test]
fn test_build_prompt_no_files() {
    let files = vec![];
    let errors = vec![];
    let prompt = build_prompt("日本の首都は？", &files, &errors);

    assert!(prompt.contains("<system>"));
    assert!(prompt.contains("<user_input>"));
    assert!(prompt.contains("日本の首都は？"));
    assert!(prompt.contains("</user_input>"));
    assert!(!prompt.contains("File Operation Instructions"));
}

#[test]
fn test_build_simple_prompt_without_file_intent() {
    let prompt = build_simple_prompt("こんにちは");
    assert!(prompt.contains("<system>"));
    assert!(prompt.contains("<user_input>"));
    assert!(prompt.contains("こんにちは"));
    assert!(!prompt.contains("File Operation Instructions"));
}

#[test]
fn test_build_simple_prompt_with_file_intent() {
    let prompt = build_simple_prompt("test.txtを作成して");
    assert!(prompt.contains("<system>"));
    assert!(prompt.contains("test.txtを作成して"));
    assert!(prompt.contains("File Operation Instructions"));
}

#[test]
fn test_output_targets_included() {
    let files = vec![FileContent {
        content: "Hello".to_string(),
        original_path: "a.txt".to_string(),
    }];
    let prompt = build_chat_prompt(
        "翻訳して b.txt に保存",
        &files,
        &vec![],
        None,
        &vec!["b.txt".to_string()],
        true,
        true,
        &vec![],
    );
    assert!(prompt.contains("<output_targets>"));
    assert!(prompt.contains("<target>b.txt</target>"));
}

#[test]
fn test_tool_only_instructions_and_no_output_targets() {
    let prompt = build_chat_prompt(
        "test.txtを作成して",
        &vec![],
        &vec![],
        None,
        &vec!["test.txt".to_string()],
        true,
        false,
        &vec![],
    );

    assert!(prompt.contains("Tool-only Mode"));
    assert!(!prompt.contains("<output_targets>"));
    assert!(!prompt.contains("File Operation Instructions"));
}

#[test]
fn context_limit_overflow_on_tiny_budget() {
    let limits = ContextLimits { max_context_tokens: 10, context_reserved_tokens: 2 };
    let built = build_prompt_with_context_limit(
        "hello",
        &vec![],
        &vec![],
        None,
        &vec![],
        false,
        true,
        &vec![],
        &limits,
    );
    assert!(built.overflow);
}

#[test]
fn context_limit_passes_small_prompts() {
    let limits = ContextLimits { max_context_tokens: 4096, context_reserved_tokens: 256 };
    let built = build_prompt_with_context_limit(
        "hello",
        &vec![],
        &vec![],
        None,
        &vec![],
        false,
        true,
        &vec![],
        &limits,
    );
    assert!(!built.overflow);
    assert!(built.prompt.contains("<user_input>"));
    assert_eq!(built.notices.len(), 0);
}

#[test]
fn context_limit_truncates_large_files() {
    let limits = ContextLimits { max_context_tokens: 2000, context_reserved_tokens: 300 };
    let big = "x".repeat(30000);
    let files = vec![
        FileContent { content: big.clone(), original_path: "a.txt".to_string() },
        FileContent { content: big, original_path: "b.txt".to_string() },
    ];
    let built = build_prompt_with_context_limit(
        "summarize",
        &files,
        &vec![],
        None,
        &vec![],
        false,
        true,
        &vec![],
        &limits,
    );
    assert!(!built.overflow);
    assert!(built.notices.len() > 0);
    assert!(built.prompt.contains("[...truncated...]"));
}

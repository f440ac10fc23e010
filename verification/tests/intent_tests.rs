use rkllm_cli::intent::{has_file_operation_intent, has_file_read_intent, prefers_output_only};

#[test]
fn test_has_file_read_intent_japanese() {
    assert!(has_file_read_intent("このファイルを読んで"));
    assert!(has_file_read_intent("翻訳して"));
    assert!(has_file_read_intent("要約して"));
    assert!(has_file_read_intent("校正して"));
    assert!(has_file_read_intent("修正して"));
    assert!(!has_file_read_intent("保存して"));
}

#[test]
fn test_has_file_read_intent_english() {
    assert!(has_file_read_intent("read the file"));
    assert!(has_file_read_intent("summarize the file"));
    assert!(has_file_read_intent("translate this"));
    assert!(has_file_read_intent("proofread the text"));
    assert!(!has_file_read_intent("save the output"));
}

#[test]
fn test_has_file_operation_intent_japanese() {
    assert!(has_file_operation_intent("test.txtを作成して"));
    assert!(has_file_operation_intent("ファイルを書いて"));
    assert!(has_file_operation_intent("ファイルを作成"));
    assert!(has_file_operation_intent("コードを生成してください"));
    assert!(has_file_operation_intent("結果を保存して"));

    assert!(!has_file_operation_intent("こんにちは"));
    assert!(!has_file_operation_intent("日本の首都は？"));
    assert!(!has_file_operation_intent("これは何ですか？"));
    assert!(!has_file_operation_intent("ファイルを要約して"));
    assert!(!has_file_operation_intent("ファイルを読んで"));
    assert!(!has_file_operation_intent("このファイルは何？"));
}

#[test]
fn test_has_file_operation_intent_english() {
    assert!(has_file_operation_intent("create a file"));
    assert!(has_file_operation_intent("write to example.txt"));
    assert!(has_file_operation_intent("generate code"));
    assert!(has_file_operation_intent("save the output"));
    assert!(has_file_operation_intent("create file test.txt"));

    assert!(!has_file_operation_intent("hello"));
    assert!(!has_file_operation_intent("what is this?"));
    assert!(!has_file_operation_intent("summarize the file"));
    assert!(!has_file_operation_intent("read the file"));
}

#[test]
fn intent_check_lowers_the_input_first() {
    assert!(has_file_operation_intent("CREATE a file"));
    assert!(has_file_read_intent("READ the file"));
}

#[test]
fn prefers_output_only_follows_write_intent() {
    assert!(prefers_output_only("save the output"));
    assert!(!prefers_output_only("hello"));
}

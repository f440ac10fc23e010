use rkllm_cli::fileout::{contents_equal, parse_file_operations, FileOperationType};

#[test]
fn test_parse_xml_style() {
    let output = r#"ファイルを作成します。

<file path="src/example.rs">
fn main() {
    println!("Hello, World!");
}
</file>

以上です。"#;

    let ops = parse_file_operations(output);
    assert_eq!(ops.len(), 1);
    assert_eq!(ops[0].path, "src/example.rs");
    assert!(ops[0].content.contains("fn main()"));
    assert_eq!(ops[0].operation_type, FileOperationType::Create);
}

#[test]
fn test_parse_bracket_style() {
    let output = r#"ファイルを作成します。

[CREATE_FILE: src/helper.rs]
```rust
pub fn add(a: i32, b: i32) -> i32 {
    a + b
}
```
[END_FILE]

以上です。"#;

    let ops = parse_file_operations(output);
    assert_eq!(ops.len(), 1);
    assert_eq!(ops[0].path, "src/helper.rs");
    assert!(ops[0].content.contains("pub fn add"));
    assert_eq!(ops[0].operation_type, FileOperationType::Create);
}

#[test]
fn test_parse_multiple_files() {
    let output = r#"複数のファイルを作成します。

<file path="src/mod1.rs">
pub fn func1() {}
</file>

<file path="src/mod2.rs">
pub fn func2() {}
</file>

以上です。"#;

    let ops = parse_file_operations(output);
    assert_eq!(ops.len(), 2);
    assert_eq!(ops[0].path, "src/mod1.rs");
    assert_eq!(ops[1].path, "src/mod2.rs");
}

#[test]
fn test_parse_no_files() {
    let output = "これは普通のテキストです。ファイル操作はありません。";
    let ops = parse_file_operations(output);
    assert_eq!(ops.len(), 0);
}

#[test]
fn test_parse_mixed_styles() {
    let output = r#"両方のスタイルを使います。

<file path="src/xml_style.rs">
fn xml_func() {}
</file>

[CREATE_FILE: src/bracket_style.rs]
```rust
fn bracket_func() {}
```
[END_FILE]

以上です。"#;

    let ops = parse_file_operations(output);
    assert_eq!(ops.len(), 2);
    assert_eq!(ops[0].path, "src/xml_style.rs");
    assert_eq!(ops[1].path, "src/bracket_style.rs");
}

#[test]
fn contents_equal_ignores_line_ends_and_trailing_space() {
    assert!(contents_equal("a\r\nb\n", "a\nb"));
    assert!(contents_equal("x  \n", "x"));
    assert!(!contents_equal("a\nb", "a\nc"));
}

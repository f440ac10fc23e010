use rkllm_cli::paths::{default_extensions, detect_file_paths, detect_file_paths_with_exts};

#[test]
fn test_single_file() {
    let input = "src/main.rsを読んでコメントを追加して";
    let paths = detect_file_paths(input);
    assert_eq!(paths, vec!["src/main.rs"]);
}

#[test]
fn test_multiple_files() {
    let input = "Cargo.tomlとsrc/lib.rsを見て依存関係を説明して";
    let paths = detect_file_paths(input);
    assert_eq!(paths.len(), 2);
    assert!(paths.contains(&"Cargo.toml".to_string()));
    assert!(paths.contains(&"src/lib.rs".to_string()));
}

#[test]
fn test_absolute_path() {
    let input = "/home/user/config.tomlを確認して";
    let paths = detect_file_paths(input);
    assert_eq!(paths, vec!["/home/user/config.toml"]);
}

#[test]
fn test_home_directory() {
    let input = "~/Documents/notes.txtを読んで";
    let paths = detect_file_paths(input);
    assert_eq!(paths, vec!["~/Documents/notes.txt"]);
}

#[test]
fn test_relative_path_with_dot() {
    let input = "このファイル ./config.toml を確認して";
    let paths = detect_file_paths(input);
    assert_eq!(paths, vec!["./config.toml"]);
}

#[test]
fn test_no_files() {
    let input = "日本の首都は？";
    let paths = detect_file_paths(input);
    assert_eq!(paths.len(), 0);
}

#[test]
fn test_decimal_number_not_detected() {
    let input = "バージョンは3.5を使ってください";
    let paths = detect_file_paths(input);
    assert_eq!(paths.len(), 0);
}

#[test]
fn test_numeric_extension_not_detected() {
    let input = "ChatGPT-image1.5が出た";
    let paths = detect_file_paths(input);
    assert_eq!(paths.len(), 0);
}

#[test]
fn test_duplicate_files() {
    let input = "main.rsとmain.rsを比較して";
    let paths = detect_file_paths(input);
    assert_eq!(paths, vec!["main.rs"]);
}

#[test]
fn detect_respects_allowed_extensions() {
    let allowed = vec!["txt".to_string()];
    let paths = detect_file_paths_with_exts("read a.txt and b.rs", &allowed);
    assert_eq!(paths, vec!["a.txt"]);
}

#[test]
fn detect_with_no_allowed_extensions_finds_nothing() {
    let allowed: Vec<String> = Vec::new();
    let paths = detect_file_paths_with_exts("read a.txt", &allowed);
    assert_eq!(paths.len(), 0);
}

#[test]
fn default_extensions_hold_the_usual_suspects() {
    let exts = default_extensions();
    assert!(exts.contains(&"rs".to_string()));
    assert!(exts.contains(&"txt".to_string()));
    assert_eq!(exts.len(), 17);
}

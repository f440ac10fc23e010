//! Heuristics on the user's text: whether it asks for a file to be
//! written, or for a file to be read and transformed. The text is
//! lowered first; every keyword is already lower case.

use vstd::prelude::*;
use crate::text::{contains_chars, contains_seq, lower_of, str_to_chars, to_lowercase};

verus! {

/// A lowered input asks for a file to be created or written.
pub open spec fn spec_file_operation_intent(s: Seq<char>) -> bool {
    ||| contains_seq(s, "作成"@)
    ||| contains_seq(s, "作って"@)
    ||| contains_seq(s, "作る"@)
    ||| contains_seq(s, "つくって"@)
    ||| contains_seq(s, "つくる"@)
    ||| contains_seq(s, "書き込"@)
    ||| contains_seq(s, "書いて"@)
    ||| contains_seq(s, "書く"@)
    ||| contains_seq(s, "かいて"@)
    ||| contains_seq(s, "保存"@)
    ||| contains_seq(s, "ほぞん"@)
    ||| contains_seq(s, "生成"@)
    ||| contains_seq(s, "せいせい"@)
    ||| contains_seq(s, "出力し"@)
    ||| contains_seq(s, "出力ファイル"@)
    ||| contains_seq(s, "create"@)
    ||| contains_seq(s, "write"@)
    ||| contains_seq(s, "save"@)
    ||| contains_seq(s, "generate"@)
    ||| contains_seq(s, "make a file"@)
    ||| contains_seq(s, "make file"@)
    ||| contains_seq(s, "ファイルに"@)
    ||| contains_seq(s, "ファイルを作"@)
    ||| contains_seq(s, "ファイルを書"@)
    ||| contains_seq(s, "ファイルを生成"@)
    ||| contains_seq(s, "ファイルを出力"@)
    ||| contains_seq(s, "file to"@)
    ||| contains_seq(s, "file and"@)
    ||| contains_seq(s, "to file"@)
    ||| contains_seq(s, "in file"@)
    ||| contains_seq(s, "into file"@)
    ||| contains_seq(s, "create file"@)
    ||| contains_seq(s, "write file"@)
    ||| contains_seq(s, "save file"@)
    ||| contains_seq(s, "output file"@)
    ||| contains_seq(s, "generate file"@)
}

/// A lowered input asks for a file to be read or transformed.
pub open spec fn spec_file_read_intent(s: Seq<char>) -> bool {
    ||| contains_seq(s, "読む"@)
    ||| contains_seq(s, "読み込"@)
    ||| contains_seq(s, "読んで"@)
    ||| contains_seq(s, "翻訳"@)
    ||| contains_seq(s, "要約"@)
    ||| contains_seq(s, "校正"@)
    ||| contains_seq(s, "修正"@)
    ||| contains_seq(s, "整える"@)
    ||| contains_seq(s, "read"@)
    ||| contains_seq(s, "load"@)
    ||| contains_seq(s, "summarize"@)
    ||| contains_seq(s, "summary"@)
    ||| contains_seq(s, "translate"@)
    ||| contains_seq(s, "proofread"@)
    ||| contains_seq(s, "polish"@)
}

/// Whether the input asks for a file to be created, written or saved:
/// its lowered text holds one of the write keywords or phrases.
pub fn has_file_operation_intent(input: &str) -> (r: bool)
    ensures
        r == spec_file_operation_intent(lower_of(input@)),
{
    let low = to_lowercase(input);
    let h = str_to_chars(low.as_str());
    contains_chars(&h, &str_to_chars("作成")) || contains_chars(&h, &str_to_chars("作って"))
        || contains_chars(&h, &str_to_chars("作る")) || contains_chars(
        &h,
        &str_to_chars("つくって"),
    ) || contains_chars(&h, &str_to_chars("つくる")) || contains_chars(
        &h,
        &str_to_chars("書き込"),
    ) || contains_chars(&h, &str_to_chars("書いて")) || contains_chars(
        &h,
        &str_to_chars("書く"),
    ) || contains_chars(&h, &str_to_chars("かいて")) || contains_chars(
        &h,
        &str_to_chars("保存"),
    ) || contains_chars(&h, &str_to_chars("ほぞん")) || contains_chars(
        &h,
        &str_to_chars("生成"),
    ) || contains_chars(&h, &str_to_chars("せいせい")) || contains_chars(
        &h,
        &str_to_chars("出力し"),
    ) || contains_chars(&h, &str_to_chars("出力ファイル")) || contains_chars(
        &h,
        &str_to_chars("create"),
    ) || contains_chars(&h, &str_to_chars("write")) || contains_chars(
        &h,
        &str_to_chars("save"),
    ) || contains_chars(&h, &str_to_chars("generate")) || contains_chars(
        &h,
        &str_to_chars("make a file"),
    ) || contains_chars(&h, &str_to_chars("make file")) || contains_chars(
        &h,
        &str_to_chars("ファイルに"),
    ) || contains_chars(&h, &str_to_chars("ファイルを作")) || contains_chars(
        &h,
        &str_to_chars("ファイルを書"),
    ) || contains_chars(&h, &str_to_chars("ファイルを生成")) || contains_chars(
        &h,
        &str_to_chars("ファイルを出力"),
    ) || contains_chars(&h, &str_to_chars("file to")) || contains_chars(
        &h,
        &str_to_chars("file and"),
    ) || contains_chars(&h, &str_to_chars("to file")) || contains_chars(
        &h,
        &str_to_chars("in file"),
    ) || contains_chars(&h, &str_to_chars("into file")) || contains_chars(
        &h,
        &str_to_chars("create file"),
    ) || contains_chars(&h, &str_to_chars("write file")) || contains_chars(
        &h,
        &str_to_chars("save file"),
    ) || contains_chars(&h, &str_to_chars("output file")) || contains_chars(
        &h,
        &str_to_chars("generate file"),
    )
}

/// Whether the input asks for a file to be read or transformed: its
/// lowered text holds one of the read keywords.
pub fn has_file_read_intent(input: &str) -> (r: bool)
    ensures
        r == spec_file_read_intent(lower_of(input@)),
{
    let low = to_lowercase(input);
    let h = str_to_chars(low.as_str());
    contains_chars(&h, &str_to_chars("読む")) || contains_chars(&h, &str_to_chars("読み込"))
        || contains_chars(&h, &str_to_chars("読んで")) || contains_chars(
        &h,
        &str_to_chars("翻訳"),
    ) || contains_chars(&h, &str_to_chars("要約")) || contains_chars(
        &h,
        &str_to_chars("校正"),
    ) || contains_chars(&h, &str_to_chars("修正")) || contains_chars(
        &h,
        &str_to_chars("整える"),
    ) || contains_chars(&h, &str_to_chars("read")) || contains_chars(
        &h,
        &str_to_chars("load"),
    ) || contains_chars(&h, &str_to_chars("summarize")) || contains_chars(
        &h,
        &str_to_chars("summary"),
    ) || contains_chars(&h, &str_to_chars("translate")) || contains_chars(
        &h,
        &str_to_chars("proofread"),
    ) || contains_chars(&h, &str_to_chars("polish"))
}

/// Whether the input is best treated as naming output files only: the
/// write-intent keywords already decide this.
pub fn prefers_output_only(input: &str) -> (r: bool)
    ensures
        r == spec_file_operation_intent(lower_of(input@)),
{
    has_file_operation_intent(input)
}

} // verus!

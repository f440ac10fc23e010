//! Building the prompt sent to the model: the system section, the tool
//! listing, the attached files, the output targets, the tool results
//! and the user input, assembled exactly as the spec functions state —
//! and, on top, the context-budget pass that measures the prompt and
//! cuts the attached files down to fit.

use vstd::prelude::*;
use vstd::string::StringExecFns;
use vstd::string::StringSliceAdditionalSpecFns;
use crate::session::ToolResult;
use crate::text::{chars_to_string, str_to_chars, trim_chars, trim_ws};
use crate::tokens::{
    estimate_tokens, spec_estimate_tokens, sum_file_tokens, text_bytes, truncate_files_to_budget,
    FileContent, TruncationNotice,
};

verus! {

/// The standing instructions of every prompt.
pub open spec fn system_instructions() -> Seq<char> {
    "\nYou are a helpful coding assistant running on a local CLI. Always reply in Japanese.\nThe <files> section is read-only context. Do NOT echo it back. Only create or modify files the user explicitly asked for.\nWhen the user asks for translation/summarization/rewriting, transform the content accordingly. Do NOT copy the input verbatim unless explicitly instructed.\nIf <files> is provided, you MUST base your answer on it and MUST NOT ignore it.\nFor translation requests, output only the translated text in the target language and never include the original text.\nIf output targets are provided, write results to those paths and do not overwrite the source file unless the user says so.\nUse available MCP tools for environment actions (e.g., listing files) instead of fabricating content when tools are provided.\nIf the user does NOT explicitly ask to create/modify/save files, respond normally and NEVER use <file>...</file> blocks.\nIf <tool_results> is provided, use it as authoritative context and do not request the same tool again.\nNever call a tool more than once for the same request; when tool results are available, answer directly.\nFor local file access, use tool calls in this format:\n<tool_call name=\"read_file\">{\"path\":\"path/to/file.txt\"}</tool_call>\n<tool_call name=\"write_file\">{\"path\":\"path/to/file.txt\",\"content\":\"...\"}</tool_call>\n"@
}

/// The extra instructions shown when the user asks for files.
pub open spec fn file_operation_instructions() -> Seq<char> {
    "\n## File Operation Instructions\n\nIMPORTANT: Only use this file creation feature when the user EXPLICITLY requests to create, write, or save files.\nDo NOT create example files unless specifically asked.\nWhen creating <file> outputs for translation/summarization/proofreading, the content MUST be the transformed result, not the original input.\n\nWhen the user explicitly asks you to create or modify files, use the following format:\n\n<file path=\"path/to/file.ext\">\nfile content here\n</file>\n\nExample:\n<file path=\"src/example.rs\">\nfn main() {\n    println!(\"Hello\");\n}\n</file>\n\nYou can create multiple files in a single response.\nPreferred format is <file path=\"...\"> ... </file>. Bracket format [CREATE_FILE: ...] ... [END_FILE] is allowed for compatibility only.\n"@
}

/// The instructions shown when local file writes are disabled.
pub open spec fn tool_only_instructions() -> Seq<char> {
    "\n## Tool-only Mode\n\nLocal file creation or modification is disabled in this session.\nDo not emit <file>...</file> or [CREATE_FILE: ...] blocks. Provide the result directly, and use MCP tools for environment actions instead of local writes.\n"@
}

/// The `<files>` entries: one block per attached file.
pub open spec fn spec_files_block(files: Seq<(Seq<char>, Seq<char>)>) -> Seq<char>
    decreases files.len(),
{
    if files.len() == 0 {
        Seq::empty()
    } else {
        spec_files_block(files.drop_last()) + ("<file path=\""@ + files.last().0 + "\">\n"@
            + files.last().1 + "\n</file>\n\n"@)
    }
}

/// The `<files>` entries for files that could not be read.
pub open spec fn spec_errors_block(errors: Seq<(Seq<char>, Seq<char>)>) -> Seq<char>
    decreases errors.len(),
{
    if errors.len() == 0 {
        Seq::empty()
    } else {
        spec_errors_block(errors.drop_last()) + ("<file_error path=\""@ + errors.last().0
            + "\">\n"@ + errors.last().1 + "\n</file_error>\n\n"@)
    }
}

/// The `<output_targets>` entries.
pub open spec fn spec_targets_block(targets: Seq<Seq<char>>) -> Seq<char>
    decreases targets.len(),
{
    if targets.len() == 0 {
        Seq::empty()
    } else {
        spec_targets_block(targets.drop_last()) + ("<target>"@ + targets.last() + "</target>\n"@)
    }
}

/// The `<tool_results>` entries: name, success flag and output.
pub open spec fn spec_results_block(results: Seq<(Seq<char>, bool, Seq<char>)>) -> Seq<char>
    decreases results.len(),
{
    if results.len() == 0 {
        Seq::empty()
    } else {
        spec_results_block(results.drop_last()) + ("<tool_result name=\""@ + results.last().0
            + "\" success=\""@ + (if results.last().1 {
            "true"@
        } else {
            "false"@
        }) + "\">\n"@ + results.last().2 + "\n</tool_result>\n\n"@)
    }
}

/// The system section, with the file-operation or tool-only
/// instructions as the flags ask.
pub open spec fn spec_system_segment(has_file_op_intent: bool, file_writes_enabled: bool) -> Seq<
    char,
> {
    "<system>\n"@ + system_instructions() + "\n"@ + (if !file_writes_enabled {
        tool_only_instructions() + "\n"@
    } else if has_file_op_intent {
        file_operation_instructions() + "\n"@
    } else {
        Seq::empty()
    }) + "</system>\n\n"@
}

/// The tool listing section: present when a non-blank listing is given.
pub open spec fn spec_tools_segment(tool_info: Option<Seq<char>>) -> Seq<char> {
    match tool_info {
        Some(info) => if trim_ws(info).len() > 0 {
            "<tools>\n"@ + trim_ws(info) + "\n</tools>\n\n"@
        } else {
            Seq::empty()
        },
        None => Seq::empty(),
    }
}

/// The files section: attached files and read errors.
pub open spec fn spec_files_segment(
    files: Seq<(Seq<char>, Seq<char>)>,
    errors: Seq<(Seq<char>, Seq<char>)>,
) -> Seq<char> {
    if files.len() > 0 || errors.len() > 0 {
        "<files>\n"@ + spec_files_block(files) + spec_errors_block(errors) + "</files>\n\n"@
    } else {
        Seq::empty()
    }
}

/// The output-targets section, shown only while writes are enabled.
pub open spec fn spec_targets_segment(file_writes_enabled: bool, targets: Seq<Seq<char>>) -> Seq<
    char,
> {
    if file_writes_enabled && targets.len() > 0 {
        "<output_targets>\n"@ + spec_targets_block(targets) + "</output_targets>\n\n"@
    } else {
        Seq::empty()
    }
}

/// The tool-results section.
pub open spec fn spec_results_segment(results: Seq<(Seq<char>, bool, Seq<char>)>) -> Seq<char> {
    if results.len() > 0 {
        "<tool_results>\n"@ + spec_results_block(results) + "</tool_results>\n\n"@
    } else {
        Seq::empty()
    }
}

/// The whole chat prompt: the system section, the trimmed tool listing
/// when one is given, the attached files and read errors, the output
/// targets when writes are enabled, the tool results, and the user
/// input.
pub open spec fn spec_chat_prompt(
    user_input: Seq<char>,
    files: Seq<(Seq<char>, Seq<char>)>,
    errors: Seq<(Seq<char>, Seq<char>)>,
    tool_info: Option<Seq<char>>,
    targets: Seq<Seq<char>>,
    has_file_op_intent: bool,
    file_writes_enabled: bool,
    results: Seq<(Seq<char>, bool, Seq<char>)>,
) -> Seq<char> {
    spec_system_segment(has_file_op_intent, file_writes_enabled) + spec_tools_segment(tool_info)
        + spec_files_segment(files, errors) + spec_targets_segment(file_writes_enabled, targets)
        + spec_results_segment(results) + "<user_input>\n"@ + user_input + "\n</user_input>"@
}

/// The (path, content) views of the attached files.
pub open spec fn files_view(files: Seq<FileContent>) -> Seq<(Seq<char>, Seq<char>)> {
    Seq::new(files.len(), |i: int| (files[i].original_path@, files[i].content@))
}

/// The (name, success, output) views of the tool results.
pub open spec fn results_view(results: Seq<ToolResult>) -> Seq<(Seq<char>, bool, Seq<char>)> {
    Seq::new(results.len(), |i: int| (results[i].name@, results[i].success, results[i].output@))
}

fn emit_system(prompt: &mut String, has_file_op_intent: bool, file_writes_enabled: bool)
    ensures
        final(prompt)@ == old(prompt)@ + spec_system_segment(
            has_file_op_intent,
            file_writes_enabled,
        ),
{
    prompt.append("<system>\n");
    prompt.append(
        "\nYou are a helpful coding assistant running on a local CLI. Always reply in Japanese.\nThe <files> section is read-only context. Do NOT echo it back. Only create or modify files the user explicitly asked for.\nWhen the user asks for translation/summarization/rewriting, transform the content accordingly. Do NOT copy the input verbatim unless explicitly instructed.\nIf <files> is provided, you MUST base your answer on it and MUST NOT ignore it.\nFor translation requests, output only the translated text in the target language and never include the original text.\nIf output targets are provided, write results to those paths and do not overwrite the source file unless the user says so.\nUse available MCP tools for environment actions (e.g., listing files) instead of fabricating content when tools are provided.\nIf the user does NOT explicitly ask to create/modify/save files, respond normally and NEVER use <file>...</file> blocks.\nIf <tool_results> is provided, use it as authoritative context and do not request the same tool again.\nNever call a tool more than once for the same request; when tool results are available, answer directly.\nFor local file access, use tool calls in this format:\n<tool_call name=\"read_file\">{\"path\":\"path/to/file.txt\"}</tool_call>\n<tool_call name=\"write_file\">{\"path\":\"path/to/file.txt\",\"content\":\"...\"}</tool_call>\n",
    );
    prompt.append("\n");
    if !file_writes_enabled {
        prompt.append(
            "\n## Tool-only Mode\n\nLocal file creation or modification is disabled in this session.\nDo not emit <file>...</file> or [CREATE_FILE: ...] blocks. Provide the result directly, and use MCP tools for environment actions instead of local writes.\n",
        );
        prompt.append("\n");
    } else if has_file_op_intent {
        prompt.append(
            "\n## File Operation Instructions\n\nIMPORTANT: Only use this file creation feature when the user EXPLICITLY requests to create, write, or save files.\nDo NOT create example files unless specifically asked.\nWhen creating <file> outputs for translation/summarization/proofreading, the content MUST be the transformed result, not the original input.\n\nWhen the user explicitly asks you to create or modify files, use the following format:\n\n<file path=\"path/to/file.ext\">\nfile content here\n</file>\n\nExample:\n<file path=\"src/example.rs\">\nfn main() {\n    println!(\"Hello\");\n}\n</file>\n\nYou can create multiple files in a single response.\nPreferred format is <file path=\"...\"> ... </file>. Bracket format [CREATE_FILE: ...] ... [END_FILE] is allowed for compatibility only.\n",
        );
        prompt.append("\n");
    }
    prompt.append("</system>\n\n");
    proof {
        assert(final(prompt)@ =~= old(prompt)@ + spec_system_segment(
            has_file_op_intent,
            file_writes_enabled,
        ));
    }
}

fn emit_tools(prompt: &mut String, tool_info: Option<&str>)
    ensures
        final(prompt)@ == old(prompt)@ + spec_tools_segment(
            match tool_info {
                Some(info) => Some(info@),
                None => None,
            },
        ),
{
    match tool_info {
        Some(info) => {
            let trimmed = trim_chars(&str_to_chars(info));
            if trimmed.len() > 0 {
                let trimmed_str = chars_to_string(&trimmed);
                prompt.append("<tools>\n");
                prompt.append(trimmed_str.as_str());
                prompt.append("\n</tools>\n\n");
                proof {
                    assert(final(prompt)@ =~= old(prompt)@ + spec_tools_segment(Some(info@)));
                }
            } else {
                proof {
                    assert(final(prompt)@ =~= old(prompt)@ + spec_tools_segment(Some(info@)));
                }
            }
        },
        None => {
            proof {
                assert(final(prompt)@ =~= old(prompt)@ + spec_tools_segment(None));
            }
        },
    }
}

#[verifier::loop_isolation(false)]
fn emit_files(prompt: &mut String, files: &Vec<FileContent>, errors: &Vec<(String, String)>)
    ensures
        final(prompt)@ == old(prompt)@ + spec_files_segment(files_view(files@), errors.deep_view()),
{
    if files.len() == 0 && errors.len() == 0 {
        proof {
            assert(final(prompt)@ =~= old(prompt)@ + spec_files_segment(
                files_view(files@),
                errors.deep_view(),
            ));
        }
        return ;
    }
    prompt.append("<files>\n");
    let nf = files.len();
    let ghost fv = files_view(files@);
    let ghost files_base = prompt@;
    let mut i: usize = 0;
    proof {
        assert(fv.take(0) =~= Seq::<(Seq<char>, Seq<char>)>::empty());
        assert(spec_files_block(fv.take(0)) =~= Seq::<char>::empty());
        assert(prompt@ =~= files_base + spec_files_block(fv.take(0)));
    }
    while i < nf
        invariant
            0 <= i <= nf,
            nf == files@.len(),
            fv == files_view(files@),
            prompt@ == files_base + spec_files_block(fv.take(i as int)),
        decreases nf - i,
    {
        proof {
            assert(fv.take(i as int + 1).drop_last() =~= fv.take(i as int));
            assert(fv.take(i as int + 1).last() == fv[i as int]);
        }
        prompt.append("<file path=\"");
        prompt.append(files[i].original_path.as_str());
        prompt.append("\">\n");
        prompt.append(files[i].content.as_str());
        prompt.append("\n</file>\n\n");
        proof {
            assert(prompt@ =~= files_base + spec_files_block(fv.take(i as int + 1)));
        }
        i = i + 1;
    }
    proof {
        assert(fv.take(nf as int) =~= fv);
    }
    let ne = errors.len();
    let ghost ev = errors.deep_view();
    let ghost errors_base = prompt@;
    let mut j: usize = 0;
    proof {
        assert(ev.take(0) =~= Seq::<(Seq<char>, Seq<char>)>::empty());
        assert(spec_errors_block(ev.take(0)) =~= Seq::<char>::empty());
        assert(prompt@ =~= errors_base + spec_errors_block(ev.take(0)));
    }
    while j < ne
        invariant
            0 <= j <= ne,
            ne == errors@.len(),
            ev == errors.deep_view(),
            prompt@ == errors_base + spec_errors_block(ev.take(j as int)),
        decreases ne - j,
    {
        proof {
            assert(ev.take(j as int + 1).drop_last() =~= ev.take(j as int));
            assert(ev.take(j as int + 1).last() == ev[j as int]);
        }
        prompt.append("<file_error path=\"");
        prompt.append(errors[j].0.as_str());
        prompt.append("\">\n");
        prompt.append(errors[j].1.as_str());
        prompt.append("\n</file_error>\n\n");
        proof {
            assert(prompt@ =~= errors_base + spec_errors_block(ev.take(j as int + 1)));
        }
        j = j + 1;
    }
    proof {
        assert(ev.take(ne as int) =~= ev);
    }
    prompt.append("</files>\n\n");
    proof {
        assert(final(prompt)@ =~= old(prompt)@ + spec_files_segment(
            files_view(files@),
            errors.deep_view(),
        ));
    }
}

#[verifier::loop_isolation(false)]
fn emit_targets(prompt: &mut String, file_writes_enabled: bool, output_targets: &Vec<String>)
    ensures
        final(prompt)@ == old(prompt)@ + spec_targets_segment(
            file_writes_enabled,
            output_targets.deep_view(),
        ),
{
    if !(file_writes_enabled && output_targets.len() > 0) {
        proof {
            assert(final(prompt)@ =~= old(prompt)@ + spec_targets_segment(
                file_writes_enabled,
                output_targets.deep_view(),
            ));
        }
        return ;
    }
    prompt.append("<output_targets>\n");
    let nt = output_targets.len();
    let ghost tv = output_targets.deep_view();
    let ghost targets_base = prompt@;
    let mut k: usize = 0;
    proof {
        assert(tv.take(0) =~= Seq::<Seq<char>>::empty());
        assert(spec_targets_block(tv.take(0)) =~= Seq::<char>::empty());
        assert(prompt@ =~= targets_base + spec_targets_block(tv.take(0)));
    }
    while k < nt
        invariant
            0 <= k <= nt,
            nt == output_targets@.len(),
            tv == output_targets.deep_view(),
            prompt@ == targets_base + spec_targets_block(tv.take(k as int)),
        decreases nt - k,
    {
        proof {
            assert(tv.take(k as int + 1).drop_last() =~= tv.take(k as int));
            assert(tv.take(k as int + 1).last() == tv[k as int]);
        }
        prompt.append("<target>");
        prompt.append(output_targets[k].as_str());
        prompt.append("</target>\n");
        proof {
            assert(prompt@ =~= targets_base + spec_targets_block(tv.take(k as int + 1)));
        }
        k = k + 1;
    }
    proof {
        assert(tv.take(nt as int) =~= tv);
    }
    prompt.append("</output_targets>\n\n");
    proof {
        assert(final(prompt)@ =~= old(prompt)@ + spec_targets_segment(
            file_writes_enabled,
            output_targets.deep_view(),
        ));
    }
}

#[verifier::loop_isolation(false)]
fn emit_results(prompt: &mut String, tool_results: &Vec<ToolResult>)
    ensures
        final(prompt)@ == old(prompt)@ + spec_results_segment(results_view(tool_results@)),
{
    if tool_results.len() == 0 {
        proof {
            assert(final(prompt)@ =~= old(prompt)@ + spec_results_segment(
                results_view(tool_results@),
            ));
        }
        return ;
    }
    prompt.append("<tool_results>\n");
    let nr = tool_results.len();
    let ghost rv = results_view(tool_results@);
    let ghost results_base = prompt@;
    let mut q: usize = 0;
    proof {
        assert(rv.take(0) =~= Seq::<(Seq<char>, bool, Seq<char>)>::empty());
        assert(spec_results_block(rv.take(0)) =~= Seq::<char>::empty());
        assert(prompt@ =~= results_base + spec_results_block(rv.take(0)));
    }
    while q < nr
        invariant
            0 <= q <= nr,
            nr == tool_results@.len(),
            rv == results_view(tool_results@),
            prompt@ == results_base + spec_results_block(rv.take(q as int)),
        decreases nr - q,
    {
        proof {
            assert(rv.take(q as int + 1).drop_last() =~= rv.take(q as int));
            assert(rv.take(q as int + 1).last() == rv[q as int]);
        }
        prompt.append("<tool_result name=\"");
        prompt.append(tool_results[q].name.as_str());
        prompt.append("\" success=\"");
        if tool_results[q].success {
            prompt.append("true");
        } else {
            prompt.append("false");
        }
        prompt.append("\">\n");
        prompt.append(tool_results[q].output.as_str());
        prompt.append("\n</tool_result>\n\n");
        proof {
            assert(prompt@ =~= results_base + spec_results_block(rv.take(q as int + 1)));
        }
        q = q + 1;
    }
    proof {
        assert(rv.take(nr as int) =~= rv);
    }
    prompt.append("</tool_results>\n\n");
    proof {
        assert(final(prompt)@ =~= old(prompt)@ + spec_results_segment(
            results_view(tool_results@),
        ));
    }
}

/// Build the chat prompt from its parts.
pub fn build_chat_prompt(
    user_input: &str,
    files: &Vec<FileContent>,
    errors: &Vec<(String, String)>,
    tool_info: Option<&str>,
    output_targets: &Vec<String>,
    has_file_op_intent: bool,
    file_writes_enabled: bool,
    tool_results: &Vec<ToolResult>,
) -> (r: String)
    ensures
        r@ == spec_chat_prompt(
            user_input@,
            files_view(files@),
            errors.deep_view(),
            match tool_info {
                Some(info) => Some(info@),
                None => None,
            },
            output_targets.deep_view(),
            has_file_op_intent,
            file_writes_enabled,
            results_view(tool_results@),
        ),
{
    let mut prompt = String::new();
    emit_system(&mut prompt, has_file_op_intent, file_writes_enabled);
    emit_tools(&mut prompt, tool_info);
    emit_files(&mut prompt, files, errors);
    emit_targets(&mut prompt, file_writes_enabled, output_targets);
    emit_results(&mut prompt, tool_results);
    prompt.append("<user_input>\n");
    prompt.append(user_input);
    prompt.append("\n</user_input>");
    proof {
        assert(prompt@ =~= spec_chat_prompt(
            user_input@,
            files_view(files@),
            errors.deep_view(),
            match tool_info {
                Some(info) => Some(info@),
                None => None,
            },
            output_targets.deep_view(),
            has_file_op_intent,
            file_writes_enabled,
            results_view(tool_results@),
        ));
    }
    prompt
}

/// Build a prompt with no tool listing, no targets and no results; the
/// file-operation instructions follow the user's own words.
pub fn build_prompt(
    user_input: &str,
    files: &Vec<FileContent>,
    errors: &Vec<(String, String)>,
) -> (r: String)
    ensures
        r@ == spec_chat_prompt(
            user_input@,
            files_view(files@),
            errors.deep_view(),
            None,
            Seq::empty(),
            crate::intent::spec_file_operation_intent(crate::text::lower_of(user_input@)),
            true,
            Seq::empty(),
        ),
{
    let intent = crate::intent::has_file_operation_intent(user_input);
    let targets: Vec<String> = Vec::new();
    let results: Vec<ToolResult> = Vec::new();
    let r = build_chat_prompt(user_input, files, errors, None, &targets, intent, true, &results);
    proof {
        assert(targets.deep_view() =~= Seq::<Seq<char>>::empty());
        assert(results_view(results@) =~= Seq::<(Seq<char>, bool, Seq<char>)>::empty());
    }
    r
}

/// Build a prompt from the user input alone.
pub fn build_simple_prompt(user_input: &str) -> (r: String)
    ensures
        r@ == spec_chat_prompt(
            user_input@,
            Seq::empty(),
            Seq::empty(),
            None,
            Seq::empty(),
            crate::intent::spec_file_operation_intent(crate::text::lower_of(user_input@)),
            true,
            Seq::empty(),
        ),
{
    let files: Vec<FileContent> = Vec::new();
    let errors: Vec<(String, String)> = Vec::new();
    let r = build_prompt(user_input, &files, &errors);
    proof {
        assert(files_view(files@) =~= Seq::<(Seq<char>, Seq<char>)>::empty());
        assert(errors.deep_view() =~= Seq::<(Seq<char>, Seq<char>)>::empty());
    }
    r
}



/// A prompt built under the context limit: the prompt, the truncation
/// notices, and whether the budget overflowed (the turn must then not
/// proceed).
pub struct PromptWithLimit {
    pub prompt: String,
    pub notices: Vec<TruncationNotice>,
    pub overflow: bool,
}

/// What building a prompt under the context limit guarantees, with
/// `outs` the cut-down files that drove the final prompt. The prompt is
/// measured without attached files first: at or over the maximum,
/// overflow is signalled with the bare prompt. Otherwise the budget
/// left after the fixed reserve is distributed over the files (see
/// `spec_truncation_ok`), the full prompt is rebuilt with the cut
/// files, and it is the result unless it still exceeds the maximum, in
/// which case overflow is signalled with the bare prompt.
pub open spec fn spec_prompt_limit_ok(
    out_prompt: Seq<char>,
    out_notices: Seq<TruncationNotice>,
    out_overflow: bool,
    user_input: Seq<char>,
    files: Seq<FileContent>,
    errors: Seq<(Seq<char>, Seq<char>)>,
    info: Option<Seq<char>>,
    targets: Seq<Seq<char>>,
    has_file_op_intent: bool,
    file_writes_enabled: bool,
    results: Seq<(Seq<char>, bool, Seq<char>)>,
    max: int,
    reserved: int,
    outs: Seq<FileContent>,
) -> bool {
    let base = spec_chat_prompt(
        user_input,
        Seq::empty(),
        errors,
        info,
        targets,
        has_file_op_intent,
        file_writes_enabled,
        results,
    );
    let base_tokens = spec_estimate_tokens(text_bytes(base));
    let budget: int = if base_tokens + reserved >= max {
        0
    } else {
        max - base_tokens - reserved
    };
    &&& (base_tokens >= max ==> out_overflow && out_prompt == base && out_notices.len() == 0)
    &&& (base_tokens < max ==> {
        let full = spec_chat_prompt(
            user_input,
            files_view(outs),
            errors,
            info,
            targets,
            has_file_op_intent,
            file_writes_enabled,
            results,
        );
        let over = spec_estimate_tokens(text_bytes(full)) > max;
        &&& spec_truncation_ok(files, budget, outs, out_notices)
        &&& out_overflow == over
        &&& (over ==> out_prompt == base)
        &&& (!over ==> out_prompt == full)
    })
}

use crate::tokens::spec_truncation_ok;

/// The view of an optional tool listing.
pub open spec fn info_view(tool_info: Option<&str>) -> Option<Seq<char>> {
    match tool_info {
        Some(i) => Some(i@),
        None => None,
    }
}

/// Build the prompt under the context budget; see
/// `spec_prompt_limit_ok` for the guarantee, stated for some cut-down
/// file list.
#[verifier::rlimit(100)]
#[verifier::spinoff_prover]
pub fn build_prompt_with_context_limit(
    user_input: &str,
    files: &Vec<FileContent>,
    errors: &Vec<(String, String)>,
    tool_info: Option<&str>,
    output_targets: &Vec<String>,
    has_file_op_intent: bool,
    file_writes_enabled: bool,
    tool_results: &Vec<ToolResult>,
    limits: &crate::config::ContextLimits,
) -> (r: PromptWithLimit)
    requires
        sum_file_tokens(files@) <= usize::MAX,
    ensures
        exists|outs: Seq<FileContent>|
            #[trigger] spec_prompt_limit_ok(
                r.prompt@,
                r.notices@,
                r.overflow,
                user_input@,
                files@,
                errors.deep_view(),
                info_view(tool_info),
                output_targets.deep_view(),
                has_file_op_intent,
                file_writes_enabled,
                results_view(tool_results@),
                limits.max_context_tokens as int,
                limits.context_reserved_tokens as int,
                outs,
            ),
{
    let ghost ginfo: Option<Seq<char>> = info_view(tool_info);
    let no_files: Vec<FileContent> = Vec::new();
    let base_prompt = build_chat_prompt(
        user_input,
        &no_files,
        errors,
        tool_info,
        output_targets,
        has_file_op_intent,
        file_writes_enabled,
        tool_results,
    );
    proof {
        assert(files_view(no_files@) =~= Seq::<(Seq<char>, Seq<char>)>::empty());
    }
    let base_tokens = estimate_tokens(base_prompt.as_str());
    let max = limits.max_context_tokens;
    if base_tokens >= max {
        let r = PromptWithLimit { prompt: base_prompt, notices: Vec::new(), overflow: true };
        proof {
            assert(spec_prompt_limit_ok(
                r.prompt@,
                r.notices@,
                r.overflow,
                user_input@,
                files@,
                errors.deep_view(),
                ginfo,
                output_targets.deep_view(),
                has_file_op_intent,
                file_writes_enabled,
                results_view(tool_results@),
                limits.max_context_tokens as int,
                limits.context_reserved_tokens as int,
                Seq::<FileContent>::empty(),
            ));
        }
        return r;
    }
    let budget: usize = if limits.context_reserved_tokens >= max - base_tokens {
        0
    } else {
        max - base_tokens - limits.context_reserved_tokens
    };
    let (trimmed, notices) = truncate_files_to_budget(files, budget);
    let full_prompt = build_chat_prompt(
        user_input,
        &trimmed,
        errors,
        tool_info,
        output_targets,
        has_file_op_intent,
        file_writes_enabled,
        tool_results,
    );
    let full_tokens = estimate_tokens(full_prompt.as_str());
    let ghost outs_witness = trimmed@;
    if full_tokens > max {
        let r = PromptWithLimit { prompt: base_prompt, notices, overflow: true };
        proof {
            assert(spec_prompt_limit_ok(
                r.prompt@,
                r.notices@,
                r.overflow,
                user_input@,
                files@,
                errors.deep_view(),
                ginfo,
                output_targets.deep_view(),
                has_file_op_intent,
                file_writes_enabled,
                results_view(tool_results@),
                limits.max_context_tokens as int,
                limits.context_reserved_tokens as int,
                outs_witness,
            ));
        }
        r
    } else {
        let r = PromptWithLimit { prompt: full_prompt, notices, overflow: false };
        proof {
            assert(spec_prompt_limit_ok(
                r.prompt@,
                r.notices@,
                r.overflow,
                user_input@,
                files@,
                errors.deep_view(),
                ginfo,
                output_targets.deep_view(),
                has_file_op_intent,
                file_writes_enabled,
                results_view(tool_results@),
                limits.max_context_tokens as int,
                limits.context_reserved_tokens as int,
                outs_witness,
            ));
        }
        r
    }
}

} // verus!

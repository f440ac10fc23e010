//! Chat templates: the fixed turn markers each model family expects
//! around a prompt.

use vstd::prelude::*;
use vstd::string::StringExecFns;

verus! {

/// The model family whose turn markers wrap the prompt.
#[derive(Clone, Copy, Debug)]
pub enum ChatTemplate {
    Gemma,
    Qwen,
}

/// The templated prompt: the family's user-turn opening, the prompt
/// itself, and the handover to the model turn.
pub open spec fn spec_apply_template(t: ChatTemplate, p: Seq<char>) -> Seq<char> {
    match t {
        ChatTemplate::Gemma => "<start_of_turn>user\n"@ + p
            + "<end_of_turn>\n<start_of_turn>model\n"@,
        ChatTemplate::Qwen => "<|im_start|>user\n"@ + p + "<|im_end|>\n<|im_start|>assistant\n"@,
    }
}

impl ChatTemplate {
    /// Wrap `prompt` in this family's turn markers.
    pub fn apply(&self, prompt: &str) -> (r: String)
        ensures
            r@ == spec_apply_template(*self, prompt@),
    {
        match *self {
            ChatTemplate::Gemma => {
                let mut out = String::new();
                out.append("<start_of_turn>user\n");
                out.append(prompt);
                out.append("<end_of_turn>\n<start_of_turn>model\n");
                proof {
                    assert(out@ =~= spec_apply_template(*self, prompt@));
                }
                out
            },
            ChatTemplate::Qwen => {
                let mut out = String::new();
                out.append("<|im_start|>user\n");
                out.append(prompt);
                out.append("<|im_end|>\n<|im_start|>assistant\n");
                proof {
                    assert(out@ =~= spec_apply_template(*self, prompt@));
                }
                out
            },
        }
    }
}

} // verus!

//! Configuration values as the library consumes them: which file
//! extensions to detect, the token budget, and the MCP server list.
//! Reading files or the environment to fill them is the caller's work.

use vstd::prelude::*;
use crate::text::{ascii_lower, trim_ws};

verus! {

/// The application's configuration.
pub struct AppConfig {
    pub detect_extensions: Vec<String>,
}

impl Default for AppConfig {
    /// The default configuration detects the default extensions.
    fn default() -> (r: AppConfig)
        ensures
            r.detect_extensions.deep_view() =~= seq![
                "rs"@, "toml"@, "md"@, "json"@, "yaml"@, "yml"@, "ts"@, "js"@, "py"@, "go"@,
                "sh"@, "txt"@, "c"@, "cpp"@, "h"@, "java"@, "cs"@,
            ],
    {
        AppConfig { detect_extensions: crate::paths::default_extensions() }
    }
}

/// The context budget the prompt builder works under.
pub struct ContextLimits {
    pub max_context_tokens: usize,
    pub context_reserved_tokens: usize,
}

impl Default for ContextLimits {
    /// The limits used when the environment sets none.
    fn default() -> (r: ContextLimits)
        ensures
            r.max_context_tokens == 4096,
            r.context_reserved_tokens == 256,
    {
        ContextLimits { max_context_tokens: 4096, context_reserved_tokens: 256 }
    }
}

/// One configured extension, cleaned: trimmed, lowered, and kept only
/// when it is a non-empty ASCII alphanumeric word.
pub open spec fn spec_clean_ext(e: Seq<char>) -> Seq<char> {
    ascii_lower(trim_ws(e))
}

/// An ASCII alphanumeric word.
pub open spec fn spec_all_alnum(s: Seq<char>) -> bool {
    forall|i: int| 0 <= i < s.len() ==> crate::paths::alnum_char(#[trigger] s[i])
}

/// The cleaned, deduplicated extension list.
pub open spec fn spec_norm_exts(list: Seq<Seq<char>>) -> Seq<Seq<char>>
    decreases list.len(),
{
    if list.len() == 0 {
        Seq::empty()
    } else {
        let front = spec_norm_exts(list.drop_last());
        let e = spec_clean_ext(list.last());
        if e.len() == 0 || !spec_all_alnum(e) || front.contains(e) {
            front
        } else {
            front.push(e)
        }
    }
}

/// Clean a configured extension list: each entry trimmed and lowered,
/// entries that are not plain ASCII alphanumeric words dropped,
/// duplicates dropped. `None` stays `None`; an explicitly empty list
/// stays empty (detection disabled); a list whose entries are all
/// dropped falls back to the defaults.
#[verifier::loop_isolation(false)]
pub fn normalize_exts(exts: Option<Vec<String>>) -> (r: Option<Vec<String>>)
    ensures
        match r {
            Some(out) => exts matches Some(list) && (if list.deep_view().len() == 0 {
                out.deep_view() =~= Seq::<Seq<char>>::empty()
            } else if spec_norm_exts(list.deep_view()).len() == 0 {
                out.deep_view() =~= seq![
                    "rs"@, "toml"@, "md"@, "json"@, "yaml"@, "yml"@, "ts"@, "js"@, "py"@, "go"@,
                    "sh"@, "txt"@, "c"@, "cpp"@, "h"@, "java"@, "cs"@,
                ]
            } else {
                out.deep_view() == spec_norm_exts(list.deep_view())
            }),
            None => exts is None,
        },
{
    let list = match exts {
        Some(list) => list,
        None => {
            return None;
        },
    };
    let n = list.len();
    if n == 0 {
        return Some(Vec::new());
    }
    let ghost ld = list.deep_view();
    let mut out: Vec<String> = Vec::new();
    let mut i: usize = 0;
    proof {
        assert(spec_norm_exts(ld.take(0)) =~= Seq::<Seq<char>>::empty());
        assert(out.deep_view() =~= Seq::<Seq<char>>::empty());
    }
    while i < n
        invariant
            0 <= i <= n,
            n == ld.len(),
            ld == list.deep_view(),
            out.deep_view() == spec_norm_exts(ld.take(i as int)),
        decreases n - i,
    {
        proof {
            assert(ld.take(i as int + 1).drop_last() =~= ld.take(i as int));
            assert(ld.take(i as int + 1).last() == ld[i as int]);
        }
        let chars = crate::text::str_to_chars(list[i].as_str());
        let trimmed = crate::text::trim_chars(&chars);
        let lower = crate::text::ascii_lower_chars(&trimmed);
        let m = lower.len();
        let mut ok = m > 0;
        let mut k: usize = 0;
        while k < m
            invariant
                0 <= k <= m,
                m == lower@.len(),
                ok == (m > 0 && forall|t: int|
                    0 <= t < k ==> crate::paths::alnum_char(#[trigger] lower@[t])),
            decreases m - k,
        {
            if !crate::paths::is_alnum_ascii(lower[k]) {
                ok = false;
            }
            k = k + 1;
        }
        proof {
            assert(ok == (lower@.len() > 0 && spec_all_alnum(lower@)));
        }
        if ok {
            let lower_str = crate::text::chars_to_string(&lower);
            let mut dup = false;
            let m_out = out.len();
            let mut q: usize = 0;
            while q < m_out && !dup
                invariant
                    0 <= q <= m_out,
                    m_out == out@.len(),
                    lower_str@ == lower@,
                    !dup ==> forall|t: int| 0 <= t < q ==> out.deep_view()[t] != lower@,
                    dup ==> out.deep_view().contains(lower@),
                decreases m_out - q,
            {
                if out[q].as_str().eq(lower_str.as_str()) {
                    proof {
                        assert(out.deep_view()[q as int] == lower@);
                    }
                    dup = true;
                }
                q = q + 1;
            }
            proof {
                if !dup && out.deep_view().contains(lower@) {
                    let t = choose|t: int|
                        0 <= t < out.deep_view().len() && out.deep_view()[t] == lower@;
                    assert(false);
                }
            }
            if !dup {
                let ghost pre = out.deep_view();
                out.push(lower_str);
                proof {
                    assert(out.deep_view() =~= pre.push(lower@));
                }
            }
        }
        i = i + 1;
    }
    proof {
        assert(ld.take(n as int) =~= ld);
    }
    if out.len() == 0 {
        Some(crate::paths::default_extensions())
    } else {
        Some(out)
    }
}

/// How an MCP server is reached.
#[derive(Clone, Copy, Debug, PartialEq, Eq, Structural)]
pub enum Transport {
    Stdio,
    Sse,
    WebSocket,
}

/// The transport used when a server names none.
pub fn default_transport() -> (r: Transport)
    ensures
        r == Transport::Stdio,
{
    Transport::Stdio
}

/// One configured MCP server.
pub struct ServerConfig {
    pub name: String,
    pub transport: Transport,
    pub command: String,
    pub args: Vec<String>,
    pub env: Option<Vec<(String, String)>>,
}

/// The configured MCP servers.
pub struct McpConfig {
    pub servers: Vec<ServerConfig>,
}

impl McpConfig {
    /// A configuration with no servers.
    pub fn default() -> (r: McpConfig)
        ensures
            r.servers@.len() == 0,
    {
        McpConfig { servers: Vec::new() }
    }

    /// Whether no server is configured.
    pub fn is_empty(&self) -> (r: bool)
        ensures
            r == (self.servers@.len() == 0),
    {
        self.servers.len() == 0
    }
}

} // verus!

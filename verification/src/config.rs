//! Agent configuration: the knobs the scheduler, provider adapter and
//! memory stream run with. Loading from disk and environment belongs to the
//! surrounding program; the library holds the values as plain data.

use vstd::prelude::*;
use vstd::string::StringExecFns;
use vstd::string::StringSliceAdditionalSpecFns;

verus! {

/// Seconds between think cycles unless configured otherwise.
pub fn default_thinking_pace() -> (r: u64)
    ensures
        r == 45,
{
    45
}

/// How many recent transcript entries a reasoning request may carry.
pub fn default_max_thoughts() -> (r: usize)
    ensures
        r == 20,
{
    20
}

/// Token budget of one reasoning call.
pub fn default_max_output_tokens() -> (r: u32)
    ensures
        r == 1000,
{
    1000
}

/// Bound on tool rounds within one think cycle.
pub fn default_max_tool_rounds() -> (r: u32)
    ensures
        r == 15,
{
    15
}

/// Records returned by a retrieval unless asked otherwise.
pub fn default_memory_retrieval_count() -> (r: usize)
    ensures
        r == 3,
{
    3
}

/// Accumulated importance at which reflection is due.
pub fn default_reflection_threshold() -> (r: u64)
    ensures
        r == 50,
{
    50
}

/// The default reasoning backend.
pub fn default_provider() -> (r: String)
    ensures
        r@ == "openai"@,
{
    String::from_str("openai")
}

/// The default reasoning model.
pub fn default_model() -> (r: String)
    ensures
        r@ == "gpt-4.1"@,
{
    String::from_str("gpt-4.1")
}

/// The default embedding model.
pub fn default_embedding_model() -> (r: String)
    ensures
        r@ == "text-embedding-3-small"@,
{
    String::from_str("text-embedding-3-small")
}

/// The configuration an agent runs with. The recency decay rate is held as
/// a fixed-point per-second retention ratio (see the scoring module); the
/// default corresponds to a decay rate of 0.995 per hour.
pub struct Config {
    /// Which backend protocol to speak: "openai", "openrouter" or "custom".
    pub provider: String,
    /// Reasoning model name.
    pub model: String,
    /// API key, when one is configured.
    pub api_key: Option<String>,
    /// Chat base URL for non-default backends.
    pub base_url: Option<String>,
    /// Key for the cloud web-search tools, when present.
    pub ollama_api_key: Option<String>,
    /// Seconds between think cycles.
    pub thinking_pace_seconds: u64,
    /// Rolling window of recent transcript entries in context.
    pub max_thoughts_in_context: usize,
    /// Token budget per reasoning call.
    pub max_output_tokens: u32,
    /// Bound on tool rounds per think cycle.
    pub max_tool_rounds: u32,
    /// Accumulated importance at which reflection is due.
    pub reflection_threshold: u64,
    /// Records returned per retrieval.
    pub memory_retrieval_count: usize,
    /// Embedding model name.
    pub embedding_model: String,
    /// Per-second recency retention ratio in score units.
    pub recency_retention: u64,
}

impl Config {
    /// Configuration well-formedness: the retention ratio is a proportion.
    pub open spec fn wf(&self) -> bool {
        self.recency_retention <= crate::score::SCORE_SCALE as u64
    }
}

impl Default for Config {
    /// The defaults the system ships with.
    fn default() -> (r: Config)
        ensures
            r.provider@ == "openai"@,
            r.model@ == "gpt-4.1"@,
            r.api_key is None,
            r.base_url is None,
            r.ollama_api_key is None,
            r.thinking_pace_seconds == 45,
            r.max_thoughts_in_context == 20,
            r.max_output_tokens == 1000,
            r.max_tool_rounds == 15,
            r.reflection_threshold == 50,
            r.memory_retrieval_count == 3,
            r.embedding_model@ == "text-embedding-3-small"@,
            r.recency_retention == crate::score::DEFAULT_RETENTION,
            r.wf(),
    {
        Config {
            provider: default_provider(),
            model: default_model(),
            api_key: None,
            base_url: None,
            ollama_api_key: None,
            thinking_pace_seconds: default_thinking_pace(),
            max_thoughts_in_context: default_max_thoughts(),
            max_output_tokens: default_max_output_tokens(),
            max_tool_rounds: default_max_tool_rounds(),
            reflection_threshold: default_reflection_threshold(),
            memory_retrieval_count: default_memory_retrieval_count(),
            embedding_model: default_embedding_model(),
            recency_retention: crate::score::DEFAULT_RETENTION,
        }
    }
}

/// Derive an agent's id from its box directory name: a trailing `_box` is
/// dropped, anything else is kept whole.
pub fn anemone_id_from_box(dirname: &str) -> (r: String)
    ensures
        ({
            let b = dirname.spec_bytes();
            let sfx = "_box".spec_bytes();
            if b.len() >= 4 && b.subrange(b.len() - 4, b.len() as int) == sfx {
                vstd::utf8::encode_utf8(r@) == b.subrange(0, b.len() - 4)
            } else {
                vstd::utf8::encode_utf8(r@) == b
            }
        }),
{
    broadcast use vstd::utf8::encode_utf8_valid_utf8;
    broadcast use vstd::utf8::is_char_boundary_iff_not_is_continuation_byte;

    let bytes = dirname.as_bytes();
    let n = bytes.len();
    let sfx = "_box".as_bytes();
    proof {
        reveal_strlit("_box");
        vstd::utf8::is_ascii_chars_encode_utf8("_box"@);
        assert("_box".spec_bytes().len() == 4);
        assert("_box".spec_bytes()[0] == 95);
    }
    if n >= 4 && sfx.len() == 4 {
        let tail = vstd::slice::slice_subrange(bytes, n - 4, n);
        if crate::strutil::bytes_eq(tail, sfx) {
            proof {
                assert(dirname.spec_bytes()[n - 4] == 95) by {
                    assert(tail@[0] == dirname.spec_bytes()[n - 4]);
                }
                assert(!vstd::utf8::is_continuation_byte(dirname.spec_bytes()[n - 4]));
            }
            let (head, _) = dirname.split_at(n - 4);
            return head.to_owned();
        }
    }
    dirname.to_owned()
}

} // verus!

//! Decisions of the provider pipeline: key rotation, retries, failover and
//! the request addresses.
//!
//! The pipeline tries the providers in priority order.  A provider is
//! called with the key the shared counter selects; a rate-limited call
//! moves the counter to the next key and retries at once while untried keys
//! remain; a failing backup provider (any but the first) is retried after
//! an exponentially growing delay with jitter, up to three times; otherwise
//! the pipeline moves to the next provider.  The HTTP calls and the sleeps
//! are the caller's part.

use vstd::prelude::*;
use crate::llm_config::{Provider, ProviderType, key_parts, split_keys, texts};
use crate::skill::contains_text;
use crate::snapshot::{lowercase, to_lowercase};
use crate::text::{chars_to_string, push_str, str_chars};

verus! {

/// Retries with backoff allowed on a backup provider.
pub const MAX_BACKOFF_RETRIES: u32 = 3;

/// The keys rotated through for a provider: the configured rotation list
/// when it is not empty, else the provider's own comma-separated keys.
pub open spec fn rotation_keys_of(config_keys: Seq<Seq<char>>, p: Provider) -> Seq<Seq<char>> {
    if config_keys.len() > 0 {
        config_keys
    } else {
        match p.api_key {
            Some(k) => key_parts(k@),
            None => Seq::empty(),
        }
    }
}

/// The keys rotated through for a provider.
pub fn rotation_keys(config_keys: &Vec<String>, provider: &Provider) -> (r: Vec<String>)
    ensures
        texts(r@) == rotation_keys_of(texts(config_keys@), *provider),
{
    if config_keys.len() > 0 {
        let mut out: Vec<String> = Vec::new();
        let mut i: usize = 0;
        while i < config_keys.len()
            invariant
                i <= config_keys@.len(),
                texts(out@) == texts(config_keys@).subrange(0, i as int),
            decreases config_keys@.len() - i,
        {
            let ghost before = texts(out@);
            out.push(config_keys[i].clone());
            assert(texts(out@) =~= before.push(config_keys@[i as int]@));
            assert(texts(out@) =~= texts(config_keys@).subrange(0, i + 1));
            i = i + 1;
        }
        assert(texts(config_keys@).subrange(0, config_keys@.len() as int) =~= texts(config_keys@));
        out
    } else {
        match &provider.api_key {
            Some(k) => split_keys(k.as_str()),
            None => {
                let out: Vec<String> = Vec::new();
                assert(texts(out@) =~= Seq::<Seq<char>>::empty());
                out
            },
        }
    }
}

/// A provider other than Ollama cannot be called without a key: the error
/// that skips it.
pub fn missing_key_error(provider: &Provider, key_count: usize) -> (r: Option<String>)
    ensures
        (provider.provider_type != ProviderType::Ollama && key_count == 0) <==> r is Some,
        r matches Some(m) ==> m@ == "Provider "@ + provider.name@
            + " requires an API key but none was supplied"@,
{
    if provider.provider_type != ProviderType::Ollama && key_count == 0 {
        let mut v: Vec<char> = Vec::new();
        push_str(&mut v, "Provider ");
        push_str(&mut v, provider.name.as_str());
        push_str(&mut v, " requires an API key but none was supplied");
        Some(chars_to_string(v.as_slice()))
    } else {
        None
    }
}

/// The index of the key the shared counter selects.
pub fn key_index(counter: usize, key_count: usize) -> (i: usize)
    requires
        key_count > 0,
    ensures
        i == counter % key_count,
        i < key_count,
{
    counter % key_count
}

/// The retry state of one provider.
#[derive(Debug, Clone, Copy, PartialEq, Eq, Structural)]
pub struct RetryState {
    /// Keys that failed with a rate limit so far.
    pub key_failed_count: usize,
    /// Backoff retries made so far.
    pub backoff_attempt: u32,
    /// The base delay of the next backoff, in milliseconds.
    pub base_delay_ms: u64,
}

/// The state before the first call to a provider: a one-second base delay.
pub fn initial_retry_state() -> (s: RetryState)
    ensures
        s.key_failed_count == 0,
        s.backoff_attempt == 0,
        s.base_delay_ms == 1000,
{
    RetryState { key_failed_count: 0, backoff_attempt: 0, base_delay_ms: 1000 }
}

/// What to do after a failed call.
#[derive(Debug, Clone, Copy, PartialEq, Eq, Structural)]
pub enum RetryAction {
    /// Move the shared counter to the next key and retry at once.
    RotateKey,
    /// Sleep this many milliseconds, then retry.
    Backoff(u64),
    /// Give up on this provider.
    NextProvider,
}

/// The next action and state after a failed call: rotate to the next key
/// when the call was rate-limited and untried keys remain; else, on a
/// backup provider with backoff retries left, sleep the base delay plus the
/// jitter and double the base delay; else move on.
pub open spec fn after_failure_spec(
    s: RetryState,
    rate_limited: bool,
    key_count: nat,
    is_backup: bool,
    jitter_ms: u64,
) -> (RetryAction, RetryState) {
    if rate_limited && key_count > 0 && s.key_failed_count < key_count - 1 {
        (RetryAction::RotateKey, RetryState { key_failed_count: (s.key_failed_count + 1) as usize, ..s })
    } else if is_backup && s.backoff_attempt < MAX_BACKOFF_RETRIES {
        (
            RetryAction::Backoff((s.base_delay_ms + jitter_ms) as u64),
            RetryState {
                base_delay_ms: (s.base_delay_ms * 2) as u64,
                backoff_attempt: (s.backoff_attempt + 1) as u32,
                ..s
            },
        )
    } else {
        (RetryAction::NextProvider, s)
    }
}

/// The decision after a failed call.
pub fn after_failure(
    s: RetryState,
    rate_limited: bool,
    key_count: usize,
    is_backup: bool,
    jitter_ms: u64,
) -> (r: (RetryAction, RetryState))
    requires
        s.base_delay_ms <= 8000,
        jitter_ms < 500,
    ensures
        r == after_failure_spec(s, rate_limited, key_count as nat, is_backup, jitter_ms),
{
    if rate_limited && key_count > 0 && s.key_failed_count < key_count - 1 {
        (RetryAction::RotateKey, RetryState { key_failed_count: s.key_failed_count + 1, ..s })
    } else if is_backup && s.backoff_attempt < MAX_BACKOFF_RETRIES {
        (
            RetryAction::Backoff(s.base_delay_ms + jitter_ms),
            RetryState {
                base_delay_ms: s.base_delay_ms * 2,
                backoff_attempt: s.backoff_attempt + 1,
                ..s
            },
        )
    } else {
        (RetryAction::NextProvider, s)
    }
}

/// The base delay stays within the bound `after_failure` needs: it starts at
/// one second and doubles at most three times.
pub open spec fn retry_state_ok(s: RetryState) -> bool {
    s.backoff_attempt <= MAX_BACKOFF_RETRIES && s.base_delay_ms == 1000 * pow2(s.backoff_attempt as nat)
}

pub open spec fn pow2(n: nat) -> nat
    decreases n,
{
    if n == 0 {
        1
    } else {
        2 * pow2((n - 1) as nat)
    }
}

/// Every failure keeps the retry state in bounds, each rotation consumes
/// an untried key and each backoff one of the three retries, so a provider
/// is given up after at most `key_count - 1 + 3` retries.
pub proof fn lemma_retry_bounded(
    s: RetryState,
    rate_limited: bool,
    key_count: nat,
    is_backup: bool,
    jitter_ms: u64,
)
    requires
        retry_state_ok(s),
        jitter_ms < 500,
        key_count <= usize::MAX,
        key_count > 0 ==> s.key_failed_count < key_count,
    ensures
        ({
            let (a, t) = after_failure_spec(s, rate_limited, key_count, is_backup, jitter_ms);
            &&& retry_state_ok(t)
            &&& s.base_delay_ms <= 8000
            &&& key_count > 0 ==> t.key_failed_count < key_count
            &&& a == RetryAction::RotateKey ==> t.key_failed_count == s.key_failed_count + 1
                && t.backoff_attempt == s.backoff_attempt
            &&& a is Backoff ==> t.backoff_attempt == s.backoff_attempt + 1 && t.key_failed_count
                == s.key_failed_count
        }),
{
    assert(pow2(0) == 1 && pow2(1) == 2 && pow2(2) == 4 && pow2(3) == 8 && pow2(4) == 16) by {
        reveal_with_fuel(pow2, 6);
    }
    let b = s.backoff_attempt as nat;
    assert(pow2(b + 1) == 2 * pow2(b));
    if b == 0 {
    } else if b == 1 {
    } else if b == 2 {
    } else {
        assert(b == 3);
    }
    assert(s.base_delay_ms <= 8000);
}

/// The retry policy after a failure: the key is rotated exactly when the
/// failure was rate-limited and an untried key remains, and only a rotation
/// counts a failed key; a backup provider backs off only when no rotation
/// applies, doubling its delay, and only while retries remain; any other
/// failure moves on to the next provider with the state untouched.
pub proof fn lemma_after_failure_policy(
    s: RetryState,
    rate_limited: bool,
    key_count: nat,
    is_backup: bool,
    jitter_ms: u64,
)
    requires
        s.base_delay_ms <= 8000,
        jitter_ms < 500,
        key_count <= usize::MAX,
    ensures
        ({
            let (a, t) = after_failure_spec(s, rate_limited, key_count, is_backup, jitter_ms);
            let rotate = rate_limited && s.key_failed_count + 1 < key_count;
            &&& (a == RetryAction::RotateKey) <==> rotate
            &&& !rate_limited ==> a != RetryAction::RotateKey && t.key_failed_count
                == s.key_failed_count
            &&& a == RetryAction::RotateKey ==> t.key_failed_count == s.key_failed_count + 1
                && t.base_delay_ms == s.base_delay_ms && t.backoff_attempt == s.backoff_attempt
            &&& (a is Backoff) <==> (!rotate && is_backup && s.backoff_attempt
                < MAX_BACKOFF_RETRIES)
            &&& a is Backoff ==> a->0 == s.base_delay_ms + jitter_ms && t.base_delay_ms == 2
                * s.base_delay_ms && t.backoff_attempt == s.backoff_attempt + 1
                && t.key_failed_count == s.key_failed_count
            &&& a == RetryAction::NextProvider ==> t == s
            &&& (a == RetryAction::NextProvider) <==> (!rotate && !(is_backup
                && s.backoff_attempt < MAX_BACKOFF_RETRIES))
        }),
{
}

// ---------------------------------------------------------------------------
// Rate limits
// ---------------------------------------------------------------------------

/// A failed call was rate-limited: an HTTP status of 429 when the failure
/// carries a status, else a message mentioning `429`,
/// `resource_exhausted` or `too many requests` (ignoring case).
pub open spec fn rate_limited(status: Option<u16>, message: Seq<char>) -> bool {
    match status {
        Some(code) => code == 429,
        None => {
            let m = lowercase(message);
            contains_text(m, "429"@) || contains_text(m, "resource_exhausted"@) || contains_text(
                m,
                "too many requests"@,
            )
        },
    }
}

/// Rate-limit detection: a failure with an HTTP status is rate-limited
/// exactly when the status is 429, whatever its message; one without a
/// status is rate-limited when its message, ignoring case, mentions `429`,
/// `resource_exhausted` or `too many requests`, and not otherwise.
pub proof fn lemma_rate_limited(status: Option<u16>, message: Seq<char>)
    ensures
        status matches Some(c) ==> (rate_limited(status, message) <==> c == 429),
        status is None ==> (rate_limited(status, message) <==> (exists|i: int|
            0 <= i && i + 3 <= lowercase(message).len() && #[trigger] lowercase(message).subrange(
                i,
                i + 3,
            ) == "429"@) || (exists|i: int|
            0 <= i && i + 18 <= lowercase(message).len() && #[trigger] lowercase(message).subrange(
                i,
                i + 18,
            ) == "resource_exhausted"@) || (exists|i: int|
            0 <= i && i + 17 <= lowercase(message).len() && #[trigger] lowercase(message).subrange(
                i,
                i + 17,
            ) == "too many requests"@)),
{
    reveal_strlit("429");
    reveal_strlit("resource_exhausted");
    reveal_strlit("too many requests");
    let m = lowercase(message);
    assert("429"@.len() == 3 && "resource_exhausted"@.len() == 18 && "too many requests"@.len() == 17);
    assert(contains_text(m, "429"@) == (exists|i: int|
        0 <= i && i + 3 <= m.len() && #[trigger] m.subrange(i, i + 3) == "429"@));
    assert(contains_text(m, "resource_exhausted"@) == (exists|i: int|
        0 <= i && i + 18 <= m.len() && #[trigger] m.subrange(i, i + 18) == "resource_exhausted"@));
    assert(contains_text(m, "too many requests"@) == (exists|i: int|
        0 <= i && i + 17 <= m.len() && #[trigger] m.subrange(i, i + 17) == "too many requests"@));
}

/// Whether a failed call was rate-limited.
pub fn is_rate_limited(status: Option<u16>, message: &str) -> (r: bool)
    ensures
        r == rate_limited(status, message@),
{
    match status {
        Some(code) => code == 429,
        None => {
            let lower = to_lowercase(message);
            let m = str_chars(lower.as_str());
            let a = str_chars("429");
            let b = str_chars("resource_exhausted");
            let c = str_chars("too many requests");
            crate::skill::has_substring(m.as_slice(), a.as_slice())
                || crate::skill::has_substring(m.as_slice(), b.as_slice())
                || crate::skill::has_substring(m.as_slice(), c.as_slice())
        },
    }
}

/// The error of a pipeline whose providers all failed.
pub fn pipeline_failure(last_error: &str) -> (m: String)
    ensures
        m@ == "LLM Pipeline failed after trying all providers. Last error: "@ + last_error@,
{
    let mut v: Vec<char> = Vec::new();
    push_str(&mut v, "LLM Pipeline failed after trying all providers. Last error: ");
    push_str(&mut v, last_error);
    chars_to_string(v.as_slice())
}

// ---------------------------------------------------------------------------
// Jitter
// ---------------------------------------------------------------------------

/// The jitter for a clock reading: its nanoseconds modulo 500, 0 for a clock
/// before the epoch.
pub fn jitter_of(nanos: Option<u128>) -> (j: u64)
    ensures
        j == match nanos {
            None => 0,
            Some(n) => n % 500,
        },
        j < 500,
{
    match nanos {
        None => 0,
        Some(n) => (n % 500) as u64,
    }
}

/// A jitter of under half a second: [`jitter_of`] the system clock's reading.
pub fn get_jitter() -> (j: u64)
    ensures
        j < 500,
{
    jitter_of(crate::clock::epoch_nanos())
}

// ---------------------------------------------------------------------------
// Request addresses
// ---------------------------------------------------------------------------

/// `str::trim_end_matches('/')`.
pub open spec fn trim_slashes(s: Seq<char>) -> Seq<char>
    decreases s.len(),
{
    if s.len() > 0 && s.last() == '/' {
        trim_slashes(s.drop_last())
    } else {
        s
    }
}

fn trim_slashes_exec(s: &str) -> (r: Vec<char>)
    ensures
        r@ == trim_slashes(s@),
{
    let v = str_chars(s);
    let mut j: usize = v.len();
    assert(v@.subrange(0, j as int) =~= v@);
    while j > 0 && v[j - 1] == '/'
        invariant
            j <= v@.len(),
            trim_slashes(s@) == trim_slashes(v@.subrange(0, j as int)),
            v@ == s@,
        decreases j,
    {
        assert(v@.subrange(0, j as int).drop_last() =~= v@.subrange(0, j - 1));
        j = j - 1;
    }
    crate::text::copy_range(v.as_slice(), 0, j)
}

/// The generation endpoint of an Ollama provider.
pub fn ollama_url(endpoint: &str) -> (u: String)
    ensures
        u@ == trim_slashes(endpoint@) + "/api/generation"@,
{
    let mut v = trim_slashes_exec(endpoint);
    push_str(&mut v, "/api/generation");
    chars_to_string(v.as_slice())
}

/// The base address of a provider: its endpoint without trailing slashes,
/// or the default when the endpoint is empty.
pub open spec fn base_url(endpoint: Seq<char>, default: Seq<char>) -> Seq<char> {
    if endpoint.len() == 0 {
        default
    } else {
        trim_slashes(endpoint)
    }
}

/// The content-generation address of a Gemini provider with a key.
pub fn gemini_url(endpoint: &str, model: &str, key: &str) -> (u: String)
    ensures
        u@ == base_url(endpoint@, "https://generativelanguage.googleapis.com"@) + "/v1beta/models/"@
            + model@ + ":generateContent?key="@ + key@,
{
    let mut v: Vec<char> = if endpoint.is_empty() {
        str_chars("https://generativelanguage.googleapis.com")
    } else {
        trim_slashes_exec(endpoint)
    };
    push_str(&mut v, "/v1beta/models/");
    push_str(&mut v, model);
    push_str(&mut v, ":generateContent?key=");
    push_str(&mut v, key);
    chars_to_string(v.as_slice())
}

/// The chat-completion address of an OpenAI-style provider: OpenRouter's
/// default base takes `/v1/chat/completions`, any other base
/// `/chat/completions`.
pub open spec fn chat_url_of(t: ProviderType, endpoint: Seq<char>) -> Seq<char> {
    let default = if t == ProviderType::OpenRouter {
        "https://openrouter.ai/api"@
    } else {
        "https://api.openai.com"@
    };
    if t == ProviderType::OpenRouter && endpoint.len() == 0 {
        base_url(endpoint, default) + "/v1/chat/completions"@
    } else {
        base_url(endpoint, default) + "/chat/completions"@
    }
}

/// The chat-completion address of an OpenAI-style provider.
pub fn chat_url(t: ProviderType, endpoint: &str) -> (u: String)
    ensures
        u@ == chat_url_of(t, endpoint@),
{
    let default = if t == ProviderType::OpenRouter {
        "https://openrouter.ai/api"
    } else {
        "https://api.openai.com"
    };
    let mut v: Vec<char> = if endpoint.is_empty() {
        str_chars(default)
    } else {
        trim_slashes_exec(endpoint)
    };
    if t == ProviderType::OpenRouter && endpoint.is_empty() {
        push_str(&mut v, "/v1/chat/completions");
    } else {
        push_str(&mut v, "/chat/completions");
    }
    chars_to_string(v.as_slice())
}

/// The bearer authorization header value of a key.
pub fn bearer(key: &str) -> (h: String)
    ensures
        h@ == "Bearer "@ + key@,
{
    let mut v: Vec<char> = Vec::new();
    push_str(&mut v, "Bearer ");
    push_str(&mut v, key);
    chars_to_string(v.as_slice())
}

} // verus!

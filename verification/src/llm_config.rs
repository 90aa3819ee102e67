//! LLM provider configuration and the gateway contract.
//!
//! Reading and parsing configuration files is the caller's part; this module
//! decides which source wins, completes a parsed configuration (flattening
//! the comma-separated provider keys into the rotation list and ordering the
//! providers by priority), and migrates the legacy JSON configuration.

use vstd::prelude::*;
use crate::domain_memory::{join_path, join_paths};
use crate::memory::MemoryConfig;
use crate::text::{chars_to_string, push_str, str_chars, trim, trim_chars};

verus! {

// ---------------------------------------------------------------------------
// Types
// ---------------------------------------------------------------------------

/// The kind of an LLM provider.
#[derive(Debug, Clone, Copy, PartialEq, Eq, Structural)]
pub enum ProviderType {
    Ollama,
    Gemini,
    OpenRouter,
    OpenAI,
}

/// One configured LLM provider; a lower `priority` is tried first.
#[derive(Debug, Clone, PartialEq, Eq)]
pub struct Provider {
    pub name: String,
    pub provider_type: ProviderType,
    pub endpoint: String,
    pub model: String,
    /// One key, or several separated by commas.
    pub api_key: Option<String>,
    pub priority: usize,
}

/// Extraction tuning.
#[derive(Debug, Clone, PartialEq, Eq)]
pub struct ExtractionConfig {
    pub chunk_size: usize,
    pub max_concurrency: usize,
    /// Thread-pool concurrency limit, when set.
    pub concurrency: Option<usize>,
}

impl Default for ExtractionConfig {
    fn default() -> (c: Self)
        ensures
            c.chunk_size == 1024,
            c.max_concurrency == 1,
            c.concurrency is None,
    {
        ExtractionConfig { chunk_size: 1024, max_concurrency: 1, concurrency: None }
    }
}

/// How to start one plugin subprocess.
#[derive(Debug, Clone, PartialEq, Eq)]
pub struct PluginConfig {
    pub command: String,
    pub args: Vec<String>,
    /// Environment overrides, `(name, value)`.
    pub env: Vec<(String, String)>,
    pub cwd: Option<String>,
}

/// The declared plugins, `(id, config)`.
#[derive(Debug, Clone, PartialEq, Eq)]
pub struct PluginsConfig {
    pub plugins: Vec<(String, PluginConfig)>,
}

impl Default for PluginsConfig {
    fn default() -> (c: Self)
        ensures
            c.plugins@.len() == 0,
    {
        PluginsConfig { plugins: Vec::new() }
    }
}

/// The LLM configuration.
#[derive(Debug, Clone, PartialEq, Eq)]
pub struct LLMConfig {
    pub providers: Vec<Provider>,
    pub extraction: ExtractionConfig,
    /// Flattened keys for rotation.
    pub api_keys: Vec<String>,
    pub memory: MemoryConfig,
}

impl Default for LLMConfig {
    fn default() -> (c: Self)
        ensures
            c.providers@.len() == 1,
            c.providers@[0].name@ == "ollama"@,
            c.providers@[0].provider_type == ProviderType::Ollama,
            c.providers@[0].endpoint@ == "http://localhost:11434"@,
            c.providers@[0].model@ == "bge-m3"@,
            c.providers@[0].api_key is None,
            c.providers@[0].priority == 10,
            c.extraction.chunk_size == 1024,
            c.extraction.max_concurrency == 1,
            c.api_keys@.len() == 0,
    {
        let mut providers: Vec<Provider> = Vec::new();
        providers.push(
            Provider {
                name: String::from_str("ollama"),
                provider_type: ProviderType::Ollama,
                endpoint: String::from_str("http://localhost:11434"),
                model: String::from_str("bge-m3"),
                api_key: None,
                priority: 10,
            },
        );
        LLMConfig {
            providers,
            extraction: ExtractionConfig::default(),
            api_keys: Vec::new(),
            memory: MemoryConfig::default(),
        }
    }
}

// ---------------------------------------------------------------------------
// Rotation keys
// ---------------------------------------------------------------------------

/// Segments of `s[0..n]` split at `','`: the closed ones and the open one.
pub open spec fn comma_state(s: Seq<char>, n: int) -> (Seq<Seq<char>>, Seq<char>)
    decreases n,
{
    if n <= 0 {
        (Seq::empty(), Seq::empty())
    } else {
        let st = comma_state(s, n - 1);
        if s[n - 1] == ',' {
            (st.0.push(st.1), Seq::empty())
        } else {
            (st.0, st.1.push(s[n - 1]))
        }
    }
}

/// `str::split(',')`.
pub open spec fn comma_segments(s: Seq<char>) -> Seq<Seq<char>> {
    let st = comma_state(s, s.len() as int);
    st.0.push(st.1)
}

/// The non-empty trimmed segments among the first `n`.
pub open spec fn nonempty_trimmed(segs: Seq<Seq<char>>, n: int) -> Seq<Seq<char>>
    decreases n,
{
    if n <= 0 {
        Seq::empty()
    } else if trim(segs[n - 1]).len() > 0 {
        nonempty_trimmed(segs, n - 1).push(trim(segs[n - 1]))
    } else {
        nonempty_trimmed(segs, n - 1)
    }
}

/// The keys of a comma-separated key list: trimmed, empty ones dropped.
pub open spec fn key_parts(s: Seq<char>) -> Seq<Seq<char>> {
    let segs = comma_segments(s);
    nonempty_trimmed(segs, segs.len() as int)
}

pub open spec fn texts(v: Seq<String>) -> Seq<Seq<char>> {
    v.map_values(|s: String| s@)
}

/// The keys of a comma-separated key list: trimmed, empty ones dropped.
pub fn split_keys(keys: &str) -> (r: Vec<String>)
    ensures
        texts(r@) == key_parts(keys@),
{
    let s = str_chars(keys);
    let mut done: Vec<String> = Vec::new();
    let mut cur: Vec<char> = Vec::new();
    let mut i: usize = 0;
    while i < s.len()
        invariant
            i <= s@.len(),
            s@ == keys@,
            cur@ == comma_state(s@, i as int).1,
            texts(done@) == nonempty_trimmed(
                comma_state(s@, i as int).0,
                comma_state(s@, i as int).0.len() as int,
            ),
        decreases s@.len() - i,
    {
        let ghost st = comma_state(s@, i as int);
        if s[i] == ',' {
            let t = trim_chars(cur.as_slice());
            let ghost segs = st.0.push(st.1);
            assert(segs.drop_last() == st.0);
            assert(nonempty_trimmed(segs, st.0.len() as int) == nonempty_trimmed(st.0, st.0.len() as int)) by {
                lemma_nonempty_prefix(segs, st.0, st.0.len() as int);
            }
            if t.len() > 0 {
                let ghost before = texts(done@);
                done.push(chars_to_string(t.as_slice()));
                assert(texts(done@) =~= before.push(t@));
            }
            cur = Vec::new();
        } else {
            cur.push(s[i]);
        }
        i = i + 1;
    }
    let ghost st = comma_state(s@, s@.len() as int);
    let ghost segs = st.0.push(st.1);
    proof {
        lemma_nonempty_prefix(segs, st.0, st.0.len() as int);
    }
    let t = trim_chars(cur.as_slice());
    if t.len() > 0 {
        let ghost before = texts(done@);
        done.push(chars_to_string(t.as_slice()));
        assert(texts(done@) =~= before.push(t@));
    }
    done
}

proof fn lemma_nonempty_prefix(a: Seq<Seq<char>>, b: Seq<Seq<char>>, n: int)
    requires
        0 <= n <= b.len(),
        b.len() <= a.len(),
        forall|i: int| 0 <= i < b.len() ==> a[i] == b[i],
    ensures
        nonempty_trimmed(a, n) == nonempty_trimmed(b, n),
    decreases n,
{
    if n > 0 {
        lemma_nonempty_prefix(a, b, n - 1);
    }
}

/// The keys of the first `n` providers, in order.
pub open spec fn provider_keys(ps: Seq<Provider>, n: int) -> Seq<Seq<char>>
    decreases n,
{
    if n <= 0 {
        Seq::empty()
    } else {
        provider_keys(ps, n - 1) + match ps[n - 1].api_key {
            Some(k) => key_parts(k@),
            None => Seq::empty(),
        }
    }
}

impl LLMConfig {
    /// Fills an empty rotation list with the keys of the providers, in
    /// provider order (each provider's comma-separated keys trimmed, empty
    /// ones dropped); a non-empty list is kept.
    pub fn populate_api_keys(&mut self)
        ensures
            final(self).providers == old(self).providers,
            final(self).extraction == old(self).extraction,
            final(self).memory == old(self).memory,
            old(self).api_keys@.len() == 0 ==> texts(final(self).api_keys@) == provider_keys(
                old(self).providers@,
                old(self).providers@.len() as int,
            ),
            old(self).api_keys@.len() > 0 ==> final(self).api_keys == old(self).api_keys,
    {
        if self.api_keys.len() > 0 {
            return;
        }
        let mut keys: Vec<String> = Vec::new();
        let mut i: usize = 0;
        assert(texts(keys@) =~= Seq::<Seq<char>>::empty());
        while i < self.providers.len()
            invariant
                i <= self.providers@.len(),
                texts(keys@) == provider_keys(self.providers@, i as int),
            decreases self.providers@.len() - i,
        {
            match &self.providers[i].api_key {
                Some(k) => {
                    let mut parts = split_keys(k.as_str());
                    let ghost a = texts(keys@);
                    let ghost b = texts(parts@);
                    keys.append(&mut parts);
                    assert(texts(keys@) =~= a + b);
                },
                None => {
                    assert(texts(keys@) =~= texts(keys@) + Seq::<Seq<char>>::empty());
                },
            }
            i = i + 1;
        }
        self.api_keys = keys;
    }
}

// ---------------------------------------------------------------------------
// Ordering providers by priority
// ---------------------------------------------------------------------------

/// The position where an item of priority `p` goes in `s`: after every item
/// of priority at most `p` at the front.
pub open spec fn insert_pos(s: Seq<Provider>, p: usize) -> int
    decreases s.len(),
{
    if s.len() == 0 {
        0
    } else if s[0].priority > p {
        0
    } else {
        1 + insert_pos(s.drop_first(), p)
    }
}

/// Insertion of each item, in order, after the items of no greater
/// priority: a stable sort by priority.
pub open spec fn sort_by_priority(s: Seq<Provider>) -> Seq<Provider>
    decreases s.len(),
{
    if s.len() == 0 {
        Seq::empty()
    } else {
        let pre = sort_by_priority(s.drop_last());
        pre.insert(insert_pos(pre, s.last().priority), s.last())
    }
}

proof fn lemma_insert_pos_range(s: Seq<Provider>, p: usize)
    ensures
        0 <= insert_pos(s, p) <= s.len(),
    decreases s.len(),
{
    if s.len() > 0 && s[0].priority <= p {
        lemma_insert_pos_range(s.drop_first(), p);
    }
}

/// Items sorted by priority.
pub open spec fn sorted_by_priority(s: Seq<Provider>) -> bool {
    forall|i: int, j: int| 0 <= i < j < s.len() ==> (#[trigger] s[i]).priority <= (#[trigger] s[j]).priority
}

proof fn lemma_insert_sorted(s: Seq<Provider>, x: Provider)
    requires
        sorted_by_priority(s),
    ensures
        sorted_by_priority(s.insert(insert_pos(s, x.priority), x)),
        forall|i: int| 0 <= i < insert_pos(s, x.priority) ==> s[i].priority <= x.priority,
        forall|i: int| insert_pos(s, x.priority) <= i < s.len() ==> s[i].priority > x.priority,
    decreases s.len(),
{
    let k = insert_pos(s, x.priority);
    if s.len() > 0 && s[0].priority <= x.priority {
        let t = s.drop_first();
        assert(sorted_by_priority(t)) by {
            assert forall|i: int, j: int| 0 <= i < j < t.len() implies (#[trigger] t[i]).priority
                <= (#[trigger] t[j]).priority by {
                assert(t[i] == s[i + 1] && t[j] == s[j + 1]);
            }
        }
        lemma_insert_sorted(t, x);
        lemma_insert_pos_range(t, x.priority);
        assert(k == 1 + insert_pos(t, x.priority));
        assert forall|i: int| 0 <= i < k implies s[i].priority <= x.priority by {
            if i > 0 {
                assert(s[i] == t[i - 1]);
            }
        }
        assert forall|i: int| k <= i < s.len() implies s[i].priority > x.priority by {
            assert(s[i] == t[i - 1]);
        }
    } else if s.len() > 0 {
        assert forall|i: int| k <= i < s.len() implies s[i].priority > x.priority by {
            if i > 0 {
                assert(s[0].priority <= s[i].priority);
            }
        }
    }
    lemma_insert_pos_range(s, x.priority);
    let r = s.insert(k, x);
    s.insert_ensures(k, x);
    assert forall|i: int, j: int| 0 <= i < j < r.len() implies (#[trigger] r[i]).priority <= (
    #[trigger] r[j]).priority by {
        if i < k && j < k {
            assert(r[i] == s[i] && r[j] == s[j]);
        } else if i < k && j == k {
            assert(r[i] == s[i]);
        } else if i < k {
            assert(r[i] == s[i] && r[(j - 1) + 1] == s[j - 1]);
        } else if i == k {
            assert(r[(j - 1) + 1] == s[j - 1]);
        } else {
            assert(r[(i - 1) + 1] == s[i - 1] && r[(j - 1) + 1] == s[j - 1]);
        }
    }
}

/// The providers ordered by priority, keeping the given order among equal
/// priorities (`sort_by_key` is stable).
pub fn sort_providers(providers: Vec<Provider>) -> (r: Vec<Provider>)
    ensures
        r@ == sort_by_priority(providers@),
{
    let ghost input = providers@;
    let total = providers.len();
    let mut rest = providers;
    let mut taken: usize = 0;
    let mut out: Vec<Provider> = Vec::new();
    while rest.len() > 0
        invariant
            taken + rest@.len() == input.len(),
            input.len() == total,
            rest@ == input.subrange(taken as int, input.len() as int),
            out@ == sort_by_priority(input.subrange(0, taken as int)),
        decreases rest@.len(),
    {
        let p = rest.remove(0);
        let mut k: usize = 0;
        assert(out@.skip(0) =~= out@);
        while k < out.len() && out[k].priority <= p.priority
            invariant
                k <= out@.len(),
                insert_pos(out@, p.priority) == k + insert_pos(out@.skip(k as int), p.priority),
            decreases out@.len() - k,
        {
            assert(out@.skip(k as int).drop_first() =~= out@.skip(k + 1));
            k = k + 1;
        }
        assert(insert_pos(out@.skip(k as int), p.priority) == 0);
        assert(input.subrange(0, taken + 1).drop_last() =~= input.subrange(0, taken as int));
        assert(input.subrange(0, taken + 1).last() == p);
        out.insert(k, p);
        taken = taken + 1;
        assert(rest@ =~= input.subrange(taken as int, input.len() as int));
    }
    assert(input.subrange(0, taken as int) =~= input);
    out
}

/// The stable sort by priority orders the providers by priority and keeps
/// every provider (the result is a permutation of the input).
pub proof fn lemma_sort_by_priority(s: Seq<Provider>)
    ensures
        sorted_by_priority(sort_by_priority(s)),
        sort_by_priority(s).to_multiset() == s.to_multiset(),
    decreases s.len(),
{
    if s.len() > 0 {
        let pre = sort_by_priority(s.drop_last());
        lemma_sort_by_priority(s.drop_last());
        lemma_insert_sorted(pre, s.last());
        lemma_insert_pos_range(pre, s.last().priority);
        let k = insert_pos(pre, s.last().priority);
        vstd::seq_lib::to_multiset_insert(pre, k, s.last());
        vstd::seq_lib::to_multiset_build(s.drop_last(), s.last());
        assert(s.drop_last().push(s.last()) =~= s);
        assert(sort_by_priority(s) == pre.insert(k, s.last()));
        assert(sort_by_priority(s).to_multiset() == pre.to_multiset().insert(s.last()));
        assert(pre.to_multiset() == s.drop_last().to_multiset());
    } else {
        assert(s =~= Seq::<Provider>::empty());
        assert(sort_by_priority(s) =~= s);
    }
}

impl LLMConfig {
    /// Completes a parsed configuration: fills the rotation keys when none
    /// are given, then orders the providers by priority.
    pub fn finish_loaded(self) -> (c: Self)
        ensures
            c.providers@ == sort_by_priority(self.providers@),
            self.api_keys@.len() == 0 ==> texts(c.api_keys@) == provider_keys(
                self.providers@,
                self.providers@.len() as int,
            ),
            self.api_keys@.len() > 0 ==> c.api_keys == self.api_keys,
            c.extraction == self.extraction,
            c.memory == self.memory,
    {
        let mut c = self;
        c.populate_api_keys();
        let providers = c.providers;
        LLMConfig {
            providers: sort_providers(providers),
            extraction: c.extraction,
            api_keys: c.api_keys,
            memory: c.memory,
        }
    }
}

// ---------------------------------------------------------------------------
// Legacy JSON migration
// ---------------------------------------------------------------------------

/// One provider of a legacy JSON configuration: each field as read, `None`
/// when absent or of another JSON type.
#[derive(Debug, Clone, PartialEq, Eq)]
pub struct LegacyProvider {
    pub name: Option<String>,
    pub provider_type: Option<String>,
    pub endpoint: Option<String>,
    pub model: Option<String>,
    pub priority: Option<u64>,
    pub api_key: Option<String>,
}

/// The extraction section of a legacy configuration.
#[derive(Debug, Clone, PartialEq, Eq)]
pub struct LegacyExtraction {
    pub chunk_size: Option<u64>,
    pub max_concurrency: Option<u64>,
}

/// The provider type a legacy type name gives (`ollama` for anything else).
pub open spec fn legacy_type(t: Option<String>) -> ProviderType {
    match t {
        Some(s) => if s@ == "gemini"@ {
            ProviderType::Gemini
        } else if s@ == "openrouter"@ {
            ProviderType::OpenRouter
        } else if s@ == "openai"@ {
            ProviderType::OpenAI
        } else {
            ProviderType::Ollama
        },
        None => ProviderType::Ollama,
    }
}

fn legacy_provider_type(t: &Option<String>) -> (r: ProviderType)
    ensures
        r == legacy_type(*t),
{
    match t {
        Some(s) => {
            let v = str_chars(s.as_str());
            if crate::text::chars_eq_str(v.as_slice(), "gemini") {
                ProviderType::Gemini
            } else if crate::text::chars_eq_str(v.as_slice(), "openrouter") {
                ProviderType::OpenRouter
            } else if crate::text::chars_eq_str(v.as_slice(), "openai") {
                ProviderType::OpenAI
            } else {
                ProviderType::Ollama
            }
        },
        None => ProviderType::Ollama,
    }
}

fn text_or(o: &Option<String>, d: &str) -> (s: String)
    ensures
        s@ == match *o {
            Some(x) => x@,
            None => d@,
        },
{
    match o {
        Some(x) => x.clone(),
        None => String::from_str(d),
    }
}

fn count_or(o: Option<u64>, d: usize) -> (n: usize)
    ensures
        n == match o {
            Some(v) => if v <= usize::MAX {
                v as usize
            } else {
                d
            },
            None => d,
        },
{
    match o {
        Some(v) => if v <= usize::MAX as u64 {
            v as usize
        } else {
            d
        },
        None => d,
    }
}

/// The provider a legacy entry gives: name `Unknown`, empty endpoint and
/// model, and priority 10 when absent.
pub fn legacy_provider(p: &LegacyProvider) -> (r: Provider)
    ensures
        r.name@ == match p.name {
            Some(x) => x@,
            None => "Unknown"@,
        },
        r.provider_type == legacy_type(p.provider_type),
        r.endpoint@ == match p.endpoint {
            Some(x) => x@,
            None => Seq::<char>::empty(),
        },
        r.model@ == match p.model {
            Some(x) => x@,
            None => Seq::<char>::empty(),
        },
        r.priority == match p.priority {
            Some(v) => if v <= usize::MAX {
                v as usize
            } else {
                10
            },
            None => 10,
        },
        crate::types::opt_view(r.api_key) == crate::types::opt_view(p.api_key),
{
    proof {
        reveal_strlit("");
    }
    Provider {
        name: text_or(&p.name, "Unknown"),
        provider_type: legacy_provider_type(&p.provider_type),
        endpoint: text_or(&p.endpoint, ""),
        model: text_or(&p.model, ""),
        api_key: crate::types::copy_opt(&p.api_key),
        priority: count_or(p.priority, 10),
    }
}

/// A provider is what a legacy entry migrates to (`legacy_provider`).
pub open spec fn migrated_provider(r: Provider, p: LegacyProvider) -> bool {
    &&& r.name@ == match p.name {
        Some(x) => x@,
        None => "Unknown"@,
    }
    &&& r.provider_type == legacy_type(p.provider_type)
    &&& r.endpoint@ == match p.endpoint {
        Some(x) => x@,
        None => Seq::<char>::empty(),
    }
    &&& r.model@ == match p.model {
        Some(x) => x@,
        None => Seq::<char>::empty(),
    }
    &&& r.priority == match p.priority {
        Some(v) => if v <= usize::MAX {
            v as usize
        } else {
            10
        },
        None => 10,
    }
    &&& crate::types::opt_view(r.api_key) == crate::types::opt_view(p.api_key)
}

/// The legacy providers given, if any.
pub open spec fn legacy_list(providers: Option<&[LegacyProvider]>) -> Seq<LegacyProvider> {
    match providers {
        Some(ps) => ps@,
        None => Seq::empty(),
    }
}

/// The whole keys of the first `n` legacy providers that have one, in order.
pub open spec fn legacy_keys(ps: Seq<LegacyProvider>, n: int) -> Seq<Seq<char>>
    decreases n,
{
    if n <= 0 || n > ps.len() {
        Seq::empty()
    } else {
        match ps[n - 1].api_key {
            Some(k) => legacy_keys(ps, n - 1).push(k@),
            None => legacy_keys(ps, n - 1),
        }
    }
}

/// The configuration a legacy JSON configuration migrates to: its
/// providers (ordered by priority), each provider's whole key in the
/// rotation list (not split), and its extraction sizes (defaults 1024 and
/// 1).
pub fn migrate_legacy(
    providers: Option<&[LegacyProvider]>,
    extraction: Option<&LegacyExtraction>,
) -> (c: LLMConfig)
    ensures
        c.providers@.len() == match providers {
            Some(ps) => ps@.len(),
            None => 0,
        },
        c.extraction.chunk_size == match extraction {
            Some(e) => match e.chunk_size {
                Some(v) => if v <= usize::MAX {
                    v as usize
                } else {
                    1024
                },
                None => 1024,
            },
            None => 1024,
        },
        c.extraction.max_concurrency == match extraction {
            Some(e) => match e.max_concurrency {
                Some(v) => if v <= usize::MAX {
                    v as usize
                } else {
                    1
                },
                None => 1,
            },
            None => 1,
        },
        c.extraction.concurrency is None,
        sorted_by_priority(c.providers@),
        exists|ps: Seq<Provider>|
            #![trigger sort_by_priority(ps)]
            ps.len() == legacy_list(providers).len() && (forall|i: int|
                0 <= i < ps.len() ==> migrated_provider(#[trigger] ps[i], legacy_list(providers)[i]))
                && c.providers@ == sort_by_priority(ps),
        texts(c.api_keys@) == legacy_keys(legacy_list(providers), legacy_list(providers).len() as int),
{
    let mut ps: Vec<Provider> = Vec::new();
    let mut keys: Vec<String> = Vec::new();
    match providers {
        Some(list) => {
            let mut i: usize = 0;
            while i < list.len()
                invariant
                    i <= list@.len(),
                    ps@.len() == i,
                    forall|k: int| 0 <= k < i ==> migrated_provider(#[trigger] ps@[k], list@[k]),
                decreases list@.len() - i,
            {
                ps.push(legacy_provider(&list[i]));
                i = i + 1;
            }
        },
        None => {},
    }
    let ghost input = legacy_list(providers);
    assert(ps@.len() == input.len());
    let mut j: usize = 0;
    while j < ps.len()
        invariant
            j <= ps@.len(),
            ps@.len() == input.len(),
            forall|k: int| 0 <= k < ps@.len() ==> migrated_provider(#[trigger] ps@[k], input[k]),
            texts(keys@) == legacy_keys(input, j as int),
        decreases ps@.len() - j,
    {
        assert(migrated_provider(ps@[j as int], input[j as int]));
        match &ps[j].api_key {
            Some(k) => {
                let kc = k.clone();
                keys.push(kc);
                assert(texts(keys@) =~= legacy_keys(input, j as int + 1));
            },
            None => {},
        }
        j = j + 1;
    }
    let mut extraction_cfg = ExtractionConfig::default();
    match extraction {
        Some(e) => {
            extraction_cfg.chunk_size = count_or(e.chunk_size, 1024);
            extraction_cfg.max_concurrency = count_or(e.max_concurrency, 1);
        },
        None => {},
    }
    let ghost unsorted = ps@;
    let sorted = sort_providers(ps);
    proof {
        lemma_sort_by_priority(unsorted);
        assert(sorted@.len() == unsorted.len()) by {
            vstd::seq_lib::to_multiset_len(sorted@);
            vstd::seq_lib::to_multiset_len(unsorted);
        }
    }
    LLMConfig { providers: sorted, extraction: extraction_cfg, api_keys: keys, memory: MemoryConfig::default() }
}

// ---------------------------------------------------------------------------
// Where the configuration comes from
// ---------------------------------------------------------------------------

/// The standard configuration file: `$XDG_CONFIG_HOME/graphify/config.toml`,
/// or `$HOME/.config/graphify/config.toml` (`.` without `HOME`).
pub open spec fn xdg_config_path(xdg_home: Option<Seq<char>>, home: Option<Seq<char>>) -> Seq<char> {
    match xdg_home {
        Some(x) => join_path(join_path(x, "graphify"@), "config.toml"@),
        None => join_path(
            join_path(
                join_path(
                    match home {
                        Some(h) => h,
                        None => "."@,
                    },
                    ".config"@,
                ),
                "graphify"@,
            ),
            "config.toml"@,
        ),
    }
}

pub open spec fn opt_text(o: Option<&str>) -> Option<Seq<char>> {
    match o {
        Some(s) => Some(s@),
        None => None,
    }
}

/// The standard configuration file path.
pub fn config_path(xdg_home: Option<&str>, home: Option<&str>) -> (p: String)
    ensures
        p@ == xdg_config_path(opt_text(xdg_home), opt_text(home)),
{
    match xdg_home {
        Some(x) => {
            let a = join_paths(x, "graphify");
            join_paths(a.as_str(), "config.toml")
        },
        None => {
            let h = match home {
                Some(h) => h,
                None => ".",
            };
            let a = join_paths(h, ".config");
            let b = join_paths(a.as_str(), "graphify");
            join_paths(b.as_str(), "config.toml")
        },
    }
}

/// The legacy JSON configuration file: `$HOME/.graphify/config.json`.
pub open spec fn legacy_config_path(home: Option<Seq<char>>) -> Seq<char> {
    join_path(
        join_path(
            match home {
                Some(h) => h,
                None => "."@,
            },
            ".graphify"@,
        ),
        "config.json"@,
    )
}

/// The legacy JSON configuration file path.
pub fn legacy_path(home: Option<&str>) -> (p: String)
    ensures
        p@ == legacy_config_path(opt_text(home)),
{
    let h = match home {
        Some(h) => h,
        None => ".",
    };
    let a = join_paths(h, ".graphify");
    join_paths(a.as_str(), "config.json")
}

/// Where the LLM configuration is read from.
#[derive(Debug, Clone, PartialEq, Eq)]
pub enum ConfigSource {
    /// A TOML file: the explicit path, `GRAPHIFY_CONFIG_PATH`, or the
    /// standard path.
    Toml(String),
    /// The legacy JSON file, migrated.
    Legacy(String),
}

/// The error when no configuration file can be found.
pub open spec fn missing_config_text(standard_path: Seq<char>, legacy_file: Seq<char>) -> Seq<char> {
    "No configuration file found (looked for "@ + standard_path + " and "@ + legacy_file + ")"@
}

/// Chooses the configuration source: an explicit (non-empty) path first,
/// then `GRAPHIFY_CONFIG_PATH`, then the standard file when it exists, then
/// the legacy file when it exists; an error when no configuration file can
/// be found.
pub fn choose_config_source(
    explicit: &str,
    env_path: Option<&str>,
    standard_path: &str,
    standard_exists: bool,
    legacy_file: &str,
    legacy_exists: bool,
) -> (r: Result<ConfigSource, LlmError>)
    ensures
        explicit@.len() > 0 ==> (r matches Ok(ConfigSource::Toml(p)) && p@ == explicit@),
        explicit@.len() == 0 && env_path is Some ==> (r matches Ok(ConfigSource::Toml(p)) && p@
            == env_path->0@),
        explicit@.len() == 0 && env_path is None && standard_exists ==> (
        r matches Ok(ConfigSource::Toml(p)) && p@ == standard_path@),
        explicit@.len() == 0 && env_path is None && !standard_exists && legacy_exists ==> (
        r matches Ok(ConfigSource::Legacy(p)) && p@ == legacy_file@),
        explicit@.len() == 0 && env_path is None && !standard_exists && !legacy_exists ==> (
        r matches Err(e) && e.0@ == missing_config_text(standard_path@, legacy_file@)),
{
    if !explicit.is_empty() {
        return Ok(ConfigSource::Toml(String::from_str(explicit)));
    }
    match env_path {
        Some(p) => Ok(ConfigSource::Toml(String::from_str(p))),
        None => if standard_exists {
            Ok(ConfigSource::Toml(String::from_str(standard_path)))
        } else if legacy_exists {
            Ok(ConfigSource::Legacy(String::from_str(legacy_file)))
        } else {
            let mut v: Vec<char> = Vec::new();
            push_str(&mut v, "No configuration file found (looked for ");
            push_str(&mut v, standard_path);
            push_str(&mut v, " and ");
            push_str(&mut v, legacy_file);
            push_str(&mut v, ")");
            Err(LlmError(chars_to_string(v.as_slice())))
        },
    }
}

/// The plugin configuration file: `GRAPHIFY_CONFIG_PATH` when set, else the
/// standard path.
pub fn plugins_config_path(env_path: Option<&str>, xdg_home: Option<&str>, home: Option<&str>) -> (p: String)
    ensures
        p@ == match env_path {
            Some(e) => e@,
            None => xdg_config_path(opt_text(xdg_home), opt_text(home)),
        },
{
    match env_path {
        Some(e) => String::from_str(e),
        None => config_path(xdg_home, home),
    }
}

// ---------------------------------------------------------------------------
// The gateway contract
// ---------------------------------------------------------------------------

/// Error returned by the LLM gateway.
#[derive(Debug, Clone, PartialEq, Eq)]
pub struct LlmError(pub String);

impl LlmError {
    /// The error text.
    pub fn message(&self) -> (s: &str)
        ensures
            s@ == self.0@,
    {
        self.0.as_str()
    }
}

/// One chat turn: role, then content.
#[derive(Debug, Clone, PartialEq, Eq)]
pub struct ChatMessage {
    pub role: String,
    pub content: String,
}

/// The prompt of the first `n` chat turns: `role: content` lines joined by
/// `'\n'`.
pub open spec fn chat_text(ms: Seq<ChatMessage>, n: int) -> Seq<char>
    decreases n,
{
    if n <= 0 {
        Seq::empty()
    } else if n == 1 {
        ms[0].role@ + ": "@ + ms[0].content@
    } else {
        chat_text(ms, n - 1) + "\n"@ + ms[n - 1].role@ + ": "@ + ms[n - 1].content@
    }
}

/// The single prompt a chat is sent as.
pub fn chat_prompt(messages: &[ChatMessage]) -> (s: String)
    ensures
        s@ == chat_text(messages@, messages@.len() as int),
{
    let mut v: Vec<char> = Vec::new();
    let mut i: usize = 0;
    while i < messages.len()
        invariant
            i <= messages@.len(),
            v@ == chat_text(messages@, i as int),
        decreases messages@.len() - i,
    {
        if i > 0 {
            push_str(&mut v, "\n");
        }
        push_str(&mut v, messages[i].role.as_str());
        push_str(&mut v, ": ");
        push_str(&mut v, messages[i].content.as_str());
        proof {
            if i == 0 {
                assert(v@ =~= chat_text(messages@, 1));
            } else {
                assert(v@ =~= chat_text(messages@, i + 1));
            }
        }
        i = i + 1;
    }
    chars_to_string(v.as_slice())
}

/// The gateway contract of the shared LLM service: a single-prompt
/// completion, and a chat sent through the same path as one prompt.
pub trait CoreLlmProvider {
    /// Single-prompt completion through the configured provider pipeline.
    fn complete(&self, prompt: &str) -> Result<String, LlmError>;

    /// Message-based chat: the turns joined by `chat_prompt`, completed.
    fn chat(&self, messages: &[ChatMessage]) -> (r: Result<String, LlmError>)
        ensures
            exists|prompt: &str|
                #![trigger call_ensures(Self::complete, (self, prompt), r)]
                prompt@ == chat_text(messages@, messages@.len() as int) && call_ensures(
                    Self::complete,
                    (self, prompt),
                    r,
                ),
    {
        let prompt = chat_prompt(messages);
        self.complete(prompt.as_str())
    }
}

/// The GBNF grammar that restricts a model's response to JSON.
pub fn get_json_schema_gbnf() -> (s: &'static str)
    ensures
        s@ == gbnf_text(),
{
    "root   ::= object\nvalue  ::= object | array | string | number | \"true\" | \"false\" | \"null\"\nobject ::= \"{\" space? ( pair ( \",\" space? pair )* )? space? \"}\"\npair   ::= string space? \":\" space? value\narray  ::= \"[\" space? ( value ( \",\" space? value )* )? space? \"]\"\nstring ::= \"\\\"\" ( [^\"\\\\] | \"\\\\\" ( [\"\\\\/bfnrt] | \"u\" [0-9a-fA-F]{4} ) )* \"\\\"\"\nnumber ::= \"-\"? ( \"0\" | [1-9] [0-9]* ) ( \".\" [0-9]+ )? ( [eE] [+-]? [0-9]+ )?\nspace  ::= [ \\t\\n\\r]+\n"
}

/// The JSON grammar text.
pub open spec fn gbnf_text() -> Seq<char> {
    "root   ::= object\nvalue  ::= object | array | string | number | \"true\" | \"false\" | \"null\"\nobject ::= \"{\" space? ( pair ( \",\" space? pair )* )? space? \"}\"\npair   ::= string space? \":\" space? value\narray  ::= \"[\" space? ( value ( \",\" space? value )* )? space? \"]\"\nstring ::= \"\\\"\" ( [^\"\\\\] | \"\\\\\" ( [\"\\\\/bfnrt] | \"u\" [0-9a-fA-F]{4} ) )* \"\\\"\"\nnumber ::= \"-\"? ( \"0\" | [1-9] [0-9]* ) ( \".\" [0-9]+ )? ( [eE] [+-]? [0-9]+ )?\nspace  ::= [ \\t\\n\\r]+\n"@
}

} // verus!

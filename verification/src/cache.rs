//! Response-cache policy: cache keys, chain-family presets and the
//! method-to-lifetime table that decides what is cached and for how long.
use crate::config::CacheConfig;
use crate::text::{lowercase, seq_contains, contains, str_eq, to_lowercase};
use std::collections::hash_map::DefaultHasher;
use std::hash::Hasher;
use vstd::std_specs::hash::DefaultHasherAdditionalSpecFns;
use vstd::prelude::*;
use vstd::string::*;

verus! {

/// `serde_json::Value`, carried through as an opaque value.
#[verifier::external_type_specification]
#[verifier::external_body]
pub struct ExJsonValue(serde_json::Value);

/// The compact JSON text of a JSON value, as `serde_json` writes it.
pub uninterp spec fn json_text_of(v: serde_json::Value) -> Seq<char>;

/// `serde_json::Value`'s `Display` (via `to_string`): the compact JSON text
/// of the value, which depends on the value alone (writing to a `String`
/// cannot fail); the text is named `json_text_of`.
#[verifier::external_body]
fn json_text(v: &serde_json::Value) -> (r: String)
    ensures
        r@ == json_text_of(*v),
{
    v.to_string()
}

/// Cache key combining method name and a hash of the serialized params.
#[derive(Debug, PartialEq, Eq, Hash)]
pub struct CacheKey {
    pub method: String,
    pub params_hash: u64,
}

/// The bytes that a string feeds a hasher: its UTF-8 bytes, then `0xff`.
pub open spec fn str_hash_input(s: Seq<char>) -> Seq<Seq<u8>> {
    seq![vstd::utf8::encode_utf8(s), seq![0xffu8]]
}

/// The default hash of a string, as `Hash for str` feeds a fresh `DefaultHasher`.
pub open spec fn text_hash(s: Seq<char>) -> u64 {
    DefaultHasher::spec_finish(str_hash_input(s))
}

/// Hashes a string the way `Hash for str` does with a fresh `DefaultHasher`.
pub fn hash_text(s: &str) -> (r: u64)
    ensures
        r == text_hash(s@),
{
    let mut hasher = DefaultHasher::new();
    let bytes = s.as_bytes();
    hasher.write(bytes);
    let end: [u8; 1] = [0xff];
    let tail = end.as_slice();
    assert(tail@ =~= seq![0xffu8]);
    hasher.write(tail);
    proof {
        assert(hasher@ =~= str_hash_input(s@));
    }
    hasher.finish()
}

impl CacheKey {
    /// The key of a method call whose params serialize to `params_text`.
    pub fn from_params_text(method: &str, params_text: &str) -> (r: Self)
        ensures
            r.method@ == method@,
            r.params_hash == text_hash(params_text@),
    {
        CacheKey { method: String::from_str(method), params_hash: hash_text(params_text) }
    }

    /// The key of a method call: the method name and the hash of the
    /// compact JSON text of its params.
    pub fn new(method: &str, params: &serde_json::Value) -> (r: Self)
        ensures
            r.method@ == method@,
            r.params_hash == text_hash(json_text_of(*params)),
    {
        let text = json_text(params);
        Self::from_params_text(method, text.as_str())
    }
}

/// The value stored in cache: the raw response bytes and HTTP status.
#[derive(Debug)]
pub struct CachedResponse {
    pub status: u16,
    pub body: Vec<u8>,
}

impl Clone for CacheKey {
    fn clone(&self) -> (r: Self)
        ensures
            r == *self,
    {
        CacheKey { method: self.method.clone(), params_hash: self.params_hash }
    }
}

impl Clone for CachedResponse {
    fn clone(&self) -> (r: Self)
        ensures
            r.status == self.status,
            r.body@ == self.body@,
    {
        let body = self.body.clone();
        assert(body@ =~= self.body@);
        CachedResponse { status: self.status, body }
    }
}

/// Chain-family presets with default method lifetimes.
#[derive(Debug, Clone, Copy, PartialEq, Eq, Structural)]
pub enum CachePreset {
    Evm,
    Solana,
    NoPreset,
}

pub open spec fn solana_word() -> Seq<char> {
    seq!['s', 'o', 'l', 'a', 'n', 'a']
}

pub open spec fn evm_word() -> Seq<char> {
    seq!['e', 'v', 'm']
}

pub open spec fn none_word() -> Seq<char> {
    seq!['n', 'o', 'n', 'e']
}

/// The preset for a lower-cased chain name: Solana chains get the Solana
/// preset, every other chain the EVM one.
pub open spec fn preset_for_chain(lower: Seq<char>) -> CachePreset {
    if seq_contains(lower, solana_word()) {
        CachePreset::Solana
    } else {
        CachePreset::Evm
    }
}

/// The preset named by a lower-cased word; unknown words name no preset.
pub open spec fn preset_named(lower: Seq<char>) -> CachePreset {
    if lower == evm_word() {
        CachePreset::Evm
    } else if lower == solana_word() {
        CachePreset::Solana
    } else {
        CachePreset::NoPreset
    }
}

/// The default method lifetimes, in seconds, of a preset.
pub open spec fn preset_ttls(p: CachePreset) -> Map<Seq<char>, u64> {
    match p {
        CachePreset::Evm => Map::empty().insert("eth_chainId"@, 86400u64).insert(
            "net_version"@,
            86400u64,
        ).insert("eth_getBlockByNumber"@, 300u64).insert("eth_getBlockByHash"@, 300u64).insert(
            "eth_getTransactionByHash"@,
            300u64,
        ).insert("eth_getTransactionReceipt"@, 300u64).insert("eth_getCode"@, 300u64),
        CachePreset::Solana => Map::empty().insert("getGenesisHash"@, 86400u64).insert(
            "getVersion"@,
            3600u64,
        ).insert("getBlock"@, 300u64).insert("getTransaction"@, 300u64),
        CachePreset::NoPreset => Map::empty(),
    }
}

/// `m` maps `key` to `secs`.
pub open spec fn lifetime_is(m: Map<Seq<char>, u64>, key: Seq<char>, secs: u64) -> bool {
    m.contains_key(key) && m[key] == secs
}

/// The EVM preset keeps the chain id and network version for a day, and
/// blocks, transactions, receipts and contract code for five minutes; it
/// holds nothing else.
pub proof fn lemma_evm_preset_lifetimes()
    ensures
        lifetime_is(preset_ttls(CachePreset::Evm), "eth_chainId"@, 86400),
        lifetime_is(preset_ttls(CachePreset::Evm), "net_version"@, 86400),
        lifetime_is(preset_ttls(CachePreset::Evm), "eth_getBlockByNumber"@, 300),
        lifetime_is(preset_ttls(CachePreset::Evm), "eth_getBlockByHash"@, 300),
        lifetime_is(preset_ttls(CachePreset::Evm), "eth_getTransactionByHash"@, 300),
        lifetime_is(preset_ttls(CachePreset::Evm), "eth_getTransactionReceipt"@, 300),
        lifetime_is(preset_ttls(CachePreset::Evm), "eth_getCode"@, 300),
        preset_ttls(CachePreset::Evm).dom() =~= set![
            "eth_chainId"@,
            "net_version"@,
            "eth_getBlockByNumber"@,
            "eth_getBlockByHash"@,
            "eth_getTransactionByHash"@,
            "eth_getTransactionReceipt"@,
            "eth_getCode"@,
        ],
{
    reveal_strlit("eth_chainId");
    reveal_strlit("net_version");
    reveal_strlit("eth_getBlockByNumber");
    reveal_strlit("eth_getBlockByHash");
    reveal_strlit("eth_getTransactionByHash");
    reveal_strlit("eth_getTransactionReceipt");
    reveal_strlit("eth_getCode");
    assert("eth_chainId"@[0] != "net_version"@[0]);
    assert("eth_chainId"@[4] != "eth_getCode"@[4]);
    assert("net_version"@[0] != "eth_getCode"@[0]);
    assert("eth_getBlockByNumber"@.len() != "eth_getBlockByHash"@.len());
}

/// The Solana preset keeps the genesis hash for a day, the node version for
/// an hour, and blocks and transactions for five minutes; it holds nothing
/// else.
pub proof fn lemma_solana_preset_lifetimes()
    ensures
        lifetime_is(preset_ttls(CachePreset::Solana), "getGenesisHash"@, 86400),
        lifetime_is(preset_ttls(CachePreset::Solana), "getVersion"@, 3600),
        lifetime_is(preset_ttls(CachePreset::Solana), "getBlock"@, 300),
        lifetime_is(preset_ttls(CachePreset::Solana), "getTransaction"@, 300),
        preset_ttls(CachePreset::Solana).dom() =~= set![
            "getGenesisHash"@,
            "getVersion"@,
            "getBlock"@,
            "getTransaction"@,
        ],
{
    reveal_strlit("getGenesisHash");
    reveal_strlit("getVersion");
    reveal_strlit("getBlock");
    reveal_strlit("getTransaction");
    assert("getGenesisHash"@[3] != "getTransaction"@[3]);
    assert("getVersion"@.len() != "getBlock"@.len());
    assert("getVersion"@.len() != "getTransaction"@.len());
    assert("getBlock"@.len() != "getTransaction"@.len());
    assert("getGenesisHash"@.len() != "getVersion"@.len());
    assert("getGenesisHash"@.len() != "getBlock"@.len());
}

/// Without a preset no method has a default lifetime.
pub proof fn lemma_no_preset_lifetimes()
    ensures
        preset_ttls(CachePreset::NoPreset).dom() == Set::<Seq<char>>::empty(),
{
}

impl CachePreset {
    /// The preset of a chain family, from the lower-cased chain name.
    pub fn from_lowercase_chain_name(lower: &str) -> (r: Self)
        ensures
            r == preset_for_chain(lower@),
    {
        proof {
            reveal_strlit("solana");
            assert("solana"@ =~= solana_word());
        }
        if contains(lower, "solana") {
            CachePreset::Solana
        } else if contains(lower, "ethereum") || contains(lower, "polygon") || contains(
            lower,
            "arbitrum",
        ) || contains(lower, "optimism") || contains(lower, "base") || contains(lower, "avalanche")
            || contains(lower, "bsc") || contains(lower, "fantom") || contains(lower, "gnosis")
            || contains(lower, "zksync") || contains(lower, "linea") || contains(lower, "scroll") {
            CachePreset::Evm
        } else {
            // Most chains are EVM-compatible.
            CachePreset::Evm
        }
    }

    /// The preset named by a lower-cased word: "evm", "solana" or anything
    /// else for none.
    pub fn from_lowercase_str(lower: &str) -> (r: Self)
        ensures
            r == preset_named(lower@),
    {
        proof {
            reveal_strlit("evm");
            reveal_strlit("solana");
            reveal_strlit("none");
            assert("evm"@ =~= evm_word());
            assert("solana"@ =~= solana_word());
            assert("none"@ =~= none_word());
        }
        if str_eq(lower, "evm") {
            CachePreset::Evm
        } else if str_eq(lower, "solana") {
            CachePreset::Solana
        } else if str_eq(lower, "none") {
            CachePreset::NoPreset
        } else {
            CachePreset::NoPreset
        }
    }

    /// Auto-detect the preset from the chain name.
    pub fn from_chain_name(name: &str) -> (r: Self)
        ensures
            r == preset_for_chain(lowercase(name@)),
    {
        let lowered = to_lowercase(name);
        Self::from_lowercase_chain_name(lowered.as_str())
    }

    /// The preset named by `s`, case-insensitively: "evm", "solana" or
    /// anything else for none.
    pub fn from_str(s: &str) -> (r: Self)
        ensures
            r == preset_named(lowercase(s@)),
    {
        let lowered = to_lowercase(s);
        Self::from_lowercase_str(lowered.as_str())
    }

    /// The default method lifetimes of this preset.
    pub fn default_ttls(&self) -> (r: TtlTable)
        ensures
            r@ == preset_ttls(*self),
            *self == CachePreset::Evm ==> lifetime_is(r@, "eth_chainId"@, 86400)
                && lifetime_is(r@, "net_version"@, 86400) && lifetime_is(
                r@,
                "eth_getBlockByNumber"@,
                300,
            ) && lifetime_is(r@, "eth_getBlockByHash"@, 300) && lifetime_is(
                r@,
                "eth_getTransactionByHash"@,
                300,
            ) && lifetime_is(r@, "eth_getTransactionReceipt"@, 300) && lifetime_is(
                r@,
                "eth_getCode"@,
                300,
            ) && r@.dom() =~= set![
                "eth_chainId"@,
                "net_version"@,
                "eth_getBlockByNumber"@,
                "eth_getBlockByHash"@,
                "eth_getTransactionByHash"@,
                "eth_getTransactionReceipt"@,
                "eth_getCode"@,
            ],
            *self == CachePreset::Solana ==> lifetime_is(r@, "getGenesisHash"@, 86400)
                && lifetime_is(r@, "getVersion"@, 3600) && lifetime_is(r@, "getBlock"@, 300)
                && lifetime_is(r@, "getTransaction"@, 300) && r@.dom() =~= set![
                "getGenesisHash"@,
                "getVersion"@,
                "getBlock"@,
                "getTransaction"@,
            ],
            *self == CachePreset::NoPreset ==> r@.dom() == Set::<Seq<char>>::empty(),
    {
        proof {
            lemma_evm_preset_lifetimes();
            lemma_solana_preset_lifetimes();
            lemma_no_preset_lifetimes();
        }
        let mut map = TtlTable::new();
        match self {
            CachePreset::Evm => {
                map.insert(String::from_str("eth_chainId"), 86400);
                map.insert(String::from_str("net_version"), 86400);
                map.insert(String::from_str("eth_getBlockByNumber"), 300);
                map.insert(String::from_str("eth_getBlockByHash"), 300);
                map.insert(String::from_str("eth_getTransactionByHash"), 300);
                map.insert(String::from_str("eth_getTransactionReceipt"), 300);
                map.insert(String::from_str("eth_getCode"), 300);
            },
            CachePreset::Solana => {
                map.insert(String::from_str("getGenesisHash"), 86400);
                map.insert(String::from_str("getVersion"), 3600);
                map.insert(String::from_str("getBlock"), 300);
                map.insert(String::from_str("getTransaction"), 300);
            },
            CachePreset::NoPreset => {},
        }
        map
    }
}

/// The map that a list of entries stands for: a later entry for a method
/// replaces an earlier one.
pub open spec fn entries_map(s: Seq<(String, u64)>) -> Map<Seq<char>, u64>
    decreases s.len(),
{
    if s.len() == 0 {
        Map::empty()
    } else {
        entries_map(s.drop_last()).insert(s.last().0@, s.last().1)
    }
}

/// Method name to cache lifetime in seconds.
#[derive(Debug)]
pub struct TtlTable {
    entries: Vec<(String, u64)>,
}

impl View for TtlTable {
    type V = Map<Seq<char>, u64>;

    closed spec fn view(&self) -> Map<Seq<char>, u64> {
        entries_map(self.entries@)
    }
}

proof fn lemma_entries_map_last(s: Seq<(String, u64)>, k: int, key: Seq<char>)
    requires
        0 <= k <= s.len(),
        forall|j: int| k <= j < s.len() ==> (#[trigger] s[j]).0@ != key,
    ensures
        entries_map(s).contains_key(key) == entries_map(s.subrange(0, k)).contains_key(key),
        entries_map(s).contains_key(key) ==> entries_map(s)[key] == entries_map(s.subrange(0, k))[key],
    decreases s.len() - k,
{
    if k < s.len() {
        lemma_entries_map_last(s.drop_last(), k, key);
        assert(s.drop_last().subrange(0, k) =~= s.subrange(0, k));
    } else {
        assert(s.subrange(0, k) =~= s);
    }
}

impl TtlTable {
    /// An empty table.
    pub fn new() -> (r: Self)
        ensures
            r@ == Map::<Seq<char>, u64>::empty(),
    {
        TtlTable { entries: Vec::new() }
    }

    /// Sets the lifetime of `method`, replacing any earlier one.
    pub fn insert(&mut self, method: String, ttl_seconds: u64)
        ensures
            final(self)@ == old(self)@.insert(method@, ttl_seconds),
    {
        let ghost before = self.entries@;
        self.entries.push((method, ttl_seconds));
        proof {
            assert(self.entries@.drop_last() =~= before);
        }
    }

    /// The lifetime of `method`, if it is cached.
    pub fn get(&self, method: &str) -> (r: Option<u64>)
        ensures
            r == if self@.contains_key(method@) {
                Some(self@[method@])
            } else {
                None
            },
    {
        let mut k = self.entries.len();
        while k > 0
            invariant
                k <= self.entries@.len(),
                forall|j: int| k <= j < self.entries@.len() ==> (#[trigger] self.entries@[j]).0@
                    != method@,
            decreases k,
        {
            let e = &self.entries[k - 1];
            if str_eq(e.0.as_str(), method) {
                proof {
                    lemma_entries_map_last(self.entries@, k as int, method@);
                    let pre = self.entries@.subrange(0, k as int);
                    assert(pre.drop_last() =~= self.entries@.subrange(0, k - 1));
                    assert(pre.last() == self.entries@[k - 1]);
                }
                return Some(e.1);
            }
            k = k - 1;
        }
        proof {
            lemma_entries_map_last(self.entries@, 0, method@);
            assert(self.entries@.subrange(0, 0) =~= Seq::<(String, u64)>::empty());
        }
        None
    }

    /// Whether `method` is cacheable (has a lifetime).
    pub fn contains(&self, method: &str) -> (r: bool)
        ensures
            r == self@.contains_key(method@),
    {
        self.get(method).is_some()
    }

    /// The lifetimes for a chain cache: the preset's defaults (the named
    /// preset, else the one detected from the chain name) overridden by the
    /// configured methods in order.
    pub fn for_cache(config: &CacheConfig, chain_name: &str) -> (r: Self)
        ensures
            r@ == overridden(
                preset_ttls(
                    match config.preset {
                        Some(p) => preset_named(lowercase(p@)),
                        None => preset_for_chain(lowercase(chain_name@)),
                    },
                ),
                config.methods@.map_values(|m: crate::config::CacheMethodConfig| (m.name@, m.ttl_seconds)),
                config.methods@.len() as int,
            ),
    {
        let preset = match &config.preset {
            Some(p) => CachePreset::from_str(p.as_str()),
            None => CachePreset::from_chain_name(chain_name),
        };
        let mut ttls = preset.default_ttls();
        let ghost base = ttls@;
        let ghost ov = config.methods@.map_values(|m: crate::config::CacheMethodConfig| (m.name@, m.ttl_seconds));
        let mut i: usize = 0;
        while i < config.methods.len()
            invariant
                i <= config.methods@.len(),
                ov == config.methods@.map_values(|m: crate::config::CacheMethodConfig| (m.name@, m.ttl_seconds)),
                ttls@ == overridden(base, ov, i as int),
            decreases config.methods@.len() - i,
        {
            let m = &config.methods[i];
            ttls.insert(m.name.clone(), m.ttl_seconds);
            i = i + 1;
        }
        ttls
    }
}

/// `base` with the first `k` overrides applied in order.
pub open spec fn overridden(base: Map<Seq<char>, u64>, ov: Seq<(Seq<char>, u64)>, k: int) -> Map<
    Seq<char>,
    u64,
>
    decreases k,
{
    if k <= 0 {
        base
    } else {
        overridden(base, ov, k - 1).insert(ov[k - 1].0, ov[k - 1].1)
    }
}

/// The entry limit of a chain cache: the configured one, else 10 000.
pub fn cache_capacity(config: &CacheConfig) -> (r: u64)
    ensures
        r == match config.max_capacity {
            Some(c) => c,
            None => 10000u64,
        },
{
    match config.max_capacity {
        Some(c) => c,
        None => 10000,
    }
}

} // verus!

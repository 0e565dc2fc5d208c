//! Which chain a request path names: the chain's route without its leading
//! slashes, or its numeric chain id.
use crate::config::Config;
use crate::text::{parse_u64_radix, parse_unsigned, str_eq, suffix_string};
use vstd::prelude::*;

verus! {

/// `s` without its leading `/` characters.
pub open spec fn strip_slashes(s: Seq<char>) -> Seq<char>
    decreases s.len(),
{
    if s.len() > 0 && s[0] == '/' {
        strip_slashes(s.drop_first())
    } else {
        s
    }
}

/// The path key of a route: the route without its leading slashes.
pub fn route_key(route: &str) -> (r: String)
    ensures
        r@ == strip_slashes(route@),
{
    let v = crate::text::chars_of(route);
    let mut i: usize = 0;
    assert(route@.subrange(0, route@.len() as int) =~= route@);
    while i < v.len() && v[i] == '/'
        invariant
            v@ == route@,
            i <= v@.len(),
            strip_slashes(route@) == strip_slashes(route@.subrange(i as int, route@.len() as int)),
        decreases v@.len() - i,
    {
        let ghost rest = route@.subrange(i as int, route@.len() as int);
        assert(rest.drop_first() =~= route@.subrange(i + 1, route@.len() as int));
        i = i + 1;
    }
    suffix_string(route, i)
}

/// The position of the last key equal to `k` among the first `n`.
pub open spec fn last_key_index(keys: Seq<String>, k: Seq<char>, n: int) -> Option<usize>
    decreases n,
{
    if n <= 0 {
        None
    } else if keys[n - 1]@ == k {
        Some((n - 1) as usize)
    } else {
        last_key_index(keys, k, n - 1)
    }
}

/// The route key registered last for chain id `id` among the first `n` entries.
pub open spec fn last_id_key(ids: Seq<(u64, String)>, id: u64, n: int) -> Option<Seq<char>>
    decreases n,
{
    if n <= 0 {
        None
    } else if ids[n - 1].0 == id {
        Some(ids[n - 1].1@)
    } else {
        last_id_key(ids, id, n - 1)
    }
}

/// The routing table of the proxy: the path key of each chain, in
/// configuration order, and the chain ids. A later chain with the same key
/// or id replaces an earlier one.
#[derive(Debug)]
pub struct RouteTable {
    pub keys: Vec<String>,
    pub chain_ids: Vec<(u64, String)>,
}

impl RouteTable {
    /// The chain, by position, that answers to path key `key`.
    pub open spec fn chain_for_key(&self, key: Seq<char>) -> Option<usize> {
        last_key_index(self.keys@, key, self.keys@.len() as int)
    }

    /// The chain that a request path segment names: a chain whose key it is,
    /// else, when it reads as a number, the chain registered for that id.
    pub open spec fn chain_for(&self, segment: Seq<char>) -> Option<usize> {
        match self.chain_for_key(segment) {
            Some(i) => Some(i),
            None => match parse_unsigned(segment, 10) {
                Some(id) => match last_id_key(self.chain_ids@, id, self.chain_ids@.len() as int) {
                    Some(k) => self.chain_for_key(k),
                    None => None,
                },
                None => None,
            },
        }
    }

    /// The routing table of a configuration.
    pub fn new(config: &Config) -> (r: Self)
        ensures
            r.keys@.len() == config.chains@.len(),
            forall|i: int| 0 <= i < r.keys@.len() ==> (#[trigger] r.keys@[i])@ == strip_slashes(
                config.chains@[i].route@,
            ),
            forall|id: u64| #![trigger last_id_key(r.chain_ids@, id, r.chain_ids@.len() as int)]
                last_id_key(r.chain_ids@, id, r.chain_ids@.len() as int) == last_chain_with_id(
                config,
                id,
                config.chains@.len() as int,
            ),
    {
        let mut keys: Vec<String> = Vec::new();
        let mut chain_ids: Vec<(u64, String)> = Vec::new();
        let mut i: usize = 0;
        while i < config.chains.len()
            invariant
                i <= config.chains@.len(),
                keys@.len() == i,
                forall|j: int| 0 <= j < i ==> (#[trigger] keys@[j])@ == strip_slashes(
                    config.chains@[j].route@,
                ),
                forall|id: u64| #![trigger last_id_key(chain_ids@, id, chain_ids@.len() as int)]
                    last_id_key(chain_ids@, id, chain_ids@.len() as int) == last_chain_with_id(
                    config,
                    id,
                    i as int,
                ),
            decreases config.chains@.len() - i,
        {
            let key = route_key(config.chains[i].route.as_str());
            if let Some(id) = config.chains[i].chain_id {
                let ghost before = chain_ids@;
                chain_ids.push((id, route_key(config.chains[i].route.as_str())));
                proof {
                    assert forall|x: u64| #![trigger last_id_key(chain_ids@, x, chain_ids@.len() as int)]
                        last_id_key(chain_ids@, x, chain_ids@.len() as int) == last_chain_with_id(
                        config,
                        x,
                        i + 1,
                    ) by {
                        lemma_last_id_key_push(before, id, chain_ids@[before.len() as int].1, x);
                        assert(chain_ids@ =~= before.push(chain_ids@[before.len() as int]));
                    }
                }
            }
            keys.push(key);
            i = i + 1;
        }
        RouteTable { keys, chain_ids }
    }

    /// The position of the chain answering to path key `key`, if any.
    pub fn index_of_key(&self, key: &str) -> (r: Option<usize>)
        ensures
            r == self.chain_for_key(key@),
    {
        let mut k = self.keys.len();
        while k > 0
            invariant
                k <= self.keys@.len(),
                last_key_index(self.keys@, key@, self.keys@.len() as int) == last_key_index(
                    self.keys@,
                    key@,
                    k as int,
                ),
            decreases k,
        {
            if str_eq(self.keys[k - 1].as_str(), key) {
                return Some(k - 1);
            }
            k = k - 1;
        }
        None
    }

    /// The position of the chain that a request path segment names.
    pub fn resolve(&self, segment: &str) -> (r: Option<usize>)
        ensures
            r == self.chain_for(segment@),
    {
        match self.index_of_key(segment) {
            Some(i) => Some(i),
            None => match parse_u64_radix(segment, 10) {
                Some(id) => {
                    let mut k = self.chain_ids.len();
                    while k > 0
                        invariant
                            k <= self.chain_ids@.len(),
                            self.chain_for_key(segment@) is None,
                            parse_unsigned(segment@, 10) == Some(id),
                            last_id_key(self.chain_ids@, id, self.chain_ids@.len() as int)
                                == last_id_key(self.chain_ids@, id, k as int),
                        decreases k,
                    {
                        if self.chain_ids[k - 1].0 == id {
                            return self.index_of_key(self.chain_ids[k - 1].1.as_str());
                        }
                        k = k - 1;
                    }
                    None
                },
                None => None,
            },
        }
    }
}

/// The route key of the last chain among the first `n` with chain id `id`.
pub open spec fn last_chain_with_id(config: &Config, id: u64, n: int) -> Option<Seq<char>>
    decreases n,
{
    if n <= 0 {
        None
    } else if config.chains@[n - 1].chain_id == Some(id) {
        Some(strip_slashes(config.chains@[n - 1].route@))
    } else {
        last_chain_with_id(config, id, n - 1)
    }
}

proof fn lemma_last_id_key_push(ids: Seq<(u64, String)>, id: u64, key: String, x: u64)
    ensures
        last_id_key(ids.push((id, key)), x, ids.len() + 1int) == if x == id {
            Some(key@)
        } else {
            last_id_key(ids, x, ids.len() as int)
        },
{
    let s = ids.push((id, key));
    if x != id {
        lemma_last_id_key_prefix(s, ids, x, ids.len() as int);
    }
}

proof fn lemma_last_id_key_prefix(s: Seq<(u64, String)>, t: Seq<(u64, String)>, x: u64, n: int)
    requires
        0 <= n <= t.len(),
        t.len() <= s.len(),
        forall|j: int| 0 <= j < t.len() ==> s[j] == t[j],
    ensures
        last_id_key(s, x, n) == last_id_key(t, x, n),
    decreases n,
{
    if n > 0 {
        lemma_last_id_key_prefix(s, t, x, n - 1);
    }
}

} // verus!

//! Proxy selection for HTTP clients and the process-wide pool of shared
//! clients, keyed by proxy URL.

use vstd::prelude::*;

verus! {

/// An optional string by its characters.
pub open spec fn opt_view(o: Option<&str>) -> Option<Seq<char>> {
    match o {
        Some(s) => Some(s@),
        None => None,
    }
}

/// The proxy a client is built with: the given URL when it is non-empty.
pub open spec fn explicit_proxy_spec(proxy_url: Option<Seq<char>>) -> Option<Seq<char>> {
    match proxy_url {
        Some(u) => if u.len() > 0 {
            Some(u)
        } else {
            None
        },
        None => None,
    }
}

/// The proxy URL to configure, if any: an empty URL counts as none.
pub fn explicit_proxy(proxy_url: Option<&str>) -> (r: Option<&str>)
    ensures
        opt_view(r) == explicit_proxy_spec(opt_view(proxy_url)),
{
    match proxy_url {
        Some(u) => if u.is_empty() {
            None
        } else {
            Some(u)
        },
        None => None,
    }
}

/// How a blocking client reaches the network.
#[derive(Debug)]
pub enum ProxyPlan {
    /// Through the given proxy URL.
    Explicit(String),
    /// Directly, ignoring `HTTP(S)_PROXY` / `ALL_PROXY` from the environment.
    Direct,
    /// As the environment's proxy variables say (reqwest's default).
    System,
}

/// The plan for a blocking client: an explicit non-empty proxy wins; without
/// one, the system proxy is used unless `use_system_proxy` is false, in
/// which case the client connects directly.
pub fn blocking_proxy_plan(proxy_url: Option<&str>, use_system_proxy: bool) -> (p: ProxyPlan)
    ensures
        match explicit_proxy_spec(opt_view(proxy_url)) {
            Some(u) => p matches ProxyPlan::Explicit(s) && s@ == u,
            None => if use_system_proxy {
                p is System
            } else {
                p is Direct
            },
        },
{
    match explicit_proxy(proxy_url) {
        Some(url) => ProxyPlan::Explicit(url.to_owned()),
        None => if !use_system_proxy {
            ProxyPlan::Direct
        } else {
            ProxyPlan::System
        },
    }
}

/// The pool key of a proxy URL: the URL itself, an empty one included.
pub fn pool_key(proxy_url: Option<&str>) -> (k: Option<String>)
    ensures
        key_view(&k) == opt_view(proxy_url),
{
    match proxy_url {
        Some(u) => Some(u.to_owned()),
        None => None,
    }
}

/// A pool key by its characters.
pub open spec fn key_view(k: &Option<String>) -> Option<Seq<char>> {
    match k {
        Some(s) => Some(s@),
        None => None,
    }
}

fn keys_equal(a: &Option<String>, b: &Option<String>) -> (r: bool)
    ensures
        r == (key_view(a) == key_view(b)),
{
    match (a, b) {
        (Some(x), Some(y)) => *x == *y,
        (None, None) => true,
        _ => false,
    }
}

/// Long-lived clients, one per proxy key.
///
/// Held as a list of pairs: vstd specifies `HashMap` only for key types whose
/// hashing it models (integers, `bool`), and the key here is an
/// `Option<String>`, where `None` and an empty URL are different keys.
pub struct ClientPool<C> {
    entries: Vec<(Option<String>, C)>,
}

/// `i` is the first entry whose key is `k`.
pub open spec fn first_entry_for<C>(entries: Seq<(Option<String>, C)>, k: Option<Seq<char>>, i: int) -> bool {
    &&& 0 <= i < entries.len()
    &&& key_view(&entries[i].0) == k
    &&& forall|j: int| 0 <= j < i ==> key_view(&entries[j].0) != k
}

/// The map a pool stands for: each key maps to the client of its first entry.
pub open spec fn pool_map<C>(entries: Seq<(Option<String>, C)>) -> Map<Option<Seq<char>>, C> {
    Map::new(
        |k: Option<Seq<char>>| exists|i: int| 0 <= i < entries.len() && key_view(&entries[i].0) == k,
        |k: Option<Seq<char>>| entries[choose|i: int| first_entry_for(entries, k, i)].1,
    )
}

proof fn lemma_first_entry_exists<C>(entries: Seq<(Option<String>, C)>, k: Option<Seq<char>>, i: int)
    requires
        0 <= i < entries.len(),
        key_view(&entries[i].0) == k,
    ensures
        exists|m: int| first_entry_for(entries, k, m),
    decreases i,
{
    if exists|j: int| 0 <= j < i && key_view(&entries[j].0) == k {
        let j = choose|j: int| 0 <= j < i && key_view(&entries[j].0) == k;
        lemma_first_entry_exists(entries, k, j);
    } else {
        assert(first_entry_for(entries, k, i));
    }
}

proof fn lemma_pool_push<C>(e: Seq<(Option<String>, C)>, key: Option<String>, client: C)
    requires
        forall|j: int| 0 <= j < e.len() ==> key_view(&e[j].0) != key_view(&key),
    ensures
        pool_map(e.push((key, client))) == pool_map(e).insert(key_view(&key), client),
{
    let n = e.push((key, client));
    let kv = key_view(&key);
    let m1 = pool_map(n);
    let m2 = pool_map(e).insert(kv, client);
    assert forall|k: Option<Seq<char>>| m1.dom().contains(k) <==> m2.dom().contains(k) by {
        if m1.dom().contains(k) && k != kv {
            let j = choose|j: int| 0 <= j < n.len() && key_view(&n[j].0) == k;
            assert(0 <= j < e.len() && key_view(&e[j].0) == k);
        }
        if m2.dom().contains(k) && k != kv {
            let j = choose|j: int| 0 <= j < e.len() && key_view(&e[j].0) == k;
            assert(0 <= j < n.len() && key_view(&n[j].0) == k);
        }
        if k == kv {
            assert(0 <= e.len() < n.len() && key_view(&n[e.len() as int].0) == k);
        }
    }
    assert forall|k: Option<Seq<char>>| m1.dom().contains(k) implies m1[k] == m2[k] by {
        let j = choose|j: int| 0 <= j < n.len() && key_view(&n[j].0) == k;
        lemma_first_entry_exists(n, k, j);
        let c1 = choose|c: int| first_entry_for(n, k, c);
        if k == kv {
            assert(first_entry_for(n, k, e.len() as int));
        } else {
            assert(c1 != e.len());
            assert forall|j: int| 0 <= j < c1 implies key_view(&e[j].0) != k by {
                assert(n[j] == e[j]);
            }
            assert(first_entry_for(e, k, c1));
            let c2 = choose|c: int| first_entry_for(e, k, c);
            assert(first_entry_for(e, k, c2));
        }
    }
    assert(m1 =~= m2);
}

impl<C> View for ClientPool<C> {
    type V = Map<Option<Seq<char>>, C>;

    closed spec fn view(&self) -> Map<Option<Seq<char>>, C> {
        pool_map(self.entries@)
    }
}

impl<C> ClientPool<C> {
    /// An empty pool.
    pub fn new() -> (p: Self)
        ensures
            p@ == Map::<Option<Seq<char>>, C>::empty(),
    {
        let p = ClientPool { entries: Vec::new() };
        assert(p@ =~= Map::<Option<Seq<char>>, C>::empty());
        p
    }

    /// The client pooled under `key`.
    pub fn lookup(&self, key: &Option<String>) -> (r: Option<&C>)
        ensures
            match r {
                Some(c) => self@.contains_key(key_view(key)) && self@[key_view(key)] == *c,
                None => !self@.contains_key(key_view(key)),
            },
    {
        let ghost e = self.entries@;
        let mut i: usize = 0;
        while i < self.entries.len()
            invariant
                e == self.entries@,
                0 <= i <= e.len(),
                forall|j: int| 0 <= j < i ==> key_view(&e[j].0) != key_view(key),
            decreases e.len() - i,
        {
            if keys_equal(&self.entries[i].0, key) {
                proof {
                    assert(first_entry_for(e, key_view(key), i as int));
                    let c = choose|m: int| first_entry_for(e, key_view(key), m);
                    assert(first_entry_for(e, key_view(key), c));
                }
                return Some(&self.entries[i].1);
            }
            i = i + 1;
        }
        None
    }

    /// Pools `client` under `key` unless a client is already pooled there; a
    /// pooled client is never replaced. True when `client` was added.
    pub fn insert_if_absent(&mut self, key: Option<String>, client: C) -> (added: bool)
        ensures
            added == !old(self)@.contains_key(key_view(&key)),
            added ==> final(self)@ == old(self)@.insert(key_view(&key), client),
            !added ==> final(self)@ == old(self)@,
    {
        let ghost e = self.entries@;
        let mut i: usize = 0;
        while i < self.entries.len()
            invariant
                e == self.entries@,
                e == old(self).entries@,
                0 <= i <= e.len(),
                forall|j: int| 0 <= j < i ==> key_view(&e[j].0) != key_view(&key),
            decreases e.len() - i,
        {
            if keys_equal(&self.entries[i].0, &key) {
                return false;
            }
            i = i + 1;
        }
        proof {
            lemma_pool_push(e, key, client);
        }
        self.entries.push((key, client));
        true
    }
}


/// An empty proxy URL counts as no proxy; a non-empty one is used exactly
/// as given.
pub proof fn lemma_proxy_choice(u: Seq<char>)
    ensures
        explicit_proxy_spec(Some(Seq::<char>::empty())) is None,
        explicit_proxy_spec(None) is None,
        u.len() > 0 ==> explicit_proxy_spec(Some(u)) == Some(u),
{
}

} // verus!

//! The part of the application settings that per-app title rules read and
//! write.

use vstd::prelude::*;

verus! {

/// How a title rule's pattern is compared with a window title.
#[derive(Clone, Copy, Debug, PartialEq, Eq, Structural)]
pub enum TitleMatchType {
    /// The title contains the pattern (case-sensitive substring).
    Text,
    /// The pattern is a regular expression that matches somewhere in the title.
    Regex,
    /// The title equals the pattern.
    Exact,
}

/// How output in a matching context is reviewed before it is inserted.
#[derive(Clone, Copy, Debug, PartialEq, Eq, Structural)]
pub enum AppReviewPolicy {
    /// Insert without review.
    Auto,
}

/// A rule that routes a window title of an app to a prompt.
#[derive(Clone, Debug)]
pub struct TitleRule {
    pub id: String,
    pub pattern: String,
    pub match_type: TitleMatchType,
    pub policy: AppReviewPolicy,
    pub prompt_id: Option<String>,
}

/// Per-application settings with their title rules.
#[derive(Clone, Debug)]
pub struct AppProfile {
    pub id: String,
    pub name: String,
    pub policy: AppReviewPolicy,
    pub prompt_id: Option<String>,
    pub icon: Option<String>,
    pub translate_to_english_on_insert: bool,
    pub disable_selection_clipboard_fallback: bool,
    pub rules: Vec<TitleRule>,
}

/// A post-processing prompt, by id and display name.
#[derive(Clone, Debug)]
pub struct PostProcessPrompt {
    pub id: String,
    pub name: String,
}

/// The app-name to profile-id links, a map from app name to profile id.
///
/// Held as a list of pairs: vstd specifies `HashMap` only for key types whose
/// hashing it models (integers, `bool`), not `String`, and its
/// `StringHashMap` cannot list its entries, which saving the settings needs.
#[derive(Debug)]
pub struct ProfileLinks {
    entries: Vec<(String, String)>,
}

/// `i` is the first position in `entries` whose key is `k`.
pub open spec fn first_key_at(entries: Seq<(String, String)>, k: Seq<char>, i: int) -> bool {
    &&& 0 <= i < entries.len()
    &&& entries[i].0@ == k
    &&& forall|j: int| 0 <= j < i ==> entries[j].0@ != k
}

/// The map that an association list stands for: each key maps to the value
/// of its first entry.
pub open spec fn links_map(entries: Seq<(String, String)>) -> Map<Seq<char>, Seq<char>> {
    Map::new(
        |k: Seq<char>| exists|i: int| 0 <= i < entries.len() && entries[i].0@ == k,
        |k: Seq<char>| entries[choose|i: int| first_key_at(entries, k, i)].1@,
    )
}

proof fn lemma_first_key_exists(entries: Seq<(String, String)>, k: Seq<char>, i: int)
    requires
        0 <= i < entries.len(),
        entries[i].0@ == k,
    ensures
        exists|m: int| first_key_at(entries, k, m),
    decreases i,
{
    if exists|j: int| 0 <= j < i && entries[j].0@ == k {
        let j = choose|j: int| 0 <= j < i && entries[j].0@ == k;
        lemma_first_key_exists(entries, k, j);
    } else {
        assert(first_key_at(entries, k, i));
    }
}

proof fn lemma_first_key_unique(entries: Seq<(String, String)>, k: Seq<char>, a: int, b: int)
    requires
        first_key_at(entries, k, a),
        first_key_at(entries, k, b),
    ensures
        a == b,
{
}

proof fn lemma_links_update(e: Seq<(String, String)>, i: int, key: String, value: String)
    requires
        first_key_at(e, key@, i),
    ensures
        links_map(e.update(i, (key, value))) == links_map(e).insert(key@, value@),
{
    let n = e.update(i, (key, value));
    let m1 = links_map(n);
    let m2 = links_map(e).insert(key@, value@);
    assert forall|k: Seq<char>| m1.dom().contains(k) <==> m2.dom().contains(k) by {
        if m1.dom().contains(k) {
            let j = choose|j: int| 0 <= j < n.len() && n[j].0@ == k;
            if j != i {
                assert(0 <= j < e.len() && e[j].0@ == k);
            }
        }
        if m2.dom().contains(k) && k != key@ {
            let j = choose|j: int| 0 <= j < e.len() && e[j].0@ == k;
            assert(0 <= j < n.len() && n[j].0@ == k);
        }
        if k == key@ {
            assert(0 <= i < n.len() && n[i].0@ == k);
        }
    }
    assert forall|k: Seq<char>| m1.dom().contains(k) implies m1[k] == m2[k] by {
        let j = choose|j: int| 0 <= j < n.len() && n[j].0@ == k;
        lemma_first_key_exists(n, k, j);
        let c1 = choose|c: int| first_key_at(n, k, c);
        if k == key@ {
            assert(first_key_at(n, k, i));
            lemma_first_key_unique(n, k, c1, i);
        } else {
            assert(c1 != i);
            assert forall|j: int| 0 <= j < c1 implies e[j].0@ != k by {
                if j != i {
                    assert(n[j] == e[j]);
                }
            }
            assert(first_key_at(e, k, c1));
            let c2 = choose|c: int| first_key_at(e, k, c);
            lemma_first_key_unique(e, k, c1, c2);
        }
    }
    assert(m1 =~= m2);
}

proof fn lemma_links_push(e: Seq<(String, String)>, key: String, value: String)
    requires
        forall|j: int| 0 <= j < e.len() ==> e[j].0@ != key@,
    ensures
        links_map(e.push((key, value))) == links_map(e).insert(key@, value@),
{
    let n = e.push((key, value));
    let m1 = links_map(n);
    let m2 = links_map(e).insert(key@, value@);
    assert forall|k: Seq<char>| m1.dom().contains(k) <==> m2.dom().contains(k) by {
        if m1.dom().contains(k) && k != key@ {
            let j = choose|j: int| 0 <= j < n.len() && n[j].0@ == k;
            assert(0 <= j < e.len() && e[j].0@ == k);
        }
        if m2.dom().contains(k) && k != key@ {
            let j = choose|j: int| 0 <= j < e.len() && e[j].0@ == k;
            assert(0 <= j < n.len() && n[j].0@ == k);
        }
        if k == key@ {
            assert(0 <= e.len() < n.len() && n[e.len() as int].0@ == k);
        }
    }
    assert forall|k: Seq<char>| m1.dom().contains(k) implies m1[k] == m2[k] by {
        let j = choose|j: int| 0 <= j < n.len() && n[j].0@ == k;
        lemma_first_key_exists(n, k, j);
        let c1 = choose|c: int| first_key_at(n, k, c);
        if k == key@ {
            assert(first_key_at(n, k, e.len() as int));
            lemma_first_key_unique(n, k, c1, e.len() as int);
        } else {
            assert(c1 != e.len());
            assert forall|j: int| 0 <= j < c1 implies e[j].0@ != k by {
                assert(n[j] == e[j]);
            }
            assert(first_key_at(e, k, c1));
            let c2 = choose|c: int| first_key_at(e, k, c);
            lemma_first_key_unique(e, k, c1, c2);
        }
    }
    assert(m1 =~= m2);
}

/// No key occurs twice among `entries`.
pub open spec fn keys_distinct(entries: Seq<(String, String)>) -> bool {
    forall|i: int, j: int|
        #![trigger entries[i], entries[j]]
        0 <= i < j < entries.len() ==> entries[i].0@ != entries[j].0@
}

impl View for ProfileLinks {
    type V = Map<Seq<char>, Seq<char>>;

    closed spec fn view(&self) -> Map<Seq<char>, Seq<char>> {
        links_map(self.entries@)
    }
}

impl ProfileLinks {
    /// Each app name is linked once: no key occurs twice among the pairs.
    #[verifier::type_invariant]
    closed spec fn well_formed(self) -> bool {
        keys_distinct(self.entries@)
    }

    /// No links.
    pub fn new() -> (r: Self)
        ensures
            r@ == Map::<Seq<char>, Seq<char>>::empty(),
    {
        let r = ProfileLinks { entries: Vec::new() };
        assert(r@ =~= Map::<Seq<char>, Seq<char>>::empty());
        r
    }

    /// The profile id linked to `key`.
    pub fn get(&self, key: &str) -> (r: Option<&String>)
        ensures
            match r {
                Some(v) => self@.contains_key(key@) && self@[key@] == v@,
                None => !self@.contains_key(key@),
            },
    {
        let ghost e = self.entries@;
        let k = key.to_owned();
        let mut i: usize = 0;
        while i < self.entries.len()
            invariant
                e == self.entries@,
                k@ == key@,
                0 <= i <= e.len(),
                forall|j: int| 0 <= j < i ==> e[j].0@ != key@,
            decreases e.len() - i,
        {
            if self.entries[i].0 == k {
                assert(first_key_at(e, key@, i as int));
                proof {
                    let c = choose|m: int| first_key_at(e, key@, m);
                    lemma_first_key_unique(e, key@, c, i as int);
                }
                return Some(&self.entries[i].1);
            }
            i = i + 1;
        }
        None
    }

    /// The stored `(app name, profile id)` pairs: each app name occurs once,
    /// each pair is a link of the map, and every link of the map is a pair.
    pub fn pairs(&self) -> (r: &Vec<(String, String)>)
        ensures
            keys_distinct(r@),
            forall|i: int|
                0 <= i < r@.len() ==> self@.contains_key(#[trigger] r@[i].0@) && self@[r@[i].0@]
                    == r@[i].1@,
            forall|k: Seq<char>| self@.contains_key(k) ==> exists|i: int| 0 <= i < r@.len() && r@[i].0@ == k,
    {
        proof {
            use_type_invariant(self);
            let e = self.entries@;
            assert forall|i: int| 0 <= i < e.len() implies links_map(e).contains_key(#[trigger] e[i].0@)
                && links_map(e)[e[i].0@] == e[i].1@ by {
                assert(first_key_at(e, e[i].0@, i)) by {
                    assert forall|j: int| 0 <= j < i implies e[j].0@ != e[i].0@ by {
                        assert(e[j].0@ != e[i].0@);
                    }
                }
                let c = choose|c: int| first_key_at(e, e[i].0@, c);
                lemma_first_key_unique(e, e[i].0@, c, i);
            }
        }
        &self.entries
    }

    /// Links `key` to `value`, replacing any earlier link of `key`.
    pub fn insert(&mut self, key: String, value: String)
        ensures
            final(self)@ == old(self)@.insert(key@, value@),
    {
        proof {
            use_type_invariant(&*self);
        }
        let ghost e = self.entries@;
        let mut i: usize = 0;
        while i < self.entries.len()
            invariant
                e == self.entries@,
                e == old(self).entries@,
                keys_distinct(e),
                0 <= i <= e.len(),
                forall|j: int| 0 <= j < i ==> e[j].0@ != key@,
            decreases e.len() - i,
        {
            if self.entries[i].0 == key {
                assert(first_key_at(e, key@, i as int));
                proof {
                    lemma_links_update(e, i as int, key, value);
                }
                let ghost n = e.update(i as int, (key, value));
                assert(keys_distinct(n)) by {
                    assert forall|a: int, b: int| 0 <= a < b < n.len() implies #[trigger] n[a].0@ != #[trigger] n[b].0@ by {
                        if a != i && b != i {
                            assert(e[a].0@ != e[b].0@);
                        } else if a == i {
                            assert(e[a].0@ != e[b].0@);
                        } else {
                            assert(e[a].0@ != e[b].0@);
                        }
                    }
                }
                let mut v: Vec<(String, String)> = Vec::new();
                std::mem::swap(&mut v, &mut self.entries);
                v.set(i, (key, value));
                self.entries = v;
                return;
            }
            i = i + 1;
        }
        proof {
            lemma_links_push(e, key, value);
        }
        let ghost n = e.push((key, value));
        assert(keys_distinct(n)) by {
            assert forall|a: int, b: int| 0 <= a < b < n.len() implies #[trigger] n[a].0@ != #[trigger] n[b].0@ by {
                if b < e.len() {
                    assert(e[a].0@ != e[b].0@);
                }
            }
        }
        let mut v: Vec<(String, String)> = Vec::new();
        std::mem::swap(&mut v, &mut self.entries);
        v.push((key, value));
        self.entries = v;
    }
}

impl Clone for ProfileLinks {
    /// A copy with the same links.
    fn clone(&self) -> (r: Self)
        ensures
            r@ == self@,
    {
        proof {
            use_type_invariant(self);
        }
        let mut entries: Vec<(String, String)> = Vec::new();
        let mut i: usize = 0;
        while i < self.entries.len()
            invariant
                0 <= i <= self.entries@.len(),
                entries@ == self.entries@.take(i as int),
            decreases self.entries@.len() - i,
        {
            let (k, v) = &self.entries[i];
            entries.push((k.clone(), v.clone()));
            assert(entries@ =~= self.entries@.take(i + 1));
            i = i + 1;
        }
        assert(entries@ =~= self.entries@);
        ProfileLinks { entries }
    }
}

/// The settings that title rules live in.
#[derive(Clone, Debug)]
pub struct AppSettings {
    pub app_profiles: Vec<AppProfile>,
    pub app_to_profile: ProfileLinks,
    pub post_process_prompts: Vec<PostProcessPrompt>,
}

} // verus!

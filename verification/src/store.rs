use vstd::prelude::*;

verus! {

/// The mapping described by a sequence of key-value entries, later entries
/// winning over earlier ones.
spec fn entries_map(s: Seq<(String, String)>) -> Map<Seq<char>, Seq<char>>
    decreases s.len(),
{
    if s.len() == 0 {
        Map::empty()
    } else {
        entries_map(s.drop_last()).insert(s.last().0@, s.last().1@)
    }
}

/// No two entries of the sequence share a key.
spec fn keys_unique(s: Seq<(String, String)>) -> bool {
    forall|i: int, j: int| 0 <= i < j < s.len() ==> s[i].0@ != s[j].0@
}

/// A key is in the entries' mapping exactly when some entry holds it.
proof fn lemma_entries_map_contains(s: Seq<(String, String)>, k: Seq<char>)
    ensures
        entries_map(s).contains_key(k) <==> exists|i: int| 0 <= i < s.len() && s[i].0@ == k,
    decreases s.len(),
{
    if s.len() > 0 {
        lemma_entries_map_contains(s.drop_last(), k);
        if s.last().0@ == k {
            assert(s[s.len() - 1].0@ == k);
        } else {
            if exists|i: int| 0 <= i < s.len() && s[i].0@ == k {
                let i = choose|i: int| 0 <= i < s.len() && s[i].0@ == k;
                assert(i < s.len() - 1);
                assert(s.drop_last()[i].0@ == k);
            }
        }
    }
}

/// With unique keys, the mapping holds, under each entry's key, that
/// entry's value.
proof fn lemma_entries_map_value(s: Seq<(String, String)>, i: int)
    requires
        keys_unique(s),
        0 <= i < s.len(),
    ensures
        entries_map(s).contains_key(s[i].0@),
        entries_map(s)[s[i].0@] == s[i].1@,
    decreases s.len(),
{
    if i < s.len() - 1 {
        assert(keys_unique(s.drop_last()));
        lemma_entries_map_value(s.drop_last(), i);
        assert(s.last().0@ != s[i].0@);
    }
}

/// Replacing the value of the entry at `i` with a pair under the same key
/// updates the mapping at that key alone.
proof fn lemma_entries_map_update(s: Seq<(String, String)>, i: int, p: (String, String))
    requires
        keys_unique(s),
        0 <= i < s.len(),
        p.0@ == s[i].0@,
    ensures
        entries_map(s.update(i, p)) == entries_map(s).insert(p.0@, p.1@),
    decreases s.len(),
{
    let t = s.update(i, p);
    if i == s.len() - 1 {
        assert(t.drop_last() =~= s.drop_last());
        assert(entries_map(t) =~= entries_map(s).insert(p.0@, p.1@));
    } else {
        assert(keys_unique(s.drop_last()));
        assert(t.drop_last() =~= s.drop_last().update(i, p));
        lemma_entries_map_update(s.drop_last(), i, p);
        assert(s.last().0@ != p.0@);
        assert(entries_map(t) =~= entries_map(s).insert(p.0@, p.1@));
    }
}

/// Durable key-value store semantics: raw payload text keyed by request URL.
///
/// One entry per key, holding the latest value stored for it: `set`
/// replaces in place, so a lookup always yields the most recent write.
/// The store's abstract value is the map from key text to payload text.
pub struct Cache {
    entries: Vec<(String, String)>,
}

impl View for Cache {
    type V = Map<Seq<char>, Seq<char>>;

    closed spec fn view(&self) -> Map<Seq<char>, Seq<char>> {
        entries_map(self.entries@)
    }
}

impl Cache {
    /// Validity of the store: no two entries share a key, so each key names
    /// at most one value. Constructors establish it; every method keeps it.
    pub closed spec fn wf(self) -> bool {
        keys_unique(self.entries@)
    }

    /// An empty cache: no key has ever been set.
    pub fn new() -> (c: Cache)
        ensures
            c.wf(),
            c@ == Map::<Seq<char>, Seq<char>>::empty(),
    {
        Cache { entries: Vec::new() }
    }

    /// Look up the value most recently stored under `url`, or `None` if the
    /// key was never set. Never fails on a miss.
    pub fn get(&self, url: &str) -> (r: Option<String>)
        requires
            self.wf(),
        ensures
            match r {
                Some(v) => self@.contains_key(url@) && v@ == self@[url@],
                None => !self@.contains_key(url@),
            },
    {
        let key = url.to_owned();
        let n = self.entries.len();
        let mut i: usize = 0;
        while i < n
            invariant
                keys_unique(self.entries@),
                n == self.entries@.len(),
                0 <= i <= n,
                key@ == url@,
                forall|j: int| 0 <= j < i ==> self.entries@[j].0@ != url@,
            decreases n - i,
        {
            if self.entries[i].0 == key {
                proof {
                    lemma_entries_map_value(self.entries@, i as int);
                }
                return Some(self.entries[i].1.clone());
            }
            i = i + 1;
        }
        proof {
            lemma_entries_map_contains(self.entries@, url@);
        }
        None
    }

    /// Durably associate `response` with `url`, replacing any earlier value
    /// for the same key.
    pub fn set(&mut self, url: &str, response: &str)
        requires
            old(self).wf(),
        ensures
            final(self).wf(),
            final(self)@ == old(self)@.insert(url@, response@),
    {
        let key = url.to_owned();
        let value = response.to_owned();
        let n = self.entries.len();
        let mut i: usize = 0;
        while i < n
            invariant
                *self == *old(self),
                keys_unique(self.entries@),
                n == self.entries@.len(),
                0 <= i <= n,
                key@ == url@,
                value@ == response@,
                forall|j: int| 0 <= j < i ==> self.entries@[j].0@ != url@,
            decreases n - i,
        {
            if self.entries[i].0 == key {
                let ghost s0 = self.entries@;
                self.entries[i] = (key, value);
                proof {
                    lemma_entries_map_update(s0, i as int, self.entries@[i as int]);
                }
                return ;
            }
            i = i + 1;
        }
        proof {
            lemma_entries_map_contains(self.entries@, url@);
        }
        let ghost s0 = self.entries@;
        self.entries.push((key, value));
        proof {
            assert(self.entries@.drop_last() =~= s0);
            assert(self@ =~= old(self)@.insert(url@, response@));
        }
    }
}

/// After storing value `v` under key `k`, a lookup of `k` yields exactly
/// `v`: `set` puts `(k, v)` into the store's map, and `get` reads that map.
pub proof fn lemma_set_then_get(m: Map<Seq<char>, Seq<char>>, k: Seq<char>, v: Seq<char>)
    ensures
        m.insert(k, v).contains_key(k),
        m.insert(k, v)[k] == v,
{
}

/// A fresh cache misses on every key.
pub proof fn lemma_fresh_cache_misses(k: Seq<char>)
    ensures
        !Map::<Seq<char>, Seq<char>>::empty().contains_key(k),
{
}

/// Storing under one key cannot make a lookup of a different, never-set key
/// succeed: a key that no `set` ever named stays absent.
pub proof fn lemma_other_set_keeps_miss(
    m: Map<Seq<char>, Seq<char>>,
    k: Seq<char>,
    k2: Seq<char>,
    v: Seq<char>,
)
    requires
        !m.contains_key(k),
        k2 != k,
    ensures
        !m.insert(k2, v).contains_key(k),
{
}

} // verus!

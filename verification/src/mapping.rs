//! The URL mapping: exact, case-sensitive source URL to destination URL.
//!
//! The mapping is a vector of key/value pairs with pairwise-distinct keys,
//! viewed as a `Map` from source-URL characters to destination-URL
//! characters. Lookup is an exact string match; nothing is normalised.

use vstd::prelude::*;

verus! {

/// The character-level views of a sequence of key/value string pairs.
pub open spec fn entry_views(s: Seq<(String, String)>) -> Seq<(Seq<char>, Seq<char>)> {
    s.map_values(|e: (String, String)| (e.0@, e.1@))
}

/// No two entries share a key.
pub open spec fn unique_keys(s: Seq<(Seq<char>, Seq<char>)>) -> bool {
    forall|i: int, j: int| 0 <= i < j < s.len() ==> s[i].0 != s[j].0
}

/// The map that a sequence of key/value pairs denotes; with unique keys the
/// order of the entries is irrelevant.
pub open spec fn map_of(s: Seq<(Seq<char>, Seq<char>)>) -> Map<Seq<char>, Seq<char>>
    decreases s.len(),
{
    if s.len() == 0 {
        Map::empty()
    } else {
        map_of(s.drop_last()).insert(s.last().0, s.last().1)
    }
}

/// A key is in the denoted map exactly when some entry carries it.
pub proof fn lemma_map_of_contains(s: Seq<(Seq<char>, Seq<char>)>, k: Seq<char>)
    ensures
        map_of(s).contains_key(k) <==> exists|i: int| 0 <= i < s.len() && s[i].0 == k,
    decreases s.len(),
{
    if s.len() > 0 {
        lemma_map_of_contains(s.drop_last(), k);
        if s.last().0 == k {
            assert(s[s.len() - 1].0 == k);
        } else if exists|i: int| 0 <= i < s.len() && s[i].0 == k {
            let i = choose|i: int| 0 <= i < s.len() && s[i].0 == k;
            assert(0 <= i < s.len() - 1 && s.drop_last()[i].0 == k);
        }
    }
}

/// With unique keys, each entry decides its key's value in the denoted map.
pub proof fn lemma_map_of_index(s: Seq<(Seq<char>, Seq<char>)>, i: int)
    requires
        unique_keys(s),
        0 <= i < s.len(),
    ensures
        map_of(s).contains_key(s[i].0),
        map_of(s)[s[i].0] == s[i].1,
    decreases s.len(),
{
    if i == s.len() - 1 {
    } else {
        assert(unique_keys(s.drop_last()));
        assert(s.drop_last()[i] == s[i]);
        lemma_map_of_index(s.drop_last(), i);
        assert(s[i].0 != s.last().0);
    }
}

/// With unique keys, the denoted map has one key per entry.
pub proof fn lemma_map_of_len(s: Seq<(Seq<char>, Seq<char>)>)
    requires
        unique_keys(s),
    ensures
        map_of(s).dom().finite(),
        map_of(s).dom().len() == s.len(),
    decreases s.len(),
{
    if s.len() > 0 {
        assert(unique_keys(s.drop_last()));
        lemma_map_of_len(s.drop_last());
        lemma_map_of_contains(s.drop_last(), s.last().0);
        assert(forall|i: int| 0 <= i < s.len() - 1 ==> s.drop_last()[i].0 == s[i].0);
        assert(!map_of(s.drop_last()).contains_key(s.last().0));
        assert(map_of(s).dom() =~= map_of(s.drop_last()).dom().insert(s.last().0));
    }
}

/// The mapping from old remote URL to new remote URL. Keys are unique and
/// matched exactly: byte-for-byte, case-sensitive, no normalisation.
pub struct RemoteMapping {
    entries: Vec<(String, String)>,
}

impl View for RemoteMapping {
    type V = Map<Seq<char>, Seq<char>>;

    closed spec fn view(&self) -> Map<Seq<char>, Seq<char>> {
        map_of(entry_views(self.entries@))
    }
}

impl RemoteMapping {
    /// Keys are pairwise distinct; constructors establish this and every
    /// method preserves it.
    pub closed spec fn wf(&self) -> bool {
        unique_keys(entry_views(self.entries@))
    }

    /// The empty mapping.
    pub fn new() -> (r: RemoteMapping)
        ensures
            r@ == Map::<Seq<char>, Seq<char>>::empty(),
            r.wf(),
    {
        let r = RemoteMapping { entries: Vec::new() };
        proof {
            assert(entry_views(r.entries@) =~= Seq::<(Seq<char>, Seq<char>)>::empty());
        }
        r
    }

    /// The destination URL for `url`, if `url` is exactly one of the keys.
    pub fn lookup(&self, url: &String) -> (r: Option<String>)
        requires
            self.wf(),
        ensures
            match r {
                Some(v) => self@.contains_key(url@) && v@ == self@[url@],
                None => !self@.contains_key(url@),
            },
    {
        let ghost s = entry_views(self.entries@);
        let mut i: usize = 0;
        while i < self.entries.len()
            invariant
                self.wf(),
                s == entry_views(self.entries@),
                i <= self.entries.len(),
                forall|j: int| 0 <= j < i ==> s[j].0 != url@,
            decreases self.entries.len() - i,
        {
            if self.entries[i].0 == *url {
                let v = self.entries[i].1.clone();
                proof {
                    assert(s[i as int].0 == url@);
                    lemma_map_of_index(s, i as int);
                }
                return Some(v);
            }
            i = i + 1;
        }
        proof {
            lemma_map_of_contains(s, url@);
        }
        None
    }

    /// Adds a fresh key; a key already present is refused and nothing
    /// changes, which keeps the keys unique.
    pub fn insert(&mut self, key: String, value: String) -> (r: bool)
        requires
            old(self).wf(),
        ensures
            final(self).wf(),
            r == !old(self)@.contains_key(key@),
            r ==> final(self)@ == old(self)@.insert(key@, value@),
            !r ==> *final(self) == *old(self),
    {
        match self.lookup(&key) {
            Some(_) => false,
            None => {
                let ghost s = entry_views(self.entries@);
                proof {
                    lemma_map_of_contains(s, key@);
                }
                self.entries.push((key, value));
                proof {
                    let s2 = entry_views(self.entries@);
                    assert(s2.drop_last() =~= s);
                    assert(forall|i: int| 0 <= i < s.len() ==> s2[i] == s[i]);
                    assert(unique_keys(s2));
                }
                true
            },
        }
    }

    /// How many replacements the mapping holds.
    pub fn len(&self) -> (r: usize)
        requires
            self.wf(),
        ensures
            r == self@.dom().len(),
    {
        proof {
            lemma_map_of_len(entry_views(self.entries@));
        }
        self.entries.len()
    }
}

} // verus!

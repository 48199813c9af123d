//! The published lookup store: a mapping from product id to serialized
//! payload, built once during the load and read-only afterwards.
//!
//! Entries are kept in insertion order; the view is the map obtained by
//! folding the entries over `Map::insert`, so a later entry for the same key
//! overrides an earlier one (last write wins). Lookup scans from the newest
//! entry backwards and therefore returns exactly the payload last stored.

use vstd::prelude::*;
use vstd::string::StringSliceAdditionalSpecFns;

verus! {

broadcast use vstd::string::is_ascii_spec_bytes;

/// The key/value views of the stored entries.
spec fn entry_views(s: Seq<(Vec<u8>, Vec<u8>)>) -> Seq<(Seq<u8>, Seq<u8>)> {
    s.map_values(|p: (Vec<u8>, Vec<u8>)| (p.0@, p.1@))
}

/// The map an entry sequence denotes: entries folded over `insert` in
/// order, so the last entry for a key decides its value.
spec fn map_of(s: Seq<(Seq<u8>, Seq<u8>)>) -> Map<Seq<u8>, Seq<u8>>
    decreases s.len(),
{
    if s.len() == 0 {
        Map::<Seq<u8>, Seq<u8>>::empty()
    } else {
        map_of(s.drop_last()).insert(s.last().0, s.last().1)
    }
}

proof fn lemma_map_of_absent(s: Seq<(Seq<u8>, Seq<u8>)>, k: Seq<u8>)
    requires
        forall|i: int| 0 <= i < s.len() ==> (#[trigger] s[i]).0 != k,
    ensures
        !map_of(s).contains_key(k),
    decreases s.len(),
{
    if s.len() > 0 {
        lemma_map_of_absent(s.drop_last(), k);
    }
}

proof fn lemma_map_of_last(s: Seq<(Seq<u8>, Seq<u8>)>, k: Seq<u8>, j: int)
    requires
        0 <= j < s.len(),
        s[j].0 == k,
        forall|i: int| j < i < s.len() ==> (#[trigger] s[i]).0 != k,
    ensures
        map_of(s).contains_key(k),
        map_of(s)[k] == s[j].1,
    decreases s.len(),
{
    if j == s.len() - 1 {
    } else {
        lemma_map_of_last(s.drop_last(), k, j);
    }
}

/// Compare two byte strings for equality.
pub fn eq_bytes(a: &[u8], b: &[u8]) -> (r: bool)
    ensures
        r == (a@ == b@),
{
    if a.len() != b.len() {
        proof {
            assert(a@ != b@);
        }
        return false;
    }
    let mut i: usize = 0;
    while i < a.len()
        invariant
            0 <= i <= a@.len(),
            a@.len() == b@.len(),
            forall|m: int| 0 <= m < i ==> a@[m] == b@[m],
        decreases a@.len() - i,
    {
        if a[i] != b[i] {
            return false;
        }
        i = i + 1;
    }
    proof {
        assert(a@ =~= b@);
    }
    true
}

/// The immutable mapping from product id to serialized payload.
pub struct Store {
    entries: Vec<(Vec<u8>, Vec<u8>)>,
}

impl View for Store {
    type V = Map<Seq<u8>, Seq<u8>>;

    closed spec fn view(&self) -> Map<Seq<u8>, Seq<u8>> {
        map_of(entry_views(self.entries@))
    }
}

impl Store {
    /// An empty store.
    pub fn new() -> (s: Store)
        ensures
            s@ == Map::<Seq<u8>, Seq<u8>>::empty(),
    {
        Store { entries: Vec::new() }
    }

    /// Store `val` under `key`, replacing whatever the key held before.
    pub fn insert(&mut self, key: Vec<u8>, val: Vec<u8>)
        ensures
            final(self)@ == old(self)@.insert(key@, val@),
    {
        let ghost k = key@;
        let ghost v = val@;
        self.entries.push((key, val));
        proof {
            assert(entry_views(self.entries@) =~= entry_views(old(self).entries@).push((k, v)));
            assert(entry_views(self.entries@).drop_last() =~= entry_views(old(self).entries@));
            assert(self@ =~= old(self)@.insert(k, v));
        }
    }

    /// The payload stored last for `key`, if the key is present at all.
    pub fn get<'a>(&'a self, key: &[u8]) -> (r: Option<&'a Vec<u8>>)
        ensures
            match r {
                Some(v) => self@.contains_key(key@) && v@ == self@[key@],
                None => !self@.contains_key(key@),
            },
    {
        let ghost s = entry_views(self.entries@);
        let mut j: usize = self.entries.len();
        while j > 0
            invariant
                0 <= j <= self.entries@.len(),
                s == entry_views(self.entries@),
                forall|i: int| j <= i < s.len() ==> (#[trigger] s[i]).0 != key@,
            decreases j,
        {
            j = j - 1;
            if eq_bytes(self.entries[j].0.as_slice(), key) {
                proof {
                    lemma_map_of_last(s, key@, j as int);
                }
                return Some(&self.entries[j].1);
            }
        }
        proof {
            lemma_map_of_absent(s, key@);
        }
        None
    }
}

/// Look up the payload stored for `key`: `Some` exactly when the key is
/// present, and then the payload last stored for it, byte for byte.
pub fn fetch_value<'a>(store: &'a Store, key: &[u8]) -> (r: Option<&'a Vec<u8>>)
    ensures
        match r {
            Some(v) => store@.contains_key(key@) && v@ == store@[key@],
            None => !store@.contains_key(key@),
        },
{
    store.get(key)
}

/// The sentinel text returned for an absent key.
pub open spec fn not_found() -> Seq<u8> {
    seq![78u8, 111u8, 116u8, 32u8, 102u8, 111u8, 117u8, 110u8, 100u8]
}

/// The response body for `key`: the stored payload verbatim when the key is
/// present, the literal sentinel `Not found` otherwise. A miss is not an
/// error.
pub fn lookup_or_not_found(store: &Store, key: &[u8]) -> (r: Vec<u8>)
    ensures
        r@ == if store@.contains_key(key@) {
            store@[key@]
        } else {
            not_found()
        },
{
    match fetch_value(store, key) {
        Some(v) => vstd::slice::slice_to_vec(v.as_slice()),
        None => {
            let s = "Not found";
            proof {
                reveal_strlit("Not found");
                assert(s@ =~= seq!['N', 'o', 't', ' ', 'f', 'o', 'u', 'n', 'd']);
                assert(vstd::string::is_ascii(s));
                assert(s.spec_bytes() =~= not_found());
            }
            vstd::slice::slice_to_vec(s.as_bytes())
        },
    }
}

} // verus!

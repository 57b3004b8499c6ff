//! A store of file hashes keyed by path, saved as one JSON object.

use vstd::prelude::*;
use crate::digest::{calculate_sha256, hex_lower, sha256};
use crate::text::str_equal;

verus! {

/// The map that a list of `(path, hash)` pairs describes; a later pair for a
/// path replaces an earlier one.
pub open spec fn pairs_map(pairs: Seq<(String, String)>) -> Map<Seq<char>, Seq<char>>
    decreases pairs.len(),
{
    if pairs.len() == 0 {
        Map::empty()
    } else {
        pairs_map(pairs.drop_last()).insert(pairs.last().0@, pairs.last().1@)
    }
}

/// No path occurs twice in the list.
pub open spec fn distinct_paths(pairs: Seq<(String, String)>) -> bool {
    forall|i: int, j: int| 0 <= i < j < pairs.len() ==> (#[trigger] pairs[i]).0@ != (#[trigger] pairs[j]).0@
}

/// File path -> SHA-256 hash (lower-case hexadecimal), with the path of the
/// JSON file it is saved to.
#[derive(Debug)]
pub struct HashStorage {
    hashes: Vec<(String, String)>,
    json_file_path: String,
}

impl View for HashStorage {
    type V = Map<Seq<char>, Seq<char>>;

    open spec fn view(&self) -> Map<Seq<char>, Seq<char>> {
        pairs_map(self.pairs())
    }
}

/// Law: in the map of a list of pairs with distinct paths, each path maps
/// to the hash it is paired with (a saved store loads back pair for pair).
pub proof fn lemma_pairs_map_lookup(pairs: Seq<(String, String)>, i: int)
    requires
        distinct_paths(pairs),
        0 <= i < pairs.len(),
    ensures
        pairs_map(pairs).contains_key(pairs[i].0@),
        pairs_map(pairs)[pairs[i].0@] == pairs[i].1@,
    decreases pairs.len(),
{
    if i < pairs.len() - 1 {
        let prefix = pairs.drop_last();
        assert(prefix[i] == pairs[i]);
        assert forall|a: int, b: int| 0 <= a < b < prefix.len() implies (#[trigger] prefix[a]).0@ != (#[trigger] prefix[b]).0@ by {
            assert(prefix[a] == pairs[a] && prefix[b] == pairs[b]);
        }
        lemma_pairs_map_lookup(prefix, i);
        assert(pairs[i].0@ != pairs[pairs.len() - 1].0@);
    }
}

proof fn lemma_pairs_map_domain(pairs: Seq<(String, String)>, key: Seq<char>)
    ensures
        pairs_map(pairs).contains_key(key) <==> exists|i: int| 0 <= i < pairs.len() && (#[trigger] pairs[i]).0@ == key,
    decreases pairs.len(),
{
    if pairs.len() > 0 {
        let prefix = pairs.drop_last();
        lemma_pairs_map_domain(prefix, key);
        if exists|i: int| 0 <= i < pairs.len() && (#[trigger] pairs[i]).0@ == key {
            let i = choose|i: int| 0 <= i < pairs.len() && (#[trigger] pairs[i]).0@ == key;
            if i < pairs.len() - 1 {
                assert(prefix[i] == pairs[i]);
            }
        }
        if exists|i: int| 0 <= i < prefix.len() && (#[trigger] prefix[i]).0@ == key {
            let i = choose|i: int| 0 <= i < prefix.len() && (#[trigger] prefix[i]).0@ == key;
            assert(pairs[i] == prefix[i]);
        }
    }
}

proof fn lemma_pairs_map_update(pairs: Seq<(String, String)>, i: int, value: String)
    requires
        distinct_paths(pairs),
        0 <= i < pairs.len(),
    ensures
        pairs_map(pairs.update(i, (pairs[i].0, value))) == pairs_map(pairs).insert(pairs[i].0@, value@),
        distinct_paths(pairs.update(i, (pairs[i].0, value))),
{
    let after = pairs.update(i, (pairs[i].0, value));
    assert forall|a: int, b: int| 0 <= a < b < after.len() implies (#[trigger] after[a]).0@ != (#[trigger] after[b]).0@ by {
        assert(after[a].0 == pairs[a].0 && after[b].0 == pairs[b].0);
    }
    assert forall|key: Seq<char>| #[trigger] pairs_map(after).contains_key(key) <==> pairs_map(pairs).insert(pairs[i].0@, value@).contains_key(key) by {
        lemma_pairs_map_domain(after, key);
        lemma_pairs_map_domain(pairs, key);
        if exists|j: int| 0 <= j < pairs.len() && (#[trigger] pairs[j]).0@ == key {
            let j = choose|j: int| 0 <= j < pairs.len() && (#[trigger] pairs[j]).0@ == key;
            assert(after[j].0@ == key);
        }
        if exists|j: int| 0 <= j < after.len() && (#[trigger] after[j]).0@ == key {
            let j = choose|j: int| 0 <= j < after.len() && (#[trigger] after[j]).0@ == key;
            assert(pairs[j].0@ == key);
        }
    }
    assert forall|key: Seq<char>| #[trigger] pairs_map(after).contains_key(key) implies pairs_map(after)[key] == pairs_map(pairs).insert(pairs[i].0@, value@)[key] by {
        lemma_pairs_map_domain(after, key);
        let j = choose|j: int| 0 <= j < after.len() && (#[trigger] after[j]).0@ == key;
        lemma_pairs_map_lookup(after, j);
        if j != i {
            lemma_pairs_map_lookup(pairs, j);
        }
    }
    assert(pairs_map(after) =~= pairs_map(pairs).insert(pairs[i].0@, value@));
}

proof fn lemma_pairs_map_push(pairs: Seq<(String, String)>, pair: (String, String))
    requires
        distinct_paths(pairs),
        !pairs_map(pairs).contains_key(pair.0@),
    ensures
        distinct_paths(pairs.push(pair)),
        pairs_map(pairs.push(pair)) == pairs_map(pairs).insert(pair.0@, pair.1@),
{
    let after = pairs.push(pair);
    assert(after.drop_last() =~= pairs);
    assert forall|a: int, b: int| 0 <= a < b < after.len() implies (#[trigger] after[a]).0@ != (#[trigger] after[b]).0@ by {
        if b == pairs.len() {
            lemma_pairs_map_domain(pairs, pair.0@);
            assert(after[a] == pairs[a]);
        } else {
            assert(after[a] == pairs[a] && after[b] == pairs[b]);
        }
    }
}

impl HashStorage {
    /// The stored `(path, hash)` pairs.
    pub closed spec fn pairs(&self) -> Seq<(String, String)> {
        self.hashes@
    }

    /// The path of the JSON file the store is saved to.
    pub closed spec fn file_path_spec(&self) -> Seq<char> {
        self.json_file_path@
    }

    #[verifier::type_invariant]
    closed spec fn inv(&self) -> bool {
        distinct_paths(self.hashes@)
    }

    /// Sets the hash of `path` to `hash`, keeping one pair per path.
    fn insert_hash(&mut self, path: String, hash: String)
        ensures
            final(self)@ == old(self)@.insert(path@, hash@),
            final(self).file_path_spec() == old(self).file_path_spec(),
    {
        proof {
            use_type_invariant(&*self);
        }
        let mut i: usize = 0;
        while i < self.hashes.len()
            invariant
                *self == *old(self),
                i <= self.hashes@.len(),
                distinct_paths(self.hashes@),
                forall|j: int| 0 <= j < i ==> (#[trigger] self.hashes@[j]).0@ != path@,
            decreases self.hashes@.len() - i,
        {
            if str_equal(self.hashes[i].0.as_str(), path.as_str()) {
                let key = self.hashes[i].0.clone();
                let mut hashes = Vec::new();
                std::mem::swap(&mut hashes, &mut self.hashes);
                proof {
                    lemma_pairs_map_update(hashes@, i as int, hash);
                }
                hashes.set(i, (key, hash));
                self.hashes = hashes;
                return;
            }
            i = i + 1;
        }
        proof {
            lemma_pairs_map_domain(self.hashes@, path@);
            lemma_pairs_map_push(self.hashes@, (path, hash));
        }
        let mut hashes = Vec::new();
                std::mem::swap(&mut hashes, &mut self.hashes);
        hashes.push((path, hash));
        self.hashes = hashes;
    }

    /// A store saved to `json_file_path`, holding the pairs loaded from that
    /// file (`None` when the file does not exist: the store is empty).
    pub fn new(json_file_path: &str, stored: Option<Vec<(String, String)>>) -> (res: HashStorage)
        ensures
            res@ == match stored {
                Some(pairs) => pairs_map(pairs@),
                None => Map::empty(),
            },
            res.file_path_spec() == json_file_path@,
    {
        let mut storage = HashStorage { hashes: Vec::new(), json_file_path: json_file_path.to_owned() };
        match stored {
            Some(pairs) => {
                storage.load_pairs(pairs);
            },
            None => {},
        }
        storage
    }

    /// Replaces the contents with the pairs of `pairs` (a later pair for a
    /// path wins).
    pub fn load_pairs(&mut self, pairs: Vec<(String, String)>)
        ensures
            final(self)@ == pairs_map(pairs@),
            final(self).file_path_spec() == old(self).file_path_spec(),
    {
        self.hashes = Vec::new();
        assert(self@ =~= pairs_map(pairs@.take(0)));
        let ghost all = pairs@;
        let mut rest = pairs;
        let mut reversed: Vec<(String, String)> = Vec::new();
        while rest.len() > 0
            invariant
                rest@ == all.take(rest@.len() as int),
                rest@.len() + reversed@.len() == all.len(),
                forall|j: int| 0 <= j < reversed@.len() ==> #[trigger] reversed@[j] == all[all.len() - 1 - j],
            decreases rest@.len(),
        {
            let pair = rest.pop().unwrap();
            reversed.push(pair);
            assert(rest@ =~= all.take(rest@.len() as int));
        }
        while reversed.len() > 0
            invariant
                reversed@.len() <= all.len(),
                forall|j: int| 0 <= j < reversed@.len() ==> #[trigger] reversed@[j] == all[all.len() - 1 - j],
                self@ == pairs_map(all.take(all.len() - reversed@.len())),
                self.file_path_spec() == old(self).file_path_spec(),
            decreases reversed@.len(),
        {
            let ghost k = all.len() - reversed@.len();
            let (path, hash) = reversed.pop().unwrap();
            assert(all.take(k + 1).drop_last() =~= all.take(k));
            assert(all.take(k + 1).last() == all[k]);
            self.insert_hash(path, hash);
        }
        assert(all.take(all.len() as int) =~= all);
    }

    /// Records the hash of the file `file_path` whose contents are
    /// `contents`: the hexadecimal SHA-256 digest of the contents.
    pub fn add_hash(&mut self, file_path: &str, contents: &[u8])
        ensures
            final(self)@ == old(self)@.insert(file_path@, hex_lower(sha256(contents@))),
            final(self).file_path_spec() == old(self).file_path_spec(),
    {
        let hash = calculate_sha256(contents);
        self.insert_hash(file_path.to_owned(), hash);
    }

    /// The hash recorded for `file_path`, if any.
    pub fn get_hash(&self, file_path: &str) -> (res: Option<&String>)
        ensures
            match res {
                Some(hash) => self@.contains_key(file_path@) && self@[file_path@] == hash@,
                None => !self@.contains_key(file_path@),
            },
    {
        proof {
            use_type_invariant(self);
        }
        let mut i: usize = 0;
        while i < self.hashes.len()
            invariant
                i <= self.hashes@.len(),
                distinct_paths(self.hashes@),
                forall|j: int| 0 <= j < i ==> (#[trigger] self.hashes@[j]).0@ != file_path@,
            decreases self.hashes@.len() - i,
        {
            if str_equal(self.hashes[i].0.as_str(), file_path) {
                proof {
                    lemma_pairs_map_lookup(self.hashes@, i as int);
                }
                return Some(&self.hashes[i].1);
            }
            i = i + 1;
        }
        proof {
            lemma_pairs_map_domain(self.hashes@, file_path@);
        }
        None
    }

    /// The stored pairs, one per path, to be saved.
    pub fn entries(&self) -> (res: &Vec<(String, String)>)
        ensures
            pairs_map(res@) == self@,
            distinct_paths(res@),
    {
        proof {
            use_type_invariant(self);
        }
        &self.hashes
    }

    /// The path of the JSON file the store is saved to.
    pub fn json_file_path(&self) -> (res: &str)
        ensures
            res@ == self.file_path_spec(),
    {
        self.json_file_path.as_str()
    }
}

/// Law: after the hash of `path` is recorded from `contents`, looking `path`
/// up gives the hexadecimal SHA-256 digest of `contents`, and every other
/// path gives what it gave before.
pub proof fn lemma_add_hash_then_get(before: HashStorage, after: HashStorage, path: Seq<char>, contents: Seq<u8>, other: Seq<char>)
    requires
        after@ == before@.insert(path, hex_lower(sha256(contents))),
    ensures
        after@.contains_key(path),
        after@[path] == hex_lower(sha256(contents)),
        other != path ==> (after@.contains_key(other) == before@.contains_key(other) && after@[other] == before@[other]),
{
}

/// `a` and `b` hold the same pairs (by their strings), perhaps in another
/// order.
pub open spec fn same_pairs(a: Seq<(String, String)>, b: Seq<(String, String)>) -> bool {
    &&& forall|i: int| 0 <= i < a.len() ==> exists|j: int| 0 <= j < b.len() && (#[trigger] b[j]).0@ == (#[trigger] a[i]).0@ && b[j].1@ == a[i].1@
    &&& forall|j: int| 0 <= j < b.len() ==> exists|i: int| 0 <= i < a.len() && (#[trigger] a[i]).0@ == (#[trigger] b[j]).0@ && a[i].1@ == b[j].1@
}

/// Law: lists of pairs with distinct paths that hold the same pairs, in any
/// order, describe the same map.
pub proof fn lemma_pairs_map_any_order(a: Seq<(String, String)>, b: Seq<(String, String)>)
    requires
        distinct_paths(a),
        distinct_paths(b),
        same_pairs(a, b),
    ensures
        pairs_map(a) == pairs_map(b),
{
    assert forall|key: Seq<char>| #[trigger] pairs_map(a).contains_key(key) <==> pairs_map(b).contains_key(key) by {
        lemma_pairs_map_domain(a, key);
        lemma_pairs_map_domain(b, key);
        if exists|i: int| 0 <= i < a.len() && (#[trigger] a[i]).0@ == key {
            let i = choose|i: int| 0 <= i < a.len() && (#[trigger] a[i]).0@ == key;
            let j = choose|j: int| 0 <= j < b.len() && (#[trigger] b[j]).0@ == (#[trigger] a[i]).0@ && b[j].1@ == a[i].1@;
            assert(b[j].0@ == key);
        }
        if exists|j: int| 0 <= j < b.len() && (#[trigger] b[j]).0@ == key {
            let j = choose|j: int| 0 <= j < b.len() && (#[trigger] b[j]).0@ == key;
            let i = choose|i: int| 0 <= i < a.len() && (#[trigger] a[i]).0@ == (#[trigger] b[j]).0@ && a[i].1@ == b[j].1@;
            assert(a[i].0@ == key);
        }
    }
    assert forall|key: Seq<char>| #[trigger] pairs_map(a).contains_key(key) implies pairs_map(a)[key] == pairs_map(b)[key] by {
        lemma_pairs_map_domain(a, key);
        let i = choose|i: int| 0 <= i < a.len() && (#[trigger] a[i]).0@ == key;
        let j = choose|j: int| 0 <= j < b.len() && (#[trigger] b[j]).0@ == (#[trigger] a[i]).0@ && b[j].1@ == a[i].1@;
        lemma_pairs_map_lookup(a, i);
        lemma_pairs_map_lookup(b, j);
    }
    assert(pairs_map(a) =~= pairs_map(b));
}

/// Law (save, then load): a store created from the pairs that `saved.entries()`
/// gave, read back in any order, holds the same map as `saved`.
pub proof fn lemma_save_then_load(
    saved: HashStorage,
    entries: Seq<(String, String)>,
    loaded_pairs: Seq<(String, String)>,
    loaded: HashStorage,
)
    requires
        pairs_map(entries) == saved@,
        distinct_paths(entries),
        distinct_paths(loaded_pairs),
        same_pairs(entries, loaded_pairs),
        loaded@ == pairs_map(loaded_pairs),
    ensures
        loaded@ == saved@,
{
    lemma_pairs_map_any_order(entries, loaded_pairs);
}

} // verus!

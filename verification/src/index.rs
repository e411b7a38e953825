//! A map from a text and a number to a code, for the lookups of a query.
//!
//! The entries are kept in buckets under a key that is computed from text
//! and number, so that a lookup reads one bucket and not the whole map. The
//! buckets stand in a hash map with numbers for keys: vstd has a model of
//! hashing for integers and none for `String`, so that nothing could be
//! proved of a hash map or hash set keyed by the texts themselves.

use std::collections::HashMap;
use vstd::prelude::*;
use vstd::std_specs::hash::*;
use vstd::string::*;

verus! {

/// The key of the text `s` after one more character.
pub open spec fn mixed(h: u64, c: char) -> u64 {
    (h ^ (c as u64)).wrapping_mul(1099511628211)
}

/// A number computed from the characters of `s`, by which texts are told
/// apart quickly. Different texts may have the same.
pub open spec fn text_key(s: Seq<char>) -> u64
    decreases s.len(),
{
    if s.len() == 0 {
        1469598103934665603
    } else {
        mixed(text_key(s.drop_last()), s.last())
    }
}

/// The key of the bucket for a text and a number.
pub open spec fn bucket_key(text: Seq<char>, n: u64) -> u64 {
    text_key(text).wrapping_add(n.wrapping_mul(11400714819323198485))
}

/// The code of the last entry of `bucket` for `text` and `n`.
pub open spec fn last_in(bucket: Seq<(Seq<char>, u64, u32)>, text: Seq<char>, n: u64) -> Option<
    u32,
>
    decreases bucket.len(),
{
    if bucket.len() == 0 {
        None
    } else if bucket.last().0 == text && bucket.last().1 == n {
        Some(bucket.last().2)
    } else {
        last_in(bucket.drop_last(), text, n)
    }
}

/// The code that the buckets hold for `text` and `n`.
pub open spec fn held(
    buckets: Map<u64, Vec<(String, u64, u32)>>,
    text: Seq<char>,
    n: u64,
) -> Option<u32> {
    if buckets.contains_key(bucket_key(text, n)) {
        last_in(buckets[bucket_key(text, n)].deep_view(), text, n)
    } else {
        None
    }
}

/// Computes the key of a text.
fn key_of_text(s: &str) -> (h: u64)
    ensures
        h == text_key(s@),
{
    let mut h: u64 = 1469598103934665603;
    let ghost mut done: Seq<char> = Seq::empty();
    for c in it: s.chars()
        invariant
            it.seq() == s@,
            done == it.seq().take(it.index() as int),
            h == text_key(done),
    {
        proof {
            assert(done.push(c).drop_last() =~= done);
            assert(done.push(c) =~= it.seq().take(it.index() + 1));
            done = done.push(c);
        }
        h = (h ^ (c as u64)).wrapping_mul(1099511628211);
    }
    assert(done =~= s@);
    h
}

/// Looks for the last entry of `bucket` for `text` and `n`.
fn find_last(bucket: &Vec<(String, u64, u32)>, text: &String, n: u64) -> (r: Option<u32>)
    ensures
        r == last_in(bucket.deep_view(), text@, n),
{
    let ghost all = bucket.deep_view();
    let mut i: usize = bucket.len();
    assert(all.take(i as int) =~= all);
    while i > 0
        invariant
            i <= bucket.len(),
            all == bucket.deep_view(),
            last_in(all, text@, n) == last_in(all.take(i as int), text@, n),
        decreases i,
    {
        let ghost part = all.take(i as int);
        assert(part.last() == all[i - 1]);
        assert(part.drop_last() =~= all.take(i - 1));
        if bucket[i - 1].1 == n && bucket[i - 1].0 == *text {
            return Some(bucket[i - 1].2);
        }
        i -= 1;
    }
    assert(all.take(0) =~= Seq::<(Seq<char>, u64, u32)>::empty());
    None
}

/// A map from pairs of a text and a number to codes.
pub struct SlotIndex {
    buckets: HashMap<u64, Vec<(String, u64, u32)>>,
}

impl View for SlotIndex {
    type V = Map<(Seq<char>, u64), u32>;

    closed spec fn view(&self) -> Map<(Seq<char>, u64), u32> {
        Map::new(
            |k: (Seq<char>, u64)| held(self.buckets@, k.0, k.1) is Some,
            |k: (Seq<char>, u64)| held(self.buckets@, k.0, k.1)->0,
        )
    }
}

/// The code that `m` holds for `text` and `n`, if any.
pub open spec fn code_of(m: Map<(Seq<char>, u64), u32>, text: Seq<char>, n: u64) -> Option<u32> {
    if m.contains_key((text, n)) {
        Some(m[(text, n)])
    } else {
        None
    }
}

impl SlotIndex {
    /// A map without entries.
    pub fn new() -> (r: Self)
        ensures
            r@ == Map::<(Seq<char>, u64), u32>::empty(),
    {
        broadcast use vstd::std_specs::hash::group_hash_axioms;

        let r = SlotIndex { buckets: HashMap::new() };
        assert(r@ =~= Map::<(Seq<char>, u64), u32>::empty());
        r
    }

    /// The code held for `text` and `n`.
    pub fn get(&self, text: &String, n: u64) -> (r: Option<u32>)
        ensures
            r == code_of(self@, text@, n),
    {
        broadcast use vstd::std_specs::hash::group_hash_axioms;

        let key = key_of_text(text.as_str()).wrapping_add(n.wrapping_mul(11400714819323198485));
        match self.buckets.get(&key) {
            Some(bucket) => find_last(bucket, text, n),
            None => None,
        }
    }

    /// Puts `code` in for `text` and `n`, in the place of what was held for
    /// them.
    pub fn insert(&mut self, text: String, n: u64, code: u32)
        ensures
            final(self)@ == old(self)@.insert((text@, n), code),
    {
        broadcast use vstd::std_specs::hash::group_hash_axioms;

        let key = key_of_text(text.as_str()).wrapping_add(n.wrapping_mul(11400714819323198485));
        let ghost before = self.buckets@;
        let mut bucket: Vec<(String, u64, u32)> = match self.buckets.remove(&key) {
            Some(bucket) => bucket,
            None => Vec::new(),
        };
        let ghost was = bucket.deep_view();
        assert(forall|t: Seq<char>, x: u64|
            bucket_key(t, x) == key ==> #[trigger] held(before, t, x) == last_in(was, t, x)) by {
            if !before.contains_key(key) {
                assert(was =~= Seq::<(Seq<char>, u64, u32)>::empty());
            }
        }
        bucket.push((text, n, code));
        let ghost now = bucket.deep_view();
        assert(now =~= was.push((text@, n, code)));
        assert(now.drop_last() =~= was);
        self.buckets.insert(key, bucket);
        assert forall|k: (Seq<char>, u64)|
            #[trigger] held(self.buckets@, k.0, k.1) == (if k == (text@, n) {
                Some(code)
            } else {
                held(before, k.0, k.1)
            }) by {
            if bucket_key(k.0, k.1) == key {
                assert(held(before, k.0, k.1) == last_in(was, k.0, k.1));
            }
        }
        assert(self@ =~= old(self)@.insert((text@, n), code));
    }
}

} // verus!

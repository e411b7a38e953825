//! The order of archive segments: that of their file names, character by
//! character, which is the order of their times for the names that the
//! store gives them.
//!
//! The names are put in order here, by insertion: vstd gives the sorting of
//! the standard library no specification, and what sorting does is said in
//! two lines, `is_arrangement` and `ascends`.

use vstd::prelude::*;
use vstd::string::*;
use crate::text::to_chars;

verus! {

/// Whether `a` comes before `b`: at the first place where they differ, `a`
/// has the character with the lower code, or `a` ends there.
pub open spec fn precedes(a: Seq<char>, b: Seq<char>) -> bool
    decreases a.len(),
{
    if b.len() == 0 {
        false
    } else if a.len() == 0 {
        true
    } else if a[0] != b[0] {
        (a[0] as int) < (b[0] as int)
    } else {
        precedes(a.drop_first(), b.drop_first())
    }
}

/// Whether the name at index `i` is to stand before the name at index `j`:
/// it comes before it, or they are the same name and `i` is the lower index.
pub open spec fn stands_before(names: Seq<Seq<char>>, i: int, j: int) -> bool {
    precedes(names[i], names[j]) || (names[i] == names[j] && i < j)
}

/// Whether `order` lists every index of `names` once.
pub open spec fn is_arrangement(names: Seq<Seq<char>>, order: Seq<usize>) -> bool {
    &&& order.len() == names.len()
    &&& forall|k: int| 0 <= k < order.len() ==> (#[trigger] order[k]) < names.len()
    &&& forall|k: int, l: int|
        0 <= k < l < order.len() ==> (#[trigger] order[k]) != (#[trigger] order[l])
}

/// Whether `order` lists indices of `names` so that the names ascend, and
/// equal names keep the order of their indices.
pub open spec fn ascends(names: Seq<Seq<char>>, order: Seq<usize>) -> bool {
    forall|k: int, l: int|
        0 <= k < l < order.len() ==> stands_before(
            names,
            (#[trigger] order[k]) as int,
            (#[trigger] order[l]) as int,
        )
}

/// No name comes before itself.
pub proof fn lemma_precedes_irreflexive(a: Seq<char>)
    ensures
        !precedes(a, a),
    decreases a.len(),
{
    if a.len() > 0 {
        lemma_precedes_irreflexive(a.drop_first());
    }
}

/// Of two different names one comes before the other.
pub proof fn lemma_precedes_total(a: Seq<char>, b: Seq<char>)
    ensures
        a == b || precedes(a, b) || precedes(b, a),
    decreases a.len(),
{
    if a.len() == 0 || b.len() == 0 {
        if a.len() == 0 && b.len() == 0 {
            assert(a =~= b);
        }
    } else if a[0] == b[0] {
        lemma_precedes_total(a.drop_first(), b.drop_first());
        if a.drop_first() == b.drop_first() {
            assert(a =~= seq![a[0]] + a.drop_first());
            assert(b =~= seq![b[0]] + b.drop_first());
        }
    } else {
        let c: char = a[0];
        let d: char = b[0];
        assert((c as int) != (d as int));
    }
}

/// What comes before a name comes before all that the name comes before.
pub proof fn lemma_precedes_transitive(a: Seq<char>, b: Seq<char>, c: Seq<char>)
    requires
        precedes(a, b),
        precedes(b, c),
    ensures
        precedes(a, c),
    decreases a.len(),
{
    if a.len() > 0 {
        if a[0] == b[0] && b[0] == c[0] {
            lemma_precedes_transitive(a.drop_first(), b.drop_first(), c.drop_first());
        }
    }
}

/// Standing before is an order on the indices: it goes on from pair to
/// pair.
pub proof fn lemma_stands_before_transitive(names: Seq<Seq<char>>, i: int, j: int, k: int)
    requires
        stands_before(names, i, j),
        stands_before(names, j, k),
    ensures
        stands_before(names, i, k),
{
    if precedes(names[i], names[j]) && precedes(names[j], names[k]) {
        lemma_precedes_transitive(names[i], names[j], names[k]);
    }
}

/// Of two different indices one stands before the other.
pub proof fn lemma_stands_before_total(names: Seq<Seq<char>>, i: int, j: int)
    requires
        i != j,
    ensures
        stands_before(names, i, j) || stands_before(names, j, i),
{
    lemma_precedes_total(names[i], names[j]);
}

proof fn lemma_precedes_skip(a: Seq<char>, b: Seq<char>, n: int)
    requires
        0 <= n <= a.len(),
        n <= b.len(),
        a.take(n) == b.take(n),
    ensures
        precedes(a, b) == precedes(a.skip(n), b.skip(n)),
    decreases n,
{
    if n == 0 {
        assert(a.skip(0) =~= a);
        assert(b.skip(0) =~= b);
    } else {
        assert(a[0] == a.take(n)[0]);
        assert(b[0] == b.take(n)[0]);
        let a1 = a.drop_first();
        let b1 = b.drop_first();
        assert(a1.take(n - 1) =~= a.take(n).drop_first());
        assert(b1.take(n - 1) =~= b.take(n).drop_first());
        lemma_precedes_skip(a1, b1, n - 1);
        assert(a1.skip(n - 1) =~= a.skip(n));
        assert(b1.skip(n - 1) =~= b.skip(n));
    }
}

/// Whether `a` comes before `b`.
pub fn name_precedes(a: &str, b: &str) -> (r: bool)
    ensures
        r == precedes(a@, b@),
{
    let x = to_chars(a);
    let y = to_chars(b);
    let mut i: usize = 0;
    while i < x.len() && i < y.len()
        invariant
            i <= x.len(),
            i <= y.len(),
            x@ == a@,
            y@ == b@,
            x@.take(i as int) == y@.take(i as int),
        decreases x.len() - i,
    {
        if x[i] != y[i] {
            proof {
                lemma_precedes_skip(x@, y@, i as int);
                assert(x@.skip(i as int)[0] == x@[i as int]);
                assert(y@.skip(i as int)[0] == y@[i as int]);
            }
            return x[i] < y[i];
        }
        assert(x@.take(i + 1) =~= x@.take(i as int).push(x@[i as int]));
        assert(y@.take(i + 1) =~= y@.take(i as int).push(y@[i as int]));
        i += 1;
    }
    proof {
        lemma_precedes_skip(x@, y@, i as int);
    }
    i < y.len()
}

/// Arranges the names in ascending order: returns the indices of `names`
/// such that the names at them ascend. Names that are the same keep the
/// order in which they were given.
pub fn name_order(names: &Vec<String>) -> (r: Vec<usize>)
    ensures
        is_arrangement(names.deep_view(), r@),
        ascends(names.deep_view(), r@),
{
    let ghost nv = names.deep_view();
    let mut order: Vec<usize> = Vec::new();
    let mut n: usize = 0;
    while n < names.len()
        invariant
            n <= names.len(),
            nv == names.deep_view(),
            order.len() == n,
            forall|k: int| 0 <= k < order.len() ==> (#[trigger] order@[k]) < n,
            forall|k: int, l: int|
                0 <= k < l < order.len() ==> (#[trigger] order@[k]) != (#[trigger] order@[l]),
            ascends(nv, order@),
        decreases names.len() - n,
    {
        // The place of the new name: behind the last that does not come
        // after it.
        let mut at: usize = n;
        while at > 0 && name_precedes(names[n].as_str(), names[order[at - 1]].as_str())
            invariant
                at <= n,
                n < names.len(),
                nv == names.deep_view(),
                order.len() == n,
                forall|k: int| 0 <= k < order.len() ==> (#[trigger] order@[k]) < n,
                forall|k: int|
                    at <= k < order.len() ==> precedes(nv[n as int], nv[(#[trigger] order@[k]) as int]),
            decreases at,
        {
            assert(nv[order@[at - 1] as int] == names@[order@[at - 1] as int]@);
            at -= 1;
        }
        let ghost before = order@;
        proof {
            if at > 0 {
                assert(nv[n as int] == names@[n as int]@);
                assert(nv[order@[at - 1] as int] == names@[order@[at - 1] as int]@);
                assert(!precedes(nv[n as int], nv[before[at - 1] as int]));
            }
        }
        order.insert(at, n);
        proof {
            let now = order@;
            assert forall|k: int, l: int| 0 <= k < l < now.len() implies stands_before(
                nv,
                (#[trigger] now[k]) as int,
                (#[trigger] now[l]) as int,
            ) by {
                if l < at {
                    assert(now[k] == before[k] && now[l] == before[l]);
                } else if l == at {
                    // `k` is before the new name.
                    assert(now[k] == before[k]);
                    assert(before[k] < n);
                    if k < at - 1 {
                        assert(stands_before(nv, before[k] as int, before[at - 1] as int));
                    }
                    lemma_precedes_total(nv[before[at - 1] as int], nv[n as int]);
                    assert(stands_before(nv, before[at - 1] as int, n as int));
                    if k < at - 1 {
                        lemma_stands_before_transitive(
                            nv,
                            before[k] as int,
                            before[at - 1] as int,
                            n as int,
                        );
                    }
                } else if k == at {
                    assert(now[l] == before[l - 1]);
                } else if k < at {
                    assert(now[k] == before[k] && now[l] == before[l - 1]);
                } else {
                    assert(now[k] == before[k - 1] && now[l] == before[l - 1]);
                }
            }
            assert forall|k: int, l: int| 0 <= k < l < now.len() implies (#[trigger] now[k]) != (
            #[trigger] now[l]) by {
                if k < at {
                    assert(now[k] == before[k]);
                } else if k > at {
                    assert(now[k] == before[k - 1]);
                }
                if l < at {
                    assert(now[l] == before[l]);
                } else if l > at {
                    assert(now[l] == before[l - 1]);
                }
            }
            assert forall|k: int| 0 <= k < now.len() implies (#[trigger] now[k]) < n + 1 by {
                if k < at {
                    assert(now[k] == before[k]);
                } else if k > at {
                    assert(now[k] == before[k - 1]);
                }
            }
        }
        n += 1;
    }
    order
}

/// Whether `s` ends with the characters `ending`.
pub open spec fn has_ending(s: Seq<char>, ending: Seq<char>) -> bool {
    s.len() >= ending.len() && s.subrange(s.len() - ending.len(), s.len() as int) == ending
}

/// Whether a segment with the file name `name` is compressed: its name ends
/// in `.xz`. Any other file of the archive directory is read as it is.
pub fn is_compressed(name: &str) -> (r: bool)
    ensures
        r == has_ending(name@, ".xz"@),
{
    let chars = to_chars(name);
    let n = chars.len();
    proof {
        reveal_strlit(".xz");
        if n >= 3 {
            let tail = name@.subrange(n - 3, n as int);
            assert(tail.len() == 3);
            assert(tail[0] == chars@[n - 3]);
            assert(tail[1] == chars@[n - 2]);
            assert(tail[2] == chars@[n - 1]);
            if chars@[n - 3] == '.' && chars@[n - 2] == 'x' && chars@[n - 1] == 'z' {
                assert(tail =~= ".xz"@);
            }
        }
    }
    n >= 3 && chars[n - 3] == '.' && chars[n - 2] == 'x' && chars[n - 1] == 'z'
}

} // verus!

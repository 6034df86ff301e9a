//! The order of strings, and sorting a list of strings.
use vstd::prelude::*;

use crate::recipe::views;
use crate::text::chars_of;

verus! {

/// `a` comes strictly before `b`: lexicographic order on characters, a
/// proper prefix coming first (the order of `String`s).
pub open spec fn chars_lt(a: Seq<char>, b: Seq<char>) -> bool
    decreases a.len(),
{
    if a.len() == 0 {
        b.len() > 0
    } else if b.len() == 0 {
        false
    } else if a[0] != b[0] {
        a[0] < b[0]
    } else {
        chars_lt(a.drop_first(), b.drop_first())
    }
}

/// No string of `s` comes before the one ahead of it.
pub open spec fn is_sorted(s: Seq<Seq<char>>) -> bool {
    forall|i: int, j: int| 0 <= i && j == i + 1 && j < s.len() ==> !chars_lt(#[trigger] s[j], #[trigger] s[i])
}

/// The order is asymmetric.
pub proof fn lemma_chars_lt_asym(a: Seq<char>, b: Seq<char>)
    ensures
        !(chars_lt(a, b) && chars_lt(b, a)),
    decreases a.len(),
{
    if a.len() > 0 && b.len() > 0 && a[0] == b[0] {
        lemma_chars_lt_asym(a.drop_first(), b.drop_first());
    }
}

/// Whether `a` comes strictly before `b`.
pub fn chars_lt_exec(a: &[char], b: &[char]) -> (r: bool)
    ensures
        r == chars_lt(a@, b@),
{
    let mut i: usize = 0;
    assert(a@.skip(0) =~= a@);
    assert(b@.skip(0) =~= b@);
    while i < a.len() && i < b.len()
        invariant
            i <= a@.len(),
            i <= b@.len(),
            chars_lt(a@, b@) == chars_lt(a@.skip(i as int), b@.skip(i as int)),
        decreases a.len() - i,
    {
        assert(a@.skip(i as int)[0] == a@[i as int]);
        assert(b@.skip(i as int)[0] == b@[i as int]);
        if a[i] != b[i] {
            return a[i] < b[i];
        }
        assert(a@.skip(i as int).drop_first() =~= a@.skip(i + 1));
        assert(b@.skip(i as int).drop_first() =~= b@.skip(i + 1));
        i += 1;
    }
    i == a.len() && i < b.len()
}

/// The strings of `v` in ascending order.
pub fn sort_strings(v: Vec<String>) -> (r: Vec<String>)
    ensures
        is_sorted(views(r@)),
        views(r@).to_multiset() == views(v@).to_multiset(),
{
    let mut r: Vec<String> = Vec::new();
    let mut i: usize = 0;
    assert(views(v@).take(0) =~= views(r@));
    while i < v.len()
        invariant
            i <= v@.len(),
            is_sorted(views(r@)),
            views(r@).to_multiset() == views(v@).take(i as int).to_multiset(),
        decreases v.len() - i,
    {
        let x = v[i].clone();
        let xc = chars_of(x.as_str());
        // The first position whose string comes after `x`.
        let mut k: usize = 0;
        let mut stop = false;
        while k < r.len() && !stop
            invariant
                k <= r@.len(),
                xc@ == x@,
                stop ==> k < r@.len() && chars_lt(x@, views(r@)[k as int]),
                forall|j: int| 0 <= j < k ==> !chars_lt(x@, #[trigger] views(r@)[j]),
            decreases r.len() - k + if stop {
                0int
            } else {
                1int
            },
        {
            let yc = chars_of(r[k].as_str());
            assert(yc@ == views(r@)[k as int]);
            if chars_lt_exec(xc.as_slice(), yc.as_slice()) {
                stop = true;
            } else {
                k += 1;
            }
        }
        let ghost before = views(r@);
        proof {
            let after = before.insert(k as int, x@);
            assert(k < before.len() ==> chars_lt(x@, before[k as int]));
            assert forall|j: int, j1: int| 0 <= j && j1 == j + 1 && j1 < after.len() implies !chars_lt(
                #[trigger] after[j1],
                #[trigger] after[j],
            ) by {
                if j + 1 < k {
                    assert(after[j] == before[j] && after[j + 1] == before[j + 1]);
                    assert(!chars_lt(before[j + 1], before[j]));
                } else if j + 1 == k {
                    assert(after[j] == before[j] && after[j + 1] == x@);
                } else if j == k {
                    assert(after[j] == x@ && after[j + 1] == before[j]);
                    lemma_chars_lt_asym(x@, before[j]);
                } else {
                    assert(after[j] == before[j - 1] && after[j + 1] == before[j]);
                    assert(!chars_lt(before[j], before[j - 1]));
                }
            }
        }
        r.insert(k, x);
        proof {
            assert(views(r@) =~= before.insert(k as int, x@));
            assert(views(v@).take(i + 1) =~= views(v@).take(i as int).push(x@));
            vstd::seq_lib::to_multiset_insert(before, k as int, x@);
            vstd::seq_lib::to_multiset_build(views(v@).take(i as int), x@);
        }
        i += 1;
    }
    assert(views(v@).take(v@.len() as int) =~= views(v@));
    r
}

} // verus!

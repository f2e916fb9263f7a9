use vstd::prelude::*;

verus! {

/// One more element of a prefix adds that element to the prefix's elements.
pub proof fn lemma_take_step(s: Seq<usize>, i: int)
    requires
        0 <= i < s.len(),
    ensures
        s.take(i + 1).to_set() == s.take(i).to_set().insert(s[i]),
{
    s.lemma_take_succ_push(i);
    s.take(i).lemma_push_to_set_commute(s[i]);
}

/// Whether `x` occurs in `v`.
pub fn holds(v: &Vec<usize>, x: usize) -> (r: bool)
    ensures
        r == v@.contains(x),
{
    let mut i: usize = 0;
    while i < v.len()
        invariant
            0 <= i <= v.len(),
            forall|j: int| 0 <= j < i ==> v@[j] != x,
        decreases v.len() - i,
    {
        if v[i] == x {
            return true;
        }
        i = i + 1;
    }
    false
}

/// Adds `x` to the set that `v` lists, keeping `v` free of repeats.
pub fn insert_value(v: &mut Vec<usize>, x: usize)
    requires
        old(v)@.no_duplicates(),
    ensures
        final(v)@.no_duplicates(),
        final(v)@.to_set() == old(v)@.to_set().insert(x),
{
    if !holds(v, x) {
        proof {
            old(v)@.lemma_push_to_set_commute(x);
        }
        v.push(x);
    } else {
        assert(old(v)@.to_set() =~= old(v)@.to_set().insert(x));
    }
}

/// Adds every element of `xs` that also occurs in `within` to the set that `v` lists.
pub fn insert_all_within(v: &mut Vec<usize>, xs: &Vec<usize>, within: &Vec<usize>)
    requires
        old(v)@.no_duplicates(),
    ensures
        final(v)@.no_duplicates(),
        final(v)@.to_set() == old(v)@.to_set() + xs@.to_set().intersect(within@.to_set()),
{
    let mut i: usize = 0;
    while i < xs.len()
        invariant
            0 <= i <= xs.len(),
            v@.no_duplicates(),
            v@.to_set() == old(v)@.to_set() + xs@.take(i as int).to_set().intersect(within@.to_set()),
        decreases xs.len() - i,
    {
        let x = xs[i];
        proof {
            lemma_take_step(xs@, i as int);
        }
        if holds(within, x) {
            insert_value(v, x);
        }
        assert(v@.to_set() =~= old(v)@.to_set() + xs@.take(i + 1).to_set().intersect(within@.to_set()));
        i = i + 1;
    }
    assert(xs@.take(xs@.len() as int) =~= xs@);
}

/// Adds every element of `xs` to the set that `v` lists.
pub fn insert_all(v: &mut Vec<usize>, xs: &Vec<usize>)
    requires
        old(v)@.no_duplicates(),
    ensures
        final(v)@.no_duplicates(),
        final(v)@.to_set() == old(v)@.to_set() + xs@.to_set(),
{
    let mut i: usize = 0;
    while i < xs.len()
        invariant
            0 <= i <= xs.len(),
            v@.no_duplicates(),
            v@.to_set() == old(v)@.to_set() + xs@.take(i as int).to_set(),
        decreases xs.len() - i,
    {
        let x = xs[i];
        proof {
            lemma_take_step(xs@, i as int);
        }
        insert_value(v, x);
        assert(v@.to_set() =~= old(v)@.to_set() + xs@.take(i + 1).to_set());
        i = i + 1;
    }
    assert(xs@.take(xs@.len() as int) =~= xs@);
}

} // verus!

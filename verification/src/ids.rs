use vstd::prelude::*;

verus! {

/// The test "is not `x`".
pub open spec fn differs(x: u8) -> spec_fn(u8) -> bool {
    |y: u8| y != x
}

/// The ids of `s` other than `x`, in order.
pub open spec fn without_id(s: Seq<u8>, x: u8) -> Seq<u8> {
    s.filter(differs(x))
}

/// Filtering keeps a sequence free of duplicates, and never keeps a dropped value.
pub proof fn lemma_filter_keeps_distinct(s: Seq<u8>, x: u8)
    requires
        s.no_duplicates(),
    ensures
        without_id(s, x).no_duplicates(),
        !without_id(s, x).contains(x),
    decreases s.len(),
{
    let pred = differs(x);
    reveal(Seq::filter);
    if s.len() > 0 {
        let rest = s.drop_last();
        assert(rest.no_duplicates());
        lemma_filter_keeps_distinct(rest, x);
        if pred(s.last()) {
            if rest.filter(pred).contains(s.last()) {
                rest.lemma_filter_contains_rev(pred, s.last());
            }
            assert(s.filter(pred) == rest.filter(pred).push(s.last()));
            assert forall|i: int, j: int|
                0 <= i < s.filter(pred).len() && 0 <= j < s.filter(pred).len() && i != j implies
                s.filter(pred)[i] != s.filter(pred)[j] by {
                let f = rest.filter(pred);
                if i < f.len() && j < f.len() {
                    assert(f[i] != f[j]);
                } else if i < f.len() {
                    assert(f.contains(f[i]));
                } else if j < f.len() {
                    assert(f.contains(f[j]));
                }
            }
        }
    }
}

/// Taking out an id that does not occur changes nothing.
pub proof fn lemma_without_absent(s: Seq<u8>, x: u8)
    requires
        !s.contains(x),
    ensures
        without_id(s, x) == s,
    decreases s.len(),
{
    reveal(Seq::filter);
    if s.len() > 0 {
        let rest = s.drop_last();
        assert(!rest.contains(x)) by {
            if rest.contains(x) {
                let j = choose|j: int| 0 <= j < rest.len() && rest[j] == x;
                assert(s[j] == x);
            }
        }
        lemma_without_absent(rest, x);
        assert(differs(x)(s.last()));
        assert(rest.push(s.last()) =~= s);
    }
}

/// After taking an id out, it does not occur.
pub proof fn lemma_without_excludes(s: Seq<u8>, x: u8)
    ensures
        !without_id(s, x).contains(x),
{
    if without_id(s, x).contains(x) {
        let j = choose|j: int| 0 <= j < without_id(s, x).len() && without_id(s, x)[j] == x;
        s.lemma_filter_pred(differs(x), j);
    }
}

/// Appending an id and taking it out again is the same as only taking it out.
pub proof fn lemma_without_push(s: Seq<u8>, x: u8)
    ensures
        without_id(s.push(x), x) == without_id(s, x),
{
    reveal(Seq::filter);
    assert(s.push(x).drop_last() =~= s);
    assert(!differs(x)(x));
}

/// Whether `x` occurs in `v`.
pub fn contains_id(v: &Vec<u8>, x: u8) -> (found: bool)
    ensures
        found == v@.contains(x),
{
    let mut i: usize = 0;
    while i < v.len()
        invariant
            i <= v@.len(),
            forall|j: int| 0 <= j < i ==> v@[j] != x,
        decreases v@.len() - i,
    {
        if v[i] == x {
            assert(v@[i as int] == x);
            return true;
        }
        i = i + 1;
    }
    false
}

/// Appends `x` to `v` unless it already occurs there.
pub fn push_unique(v: &mut Vec<u8>, x: u8)
    ensures
        final(v)@ == if old(v)@.contains(x) { old(v)@ } else { old(v)@.push(x) },
{
    if !contains_id(v, x) {
        v.push(x);
    }
}

/// Removes every occurrence of `x` from `v`, keeping the order of the rest.
pub fn remove_id(v: &mut Vec<u8>, x: u8)
    ensures
        final(v)@ == without_id(old(v)@, x),
{
    let ghost orig = v@;
    let mut kept: Vec<u8> = Vec::new();
    let mut i: usize = 0;
    while i < v.len()
        invariant
            v@ == orig,
            i <= orig.len(),
            kept@ == without_id(orig.subrange(0, i as int), x),
        decreases orig.len() - i,
    {
        let y = v[i];
        proof {
            reveal_with_fuel(Seq::filter, 1);
            assert(orig.subrange(0, i as int + 1).drop_last() =~= orig.subrange(0, i as int));
        }
        if y != x {
            kept.push(y);
        }
        i = i + 1;
    }
    assert(orig.subrange(0, orig.len() as int) =~= orig);
    *v = kept;
}

} // verus!

verus! {

/// The ids of `v` in reverse order.
pub fn reverse_ids(v: &Vec<u8>) -> (res: Vec<u8>)
    ensures
        res@ == v@.reverse(),
{
    let mut res: Vec<u8> = Vec::new();
    let mut i: usize = v.len();
    while i > 0
        invariant
            i <= v@.len(),
            res@ == v@.subrange(i as int, v@.len() as int).reverse(),
        decreases i,
    {
        i = i - 1;
        res.push(v[i]);
        assert(res@ =~= v@.subrange(i as int, v@.len() as int).reverse());
    }
    assert(v@.subrange(0, v@.len() as int) =~= v@);
    res
}

} // verus!

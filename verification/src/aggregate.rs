//! The match aggregator: combines the two byte-order passes' match lists
//! into the single ordered result sequence. Equal offsets keep the first
//! list's entries ahead of the second's, so feeding the Little pass's list
//! first preserves the Little-before-Big tie-break.

use vstd::prelude::*;
use crate::strider::Offset;

verus! {

/// The stable merge of `a` and `b` by ascending offset: ties take from `a`.
/// On lists that are already sorted by offset this is exactly their
/// concatenation followed by a stable sort.
pub open spec fn merge_by_offset(a: Seq<Offset>, b: Seq<Offset>) -> Seq<Offset>
    decreases a.len() + b.len(),
{
    if a.len() == 0 {
        b
    } else if b.len() == 0 {
        a
    } else if a.first().offset <= b.first().offset {
        seq![a.first()] + merge_by_offset(a.drop_first(), b)
    } else {
        seq![b.first()] + merge_by_offset(a, b.drop_first())
    }
}

/// A whole left-hand prefix whose offsets do not exceed the right side's
/// head is taken before anything of the right side.
pub(crate) proof fn lemma_merge_takes_left(x: Seq<Offset>, a: Seq<Offset>, b: Seq<Offset>)
    requires
        b.len() > 0 ==> forall|i: int| 0 <= i < x.len() ==> (#[trigger] x[i]).offset
            <= b.first().offset,
    ensures
        merge_by_offset(x + a, b) == x + merge_by_offset(a, b),
    decreases x.len(),
{
    if x.len() == 0 {
        assert(x + a =~= a);
        assert(x + merge_by_offset(a, b) =~= merge_by_offset(a, b));
    } else if b.len() == 0 {
        assert(merge_by_offset(x + a, b) == x + a);
        assert(merge_by_offset(a, b) == a);
    } else {
        assert((x + a).first() == x.first());
        assert((x + a).drop_first() =~= x.drop_first() + a);
        lemma_merge_takes_left(x.drop_first(), a, b);
        assert(seq![x.first()] + (x.drop_first() + merge_by_offset(a, b)) =~= x + merge_by_offset(
            a,
            b,
        ));
    }
}

/// A whole right-hand prefix whose offsets lie strictly below the left
/// side's head is taken before anything of the left side.
pub(crate) proof fn lemma_merge_takes_right(a: Seq<Offset>, y: Seq<Offset>, b: Seq<Offset>)
    requires
        a.len() > 0 ==> forall|i: int| 0 <= i < y.len() ==> (#[trigger] y[i]).offset
            < a.first().offset,
    ensures
        merge_by_offset(a, y + b) == y + merge_by_offset(a, b),
    decreases y.len(),
{
    if y.len() == 0 {
        assert(y + b =~= b);
        assert(y + merge_by_offset(a, b) =~= merge_by_offset(a, b));
    } else if a.len() == 0 {
        assert(merge_by_offset(a, y + b) == y + b);
        assert(merge_by_offset(a, b) == b);
    } else {
        assert((y + b).first() == y.first());
        assert((y + b).drop_first() =~= y.drop_first() + b);
        lemma_merge_takes_right(a, y.drop_first(), b);
        assert(seq![y.first()] + (y.drop_first() + merge_by_offset(a, b)) =~= y + merge_by_offset(
            a,
            b,
        ));
    }
}

/// Merges the two per-order match lists into the final match set: the stable
/// merge by ascending offset, ties taking from `little` first. No failure
/// modes of its own.
pub fn aggregate(little: Vec<Offset>, big: Vec<Offset>) -> (r: Vec<Offset>)
    ensures
        r@ == merge_by_offset(little@, big@),
{
    let mut r: Vec<Offset> = Vec::new();
    let mut i: usize = 0;
    let mut j: usize = 0;
    proof {
        assert(little@.skip(0) =~= little@);
        assert(big@.skip(0) =~= big@);
        assert(Seq::<Offset>::empty() + merge_by_offset(little@, big@) =~= merge_by_offset(
            little@,
            big@,
        ));
    }
    while i < little.len() || j < big.len()
        invariant
            i <= little@.len(),
            j <= big@.len(),
            merge_by_offset(little@, big@) == r@ + merge_by_offset(
                little@.skip(i as int),
                big@.skip(j as int),
            ),
        decreases little@.len() - i + big@.len() - j,
    {
        let take_little = if i < little.len() && j < big.len() {
            little[i].offset <= big[j].offset
        } else {
            i < little.len()
        };
        let ghost r0 = r@;
        if take_little {
            r.push(little[i]);
            proof {
                let la = little@.skip(i as int);
                let ba = big@.skip(j as int);
                assert(la.first() == little@[i as int]);
                assert(la.drop_first() =~= little@.skip(i as int + 1));
                if ba.len() == 0 {
                    assert(la =~= seq![la.first()] + la.drop_first());
                    assert(merge_by_offset(la.drop_first(), ba) == la.drop_first());
                }
                assert(merge_by_offset(la, ba) == seq![la.first()] + merge_by_offset(
                    la.drop_first(),
                    ba,
                ));
                assert(r0 + (seq![la.first()] + merge_by_offset(la.drop_first(), ba)) =~= (r0
                    + seq![la.first()]) + merge_by_offset(la.drop_first(), ba));
                assert(r@ =~= r0 + seq![la.first()]);
            }
            i = i + 1;
        } else {
            r.push(big[j]);
            proof {
                let la = little@.skip(i as int);
                let ba = big@.skip(j as int);
                assert(ba.first() == big@[j as int]);
                assert(ba.drop_first() =~= big@.skip(j as int + 1));
                if la.len() == 0 {
                    assert(ba =~= seq![ba.first()] + ba.drop_first());
                    assert(merge_by_offset(la, ba.drop_first()) == ba.drop_first());
                }
                assert(merge_by_offset(la, ba) == seq![ba.first()] + merge_by_offset(
                    la,
                    ba.drop_first(),
                ));
                assert(r0 + (seq![ba.first()] + merge_by_offset(la, ba.drop_first())) =~= (r0
                    + seq![ba.first()]) + merge_by_offset(la, ba.drop_first()));
                assert(r@ =~= r0 + seq![ba.first()]);
            }
            j = j + 1;
        }
    }
    proof {
        assert(little@.skip(i as int) =~= Seq::<Offset>::empty());
        assert(big@.skip(j as int) =~= Seq::<Offset>::empty());
        assert(r@ + merge_by_offset(little@.skip(i as int), big@.skip(j as int)) =~= r@);
    }
    r
}

} // verus!

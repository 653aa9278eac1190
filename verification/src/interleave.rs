//! Merging two columns into one alternating sequence, and splitting it again.

use vstd::prelude::*;

verus! {

/// The shorter of two lengths.
pub open spec fn shorter(a: nat, b: nat) -> nat {
    if a <= b {
        a
    } else {
        b
    }
}

/// `a[0], b[0], a[1], b[1], ...` for as long as both sequences last, and then
/// what is left of the longer one, unchanged.
pub open spec fn interleaved<T>(a: Seq<T>, b: Seq<T>) -> Seq<T> {
    let paired = shorter(a.len(), b.len());
    Seq::new(
        a.len() + b.len(),
        |k: int|
            if k < 2 * paired {
                if k % 2 == 0 {
                    a[k / 2]
                } else {
                    b[k / 2]
                }
            } else if a.len() > b.len() {
                a[k - paired]
            } else {
                b[k - paired]
            },
    )
}

/// The items of `s` at even positions.
pub open spec fn evens<T>(s: Seq<T>) -> Seq<T> {
    Seq::new((s.len() + 1) / 2, |k: int| s[2 * k])
}

/// The items of `s` at odd positions.
pub open spec fn odds<T>(s: Seq<T>) -> Seq<T> {
    Seq::new(s.len() / 2, |k: int| s[2 * k + 1])
}

/// Splitting what was merged from two sequences of one length gives the two
/// sequences back.
pub proof fn lemma_deinterleave_recovers<T>(a: Seq<T>, b: Seq<T>)
    requires
        a.len() == b.len(),
    ensures
        evens(interleaved(a, b)) == a,
        odds(interleaved(a, b)) == b,
{
    let merged = interleaved(a, b);
    assert(evens(merged) =~= a);
    assert(odds(merged) =~= b);
}

/// The merged sequence holds every item once: first the merge of the two
/// sequences cut to the shorter length, then the rest of the longer one as
/// it was.
pub proof fn lemma_interleave_tail<T>(a: Seq<T>, b: Seq<T>)
    ensures
        interleaved(a, b).len() == a.len() + b.len(),
        interleaved(a, b).take(2 * shorter(a.len(), b.len()) as int) == interleaved(
            a.take(shorter(a.len(), b.len()) as int),
            b.take(shorter(a.len(), b.len()) as int),
        ),
        a.len() >= b.len() ==> interleaved(a, b).skip(2 * b.len() as int) == a.skip(
            b.len() as int,
        ),
        b.len() >= a.len() ==> interleaved(a, b).skip(2 * a.len() as int) == b.skip(
            a.len() as int,
        ),
{
    let paired = shorter(a.len(), b.len()) as int;
    let merged = interleaved(a, b);
    assert(merged.take(2 * paired) =~= interleaved(a.take(paired), b.take(paired)));
    if a.len() >= b.len() {
        assert(merged.skip(2 * b.len() as int) =~= a.skip(b.len() as int));
    }
    if b.len() >= a.len() {
        assert(merged.skip(2 * a.len() as int) =~= b.skip(a.len() as int));
    }
}

/// Merges two sequences into one that alternates between them.
pub fn interleave<T: Copy>(a: &[T], b: &[T]) -> (r: Vec<T>)
    ensures
        r@ == interleaved(a@, b@),
{
    let paired = if a.len() <= b.len() {
        a.len()
    } else {
        b.len()
    };
    let mut merged: Vec<T> = Vec::new();
    let mut at: usize = 0;
    while at < paired
        invariant
            at <= paired,
            paired == shorter(a@.len(), b@.len()),
            merged@.len() == 2 * at,
            forall|k: int| 0 <= k < merged@.len() ==> merged@[k] == interleaved(a@, b@)[k],
        decreases paired - at,
    {
        merged.push(a[at]);
        merged.push(b[at]);
        at = at + 1;
    }
    // At most one of the two has a tail.
    while at < a.len()
        invariant
            paired <= at <= a.len(),
            paired == shorter(a@.len(), b@.len()),
            merged@.len() == paired + at,
            forall|k: int| 0 <= k < merged@.len() ==> merged@[k] == interleaved(a@, b@)[k],
        decreases a.len() - at,
    {
        merged.push(a[at]);
        at = at + 1;
    }
    let mut at: usize = paired;
    while at < b.len()
        invariant
            paired <= at <= b.len(),
            paired == shorter(a@.len(), b@.len()),
            merged@.len() == a.len() + at,
            forall|k: int| 0 <= k < merged@.len() ==> merged@[k] == interleaved(a@, b@)[k],
        decreases b.len() - at,
    {
        merged.push(b[at]);
        at = at + 1;
    }
    assert(merged@ =~= interleaved(a@, b@));
    merged
}

/// Splits an alternating sequence into the items at even positions and the
/// items at odd positions.
pub fn deinterleave<T: Copy>(s: &[T]) -> (r: (Vec<T>, Vec<T>))
    ensures
        r.0@ == evens(s@),
        r.1@ == odds(s@),
{
    let mut first: Vec<T> = Vec::new();
    let mut second: Vec<T> = Vec::new();
    let pairs = s.len() / 2;
    let mut pair: usize = 0;
    while pair < pairs
        invariant
            pair <= pairs,
            pairs == s.len() / 2,
            first@.len() == pair,
            second@.len() == pair,
            forall|k: int| 0 <= k < first@.len() ==> first@[k] == s@[2 * k],
            forall|k: int| 0 <= k < second@.len() ==> second@[k] == s@[2 * k + 1],
        decreases pairs - pair,
    {
        first.push(s[2 * pair]);
        second.push(s[2 * pair + 1]);
        pair = pair + 1;
    }
    if s.len() % 2 == 1 {
        first.push(s[s.len() - 1]);
    }
    assert(first@ =~= evens(s@));
    assert(second@ =~= odds(s@));
    (first, second)
}

} // verus!

//! Cutting an alternating sequence of coordinates into bounded chunks.
//!
//! A chunk size counts pairs, so a chunk holds twice as many scalars. Every
//! chunk starts at an even position: a pair is never cut in two.

use vstd::prelude::*;
use vstd::arithmetic::div_mod::{lemma_fundamental_div_mod, lemma_fundamental_div_mod_converse};

verus! {

/// Number of chunks that a sequence of `len` scalars falls into.
pub open spec fn chunk_count(len: nat, pairs_per_chunk: nat) -> nat {
    if len % (2 * pairs_per_chunk) == 0 {
        len / (2 * pairs_per_chunk)
    } else {
        len / (2 * pairs_per_chunk) + 1
    }
}

/// Where chunk `index` starts in a sequence of `len` scalars: at `index`
/// full chunks, or at the end if the sequence is shorter than that.
pub open spec fn chunk_start(len: nat, pairs_per_chunk: nat, index: nat) -> nat {
    if index * (2 * pairs_per_chunk) <= len {
        index * (2 * pairs_per_chunk)
    } else {
        len
    }
}

/// Chunk `index` of `s`: it runs from its own start to the start of the next.
pub open spec fn chunk_of<T>(s: Seq<T>, pairs_per_chunk: nat, index: nat) -> Seq<T> {
    s.subrange(
        chunk_start(s.len(), pairs_per_chunk, index) as int,
        chunk_start(s.len(), pairs_per_chunk, index + 1) as int,
    )
}

/// All the chunks of `s`, in order.
pub open spec fn chunks_of<T>(s: Seq<T>, pairs_per_chunk: nat) -> Seq<Seq<T>> {
    Seq::new(
        chunk_count(s.len(), pairs_per_chunk),
        |index: int| chunk_of(s, pairs_per_chunk, index as nat),
    )
}

/// The starts of the chunks rise from zero to the length, which the start
/// after the last chunk reaches and the start of no chunk does.
pub proof fn lemma_chunk_starts(len: nat, pairs_per_chunk: nat, index: nat)
    requires
        pairs_per_chunk > 0,
    ensures
        chunk_start(len, pairs_per_chunk, 0) == 0,
        chunk_start(len, pairs_per_chunk, index) <= chunk_start(len, pairs_per_chunk, index + 1)
            <= len,
        index < chunk_count(len, pairs_per_chunk) <==> chunk_start(len, pairs_per_chunk, index)
            < len,
        index < chunk_count(len, pairs_per_chunk) ==> chunk_start(len, pairs_per_chunk, index)
            == index * (2 * pairs_per_chunk),
{
    let span = (2 * pairs_per_chunk) as int;
    let whole = len as int / span;
    let here = index * span;
    lemma_fundamental_div_mod(len as int, span);
    assert(span * whole == whole * span) by (nonlinear_arith);
    assert((index + 1) * span == here + span) by (nonlinear_arith)
        requires
            here == index * span,
    ;
    assert(0 * span == 0);
    assert(index * (2 * pairs_per_chunk) == here);
    assert((index + 1) * (2 * pairs_per_chunk) == here + span);
    if (index as int) < whole {
        assert(here + span <= whole * span) by (nonlinear_arith)
            requires
                index + 1 <= whole,
                span > 0,
                here == index * span,
        ;
    } else {
        assert(whole * span <= here) by (nonlinear_arith)
            requires
                whole <= index,
                span > 0,
                here == index * span,
        ;
        if (index as int) > whole {
            assert(whole * span + span <= here) by (nonlinear_arith)
                requires
                    whole + 1 <= index,
                    span > 0,
                    here == index * span,
            ;
        }
    }
}

/// The first `taken` chunks, put end to end, are the sequence up to where the
/// next chunk starts.
proof fn lemma_chunks_cover_prefix<T>(s: Seq<T>, pairs_per_chunk: nat, taken: nat)
    requires
        pairs_per_chunk > 0,
        taken <= chunk_count(s.len(), pairs_per_chunk),
    ensures
        chunks_of(s, pairs_per_chunk).take(taken as int).flatten() == s.take(
            chunk_start(s.len(), pairs_per_chunk, taken) as int,
        ),
    decreases taken,
{
    let chunks = chunks_of(s, pairs_per_chunk);
    if taken == 0 {
        lemma_chunk_starts(s.len(), pairs_per_chunk, 0);
        assert(chunks.take(0).flatten() =~= s.take(0));
    } else {
        let before = (taken - 1) as nat;
        lemma_chunks_cover_prefix(s, pairs_per_chunk, before);
        lemma_chunk_starts(s.len(), pairs_per_chunk, before);
        assert(chunks.take(taken as int) =~= chunks.take(before as int).push(chunks[before as int]));
        chunks.take(before as int).lemma_flatten_push(chunks[before as int]);
        assert(s.take(chunk_start(s.len(), pairs_per_chunk, before) as int) + chunk_of(
            s,
            pairs_per_chunk,
            before,
        ) =~= s.take(chunk_start(s.len(), pairs_per_chunk, taken) as int));
    }
}

/// The chunks, put end to end, are the sequence itself: every item is in one
/// chunk, in its place.
pub proof fn lemma_chunks_cover<T>(s: Seq<T>, pairs_per_chunk: nat)
    requires
        pairs_per_chunk > 0,
    ensures
        chunks_of(s, pairs_per_chunk).flatten() == s,
{
    let count = chunk_count(s.len(), pairs_per_chunk);
    lemma_chunks_cover_prefix(s, pairs_per_chunk, count);
    lemma_chunk_starts(s.len(), pairs_per_chunk, count);
    assert(chunks_of(s, pairs_per_chunk).take(count as int) =~= chunks_of(s, pairs_per_chunk));
    assert(s.take(s.len() as int) =~= s);
}

/// No chunk is empty, none holds more than the chunk size allows, and all but
/// the last are full.
pub proof fn lemma_chunk_sizes<T>(s: Seq<T>, pairs_per_chunk: nat, index: nat)
    requires
        pairs_per_chunk > 0,
        index < chunk_count(s.len(), pairs_per_chunk),
    ensures
        0 < chunk_of(s, pairs_per_chunk, index).len() <= 2 * pairs_per_chunk,
        index + 1 < chunk_count(s.len(), pairs_per_chunk) ==> chunk_of(
            s,
            pairs_per_chunk,
            index,
        ).len() == 2 * pairs_per_chunk,
{
    lemma_chunk_starts(s.len(), pairs_per_chunk, index);
    lemma_chunk_starts(s.len(), pairs_per_chunk, index + 1);
    assert((index + 1) * (2 * pairs_per_chunk) == index * (2 * pairs_per_chunk) + 2
        * pairs_per_chunk) by (nonlinear_arith);
}

/// A chunk starts at an even position, so the two scalars of a pair, at the
/// positions `2 * pair` and `2 * pair + 1`, lie in one chunk.
pub proof fn lemma_pairs_stay_whole(len: nat, pairs_per_chunk: nat, index: nat, pair: nat)
    requires
        pairs_per_chunk > 0,
        index < chunk_count(len, pairs_per_chunk),
        2 * pair + 1 < len,
    ensures
        chunk_start(len, pairs_per_chunk, index) % 2 == 0,
        chunk_start(len, pairs_per_chunk, index) <= 2 * pair < chunk_start(
            len,
            pairs_per_chunk,
            index + 1,
        ) <==> chunk_start(len, pairs_per_chunk, index) <= 2 * pair + 1 < chunk_start(
            len,
            pairs_per_chunk,
            index + 1,
        ),
{
    lemma_chunk_starts(len, pairs_per_chunk, index);
    lemma_chunk_starts(len, pairs_per_chunk, index + 1);
    assert(index * (2 * pairs_per_chunk) == 2 * (index * pairs_per_chunk)) by (nonlinear_arith);
    assert((index + 1) * (2 * pairs_per_chunk) == 2 * ((index + 1) * pairs_per_chunk))
        by (nonlinear_arith);
}

/// Where chunk `index` of a sequence of `len` scalars starts and ends. Past
/// the last chunk both are `len`.
pub fn chunk_bounds(len: usize, pairs_per_chunk: usize, index: usize) -> (r: (usize, usize))
    requires
        pairs_per_chunk > 0,
    ensures
        r.0 == chunk_start(len as nat, pairs_per_chunk as nat, index as nat),
        r.1 == chunk_start(len as nat, pairs_per_chunk as nat, (index + 1) as nat),
{
    let ghost span = 2 * pairs_per_chunk as int;
    let ghost here = index * span;
    proof {
        lemma_chunk_starts(len as nat, pairs_per_chunk as nat, index as nat);
        assert(index * (2 * pairs_per_chunk as nat) == here);
        assert((index + 1) * (2 * pairs_per_chunk as nat) == here + span) by (nonlinear_arith)
            requires
                here == index * span,
                span == 2 * pairs_per_chunk as nat,
        ;
    }
    if pairs_per_chunk > len / 2 {
        // One chunk holds everything.
        proof {
            assert(span > len);
            if index > 0 {
                assert(here >= span) by (nonlinear_arith)
                    requires
                        here == index * span,
                        index >= 1,
                        span > 0,
                ;
            }
        }
        if index == 0 {
            (0, len)
        } else {
            (len, len)
        }
    } else {
        let span_exec = 2 * pairs_per_chunk;
        if index > len / span_exec {
            proof {
                lemma_fundamental_div_mod(len as int, span);
                let whole = len as int / span;
                assert(here >= (whole + 1) * span) by (nonlinear_arith)
                    requires
                        here == index * span,
                        index >= whole + 1,
                        span > 0,
                ;
                assert((whole + 1) * span == span * whole + span) by (nonlinear_arith);
            }
            (len, len)
        } else {
            proof {
                lemma_fundamental_div_mod(len as int, span);
                let whole = len as int / span;
                assert(here <= whole * span) by (nonlinear_arith)
                    requires
                        here == index * span,
                        index <= whole,
                        span > 0,
                ;
                assert(whole * span == span * whole) by (nonlinear_arith);
            }
            let start = index * span_exec;
            let end = if len - start > span_exec {
                start + span_exec
            } else {
                len
            };
            (start, end)
        }
    }
}

/// The chunks that a vector of vectors holds.
pub open spec fn contents<T>(chunks: Seq<Vec<T>>) -> Seq<Seq<T>> {
    Seq::new(chunks.len(), |index: int| chunks[index]@)
}

/// Cuts `data` into chunks of `pairs_per_chunk` pairs each; the last chunk
/// holds what is left.
pub fn partition<T: Copy>(data: &[T], pairs_per_chunk: usize) -> (r: Vec<Vec<T>>)
    requires
        pairs_per_chunk > 0,
    ensures
        contents(r@) == chunks_of(data@, pairs_per_chunk as nat),
        contents(r@).flatten() == data@,
{
    let mut chunks: Vec<Vec<T>> = Vec::new();
    let mut start: usize = 0;
    proof {
        lemma_chunk_starts(data@.len(), pairs_per_chunk as nat, 0);
    }
    while start < data.len()
        invariant
            pairs_per_chunk > 0,
            start <= data.len(),
            start == chunk_start(data@.len(), pairs_per_chunk as nat, chunks@.len()),
            chunks@.len() <= start,
            chunks@.len() <= chunk_count(data@.len(), pairs_per_chunk as nat),
            forall|index: int|
                0 <= index < chunks@.len() ==> (#[trigger] chunks@[index])@ == chunk_of(
                    data@,
                    pairs_per_chunk as nat,
                    index as nat,
                ),
        decreases data.len() - start,
    {
        let ghost index = chunks@.len();
        let (_, end) = chunk_bounds(data.len(), pairs_per_chunk, chunks.len());
        proof {
            lemma_chunk_starts(data@.len(), pairs_per_chunk as nat, index);
            lemma_chunk_sizes(data@, pairs_per_chunk as nat, index);
        }
        let mut chunk: Vec<T> = Vec::new();
        let mut at: usize = start;
        while at < end
            invariant
                start <= at <= end <= data.len(),
                chunk@ == data@.subrange(start as int, at as int),
            decreases end - at,
        {
            chunk.push(data[at]);
            proof {
                assert(data@.subrange(start as int, at as int).push(data@[at as int])
                    =~= data@.subrange(start as int, at + 1));
            }
            at = at + 1;
        }
        chunks.push(chunk);
        start = end;
    }
    proof {
        lemma_chunk_starts(data@.len(), pairs_per_chunk as nat, chunks@.len());
        assert(contents(chunks@) =~= chunks_of(data@, pairs_per_chunk as nat));
        lemma_chunks_cover(data@, pairs_per_chunk as nat);
    }
    chunks
}

/// Number of chunks that a sequence of `len` scalars falls into.
pub fn count_chunks(len: usize, pairs_per_chunk: usize) -> (r: usize)
    requires
        pairs_per_chunk > 0,
    ensures
        r == chunk_count(len as nat, pairs_per_chunk as nat),
{
    if pairs_per_chunk > len / 2 {
        proof {
            let span = 2 * pairs_per_chunk as int;
            assert(span > len);
            lemma_fundamental_div_mod_converse(len as int, span, 0, len as int);
        }
        if len == 0 {
            0
        } else {
            1
        }
    } else {
        let span = 2 * pairs_per_chunk;
        if len % span == 0 {
            len / span
        } else {
            proof {
                lemma_fundamental_div_mod(len as int, span as int);
                assert(span as int * (len as int / span as int) >= len as int / span as int)
                    by (nonlinear_arith)
                    requires
                        span >= 1,
                        len as int / span as int >= 0,
                ;
            }
            len / span + 1
        }
    }
}

} // verus!

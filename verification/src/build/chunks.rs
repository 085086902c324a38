//! How the entries of a binary are split into chunks.

use vstd::prelude::*;

verus! {

/// How large a chunk is meant to be.
pub const TARGET: usize = 16384;

/// The size of the entries from `from` up to `to`.
pub open spec fn total(sizes: Seq<usize>, from: int, to: int) -> nat
    decreases to - from,
{
    if from >= to || from < 0 || to > sizes.len() {
        0
    } else {
        total(sizes, from, to - 1) + sizes[to - 1] as nat
    }
}

/// Where the chunk that begins at `from` ends, once it holds the entries up to `to`: at
/// the first entry with which it would be larger than meant. An entry is taken in any
/// case as long as the chunk is empty.
pub open spec fn chunk_end(sizes: Seq<usize>, from: int, to: int) -> int
    decreases sizes.len() - to,
{
    if to < 0 || to >= sizes.len() {
        to
    } else if total(sizes, from, to) > 0 && total(sizes, from, to) + sizes[to] > TARGET {
        to
    } else {
        chunk_end(sizes, from, to + 1)
    }
}

/// The ends of the chunks of the entries from `from` on.
pub open spec fn ends_from(sizes: Seq<usize>, from: int) -> Seq<int>
    decreases sizes.len() - from,
{
    if from < 0 || from >= sizes.len() {
        Seq::empty()
    } else {
        let end = chunk_end(sizes, from, from);
        if end <= from || end > sizes.len() {
            Seq::empty()
        } else {
            seq![end] + ends_from(sizes, end)
        }
    }
}

proof fn lemma_chunk_end(sizes: Seq<usize>, from: int, to: int)
    requires
        0 <= from <= to <= sizes.len(),
    ensures
        to <= chunk_end(sizes, from, to) <= sizes.len(),
        from == to && from < sizes.len() ==> chunk_end(sizes, from, to) > from,
    decreases sizes.len() - to,
{
    if to < sizes.len() {
        if !(total(sizes, from, to) > 0 && total(sizes, from, to) + sizes[to] > TARGET) {
            lemma_chunk_end(sizes, from, to + 1);
        }
    }
}

proof fn lemma_total_monotone(sizes: Seq<usize>, from: int, a: int, b: int)
    requires
        0 <= from <= a <= b <= sizes.len(),
    ensures
        total(sizes, from, a) <= total(sizes, from, b),
    decreases b - a,
{
    if a < b {
        lemma_total_monotone(sizes, from, a, b - 1);
    }
}

proof fn lemma_total_prefix(sizes: Seq<usize>, from: int, to: int)
    requires
        0 <= from <= to <= sizes.len(),
    ensures
        total(sizes, from, to) <= total(sizes, 0, to),
    decreases to - from,
{
    if from < to {
        lemma_total_prefix(sizes, from, to - 1);
    }
}

fn find_chunk_end(sizes: &Vec<usize>, from: usize) -> (r: usize)
    requires
        from < sizes@.len(),
        total(sizes@, 0, sizes@.len() as int) <= usize::MAX,
    ensures
        from < r <= sizes@.len(),
        r == chunk_end(sizes@, from as int, from as int),
{
    proof {
        lemma_chunk_end(sizes@, from as int, from as int);
    }
    let mut size: usize = 0;
    let mut to: usize = from;
    while to < sizes.len()
        invariant
            from <= to <= sizes@.len(),
            total(sizes@, 0, sizes@.len() as int) <= usize::MAX,
            size == total(sizes@, from as int, to as int),
            chunk_end(sizes@, from as int, from as int) == chunk_end(
                sizes@,
                from as int,
                to as int,
            ),
            from < chunk_end(sizes@, from as int, from as int),
        decreases sizes@.len() - to,
    {
        proof {
            lemma_total_prefix(sizes@, from as int, to as int + 1);
            lemma_total_monotone(sizes@, 0, to as int + 1, sizes@.len() as int);
            assert(total(sizes@, from as int, to as int + 1) == total(
                sizes@,
                from as int,
                to as int,
            ) + sizes@[to as int]);
        }
        if size > 0 && size + sizes[to] > TARGET {
            return to;
        }
        size = size + sizes[to];
        to = to + 1;
    }
    to
}

/// The ends of the chunks into which entries of the given sizes are split.
pub fn split_chunks(sizes: &Vec<usize>) -> (r: Vec<usize>)
    requires
        total(sizes@, 0, sizes@.len() as int) <= usize::MAX,
    ensures
        r@.map_values(|n: usize| n as int) == ends_from(sizes@, 0),
{
    let ghost whole = ends_from(sizes@, 0);
    let mut out: Vec<usize> = Vec::new();
    let mut from: usize = 0;
    assert(out@.map_values(|n: usize| n as int) + whole =~= whole);
    while from < sizes.len()
        invariant
            from <= sizes@.len(),
            total(sizes@, 0, sizes@.len() as int) <= usize::MAX,
            whole == ends_from(sizes@, 0),
            whole == out@.map_values(|n: usize| n as int) + ends_from(sizes@, from as int),
        decreases sizes@.len() - from,
    {
        let ghost before = out@;
        let end = find_chunk_end(sizes, from);
        out.push(end);
        proof {
            assert(out@.map_values(|n: usize| n as int) =~= before.map_values(
                |n: usize| n as int,
            ).push(end as int));
            assert(whole =~= out@.map_values(|n: usize| n as int) + ends_from(
                sizes@,
                end as int,
            ));
        }
        from = end;
    }
    assert(whole =~= out@.map_values(|n: usize| n as int));
    out
}

proof fn lemma_within(sizes: Seq<usize>, from: int, to: int)
    requires
        0 <= from <= to <= sizes.len(),
        total(sizes, from, to) <= TARGET || exists|i: int|
            from <= i < to && total(sizes, from, i) == 0 && total(sizes, i + 1, to) == 0,
    ensures
        total(sizes, from, chunk_end(sizes, from, to)) <= TARGET || exists|i: int|
            from <= i < chunk_end(sizes, from, to) && #[trigger] total(sizes, from, i) == 0
                && total(sizes, i + 1, chunk_end(sizes, from, to)) == 0,
    decreases sizes.len() - to,
{
    if to < sizes.len() {
        let t = total(sizes, from, to);
        if !(t > 0 && t + sizes[to] > TARGET) {
            if t + sizes[to] <= TARGET {
                assert(total(sizes, from, to + 1) <= TARGET);
            } else {
                assert(total(sizes, from, to) == 0);
                assert(total(sizes, to + 1, to + 1) == 0);
            }
            lemma_within(sizes, from, to + 1);
        }
    }
}

/// The chunks hold every entry, in order and once; each holds at least one; and a chunk
/// is larger than meant only where one entry makes up its size.
pub proof fn chunks_hold_every_entry(sizes: Seq<usize>, from: int)
    requires
        0 <= from < sizes.len(),
    ensures
        ends_from(sizes, from).len() > 0,
        ends_from(sizes, from).last() == sizes.len(),
        ends_from(sizes, from)[0] > from,
        forall|i: int, j: int|
            0 <= i < j < ends_from(sizes, from).len() ==> (#[trigger] ends_from(sizes, from)[i]) < (
            #[trigger] ends_from(sizes, from)[j]),
        total(sizes, from, ends_from(sizes, from)[0]) <= TARGET || exists|i: int|
            from <= i < ends_from(sizes, from)[0] && #[trigger] total(sizes, from, i) == 0
                && total(sizes, i + 1, ends_from(sizes, from)[0]) == 0,
    decreases sizes.len() - from,
{
    let end = chunk_end(sizes, from, from);
    lemma_chunk_end(sizes, from, from);
    lemma_within(sizes, from, from);
    let all = ends_from(sizes, from);
    assert(all == seq![end] + ends_from(sizes, end));
    if end < sizes.len() {
        chunks_hold_every_entry(sizes, end);
        let rest = ends_from(sizes, end);
        assert forall|i: int, j: int| 0 <= i < j < all.len() implies (#[trigger] all[i]) < (
        #[trigger] all[j]) by {
            assert(all[j] == rest[j - 1]);
            if i > 0 {
                assert(all[i] == rest[i - 1]);
            } else {
                assert(rest[0] <= rest[j - 1]);
            }
        }
        assert(all.last() == rest.last());
    } else {
        assert(all =~= seq![end]);
    }
}

} // verus!

//! Facts about the chunks that `chunk_text` returns, stated over `chunks_of`.
use crate::chunker::{
    chunk_start, chunks_of, effective_percentage, overlap_size, step_size, window, window_count,
};
use vstd::prelude::*;

verus! {

/// The step between two chunks is at least one character and at most a
/// whole chunk, so splitting always moves forward.
pub proof fn lemma_step_in_range(chunk_size: nat, p: nat)
    requires
        chunk_size > 0,
    ensures
        1 <= step_size(chunk_size, p) <= chunk_size,
{
}

/// `window_count(n, step)` windows start below `n`, and together they reach it.
pub proof fn lemma_window_count_bounds(n: nat, step: nat)
    requires
        n > 0,
        step > 0,
    ensures
        window_count(n, step) > 0,
        (window_count(n, step) - 1) * step < n,
        n <= window_count(n, step) * step,
{
    let m = window_count(n, step);
    let r = ((n + step - 1) as nat) % step;
    vstd::arithmetic::div_mod::lemma_fundamental_div_mod((n + step - 1) as int, step as int);
    assert(m * step + r == n + step - 1);
    assert((m - 1) * step == m * step - step) by (nonlinear_arith);
    if m == 0 {
        assert(m * step == 0) by (nonlinear_arith)
            requires
                m == 0,
        ;
    }
}

/// A text that fits in one chunk comes back as that single chunk, or as no
/// chunk at all when it is empty.
pub proof fn lemma_short_text_is_one_chunk(s: Seq<char>, chunk_size: nat, p: nat)
    requires
        chunk_size > 0,
        s.len() <= chunk_size,
    ensures
        chunks_of(s, chunk_size, p) == (if s.len() == 0 {
            Seq::<Seq<char>>::empty()
        } else {
            seq![s]
        }),
{
}

/// Chunking a text shorter than the chunk size gives that text back as its
/// only chunk, and chunking that chunk again gives the same result.
pub proof fn lemma_short_text_idempotent(s: Seq<char>, chunk_size: nat, p: nat)
    requires
        0 < s.len() < chunk_size,
    ensures
        chunks_of(s, chunk_size, p) == seq![s],
        chunks_of(chunks_of(s, chunk_size, p)[0], chunk_size, p) == chunks_of(s, chunk_size, p),
{
}

/// A zero chunk size, or an empty text, gives no chunks whatever the overlap.
pub proof fn lemma_degenerate_inputs(s: Seq<char>, chunk_size: nat, p: nat)
    requires
        chunk_size == 0 || s.len() == 0,
    ensures
        chunks_of(s, chunk_size, p).len() == 0,
{
}

/// With no overlap requested nothing is shared, so each chunk starts where
/// the previous one ended.
pub proof fn lemma_no_overlap_step(chunk_size: nat)
    requires
        chunk_size > 0,
    ensures
        overlap_size(chunk_size, 0) == 0,
        step_size(chunk_size, 0) == chunk_size,
{
    assert(chunk_size * effective_percentage(0) == 0) by (nonlinear_arith)
        requires
            effective_percentage(0) == 0,
    ;
}

/// The first `k` windows without overlap, joined, are the text up to `k`
/// chunk widths (or all of it).
proof fn lemma_unoverlapped_prefix(s: Seq<char>, chunk_size: nat, k: nat)
    requires
        0 < chunk_size < s.len(),
        k <= window_count(s.len(), chunk_size),
    ensures
        chunks_of(s, chunk_size, 0).subrange(0, k as int).flatten_alt() == s.subrange(
            0,
            if k * chunk_size < s.len() {
                (k * chunk_size) as int
            } else {
                s.len() as int
            },
        ),
    decreases k,
{
    let ch = chunks_of(s, chunk_size, 0);
    lemma_no_overlap_step(chunk_size);
    if k == 0 {
        assert(ch.subrange(0, 0).flatten_alt() =~= Seq::<char>::empty());
        assert(s.subrange(0, 0) =~= Seq::<char>::empty());
    } else {
        let j = (k - 1) as nat;
        lemma_unoverlapped_prefix(s, chunk_size, j);
        lemma_window_count_bounds(s.len(), chunk_size);
        let m = window_count(s.len(), chunk_size);
        assert(j * chunk_size <= (m - 1) * chunk_size) by (nonlinear_arith)
            requires
                j <= m - 1,
        ;
        assert(k * chunk_size == j * chunk_size + chunk_size) by (nonlinear_arith)
            requires
                k == j + 1,
        ;
        let pre = ch.subrange(0, k as int);
        assert(pre.drop_last() =~= ch.subrange(0, j as int));
        assert(pre.last() == window(s, chunk_size, chunk_size, j as int));
        let end = if k * chunk_size < s.len() {
            (k * chunk_size) as int
        } else {
            s.len() as int
        };
        assert(s.subrange(0, (j * chunk_size) as int) + s.subrange((j * chunk_size) as int, end) =~= s.subrange(
            0,
            end,
        ));
    }
}

/// Without overlap the step is the whole chunk size, and the chunks joined
/// in order give back the text exactly: nothing repeated, nothing left out.
pub proof fn lemma_unoverlapped_chunks_reassemble(s: Seq<char>, chunk_size: nat)
    requires
        0 < chunk_size < s.len(),
    ensures
        step_size(chunk_size, 0) == chunk_size,
        chunks_of(s, chunk_size, 0).flatten() == s,
{
    let ch = chunks_of(s, chunk_size, 0);
    lemma_no_overlap_step(chunk_size);
    let m = window_count(s.len(), chunk_size);
    lemma_window_count_bounds(s.len(), chunk_size);
    lemma_unoverlapped_prefix(s, chunk_size, m);
    assert(ch.subrange(0, m as int) =~= ch);
    assert(s.subrange(0, s.len() as int) =~= s);
    ch.lemma_flatten_and_flatten_alt_are_equivalent();
}

/// Each chunk is a non-empty contiguous run of the text that begins at
/// `chunk_start`, and none is longer than the chunk size.
pub proof fn lemma_chunks_are_runs(s: Seq<char>, chunk_size: nat, p: nat)
    requires
        chunk_size > 0,
    ensures
        forall|k: int|
            0 <= k < chunks_of(s, chunk_size, p).len() ==> {
                let start = chunk_start(s, chunk_size, p, k);
                let piece = #[trigger] chunks_of(s, chunk_size, p)[k];
                &&& 0 < piece.len() <= chunk_size
                &&& 0 <= start
                &&& start + piece.len() <= s.len()
                &&& piece == s.subrange(start, start + piece.len())
            },
{
    let ch = chunks_of(s, chunk_size, p);
    if s.len() > chunk_size {
        let step = step_size(chunk_size, p);
        let m = window_count(s.len(), step);
        lemma_step_in_range(chunk_size, p);
        lemma_window_count_bounds(s.len(), step);
        assert forall|k: int| 0 <= k < ch.len() implies {
            let start = chunk_start(s, chunk_size, p, k);
            let piece = #[trigger] ch[k];
            &&& 0 < piece.len() <= chunk_size
            &&& 0 <= start
            &&& start + piece.len() <= s.len()
            &&& piece == s.subrange(start, start + piece.len())
        } by {
            assert(0 <= k * step <= (m - 1) * step) by (nonlinear_arith)
                requires
                    0 <= k <= m - 1,
            ;
        }
    }
}

/// The last chunk ends exactly at the end of the text, and every chunk fits
/// in the chunk size.
pub proof fn lemma_last_chunk_reaches_end(s: Seq<char>, chunk_size: nat, p: nat)
    requires
        chunk_size > 0,
        s.len() > 0,
    ensures
        chunks_of(s, chunk_size, p).len() > 0,
        forall|k: int|
            0 <= k < chunks_of(s, chunk_size, p).len() ==> (#[trigger] chunks_of(
                s,
                chunk_size,
                p,
            )[k]).len() <= chunk_size,
        chunk_start(s, chunk_size, p, chunks_of(s, chunk_size, p).len() - 1) + chunks_of(
            s,
            chunk_size,
            p,
        ).last().len() == s.len(),
{
    lemma_chunks_are_runs(s, chunk_size, p);
    if s.len() > chunk_size {
        let step = step_size(chunk_size, p);
        let m = window_count(s.len(), step);
        lemma_step_in_range(chunk_size, p);
        lemma_window_count_bounds(s.len(), step);
        assert((m - 1) * step + step == m * step) by (nonlinear_arith);
        let ch = chunks_of(s, chunk_size, p);
        assert(ch.last() == window(s, chunk_size, step, m - 1));
    }
}

/// Successive chunks start exactly one step apart, and the step is at least
/// one character, so the starting offsets strictly increase.
pub proof fn lemma_starts_advance_by_step(s: Seq<char>, chunk_size: nat, p: nat)
    requires
        chunk_size > 0,
    ensures
        step_size(chunk_size, p) >= 1,
        chunk_start(s, chunk_size, p, 0) == 0,
        forall|k: int|
            0 <= k && k + 1 < chunks_of(s, chunk_size, p).len() ==> #[trigger] chunk_start(
                s,
                chunk_size,
                p,
                k + 1,
            ) == chunk_start(s, chunk_size, p, k) + step_size(chunk_size, p),
{
    lemma_step_in_range(chunk_size, p);
    let step = step_size(chunk_size, p);
    assert forall|k: int|
        0 <= k && k + 1 < chunks_of(s, chunk_size, p).len() implies #[trigger] chunk_start(
        s,
        chunk_size,
        p,
        k + 1,
    ) == chunk_start(s, chunk_size, p, k) + step by {
        assert((k + 1) * step == k * step + step) by (nonlinear_arith);
    }
}

/// Position `i` of `s` lies inside some chunk of `s`.
pub open spec fn in_some_chunk(s: Seq<char>, chunk_size: nat, p: nat, i: int) -> bool {
    exists|k: int|
        0 <= k < chunks_of(s, chunk_size, p).len() && chunk_start(s, chunk_size, p, k) <= i
            < chunk_start(s, chunk_size, p, k) + (#[trigger] chunks_of(s, chunk_size, p)[k]).len()
}

/// Every character of the text lies in at least one chunk.
pub proof fn lemma_chunks_cover_text(s: Seq<char>, chunk_size: nat, p: nat)
    requires
        chunk_size > 0,
    ensures
        forall|i: int| 0 <= i < s.len() ==> #[trigger] in_some_chunk(s, chunk_size, p, i),
{
    lemma_chunks_are_runs(s, chunk_size, p);
    let ch = chunks_of(s, chunk_size, p);
    if s.len() > chunk_size {
        let step = step_size(chunk_size, p);
        let m = window_count(s.len(), step);
        lemma_step_in_range(chunk_size, p);
        lemma_window_count_bounds(s.len(), step);
        assert forall|i: int| 0 <= i < s.len() implies #[trigger] in_some_chunk(
            s,
            chunk_size,
            p,
            i,
        ) by {
            let k = i / step as int;
            vstd::arithmetic::div_mod::lemma_fundamental_div_mod(i, step as int);
            vstd::arithmetic::div_mod::lemma_mod_pos_bound(i, step as int);
            assert(0 <= k) by (nonlinear_arith)
                requires
                    i >= 0,
                    step > 0,
                    k == i / step as int,
            ;
            assert(k * step <= i < k * step + step) by (nonlinear_arith)
                requires
                    i == step * k + i % (step as int),
                    0 <= i % (step as int) < step,
            ;
            if k >= m {
                assert(k * step >= m * step) by (nonlinear_arith)
                    requires
                        k >= m,
                        step > 0,
                ;
            }
            assert(ch[k] == window(s, chunk_size, step, k));
            assert(chunk_start(s, chunk_size, p, k) == k * step);
        }
    } else if s.len() > 0 {
        assert forall|i: int| 0 <= i < s.len() implies #[trigger] in_some_chunk(
            s,
            chunk_size,
            p,
            i,
        ) by {
            assert(ch[0] == s);
        }
    }
}

} // verus!

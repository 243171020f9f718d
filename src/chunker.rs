use vstd::prelude::*;
use vstd::std_specs::iter::IteratorSpec;

verus! {

/// The largest overlap percentage honoured; a larger request is lowered to it.
pub const MAX_OVERLAP_PERCENTAGE: u8 = 90;

/// Options that shape how a text is cut into chunks.
#[derive(Debug, Clone, Copy)]
pub struct ChunkOptions {
    /// Overlap percentage (0-90%; a larger value is treated as 90)
    pub overlap_percentage: u8,
}

impl Default for ChunkOptions {
    fn default() -> (r: Self)
        ensures
            r.overlap_percentage == 0,
    {
        ChunkOptions { overlap_percentage: 0 }
    }
}

/// The overlap percentage requested by `options`: zero when none are given.
pub open spec fn requested_percentage(options: Option<ChunkOptions>) -> nat {
    match options {
        Some(o) => o.overlap_percentage as nat,
        None => 0,
    }
}

/// The requested percentage, lowered to the ceiling where it exceeds it.
pub open spec fn effective_percentage(p: nat) -> nat {
    if p > MAX_OVERLAP_PERCENTAGE as nat {
        MAX_OVERLAP_PERCENTAGE as nat
    } else {
        p
    }
}

/// Characters shared by two neighbouring chunks: `chunk_size * p / 100`,
/// rounded half up, with `p` the effective percentage.
pub open spec fn overlap_size(chunk_size: nat, p: nat) -> nat {
    (chunk_size * effective_percentage(p) + 50) / 100
}

/// How far the window advances between two chunks; never below one.
pub open spec fn step_size(chunk_size: nat, p: nat) -> nat {
    if overlap_size(chunk_size, p) >= chunk_size {
        1
    } else {
        (chunk_size - overlap_size(chunk_size, p)) as nat
    }
}

/// The number of windows of a split text: `ceil(n / step)`.
pub open spec fn window_count(n: nat, step: nat) -> nat
    recommends
        step > 0,
{
    ((n + step - 1) as nat) / step
}

/// The `k`-th window: characters `[k * step, min(k * step + chunk_size, len))`.
pub open spec fn window(s: Seq<char>, chunk_size: nat, step: nat, k: int) -> Seq<char> {
    let start = k * step;
    let end = if start + chunk_size < s.len() {
        start + chunk_size
    } else {
        s.len() as int
    };
    s.subrange(start, end)
}

/// The chunks of `s`: none for an empty text or a zero chunk size, the text
/// itself where it fits in one chunk, and otherwise every window in turn.
pub open spec fn chunks_of(s: Seq<char>, chunk_size: nat, p: nat) -> Seq<Seq<char>> {
    if s.len() == 0 || chunk_size == 0 {
        seq![]
    } else if s.len() <= chunk_size {
        seq![s]
    } else {
        let step = step_size(chunk_size, p);
        Seq::new(window_count(s.len(), step), |k: int| window(s, chunk_size, step, k))
    }
}

/// Where the `k`-th chunk of `s` begins, counted in characters.
pub open spec fn chunk_start(s: Seq<char>, chunk_size: nat, p: nat, k: int) -> int {
    if s.len() <= chunk_size {
        0
    } else {
        k * step_size(chunk_size, p)
    }
}

/// Relies on String::push: appends one character at the end.
#[verifier::external_body]
fn push_char(s: &mut String, c: char)
    ensures
        final(s)@ == old(s)@.push(c),
{
    s.push(c);
}

/// The characters of `text`, in order.
pub(crate) fn collect_chars(text: &str) -> (r: Vec<char>)
    ensures
        r@ == text@,
{
    broadcast use vstd::string::axiom_spec_iter, vstd::string::next_postcondition;

    let mut it = text.chars();
    let mut out: Vec<char> = Vec::new();
    loop
        invariant
            out@ + it.remaining() == text@,
            it.obeys_prophetic_iter_laws(),
            it.decrease() is Some,
        ensures
            out@ == text@,
        decreases it.decrease()->0,
    {
        match it.next() {
            Some(c) => {
                proof {
                    assert(out@.push(c) + it.remaining() =~= text@);
                }
                out.push(c);
            },
            None => {
                assert(out@ =~= text@);
                break ;
            },
        }
    }
    out
}

/// A string holding `chars[start..end]`.
fn string_of_range(chars: &Vec<char>, start: usize, end: usize) -> (r: String)
    requires
        start <= end <= chars.len(),
    ensures
        r@ == chars@.subrange(start as int, end as int),
{
    let mut out = String::new();
    let mut i: usize = start;
    while i < end
        invariant
            start <= i <= end <= chars.len(),
            out@ == chars@.subrange(start as int, i as int),
        decreases end - i,
    {
        push_char(&mut out, chars[i]);
        assert(out@ =~= chars@.subrange(start as int, i + 1));
        i = i + 1;
    }
    out
}

/// Rounded overlap computed without leaving the range of `usize`.
fn overlap_for(chunk_size: usize, percentage: u8) -> (r: usize)
    requires
        percentage <= MAX_OVERLAP_PERCENTAGE,
    ensures
        r == overlap_size(chunk_size as nat, percentage as nat),
        r <= chunk_size,
{
    proof {
        assert((chunk_size as int) * (percentage as int) <= (chunk_size as int) * 90)
            by (nonlinear_arith)
            requires
                percentage <= 90,
        ;
        assert((chunk_size as int) * 90 <= 0xffff_ffff_ffff_ffffint * 90) by (nonlinear_arith)
            requires
                chunk_size <= 0xffff_ffff_ffff_ffffint,
        ;
    }
    let wide: u128 = (chunk_size as u128) * (percentage as u128) + 50;
    let r: u128 = wide / 100;
    r as usize
}

/// A count `m` of windows of width `step` that starts below `n` and reaches
/// it is the rounded-up quotient.
proof fn lemma_window_count(n: nat, step: nat, m: nat)
    requires
        step > 0,
        m > 0,
        (m - 1) * step < n,
        n <= m * step,
    ensures
        window_count(n, step) == m,
{
    let q = ((n + step - 1) as nat) / step;
    let r = ((n + step - 1) as nat) % step;
    vstd::arithmetic::div_mod::lemma_fundamental_div_mod((n + step - 1) as int, step as int);
    assert((m - 1) * step == m * step - step) by (nonlinear_arith);
    if q > m {
        assert(q * step >= (m + 1) * step) by (nonlinear_arith)
            requires
                q > m,
                step > 0,
        ;
        assert((m + 1) * step == m * step + step) by (nonlinear_arith);
    } else if q < m {
        assert(q * step <= (m - 1) * step) by (nonlinear_arith)
            requires
                q < m,
                step > 0,
        ;
    }
}

/// Splits `text` into chunks of at most `chunk_size` characters. Each chunk
/// after the first begins `step_size` characters after the one before it,
/// so neighbouring chunks share the requested percentage of `chunk_size`.
/// An empty text or a zero chunk size gives no chunks; a text that fits in
/// one chunk comes back whole.
pub fn chunk_text(text: &str, chunk_size: usize, options: Option<ChunkOptions>) -> (r: Vec<
    String,
>)
    ensures
        r.len() == chunks_of(text@, chunk_size as nat, requested_percentage(options)).len(),
        forall|i: int|
            0 <= i < r.len() ==> #[trigger] r[i]@ == chunks_of(
                text@,
                chunk_size as nat,
                requested_percentage(options),
            )[i],
{
    if text.is_empty() || chunk_size == 0 {
        return Vec::new();
    }
    let requested: u8 = match options {
        Some(o) => o.overlap_percentage,
        None => 0,
    };
    let percentage: u8 = if requested > MAX_OVERLAP_PERCENTAGE {
        MAX_OVERLAP_PERCENTAGE
    } else {
        requested
    };
    let chars = collect_chars(text);
    let total = chars.len();
    if total <= chunk_size {
        let mut whole: Vec<String> = Vec::new();
        whole.push(text.to_owned());
        return whole;
    }
    let ghost s = text@;
    let ghost p = requested_percentage(options);
    let overlap = overlap_for(chunk_size, percentage);
    let step: usize = if overlap >= chunk_size {
        1
    } else {
        chunk_size - overlap
    };
    let mut chunks: Vec<String> = Vec::new();
    let mut start: usize = 0;
    assert(chunks.len() as int * step as int == 0) by (nonlinear_arith)
        requires
            chunks.len() == 0,
    ;
    loop
        invariant_except_break
            start < total,
            start as int == chunks.len() as int * step as int,
        invariant
            s == chars@,
            total == s.len(),
            chunk_size < total,
            1 <= step <= chunk_size,
            step == step_size(chunk_size as nat, p),
            forall|i: int|
                0 <= i < chunks.len() ==> #[trigger] chunks[i]@ == window(
                    s,
                    chunk_size as nat,
                    step as nat,
                    i,
                ),
        ensures
            chunks.len() == window_count(total as nat, step as nat),
            forall|i: int|
                0 <= i < chunks.len() ==> #[trigger] chunks[i]@ == window(
                    s,
                    chunk_size as nat,
                    step as nat,
                    i,
                ),
        decreases total - start,
    {
        let end: usize = if chunk_size >= total - start {
            total
        } else {
            start + chunk_size
        };
        let piece = string_of_range(&chars, start, end);
        let ghost k = chunks.len() as int;
        chunks.push(piece);
        assert(chunks[k]@ == window(s, chunk_size as nat, step as nat, k));
        assert((k + 1) * step == k * step + step) by (nonlinear_arith);
        if step >= total - start {
            proof {
                lemma_window_count(total as nat, step as nat, chunks.len() as nat);
            }
            break ;
        }
        start = start + step;
    }
    chunks
}

} // verus!

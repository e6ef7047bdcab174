use vstd::prelude::*;

use crate::lanes::{converted_in_lanes, lemma_in_lanes_keeps_order, stages_lanewise, Lanes};

verus! {

/// Number of elements the chunk engine converts in one call.
pub const LANES: usize = 8;

/// Number of chunks an input of `n` elements is split into: the full chunks,
/// plus one partial chunk when `n` is not a multiple of the lane width.
pub open spec fn chunk_count(n: int) -> int {
    (n + 7) / 8
}

/// The `k`-th chunk of `input` as it is handed to the engine: the eight
/// elements starting at `8 * k`, with `pad` in every slot past the end.
pub open spec fn padded_chunk<T>(input: Seq<T>, pad: T, k: int) -> Seq<T> {
    Seq::new(8, |j: int| if 8 * k + j < input.len() { input[8 * k + j] } else { pad })
}

/// `out` holds, at the positions of the `k`-th chunk of `input`, the first lanes
/// of one result that `engine` may give for that padded chunk.
pub open spec fn chunk_converted<T, U, F: Fn([T; 8]) -> [U; 8]>(
    engine: F,
    input: Seq<T>,
    pad: T,
    out: Seq<U>,
    k: int,
) -> bool {
    exists|c: [T; 8], r: [U; 8]|
        #![trigger engine.ensures((c,), r)]
        c@ == padded_chunk(input, pad, k) && engine.ensures((c,), r) && forall|j: int|
            0 <= j < 8 && 8 * k + j < input.len() ==> out[8 * k + j] == r[j]
}

/// `out` is what the chunked driver makes of `input`: one element per input
/// element, and every chunk converted by `engine`.
pub open spec fn converted_in_chunks<T, U, F: Fn([T; 8]) -> [U; 8]>(
    engine: F,
    input: Seq<T>,
    pad: T,
    out: Seq<U>,
) -> bool {
    &&& out.len() == input.len()
    &&& forall|k: int|
        0 <= k < chunk_count(input.len() as int) ==> #[trigger] chunk_converted(
            engine,
            input,
            pad,
            out,
            k,
        )
}

/// `out` holds, for each element of `input`, one result that `f` may give for it.
pub open spec fn converted_each<T, U, F: Fn(T) -> U>(f: F, input: Seq<T>, out: Seq<U>) -> bool {
    &&& out.len() == input.len()
    &&& forall|i: int| 0 <= i < input.len() ==> f.ensures((input[i],), #[trigger] out[i])
}

/// Every lane of every result of `engine` is `f` of the same lane of its input:
/// no lane reads another, and no lane is moved.
pub open spec fn lanewise<T, U, F: Fn([T; 8]) -> [U; 8]>(engine: F, f: spec_fn(T) -> U) -> bool {
    forall|c: [T; 8], r: [U; 8], j: int|
        #![trigger engine.ensures((c,), r), r[j]]
        engine.ensures((c,), r) && 0 <= j < 8 ==> r[j] == f(c[j])
}

/// Element `base + j` of `input` if it exists, else `pad`.
fn element_or<T: Copy>(input: &[T], base: usize, j: usize, pad: T) -> (r: T)
    requires
        base <= input@.len(),
    ensures
        r == (if base + j < input@.len() { input@[base + j] } else { pad }),
{
    if j < input.len() - base {
        input[base + j]
    } else {
        pad
    }
}

/// Builds the padded chunk that starts at `base`.
fn chunk_at<T: Copy>(input: &[T], base: usize, pad: T) -> (c: [T; 8])
    requires
        base % 8 == 0,
        base <= input@.len(),
    ensures
        c@ == padded_chunk(input@, pad, base as int / 8),
{
    let c: [T; 8] = [
        element_or(input, base, 0, pad),
        element_or(input, base, 1, pad),
        element_or(input, base, 2, pad),
        element_or(input, base, 3, pad),
        element_or(input, base, 4, pad),
        element_or(input, base, 5, pad),
        element_or(input, base, 6, pad),
        element_or(input, base, 7, pad),
    ];
    assert(c@ =~= padded_chunk(input@, pad, base as int / 8));
    c
}

/// Converts `input` of any length with an engine that takes exactly eight
/// elements at a time.
///
/// The input is split into full chunks of eight, converted in order. A final
/// partial chunk is filled up with `pad` and sent through the same engine, so
/// that every element is computed the same way; only the lanes that stand for
/// real elements are kept. The output has one element per input element, in
/// input order.
pub fn convert_chunked<T: Copy, U: Copy, F: Fn([T; 8]) -> [U; 8]>(
    input: &[T],
    pad: T,
    engine: &F,
) -> (out: Vec<U>)
    requires
        forall|c: [T; 8]| engine.requires((c,)),
    ensures
        converted_in_chunks(*engine, input@, pad, out@),
{
    let n: usize = input.len();
    let mut out: Vec<U> = Vec::with_capacity(n);
    let mut base: usize = 0;
    while base < n
        invariant
            n == input@.len(),
            forall|c: [T; 8]| engine.requires((c,)),
            base <= n,
            base % 8 == 0 || base == n,
            out@.len() == base,
            forall|k: int|
                0 <= k < chunk_count(base as int) ==> #[trigger] chunk_converted(
                    *engine,
                    input@,
                    pad,
                    out@,
                    k,
                ),
        decreases n - base,
    {
        let c: [T; 8] = chunk_at(input, base, pad);
        let r: [U; 8] = engine(c);
        let take: usize = if n - base < LANES { n - base } else { LANES };
        let ghost before = out@;
        let mut j: usize = 0;
        while j < take
            invariant
                take <= 8,
                base + take <= n,
                j <= take,
                before.len() == base,
                out@.len() == base + j,
                out@.subrange(0, base as int) == before,
                forall|i: int| 0 <= i < j ==> out@[base + i] == r[i],
            decreases take - j,
        {
            out.push(r[j]);
            j += 1;
        }
        proof {
            let k = base as int / 8;
            assert(8 * k == base);
            assert forall|kk: int| 0 <= kk < k implies #[trigger] chunk_converted(
                *engine,
                input@,
                pad,
                out@,
                kk,
            ) by {
                assert(chunk_count(base as int) == k);
                assert(chunk_converted(*engine, input@, pad, before, kk));
                let (c0, r0) = choose|c0: [T; 8], r0: [U; 8]|
                    #![trigger engine.ensures((c0,), r0)]
                    c0@ == padded_chunk(input@, pad, kk) && engine.ensures((c0,), r0) && forall|
                        jj: int,
                    |
                        0 <= jj < 8 && 8 * kk + jj < input@.len() ==> before[8 * kk + jj]
                            == r0[jj];
                assert forall|jj: int| 0 <= jj < 8 && 8 * kk + jj < input@.len() implies out@[8
                    * kk + jj] == r0[jj] by {
                    assert(8 * kk + jj < base);
                    assert(out@[8 * kk + jj] == out@.subrange(0, base as int)[8 * kk + jj]);
                }
            }
            assert forall|jj: int| 0 <= jj < 8 && 8 * k + jj < input@.len() implies out@[8 * k
                + jj] == r[jj] by {
                assert(jj < take);
                assert(out@[base + jj] == r[jj]);
            }
            assert(chunk_converted(*engine, input@, pad, out@, k));
            assert(chunk_count(base + take) == k + 1);
        }
        base = base + take;
    }
    out
}

/// Converts each element of `input` on its own with `f`, in order.
pub fn convert_each<T: Copy, U, F: Fn(T) -> U>(input: &[T], f: &F) -> (out: Vec<U>)
    requires
        forall|x: T| f.requires((x,)),
    ensures
        converted_each(*f, input@, out@),
{
    let n: usize = input.len();
    let mut out: Vec<U> = Vec::with_capacity(n);
    let mut i: usize = 0;
    while i < n
        invariant
            n == input@.len(),
            forall|x: T| f.requires((x,)),
            i <= n,
            out@.len() == i,
            forall|m: int| 0 <= m < i ==> f.ensures((input@[m],), #[trigger] out@[m]),
        decreases n - i,
    {
        let y = f(input[i]);
        out.push(y);
        i += 1;
    }
    out
}

/// A chunked conversion with a lane-wise engine is the element-wise map of the
/// input: element `i` of the output is computed from element `i` of the input,
/// so outputs keep the order of inputs, and the padding of the last chunk never
/// reaches a real element.
pub proof fn lemma_chunked_keeps_order<T, U, F: Fn([T; 8]) -> [U; 8]>(
    engine: F,
    f: spec_fn(T) -> U,
    input: Seq<T>,
    pad: T,
    out: Seq<U>,
)
    requires
        lanewise(engine, f),
        converted_in_chunks(engine, input, pad, out),
    ensures
        out == input.map_values(f),
{
    assert forall|i: int| 0 <= i < input.len() implies out[i] == f(input[i]) by {
        let k = i / 8;
        let j = i % 8;
        assert(0 <= k < chunk_count(input.len() as int));
        assert(chunk_converted(engine, input, pad, out, k));
        let (c, r) = choose|c: [T; 8], r: [U; 8]|
            #![trigger engine.ensures((c,), r)]
            c@ == padded_chunk(input, pad, k) && engine.ensures((c,), r) && forall|jj: int|
                0 <= jj < 8 && 8 * k + jj < input.len() ==> out[8 * k + jj] == r[jj];
        assert(8 * k + j == i);
        assert(out[8 * k + j] == r[j]);
        assert(r[j] == f(c[j]));
        assert(c[j] == c@[j]);
    }
    assert(out =~= input.map_values(f));
}

/// Parity of the two drivers: when every lane of the chunk engine gives a result
/// that the element-wise function gives for that lane, and that function has
/// one result per input, the chunked driver and the element-wise driver produce
/// the same output for the same input, whatever its length.
pub proof fn lemma_chunked_matches_each<T, U, F: Fn([T; 8]) -> [U; 8], G: Fn(T) -> U>(
    engine: F,
    f: G,
    input: Seq<T>,
    pad: T,
    chunked: Seq<U>,
    each: Seq<U>,
)
    requires
        forall|c: [T; 8], r: [U; 8], j: int|
            #![trigger engine.ensures((c,), r), r[j]]
            engine.ensures((c,), r) && 0 <= j < 8 ==> f.ensures((c[j],), r[j]),
        forall|x: T, y1: U, y2: U|
            #![trigger f.ensures((x,), y1), f.ensures((x,), y2)]
            f.ensures((x,), y1) && f.ensures((x,), y2) ==> y1 == y2,
        converted_in_chunks(engine, input, pad, chunked),
        converted_each(f, input, each),
    ensures
        chunked == each,
{
    assert forall|i: int| 0 <= i < input.len() implies chunked[i] == each[i] by {
        let k = i / 8;
        let j = i % 8;
        assert(chunk_converted(engine, input, pad, chunked, k));
        let (c, r) = choose|c: [T; 8], r: [U; 8]|
            #![trigger engine.ensures((c,), r)]
            c@ == padded_chunk(input, pad, k) && engine.ensures((c,), r) && forall|jj: int|
                0 <= jj < 8 && 8 * k + jj < input.len() ==> chunked[8 * k + jj] == r[jj];
        assert(8 * k + j == i);
        assert(c[j] == c@[j]);
        assert(f.ensures((c[j],), r[j]));
        assert(f.ensures((input[i],), each[i]));
    }
    assert(chunked =~= each);
}

/// A chunk engine that converts each chunk in lanes, with stages that compute
/// `g` in every lane, is lane-wise by `g`; with the chunked driver it then
/// gives `g` of each element in input order.
pub proof fn lemma_lanes_engine_is_lanewise<
    T,
    U,
    F: Fn([[T; 3]; 8]) -> [[U; 3]; 8],
    S: Fn(Lanes<T>) -> Lanes<U>,
>(engine: F, stages: S, g: spec_fn([T; 3]) -> [U; 3])
    requires
        stages_lanewise(stages, g),
        forall|c: [[T; 3]; 8], r: [[U; 3]; 8]|
            #![trigger engine.ensures((c,), r)]
            engine.ensures((c,), r) ==> converted_in_lanes(stages, c, r),
    ensures
        lanewise(engine, g),
{
    assert forall|c: [[T; 3]; 8], r: [[U; 3]; 8], j: int|
        #![trigger engine.ensures((c,), r), r[j]]
        engine.ensures((c,), r) && 0 <= j < 8 implies r[j] == g(c[j]) by {
        lemma_in_lanes_keeps_order(stages, g, c, r);
    }
}

} // verus!

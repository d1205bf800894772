//! Chunking of slices where a short final chunk is folded into the one
//! before it, so no chunk is ever shorter than the requested size.

use vstd::prelude::*;

use vstd::arithmetic::div_mod::lemma_fundamental_div_mod;
use vstd::arithmetic::mul::lemma_mul_inequality;

verus! {

/// How many chunks [`chunk_with_merge`] produces: none for an empty slice,
/// one when everything fits, else one chunk per full `chunk_size` with the
/// remainder folded into the last.
pub open spec fn spec_chunk_count(len: int, chunk_size: int) -> int
    recommends
        chunk_size >= 1,
{
    if len == 0 {
        0
    } else if len <= chunk_size {
        1
    } else {
        len / chunk_size
    }
}

/// The `i`-th chunk: `chunk_size` elements starting at `i * chunk_size`,
/// except that the final chunk runs to the end of the slice.
pub open spec fn spec_chunk<T>(s: Seq<T>, chunk_size: int, i: int) -> Seq<T>
    recommends
        chunk_size >= 1,
        0 <= i < spec_chunk_count(s.len() as int, chunk_size),
{
    if i == spec_chunk_count(s.len() as int, chunk_size) - 1 {
        s.subrange(i * chunk_size, s.len() as int)
    } else {
        s.subrange(i * chunk_size, (i + 1) * chunk_size)
    }
}

/// Splits a slice into chunks of `chunk_size` elements; when the final
/// chunk would fall short of `chunk_size`, it is merged into the chunk
/// before it. A slice no longer than `chunk_size` yields itself as the
/// only chunk; an empty slice yields no chunks.
pub fn chunk_with_merge<T: Copy>(vec: &[T], chunk_size: usize) -> (r: Vec<Vec<T>>)
    requires
        chunk_size >= 1,
    ensures
        vec@.len() == 0 ==> r@.len() == 0,
        0 < vec@.len() <= chunk_size ==> r@.len() == 1 && r@[0]@ == vec@,
        vec@.len() > chunk_size ==> ({
            let m = vec@.len() as int / chunk_size as int;
            &&& r@.len() == m
            &&& (forall|i: int|
                #![trigger r@[i]]
                0 <= i < m - 1 ==> r@[i]@ == vec@.subrange(
                    i * chunk_size,
                    (i + 1) * chunk_size as int,
                ))
            &&& r@[m - 1]@ == vec@.subrange((m - 1) * chunk_size, vec@.len() as int)
        }),
{
    let len = vec.len();
    let mut chunks: Vec<Vec<T>> = Vec::new();
    if len == 0 {
        return chunks;
    }
    if len <= chunk_size {
        let whole = copy_range(vec, 0, len);
        proof {
            assert(whole@ =~= vec@);
        }
        chunks.push(whole);
        return chunks;
    }
    let m = len / chunk_size;
    proof {
        lemma_fundamental_div_mod(len as int, chunk_size as int);
        vstd::arithmetic::div_mod::lemma_mod_bound(len as int, chunk_size as int);
        assert(m >= 1) by {
            vstd::arithmetic::div_mod::lemma_div_is_ordered(
                chunk_size as int,
                len as int,
                chunk_size as int,
            );
            vstd::arithmetic::div_mod::lemma_div_multiples_vanish(1, chunk_size as int);
        }
        assert(chunk_size as int * m <= len);
    }
    let mut i: usize = 0;
    while i < m
        invariant
            len == vec@.len(),
            chunk_size >= 1,
            len > chunk_size,
            m == len as int / chunk_size as int,
            m >= 1,
            chunk_size as int * m <= len,
            i <= m,
            chunks@.len() == i,
            forall|j: int|
                #![trigger chunks@[j]]
                0 <= j < i ==> chunks@[j]@ == spec_chunk(vec@, chunk_size as int, j),
        decreases m - i,
    {
        proof {
            assert((i as int + 1) * chunk_size as int <= m * chunk_size as int) by {
                lemma_mul_inequality(i as int + 1, m as int, chunk_size as int);
            }
            assert(m * chunk_size as int == chunk_size as int * m) by (nonlinear_arith);
            assert(i as int * chunk_size as int + chunk_size as int == (i as int + 1)
                * chunk_size as int) by (nonlinear_arith);
        }
        let start = i * chunk_size;
        let end = if i + 1 == m {
            len
        } else {
            start + chunk_size
        };
        let chunk = copy_range(vec, start, end);
        proof {
            assert(chunk@ =~= spec_chunk(vec@, chunk_size as int, i as int));
        }
        chunks.push(chunk);
        i = i + 1;
    }
    chunks
}

/// Copies `vec[start..end]` into a fresh vector.
fn copy_range<T: Copy>(vec: &[T], start: usize, end: usize) -> (r: Vec<T>)
    requires
        start <= end <= vec@.len(),
    ensures
        r@ == vec@.subrange(start as int, end as int),
{
    let mut out: Vec<T> = Vec::new();
    let mut i = start;
    while i < end
        invariant
            start <= i <= end <= vec@.len(),
            out@ =~= vec@.subrange(start as int, i as int),
        decreases end - i,
    {
        out.push(*vstd::slice::slice_index_get(vec, i));
        proof {
            assert(out@ =~= vec@.subrange(start as int, i as int + 1));
        }
        i = i + 1;
    }
    proof {
        assert(out@ =~= vec@.subrange(start as int, end as int));
    }
    out
}

} // verus!

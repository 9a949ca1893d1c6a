//! Pixel bookkeeping for the render scheduler.
//!
//! An image is a grid of `height` scanlines of `width` pixels each, stored
//! scanline-major: the pixel at column `x` of row `y` sits at flat index
//! `y * width + x`.  Workers render disjoint runs of scanlines; their results
//! are put back together in row order, so the finished buffer is in
//! scanline-major order no matter how the work was interleaved.

use vstd::prelude::*;
use vstd::arithmetic::div_mod::{
    lemma_div_pos_is_pos, lemma_fundamental_div_mod, lemma_mod_bound,
};
use vstd::arithmetic::mul::{
    lemma_mul_inequality, lemma_mul_is_commutative, lemma_mul_is_distributive_add,
};

verus! {

/// Flat position of the pixel at column `x` of row `y` in a scanline-major
/// buffer of `width`-pixel rows.
pub open spec fn row_major_index(y: int, x: int, width: int) -> int {
    y * width + x
}

/// Flat index of pixel (`x`, `y`) in a scanline-major buffer.
pub fn pixel_index(y: usize, x: usize, width: usize) -> (i: usize)
    requires
        x < width,
        row_major_index(y as int, x as int, width as int) <= usize::MAX,
    ensures
        i == row_major_index(y as int, x as int, width as int),
{
    y * width + x
}

/// Distinct pixels of the grid have distinct flat indices, so a scheduler
/// that writes each pixel at its own index writes every slot exactly once.
pub proof fn lemma_row_major_index_injective(y1: int, x1: int, y2: int, x2: int, width: int)
    requires
        0 <= x1 < width,
        0 <= x2 < width,
        0 <= y1,
        0 <= y2,
        row_major_index(y1, x1, width) == row_major_index(y2, x2, width),
    ensures
        y1 == y2 && x1 == x2,
{
    assert(y1 * width + x1 == y2 * width + x2);
    assert(y1 == y2 && x1 == x2) by (nonlinear_arith)
        requires
            0 <= x1 < width,
            0 <= x2 < width,
            y1 * width + x1 == y2 * width + x2,
    ;
}

/// First scanline of the chunk handed to worker `i`, out of `workers`
/// workers sharing an image of `height` scanlines: every worker gets
/// `height / workers` whole scanlines, and the rows that do not divide
/// evenly go to the last worker.
pub open spec fn chunk_start(i: int, height: int, workers: int) -> int
    recommends
        1 <= workers,
{
    i * (height / workers)
}

/// One past the last scanline of the chunk handed to worker `i`.
pub open spec fn chunk_end(i: int, height: int, workers: int) -> int
    recommends
        1 <= workers,
{
    if i + 1 < workers {
        (i + 1) * (height / workers)
    } else {
        height
    }
}

/// The chunks split the scanlines `0..height` into consecutive runs: the
/// first starts at row zero, each ends where the next begins, and the last
/// ends at the image's bottom edge.
pub proof fn lemma_chunks_partition(height: int, workers: int)
    requires
        0 <= height,
        1 <= workers,
    ensures
        chunk_start(0, height, workers) == 0,
        chunk_end(workers - 1, height, workers) == height,
        forall|i: int|
            0 <= i < workers ==> 0 <= #[trigger] chunk_start(i, height, workers) <= chunk_end(
                i,
                height,
                workers,
            ) <= height,
        forall|i: int|
            0 <= i < workers - 1 ==> #[trigger] chunk_end(i, height, workers) == chunk_start(
                i + 1,
                height,
                workers,
            ),
{
    let q = height / workers;
    lemma_div_pos_is_pos(height, workers);
    lemma_fundamental_div_mod(height, workers);
    lemma_mod_bound(height, workers);
    assert(workers * q <= height);
    assert forall|i: int|
        0 <= i < workers implies 0 <= #[trigger] chunk_start(i, height, workers) <= chunk_end(
        i,
        height,
        workers,
    ) <= height by {
        lemma_mul_inequality(0, i, q);
        lemma_mul_inequality(i, i + 1, q);
        lemma_mul_inequality(i + 1, workers, q);
        assert(workers * q == q * workers) by (nonlinear_arith);
    }
}

/// Chunks of different workers share no scanline: an earlier chunk ends at
/// or before where a later one starts.
pub proof fn lemma_chunks_disjoint(height: int, workers: int, i: int, j: int)
    requires
        0 <= height,
        1 <= workers,
        0 <= i < j < workers,
    ensures
        chunk_end(i, height, workers) <= chunk_start(j, height, workers),
{
    let q = height / workers;
    lemma_div_pos_is_pos(height, workers);
    lemma_mul_inequality(i + 1, j, q);
}

/// Every scanline of the image belongs to some worker's chunk; together
/// with [`lemma_chunks_disjoint`], to exactly one.
pub proof fn lemma_every_row_in_a_chunk(height: int, workers: int, y: int)
    requires
        1 <= workers,
        0 <= y < height,
    ensures
        exists|i: int|
            0 <= i < workers && #[trigger] chunk_start(i, height, workers) <= y < chunk_end(
                i,
                height,
                workers,
            ),
{
    let q = height / workers;
    lemma_div_pos_is_pos(height, workers);
    if q == 0 {
        let last = workers - 1;
        lemma_chunks_partition(height, workers);
        assert(chunk_start(last, height, workers) <= y < chunk_end(last, height, workers));
    } else {
        lemma_fundamental_div_mod(y, q);
        lemma_mod_bound(y, q);
        let j = y / q;
        lemma_div_pos_is_pos(y, q);
        lemma_mul_is_commutative(j, q);
        assert(q * j <= y);
        if j < workers - 1 {
            lemma_mul_is_commutative(j + 1, q);
            lemma_mul_is_distributive_add(q, j, 1);
            assert(y < (j + 1) * q);
            assert(chunk_start(j, height, workers) <= y < chunk_end(j, height, workers));
        } else {
            let last = workers - 1;
            lemma_mul_inequality(last, j, q);
            assert(chunk_start(last, height, workers) <= y);
            assert(chunk_end(last, height, workers) == height);
            assert(chunk_start(last, height, workers) <= y < chunk_end(last, height, workers));
        }
    }
}

/// Cut the scanlines `0..height` into one `(start, end)` row range per
/// worker, in row order.
pub fn chunk_bounds(height: usize, workers: usize) -> (bounds: Vec<(usize, usize)>)
    requires
        1 <= workers,
    ensures
        bounds@.len() == workers,
        forall|i: int|
            0 <= i < workers ==> (#[trigger] bounds@[i]).0 == chunk_start(
                i,
                height as int,
                workers as int,
            ),
        forall|i: int|
            0 <= i < workers ==> (#[trigger] bounds@[i]).1 == chunk_end(
                i,
                height as int,
                workers as int,
            ),
{
    let q: usize = height / workers;
    let mut bounds: Vec<(usize, usize)> = Vec::new();
    let mut i: usize = 0;
    while i < workers
        invariant
            i <= workers,
            1 <= workers,
            q == height as int / workers as int,
            bounds@.len() == i,
            forall|k: int|
                0 <= k < i ==> (#[trigger] bounds@[k]).0 == chunk_start(
                    k,
                    height as int,
                    workers as int,
                ),
            forall|k: int|
                0 <= k < i ==> (#[trigger] bounds@[k]).1 == chunk_end(
                    k,
                    height as int,
                    workers as int,
                ),
        decreases workers - i,
    {
        proof {
            lemma_chunks_partition(height as int, workers as int);
            assert(chunk_start(i as int, height as int, workers as int) <= height);
            assert(i + 1 < workers ==> chunk_end(i as int, height as int, workers as int)
                <= height);
        }
        let start: usize = i * q;
        let end: usize = if i + 1 < workers {
            (i + 1) * q
        } else {
            height
        };
        bounds.push((start, end));
        i = i + 1;
    }
    bounds
}

/// The contents of a list of chunks, as mathematical sequences.
pub open spec fn chunk_views<T>(chunks: Seq<Vec<T>>) -> Seq<Seq<T>> {
    chunks.map_values(|c: Vec<T>| c@)
}

/// Join the finished chunks back into one buffer, in chunk order.  With the
/// chunks in worker order this puts every pixel at its scanline-major
/// position, whatever order the workers finished in.
pub fn assemble<T>(chunks: Vec<Vec<T>>) -> (out: Vec<T>)
    ensures
        out@ == chunk_views(chunks@).flatten(),
{
    let ghost all = chunks@;
    let mut rest = chunks;
    let mut out: Vec<T> = Vec::new();
    proof {
        assert(rest@ =~= all.subrange(0, all.len() as int));
        assert(chunk_views(all.subrange(0, 0)) =~= Seq::<Seq<T>>::empty());
    }
    while rest.len() > 0
        invariant
            rest@.len() <= all.len(),
            rest@ == all.subrange(all.len() - rest@.len(), all.len() as int),
            out@ == chunk_views(all.subrange(0, all.len() - rest@.len())).flatten(),
        decreases rest@.len(),
    {
        let ghost i = all.len() - rest@.len();
        proof {
            assert(all.subrange(i as int, all.len() as int)[0] == all[i as int]);
        }
        let mut chunk = rest.remove(0);
        proof {
            assert(rest@ =~= all.subrange(i + 1, all.len() as int));
            assert(chunk_views(all.subrange(0, i + 1)) =~= chunk_views(
                all.subrange(0, i as int),
            ).push(all[i as int]@));
            chunk_views(all.subrange(0, i as int)).lemma_flatten_push(all[i as int]@);
        }
        out.append(&mut chunk);
    }
    proof {
        assert(all.subrange(0, all.len() as int) =~= all);
    }
    out
}

/// Cut positions are ordered along the whole buffer.
proof fn lemma_cuts_sorted(cuts: Seq<int>, i: int, j: int)
    requires
        forall|k: int| 0 <= k < cuts.len() - 1 ==> #[trigger] cuts[k] <= cuts[k + 1],
        0 <= i <= j < cuts.len(),
    ensures
        cuts[i] <= cuts[j],
    decreases j - i,
{
    if i < j {
        lemma_cuts_sorted(cuts, i, j - 1);
        assert(cuts[j - 1] <= cuts[j - 1 + 1]);
    }
}

/// Consecutive slices of a buffer, concatenated in order, give back the
/// buffer: the cut positions climb from its start to its end, each part is
/// the slice between its cut and the next, and flattening restores the
/// whole.
pub proof fn lemma_slices_flatten_to_whole<T>(whole: Seq<T>, parts: Seq<Seq<T>>, cuts: Seq<int>)
    requires
        cuts.len() == parts.len() + 1,
        cuts[0] == 0,
        cuts[parts.len() as int] == whole.len(),
        forall|k: int| 0 <= k < parts.len() ==> #[trigger] cuts[k] <= cuts[k + 1],
        forall|k: int|
            0 <= k < parts.len() ==> #[trigger] parts[k] == whole.subrange(cuts[k], cuts[k + 1]),
    ensures
        parts.flatten() == whole,
    decreases parts.len(),
{
    if parts.len() == 0 {
        assert(whole =~= Seq::<T>::empty());
        assert(parts.flatten() =~= whole);
    } else {
        let n = parts.len() as int;
        lemma_cuts_sorted(cuts, 0, 1);
        lemma_cuts_sorted(cuts, 1, n);
        let head = parts.first();
        let tail_whole = whole.subrange(cuts[1], whole.len() as int);
        let tail_parts = parts.drop_first();
        let tail_cuts = Seq::new((cuts.len() - 1) as nat, |k: int| cuts[k + 1] - cuts[1]);
        assert forall|k: int| 0 <= k < tail_parts.len() implies #[trigger] tail_parts[k]
            == tail_whole.subrange(tail_cuts[k], tail_cuts[k + 1]) by {
            lemma_cuts_sorted(cuts, 1, k + 1);
            lemma_cuts_sorted(cuts, k + 2, n);
            assert(parts[k + 1] == whole.subrange(cuts[k + 1], cuts[k + 2]));
            assert(tail_whole.subrange(tail_cuts[k], tail_cuts[k + 1]) =~= whole.subrange(
                cuts[k + 1],
                cuts[k + 2],
            ));
        }
        lemma_slices_flatten_to_whole(tail_whole, tail_parts, tail_cuts);
        assert(parts.flatten() == head + tail_parts.flatten());
        assert(head + tail_whole =~= whole);
    }
}

/// The scheduler's ordering guarantee: when worker `i` renders exactly the
/// scanlines of its chunk, in row order, joining the chunks in worker order
/// restores the scanline-major image, however the work was interleaved.
pub proof fn lemma_chunks_reassemble_image<T>(
    image: Seq<T>,
    parts: Seq<Seq<T>>,
    height: int,
    width: int,
    workers: int,
)
    requires
        0 <= width,
        0 <= height,
        1 <= workers,
        image.len() == height * width,
        parts.len() == workers,
        forall|i: int|
            0 <= i < workers ==> #[trigger] parts[i] == image.subrange(
                chunk_start(i, height, workers) * width,
                chunk_end(i, height, workers) * width,
            ),
    ensures
        parts.flatten() == image,
{
    lemma_chunks_partition(height, workers);
    let cuts = Seq::new((workers + 1) as nat, |i: int| chunk_end(i - 1, height, workers) * width);
    assert(chunk_end(-1, height, workers) == 0);
    assert(cuts[0] == 0);
    assert(cuts[workers] == height * width);
    assert forall|k: int| 0 <= k < workers implies #[trigger] cuts[k] <= cuts[k + 1] by {
        assert(chunk_end(k - 1, height, workers) == chunk_start(k, height, workers));
        assert(chunk_end(k - 1, height, workers) <= chunk_end(k, height, workers));
        lemma_mul_inequality(chunk_end(k - 1, height, workers), chunk_end(k, height, workers), width);
    }
    assert forall|k: int| 0 <= k < workers implies #[trigger] parts[k] == image.subrange(
        cuts[k],
        cuts[k + 1],
    ) by {
        assert(chunk_end(k - 1, height, workers) == chunk_start(k, height, workers));
    }
    lemma_slices_flatten_to_whole(image, parts, cuts);
}

} // verus!

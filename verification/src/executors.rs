//! Per-variant stage executors: iterate the canvas row by row in chunks,
//! hand each chunk to the stage, and place the produced rows.

use vstd::prelude::*;

verus! {

use crate::image::WideImage;
use vstd::arithmetic::power2::pow2;
use crate::stage::{RenderPipelineStage, StageKind, chunk_shaped, mirror, mirror_spec};

/// Every buffer in the list is well-formed.
pub open spec fn bufs_wf(bufs: Seq<WideImage>) -> bool {
    forall|k: int| 0 <= k < bufs.len() ==> (#[trigger] bufs[k]).wf()
}

/// Every entry of `used` indexes into a list of `n` buffers.
pub open spec fn used_in_range(used: Seq<usize>, n: int) -> bool {
    forall|j: int| 0 <= j < used.len() ==> (#[trigger] used[j]) < n
}

/// All used buffers share the size `size`.
pub open spec fn sizes_all(bufs: Seq<WideImage>, used: Seq<usize>, size: (usize, usize)) -> bool {
    forall|j: int|
        0 <= j < used.len() ==> (#[trigger] bufs[used[j] as int]).size_spec() == size
}

/// Whether channel `c` occurs in `used`.
pub open spec fn is_used(used: Seq<usize>, c: int) -> bool {
    exists|j: int| 0 <= j < used.len() && used[j] == c
}

/// The stage kept its static attributes across a call.
pub open spec fn same_stage_shape<S: RenderPipelineStage>(a: S, b: S) -> bool {
    &&& b.kind_spec() == a.kind_spec()
    &&& b.input_type_spec() == a.input_type_spec()
    &&& b.output_type_spec() == a.output_type_spec()
    &&& b.shift_spec() == a.shift_spec()
    &&& b.border_spec() == a.border_spec()
    &&& b.origin_spec() == a.origin_spec()
    &&& forall|c: int| b.uses_channel_spec(c) == a.uses_channel_spec(c)
    &&& forall|s: (int, int)| b.new_size_spec(s) == a.new_size_spec(s)
}

/// The stage type transforms every chunk into itself.
pub open spec fn stage_is_identity<S: RenderPipelineStage>() -> bool {
    forall|st: S, p: (int, int), xs: int, inp: Seq<Seq<Seq<u64>>>|
        #[trigger] st.process_spec(p, xs, inp) == inp
}


/// Entries of `used` are strictly increasing channel indices.
pub open spec fn strictly_increasing(used: Seq<usize>) -> bool {
    forall|a: int, b: int| 0 <= a < b < used.len() ==> used[a] < used[b]
}

/// Width of the row chunk that starts at column `x` of a `w`-wide canvas.
pub open spec fn chunk_width(w: int, chunk: int, x: int) -> int {
    if chunk <= w - x {
        chunk
    } else {
        w - x
    }
}

/// Start of the row chunk that contains column `px`.
pub open spec fn chunk_start(chunk: int, px: int) -> int {
    (px / chunk) * chunk
}

/// Chunk starts are the multiples of the chunk width.
proof fn lemma_chunk_start(chunk: int, x: int, px: int)
    requires
        1 <= chunk,
        0 <= x,
        x % chunk == 0,
        x <= px < x + chunk,
    ensures
        chunk_start(chunk, px) == x,
{
    vstd::arithmetic::div_mod::lemma_fundamental_div_mod(x, chunk);
    let k = x / chunk;
    assert(chunk * k == k * chunk) by (nonlinear_arith);
    assert(x == k * chunk);
    assert(px / chunk == k) by (nonlinear_arith)
        requires
            chunk >= 1,
            x == k * chunk,
            x <= px < x + chunk,
            k >= 0,
    ;
}

/// The block of single input rows an executor gathers for the used
/// channels at `(x, y)`: one row of `xsize` wide codes per used channel.
pub open spec fn gathered_rows(
    bufs: Seq<WideImage>,
    used: Seq<usize>,
    x: int,
    y: int,
    xsize: int,
) -> Seq<Seq<Seq<u64>>> {
    Seq::new(
        used.len(),
        |c: int|
            seq![
                Seq::new(xsize as nat, |i: int| bufs[used[c] as int].pix(x + i, y))
            ],
    )
}

/// The stage processed every remaining chunk of the used channels' canvas
/// in row-major chunk order, starting at `(x, y)` in state `pre` and ending
/// in state `post`; its state steps through `post_state_spec` at each chunk,
/// over the rows gathered from `bufs`.
pub open spec fn input_chain<S: RenderPipelineStage>(
    pre: S,
    post: S,
    bufs: Seq<WideImage>,
    used: Seq<usize>,
    size: (int, int),
    chunk: int,
    x: int,
    y: int,
) -> bool
    decreases size.1 - y, size.0 - x,
    when 1 <= chunk && 0 <= size.0 && 0 <= x <= size.0 && 0 <= y
{
    if y >= size.1 {
        post == pre
    } else if x >= size.0 {
        input_chain(pre, post, bufs, used, size, chunk, 0, y + 1)
    } else {
        let xs = chunk_width(size.0, chunk, x);
        exists|mid: S|
            #[trigger] pre.post_state_spec(
                mid,
                (x, y),
                xs,
                gathered_rows(bufs, used, x, y, xs),
            ) && input_chain(mid, post, bufs, used, size, chunk, x + xs, y)
    }
}


/// The strictly increasing list of channels a stage uses, among `numc`.
pub open spec fn used_list<S: RenderPipelineStage>(stage: S, numc: int) -> Seq<usize>
    decreases numc,
    when numc >= 0
{
    if numc <= 0 {
        Seq::empty()
    } else {
        used_list(stage, numc - 1) + if stage.uses_channel_spec(numc - 1) {
            seq![(numc - 1) as usize]
        } else {
            Seq::empty()
        }
    }
}


/// Every entry of a stage's used-channel list is below the channel count.
pub proof fn lemma_used_list_range<S: RenderPipelineStage>(stage: S, n: int)
    requires
        0 <= n,
    ensures
        forall|j: int|
            0 <= j < used_list(stage, n).len()
                ==> 0 <= #[trigger] used_list(stage, n)[j] < n,
    decreases n,
{
    if n > 0 {
        lemma_used_list_range(stage, n - 1);
        assert forall|j: int|
            0 <= j < used_list(stage, n).len()
                implies 0 <= #[trigger] used_list(stage, n)[j] < n by {
            if j < used_list(stage, n - 1).len() {
                assert(used_list(stage, n)[j] == used_list(stage, n - 1)[j]);
            }
        }
    }
}

/// A channel occurs in a stage's used-channel list exactly when the stage
/// uses it.
pub proof fn lemma_used_list_members<S: RenderPipelineStage>(stage: S, n: int, k: int)
    requires
        0 <= k < n,
        n <= usize::MAX,
    ensures
        is_used(used_list(stage, n), k) <==> stage.uses_channel_spec(k),
    decreases n,
{
    lemma_used_list_range(stage, n - 1);
    let prev = used_list(stage, n - 1);
    let full = used_list(stage, n);
    let tail = if stage.uses_channel_spec(n - 1) {
        seq![(n - 1) as usize]
    } else {
        Seq::<usize>::empty()
    };
    assert(full == prev + tail);
    assert(full.len() == prev.len() + tail.len());
    assert forall|j: int| 0 <= j < prev.len() implies #[trigger] full[j] == prev[j] by {}
    if k == n - 1 {
        if stage.uses_channel_spec(k) {
            assert(tail[0] == (n - 1) as usize);
            assert(full[prev.len() as int] == tail[0]);
            assert(full[prev.len() as int] == k);
            assert(is_used(full, k));
        } else {
            if is_used(full, k) {
                let j = choose|j: int| 0 <= j < full.len() && full[j] == k;
                assert(j < prev.len());
                assert(prev[j] < n - 1);
                assert(false);
            }
        }
    } else {
        lemma_used_list_members(stage, n - 1, k);
        if stage.uses_channel_spec(k) {
            let j = choose|j: int| 0 <= j < prev.len() && prev[j] == k;
            assert(full[j] == k as usize);
            assert(is_used(full, k));
        } else {
            if is_used(full, k) {
                let j = choose|j: int| 0 <= j < full.len() && full[j] == k;
                if j < prev.len() {
                    assert(prev[j] == k);
                    assert(is_used(prev, k));
                } else {
                    assert(full[j] == (n - 1) as usize);
                    assert(false);
                }
            }
        }
    }
}

/// A chunk chain only reads the used buffers' pixels, so it carries over to
/// any buffer list with the same pixels on the used channels.
pub proof fn lemma_input_chain_congruent<S: RenderPipelineStage>(
    pre: S,
    post: S,
    b1: Seq<WideImage>,
    b2: Seq<WideImage>,
    used: Seq<usize>,
    size: (int, int),
    chunk: int,
    x: int,
    y: int,
)
    requires
        1 <= chunk,
        0 <= size.0,
        0 <= x <= size.0,
        0 <= y,
        forall|c: int, xx: int, yy: int|
            0 <= c < used.len() && 0 <= xx < size.0 && 0 <= yy < size.1
                ==> #[trigger] b1[used[c] as int].pix(xx, yy) == b2[used[c] as int].pix(xx, yy),
        input_chain(pre, post, b1, used, size, chunk, x, y),
    ensures
        input_chain(pre, post, b2, used, size, chunk, x, y),
    decreases size.1 - y, size.0 - x,
{
    if y >= size.1 {
    } else if x >= size.0 {
        lemma_input_chain_congruent(pre, post, b1, b2, used, size, chunk, 0, y + 1);
    } else {
        let xs = chunk_width(size.0, chunk, x);
        let mid = choose|mid: S|
            #[trigger] pre.post_state_spec(mid, (x, y), xs, gathered_rows(b1, used, x, y, xs))
                && input_chain(mid, post, b1, used, size, chunk, x + xs, y);
        assert(gathered_rows(b1, used, x, y, xs) == gathered_rows(b2, used, x, y, xs)) by {
            let g1 = gathered_rows(b1, used, x, y, xs);
            let g2 = gathered_rows(b2, used, x, y, xs);
            assert forall|c: int| 0 <= c < used.len() implies g1[c] == g2[c] by {
                assert(g1[c][0] =~= g2[c][0]);
                assert(g1[c] =~= g2[c]);
            }
            assert(g1 =~= g2);
        }
        lemma_input_chain_congruent(mid, post, b1, b2, used, size, chunk, x + xs, y);
        assert(pre.post_state_spec(mid, (x, y), xs, gathered_rows(b2, used, x, y, xs)));
    }
}

/// Copy `xsize` wide codes starting at `(x, y)` out of a buffer row.
fn gather_row(buf: &WideImage, x: usize, y: usize, xsize: usize) -> (r: Vec<u64>)
    requires
        buf.wf(),
        y < buf.size_spec().1,
        x + xsize <= buf.size_spec().0,
    ensures
        r@.len() == xsize,
        forall|i: int| 0 <= i < xsize ==> r@[i] == buf.pix(x + i, y as int),
{
    let mut r: Vec<u64> = Vec::new();
    let mut i: usize = 0;
    while i < xsize
        invariant
            buf.wf(),
            y < buf.size_spec().1,
            x + xsize <= buf.size_spec().0,
            i <= xsize,
            r@.len() == i,
            forall|j: int| 0 <= j < i ==> r@[j] == buf.pix(x + j, y as int),
        decreases xsize - i,
    {
        r.push(buf.get(x + i, y));
        i = i + 1;
    }
    r
}

/// Gather one single-row chunk per used channel, all at `(x, y)`.
fn gather_chunk(
    input_buffers: &Vec<WideImage>,
    used: &Vec<usize>,
    x: usize,
    y: usize,
    xsize: usize,
    size: (usize, usize),
) -> (chunk: Vec<Vec<Vec<u64>>>)
    requires
        bufs_wf(input_buffers@),
        used_in_range(used@, input_buffers@.len() as int),
        sizes_all(input_buffers@, used@, size),
        y < size.1,
        x + xsize <= size.0,
    ensures
        chunk@.len() == used@.len(),
        chunk_shaped(chunk.deep_view(), 1, xsize as int),
        forall|j: int, i: int|
            0 <= j < used@.len() && 0 <= i < xsize
                ==> chunk.deep_view()[j][0][i]
                    == input_buffers@[used@[j] as int].pix(x + i, y as int),
        chunk.deep_view() == gathered_rows(
            input_buffers@,
            used@,
            x as int,
            y as int,
            xsize as int,
        ),
{
    let mut chunk: Vec<Vec<Vec<u64>>> = Vec::new();
    let mut j: usize = 0;
    while j < used.len()
        invariant
            bufs_wf(input_buffers@),
            used_in_range(used@, input_buffers@.len() as int),
            sizes_all(input_buffers@, used@, size),
            y < size.1,
            x + xsize <= size.0,
            j <= used@.len(),
            chunk@.len() == j,
            forall|c: int|
                0 <= c < j ==> (#[trigger] chunk@[c])@.len() == 1
                    && chunk@[c]@[0]@.len() == xsize,
            forall|c: int, i: int|
                0 <= c < j && 0 <= i < xsize
                    ==> #[trigger] chunk@[c]@[0]@[i]
                        == input_buffers@[used@[c] as int].pix(x + i, y as int),
        decreases used@.len() - j,
    {
        let row = gather_row(&input_buffers[used[j]], x, y, xsize);
        let mut rows: Vec<Vec<u64>> = Vec::new();
        rows.push(row);
        chunk.push(rows);
        j = j + 1;
    }
    proof {
        assert forall|c: int|
            0 <= c < chunk.deep_view().len() implies (#[trigger] chunk.deep_view()[c]).len() == 1
                && (forall|r: int|
                    0 <= r < chunk.deep_view()[c].len()
                        ==> (#[trigger] chunk.deep_view()[c][r]).len() == xsize) by {
            assert(chunk.deep_view()[c] == chunk@[c].deep_view());
            assert(chunk@[c].deep_view()[0] == chunk@[c]@[0].deep_view());
        }
        assert forall|j: int, i: int|
            0 <= j < used@.len() && 0 <= i < xsize
                implies chunk.deep_view()[j][0][i]
                    == input_buffers@[used@[j] as int].pix(x + i, y as int) by {
            assert(chunk.deep_view()[j] == chunk@[j].deep_view());
            assert(chunk@[j].deep_view()[0] == chunk@[j]@[0].deep_view());
            assert(chunk@[j]@[0].deep_view()[i] == chunk@[j]@[0]@[i]);
        }
        let g = gathered_rows(input_buffers@, used@, x as int, y as int, xsize as int);
        assert forall|c: int| 0 <= c < used@.len() implies chunk.deep_view()[c] == g[c] by {
            assert(chunk.deep_view()[c] == chunk@[c].deep_view());
            assert(chunk@[c].deep_view()[0] == chunk@[c]@[0].deep_view());
            assert forall|i: int|
                0 <= i < xsize implies chunk@[c]@[0].deep_view()[i] == g[c][0][i] by {
                assert(chunk@[c]@[0].deep_view()[i] == chunk@[c]@[0]@[i]);
            }
            assert(chunk@[c]@[0].deep_view() =~= g[c][0]);
            assert(chunk.deep_view()[c] =~= g[c]);
        }
        assert(chunk.deep_view() =~= g);
    }
    chunk
}

/// Run an input stage over the used channels: every chunk of the canvas is
/// handed to the stage in row-major chunk order; no buffer is written. The
/// stage's final state is chained from its initial state through
/// `post_state_spec` over exactly those chunks.
pub fn run_input_stage<S: RenderPipelineStage>(
    stage: &mut S,
    chunk_size: usize,
    input_buffers: &Vec<WideImage>,
    used: &Vec<usize>,
)
    requires
        old(stage).shape_wf(),
        old(stage).kind_spec() is Input,
        old(stage).border_spec() == (0u8, 0u8),
        chunk_size >= 1,
        bufs_wf(input_buffers@),
        used_in_range(used@, input_buffers@.len() as int),
        strictly_increasing(used@),
        used@.len() > 0 ==> sizes_all(
            input_buffers@,
            used@,
            input_buffers@[used@[0] as int].size_spec(),
        ),
    ensures
        final(stage).shape_wf(),
        same_stage_shape(*old(stage), *final(stage)),
        forall|p: (int, int), xs: int, inp: Seq<Seq<Seq<u64>>>|
            #[trigger] final(stage).process_spec(p, xs, inp)
                == old(stage).process_spec(p, xs, inp),
        used@.len() == 0 ==> *final(stage) == *old(stage),
        used@.len() > 0 ==> input_chain(
            *old(stage),
            *final(stage),
            input_buffers@,
            used@,
            (
                input_buffers@[used@[0] as int].size_spec().0 as int,
                input_buffers@[used@[0] as int].size_spec().1 as int,
            ),
            chunk_size as int,
            0,
            0,
        ),
{
    if used.len() == 0 {
        return;
    }
    let size = input_buffers[used[0]].size();
    let ghost stage0 = *stage;
    let ghost gsize = (size.0 as int, size.1 as int);
    let mut y: usize = 0;
    while y < size.1
        invariant
            stage.shape_wf(),
            same_stage_shape(stage0, *stage),
            forall|p: (int, int), xs: int, inp: Seq<Seq<Seq<u64>>>|
                #[trigger] stage.process_spec(p, xs, inp) == stage0.process_spec(p, xs, inp),
            stage.kind_spec() is Input,
            stage.border_spec() == (0u8, 0u8),
            chunk_size >= 1,
            bufs_wf(input_buffers@),
            used_in_range(used@, input_buffers@.len() as int),
            strictly_increasing(used@),
            used@.len() > 0,
            sizes_all(input_buffers@, used@, size),
            size == input_buffers@[used@[0] as int].size_spec(),
            gsize == (size.0 as int, size.1 as int),
            y <= size.1,
            forall|post: S|
                input_chain(*stage, post, input_buffers@, used@, gsize, chunk_size as int,
                    0, y as int)
                    ==> input_chain(stage0, post, input_buffers@, used@, gsize,
                        chunk_size as int, 0, 0),
        decreases size.1 - y,
    {
        let mut x: usize = 0;
        while x < size.0
            invariant
                stage.shape_wf(),
                same_stage_shape(stage0, *stage),
                forall|p: (int, int), xs: int, inp: Seq<Seq<Seq<u64>>>|
                    #[trigger] stage.process_spec(p, xs, inp) == stage0.process_spec(p, xs, inp),
                stage.kind_spec() is Input,
                stage.border_spec() == (0u8, 0u8),
                chunk_size >= 1,
                bufs_wf(input_buffers@),
                used_in_range(used@, input_buffers@.len() as int),
                strictly_increasing(used@),
                used@.len() > 0,
                sizes_all(input_buffers@, used@, size),
                size == input_buffers@[used@[0] as int].size_spec(),
                gsize == (size.0 as int, size.1 as int),
                y < size.1,
                x <= size.0,
                forall|post: S|
                    input_chain(*stage, post, input_buffers@, used@, gsize,
                        chunk_size as int, x as int, y as int)
                        ==> input_chain(stage0, post, input_buffers@, used@, gsize,
                            chunk_size as int, 0, 0),
            decreases size.0 - x,
        {
            let xsize = if chunk_size <= size.0 - x { chunk_size } else { size.0 - x };
            let chunk = gather_chunk(input_buffers, used, x, y, xsize, size);
            let ghost pre = *stage;
            stage.process_row_chunk((x, y), xsize, chunk);
            proof {
                assert(xsize as int == chunk_width(gsize.0, chunk_size as int, x as int));
                assert forall|post: S|
                    input_chain(*stage, post, input_buffers@, used@, gsize,
                        chunk_size as int, x as int + xsize as int, y as int)
                        implies input_chain(stage0, post, input_buffers@, used@, gsize,
                            chunk_size as int, 0, 0) by {
                    assert(pre.post_state_spec(
                        *stage,
                        (x as int, y as int),
                        xsize as int,
                        gathered_rows(input_buffers@, used@, x as int, y as int,
                            xsize as int),
                    ));
                    assert(input_chain(pre, post, input_buffers@, used@, gsize,
                        chunk_size as int, x as int, y as int));
                }
            }
            x = x + xsize;
        }
        proof {
            assert forall|post: S|
                input_chain(*stage, post, input_buffers@, used@, gsize, chunk_size as int,
                    0, y as int + 1)
                    implies input_chain(stage0, post, input_buffers@, used@, gsize,
                        chunk_size as int, 0, 0) by {
                assert(input_chain(*stage, post, input_buffers@, used@, gsize,
                    chunk_size as int, x as int, y as int));
            }
        }
        y = y + 1;
    }
    proof {
        assert(input_chain(*stage, *stage, input_buffers@, used@, gsize, chunk_size as int,
            0, size.1 as int));
    }
}


/// The wide code an in-place stage leaves at `(px, py)` of used channel
/// index `c`: the matching sample of the row the stage produces for the
/// chunk containing that column.
pub open spec fn inplace_value_at<S: RenderPipelineStage>(
    stage: S,
    bufs: Seq<WideImage>,
    used: Seq<usize>,
    w: int,
    chunk: int,
    c: int,
    px: int,
    py: int,
) -> u64 {
    let x0 = chunk_start(chunk, px);
    let xs = chunk_width(w, chunk, x0);
    stage.process_spec((x0, py), xs, gathered_rows(bufs, used, x0, py, xs))[c][0][px - x0]
}

/// Run an in-place stage: every chunk is handed to the stage and the rows
/// it returns are written back to the used output buffers at the same
/// place, so every pixel of a used output buffer ends up holding the
/// stage's produced sample for the chunk that covers it. Where the stage
/// type transforms every chunk into itself, the used output buffers come
/// out bitwise equal to the input buffers.
#[verifier::rlimit(60)]
#[verifier::spinoff_prover]
pub fn run_inplace_stage<S: RenderPipelineStage>(
    stage: &mut S,
    chunk_size: usize,
    input_buffers: &Vec<WideImage>,
    output_buffers: &mut Vec<WideImage>,
    used: &Vec<usize>,
)
    requires
        old(stage).shape_wf(),
        old(stage).kind_spec() is InPlace,
        old(stage).border_spec() == (0u8, 0u8),
        old(stage).shift_spec() == (0u8, 0u8),
        chunk_size >= 1,
        bufs_wf(input_buffers@),
        bufs_wf(old(output_buffers)@),
        old(output_buffers)@.len() == input_buffers@.len(),
        used_in_range(used@, input_buffers@.len() as int),
        strictly_increasing(used@),
        used@.len() > 0 ==> sizes_all(
            input_buffers@,
            used@,
            input_buffers@[used@[0] as int].size_spec(),
        ),
        used@.len() > 0 ==> sizes_all(
            old(output_buffers)@,
            used@,
            input_buffers@[used@[0] as int].size_spec(),
        ),
    ensures
        final(stage).shape_wf(),
        same_stage_shape(*old(stage), *final(stage)),
        forall|p: (int, int), xs: int, inp: Seq<Seq<Seq<u64>>>|
            #[trigger] final(stage).process_spec(p, xs, inp)
                == old(stage).process_spec(p, xs, inp),
        final(output_buffers)@.len() == old(output_buffers)@.len(),
        bufs_wf(final(output_buffers)@),
        forall|k: int|
            0 <= k < final(output_buffers)@.len()
                ==> (#[trigger] final(output_buffers)@[k]).size_spec()
                    == old(output_buffers)@[k].size_spec(),
        forall|k: int|
            0 <= k < final(output_buffers)@.len() && !is_used(used@, k)
                ==> final(output_buffers)@[k] == old(output_buffers)@[k],
        forall|c: int, px: int, py: int|
            0 <= c < used@.len()
                && 0 <= px < input_buffers@[used@[0] as int].size_spec().0
                && 0 <= py < input_buffers@[used@[0] as int].size_spec().1
                ==> #[trigger] final(output_buffers)@[used@[c] as int].pix(px, py)
                    == inplace_value_at(
                        *old(stage),
                        input_buffers@,
                        used@,
                        input_buffers@[used@[0] as int].size_spec().0 as int,
                        chunk_size as int,
                        c,
                        px,
                        py,
                    ),
        stage_is_identity::<S>() ==> forall|j: int, px: int, py: int|
            0 <= j < used@.len()
                && 0 <= px < input_buffers@[used@[j] as int].size_spec().0
                && 0 <= py < input_buffers@[used@[j] as int].size_spec().1
                ==> #[trigger] final(output_buffers)@[used@[j] as int].pix(px, py)
                    == input_buffers@[used@[j] as int].pix(px, py),
{
    if used.len() == 0 {
        return;
    }
    let size = input_buffers[used[0]].size();
    let ghost stage0 = *stage;
    let ghost out0 = old(output_buffers)@;
    let ghost gw = size.0 as int;
    let mut y: usize = 0;
    while y < size.1
        invariant
            stage.shape_wf(),
            same_stage_shape(stage0, *stage),
            forall|p: (int, int), xs: int, inp: Seq<Seq<Seq<u64>>>|
                #[trigger] stage.process_spec(p, xs, inp) == stage0.process_spec(p, xs, inp),
            stage.kind_spec() is InPlace,
            stage.border_spec() == (0u8, 0u8),
            stage.shift_spec() == (0u8, 0u8),
            chunk_size >= 1,
            bufs_wf(input_buffers@),
            bufs_wf(output_buffers@),
            output_buffers@.len() == input_buffers@.len(),
            out0.len() == input_buffers@.len(),
            sizes_all(out0, used@, size),
            used_in_range(used@, input_buffers@.len() as int),
            strictly_increasing(used@),
            used@.len() > 0,
            sizes_all(input_buffers@, used@, size),
            size == input_buffers@[used@[0] as int].size_spec(),
            gw == size.0 as int,
            forall|k: int|
                0 <= k < output_buffers@.len()
                    ==> (#[trigger] output_buffers@[k]).size_spec() == out0[k].size_spec(),
            forall|k: int|
                0 <= k < output_buffers@.len() && !is_used(used@, k)
                    ==> output_buffers@[k] == out0[k],
            y <= size.1,
            forall|c: int, px: int, py: int|
                0 <= c < used@.len() && 0 <= px < size.0 && 0 <= py < y
                    ==> #[trigger] output_buffers@[used@[c] as int].pix(px, py)
                        == inplace_value_at(stage0, input_buffers@, used@, gw,
                            chunk_size as int, c, px, py),
        decreases size.1 - y,
    {
        let mut x: usize = 0;
        while x < size.0
            invariant
                stage.shape_wf(),
                same_stage_shape(stage0, *stage),
                forall|p: (int, int), xs: int, inp: Seq<Seq<Seq<u64>>>|
                    #[trigger] stage.process_spec(p, xs, inp)
                        == stage0.process_spec(p, xs, inp),
                stage.kind_spec() is InPlace,
                stage.border_spec() == (0u8, 0u8),
                stage.shift_spec() == (0u8, 0u8),
                chunk_size >= 1,
                bufs_wf(input_buffers@),
                bufs_wf(output_buffers@),
                output_buffers@.len() == input_buffers@.len(),
                out0.len() == input_buffers@.len(),
                sizes_all(out0, used@, size),
                used_in_range(used@, input_buffers@.len() as int),
                strictly_increasing(used@),
                used@.len() > 0,
                sizes_all(input_buffers@, used@, size),
                size == input_buffers@[used@[0] as int].size_spec(),
                gw == size.0 as int,
                forall|k: int|
                    0 <= k < output_buffers@.len()
                        ==> (#[trigger] output_buffers@[k]).size_spec() == out0[k].size_spec(),
                forall|k: int|
                    0 <= k < output_buffers@.len() && !is_used(used@, k)
                        ==> output_buffers@[k] == out0[k],
                y < size.1,
                x <= size.0,
                x % chunk_size == 0 || x == size.0,
                forall|c: int, px: int, py: int|
                    0 <= c < used@.len() && 0 <= px < size.0 && 0 <= py < y
                        ==> #[trigger] output_buffers@[used@[c] as int].pix(px, py)
                            == inplace_value_at(stage0, input_buffers@, used@, gw,
                                chunk_size as int, c, px, py),
                forall|c: int, px: int|
                    0 <= c < used@.len() && 0 <= px < x
                        ==> #[trigger] output_buffers@[used@[c] as int].pix(px, y as int)
                            == inplace_value_at(stage0, input_buffers@, used@, gw,
                                chunk_size as int, c, px, y as int),
            decreases size.0 - x,
    {
            let xsize = if chunk_size <= size.0 - x { chunk_size } else { size.0 - x };
            let chunk = gather_chunk(input_buffers, used, x, y, xsize, size);
            let ghost chunk_view = chunk.deep_view();
            let ghost pre = *stage;
            let out = stage.process_row_chunk((x, y), xsize, chunk);
            proof {
                assert(out.deep_view() == pre.process_spec((x as int, y as int),
                    xsize as int, chunk_view));
                assert(xsize as int
                    == chunk_width(gw, chunk_size as int, x as int));
                assert forall|c: int, i: int|
                    0 <= c < used@.len() && 0 <= i < xsize
                        implies out@[c]@[0]@[i] == inplace_value_at(stage0, input_buffers@,
                            used@, gw, chunk_size as int, c, x + i, y as int) by {
                    lemma_chunk_start(chunk_size as int, x as int, x + i);
                    assert(out.deep_view()[c] == out@[c].deep_view());
                    assert(out@[c].deep_view()[0] == out@[c]@[0].deep_view());
                    assert(out@[c]@[0].deep_view()[i] == out@[c]@[0]@[i]);
                }
            }
            let mut j: usize = 0;
            while j < used.len()
                invariant
                    bufs_wf(input_buffers@),
                    bufs_wf(output_buffers@),
                    output_buffers@.len() == input_buffers@.len(),
                    out0.len() == input_buffers@.len(),
                    sizes_all(out0, used@, size),
                    used_in_range(used@, input_buffers@.len() as int),
                    strictly_increasing(used@),
                    used@.len() > 0,
                    sizes_all(input_buffers@, used@, size),
                    gw == size.0 as int,
                    forall|k: int|
                        0 <= k < output_buffers@.len()
                            ==> (#[trigger] output_buffers@[k]).size_spec()
                                == out0[k].size_spec(),
                    forall|k: int|
                        0 <= k < output_buffers@.len() && !is_used(used@, k)
                            ==> output_buffers@[k] == out0[k],
                    y < size.1,
                    x < size.0,
                    xsize >= 1,
                    x + xsize <= size.0,
                    j <= used@.len(),
                    out@.len() == used@.len(),
                    chunk_shaped(out.deep_view(), 1, xsize as int),
                    forall|c: int, i: int|
                        0 <= c < used@.len() && 0 <= i < xsize
                            ==> out@[c]@[0]@[i] == inplace_value_at(stage0, input_buffers@,
                                used@, gw, chunk_size as int, c, x + i, y as int),
                    forall|c: int, px: int, py: int|
                        0 <= c < used@.len() && 0 <= px < size.0 && 0 <= py < y
                            ==> #[trigger] output_buffers@[used@[c] as int].pix(px, py)
                                == inplace_value_at(stage0, input_buffers@, used@, gw,
                                    chunk_size as int, c, px, py),
                    forall|c: int, px: int|
                        0 <= c < used@.len()
                            && (0 <= px < x || (c < j && x <= px < x + xsize))
                            ==> #[trigger] output_buffers@[used@[c] as int].pix(px, y as int)
                                == inplace_value_at(stage0, input_buffers@, used@, gw,
                                    chunk_size as int, c, px, y as int),
                decreases used@.len() - j,
            {
                let mut i: usize = 0;
                proof {
                    assert(out.deep_view()[j as int] == out@[j as int].deep_view());
                    assert(out@[j as int].deep_view()[0] == out@[j as int]@[0].deep_view());
                }
                while i < xsize
                    invariant
                        bufs_wf(input_buffers@),
                        bufs_wf(output_buffers@),
                        output_buffers@.len() == input_buffers@.len(),
                        out0.len() == input_buffers@.len(),
                        sizes_all(out0, used@, size),
                        used_in_range(used@, input_buffers@.len() as int),
                        strictly_increasing(used@),
                        used@.len() > 0,
                        sizes_all(input_buffers@, used@, size),
                        gw == size.0 as int,
                        forall|k: int|
                            0 <= k < output_buffers@.len()
                                ==> (#[trigger] output_buffers@[k]).size_spec()
                                    == out0[k].size_spec(),
                        forall|k: int|
                            0 <= k < output_buffers@.len() && !is_used(used@, k)
                                ==> output_buffers@[k] == out0[k],
                        y < size.1,
                        x < size.0,
                        xsize >= 1,
                        x + xsize <= size.0,
                        j < used@.len(),
                        i <= xsize,
                        out@.len() == used@.len(),
                        out@[j as int]@.len() == 1,
                        out@[j as int]@[0]@.len() == xsize,
                        forall|c: int, ii: int|
                            0 <= c < used@.len() && 0 <= ii < xsize
                                ==> out@[c]@[0]@[ii] == inplace_value_at(stage0,
                                    input_buffers@, used@, gw, chunk_size as int, c,
                                    x + ii, y as int),
                        forall|c: int, px: int, py: int|
                            0 <= c < used@.len() && 0 <= px < size.0 && 0 <= py < y
                                ==> #[trigger] output_buffers@[used@[c] as int].pix(px, py)
                                    == inplace_value_at(stage0, input_buffers@, used@, gw,
                                        chunk_size as int, c, px, py),
                        forall|c: int, px: int|
                            0 <= c < used@.len()
                                && (0 <= px < x || (c < j && x <= px < x + xsize)
                                    || (c == j && x <= px < x + i))
                                ==> #[trigger] output_buffers@[used@[c] as int].pix(
                                    px, y as int)
                                    == inplace_value_at(stage0, input_buffers@, used@, gw,
                                        chunk_size as int, c, px, y as int),
                    decreases xsize - i,
                {
                    let v = out[j][0][i];
                    let ghost prev = output_buffers@;
                    output_buffers[used[j]].set(x + i, y, v);
                    proof {
                        assert forall|c: int, px: int|
                            0 <= c < used@.len()
                                && (0 <= px < x || (c < j && x <= px < x + xsize)
                                    || (c == j && x <= px < x + i + 1))
                                implies output_buffers@[used@[c] as int].pix(px, y as int)
                                    == inplace_value_at(stage0, input_buffers@, used@, gw,
                                        chunk_size as int, c, px, y as int) by {
                            let k = used@[c] as int;
                            let kj = used@[j as int] as int;
                            if c == j && px == x + i {
                                assert(output_buffers@[kj].pix(px, y as int) == v);
                                assert(v == out@[j as int]@[0]@[i as int]);
                            } else if k == kj {
                                if c != j {
                                    if c < j {
                                        assert(used@[c] < used@[j as int]);
                                    } else {
                                        assert(used@[j as int] < used@[c]);
                                    }
                                    assert(false);
                                }
                                assert(output_buffers@[k].pix(px, y as int)
                                    == prev[k].pix(px, y as int));
                            } else {
                                assert(output_buffers@[k] == prev[k]);
                            }
                        }
                        assert forall|c: int, px: int, py: int|
                            0 <= c < used@.len() && 0 <= px < size.0 && 0 <= py < y
                                implies output_buffers@[used@[c] as int].pix(px, py)
                                    == inplace_value_at(stage0, input_buffers@, used@, gw,
                                        chunk_size as int, c, px, py) by {
                            let k = used@[c] as int;
                            let kj = used@[j as int] as int;
                            if k == kj {
                                assert(output_buffers@[k].pix(px, py)
                                    == prev[k].pix(px, py));
                            } else {
                                assert(output_buffers@[k] == prev[k]);
                            }
                        }
                    }
                    i = i + 1;
                }
                j = j + 1;
            }
            proof {
                if chunk_size <= size.0 - x {
                    vstd::arithmetic::div_mod::lemma_mod_multiples_vanish(
                        1, x as int, chunk_size as int);
                }
            }
            x = x + xsize;
        }
        y = y + 1;
    }
    proof {
        if stage_is_identity::<S>() {
            assert forall|j: int, px: int, py: int|
                0 <= j < used@.len() && 0 <= px < size.0 && 0 <= py < size.1
                    implies output_buffers@[used@[j] as int].pix(px, py)
                        == input_buffers@[used@[j] as int].pix(px, py) by {
                let x0 = chunk_start(chunk_size as int, px);
                let xs = chunk_width(gw, chunk_size as int, x0);
                let g = gathered_rows(input_buffers@, used@, x0, py, xs);
                assert(forall|st: S, p: (int, int), xs2: int, inp: Seq<Seq<Seq<u64>>>|
                    #[trigger] st.process_spec(p, xs2, inp) == inp);
                assert(stage0.process_spec((x0, py), xs, g) == g);
                let cs = chunk_size as int;
                vstd::arithmetic::div_mod::lemma_fundamental_div_mod(px, cs);
                vstd::arithmetic::div_mod::lemma_mod_bound(px, cs);
                vstd::arithmetic::div_mod::lemma_div_pos_is_pos(px, cs);
                assert((px / cs) * cs == cs * (px / cs)) by (nonlinear_arith);
                assert(x0 == px - px % cs);
                assert(0 <= px % cs < cs);
                assert(x0 <= px && px < x0 + cs);
                assert(x0 >= 0) by (nonlinear_arith)
                    requires
                        x0 == (px / cs) * cs,
                        px / cs >= 0,
                        cs >= 1,
                ;
                assert(px < x0 + xs) by {
                    if !(cs <= gw - x0) {
                        assert(xs == gw - x0);
                        assert(px < gw);
                    }
                }
                assert(g[j][0][px - x0] == input_buffers@[used@[j] as int].pix(px, py));
            }
        }
    }
}


/// The bordered, mirrored input block an in-out stage reads for the chunk
/// at `(x0, y)`: `2*border.1 + 1` rows per used channel, each `xsize +
/// 2*border.0` wide, with coordinates reflected into the canvas.
pub open spec fn mirrored_rows(
    bufs: Seq<WideImage>,
    used: Seq<usize>,
    x0: int,
    y: int,
    xsize: int,
    border: (u8, u8),
    size: (int, int),
) -> Seq<Seq<Seq<u64>>> {
    Seq::new(
        used.len(),
        |c: int|
            Seq::new(
                (2 * border.1 + 1) as nat,
                |r: int|
                    Seq::new(
                        (xsize + 2 * border.0) as nat,
                        |i: int|
                            bufs[used[c] as int].pix(
                                mirror_spec(x0 + i - border.0, size.0),
                                mirror_spec(y + r - border.1, size.1),
                            ),
                    ),
            ),
    )
}

/// The wide code an in-out stage leaves at `(qx, qy)` of used channel index
/// `c`: the matching sample of the upsampled block the stage produces for
/// the chunk covering that position.
pub open spec fn inout_value_at<S: RenderPipelineStage>(
    stage: S,
    bufs: Seq<WideImage>,
    used: Seq<usize>,
    in_size: (int, int),
    chunk: int,
    shift: (u8, u8),
    border: (u8, u8),
    c: int,
    qx: int,
    qy: int,
) -> u64 {
    let psx = pow2(shift.0 as nat) as int;
    let psy = pow2(shift.1 as nat) as int;
    let x0 = chunk_start(chunk, qx / psx);
    let y = qy / psy;
    let xs = chunk_width(in_size.0, chunk, x0);
    stage.process_spec(
        (x0, y),
        xs,
        mirrored_rows(bufs, used, x0, y, xs, border, in_size),
    )[c][qy % psy][qx - x0 * psx]
}

/// Where an output position of an in-out stage falls inside the block of
/// the chunk at `(x, y)`, its coordinates decompose back to that chunk.
proof fn lemma_inout_index(
    in_size: (int, int),
    chunk: int,
    shift: (u8, u8),
    x: int,
    y: int,
    xs: int,
    r: int,
    i: int,
)
    requires
        1 <= chunk,
        0 <= x < in_size.0,
        x % chunk == 0,
        xs == chunk_width(in_size.0, chunk, x),
        0 <= y,
        0 <= r < pow2(shift.1 as nat),
        0 <= i < xs * pow2(shift.0 as nat),
    ensures
        ({
            let psx = pow2(shift.0 as nat) as int;
            let psy = pow2(shift.1 as nat) as int;
            let qx = x * psx + i;
            let qy = y * psy + r;
            &&& qy / psy == y
            &&& qy % psy == r
            &&& chunk_start(chunk, qx / psx) == x
            &&& qx - x * psx == i
        }),
{
    let psx = pow2(shift.0 as nat) as int;
    let psy = pow2(shift.1 as nat) as int;
    vstd::arithmetic::power2::lemma_pow2_pos(shift.0 as nat);
    vstd::arithmetic::power2::lemma_pow2_pos(shift.1 as nat);
    let qx = x * psx + i;
    let qy = y * psy + r;
    vstd::arithmetic::div_mod::lemma_fundamental_div_mod_converse(qy, psy, y, r);
    vstd::arithmetic::div_mod::lemma_fundamental_div_mod(i, psx);
    vstd::arithmetic::div_mod::lemma_mod_bound(i, psx);
    vstd::arithmetic::div_mod::lemma_div_pos_is_pos(i, psx);
    let id = i / psx;
    assert(qx == psx * (x + id) + i % psx) by (nonlinear_arith)
        requires
            qx == x * psx + i,
            i == psx * id + i % psx,
    ;
    vstd::arithmetic::div_mod::lemma_fundamental_div_mod_converse(
        qx, psx, x + id, i % psx);
    assert(id < xs) by {
        if id >= xs {
            assert(psx * id >= psx * xs) by (nonlinear_arith)
                requires psx >= 1, id >= xs,
            ;
            assert(xs * psx == psx * xs) by (nonlinear_arith);
            assert(false);
        }
    }
    assert(xs <= chunk);
    lemma_chunk_start(chunk, x, x + id);
}

/// Gather a bordered chunk for an in-out stage: the mirrored window
/// `mirrored_rows` of the chunk at `(x, y)`.
fn gather_bordered_chunk(
    input_buffers: &Vec<WideImage>,
    used: &Vec<usize>,
    x: usize,
    y: usize,
    xsize: usize,
    border: (u8, u8),
    size: (usize, usize),
) -> (chunk: Vec<Vec<Vec<u64>>>)
    requires
        bufs_wf(input_buffers@),
        used_in_range(used@, input_buffers@.len() as int),
        sizes_all(input_buffers@, used@, size),
        1 <= size.0 <= 0x1000_0000_0000_0000,
        1 <= size.1 <= 0x1000_0000_0000_0000,
        y < size.1,
        x + xsize <= size.0,
        xsize <= 0xFFFF,
    ensures
        chunk@.len() == used@.len(),
        chunk_shaped(chunk.deep_view(), 2 * border.1 + 1, xsize + 2 * border.0),
        chunk.deep_view() == mirrored_rows(
            input_buffers@,
            used@,
            x as int,
            y as int,
            xsize as int,
            border,
            (size.0 as int, size.1 as int),
        ),
{
    let ghost gsize = (size.0 as int, size.1 as int);
    let mut chunk: Vec<Vec<Vec<u64>>> = Vec::new();
    let rows: usize = 2 * (border.1 as usize) + 1;
    let width: usize = xsize + 2 * (border.0 as usize);
    let mut j: usize = 0;
    while j < used.len()
        invariant
            bufs_wf(input_buffers@),
            used_in_range(used@, input_buffers@.len() as int),
            sizes_all(input_buffers@, used@, size),
            1 <= size.0 <= 0x1000_0000_0000_0000,
            1 <= size.1 <= 0x1000_0000_0000_0000,
            y < size.1,
            x + xsize <= size.0,
            xsize <= 0xFFFF,
            gsize == (size.0 as int, size.1 as int),
            rows == 2 * border.1 + 1,
            width == xsize + 2 * border.0,
            j <= used@.len(),
            chunk@.len() == j,
            forall|c: int|
                0 <= c < j ==> (#[trigger] chunk@[c])@.len() == rows
                    && forall|r: int| 0 <= r < rows ==> chunk@[c]@[r]@.len() == width,
            forall|c: int, r: int, i: int|
                0 <= c < j && 0 <= r < rows && 0 <= i < width
                    ==> #[trigger] chunk@[c]@[r]@[i]
                        == input_buffers@[used@[c] as int].pix(
                            mirror_spec(x + i - border.0, gsize.0),
                            mirror_spec(y + r - border.1, gsize.1),
                        ),
        decreases used@.len() - j,
    {
        let buf = &input_buffers[used[j]];
        let mut rows_vec: Vec<Vec<u64>> = Vec::new();
        let mut r: usize = 0;
        while r < rows
            invariant
                buf.wf(),
                buf == input_buffers@[used@[j as int] as int],
                j < used@.len(),
                used_in_range(used@, input_buffers@.len() as int),
                buf.size_spec() == size,
                1 <= size.0 <= 0x1000_0000_0000_0000,
                1 <= size.1 <= 0x1000_0000_0000_0000,
                y < size.1,
                x + xsize <= size.0,
                xsize <= 0xFFFF,
                gsize == (size.0 as int, size.1 as int),
                rows == 2 * border.1 + 1,
                width == xsize + 2 * border.0,
                r <= rows,
                rows_vec@.len() == r,
                forall|t: int| 0 <= t < r ==> (#[trigger] rows_vec@[t])@.len() == width,
                forall|t: int, i: int|
                    0 <= t < r && 0 <= i < width
                        ==> #[trigger] rows_vec@[t]@[i]
                            == buf.pix(
                                mirror_spec(x + i - border.0, gsize.0),
                                mirror_spec(y + t - border.1, gsize.1),
                            ),
            decreases rows - r,
        {
            let imgy = mirror(
                y as i64 + (r as i64 - border.1 as i64),
                size.1 as i64,
            ) as usize;
            let mut row: Vec<u64> = Vec::new();
            let mut i: usize = 0;
            while i < width
                invariant
                    buf.wf(),
                    buf.size_spec() == size,
                    1 <= size.0 <= 0x1000_0000_0000_0000,
                    1 <= size.1 <= 0x1000_0000_0000_0000,
                    y < size.1,
                    imgy < size.1,
                    imgy as int == mirror_spec(y + r - border.1, gsize.1),
                    x + xsize <= size.0,
                    xsize <= 0xFFFF,
                    gsize == (size.0 as int, size.1 as int),
                    width == xsize + 2 * border.0,
                    i <= width,
                    row@.len() == i,
                    forall|t: int|
                        0 <= t < i ==> #[trigger] row@[t]
                            == buf.pix(mirror_spec(x + t - border.0, gsize.0), imgy as int),
                decreases width - i,
            {
                let imgx = mirror(
                    x as i64 + (i as i64 - border.0 as i64),
                    size.0 as i64,
                ) as usize;
                row.push(buf.get(imgx, imgy));
                i = i + 1;
            }
            rows_vec.push(row);
            r = r + 1;
        }
        chunk.push(rows_vec);
        j = j + 1;
    }
    proof {
        let m = mirrored_rows(input_buffers@, used@, x as int, y as int, xsize as int,
            border, gsize);
        assert forall|c: int| 0 <= c < used@.len() implies chunk.deep_view()[c] == m[c] by {
            assert(chunk.deep_view()[c] == chunk@[c].deep_view());
            assert forall|r: int|
                0 <= r < rows implies chunk@[c].deep_view()[r] == m[c][r] by {
                assert(chunk@[c].deep_view()[r] == chunk@[c]@[r].deep_view());
                assert forall|i: int|
                    0 <= i < width implies chunk@[c]@[r].deep_view()[i] == m[c][r][i] by {
                    assert(chunk@[c]@[r].deep_view()[i] == chunk@[c]@[r]@[i]);
                }
                assert(chunk@[c]@[r].deep_view() =~= m[c][r]);
            }
            assert(chunk@[c].deep_view() =~= m[c]);
        }
        assert(chunk.deep_view() =~= m);
        assert forall|c: int|
            0 <= c < chunk.deep_view().len()
                implies (#[trigger] chunk.deep_view()[c]).len() == 2 * border.1 + 1
                    && (forall|r: int|
                        0 <= r < chunk.deep_view()[c].len()
                            ==> (#[trigger] chunk.deep_view()[c][r]).len()
                                == xsize + 2 * border.0) by {}
    }
    chunk
}

/// The channels-by-rows block with no rows per channel, as extend stages
/// receive for the pixels they synthesize.
pub open spec fn empty_rows(numc: int) -> Seq<Seq<Seq<u64>>> {
    Seq::new(numc as nat, |c: int| Seq::<Seq<u64>>::empty())
}

/// The wide code a canvas-extending stage synthesizes at `(px, py)` of used
/// channel index `c`, for a position outside the copied-in rectangle: the
/// matching sample of the row the stage produces for the chunk of the band
/// or flank covering that position.
pub open spec fn extend_value_at<S: RenderPipelineStage>(
    stage: S,
    numc: int,
    origin: (int, int),
    in_size: (int, int),
    out_size: (int, int),
    chunk: int,
    c: int,
    px: int,
    py: int,
) -> u64 {
    if py < origin.1 || py >= origin.1 + in_size.1 {
        let x0 = chunk_start(chunk, px);
        let xs = chunk_width(out_size.0, chunk, x0);
        stage.process_spec((x0, py), xs, empty_rows(numc))[c][0][px - x0]
    } else if px < origin.0 {
        let x0 = chunk_start(chunk, px);
        let xs = chunk_width(origin.0, chunk, x0);
        stage.process_spec((x0, py), xs, empty_rows(numc))[c][0][px - x0]
    } else {
        let base = origin.0 + in_size.0;
        let x0 = base + chunk_start(chunk, px - base);
        let xs = chunk_width(out_size.0, chunk, x0);
        stage.process_spec((x0, py), xs, empty_rows(numc))[c][0][px - x0]
    }
}

/// An all-empty chunk: one channel entry with no rows per used channel, as
/// extend stages receive for the pixels they synthesize.
fn empty_chunk(numc: usize) -> (chunk: Vec<Vec<Vec<u64>>>)
    ensures
        chunk@.len() == numc,
        chunk_shaped(chunk.deep_view(), 0, 0),
        chunk.deep_view() == empty_rows(numc as int),
{
    let mut chunk: Vec<Vec<Vec<u64>>> = Vec::new();
    let mut j: usize = 0;
    while j < numc
        invariant
            j <= numc,
            chunk@.len() == j,
            forall|c: int| 0 <= c < j ==> (#[trigger] chunk@[c])@.len() == 0,
        decreases numc - j,
    {
        let rows: Vec<Vec<u64>> = Vec::new();
        chunk.push(rows);
        j = j + 1;
    }
    proof {
        assert forall|c: int|
            0 <= c < chunk.deep_view().len()
                implies (#[trigger] chunk.deep_view()[c]).len() == 0 by {
            assert(chunk.deep_view()[c] == chunk@[c].deep_view());
        }
        assert forall|c: int|
            0 <= c < numc implies chunk.deep_view()[c] == empty_rows(numc as int)[c] by {
            assert(chunk.deep_view()[c] =~= empty_rows(numc as int)[c]);
        }
        assert(chunk.deep_view() =~= empty_rows(numc as int));
    }
    chunk
}

/// Write one produced chunk row into the used output buffers: used channel
/// index `c` receives samples `out[c][row][0..count]` at `(xbase + i,
/// yrow)`. Every other pixel and every other buffer is unchanged.
fn scatter_row(
    output_buffers: &mut Vec<WideImage>,
    used: &Vec<usize>,
    out: &Vec<Vec<Vec<u64>>>,
    row: usize,
    xbase: usize,
    yrow: usize,
    count: usize,
    out_size: (usize, usize),
)
    requires
        bufs_wf(old(output_buffers)@),
        used_in_range(used@, old(output_buffers)@.len() as int),
        strictly_increasing(used@),
        sizes_all(old(output_buffers)@, used@, out_size),
        out@.len() == used@.len(),
        forall|c: int| 0 <= c < out@.len() ==> row < (#[trigger] out@[c])@.len(),
        forall|c: int| 0 <= c < out@.len() ==> count <= (#[trigger] out@[c])@[row as int]@.len(),
        xbase + count <= out_size.0,
        yrow < out_size.1,
    ensures
        final(output_buffers)@.len() == old(output_buffers)@.len(),
        bufs_wf(final(output_buffers)@),
        forall|k: int|
            0 <= k < final(output_buffers)@.len()
                ==> (#[trigger] final(output_buffers)@[k]).size_spec()
                    == old(output_buffers)@[k].size_spec(),
        forall|k: int|
            0 <= k < final(output_buffers)@.len() && !is_used(used@, k)
                ==> final(output_buffers)@[k] == old(output_buffers)@[k],
        forall|k: int, px: int, py: int|
            0 <= k < final(output_buffers)@.len() && is_used(used@, k)
                && 0 <= px < out_size.0 && 0 <= py < out_size.1
                && !(xbase <= px < xbase + count && py == yrow)
                ==> #[trigger] final(output_buffers)@[k].pix(px, py)
                    == old(output_buffers)@[k].pix(px, py),
        forall|c: int, i: int|
            0 <= c < used@.len() && 0 <= i < count
                ==> #[trigger] final(output_buffers)@[used@[c] as int].pix(
                    xbase + i, yrow as int)
                    == out@[c]@[row as int]@[i],
{
    let mut j: usize = 0;
    while j < used.len()
        invariant
            bufs_wf(output_buffers@),
            used_in_range(used@, output_buffers@.len() as int),
            strictly_increasing(used@),
            sizes_all(output_buffers@, used@, out_size),
            output_buffers@.len() == old(output_buffers)@.len(),
            out@.len() == used@.len(),
            forall|c: int| 0 <= c < out@.len() ==> row < (#[trigger] out@[c])@.len(),
            forall|c: int|
                0 <= c < out@.len() ==> count <= (#[trigger] out@[c])@[row as int]@.len(),
            xbase + count <= out_size.0,
            yrow < out_size.1,
            j <= used@.len(),
            forall|k: int|
                0 <= k < output_buffers@.len()
                    ==> (#[trigger] output_buffers@[k]).size_spec()
                        == old(output_buffers)@[k].size_spec(),
            forall|k: int|
                0 <= k < output_buffers@.len() && !is_used(used@, k)
                    ==> output_buffers@[k] == old(output_buffers)@[k],
            forall|k: int, px: int, py: int|
                0 <= k < output_buffers@.len()
                    && 0 <= px < out_size.0 && 0 <= py < out_size.1
                    && !(xbase <= px < xbase + count && py == yrow)
                    && is_used(used@, k)
                    ==> #[trigger] output_buffers@[k].pix(px, py)
                        == old(output_buffers)@[k].pix(px, py),
            forall|c: int, i: int|
                0 <= c < j && 0 <= i < count
                    ==> #[trigger] output_buffers@[used@[c] as int].pix(
                        xbase + i, yrow as int)
                        == out@[c]@[row as int]@[i],
        decreases used@.len() - j,
    {
        let mut i: usize = 0;
        while i < count
            invariant
                bufs_wf(output_buffers@),
                used_in_range(used@, output_buffers@.len() as int),
                strictly_increasing(used@),
                sizes_all(output_buffers@, used@, out_size),
                output_buffers@.len() == old(output_buffers)@.len(),
                out@.len() == used@.len(),
                forall|c: int| 0 <= c < out@.len() ==> row < (#[trigger] out@[c])@.len(),
                forall|c: int|
                    0 <= c < out@.len() ==> count <= (#[trigger] out@[c])@[row as int]@.len(),
                xbase + count <= out_size.0,
                yrow < out_size.1,
                j < used@.len(),
                i <= count,
                forall|k: int|
                    0 <= k < output_buffers@.len()
                        ==> (#[trigger] output_buffers@[k]).size_spec()
                            == old(output_buffers)@[k].size_spec(),
                forall|k: int|
                    0 <= k < output_buffers@.len() && !is_used(used@, k)
                        ==> output_buffers@[k] == old(output_buffers)@[k],
                forall|k: int, px: int, py: int|
                    0 <= k < output_buffers@.len()
                        && 0 <= px < out_size.0 && 0 <= py < out_size.1
                        && !(xbase <= px < xbase + count && py == yrow)
                        && is_used(used@, k)
                        ==> #[trigger] output_buffers@[k].pix(px, py)
                            == old(output_buffers)@[k].pix(px, py),
                forall|c: int, ii: int|
                    0 <= c < j && 0 <= ii < count
                        ==> #[trigger] output_buffers@[used@[c] as int].pix(
                            xbase + ii, yrow as int)
                            == out@[c]@[row as int]@[ii],
                forall|ii: int|
                    0 <= ii < i
                        ==> #[trigger] output_buffers@[used@[j as int] as int].pix(
                            xbase + ii, yrow as int)
                            == out@[j as int]@[row as int]@[ii],
            decreases count - i,
        {
            let v = out[j][row][i];
            let ghost prev = output_buffers@;
            output_buffers[used[j]].set(xbase + i, yrow, v);
            proof {
                let kj = used@[j as int] as int;
                assert forall|c: int, ii: int|
                    0 <= c < j && 0 <= ii < count
                        implies output_buffers@[used@[c] as int].pix(
                            xbase + ii, yrow as int) == out@[c]@[row as int]@[ii] by {
                    let k = used@[c] as int;
                    if k == kj {
                        assert(used@[c] < used@[j as int]);
                        assert(false);
                    }
                    assert(output_buffers@[k] == prev[k]);
                }
            }
            i = i + 1;
        }
        j = j + 1;
    }
}

/// Run an in-out stage: for every chunk of the input canvas a bordered,
/// mirrored window is handed to the stage, and the upsampled block it
/// produces is written to the output buffers, so every pixel of a used
/// output buffer holds the stage's produced sample for the chunk covering
/// its position.
#[verifier::rlimit(100)]
#[verifier::spinoff_prover]
pub fn run_inout_stage<S: RenderPipelineStage>(
    stage: &mut S,
    chunk_size: usize,
    input_buffers: &Vec<WideImage>,
    output_buffers: &mut Vec<WideImage>,
    used: &Vec<usize>,
)
    requires
        old(stage).shape_wf(),
        old(stage).kind_spec() is InOut,
        1 <= chunk_size <= 0xFFFF,
        bufs_wf(input_buffers@),
        bufs_wf(old(output_buffers)@),
        old(output_buffers)@.len() == input_buffers@.len(),
        used_in_range(used@, input_buffers@.len() as int),
        strictly_increasing(used@),
        used@.len() > 0 ==> {
            let in_size = input_buffers@[used@[0] as int].size_spec();
            let out_size = old(output_buffers)@[used@[0] as int].size_spec();
            &&& sizes_all(input_buffers@, used@, in_size)
            &&& sizes_all(old(output_buffers)@, used@, out_size)
            &&& out_size.0 == in_size.0 * pow2(old(stage).shift_spec().0 as nat)
            &&& out_size.1 == in_size.1 * pow2(old(stage).shift_spec().1 as nat)
            &&& in_size.0 <= 0x1000_0000_0000_0000
            &&& in_size.1 <= 0x1000_0000_0000_0000
        },
    ensures
        final(stage).shape_wf(),
        same_stage_shape(*old(stage), *final(stage)),
        forall|p: (int, int), xs: int, inp: Seq<Seq<Seq<u64>>>|
            #[trigger] final(stage).process_spec(p, xs, inp)
                == old(stage).process_spec(p, xs, inp),
        final(output_buffers)@.len() == old(output_buffers)@.len(),
        bufs_wf(final(output_buffers)@),
        forall|k: int|
            0 <= k < final(output_buffers)@.len()
                ==> (#[trigger] final(output_buffers)@[k]).size_spec()
                    == old(output_buffers)@[k].size_spec(),
        forall|k: int|
            0 <= k < final(output_buffers)@.len() && !is_used(used@, k)
                ==> final(output_buffers)@[k] == old(output_buffers)@[k],
        used@.len() > 0 ==> forall|c: int, qx: int, qy: int|
            0 <= c < used@.len()
                && 0 <= qx < old(output_buffers)@[used@[0] as int].size_spec().0
                && 0 <= qy < old(output_buffers)@[used@[0] as int].size_spec().1
                ==> #[trigger] final(output_buffers)@[used@[c] as int].pix(qx, qy)
                    == inout_value_at(
                        *old(stage),
                        input_buffers@,
                        used@,
                        (
                            input_buffers@[used@[0] as int].size_spec().0 as int,
                            input_buffers@[used@[0] as int].size_spec().1 as int,
                        ),
                        chunk_size as int,
                        old(stage).shift_spec(),
                        old(stage).border_spec(),
                        c,
                        qx,
                        qy,
                    ),
{
    if used.len() == 0 {
        return;
    }
    let in_size = input_buffers[used[0]].size();
    let out_size = output_buffers[used[0]].size();
    if in_size.0 == 0 || in_size.1 == 0 {
        proof {
            let ghost px = pow2(old(stage).shift_spec().0 as nat) as int;
            let ghost py = pow2(old(stage).shift_spec().1 as nat) as int;
            assert(out_size.0 == 0 || out_size.1 == 0) by {
                if in_size.0 == 0 {
                    assert(0int * px == 0) by (nonlinear_arith);
                } else {
                    assert(0int * py == 0) by (nonlinear_arith);
                }
            }
        }
        return;
    }
    let (sx, sy) = stage.shift();
    let psx = match crate::util::checked_pow2(sx as usize) {
        Some(p) => p,
        None => {
            proof {
                vstd::arithmetic::power2::lemma_pow2_pos(sx as nat);
                assert(pow2(sx as nat) <= in_size.0 * pow2(sx as nat)) by (nonlinear_arith)
                    requires in_size.0 >= 1, pow2(sx as nat) >= 0,
                ;
                assert(false);
            }
            0
        },
    };
    let psy = match crate::util::checked_pow2(sy as usize) {
        Some(p) => p,
        None => {
            proof {
                vstd::arithmetic::power2::lemma_pow2_pos(sy as nat);
                assert(pow2(sy as nat) <= in_size.1 * pow2(sy as nat)) by (nonlinear_arith)
                    requires in_size.1 >= 1, pow2(sy as nat) >= 0,
                ;
                assert(false);
            }
            0
        },
    };
    let border = stage.border();
    proof {
        vstd::arithmetic::power2::lemma_pow2_pos(sx as nat);
        vstd::arithmetic::power2::lemma_pow2_pos(sy as nat);
    }
    let ghost stage0 = *stage;
    let ghost out0 = old(output_buffers)@;
    let ghost gin = (in_size.0 as int, in_size.1 as int);
    let ghost shift0 = (sx, sy);
    let mut y: usize = 0;
    while y < in_size.1
        invariant
            stage.shape_wf(),
            same_stage_shape(stage0, *stage),
            forall|p: (int, int), xs: int, inp: Seq<Seq<Seq<u64>>>|
                #[trigger] stage.process_spec(p, xs, inp) == stage0.process_spec(p, xs, inp),
            stage.kind_spec() is InOut,
            1 <= chunk_size <= 0xFFFF,
            bufs_wf(input_buffers@),
            bufs_wf(output_buffers@),
            output_buffers@.len() == input_buffers@.len(),
            out0.len() == input_buffers@.len(),
            used_in_range(used@, input_buffers@.len() as int),
            strictly_increasing(used@),
            used@.len() > 0,
            sizes_all(input_buffers@, used@, in_size),
            sizes_all(out0, used@, out_size),
            in_size == input_buffers@[used@[0] as int].size_spec(),
            out_size == out0[used@[0] as int].size_spec(),
            out_size.0 == in_size.0 * pow2(sx as nat),
            out_size.1 == in_size.1 * pow2(sy as nat),
            1 <= in_size.0 <= 0x1000_0000_0000_0000,
            1 <= in_size.1 <= 0x1000_0000_0000_0000,
            psx == pow2(sx as nat),
            psy == pow2(sy as nat),
            psx >= 1,
            psy >= 1,
            (sx, sy) == stage0.shift_spec(),
            shift0 == (sx, sy),
            border == stage0.border_spec(),
            gin == (in_size.0 as int, in_size.1 as int),
            y <= in_size.1,
            forall|k: int|
                0 <= k < output_buffers@.len()
                    ==> (#[trigger] output_buffers@[k]).size_spec() == out0[k].size_spec(),
            forall|k: int|
                0 <= k < output_buffers@.len() && !is_used(used@, k)
                    ==> output_buffers@[k] == out0[k],
            forall|c: int, qx: int, qy: int|
                0 <= c < used@.len() && 0 <= qx < out_size.0 && 0 <= qy < y * psy
                    ==> #[trigger] output_buffers@[used@[c] as int].pix(qx, qy)
                        == inout_value_at(stage0, input_buffers@, used@, gin,
                            chunk_size as int, shift0, border, c, qx, qy),
        decreases in_size.1 - y,
    {
        let mut x: usize = 0;
        while x < in_size.0
            invariant
                stage.shape_wf(),
                same_stage_shape(stage0, *stage),
                forall|p: (int, int), xs: int, inp: Seq<Seq<Seq<u64>>>|
                    #[trigger] stage.process_spec(p, xs, inp)
                        == stage0.process_spec(p, xs, inp),
                stage.kind_spec() is InOut,
                1 <= chunk_size <= 0xFFFF,
                bufs_wf(input_buffers@),
                bufs_wf(output_buffers@),
                output_buffers@.len() == input_buffers@.len(),
                out0.len() == input_buffers@.len(),
                used_in_range(used@, input_buffers@.len() as int),
                strictly_increasing(used@),
                used@.len() > 0,
                sizes_all(input_buffers@, used@, in_size),
                sizes_all(out0, used@, out_size),
                in_size == input_buffers@[used@[0] as int].size_spec(),
                out_size == out0[used@[0] as int].size_spec(),
                out_size.0 == in_size.0 * pow2(sx as nat),
                out_size.1 == in_size.1 * pow2(sy as nat),
                1 <= in_size.0 <= 0x1000_0000_0000_0000,
                1 <= in_size.1 <= 0x1000_0000_0000_0000,
                psx == pow2(sx as nat),
                psy == pow2(sy as nat),
                psx >= 1,
                psy >= 1,
                (sx, sy) == stage0.shift_spec(),
                shift0 == (sx, sy),
                border == stage0.border_spec(),
                gin == (in_size.0 as int, in_size.1 as int),
                y < in_size.1,
                x <= in_size.0,
                x % chunk_size == 0 || x == in_size.0,
                forall|k: int|
                    0 <= k < output_buffers@.len()
                        ==> (#[trigger] output_buffers@[k]).size_spec() == out0[k].size_spec(),
                forall|k: int|
                    0 <= k < output_buffers@.len() && !is_used(used@, k)
                        ==> output_buffers@[k] == out0[k],
                forall|c: int, qx: int, qy: int|
                    0 <= c < used@.len() && 0 <= qx < out_size.0 && 0 <= qy < y * psy
                        ==> #[trigger] output_buffers@[used@[c] as int].pix(qx, qy)
                            == inout_value_at(stage0, input_buffers@, used@, gin,
                                chunk_size as int, shift0, border, c, qx, qy),
                forall|c: int, qx: int, qy: int|
                    0 <= c < used@.len() && 0 <= qx < x * psx
                        && y * psy <= qy < (y + 1) * psy
                        ==> #[trigger] output_buffers@[used@[c] as int].pix(qx, qy)
                            == inout_value_at(stage0, input_buffers@, used@, gin,
                                chunk_size as int, shift0, border, c, qx, qy),
            decreases in_size.0 - x,
        {
            let xsize = if chunk_size <= in_size.0 - x { chunk_size } else { in_size.0 - x };
            let chunk = gather_bordered_chunk(input_buffers, used, x, y, xsize, border, in_size);
            let ghost chunk_view = chunk.deep_view();
            let ghost pre = *stage;
            let out = stage.process_row_chunk((x, y), xsize, chunk);
            proof {
                assert(out.deep_view() == pre.process_spec((x as int, y as int),
                    xsize as int, chunk_view));
                assert(xsize as int == chunk_width(gin.0, chunk_size as int, x as int));
                assert forall|c: int|
                    0 <= c < out@.len() implies (#[trigger] out@[c])@.len() == psy
                        && forall|r: int| 0 <= r < psy ==> out@[c]@[r]@.len() == xsize * psx by {
                    assert(out.deep_view()[c] == out@[c].deep_view());
                    assert forall|r: int|
                        0 <= r < psy implies out@[c]@[r]@.len() == xsize * psx by {
                        assert(out.deep_view()[c][r] == out@[c]@[r].deep_view());
                    }
                }
                assert forall|c: int, r: int, i: int|
                    0 <= c < used@.len() && 0 <= r < psy && 0 <= i < xsize * psx
                        implies out@[c]@[r]@[i] == inout_value_at(stage0, input_buffers@,
                            used@, gin, chunk_size as int, shift0, border, c,
                            x * psx + i, y * psy + r) by {
                    lemma_inout_index(gin, chunk_size as int, shift0, x as int, y as int,
                        xsize as int, r, i);
                    assert(out.deep_view()[c] == out@[c].deep_view());
                    assert(out@[c].deep_view()[r] == out@[c]@[r].deep_view());
                    assert(out@[c]@[r].deep_view()[i] == out@[c]@[r]@[i]);
                }
                assert(x * psx + xsize * psx <= out_size.0) by (nonlinear_arith)
                    requires
                        x + xsize <= in_size.0,
                        psx >= 0,
                        xsize >= 0,
                        x >= 0,
                        out_size.0 == in_size.0 * psx,
                ;
                assert(y * psy + psy <= out_size.1) by (nonlinear_arith)
                    requires
                        y < in_size.1,
                        psy >= 0,
                        y >= 0,
                        out_size.1 == in_size.1 * psy,
                ;
            }
            let xbase = x * psx;
            let wout = xsize * psx;
            let ybase = y * psy;
            proof {
                assert((y + 1) * psy == y * psy + psy) by (nonlinear_arith);
            }
            let mut r: usize = 0;
            while r < psy
                invariant
                    bufs_wf(output_buffers@),
                    output_buffers@.len() == input_buffers@.len(),
                    out0.len() == input_buffers@.len(),
                    used_in_range(used@, input_buffers@.len() as int),
                    strictly_increasing(used@),
                    used@.len() > 0,
                    sizes_all(out0, used@, out_size),
                    out_size == out0[used@[0] as int].size_spec(),
                    r <= psy,
                    psx >= 1,
                    psy >= 1,
                    out@.len() == used@.len(),
                    forall|c: int| 0 <= c < out@.len() ==> (#[trigger] out@[c])@.len() == psy,
                    forall|c: int, t: int|
                        0 <= c < out@.len() && 0 <= t < psy
                            ==> (#[trigger] out@[c]@[t])@.len() == wout,
                    xbase == x * psx,
                    wout == xsize * psx,
                    ybase == y * psy,
                    xbase + wout <= out_size.0,
                    ybase + psy <= out_size.1,
                    forall|c: int, t: int, i: int|
                        0 <= c < used@.len() && 0 <= t < psy && 0 <= i < wout
                            ==> out@[c]@[t]@[i] == inout_value_at(stage0, input_buffers@,
                                used@, gin, chunk_size as int, shift0, border, c,
                                xbase + i, ybase + t),
                    forall|k: int|
                        0 <= k < output_buffers@.len()
                            ==> (#[trigger] output_buffers@[k]).size_spec()
                                == out0[k].size_spec(),
                    forall|k: int|
                        0 <= k < output_buffers@.len() && !is_used(used@, k)
                            ==> output_buffers@[k] == out0[k],
                    forall|c: int, qx: int, qy: int|
                        0 <= c < used@.len() && 0 <= qx < out_size.0 && 0 <= qy < ybase
                            ==> #[trigger] output_buffers@[used@[c] as int].pix(qx, qy)
                                == inout_value_at(stage0, input_buffers@, used@, gin,
                                    chunk_size as int, shift0, border, c, qx, qy),
                    forall|c: int, qx: int, qy: int|
                        0 <= c < used@.len() && 0 <= qx < xbase
                            && ybase <= qy < ybase + psy
                            ==> #[trigger] output_buffers@[used@[c] as int].pix(qx, qy)
                                == inout_value_at(stage0, input_buffers@, used@, gin,
                                    chunk_size as int, shift0, border, c, qx, qy),
                    forall|c: int, qx: int, qy: int|
                        0 <= c < used@.len() && xbase <= qx < xbase + wout
                            && ybase <= qy < ybase + r
                            ==> #[trigger] output_buffers@[used@[c] as int].pix(qx, qy)
                                == inout_value_at(stage0, input_buffers@, used@, gin,
                                    chunk_size as int, shift0, border, c, qx, qy),
                decreases psy - r,
            {
                proof {
                    assert(sizes_all(output_buffers@, used@, out_size));
                }
                let ghost prev = output_buffers@;
                scatter_row(output_buffers, used, &out, r, xbase, ybase + r, wout, out_size);
                proof {
                    assert forall|c: int, qx: int, qy: int|
                        0 <= c < used@.len()
                            && ((0 <= qx < out_size.0 && 0 <= qy < ybase)
                                || (0 <= qx < xbase && ybase <= qy < ybase + psy)
                                || (xbase <= qx < xbase + wout && ybase <= qy < ybase + r + 1))
                            implies output_buffers@[used@[c] as int].pix(qx, qy)
                                == inout_value_at(stage0, input_buffers@, used@, gin,
                                    chunk_size as int, shift0, border, c, qx, qy) by {
                        let k = used@[c] as int;
                        assert(is_used(used@, k));
                        if qy == ybase + r && xbase <= qx < xbase + wout {
                            assert(output_buffers@[k].pix(qx, qy)
                                == out@[c]@[r as int]@[qx - xbase]);
                        } else {
                            assert(!(xbase <= qx < xbase + wout && qy == ybase + r));
                            assert(output_buffers@[k].pix(qx, qy) == prev[k].pix(qx, qy));
                        }
                    }
                }
                r = r + 1;
            }
            proof {
                assert((x + xsize) * psx == xbase + wout) by (nonlinear_arith)
                    requires xbase == x * psx, wout == xsize * psx,
                ;
                if chunk_size <= in_size.0 - x {
                    vstd::arithmetic::div_mod::lemma_mod_multiples_vanish(
                        1, x as int, chunk_size as int);
                }
                assert forall|c: int, qx: int, qy: int|
                    0 <= c < used@.len() && 0 <= qx < (x + xsize) * psx
                        && y * psy <= qy < (y + 1) * psy
                        implies output_buffers@[used@[c] as int].pix(qx, qy)
                            == inout_value_at(stage0, input_buffers@, used@, gin,
                                chunk_size as int, shift0, border, c, qx, qy) by {
                    assert((y + 1) * psy == ybase + psy) by (nonlinear_arith)
                        requires ybase == y * psy,
                    ;
                }
            }
            x = x + xsize;
        }
        proof {
            assert((y + 1) * psy == y * psy + psy) by (nonlinear_arith);
            assert forall|c: int, qx: int, qy: int|
                0 <= c < used@.len() && 0 <= qx < out_size.0 && 0 <= qy < (y + 1) * psy
                    implies output_buffers@[used@[c] as int].pix(qx, qy)
                        == inout_value_at(stage0, input_buffers@, used@, gin,
                            chunk_size as int, shift0, border, c, qx, qy) by {
                assert(x as int * psx == in_size.0 * psx) by (nonlinear_arith)
                    requires x as int == in_size.0 as int,
                ;
            }
        }
        y = y + 1;
    }
    proof {
        assert(y as int * psy == in_size.1 * psy) by (nonlinear_arith)
            requires y as int == in_size.1 as int,
        ;
    }
}

/// Run a canvas-extending stage: the input canvas is copied to the offset
/// rectangle at the stage's origin, and the stage synthesizes every pixel
/// outside that rectangle, row chunk by row chunk.
///
/// After the call, the offset rectangle of every used output buffer holds
/// the input pixels unchanged, and every pixel outside it holds the sample
/// the stage produced for the band or flank chunk covering it.
#[verifier::rlimit(100)]
#[verifier::spinoff_prover]
pub fn run_extend_stage<S: RenderPipelineStage>(
    stage: &mut S,
    chunk_size: usize,
    input_buffers: &Vec<WideImage>,
    output_buffers: &mut Vec<WideImage>,
    used: &Vec<usize>,
    origin: (usize, usize),
)
    requires
        old(stage).shape_wf(),
        old(stage).kind_spec() is Extend,
        old(stage).origin_spec() == (origin.0 as int, origin.1 as int),
        1 <= chunk_size <= 0xFFFF,
        bufs_wf(input_buffers@),
        bufs_wf(old(output_buffers)@),
        old(output_buffers)@.len() == input_buffers@.len(),
        used_in_range(used@, input_buffers@.len() as int),
        strictly_increasing(used@),
        used@.len() > 0 ==> {
            let in_size = input_buffers@[used@[0] as int].size_spec();
            let out_size = old(output_buffers)@[used@[0] as int].size_spec();
            &&& sizes_all(input_buffers@, used@, in_size)
            &&& sizes_all(old(output_buffers)@, used@, out_size)
            &&& origin.0 + in_size.0 <= out_size.0
            &&& origin.1 + in_size.1 <= out_size.1
        },
    ensures
        final(stage).shape_wf(),
        same_stage_shape(*old(stage), *final(stage)),
        forall|p: (int, int), xs: int, inp: Seq<Seq<Seq<u64>>>|
            #[trigger] final(stage).process_spec(p, xs, inp)
                == old(stage).process_spec(p, xs, inp),
        final(output_buffers)@.len() == old(output_buffers)@.len(),
        bufs_wf(final(output_buffers)@),
        forall|k: int|
            0 <= k < final(output_buffers)@.len()
                ==> (#[trigger] final(output_buffers)@[k]).size_spec()
                    == old(output_buffers)@[k].size_spec(),
        forall|k: int|
            0 <= k < final(output_buffers)@.len() && !is_used(used@, k)
                ==> final(output_buffers)@[k] == old(output_buffers)@[k],
        used@.len() > 0 ==> forall|k: int, px: int, py: int|
            0 <= k < final(output_buffers)@.len() && is_used(used@, k)
                && 0 <= px < input_buffers@[used@[0] as int].size_spec().0
                && 0 <= py < input_buffers@[used@[0] as int].size_spec().1
                ==> #[trigger] final(output_buffers)@[k].pix(origin.0 + px, origin.1 + py)
                    == input_buffers@[k].pix(px, py),
        used@.len() > 0 ==> forall|c: int, px: int, py: int|
            0 <= c < used@.len()
                && 0 <= px < old(output_buffers)@[used@[0] as int].size_spec().0
                && 0 <= py < old(output_buffers)@[used@[0] as int].size_spec().1
                && !(origin.0 <= px < origin.0 + input_buffers@[used@[0] as int].size_spec().0
                    && origin.1 <= py
                        < origin.1 + input_buffers@[used@[0] as int].size_spec().1)
                ==> #[trigger] final(output_buffers)@[used@[c] as int].pix(px, py)
                    == extend_value_at(
                        *old(stage),
                        used@.len() as int,
                        (origin.0 as int, origin.1 as int),
                        (
                            input_buffers@[used@[0] as int].size_spec().0 as int,
                            input_buffers@[used@[0] as int].size_spec().1 as int,
                        ),
                        (
                            old(output_buffers)@[used@[0] as int].size_spec().0 as int,
                            old(output_buffers)@[used@[0] as int].size_spec().1 as int,
                        ),
                        chunk_size as int,
                        c,
                        px,
                        py,
                    ),
{
    if used.len() == 0 {
        return;
    }
    let in_size = input_buffers[used[0]].size();
    let out_size = output_buffers[used[0]].size();
    let ghost stage0 = *stage;
    let ghost out0 = old(output_buffers)@;
    let ghost gorigin = (origin.0 as int, origin.1 as int);
    let ghost gin = (in_size.0 as int, in_size.1 as int);
    let ghost gout = (out_size.0 as int, out_size.1 as int);
    let ghost numc = used@.len() as int;

    // Copy the original data into the offset rectangle.
    let mut j: usize = 0;
    while j < used.len()
        invariant
            bufs_wf(input_buffers@),
            bufs_wf(output_buffers@),
            output_buffers@.len() == input_buffers@.len(),
            out0.len() == input_buffers@.len(),
            used_in_range(used@, input_buffers@.len() as int),
            strictly_increasing(used@),
            used@.len() > 0,
            sizes_all(input_buffers@, used@, in_size),
            sizes_all(out0, used@, out_size),
            in_size == input_buffers@[used@[0] as int].size_spec(),
            out_size == out0[used@[0] as int].size_spec(),
            origin.0 + in_size.0 <= out_size.0,
            origin.1 + in_size.1 <= out_size.1,
            j <= used@.len(),
            forall|k: int|
                0 <= k < output_buffers@.len()
                    ==> (#[trigger] output_buffers@[k]).size_spec() == out0[k].size_spec(),
            forall|k: int|
                0 <= k < output_buffers@.len() && !is_used(used@, k)
                    ==> output_buffers@[k] == out0[k],
            forall|c: int, px: int, py: int|
                0 <= c < j && 0 <= px < in_size.0 && 0 <= py < in_size.1
                    ==> #[trigger] output_buffers@[used@[c] as int].pix(
                        origin.0 + px, origin.1 + py)
                        == input_buffers@[used@[c] as int].pix(px, py),
        decreases used@.len() - j,
    {
        let mut y: usize = 0;
        while y < in_size.1
            invariant
                bufs_wf(input_buffers@),
                bufs_wf(output_buffers@),
                output_buffers@.len() == input_buffers@.len(),
                out0.len() == input_buffers@.len(),
                used_in_range(used@, input_buffers@.len() as int),
                strictly_increasing(used@),
                used@.len() > 0,
                sizes_all(input_buffers@, used@, in_size),
                sizes_all(out0, used@, out_size),
                in_size == input_buffers@[used@[0] as int].size_spec(),
                origin.0 + in_size.0 <= out_size.0,
                origin.1 + in_size.1 <= out_size.1,
                j < used@.len(),
                y <= in_size.1,
                forall|k: int|
                    0 <= k < output_buffers@.len()
                        ==> (#[trigger] output_buffers@[k]).size_spec() == out0[k].size_spec(),
                forall|k: int|
                    0 <= k < output_buffers@.len() && !is_used(used@, k)
                        ==> output_buffers@[k] == out0[k],
                forall|c: int, px: int, py: int|
                    0 <= c < j && 0 <= px < in_size.0 && 0 <= py < in_size.1
                        ==> #[trigger] output_buffers@[used@[c] as int].pix(
                            origin.0 + px, origin.1 + py)
                            == input_buffers@[used@[c] as int].pix(px, py),
                forall|px: int, py: int|
                    0 <= px < in_size.0 && 0 <= py < y
                        ==> #[trigger] output_buffers@[used@[j as int] as int].pix(
                            origin.0 + px, origin.1 + py)
                            == input_buffers@[used@[j as int] as int].pix(px, py),
            decreases in_size.1 - y,
        {
            let mut x: usize = 0;
            while x < in_size.0
                invariant
                    bufs_wf(input_buffers@),
                    bufs_wf(output_buffers@),
                    output_buffers@.len() == input_buffers@.len(),
                    out0.len() == input_buffers@.len(),
                    used_in_range(used@, input_buffers@.len() as int),
                    strictly_increasing(used@),
                    used@.len() > 0,
                    sizes_all(input_buffers@, used@, in_size),
                    sizes_all(out0, used@, out_size),
                    in_size == input_buffers@[used@[0] as int].size_spec(),
                    origin.0 + in_size.0 <= out_size.0,
                    origin.1 + in_size.1 <= out_size.1,
                    j < used@.len(),
                    y < in_size.1,
                    x <= in_size.0,
                    forall|k: int|
                        0 <= k < output_buffers@.len()
                            ==> (#[trigger] output_buffers@[k]).size_spec()
                                == out0[k].size_spec(),
                    forall|k: int|
                        0 <= k < output_buffers@.len() && !is_used(used@, k)
                            ==> output_buffers@[k] == out0[k],
                    forall|c: int, px: int, py: int|
                        0 <= c < j && 0 <= px < in_size.0 && 0 <= py < in_size.1
                            ==> #[trigger] output_buffers@[used@[c] as int].pix(
                                origin.0 + px, origin.1 + py)
                                == input_buffers@[used@[c] as int].pix(px, py),
                    forall|px: int, py: int|
                        0 <= px < in_size.0 && 0 <= py < y
                            ==> #[trigger] output_buffers@[used@[j as int] as int].pix(
                                origin.0 + px, origin.1 + py)
                                == input_buffers@[used@[j as int] as int].pix(px, py),
                    forall|px: int|
                        0 <= px < x
                            ==> #[trigger] output_buffers@[used@[j as int] as int].pix(
                                origin.0 + px, origin.1 + y)
                                == input_buffers@[used@[j as int] as int].pix(px, y as int),
                decreases in_size.0 - x,
            {
                let v = input_buffers[used[j]].get(x, y);
                let ghost prev = output_buffers@;
                output_buffers[used[j]].set(origin.0 + x, origin.1 + y, v);
                proof {
                    let kj = used@[j as int] as int;
                    assert forall|c: int, px: int, py: int|
                        0 <= c < j && 0 <= px < in_size.0 && 0 <= py < in_size.1
                            implies output_buffers@[used@[c] as int].pix(
                                origin.0 + px, origin.1 + py)
                                == input_buffers@[used@[c] as int].pix(px, py) by {
                        let k = used@[c] as int;
                        if k == kj {
                            assert(used@[c] < used@[j as int]);
                            assert(false);
                        } else {
                            assert(output_buffers@[k] == prev[k]);
                        }
                    }
                    assert forall|px: int, py: int|
                        0 <= px < in_size.0 && (0 <= py < y || (py == y && px < x + 1))
                            implies output_buffers@[kj].pix(origin.0 + px, origin.1 + py)
                                == input_buffers@[kj].pix(px, py) by {
                        if px == x && py == y {
                            assert(output_buffers@[kj].pix(origin.0 + px, origin.1 + py) == v);
                        } else {
                            assert(output_buffers@[kj].pix(origin.0 + px, origin.1 + py)
                                == prev[kj].pix(origin.0 + px, origin.1 + py));
                        }
                    }
                }
                x = x + 1;
            }
            y = y + 1;
        }
        j = j + 1;
    }

    // Synthesize the rows above and below the original rectangle.
    let mut band: usize = 0;
    while band < 2
        invariant
            stage.shape_wf(),
            same_stage_shape(stage0, *stage),
            forall|p: (int, int), xs: int, inp: Seq<Seq<Seq<u64>>>|
                #[trigger] stage.process_spec(p, xs, inp) == stage0.process_spec(p, xs, inp),
            stage.kind_spec() is Extend,
            1 <= chunk_size <= 0xFFFF,
            bufs_wf(input_buffers@),
            bufs_wf(output_buffers@),
            output_buffers@.len() == input_buffers@.len(),
            out0.len() == input_buffers@.len(),
            used_in_range(used@, input_buffers@.len() as int),
            strictly_increasing(used@),
            used@.len() > 0,
            numc == used@.len() as int,
            sizes_all(input_buffers@, used@, in_size),
            sizes_all(out0, used@, out_size),
            in_size == input_buffers@[used@[0] as int].size_spec(),
            out_size == out0[used@[0] as int].size_spec(),
            origin.0 + in_size.0 <= out_size.0,
            origin.1 + in_size.1 <= out_size.1,
            gorigin == (origin.0 as int, origin.1 as int),
            gin == (in_size.0 as int, in_size.1 as int),
            gout == (out_size.0 as int, out_size.1 as int),
            band <= 2,
            forall|k: int|
                0 <= k < output_buffers@.len()
                    ==> (#[trigger] output_buffers@[k]).size_spec() == out0[k].size_spec(),
            forall|k: int|
                0 <= k < output_buffers@.len() && !is_used(used@, k)
                    ==> output_buffers@[k] == out0[k],
            forall|c: int, px: int, py: int|
                0 <= c < used@.len() && 0 <= px < in_size.0 && 0 <= py < in_size.1
                    ==> #[trigger] output_buffers@[used@[c] as int].pix(
                        origin.0 + px, origin.1 + py)
                        == input_buffers@[used@[c] as int].pix(px, py),
            band >= 1 ==> forall|c: int, px: int, py: int|
                0 <= c < used@.len() && 0 <= px < out_size.0 && 0 <= py < origin.1
                    ==> #[trigger] output_buffers@[used@[c] as int].pix(px, py)
                        == extend_value_at(stage0, numc, gorigin, gin, gout,
                            chunk_size as int, c, px, py),
            band >= 2 ==> forall|c: int, px: int, py: int|
                0 <= c < used@.len() && 0 <= px < out_size.0
                    && origin.1 + in_size.1 <= py < out_size.1
                    ==> #[trigger] output_buffers@[used@[c] as int].pix(px, py)
                        == extend_value_at(stage0, numc, gorigin, gin, gout,
                            chunk_size as int, c, px, py),
        decreases 2 - band,
    {
        let (ystart, yend) = if band == 0 {
            (0usize, origin.1)
        } else {
            (origin.1 + in_size.1, out_size.1)
        };
        let mut y: usize = ystart;
        while y < yend
            invariant
                stage.shape_wf(),
                same_stage_shape(stage0, *stage),
                forall|p: (int, int), xs: int, inp: Seq<Seq<Seq<u64>>>|
                    #[trigger] stage.process_spec(p, xs, inp)
                        == stage0.process_spec(p, xs, inp),
                stage.kind_spec() is Extend,
                1 <= chunk_size <= 0xFFFF,
                bufs_wf(input_buffers@),
                bufs_wf(output_buffers@),
                output_buffers@.len() == input_buffers@.len(),
                out0.len() == input_buffers@.len(),
                used_in_range(used@, input_buffers@.len() as int),
                strictly_increasing(used@),
                used@.len() > 0,
                numc == used@.len() as int,
                sizes_all(input_buffers@, used@, in_size),
                sizes_all(out0, used@, out_size),
                in_size == input_buffers@[used@[0] as int].size_spec(),
                out_size == out0[used@[0] as int].size_spec(),
                origin.0 + in_size.0 <= out_size.0,
                origin.1 + in_size.1 <= out_size.1,
                gorigin == (origin.0 as int, origin.1 as int),
                gin == (in_size.0 as int, in_size.1 as int),
                gout == (out_size.0 as int, out_size.1 as int),
                band < 2,
                yend <= out_size.1,
                band == 0 ==> ystart == 0 && yend == origin.1,
                band == 1 ==> ystart == origin.1 + in_size.1 && yend == out_size.1,
                ystart <= y <= yend,
                forall|k: int|
                    0 <= k < output_buffers@.len()
                        ==> (#[trigger] output_buffers@[k]).size_spec() == out0[k].size_spec(),
                forall|k: int|
                    0 <= k < output_buffers@.len() && !is_used(used@, k)
                        ==> output_buffers@[k] == out0[k],
                forall|c: int, px: int, py: int|
                    0 <= c < used@.len() && 0 <= px < in_size.0 && 0 <= py < in_size.1
                        ==> #[trigger] output_buffers@[used@[c] as int].pix(
                            origin.0 + px, origin.1 + py)
                            == input_buffers@[used@[c] as int].pix(px, py),
                band == 1 ==> forall|c: int, px: int, py: int|
                    0 <= c < used@.len() && 0 <= px < out_size.0 && 0 <= py < origin.1
                        ==> #[trigger] output_buffers@[used@[c] as int].pix(px, py)
                            == extend_value_at(stage0, numc, gorigin, gin, gout,
                                chunk_size as int, c, px, py),
                forall|c: int, px: int, py: int|
                    0 <= c < used@.len() && 0 <= px < out_size.0 && ystart <= py < y
                        ==> #[trigger] output_buffers@[used@[c] as int].pix(px, py)
                            == extend_value_at(stage0, numc, gorigin, gin, gout,
                                chunk_size as int, c, px, py),
            decreases yend - y,
        {
            let mut x: usize = 0;
            while x < out_size.0
                invariant
                    stage.shape_wf(),
                    same_stage_shape(stage0, *stage),
                    forall|p: (int, int), xs: int, inp: Seq<Seq<Seq<u64>>>|
                        #[trigger] stage.process_spec(p, xs, inp)
                            == stage0.process_spec(p, xs, inp),
                    stage.kind_spec() is Extend,
                    1 <= chunk_size <= 0xFFFF,
                    bufs_wf(input_buffers@),
                    bufs_wf(output_buffers@),
                    output_buffers@.len() == input_buffers@.len(),
                    out0.len() == input_buffers@.len(),
                    used_in_range(used@, input_buffers@.len() as int),
                    strictly_increasing(used@),
                    used@.len() > 0,
                    numc == used@.len() as int,
                    sizes_all(input_buffers@, used@, in_size),
                    sizes_all(out0, used@, out_size),
                    in_size == input_buffers@[used@[0] as int].size_spec(),
                    out_size == out0[used@[0] as int].size_spec(),
                    origin.0 + in_size.0 <= out_size.0,
                    origin.1 + in_size.1 <= out_size.1,
                    gorigin == (origin.0 as int, origin.1 as int),
                    gin == (in_size.0 as int, in_size.1 as int),
                    gout == (out_size.0 as int, out_size.1 as int),
                    band < 2,
                    y < out_size.1,
                    band == 0 ==> y < origin.1,
                    band == 1 ==> origin.1 + in_size.1 <= y,
                    band == 0 ==> ystart == 0 && yend == origin.1,
                    band == 1 ==> ystart == origin.1 + in_size.1 && yend == out_size.1,
                    ystart <= y < yend,
                    x <= out_size.0,
                    x % chunk_size == 0 || x == out_size.0,
                    forall|k: int|
                        0 <= k < output_buffers@.len()
                            ==> (#[trigger] output_buffers@[k]).size_spec()
                                == out0[k].size_spec(),
                    forall|k: int|
                        0 <= k < output_buffers@.len() && !is_used(used@, k)
                            ==> output_buffers@[k] == out0[k],
                    forall|c: int, px: int, py: int|
                        0 <= c < used@.len() && 0 <= px < in_size.0 && 0 <= py < in_size.1
                            ==> #[trigger] output_buffers@[used@[c] as int].pix(
                                origin.0 + px, origin.1 + py)
                                == input_buffers@[used@[c] as int].pix(px, py),
                    band == 1 ==> forall|c: int, px: int, py: int|
                        0 <= c < used@.len() && 0 <= px < out_size.0 && 0 <= py < origin.1
                            ==> #[trigger] output_buffers@[used@[c] as int].pix(px, py)
                                == extend_value_at(stage0, numc, gorigin, gin, gout,
                                    chunk_size as int, c, px, py),
                    forall|c: int, px: int, py: int|
                        0 <= c < used@.len() && 0 <= px < out_size.0 && ystart <= py < y
                            ==> #[trigger] output_buffers@[used@[c] as int].pix(px, py)
                                == extend_value_at(stage0, numc, gorigin, gin, gout,
                                    chunk_size as int, c, px, py),
                    forall|c: int, px: int|
                        0 <= c < used@.len() && 0 <= px < x
                            ==> #[trigger] output_buffers@[used@[c] as int].pix(px, y as int)
                                == extend_value_at(stage0, numc, gorigin, gin, gout,
                                    chunk_size as int, c, px, y as int),
                decreases out_size.0 - x,
            {
                let xsize = if chunk_size <= out_size.0 - x { chunk_size } else { out_size.0 - x };
                let chunk = empty_chunk(used.len());
                let ghost pre = *stage;
                let out = stage.process_row_chunk((x, y), xsize, chunk);
                proof {
                    assert(out.deep_view() == pre.process_spec((x as int, y as int),
                        xsize as int, empty_rows(numc)));
                    assert forall|c: int|
                        0 <= c < out@.len() implies (#[trigger] out@[c])@.len() == 1
                            && out@[c]@[0]@.len() == xsize by {
                        assert(out.deep_view()[c] == out@[c].deep_view());
                        assert(out.deep_view()[c][0] == out@[c]@[0].deep_view());
                    }
                    assert forall|c: int, i: int|
                        0 <= c < used@.len() && 0 <= i < xsize
                            implies out@[c]@[0]@[i] == extend_value_at(stage0, numc, gorigin,
                                gin, gout, chunk_size as int, c, x + i, y as int) by {
                        lemma_chunk_start(chunk_size as int, x as int, x + i);
                        assert(out.deep_view()[c] == out@[c].deep_view());
                        assert(out@[c].deep_view()[0] == out@[c]@[0].deep_view());
                        assert(out@[c]@[0].deep_view()[i] == out@[c]@[0]@[i]);
                        assert(xsize as int
                            == chunk_width(gout.0, chunk_size as int, x as int));
                    }
                }
                let ghost prev = output_buffers@;
                scatter_row(output_buffers, used, &out, 0, x, y, xsize, out_size);
                proof {
                    assert forall|c: int, px: int, py: int|
                        0 <= c < used@.len() && 0 <= px < in_size.0 && 0 <= py < in_size.1
                            implies output_buffers@[used@[c] as int].pix(
                                origin.0 + px, origin.1 + py)
                                == input_buffers@[used@[c] as int].pix(px, py) by {
                        let k = used@[c] as int;
                        assert(is_used(used@, k));
                        assert(origin.1 + py != y);
                        assert(output_buffers@[k].pix(origin.0 + px, origin.1 + py)
                            == prev[k].pix(origin.0 + px, origin.1 + py));
                    }
                    assert forall|c: int, px: int, py: int|
                        0 <= c < used@.len()
                            && ((0 <= px < out_size.0 && ystart <= py < y && band == 1
                                    && 0 <= py)
                                || (0 <= px < out_size.0 && 0 <= py < origin.1 && band == 1)
                                || (0 <= px < out_size.0 && ystart <= py < y)
                                || (0 <= px < x + xsize && py == y))
                            implies output_buffers@[used@[c] as int].pix(px, py)
                                == extend_value_at(stage0, numc, gorigin, gin, gout,
                                    chunk_size as int, c, px, py) by {
                        let k = used@[c] as int;
                        assert(is_used(used@, k));
                        if py == y && x <= px < x + xsize {
                            assert(output_buffers@[k].pix(px, py)
                                == out@[c]@[0]@[px - x]);
                        } else {
                            assert(!(x <= px < x + xsize && py == y));
                            assert(output_buffers@[k].pix(px, py) == prev[k].pix(px, py));
                        }
                    }
                }
                proof {
                    if chunk_size <= out_size.0 - x {
                        vstd::arithmetic::div_mod::lemma_mod_multiples_vanish(
                            1, x as int, chunk_size as int);
                    }
                }
                x = x + xsize;
            }
            y = y + 1;
        }
        band = band + 1;
    }

    // Left and right flanks of the original rectangle.
    let base = origin.0 + in_size.0;
    let mut y: usize = origin.1;
    while y < origin.1 + in_size.1
        invariant
            stage.shape_wf(),
            same_stage_shape(stage0, *stage),
            forall|p: (int, int), xs: int, inp: Seq<Seq<Seq<u64>>>|
                #[trigger] stage.process_spec(p, xs, inp) == stage0.process_spec(p, xs, inp),
            stage.kind_spec() is Extend,
            1 <= chunk_size <= 0xFFFF,
            bufs_wf(input_buffers@),
            bufs_wf(output_buffers@),
            output_buffers@.len() == input_buffers@.len(),
            out0.len() == input_buffers@.len(),
            used_in_range(used@, input_buffers@.len() as int),
            strictly_increasing(used@),
            used@.len() > 0,
            numc == used@.len() as int,
            sizes_all(input_buffers@, used@, in_size),
            sizes_all(out0, used@, out_size),
            in_size == input_buffers@[used@[0] as int].size_spec(),
            out_size == out0[used@[0] as int].size_spec(),
            origin.0 + in_size.0 <= out_size.0,
            origin.1 + in_size.1 <= out_size.1,
            gorigin == (origin.0 as int, origin.1 as int),
            gin == (in_size.0 as int, in_size.1 as int),
            gout == (out_size.0 as int, out_size.1 as int),
            base == origin.0 + in_size.0,
            origin.1 <= y <= origin.1 + in_size.1,
            forall|k: int|
                0 <= k < output_buffers@.len()
                    ==> (#[trigger] output_buffers@[k]).size_spec() == out0[k].size_spec(),
            forall|k: int|
                0 <= k < output_buffers@.len() && !is_used(used@, k)
                    ==> output_buffers@[k] == out0[k],
            forall|c: int, px: int, py: int|
                0 <= c < used@.len() && 0 <= px < in_size.0 && 0 <= py < in_size.1
                    ==> #[trigger] output_buffers@[used@[c] as int].pix(
                        origin.0 + px, origin.1 + py)
                        == input_buffers@[used@[c] as int].pix(px, py),
            forall|c: int, px: int, py: int|
                0 <= c < used@.len() && 0 <= px < out_size.0
                    && (0 <= py < origin.1 || origin.1 + in_size.1 <= py < out_size.1)
                    ==> #[trigger] output_buffers@[used@[c] as int].pix(px, py)
                        == extend_value_at(stage0, numc, gorigin, gin, gout,
                            chunk_size as int, c, px, py),
            forall|c: int, px: int, py: int|
                0 <= c < used@.len() && origin.1 <= py < y
                    && (0 <= px < origin.0 || base <= px < out_size.0)
                    ==> #[trigger] output_buffers@[used@[c] as int].pix(px, py)
                        == extend_value_at(stage0, numc, gorigin, gin, gout,
                            chunk_size as int, c, px, py),
        decreases origin.1 + in_size.1 - y,
    {
        let mut side: usize = 0;
        while side < 2
            invariant
                stage.shape_wf(),
                same_stage_shape(stage0, *stage),
                forall|p: (int, int), xs: int, inp: Seq<Seq<Seq<u64>>>|
                    #[trigger] stage.process_spec(p, xs, inp)
                        == stage0.process_spec(p, xs, inp),
                stage.kind_spec() is Extend,
                1 <= chunk_size <= 0xFFFF,
                bufs_wf(input_buffers@),
                bufs_wf(output_buffers@),
                output_buffers@.len() == input_buffers@.len(),
                out0.len() == input_buffers@.len(),
                used_in_range(used@, input_buffers@.len() as int),
                strictly_increasing(used@),
                used@.len() > 0,
                numc == used@.len() as int,
                sizes_all(input_buffers@, used@, in_size),
                sizes_all(out0, used@, out_size),
                in_size == input_buffers@[used@[0] as int].size_spec(),
                out_size == out0[used@[0] as int].size_spec(),
                origin.0 + in_size.0 <= out_size.0,
                origin.1 + in_size.1 <= out_size.1,
                gorigin == (origin.0 as int, origin.1 as int),
                gin == (in_size.0 as int, in_size.1 as int),
                gout == (out_size.0 as int, out_size.1 as int),
                base == origin.0 + in_size.0,
                origin.1 <= y < origin.1 + in_size.1,
                side <= 2,
                forall|k: int|
                    0 <= k < output_buffers@.len()
                        ==> (#[trigger] output_buffers@[k]).size_spec() == out0[k].size_spec(),
                forall|k: int|
                    0 <= k < output_buffers@.len() && !is_used(used@, k)
                        ==> output_buffers@[k] == out0[k],
                forall|c: int, px: int, py: int|
                    0 <= c < used@.len() && 0 <= px < in_size.0 && 0 <= py < in_size.1
                        ==> #[trigger] output_buffers@[used@[c] as int].pix(
                            origin.0 + px, origin.1 + py)
                            == input_buffers@[used@[c] as int].pix(px, py),
                forall|c: int, px: int, py: int|
                    0 <= c < used@.len() && 0 <= px < out_size.0
                        && (0 <= py < origin.1 || origin.1 + in_size.1 <= py < out_size.1)
                        ==> #[trigger] output_buffers@[used@[c] as int].pix(px, py)
                            == extend_value_at(stage0, numc, gorigin, gin, gout,
                                chunk_size as int, c, px, py),
                forall|c: int, px: int, py: int|
                    0 <= c < used@.len() && origin.1 <= py < y
                        && (0 <= px < origin.0 || base <= px < out_size.0)
                        ==> #[trigger] output_buffers@[used@[c] as int].pix(px, py)
                            == extend_value_at(stage0, numc, gorigin, gin, gout,
                                chunk_size as int, c, px, py),
                side >= 1 ==> forall|c: int, px: int|
                    0 <= c < used@.len() && 0 <= px < origin.0
                        ==> #[trigger] output_buffers@[used@[c] as int].pix(px, y as int)
                            == extend_value_at(stage0, numc, gorigin, gin, gout,
                                chunk_size as int, c, px, y as int),
                side >= 2 ==> forall|c: int, px: int|
                    0 <= c < used@.len() && base <= px < out_size.0
                        ==> #[trigger] output_buffers@[used@[c] as int].pix(px, y as int)
                            == extend_value_at(stage0, numc, gorigin, gin, gout,
                                chunk_size as int, c, px, y as int),
            decreases 2 - side,
        {
            let (xstart, xend) = if side == 0 {
                (0usize, origin.0)
            } else {
                (base, out_size.0)
            };
            let mut x: usize = xstart;
            while x < xend
                invariant
                    stage.shape_wf(),
                    same_stage_shape(stage0, *stage),
                    forall|p: (int, int), xs: int, inp: Seq<Seq<Seq<u64>>>|
                        #[trigger] stage.process_spec(p, xs, inp)
                            == stage0.process_spec(p, xs, inp),
                    stage.kind_spec() is Extend,
                    1 <= chunk_size <= 0xFFFF,
                    bufs_wf(input_buffers@),
                    bufs_wf(output_buffers@),
                    output_buffers@.len() == input_buffers@.len(),
                    out0.len() == input_buffers@.len(),
                    used_in_range(used@, input_buffers@.len() as int),
                    strictly_increasing(used@),
                    used@.len() > 0,
                    numc == used@.len() as int,
                    sizes_all(input_buffers@, used@, in_size),
                    sizes_all(out0, used@, out_size),
                    in_size == input_buffers@[used@[0] as int].size_spec(),
                    out_size == out0[used@[0] as int].size_spec(),
                    origin.0 + in_size.0 <= out_size.0,
                    origin.1 + in_size.1 <= out_size.1,
                    gorigin == (origin.0 as int, origin.1 as int),
                    gin == (in_size.0 as int, in_size.1 as int),
                    gout == (out_size.0 as int, out_size.1 as int),
                    base == origin.0 + in_size.0,
                    origin.1 <= y < origin.1 + in_size.1,
                    side < 2,
                    side == 0 ==> xstart == 0 && xend == origin.0,
                    side == 1 ==> xstart == base && xend == out_size.0,
                    xstart <= x <= xend,
                    side == 0 ==> x % chunk_size == 0 || x == xend,
                    side == 1 ==> (x as int - base as int) % (chunk_size as int) == 0 || x == xend,
                    forall|k: int|
                        0 <= k < output_buffers@.len()
                            ==> (#[trigger] output_buffers@[k]).size_spec()
                                == out0[k].size_spec(),
                    forall|k: int|
                        0 <= k < output_buffers@.len() && !is_used(used@, k)
                            ==> output_buffers@[k] == out0[k],
                    forall|c: int, px: int, py: int|
                        0 <= c < used@.len() && 0 <= px < in_size.0 && 0 <= py < in_size.1
                            ==> #[trigger] output_buffers@[used@[c] as int].pix(
                                origin.0 + px, origin.1 + py)
                                == input_buffers@[used@[c] as int].pix(px, py),
                    forall|c: int, px: int, py: int|
                        0 <= c < used@.len() && 0 <= px < out_size.0
                            && (0 <= py < origin.1 || origin.1 + in_size.1 <= py < out_size.1)
                            ==> #[trigger] output_buffers@[used@[c] as int].pix(px, py)
                                == extend_value_at(stage0, numc, gorigin, gin, gout,
                                    chunk_size as int, c, px, py),
                    forall|c: int, px: int, py: int|
                        0 <= c < used@.len() && origin.1 <= py < y
                            && (0 <= px < origin.0 || base <= px < out_size.0)
                            ==> #[trigger] output_buffers@[used@[c] as int].pix(px, py)
                                == extend_value_at(stage0, numc, gorigin, gin, gout,
                                    chunk_size as int, c, px, py),
                    side >= 1 ==> forall|c: int, px: int|
                        0 <= c < used@.len() && 0 <= px < origin.0
                            ==> #[trigger] output_buffers@[used@[c] as int].pix(px, y as int)
                                == extend_value_at(stage0, numc, gorigin, gin, gout,
                                    chunk_size as int, c, px, y as int),
                    forall|c: int, px: int|
                        0 <= c < used@.len() && xstart <= px < x
                            ==> #[trigger] output_buffers@[used@[c] as int].pix(px, y as int)
                                == extend_value_at(stage0, numc, gorigin, gin, gout,
                                    chunk_size as int, c, px, y as int),
                decreases xend - x,
            {
                let xsize = if chunk_size <= xend - x { chunk_size } else { xend - x };
                let chunk = empty_chunk(used.len());
                let ghost pre = *stage;
                let out = stage.process_row_chunk((x, y), xsize, chunk);
                proof {
                    assert(out.deep_view() == pre.process_spec((x as int, y as int),
                        xsize as int, empty_rows(numc)));
                    assert forall|c: int|
                        0 <= c < out@.len() implies (#[trigger] out@[c])@.len() == 1
                            && out@[c]@[0]@.len() == xsize by {
                        assert(out.deep_view()[c] == out@[c].deep_view());
                        assert(out.deep_view()[c][0] == out@[c]@[0].deep_view());
                    }
                    assert forall|c: int, i: int|
                        0 <= c < used@.len() && 0 <= i < xsize
                            implies out@[c]@[0]@[i] == extend_value_at(stage0, numc, gorigin,
                                gin, gout, chunk_size as int, c, x + i, y as int) by {
                        assert(out.deep_view()[c] == out@[c].deep_view());
                        assert(out@[c].deep_view()[0] == out@[c]@[0].deep_view());
                        assert(out@[c]@[0].deep_view()[i] == out@[c]@[0]@[i]);
                        if side == 0 {
                            lemma_chunk_start(chunk_size as int, x as int, x + i);
                            assert(x + i < origin.0);
                            assert(xsize as int
                                == chunk_width(gorigin.0, chunk_size as int, x as int));
                        } else {
                            lemma_chunk_start(chunk_size as int, x as int - base,
                                x + i - base);
                            assert(x + i >= base);
                            assert(xsize as int
                                == chunk_width(gout.0, chunk_size as int, x as int));
                        }
                    }
                }
                let ghost prev = output_buffers@;
                scatter_row(output_buffers, used, &out, 0, x, y, xsize, out_size);
                proof {
                    assert forall|c: int, px: int, py: int|
                        0 <= c < used@.len() && 0 <= px < in_size.0 && 0 <= py < in_size.1
                            implies output_buffers@[used@[c] as int].pix(
                                origin.0 + px, origin.1 + py)
                                == input_buffers@[used@[c] as int].pix(px, py) by {
                        let k = used@[c] as int;
                        assert(is_used(used@, k));
                        assert(!(x <= origin.0 + px < x + xsize && origin.1 + py == y)) by {
                            if origin.1 + py == y {
                                if side == 0 {
                                    assert(origin.0 + px >= origin.0 >= xend >= x + xsize);
                                } else {
                                    assert(origin.0 + px < base <= xstart <= x);
                                }
                            }
                        }
                        assert(output_buffers@[k].pix(origin.0 + px, origin.1 + py)
                            == prev[k].pix(origin.0 + px, origin.1 + py));
                    }
                    assert forall|c: int, px: int, py: int|
                        0 <= c < used@.len()
                            && ((0 <= px < out_size.0
                                    && (0 <= py < origin.1
                                        || origin.1 + in_size.1 <= py < out_size.1))
                                || (origin.1 <= py < y
                                    && (0 <= px < origin.0 || base <= px < out_size.0))
                                || (py == y && 0 <= px < origin.0 && side >= 1)
                                || (py == y && xstart <= px < x + xsize))
                            implies output_buffers@[used@[c] as int].pix(px, py)
                                == extend_value_at(stage0, numc, gorigin, gin, gout,
                                    chunk_size as int, c, px, py) by {
                        let k = used@[c] as int;
                        assert(is_used(used@, k));
                        if py == y && x <= px < x + xsize {
                            assert(output_buffers@[k].pix(px, py)
                                == out@[c]@[0]@[px - x]);
                        } else {
                            assert(!(x <= px < x + xsize && py == y));
                            assert(output_buffers@[k].pix(px, py) == prev[k].pix(px, py));
                        }
                    }
                }
                proof {
                    if chunk_size <= xend - x {
                        if side == 0 {
                            vstd::arithmetic::div_mod::lemma_mod_multiples_vanish(
                                1, x as int, chunk_size as int);
                        } else {
                            vstd::arithmetic::div_mod::lemma_mod_multiples_vanish(
                                1, x as int - base, chunk_size as int);
                        }
                    }
                }
                x = x + xsize;
            }
            side = side + 1;
        }
        y = y + 1;
    }
    proof {
        assert forall|c: int, px: int, py: int|
            0 <= c < used@.len() && 0 <= px < out_size.0 && 0 <= py < out_size.1
                && !(origin.0 <= px < origin.0 + in_size.0
                    && origin.1 <= py < origin.1 + in_size.1)
                implies output_buffers@[used@[c] as int].pix(px, py)
                    == extend_value_at(stage0, numc, gorigin, gin, gout,
                        chunk_size as int, c, px, py) by {}
        assert forall|k: int, px: int, py: int|
            0 <= k < output_buffers@.len() && is_used(used@, k)
                && 0 <= px < in_size.0 && 0 <= py < in_size.1
                implies output_buffers@[k].pix(origin.0 + px, origin.1 + py)
                    == input_buffers@[k].pix(px, py) by {
            let c = choose|c: int| 0 <= c < used@.len() && used@[c] == k;
            assert(output_buffers@[used@[c] as int].pix(origin.0 + px, origin.1 + py)
                == input_buffers@[used@[c] as int].pix(px, py));
        }
    }
}

} // verus!

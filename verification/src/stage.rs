//! The processing-stage abstraction: structural kinds, the stage trait with
//! its shape laws, and the coordinate mirror rule used for borders.

use vstd::prelude::*;

verus! {

use vstd::arithmetic::power2::pow2;
use crate::sample::SampleType;

/// The four structural variants of a stage.
#[derive(Clone, Copy, Debug, PartialEq, Eq, Structural)]
pub enum StageKind {
    /// Consumes row chunks and writes nowhere (a sink such as a save stage).
    Input,
    /// Rewrites samples in place without changing geometry.
    InPlace,
    /// Reads a bordered window and writes an upsampled window.
    InOut,
    /// Enlarges the canvas, synthesizing pixels outside the original data.
    Extend,
}

/// Rows of input a stage's chunk callback reads per used channel.
pub open spec fn in_rows_spec(kind: StageKind, border_y: u8) -> int {
    match kind {
        StageKind::InOut => 2 * border_y + 1,
        StageKind::Extend => 0,
        _ => 1,
    }
}

/// Samples per input row a stage's chunk callback reads.
pub open spec fn in_width_spec(kind: StageKind, border_x: u8, xsize: int) -> int {
    match kind {
        StageKind::InOut => xsize + 2 * border_x,
        StageKind::Extend => 0,
        _ => xsize,
    }
}

/// Rows of output a stage's chunk callback produces per used channel.
pub open spec fn out_rows_spec(kind: StageKind, shift_y: u8) -> int {
    match kind {
        StageKind::Input => 0,
        StageKind::InOut => pow2(shift_y as nat) as int,
        _ => 1,
    }
}

/// Samples per output row a stage's chunk callback produces.
pub open spec fn out_width_spec(kind: StageKind, shift_x: u8, xsize: int) -> int {
    match kind {
        StageKind::Input => 0,
        StageKind::InOut => xsize * pow2(shift_x as nat) as int,
        _ => xsize,
    }
}

/// Whether `chunk` is a channels-by-rows-by-samples block of the given shape.
pub open spec fn chunk_shaped(chunk: Seq<Seq<Seq<u64>>>, rows: int, width: int) -> bool {
    forall|c: int|
        0 <= c < chunk.len() ==> {
            &&& (#[trigger] chunk[c]).len() == rows
            &&& forall|r: int| 0 <= r < chunk[c].len() ==> (#[trigger] chunk[c][r]).len() == width
        }
}

/// A single processing step over a subset of channels.
///
/// A stage is polymorphic over its structural kind; the kind decides the
/// shape of the data its chunk callback exchanges with the executors. Chunk
/// data travels as wide transport codes; a stage converts at its own
/// boundary.
pub trait RenderPipelineStage: Sized {
    /// The structural kind of this stage.
    spec fn kind_spec(&self) -> StageKind;

    /// The sample type this stage consumes.
    spec fn input_type_spec(&self) -> SampleType;

    /// The sample type this stage produces.
    spec fn output_type_spec(&self) -> SampleType;

    /// Log-2 upsample factor applied to output dimensions.
    spec fn shift_spec(&self) -> (u8, u8);

    /// Extra input samples needed around a chunk, per axis.
    spec fn border_spec(&self) -> (u8, u8);

    /// Whether this stage reads or writes channel `c`.
    spec fn uses_channel_spec(&self, c: int) -> bool;

    /// The canvas size this stage produces from an input canvas size.
    spec fn new_size_spec(&self, size: (int, int)) -> (int, int);

    /// Where the original canvas lands inside the enlarged one (canvas-
    /// extending stages only).
    spec fn origin_spec(&self) -> (int, int);

    /// The output block the chunk callback produces from an input block.
    /// This does not depend on the state the stage accumulates: a stage's
    /// chunk outputs are fixed by its configuration.
    spec fn process_spec(&self, pos: (int, int), xsize: int, input: Seq<Seq<Seq<u64>>>)
        -> Seq<Seq<Seq<u64>>>;

    /// How one chunk call transforms the stage's state: relates the state
    /// before the call to the state after it, for the given position and
    /// input block. A sink such as a save stage states here what it wrote.
    spec fn post_state_spec(
        &self,
        post: Self,
        pos: (int, int),
        xsize: int,
        input: Seq<Seq<Seq<u64>>>,
    ) -> bool;

    /// The structural laws of the stage's kind: identity geometry for
    /// in-place and input stages, shift-scaled geometry for in-out stages,
    /// and a canvas that contains the original rectangle for extend stages.
    spec fn shape_wf(&self) -> bool;

    /// Every stage keeps these laws; they tie `shape_wf` to the attributes.
    proof fn lemma_shape_wf(&self)
        requires
            self.shape_wf(),
        ensures
            match self.kind_spec() {
                StageKind::Input | StageKind::InPlace => {
                    &&& self.shift_spec() == (0u8, 0u8)
                    &&& self.border_spec() == (0u8, 0u8)
                    &&& self.output_type_spec() == self.input_type_spec()
                    &&& forall|s: (int, int)| #[trigger] self.new_size_spec(s) == s
                },
                StageKind::InOut => forall|s: (int, int)| #[trigger] self.new_size_spec(s) == s,
                StageKind::Extend => {
                    &&& self.shift_spec() == (0u8, 0u8)
                    &&& self.border_spec() == (0u8, 0u8)
                    &&& self.output_type_spec() == self.input_type_spec()
                    &&& self.origin_spec().0 >= 0
                    &&& self.origin_spec().1 >= 0
                    &&& forall|s: (int, int)|
                        s.0 >= 0 && s.1 >= 0 ==> {
                            &&& (#[trigger] self.new_size_spec(s)).0 >= s.0 + self.origin_spec().0
                            &&& self.new_size_spec(s).1 >= s.1 + self.origin_spec().1
                        }
                },
            },
    ;

    /// A short display name for error reports.
    fn name(&self) -> String;

    fn kind(&self) -> (k: StageKind)
        ensures
            k == self.kind_spec(),
    ;

    fn input_type(&self) -> (t: SampleType)
        ensures
            t == self.input_type_spec(),
    ;

    fn output_type(&self) -> (t: SampleType)
        ensures
            t == self.output_type_spec(),
    ;

    fn shift(&self) -> (s: (u8, u8))
        ensures
            s == self.shift_spec(),
    ;

    fn border(&self) -> (b: (u8, u8))
        ensures
            b == self.border_spec(),
    ;

    fn uses_channel(&self, c: usize) -> (b: bool)
        ensures
            b == self.uses_channel_spec(c as int),
    ;

    /// The output canvas size, or `None` where it does not fit in `usize`.
    fn new_size(&self, size: (usize, usize)) -> (r: Option<(usize, usize)>)
        ensures
            r matches Some(s) ==> (s.0 as int, s.1 as int)
                == self.new_size_spec((size.0 as int, size.1 as int)),
            r is None ==> !{
                let ns = self.new_size_spec((size.0 as int, size.1 as int));
                0 <= ns.0 <= usize::MAX && 0 <= ns.1 <= usize::MAX
            },
    ;

    /// Where the original canvas lands inside the enlarged one.
    fn original_data_origin(&self) -> (o: (usize, usize))
        ensures
            (o.0 as int, o.1 as int) == self.origin_spec(),
    ;

    /// Process one chunk of rows: `input` holds, for every used channel, the
    /// input rows of this chunk; the result holds the produced rows. Both
    /// blocks are shaped by the stage's kind.
    fn process_row_chunk(
        &mut self,
        pos: (usize, usize),
        xsize: usize,
        input: Vec<Vec<Vec<u64>>>,
    ) -> (out: Vec<Vec<Vec<u64>>>)
        requires
            old(self).shape_wf(),
            xsize >= 1,
            chunk_shaped(
                input.deep_view(),
                in_rows_spec(old(self).kind_spec(), old(self).border_spec().1),
                in_width_spec(old(self).kind_spec(), old(self).border_spec().0, xsize as int),
            ),
        ensures
            out.deep_view() == old(self).process_spec(
                (pos.0 as int, pos.1 as int),
                xsize as int,
                input.deep_view(),
            ),
            old(self).post_state_spec(
                *final(self),
                (pos.0 as int, pos.1 as int),
                xsize as int,
                input.deep_view(),
            ),
            forall|p: (int, int), xs: int, inp: Seq<Seq<Seq<u64>>>|
                #[trigger] final(self).process_spec(p, xs, inp)
                    == old(self).process_spec(p, xs, inp),
            out.deep_view().len() == if old(self).kind_spec() is Input {
                0int
            } else {
                input.deep_view().len() as int
            },
            chunk_shaped(
                out.deep_view(),
                out_rows_spec(old(self).kind_spec(), old(self).shift_spec().1),
                out_width_spec(old(self).kind_spec(), old(self).shift_spec().0, xsize as int),
            ),
            final(self).shape_wf(),
            final(self).kind_spec() == old(self).kind_spec(),
            final(self).input_type_spec() == old(self).input_type_spec(),
            final(self).output_type_spec() == old(self).output_type_spec(),
            final(self).shift_spec() == old(self).shift_spec(),
            final(self).border_spec() == old(self).border_spec(),
            final(self).origin_spec() == old(self).origin_spec(),
            forall|c: int| final(self).uses_channel_spec(c) == old(self).uses_channel_spec(c),
            forall|s: (int, int)| final(self).new_size_spec(s) == old(self).new_size_spec(s),
    ;
}

/// The coordinate mirror rule: reflect `v` into `[0, size)` about the two
/// boundaries, as a total function.
pub open spec fn mirror_spec(v: int, size: int) -> int
    recommends
        size >= 1,
    decreases
        (if v < 0 { -v } else { v }),
    when size >= 1
{
    if 0 <= v < size {
        v
    } else if v < 0 {
        mirror_spec(-v - 1, size)
    } else if v <= 2 * size - 1 {
        2 * size - v - 1
    } else {
        mirror_spec(2 * size - v - 1, size)
    }
}

/// The mirror rule lands in `[0, size)` and fixes every in-range coordinate.
pub proof fn lemma_mirror_in_range(v: int, size: int)
    requires
        size >= 1,
    ensures
        0 <= mirror_spec(v, size) < size,
        0 <= v < size ==> mirror_spec(v, size) == v,
    decreases
        (if v < 0 { -v } else { v }),
{
    if 0 <= v < size {
    } else if v < 0 {
        lemma_mirror_in_range(-v - 1, size);
    } else if v <= 2 * size - 1 {
    } else {
        lemma_mirror_in_range(2 * size - v - 1, size);
    }
}

/// Reflect coordinate `v` into `[0, size)` by mirroring at the boundaries.
pub fn mirror(v: i64, size: i64) -> (r: i64)
    requires
        1 <= size,
        size <= 0x1000_0000_0000_0000,
        -0x2000_0000_0000_0000 <= v <= 0x2000_0000_0000_0000,
    ensures
        r == mirror_spec(v as int, size as int),
        0 <= r < size,
{
    proof {
        lemma_mirror_in_range(v as int, size as int);
    }
    let mut cur: i64 = v;
    while cur < 0 || cur >= size
        invariant
            1 <= size,
            size <= 0x1000_0000_0000_0000,
            -0x2000_0000_0000_0001 <= cur <= 0x2000_0000_0000_0000,
            mirror_spec(cur as int, size as int) == mirror_spec(v as int, size as int),
        decreases
            (if cur < 0 { -(cur as int) } else { cur as int }),
    {
        if cur < 0 {
            cur = -cur - 1;
        } else {
            proof {
                lemma_mirror_in_range(2 * (size as int) - (cur as int) - 1, size as int);
            }
            cur = 2 * size - cur - 1;
            if cur < 0 {
                proof {
                    assert(mirror_spec(-(cur as int) - 1, size as int)
                        == mirror_spec(cur as int, size as int));
                }
            }
        }
    }
    cur
}

} // verus!

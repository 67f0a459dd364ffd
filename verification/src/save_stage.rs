//! Terminal and pass-through stages: saving a channel into an owned buffer,
//! and rewriting samples unchanged.

use vstd::prelude::*;

verus! {

use crate::error::Error;
use crate::image::Image;
use crate::sample::{Sample, SampleType};
use crate::stage::{RenderPipelineStage, StageKind};

/// An input stage that copies one channel into an owned plane buffer.
pub struct SaveStage<T: Sample> {
    buf: Image<T>,
    channel: usize,
}

impl<T: Sample> SaveStage<T> {
    /// The channel this stage saves.
    pub closed spec fn channel_spec(&self) -> usize {
        self.channel
    }

    /// The owned output buffer.
    pub closed spec fn buf_spec(&self) -> Image<T> {
        self.buf
    }

    /// A save stage for `channel` with a fresh zeroed buffer of `size`.
    pub fn new(channel: usize, size: (usize, usize)) -> (r: Result<SaveStage<T>, Error>)
        ensures
            r matches Ok(s) ==> {
                &&& s.channel_spec() == channel
                &&& s.buf_spec().wf()
                &&& s.buf_spec().size_spec() == size
                &&& forall|x: int, y: int|
                    0 <= x < size.0 && 0 <= y < size.1
                        ==> s.buf_spec().pix(x, y) == T::zero_spec()
            },
            r matches Err(e) ==> e is OutOfMemory,
    {
        let buf = Image::new(size)?;
        Ok(SaveStage { channel, buf })
    }

    /// A save stage for `channel` writing into an existing buffer.
    pub fn new_with_buffer(channel: usize, img: Image<T>) -> (r: SaveStage<T>)
        ensures
            r.channel_spec() == channel,
            r.buf_spec() == img,
    {
        SaveStage { channel, buf: img }
    }

    /// Read access to the output buffer.
    pub fn buffer(&self) -> (r: &Image<T>)
        ensures
            r == self.buf_spec(),
    {
        &self.buf
    }

    /// Consume the stage and keep its output buffer.
    pub fn into_buffer(self) -> (r: Image<T>)
        ensures
            r == self.buf_spec(),
    {
        self.buf
    }

    /// Decode one chunk row of wide codes into the buffer at `pos`,
    /// clipped to the buffer bounds.
    fn store_chunk(&mut self, pos: (usize, usize), xsize: usize, row: &Vec<u64>)
        requires
            old(self).buf_spec().wf(),
            row@.len() >= xsize,
        ensures
            final(self).channel_spec() == old(self).channel_spec(),
            final(self).buf_spec().wf(),
            final(self).buf_spec().size_spec() == old(self).buf_spec().size_spec(),
            forall|i: int|
                0 <= i < xsize && pos.0 + i < old(self).buf_spec().size_spec().0
                    && pos.1 < old(self).buf_spec().size_spec().1
                    ==> final(self).buf_spec().pix(pos.0 + i, pos.1 as int)
                        == T::narrow_spec(row@[i]),
            forall|x: int, y: int|
                0 <= x < old(self).buf_spec().size_spec().0
                    && 0 <= y < old(self).buf_spec().size_spec().1
                    && !(pos.0 <= x < pos.0 + xsize && y == pos.1)
                    ==> final(self).buf_spec().pix(x, y) == old(self).buf_spec().pix(x, y),
    {
        let size = self.buf.size();
        if pos.1 >= size.1 {
            return;
        }
        let mut i: usize = 0;
        while i < xsize
            invariant
                old(self).buf_spec().wf(),
                self.buf_spec().wf(),
                self.channel_spec() == old(self).channel_spec(),
                self.buf_spec().size_spec() == old(self).buf_spec().size_spec(),
                i <= xsize,
                row@.len() >= xsize,
                pos.1 < size.1,
                size == old(self).buf_spec().size_spec(),
                forall|j: int|
                    0 <= j < i && pos.0 + j < size.0
                        ==> self.buf_spec().pix(pos.0 + j, pos.1 as int)
                            == T::narrow_spec(row@[j]),
                forall|x: int, y: int|
                    0 <= x < size.0 && 0 <= y < size.1
                        && !(pos.0 <= x < pos.0 + i && y == pos.1)
                        ==> self.buf_spec().pix(x, y) == old(self).buf_spec().pix(x, y),
            decreases xsize - i,
        {
            if pos.0 < size.0 && i < size.0 - pos.0 {
                let v = T::from_wide(row[i]);
                self.buf.set(pos.0 + i, pos.1, v);
            }
            i = i + 1;
        }
    }
}

impl<T: Sample> RenderPipelineStage for SaveStage<T> {
    open spec fn kind_spec(&self) -> StageKind {
        StageKind::Input
    }

    open spec fn input_type_spec(&self) -> SampleType {
        T::sample_type_spec()
    }

    open spec fn output_type_spec(&self) -> SampleType {
        T::sample_type_spec()
    }

    open spec fn shift_spec(&self) -> (u8, u8) {
        (0u8, 0u8)
    }

    open spec fn border_spec(&self) -> (u8, u8) {
        (0u8, 0u8)
    }

    open spec fn uses_channel_spec(&self, c: int) -> bool {
        c == self.channel_spec()
    }

    open spec fn new_size_spec(&self, size: (int, int)) -> (int, int) {
        size
    }

    open spec fn origin_spec(&self) -> (int, int) {
        (0, 0)
    }

    open spec fn process_spec(&self, pos: (int, int), xsize: int, input: Seq<Seq<Seq<u64>>>)
        -> Seq<Seq<Seq<u64>>> {
        Seq::empty()
    }

    open spec fn post_state_spec(
        &self,
        post: SaveStage<T>,
        pos: (int, int),
        xsize: int,
        input: Seq<Seq<Seq<u64>>>,
    ) -> bool {
        if input.len() == 0 {
            post == *self
        } else {
            &&& post.channel_spec() == self.channel_spec()
            &&& post.buf_spec().wf()
            &&& post.buf_spec().size_spec() == self.buf_spec().size_spec()
            &&& forall|i: int|
                0 <= i < xsize && pos.0 + i < self.buf_spec().size_spec().0
                    && 0 <= pos.1 < self.buf_spec().size_spec().1 && 0 <= pos.0
                    ==> post.buf_spec().pix(pos.0 + i, pos.1)
                        == T::narrow_spec(input[0][0][i])
            &&& forall|x: int, y: int|
                0 <= x < self.buf_spec().size_spec().0
                    && 0 <= y < self.buf_spec().size_spec().1
                    && !(pos.0 <= x < pos.0 + xsize && y == pos.1)
                    ==> post.buf_spec().pix(x, y) == self.buf_spec().pix(x, y)
        }
    }

    open spec fn shape_wf(&self) -> bool {
        self.buf_spec().wf()
    }

    proof fn lemma_shape_wf(&self) {
    }

    fn name(&self) -> String {
        "save channel".to_owned()
    }

    fn kind(&self) -> StageKind {
        StageKind::Input
    }

    fn input_type(&self) -> SampleType {
        T::sample_type()
    }

    fn output_type(&self) -> SampleType {
        T::sample_type()
    }

    fn shift(&self) -> (u8, u8) {
        (0u8, 0u8)
    }

    fn border(&self) -> (u8, u8) {
        (0u8, 0u8)
    }

    fn uses_channel(&self, c: usize) -> bool {
        c == self.channel
    }

    fn new_size(&self, size: (usize, usize)) -> Option<(usize, usize)> {
        Some(size)
    }

    fn original_data_origin(&self) -> (usize, usize) {
        (0, 0)
    }

    fn process_row_chunk(
        &mut self,
        pos: (usize, usize),
        xsize: usize,
        input: Vec<Vec<Vec<u64>>>,
    ) -> (out: Vec<Vec<Vec<u64>>>)
    {
        if input.len() >= 1 {
            proof {
                assert(input.deep_view()[0].len() == 1);
                assert(input.deep_view()[0][0].len() == xsize);
                assert(input@[0]@[0].deep_view() == input.deep_view()[0][0]);
            }
            let row = &input[0][0];
            self.store_chunk(pos, xsize, row);
        }
        let out: Vec<Vec<Vec<u64>>> = Vec::new();
        proof {
            assert(out.deep_view() =~= Seq::<Seq<Seq<u64>>>::empty());
        }
        out
    }
}

/// An in-place stage that rewrites every sample with itself; useful to
/// observe the transport path untouched.
pub struct IdentityStage {
    ty: SampleType,
}

impl IdentityStage {
    /// The sample type this stage declares on its channels.
    pub closed spec fn ty_spec(&self) -> SampleType {
        self.ty
    }

    /// An identity stage declaring sample type `ty`.
    pub fn new(ty: SampleType) -> (r: IdentityStage)
        ensures
            r.ty_spec() == ty,
    {
        IdentityStage { ty }
    }
}

impl RenderPipelineStage for IdentityStage {
    open spec fn kind_spec(&self) -> StageKind {
        StageKind::InPlace
    }

    open spec fn input_type_spec(&self) -> SampleType {
        self.ty_spec()
    }

    open spec fn output_type_spec(&self) -> SampleType {
        self.ty_spec()
    }

    open spec fn shift_spec(&self) -> (u8, u8) {
        (0u8, 0u8)
    }

    open spec fn border_spec(&self) -> (u8, u8) {
        (0u8, 0u8)
    }

    open spec fn uses_channel_spec(&self, c: int) -> bool {
        true
    }

    open spec fn new_size_spec(&self, size: (int, int)) -> (int, int) {
        size
    }

    open spec fn origin_spec(&self) -> (int, int) {
        (0, 0)
    }

    open spec fn process_spec(&self, pos: (int, int), xsize: int, input: Seq<Seq<Seq<u64>>>)
        -> Seq<Seq<Seq<u64>>> {
        input
    }

    open spec fn post_state_spec(
        &self,
        post: IdentityStage,
        pos: (int, int),
        xsize: int,
        input: Seq<Seq<Seq<u64>>>,
    ) -> bool {
        post == *self
    }

    open spec fn shape_wf(&self) -> bool {
        true
    }

    proof fn lemma_shape_wf(&self) {
    }

    fn name(&self) -> String {
        "identity".to_owned()
    }

    fn kind(&self) -> StageKind {
        StageKind::InPlace
    }

    fn input_type(&self) -> SampleType {
        self.ty
    }

    fn output_type(&self) -> SampleType {
        self.ty
    }

    fn shift(&self) -> (u8, u8) {
        (0u8, 0u8)
    }

    fn border(&self) -> (u8, u8) {
        (0u8, 0u8)
    }

    fn uses_channel(&self, c: usize) -> bool {
        true
    }

    fn new_size(&self, size: (usize, usize)) -> Option<(usize, usize)> {
        Some(size)
    }

    fn original_data_origin(&self) -> (usize, usize) {
        (0, 0)
    }

    fn process_row_chunk(
        &mut self,
        pos: (usize, usize),
        xsize: usize,
        input: Vec<Vec<Vec<u64>>>,
    ) -> (out: Vec<Vec<Vec<u64>>>)
    {
        input
    }
}


/// The law behind running an identity in-place stage: every identity-stage
/// value transforms every chunk into itself, so the in-place executor's
/// contract yields bitwise-equal output buffers.
pub proof fn lemma_identity_stage_is_identity()
    ensures
        crate::executors::stage_is_identity::<IdentityStage>(),
{
    assert forall|st: IdentityStage, p: (int, int), xs: int, inp: Seq<Seq<Seq<u64>>>|
        #[trigger] st.process_spec(p, xs, inp) == inp by {}
}

} // verus!

//! The simple render pipeline: a builder that type-checks the stage chain
//! and sizes the input buffers, and a runtime that accepts per-group input
//! and runs the whole chain once a new pass is complete everywhere.

use vstd::prelude::*;

verus! {

use vstd::arithmetic::power2::pow2;
use crate::error::Error;
use crate::image::{Image, WideImage};
use crate::sample::{Sample, SampleType};
use crate::stage::{RenderPipelineStage, StageKind};
use crate::util::{shrc, shrc_spec, checked_pow2, checked_shl, shr_floor, mod_pow2};

/// Per channel, per point in the stage chain: the sample type (unknown
/// while the chain is built) and the downsampling shift pair.
#[derive(Clone, Copy, Debug)]
pub struct ChannelInfo {
    /// The channel's sample type, if resolved.
    pub ty: Option<SampleType>,
    /// Log-2 downsampling shifts, horizontal then vertical.
    pub downsample: (u8, u8),
}

/// One group's worth of decoded input: which group, how many progressive
/// passes it completes, and the callback that fills the allocated tiles.
pub struct GroupFillInfo<F> {
    /// Index of the group in row-major group order.
    pub group_id: usize,
    /// How many passes this delivery completes for the group.
    pub num_filled_passes: usize,
    /// Callback that fills the per-channel tiles.
    pub fill_fn: F,
}

/// Cumulative horizontal downsampling of channel `c` from stage `i` on: the
/// sum of the horizontal shifts of the stages at `i` and later that use `c`.
pub open spec fn cum_shift_x<S: RenderPipelineStage>(stages: Seq<S>, i: int, c: int) -> int
    decreases stages.len() - i,
    when 0 <= i <= stages.len()
{
    if i >= stages.len() {
        0
    } else {
        (if stages[i].uses_channel_spec(c) {
            stages[i].shift_spec().0 as int
        } else {
            0
        }) + cum_shift_x(stages, i + 1, c)
    }
}

/// Cumulative vertical downsampling of channel `c` from stage `i` on.
pub open spec fn cum_shift_y<S: RenderPipelineStage>(stages: Seq<S>, i: int, c: int) -> int
    decreases stages.len() - i,
    when 0 <= i <= stages.len()
{
    if i >= stages.len() {
        0
    } else {
        (if stages[i].uses_channel_spec(c) {
            stages[i].shift_spec().1 as int
        } else {
            0
        }) + cum_shift_y(stages, i + 1, c)
    }
}

/// Cumulative shifts never decrease towards the input end of the chain.
proof fn lemma_cum_shift_mono<S: RenderPipelineStage>(stages: Seq<S>, i: int, j: int, c: int)
    requires
        0 <= i <= j <= stages.len(),
    ensures
        cum_shift_x(stages, i, c) >= cum_shift_x(stages, j, c),
        cum_shift_y(stages, i, c) >= cum_shift_y(stages, j, c),
    decreases j - i,
{
    if i < j {
        lemma_cum_shift_mono(stages, i + 1, j, c);
    }
}


/// The forward bookkeeping relation that `add_stage` maintains between
/// consecutive channel record rows.
pub open spec fn forward_rel<S: RenderPipelineStage>(
    info: Seq<Seq<ChannelInfo>>,
    stages: Seq<S>,
    numc: int,
) -> bool {
    &&& info.len() == stages.len() + 1
    &&& forall|i: int| 0 <= i < info.len() ==> (#[trigger] info[i]).len() == numc
    &&& forall|k: int, c: int|
        #![trigger stages[k].uses_channel_spec(c)]
        0 <= k < stages.len() && 0 <= c < numc
            ==> {
                let stage = stages[k];
                if stage.uses_channel_spec(c) {
                    &&& (info[k][c].ty is Some
                        ==> info[k][c].ty == Some(stage.input_type_spec()))
                    &&& info[k + 1][c].ty == Some(stage.output_type_spec())
                } else {
                    &&& info[k + 1][c].ty == info[k][c].ty
                }
            }
}

/// The channel type the backward sweep resolves at point `i`: the input
/// type of the next stage using the channel, or `base` (the type at the end
/// of the chain) where no later stage uses it.
pub open spec fn resolved_ty<S: RenderPipelineStage>(
    stages: Seq<S>,
    base: Option<SampleType>,
    i: int,
    c: int,
) -> Option<SampleType>
    decreases stages.len() - i,
    when 0 <= i <= stages.len()
{
    if i >= stages.len() {
        base
    } else if stages[i].uses_channel_spec(c) {
        Some(stages[i].input_type_spec())
    } else {
        resolved_ty(stages, base, i + 1, c)
    }
}

/// Where the forward sweep already knows a channel's type, the backward
/// sweep resolves the same type: forward and backward inference agree.
proof fn lemma_resolved_of_some<S: RenderPipelineStage>(
    info: Seq<Seq<ChannelInfo>>,
    stages: Seq<S>,
    numc: int,
    i: int,
    c: int,
)
    requires
        forward_rel(info, stages, numc),
        0 <= i <= stages.len(),
        0 <= c < numc,
        info[i][c].ty is Some,
    ensures
        resolved_ty(stages, info[stages.len() as int][c].ty, i, c) == info[i][c].ty,
    decreases stages.len() - i,
{
    if i < stages.len() {
        if stages[i].uses_channel_spec(c) {
        } else {
            lemma_resolved_of_some(info, stages, numc, i + 1, c);
        }
    }
}

/// A later stage using the channel makes the resolved type known.
proof fn lemma_resolved_some<S: RenderPipelineStage>(
    stages: Seq<S>,
    base: Option<SampleType>,
    i: int,
    k: int,
    c: int,
)
    requires
        0 <= i <= k < stages.len(),
        stages[k].uses_channel_spec(c),
    ensures
        resolved_ty(stages, base, i, c) is Some,
    decreases k - i,
{
    if i < k && !stages[i].uses_channel_spec(c) {
        lemma_resolved_some(stages, base, i + 1, k, c);
    }
}

/// With no later user, the resolved type is the end-of-chain type.
proof fn lemma_resolved_base<S: RenderPipelineStage>(
    stages: Seq<S>,
    base: Option<SampleType>,
    i: int,
    c: int,
)
    requires
        0 <= i <= stages.len(),
        forall|k: int| i <= k < stages.len() ==> !(#[trigger] stages[k]).uses_channel_spec(c),
    ensures
        resolved_ty(stages, base, i, c) == base,
    decreases stages.len() - i,
{
    if i < stages.len() {
        lemma_resolved_base(stages, base, i + 1, c);
    }
}

/// Once a stage has produced a channel, every later row knows its type.
proof fn lemma_forward_some<S: RenderPipelineStage>(
    info: Seq<Seq<ChannelInfo>>,
    stages: Seq<S>,
    numc: int,
    k: int,
    j: int,
    c: int,
)
    requires
        forward_rel(info, stages, numc),
        0 <= k < stages.len(),
        k < j <= stages.len(),
        0 <= c < numc,
        stages[k].uses_channel_spec(c),
    ensures
        info[j][c].ty is Some,
    decreases j,
{
    if j == k + 1 {
    } else {
        lemma_forward_some(info, stages, numc, k, j - 1, c);
        if stages[j - 1].uses_channel_spec(c) {
        } else {
        }
    }
}

/// A pipeline that waits for all input of a pass to be ready before doing
/// any rendering, and prioritises simplicity over memory use and speed.
pub struct SimpleRenderPipeline<S: RenderPipelineStage> {
    channel_info: Vec<Vec<ChannelInfo>>,
    input_size: (usize, usize),
    log_group_size: usize,
    xgroups: usize,
    stages: Vec<S>,
    group_ready_passes: Vec<usize>,
    completed_passes: usize,
    input_buffers: Vec<WideImage>,
    chunk_size: usize,
}

/// Builds a [`SimpleRenderPipeline`] stage by stage, carrying the per-channel
/// type and shift bookkeeping forward.
pub struct SimpleRenderPipelineBuilder<S: RenderPipelineStage> {
    pipeline: SimpleRenderPipeline<S>,
    can_shift: bool,
}

impl<S: RenderPipelineStage> SimpleRenderPipeline<S> {
    /// The per-point channel records: one row per stage boundary.
    pub closed spec fn channel_info_spec(&self) -> Seq<Seq<ChannelInfo>> {
        Seq::new(self.channel_info@.len(), |i: int| self.channel_info@[i]@)
    }

    /// The full canvas size.
    pub closed spec fn input_size_spec(&self) -> (usize, usize) {
        self.input_size
    }

    /// Log-2 of the square group side.
    pub closed spec fn log_group_size_spec(&self) -> usize {
        self.log_group_size
    }

    /// Number of group columns.
    pub closed spec fn xgroups_spec(&self) -> usize {
        self.xgroups
    }

    /// The stage chain.
    pub closed spec fn stages_spec(&self) -> Seq<S> {
        self.stages@
    }

    /// Per-group count of delivered passes.
    pub closed spec fn group_ready_passes_spec(&self) -> Seq<usize> {
        self.group_ready_passes@
    }

    /// Number of passes rendered so far.
    pub closed spec fn completed_passes_spec(&self) -> usize {
        self.completed_passes
    }

    /// The per-channel wide input buffers.
    pub closed spec fn input_buffers_spec(&self) -> Seq<WideImage> {
        self.input_buffers@
    }

    /// The chunk width used by the executors.
    pub closed spec fn chunk_size_spec(&self) -> usize {
        self.chunk_size
    }

    /// Number of channels.
    pub open spec fn num_channels_spec(&self) -> int {
        self.channel_info_spec()[0].len() as int
    }

    /// Structural well-formedness of a built (or building) pipeline: the
    /// bookkeeping rows exist for every stage boundary, the group grid
    /// matches the canvas, and the chunk width is in range.
    pub open spec fn base_wf(&self) -> bool {
        &&& self.channel_info_spec().len() == self.stages_spec().len() + 1
        &&& forall|i: int|
            0 <= i < self.channel_info_spec().len()
                ==> (#[trigger] self.channel_info_spec()[i]).len() == self.num_channels_spec()
        &&& forall|k: int|
            0 <= k < self.stages_spec().len() ==> (#[trigger] self.stages_spec()[k]).shape_wf()
        &&& self.input_size_spec().0 >= 1
        &&& self.input_size_spec().1 >= 1
        &&& 1 <= self.chunk_size_spec() <= 0xFFFF
        &&& self.xgroups_spec() == shrc_spec(
            self.input_size_spec().0 as nat,
            self.log_group_size_spec() as nat,
        )
        &&& self.group_ready_passes_spec().len() == self.xgroups_spec() * shrc_spec(
            self.input_size_spec().1 as nat,
            self.log_group_size_spec() as nat,
        )
        &&& self.group_ready_passes_spec().len() >= 1
    }

    /// Well-formedness of a built pipeline: every channel's type at the
    /// input end is resolved and every input buffer has the downsampled
    /// canvas size of its channel.
    pub open spec fn wf(&self) -> bool {
        &&& self.base_wf()
        &&& self.input_buffers_spec().len() == self.num_channels_spec()
        &&& forall|c: int|
            0 <= c < self.num_channels_spec()
                ==> (#[trigger] self.channel_info_spec()[0][c]).ty is Some
        &&& forall|c: int|
            0 <= c < self.num_channels_spec() ==> {
                let ds = self.channel_info_spec()[0][c].downsample;
                &&& (#[trigger] self.input_buffers_spec()[c]).wf()
                &&& self.input_buffers_spec()[c].size_spec() == (
                    shrc_spec(self.input_size_spec().0 as nat, ds.0 as nat) as usize,
                    shrc_spec(self.input_size_spec().1 as nat, ds.1 as nat) as usize,
                )
            }
    }
}

impl<S: RenderPipelineStage> SimpleRenderPipelineBuilder<S> {
    /// The pipeline being built.
    pub closed spec fn pipeline_spec(&self) -> SimpleRenderPipeline<S> {
        self.pipeline
    }

    /// Whether a stage with nonzero shift may still be added.
    pub closed spec fn can_shift_spec(&self) -> bool {
        self.can_shift
    }

    /// Builder well-formedness: the forward sweep's bookkeeping. Each added
    /// stage recorded its output type and its shift on the channels it uses
    /// and carried the other channels through unchanged, and shifting stages
    /// stopped being accepted at the first canvas-extending stage.
    pub open spec fn wf(&self) -> bool {
        let p = self.pipeline_spec();
        let info = p.channel_info_spec();
        let stages = p.stages_spec();
        &&& p.base_wf()
        &&& p.input_buffers_spec().len() == 0
        &&& (self.can_shift_spec() <==> forall|k: int|
            0 <= k < stages.len() ==> !((#[trigger] stages[k]).kind_spec() is Extend))
        &&& forall|j: int, k: int|
            0 <= j < k < stages.len() && (#[trigger] stages[j]).kind_spec() is Extend
                ==> (#[trigger] stages[k]).shift_spec() == (0u8, 0u8)
        &&& forall|k: int, c: int|
            #![trigger stages[k].uses_channel_spec(c)]
            0 <= k < stages.len() && 0 <= c < p.num_channels_spec()
                ==> {
                    let stage = stages[k];
                    if stage.uses_channel_spec(c) {
                        &&& (info[k][c].ty is Some
                            ==> info[k][c].ty == Some(stage.input_type_spec()))
                        &&& info[k + 1][c].ty == Some(stage.output_type_spec())
                        &&& info[k + 1][c].downsample == stage.shift_spec()
                    } else {
                        &&& info[k + 1][c].ty == info[k][c].ty
                        &&& info[k + 1][c].downsample == (0u8, 0u8)
                    }
                }
    }

    /// A fresh builder with every channel unresolved and a chosen executor
    /// chunk width.
    ///
    /// An empty canvas and a zero chunk width are excluded up front: an
    /// empty canvas has no group whose passes could ever complete, and a
    /// zero chunk width cannot step across a row, so neither admits a
    /// usable pipeline.
    pub fn new_with_chunk_size(
        num_channels: usize,
        size: (usize, usize),
        log_group_size: usize,
        chunk_size: usize,
    ) -> (r: Self)
        requires
            size.0 >= 1,
            size.1 >= 1,
            1 <= chunk_size <= 0xFFFF,
            shrc_spec(size.0 as nat, log_group_size as nat)
                * shrc_spec(size.1 as nat, log_group_size as nat) <= usize::MAX,
        ensures
            r.wf(),
            r.pipeline_spec().stages_spec().len() == 0,
            r.pipeline_spec().num_channels_spec() == num_channels,
            r.pipeline_spec().input_size_spec() == size,
            r.pipeline_spec().log_group_size_spec() == log_group_size,
            r.pipeline_spec().chunk_size_spec() == chunk_size,
            r.pipeline_spec().completed_passes_spec() == 0,
            forall|g: int|
                0 <= g < r.pipeline_spec().group_ready_passes_spec().len()
                    ==> r.pipeline_spec().group_ready_passes_spec()[g] == 0,
            forall|c: int|
                0 <= c < num_channels
                    ==> (#[trigger] r.pipeline_spec().channel_info_spec()[0][c]).ty is None
                        && r.pipeline_spec().channel_info_spec()[0][c].downsample == (0u8, 0u8),
            r.can_shift_spec(),
    {
        let xgroups = shrc(size.0, log_group_size);
        let ygroups = shrc(size.1, log_group_size);
        proof {
            crate::util::lemma_shrc_pos(size.0 as nat, log_group_size as nat);
            crate::util::lemma_shrc_pos(size.1 as nat, log_group_size as nat);
            assert(xgroups * ygroups >= 1) by (nonlinear_arith)
                requires xgroups >= 1, ygroups >= 1,
            ;
        }
        let mut row: Vec<ChannelInfo> = Vec::new();
        let mut c: usize = 0;
        while c < num_channels
            invariant
                c <= num_channels,
                row@.len() == c,
                forall|i: int|
                    0 <= i < c ==> (#[trigger] row@[i]).ty is None
                        && row@[i].downsample == (0u8, 0u8),
            decreases num_channels - c,
        {
            row.push(ChannelInfo { ty: None, downsample: (0u8, 0u8) });
            c = c + 1;
        }
        let mut channel_info: Vec<Vec<ChannelInfo>> = Vec::new();
        channel_info.push(row);
        let mut group_ready_passes: Vec<usize> = Vec::new();
        let total = xgroups * ygroups;
        let mut g: usize = 0;
        while g < total
            invariant
                g <= total,
                group_ready_passes@.len() == g,
                forall|i: int| 0 <= i < g ==> group_ready_passes@[i] == 0usize,
            decreases total - g,
        {
            group_ready_passes.push(0);
            g = g + 1;
        }
        SimpleRenderPipelineBuilder {
            pipeline: SimpleRenderPipeline {
                channel_info,
                input_size: size,
                log_group_size,
                xgroups,
                stages: Vec::new(),
                group_ready_passes,
                completed_passes: 0,
                input_buffers: Vec::new(),
                chunk_size,
            },
            can_shift: true,
        }
    }

    /// A fresh builder with the default executor chunk width.
    pub fn new(num_channels: usize, size: (usize, usize), log_group_size: usize) -> (r: Self)
        requires
            size.0 >= 1,
            size.1 >= 1,
            shrc_spec(size.0 as nat, log_group_size as nat)
                * shrc_spec(size.1 as nat, log_group_size as nat) <= usize::MAX,
        ensures
            r.wf(),
            r.pipeline_spec().stages_spec().len() == 0,
            r.pipeline_spec().num_channels_spec() == num_channels,
            r.pipeline_spec().input_size_spec() == size,
            r.pipeline_spec().log_group_size_spec() == log_group_size,
            r.pipeline_spec().chunk_size_spec() == 256,
            r.pipeline_spec().completed_passes_spec() == 0,
            forall|g: int|
                0 <= g < r.pipeline_spec().group_ready_passes_spec().len()
                    ==> r.pipeline_spec().group_ready_passes_spec()[g] == 0,
            forall|c: int|
                0 <= c < num_channels
                    ==> (#[trigger] r.pipeline_spec().channel_info_spec()[0][c]).ty is None
                        && r.pipeline_spec().channel_info_spec()[0][c].downsample == (0u8, 0u8),
            r.can_shift_spec(),
    {
        Self::new_with_chunk_size(num_channels, size, log_group_size, 256)
    }

    /// Append a stage, updating the last channel record row. Fails with
    /// `PipelineChannelTypeMismatch` where the stage's declared input type
    /// disagrees with a used channel's incoming type, and with
    /// `PipelineShiftAfterExpand` where a shifting stage follows a
    /// canvas-extending one.
    pub fn add_stage(self, stage: S) -> (r: Result<Self, Error>)
        requires
            self.wf(),
            stage.shape_wf(),
        ensures
            ({
                let p = self.pipeline_spec();
                let info = p.channel_info_spec();
                let last = info[info.len() - 1];
                let mismatch = exists|c: int|
                    0 <= c < p.num_channels_spec() && stage.uses_channel_spec(c)
                        && (#[trigger] last[c]).ty is Some
                        && last[c].ty != Some(stage.input_type_spec());
                let shift_bad = !self.can_shift_spec() && stage.shift_spec() != (0u8, 0u8);
                match r {
                    Ok(b) => {
                        &&& !mismatch
                        &&& !shift_bad
                        &&& b.wf()
                        &&& b.pipeline_spec().stages_spec() == p.stages_spec().push(stage)
                        &&& b.pipeline_spec().num_channels_spec() == p.num_channels_spec()
                        &&& b.pipeline_spec().input_size_spec() == p.input_size_spec()
                        &&& b.pipeline_spec().log_group_size_spec() == p.log_group_size_spec()
                        &&& b.pipeline_spec().chunk_size_spec() == p.chunk_size_spec()
                        &&& b.pipeline_spec().completed_passes_spec()
                            == p.completed_passes_spec()
                        &&& b.pipeline_spec().group_ready_passes_spec()
                            == p.group_ready_passes_spec()
                        &&& b.pipeline_spec().channel_info_spec()
                            == info.push(Seq::new(p.num_channels_spec() as nat, |c: int|
                                if !stage.uses_channel_spec(c) {
                                    ChannelInfo { ty: last[c].ty, downsample: (0u8, 0u8) }
                                } else {
                                    ChannelInfo {
                                        ty: Some(stage.output_type_spec()),
                                        downsample: stage.shift_spec(),
                                    }
                                }))
                        &&& (b.can_shift_spec() <==> self.can_shift_spec()
                            && !(stage.kind_spec() is Extend))
                    },
                    Err(e) => {
                        &&& (mismatch || shift_bad)
                        &&& (e matches Error::PipelineChannelTypeMismatch(_, c, exp, act) ==> {
                            &&& mismatch
                            &&& 0 <= c < p.num_channels_spec()
                            &&& stage.uses_channel_spec(c as int)
                            &&& last[c as int].ty == Some(act)
                            &&& act != exp
                            &&& exp == stage.input_type_spec()
                            &&& forall|c2: int|
                                0 <= c2 < c ==> !(stage.uses_channel_spec(c2)
                                    && (#[trigger] last[c2]).ty is Some
                                    && last[c2].ty != Some(stage.input_type_spec()))
                        })
                        &&& (e matches Error::PipelineShiftAfterExpand(_) ==> !mismatch
                            && shift_bad)
                        &&& (e is PipelineChannelTypeMismatch || e is PipelineShiftAfterExpand)
                    },
                }
            }),
    {
        let mut this = self;
        let num_channels = this.pipeline.channel_info[0].len();
        let last_idx = this.pipeline.channel_info.len() - 1;
        let ghost info = this.pipeline.channel_info_spec();
        let ghost last = info[info.len() - 1];
        let mut after_info: Vec<ChannelInfo> = Vec::new();
        let mut c: usize = 0;
        while c < num_channels
            invariant
                this == self,
                self.wf(),
                num_channels == self.pipeline_spec().num_channels_spec(),
                last_idx == self.pipeline_spec().channel_info_spec().len() - 1,
                info == self.pipeline_spec().channel_info_spec(),
                last == info[last_idx as int],
                c <= num_channels,
                after_info@.len() == c,
                forall|i: int|
                    0 <= i < c ==> #[trigger] after_info@[i] == (
                        if !stage.uses_channel_spec(i) {
                            ChannelInfo { ty: last[i].ty, downsample: (0u8, 0u8) }
                        } else {
                            ChannelInfo {
                                ty: Some(stage.output_type_spec()),
                                downsample: stage.shift_spec(),
                            }
                        }),
                forall|i: int|
                    0 <= i < c ==> !(stage.uses_channel_spec(i)
                        && (#[trigger] last[i]).ty is Some
                        && last[i].ty != Some(stage.input_type_spec())),
            decreases num_channels - c,
        {
            let cur = this.pipeline.channel_info[last_idx][c];
            if !stage.uses_channel(c) {
                after_info.push(ChannelInfo { ty: cur.ty, downsample: (0u8, 0u8) });
            } else {
                match cur.ty {
                    Some(ty) => {
                        if !sample_type_eq(ty, stage.input_type()) {
                            return Err(Error::PipelineChannelTypeMismatch(
                                stage.name(),
                                c,
                                stage.input_type(),
                                ty,
                            ));
                        }
                    },
                    None => {},
                }
                after_info.push(ChannelInfo {
                    ty: Some(stage.output_type()),
                    downsample: stage.shift(),
                });
            }
            c = c + 1;
        }
        let shift = stage.shift();
        if !this.can_shift && !(shift.0 == 0 && shift.1 == 0) {
            return Err(Error::PipelineShiftAfterExpand(stage.name()));
        }
        if matches!(stage.kind(), StageKind::Extend) {
            this.can_shift = false;
        }
        this.pipeline.channel_info.push(after_info);
        this.pipeline.stages.push(stage);
        proof {
            let p2 = this.pipeline_spec();
            assert(p2.channel_info_spec() =~= info.push(Seq::new(
                self.pipeline_spec().num_channels_spec() as nat,
                |i: int|
                    if !stage.uses_channel_spec(i) {
                        ChannelInfo { ty: last[i].ty, downsample: (0u8, 0u8) }
                    } else {
                        ChannelInfo {
                            ty: Some(stage.output_type_spec()),
                            downsample: stage.shift_spec(),
                        }
                    },
            ))) by {
                assert(after_info@ =~= Seq::new(
                    self.pipeline_spec().num_channels_spec() as nat,
                    |i: int|
                        if !stage.uses_channel_spec(i) {
                            ChannelInfo { ty: last[i].ty, downsample: (0u8, 0u8) }
                        } else {
                            ChannelInfo {
                                ty: Some(stage.output_type_spec()),
                                downsample: stage.shift_spec(),
                            }
                        },
                ));
                assert forall|i: int|
                    0 <= i < p2.channel_info_spec().len()
                        implies p2.channel_info_spec()[i] == info.push(after_info@)[i] by {}
            }
            let p = self.pipeline_spec();
            let p2 = this.pipeline_spec();
            let info2 = p2.channel_info_spec();
            let stages2 = p2.stages_spec();
            let n = p.stages_spec().len() as int;
            assert(stages2 =~= p.stages_spec().push(stage));
            assert(info2[0] == info[0]);
            assert(p2.num_channels_spec() == p.num_channels_spec());
            assert forall|i: int|
                0 <= i < info2.len()
                    implies (#[trigger] info2[i]).len() == p2.num_channels_spec() by {
                if i < info.len() {
                    assert(info2[i] == info[i]);
                }
            }
            assert forall|k: int|
                0 <= k < stages2.len() implies (#[trigger] stages2[k]).shape_wf() by {
                if k < n {
                    assert(stages2[k] == p.stages_spec()[k]);
                }
            }
            assert forall|j: int, k: int|
                0 <= j < k < stages2.len() && (#[trigger] stages2[j]).kind_spec() is Extend
                    implies (#[trigger] stages2[k]).shift_spec() == (0u8, 0u8) by {
                if k < n {
                } else {
                    assert(stages2[j] == p.stages_spec()[j]);
                    assert(!self.can_shift_spec());
                }
            }
            assert forall|k: int, c: int|
                #![trigger stages2[k].uses_channel_spec(c)]
                0 <= k < stages2.len() && 0 <= c < p2.num_channels_spec()
                    implies {
                        let st = stages2[k];
                        if st.uses_channel_spec(c) {
                            &&& (info2[k][c].ty is Some
                                ==> info2[k][c].ty == Some(st.input_type_spec()))
                            &&& info2[k + 1][c].ty == Some(st.output_type_spec())
                            &&& info2[k + 1][c].downsample == st.shift_spec()
                        } else {
                            &&& info2[k + 1][c].ty == info2[k][c].ty
                            &&& info2[k + 1][c].downsample == (0u8, 0u8)
                        }
                    } by {
                if k < n {
                    assert(stages2[k] == p.stages_spec()[k]);
                    assert(info2[k] == info[k]);
                    assert(info2[k + 1] == info[k + 1]);
                    assert(p.stages_spec()[k].uses_channel_spec(c)
                        == stages2[k].uses_channel_spec(c));
                } else {
                    assert(stages2[k] == stage);
                    assert(info2[k] == info[n]);
                    assert(info2[k + 1] == after_info@);
                }
            }
            assert(p2.base_wf());
            if this.can_shift_spec() {
                assert forall|k: int|
                    0 <= k < stages2.len()
                        implies !((#[trigger] stages2[k]).kind_spec() is Extend) by {
                    if k < n {
                        assert(stages2[k] == p.stages_spec()[k]);
                        assert(self.can_shift_spec());
                    } else {
                        assert(stages2[k] == stage);
                    }
                }
            } else {
                if self.can_shift_spec() {
                    assert(stage.kind_spec() is Extend);
                    assert(stages2[n] == stage);
                    assert(!(forall|k: int|
                        0 <= k < stages2.len()
                            ==> !((#[trigger] stages2[k]).kind_spec() is Extend)));
                } else {
                    let k0 = choose|k: int|
                        0 <= k < p.stages_spec().len()
                            && (#[trigger] p.stages_spec()[k]).kind_spec() is Extend;
                    assert(stages2[k0] == p.stages_spec()[k0]);
                    assert(!(forall|k: int|
                        0 <= k < stages2.len()
                            ==> !((#[trigger] stages2[k]).kind_spec() is Extend)));
                }
            }
            assert(this.wf());
            assert(this.can_shift_spec() <==> (self.can_shift_spec()
                && !(stage.kind_spec() is Extend)));
            assert(p2.stages_spec() == p.stages_spec().push(stage));
            assert(p2.group_ready_passes_spec() == p.group_ready_passes_spec());
        }
        Ok(this)
    }
}


/// Whether any stage of the chain uses channel `c`.
pub open spec fn channel_used<S: RenderPipelineStage>(stages: Seq<S>, c: int) -> bool {
    exists|k: int| 0 <= k < stages.len() && (#[trigger] stages[k]).uses_channel_spec(c)
}

/// Some channel's accumulated downsampling leaves the representable range.
pub open spec fn overflow_cond<S: RenderPipelineStage>(stages: Seq<S>, numc: int) -> bool {
    exists|c: int|
        0 <= c < numc && (cum_shift_x(stages, 0, c) > 255 || cum_shift_y(stages, 0, c) > 255)
}

impl<S: RenderPipelineStage> SimpleRenderPipelineBuilder<S> {
    /// Finalise the chain: resolve every channel's type backward through the
    /// stages, accumulate per-channel downsampling, reject chains that leave
    /// a channel untouched, and allocate the per-channel input buffers.
    pub fn build(self) -> (r: Result<SimpleRenderPipeline<S>, Error>)
        requires
            self.wf(),
        ensures
            ({
                let p = self.pipeline_spec();
                let stages = p.stages_spec();
                let numc = p.num_channels_spec();
                match r {
                    Ok(pl) => {
                        &&& !overflow_cond(stages, numc)
                        &&& forall|c: int| 0 <= c < numc ==> #[trigger] channel_used(stages, c)
                        &&& pl.wf()
                        &&& pl.stages_spec() == stages
                        &&& pl.num_channels_spec() == numc
                        &&& pl.input_size_spec() == p.input_size_spec()
                        &&& pl.log_group_size_spec() == p.log_group_size_spec()
                        &&& pl.xgroups_spec() == p.xgroups_spec()
                        &&& pl.chunk_size_spec() == p.chunk_size_spec()
                        &&& pl.completed_passes_spec() == p.completed_passes_spec()
                        &&& pl.group_ready_passes_spec() == p.group_ready_passes_spec()
                        &&& pl.channel_info_spec().len() == stages.len() + 1
                        &&& forall|i: int, c: int|
                            #![trigger pl.channel_info_spec()[i][c]]
                            0 <= i <= stages.len() && 0 <= c < numc ==> {
                                &&& pl.channel_info_spec()[i][c].downsample.0
                                    == cum_shift_x(stages, i, c)
                                &&& pl.channel_info_spec()[i][c].downsample.1
                                    == cum_shift_y(stages, i, c)
                                &&& pl.channel_info_spec()[i][c].ty is Some
                            }
                        &&& forall|k: int, c: int|
                            #![trigger stages[k].uses_channel_spec(c)]
                            0 <= k < stages.len() && 0 <= c < numc ==> {
                                let st = stages[k];
                                if st.uses_channel_spec(c) {
                                    &&& pl.channel_info_spec()[k][c].ty
                                        == Some(st.input_type_spec())
                                    &&& pl.channel_info_spec()[k + 1][c].ty
                                        == Some(st.output_type_spec())
                                } else {
                                    pl.channel_info_spec()[k][c].ty
                                        == pl.channel_info_spec()[k + 1][c].ty
                                }
                            }
                        &&& forall|c: int|
                            0 <= c < numc
                                ==> (#[trigger] pl.input_buffers_spec()[c]).size_spec() == (
                                    shrc_spec(
                                        p.input_size_spec().0 as nat,
                                        cum_shift_x(stages, 0, c) as nat,
                                    ) as usize,
                                    shrc_spec(
                                        p.input_size_spec().1 as nat,
                                        cum_shift_y(stages, 0, c) as nat,
                                    ) as usize,
                                )
                    },
                    Err(e) => {
                        &&& (e is ArithmeticOverflow ==> overflow_cond(stages, numc))
                        &&& (e matches Error::PipelineChannelUnused(c) ==> {
                            &&& !overflow_cond(stages, numc)
                            &&& 0 <= c < numc
                            &&& !channel_used(stages, c as int)
                            &&& forall|c2: int| 0 <= c2 < c ==> #[trigger] channel_used(stages, c2)
                        })
                        &&& (e is OutOfMemory ==> !overflow_cond(stages, numc)
                            && forall|c: int| 0 <= c < numc ==> #[trigger] channel_used(stages, c))
                        &&& (e is ArithmeticOverflow || e is PipelineChannelUnused
                            || e is OutOfMemory)
                    },
                }
            }),
            overflow_cond(self.pipeline_spec().stages_spec(), self.pipeline_spec().num_channels_spec())
                ==> r matches Err(Error::ArithmeticOverflow),
    {
        let mut this = self;
        let ghost p0 = self.pipeline_spec();
        let ghost stages = p0.stages_spec();
        let ghost info0 = p0.channel_info_spec();
        let ghost numc_g = p0.num_channels_spec();
        let num_channels = this.pipeline.channel_info[0].len();
        let n = this.pipeline.stages.len();
        proof {
            assert(forward_rel(info0, stages, numc_g));
        }

        let mut cur_ds: Vec<(u8, u8)> = Vec::new();
        let mut c0: usize = 0;
        while c0 < num_channels
            invariant
                c0 <= num_channels,
                cur_ds@.len() == c0,
                forall|c: int| 0 <= c < c0 ==> cur_ds@[c] == (0u8, 0u8),
            decreases num_channels - c0,
        {
            cur_ds.push((0u8, 0u8));
            c0 = c0 + 1;
        }

        let mut s: usize = n;
        while s > 0
            invariant
                self.pipeline_spec() == p0,
                stages == p0.stages_spec(),
                info0 == p0.channel_info_spec(),
                numc_g == p0.num_channels_spec(),
                this.pipeline_spec().stages_spec() == stages,
                this.pipeline_spec().input_size_spec() == p0.input_size_spec(),
                this.pipeline_spec().log_group_size_spec() == p0.log_group_size_spec(),
                this.pipeline_spec().xgroups_spec() == p0.xgroups_spec(),
                this.pipeline_spec().chunk_size_spec() == p0.chunk_size_spec(),
                this.pipeline_spec().completed_passes_spec() == p0.completed_passes_spec(),
                this.pipeline_spec().group_ready_passes_spec() == p0.group_ready_passes_spec(),
                this.pipeline_spec().input_buffers_spec() == p0.input_buffers_spec(),
                forward_rel(info0, stages, numc_g),
                n == stages.len(),
                s <= n,
                num_channels == numc_g,
                cur_ds@.len() == numc_g,
                this.pipeline_spec().channel_info_spec().len() == n + 1,
                forall|i: int|
                    0 <= i <= n
                        ==> (#[trigger] this.pipeline_spec().channel_info_spec()[i]).len()
                            == numc_g,
                forall|c: int|
                    0 <= c < numc_g ==> {
                        &&& (#[trigger] cur_ds@[c]).0 == cum_shift_x(stages, s as int, c)
                        &&& cur_ds@[c].1 == cum_shift_y(stages, s as int, c)
                    },
                forall|i: int, c: int|
                    #![trigger this.pipeline_spec().channel_info_spec()[i][c]]
                    s < i <= n && 0 <= c < numc_g ==> {
                        &&& this.pipeline_spec().channel_info_spec()[i][c].downsample.0
                            == cum_shift_x(stages, i, c)
                        &&& this.pipeline_spec().channel_info_spec()[i][c].downsample.1
                            == cum_shift_y(stages, i, c)
                    },
                forall|i: int, c: int|
                    #![trigger this.pipeline_spec().channel_info_spec()[i][c]]
                    0 <= i <= s && 0 <= c < numc_g
                        ==> this.pipeline_spec().channel_info_spec()[i][c].downsample
                            == info0[i][c].downsample,
                forall|i: int, c: int|
                    #![trigger this.pipeline_spec().channel_info_spec()[i][c]]
                    s <= i <= n && 0 <= c < numc_g
                        ==> this.pipeline_spec().channel_info_spec()[i][c].ty
                            == resolved_ty(stages, info0[n as int][c].ty, i, c),
                forall|i: int, c: int|
                    #![trigger this.pipeline_spec().channel_info_spec()[i][c]]
                    0 <= i < s && 0 <= c < numc_g
                        ==> this.pipeline_spec().channel_info_spec()[i][c].ty
                            == info0[i][c].ty,
            decreases s,
        {
            let sm1 = s - 1;
            let mut c: usize = 0;
            while c < num_channels
                invariant
                    self.pipeline_spec() == p0,
                    stages == p0.stages_spec(),
                    info0 == p0.channel_info_spec(),
                    numc_g == p0.num_channels_spec(),
                    this.pipeline_spec().stages_spec() == stages,
                    this.pipeline_spec().input_size_spec() == p0.input_size_spec(),
                    this.pipeline_spec().log_group_size_spec() == p0.log_group_size_spec(),
                    this.pipeline_spec().xgroups_spec() == p0.xgroups_spec(),
                    this.pipeline_spec().chunk_size_spec() == p0.chunk_size_spec(),
                    this.pipeline_spec().completed_passes_spec() == p0.completed_passes_spec(),
                    this.pipeline_spec().group_ready_passes_spec()
                        == p0.group_ready_passes_spec(),
                    this.pipeline_spec().input_buffers_spec() == p0.input_buffers_spec(),
                    forward_rel(info0, stages, numc_g),
                    n == stages.len(),
                    1 <= s <= n,
                    sm1 == s - 1,
                    c <= num_channels,
                    num_channels == numc_g,
                    cur_ds@.len() == numc_g,
                    this.pipeline_spec().channel_info_spec().len() == n + 1,
                    forall|i: int|
                        0 <= i <= n
                            ==> (#[trigger] this.pipeline_spec().channel_info_spec()[i]).len()
                                == numc_g,
                    forall|c2: int|
                        c <= c2 < numc_g ==> {
                            &&& (#[trigger] cur_ds@[c2]).0 == cum_shift_x(stages, s as int, c2)
                            &&& cur_ds@[c2].1 == cum_shift_y(stages, s as int, c2)
                        },
                    forall|c2: int|
                        0 <= c2 < c ==> {
                            &&& (#[trigger] cur_ds@[c2]).0
                                == cum_shift_x(stages, sm1 as int, c2)
                            &&& cur_ds@[c2].1 == cum_shift_y(stages, sm1 as int, c2)
                        },
                    forall|i: int, c2: int|
                        #![trigger this.pipeline_spec().channel_info_spec()[i][c2]]
                        s < i <= n && 0 <= c2 < numc_g ==> {
                            &&& this.pipeline_spec().channel_info_spec()[i][c2].downsample.0
                                == cum_shift_x(stages, i, c2)
                            &&& this.pipeline_spec().channel_info_spec()[i][c2].downsample.1
                                == cum_shift_y(stages, i, c2)
                        },
                    forall|c2: int|
                        0 <= c2 < c ==> {
                            &&& (#[trigger] this.pipeline_spec().channel_info_spec()[s as int][
                                c2]).downsample.0 == cum_shift_x(stages, s as int, c2)
                            &&& this.pipeline_spec().channel_info_spec()[s as int][
                                c2].downsample.1 == cum_shift_y(stages, s as int, c2)
                        },
                    forall|c2: int|
                        c <= c2 < numc_g
                            ==> (#[trigger] this.pipeline_spec().channel_info_spec()[s as int][
                                c2]).downsample == info0[s as int][c2].downsample,
                    forall|i: int, c2: int|
                        #![trigger this.pipeline_spec().channel_info_spec()[i][c2]]
                        0 <= i < s && 0 <= c2 < numc_g
                            ==> this.pipeline_spec().channel_info_spec()[i][c2].downsample
                                == info0[i][c2].downsample,
                    forall|i: int, c2: int|
                        #![trigger this.pipeline_spec().channel_info_spec()[i][c2]]
                        s <= i <= n && 0 <= c2 < numc_g
                            ==> this.pipeline_spec().channel_info_spec()[i][c2].ty
                                == resolved_ty(stages, info0[n as int][c2].ty, i, c2),
                    forall|c2: int|
                        0 <= c2 < c
                            ==> (#[trigger] this.pipeline_spec().channel_info_spec()[sm1 as int][
                                c2]).ty == resolved_ty(stages, info0[n as int][c2].ty,
                                    sm1 as int, c2),
                    forall|c2: int|
                        c <= c2 < numc_g
                            ==> (#[trigger] this.pipeline_spec().channel_info_spec()[sm1 as int][
                                c2]).ty == info0[sm1 as int][c2].ty,
                    forall|i: int, c2: int|
                        #![trigger this.pipeline_spec().channel_info_spec()[i][c2]]
                        0 <= i < sm1 && 0 <= c2 < numc_g
                            ==> this.pipeline_spec().channel_info_spec()[i][c2].ty
                                == info0[i][c2].ty,
                decreases num_channels - c,
            {
                proof {
                    assert(this.pipeline.channel_info@.len()
                        == this.pipeline_spec().channel_info_spec().len());
                    assert(this.pipeline_spec().channel_info_spec()[sm1 as int]
                        == this.pipeline.channel_info@[sm1 as int]@);
                    assert(this.pipeline_spec().channel_info_spec()[s as int]
                        == this.pipeline.channel_info@[s as int]@);
                    assert(this.pipeline.stages@ == stages);
                }
                let ghost pre = this.pipeline_spec().channel_info_spec();
                let uses = this.pipeline.stages[sm1].uses_channel(c);
                let in_ty = this.pipeline.stages[sm1].input_type();
                let cur_rec = this.pipeline.channel_info[sm1][c];
                let next_rec = this.pipeline.channel_info[s][c];
                let new_ty = if uses {
                    Some(in_ty)
                } else {
                    match cur_rec.ty {
                        Some(t) => Some(t),
                        None => next_rec.ty,
                    }
                };
                this.pipeline.channel_info[sm1][c] = ChannelInfo {
                    ty: new_ty,
                    downsample: cur_rec.downsample,
                };
                let ds_here = cur_ds[c];
                this.pipeline.channel_info[s][c] = ChannelInfo {
                    ty: next_rec.ty,
                    downsample: ds_here,
                };
                let shift = this.pipeline.stages[sm1].shift();
                let step_shift: (u8, u8) = if uses { shift } else { (0u8, 0u8) };
                if 255 - cur_ds[c].0 < step_shift.0 || 255 - cur_ds[c].1 < step_shift.1 {
                    proof {
                        lemma_cum_shift_mono(stages, 0, sm1 as int, c as int);
                        assert(cum_shift_x(stages, sm1 as int, c as int)
                            == step_shift.0 + cum_shift_x(stages, s as int, c as int));
                        assert(cum_shift_y(stages, sm1 as int, c as int)
                            == step_shift.1 + cum_shift_y(stages, s as int, c as int));
                        assert(overflow_cond(stages, numc_g));
                    }
                    return Err(Error::ArithmeticOverflow);
                }
                let new_ds: (u8, u8) = (cur_ds[c].0 + step_shift.0, cur_ds[c].1 + step_shift.1);
                cur_ds[c] = new_ds;
                proof {
                    let post = this.pipeline_spec().channel_info_spec();
                    assert(post.len() == pre.len());
                    assert forall|i: int|
                        0 <= i <= n implies (#[trigger] post[i]).len() == numc_g by {
                        if i != sm1 && i != s {
                            assert(post[i] == pre[i]);
                        } else {
                            assert(post[i].len() == pre[i].len());
                        }
                    }
                    assert forall|i: int, c2: int|
                        0 <= i <= n && 0 <= c2 < numc_g && !(i == sm1 && c2 == c)
                            && !(i == s && c2 == c)
                            implies #[trigger] post[i][c2] == pre[i][c2] by {
                        if i != sm1 && i != s {
                            assert(post[i] == pre[i]);
                        }
                    }
                    assert(post[sm1 as int][c as int].ty == new_ty);
                    assert(post[sm1 as int][c as int].downsample == cur_rec.downsample);
                    assert(post[s as int][c as int].downsample == ds_here);
                    assert(post[s as int][c as int].ty == next_rec.ty);
                    assert(resolved_ty(stages, info0[n as int][c as int].ty, sm1 as int, c as int)
                        == new_ty) by {
                        if uses {
                        } else {
                            if cur_rec.ty is Some {
                                assert(pre[sm1 as int][c as int].ty == info0[sm1 as int][c as int].ty);
                                lemma_resolved_of_some(info0, stages, numc_g, sm1 as int, c as int);
                            } else {
                                assert(next_rec.ty == resolved_ty(
                                    stages, info0[n as int][c as int].ty, s as int, c as int));
                            }
                        }
                    }
                }
                c = c + 1;
            }
            s = sm1;
        }

        // The input-end downsampling is the whole chain's accumulation.
        let mut c1: usize = 0;
        while c1 < num_channels
            invariant
                self.pipeline_spec() == p0,
                stages == p0.stages_spec(),
                info0 == p0.channel_info_spec(),
                numc_g == p0.num_channels_spec(),
                this.pipeline_spec().stages_spec() == stages,
                this.pipeline_spec().input_size_spec() == p0.input_size_spec(),
                this.pipeline_spec().log_group_size_spec() == p0.log_group_size_spec(),
                this.pipeline_spec().xgroups_spec() == p0.xgroups_spec(),
                this.pipeline_spec().chunk_size_spec() == p0.chunk_size_spec(),
                this.pipeline_spec().completed_passes_spec() == p0.completed_passes_spec(),
                this.pipeline_spec().group_ready_passes_spec() == p0.group_ready_passes_spec(),
                this.pipeline_spec().input_buffers_spec() == p0.input_buffers_spec(),
                n == stages.len(),
                c1 <= num_channels,
                num_channels == numc_g,
                cur_ds@.len() == numc_g,
                this.pipeline_spec().channel_info_spec().len() == n + 1,
                forall|i: int|
                    0 <= i <= n
                        ==> (#[trigger] this.pipeline_spec().channel_info_spec()[i]).len()
                            == numc_g,
                forall|c: int|
                    0 <= c < numc_g ==> {
                        &&& (#[trigger] cur_ds@[c]).0 == cum_shift_x(stages, 0, c)
                        &&& cur_ds@[c].1 == cum_shift_y(stages, 0, c)
                    },
                forall|i: int, c: int|
                    #![trigger this.pipeline_spec().channel_info_spec()[i][c]]
                    0 < i <= n && 0 <= c < numc_g ==> {
                        &&& this.pipeline_spec().channel_info_spec()[i][c].downsample.0
                            == cum_shift_x(stages, i, c)
                        &&& this.pipeline_spec().channel_info_spec()[i][c].downsample.1
                            == cum_shift_y(stages, i, c)
                    },
                forall|c: int|
                    0 <= c < c1 ==> {
                        &&& (#[trigger] this.pipeline_spec().channel_info_spec()[0][c])
                            .downsample.0 == cum_shift_x(stages, 0, c)
                        &&& this.pipeline_spec().channel_info_spec()[0][c].downsample.1
                            == cum_shift_y(stages, 0, c)
                    },
                forall|i: int, c: int|
                    #![trigger this.pipeline_spec().channel_info_spec()[i][c]]
                    0 <= i <= n && 0 <= c < numc_g
                        ==> this.pipeline_spec().channel_info_spec()[i][c].ty
                            == resolved_ty(stages, info0[n as int][c].ty, i, c),
            decreases num_channels - c1,
        {
            proof {
                assert(this.pipeline.channel_info@.len()
                    == this.pipeline_spec().channel_info_spec().len());
                assert(this.pipeline_spec().channel_info_spec()[0]
                    == this.pipeline.channel_info@[0]@);
            }
            let ghost pre = this.pipeline_spec().channel_info_spec();
            let rec = this.pipeline.channel_info[0][c1];
            let ds = cur_ds[c1];
            this.pipeline.channel_info[0][c1] = ChannelInfo { ty: rec.ty, downsample: ds };
            proof {
                let post = this.pipeline_spec().channel_info_spec();
                assert(post.len() == pre.len());
                assert forall|i: int|
                    0 <= i <= n implies (#[trigger] post[i]).len() == numc_g by {
                    if i != 0 {
                        assert(post[i] == pre[i]);
                    } else {
                        assert(post[i].len() == pre[i].len());
                    }
                }
                assert forall|i: int, c2: int|
                    0 <= i <= n && 0 <= c2 < numc_g && !(i == 0 && c2 == c1)
                        implies #[trigger] post[i][c2] == pre[i][c2] by {
                    if i != 0 {
                        assert(post[i] == pre[i]);
                    }
                }
                assert(post[0][c1 as int].ty == rec.ty);
                assert(post[0][c1 as int].downsample == ds);
            }
            c1 = c1 + 1;
        }
        proof {
            assert(!overflow_cond(stages, numc_g)) by {
                assert forall|c: int|
                    0 <= c < numc_g
                        implies cum_shift_x(stages, 0, c) <= 255
                            && cum_shift_y(stages, 0, c) <= 255 by {
                    assert(cur_ds@[c].0 == cum_shift_x(stages, 0, c));
                }
            }
        }

        // Every channel must be touched by some stage, or its type (and the
        // types of the buffers it flows through) would stay unknown.
        let mut c2: usize = 0;
        while c2 < num_channels
            invariant
                self.pipeline_spec() == p0,
                stages == p0.stages_spec(),
                info0 == p0.channel_info_spec(),
                numc_g == p0.num_channels_spec(),
                this.pipeline_spec().stages_spec() == stages,
                !overflow_cond(stages, numc_g),
                n == stages.len(),
                c2 <= num_channels,
                num_channels == numc_g,
                forall|cc: int| 0 <= cc < c2 ==> #[trigger] channel_used(stages, cc),
            decreases num_channels - c2,
        {
            let mut used_any = false;
            let mut k: usize = 0;
            while k < n
                invariant
                    self.pipeline_spec() == p0,
                    stages == p0.stages_spec(),
                    info0 == p0.channel_info_spec(),
                    numc_g == p0.num_channels_spec(),
                    this.pipeline_spec().stages_spec() == stages,
                    !overflow_cond(stages, numc_g),
                    n == stages.len(),
                    k <= n,
                    c2 < num_channels,
                    num_channels == numc_g,
                    used_any ==> channel_used(stages, c2 as int),
                    !used_any ==> forall|kk: int|
                        0 <= kk < k ==> !(#[trigger] stages[kk]).uses_channel_spec(c2 as int),
                decreases n - k,
            {
                proof {
                    assert(this.pipeline.stages@ == stages);
                }
                if this.pipeline.stages[k].uses_channel(c2) {
                    used_any = true;
                }
                k = k + 1;
            }
            if !used_any {
                return Err(Error::PipelineChannelUnused(c2));
            }
            c2 = c2 + 1;
        }

        // Allocate the input buffers at the accumulated downsampling.
        let input_size = this.pipeline.input_size;
        let mut buffers: Vec<WideImage> = Vec::new();
        let mut c3: usize = 0;
        while c3 < num_channels
            invariant
                self.pipeline_spec() == p0,
                stages == p0.stages_spec(),
                info0 == p0.channel_info_spec(),
                numc_g == p0.num_channels_spec(),
                this.pipeline_spec().stages_spec() == stages,
                this.pipeline_spec().input_size_spec() == p0.input_size_spec(),
                input_size == p0.input_size_spec(),
                !overflow_cond(stages, numc_g),
                forall|c: int| 0 <= c < numc_g ==> #[trigger] channel_used(stages, c),
                n == stages.len(),
                c3 <= num_channels,
                num_channels == numc_g,
                this.pipeline_spec().channel_info_spec().len() == n + 1,
                forall|i: int|
                    0 <= i <= n
                        ==> (#[trigger] this.pipeline_spec().channel_info_spec()[i]).len()
                            == numc_g,
                buffers@.len() == c3,
                forall|c: int|
                    0 <= c < c3 ==> {
                        let ds = this.pipeline_spec().channel_info_spec()[0][c].downsample;
                        &&& (#[trigger] buffers@[c]).wf()
                        &&& buffers@[c].size_spec() == (
                            shrc_spec(input_size.0 as nat, ds.0 as nat) as usize,
                            shrc_spec(input_size.1 as nat, ds.1 as nat) as usize,
                        )
                    },
            decreases num_channels - c3,
        {
            proof {
                assert(this.pipeline.channel_info@.len()
                    == this.pipeline_spec().channel_info_spec().len());
                assert(this.pipeline_spec().channel_info_spec()[0]
                    == this.pipeline.channel_info@[0]@);
            }
            let ds = this.pipeline.channel_info[0][c3].downsample;
            let xs = shrc(input_size.0, ds.0 as usize);
            let ys = shrc(input_size.1, ds.1 as usize);
            let im = match WideImage::new((xs, ys)) {
                Ok(im) => im,
                Err(_) => {
                    return Err(Error::OutOfMemory);
                },
            };
            buffers.push(im);
            c3 = c3 + 1;
        }
        this.pipeline.input_buffers = buffers;

        proof {
            let pl = this.pipeline_spec();
            assert forall|i: int, c: int|
                #![trigger pl.channel_info_spec()[i][c]]
                0 <= i <= n && 0 <= c < numc_g
                    implies pl.channel_info_spec()[i][c].ty is Some by {
                assert(channel_used(stages, c));
                let k0 = choose|k: int|
                    0 <= k < stages.len() && (#[trigger] stages[k]).uses_channel_spec(c);
                if i <= k0 {
                    lemma_resolved_some(stages, info0[n as int][c].ty, i, k0, c);
                } else {
                    lemma_forward_some(info0, stages, numc_g, k0, i, c);
                    lemma_resolved_of_some(info0, stages, numc_g, i, c);
                }
            }
            assert forall|k: int, c: int|
                #![trigger stages[k].uses_channel_spec(c)]
                0 <= k < stages.len() && 0 <= c < numc_g
                    implies {
                        let st = stages[k];
                        let pl = this.pipeline_spec();
                        if st.uses_channel_spec(c) {
                            &&& pl.channel_info_spec()[k][c].ty == Some(st.input_type_spec())
                            &&& pl.channel_info_spec()[k + 1][c].ty
                                == Some(st.output_type_spec())
                        } else {
                            pl.channel_info_spec()[k][c].ty
                                == pl.channel_info_spec()[k + 1][c].ty
                        }
                    } by {
                let st = stages[k];
                if st.uses_channel_spec(c) {
                    lemma_forward_some(info0, stages, numc_g, k, k + 1, c);
                    lemma_resolved_of_some(info0, stages, numc_g, k + 1, c);
                    assert(info0[k + 1][c].ty == Some(st.output_type_spec()));
                }
            }
        }
        Ok(this.pipeline)
    }
}


/// The smallest of the first `i` entries.
pub open spec fn prefix_min(s: Seq<usize>, i: int) -> int
    decreases i,
    when 1 <= i <= s.len()
{
    if i == 1 {
        s[0] as int
    } else {
        let m = prefix_min(s, i - 1);
        if s[i - 1] <= m {
            s[i - 1] as int
        } else {
            m
        }
    }
}

impl<S: RenderPipelineStage> SimpleRenderPipeline<S> {
    /// How many groups the canvas splits into.
    pub fn num_groups(&self) -> (r: usize)
        requires
            self.wf(),
        ensures
            r == self.group_ready_passes_spec().len(),
    {
        self.group_ready_passes.len()
    }

    /// How many passes have been rendered.
    pub fn completed_passes(&self) -> (r: usize)
        ensures
            r == self.completed_passes_spec(),
    {
        self.completed_passes
    }

    /// Dissolve the pipeline and hand back its stages, so terminal stages
    /// can be consumed for their buffers.
    pub fn into_stages(self) -> (r: Vec<S>)
        ensures
            r@ == self.stages_spec(),
    {
        self.stages
    }

    /// The size of channel `c`'s input buffer.
    pub fn input_buffer_size(&self, c: usize) -> (r: (usize, usize))
        requires
            self.wf(),
            c < self.num_channels_spec(),
        ensures
            r == self.input_buffers_spec()[c as int].size_spec(),
    {
        self.input_buffers[c].size()
    }

    /// Run the stage chain once if every group has delivered a pass that has
    /// not been rendered yet.
    ///
    /// Inconsistent buffer geometry between the used channels of one stage
    /// is a programmer error; it is reported as `OutOfBounds` rather than
    /// aborting mid-render.
    #[verifier::rlimit(100)]
    #[verifier::spinoff_prover]
    fn do_render(&mut self) -> (r: Result<(), Error>)
        requires
            old(self).wf(),
        ensures
            final(self).wf(),
            final(self).channel_info_spec() == old(self).channel_info_spec(),
            final(self).input_size_spec() == old(self).input_size_spec(),
            final(self).log_group_size_spec() == old(self).log_group_size_spec(),
            final(self).xgroups_spec() == old(self).xgroups_spec(),
            final(self).chunk_size_spec() == old(self).chunk_size_spec(),
            final(self).group_ready_passes_spec() == old(self).group_ready_passes_spec(),
            final(self).input_buffers_spec() == old(self).input_buffers_spec(),
            final(self).stages_spec().len() == old(self).stages_spec().len(),
            forall|k: int|
                0 <= k < final(self).stages_spec().len()
                    ==> crate::executors::same_stage_shape(
                        old(self).stages_spec()[k],
                        #[trigger] final(self).stages_spec()[k],
                    ),
            ({
                let ready = prefix_min(
                    old(self).group_ready_passes_spec(),
                    old(self).group_ready_passes_spec().len() as int,
                );
                if ready <= old(self).completed_passes_spec() {
                    &&& *final(self) == *old(self)
                    &&& r is Ok
                } else {
                    final(self).completed_passes_spec() == ready
                }
            }),
            r matches Err(e) ==> (e is OutOfMemory || e is ArithmeticOverflow
                || e is OutOfBounds),
            ({
                let ready = prefix_min(
                    old(self).group_ready_passes_spec(),
                    old(self).group_ready_passes_spec().len() as int,
                );
                (ready > old(self).completed_passes_spec() && r is Ok) ==> forall|k: int|
                    #![trigger final(self).stages_spec()[k]]
                    0 <= k < old(self).stages_spec().len()
                        && (forall|j: int|
                            0 <= j <= k
                                ==> (#[trigger] old(self).stages_spec()[j]).kind_spec()
                                    is Input)
                        ==> {
                            let st = old(self).stages_spec()[k];
                            let ul = crate::executors::used_list(
                                st,
                                old(self).num_channels_spec(),
                            );
                            if ul.len() == 0 {
                                final(self).stages_spec()[k] == st
                            } else {
                                crate::executors::input_chain(
                                    st,
                                    final(self).stages_spec()[k],
                                    old(self).input_buffers_spec(),
                                    ul,
                                    (
                                        old(self).input_buffers_spec()[
                                            ul[0] as int].size_spec().0 as int,
                                        old(self).input_buffers_spec()[
                                            ul[0] as int].size_spec().1 as int,
                                    ),
                                    old(self).chunk_size_spec() as int,
                                    0,
                                    0,
                                )
                            }
                        }
            }),
            ({
                let ready = prefix_min(
                    old(self).group_ready_passes_spec(),
                    old(self).group_ready_passes_spec().len() as int,
                );
                (ready > old(self).completed_passes_spec() && r is Ok) ==> render_pass(
                    old(self).stages_spec(),
                    final(self).stages_spec(),
                    old(self).input_buffers_spec(),
                    old(self).channel_info_spec(),
                    (
                        old(self).input_size_spec().0 as int,
                        old(self).input_size_spec().1 as int,
                    ),
                    old(self).chunk_size_spec() as int,
                )
            }),
            r matches Err(e) && e is ArithmeticOverflow ==> exists|
                bt2: Seq<Seq<WideImage>>,
                st2: Seq<(int, int)>,
                k: int,
            |
                {
                    &&& #[trigger] render_prefix(
                        old(self).stages_spec(),
                        final(self).stages_spec(),
                        old(self).channel_info_spec(),
                        old(self).input_buffers_spec(),
                        (
                            old(self).input_size_spec().0 as int,
                            old(self).input_size_spec().1 as int,
                        ),
                        bt2,
                        st2,
                        old(self).chunk_size_spec() as int,
                        k,
                    )
                    &&& 0 <= k < old(self).stages_spec().len()
                    &&& !{
                        let nsz = old(self).stages_spec()[k].new_size_spec(st2[k]);
                        0 <= nsz.0 <= usize::MAX && 0 <= nsz.1 <= usize::MAX
                    }
                },
    {
        let ghost self0 = *old(self);
        let mut ready_passes = self.group_ready_passes[0];
        let mut g: usize = 1;
        while g < self.group_ready_passes.len()
            invariant
                *self == self0,
                self0.wf(),
                1 <= g <= self0.group_ready_passes_spec().len(),
                ready_passes == prefix_min(self0.group_ready_passes_spec(), g as int),
            decreases self.group_ready_passes@.len() - g,
        {
            let v = self.group_ready_passes[g];
            if v < ready_passes {
                ready_passes = v;
            }
            g = g + 1;
        }
        if ready_passes <= self.completed_passes {
            return Ok(());
        }
        self.completed_passes = ready_passes;

        let mut current_buffers = match crate::image::clone_images(&self.input_buffers) {
            Ok(b) => b,
            Err(_) => {
                return Err(Error::OutOfMemory);
            },
        };
        let mut current_size = self.input_size;
        let num_channels = self.input_buffers.len();
        let chunk_size = self.chunk_size;
        let n_stages = self.stages.len();
        let mut all_input = true;
        let ghost mut bt: Seq<Seq<WideImage>> = seq![current_buffers@];
        let ghost mut st_tr: Seq<(int, int)> = seq![
            (current_size.0 as int, current_size.1 as int)
        ];
        proof {
            assert(bufs_pixel_equal(self0.input_buffers_spec(), current_buffers@));
        }

        let mut i: usize = 0;
        while i < self.stages.len()
            invariant
                self0 == *old(self),
                self.wf(),
                self.channel_info_spec() == self0.channel_info_spec(),
                self.input_size_spec() == self0.input_size_spec(),
                self.log_group_size_spec() == self0.log_group_size_spec(),
                self.xgroups_spec() == self0.xgroups_spec(),
                self.chunk_size_spec() == self0.chunk_size_spec(),
                self.group_ready_passes_spec() == self0.group_ready_passes_spec(),
                self.input_buffers_spec() == self0.input_buffers_spec(),
                self.completed_passes_spec() == ready_passes,
                ready_passes == prefix_min(
                    self0.group_ready_passes_spec(),
                    self0.group_ready_passes_spec().len() as int,
                ),
                ready_passes > self0.completed_passes_spec(),
                self0.wf(),
                self.stages_spec().len() == self0.stages_spec().len(),
                forall|k: int|
                    0 <= k < self.stages_spec().len()
                        ==> crate::executors::same_stage_shape(
                            self0.stages_spec()[k],
                            #[trigger] self.stages_spec()[k],
                        ),
                i <= self.stages_spec().len(),
                n_stages == self.stages_spec().len(),
                bt.len() == i + 1,
                st_tr.len() == i + 1,
                bt[i as int] == current_buffers@,
                st_tr[i as int] == (current_size.0 as int, current_size.1 as int),
                bufs_pixel_equal(self0.input_buffers_spec(), bt[0]),
                st_tr[0] == (self0.input_size_spec().0 as int,
                    self0.input_size_spec().1 as int),
                forall|k: int|
                    0 <= k < i ==> render_step(
                        self0.stages_spec()[k],
                        #[trigger] self.stages_spec()[k],
                        self0.channel_info_spec()[k + 1],
                        bt[k],
                        bt[k + 1],
                        st_tr[k],
                        st_tr[k + 1],
                        chunk_size as int,
                    ),
                num_channels == self.num_channels_spec(),
                chunk_size == self.chunk_size_spec(),
                current_buffers@.len() == num_channels,
                crate::executors::bufs_wf(current_buffers@),
                all_input == (forall|j: int|
                    0 <= j < i ==> (#[trigger] self0.stages_spec()[j]).kind_spec() is Input),
                forall|k: int|
                    i <= k < self.stages_spec().len()
                        ==> #[trigger] self.stages_spec()[k] == self0.stages_spec()[k],
                all_input ==> forall|c: int|
                    0 <= c < num_channels ==> {
                        &&& (#[trigger] current_buffers@[c]).size_spec()
                            == self0.input_buffers_spec()[c].size_spec()
                        &&& forall|xx: int, yy: int|
                            0 <= xx < current_buffers@[c].size_spec().0
                                && 0 <= yy < current_buffers@[c].size_spec().1
                                ==> #[trigger] current_buffers@[c].pix(xx, yy)
                                    == self0.input_buffers_spec()[c].pix(xx, yy)
                    },
                forall|k: int|
                    #![trigger self.stages_spec()[k]]
                    0 <= k < i
                        && (forall|j: int|
                            0 <= j <= k
                                ==> (#[trigger] self0.stages_spec()[j]).kind_spec() is Input)
                        ==> {
                            let st = self0.stages_spec()[k];
                            let ul = crate::executors::used_list(st, num_channels as int);
                            if ul.len() == 0 {
                                self.stages_spec()[k] == st
                            } else {
                                crate::executors::input_chain(
                                    st,
                                    self.stages_spec()[k],
                                    self0.input_buffers_spec(),
                                    ul,
                                    (
                                        self0.input_buffers_spec()[
                                            ul[0] as int].size_spec().0 as int,
                                        self0.input_buffers_spec()[
                                            ul[0] as int].size_spec().1 as int,
                                    ),
                                    chunk_size as int,
                                    0,
                                    0,
                                )
                            }
                        },
            decreases self.stages@.len() - i,
        {
            proof {
                self.stages@[i as int].lemma_shape_wf();
            }
            let shift = self.stages[i].shift();
            let kind = self.stages[i].kind();
            let ns = match self.stages[i].new_size(current_size) {
                Some(ns) => ns,
                None => {
                    proof {
                        assert(self.stages_spec()[i as int]
                            == self0.stages_spec()[i as int]);
                        assert(render_prefix(
                            self0.stages_spec(),
                            self.stages_spec(),
                            self0.channel_info_spec(),
                            self0.input_buffers_spec(),
                            (self0.input_size_spec().0 as int,
                                self0.input_size_spec().1 as int),
                            bt,
                            st_tr,
                            chunk_size as int,
                            i as int,
                        ));
                    }
                    return Err(Error::ArithmeticOverflow);
                },
            };
            let ghost st0 = self0.stages_spec()[i as int];
            let ghost cur_g = (current_size.0 as int, current_size.1 as int);
            let ghost in_bufs_g = current_buffers@;
            let mut output_buffers = match crate::image::clone_images(&current_buffers) {
                Ok(b) => b,
                Err(_) => {
                    return Err(Error::OutOfMemory);
                },
            };
            let ghost out_clone = output_buffers@;
            proof {
                assert(bufs_pixel_equal(current_buffers@, out_clone));
            }
            if !(shift.0 == 0 && shift.1 == 0) || !(ns.0 == current_size.0
                && ns.1 == current_size.1) {
                current_size = ns;
                let mut c: usize = 0;
                while c < num_channels
                    invariant
                        self0 == *old(self),
                        self.wf(),
                        self0.wf(),
                        self.channel_info_spec() == self0.channel_info_spec(),
                        self.input_size_spec() == self0.input_size_spec(),
                        self.log_group_size_spec() == self0.log_group_size_spec(),
                        self.xgroups_spec() == self0.xgroups_spec(),
                        self.chunk_size_spec() == self0.chunk_size_spec(),
                        self.group_ready_passes_spec() == self0.group_ready_passes_spec(),
                        self.input_buffers_spec() == self0.input_buffers_spec(),
                        self.completed_passes_spec() == ready_passes,
                        ready_passes == prefix_min(
                            self0.group_ready_passes_spec(),
                            self0.group_ready_passes_spec().len() as int,
                        ),
                        ready_passes > self0.completed_passes_spec(),
                        self.stages_spec().len() == self0.stages_spec().len(),
                        forall|k: int|
                            0 <= k < self.stages_spec().len()
                                ==> crate::executors::same_stage_shape(
                                    self0.stages_spec()[k],
                                    #[trigger] self.stages_spec()[k],
                                ),
                        i < self.stages_spec().len(),
                        i < n_stages,
                        n_stages == self.stages_spec().len(),
                        num_channels == self.num_channels_spec(),
                        st0 == self0.stages_spec()[i as int],
                        crate::executors::same_stage_shape(st0,
                            self.stages_spec()[i as int]),
                        out_clone.len() == num_channels,
                        current_size == ns,
                        c <= num_channels,
                        output_buffers@.len() == num_channels,
                        crate::executors::bufs_wf(output_buffers@),
                        forall|c2: int|
                            0 <= c2 < num_channels
                                && !(c2 < c && st0.uses_channel_spec(c2))
                                ==> #[trigger] output_buffers@[c2] == out_clone[c2],
                        forall|c2: int|
                            0 <= c2 < c && st0.uses_channel_spec(c2)
                                ==> (#[trigger] output_buffers@[c2]).wf()
                                    && output_buffers@[c2].size_spec() == (
                                        shrc_spec(ns.0 as nat,
                                            self0.channel_info_spec()[
                                                i + 1][c2].downsample.0 as nat) as usize,
                                        shrc_spec(ns.1 as nat,
                                            self0.channel_info_spec()[
                                                i + 1][c2].downsample.1 as nat) as usize,
                                    ),
                    decreases num_channels - c,
                {
                    if self.stages[i].uses_channel(c) {
                        proof {
                            assert(self.channel_info@.len()
                                == self.channel_info_spec().len());
                            assert(self.stages@.len() == self.stages_spec().len());
                            assert(i + 1 < self.channel_info@.len());
                            assert(self.channel_info_spec()[i + 1]
                                == self.channel_info@[i as int + 1]@);
                        }
                        let info = self.channel_info[i + 1][c];
                        let xs = shrc(current_size.0, info.downsample.0 as usize);
                        let ys = shrc(current_size.1, info.downsample.1 as usize);
                        let im = match WideImage::new((xs, ys)) {
                            Ok(im) => im,
                            Err(_) => {
                                return Err(Error::OutOfMemory);
                            },
                        };
                        output_buffers[c] = im;
                    }
                    c = c + 1;
                }
            }
            let ghost out_realloc = output_buffers@;
            proof {
                assert forall|k: int|
                    0 <= k < num_channels && !st0.uses_channel_spec(k)
                        implies #[trigger] out_realloc[k] == out_clone[k] by {}
            }
            let mut used: Vec<usize> = Vec::new();
            let mut c: usize = 0;
            while c < num_channels
                invariant
                    self.wf(),
                    self.stages_spec().len() == self0.stages_spec().len(),
                    forall|k: int|
                        0 <= k < self.stages_spec().len()
                            ==> crate::executors::same_stage_shape(
                                self0.stages_spec()[k],
                                #[trigger] self.stages_spec()[k],
                            ),
                    st0 == self0.stages_spec()[i as int],
                    i < self.stages_spec().len(),
                    num_channels == self.num_channels_spec(),
                    c <= num_channels,
                    forall|j: int| 0 <= j < used@.len() ==> (#[trigger] used@[j]) < num_channels,
                    forall|j: int| 0 <= j < used@.len() ==> (#[trigger] used@[j]) < c,
                    crate::executors::strictly_increasing(used@),
                    used@ == crate::executors::used_list(st0, c as int),
                    forall|j: int|
                        0 <= j < used@.len()
                            ==> st0.uses_channel_spec(#[trigger] used@[j] as int),
                decreases num_channels - c,
            {
                if self.stages[i].uses_channel(c) {
                    used.push(c);
                }
                proof {
                    assert(used@ =~= crate::executors::used_list(st0, c as int + 1));
                }
                c = c + 1;
            }

            if used.len() > 0 {
                // All used channels of one stage must agree on geometry.
                let in_size = current_buffers[used[0]].size();
                let out_size = output_buffers[used[0]].size();
                let mut j: usize = 1;
                let mut consistent = true;
                while j < used.len()
                    invariant
                        used@.len() > 0,
                        j <= used@.len(),
                        forall|t: int|
                            0 <= t < used@.len() ==> (#[trigger] used@[t]) < num_channels,
                        current_buffers@.len() == num_channels,
                        output_buffers@.len() == num_channels,
                        consistent ==> forall|t: int|
                            0 <= t < j ==> (#[trigger] current_buffers@[used@[t] as int])
                                .size_spec() == in_size,
                        consistent ==> forall|t: int|
                            0 <= t < j ==> (#[trigger] output_buffers@[used@[t] as int])
                                .size_spec() == out_size,
                    decreases used@.len() - j,
                {
                    let a = current_buffers[used[j]].size();
                    let b = output_buffers[used[j]].size();
                    if !(a.0 == in_size.0 && a.1 == in_size.1 && b.0 == out_size.0
                        && b.1 == out_size.1) {
                        consistent = false;
                    } else {
                        proof {
                            assert(a == in_size);
                            assert(b == out_size);
                            assert(current_buffers@[used@[j as int] as int].size_spec()
                                == in_size);
                            assert(output_buffers@[used@[j as int] as int].size_spec()
                                == out_size);
                        }
                    }
                    j = j + 1;
                }
                if !consistent {
                    return Err(Error::OutOfBounds);
                }
                proof {
                    assert(crate::executors::sizes_all(current_buffers@, used@, in_size));
                    assert(crate::executors::sizes_all(output_buffers@, used@, out_size));
                    self.stages@[i as int].lemma_shape_wf();
                }
                match kind {
                    StageKind::Input => {
                        let ghost pre_stage = self.stages_spec()[i as int];
                        crate::executors::run_input_stage(
                            &mut self.stages[i],
                            chunk_size,
                            &current_buffers,
                            &used,
                        );
                        proof {
                            if all_input {
                                let ul = crate::executors::used_list(
                                    st0, num_channels as int);
                                assert(ul == used@);
                                assert(pre_stage == st0);
                                assert(crate::executors::input_chain(
                                    st0,
                                    self.stages_spec()[i as int],
                                    current_buffers@,
                                    used@,
                                    (in_size.0 as int, in_size.1 as int),
                                    chunk_size as int,
                                    0,
                                    0,
                                ));
                                crate::executors::lemma_input_chain_congruent(
                                    st0,
                                    self.stages_spec()[i as int],
                                    current_buffers@,
                                    self0.input_buffers_spec(),
                                    used@,
                                    (in_size.0 as int, in_size.1 as int),
                                    chunk_size as int,
                                    0,
                                    0,
                                );
                                assert(in_size
                                    == self0.input_buffers_spec()[ul[0] as int].size_spec());
                            }
                        }
                    },
                    StageKind::InPlace => {
                        if !(in_size.0 == out_size.0 && in_size.1 == out_size.1) {
                            return Err(Error::OutOfBounds);
                        }
                        crate::executors::run_inplace_stage(
                            &mut self.stages[i],
                            chunk_size,
                            &current_buffers,
                            &mut output_buffers,
                            &used,
                        );
                    },
                    StageKind::InOut => {
                        let sxp = match checked_shl(in_size.0, shift.0 as usize) {
                            Some(v) => v,
                            None => {
                                return Err(Error::OutOfBounds);
                            },
                        };
                        let syp = match checked_shl(in_size.1, shift.1 as usize) {
                            Some(v) => v,
                            None => {
                                return Err(Error::OutOfBounds);
                            },
                        };
                        if !(sxp == out_size.0 && syp == out_size.1) {
                            return Err(Error::OutOfBounds);
                        }
                        if (in_size.0 as u64) > 0x1000_0000_0000_0000u64
                            || (in_size.1 as u64) > 0x1000_0000_0000_0000u64 {
                            return Err(Error::OutOfBounds);
                        }
                        crate::executors::run_inout_stage(
                            &mut self.stages[i],
                            chunk_size,
                            &current_buffers,
                            &mut output_buffers,
                            &used,
                        );
                    },
                    StageKind::Extend => {
                        let origin = self.stages[i].original_data_origin();
                        let xend = match origin.0.checked_add(in_size.0) {
                            Some(v) => v,
                            None => {
                                return Err(Error::OutOfBounds);
                            },
                        };
                        let yend = match origin.1.checked_add(in_size.1) {
                            Some(v) => v,
                            None => {
                                return Err(Error::OutOfBounds);
                            },
                        };
                        if !(xend <= out_size.0 && yend <= out_size.1) {
                            return Err(Error::OutOfBounds);
                        }
                        crate::executors::run_extend_stage(
                            &mut self.stages[i],
                            chunk_size,
                            &current_buffers,
                            &mut output_buffers,
                            &used,
                            origin,
                        );
                    },
                }
                proof {
                    assert(render_step(
                        st0,
                        self.stages_spec()[i as int],
                        self0.channel_info_spec()[i as int + 1],
                        in_bufs_g,
                        output_buffers@,
                        cur_g,
                        (ns.0 as int, ns.1 as int),
                        chunk_size as int,
                    )) by {
                        assert(crate::executors::used_list(st0, in_bufs_g.len() as int)
                            == used@);
                        assert forall|k: int|
                            0 <= k < output_buffers@.len()
                                && !crate::executors::is_used(used@, k)
                                implies wide_pixel_equal(in_bufs_g[k],
                                    #[trigger] output_buffers@[k]) by {
                            crate::executors::lemma_used_list_members(st0,
                                num_channels as int, k);
                            assert(!st0.uses_channel_spec(k));
                            assert(out_realloc[k] == out_clone[k]);
                            assert(output_buffers@[k] == out_realloc[k]);
                            assert(wide_pixel_equal(in_bufs_g[k], out_clone[k]));
                        }
                        if st0.kind_spec() is Input {
                            assert(out_realloc == out_clone);
                            assert forall|j: int|
                                0 <= j < used@.len()
                                    implies wide_pixel_equal(
                                        in_bufs_g[used@[j] as int],
                                        #[trigger] output_buffers@[used@[j] as int],
                                    ) by {
                                assert(output_buffers@[used@[j] as int]
                                    == out_realloc[used@[j] as int]);
                            }
                        }
                    }
                }
            } else {
                proof {
                    assert(render_step(
                        st0,
                        self.stages_spec()[i as int],
                        self0.channel_info_spec()[i as int + 1],
                        in_bufs_g,
                        output_buffers@,
                        cur_g,
                        (ns.0 as int, ns.1 as int),
                        chunk_size as int,
                    )) by {
                        assert(crate::executors::used_list(st0, in_bufs_g.len() as int)
                            == used@);
                        assert(used@.len() == 0);
                        assert forall|k: int|
                            0 <= k < output_buffers@.len()
                                && !crate::executors::is_used(used@, k)
                                implies wide_pixel_equal(in_bufs_g[k],
                                    #[trigger] output_buffers@[k]) by {
                            crate::executors::lemma_used_list_members(st0,
                                num_channels as int, k);
                            assert(!st0.uses_channel_spec(k));
                            assert(out_realloc[k] == out_clone[k]);
                            assert(output_buffers@[k] == out_realloc[k]);
                        }
                    }
                }
            }
            let is_input = matches!(kind, StageKind::Input);
            proof {
                if all_input && is_input {
                    if used@.len() == 0 {
                        assert(self.stages_spec()[i as int] == st0);
                    }
                    assert forall|cc: int|
                        0 <= cc < num_channels implies {
                            &&& (#[trigger] output_buffers@[cc]).size_spec()
                                == self0.input_buffers_spec()[cc].size_spec()
                            &&& forall|xx: int, yy: int|
                                0 <= xx < output_buffers@[cc].size_spec().0
                                    && 0 <= yy < output_buffers@[cc].size_spec().1
                                    ==> #[trigger] output_buffers@[cc].pix(xx, yy)
                                        == self0.input_buffers_spec()[cc].pix(xx, yy)
                        } by {
                        assert(output_buffers@[cc].size_spec()
                            == current_buffers@[cc].size_spec());
                        assert forall|xx: int, yy: int|
                            0 <= xx < output_buffers@[cc].size_spec().0
                                && 0 <= yy < output_buffers@[cc].size_spec().1
                                implies #[trigger] output_buffers@[cc].pix(xx, yy)
                                    == self0.input_buffers_spec()[cc].pix(xx, yy) by {
                            assert(output_buffers@[cc].pix(xx, yy)
                                == current_buffers@[cc].pix(xx, yy));
                            assert(current_buffers@[cc].pix(xx, yy)
                                == self0.input_buffers_spec()[cc].pix(xx, yy));
                        }
                    }
                }
            }
            if !is_input {
                all_input = false;
            }
            proof {
                bt = bt.push(output_buffers@);
                st_tr = st_tr.push((ns.0 as int, ns.1 as int));
            }
            current_buffers = output_buffers;
            i = i + 1;
        }
        proof {
            assert(render_pass(
                self0.stages_spec(),
                self.stages_spec(),
                self0.input_buffers_spec(),
                self0.channel_info_spec(),
                (self0.input_size_spec().0 as int, self0.input_size_spec().1 as int),
                chunk_size as int,
            )) by {
                assert(render_pass_trace(
                    self0.stages_spec(),
                    self.stages_spec(),
                    self0.channel_info_spec(),
                    bt,
                    st_tr,
                    chunk_size as int,
                ));
                assert(bt.len() == self0.stages_spec().len() + 1);
                assert(st_tr.len() == self0.stages_spec().len() + 1);
                assert(bufs_pixel_equal(self0.input_buffers_spec(), bt[0]));
            }
        }
        Ok(())
    }
}


/// Passes delivered for group `g` by a batch of fill requests.
pub open spec fn added_passes<F>(infos: Seq<GroupFillInfo<F>>, g: int) -> int
    decreases infos.len(),
{
    if infos.len() == 0 {
        0
    } else {
        added_passes(infos.drop_last(), g) + if infos.last().group_id == g {
            infos.last().num_filled_passes as int
        } else {
            0
        }
    }
}

proof fn lemma_added_passes_take<F>(infos: Seq<GroupFillInfo<F>>, i: int, g: int)
    requires
        0 <= i < infos.len(),
    ensures
        added_passes(infos.take(i + 1), g) == added_passes(infos.take(i), g)
            + if infos[i].group_id == g { infos[i].num_filled_passes as int } else { 0 },
{
    assert(infos.take(i + 1).drop_last() =~= infos.take(i));
    assert(infos.take(i + 1).last() == infos[i]);
}

/// The ready-pass counters advanced by exactly the first `k` requests of
/// the batch.
pub open spec fn counted_prefix<F>(
    infos: Seq<GroupFillInfo<F>>,
    k: int,
    pre: Seq<usize>,
    post: Seq<usize>,
) -> bool {
    &&& 0 <= k <= infos.len()
    &&& post.len() == pre.len()
    &&& forall|g: int|
        0 <= g < post.len() ==> #[trigger] post[g] == pre[g] + added_passes(infos.take(k), g)
}

/// Copy a decoded tile into a wide input buffer at `off`, converting every
/// sample to its wide transport code. Pixels outside the written rectangle
/// are untouched.
fn copy_tile<T: Sample>(buf: &mut WideImage, tile: &Image<T>, off: (usize, usize))
    requires
        old(buf).wf(),
        off.0 + tile.size_spec().0 <= old(buf).size_spec().0,
        off.1 + tile.size_spec().1 <= old(buf).size_spec().1,
    ensures
        final(buf).wf(),
        final(buf).size_spec() == old(buf).size_spec(),
        forall|x: int, y: int|
            0 <= x < tile.size_spec().0 && 0 <= y < tile.size_spec().1
                ==> #[trigger] final(buf).pix(off.0 + x, off.1 + y)
                    == tile.pix(x, y).wide_spec(),
        forall|x: int, y: int|
            0 <= x < final(buf).size_spec().0 && 0 <= y < final(buf).size_spec().1
                && !(off.0 <= x < off.0 + tile.size_spec().0
                    && off.1 <= y < off.1 + tile.size_spec().1)
                ==> #[trigger] final(buf).pix(x, y) == old(buf).pix(x, y),
{
    proof {
        use_type_invariant(tile);
    }
    let tsize = tile.size();
    let mut y: usize = 0;
    while y < tsize.1
        invariant
            buf.wf(),
            tile.wf(),
            buf.size_spec() == old(buf).size_spec(),
            tsize == tile.size_spec(),
            off.0 + tsize.0 <= buf.size_spec().0,
            off.1 + tsize.1 <= buf.size_spec().1,
            y <= tsize.1,
            forall|x: int, py: int|
                0 <= x < tsize.0 && 0 <= py < y
                    ==> #[trigger] buf.pix(off.0 + x, off.1 + py)
                        == tile.pix(x, py).wide_spec(),
            forall|x: int, py: int|
                0 <= x < buf.size_spec().0 && 0 <= py < buf.size_spec().1
                    && !(off.0 <= x < off.0 + tsize.0 && off.1 <= py < off.1 + y)
                    ==> #[trigger] buf.pix(x, py) == old(buf).pix(x, py),
        decreases tsize.1 - y,
    {
        let mut x: usize = 0;
        while x < tsize.0
            invariant
                buf.wf(),
                tile.wf(),
                buf.size_spec() == old(buf).size_spec(),
                tsize == tile.size_spec(),
                off.0 + tsize.0 <= buf.size_spec().0,
                off.1 + tsize.1 <= buf.size_spec().1,
                y < tsize.1,
                x <= tsize.0,
                forall|px: int, py: int|
                    0 <= px < tsize.0 && 0 <= py < y
                        ==> #[trigger] buf.pix(off.0 + px, off.1 + py)
                            == tile.pix(px, py).wide_spec(),
                forall|px: int|
                    0 <= px < x
                        ==> #[trigger] buf.pix(off.0 + px, off.1 + y)
                            == tile.pix(px, y as int).wide_spec(),
                forall|px: int, py: int|
                    0 <= px < buf.size_spec().0 && 0 <= py < buf.size_spec().1
                        && !(off.0 <= px < off.0 + tsize.0 && off.1 <= py < off.1 + y)
                        && !(off.0 <= px < off.0 + x && py == off.1 + y)
                        ==> #[trigger] buf.pix(px, py) == old(buf).pix(px, py),
            decreases tsize.0 - x,
        {
            let v = tile.get(x, y).to_wide();
            buf.set(off.0 + x, off.1 + y, v);
            x = x + 1;
        }
        y = y + 1;
    }
}


impl<S: RenderPipelineStage> SimpleRenderPipeline<S> {
    /// Accept one group's decoded input: allocate the per-channel tiles,
    /// run the two fill callbacks, copy the returned tiles into the wide
    /// input buffers at the group's offset, and record the delivered
    /// passes. No rendering happens here.
    ///
    /// A group offset misaligned with a channel's downsampling and a
    /// channel whose type neither callback covers are programmer errors;
    /// both are reported as errors rather than panics, as is a callback
    /// that returns tiles of the wrong count or size (`OutOfBounds`).
    #[verifier::rlimit(100)]
    #[verifier::spinoff_prover]
    pub fn fill_group<T1: Sample, T2: Sample, F1, F2>(
        &mut self,
        info: GroupFillInfo<(F1, F2)>,
    ) -> (r: Result<(), Error>) where
        F1: FnOnce(Vec<Image<T1>>) -> Result<Vec<Image<T1>>, Error>,
        F2: FnOnce(Vec<Image<T2>>) -> Result<Vec<Image<T2>>, Error>,
        requires
            old(self).wf(),
            info.group_id < old(self).group_ready_passes_spec().len(),
            forall|v: Vec<Image<T1>>| #[trigger] call_requires(info.fill_fn.0, (v,)),
            forall|v: Vec<Image<T2>>| #[trigger] call_requires(info.fill_fn.1, (v,)),
        ensures
            final(self).wf(),
            final(self).channel_info_spec() == old(self).channel_info_spec(),
            final(self).input_size_spec() == old(self).input_size_spec(),
            final(self).log_group_size_spec() == old(self).log_group_size_spec(),
            final(self).xgroups_spec() == old(self).xgroups_spec(),
            final(self).chunk_size_spec() == old(self).chunk_size_spec(),
            final(self).completed_passes_spec() == old(self).completed_passes_spec(),
            final(self).stages_spec() == old(self).stages_spec(),
            final(self).group_ready_passes_spec().len()
                == old(self).group_ready_passes_spec().len(),
            r is Ok ==> {
                &&& old(self).group_ready_passes_spec()[info.group_id as int]
                    + info.num_filled_passes <= usize::MAX
                &&& final(self).group_ready_passes_spec()
                    == old(self).group_ready_passes_spec().update(
                        info.group_id as int,
                        (old(self).group_ready_passes_spec()[info.group_id as int]
                            + info.num_filled_passes) as usize,
                    )
                &&& group_filled::<T1, T2, F1, F2>(
                    info,
                    old(self).channel_info_spec()[0],
                    (
                        old(self).input_size_spec().0 as int,
                        old(self).input_size_spec().1 as int,
                    ),
                    old(self).log_group_size_spec() as nat,
                    old(self).xgroups_spec() as int,
                    old(self).input_buffers_spec(),
                    final(self).input_buffers_spec(),
                )
                &&& forall|c: int|
                    0 <= c < old(self).num_channels_spec() ==> {
                        let go = group_off(
                            info.group_id as int,
                            old(self).xgroups_spec() as int,
                            old(self).log_group_size_spec() as nat,
                        );
                        &&& !misaligned_channel(
                            old(self).channel_info_spec()[0],
                            c,
                            go.0,
                            go.1,
                        )
                        &&& !(#[trigger] unhandled_channel(
                            old(self).channel_info_spec()[0],
                            c,
                            T1::sample_type_spec(),
                            T2::sample_type_spec(),
                        ))
                    }
            },
            r is Err ==> final(self).group_ready_passes_spec()
                == old(self).group_ready_passes_spec(),
            r matches Err(e) ==> ({
                let go = group_off(
                    info.group_id as int,
                    old(self).xgroups_spec() as int,
                    old(self).log_group_size_spec() as nat,
                );
                let chrow = old(self).channel_info_spec()[0];
                let t1 = T1::sample_type_spec();
                let t2 = T2::sample_type_spec();
                match e {
                    Error::MisalignedGroup(c) => {
                        ||| {
                            &&& 0 <= c < old(self).num_channels_spec()
                            &&& misaligned_channel(chrow, c as int, go.0, go.1)
                            &&& forall|c2: int|
                                0 <= c2 < c ==> !(#[trigger] misaligned_channel(chrow,
                                    c2, go.0, go.1)) && !unhandled_channel(chrow, c2,
                                    t1, t2)
                        }
                        ||| exists|v: Vec<Image<T1>>| #[trigger] call_ensures(
                            info.fill_fn.0, (v,), Err(e))
                        ||| exists|v: Vec<Image<T2>>| #[trigger] call_ensures(
                            info.fill_fn.1, (v,), Err(e))
                    },
                    Error::UnhandledChannelType(c) => {
                        ||| {
                            &&& 0 <= c < old(self).num_channels_spec()
                            &&& !misaligned_channel(chrow, c as int, go.0, go.1)
                            &&& unhandled_channel(chrow, c as int, t1, t2)
                            &&& forall|c2: int|
                                0 <= c2 < c ==> !(#[trigger] misaligned_channel(chrow,
                                    c2, go.0, go.1)) && !unhandled_channel(chrow, c2,
                                    t1, t2)
                        }
                        ||| exists|v: Vec<Image<T1>>| #[trigger] call_ensures(
                            info.fill_fn.0, (v,), Err(e))
                        ||| exists|v: Vec<Image<T2>>| #[trigger] call_ensures(
                            info.fill_fn.1, (v,), Err(e))
                    },
                    Error::OutOfMemory => true,
                    Error::OutOfBounds => true,
                    Error::ArithmeticOverflow => true,
                    _ => {
                        ||| exists|v: Vec<Image<T1>>| #[trigger] call_ensures(
                            info.fill_fn.0, (v,), Err(e))
                        ||| exists|v: Vec<Image<T2>>| #[trigger] call_ensures(
                            info.fill_fn.1, (v,), Err(e))
                    },
                }
            }),
    {
        let ghost self0g = *old(self);
        let ghost chrow0 = old(self).channel_info_spec()[0];
        let ghost geom_size = (
            old(self).input_size_spec().0 as int,
            old(self).input_size_spec().1 as int,
        );
        let ghost ready0g = old(self).group_ready_passes_spec();
        let num_channels = self.input_buffers.len();
        let log_group_size = self.log_group_size;
        let xgroups = self.xgroups;
        let input_size = self.input_size;
        let ghost bufs_pre = self.input_buffers_spec();
        let ghost info_g = info;
        let group_id = info.group_id;
        let num_filled_passes = info.num_filled_passes;
        let (fill1, fill2) = info.fill_fn;
        proof {
            assert(fill1 == info_g.fill_fn.0);
            assert(fill2 == info_g.fill_fn.1);
        }
        proof {
            crate::util::lemma_shrc_pos(input_size.0 as nat, log_group_size as nat);
        }
        let gx = group_id % xgroups;
        let gy = group_id / xgroups;
        proof {
            vstd::arithmetic::div_mod::lemma_mod_bound(
                group_id as int, xgroups as int);
        }
        // Group offset: gx * 2^L fits because the group grid covers the
        // canvas.
        let p_opt = checked_pow2(log_group_size);
        proof {
            vstd::arithmetic::power2::lemma_pow2_pos(log_group_size as nat);
            if gx > 0 {
                let d = pow2(log_group_size as nat) as int;
                let q = shrc_spec(input_size.0 as nat, log_group_size as nat) as int;
                crate::util::lemma_ceil_div_char(input_size.0 as int, d,
                    q);
                assert(d * (q - 1) == d * q - d) by (nonlinear_arith);
                assert(d * (q - 1) < input_size.0);
                assert(gx <= q - 1);
                assert(d * gx <= d * (q - 1)) by (nonlinear_arith)
                    requires d >= 1, gx <= q - 1,
                ;
                assert(d <= d * gx) by (nonlinear_arith)
                    requires d >= 1, gx >= 1,
                ;
            }
        }
        let gox: usize = match p_opt {
            Some(p) => {
                proof {
                    if gx > 0 {
                        assert(gx * p < input_size.0) by (nonlinear_arith)
                            requires
                                (p as int) * (gx as int) < input_size.0,
                        ;
                    } else {
                        assert(gx * p == 0) by (nonlinear_arith)
                            requires gx == 0,
                        ;
                    }
                }
                gx * p
            },
            None => {
                proof {
                    if gx > 0 {
                        assert(pow2(log_group_size as nat) > usize::MAX);
                        assert(false);
                    }
                }
                0
            },
        };
        let goy: usize = match p_opt {
            Some(p) => {
                proof {
                    crate::util::lemma_shrc_pos(
                        input_size.1 as nat, log_group_size as nat);
                    let d = pow2(log_group_size as nat) as int;
                    let qy = shrc_spec(input_size.1 as nat, log_group_size as nat)
                        as int;
                    crate::util::lemma_ceil_div_char(input_size.1 as int, d, qy);
                    assert(d * (qy - 1) == d * qy - d) by (nonlinear_arith);
                    assert(d * (qy - 1) < input_size.1);
                    let xg = xgroups as int;
                    let yg = qy;
                    assert(ready0g.len() == xg * yg);
                    assert(group_id < xg * yg);
                    vstd::arithmetic::div_mod::lemma_div_pos_is_pos(
                        group_id as int, xg);
                    assert(gy <= yg - 1) by (nonlinear_arith)
                        requires
                            xg >= 1,
                            yg >= 1,
                            group_id < xg * yg,
                            gy == group_id as int / xg,
                            group_id >= 0,
                    ;
                    if gy > 0 {
                        assert(d * gy <= d * (yg - 1)) by (nonlinear_arith)
                            requires d >= 1, gy <= yg - 1,
                        ;
                        assert(gy * p < input_size.1) by (nonlinear_arith)
                            requires (d as int) * (gy as int) < input_size.1,
                                p == d,
                        ;
                    } else {
                        assert(gy * p == 0) by (nonlinear_arith)
                            requires gy == 0,
                        ;
                    }
                }
                gy * p
            },
            None => {
                proof {
                    let d = pow2(log_group_size as nat) as int;
                    let qy = shrc_spec(input_size.1 as nat, log_group_size as nat)
                        as int;
                    crate::util::lemma_shrc_pos(
                        input_size.1 as nat, log_group_size as nat);
                    crate::util::lemma_ceil_div_char(input_size.1 as int, d, qy);
                    if gy > 0 {
                        assert(d * (qy - 1) == d * qy - d) by (nonlinear_arith);
                        assert(d * (qy - 1) < input_size.1);
                        assert(qy == 1) by {
                            if qy >= 2 {
                                assert(d * 1 <= d * (qy - 1)) by (nonlinear_arith)
                                    requires d >= 1, qy >= 2,
                                ;
                                assert(d > usize::MAX);
                                assert(false);
                            }
                        }
                        let xg = xgroups as int;
                        assert(ready0g.len() == xg * qy);
                        assert(xg * 1 == xg) by (nonlinear_arith);
                        assert(group_id < xg);
                        vstd::arithmetic::div_mod::lemma_basic_div(
                            group_id as int, xg);
                        assert(false);
                    }
                }
                0
            },
        };
        // Clipped group size.
        let gsx: usize = match p_opt {
            Some(p) => {
                match gox.checked_add(p) {
                    Some(end) => if end <= input_size.0 { p } else {
                        input_size.0 - gox
                    },
                    None => input_size.0 - gox,
                }
            },
            None => input_size.0 - gox,
        };
        let gsy: usize = match p_opt {
            Some(p) => {
                match goy.checked_add(p) {
                    Some(end) => if end <= input_size.1 { p } else {
                        input_size.1 - goy
                    },
                    None => input_size.1 - goy,
                }
            },
            None => input_size.1 - goy,
        };
        proof {
            assert(gox + gsx <= input_size.0);
            assert(goy + gsy <= input_size.1);
            assert(gox == group_off(group_id as int, xgroups as int,
                log_group_size as nat).0) by {
                if gx == 0 {
                    assert(0int * pow2(log_group_size as nat) as int == 0)
                        by (nonlinear_arith);
                }
            }
            assert(goy == group_off(group_id as int, xgroups as int,
                log_group_size as nat).1) by {
                if gy == 0 {
                    assert(0int * pow2(log_group_size as nat) as int == 0)
                        by (nonlinear_arith);
                }
            }
            assert(gsx == group_extent(geom_size.0, gox as int, log_group_size as nat));
            assert(gsy == group_extent(geom_size.1, goy as int, log_group_size as nat));
        }

        // Allocate the per-channel tiles, bucketed by concrete type.
        let t1 = T1::sample_type();
        let t2 = T2::sample_type();
        let mut images1: Vec<Image<T1>> = Vec::new();
        let mut images2: Vec<Image<T2>> = Vec::new();
        let mut ch_idx: Vec<usize> = Vec::new();
        let mut ch_first: Vec<bool> = Vec::new();
        let mut off_x: Vec<usize> = Vec::new();
        let mut off_y: Vec<usize> = Vec::new();
        let mut ts_x: Vec<usize> = Vec::new();
        let mut ts_y: Vec<usize> = Vec::new();
        let mut c: usize = 0;
        while c < num_channels
            invariant
                self0g == *old(self),
                self0g.wf(),
                self.wf(),
                self.channel_info_spec() == self0g.channel_info_spec(),
                self.input_size_spec() == self0g.input_size_spec(),
                self.log_group_size_spec() == self0g.log_group_size_spec(),
                self.xgroups_spec() == self0g.xgroups_spec(),
                self.chunk_size_spec() == self0g.chunk_size_spec(),
                self.completed_passes_spec() == self0g.completed_passes_spec(),
                self.stages_spec() == self0g.stages_spec(),
                self.group_ready_passes_spec() == self0g.group_ready_passes_spec(),
                ready0g == self0g.group_ready_passes_spec(),
                num_channels == self.num_channels_spec(),
                input_size == self.input_size_spec(),
                gox + gsx <= input_size.0,
                goy + gsy <= input_size.1,
                gox as int == group_off(info_g.group_id as int,
                    self0g.xgroups_spec() as int, self0g.log_group_size_spec() as nat).0,
                goy as int == group_off(info_g.group_id as int,
                    self0g.xgroups_spec() as int, self0g.log_group_size_spec() as nat).1,
                info_g.group_id == group_id,
                info_g.group_id == info.group_id,
                c <= num_channels,
                ch_idx@.len() == c,
                ch_first@.len() == c,
                off_x@.len() == c,
                off_y@.len() == c,
                ts_x@.len() == c,
                ts_y@.len() == c,
                forall|k: int|
                    0 <= k < c && ch_first@[k]
                        ==> (#[trigger] ch_idx@[k]) < images1@.len(),
                forall|k: int|
                    0 <= k < c && !ch_first@[k]
                        ==> (#[trigger] ch_idx@[k]) < images2@.len(),
                forall|k: int|
                    0 <= k < c && ch_first@[k]
                        ==> (#[trigger] images1@[ch_idx@[k] as int]).size_spec()
                            == (ts_x@[k], ts_y@[k]),
                forall|k: int|
                    0 <= k < c && !ch_first@[k]
                        ==> (#[trigger] images2@[ch_idx@[k] as int]).size_spec()
                            == (ts_x@[k], ts_y@[k]),
                chrow0 == self.channel_info_spec()[0],
                t1 == T1::sample_type_spec(),
                t2 == T2::sample_type_spec(),
                forall|k: int|
                    0 <= k < c
                        ==> (#[trigger] ch_first@[k]) == (chrow0[k].ty
                            == Some(T1::sample_type_spec())),
                forall|k: int|
                    0 <= k < c && !ch_first@[k]
                        ==> chrow0[k].ty == Some(T2::sample_type_spec()),
                forall|k: int|
                    0 <= k < c && ch_first@[k]
                        ==> (#[trigger] ch_idx@[k]) == bucket1_index(chrow0,
                            T1::sample_type_spec(), k),
                forall|k: int|
                    0 <= k < c && !ch_first@[k]
                        ==> (#[trigger] ch_idx@[k]) == bucket2_index(chrow0,
                            T1::sample_type_spec(), T2::sample_type_spec(), k),
                images1@.len() == bucket1_index(chrow0, T1::sample_type_spec(), c as int),
                images2@.len() == bucket2_index(chrow0, T1::sample_type_spec(),
                    T2::sample_type_spec(), c as int),
                forall|k: int|
                    0 <= k < c && ch_first@[k]
                        ==> fresh_tile(
                            #[trigger] images1@[ch_idx@[k] as int],
                            (ts_x@[k] as int, ts_y@[k] as int),
                        ),
                forall|k: int|
                    0 <= k < c && !ch_first@[k]
                        ==> fresh_tile(
                            #[trigger] images2@[ch_idx@[k] as int],
                            (ts_x@[k] as int, ts_y@[k] as int),
                        ),
                forall|k: int|
                    0 <= k < c ==> (#[trigger] off_x@[k]) == gox as nat / pow2(
                        self.channel_info_spec()[0][k].downsample.0 as nat),
                forall|k: int|
                    0 <= k < c ==> (#[trigger] off_y@[k]) == goy as nat / pow2(
                        self.channel_info_spec()[0][k].downsample.1 as nat),
                forall|k: int|
                    0 <= k < c ==> (#[trigger] ts_x@[k]) == shrc_spec(gsx as nat,
                        self.channel_info_spec()[0][k].downsample.0 as nat),
                forall|k: int|
                    0 <= k < c ==> (#[trigger] ts_y@[k]) == shrc_spec(gsy as nat,
                        self.channel_info_spec()[0][k].downsample.1 as nat),
                forall|k: int|
                    0 <= k < c ==> gox as nat % pow2(
                        (#[trigger] self.channel_info_spec()[0][k]).downsample.0 as nat)
                        == 0,
                forall|k: int|
                    0 <= k < c ==> goy as nat % pow2(
                        (#[trigger] self.channel_info_spec()[0][k]).downsample.1 as nat)
                        == 0,
            decreases num_channels - c,
        {
            proof {
                assert(self.channel_info@.len() == self.channel_info_spec().len());
                assert(self.channel_info_spec()[0] == self.channel_info@[0]@);
            }
            let rec = self.channel_info[0][c];
            let ty = match rec.ty {
                Some(ty) => ty,
                None => {
                    proof {
                        assert(false);
                    }
                    return Err(Error::UnhandledChannelType(c));
                },
            };
            if mod_pow2(gox, rec.downsample.0 as usize) != 0
                || mod_pow2(goy, rec.downsample.1 as usize) != 0 {
                proof {
                    let go = group_off(info_g.group_id as int,
                        self0g.xgroups_spec() as int,
                        self0g.log_group_size_spec() as nat);
                    assert(chrow0[c as int] == rec);
                    assert(chrow0 == old(self).channel_info_spec()[0]);
                    assert(go == group_off(info.group_id as int,
                        old(self).xgroups_spec() as int,
                        old(self).log_group_size_spec() as nat));
                    assert(misaligned_channel(chrow0, c as int, go.0, go.1));
                    let gchrow = old(self).channel_info_spec()[0];
                    let ggo = group_off(info.group_id as int,
                        old(self).xgroups_spec() as int,
                        old(self).log_group_size_spec() as nat);
                    assert forall|c2: int|
                        0 <= c2 < c implies !(#[trigger] misaligned_channel(gchrow, c2,
                            ggo.0, ggo.1)) && !unhandled_channel(gchrow, c2,
                            T1::sample_type_spec(), T2::sample_type_spec()) by {
                        assert(gchrow == chrow0);
                        assert(ggo == go);
                        assert(gox as nat % pow2(chrow0[c2].downsample.0 as nat) == 0);
                        assert(goy as nat % pow2(chrow0[c2].downsample.1 as nat) == 0);
                        if ch_first@[c2] {
                            assert(chrow0[c2].ty == Some(T1::sample_type_spec()));
                        } else {
                            assert(chrow0[c2].ty == Some(T2::sample_type_spec()));
                        }
                        assert(!misaligned_channel(chrow0, c2, go.0, go.1));
                        assert(!unhandled_channel(chrow0, c2, T1::sample_type_spec(),
                            T2::sample_type_spec()));
                    }
                }
                return Err(Error::MisalignedGroup(c));
            }
            let txs = shrc(gsx, rec.downsample.0 as usize);
            let tys = shrc(gsy, rec.downsample.1 as usize);
            let ofx = shr_floor(gox, rec.downsample.0 as usize);
            let ofy = shr_floor(goy, rec.downsample.1 as usize);
            proof {
                assert(self.channel_info_spec()[0][c as int] == rec);
                assert(ofx == gox as nat / pow2(rec.downsample.0 as nat));
                assert(ofy == goy as nat / pow2(rec.downsample.1 as nat));
                assert(txs == shrc_spec(gsx as nat, rec.downsample.0 as nat));
                assert(tys == shrc_spec(gsy as nat, rec.downsample.1 as nat));
                assert(gox as nat % pow2(rec.downsample.0 as nat) == 0);
                assert(goy as nat % pow2(rec.downsample.1 as nat) == 0);
            }
            off_x.push(ofx);
            off_y.push(ofy);
            ts_x.push(txs);
            ts_y.push(tys);
            if sample_type_eq(ty, t1) {
                ch_idx.push(images1.len());
                ch_first.push(true);
                let im = match Image::<T1>::new((txs, tys)) {
                    Ok(im) => im,
                    Err(_) => {
                        return Err(Error::OutOfMemory);
                    },
                };
                images1.push(im);
                proof {
                    assert(chrow0[c as int].ty == Some(T1::sample_type_spec()));
                    assert(ch_first@[c as int]);
                    assert(ch_idx@[c as int] == images1@.len() - 1);
                    assert(bucket1_index(chrow0, T1::sample_type_spec(), c as int + 1)
                        == bucket1_index(chrow0, T1::sample_type_spec(), c as int) + 1);
                    assert(bucket2_index(chrow0, T1::sample_type_spec(),
                        T2::sample_type_spec(), c as int + 1)
                        == bucket2_index(chrow0, T1::sample_type_spec(),
                            T2::sample_type_spec(), c as int));
                    assert(fresh_tile(
                        images1@[images1@.len() - 1],
                        (txs as int, tys as int),
                    ));
                }
            } else if sample_type_eq(ty, t2) {
                ch_idx.push(images2.len());
                ch_first.push(false);
                let im = match Image::<T2>::new((txs, tys)) {
                    Ok(im) => im,
                    Err(_) => {
                        return Err(Error::OutOfMemory);
                    },
                };
                images2.push(im);
                proof {
                    assert(chrow0[c as int].ty != Some(T1::sample_type_spec()));
                    assert(chrow0[c as int].ty == Some(T2::sample_type_spec()));
                    assert(!ch_first@[c as int]);
                    assert(ch_idx@[c as int] == images2@.len() - 1);
                    assert(bucket2_index(chrow0, T1::sample_type_spec(),
                        T2::sample_type_spec(), c as int + 1)
                        == bucket2_index(chrow0, T1::sample_type_spec(),
                            T2::sample_type_spec(), c as int) + 1);
                    assert(bucket1_index(chrow0, T1::sample_type_spec(), c as int + 1)
                        == bucket1_index(chrow0, T1::sample_type_spec(), c as int));
                    assert(fresh_tile(
                        images2@[images2@.len() - 1],
                        (txs as int, tys as int),
                    ));
                }
            } else {
                proof {
                    let go = group_off(info_g.group_id as int,
                        self0g.xgroups_spec() as int,
                        self0g.log_group_size_spec() as nat);
                    assert(chrow0[c as int] == rec);
                    assert(chrow0 == old(self).channel_info_spec()[0]);
                    assert(go == group_off(info.group_id as int,
                        old(self).xgroups_spec() as int,
                        old(self).log_group_size_spec() as nat));
                    assert(!misaligned_channel(chrow0, c as int, go.0, go.1));
                    assert(unhandled_channel(chrow0, c as int,
                        T1::sample_type_spec(), T2::sample_type_spec()));
                    let gchrow = old(self).channel_info_spec()[0];
                    let ggo = group_off(info.group_id as int,
                        old(self).xgroups_spec() as int,
                        old(self).log_group_size_spec() as nat);
                    assert forall|c2: int|
                        0 <= c2 < c implies !(#[trigger] misaligned_channel(gchrow, c2,
                            ggo.0, ggo.1)) && !unhandled_channel(gchrow, c2,
                            T1::sample_type_spec(), T2::sample_type_spec()) by {
                        assert(gchrow == chrow0);
                        assert(ggo == go);
                        assert(gox as nat % pow2(chrow0[c2].downsample.0 as nat) == 0);
                        assert(goy as nat % pow2(chrow0[c2].downsample.1 as nat) == 0);
                        if ch_first@[c2] {
                            assert(chrow0[c2].ty == Some(T1::sample_type_spec()));
                        } else {
                            assert(chrow0[c2].ty == Some(T2::sample_type_spec()));
                        }
                        assert(!misaligned_channel(chrow0, c2, go.0, go.1));
                        assert(!unhandled_channel(chrow0, c2, T1::sample_type_spec(),
                            T2::sample_type_spec()));
                    }
                }
                return Err(Error::UnhandledChannelType(c));
            }
            proof {
                assert(off_x@[c as int] == ofx);
                assert(off_y@[c as int] == ofy);
                assert(ts_x@[c as int] == txs);
                assert(ts_y@[c as int] == tys);
                assert(self.channel_info_spec()[0][c as int].downsample
                    == rec.downsample);
                assert(gox as nat % pow2(rec.downsample.0 as nat) == 0);
                assert(goy as nat % pow2(rec.downsample.1 as nat) == 0);
                assert(ofx == gox as nat / pow2(rec.downsample.0 as nat));
                assert(ofy == goy as nat / pow2(rec.downsample.1 as nat));
                assert(txs == shrc_spec(gsx as nat, rec.downsample.0 as nat));
                assert(tys == shrc_spec(gsy as nat, rec.downsample.1 as nat));
                assert forall|k: int|
                    0 <= k < c + 1 implies {
                        &&& (#[trigger] off_x@[k]) == gox as nat / pow2(
                            self.channel_info_spec()[0][k].downsample.0 as nat)
                        &&& off_y@[k] == goy as nat / pow2(
                            self.channel_info_spec()[0][k].downsample.1 as nat)
                        &&& ts_x@[k] == shrc_spec(gsx as nat,
                            self.channel_info_spec()[0][k].downsample.0 as nat)
                        &&& ts_y@[k] == shrc_spec(gsy as nat,
                            self.channel_info_spec()[0][k].downsample.1 as nat)
                        &&& gox as nat % pow2(
                            self.channel_info_spec()[0][k].downsample.0 as nat) == 0
                        &&& goy as nat % pow2(
                            self.channel_info_spec()[0][k].downsample.1 as nat) == 0
                    } by {
                    if k < c {
                        assert(off_x@[k] == gox as nat / pow2(
                            self.channel_info_spec()[0][k].downsample.0 as nat));
                    } else {
                        assert(self.channel_info_spec()[0][k].downsample == rec.downsample);
                    }
                }
            }
            c = c + 1;
        }

        // Let the callbacks fill the tiles.
        let n1 = images1.len();
        let n2 = images2.len();
        let ghost args1 = images1;
        let ghost args2 = images2;
        if images1.len() > 0 {
            images1 = match fill1(images1) {
                Ok(v) => v,
                Err(e) => {
                    proof {
                        assert(call_ensures(info.fill_fn.0, (args1,), Err(e)));
                    }
                    return Err(e);
                },
            };
            proof {
                assert(call_ensures(info_g.fill_fn.0, (args1,), Ok(images1)));
            }
        }
        if images2.len() > 0 {
            images2 = match fill2(images2) {
                Ok(v) => v,
                Err(e) => {
                    proof {
                        assert(call_ensures(info.fill_fn.1, (args2,), Err(e)));
                    }
                    return Err(e);
                },
            };
            proof {
                assert(call_ensures(info_g.fill_fn.1, (args2,), Ok(images2)));
            }
        }
        if images1.len() != n1 || images2.len() != n2 {
            return Err(Error::OutOfBounds);
        }
        let ghost rets1 = images1;
        let ghost rets2 = images2;

        // Copy the filled tiles into the wide input buffers.
        let ghost ready_here = self.group_ready_passes_spec();
        let mut c: usize = 0;
        while c < num_channels
            invariant
                self0g == *old(self),
                self0g.wf(),
                self.wf(),
                self.channel_info_spec() == self0g.channel_info_spec(),
                self.input_size_spec() == self0g.input_size_spec(),
                self.log_group_size_spec() == self0g.log_group_size_spec(),
                self.xgroups_spec() == self0g.xgroups_spec(),
                self.chunk_size_spec() == self0g.chunk_size_spec(),
                self.completed_passes_spec() == self0g.completed_passes_spec(),
                self.stages_spec() == self0g.stages_spec(),
                self.group_ready_passes_spec() == ready_here,
                ready_here.len() == ready0g.len(),
                ready_here == ready0g,
                ready0g == self0g.group_ready_passes_spec(),
                gox as int == group_off(info_g.group_id as int,
                    self0g.xgroups_spec() as int, self0g.log_group_size_spec() as nat).0,
                goy as int == group_off(info_g.group_id as int,
                    self0g.xgroups_spec() as int, self0g.log_group_size_spec() as nat).1,
                group_id < ready0g.len(),
                info_g.group_id == group_id,
                info_g.num_filled_passes == num_filled_passes,
                num_channels == self.num_channels_spec(),
                input_size == self.input_size_spec(),
                gox + gsx <= input_size.0,
                goy + gsy <= input_size.1,
                c <= num_channels,
                ch_idx@.len() == num_channels,
                ch_first@.len() == num_channels,
                off_x@.len() == num_channels,
                off_y@.len() == num_channels,
                ts_x@.len() == num_channels,
                ts_y@.len() == num_channels,
                images1@.len() == n1 as int,
                images2@.len() == n2 as int,
                forall|k: int|
                    0 <= k < num_channels && ch_first@[k]
                        ==> (#[trigger] ch_idx@[k]) < n1,
                forall|k: int|
                    0 <= k < num_channels && !ch_first@[k]
                        ==> (#[trigger] ch_idx@[k]) < n2,
                forall|k: int|
                    0 <= k < num_channels ==> {
                        let ds = self.channel_info_spec()[0][k].downsample;
                        &&& (#[trigger] off_x@[k])
                            == gox as nat / pow2(ds.0 as nat)
                        &&& off_y@[k] == goy as nat / pow2(ds.1 as nat)
                        &&& ts_x@[k] == shrc_spec(gsx as nat, ds.0 as nat)
                        &&& ts_y@[k] == shrc_spec(gsy as nat, ds.1 as nat)
                        &&& gox as nat % pow2(ds.0 as nat) == 0
                        &&& goy as nat % pow2(ds.1 as nat) == 0
                    },
                chrow0 == self.channel_info_spec()[0],
                images1 == rets1,
                images2 == rets2,
                bufs_pre.len() == num_channels,
                forall|k: int|
                    0 <= k < num_channels
                        ==> (#[trigger] ch_first@[k]) == (chrow0[k].ty
                            == Some(T1::sample_type_spec())),
                forall|k: int|
                    0 <= k < num_channels && !ch_first@[k]
                        ==> chrow0[k].ty == Some(T2::sample_type_spec()),
                forall|k: int|
                    0 <= k < num_channels && ch_first@[k]
                        ==> (#[trigger] ch_idx@[k]) == bucket1_index(chrow0,
                            T1::sample_type_spec(), k),
                forall|k: int|
                    0 <= k < num_channels && !ch_first@[k]
                        ==> (#[trigger] ch_idx@[k]) == bucket2_index(chrow0,
                            T1::sample_type_spec(), T2::sample_type_spec(), k),
                forall|k: int|
                    c <= k < num_channels
                        ==> #[trigger] self.input_buffers_spec()[k] == bufs_pre[k],
                forall|k: int|
                    0 <= k < c && ch_first@[k]
                        ==> tile_copied(
                            #[trigger] rets1@[ch_idx@[k] as int],
                            bufs_pre[k],
                            self.input_buffers_spec()[k],
                            (off_x@[k] as int, off_y@[k] as int),
                        ),
                forall|k: int|
                    0 <= k < c && !ch_first@[k]
                        ==> tile_copied(
                            #[trigger] rets2@[ch_idx@[k] as int],
                            bufs_pre[k],
                            self.input_buffers_spec()[k],
                            (off_x@[k] as int, off_y@[k] as int),
                        ),
            decreases num_channels - c,
        {
            let idx = ch_idx[c];
            let first = ch_first[c];
            let offx = off_x[c];
            let offy = off_y[c];
            let txs = ts_x[c];
            let tys = ts_y[c];
            proof {
                let ds = self.channel_info_spec()[0][c as int].downsample;
                crate::util::lemma_tile_fits(
                    input_size.0 as nat, gox as nat, gsx as nat, ds.0 as nat);
                crate::util::lemma_tile_fits(
                    input_size.1 as nat, goy as nat, gsy as nat, ds.1 as nat);
            }
            proof {
                let ds = self.channel_info_spec()[0][c as int].downsample;
                crate::util::lemma_shrc_le(input_size.0 as nat, ds.0 as nat);
                crate::util::lemma_shrc_le(input_size.1 as nat, ds.1 as nat);
                assert(self.input_buffers_spec()[c as int].size_spec() == (
                    shrc_spec(input_size.0 as nat, ds.0 as nat) as usize,
                    shrc_spec(input_size.1 as nat, ds.1 as nat) as usize,
                ));
            }
            if first {
                let tile = &images1[idx];
                let tsize = tile.size();
                if !(tsize.0 == txs && tsize.1 == tys) {
                    return Err(Error::OutOfBounds);
                }
                proof {
                    assert(tile.size_spec() == (txs, tys));
                }
                copy_tile(&mut self.input_buffers[c], tile, (offx, offy));
            } else {
                let tile = &images2[idx];
                let tsize = tile.size();
                if !(tsize.0 == txs && tsize.1 == tys) {
                    return Err(Error::OutOfBounds);
                }
                proof {
                    assert(tile.size_spec() == (txs, tys));
                }
                copy_tile(&mut self.input_buffers[c], tile, (offx, offy));
            }
            c = c + 1;
        }

        // Record the delivered passes.
        proof {
            assert(self.group_ready_passes@.len()
                == self.group_ready_passes_spec().len());
        }
        let prev = self.group_ready_passes[group_id];
        let next = match prev.checked_add(num_filled_passes) {
            Some(v) => v,
            None => {
                return Err(Error::ArithmeticOverflow);
            },
        };
        self.group_ready_passes[group_id] = next;
        proof {
            let t1s = T1::sample_type_spec();
            let t2s = T2::sample_type_spec();
            {
                assert(group_id == info_g.group_id);
                assert(chrow0.len() == num_channels);
                assert(args1@.len() > 0 ==> call_ensures(info_g.fill_fn.0, (args1,),
                    Ok(rets1)));
                assert(args1@.len() == 0 ==> rets1 == args1);
                assert(args2@.len() > 0 ==> call_ensures(info_g.fill_fn.1, (args2,),
                    Ok(rets2)));
                assert(args2@.len() == 0 ==> rets2 == args2);
                assert(rets1@.len() == args1@.len());
                assert(rets2@.len() == args2@.len());
                assert(self.input_buffers_spec().len() == bufs_pre.len());
                assert(args1@.len() == bucket1_index(chrow0, t1s,
                    num_channels as int));
                assert(args2@.len() == bucket2_index(chrow0, t1s, t2s,
                    num_channels as int));
                assert forall|cc: int|
                    0 <= cc < chrow0.len() && chrow0[cc].ty == Some(t1s)
                        implies fresh_tile(
                            #[trigger] args1@[bucket1_index(chrow0, t1s, cc)],
                            tile_rect(chrow0, cc, gox as int, goy as int, gsx as int,
                                gsy as int).1,
                        ) && tile_copied(
                            rets1@[bucket1_index(chrow0, t1s, cc)],
                            bufs_pre[cc],
                            self.input_buffers_spec()[cc],
                            tile_rect(chrow0, cc, gox as int, goy as int, gsx as int,
                                gsy as int).0,
                        ) by {
                    assert(ch_first@[cc]);
                    assert(ch_idx@[cc] == bucket1_index(chrow0, t1s, cc));
                    assert(off_x@[cc] == gox as nat
                        / pow2(chrow0[cc].downsample.0 as nat));
                    assert(tile_rect(chrow0, cc, gox as int, goy as int, gsx as int,
                        gsy as int).1 == (ts_x@[cc] as int, ts_y@[cc] as int));
                    assert(tile_rect(chrow0, cc, gox as int, goy as int, gsx as int,
                        gsy as int).0 == (off_x@[cc] as int, off_y@[cc] as int));
                    assert(fresh_tile(args1@[ch_idx@[cc] as int],
                        (ts_x@[cc] as int, ts_y@[cc] as int)));
                    assert(tile_copied(rets1@[ch_idx@[cc] as int], bufs_pre[cc],
                        self.input_buffers_spec()[cc],
                        (off_x@[cc] as int, off_y@[cc] as int)));
                }
                assert forall|cc: int|
                    0 <= cc < chrow0.len() && chrow0[cc].ty != Some(t1s)
                        && chrow0[cc].ty == Some(t2s)
                        implies fresh_tile(
                            #[trigger] args2@[bucket2_index(chrow0, t1s, t2s, cc)],
                            tile_rect(chrow0, cc, gox as int, goy as int, gsx as int,
                                gsy as int).1,
                        ) && tile_copied(
                            rets2@[bucket2_index(chrow0, t1s, t2s, cc)],
                            bufs_pre[cc],
                            self.input_buffers_spec()[cc],
                            tile_rect(chrow0, cc, gox as int, goy as int, gsx as int,
                                gsy as int).0,
                        ) by {
                    assert(!ch_first@[cc]);
                    assert(ch_idx@[cc] == bucket2_index(chrow0, t1s, t2s, cc));
                    assert(off_x@[cc] == gox as nat
                        / pow2(chrow0[cc].downsample.0 as nat));
                    assert(tile_rect(chrow0, cc, gox as int, goy as int, gsx as int,
                        gsy as int).1 == (ts_x@[cc] as int, ts_y@[cc] as int));
                    assert(tile_rect(chrow0, cc, gox as int, goy as int, gsx as int,
                        gsy as int).0 == (off_x@[cc] as int, off_y@[cc] as int));
                    assert(fresh_tile(args2@[ch_idx@[cc] as int],
                        (ts_x@[cc] as int, ts_y@[cc] as int)));
                    assert(tile_copied(rets2@[ch_idx@[cc] as int], bufs_pre[cc],
                        self.input_buffers_spec()[cc],
                        (off_x@[cc] as int, off_y@[cc] as int)));
                }
            }
            {
                let t1s = T1::sample_type_spec();
                let sgox = group_off(info_g.group_id as int, xgroups as int,
                    log_group_size as nat).0;
                let sgoy = group_off(info_g.group_id as int, xgroups as int,
                    log_group_size as nat).1;
                let sgsx = group_extent(geom_size.0, sgox, log_group_size as nat);
                let sgsy = group_extent(geom_size.1, sgoy, log_group_size as nat);
                assert(sgox == gox as int);
                assert(sgoy == goy as int);
                assert(sgsx == gsx as int);
                assert(sgsy == gsy as int);
                assert(args1@.len() == bucket1_index(chrow0, t1s, chrow0.len() as int));
                assert forall|cc: int|
                    0 <= cc < chrow0.len() && chrow0[cc].ty == Some(t1s)
                        implies fresh_tile(
                            #[trigger] args1@[bucket1_index(chrow0, t1s, cc)],
                            tile_rect(chrow0, cc, sgox, sgoy, sgsx, sgsy).1,
                        ) by {
                    assert(fresh_tile(args1@[bucket1_index(chrow0, t1s, cc)],
                        tile_rect(chrow0, cc, gox as int, goy as int, gsx as int,
                            gsy as int).1));
                }
                let t2s = T2::sample_type_spec();
                assert forall|cc: int|
                    0 <= cc < chrow0.len() && chrow0[cc].ty == Some(t1s)
                        implies tile_copied(
                            #[trigger] rets1@[bucket1_index(chrow0, t1s, cc)],
                            bufs_pre[cc],
                            self.input_buffers_spec()[cc],
                            tile_rect(chrow0, cc, sgox, sgoy, sgsx, sgsy).0,
                        ) by {
                    assert(ch_idx@[cc] == bucket1_index(chrow0, t1s, cc));
                    assert(tile_copied(rets1@[ch_idx@[cc] as int], bufs_pre[cc],
                        self.input_buffers_spec()[cc],
                        (off_x@[cc] as int, off_y@[cc] as int)));
                    assert(tile_rect(chrow0, cc, gox as int, goy as int, gsx as int,
                        gsy as int).0 == (off_x@[cc] as int, off_y@[cc] as int));
                }
                assert forall|cc: int|
                    0 <= cc < chrow0.len() && chrow0[cc].ty != Some(t1s)
                        && chrow0[cc].ty == Some(t2s)
                        implies tile_copied(
                            #[trigger] rets2@[bucket2_index(chrow0, t1s, t2s, cc)],
                            bufs_pre[cc],
                            self.input_buffers_spec()[cc],
                            tile_rect(chrow0, cc, sgox, sgoy, sgsx, sgsy).0,
                        ) by {
                    assert(ch_idx@[cc] == bucket2_index(chrow0, t1s, t2s, cc));
                    assert(tile_copied(rets2@[ch_idx@[cc] as int], bufs_pre[cc],
                        self.input_buffers_spec()[cc],
                        (off_x@[cc] as int, off_y@[cc] as int)));
                    assert(tile_rect(chrow0, cc, gox as int, goy as int, gsx as int,
                        gsy as int).0 == (off_x@[cc] as int, off_y@[cc] as int));
                }
            }
            assert(group_filled_with::<T1, T2, F1, F2>(
                args1,
                rets1,
                args2,
                rets2,
                info_g,
                chrow0,
                geom_size,
                log_group_size as nat,
                xgroups as int,
                bufs_pre,
                self.input_buffers_spec(),
            ));
                assert(group_filled::<T1, T2, F1, F2>(
                info_g,
                chrow0,
                geom_size,
                log_group_size as nat,
                xgroups as int,
                bufs_pre,
                self.input_buffers_spec(),
            ));
            let go = group_off(info_g.group_id as int, self0g.xgroups_spec() as int,
                self0g.log_group_size_spec() as nat);
            assert forall|cx: int|
                0 <= cx < num_channels implies !misaligned_channel(chrow0, cx, go.0, go.1)
                    && !(#[trigger] unhandled_channel(chrow0, cx, T1::sample_type_spec(),
                        T2::sample_type_spec())) by {
                assert(gox as nat % pow2(chrow0[cx].downsample.0 as nat) == 0);
                assert(goy as nat % pow2(chrow0[cx].downsample.1 as nat) == 0);
                if ch_first@[cx] {
                    assert(chrow0[cx].ty == Some(T1::sample_type_spec()));
                } else {
                    assert(chrow0[cx].ty == Some(T2::sample_type_spec()));
                }
            }
        }
        Ok(())
    }

    /// Accept decoded input for a batch of groups, with two fill callbacks
    /// covering the two concrete sample types the channels may carry, then
    /// render if a new pass became complete everywhere.
    ///
    /// A group offset misaligned with a channel's downsampling and a
    /// channel whose type neither callback covers are programmer errors;
    /// both are reported as errors rather than panics, as is a callback
    /// that returns tiles of the wrong count or size (`OutOfBounds`).
    #[verifier::rlimit(100)]
    #[verifier::spinoff_prover]
    pub fn fill_input_two_types<T1: Sample, T2: Sample, F1, F2>(
        &mut self,
        group_fill_info: Vec<GroupFillInfo<(F1, F2)>>,
    ) -> (r: Result<(), Error>) where
        F1: FnOnce(Vec<Image<T1>>) -> Result<Vec<Image<T1>>, Error>,
        F2: FnOnce(Vec<Image<T2>>) -> Result<Vec<Image<T2>>, Error>,
        requires
            old(self).wf(),
            forall|i: int|
                0 <= i < group_fill_info@.len()
                    ==> (#[trigger] group_fill_info@[i]).group_id
                        < old(self).group_ready_passes_spec().len(),
            forall|i: int, v: Vec<Image<T1>>|
                0 <= i < group_fill_info@.len()
                    ==> #[trigger] call_requires(group_fill_info@[i].fill_fn.0, (v,)),
            forall|i: int, v: Vec<Image<T2>>|
                0 <= i < group_fill_info@.len()
                    ==> #[trigger] call_requires(group_fill_info@[i].fill_fn.1, (v,)),
        ensures
            final(self).wf(),
            final(self).channel_info_spec() == old(self).channel_info_spec(),
            final(self).input_size_spec() == old(self).input_size_spec(),
            final(self).log_group_size_spec() == old(self).log_group_size_spec(),
            final(self).xgroups_spec() == old(self).xgroups_spec(),
            final(self).chunk_size_spec() == old(self).chunk_size_spec(),
            final(self).stages_spec().len() == old(self).stages_spec().len(),
            forall|k: int|
                0 <= k < final(self).stages_spec().len()
                    ==> crate::executors::same_stage_shape(
                        old(self).stages_spec()[k],
                        #[trigger] final(self).stages_spec()[k],
                    ),
            r is Ok ==> {
                let ready = final(self).group_ready_passes_spec();
                let ready0 = old(self).group_ready_passes_spec();
                &&& forall|g: int|
                    0 <= g < ready.len()
                        ==> #[trigger] ready[g] == ready0[g]
                            + added_passes(group_fill_info@, g)
                &&& final(self).completed_passes_spec() == {
                    let m = prefix_min(ready, ready.len() as int);
                    if m <= old(self).completed_passes_spec() {
                        old(self).completed_passes_spec() as int
                    } else {
                        m
                    }
                }
                &&& groups_filled::<T1, T2, F1, F2>(
                    group_fill_info@,
                    group_fill_info@.len() as int,
                    old(self).channel_info_spec()[0],
                    (
                        old(self).input_size_spec().0 as int,
                        old(self).input_size_spec().1 as int,
                    ),
                    old(self).log_group_size_spec() as nat,
                    old(self).xgroups_spec() as int,
                    old(self).input_buffers_spec(),
                    final(self).input_buffers_spec(),
                )
                &&& (prefix_min(ready, ready.len() as int)
                    > old(self).completed_passes_spec() ==> render_pass(
                        old(self).stages_spec(),
                        final(self).stages_spec(),
                        final(self).input_buffers_spec(),
                        old(self).channel_info_spec(),
                        (
                            old(self).input_size_spec().0 as int,
                            old(self).input_size_spec().1 as int,
                        ),
                        old(self).chunk_size_spec() as int,
                    ))
                &&& (prefix_min(ready, ready.len() as int)
                    > old(self).completed_passes_spec() ==> forall|k: int|
                    #![trigger final(self).stages_spec()[k]]
                    0 <= k < old(self).stages_spec().len()
                        && (forall|j: int|
                            0 <= j <= k
                                ==> (#[trigger] old(self).stages_spec()[j]).kind_spec()
                                    is Input)
                        ==> {
                            let st = old(self).stages_spec()[k];
                            let ul = crate::executors::used_list(
                                st,
                                old(self).num_channels_spec(),
                            );
                            if ul.len() == 0 {
                                final(self).stages_spec()[k] == st
                            } else {
                                crate::executors::input_chain(
                                    st,
                                    final(self).stages_spec()[k],
                                    final(self).input_buffers_spec(),
                                    ul,
                                    (
                                        final(self).input_buffers_spec()[
                                            ul[0] as int].size_spec().0 as int,
                                        final(self).input_buffers_spec()[
                                            ul[0] as int].size_spec().1 as int,
                                    ),
                                    old(self).chunk_size_spec() as int,
                                    0,
                                    0,
                                )
                            }
                        })
            },
            r is Err ==> exists|k: int| #[trigger] counted_prefix(
                group_fill_info@,
                k,
                old(self).group_ready_passes_spec(),
                final(self).group_ready_passes_spec(),
            ),
            r is Err ==> {
                ||| final(self).completed_passes_spec()
                    == old(self).completed_passes_spec()
                ||| {
                    let ready = final(self).group_ready_passes_spec();
                    &&& counted_prefix(
                        group_fill_info@,
                        group_fill_info@.len() as int,
                        old(self).group_ready_passes_spec(),
                        ready,
                    )
                    &&& prefix_min(ready, ready.len() as int)
                        > old(self).completed_passes_spec()
                    &&& final(self).completed_passes_spec()
                        == prefix_min(ready, ready.len() as int)
                }
            },
            r matches Err(e) ==> {
                ||| e is OutOfMemory
                ||| e is OutOfBounds
                ||| e is ArithmeticOverflow
                ||| e is MisalignedGroup
                ||| e is UnhandledChannelType
                ||| exists|i: int, v: Vec<Image<T1>>|
                    0 <= i < group_fill_info@.len() && #[trigger] call_ensures(
                        group_fill_info@[i].fill_fn.0, (v,), Err(e))
                ||| exists|i: int, v: Vec<Image<T2>>|
                    0 <= i < group_fill_info@.len() && #[trigger] call_ensures(
                        group_fill_info@[i].fill_fn.1, (v,), Err(e))
            },
    {
        let ghost self0 = *old(self);
        let ghost chrow0 = old(self).channel_info_spec()[0];
        let ghost geom_size = (
            old(self).input_size_spec().0 as int,
            old(self).input_size_spec().1 as int,
        );
        let ghost infos0 = group_fill_info@;
        let n_infos = group_fill_info.len();
        let mut infos = group_fill_info;
        let ghost ready0 = self0.group_ready_passes_spec();
        let ghost mut trace: Seq<Seq<WideImage>> = seq![self0.input_buffers_spec()];
        let mut done: usize = 0;
        while infos.len() > 0
            invariant
                self0 == *old(self),
                self0.wf(),
                self.wf(),
                self.channel_info_spec() == self0.channel_info_spec(),
                self.input_size_spec() == self0.input_size_spec(),
                self.log_group_size_spec() == self0.log_group_size_spec(),
                self.xgroups_spec() == self0.xgroups_spec(),
                self.chunk_size_spec() == self0.chunk_size_spec(),
                self.completed_passes_spec() == self0.completed_passes_spec(),
                self.stages_spec() == self0.stages_spec(),
                ready0 == self0.group_ready_passes_spec(),
                chrow0 == self0.channel_info_spec()[0],
                geom_size == (self0.input_size_spec().0 as int,
                    self0.input_size_spec().1 as int),
                n_infos == infos0.len(),
                infos0 == group_fill_info@,
                ready0 == old(self).group_ready_passes_spec(),
                done + infos@.len() == infos0.len(),
                infos@ == infos0.skip(done as int),
                forall|i: int|
                    0 <= i < infos0.len()
                        ==> (#[trigger] infos0[i]).group_id < ready0.len(),
                forall|i: int, v: Vec<Image<T1>>|
                    0 <= i < infos0.len()
                        ==> #[trigger] call_requires(infos0[i].fill_fn.0, (v,)),
                forall|i: int, v: Vec<Image<T2>>|
                    0 <= i < infos0.len()
                        ==> #[trigger] call_requires(infos0[i].fill_fn.1, (v,)),
                self.group_ready_passes_spec().len() == ready0.len(),
                forall|g: int|
                    0 <= g < ready0.len()
                        ==> #[trigger] self.group_ready_passes_spec()[g]
                            == ready0[g] + added_passes(infos0.take(done as int), g),
                trace.len() == done + 1,
                trace[0] == self0.input_buffers_spec(),
                trace[done as int] == self.input_buffers_spec(),
                groups_filled_trace::<T1, T2, F1, F2>(
                    infos0,
                    trace,
                    done as int,
                    chrow0,
                    geom_size,
                    self0.log_group_size_spec() as nat,
                    self0.xgroups_spec() as int,
                ),
            decreases infos@.len(),
        {
            proof {
                assert(infos@[0] == infos0[done as int]);
            }
            let ghost bufs_mid = self.input_buffers_spec();
            let ghost ready_mid = self.group_ready_passes_spec();
            let info = infos.remove(0);
            let ghost info_g = infos0[done as int];
            let group_id = info.group_id;
            let num_filled_passes = info.num_filled_passes;
            let res = self.fill_group::<T1, T2, F1, F2>(info);
            match res {
                Ok(_) => {},
                Err(e) => {
                    proof {
                        assert(counted_prefix(infos0, done as int, ready0,
                            self.group_ready_passes_spec()));
                        if !(e is OutOfMemory || e is OutOfBounds
                            || e is ArithmeticOverflow || e is MisalignedGroup
                            || e is UnhandledChannelType) {
                            assert((exists|v: Vec<Image<T1>>| call_ensures(
                                info_g.fill_fn.0, (v,), Err(e)))
                                || (exists|v: Vec<Image<T2>>| call_ensures(
                                    info_g.fill_fn.1, (v,), Err(e))));
                            if exists|v: Vec<Image<T1>>| call_ensures(
                                info_g.fill_fn.0, (v,), Err(e)) {
                                let v = choose|v: Vec<Image<T1>>| call_ensures(
                                    info_g.fill_fn.0, (v,), Err(e));
                                assert(call_ensures(infos0[done as int].fill_fn.0,
                                    (v,), Err(e)));
                            } else {
                                let v = choose|v: Vec<Image<T2>>| call_ensures(
                                    info_g.fill_fn.1, (v,), Err(e));
                                assert(call_ensures(infos0[done as int].fill_fn.1,
                                    (v,), Err(e)));
                            }
                        }
                    }
                    return Err(e);
                },
            }
            proof {
                assert(done < infos0.len());
                assert(infos0.len() == n_infos);
            }
            done = done + 1;
            proof {
                assert(infos@ =~= infos0.skip(done as int));
                assert(self.group_ready_passes_spec() == ready_mid.update(
                    info_g.group_id as int,
                    (ready_mid[info_g.group_id as int]
                        + info_g.num_filled_passes) as usize,
                ));
                assert forall|g: int|
                    0 <= g < ready0.len()
                        implies #[trigger] self.group_ready_passes_spec()[g]
                            == ready0[g] + added_passes(infos0.take(done as int), g) by {
                    lemma_added_passes_take(infos0, done as int - 1, g);
                    assert(ready_mid[g] == ready0[g]
                        + added_passes(infos0.take(done as int - 1), g));
                    assert(info_g == infos0[done as int - 1]);
                    if g == info_g.group_id {
                        assert(self.group_ready_passes_spec()[g]
                            == (ready_mid[g] + info_g.num_filled_passes) as usize);
                    } else {
                        assert(self.group_ready_passes_spec()[g] == ready_mid[g]);
                    }
                }
                trace = trace.push(self.input_buffers_spec());
                assert(trace[done as int] == self.input_buffers_spec());
                assert(trace[done as int - 1] == bufs_mid);
                assert(group_filled::<T1, T2, F1, F2>(
                    info_g,
                    chrow0,
                    geom_size,
                    self0.log_group_size_spec() as nat,
                    self0.xgroups_spec() as int,
                    bufs_mid,
                    self.input_buffers_spec(),
                ));
                assert forall|k: int|
                    0 <= k < done as int implies group_filled::<T1, T2, F1, F2>(
                        infos0[k],
                        chrow0,
                        geom_size,
                        self0.log_group_size_spec() as nat,
                        self0.xgroups_spec() as int,
                        #[trigger] trace[k],
                        trace[k + 1],
                    ) by {
                    if k == done as int - 1 {
                        assert(info_g == infos0[k]);
                    }
                }
            }
        }
        proof {
            assert(infos0.take(done as int) =~= infos0);
            assert(done == infos0.len());
            assert(groups_filled::<T1, T2, F1, F2>(
                infos0,
                infos0.len() as int,
                chrow0,
                geom_size,
                self0.log_group_size_spec() as nat,
                self0.xgroups_spec() as int,
                self0.input_buffers_spec(),
                self.input_buffers_spec(),
            )) by {
                assert(groups_filled_trace::<T1, T2, F1, F2>(
                    infos0,
                    trace,
                    infos0.len() as int,
                    chrow0,
                    geom_size,
                    self0.log_group_size_spec() as nat,
                    self0.xgroups_spec() as int,
                ));
                assert(trace.len() == infos0.len() + 1);
                assert(trace[0] == self0.input_buffers_spec());
                assert(trace[infos0.len() as int] == self.input_buffers_spec());
            }
        }
        let res = self.do_render();
        proof {
            assert(counted_prefix(infos0, infos0.len() as int, ready0,
                self.group_ready_passes_spec()));
        }
        match res {
            Ok(_) => Ok(()),
            Err(e) => Err(e),
        }
    }
}




/// Offsets of a group inside the canvas: its grid cell times the group side.
pub open spec fn group_off(gid: int, xgroups: int, log: nat) -> (int, int) {
    ((gid % xgroups) * pow2(log), (gid / xgroups) * pow2(log))
}

/// The clipped extent of a group along one axis.
pub open spec fn group_extent(canvas: int, off: int, log: nat) -> int {
    if canvas - off <= pow2(log) {
        canvas - off
    } else {
        pow2(log) as int
    }
}

/// The group offset is not a multiple of channel `c`'s downsampling.
pub open spec fn misaligned_channel(
    chinfo: Seq<ChannelInfo>,
    c: int,
    gox: int,
    goy: int,
) -> bool {
    ||| gox % (pow2(chinfo[c].downsample.0 as nat) as int) != 0
    ||| goy % (pow2(chinfo[c].downsample.1 as nat) as int) != 0
}

/// Channel `c`'s resolved sample type is covered by neither callback type.
pub open spec fn unhandled_channel(
    chinfo: Seq<ChannelInfo>,
    c: int,
    t1: SampleType,
    t2: SampleType,
) -> bool {
    chinfo[c].ty != Some(t1) && chinfo[c].ty != Some(t2)
}

/// How many channels before `c` carry resolved type `t`: the index of
/// channel `c`'s tile within its type's bucket.
pub open spec fn bucket1_index(chinfo: Seq<ChannelInfo>, t: SampleType, c: int) -> int
    decreases c,
    when c >= 0
{
    if c <= 0 {
        0
    } else {
        bucket1_index(chinfo, t, c - 1) + if chinfo[c - 1].ty == Some(t) {
            1int
        } else {
            0
        }
    }
}

/// How many channels before `c` fall into the second bucket: resolved to
/// `t2` but not to `t1` (the first bucket wins when the types coincide).
pub open spec fn bucket2_index(
    chinfo: Seq<ChannelInfo>,
    t1: SampleType,
    t2: SampleType,
    c: int,
) -> int
    decreases c,
    when c >= 0
{
    if c <= 0 {
        0
    } else {
        bucket2_index(chinfo, t1, t2, c - 1) + if chinfo[c - 1].ty != Some(t1)
            && chinfo[c - 1].ty == Some(t2) {
            1int
        } else {
            0
        }
    }
}

/// A freshly allocated, zeroed tile of the given size.
pub open spec fn fresh_tile<T: Sample>(im: Image<T>, size: (int, int)) -> bool {
    &&& im.wf()
    &&& im.size_spec().0 == size.0
    &&& im.size_spec().1 == size.1
    &&& forall|x: int, y: int|
        0 <= x < size.0 && 0 <= y < size.1 ==> im.pix(x, y) == T::zero_spec()
}

/// The downsampled tile geometry of channel `c` for a group at `(gox, goy)`
/// of extent `(gsx, gsy)`: tile offset and tile size in the channel's input
/// buffer.
pub open spec fn tile_rect(
    chinfo: Seq<ChannelInfo>,
    c: int,
    gox: int,
    goy: int,
    gsx: int,
    gsy: int,
) -> ((int, int), (int, int)) {
    let ds = chinfo[c].downsample;
    (
        (gox / pow2(ds.0 as nat) as int, goy / pow2(ds.1 as nat) as int),
        (
            shrc_spec(gsx as nat, ds.0 as nat) as int,
            shrc_spec(gsy as nat, ds.1 as nat) as int,
        ),
    )
}

/// One group's worth of input was accepted: fresh zeroed tiles of the
/// downsampled group geometry were handed to the two fill callbacks (each
/// invoked once, where its bucket is non-empty), and the tiles they
/// returned were copied, converted to wide codes, into the per-channel
/// input buffers at the group's offset; all other samples kept their
/// values.
pub open spec fn group_filled<T1: Sample, T2: Sample, F1, F2>(
    info: GroupFillInfo<(F1, F2)>,
    chinfo: Seq<ChannelInfo>,
    input_size: (int, int),
    log: nat,
    xgroups: int,
    pre: Seq<WideImage>,
    post: Seq<WideImage>,
) -> bool where
    F1: FnOnce(Vec<Image<T1>>) -> Result<Vec<Image<T1>>, Error>,
    F2: FnOnce(Vec<Image<T2>>) -> Result<Vec<Image<T2>>, Error>,
{
    exists|arg1: Vec<Image<T1>>, ret1: Vec<Image<T1>>, arg2: Vec<Image<T2>>, ret2: Vec<
        Image<T2>,
    >|
        #[trigger] group_filled_with(arg1, ret1, arg2, ret2, info, chinfo, input_size, log,
            xgroups, pre, post)
}

/// The witnessed form of [`group_filled`]: the four vectors are the tiles
/// handed to and returned by the two callbacks.
pub open spec fn group_filled_with<T1: Sample, T2: Sample, F1, F2>(
    arg1: Vec<Image<T1>>,
    ret1: Vec<Image<T1>>,
    arg2: Vec<Image<T2>>,
    ret2: Vec<Image<T2>>,
    info: GroupFillInfo<(F1, F2)>,
    chinfo: Seq<ChannelInfo>,
    input_size: (int, int),
    log: nat,
    xgroups: int,
    pre: Seq<WideImage>,
    post: Seq<WideImage>,
) -> bool where
    F1: FnOnce(Vec<Image<T1>>) -> Result<Vec<Image<T1>>, Error>,
    F2: FnOnce(Vec<Image<T2>>) -> Result<Vec<Image<T2>>, Error>,
{
    let t1 = T1::sample_type_spec();
    let t2 = T2::sample_type_spec();
    let gox = group_off(info.group_id as int, xgroups, log).0;
    let goy = group_off(info.group_id as int, xgroups, log).1;
    let gsx = group_extent(input_size.0, gox, log);
    let gsy = group_extent(input_size.1, goy, log);
    {
        &&& arg1@.len() == bucket1_index(chinfo, t1, chinfo.len() as int)
        &&& arg2@.len() == bucket2_index(chinfo, t1, t2, chinfo.len() as int)
        &&& forall|c: int|
            0 <= c < chinfo.len() && chinfo[c].ty == Some(t1)
                ==> fresh_tile(
                    #[trigger] arg1@[bucket1_index(chinfo, t1, c)],
                    tile_rect(chinfo, c, gox, goy, gsx, gsy).1,
                )
        &&& forall|c: int|
            0 <= c < chinfo.len() && chinfo[c].ty != Some(t1) && chinfo[c].ty == Some(t2)
                ==> fresh_tile(
                    #[trigger] arg2@[bucket2_index(chinfo, t1, t2, c)],
                    tile_rect(chinfo, c, gox, goy, gsx, gsy).1,
                )
        &&& (arg1@.len() > 0 ==> call_ensures(info.fill_fn.0, (arg1,), Ok(ret1)))
        &&& (arg1@.len() == 0 ==> ret1 == arg1)
        &&& (arg2@.len() > 0 ==> call_ensures(info.fill_fn.1, (arg2,), Ok(ret2)))
        &&& (arg2@.len() == 0 ==> ret2 == arg2)
        &&& ret1@.len() == arg1@.len()
        &&& ret2@.len() == arg2@.len()
        &&& post.len() == pre.len()
        &&& forall|c: int|
            0 <= c < chinfo.len() && chinfo[c].ty == Some(t1)
                ==> tile_copied(
                    #[trigger] ret1@[bucket1_index(chinfo, t1, c)],
                    pre[c],
                    post[c],
                    tile_rect(chinfo, c, gox, goy, gsx, gsy).0,
                )
        &&& forall|c: int|
            0 <= c < chinfo.len() && chinfo[c].ty != Some(t1) && chinfo[c].ty == Some(t2)
                ==> tile_copied(
                    #[trigger] ret2@[bucket2_index(chinfo, t1, t2, c)],
                    pre[c],
                    post[c],
                    tile_rect(chinfo, c, gox, goy, gsx, gsy).0,
                )
    }
}

/// A returned tile was copied into a wide buffer at `off`, each sample
/// converted to its wide transport code; every other sample is unchanged.
pub open spec fn tile_copied<T: Sample>(
    tile: Image<T>,
    pre: WideImage,
    post: WideImage,
    off: (int, int),
) -> bool {
    &&& post.size_spec() == pre.size_spec()
    &&& off.0 + tile.size_spec().0 <= pre.size_spec().0
    &&& off.1 + tile.size_spec().1 <= pre.size_spec().1
    &&& forall|x: int, y: int|
        0 <= x < tile.size_spec().0 && 0 <= y < tile.size_spec().1
            ==> #[trigger] post.pix(off.0 + x, off.1 + y) == tile.pix(x, y).wide_spec()
    &&& forall|x: int, y: int|
        0 <= x < pre.size_spec().0 && 0 <= y < pre.size_spec().1
            && !(off.0 <= x < off.0 + tile.size_spec().0
                && off.1 <= y < off.1 + tile.size_spec().1)
            ==> #[trigger] post.pix(x, y) == pre.pix(x, y)
}

/// The trace form of [`groups_filled`]: `trace` lists the input-buffer
/// states between groups, and each consecutive pair is related by one
/// accepted group.
pub open spec fn groups_filled_trace<T1: Sample, T2: Sample, F1, F2>(
    infos: Seq<GroupFillInfo<(F1, F2)>>,
    trace: Seq<Seq<WideImage>>,
    i: int,
    chinfo: Seq<ChannelInfo>,
    input_size: (int, int),
    log: nat,
    xgroups: int,
) -> bool where
    F1: FnOnce(Vec<Image<T1>>) -> Result<Vec<Image<T1>>, Error>,
    F2: FnOnce(Vec<Image<T2>>) -> Result<Vec<Image<T2>>, Error>,
{
    forall|k: int|
        0 <= k < i ==> group_filled::<T1, T2, F1, F2>(
            infos[k],
            chinfo,
            input_size,
            log,
            xgroups,
            #[trigger] trace[k],
            trace[k + 1],
        )
}

/// The first `i` fill requests of the batch were accepted, group after
/// group in order: some trace of intermediate input-buffer states leads
/// from `pre` to `post`, each step relating consecutive states by
/// `group_filled`.
pub open spec fn groups_filled<T1: Sample, T2: Sample, F1, F2>(
    infos: Seq<GroupFillInfo<(F1, F2)>>,
    i: int,
    chinfo: Seq<ChannelInfo>,
    input_size: (int, int),
    log: nat,
    xgroups: int,
    pre: Seq<WideImage>,
    post: Seq<WideImage>,
) -> bool where
    F1: FnOnce(Vec<Image<T1>>) -> Result<Vec<Image<T1>>, Error>,
    F2: FnOnce(Vec<Image<T2>>) -> Result<Vec<Image<T2>>, Error>,
{
    exists|trace: Seq<Seq<WideImage>>|
        {
            &&& #[trigger] groups_filled_trace::<T1, T2, F1, F2>(
                infos,
                trace,
                i,
                chinfo,
                input_size,
                log,
                xgroups,
            )
            &&& trace.len() == i + 1
            &&& trace[0] == pre
            &&& trace[i] == post
        }
}


/// Two wide buffers of the same size holding the same samples.
pub open spec fn wide_pixel_equal(a: WideImage, b: WideImage) -> bool {
    &&& b.wf()
    &&& b.size_spec() == a.size_spec()
    &&& forall|x: int, y: int|
        0 <= x < a.size_spec().0 && 0 <= y < a.size_spec().1
            ==> #[trigger] b.pix(x, y) == a.pix(x, y)
}

/// Two buffer lists of the same shape holding the same samples.
pub open spec fn bufs_pixel_equal(a: Seq<WideImage>, b: Seq<WideImage>) -> bool {
    &&& b.len() == a.len()
    &&& forall|k: int| 0 <= k < a.len() ==> wide_pixel_equal(a[k], #[trigger] b[k])
}

/// One stage of a render pass: the stage saw the used channels of
/// `in_bufs` on a canvas of size `cur`, produced `out_bufs`, and the
/// canvas became `new_cur`. Channels the stage does not use are carried
/// through as pixel-equal deep copies; the used channels hold exactly what
/// the stage's executor writes for its structural kind.
pub open spec fn render_step<S: RenderPipelineStage>(
    pre: S,
    post: S,
    chrow_next: Seq<ChannelInfo>,
    in_bufs: Seq<WideImage>,
    out_bufs: Seq<WideImage>,
    cur: (int, int),
    new_cur: (int, int),
    chunk: int,
) -> bool {
    let used = crate::executors::used_list(pre, in_bufs.len() as int);
    &&& new_cur == pre.new_size_spec(cur)
    &&& 0 <= new_cur.0 <= usize::MAX
    &&& 0 <= new_cur.1 <= usize::MAX
    &&& out_bufs.len() == in_bufs.len()
    &&& crate::executors::same_stage_shape(pre, post)
    &&& post.shape_wf()
    &&& forall|p: (int, int), xs: int, inp: Seq<Seq<Seq<u64>>>|
        #[trigger] post.process_spec(p, xs, inp) == pre.process_spec(p, xs, inp)
    &&& forall|k: int|
        0 <= k < out_bufs.len() && !crate::executors::is_used(used, k)
            ==> wide_pixel_equal(in_bufs[k], #[trigger] out_bufs[k])
    &&& (used.len() == 0 ==> post == pre)
    &&& (used.len() > 0 ==> {
        let in_size = in_bufs[used[0] as int].size_spec();
        let out_size = out_bufs[used[0] as int].size_spec();
        &&& crate::executors::sizes_all(in_bufs, used, in_size)
        &&& crate::executors::sizes_all(out_bufs, used, out_size)
        &&& ((pre.shift_spec() != (0u8, 0u8) || new_cur != cur) ==> forall|j: int|
            0 <= j < used.len()
                ==> (#[trigger] out_bufs[used[j] as int]).size_spec() == (
                    shrc_spec(new_cur.0 as nat,
                        chrow_next[used[j] as int].downsample.0 as nat) as usize,
                    shrc_spec(new_cur.1 as nat,
                        chrow_next[used[j] as int].downsample.1 as nat) as usize,
                ))
        &&& match pre.kind_spec() {
            StageKind::Input => {
                &&& crate::executors::input_chain(
                    pre,
                    post,
                    in_bufs,
                    used,
                    (in_size.0 as int, in_size.1 as int),
                    chunk,
                    0,
                    0,
                )
                &&& forall|j: int|
                    0 <= j < used.len()
                        ==> wide_pixel_equal(in_bufs[used[j] as int],
                            #[trigger] out_bufs[used[j] as int])
            },
            StageKind::InPlace => {
                &&& out_size == in_size
                &&& forall|c: int, px: int, py: int|
                    0 <= c < used.len() && 0 <= px < in_size.0 && 0 <= py < in_size.1
                        ==> #[trigger] out_bufs[used[c] as int].pix(px, py)
                            == crate::executors::inplace_value_at(pre, in_bufs, used,
                                in_size.0 as int, chunk, c, px, py)
            },
            StageKind::InOut => {
                &&& out_size.0 == in_size.0 * pow2(pre.shift_spec().0 as nat)
                &&& out_size.1 == in_size.1 * pow2(pre.shift_spec().1 as nat)
                &&& in_size.0 <= 0x1000_0000_0000_0000
                &&& in_size.1 <= 0x1000_0000_0000_0000
                &&& forall|c: int, qx: int, qy: int|
                    0 <= c < used.len() && 0 <= qx < out_size.0 && 0 <= qy < out_size.1
                        ==> #[trigger] out_bufs[used[c] as int].pix(qx, qy)
                            == crate::executors::inout_value_at(pre, in_bufs, used,
                                (in_size.0 as int, in_size.1 as int), chunk,
                                pre.shift_spec(), pre.border_spec(), c, qx, qy)
            },
            StageKind::Extend => {
                let origin = pre.origin_spec();
                &&& origin.0 + in_size.0 <= out_size.0
                &&& origin.1 + in_size.1 <= out_size.1
                &&& forall|c: int, px: int, py: int|
                    0 <= c < used.len() && 0 <= px < in_size.0 && 0 <= py < in_size.1
                        ==> #[trigger] out_bufs[used[c] as int].pix(origin.0 + px,
                            origin.1 + py) == in_bufs[used[c] as int].pix(px, py)
                &&& forall|c: int, px: int, py: int|
                    0 <= c < used.len() && 0 <= px < out_size.0 && 0 <= py < out_size.1
                        && !(origin.0 <= px < origin.0 + in_size.0
                            && origin.1 <= py < origin.1 + in_size.1)
                        ==> #[trigger] out_bufs[used[c] as int].pix(px, py)
                            == crate::executors::extend_value_at(pre, used.len() as int,
                                origin, (in_size.0 as int, in_size.1 as int),
                                (out_size.0 as int, out_size.1 as int), chunk, c, px, py)
            },
        }
    })
}

/// The trace form of a whole render pass: `bufs_trace` and `sizes_trace`
/// list the inter-stage buffer lists and canvas sizes, and consecutive
/// entries are related by one stage's `render_step`.
pub open spec fn render_pass_trace<S: RenderPipelineStage>(
    stages_pre: Seq<S>,
    stages_post: Seq<S>,
    chinfo: Seq<Seq<ChannelInfo>>,
    bufs_trace: Seq<Seq<WideImage>>,
    sizes_trace: Seq<(int, int)>,
    chunk: int,
) -> bool {
    &&& stages_post.len() == stages_pre.len()
    &&& forall|k: int|
        0 <= k < stages_pre.len() ==> render_step(
            stages_pre[k],
            #[trigger] stages_post[k],
            chinfo[k + 1],
            bufs_trace[k],
            bufs_trace[k + 1],
            sizes_trace[k],
            sizes_trace[k + 1],
            chunk,
        )
}

/// A prefix of a render pass ran: the first `k` stages each took their
/// step from a deep copy of the input buffers, and the stages from `k` on
/// are untouched.
pub open spec fn render_prefix<S: RenderPipelineStage>(
    stages_pre: Seq<S>,
    stages_post: Seq<S>,
    chinfo: Seq<Seq<ChannelInfo>>,
    input_bufs: Seq<WideImage>,
    input_size: (int, int),
    bufs_trace: Seq<Seq<WideImage>>,
    sizes_trace: Seq<(int, int)>,
    chunk: int,
    k: int,
) -> bool {
    &&& 0 <= k <= stages_pre.len()
    &&& stages_post.len() == stages_pre.len()
    &&& bufs_trace.len() == k + 1
    &&& sizes_trace.len() == k + 1
    &&& bufs_pixel_equal(input_bufs, bufs_trace[0])
    &&& sizes_trace[0] == input_size
    &&& forall|j: int|
        0 <= j < k ==> render_step(
            stages_pre[j],
            #[trigger] stages_post[j],
            chinfo[j + 1],
            bufs_trace[j],
            bufs_trace[j + 1],
            sizes_trace[j],
            sizes_trace[j + 1],
            chunk,
        )
    &&& forall|j: int| k <= j < stages_pre.len() ==> #[trigger] stages_post[j] == stages_pre[j]
}

/// A whole render pass ran: starting from a deep copy of the input buffers
/// at the full canvas size, every stage in order transformed the buffers
/// per its `render_step`.
pub open spec fn render_pass<S: RenderPipelineStage>(
    stages_pre: Seq<S>,
    stages_post: Seq<S>,
    input_bufs: Seq<WideImage>,
    chinfo: Seq<Seq<ChannelInfo>>,
    input_size: (int, int),
    chunk: int,
) -> bool {
    exists|bufs_trace: Seq<Seq<WideImage>>, sizes_trace: Seq<(int, int)>|
        {
            &&& #[trigger] render_pass_trace(stages_pre, stages_post, chinfo, bufs_trace,
                sizes_trace, chunk)
            &&& bufs_trace.len() == stages_pre.len() + 1
            &&& sizes_trace.len() == stages_pre.len() + 1
            &&& bufs_pixel_equal(input_bufs, bufs_trace[0])
            &&& sizes_trace[0] == input_size
        }
}

/// Whether two sample-type tags are the same.
fn sample_type_eq(a: SampleType, b: SampleType) -> (r: bool)
    ensures
        r == (a == b),
{
    a == b
}

} // verus!

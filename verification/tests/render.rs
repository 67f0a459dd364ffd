use vstd::prelude::*;

use jxl_render::error::Error;
use jxl_render::image::Image;
use jxl_render::pipeline::{GroupFillInfo, SimpleRenderPipeline, SimpleRenderPipelineBuilder};
use jxl_render::sample::{DoubleSample, HalfSample, Sample, SampleType, SingleSample};
use jxl_render::save_stage::{IdentityStage, SaveStage};
use jxl_render::stage::{mirror, RenderPipelineStage, StageKind};

/// A deterministic pseudo-random byte source.
struct XorShift64 {
    state: u64,
}

impl XorShift64 {
    fn new(seed: u64) -> XorShift64 {
        XorShift64 { state: seed ^ 0x9E3779B97F4A7C15 }
    }

    fn next_u64(&mut self) -> u64 {
        let mut x = self.state;
        x ^= x << 13;
        x ^= x >> 7;
        x ^= x << 17;
        self.state = x;
        x
    }

    fn next_u8(&mut self) -> u8 {
        (self.next_u64() >> 32) as u8
    }
}

/// The stages the pipeline tests drive, dispatched over one enum.
enum TestStage {
    SaveU8(SaveStage<u8>),
    SaveF32(SaveStage<SingleSample>),
    Identity(IdentityStage),
    ScaleF32,
    Upsample2,
    ExtendZero { new_size: (usize, usize), origin: (usize, usize) },
}

impl RenderPipelineStage for TestStage {
    fn kind_spec(&self) -> StageKind {
        panic!()
    }

    fn input_type_spec(&self) -> SampleType {
        panic!()
    }

    fn output_type_spec(&self) -> SampleType {
        panic!()
    }

    fn shift_spec(&self) -> (u8, u8) {
        panic!()
    }

    fn border_spec(&self) -> (u8, u8) {
        panic!()
    }

    fn uses_channel_spec(&self, _c: int) -> bool {
        panic!()
    }

    fn new_size_spec(&self, _size: (int, int)) -> (int, int) {
        panic!()
    }

    fn origin_spec(&self) -> (int, int) {
        panic!()
    }

    fn process_spec(
        &self,
        _pos: (int, int),
        _xsize: int,
        _input: Seq<Seq<Seq<u64>>>,
    ) -> Seq<Seq<Seq<u64>>> {
        panic!()
    }

    fn post_state_spec(
        &self,
        _post: Self,
        _pos: (int, int),
        _xsize: int,
        _input: Seq<Seq<Seq<u64>>>,
    ) -> bool {
        panic!()
    }

    fn shape_wf(&self) -> bool {
        panic!()
    }

    fn lemma_shape_wf(&self) {}

    fn name(&self) -> String {
        "test stage".to_owned()
    }

    fn kind(&self) -> StageKind {
        match self {
            TestStage::SaveU8(s) => s.kind(),
            TestStage::SaveF32(s) => s.kind(),
            TestStage::Identity(s) => s.kind(),
            TestStage::ScaleF32 => StageKind::InPlace,
            TestStage::Upsample2 => StageKind::InOut,
            TestStage::ExtendZero { .. } => StageKind::Extend,
        }
    }

    fn input_type(&self) -> SampleType {
        match self {
            TestStage::SaveU8(s) => s.input_type(),
            TestStage::SaveF32(s) => s.input_type(),
            TestStage::Identity(s) => s.input_type(),
            TestStage::ScaleF32 => SampleType::F32,
            TestStage::Upsample2 => SampleType::U8,
            TestStage::ExtendZero { .. } => SampleType::U8,
        }
    }

    fn output_type(&self) -> SampleType {
        self.input_type()
    }

    fn shift(&self) -> (u8, u8) {
        match self {
            TestStage::Upsample2 => (1, 1),
            _ => (0, 0),
        }
    }

    fn border(&self) -> (u8, u8) {
        (0, 0)
    }

    fn uses_channel(&self, c: usize) -> bool {
        match self {
            TestStage::SaveU8(s) => s.uses_channel(c),
            TestStage::SaveF32(s) => s.uses_channel(c),
            _ => true,
        }
    }

    fn new_size(&self, size: (usize, usize)) -> Option<(usize, usize)> {
        match self {
            TestStage::ExtendZero { new_size, .. } => Some(*new_size),
            _ => Some(size),
        }
    }

    fn original_data_origin(&self) -> (usize, usize) {
        match self {
            TestStage::ExtendZero { origin, .. } => *origin,
            _ => (0, 0),
        }
    }

    fn process_row_chunk(
        &mut self,
        pos: (usize, usize),
        xsize: usize,
        input: Vec<Vec<Vec<u64>>>,
    ) -> Vec<Vec<Vec<u64>>> {
        match self {
            TestStage::SaveU8(s) => s.process_row_chunk(pos, xsize, input),
            TestStage::SaveF32(s) => s.process_row_chunk(pos, xsize, input),
            TestStage::Identity(s) => s.process_row_chunk(pos, xsize, input),
            TestStage::ScaleF32 => {
                let mut out = Vec::new();
                for rows in input.iter() {
                    let mut row = Vec::new();
                    for i in 0..xsize {
                        let v = f32::from_bits(rows[0][i] as u32);
                        row.push((v * 2.0).to_bits() as u64);
                    }
                    out.push(vec![row]);
                }
                out
            }
            TestStage::Upsample2 => {
                let mut out = Vec::new();
                for rows in input.iter() {
                    let mut row = Vec::new();
                    for i in 0..xsize {
                        row.push(rows[0][i]);
                        row.push(rows[0][i]);
                    }
                    out.push(vec![row.clone(), row]);
                }
                out
            }
            TestStage::ExtendZero { .. } => {
                let mut out = Vec::new();
                for _ in 0..input.len() {
                    out.push(vec![vec![0u64; xsize]]);
                }
                out
            }
        }
    }
}

fn pass_u16(v: Vec<Image<u16>>) -> Result<Vec<Image<u16>>, Error> {
    Ok(v)
}

fn run_u8_pipeline(
    pipeline: &mut SimpleRenderPipeline<TestStage>,
    group_id: usize,
    passes: usize,
    values: Vec<Vec<u8>>,
) -> Result<(), Error> {
    let fill = move |mut tiles: Vec<Image<u8>>| -> Result<Vec<Image<u8>>, Error> {
        let size = tiles[0].size();
        for y in 0..size.1 {
            for x in 0..size.0 {
                tiles[0].set(x, y, values[y][x]);
            }
        }
        Ok(tiles)
    };
    pipeline.fill_input_two_types::<u8, u16, _, _>(vec![GroupFillInfo {
        group_id,
        num_filled_passes: passes,
        fill_fn: (fill, pass_u16),
    }])
}

#[test]
fn save_stage() {
    let mut stage = SaveStage::<u8>::new(0, (128, 128)).unwrap();
    let mut rng = XorShift64::new(0);
    let mut src = Image::<u8>::new((128, 128)).unwrap();
    for y in 0..128 {
        for x in 0..128 {
            src.set(x, y, rng.next_u8());
        }
    }
    for y in 0..128 {
        let mut row = Vec::new();
        for x in 0..128 {
            row.push(src.get(x, y).to_wide());
        }
        stage.process_row_chunk((0, y), 128, vec![vec![row]]);
    }
    for y in 0..128 {
        for x in 0..128 {
            assert_eq!(stage.buffer().get(x, y), src.get(x, y));
        }
    }
}

#[test]
fn single_save_pipeline() {
    let mut rng = XorShift64::new(7);
    let mut values = Vec::new();
    for _ in 0..128 {
        let mut row = Vec::new();
        for _ in 0..128 {
            row.push(rng.next_u8());
        }
        values.push(row);
    }
    let builder = SimpleRenderPipelineBuilder::<TestStage>::new(1, (128, 128), 7);
    let mut pipeline = builder
        .add_stage(TestStage::SaveU8(SaveStage::new(0, (128, 128)).unwrap()))
        .unwrap()
        .build()
        .unwrap();
    assert_eq!(pipeline.num_groups(), 1);
    run_u8_pipeline(&mut pipeline, 0, 1, values.clone()).unwrap();
    let stages = pipeline.into_stages();
    match stages.into_iter().next().unwrap() {
        TestStage::SaveU8(s) => {
            let buf = s.into_buffer();
            for y in 0..128 {
                for x in 0..128 {
                    assert_eq!(buf.get(x, y), values[y][x]);
                }
            }
        }
        _ => panic!("wrong stage"),
    }
}

#[test]
fn inplace_scale_by_two() {
    let builder = SimpleRenderPipelineBuilder::<TestStage>::new(1, (4, 1), 7);
    let mut pipeline = builder
        .add_stage(TestStage::ScaleF32)
        .unwrap()
        .add_stage(TestStage::SaveF32(SaveStage::new(0, (4, 1)).unwrap()))
        .unwrap()
        .build()
        .unwrap();
    let fill = |mut tiles: Vec<Image<SingleSample>>| -> Result<Vec<Image<SingleSample>>, Error> {
        for x in 0..4 {
            let v = (x + 1) as f32;
            tiles[0].set(x, 0, SingleSample { bits: v.to_bits() });
        }
        Ok(tiles)
    };
    pipeline
        .fill_input_two_types::<SingleSample, u16, _, _>(vec![GroupFillInfo {
            group_id: 0,
            num_filled_passes: 1,
            fill_fn: (fill, pass_u16),
        }])
        .unwrap();
    let stages = pipeline.into_stages();
    match stages.into_iter().nth(1).unwrap() {
        TestStage::SaveF32(s) => {
            let buf = s.into_buffer();
            for x in 0..4 {
                let expect = 2.0 * (x + 1) as f32;
                assert_eq!(f32::from_bits(buf.get(x, 0).bits), expect);
            }
        }
        _ => panic!("wrong stage"),
    }
}

#[test]
fn inout_nearest_upsample() {
    let builder = SimpleRenderPipelineBuilder::<TestStage>::new(1, (4, 4), 7);
    let mut pipeline = builder
        .add_stage(TestStage::Upsample2)
        .unwrap()
        .add_stage(TestStage::SaveU8(SaveStage::new(0, (4, 4)).unwrap()))
        .unwrap()
        .build()
        .unwrap();
    run_u8_pipeline(&mut pipeline, 0, 1, vec![vec![1, 2], vec![3, 4]]).unwrap();
    let expected = [[1, 1, 2, 2], [1, 1, 2, 2], [3, 3, 4, 4], [3, 3, 4, 4]];
    let stages = pipeline.into_stages();
    match stages.into_iter().nth(1).unwrap() {
        TestStage::SaveU8(s) => {
            let buf = s.into_buffer();
            for y in 0..4 {
                for x in 0..4 {
                    assert_eq!(buf.get(x, y), expected[y][x]);
                }
            }
        }
        _ => panic!("wrong stage"),
    }
}

#[test]
fn extend_with_zero_fill() {
    let builder = SimpleRenderPipelineBuilder::<TestStage>::new(1, (2, 2), 7);
    let mut pipeline = builder
        .add_stage(TestStage::ExtendZero { new_size: (4, 4), origin: (1, 1) })
        .unwrap()
        .add_stage(TestStage::SaveU8(SaveStage::new(0, (4, 4)).unwrap()))
        .unwrap()
        .build()
        .unwrap();
    run_u8_pipeline(&mut pipeline, 0, 1, vec![vec![1, 1], vec![1, 1]]).unwrap();
    let stages = pipeline.into_stages();
    match stages.into_iter().nth(1).unwrap() {
        TestStage::SaveU8(s) => {
            let buf = s.into_buffer();
            for y in 0..4 {
                for x in 0..4 {
                    let inside = (1..3).contains(&x) && (1..3).contains(&y);
                    let expect = if inside { 1 } else { 0 };
                    assert_eq!(buf.get(x, y), expect);
                }
            }
        }
        _ => panic!("wrong stage"),
    }
}

#[test]
fn mirror_boundary_probe() {
    let inputs = [-1i64, -2, -3, -4, -5, 0, 1, 2, 3, 4, 5, 6, 7];
    let expected = [0i64, 1, 2, 3, 3, 0, 1, 2, 3, 3, 2, 1, 0];
    for (v, e) in inputs.iter().zip(expected.iter()) {
        assert_eq!(mirror(*v, 4), *e);
    }
}

#[test]
fn two_pass_progressive_delivery() {
    let builder = SimpleRenderPipelineBuilder::<TestStage>::new(1, (256, 128), 7);
    let mut pipeline = builder
        .add_stage(TestStage::SaveU8(SaveStage::new(0, (256, 128)).unwrap()))
        .unwrap()
        .build()
        .unwrap();
    assert_eq!(pipeline.num_groups(), 2);
    let tile = vec![vec![9u8; 128]; 128];
    run_u8_pipeline(&mut pipeline, 0, 1, tile.clone()).unwrap();
    assert_eq!(pipeline.completed_passes(), 0);
    run_u8_pipeline(&mut pipeline, 1, 1, tile.clone()).unwrap();
    assert_eq!(pipeline.completed_passes(), 1);
    run_u8_pipeline(&mut pipeline, 0, 1, tile.clone()).unwrap();
    assert_eq!(pipeline.completed_passes(), 1);
    run_u8_pipeline(&mut pipeline, 1, 1, tile).unwrap();
    assert_eq!(pipeline.completed_passes(), 2);
}

#[test]
fn identity_stage_keeps_samples() {
    let builder = SimpleRenderPipelineBuilder::<TestStage>::new(1, (3, 2), 7);
    let mut pipeline = builder
        .add_stage(TestStage::Identity(IdentityStage::new(SampleType::U8)))
        .unwrap()
        .add_stage(TestStage::SaveU8(SaveStage::new(0, (3, 2)).unwrap()))
        .unwrap()
        .build()
        .unwrap();
    let values = vec![vec![10u8, 20, 30], vec![40, 50, 60]];
    run_u8_pipeline(&mut pipeline, 0, 1, values.clone()).unwrap();
    let stages = pipeline.into_stages();
    match stages.into_iter().nth(1).unwrap() {
        TestStage::SaveU8(s) => {
            let buf = s.into_buffer();
            for y in 0..2 {
                for x in 0..3 {
                    assert_eq!(buf.get(x, y), values[y][x]);
                }
            }
        }
        _ => panic!("wrong stage"),
    }
}

#[test]
fn shift_after_extend_is_rejected() {
    let builder = SimpleRenderPipelineBuilder::<TestStage>::new(1, (4, 4), 7);
    let res = builder
        .add_stage(TestStage::ExtendZero { new_size: (6, 6), origin: (1, 1) })
        .unwrap()
        .add_stage(TestStage::Upsample2);
    assert!(matches!(res, Err(Error::PipelineShiftAfterExpand(_))));
}

#[test]
fn channel_type_mismatch_is_rejected() {
    let builder = SimpleRenderPipelineBuilder::<TestStage>::new(1, (4, 4), 7);
    let res = builder
        .add_stage(TestStage::ScaleF32)
        .unwrap()
        .add_stage(TestStage::SaveU8(SaveStage::new(0, (4, 4)).unwrap()));
    match res {
        Err(Error::PipelineChannelTypeMismatch(_, c, expected, actual)) => {
            assert_eq!(c, 0);
            assert_eq!(expected, SampleType::U8);
            assert_eq!(actual, SampleType::F32);
        }
        _ => panic!("expected a type mismatch"),
    }
}

#[test]
fn unused_channel_is_rejected() {
    let builder = SimpleRenderPipelineBuilder::<TestStage>::new(2, (4, 4), 7);
    let res = builder
        .add_stage(TestStage::SaveU8(SaveStage::new(0, (4, 4)).unwrap()))
        .unwrap()
        .build();
    match res {
        Err(Error::PipelineChannelUnused(c)) => assert_eq!(c, 1),
        _ => panic!("expected an unused channel"),
    }
}

#[test]
fn misaligned_group_is_rejected() {
    let builder = SimpleRenderPipelineBuilder::<TestStage>::new(1, (2, 1), 0);
    let mut pipeline = builder
        .add_stage(TestStage::Upsample2)
        .unwrap()
        .add_stage(TestStage::SaveU8(SaveStage::new(0, (2, 1)).unwrap()))
        .unwrap()
        .build()
        .unwrap();
    assert_eq!(pipeline.num_groups(), 2);
    let res = run_u8_pipeline(&mut pipeline, 1, 1, vec![vec![1u8]]);
    assert!(matches!(res, Err(Error::MisalignedGroup(0))));
}

#[test]
fn input_buffer_dimensions_follow_downsampling() {
    let builder = SimpleRenderPipelineBuilder::<TestStage>::new(1, (5, 3), 7);
    let pipeline = builder
        .add_stage(TestStage::Upsample2)
        .unwrap()
        .add_stage(TestStage::SaveU8(SaveStage::new(0, (5, 3)).unwrap()))
        .unwrap()
        .build()
        .unwrap();
    assert_eq!(pipeline.input_buffer_size(0), (3, 2));
}

#[test]
fn sample_round_trips_are_exact() {
    for v in 0..=255u8 {
        assert_eq!(u8::from_wide(v.to_wide()), v);
    }
    for v in [0u16, 1, 255, 256, 65535] {
        assert_eq!(u16::from_wide(v.to_wide()), v);
    }
    for v in [0u32, 1, 65536, u32::MAX] {
        assert_eq!(u32::from_wide(v.to_wide()), v);
    }
    for bits in [0u16, 0x3C00, 0x7C00, 0xFC00, 0xABCD] {
        let h = HalfSample { bits };
        assert_eq!(HalfSample::from_wide(h.to_wide()), h);
    }
    for v in [0.0f32, 1.5, -2.25, f32::INFINITY] {
        let s = SingleSample { bits: v.to_bits() };
        assert_eq!(f32::from_bits(SingleSample::from_wide(s.to_wide()).bits), v);
    }
    for v in [0.0f64, 1.5, -2.25] {
        let d = DoubleSample { bits: v.to_bits() };
        assert_eq!(f64::from_bits(DoubleSample::from_wide(d.to_wide()).bits), v);
    }
}

#[test]
fn unhandled_channel_type_is_rejected() {
    let builder = SimpleRenderPipelineBuilder::<TestStage>::new(1, (2, 1), 7);
    let mut pipeline = builder
        .add_stage(TestStage::SaveU8(SaveStage::new(0, (2, 1)).unwrap()))
        .unwrap()
        .build()
        .unwrap();
    let fill1 = |v: Vec<Image<u16>>| -> Result<Vec<Image<u16>>, Error> { Ok(v) };
    let fill2 = |v: Vec<Image<u32>>| -> Result<Vec<Image<u32>>, Error> { Ok(v) };
    let res = pipeline.fill_input_two_types::<u16, u32, _, _>(vec![GroupFillInfo {
        group_id: 0,
        num_filled_passes: 1,
        fill_fn: (fill1, fill2),
    }]);
    assert!(matches!(res, Err(Error::UnhandledChannelType(0))));
}

#[test]
fn callback_error_is_surfaced() {
    let builder = SimpleRenderPipelineBuilder::<TestStage>::new(1, (2, 1), 7);
    let mut pipeline = builder
        .add_stage(TestStage::SaveU8(SaveStage::new(0, (2, 1)).unwrap()))
        .unwrap()
        .build()
        .unwrap();
    let fill = |_: Vec<Image<u8>>| -> Result<Vec<Image<u8>>, Error> { Err(Error::OutOfBounds) };
    let res = pipeline.fill_input_two_types::<u8, u16, _, _>(vec![GroupFillInfo {
        group_id: 0,
        num_filled_passes: 1,
        fill_fn: (fill, pass_u16),
    }]);
    assert!(matches!(res, Err(Error::OutOfBounds)));
}

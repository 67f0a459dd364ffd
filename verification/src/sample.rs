//! Per-sample numeric types and their lossless transport encoding.
//!
//! Stages exchange pixel data through wide 64-bit transport codes, one code
//! per sample. Every supported sample type embeds losslessly into a code and
//! can be recovered from it exactly; the float-typed samples are carried by
//! bit pattern. A code is *canonical* for a type when it is the embedding of
//! some sample of that type; decoding clamps integer codes and truncates
//! float bit patterns, so decoding a canonical code and re-encoding it is the
//! identity.

use vstd::prelude::*;

verus! {

/// Tag for the closed set of per-sample numeric types a channel can carry.
#[derive(Clone, Copy, Debug, PartialEq, Eq, Structural)]
pub enum SampleType {
    /// Unsigned 8-bit integer samples.
    U8,
    /// Unsigned 16-bit integer samples.
    U16,
    /// Unsigned 32-bit integer samples.
    U32,
    /// Half-precision float samples, carried by bit pattern.
    F16,
    /// Single-precision float samples, carried by bit pattern.
    F32,
    /// Double-precision float samples, carried by bit pattern.
    F64,
}

/// Clamp or truncate a wide transport code into the image of type `t`.
pub open spec fn canon(t: SampleType, w: u64) -> u64 {
    match t {
        SampleType::U8 => if w > 0xFF { 0xFF } else { w },
        SampleType::U16 => if w > 0xFFFF { 0xFFFF } else { w },
        SampleType::U32 => if w > 0xFFFFFFFF { 0xFFFFFFFF } else { w },
        SampleType::F16 => w % 0x10000,
        SampleType::F32 => w % 0x100000000,
        SampleType::F64 => w,
    }
}

/// A wide code is canonical for `t` when some sample of type `t` encodes to it.
pub open spec fn is_canon(t: SampleType, w: u64) -> bool {
    canon(t, w) == w
}

/// A sample value with a lossless embedding into wide transport codes.
pub trait Sample: Copy + Sized {
    /// The tag of this sample type.
    spec fn sample_type_spec() -> SampleType;

    /// The wide transport code of this sample.
    spec fn wide_spec(self) -> u64;

    /// The sample decoded from a wide transport code.
    spec fn narrow_spec(w: u64) -> Self;

    /// The all-zero sample, used to initialise buffers.
    spec fn zero_spec() -> Self;

    /// Encoding always lands on a canonical code.
    proof fn lemma_wide_canon(s: Self)
        ensures
            is_canon(Self::sample_type_spec(), s.wide_spec()),
    ;

    /// Encoding then decoding restores the sample exactly.
    proof fn lemma_round_trip(s: Self)
        ensures
            Self::narrow_spec(s.wide_spec()) == s,
    ;

    /// Decoding then encoding is the identity on canonical codes.
    proof fn lemma_narrow_wide(w: u64)
        requires
            is_canon(Self::sample_type_spec(), w),
        ensures
            Self::narrow_spec(w).wide_spec() == w,
    ;

    fn sample_type() -> (t: SampleType)
        ensures
            t == Self::sample_type_spec(),
    ;

    fn to_wide(self) -> (w: u64)
        ensures
            w == self.wide_spec(),
    ;

    fn from_wide(w: u64) -> (s: Self)
        ensures
            s == Self::narrow_spec(w),
    ;

    fn zero() -> (s: Self)
        ensures
            s == Self::zero_spec(),
    ;
}

impl Sample for u8 {
    open spec fn sample_type_spec() -> SampleType {
        SampleType::U8
    }

    open spec fn wide_spec(self) -> u64 {
        self as u64
    }

    open spec fn narrow_spec(w: u64) -> u8 {
        if w > 0xFF { 0xFF } else { w as u8 }
    }

    open spec fn zero_spec() -> u8 {
        0u8
    }

    proof fn lemma_wide_canon(s: u8) {
    }

    proof fn lemma_round_trip(s: u8) {
    }

    proof fn lemma_narrow_wide(w: u64) {
    }

    fn sample_type() -> SampleType {
        SampleType::U8
    }

    fn to_wide(self) -> u64 {
        self as u64
    }

    fn from_wide(w: u64) -> u8 {
        if w > 0xFF { 0xFF } else { w as u8 }
    }

    fn zero() -> u8 {
        0u8
    }
}

impl Sample for u16 {
    open spec fn sample_type_spec() -> SampleType {
        SampleType::U16
    }

    open spec fn wide_spec(self) -> u64 {
        self as u64
    }

    open spec fn narrow_spec(w: u64) -> u16 {
        if w > 0xFFFF { 0xFFFF } else { w as u16 }
    }

    open spec fn zero_spec() -> u16 {
        0u16
    }

    proof fn lemma_wide_canon(s: u16) {
    }

    proof fn lemma_round_trip(s: u16) {
    }

    proof fn lemma_narrow_wide(w: u64) {
    }

    fn sample_type() -> SampleType {
        SampleType::U16
    }

    fn to_wide(self) -> u64 {
        self as u64
    }

    fn from_wide(w: u64) -> u16 {
        if w > 0xFFFF { 0xFFFF } else { w as u16 }
    }

    fn zero() -> u16 {
        0u16
    }
}

impl Sample for u32 {
    open spec fn sample_type_spec() -> SampleType {
        SampleType::U32
    }

    open spec fn wide_spec(self) -> u64 {
        self as u64
    }

    open spec fn narrow_spec(w: u64) -> u32 {
        if w > 0xFFFFFFFF { 0xFFFFFFFF } else { w as u32 }
    }

    open spec fn zero_spec() -> u32 {
        0u32
    }

    proof fn lemma_wide_canon(s: u32) {
    }

    proof fn lemma_round_trip(s: u32) {
    }

    proof fn lemma_narrow_wide(w: u64) {
    }

    fn sample_type() -> SampleType {
        SampleType::U32
    }

    fn to_wide(self) -> u64 {
        self as u64
    }

    fn from_wide(w: u64) -> u32 {
        if w > 0xFFFFFFFF { 0xFFFFFFFF } else { w as u32 }
    }

    fn zero() -> u32 {
        0u32
    }
}

/// A half-precision float sample, held as its IEEE bit pattern.
#[derive(Clone, Copy, Debug, PartialEq, Eq, Structural)]
pub struct HalfSample {
    /// The IEEE 754 binary16 bit pattern.
    pub bits: u16,
}

impl Sample for HalfSample {
    open spec fn sample_type_spec() -> SampleType {
        SampleType::F16
    }

    open spec fn wide_spec(self) -> u64 {
        self.bits as u64
    }

    open spec fn narrow_spec(w: u64) -> HalfSample {
        HalfSample { bits: (w % 0x10000) as u16 }
    }

    open spec fn zero_spec() -> HalfSample {
        HalfSample { bits: 0u16 }
    }

    proof fn lemma_wide_canon(s: HalfSample) {
    }

    proof fn lemma_round_trip(s: HalfSample) {
    }

    proof fn lemma_narrow_wide(w: u64) {
    }

    fn sample_type() -> SampleType {
        SampleType::F16
    }

    fn to_wide(self) -> u64 {
        self.bits as u64
    }

    fn from_wide(w: u64) -> HalfSample {
        HalfSample { bits: (w % 0x10000) as u16 }
    }

    fn zero() -> HalfSample {
        HalfSample { bits: 0u16 }
    }
}

/// A single-precision float sample, held as its IEEE bit pattern.
#[derive(Clone, Copy, Debug, PartialEq, Eq, Structural)]
pub struct SingleSample {
    /// The IEEE 754 binary32 bit pattern.
    pub bits: u32,
}

impl Sample for SingleSample {
    open spec fn sample_type_spec() -> SampleType {
        SampleType::F32
    }

    open spec fn wide_spec(self) -> u64 {
        self.bits as u64
    }

    open spec fn narrow_spec(w: u64) -> SingleSample {
        SingleSample { bits: (w % 0x100000000) as u32 }
    }

    open spec fn zero_spec() -> SingleSample {
        SingleSample { bits: 0u32 }
    }

    proof fn lemma_wide_canon(s: SingleSample) {
    }

    proof fn lemma_round_trip(s: SingleSample) {
    }

    proof fn lemma_narrow_wide(w: u64) {
    }

    fn sample_type() -> SampleType {
        SampleType::F32
    }

    fn to_wide(self) -> u64 {
        self.bits as u64
    }

    fn from_wide(w: u64) -> SingleSample {
        SingleSample { bits: (w % 0x100000000) as u32 }
    }

    fn zero() -> SingleSample {
        SingleSample { bits: 0u32 }
    }
}

/// A double-precision float sample, held as its IEEE bit pattern.
#[derive(Clone, Copy, Debug, PartialEq, Eq, Structural)]
pub struct DoubleSample {
    /// The IEEE 754 binary64 bit pattern.
    pub bits: u64,
}

impl Sample for DoubleSample {
    open spec fn sample_type_spec() -> SampleType {
        SampleType::F64
    }

    open spec fn wide_spec(self) -> u64 {
        self.bits
    }

    open spec fn narrow_spec(w: u64) -> DoubleSample {
        DoubleSample { bits: w }
    }

    open spec fn zero_spec() -> DoubleSample {
        DoubleSample { bits: 0u64 }
    }

    proof fn lemma_wide_canon(s: DoubleSample) {
    }

    proof fn lemma_round_trip(s: DoubleSample) {
    }

    proof fn lemma_narrow_wide(w: u64) {
    }

    fn sample_type() -> SampleType {
        SampleType::F64
    }

    fn to_wide(self) -> u64 {
        self.bits
    }

    fn from_wide(w: u64) -> DoubleSample {
        DoubleSample { bits: w }
    }

    fn zero() -> DoubleSample {
        DoubleSample { bits: 0u64 }
    }
}

} // verus!

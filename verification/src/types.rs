//! Core data types: the generation state, shape layers and RGBA frames.

use vstd::prelude::*;

verus! {

/// The current state of the generation process.
#[derive(Clone, Copy, Debug, PartialEq, Eq, Structural)]
pub enum GenerationState {
    /// Actively generating and evaluating candidates
    Running,
    /// Paused by user (Space key); canvas is displayed but no new iterations run
    Paused,
    /// Generation finished (max_shapes reached or video complete)
    Completed,
}

/// The state the pause key leads to: running and paused swap, a completed
/// run stays completed.
pub open spec fn paused_toggled(s: GenerationState) -> GenerationState {
    match s {
        GenerationState::Running => GenerationState::Paused,
        GenerationState::Paused => GenerationState::Running,
        GenerationState::Completed => GenerationState::Completed,
    }
}

impl GenerationState {
    /// The state after the user presses the pause key (Space).
    pub fn toggle_pause(&self) -> (r: GenerationState)
        ensures
            r == paused_toggled(*self),
    {
        match self {
            GenerationState::Running => GenerationState::Paused,
            GenerationState::Paused => GenerationState::Running,
            GenerationState::Completed => GenerationState::Completed,
        }
    }
}

/// Pressing pause twice returns to the state before, and a completed run
/// cannot be resumed by it.
pub proof fn lemma_pause_twice_is_identity(s: GenerationState)
    ensures
        paused_toggled(paused_toggled(s)) == s,
        paused_toggled(s) == GenerationState::Completed <==> s == GenerationState::Completed,
{
}

/// A preprocessed shape layer ready for GPU upload.
/// Contains RGBA8 pixel data at the configured shape_resolution.
#[derive(Clone, Debug)]
pub struct ShapeLayer {
    /// Raw RGBA8 pixel data: shape_resolution × shape_resolution × 4 bytes
    pub pixels: Vec<u8>,
}

/// An RGBA8 image held as plain values: `width × height` pixels, four bytes
/// each, row-major.
#[derive(Debug)]
pub struct RgbaFrame {
    pixels: Vec<u8>,
    width: u32,
    height: u32,
}

impl RgbaFrame {
    /// The pixel bytes.
    pub closed spec fn data(&self) -> Seq<u8> {
        self.pixels@
    }

    /// The width in pixels.
    pub closed spec fn w(&self) -> nat {
        self.width as nat
    }

    /// The height in pixels.
    pub closed spec fn h(&self) -> nat {
        self.height as nat
    }

    /// The byte count matches the dimensions; every frame keeps this.
    #[verifier::type_invariant]
    pub open spec fn wf(&self) -> bool {
        &&& self.data().len() == self.w() * self.h() * 4
        &&& self.w() <= u32::MAX
        &&& self.h() <= u32::MAX
    }

    /// Constructs a frame from raw RGBA8 bytes; `None` unless the buffer holds
    /// exactly `width × height` pixels.
    pub fn from_raw(width: u32, height: u32, pixels: Vec<u8>) -> (r: Option<RgbaFrame>)
        ensures
            r is Some <==> pixels@.len() == width * height * 4,
            r matches Some(f) ==> f.wf() && f.data() == pixels@ && f.w() == width && f.h()
                == height,
    {
        let len = pixels.len() as u64;
        assert((width as u128) * (height as u128) <= 0xffff_ffff * 0xffff_ffff) by (nonlinear_arith)
            requires
                width <= 0xffff_ffff,
                height <= 0xffff_ffff,
        ;
        let needed: u128 = (width as u128) * (height as u128) * 4;
        if (len as u128) == needed {
            Some(RgbaFrame { pixels, width, height })
        } else {
            None
        }
    }

    /// The width in pixels.
    pub fn width(&self) -> (r: u32)
        ensures
            r == self.w(),
    {
        self.width
    }

    /// The height in pixels.
    pub fn height(&self) -> (r: u32)
        ensures
            r == self.h(),
    {
        self.height
    }

    /// The pixel bytes.
    pub fn pixels(&self) -> (r: &Vec<u8>)
        ensures
            r@ == self.data(),
    {
        &self.pixels
    }

    /// Gives back the pixel bytes.
    pub fn into_raw(self) -> (r: Vec<u8>)
        ensures
            r@ == self.data(),
    {
        self.pixels
    }
}

/// An RGBA image with 16 bits per channel, held as plain values: `width ×
/// height` pixels, four samples each, row-major.
#[derive(Debug)]
pub struct Rgba16Frame {
    samples: Vec<u16>,
    width: u32,
    height: u32,
}

impl Rgba16Frame {
    /// The samples.
    pub closed spec fn data(&self) -> Seq<u16> {
        self.samples@
    }

    /// The width in pixels.
    pub closed spec fn w(&self) -> nat {
        self.width as nat
    }

    /// The height in pixels.
    pub closed spec fn h(&self) -> nat {
        self.height as nat
    }

    /// The sample count matches the dimensions; every frame keeps this.
    #[verifier::type_invariant]
    pub open spec fn wf(&self) -> bool {
        &&& self.data().len() == self.w() * self.h() * 4
        &&& self.w() <= u32::MAX
        &&& self.h() <= u32::MAX
    }

    /// Constructs a frame from raw RGBA16 samples; `None` unless the buffer
    /// holds exactly `width × height` pixels.
    pub fn from_raw(width: u32, height: u32, samples: Vec<u16>) -> (r: Option<Rgba16Frame>)
        ensures
            r is Some <==> samples@.len() == width * height * 4,
            r matches Some(f) ==> f.data() == samples@ && f.w() == width && f.h() == height,
    {
        let len = samples.len() as u64;
        assert((width as u128) * (height as u128) <= 0xffff_ffff * 0xffff_ffff) by (nonlinear_arith)
            requires
                width <= 0xffff_ffff,
                height <= 0xffff_ffff,
        ;
        let needed: u128 = (width as u128) * (height as u128) * 4;
        if (len as u128) == needed {
            Some(Rgba16Frame { samples, width, height })
        } else {
            None
        }
    }

    /// The width in pixels.
    pub fn width(&self) -> (r: u32)
        ensures
            r == self.w(),
    {
        self.width
    }

    /// The height in pixels.
    pub fn height(&self) -> (r: u32)
        ensures
            r == self.h(),
    {
        self.height
    }

    /// Gives back the samples.
    pub fn into_raw(self) -> (r: Vec<u16>)
        ensures
            r@ == self.data(),
    {
        self.samples
    }
}

} // verus!

//! The receiving end of the level meters: the level the audio side last
//! published, shared through an atomic cell.
use vstd::prelude::*;

use std::sync::atomic::{AtomicU32, Ordering};
use std::sync::Arc;

verus! {

/// The receiving end of one channel's level meter: the bits of the last
/// published level (an `f32`).
pub struct VUReceiver {
    rms_atomic: Arc<AtomicU32>,
}

impl VUReceiver {
    /// A meter that nothing publishes to: its level stays at the bits of
    /// zero.
    pub fn dummy() -> Self {
        Self { rms_atomic: Arc::new(AtomicU32::new(0)) }
    }

    /// A meter reading the level published to `cell`.
    pub fn from_shared(cell: Arc<AtomicU32>) -> Self {
        Self { rms_atomic: cell }
    }

    /// The bits of the last published level.
    pub fn rms_bits(&self) -> u32 {
        self.rms_atomic.load(Ordering::Relaxed)
    }
}

/// The receiving ends of a stereo level meter.
pub struct StereoVUReceiver {
    pub l: VUReceiver,
    pub r: VUReceiver,
}

impl StereoVUReceiver {
    /// Two meters that nothing publishes to.
    pub fn dummy() -> Self {
        Self { l: VUReceiver::dummy(), r: VUReceiver::dummy() }
    }

    /// The bits of the last published levels, left then right.
    pub fn rms_bits(&self) -> (u32, u32) {
        (self.l.rms_bits(), self.r.rms_bits())
    }
}

} // verus!

//! Choice of the kernels that inference runs on.
//!
//! What the processor can do is found out by the caller; the library
//! decides which kind of kernel is used, and sees to it that the choice is
//! made once.

use vstd::prelude::*;
use crate::text::same_text;

verus! {

/// A kind of kernel, or the wish to have the best one chosen.
#[derive(Clone, Copy, Debug, PartialEq, Eq, Structural)]
pub enum SimdLevel {
    Auto,
    Avx512,
    Avx2,
    Neon,
    Scalar,
}

/// An instruction set that kernels are written for.
#[derive(Clone, Copy, Debug, PartialEq, Eq, Structural)]
pub enum CpuFeature {
    Avx512,
    Avx2,
    Neon,
}

/// What the processor can do.
#[derive(Clone, Copy, Debug, PartialEq, Eq, Structural)]
pub struct CpuFeatures {
    pub has_avx512: bool,
    pub has_avx2: bool,
    pub has_neon: bool,
}

/// The kind of kernel in use on a processor.
#[derive(Clone, Copy, Debug, PartialEq, Eq, Structural)]
pub struct SimdDispatch {
    pub level: SimdLevel,
    pub cpu_features: CpuFeatures,
}

impl SimdLevel {
    /// The level that a name stands for; `Auto` for a name that stands for
    /// none.
    pub open spec fn named(name: Seq<char>) -> SimdLevel {
        if name == "avx512"@ {
            SimdLevel::Avx512
        } else if name == "avx2"@ {
            SimdLevel::Avx2
        } else if name == "neon"@ {
            SimdLevel::Neon
        } else if name == "scalar"@ {
            SimdLevel::Scalar
        } else {
            SimdLevel::Auto
        }
    }

    pub fn from_str(name: &str) -> (level: SimdLevel)
        ensures
            level == SimdLevel::named(name@),
    {
        if same_text(name, "avx512") {
            SimdLevel::Avx512
        } else if same_text(name, "avx2") {
            SimdLevel::Avx2
        } else if same_text(name, "neon") {
            SimdLevel::Neon
        } else if same_text(name, "scalar") {
            SimdLevel::Scalar
        } else {
            SimdLevel::Auto
        }
    }
}

impl CpuFeatures {
    /// Kernels of this level run on the processor. Scalar kernels run
    /// everywhere; `Auto` is no kind of kernel.
    pub open spec fn runs(self, level: SimdLevel) -> bool {
        match level {
            SimdLevel::Auto => false,
            SimdLevel::Avx512 => self.has_avx512,
            SimdLevel::Avx2 => self.has_avx2,
            SimdLevel::Neon => self.has_neon,
            SimdLevel::Scalar => true,
        }
    }

    /// The widest kernels that run on the processor.
    pub open spec fn best(self) -> SimdLevel {
        if self.has_avx512 {
            SimdLevel::Avx512
        } else if self.has_avx2 {
            SimdLevel::Avx2
        } else if self.has_neon {
            SimdLevel::Neon
        } else {
            SimdLevel::Scalar
        }
    }

    /// The level used when `requested` is asked for: the one asked for
    /// where it runs, the best that runs where it does not or where the
    /// choice is left open.
    pub open spec fn chosen(self, requested: SimdLevel) -> SimdLevel {
        if self.runs(requested) {
            requested
        } else {
            self.best()
        }
    }

    pub fn has(&self, feature: CpuFeature) -> (has: bool)
        ensures
            has == match feature {
                CpuFeature::Avx512 => self.has_avx512,
                CpuFeature::Avx2 => self.has_avx2,
                CpuFeature::Neon => self.has_neon,
            },
    {
        match feature {
            CpuFeature::Avx512 => self.has_avx512,
            CpuFeature::Avx2 => self.has_avx2,
            CpuFeature::Neon => self.has_neon,
        }
    }
}

impl SimdDispatch {
    /// The dispatch for a processor with these features when `requested`
    /// is asked for. The level chosen always runs on the processor.
    pub fn select(requested: SimdLevel, cpu_features: CpuFeatures) -> (dispatch: SimdDispatch)
        ensures
            dispatch.cpu_features == cpu_features,
            dispatch.level == cpu_features.chosen(requested),
            cpu_features.runs(dispatch.level),
    {
        let best = if cpu_features.has_avx512 {
            SimdLevel::Avx512
        } else if cpu_features.has_avx2 {
            SimdLevel::Avx2
        } else if cpu_features.has_neon {
            SimdLevel::Neon
        } else {
            SimdLevel::Scalar
        };
        let level = match requested {
            SimdLevel::Auto => best,
            SimdLevel::Avx512 => if cpu_features.has_avx512 {
                requested
            } else {
                best
            },
            SimdLevel::Avx2 => if cpu_features.has_avx2 {
                requested
            } else {
                best
            },
            SimdLevel::Neon => if cpu_features.has_neon {
                requested
            } else {
                best
            },
            SimdLevel::Scalar => requested,
        };
        SimdDispatch { level, cpu_features }
    }
}

/// Installs the dispatch for `level` on a processor with these features
/// unless `slot` holds one already, and returns the installed one. A slot
/// is set once: later calls leave it as it is.
pub fn init_simd(slot: &mut Option<SimdDispatch>, level: SimdLevel, cpu_features: CpuFeatures) -> (dispatch:
    SimdDispatch)
    ensures
        *final(slot) == Some(dispatch),
        match *old(slot) {
            Some(installed) => dispatch == installed,
            None => dispatch.cpu_features == cpu_features && dispatch.level == cpu_features.chosen(
                level,
            ),
        },
{
    match slot {
        Some(installed) => *installed,
        None => {
            let dispatch = SimdDispatch::select(level, cpu_features);
            *slot = Some(dispatch);
            dispatch
        },
    }
}

/// The dispatch installed in `slot`; an empty slot is first filled with
/// the best that runs on the processor.
pub fn get_simd(slot: &mut Option<SimdDispatch>, cpu_features: CpuFeatures) -> (dispatch:
    SimdDispatch)
    ensures
        *final(slot) == Some(dispatch),
        match *old(slot) {
            Some(installed) => dispatch == installed,
            None => dispatch.cpu_features == cpu_features && dispatch.level == cpu_features.best(),
        },
{
    init_simd(slot, SimdLevel::Auto, cpu_features)
}

} // verus!

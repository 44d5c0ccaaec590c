use vstd::prelude::*;

use crate::pll::{find_pll_config_extended, limits, search_result, PLLConfigExtended, PllLimits};

verus! {

/// Input crystal oscillator frequency (kHz).
pub const XOSC_KHZ: u32 = 12_000;

/// Smallest reference frequency after the reference divider (kHz).
pub const REF_MIN_KHZ: u32 = 5_000;

/// Lowest VCO frequency (kHz).
pub const VCO_MIN_KHZ: u32 = 750_000;

/// Highest VCO frequency (kHz).
pub const VCO_MAX_KHZ: u32 = 1_600_000;

/// Tie-break direction: prefer the higher VCO frequency.
pub const LOW_VCO: bool = false;

/// No reference divider is locked.
pub const LOCKED_REFDIV: Option<u8> = None;

/// The settings a PLL driver takes: VCO frequency in whole MHz and the three
/// dividers it programs.
#[derive(Debug, Clone, Copy, PartialEq, Eq, Structural)]
pub struct PllSettings {
    /// VCO frequency (in MHz, rounded down).
    pub vco_freq_mhz: u32,
    /// Reference divider.
    pub refdiv: u8,
    /// Post divider 1.
    pub post_div1: u8,
    /// Post divider 2.
    pub post_div2: u8,
}

/// The limits of the default hardware.
pub open spec fn default_limits() -> PllLimits {
    limits(XOSC_KHZ, VCO_MIN_KHZ, VCO_MAX_KHZ, REF_MIN_KHZ, LOCKED_REFDIV)
}

/// The driver settings of a search result.
pub open spec fn settings_of(res: Option<PLLConfigExtended>) -> Option<PllSettings> {
    match res {
        None => None,
        Some(cfg) => Some(
            PllSettings {
                vco_freq_mhz: (cfg.vco_freq.0 / 1_000_000) as u32,
                refdiv: cfg.refdiv,
                post_div1: cfg.post_div1,
                post_div2: cfg.post_div2,
            },
        ),
    }
}

/// Driver settings for an output of `freq_khz` kHz on the default hardware
/// (12 MHz crystal, reference at least 5 MHz, VCO within 750..=1600 MHz, no
/// locked reference divider, higher VCO preferred on ties), or `None` where
/// no divider tuple divides exactly within those limits.
pub fn default_pll_config(freq_khz: u64) -> (res: Option<PllSettings>)
    ensures
        exists|r: Option<PLLConfigExtended>|
            #[trigger] search_result(default_limits(), freq_khz as int, LOW_VCO, r) && res == settings_of(r),
        forall|r: Option<PLLConfigExtended>|
            #[trigger] search_result(default_limits(), freq_khz as int, LOW_VCO, r) ==> res == settings_of(r),
{
    let found = find_pll_config_extended(
        XOSC_KHZ,
        freq_khz,
        VCO_MIN_KHZ,
        VCO_MAX_KHZ,
        REF_MIN_KHZ,
        LOCKED_REFDIV,
        LOW_VCO,
    );
    proof {
        assert forall|r: Option<PLLConfigExtended>|
            #[trigger] search_result(default_limits(), freq_khz as int, LOW_VCO, r) implies found == r by {
            crate::pll::lemma_search_deterministic(default_limits(), freq_khz as int, LOW_VCO, found, r);
        }
    }
    match found {
        None => None,
        Some(cfg) => Some(
            PllSettings {
                vco_freq_mhz: cfg.vco_freq.0 / 1_000_000,
                refdiv: cfg.refdiv,
                post_div1: cfg.post_div1,
                post_div2: cfg.post_div2,
            },
        ),
    }
}

} // verus!

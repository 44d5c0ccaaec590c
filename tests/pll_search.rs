use pico_pll_config::defaults::{
    default_pll_config, PllSettings, LOCKED_REFDIV, LOW_VCO, REF_MIN_KHZ, VCO_MAX_KHZ, VCO_MIN_KHZ,
    XOSC_KHZ,
};
use pico_pll_config::pll::{find_pll_config_extended, HertzU32, PLLConfigExtended};

struct TestCase {
    requested_mhz: f64,
    achieved_mhz: f64,
    expected_refdiv: u8,
    expected_fbdiv: u16,
    expected_pd1: u8,
    expected_pd2: u8,
    expected_vco: f64,
}

fn search_default(requested_khz: u64) -> Option<PLLConfigExtended> {
    find_pll_config_extended(
        XOSC_KHZ,
        requested_khz,
        VCO_MIN_KHZ,
        VCO_MAX_KHZ,
        REF_MIN_KHZ,
        LOCKED_REFDIV,
        LOW_VCO,
    )
}

#[test]
fn test_pll_config_extended() {
    let test_cases = [
        TestCase { requested_mhz: 480.0, achieved_mhz: 480.0, expected_refdiv: 1, expected_fbdiv: 120, expected_pd1: 3, expected_pd2: 1, expected_vco: 1440.0 },
        TestCase { requested_mhz: 250.0, achieved_mhz: 250.0, expected_refdiv: 1, expected_fbdiv: 125, expected_pd1: 6, expected_pd2: 1, expected_vco: 1500.0 },
        TestCase { requested_mhz: 176.0, achieved_mhz: 176.0, expected_refdiv: 1, expected_fbdiv: 132, expected_pd1: 3, expected_pd2: 3, expected_vco: 1584.0 },
        TestCase { requested_mhz: 130.0, achieved_mhz: 130.0, expected_refdiv: 1, expected_fbdiv: 130, expected_pd1: 6, expected_pd2: 2, expected_vco: 1560.0 },
        TestCase { requested_mhz: 32.0, achieved_mhz: 32.0, expected_refdiv: 1, expected_fbdiv: 112, expected_pd1: 7, expected_pd2: 6, expected_vco: 1344.0 },
        TestCase { requested_mhz: 20.0, achieved_mhz: 20.0, expected_refdiv: 1, expected_fbdiv: 70, expected_pd1: 7, expected_pd2: 6, expected_vco: 840.0 },
        TestCase { requested_mhz: 125.0, achieved_mhz: 125.0, expected_refdiv: 1, expected_fbdiv: 125, expected_pd1: 6, expected_pd2: 2, expected_vco: 1500.0 },
        TestCase { requested_mhz: 48.0, achieved_mhz: 48.0, expected_refdiv: 1, expected_fbdiv: 120, expected_pd1: 6, expected_pd2: 5, expected_vco: 1440.0 },
    ];

    let xosc_mhz = XOSC_KHZ as f64 / 1000.0;
    for tc in &test_cases {
        let requested_khz = (tc.requested_mhz * 1000.0).round() as u64;
        let config = search_default(requested_khz).unwrap_or_else(|| {
            panic!("No PLL config found for requested {} MHz", tc.requested_mhz)
        });

        let achieved = (tc.expected_vco) / (config.post_div1 as f64 * config.post_div2 as f64);
        assert!(
            (achieved - tc.achieved_mhz).abs() < 1e-6,
            "Achieved frequency mismatch for {} MHz requested: got {} MHz, expected {} MHz",
            tc.requested_mhz,
            achieved,
            tc.achieved_mhz
        );
        assert_eq!(config.refdiv, tc.expected_refdiv, "REFDIV mismatch for {} MHz requested", tc.requested_mhz);
        assert_eq!(config.fbdiv, tc.expected_fbdiv, "FBDIV mismatch for {} MHz requested", tc.requested_mhz);
        assert_eq!(config.post_div1, tc.expected_pd1, "PD1 mismatch for {} MHz requested", tc.requested_mhz);
        assert_eq!(config.post_div2, tc.expected_pd2, "PD2 mismatch for {} MHz requested", tc.requested_mhz);

        let computed_vco = xosc_mhz / (config.refdiv as f64) * (config.fbdiv as f64);
        assert!(
            (computed_vco - tc.expected_vco).abs() < 1e-6,
            "VCO mismatch for {} MHz requested: got {} MHz, expected {} MHz",
            tc.requested_mhz,
            computed_vco,
            tc.expected_vco
        );
    }
}

#[test]
fn full_result_for_480_mhz() {
    assert_eq!(
        search_default(480_000),
        Some(PLLConfigExtended {
            vco_freq: HertzU32(1_440_000_000),
            refdiv: 1,
            fbdiv: 120,
            post_div1: 3,
            post_div2: 1,
            sys_clk_khz: 480_000,
        })
    );
}

#[test]
fn full_result_for_176_mhz() {
    let cfg = search_default(176_000).unwrap();
    assert_eq!(cfg.vco_freq, HertzU32(1_584_000_000));
    assert_eq!(cfg.sys_clk_khz, 176_000);
    assert_eq!((cfg.refdiv, cfg.fbdiv, cfg.post_div1, cfg.post_div2), (1, 132, 3, 3));
}

#[test]
fn low_vco_tie_break_picks_lowest_vco() {
    let cfg = find_pll_config_extended(12_000, 480_000, 750_000, 1_600_000, 5_000, None, true).unwrap();
    assert_eq!(cfg.vco_freq, HertzU32(960_000_000));
    assert_eq!((cfg.refdiv, cfg.fbdiv, cfg.post_div1, cfg.post_div2), (1, 80, 2, 1));
    assert_eq!(cfg.sys_clk_khz, 480_000);
}

#[test]
fn inexact_request_takes_nearest_output() {
    let cfg = search_default(100_001).unwrap();
    assert_eq!(cfg.sys_clk_khz, 100_000);
    assert_eq!(cfg.vco_freq, HertzU32(1_500_000_000));
    assert_eq!((cfg.refdiv, cfg.fbdiv, cfg.post_div1, cfg.post_div2), (1, 125, 5, 3));
}

#[test]
fn locked_refdiv_is_used() {
    let cfg = find_pll_config_extended(12_000, 480_000, 750_000, 1_600_000, 5_000, Some(2), false).unwrap();
    assert_eq!((cfg.refdiv, cfg.fbdiv, cfg.post_div1, cfg.post_div2), (2, 240, 3, 1));
    assert_eq!(cfg.vco_freq, HertzU32(1_440_000_000));
}

#[test]
fn locked_zero_refdiv_finds_nothing() {
    assert_eq!(find_pll_config_extended(12_000, 480_000, 750_000, 1_600_000, 5_000, Some(0), false), None);
}

#[test]
fn vco_range_out_of_reach_finds_nothing() {
    assert_eq!(find_pll_config_extended(12_000, 480_000, 1, 2, 5_000, None, false), None);
}

#[test]
fn no_exact_division_finds_nothing() {
    // With REFDIV locked at 7 only FBDIV 16 lands in range, and 12000 * 16 / 7
    // kHz is not a whole number.
    assert_eq!(find_pll_config_extended(12_000, 27_000, 27_000, 28_000, 5_000, Some(7), false), None);
    // FBDIV 21 gives exactly 36000 kHz.
    let cfg = find_pll_config_extended(12_000, 36_000, 35_000, 37_000, 5_000, Some(7), false).unwrap();
    assert_eq!((cfg.refdiv, cfg.fbdiv, cfg.post_div1, cfg.post_div2), (7, 21, 1, 1));
    assert_eq!(cfg.sys_clk_khz, 36_000);
}

#[test]
fn results_are_repeatable() {
    for khz in [20_000u64, 48_000, 100_001, 133_000, 250_000] {
        assert_eq!(search_default(khz), search_default(khz));
    }
}

#[test]
fn default_settings_for_480_mhz() {
    assert_eq!(
        default_pll_config(480_000),
        Some(PllSettings { vco_freq_mhz: 1440, refdiv: 1, post_div1: 3, post_div2: 1 })
    );
}

#[test]
fn default_settings_for_20_mhz() {
    assert_eq!(
        default_pll_config(20_000),
        Some(PllSettings { vco_freq_mhz: 840, refdiv: 1, post_div1: 7, post_div2: 6 })
    );
}

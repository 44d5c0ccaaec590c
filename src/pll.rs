use vstd::prelude::*;

verus! {

/// A frequency in hertz, kept distinct from other integers.
#[derive(Debug, Clone, Copy, PartialEq, Eq, Structural)]
pub struct HertzU32(pub u32);

/// Extended PLL configuration: the dividers chosen and the frequencies they give.
#[derive(Debug, Clone, Copy, PartialEq, Eq, Structural)]
pub struct PLLConfigExtended {
    /// Voltage controlled oscillator frequency (in Hz).
    pub vco_freq: HertzU32,
    /// Reference divider.
    pub refdiv: u8,
    /// Feedback divider.
    pub fbdiv: u16,
    /// Post divider 1.
    pub post_div1: u8,
    /// Post divider 2.
    pub post_div2: u8,
    /// Achieved output frequency (in kHz).
    pub sys_clk_khz: u32,
}

/// Smallest feedback divider.
pub const FBDIV_MIN: u16 = 16;

/// Largest feedback divider.
pub const FBDIV_MAX: u16 = 320;

/// Largest value of either post divider (the smallest is 1).
pub const POSTDIV_MAX: u8 = 7;

/// Largest reference divider of an unlocked search.
pub const REFDIV_MAX: u8 = 63;

/// Largest VCO frequency, in kHz, whose value in Hz still fits a `u32`.
pub const VCO_KHZ_LIMIT: u32 = 4_294_967;

/// The hardware limits that a search runs under. All frequencies in kHz.
#[derive(Debug, Clone, Copy, PartialEq, Eq, Structural)]
pub struct PllLimits {
    /// Input oscillator frequency.
    pub input_khz: u32,
    /// Lowest allowed VCO frequency.
    pub vco_min_khz: u32,
    /// Highest allowed VCO frequency.
    pub vco_max_khz: u32,
    /// Lowest allowed reference frequency after the reference divider.
    pub ref_min_khz: u32,
    /// The one reference divider to use, if any.
    pub locked_refdiv: Option<u8>,
}

/// The limits made of a search's arguments.
pub open spec fn limits(
    input_khz: u32,
    vco_min_khz: u32,
    vco_max_khz: u32,
    ref_min_khz: u32,
    locked_refdiv: Option<u8>,
) -> PllLimits {
    PllLimits { input_khz, vco_min_khz, vco_max_khz, ref_min_khz, locked_refdiv }
}

/// Upper end of the reference divider range: `input / ref_min`, rounded down,
/// at most `REFDIV_MAX` and at least 1.
pub open spec fn refdiv_bound(lim: PllLimits) -> int {
    let q = lim.input_khz as int / lim.ref_min_khz as int;
    if q > REFDIV_MAX as int {
        REFDIV_MAX as int
    } else if q < 1 {
        1
    } else {
        q
    }
}

/// The reference dividers searched: the locked one alone, or `1..=refdiv_bound`.
pub open spec fn refdiv_allowed(lim: PllLimits, refdiv: int) -> bool {
    match lim.locked_refdiv {
        Some(l) => refdiv == l as int,
        None => 1 <= refdiv <= refdiv_bound(lim),
    }
}

/// `input * fbdiv / refdiv` lies within `[vco_min, vco_max]` (exactly, as a rational).
pub open spec fn vco_in_range(lim: PllLimits, refdiv: int, fbdiv: int) -> bool {
    &&& lim.vco_min_khz as int * refdiv <= lim.input_khz as int * fbdiv
    &&& lim.input_khz as int * fbdiv <= lim.vco_max_khz as int * refdiv
}

/// The VCO frequency in kHz, `input * fbdiv / refdiv`, is a whole multiple of
/// `post_div1 * post_div2`.
pub open spec fn divides_exactly(
    lim: PllLimits,
    refdiv: int,
    fbdiv: int,
    post_div1: int,
    post_div2: int,
) -> bool {
    (lim.input_khz as int * fbdiv) % (refdiv * post_div1 * post_div2) == 0
}

/// A divider tuple that the search may return.
pub open spec fn is_candidate(
    lim: PllLimits,
    refdiv: int,
    fbdiv: int,
    post_div1: int,
    post_div2: int,
) -> bool {
    &&& refdiv_allowed(lim, refdiv)
    &&& 1 <= refdiv
    &&& FBDIV_MIN as int <= fbdiv <= FBDIV_MAX as int
    &&& 1 <= post_div1 <= POSTDIV_MAX as int
    &&& 1 <= post_div2 <= POSTDIV_MAX as int
    &&& vco_in_range(lim, refdiv, fbdiv)
    &&& divides_exactly(lim, refdiv, fbdiv, post_div1, post_div2)
}

/// VCO frequency in kHz.
pub open spec fn vco_khz(lim: PllLimits, refdiv: int, fbdiv: int) -> int {
    (lim.input_khz as int * fbdiv) / refdiv
}

/// Output frequency in kHz.
pub open spec fn out_khz(
    lim: PllLimits,
    refdiv: int,
    fbdiv: int,
    post_div1: int,
    post_div2: int,
) -> int {
    (lim.input_khz as int * fbdiv) / (refdiv * post_div1 * post_div2)
}

/// Distance of the output frequency from the requested one, in kHz.
pub open spec fn margin_khz(
    lim: PllLimits,
    requested_khz: int,
    refdiv: int,
    fbdiv: int,
    post_div1: int,
    post_div2: int,
) -> int {
    let out = out_khz(lim, refdiv, fbdiv, post_div1, post_div2);
    if out >= requested_khz {
        out - requested_khz
    } else {
        requested_khz - out
    }
}

/// `vco_a` is strictly preferred to `vco_b` on a tie of margins.
pub open spec fn vco_preferred(low_vco: bool, vco_a: int, vco_b: int) -> bool {
    if low_vco {
        vco_a < vco_b
    } else {
        vco_a > vco_b
    }
}

/// Tuple `a` is a strictly better fit than tuple `b`: a smaller margin, or the
/// same margin with a preferred VCO frequency.
pub open spec fn ranks_above(
    lim: PllLimits,
    requested_khz: int,
    low_vco: bool,
    a_refdiv: int,
    a_fbdiv: int,
    a_post_div1: int,
    a_post_div2: int,
    b_refdiv: int,
    b_fbdiv: int,
    b_post_div1: int,
    b_post_div2: int,
) -> bool {
    let ma = margin_khz(lim, requested_khz, a_refdiv, a_fbdiv, a_post_div1, a_post_div2);
    let mb = margin_khz(lim, requested_khz, b_refdiv, b_fbdiv, b_post_div1, b_post_div2);
    ||| ma < mb
    ||| ma == mb && vco_preferred(low_vco, vco_khz(lim, a_refdiv, a_fbdiv), vco_khz(lim, b_refdiv, b_fbdiv))
}

/// Search order: reference divider, then feedback divider, then post divider 2,
/// then post divider 1. True when `a` comes strictly before `b`.
pub open spec fn visited_before(
    a_refdiv: int,
    a_fbdiv: int,
    a_post_div2: int,
    a_post_div1: int,
    b_refdiv: int,
    b_fbdiv: int,
    b_post_div2: int,
    b_post_div1: int,
) -> bool {
    ||| a_refdiv < b_refdiv
    ||| a_refdiv == b_refdiv && a_fbdiv < b_fbdiv
    ||| a_refdiv == b_refdiv && a_fbdiv == b_fbdiv && a_post_div2 < b_post_div2
    ||| a_refdiv == b_refdiv && a_fbdiv == b_fbdiv && a_post_div2 == b_post_div2 && a_post_div1 < b_post_div1
}

/// The tuple the search picks: a candidate that no candidate ranks above, and
/// that comes first in search order among those that rank the same.
pub open spec fn is_best(
    lim: PllLimits,
    requested_khz: int,
    low_vco: bool,
    refdiv: int,
    fbdiv: int,
    post_div1: int,
    post_div2: int,
) -> bool {
    &&& is_candidate(lim, refdiv, fbdiv, post_div1, post_div2)
    &&& forall|r: int, f: int, p1: int, p2: int|
        #[trigger] is_candidate(lim, r, f, p1, p2) ==> {
            &&& !ranks_above(lim, requested_khz, low_vco, r, f, p1, p2, refdiv, fbdiv, post_div1, post_div2)
            &&& (!ranks_above(lim, requested_khz, low_vco, refdiv, fbdiv, post_div1, post_div2, r, f, p1, p2)
                ==> !visited_before(r, f, p2, p1, refdiv, fbdiv, post_div2, post_div1))
        }
}

/// What a search under `lim` for `requested_khz` returns: nothing exactly when
/// there is no candidate, else the best tuple with its VCO frequency in Hz and
/// its output frequency in kHz.
pub open spec fn search_result(
    lim: PllLimits,
    requested_khz: int,
    low_vco: bool,
    res: Option<PLLConfigExtended>,
) -> bool {
    match res {
        None => forall|r: int, f: int, p1: int, p2: int| !#[trigger] is_candidate(lim, r, f, p1, p2),
        Some(cfg) => {
            &&& is_best(lim, requested_khz, low_vco, cfg.refdiv as int, cfg.fbdiv as int, cfg.post_div1 as int, cfg.post_div2 as int)
            &&& cfg.vco_freq.0 as int == vco_khz(lim, cfg.refdiv as int, cfg.fbdiv as int) * 1000
            &&& cfg.sys_clk_khz as int == out_khz(lim, cfg.refdiv as int, cfg.fbdiv as int, cfg.post_div1 as int, cfg.post_div2 as int)
        },
    }
}

/// The best tuple among the candidates visited before position
/// `(refdiv, fbdiv, post_div2, post_div1)`, with its margin, VCO and output
/// frequencies, or none when no candidate comes before it.
#[verifier::opaque]
spec fn best_before(
    lim: PllLimits,
    requested_khz: int,
    low_vco: bool,
    best: Option<(u8, u16, u8, u8)>,
    best_margin: u64,
    best_vco: u64,
    best_out: u64,
    refdiv: int,
    fbdiv: int,
    post_div2: int,
    post_div1: int,
) -> bool {
    match best {
        None => forall|r: int, f: int, p1: int, p2: int|
            #[trigger] is_candidate(lim, r, f, p1, p2) ==> !visited_before(r, f, p2, p1, refdiv, fbdiv, post_div2, post_div1),
        Some(b) => {
            &&& is_candidate(lim, b.0 as int, b.1 as int, b.2 as int, b.3 as int)
            &&& visited_before(b.0 as int, b.1 as int, b.3 as int, b.2 as int, refdiv, fbdiv, post_div2, post_div1)
            &&& best_margin as int == margin_khz(lim, requested_khz, b.0 as int, b.1 as int, b.2 as int, b.3 as int)
            &&& best_vco as int == vco_khz(lim, b.0 as int, b.1 as int)
            &&& best_out as int == out_khz(lim, b.0 as int, b.1 as int, b.2 as int, b.3 as int)
            &&& best_out <= best_vco <= lim.vco_max_khz
            &&& forall|r: int, f: int, p1: int, p2: int|
                #[trigger] is_candidate(lim, r, f, p1, p2) && visited_before(r, f, p2, p1, refdiv, fbdiv, post_div2, post_div1) ==> {
                    &&& !ranks_above(lim, requested_khz, low_vco, r, f, p1, p2, b.0 as int, b.1 as int, b.2 as int, b.3 as int)
                    &&& (!ranks_above(lim, requested_khz, low_vco, b.0 as int, b.1 as int, b.2 as int, b.3 as int, r, f, p1, p2)
                        ==> !visited_before(r, f, p2, p1, b.0 as int, b.1 as int, b.3 as int, b.2 as int))
                }
        },
    }
}

/// Moving the search position over no candidate keeps the best tuple.
proof fn lemma_best_moves(
    lim: PllLimits,
    req: int,
    low_vco: bool,
    best: Option<(u8, u16, u8, u8)>,
    bm: u64,
    bv: u64,
    bo: u64,
    r1: int,
    f1: int,
    q1: int,
    p1: int,
    r2: int,
    f2: int,
    q2: int,
    p2: int,
)
    requires
        best_before(lim, req, low_vco, best, bm, bv, bo, r1, f1, q1, p1),
        forall|r: int, f: int, a: int, b: int|
            #[trigger] is_candidate(lim, r, f, a, b) ==> (visited_before(r, f, b, a, r1, f1, q1, p1)
                <==> visited_before(r, f, b, a, r2, f2, q2, p2)),
    ensures
        best_before(lim, req, low_vco, best, bm, bv, bo, r2, f2, q2, p2),
{
    reveal(best_before);
}

/// Weighing candidate `(refdiv, fbdiv, pd1, pd2)`, which stands at the current
/// position, against the best tuple so far: `better` is the search's rule.
proof fn lemma_best_weighs(
    lim: PllLimits,
    req: int,
    low_vco: bool,
    best: Option<(u8, u16, u8, u8)>,
    bm: u64,
    bv: u64,
    bo: u64,
    refdiv: u8,
    fbdiv: u16,
    pd1: u8,
    pd2: u8,
    margin: u64,
    vco: u64,
    out: u64,
    better: bool,
)
    requires
        best_before(lim, req, low_vco, best, bm, bv, bo, refdiv as int, fbdiv as int, pd2 as int, pd1 as int),
        is_candidate(lim, refdiv as int, fbdiv as int, pd1 as int, pd2 as int),
        margin as int == margin_khz(lim, req, refdiv as int, fbdiv as int, pd1 as int, pd2 as int),
        vco as int == vco_khz(lim, refdiv as int, fbdiv as int),
        out as int == out_khz(lim, refdiv as int, fbdiv as int, pd1 as int, pd2 as int),
        out <= vco <= lim.vco_max_khz,
        better == match best {
            None => true,
            Some(_) => margin < bm || (margin == bm && vco_preferred(low_vco, vco as int, bv as int)),
        },
    ensures
        better ==> best_before(lim, req, low_vco, Some((refdiv, fbdiv, pd1, pd2)), margin, vco, out,
            refdiv as int, fbdiv as int, pd2 as int, pd1 as int + 1),
        !better ==> best_before(lim, req, low_vco, best, bm, bv, bo,
            refdiv as int, fbdiv as int, pd2 as int, pd1 as int + 1),
{
    reveal(best_before);
}

/// Once every allowed reference divider lies before the position, the best
/// tuple so far is the best of all.
proof fn lemma_best_final(
    lim: PllLimits,
    req: int,
    low_vco: bool,
    best: Option<(u8, u16, u8, u8)>,
    bm: u64,
    bv: u64,
    bo: u64,
    refdiv: int,
)
    requires
        best_before(lim, req, low_vco, best, bm, bv, bo, refdiv, 0, 0, 0),
        forall|r: int| refdiv_allowed(lim, r) ==> r < refdiv,
    ensures
        match best {
            None => forall|r: int, f: int, p1: int, p2: int| !#[trigger] is_candidate(lim, r, f, p1, p2),
            Some(b) => {
                &&& is_best(lim, req, low_vco, b.0 as int, b.1 as int, b.2 as int, b.3 as int)
                &&& bv as int == vco_khz(lim, b.0 as int, b.1 as int)
                &&& bo as int == out_khz(lim, b.0 as int, b.1 as int, b.2 as int, b.3 as int)
                &&& bo <= bv <= lim.vco_max_khz
            },
        },
{
    reveal(best_before);
}

/// Finds the divider tuple whose output frequency is nearest `requested_khz`.
/// All frequencies are in kHz but the returned VCO frequency (in Hz).
///
/// Every reference divider allowed under the limits is paired with every
/// feedback divider in `FBDIV_MIN..=FBDIV_MAX`; pairs whose VCO frequency
/// leaves `[vco_min_khz, vco_max_khz]` are skipped, and for the others every
/// pair of post dividers in `1..=POSTDIV_MAX` that divides the VCO frequency
/// exactly is weighed. A smaller margin wins; on equal margins the lower VCO
/// wins when `low_vco` holds, the higher one otherwise; on a full tie the
/// tuple met first stays.
pub fn find_pll_config_extended(
    input_khz: u32,
    requested_khz: u64,
    vco_min_khz: u32,
    vco_max_khz: u32,
    ref_min_khz: u32,
    locked_refdiv: Option<u8>,
    low_vco: bool,
) -> (res: Option<PLLConfigExtended>)
    requires
        ref_min_khz > 0,
        vco_max_khz <= VCO_KHZ_LIMIT,
    ensures
        search_result(
            limits(input_khz, vco_min_khz, vco_max_khz, ref_min_khz, locked_refdiv),
            requested_khz as int,
            low_vco,
            res,
        ),
{
    let ghost lim = limits(input_khz, vco_min_khz, vco_max_khz, ref_min_khz, locked_refdiv);
    let ghost req = requested_khz as int;
    let q: u32 = input_khz / ref_min_khz;
    let max_refdiv: u16 = if q > REFDIV_MAX as u32 {
        REFDIV_MAX as u16
    } else if q < 1 {
        1
    } else {
        q as u16
    };
    let first: u16;
    let last: u16;
    match locked_refdiv {
        Some(l) => {
            first = l as u16;
            last = l as u16;
        },
        None => {
            first = 1;
            last = max_refdiv;
        },
    }
    assert(max_refdiv as int == refdiv_bound(lim));

    let mut best: Option<(u8, u16, u8, u8)> = None;
    let mut best_margin: u64 = requested_khz;
    let mut best_vco: u64 = 0;
    let mut best_out: u64 = 0;
    let mut refdiv: u16 = first;
    proof {
        reveal(best_before);
    }
    while refdiv <= last
        invariant
            lim == limits(input_khz, vco_min_khz, vco_max_khz, ref_min_khz, locked_refdiv),
            req == requested_khz as int,
            vco_max_khz <= VCO_KHZ_LIMIT,
            forall|r: int| refdiv_allowed(lim, r) <==> first <= r <= last,
            first <= refdiv <= last + 1 || refdiv == first,
            last <= 255,
            best_before(lim, req, low_vco, best, best_margin, best_vco, best_out, refdiv as int, 0, 0, 0),
        decreases last + 1 - refdiv,
    {
        if refdiv >= 1 {
            let mut fbdiv: u16 = FBDIV_MIN;
            proof {
                lemma_best_moves(lim, req, low_vco, best, best_margin, best_vco, best_out,
                    refdiv as int, 0, 0, 0, refdiv as int, fbdiv as int, 0, 0);
            }
            while fbdiv <= FBDIV_MAX
                invariant
                    lim == limits(input_khz, vco_min_khz, vco_max_khz, ref_min_khz, locked_refdiv),
                    req == requested_khz as int,
                    vco_max_khz <= VCO_KHZ_LIMIT,
                    1 <= refdiv <= last <= 255,
                    refdiv_allowed(lim, refdiv as int),
                    FBDIV_MIN <= fbdiv <= FBDIV_MAX + 1,
                    best_before(lim, req, low_vco, best, best_margin, best_vco, best_out, refdiv as int, fbdiv as int, 0, 0),
                decreases FBDIV_MAX + 1 - fbdiv,
            {
                assert(input_khz as u64 * fbdiv as u64 <= 0x1_0000_0000u64 * 321) by (nonlinear_arith)
                    requires fbdiv <= 321;
                assert(vco_max_khz as u64 * refdiv as u64 <= 0x1_0000_0000u64 * 256) by (nonlinear_arith)
                    requires refdiv <= 256;
                assert(vco_min_khz as u64 * refdiv as u64 <= 0x1_0000_0000u64 * 256) by (nonlinear_arith)
                    requires refdiv <= 256;
                let n: u64 = input_khz as u64 * fbdiv as u64;
                if n >= vco_min_khz as u64 * refdiv as u64 && n <= vco_max_khz as u64 * refdiv as u64 {
                    let vco: u64 = n / refdiv as u64;
                    assert(vco <= vco_max_khz) by (nonlinear_arith)
                        requires vco == n / (refdiv as u64), n <= vco_max_khz * refdiv, refdiv >= 1;
                    let mut pd2: u8 = 1;
                    proof {
                        lemma_best_moves(lim, req, low_vco, best, best_margin, best_vco, best_out,
                            refdiv as int, fbdiv as int, 0, 0, refdiv as int, fbdiv as int, pd2 as int, 0);
                    }
                    while pd2 <= POSTDIV_MAX
                        invariant
                            lim == limits(input_khz, vco_min_khz, vco_max_khz, ref_min_khz, locked_refdiv),
                            req == requested_khz as int,
                            1 <= refdiv <= last <= 255,
                            refdiv_allowed(lim, refdiv as int),
                    refdiv_allowed(lim, refdiv as int),
                            FBDIV_MIN <= fbdiv <= FBDIV_MAX,
                            1 <= pd2 <= POSTDIV_MAX + 1,
                            n == input_khz * fbdiv,
                            vco == n / (refdiv as u64),
                            vco <= vco_max_khz,
                            vco_in_range(lim, refdiv as int, fbdiv as int),
                            best_before(lim, req, low_vco, best, best_margin, best_vco, best_out, refdiv as int, fbdiv as int, pd2 as int, 0),
                        decreases POSTDIV_MAX + 1 - pd2,
                    {
                        let mut pd1: u8 = 1;
                        proof {
                            lemma_best_moves(lim, req, low_vco, best, best_margin, best_vco, best_out,
                                refdiv as int, fbdiv as int, pd2 as int, 0, refdiv as int, fbdiv as int, pd2 as int, pd1 as int);
                        }
                        while pd1 <= POSTDIV_MAX
                            invariant
                                lim == limits(input_khz, vco_min_khz, vco_max_khz, ref_min_khz, locked_refdiv),
                                req == requested_khz as int,
                                1 <= refdiv <= last <= 255,
                                refdiv_allowed(lim, refdiv as int),
                            refdiv_allowed(lim, refdiv as int),
                    refdiv_allowed(lim, refdiv as int),
                                FBDIV_MIN <= fbdiv <= FBDIV_MAX,
                                1 <= pd2 <= POSTDIV_MAX,
                                1 <= pd1 <= POSTDIV_MAX + 1,
                                n == input_khz * fbdiv,
                                vco == n / (refdiv as u64),
                                vco <= vco_max_khz,
                                vco_in_range(lim, refdiv as int, fbdiv as int),
                                best_before(lim, req, low_vco, best, best_margin, best_vco, best_out, refdiv as int, fbdiv as int, pd2 as int, pd1 as int),
                            decreases POSTDIV_MAX + 1 - pd1,
                        {
                            assert(refdiv as u64 * pd1 as u64 <= 256 * 8) by (nonlinear_arith)
                                requires refdiv <= 256, pd1 <= 8;
                            assert(refdiv as u64 * pd1 as u64 * pd2 as u64 <= 256 * 8 * 8) by (nonlinear_arith)
                                requires refdiv as u64 * pd1 as u64 <= 256 * 8, pd2 <= 8;
                            assert(refdiv as u64 * pd1 as u64 * pd2 as u64 >= refdiv) by (nonlinear_arith)
                                requires refdiv >= 1, pd1 >= 1, pd2 >= 1;
                            let divider: u64 = refdiv as u64 * pd1 as u64 * pd2 as u64;
                            if n % divider == 0 {
                                let out: u64 = n / divider;
                                proof {
                                    vstd::arithmetic::div_mod::lemma_div_is_ordered_by_denominator(
                                        n as int,
                                        refdiv as int,
                                        divider as int,
                                    );
                                }
                                let margin: u64 = if out >= requested_khz {
                                    out - requested_khz
                                } else {
                                    requested_khz - out
                                };
                                let better: bool = match best {
                                    None => true,
                                    Some(_) => margin < best_margin || (margin == best_margin && (if low_vco {
                                        vco < best_vco
                                    } else {
                                        vco > best_vco
                                    })),
                                };
                                proof {
                                    lemma_best_weighs(lim, req, low_vco, best, best_margin, best_vco, best_out,
                                        refdiv as u8, fbdiv, pd1, pd2, margin, vco, out, better);
                                }
                                if better {
                                    best = Some((refdiv as u8, fbdiv, pd1, pd2));
                                    best_margin = margin;
                                    best_vco = vco;
                                    best_out = out;
                                }
                            } else {
                                proof {
                                    lemma_best_moves(lim, req, low_vco, best, best_margin, best_vco, best_out,
                                        refdiv as int, fbdiv as int, pd2 as int, pd1 as int,
                                        refdiv as int, fbdiv as int, pd2 as int, pd1 as int + 1);
                                }
                            }
                            pd1 = pd1 + 1;
                        }
                        proof {
                            lemma_best_moves(lim, req, low_vco, best, best_margin, best_vco, best_out,
                                refdiv as int, fbdiv as int, pd2 as int, pd1 as int,
                                refdiv as int, fbdiv as int, pd2 as int + 1, 0);
                        }
                        pd2 = pd2 + 1;
                    }
                    proof {
                        lemma_best_moves(lim, req, low_vco, best, best_margin, best_vco, best_out,
                            refdiv as int, fbdiv as int, pd2 as int, 0,
                            refdiv as int, fbdiv as int + 1, 0, 0);
                    }
                } else {
                    proof {
                        lemma_best_moves(lim, req, low_vco, best, best_margin, best_vco, best_out,
                            refdiv as int, fbdiv as int, 0, 0,
                            refdiv as int, fbdiv as int + 1, 0, 0);
                    }
                }
                fbdiv = fbdiv + 1;
            }
            proof {
                lemma_best_moves(lim, req, low_vco, best, best_margin, best_vco, best_out,
                    refdiv as int, fbdiv as int, 0, 0, refdiv as int + 1, 0, 0, 0);
            }
        } else {
            proof {
                lemma_best_moves(lim, req, low_vco, best, best_margin, best_vco, best_out,
                    refdiv as int, 0, 0, 0, refdiv as int + 1, 0, 0, 0);
            }
        }
        refdiv = refdiv + 1;
    }
    proof {
        lemma_best_final(lim, req, low_vco, best, best_margin, best_vco, best_out, refdiv as int);
    }
    match best {
        None => None,
        Some(b) => Some(
            PLLConfigExtended {
                vco_freq: HertzU32((best_vco * 1000) as u32),
                refdiv: b.0,
                fbdiv: b.1,
                post_div1: b.2,
                post_div2: b.3,
                sys_clk_khz: best_out as u32,
            },
        ),
    }
}

/// When `r * d` divides `n`, dividing `n` by `r` leaves a multiple of `d`.
proof fn lemma_exact_division(n: int, r: int, d1: int, d2: int)
    requires
        n >= 0,
        r >= 1,
        d1 >= 1,
        d2 >= 1,
        n % (r * d1 * d2) == 0,
    ensures
        n == r * (n / r),
        n / r == (n / (r * d1 * d2)) * (d1 * d2),
        (n / r) % (d1 * d2) == 0,
{
    let k = n / (r * d1 * d2);
    assert(d1 * d2 > 0 && r * d1 * d2 > 0) by (nonlinear_arith)
        requires r >= 1, d1 >= 1, d2 >= 1;
    vstd::arithmetic::div_mod::lemma_fundamental_div_mod(n, r * d1 * d2);
    assert(n == r * (k * (d1 * d2))) by (nonlinear_arith)
        requires n == (r * d1 * d2) * k + n % (r * d1 * d2), n % (r * d1 * d2) == 0;
    vstd::arithmetic::div_mod::lemma_div_multiples_vanish(k * (d1 * d2), r);
    vstd::arithmetic::div_mod::lemma_mod_multiples_basic(k, d1 * d2);
}

/// A returned configuration is exact: its VCO frequency is a whole number of
/// kHz that `post_div1 * post_div2` divides, the quotient being the output
/// frequency, and it lies within the VCO limits.
pub proof fn lemma_result_exact(lim: PllLimits, requested_khz: int, low_vco: bool, cfg: PLLConfigExtended)
    requires
        search_result(lim, requested_khz, low_vco, Some(cfg)),
    ensures
        cfg.vco_freq.0 as int % 1000 == 0,
        (cfg.vco_freq.0 as int / 1000) % (cfg.post_div1 as int * cfg.post_div2 as int) == 0,
        cfg.sys_clk_khz as int * (cfg.post_div1 as int * cfg.post_div2 as int) == cfg.vco_freq.0 as int / 1000,
        lim.vco_min_khz as int * 1000 <= cfg.vco_freq.0 as int <= lim.vco_max_khz as int * 1000,
{
    let r = cfg.refdiv as int;
    let n = lim.input_khz as int * cfg.fbdiv as int;
    assert(n >= 0) by (nonlinear_arith)
        requires n == lim.input_khz as int * cfg.fbdiv as int;
    lemma_exact_division(n, r, cfg.post_div1 as int, cfg.post_div2 as int);
    let v = n / r;
    assert(lim.vco_min_khz as int <= v <= lim.vco_max_khz as int) by (nonlinear_arith)
        requires
            r >= 1,
            n == r * v,
            lim.vco_min_khz as int * r <= n,
            n <= lim.vco_max_khz as int * r;
}

/// No candidate has a smaller margin than the returned configuration.
pub proof fn lemma_margin_minimal(lim: PllLimits, requested_khz: int, low_vco: bool, cfg: PLLConfigExtended)
    requires
        search_result(lim, requested_khz, low_vco, Some(cfg)),
    ensures
        forall|r: int, f: int, p1: int, p2: int|
            #[trigger] is_candidate(lim, r, f, p1, p2) ==> margin_khz(lim, requested_khz, cfg.refdiv as int,
                cfg.fbdiv as int, cfg.post_div1 as int, cfg.post_div2 as int)
                <= margin_khz(lim, requested_khz, r, f, p1, p2),
{
}

/// Among the candidates with the returned configuration's margin, its VCO
/// frequency is the lowest when `low_vco` holds and the highest otherwise.
pub proof fn lemma_tie_break(lim: PllLimits, requested_khz: int, low_vco: bool, cfg: PLLConfigExtended)
    requires
        search_result(lim, requested_khz, low_vco, Some(cfg)),
    ensures
        forall|r: int, f: int, p1: int, p2: int|
            #[trigger] is_candidate(lim, r, f, p1, p2) && margin_khz(lim, requested_khz, r, f, p1, p2)
                == margin_khz(lim, requested_khz, cfg.refdiv as int, cfg.fbdiv as int, cfg.post_div1 as int,
                cfg.post_div2 as int) ==> if low_vco {
                vco_khz(lim, cfg.refdiv as int, cfg.fbdiv as int) <= vco_khz(lim, r, f)
            } else {
                vco_khz(lim, cfg.refdiv as int, cfg.fbdiv as int) >= vco_khz(lim, r, f)
            },
{
}

/// The same inputs always give the same result.
pub proof fn lemma_search_deterministic(
    lim: PllLimits,
    requested_khz: int,
    low_vco: bool,
    a: Option<PLLConfigExtended>,
    b: Option<PLLConfigExtended>,
)
    requires
        search_result(lim, requested_khz, low_vco, a),
        search_result(lim, requested_khz, low_vco, b),
    ensures
        a == b,
{
    match (a, b) {
        (Some(x), Some(y)) => {
            assert(is_candidate(lim, y.refdiv as int, y.fbdiv as int, y.post_div1 as int, y.post_div2 as int));
            assert(is_candidate(lim, x.refdiv as int, x.fbdiv as int, x.post_div1 as int, x.post_div2 as int));
            assert(x.vco_freq == y.vco_freq);
        },
        (Some(x), None) => {
            assert(is_candidate(lim, x.refdiv as int, x.fbdiv as int, x.post_div1 as int, x.post_div2 as int));
        },
        (None, Some(y)) => {
            assert(is_candidate(lim, y.refdiv as int, y.fbdiv as int, y.post_div1 as int, y.post_div2 as int));
        },
        (None, None) => {},
    }
}

/// Nothing is returned when every searched (REFDIV, FBDIV) pair puts the VCO
/// out of range, or when no post divider pair divides any in-range VCO
/// frequency exactly.
pub proof fn lemma_absent(lim: PllLimits, requested_khz: int, low_vco: bool, res: Option<PLLConfigExtended>)
    requires
        search_result(lim, requested_khz, low_vco, res),
        (forall|r: int, f: int|
            refdiv_allowed(lim, r) && 1 <= r && FBDIV_MIN <= f <= FBDIV_MAX ==> !#[trigger] vco_in_range(lim, r, f))
        || (forall|r: int, f: int, p1: int, p2: int|
            refdiv_allowed(lim, r) && 1 <= r && FBDIV_MIN <= f <= FBDIV_MAX && 1 <= p1 <= POSTDIV_MAX && 1 <= p2
                <= POSTDIV_MAX && vco_in_range(lim, r, f) ==> !#[trigger] divides_exactly(lim, r, f, p1, p2)),
    ensures
        res is None,
{
    if let Some(cfg) = res {
        assert(is_candidate(lim, cfg.refdiv as int, cfg.fbdiv as int, cfg.post_div1 as int, cfg.post_div2 as int));
    }
}

} // verus!

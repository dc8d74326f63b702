//! Layout of the spectrum and waterfall display.

use vstd::prelude::*;

use crate::arithmetic::Arithmetic;
use crate::colour::{is_position, position};
use crate::number::{append_decimal, decimal, distance_from_zero, sign_of, signed};

verus! {

/// What the display shows and how large it is.
#[derive(Debug)]
pub struct WaterfallRenderer {
    /// Width of the canvas (pixels).
    pub width: u32,
    /// Height of the canvas (pixels).
    pub height: u32,
    /// Height of the spectrum at the top (pixels).
    pub spectrum_height: u32,
    /// Size of the off-screen canvas (pixels).
    pub off_w: u32,
    pub off_h: u32,
    /// Centre frequency (Hz).
    pub center_freq: u32,
    /// Sample rate, which is the width of the spectrum (Hz).
    pub sample_rate: u32,
    /// Width of the passband of the current mode (Hz).
    pub passband_hz: u32,
    /// Short name of the current mode.
    pub mode_label: String,
}

/// How many bytes a picture has, four for each pixel.
pub open spec fn picture_bytes(width: u32, height: u32) -> int {
    width * height * 4
}

impl WaterfallRenderer {
    /// The spectrum takes the top quarter of the canvas.
    pub open spec fn valid(self) -> bool {
        self.spectrum_height == self.height / 4
    }

    /// A display on a canvas of the given size, for wideband FM at 100 MHz.
    pub fn new(width: u32, height: u32) -> (res: WaterfallRenderer)
        ensures
            res.valid(),
            res.width == width,
            res.height == height,
            res.spectrum_height == height / 4,
            res.off_w == 0,
            res.off_h == 0,
            res.center_freq == 100_000_000,
            res.sample_rate == 2_400_000,
            res.passband_hz == 240_000,
            res.mode_label@ == "WFM"@,
    {
        WaterfallRenderer {
            width,
            height,
            spectrum_height: height / 4,
            off_w: 0,
            off_h: 0,
            center_freq: 100_000_000,
            sample_rate: 2_400_000,
            passband_hz: 240_000,
            mode_label: "WFM".to_owned(),
        }
    }

    /// Whether the off-screen canvas has to be resized for a picture; it counts
    /// as resized from then on.
    pub fn ensure_offscreen(&mut self, w: u32, h: u32) -> (res: bool)
        ensures
            res == (old(self).off_w != w || old(self).off_h != h),
            *final(self) == (WaterfallRenderer { off_w: w, off_h: h, ..*old(self) }),
    {
        if self.off_w != w || self.off_h != h {
            self.off_w = w;
            self.off_h = h;
            true
        } else {
            false
        }
    }

    /// Whether `len` bytes are a picture of the given size that can be drawn.
    pub fn can_draw(&self, len: usize, wf_width: u32, wf_height: u32) -> (res: bool)
        requires
            len > 0 && wf_width > 0 && wf_height > 0 ==> picture_bytes(wf_width, wf_height)
                <= u32::MAX,
        ensures
            res == Self::draws_waterfall(len as int, wf_width, wf_height),
    {
        if len > 0 && wf_width > 0 && wf_height > 0 {
            assert(wf_width * wf_height <= wf_width * wf_height * 4) by (nonlinear_arith)
                requires
                    wf_width > 0,
                    wf_height > 0,
            ;
            let expected: u32 = wf_width * wf_height * 4;
            len == expected as usize
        } else {
            false
        }
    }

    /// Takes a new size of the canvas; the spectrum keeps its quarter.
    pub fn resize(&mut self, width: u32, height: u32)
        ensures
            final(self).valid(),
            *final(self) == (WaterfallRenderer {
                width,
                height,
                spectrum_height: height / 4,
                ..*old(self)
            }),
    {
        self.width = width;
        self.height = height;
        self.spectrum_height = height / 4;
    }

    /// Takes the frequencies that the labels show.
    pub fn set_frequency_info(&mut self, center_freq: u32, sample_rate: u32)
        ensures
            *final(self) == (WaterfallRenderer { center_freq, sample_rate, ..*old(self) }),
    {
        self.center_freq = center_freq;
        self.sample_rate = sample_rate;
    }

    /// Takes the passband and the name of the current mode.
    pub fn set_mode_bandwidth(&mut self, passband_hz: u32, mode_label: &str)
        ensures
            final(self).mode_label@ == mode_label@,
            *final(self) == (WaterfallRenderer {
                passband_hz,
                mode_label: final(self).mode_label,
                ..*old(self)
            }),
    {
        self.passband_hz = passband_hz;
        self.mode_label = mode_label.to_owned();
    }

    /// The frequency at the left edge of the spectrum, in tenths of a hertz.
    pub open spec fn left_tenths(self) -> int {
        10 * self.center_freq - 5 * self.sample_rate
    }

    /// The frequency at the right edge of the spectrum, in tenths of a hertz.
    pub open spec fn right_tenths(self) -> int {
        10 * self.center_freq + 5 * self.sample_rate
    }

    /// The frequencies of the grid lines, in ascending order and in tenths of a
    /// hertz. A spectrum without width has none.
    pub fn grid_frequencies(&self) -> (res: Vec<i64>)
        ensures
            is_grid(
                res@,
                freq_step_tenths(self.sample_rate),
                self.left_tenths(),
                self.right_tenths(),
            ),
    {
        let mut res: Vec<i64> = Vec::new();
        if self.sample_rate == 0 {
            return res;
        }
        let step: i64 = nice_freq_step(self.sample_rate) as i64;
        let left: i64 = 10 * (self.center_freq as i64) - 5 * (self.sample_rate as i64);
        let right: i64 = 10 * (self.center_freq as i64) + 5 * (self.sample_rate as i64);
        proof {
            lemma_freq_step(self.sample_rate);
        }
        // The first multiple of the step at or above the left edge.
        let quotient: i64 = div_up(left, step);
        assert(-0x20_0000_0000 <= quotient * step <= 0x20_0000_0000) by (nonlinear_arith)
            requires
                (quotient - 1) * step < left <= quotient * step,
                -0x6_0000_0000 <= left <= 0xB_0000_0000,
                1 <= step <= 0xA_0000_0000,
        ;
        let mut f: i64 = quotient * step;
        assert(f - step < left <= f && f as int % (step as int) == 0) by {
            assert(f - step == (quotient - 1) * step) by (nonlinear_arith)
                requires
                    f == quotient * step,
            ;
            vstd::arithmetic::div_mod::lemma_mod_multiples_basic(quotient as int, step as int);
        }
        let ghost first = f as int;
        assert(res@.len() * step == 0) by (nonlinear_arith)
            requires
                res@.len() == 0,
        ;
        while f <= right
            invariant
                1 <= step <= 0xA_0000_0000,
                -0x6_0000_0000 <= left <= right <= 0x10_0000_0000,
                first - step < left <= first,
                first % (step as int) == 0,
                f == first + res@.len() * step,
                left <= f <= right + step,
                forall|i: int| #![trigger res@[i]]
                    0 <= i < res@.len() ==> res@[i] == first + i * step && res@[i] <= right,
            decreases right + step - f,
        {
            res.push(f);
            f = f + step;
            assert((res@.len() - 1) * step + step == res@.len() * step) by (nonlinear_arith);
        }
        proof {
            lemma_is_grid(res@, first, step as int, left as int, right as int);
        }
        res
    }
}

/// The quotient of `a` and `b`, rounded up.
fn div_up(a: i64, b: i64) -> (res: i64)
    requires
        0 < b <= 0xA_0000_0000,
        -0x6_0000_0000 <= a <= 0x10_0000_0000,
    ensures
        (res - 1) * b < a <= res * b,
{
    let res: i64 = if a >= 0 {
        (a + b - 1) / b
    } else {
        -((-a) / b)
    };
    proof {
        if a >= 0 {
            let n = a + b - 1;
            vstd::arithmetic::div_mod::lemma_fundamental_div_mod(n, b as int);
            assert((res - 1) * b < a && a <= res * b) by (nonlinear_arith)
                requires
                    n == b * res + n % (b as int),
                    0 <= n % (b as int) < b,
                    n == a + b - 1,
            ;
        } else {
            let n = -a;
            let q = n / (b as int);
            vstd::arithmetic::div_mod::lemma_fundamental_div_mod(n, b as int);
            assert((res - 1) * b < a && a <= res * b) by (nonlinear_arith)
                requires
                    n == b * q + n % (b as int),
                    0 <= n % (b as int) < b,
                    n == -a,
                    res == -q,
            ;
        }
    }
    res
}

/// Whether a grid line belongs at `f`: a multiple of `step` between `left` and
/// `right`. A step of zero gives no lines.
pub open spec fn is_grid_line(f: int, step: int, left: int, right: int) -> bool {
    step > 0 && f % step == 0 && left <= f <= right
}

/// Whether `lines` holds the place of every grid line, in ascending order, and
/// nothing else.
pub open spec fn is_grid(lines: Seq<i64>, step: int, left: int, right: int) -> bool {
    &&& forall|i: int| #![trigger lines[i]]
        0 <= i < lines.len() ==> is_grid_line(lines[i] as int, step, left, right)
    &&& forall|i: int, j: int| 0 <= i < j < lines.len() ==> lines[i] < lines[j]
    &&& forall|f: int| #[trigger]
        is_grid_line(f, step, left, right) ==> exists|i: int|
            0 <= i < lines.len() && #[trigger] lines[i] == f
}

// ── Grid step ──────────────────────────────────────────────────────────────

/// The largest power of ten that is at most an eighth of `width`.
pub open spec fn magnitude(width: nat) -> nat
    decreases width,
{
    if width < 80 {
        1
    } else {
        10 * magnitude(width / 10)
    }
}

/// About an eighth of `width`, rounded to one, two, five or ten times a power of
/// ten.
pub open spec fn rounded_eighth(width: nat) -> int {
    let m = magnitude(width) as int;
    if width == 0 {
        0
    } else if width < 12 * m {
        m
    } else if width < 28 * m {
        2 * m
    } else if width < 60 * m {
        5 * m
    } else {
        10 * m
    }
}

/// The distance between grid lines for a bandwidth in hertz, in tenths of a
/// hertz.
pub open spec fn freq_step_tenths(bandwidth: u32) -> int {
    rounded_eighth((10 * bandwidth) as nat)
}

/// Chooses the distance between grid lines for a bandwidth in hertz, in tenths of
/// a hertz: about an eighth of the bandwidth.
pub fn nice_freq_step(bandwidth: u32) -> (res: u64)
    ensures
        res == freq_step_tenths(bandwidth),
{
    if bandwidth == 0 {
        return 0;
    }
    let width: u64 = 10 * (bandwidth as u64);
    let mut rest: u64 = width;
    let mut m: u64 = 1;
    while rest >= 80
        invariant
            rest >= 8,
            m >= 1,
            width <= 0xA_0000_0000,
            m * rest <= width,
            m * magnitude(rest as nat) == magnitude(width as nat),
        decreases rest,
    {
        assert(10 * m * (rest / 10) <= m * rest) by (nonlinear_arith)
            requires
                10 * (rest / 10) <= rest,
                m >= 1,
        ;
        assert(10 * m <= width) by (nonlinear_arith)
            requires
                m * rest <= width,
                rest >= 80,
        ;
        assert((10 * m) * magnitude((rest / 10) as nat) == m * (10 * magnitude((rest / 10) as nat)))
            by (nonlinear_arith);
        rest = rest / 10;
        m = 10 * m;
    }
    assert(m * 1 == m);
    proof {
        lemma_freq_step(bandwidth);
    }
    if width < 12 * m {
        m
    } else if width < 28 * m {
        2 * m
    } else if width < 60 * m {
        5 * m
    } else {
        10 * m
    }
}

proof fn lemma_magnitude(width: nat)
    requires
        width >= 8,
    ensures
        8 * magnitude(width) <= width < 80 * magnitude(width),
    decreases width,
{
    if width >= 80 {
        lemma_magnitude(width / 10);
    }
}

proof fn lemma_freq_step(bandwidth: u32)
    requires
        bandwidth > 0,
    ensures
        8 * magnitude((10 * bandwidth) as nat) <= 10 * bandwidth < 80 * magnitude(
            (10 * bandwidth) as nat,
        ),
        1 <= freq_step_tenths(bandwidth) <= 10 * bandwidth,
{
    lemma_magnitude((10 * bandwidth) as nat);
}

/// Whether `n` is a power of ten.
pub open spec fn is_power_of_ten(n: nat) -> bool
    decreases n,
{
    n == 1 || (n >= 10 && n % 10 == 0 && is_power_of_ten(n / 10))
}

proof fn lemma_magnitude_is_power(width: nat)
    ensures
        is_power_of_ten(magnitude(width)),
        magnitude(width) >= 1,
    decreases width,
{
    if width >= 80 {
        lemma_magnitude_is_power(width / 10);
        let m = magnitude(width / 10);
        assert((10 * m) / 10 == m && (10 * m) % 10 == 0);
    }
}

/// The step is one, two, five or ten times a power of ten, and a bandwidth holds
/// more than five and less than fourteen steps.
pub proof fn grid_is_neither_sparse_nor_dense(bandwidth: u32)
    requires
        bandwidth > 0,
    ensures
        ({
            let step = freq_step_tenths(bandwidth);
            let m = magnitude((10 * bandwidth) as nat);
            &&& is_power_of_ten(m)
            &&& step == m || step == 2 * m || step == 5 * m || step == 10 * m
            &&& 5 * step < 10 * bandwidth < 14 * step
        }),
{
    lemma_magnitude((10 * bandwidth) as nat);
    lemma_magnitude_is_power((10 * bandwidth) as nat);
}

proof fn lemma_is_grid(lines: Seq<i64>, first: int, step: int, left: int, right: int)
    requires
        step >= 1,
        first % step == 0,
        first - step < left <= first,
        forall|i: int| #![trigger lines[i]]
            0 <= i < lines.len() ==> lines[i] == first + i * step && lines[i] <= right,
        first + lines.len() * step > right,
    ensures
        is_grid(lines, step, left, right),
{
    assert forall|i: int| #![trigger lines[i]] 0 <= i < lines.len() implies is_grid_line(
        lines[i] as int,
        step,
        left,
        right,
    ) by {
        assert(i * step >= 0) by (nonlinear_arith)
            requires
                i >= 0,
                step >= 1,
        ;
        vstd::arithmetic::div_mod::lemma_mod_multiples_vanish(i, first, step);
        assert(step * i == i * step) by (nonlinear_arith);
    }
    assert forall|i: int, j: int| 0 <= i < j < lines.len() implies lines[i] < lines[j] by {
        assert(i * step < j * step) by (nonlinear_arith)
            requires
                i < j,
                step >= 1,
        ;
    }
    assert forall|f: int| #[trigger] is_grid_line(f, step, left, right) implies exists|i: int|
        0 <= i < lines.len() && #[trigger] lines[i] == f by {
        let a = f / step;
        let b = first / step;
        vstd::arithmetic::div_mod::lemma_fundamental_div_mod(f, step);
        vstd::arithmetic::div_mod::lemma_fundamental_div_mod(first, step);
        let i = a - b;
        assert(f == first + i * step) by (nonlinear_arith)
            requires
                f == step * a,
                first == step * b,
                i == a - b,
        ;
        assert(i >= 0) by (nonlinear_arith)
            requires
                f == first + i * step,
                f > first - step,
                step >= 1,
        ;
        assert(i < lines.len()) by (nonlinear_arith)
            requires
                f == first + i * step,
                f < first + lines.len() * step,
                step >= 1,
        ;
        assert(lines[i] == f);
    }
}

/// The step is the one nearest to an eighth of the bandwidth among one, two, five
/// and ten times the powers of ten; of two at the same distance it is the larger.
pub proof fn grid_step_is_nearest_to_an_eighth(bandwidth: u32, power: nat, factor: int)
    requires
        bandwidth > 0,
        is_power_of_ten(power),
        factor == 1 || factor == 2 || factor == 5,
    ensures
        ({
            let width = 10 * bandwidth as int;
            let missed = width - 8 * freq_step_tenths(bandwidth);
            let other = width - 8 * (factor * power);
            let near = distance_from_zero(missed);
            let far = distance_from_zero(other);
            near < far || (near == far && freq_step_tenths(bandwidth) >= factor * power)
        }),
{
    let m = magnitude((10 * bandwidth) as nat);
    lemma_magnitude((10 * bandwidth) as nat);
    lemma_magnitude_is_power((10 * bandwidth) as nat);
    if power < m {
        lemma_powers_apart(power, m);
    } else if m < power {
        lemma_powers_apart(m, power);
    }
}

/// Of two powers of ten the larger is at least ten times the other.
proof fn lemma_powers_apart(a: nat, b: nat)
    requires
        is_power_of_ten(a),
        is_power_of_ten(b),
        a < b,
    ensures
        10 * a <= b,
    decreases a,
{
    if a > 1 {
        lemma_powers_apart(a / 10, b / 10);
    }
}

/// The grid lines lie within half of the sample rate from the centre frequency,
/// at equal distances; one more line on either side would lie outside. The
/// distance is one, two, five or ten times a power of ten.
pub proof fn grid_lines_are_evenly_spread(display: WaterfallRenderer, lines: Seq<i64>)
    requires
        display.sample_rate > 0,
        is_grid(
            lines,
            freq_step_tenths(display.sample_rate),
            display.left_tenths(),
            display.right_tenths(),
        ),
    ensures
        lines.len() > 0,
        forall|i: int| #![trigger lines[i]]
            0 <= i < lines.len() ==> -5 * display.sample_rate <= lines[i] - 10 * display.center_freq
                <= 5 * display.sample_rate,
        ({
            let step = freq_step_tenths(display.sample_rate);
            &&& forall|i: int, j: int| #![trigger lines[i], lines[j]]
                0 <= i < lines.len() && j == i + 1 && j < lines.len() ==> lines[j] - lines[i]
                    == step
            &&& lines[0] - step < 10 * display.center_freq - 5 * display.sample_rate
            &&& lines.last() + step > 10 * display.center_freq + 5 * display.sample_rate
            &&& lines[0] as int % step == 0
            &&& exists|m: nat| #[trigger]
                is_power_of_ten(m) && (step == m || step == 2 * m || step == 5 * m || step == 10
                    * m)
            &&& 5 * step < 10 * display.sample_rate < 14 * step
        }),
{
    let step = freq_step_tenths(display.sample_rate);
    let (left, right) = (display.left_tenths(), display.right_tenths());
    grid_is_neither_sparse_nor_dense(display.sample_rate);
    assert(step > 0);
    // The first multiple of the step at or above the left edge.
    let first = left + (step - 1 - (left - 1) % step);
    assert(left <= first < left + step);
    assert(first % step == 0) by {
        vstd::arithmetic::div_mod::lemma_fundamental_div_mod(left - 1, step);
        let q = (left - 1) / step;
        assert(first == (q + 1) * step) by (nonlinear_arith)
            requires
                left - 1 == step * q + (left - 1) % step,
                first == left + (step - 1 - (left - 1) % step),
        ;
        vstd::arithmetic::div_mod::lemma_mod_multiples_basic(q + 1, step);
    }
    assert(is_grid_line(first, step, left, right));
    let k = choose|k: int| 0 <= k < lines.len() && #[trigger] lines[k] == first;
    assert(is_grid_line(lines[0] as int, step, left, right));
    if lines[0] - step >= left {
        lemma_next_multiple(lines[0] as int, -1, step);
        assert(is_grid_line(lines[0] - step, step, left, right));
        let k = choose|k: int| 0 <= k < lines.len() && #[trigger] lines[k] == lines[0] - step;
        assert(k > 0 ==> lines[0] < lines[k]);
    }
    let last = lines[lines.len() - 1] as int;
    assert(is_grid_line(last, step, left, right));
    if last + step <= right {
        lemma_next_multiple(last, 1, step);
        assert(is_grid_line(last + step, step, left, right));
        let k = choose|k: int| 0 <= k < lines.len() && #[trigger] lines[k] == last + step;
        assert(k < lines.len() - 1 ==> lines[k] < lines[lines.len() - 1]);
    }
    assert forall|i: int, j: int| #![trigger lines[i], lines[j]]
        0 <= i < lines.len() && j == i + 1 && j < lines.len() implies lines[j] - lines[i]
        == step by {
        assert(is_grid_line(lines[i] as int, step, left, right));
        assert(is_grid_line(lines[j] as int, step, left, right));
        assert(lines[i] < lines[j]);
        lemma_next_multiple(lines[i] as int, 1, step);
        if lines[i] + step < lines[j] {
            assert(is_grid_line(lines[i] + step, step, left, right));
            let k = choose|k: int| 0 <= k < lines.len() && #[trigger] lines[k] == lines[i] + step;
            assert(k < i ==> lines[k] < lines[i]);
            assert(k > j ==> lines[j] < lines[k]);
        }
        lemma_multiples_apart(lines[i] as int, lines[j] as int, step);
    }
}

proof fn lemma_next_multiple(f: int, k: int, step: int)
    requires
        step > 0,
        f % step == 0,
    ensures
        (f + k * step) % step == 0,
{
    vstd::arithmetic::div_mod::lemma_mod_multiples_vanish(k, f, step);
    assert(f + k * step == step * k + f) by (nonlinear_arith);
}

proof fn lemma_multiples_apart(f: int, g: int, step: int)
    requires
        step > 0,
        f % step == 0,
        g % step == 0,
        f < g,
    ensures
        g - f >= step,
{
    vstd::arithmetic::div_mod::lemma_fundamental_div_mod(f, step);
    vstd::arithmetic::div_mod::lemma_fundamental_div_mod(g, step);
    let (a, b) = (f / step, g / step);
    assert(g - f >= step) by (nonlinear_arith)
        requires
            f == step * a,
            g == step * b,
            f < g,
            step > 0,
    ;
}

// ── Passband label ─────────────────────────────────────────────────────────

/// Half of a passband in whole kilohertz, rounded to the nearest one; a tie goes
/// to the even one.
pub open spec fn half_in_khz(passband_hz: u32) -> nat {
    let whole = passband_hz as nat / 2000;
    let rest = passband_hz as nat % 2000;
    if rest < 1000 || (rest == 1000 && whole % 2 == 0) {
        whole
    } else {
        whole + 1
    }
}

/// Half of a passband in tenths of a kilohertz, rounded to the nearest one. A tie
/// is decided by the quotient in double precision, which is what is rounded: up
/// for 100 Hz and from 900 to 1500 Hz, else down.
pub open spec fn half_in_tenths_of_khz(passband_hz: u32) -> nat {
    let whole = passband_hz as nat / 200;
    let rest = passband_hz as nat % 200;
    let tie_goes_up = passband_hz == 100 || 900 <= passband_hz <= 1500;
    if rest < 100 || (rest == 100 && !tie_goes_up) {
        whole
    } else {
        whole + 1
    }
}

impl WaterfallRenderer {
    /// The label of the passband: the mode and half of the passband's width, from
    /// one kilohertz on without decimals and below with one.
    pub open spec fn spec_passband_label(self) -> Seq<char> {
        let half = if self.passband_hz >= 2000 {
            decimal(half_in_khz(self.passband_hz))
        } else {
            let tenths = half_in_tenths_of_khz(self.passband_hz);
            decimal(tenths / 10) + "."@ + decimal(tenths % 10)
        };
        self.mode_label@ + " ±"@ + half + "k"@
    }

    /// The label of the passband.
    pub fn passband_label(&self) -> (res: String)
        ensures
            res@ == self.spec_passband_label(),
    {
        let mut text: String = self.mode_label.clone();
        text.append(" ±");
        let ghost head = text@;
        let hz: u64 = self.passband_hz as u64;
        if hz >= 2000 {
            let whole: u64 = hz / 2000;
            let rest: u64 = hz % 2000;
            let half: u64 = if rest < 1000 || (rest == 1000 && whole % 2 == 0) {
                whole
            } else {
                whole + 1
            };
            append_decimal(&mut text, half);
        } else {
            let whole: u64 = hz / 200;
            let rest: u64 = hz % 200;
            let tie_goes_up: bool = hz == 100 || (900 <= hz && hz <= 1500);
            let tenths: u64 = if rest < 100 || (rest == 100 && !tie_goes_up) {
                whole
            } else {
                whole + 1
            };
            append_decimal(&mut text, tenths / 10);
            text.append(".");
            append_decimal(&mut text, tenths % 10);
            assert(text@ =~= head + (decimal((tenths / 10) as nat) + "."@ + decimal(
                (tenths % 10) as nat,
            )));
        }
        text.append("k");
        text
    }
}

// ── Frequency and level labels ─────────────────────────────────────────────

/// Two hundred times two to the power of 52.
pub const DOUBLE_SCALE: u64 = 900_719_925_474_099_200;

/// `x`, doubled until it is at least `DOUBLE_SCALE`.
pub open spec fn scaled_up(x: nat) -> nat
    decreases
            (if x >= DOUBLE_SCALE {
                0
            } else {
                DOUBLE_SCALE - x
            }),
{
    if x == 0 || x >= DOUBLE_SCALE {
        x
    } else {
        scaled_up(2 * x)
    }
}

/// Whether a number of megahertz halfway between two hundredths is rounded up;
/// it is given in steps of half a hundredth. What is rounded is the quotient in
/// double precision, which has 53 bits: it lies below or above the middle, or on
/// it, and then the even hundredth is taken.
pub open spec fn tie_goes_up(halves: nat) -> bool {
    let rest = scaled_up(halves) % 200;
    if rest == 0 {
        (halves / 2) % 2 == 1
    } else {
        rest > 100
    }
}

/// A frequency in tenths of a hertz, in hundredths of a megahertz and rounded to
/// the nearest one.
pub open spec fn hundredths_of_mhz(tenths: nat) -> nat {
    let whole = tenths / 100_000;
    let rest = tenths % 100_000;
    if rest < 50_000 || (rest == 50_000 && !tie_goes_up(tenths / 50_000)) {
        whole
    } else {
        whole + 1
    }
}

/// The label of a frequency in tenths of a hertz, in megahertz. Less than 500 Hz
/// beyond a whole number of megahertz it is that number and the unit; less than
/// 500 Hz beyond a tenth it has one decimal, and else two.
pub open spec fn spec_format_freq(tenths: i64) -> Seq<char> {
    let magnitude = distance_from_zero(tenths as int);
    if magnitude % 10_000_000 < 5_000 {
        sign_of(tenths as int) + decimal(magnitude / 10_000_000) + " MHz"@
    } else if magnitude % 1_000_000 < 5_000 {
        sign_of(tenths as int) + decimal(magnitude / 10_000_000) + "."@ + decimal(
            magnitude / 1_000_000 % 10,
        )
    } else {
        let hundredths = hundredths_of_mhz(magnitude);
        sign_of(tenths as int) + decimal(hundredths / 100) + "."@ + decimal(hundredths / 10 % 10)
            + decimal(hundredths % 10)
    }
}

fn round_tie(halves: u64) -> (res: bool)
    requires
        0 < halves < DOUBLE_SCALE,
    ensures
        res == tie_goes_up(halves as nat),
{
    let mut x: u64 = halves;
    while x < DOUBLE_SCALE
        invariant
            0 < x < 2 * DOUBLE_SCALE,
            scaled_up(x as nat) == scaled_up(halves as nat),
        decreases 2 * DOUBLE_SCALE - x,
    {
        x = 2 * x;
    }
    let rest: u64 = x % 200;
    if rest == 0 {
        (halves / 2) % 2 == 1
    } else {
        rest > 100
    }
}

/// The label of a frequency in tenths of a hertz.
pub fn format_freq(tenths: i64) -> (res: String)
    ensures
        res@ == spec_format_freq(tenths),
{
    let (text, magnitude): (String, u64) = signed(tenths);
    let mut text: String = text;
    if magnitude % 10_000_000 < 5_000 {
        append_decimal(&mut text, magnitude / 10_000_000);
        text.append(" MHz");
    } else if magnitude % 1_000_000 < 5_000 {
        append_decimal(&mut text, magnitude / 10_000_000);
        text.append(".");
        append_decimal(&mut text, magnitude / 1_000_000 % 10);
    } else {
        let whole: u64 = magnitude / 100_000;
        let rest: u64 = magnitude % 100_000;
        let hundredths: u64 = if rest < 50_000 || (rest == 50_000 && !round_tie(
            magnitude / 50_000,
        )) {
            whole
        } else {
            whole + 1
        };
        append_decimal(&mut text, hundredths / 100);
        text.append(".");
        append_decimal(&mut text, hundredths / 10 % 10);
        append_decimal(&mut text, hundredths % 10);
    }
    text
}

/// The label of a level in decibels.
pub open spec fn spec_format_level(level: i64) -> Seq<char> {
    sign_of(level as int) + decimal(distance_from_zero(level as int)) + " dB"@
}

/// The label of a level in decibels.
pub fn format_level(level: i64) -> (res: String)
    ensures
        res@ == spec_format_level(level),
{
    let (text, magnitude): (String, u64) = signed(level);
    let mut text: String = text;
    append_decimal(&mut text, magnitude);
    text.append(" dB");
    text
}

/// A label with two decimals is off by five kilohertz at most.
pub proof fn labels_are_near_their_frequency(tenths: nat)
    ensures
        -50_000 <= 100_000 * hundredths_of_mhz(tenths) - tenths <= 50_000,
{
}

/// The label of a frequency is its number of megahertz with its sign, and the
/// unit where it has no decimals. Without decimals or with one it is at most
/// 500 Hz short of the frequency, with two it is off by five kilohertz at most.
pub proof fn frequency_labels_show_megahertz(tenths: i64) -> (parts: (nat, nat, nat))
    ensures
        ({
            let (whole, first, second) = parts;
            let text = spec_format_freq(tenths);
            let head = sign_of(tenths as int) + decimal(whole);
            let distance = distance_from_zero(tenths as int);
            let shown = 10_000_000 * whole + 1_000_000 * first + 100_000 * second;
            &&& first < 10 && second < 10
            &&& if text == head + " MHz"@ {
                first == 0 && second == 0 && 0 <= distance - shown < 5_000
            } else if text == head + "."@ + decimal(first) {
                second == 0 && 0 <= distance - shown < 5_000
            } else {
                &&& text == head + "."@ + decimal(first) + decimal(second)
                &&& -50_000 <= distance - shown <= 50_000
            }
        }),
{
    let magnitude = distance_from_zero(tenths as int);
    let text = spec_format_freq(tenths);
    reveal_strlit(".");
    reveal_strlit(" MHz");
    if magnitude % 10_000_000 < 5_000 {
        (magnitude / 10_000_000, 0, 0)
    } else if magnitude % 1_000_000 < 5_000 {
        let (whole, first) = (magnitude / 10_000_000, magnitude / 1_000_000 % 10);
        let head = sign_of(tenths as int) + decimal(whole);
        assert(text[head.len() as int] == '.');
        assert((head + " MHz"@)[head.len() as int] == ' ');
        (whole, first, 0)
    } else {
        labels_are_near_their_frequency(magnitude);
        let hundredths = hundredths_of_mhz(magnitude);
        let (whole, first, second) = (hundredths / 100, hundredths / 10 % 10, hundredths % 10);
        let head = sign_of(tenths as int) + decimal(whole);
        assert(text[head.len() as int] == '.');
        assert((head + " MHz"@)[head.len() as int] == ' ');
        assert(decimal(second).len() > 0);
        assert(text.len() > (head + "."@ + decimal(first)).len());
        (whole, first, second)
    }
}

/// The label of the passband names the mode and half of the passband: in whole
/// kilohertz, off by half a kilohertz at most, or below one kilohertz in tenths,
/// off by 50 Hz at most.
pub proof fn passband_labels_show_half_the_width(display: WaterfallRenderer) -> (half: nat)
    ensures
        display.passband_hz >= 2000 ==> {
            &&& display.spec_passband_label() == display.mode_label@ + " ±"@ + decimal(half) + "k"@
            &&& -1000 <= display.passband_hz - 2000 * half <= 1000
        },
        display.passband_hz < 2000 ==> {
            &&& display.spec_passband_label() == display.mode_label@ + " ±"@ + (decimal(half / 10)
                + "."@ + decimal(half % 10)) + "k"@
            &&& -100 <= display.passband_hz - 200 * half <= 100
        },
{
    if display.passband_hz >= 2000 {
        half_in_khz(display.passband_hz)
    } else {
        half_in_tenths_of_khz(display.passband_hz)
    }
}

/// The label of a level is the level, as it is read, and its unit.
pub proof fn level_labels_read_back(level: i32)
    ensures
        ({
            let text = spec_format_level(level as i64);
            let number = text.take(text.len() - 3);
            text == number + " dB"@ && crate::number::parsed(number) == Some(level)
        }),
{
    let text = spec_format_level(level as i64);
    let number = sign_of(level as int) + decimal(distance_from_zero(level as int));
    reveal_strlit(" dB");
    assert(text.take(text.len() - 3) =~= number);
    crate::number::signed_numbers_read_back(level);
}

// ── Places on the canvas ───────────────────────────────────────────────────

/// The level at the bottom of the spectrum (dB).
pub const LOWEST_LEVEL: i64 = -60;

/// The level at the top of the spectrum (dB).
pub const HIGHEST_LEVEL: i64 = 0;

/// The levels that get a grid line (dB).
pub const GRID_LEVELS: [i64; 5] = [-50, -40, -30, -20, -10];

/// A point on the canvas.
pub struct Point<A: Arithmetic> {
    pub x: A::Real,
    pub y: A::Real,
}

/// A vertical grid line.
pub struct FrequencyLine<A: Arithmetic> {
    /// The frequency, in tenths of a hertz.
    pub tenths: i64,
    pub x: A::Real,
    pub label: String,
}

/// A horizontal grid line.
pub struct LevelLine<A: Arithmetic> {
    /// The level (dB).
    pub level: i64,
    pub y: A::Real,
    pub label: String,
}

/// Where the passband is drawn.
pub struct Passband<A: Arithmetic> {
    pub left: A::Real,
    pub center: A::Real,
    pub right: A::Real,
    pub label: String,
}

/// The waterfall in a picture: it goes to the off-screen canvas and is scaled
/// from there to the part of the canvas below the spectrum.
#[derive(Clone, Copy, Debug, PartialEq, Eq, Structural)]
pub struct WaterfallPart {
    /// Whether the off-screen canvas has to take the waterfall's size first.
    pub resize: bool,
    /// The first row of the canvas below the spectrum.
    pub top: u32,
    /// How many rows of the canvas are below the spectrum.
    pub rows: u32,
}

/// The spectrum in a picture.
pub struct SpectrumPart<A: Arithmetic> {
    pub line: Vec<Point<A>>,
    pub levels: Vec<LevelLine<A>>,
    pub frequencies: Vec<FrequencyLine<A>>,
    pub passband: Passband<A>,
}

/// What is drawn for one block of samples.
pub struct Picture<A: Arithmetic> {
    pub waterfall: Option<WaterfallPart>,
    pub spectrum: Option<SpectrumPart<A>>,
}

impl WaterfallRenderer {
    /// Whether `out` is the frequency at the left edge: the centre frequency
    /// less half of the sample rate.
    pub open spec fn is_left_edge<A: Arithmetic>(self, out: A::Real) -> bool {
        exists|rate: A::Real, two: A::Real, half: A::Real, center: A::Real|
            {
                &&& #[trigger] call_ensures(A::integer, (self.sample_rate as i64,), rate)
                &&& #[trigger] call_ensures(A::integer, (2i64,), two)
                &&& #[trigger] call_ensures(A::ratio, (rate, two), half)
                &&& #[trigger] call_ensures(A::integer, (self.center_freq as i64,), center)
                &&& call_ensures(A::minus, (center, half), out)
            }
    }

    /// Whether `x` is the place of the frequency `f`: its distance from the left
    /// edge, where the sample rate is as wide as the canvas.
    pub open spec fn is_place<A: Arithmetic>(self, f: A::Real, x: A::Real) -> bool {
        exists|left: A::Real, distance: A::Real, rate: A::Real, share: A::Real, width: A::Real|
            {
                &&& #[trigger] self.is_left_edge::<A>(left)
                &&& #[trigger] call_ensures(A::minus, (f, left), distance)
                &&& #[trigger] call_ensures(A::integer, (self.sample_rate as i64,), rate)
                &&& #[trigger] call_ensures(A::ratio, (distance, rate), share)
                &&& #[trigger] call_ensures(A::integer, (self.width as i64,), width)
                &&& call_ensures(A::times, (share, width), x)
            }
    }

    fn left_edge<A: Arithmetic>(&self) -> (out: A::Real)
        ensures
            self.is_left_edge::<A>(out),
    {
        let rate: A::Real = A::integer(self.sample_rate as i64);
        let two: A::Real = A::integer(2);
        let half: A::Real = A::ratio(rate, two);
        let center: A::Real = A::integer(self.center_freq as i64);
        A::minus(center, half)
    }

    fn place<A: Arithmetic>(&self, f: A::Real) -> (x: A::Real)
        ensures
            self.is_place::<A>(f, x),
    {
        let left: A::Real = self.left_edge::<A>();
        let distance: A::Real = A::minus(f, left);
        let rate: A::Real = A::integer(self.sample_rate as i64);
        let share: A::Real = A::ratio(distance, rate);
        let width: A::Real = A::integer(self.width as i64);
        A::times(share, width)
    }

    /// Whether `line` is a grid line at the place of its frequency and has its
    /// label.
    pub open spec fn is_frequency_line<A: Arithmetic>(self, line: FrequencyLine<A>) -> bool {
        &&& line.label@ == spec_format_freq(line.tenths)
        &&& exists|f: A::Real| #[trigger]
            call_ensures(A::fraction, (line.tenths, 10i64), f) && self.is_place::<A>(f, line.x)
    }

    /// Whether `lines` holds the vertical grid lines, from left to right.
    pub open spec fn is_frequency_grid<A: Arithmetic>(self, lines: Seq<FrequencyLine<A>>) -> bool {
        &&& is_grid(
            Seq::new(lines.len(), |i: int| lines[i].tenths),
            freq_step_tenths(self.sample_rate),
            self.left_tenths(),
            self.right_tenths(),
        )
        &&& forall|i: int| #![trigger lines[i]]
            0 <= i < lines.len() ==> self.is_frequency_line::<A>(lines[i])
    }

    /// The vertical grid lines, from left to right.
    pub fn frequency_grid<A: Arithmetic>(&self) -> (res: Vec<FrequencyLine<A>>)
        ensures
            self.is_frequency_grid::<A>(res@),
    {
        let frequencies: Vec<i64> = self.grid_frequencies();
        let mut res: Vec<FrequencyLine<A>> = Vec::new();
        let mut i: usize = 0;
        while i < frequencies.len()
            invariant
                i <= frequencies@.len(),
                res@.len() == i,
                forall|j: int| #![trigger res@[j]]
                    0 <= j < i ==> res@[j].tenths == frequencies@[j]
                        && self.is_frequency_line::<A>(res@[j]),
            decreases frequencies@.len() - i,
        {
            let tenths: i64 = frequencies[i];
            let f: A::Real = A::fraction(tenths, 10);
            let x: A::Real = self.place::<A>(f);
            let line: FrequencyLine<A> = FrequencyLine {
                tenths,
                x,
                label: format_freq(tenths),
            };
            assert(call_ensures(A::fraction, (line.tenths, 10i64), f));
            assert(self.is_frequency_line::<A>(line));
            res.push(line);
            i = i + 1;
        }
        assert(Seq::new(res@.len(), |i: int| res@[i].tenths) =~= frequencies@);
        res
    }

    /// Whether the passband is drawn at the place of the centre frequency, from
    /// half of its width below to half of its width above, and has its label.
    pub open spec fn is_passband<A: Arithmetic>(self, band: Passband<A>) -> bool {
        &&& band.label@ == self.spec_passband_label()
        &&& exists|
            width: A::Real,
            two: A::Real,
            half: A::Real,
            center: A::Real,
            low: A::Real,
            high: A::Real,
        |
            {
                &&& #[trigger] self.passband_steps::<A>(width, two, half, center, low, high)
                &&& self.is_place::<A>(low, band.left)
                &&& self.is_place::<A>(center, band.center)
                &&& self.is_place::<A>(high, band.right)
            }
    }

    /// Whether these are the steps to the edges of the passband.
    pub open spec fn passband_steps<A: Arithmetic>(
        self,
        width: A::Real,
        two: A::Real,
        half: A::Real,
        center: A::Real,
        low: A::Real,
        high: A::Real,
    ) -> bool {
        &&& call_ensures(A::integer, (self.passband_hz as i64,), width)
        &&& call_ensures(A::integer, (2i64,), two)
        &&& call_ensures(A::ratio, (width, two), half)
        &&& call_ensures(A::integer, (self.center_freq as i64,), center)
        &&& call_ensures(A::minus, (center, half), low)
        &&& call_ensures(A::plus, (center, half), high)
    }

    /// Where the passband is drawn.
    pub fn passband<A: Arithmetic>(&self) -> (band: Passband<A>)
        ensures
            self.is_passband::<A>(band),
    {
        let width: A::Real = A::integer(self.passband_hz as i64);
        let two: A::Real = A::integer(2);
        let half: A::Real = A::ratio(width, two);
        let center: A::Real = A::integer(self.center_freq as i64);
        let low: A::Real = A::minus(center, half);
        let high: A::Real = A::plus(center, half);
        assert(self.passband_steps::<A>(width, two, half, center, low, high));
        Passband {
            left: self.place::<A>(low),
            center: self.place::<A>(center),
            right: self.place::<A>(high),
            label: self.passband_label(),
        }
    }

    /// Whether `y` is the height of a level in the spectrum, counted from the
    /// top: the highest level is at the top, the lowest at the bottom.
    pub open spec fn is_height<A: Arithmetic>(self, db: A::Real, y: A::Real) -> bool {
        exists|
            min_db: A::Real,
            max_db: A::Real,
            norm: A::Real,
            one: A::Real,
            rest: A::Real,
            height: A::Real,
        | #[trigger]
            self.height_steps::<A>(db, min_db, max_db, norm, one, rest, height, y)
    }

    /// Whether these are the steps to the height of a level.
    pub open spec fn height_steps<A: Arithmetic>(
        self,
        db: A::Real,
        min_db: A::Real,
        max_db: A::Real,
        norm: A::Real,
        one: A::Real,
        rest: A::Real,
        height: A::Real,
        y: A::Real,
    ) -> bool {
        &&& call_ensures(A::integer, (LOWEST_LEVEL,), min_db)
        &&& call_ensures(A::integer, (HIGHEST_LEVEL,), max_db)
        &&& is_position::<A>(db, min_db, max_db, norm)
        &&& call_ensures(A::integer, (1i64,), one)
        &&& call_ensures(A::minus, (one, norm), rest)
        &&& call_ensures(A::integer, (self.spectrum_height as i64,), height)
        &&& call_ensures(A::times, (height, rest), y)
    }

    fn height_of<A: Arithmetic>(&self, db: A::Real) -> (y: A::Real)
        ensures
            self.is_height::<A>(db, y),
    {
        let min_db: A::Real = A::integer(LOWEST_LEVEL);
        let max_db: A::Real = A::integer(HIGHEST_LEVEL);
        let norm: A::Real = position::<A>(db, min_db, max_db);
        let one: A::Real = A::integer(1);
        let rest: A::Real = A::minus(one, norm);
        let height: A::Real = A::integer(self.spectrum_height as i64);
        let y: A::Real = A::times(height, rest);
        assert(self.height_steps::<A>(db, min_db, max_db, norm, one, rest, height, y));
        y
    }

    /// Whether `line` is a grid line at the height of its level and has its label.
    pub open spec fn is_level_line<A: Arithmetic>(self, line: LevelLine<A>) -> bool {
        &&& line.label@ == spec_format_level(line.level)
        &&& exists|db: A::Real| #[trigger]
            call_ensures(A::integer, (line.level,), db) && self.is_height::<A>(db, line.y)
    }

    /// Whether `lines` holds the horizontal grid lines, from the bottom up.
    pub open spec fn is_level_grid<A: Arithmetic>(self, lines: Seq<LevelLine<A>>) -> bool {
        &&& lines.len() == 5
        &&& forall|i: int| #![trigger lines[i]]
            0 <= i < 5 ==> lines[i].level == GRID_LEVELS@[i] && self.is_level_line::<A>(lines[i])
    }

    /// The horizontal grid lines, from the bottom up.
    pub fn level_grid<A: Arithmetic>(&self) -> (res: Vec<LevelLine<A>>)
        ensures
            self.is_level_grid::<A>(res@),
    {
        let mut res: Vec<LevelLine<A>> = Vec::new();
        let mut i: usize = 0;
        while i < 5
            invariant
                i <= 5,
                res@.len() == i,
                forall|j: int| #![trigger res@[j]]
                    0 <= j < i ==> res@[j].level == GRID_LEVELS@[j] && self.is_level_line::<A>(
                        res@[j],
                    ),
            decreases 5 - i,
        {
            let level: i64 = GRID_LEVELS[i];
            let db: A::Real = A::integer(level);
            let y: A::Real = self.height_of::<A>(db);
            let line: LevelLine<A> = LevelLine { level, y, label: format_level(level) };
            assert(call_ensures(A::integer, (line.level,), db));
            assert(self.is_level_line::<A>(line));
            res.push(line);
            i = i + 1;
        }
        res
    }

    /// Whether `point` is where level `db`, number `i` of `n`, is drawn: the
    /// levels are spread evenly over the width of the canvas.
    pub open spec fn is_level_point<A: Arithmetic>(
        self,
        i: usize,
        n: usize,
        db: A::Real,
        point: Point<A>,
    ) -> bool {
        exists|width: A::Real, count: A::Real, scale: A::Real, index: A::Real|
            {
                &&& #[trigger] call_ensures(A::integer, (self.width as i64,), width)
                &&& #[trigger] call_ensures(A::count, (n,), count)
                &&& #[trigger] call_ensures(A::ratio, (width, count), scale)
                &&& #[trigger] call_ensures(A::count, (i,), index)
                &&& call_ensures(A::times, (index, scale), point.x)
                &&& self.is_height::<A>(db, point.y)
            }
    }

    /// Whether `line` holds the points of the spectrum, from left to right.
    pub open spec fn is_spectrum_line<A: Arithmetic>(
        self,
        spectrum: Seq<A::Real>,
        line: Seq<Point<A>>,
    ) -> bool {
        &&& line.len() == spectrum.len()
        &&& forall|i: int| #![trigger line[i]]
            0 <= i < line.len() ==> self.is_level_point::<A>(
                i as usize,
                spectrum.len() as usize,
                spectrum[i],
                line[i],
            )
    }

    /// The points of the spectrum, from left to right.
    pub fn spectrum_line<A: Arithmetic>(&self, spectrum: &[A::Real]) -> (res: Vec<Point<A>>)
        ensures
            self.is_spectrum_line::<A>(spectrum@, res@),
    {
        let n: usize = spectrum.len();
        let mut res: Vec<Point<A>> = Vec::new();
        let mut i: usize = 0;
        while i < n
            invariant
                i <= n,
                n == spectrum@.len(),
                res@.len() == i,
                forall|j: int| #![trigger res@[j]]
                    0 <= j < i ==> self.is_level_point::<A>(j as usize, n, spectrum@[j], res@[j]),
            decreases n - i,
        {
            let width: A::Real = A::integer(self.width as i64);
            let count: A::Real = A::count(n);
            let scale: A::Real = A::ratio(width, count);
            let index: A::Real = A::count(i);
            let x: A::Real = A::times(index, scale);
            let y: A::Real = self.height_of::<A>(spectrum[i]);
            let point: Point<A> = Point { x, y };
            assert(self.is_level_point::<A>(i, n, spectrum@[i as int], point));
            res.push(point);
            i = i + 1;
        }
        res
    }

    /// Whether a waterfall of `len` bytes can be drawn: there is one, and it has
    /// four bytes for each of its pixels.
    pub open spec fn draws_waterfall(len: int, wf_width: u32, wf_height: u32) -> bool {
        len > 0 && wf_width > 0 && wf_height > 0 && len == picture_bytes(wf_width, wf_height)
    }

    /// Whether `part` shows `spectrum`.
    pub open spec fn is_spectrum_part<A: Arithmetic>(
        self,
        spectrum: Seq<A::Real>,
        part: SpectrumPart<A>,
    ) -> bool {
        &&& self.is_spectrum_line::<A>(spectrum, part.line@)
        &&& self.is_level_grid::<A>(part.levels@)
        &&& self.is_frequency_grid::<A>(part.frequencies@)
        &&& self.is_passband::<A>(part.passband)
    }

    /// Lays out a picture of a spectrum and of a waterfall that has `len` bytes.
    /// A waterfall that does not fit its size is left out, and so is an empty
    /// spectrum with all that is drawn over it.
    pub fn render<A: Arithmetic>(
        &mut self,
        spectrum: &[A::Real],
        len: usize,
        wf_width: u32,
        wf_height: u32,
    ) -> (res: Picture<A>)
        requires
            len > 0 && wf_width > 0 && wf_height > 0 ==> picture_bytes(wf_width, wf_height)
                <= u32::MAX,
            old(self).valid(),
        ensures
            final(self).valid(),
            if Self::draws_waterfall(len as int, wf_width, wf_height) {
                &&& res.waterfall == Some(
                    WaterfallPart {
                        resize: old(self).off_w != wf_width || old(self).off_h != wf_height,
                        top: old(self).spectrum_height,
                        rows: (old(self).height - old(self).spectrum_height) as u32,
                    },
                )
                &&& *final(self) == (WaterfallRenderer {
                    off_w: wf_width,
                    off_h: wf_height,
                    ..*old(self)
                })
            } else {
                res.waterfall is None && *final(self) == *old(self)
            },
            match res.spectrum {
                None => spectrum@.len() == 0,
                Some(part) => spectrum@.len() > 0 && old(self).is_spectrum_part::<A>(
                    spectrum@,
                    part,
                ),
            },
    {
        let spectrum_part: Option<SpectrumPart<A>> = if spectrum.len() > 0 {
            Some(
                SpectrumPart {
                    line: self.spectrum_line::<A>(spectrum),
                    levels: self.level_grid::<A>(),
                    frequencies: self.frequency_grid::<A>(),
                    passband: self.passband::<A>(),
                },
            )
        } else {
            None
        };
        let waterfall: Option<WaterfallPart> = if self.can_draw(len, wf_width, wf_height) {
            let resize: bool = self.ensure_offscreen(wf_width, wf_height);
            Some(
                WaterfallPart {
                    resize,
                    top: self.spectrum_height,
                    rows: self.height - self.spectrum_height,
                },
            )
        } else {
            None
        };
        Picture { waterfall, spectrum: spectrum_part }
    }
}

} // verus!

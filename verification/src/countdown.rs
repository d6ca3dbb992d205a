use vstd::prelude::*;
use vstd::string::*;
use crate::clock::{time_fields, MS_PER_MINUTE, MS_PER_HOUR, MS_PER_DAY};

verus! {

/// The seconds in one unit of each duration switch and suffix: seconds,
/// minutes, hours, days.
pub open spec fn factor_spec(idx: int) -> int {
    if idx == 0 {
        1
    } else if idx == 1 {
        60
    } else if idx == 2 {
        3600
    } else {
        86_400
    }
}

/// The seconds in one unit of kind `idx` (0 seconds, 1 minutes, 2 hours,
/// 3 days).
pub fn factor(idx: usize) -> (f: i128)
    requires
        idx < 4,
    ensures
        f == factor_spec(idx as int),
{
    if idx == 0 {
        1
    } else if idx == 1 {
        60
    } else if idx == 2 {
        3600
    } else {
        86_400
    }
}

/// The unit that a duration suffix names: `s` seconds, `m` minutes,
/// `h` hours, `d` days, in either case.
pub open spec fn suffix_spec(c: char) -> Option<usize> {
    if c == 's' || c == 'S' {
        Some(0)
    } else if c == 'm' || c == 'M' {
        Some(1)
    } else if c == 'h' || c == 'H' {
        Some(2)
    } else if c == 'd' || c == 'D' {
        Some(3)
    } else {
        None
    }
}

/// The unit (as an index for `factor`) that the suffix `c` of a duration
/// names, or `None` for a suffix that is not one.
pub fn suffix_factor_index(c: char) -> (idx: Option<usize>)
    ensures
        idx == suffix_spec(c),
{
    if c == 's' || c == 'S' {
        Some(0)
    } else if c == 'm' || c == 'M' {
        Some(1)
    } else if c == 'h' || c == 'H' {
        Some(2)
    } else if c == 'd' || c == 'D' {
        Some(3)
    } else {
        None
    }
}

/// How many fields the display shows for a countdown from `target`
/// milliseconds: all five when `full`, else up to the coarsest unit that
/// `target` reaches (seconds and milliseconds always), so that a field is
/// left out only when it is zero for the whole countdown.
pub open spec fn width_for(target: int, full: bool) -> usize {
    if full {
        5
    } else if target >= 86_400_000 {
        5
    } else if target >= 3_600_000 {
        4
    } else if target >= 60_000 {
        3
    } else {
        2
    }
}

/// The number of fields to display for a countdown from `target`
/// milliseconds.
pub fn format_width(target: i128, full: bool) -> (width: usize)
    ensures
        width == width_for(target as int, full),
        2 <= width <= 5,
{
    if full {
        5
    } else if target >= MS_PER_DAY {
        5
    } else if target >= MS_PER_HOUR {
        4
    } else if target >= MS_PER_MINUTE {
        3
    } else {
        2
    }
}

/// The field that a resolution setting names: `m`/`0` milliseconds,
/// `s`/`S`/`1` seconds, `M`/`2` minutes, `h`/`H`/`3` hours, `d`/`D`/`4` days.
pub open spec fn resolution_spec(c: char) -> Option<usize> {
    if c == 'm' || c == '0' {
        Some(0)
    } else if c == 's' || c == 'S' || c == '1' {
        Some(1)
    } else if c == 'M' || c == '2' {
        Some(2)
    } else if c == 'h' || c == 'H' || c == '3' {
        Some(3)
    } else if c == 'd' || c == 'D' || c == '4' {
        Some(4)
    } else {
        None
    }
}

/// The finest field to display for the resolution setting `c`, or `None`
/// for a setting that is not one.
pub fn parse_resolution(c: char) -> (r: Option<usize>)
    ensures
        r == resolution_spec(c),
{
    if c == 'm' || c == '0' {
        Some(0)
    } else if c == 's' || c == 'S' || c == '1' {
        Some(1)
    } else if c == 'M' || c == '2' {
        Some(2)
    } else if c == 'h' || c == 'H' || c == '3' {
        Some(3)
    } else if c == 'd' || c == 'D' || c == '4' {
        Some(4)
    } else {
        None
    }
}

/// How a resolution fits the fields on display.
#[derive(Debug, PartialEq, Eq, Clone, Copy)]
pub enum ResolutionFit {
    /// Some field is displayed.
    Fits,
    /// The resolution leaves nothing to display (a warning).
    Useless,
    /// The resolution is coarser than every displayed field (an error).
    TooCoarse,
}

/// Whether `resolution` leaves something of `format_width` fields to show.
pub fn check_resolution(resolution: usize, format_width: usize) -> (fit: ResolutionFit)
    ensures
        fit == (if resolution == format_width {
            ResolutionFit::Useless
        } else if resolution > format_width {
            ResolutionFit::TooCoarse
        } else {
            ResolutionFit::Fits
        }),
{
    if resolution == format_width {
        ResolutionFit::Useless
    } else if resolution > format_width {
        ResolutionFit::TooCoarse
    } else {
        ResolutionFit::Fits
    }
}

/// The value that a countdown from `target` shows after `spent`
/// milliseconds: what is left (counting down) or what has passed (counting
/// up), held within zero and `target`.
pub open spec fn shown_value(target: int, up: bool, spent: int) -> int {
    if !up {
        if target - spent <= 0 {
            0
        } else {
            target - spent
        }
    } else if spent >= target {
        target
    } else {
        spent
    }
}

/// Whether the countdown has reached its end after `spent` milliseconds.
pub open spec fn is_over(target: int, up: bool, spent: int) -> bool {
    if !up {
        target - spent <= 0
    } else {
        spent >= target
    }
}

/// One frame of a countdown: the value to draw, the value drawn before it,
/// whether this is the last frame, and whether nothing was drawn yet.
#[derive(Debug, PartialEq, Eq, Clone, Copy)]
pub struct Frame {
    pub difference: i128,
    pub previous: i128,
    pub over: bool,
    pub first_draw: bool,
}

/// The state of a countdown between frames.
#[derive(Debug, PartialEq, Eq, Clone, Copy)]
pub struct Countdown {
    /// The length of the countdown in milliseconds.
    pub target: i128,
    /// Whether it counts up from zero instead of down to zero.
    pub up: bool,
    /// The value drawn last.
    pub last: i128,
    /// Whether nothing was drawn yet.
    pub first_draw: bool,
}

impl Countdown {
    /// A countdown of `target` milliseconds, of which `spent` passed before
    /// it started.
    pub fn new(target: i128, up: bool, spent: i128) -> (c: Countdown)
        requires
            !up ==> i128::MIN <= target - spent <= i128::MAX,
        ensures
            c.target == target,
            c.up == up,
            c.last == if up { target as int } else { target - spent },
            c.first_draw,
    {
        let last = if up { target } else { target - spent };
        Countdown { target, up, last, first_draw: true }
    }

    /// The frame to draw when `spent` milliseconds have passed.
    pub fn frame(&self, spent: i128) -> (f: Frame)
        requires
            !self.up ==> i128::MIN <= self.target - spent <= i128::MAX,
        ensures
            f.difference == shown_value(self.target as int, self.up, spent as int),
            f.over == is_over(self.target as int, self.up, spent as int),
            f.previous == self.last,
            f.first_draw == self.first_draw,
            self.target >= 0 && spent >= 0 ==> 0 <= f.difference <= self.target,
    {
        let mut difference = if !self.up { self.target - spent } else { spent };
        let mut over = false;
        if !self.up {
            if difference <= 0 {
                difference = 0;
                over = true;
            }
        } else if difference >= self.target {
            difference = self.target;
            over = true;
        }
        Frame { difference, previous: self.last, over, first_draw: self.first_draw }
    }

    /// Records that `shown` was drawn; returns whether the bell rings
    /// because the value went up since the frame before.
    pub fn advance(&mut self, shown: i128) -> (bell: bool)
        ensures
            bell == (old(self).last < shown),
            final(self).last == shown,
            !final(self).first_draw,
            final(self).target == old(self).target,
            final(self).up == old(self).up,
    {
        let bell = self.last < shown;
        self.last = shown;
        self.first_draw = false;
        bell
    }
}

/// Microseconds left until the target of `target` milliseconds, when
/// `elapsed` microseconds have passed.
pub open spec fn remaining_micros(target: int, elapsed: int) -> int {
    target * 1000 - elapsed
}

/// Whether the bounds of the arithmetic on `target` and `elapsed` hold.
pub open spec fn micros_fit(target: int, elapsed: int) -> bool {
    &&& i128::MIN <= target * 1000 <= i128::MAX
    &&& i128::MIN <= remaining_micros(target, elapsed) <= i128::MAX
}

/// The microseconds of the last, short sleep of a wait.
pub const SETTLE_MICROS: u64 = 8000;

/// The last sleep of a wait, in microseconds, when less than half a
/// millisecond is left (or the target has passed): a fixed 8 ms, after
/// which the next frame is drawn; `None` while more time is left.
pub fn settle_sleep(target: i128, elapsed: i128) -> (r: Option<u64>)
    requires
        micros_fit(target as int, elapsed as int),
    ensures
        r == (if remaining_micros(target as int, elapsed as int) < 500 {
            Some(8000u64)
        } else {
            None
        }),
{
    if target * 1000 - elapsed < 500 {
        Some(SETTLE_MICROS)
    } else {
        None
    }
}

/// What the wait between two frames does next.
#[derive(Debug, PartialEq, Eq, Clone, Copy)]
pub enum SleepStep {
    /// Sleep this many microseconds, then draw the next frame.
    Sleep(u64),
    /// The planned sleep would pass the target: plan this shorter one and
    /// look at the clock again.
    Shrink(u64),
}

/// Decides between sleeping `sleep_amount` microseconds and planning a
/// shorter sleep, when `elapsed` microseconds of a `target` of milliseconds
/// have passed.
pub fn sleep_or_shrink(sleep_amount: u64, target: i128, elapsed: i128) -> (step: SleepStep)
    requires
        micros_fit(target as int, elapsed as int),
        sleep_amount >= remaining_micros(target as int, elapsed as int) ==> sleep_amount * 12
            <= u64::MAX,
    ensures
        sleep_amount < remaining_micros(target as int, elapsed as int) ==> step == SleepStep::Sleep(
            sleep_amount,
        ),
        sleep_amount >= remaining_micros(target as int, elapsed as int) ==> step
            == SleepStep::Shrink(((sleep_amount * 12) / 13) as u64),
        step matches SleepStep::Shrink(n) ==> n <= sleep_amount && (sleep_amount > 0 ==> n
            < sleep_amount),
        step matches SleepStep::Sleep(n) ==> n < remaining_micros(target as int, elapsed as int),
{
    if (sleep_amount as i128) < target * 1000 - elapsed {
        SleepStep::Sleep(sleep_amount)
    } else {
        SleepStep::Shrink((sleep_amount * 12u64) / 13u64)
    }
}

/// `total` plus `millis` times the factor of unit `unit` (see `factor`),
/// or `None` when the product or the sum leaves the range of `i128`.
pub fn add_duration(total: i128, millis: i128, unit: usize) -> (r: Option<i128>)
    requires
        unit < 4,
    ensures
        match r {
            Some(v) => v == total + millis * factor_spec(unit as int),
            None => !(i128::MIN <= millis * factor_spec(unit as int) <= i128::MAX) || !(i128::MIN
                <= total + millis * factor_spec(unit as int) <= i128::MAX),
        },
{
    let f = factor(unit);
    match millis.checked_mul(f) {
        Some(scaled) => total.checked_add(scaled),
        None => {
            None
        },
    }
}

/// Whether the countdown goes to a file: any output path but none (empty)
/// and `-`, which stand for standard output.
pub fn is_file_output(path: &str) -> (r: bool)
    ensures
        r == !(path@.len() == 0 || path@ == seq!['-']),
{
    let n = path.unicode_len();
    if n == 0 {
        false
    } else if n == 1 {
        let c = path.get_char(0);
        assert(path@ == seq!['-'] <==> c == '-') by {
            if c == '-' {
                assert(path@ =~= seq!['-']);
            }
        }
        c != '-'
    } else {
        true
    }
}

/// Whether a timestamp was given; a timestamp takes the place of the
/// minutes, hours and days switches.
pub fn uses_timestamp(timestamp: &str) -> (r: bool)
    ensures
        r == (timestamp@.len() > 0),
{
    timestamp.unicode_len() > 0
}

/// The fields that the display leaves out are zero at every moment of a
/// countdown from `target`: for each amount `m` from zero to `target`,
/// every field at or above the display width is zero.
pub proof fn lemma_hidden_fields_zero(target: int, m: int, i: int)
    requires
        0 <= m <= target,
        width_for(target, false) <= i < 5,
    ensures
        time_fields(m)[i] == 0,
{
}

/// When a countdown counts down, the value it shows never goes up as time
/// goes on: after a frame at `s1` milliseconds, a frame at `s2 >= s1` does
/// not ring the bell.
pub proof fn lemma_no_bell_counting_down(target: int, s1: int, s2: int)
    requires
        s1 <= s2,
    ensures
        !(shown_value(target, false, s1) < shown_value(target, false, s2)),
{
}

/// A countdown ends exactly when the time spent reaches its target, in
/// either direction; until then, counting down shows the time left and
/// counting up the time spent, both more than zero and less than the
/// target.
pub proof fn lemma_over_exactly_at_target(target: int, spent: int)
    requires
        0 <= spent,
    ensures
        is_over(target, false, spent) <==> spent >= target,
        is_over(target, true, spent) <==> spent >= target,
        spent < target ==> shown_value(target, false, spent) == target - spent,
        spent < target ==> 0 < shown_value(target, false, spent) <= target,
        spent < target ==> shown_value(target, true, spent) == spent,
        spent >= target ==> shown_value(target, false, spent) == 0,
        spent >= target ==> shown_value(target, true, spent) == target,
{
}

/// Every suffix names its unit in either case, and the factor of that unit
/// is the unit's length in seconds: `s` one second, `m` a minute, `h` an
/// hour, `d` a day. No other character is a suffix.
pub proof fn lemma_suffix_units(c: char)
    ensures
        (c == 's' || c == 'S') <==> suffix_spec(c) == Some(0usize),
        (c == 'm' || c == 'M') <==> suffix_spec(c) == Some(1usize),
        (c == 'h' || c == 'H') <==> suffix_spec(c) == Some(2usize),
        (c == 'd' || c == 'D') <==> suffix_spec(c) == Some(3usize),
        suffix_spec(c) is Some <==> (c == 's' || c == 'S' || c == 'm' || c == 'M' || c == 'h' || c
            == 'H' || c == 'd' || c == 'D'),
        suffix_spec(c) matches Some(k) ==> factor_spec(k as int) == (if c == 's' || c == 'S' {
            1int
        } else if c == 'm' || c == 'M' {
            60int
        } else if c == 'h' || c == 'H' {
            3600int
        } else {
            86_400int
        }),
{
}

/// With `-f` every field is shown, whatever the target; without it, the
/// display is as narrow as it can be: every field it leaves out is zero at
/// the target, and the coarsest field it shows (above the seconds) is not.
pub proof fn lemma_width_full_and_minimal(target: int)
    requires
        0 <= target,
    ensures
        width_for(target, true) == 5,
        2 <= width_for(target, false) <= 5,
        forall|i: int| width_for(target, false) <= i < 5 ==> time_fields(target)[i] == 0,
        width_for(target, false) > 2 ==> time_fields(target)[width_for(target, false) - 1] > 0,
{
}

/// Every resolution setting names the finest field shown: `m` or `0` the
/// milliseconds, `s`, `S` or `1` the seconds, `M` or `2` the minutes, `h`,
/// `H` or `3` the hours, `d`, `D` or `4` the days; nothing else is a
/// setting. (A lowercase `m` is milliseconds here, an uppercase `M`
/// minutes.)
pub proof fn lemma_resolution_settings(c: char)
    ensures
        (c == 'm' || c == '0') <==> resolution_spec(c) == Some(0usize),
        (c == 's' || c == 'S' || c == '1') <==> resolution_spec(c) == Some(1usize),
        (c == 'M' || c == '2') <==> resolution_spec(c) == Some(2usize),
        (c == 'h' || c == 'H' || c == '3') <==> resolution_spec(c) == Some(3usize),
        (c == 'd' || c == 'D' || c == '4') <==> resolution_spec(c) == Some(4usize),
        resolution_spec(c) matches Some(r) ==> r <= 4,
{
}

} // verus!

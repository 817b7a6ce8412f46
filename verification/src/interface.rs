//! Layout and text of the terminal widgets.
//!
//! Everything these widgets decide — decimal rendering, padding,
//! truncation, progress percentages, timer projections — is computed and
//! verified here, over plain values. Putting the text on a terminal (and
//! reading the clock) is left to the binary, which passes timestamps in as
//! milliseconds and draws the rendered strings.

use vstd::prelude::*;

verus! {

/// The decimal digit `d` as a character.
pub open spec fn digit_char(d: int) -> char {
    if d == 0 {
        '0'
    } else if d == 1 {
        '1'
    } else if d == 2 {
        '2'
    } else if d == 3 {
        '3'
    } else if d == 4 {
        '4'
    } else if d == 5 {
        '5'
    } else if d == 6 {
        '6'
    } else if d == 7 {
        '7'
    } else if d == 8 {
        '8'
    } else {
        '9'
    }
}

/// The decimal digits of `n`, most significant first.
pub open spec fn dec_spec(n: nat) -> Seq<char>
    decreases n,
{
    if n < 10 {
        seq![digit_char(n as int)]
    } else {
        dec_spec(n / 10).push(digit_char((n % 10) as int))
    }
}

/// How many decimal digits `n` has.
pub open spec fn dec_len(n: nat) -> nat {
    dec_spec(n).len()
}

/// `n` spaces.
pub open spec fn spaces_spec(n: nat) -> Seq<char>
    decreases n,
{
    if n == 0 {
        Seq::empty()
    } else {
        spaces_spec((n - 1) as nat).push(' ')
    }
}

pub proof fn lemma_spaces_len(n: nat)
    ensures
        spaces_spec(n).len() == n,
    decreases n,
{
    if n > 0 {
        lemma_spaces_len((n - 1) as nat);
    }
}

/// `n` in decimal, left-padded with `'0'` to two characters.
pub open spec fn pad2_zero(n: nat) -> Seq<char> {
    if n < 10 {
        seq!['0'] + dec_spec(n)
    } else {
        dec_spec(n)
    }
}

/// `n` in decimal, left-padded with spaces to two characters.
pub open spec fn pad2_space(n: nat) -> Seq<char> {
    if n < 10 {
        seq![' '] + dec_spec(n)
    } else {
        dec_spec(n)
    }
}

/// A duration of `secs` seconds in the timer's display format: hours only
/// when there are any, with trailing spaces keeping the short forms as wide
/// as the long one.
pub open spec fn fmt_duration(secs: nat) -> Seq<char> {
    let h = secs / 3600;
    let m = (secs / 60) % 60;
    let s = secs % 60;
    if h > 0 {
        pad2_space(h) + seq!['h', ' '] + pad2_zero(m) + seq!['m', ' '] + pad2_zero(s) + seq!['s']
    } else if m > 0 {
        pad2_zero(m) + seq!['m', ' '] + pad2_zero(s) + seq!['s', ' ', ' ', ' ', ' ']
    } else {
        pad2_zero(s) + seq!['s', ' ', ' ', ' ', ' ', ' ', ' ', ' ', ' ']
    }
}

/// One decimal digit as a string.
fn digit_str(d: u64) -> (s: String)
    requires
        d < 10,
    ensures
        s@ == seq![digit_char(d as int)],
{
    proof {
        reveal_strlit("0");
        reveal_strlit("1");
        reveal_strlit("2");
        reveal_strlit("3");
        reveal_strlit("4");
        reveal_strlit("5");
        reveal_strlit("6");
        reveal_strlit("7");
        reveal_strlit("8");
        reveal_strlit("9");
    }
    let lit: &str = if d == 0 {
        "0"
    } else if d == 1 {
        "1"
    } else if d == 2 {
        "2"
    } else if d == 3 {
        "3"
    } else if d == 4 {
        "4"
    } else if d == 5 {
        "5"
    } else if d == 6 {
        "6"
    } else if d == 7 {
        "7"
    } else if d == 8 {
        "8"
    } else {
        "9"
    };
    proof {
        assert(lit@ =~= seq![digit_char(d as int)]);
    }
    String::from_str(lit)
}

/// `n` in decimal.
pub fn dec_u64(n: u64) -> (s: String)
    ensures
        s@ == dec_spec(n as nat),
    decreases n,
{
    if n < 10 {
        digit_str(n)
    } else {
        let mut s: String = dec_u64(n / 10);
        let d: String = digit_str(n % 10);
        s.append(d.as_str());
        proof {
            assert(s@ =~= dec_spec(n as nat));
        }
        s
    }
}

/// `n` spaces.
pub fn spaces(n: usize) -> (s: String)
    ensures
        s@ == spaces_spec(n as nat),
{
    proof {
        reveal_strlit(" ");
    }
    let mut s: String = String::new();
    let mut i: usize = 0;
    while i < n
        invariant
            i <= n,
            s@ == spaces_spec(i as nat),
        decreases n - i,
    {
        s.append(" ");
        proof {
            reveal_strlit(" ");
            assert(s@ =~= spaces_spec((i + 1) as nat));
        }
        i = i + 1;
    }
    s
}

/// `n` in decimal, left-padded with `'0'` to two characters.
fn dec_pad2_zero(n: u64) -> (s: String)
    ensures
        s@ == pad2_zero(n as nat),
{
    if n < 10 {
        let mut s: String = digit_str(0);
        let d: String = dec_u64(n);
        s.append(d.as_str());
        proof {
            assert(s@ =~= pad2_zero(n as nat));
        }
        s
    } else {
        dec_u64(n)
    }
}

/// `n` in decimal, left-padded with spaces to two characters.
fn dec_pad2_space(n: u64) -> (s: String)
    ensures
        s@ == pad2_space(n as nat),
{
    if n < 10 {
        let mut s: String = spaces(1);
        let d: String = dec_u64(n);
        s.append(d.as_str());
        proof {
            assert(spaces_spec(0) == Seq::<char>::empty());
            assert(spaces_spec(1) =~= seq![' ']);
            assert(s@ =~= pad2_space(n as nat));
        }
        s
    } else {
        dec_u64(n)
    }
}

/// A duration given in seconds, in the display format of the timers.
pub fn duration_format(seconds: u64) -> (s: String)
    ensures
        s@ == fmt_duration(seconds as nat),
{
    proof {
        reveal_strlit("h ");
        reveal_strlit("m ");
        reveal_strlit("s");
        reveal_strlit("s    ");
        reveal_strlit("s        ");
    }
    let hours: u64 = seconds / 60 / 60;
    let minutes: u64 = (seconds / 60) % 60;
    let secs: u64 = seconds % 60;
    if hours > 0 {
        let mut s: String = dec_pad2_space(hours);
        let m: String = dec_pad2_zero(minutes);
        let sec: String = dec_pad2_zero(secs);
        s.append("h ");
        s.append(m.as_str());
        s.append("m ");
        s.append(sec.as_str());
        s.append("s");
        proof {
            assert(seconds as nat / 3600 == hours) by (nonlinear_arith)
                requires hours == seconds / 60 / 60;
            assert(s@ =~= fmt_duration(seconds as nat));
        }
        s
    } else if minutes > 0 {
        let mut s: String = dec_pad2_zero(minutes);
        let sec: String = dec_pad2_zero(secs);
        s.append("m ");
        s.append(sec.as_str());
        s.append("s    ");
        proof {
            assert(seconds as nat / 3600 == hours) by (nonlinear_arith)
                requires hours == seconds / 60 / 60;
            assert(s@ =~= fmt_duration(seconds as nat));
        }
        s
    } else {
        let mut s: String = dec_pad2_zero(secs);
        s.append("s        ");
        proof {
            assert(seconds as nat / 3600 == hours) by (nonlinear_arith)
                requires hours == seconds / 60 / 60;
            assert(s@ =~= fmt_duration(seconds as nat));
        }
        s
    }
}

/// Powers of ten.
pub open spec fn pow10(k: nat) -> int
    decreases k,
{
    if k == 0 {
        1
    } else {
        10 * pow10((k - 1) as nat)
    }
}

pub proof fn lemma_dec_len_bound(n: nat, k: nat)
    requires
        k >= 1,
        n < pow10(k),
    ensures
        1 <= dec_len(n) <= k,
    decreases n,
{
    if n < 10 {
    } else {
        reveal_with_fuel(pow10, 2);
        assert(pow10(1) == 10);
        if k == 1 {
            assert(false);
        }
        assert(n / 10 < pow10((k - 1) as nat)) by (nonlinear_arith)
            requires n < 10 * pow10((k - 1) as nat), n >= 10;
        lemma_dec_len_bound(n / 10, (k - 1) as nat);
    }
}

pub proof fn lemma_dec_len_u32(n: nat)
    requires
        n <= 0xFFFF_FFFF,
    ensures
        1 <= dec_len(n) <= 10,
{
    reveal_with_fuel(pow10, 11);
    assert(pow10(10) == 10_000_000_000);
    lemma_dec_len_bound(n, 10);
}

/// The number of decimal digits of `n`.
pub fn num_digits_u32(n: u32) -> (d: u16)
    ensures
        d as nat == dec_len(n as nat),
        1 <= d <= 10,
    decreases n,
{
    proof {
        lemma_dec_len_u32(n as nat);
    }
    if n < 10 {
        1
    } else {
        let rest: u16 = num_digits_u32(n / 10);
        1 + rest
    }
}

/// Which side of an overlong label text is cut away.
#[derive(Clone, Copy, Debug, PartialEq, Eq, Structural)]
pub enum OverflowCut {
    Left,
    Right,
}

/// A one-line text field at a fixed position, padded or truncated to its
/// width.
pub struct Label {
    pub width: u16,
    pub x: u16,
    pub y: u16,
    pub value: String,
    pub cut: OverflowCut,
}

/// A label's rendered text: padded with spaces when it fits, else truncated
/// on the cut side with a three-dot ellipsis.
pub open spec fn label_text(value: Seq<char>, width: int, cut: OverflowCut) -> Seq<char> {
    if value.len() < width {
        value + spaces_spec((width - value.len()) as nat)
    } else {
        match cut {
            OverflowCut::Left => seq!['.', '.', '.'] + value.subrange(
                value.len() - (width - 3),
                value.len() as int,
            ),
            OverflowCut::Right => value.subrange(0, width - 3) + seq!['.', '.', '.'],
        }
    }
}

impl Label {
    /// An empty label at a fixed position and width.
    pub fn new(x: u16, y: u16, width: u16, cut: OverflowCut) -> (l: Label)
        ensures
            l.x == x && l.y == y && l.width == width && l.cut == cut,
            l.value@ == Seq::<char>::empty(),
    {
        Label { width, x, y, value: String::new(), cut }
    }

    /// The label's text, exactly `width` characters.
    pub fn render(&self) -> (s: String)
        requires
            self.width >= 3,
        ensures
            s@ == label_text(self.value@, self.width as int, self.cut),
    {
        proof {
            reveal_strlit("...");
        }
        let len: usize = self.value.as_str().unicode_len();
        let w: usize = self.width as usize;
        if len < w {
            let mut s: String = self.value.clone();
            let pad: String = spaces(w - len);
            s.append(pad.as_str());
            proof {
                assert(s@ =~= label_text(self.value@, self.width as int, self.cut));
            }
            s
        } else {
            match self.cut {
                OverflowCut::Left => {
                    let start: usize = len - (w - 3);
                    let tail: &str = self.value.as_str().substring_char(start, len);
                    let mut s: String = String::from_str("...");
                    s.append(tail);
                    proof {
                        assert(s@ =~= label_text(self.value@, self.width as int, self.cut));
                    }
                    s
                },
                OverflowCut::Right => {
                    let head: &str = self.value.as_str().substring_char(0, w - 3);
                    let mut s: String = String::from_str(head);
                    s.append("...");
                    proof {
                        assert(s@ =~= label_text(self.value@, self.width as int, self.cut));
                    }
                    s
                },
            }
        }
    }
}

/// Division rounded to the nearest integer, halves away from zero.
pub open spec fn round_div(a: int, b: int) -> int {
    (2 * a + b) / (2 * b)
}

/// A horizontal bar showing `progress` out of `total`, with the percentage
/// centered in it.
pub struct ProgressBar {
    pub x: u16,
    pub y: u16,
    pub width: u16,
    pub total: u32,
    pub progress: u32,
}

/// The bar's full line of text: the rounded percentage, centered.
pub open spec fn bar_text(progress: int, total: int, width: int) -> Seq<char> {
    let pc = dec_spec(round_div(progress * 100, total) as nat) + seq!['%'];
    let lp = (width - pc.len()) / 2;
    spaces_spec(lp as nat) + pc + spaces_spec((width - pc.len() - lp) as nat)
}

/// Where the bar's line splits into its filled and unfilled halves.
pub open spec fn bar_division(progress: int, total: int, width: int) -> int {
    round_div(progress * width, total)
}

impl ProgressBar {
    /// An empty bar at a fixed position and width.
    pub fn new(x: u16, y: u16, width: u16, total: u32) -> (b: ProgressBar)
        ensures
            b.x == x && b.y == y && b.width == width && b.total == total,
            b.progress == 0,
    {
        ProgressBar { x, y, width, progress: 0, total }
    }

    /// The bar's line, split where the filled part ends: the first string is
    /// drawn highlighted, the second dimmed, at the division column.
    pub fn render(&self) -> (r: (String, String))
        requires
            self.total > 0,
            self.progress <= self.total,
            self.width >= 4,
        ensures
            r.0@ == bar_text(self.progress as int, self.total as int, self.width as int).subrange(
                0,
                bar_division(self.progress as int, self.total as int, self.width as int),
            ),
            r.1@ == bar_text(self.progress as int, self.total as int, self.width as int).subrange(
                bar_division(self.progress as int, self.total as int, self.width as int),
                self.width as int,
            ),
            r.0@.len() == bar_division(self.progress as int, self.total as int, self.width as int),
    {
        proof {
            reveal_strlit("%");
        }
        let p: u64 = self.progress as u64;
        let t: u64 = self.total as u64;
        let w: u64 = self.width as u64;
        let percent: u64 = (2 * (p * 100) + t) / (2 * t);
        proof {
            lemma_round_div_le(p as int, t as int, 100);
            reveal_with_fuel(pow10, 4);
            assert(pow10(3) == 1000);
            lemma_dec_len_bound(percent as nat, 3);
        }
        let mut pc: String = dec_u64(percent);
        pc.append("%");
        let plen: usize = pc.as_str().unicode_len();
        let lp: usize = (self.width as usize - plen) / 2;
        let rp: usize = self.width as usize - plen - lp;
        let mut line: String = spaces(lp);
        line.append(pc.as_str());
        let pad: String = spaces(rp);
        line.append(pad.as_str());
        proof {
            lemma_spaces_len(lp as nat);
            lemma_spaces_len(rp as nat);
            assert(line@ =~= bar_text(self.progress as int, self.total as int, self.width as int));
            assert(line@.len() == self.width as int);
            assert((p as int) * (w as int) <= 0xFFFF_FFFF * 0xFFFF) by (nonlinear_arith)
                requires p <= 0xFFFF_FFFFu64, w <= 0xFFFFu64, p >= 0, w >= 0;
        }
        let division: u64 = (2 * (p * w) + t) / (2 * t);
        proof {
            lemma_round_div_le(p as int, t as int, w as int);
        }
        let d: usize = division as usize;
        let left: &str = line.as_str().substring_char(0, d);
        let right: &str = line.as_str().substring_char(d, self.width as usize);
        (String::from_str(left), String::from_str(right))
    }
}

/// The rounded share `m * p / t` of a whole `m` never exceeds `m` when
/// `p <= t`.
pub proof fn lemma_round_div_le(p: int, t: int, m: int)
    by (nonlinear_arith)
    requires
        0 <= p <= t,
        t > 0,
        m >= 0,
    ensures
        0 <= round_div(p * m, t) <= m,
{
}

/// A right-aligned `value+1/maxval` counter.
pub struct RightCounter {
    pub width: u16,
    pub x: u16,
    pub y: u16,
    pub value: u32,
    pub maxval: u32,
}

/// The counter's rendered text.
pub open spec fn counter_text(value: int, maxval: int, width: int) -> Seq<char> {
    spaces_spec((width - dec_len((value + 1) as nat)) as nat) + dec_spec((value + 1) as nat)
        + seq!['/'] + dec_spec(maxval as nat)
}

impl RightCounter {
    /// The counter's width always covers the digits of its maximum.
    pub open spec fn wf(self) -> bool {
        self.width as nat == dec_len(self.maxval as nat)
    }

    /// A counter at zero, as wide as its maximum needs.
    pub fn new(x: u16, y: u16, maxval: u32) -> (c: RightCounter)
        ensures
            c.x == x && c.y == y && c.maxval == maxval,
            c.value == 0,
            c.wf(),
            c.width <= 10,
    {
        let max_width: u16 = num_digits_u32(maxval);
        RightCounter { width: max_width, x, y, value: 0, maxval }
    }

    /// How many columns the rendered counter takes.
    pub fn get_width(&self) -> (w: u16)
        requires
            self.width <= 10,
        ensures
            w == self.width * 2 + 1,
    {
        self.width * 2 + 1
    }

    /// The counter's text: the one-based value right-aligned over the width
    /// of the maximum, a slash, and the maximum.
    pub fn render(&self) -> (s: String)
        requires
            self.wf(),
            self.value < u32::MAX,
            dec_len((self.value + 1) as nat) <= self.width,
        ensures
            s@ == counter_text(self.value as int, self.maxval as int, self.width as int),
    {
        proof {
            reveal_strlit("/");
        }
        let strval: String = dec_u64((self.value + 1) as u64);
        let len: usize = strval.as_str().unicode_len();
        let mut s: String = spaces(self.width as usize - len);
        s.append(strval.as_str());
        s.append("/");
        let m: String = dec_u64(self.maxval as u64);
        s.append(m.as_str());
        proof {
            assert(s@ =~= counter_text(self.value as int, self.maxval as int, self.width as int));
        }
        s
    }
}

/// Estimated seconds left: the elapsed time scaled by the remaining share
/// of the work, at the pace so far; capped at the counter's range.
pub open spec fn remaining_secs(elapsed_ms: int, total: int, step: int) -> nat {
    let r = elapsed_ms * (total - step) / step / 1000;
    if r > u64::MAX {
        u64::MAX as nat
    } else {
        r as nat
    }
}

/// Wall-clock bookkeeping for a status block: when work started, when the
/// display last changed, and how far the work has come. All times are
/// caller-provided milliseconds from one monotonic clock.
pub struct Timer {
    pub step: u32,
    pub total: u32,
    pub start_ms: u64,
    pub last_ms: u64,
}

impl Timer {
    /// A timer for `total` steps of work, not yet started.
    pub fn new(total: u32) -> (t: Timer)
        ensures
            t.step == 0 && t.total == total,
            t.start_ms == 0 && t.last_ms == 0,
    {
        Timer { step: 0, total, start_ms: 0, last_ms: 0 }
    }

    /// Mark the start of the work.
    pub fn start(&mut self, now_ms: u64)
        ensures
            final(self).start_ms == now_ms && final(self).last_ms == now_ms,
            final(self).step == old(self).step && final(self).total == old(self).total,
    {
        self.start_ms = now_ms;
        self.last_ms = now_ms;
    }

    /// Whether the display's throttle interval has passed.
    pub fn needs_update(&self, now_ms: u64) -> (r: bool)
        requires
            now_ms >= self.last_ms,
        ensures
            r == (now_ms - self.last_ms > 500),
    {
        now_ms - self.last_ms > 500
    }

    /// Record progress and the moment the display changed.
    pub fn update(&mut self, step: u32, now_ms: u64)
        ensures
            final(self).step == step && final(self).last_ms == now_ms,
            final(self).start_ms == old(self).start_ms && final(self).total == old(self).total,
    {
        self.step = step;
        self.last_ms = now_ms;
    }

    /// The elapsed time since the start, formatted.
    pub fn get_elapsed(&self, now_ms: u64) -> (s: String)
        requires
            now_ms >= self.start_ms,
        ensures
            s@ == fmt_duration(((now_ms - self.start_ms) / 1000) as nat),
    {
        duration_format((now_ms - self.start_ms) / 1000)
    }

    /// The estimated remaining time at the pace so far, formatted; zero
    /// while no step has completed.
    pub fn get_remaining(&self, now_ms: u64) -> (s: String)
        requires
            now_ms >= self.start_ms,
            self.step <= self.total,
        ensures
            self.step == 0 ==> s@ == fmt_duration(0),
            self.step > 0 ==> s@ == fmt_duration(
                remaining_secs((now_ms - self.start_ms) as int, self.total as int, self.step as int),
            ),
    {
        if self.step == 0 {
            return duration_format(0);
        }
        let elapsed: u128 = (now_ms - self.start_ms) as u128;
        proof {
            assert((elapsed as int) * ((self.total - self.step) as int) <= (elapsed as int)
                * 0x1_0000_0000) by (nonlinear_arith)
                requires elapsed >= 0, 0 <= self.total - self.step < 0x1_0000_0000;
        }
        let rem: u128 = elapsed * ((self.total - self.step) as u128) / (self.step as u128) / 1000;
        let rem64: u64 = if rem > u64::MAX as u128 {
            u64::MAX
        } else {
            rem as u64
        };
        duration_format(rem64)
    }
}

/// `n` in decimal, left-padded with `'0'` to four characters.
pub open spec fn pad4_zero(n: nat) -> Seq<char> {
    if n < 10 {
        seq!['0', '0', '0'] + dec_spec(n)
    } else if n < 100 {
        seq!['0', '0'] + dec_spec(n)
    } else if n < 1000 {
        seq!['0'] + dec_spec(n)
    } else {
        dec_spec(n)
    }
}

/// A raw fixed-point distance as a percentage with four decimals,
/// space-padded to at least eight characters.
pub open spec fn percent_text(distance: int) -> Seq<char> {
    let x = distance * 1000000 / (crate::colors::SCALE as int);
    let body = dec_spec((x / 10000) as nat) + seq!['.'] + pad4_zero((x % 10000) as nat);
    if body.len() < 8 {
        spaces_spec((8 - body.len()) as nat) + body
    } else {
        body
    }
}

/// `n` in decimal, left-padded with `'0'` to four characters.
fn dec_pad4_zero(n: u64) -> (s: String)
    ensures
        s@ == pad4_zero(n as nat),
{
    proof {
        reveal_strlit("000");
        reveal_strlit("00");
        reveal_strlit("0");
    }
    let d: String = dec_u64(n);
    let mut s: String = if n < 10 {
        String::from_str("000")
    } else if n < 100 {
        String::from_str("00")
    } else if n < 1000 {
        String::from_str("0")
    } else {
        String::new()
    };
    s.append(d.as_str());
    proof {
        assert(s@ =~= pad4_zero(n as nat));
    }
    s
}

/// A raw fixed-point distance rendered as a percentage with four decimals.
pub fn format_percent(distance: u64) -> (s: String)
    ensures
        s@ == percent_text(distance as int),
{
    proof {
        reveal_strlit(".");
        assert((distance as int) * 1000000 <= 0xFFFF_FFFF_FFFF_FFFF * 1000000) by (nonlinear_arith)
            requires distance <= 0xFFFF_FFFF_FFFF_FFFFu64;
        lemma_scaled_percent_fits(distance as int);
    }
    let x128: u128 = (distance as u128) * 1000000 / (crate::colors::SCALE as u128);
    let x: u64 = x128 as u64;
    let mut body: String = dec_u64(x / 10000);
    body.append(".");
    let frac: String = dec_pad4_zero(x % 10000);
    body.append(frac.as_str());
    let blen: usize = body.as_str().unicode_len();
    if blen < 8 {
        let mut s: String = spaces(8 - blen);
        s.append(body.as_str());
        proof {
            assert(s@ =~= percent_text(distance as int));
        }
        s
    } else {
        proof {
            assert(body@ =~= percent_text(distance as int));
        }
        body
    }
}

/// The scaled percentage of any 64-bit distance fits in 64 bits: the scale
/// divisor is far larger than the million the value is multiplied by.
proof fn lemma_scaled_percent_fits(d: int)
    by (nonlinear_arith)
    requires
        0 <= d <= 0xFFFF_FFFF_FFFF_FFFF,
    ensures
        0 <= d * 1000000 / (crate::colors::SCALE as int) <= 0xFFFF_FFFF_FFFF_FFFF,
{
}

/// The image-loading status block: which file is being read, elapsed and
/// projected time, a file counter and a progress bar. The binary draws it;
/// this type owns every value and every string that appears in it.
pub struct StatusImageLoading {
    pub l_filename: Label,
    pub l_time_elapsed: Label,
    pub l_time_remaining: Label,
    pub c_counter: RightCounter,
    pub pbar: ProgressBar,
    pub timer: Timer,
}

impl StatusImageLoading {
    /// Lay the block out for a terminal `width` columns wide.
    pub fn new(width: u16, total_files: u32) -> (b: StatusImageLoading)
        requires
            width >= 64,
        ensures
            b.c_counter.maxval == total_files && b.c_counter.value == 0 && b.c_counter.wf(),
            b.c_counter.y == 4 && b.c_counter.x == width - (2 * b.c_counter.width + 1) - 2,
            b.c_counter.width <= 10,
            b.l_filename.x == 2 && b.l_filename.y == 4,
            b.l_filename.width == width - 6 - (2 * b.c_counter.width + 1),
            b.l_filename.cut == OverflowCut::Right,
            b.l_time_elapsed == (Label { width: 13, x: 11, y: 2, value: b.l_time_elapsed.value, cut: OverflowCut::Right }),
            b.l_time_elapsed.value@ == Seq::<char>::empty(),
            b.l_time_remaining == (Label { width: 13, x: (width / 2 + 11) as u16, y: 2, value: b.l_time_remaining.value, cut: OverflowCut::Right }),
            b.l_time_remaining.value@ == Seq::<char>::empty(),
            b.pbar == (ProgressBar { x: 2, y: 5, width: (width - 4) as u16, total: total_files, progress: 0 }),
            b.timer == (Timer { step: 0, total: total_files, start_ms: 0, last_ms: 0 }),
    {
        let mut counter: RightCounter = RightCounter::new(0, 4, total_files);
        let cw: u16 = counter.get_width();
        counter.x = width - cw - 2;
        StatusImageLoading {
            l_filename: Label::new(2, 4, width - 4 - 2 - cw, OverflowCut::Right),
            l_time_elapsed: Label::new(11, 2, 13, OverflowCut::Right),
            l_time_remaining: Label::new(width / 2 + 11, 2, 13, OverflowCut::Right),
            c_counter: counter,
            pbar: ProgressBar::new(2, 5, width - 4, total_files),
            timer: Timer::new(total_files),
        }
    }

    /// Record one file's progress: set every widget's value, including the
    /// formatted elapsed and remaining times, from the clock reading
    /// `now_ms`. Drawing the changed widgets is the caller's.
    pub fn update(&mut self, filename: &str, progress: u32, now_ms: u64)
        requires
            now_ms >= old(self).timer.start_ms,
            progress <= old(self).timer.total,
        ensures
            final(self).l_filename == (Label { value: final(self).l_filename.value, ..old(self).l_filename }),
            final(self).l_filename.value@ == filename@,
            final(self).c_counter == (RightCounter { value: progress, ..old(self).c_counter }),
            final(self).pbar == (ProgressBar { progress, ..old(self).pbar }),
            final(self).timer == (Timer { step: progress, last_ms: now_ms, ..old(self).timer }),
            final(self).l_time_elapsed == (Label { value: final(self).l_time_elapsed.value, ..old(self).l_time_elapsed }),
            final(self).l_time_elapsed.value@ == fmt_duration(
                ((now_ms - old(self).timer.start_ms) / 1000) as nat,
            ),
            final(self).l_time_remaining == (Label { value: final(self).l_time_remaining.value, ..old(self).l_time_remaining }),
            progress == 0 ==> final(self).l_time_remaining.value@ == fmt_duration(0),
            progress > 0 ==> final(self).l_time_remaining.value@ == fmt_duration(
                remaining_secs(
                    (now_ms - old(self).timer.start_ms) as int,
                    old(self).timer.total as int,
                    progress as int,
                ),
            ),
    {
        self.l_filename.value = filename.to_owned();
        self.c_counter.value = progress;
        self.pbar.progress = progress;
        self.timer.update(progress, now_ms);
        self.l_time_elapsed.value = self.timer.get_elapsed(now_ms);
        self.l_time_remaining.value = self.timer.get_remaining(now_ms);
    }
}

/// The palette-calculation status block: elapsed and projected time,
/// attempt and step counters, points moved, the convergence distance and a
/// progress bar.
pub struct StatusCalculating {
    pub l_time_elapsed: Label,
    pub l_time_remaining: Label,
    pub c_attempts: RightCounter,
    pub c_steps: RightCounter,
    pub l_moved: Label,
    pub l_distance: Label,
    pub pbar: ProgressBar,
    pub timer: Timer,
}

impl StatusCalculating {
    /// Lay the block out for a terminal `width` columns wide.
    pub fn new(width: u16, total_attempts: u32, total_steps: u32) -> (b: StatusCalculating)
        requires
            width >= 64,
            total_attempts * total_steps <= u32::MAX,
        ensures
            b.l_time_elapsed == (Label { width: 13, x: 11, y: 2, value: b.l_time_elapsed.value, cut: OverflowCut::Right }),
            b.l_time_elapsed.value@ == Seq::<char>::empty(),
            b.l_time_remaining == (Label { width: 13, x: (width / 2 + 11) as u16, y: 2, value: b.l_time_remaining.value, cut: OverflowCut::Right }),
            b.l_time_remaining.value@ == Seq::<char>::empty(),
            b.c_attempts.x == 11 && b.c_attempts.y == 4 && b.c_attempts.maxval == total_attempts
                && b.c_attempts.value == 0 && b.c_attempts.wf() && b.c_attempts.width <= 10,
            b.c_steps.x == width / 2 + 6 && b.c_steps.y == 4 && b.c_steps.maxval == total_steps
                && b.c_steps.value == 0 && b.c_steps.wf() && b.c_steps.width <= 10,
            b.l_moved.x == 16 && b.l_moved.y == 6 && b.l_moved.width == width / 2 - 18
                && b.l_moved.cut == OverflowCut::Left && b.l_moved.value@ == Seq::<char>::empty(),
            b.l_distance == (Label { width: 14, x: (width / 2 + 10) as u16, y: 6, value: b.l_distance.value, cut: OverflowCut::Right }),
            b.l_distance.value@ == Seq::<char>::empty(),
            b.pbar == (ProgressBar { x: 2, y: 8, width: (width - 4) as u16, total: (total_attempts * total_steps) as u32, progress: 0 }),
            b.timer == (Timer { step: 0, total: (total_attempts * total_steps) as u32, start_ms: 0, last_ms: 0 }),
    {
        let second_column: u16 = width / 2;
        StatusCalculating {
            l_time_elapsed: Label::new(11, 2, 13, OverflowCut::Right),
            l_time_remaining: Label::new(second_column + 11, 2, 13, OverflowCut::Right),
            c_attempts: RightCounter::new(2 + 9, 4, total_attempts),
            c_steps: RightCounter::new(second_column + 6, 4, total_steps),
            l_moved: Label::new(2 + 14, 6, second_column - 2 - 14 - 2, OverflowCut::Left),
            l_distance: Label::new(second_column + 10, 6, 14, OverflowCut::Right),
            pbar: ProgressBar::new(2, 8, width - 4, total_attempts * total_steps),
            timer: Timer::new(total_attempts * total_steps),
        }
    }

    /// Record one progress report: set every widget's value, including the
    /// formatted times, moved-points count and distance percentage, from the
    /// clock reading `now_ms`. Drawing the changed widgets is the caller's.
    pub fn update(
        &mut self,
        attempt: u32,
        step: u32,
        moved: u64,
        distance: u64,
        progress: u32,
        adjusted_total: u32,
        now_ms: u64,
    )
        requires
            now_ms >= old(self).timer.start_ms,
            progress <= adjusted_total,
        ensures
            final(self).timer == (Timer { step: progress, last_ms: now_ms, total: adjusted_total, ..old(self).timer }),
            final(self).c_attempts == (RightCounter { value: attempt, ..old(self).c_attempts }),
            final(self).c_steps == (RightCounter { value: step, ..old(self).c_steps }),
            final(self).l_moved == (Label { value: final(self).l_moved.value, ..old(self).l_moved }),
            final(self).l_moved.value@ == dec_spec(moved as nat),
            final(self).l_distance == (Label { value: final(self).l_distance.value, ..old(self).l_distance }),
            final(self).l_distance.value@ == percent_text(distance as int),
            final(self).pbar == (ProgressBar { total: adjusted_total, progress, ..old(self).pbar }),
            final(self).l_time_elapsed == (Label { value: final(self).l_time_elapsed.value, ..old(self).l_time_elapsed }),
            final(self).l_time_elapsed.value@ == fmt_duration(
                ((now_ms - old(self).timer.start_ms) / 1000) as nat,
            ),
            final(self).l_time_remaining == (Label { value: final(self).l_time_remaining.value, ..old(self).l_time_remaining }),
            progress == 0 ==> final(self).l_time_remaining.value@ == fmt_duration(0),
            progress > 0 ==> final(self).l_time_remaining.value@ == fmt_duration(
                remaining_secs(
                    (now_ms - old(self).timer.start_ms) as int,
                    adjusted_total as int,
                    progress as int,
                ),
            ),
    {
        self.timer.total = adjusted_total;
        self.timer.update(progress, now_ms);
        self.l_time_elapsed.value = self.timer.get_elapsed(now_ms);
        self.l_time_remaining.value = self.timer.get_remaining(now_ms);
        self.c_attempts.value = attempt;
        self.c_steps.value = step;
        self.l_moved.value = dec_u64(moved);
        self.l_distance.value = format_percent(distance);
        self.pbar.total = adjusted_total;
        self.pbar.progress = progress;
    }
}

} // verus!

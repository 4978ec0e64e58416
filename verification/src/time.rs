//! Spans of time in whole nanoseconds.
use crate::text;
use crate::text::push_decimal;
use vstd::prelude::*;

verus! {

/// The longest span: `u64::MAX` seconds and one nanosecond short of another.
pub const MAX_NANOS: u128 = 18_446_744_073_709_551_615_999_999_999;

/// A span of time. A point on the monotonic clock is the span since the
/// clock was first read.
#[derive(Clone, Copy, Debug, PartialEq, Eq, Structural)]
pub struct Duration {
    pub nanos: u128,
}

impl Duration {
    /// Whether the span is one that a number of seconds in `u64` can hold.
    pub open spec fn representable(self) -> bool {
        self.nanos <= MAX_NANOS
    }

    /// A span of whole seconds.
    pub fn from_secs(secs: u64) -> (r: Self)
        ensures
            r.nanos == secs * 1_000_000_000,
            r.representable(),
    {
        Duration { nanos: secs as u128 * 1_000_000_000 }
    }

    /// A span of whole milliseconds.
    pub fn from_millis(millis: u64) -> (r: Self)
        ensures
            r.nanos == millis * 1_000_000,
            r.representable(),
    {
        Duration { nanos: millis as u128 * 1_000_000 }
    }

    /// The whole milliseconds in the span.
    pub fn as_millis(&self) -> (r: u128)
        ensures
            r == self.nanos / 1_000_000,
    {
        self.nanos / 1_000_000
    }

    /// The span as text in its largest unit that is not zero, such as
    /// `30s`, `1.5s` or `100ms`.
    pub fn describe(&self) -> (r: String)
        ensures
            r@ == span_text(self.nanos as nat),
    {
        proof {
            reveal_with_fuel(power_of_ten, 9);
        }
        let mut out: String = String::new();
        let nanos: u128 = self.nanos;
        if nanos >= 1_000_000_000 {
            push_scaled(&mut out, nanos / 1_000_000_000, nanos % 1_000_000_000, 100_000_000);
            out.append("s");
        } else if nanos >= 1_000_000 {
            push_scaled(&mut out, nanos / 1_000_000, nanos % 1_000_000, 100_000);
            out.append("ms");
        } else if nanos >= 1_000 {
            push_scaled(&mut out, nanos / 1_000, nanos % 1_000, 100);
            out.append("\u{b5}s");
        } else {
            push_decimal(&mut out, nanos);
            out.append("ns");
        }
        assert(out@ =~= span_text(self.nanos as nat));
        out
    }
}

/// `std::time::Instant`: a reading of the machine's monotonic clock.
#[verifier::external_type_specification]
#[verifier::external_body]
pub struct ExInstant(std::time::Instant);

/// `std::time::Instant::now` reads the clock; nothing is claimed of the
/// reading.
pub assume_specification[ std::time::Instant::now ]() -> (r: std::time::Instant);

/// `std::time::Instant::elapsed` measures the time since a reading; nothing is
/// claimed of the outcome.
pub assume_specification[ std::time::Instant::elapsed ](reading: &std::time::Instant) -> (r:
    std::time::Duration);

/// `std::time::Duration::as_nanos` counts the nanoseconds of a span, of which
/// there are at most those of the longest span. A span is opaque, so how many
/// they are is left unsaid.
pub assume_specification[ std::time::Duration::as_nanos ](span: &std::time::Duration) -> (r: u128)
    ensures
        r <= MAX_NANOS,
;

/// The time that has passed since `start` was read off the clock. How long that
/// is the clock decides.
pub(crate) fn since(start: &std::time::Instant) -> (r: Duration)
    ensures
        r.representable(),
{
    let span: std::time::Duration = start.elapsed();
    Duration { nanos: span.as_nanos() }
}

/// `std::time::SystemTime`: a reading of the machine's wall clock.
#[verifier::external_type_specification]
#[verifier::external_body]
pub struct ExSystemTime(std::time::SystemTime);

/// `std::time::SystemTimeError`: how far a reading lies before another.
#[verifier::external_type_specification]
#[verifier::external_body]
pub struct ExSystemTimeError(std::time::SystemTimeError);

/// `std::time::SystemTime::now` reads the wall clock; nothing is claimed of
/// the reading.
pub assume_specification[ std::time::SystemTime::now ]() -> (r: std::time::SystemTime);

/// `std::time::SystemTime::duration_since` measures the time between two
/// readings; nothing is claimed of the outcome.
pub assume_specification[ std::time::SystemTime::duration_since ](
    reading: &std::time::SystemTime,
    earlier: std::time::SystemTime,
) -> (r: Result<std::time::Duration, std::time::SystemTimeError>);

/// `std::time::Duration::subsec_nanos` gives the part of a span beyond whole
/// seconds, in nanoseconds. A span is opaque, so how many they are is left
/// unsaid.
pub assume_specification[ std::time::Duration::subsec_nanos ](span: &std::time::Duration) -> (r:
    u32)
    ensures
        r < 1_000_000_000,
;

/// Reads `std::time::SystemTime::UNIX_EPOCH`, the time that wall clocks count
/// from.
#[verifier::external_body]
fn unix_epoch() -> (r: std::time::SystemTime) {
    std::time::SystemTime::UNIX_EPOCH
}

/// The nanoseconds within the second that the wall clock shows, and none where
/// it shows a time before the first that it can count. Which number within a
/// second it is the clock decides.
pub fn clock_subsec_nanos() -> (r: u32)
    ensures
        r < 1_000_000_000,
{
    let reading: std::time::SystemTime = std::time::SystemTime::now();
    match reading.duration_since(unix_epoch()) {
        Ok(span) => span.subsec_nanos(),
        Err(_) => 0,
    }
}

/// The digits of `rest` behind a decimal point, without trailing zeros;
/// `place` is the worth of the first digit.
pub open spec fn fraction_digits(rest: nat, place: nat) -> Seq<char>
    decreases place,
{
    if rest == 0 || place == 0 {
        Seq::empty()
    } else {
        seq![text::digit_char(rest / place)] + fraction_digits(rest % place, place / 10)
    }
}

/// A number with a fraction, which is left out where it is zero.
pub open spec fn scaled_text(whole: nat, rest: nat, place: nat) -> Seq<char> {
    if rest == 0 {
        text::decimal(whole)
    } else {
        text::decimal(whole) + "."@ + fraction_digits(rest, place)
    }
}

/// The text of a span of `nanos` nanoseconds.
pub open spec fn span_text(nanos: nat) -> Seq<char> {
    if nanos >= 1_000_000_000 {
        scaled_text(nanos / 1_000_000_000, nanos % 1_000_000_000, 100_000_000) + "s"@
    } else if nanos >= 1_000_000 {
        scaled_text(nanos / 1_000_000, nanos % 1_000_000, 100_000) + "ms"@
    } else if nanos >= 1_000 {
        scaled_text(nanos / 1_000, nanos % 1_000, 100) + "\u{b5}s"@
    } else {
        text::decimal(nanos) + "ns"@
    }
}

/// Whether `n` is a power of ten.
spec fn power_of_ten(n: nat) -> bool
    decreases n,
{
    n == 1 || (n > 0 && n % 10 == 0 && power_of_ten(n / 10))
}

/// Appends a number with a fraction.
fn push_scaled(out: &mut String, whole: u128, rest: u128, place: u128)
    requires
        rest == 0 || (rest < 10 * place && power_of_ten(place as nat)),
    ensures
        final(out)@ == old(out)@ + scaled_text(whole as nat, rest as nat, place as nat),
{
    push_decimal(out, whole);
    if rest > 0 {
        out.append(".");
        push_fraction(out, rest, place);
    }
    assert(out@ =~= old(out)@ + scaled_text(whole as nat, rest as nat, place as nat));
}

/// Appends the digits behind a decimal point.
fn push_fraction(out: &mut String, rest: u128, place: u128)
    requires
        rest == 0 || (rest < 10 * place && power_of_ten(place as nat)),
    ensures
        final(out)@ == old(out)@ + fraction_digits(rest as nat, place as nat),
    decreases place,
{
    if rest > 0 && place > 0 {
        let d: u128 = rest / place;
        let ghost before = out@;
        assert(d < 10) by (nonlinear_arith)
            requires
                d == rest / place,
                rest < 10 * place,
                place > 0,
        ;
        push_decimal(out, d);
        assert(out@ =~= before.push(text::digit_char(d as nat)));
        push_fraction(out, rest % place, place / 10);
        assert(out@ =~= before + fraction_digits(rest as nat, place as nat));
    } else {
        assert(out@ =~= old(out)@ + fraction_digits(rest as nat, place as nat));
    }
}

/// Ten to the power of `n`.
pub open spec fn ten_to(n: nat) -> nat
    decreases n,
{
    if n == 0 {
        1
    } else {
        10 * ten_to((n - 1) as nat)
    }
}

proof fn lemma_ten_to_is_positive(n: nat)
    ensures
        ten_to(n) > 0,
    decreases n,
{
    if n > 0 {
        lemma_ten_to_is_positive((n - 1) as nat);
    }
}

proof fn lemma_digits_with_first(c: char, s: Seq<char>)
    requires
        '0' <= c <= '9',
        forall|i: int| 0 <= i < s.len() ==> '0' <= #[trigger] s[i] <= '9',
    ensures
        text::digits_value(seq![c] + s) == (c as int - '0' as int) * ten_to(s.len())
            + text::digits_value(s),
    decreases s.len(),
{
    let all = seq![c] + s;
    if s.len() == 0 {
        assert(all.drop_last() =~= Seq::<char>::empty());
        assert(text::digits_value(Seq::<char>::empty()) == 0);
        assert(text::digits_value(s) == 0);
        assert(ten_to(0) == 1);
        assert((c as int - '0' as int) * 1 == c as int - '0' as int);
    } else {
        assert('0' <= s[s.len() - 1] <= '9');
        lemma_digits_with_first(c, s.drop_last());
        assert(all.drop_last() =~= seq![c] + s.drop_last());
        let d = c as int - '0' as int;
        let p = ten_to((s.len() - 1) as nat) as int;
        assert(d * (10 * p) == 10 * (d * p)) by (nonlinear_arith);
    }
}

/// The digits behind a decimal point write the fraction: as many as it takes,
/// without a zero at the end, read with zeros filled in up to the last place.
pub proof fn law_fraction_is_written_out(rest: nat, n: nat)
    requires
        rest < ten_to(n + 1),
    ensures
        ({
            let digits = fraction_digits(rest, ten_to(n));
            &&& digits.len() <= n + 1
            &&& forall|i: int| 0 <= i < digits.len() ==> '0' <= #[trigger] digits[i] <= '9'
            &&& rest == 0 ==> digits.len() == 0
            &&& rest > 0 ==> digits.len() > 0 && digits[digits.len() - 1] != '0'
            &&& text::digits_value(digits) * ten_to((n + 1 - digits.len()) as nat) == rest
        }),
    decreases n,
{
    lemma_ten_to_is_positive(n);
    let place = ten_to(n);
    let digits = fraction_digits(rest, place);
    assert(text::digits_value(Seq::<char>::empty()) == 0);
    if rest == 0 {
        assert(digits =~= Seq::<char>::empty());
        assert(0 * ten_to(n + 1) == 0);
    } else {
        let d = rest / place;
        let left = rest % place;
        assert(d < 10 && left < place && rest == d * place + left) by (nonlinear_arith)
            requires
                d == rest / place,
                left == rest % place,
                rest < 10 * place,
                place > 0,
        ;
        let c = text::digit_char(d);
        let tail = fraction_digits(left, place / 10);
        assert(digits == seq![c] + tail);
        if n == 0 {
            assert(left == 0);
            assert(tail =~= Seq::<char>::empty());
            assert(digits =~= seq![c]);
            lemma_digits_with_first(c, tail);
            assert(ten_to(0) == 1);
            assert(d * 1 == d);
        } else {
            let m = (n - 1) as nat;
            assert(place / 10 == ten_to(m));
            law_fraction_is_written_out(left, m);
            lemma_digits_with_first(c, tail);
            assert forall|i: int| 0 <= i < digits.len() implies '0' <= #[trigger] digits[i]
                <= '9' by {
                if i > 0 {
                    assert(digits[i] == tail[i - 1]);
                }
            }
            if left > 0 {
                assert(digits[digits.len() - 1] == tail[tail.len() - 1]);
            } else {
                assert(tail.len() == 0);
            }
            let k = tail.len();
            let gap = (n - k) as nat;
            lemma_ten_to_splits(k, gap);
            let v = text::digits_value(tail) as int;
            let g = ten_to(gap) as int;
            let t = ten_to(k) as int;
            assert((d * t + v) * g == d * (t * g) + v * g) by (nonlinear_arith);
        }
    }
}

proof fn lemma_ten_to_splits(a: nat, b: nat)
    ensures
        ten_to(a) * ten_to(b) == ten_to(a + b),
    decreases a,
{
    if a > 0 {
        lemma_ten_to_splits((a - 1) as nat, b);
        let x = ten_to((a - 1) as nat) as int;
        let y = ten_to(b) as int;
        assert((10 * x) * y == 10 * (x * y)) by (nonlinear_arith);
    } else {
        assert(1 * ten_to(b) == ten_to(b));
    }
}

/// The text of a span is a whole number, behind a point the fraction where
/// there is one, and the largest unit that the span reaches.
pub proof fn law_span_is_told_in_its_largest_unit(nanos: nat)
    ensures
        nanos < 1_000 ==> span_text(nanos) == text::decimal(nanos) + "ns"@,
        1_000 <= nanos < 1_000_000 ==> told_in(nanos, 1_000, 2, "\u{b5}s"@),
        1_000_000 <= nanos < 1_000_000_000 ==> told_in(nanos, 1_000_000, 5, "ms"@),
        1_000_000_000 <= nanos ==> told_in(nanos, 1_000_000_000, 8, "s"@),
{
    reveal_with_fuel(ten_to, 10);
    if 1_000 <= nanos < 1_000_000 {
        law_fraction_is_written_out(nanos % 1_000, 2);
    } else if 1_000_000 <= nanos < 1_000_000_000 {
        law_fraction_is_written_out(nanos % 1_000_000, 5);
    } else if 1_000_000_000 <= nanos {
        law_fraction_is_written_out(nanos % 1_000_000_000, 8);
    }
}

/// Whether the text of a span is its whole number of units, the fraction where
/// there is one, whose first digit is worth ten to the power of `n`, and the
/// unit's name.
pub open spec fn told_in(nanos: nat, unit: nat, n: nat, name: Seq<char>) -> bool {
    let rest = nanos % unit;
    &&& rest == 0 ==> span_text(nanos) == text::decimal(nanos / unit) + name
    &&& rest > 0 ==> exists|digits: Seq<char>|
        {
            &&& span_text(nanos) == text::decimal(nanos / unit) + "."@ + digits + name
            &&& #[trigger] text::digits_value(digits) * ten_to((n + 1 - digits.len()) as nat)
                == rest
            &&& 0 < digits.len() <= n + 1
            &&& digits[digits.len() - 1] != '0'
        }
}

} // verus!

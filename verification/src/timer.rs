//! Wall-clock stopwatch for render timing.
//!
//! The clock itself is outside the library: instants and durations are
//! opaque values obtained through the trusted wrappers below, and nothing
//! is promised about them. The decimal formatting of a microsecond count
//! is verified exactly.

use vstd::prelude::*;
use vstd::string::StringExecFns;

verus! {

#[verifier::external_type_specification]
#[verifier::external_body]
pub struct ExInstant(std::time::Instant);

/// Relies on std::time::Instant::now: a reading of the monotonic clock.
/// Nothing is promised about the value.
#[verifier::external_body]
fn instant_now() -> std::time::Instant {
    std::time::Instant::now()
}

/// Relies on Instant::saturating_duration_since: the elapsed time between
/// two readings, zero when they are out of order (never panics).
#[verifier::external_body]
fn saturating_since(later: &std::time::Instant, earlier: &std::time::Instant)
    -> std::time::Duration {
    later.saturating_duration_since(*earlier)
}

/// Relies on Duration::from_millis: a zero-length duration.
#[verifier::external_body]
fn duration_zero() -> std::time::Duration {
    std::time::Duration::from_millis(0)
}

/// Relies on Duration::as_micros: the whole microseconds of a duration.
#[verifier::external_body]
fn duration_as_micros(d: &std::time::Duration) -> u128 {
    d.as_micros()
}

#[derive(Clone, Copy)]
pub struct Timer {
    pub start: Option<std::time::Instant>,
    pub end: Option<std::time::Instant>,
}

impl Timer {
    pub fn new() -> (r: Timer)
        ensures
            r.start is None,
            r.end is None,
    {
        Timer { start: None, end: None }
    }

    pub fn start(&mut self)
        ensures
            final(self).start is Some,
            final(self).end is None,
    {
        self.start = Some(instant_now());
        self.end = None;
    }

    pub fn stop(&mut self)
        ensures
            final(self).end is Some,
            final(self).start == old(self).start,
    {
        self.end = Some(instant_now());
    }

    /// Elapsed time between start and stop (or now); zero when the timer
    /// was never started.
    pub fn elapsed(&self) -> std::time::Duration {
        match &self.start {
            Some(s) => match &self.end {
                Some(e) => saturating_since(e, s),
                None => {
                    let now = instant_now();
                    saturating_since(&now, s)
                },
            },
            None => duration_zero(),
        }
    }

    /// Elapsed milliseconds with three decimals, as text.
    pub fn elapsed_ms_3dp(&self) -> String {
        let d = self.elapsed();
        let micros = duration_as_micros(&d);
        fmt_micros_as_ms_3dp(micros)
    }
}

/// The decimal digits of `n` (most significant first).
pub open spec fn dec_digits(n: int) -> Seq<char>
    decreases n,
{
    if n < 0 {
        Seq::empty()
    } else if n < 10 {
        seq![digit_char(n)]
    } else {
        dec_digits(n / 10) + seq![digit_char(n % 10)]
    }
}

/// One decimal digit as a character.
pub open spec fn digit_char(d: int) -> char {
    if d == 0 {
        '0'
    } else if d == 1 {
        '1'
    } else if d == 2 {
        '2'
    } else if d == 3 {
        '3'
    } else if d == 4 {
        '4'
    } else if d == 5 {
        '5'
    } else if d == 6 {
        '6'
    } else if d == 7 {
        '7'
    } else if d == 8 {
        '8'
    } else {
        '9'
    }
}

/// The text for a microsecond count shown as milliseconds with three
/// decimals: `<ms>.<micros padded to three digits>`.
pub open spec fn ms_3dp(micros: int) -> Seq<char> {
    dec_digits(micros / 1000) + seq!['.'] + seq![
        digit_char((micros / 100) % 10),
        digit_char((micros / 10) % 10),
        digit_char(micros % 10),
    ]
}

/// Append one digit character.
fn push_digit(s: &mut String, d: u128)
    requires
        d < 10,
    ensures
        final(s)@ == old(s)@ + seq![digit_char(d as int)],
{
    let ghost before = s@;
    if d == 0 {
        s.append("0");
        proof {
            reveal_strlit("0");
            assert(s@ =~= before + seq![digit_char(d as int)]);
        }
    } else if d == 1 {
        s.append("1");
        proof {
            reveal_strlit("1");
            assert(s@ =~= before + seq![digit_char(d as int)]);
        }
    } else if d == 2 {
        s.append("2");
        proof {
            reveal_strlit("2");
            assert(s@ =~= before + seq![digit_char(d as int)]);
        }
    } else if d == 3 {
        s.append("3");
        proof {
            reveal_strlit("3");
            assert(s@ =~= before + seq![digit_char(d as int)]);
        }
    } else if d == 4 {
        s.append("4");
        proof {
            reveal_strlit("4");
            assert(s@ =~= before + seq![digit_char(d as int)]);
        }
    } else if d == 5 {
        s.append("5");
        proof {
            reveal_strlit("5");
            assert(s@ =~= before + seq![digit_char(d as int)]);
        }
    } else if d == 6 {
        s.append("6");
        proof {
            reveal_strlit("6");
            assert(s@ =~= before + seq![digit_char(d as int)]);
        }
    } else if d == 7 {
        s.append("7");
        proof {
            reveal_strlit("7");
            assert(s@ =~= before + seq![digit_char(d as int)]);
        }
    } else if d == 8 {
        s.append("8");
        proof {
            reveal_strlit("8");
            assert(s@ =~= before + seq![digit_char(d as int)]);
        }
    } else {
        s.append("9");
        proof {
            reveal_strlit("9");
            assert(s@ =~= before + seq![digit_char(d as int)]);
        }
    }
}

/// Append the decimal digits of `n`.
fn push_decimal(s: &mut String, n: u128)
    ensures
        final(s)@ == old(s)@ + dec_digits(n as int),
    decreases n,
{
    if n < 10 {
        push_digit(s, n);
    } else {
        push_decimal(s, n / 10);
        push_digit(s, n % 10);
        proof {
            assert(s@ =~= old(s)@ + dec_digits(n as int));
        }
    }
}

/// Milliseconds with three decimals, exactly as `ms_3dp` describes.
pub fn fmt_micros_as_ms_3dp(micros: u128) -> (r: String)
    ensures
        r@ == ms_3dp(micros as int),
{
    let mut s = String::new();
    push_decimal(&mut s, micros / 1000);
    s.append(".");
    proof {
        reveal_strlit(".");
    }
    push_digit(&mut s, (micros / 100) % 10);
    push_digit(&mut s, (micros / 10) % 10);
    push_digit(&mut s, micros % 10);
    proof {
        assert(s@ =~= ms_3dp(micros as int));
    }
    s
}

} // verus!

//! Readings of the local clock, taken through `chrono`, and the timestamp
//! text that a rerun request stores.

use vstd::prelude::*;

use crate::decimal::{
    all_digits, digits_value, lemma_decimal, lemma_decimal_leading, push_signed_decimal,
    signed_decimal,
};
use crate::text::string_from_chars;

verus! {

/// The number of seconds in a day (`chrono::TimeDelta::try_days(1)`).
pub const SECS_PER_DAY: i64 = 86400;

/// The current time, in milliseconds since the Unix epoch.
///
/// Trusted: wraps `chrono::Local::now` and reads the result with
/// `DateTime::timestamp_millis`. Nothing is claimed of the number: it is
/// whatever the system clock reads.
#[verifier::external_body]
pub fn now_millis() -> i64 {
    chrono::Local::now().timestamp_millis()
}

/// The Unix time in whole seconds (rounded down) of an instant given in
/// milliseconds, as `DateTime::timestamp` reads it.
pub open spec fn unix_seconds(millis: i64) -> int {
    millis as int / 1000
}

/// The text stored as the `timestamp` of a rerun command at the instant
/// `millis`: the Unix time of the instant one day earlier, in decimal (`%s`,
/// chrono's timestamp format, applied to `now - TimeDelta::try_days(1)`).
pub open spec fn day_before_stamp(millis: i64) -> Seq<char> {
    signed_decimal(unix_seconds(millis) - SECS_PER_DAY)
}

/// The seconds (rounded down) of an instant given in milliseconds.
pub fn seconds_of(millis: i64) -> (s: i64)
    ensures
        s == unix_seconds(millis),
{
    if millis >= 0 {
        millis / 1000
    } else {
        let pos: i64 = -(millis + 1);
        let q: i64 = pos / 1000;
        proof {
            assert(pos == -(millis as int) - 1);
            assert((millis as int) / 1000 == -(q as int) - 1) by (nonlinear_arith)
                requires
                    pos == -(millis as int) - 1,
                    q == pos / 1000,
                    pos >= 0,
            ;
        }
        -q - 1
    }
}

/// The timestamp text of the instant one day before `millis`.
pub fn day_before_text(millis: i64) -> (text: String)
    ensures
        text@ == day_before_stamp(millis),
{
    let secs = seconds_of(millis);
    let mut out: Vec<char> = Vec::new();
    push_signed_decimal(&mut out, secs - SECS_PER_DAY);
    string_from_chars(&out)
}

/// Law: the timestamp stored by a rerun at the instant `millis` is the Unix
/// time, in whole seconds, of the instant one day earlier, in plain decimal:
/// digits without a leading zero, after a `-` when that time is before the
/// epoch.
pub proof fn lemma_day_before_stamp(millis: i64)
    ensures
        ({
            let stamp = day_before_stamp(millis);
            let secs = millis as int / 1000 - 86400;
            let digits = if secs < 0 {
                stamp.drop_first()
            } else {
                stamp
            };
            &&& secs < 0 ==> stamp.len() > 0 && stamp[0] == '-'
            &&& digits.len() > 0
            &&& all_digits(digits)
            &&& digits_value(digits) == if secs < 0 {
                -secs
            } else {
                secs
            }
            &&& digits[0] == '0' ==> digits.len() == 1
        }),
{
    let secs = millis as int / 1000 - 86400;
    let m: nat = if secs < 0 {
        (-secs) as nat
    } else {
        secs as nat
    };
    lemma_decimal(m);
    lemma_decimal_leading(m);
    if secs < 0 {
        assert((seq!['-'] + crate::decimal::decimal(m)).drop_first() =~= crate::decimal::decimal(m));
    }
    if m == 0 {
        assert(crate::decimal::decimal(0) == seq![crate::decimal::digit_char(0)]);
    }
}

/// Law: the Unix time in seconds of an instant is its time in milliseconds
/// rounded down to a whole second, also before the epoch.
pub proof fn lemma_unix_seconds(millis: i64)
    ensures
        unix_seconds(millis) * 1000 <= millis < unix_seconds(millis) * 1000 + 1000,
{
}

} // verus!

//! What settings come to: numbers and how they are read, spans of time and how
//! they are written, and what holds where nothing is said.
use crate::decimal::{
    decimal, decimal_round_trip, digits_value, lemma_decimal_value, parsed, parsed_up_to,
    signed_up_to,
};
use crate::limit::{
    interval_for, setting_or, wait_for, Span, NANOS_PER_MILLISECOND, NANOS_PER_SECOND,
};
use crate::settings::{
    address, loaded, server_limit, shown_value, span_text, value_or,
    DEFAULT_CACHE_SIZE, DEFAULT_REQUEST_SIZE, DEFAULT_TTL,
};
use crate::types::Config;
use vstd::prelude::*;
use vstd::utf8::encode_utf8;

verus! {

/// A character is a decimal digit.
pub open spec fn is_digit(c: char) -> bool {
    '0' <= c <= '9'
}

/// Only decimal digits.
pub open spec fn all_digits(s: Seq<char>) -> bool {
    forall|i: int| 0 <= i < s.len() ==> is_digit(#[trigger] s[i])
}

/// Numbers are written in base ten: one more digit at the end, and a single
/// digit for a number below ten.
pub proof fn numbers_are_written_in_base_ten(n: nat, d: nat)
    requires
        d < 10,
    ensures
        decimal(d) == seq![(48 + d) as char],
        n > 0 ==> decimal(10 * n + d) == decimal(n) + seq![(48 + d) as char],
{
    if n > 0 {
        assert((10 * n + d) / 10 == n && (10 * n + d) % 10 == d);
        assert(decimal(n).push((48 + d) as char) =~= decimal(n) + seq![(48 + d) as char]);
    }
}

/// A text of digits has a value, and no other text has.
proof fn lemma_digits(s: Seq<char>)
    ensures
        digits_value(s) is Some <==> all_digits(s),
    decreases s.len(),
{
    if s.len() > 0 {
        let before = s.drop_last();
        lemma_digits(before);
        if all_digits(s) {
            assert(is_digit(s[s.len() - 1]));
            assert forall|i: int| 0 <= i < before.len() implies is_digit(#[trigger] before[i]) by {
                assert(is_digit(s[i]));
            }
            assert(digits_value(before) is Some);
            assert(s.last() == s[s.len() - 1]);
        }
        if digits_value(s) is Some {
            assert(digits_value(before) is Some);
            assert(is_digit(s.last()));
            assert forall|i: int| 0 <= i < s.len() implies is_digit(#[trigger] s[i]) by {
                if i < before.len() {
                    assert(is_digit(before[i]));
                }
            }
        }
    }
}

/// A zero before digits does not count.
proof fn lemma_leading_zero(s: Seq<char>)
    ensures
        digits_value(seq!['0'] + s) == digits_value(s),
    decreases s.len(),
{
    let all = seq!['0'] + s;
    if s.len() == 0 {
        assert(all.drop_last() =~= Seq::<char>::empty());
        assert(digits_value(Seq::<char>::empty()) == Some(0nat));
    } else {
        assert(all.drop_last() =~= seq!['0'] + s.drop_last());
        assert(all.last() == s.last());
        lemma_leading_zero(s.drop_last());
    }
}

/// Numbers are read as they are written, with zeros before them or a plus sign,
/// and nothing else is read as a number.
pub proof fn numbers_are_read_as_written(n: nat, s: Seq<char>)
    ensures
        parsed(decimal(n)) == Some(n),
        parsed(seq!['+'] + decimal(n)) == Some(n),
        s.len() > 0 && all_digits(s) ==> parsed(seq!['0'] + s) == parsed(s) && parsed(s) is Some,
        s.len() == 0 ==> parsed(s) is None,
        s.len() > 0 && s[0] != '+' && !all_digits(s) ==> parsed(s) is None,
        s.len() == 0 || !all_digits(s) ==> parsed(seq!['+'] + s) is None,
{
    decimal_round_trip(n);
    lemma_decimal_value(n);
    lemma_digits(s);
    lemma_leading_zero(s);
    assert((seq!['+'] + decimal(n)).skip(1) =~= decimal(n));
    assert((seq!['+'] + s).skip(1) =~= s);
    assert((seq!['0'] + s).skip(0) =~= seq!['0'] + s);
    if s.len() > 0 && all_digits(s) {
        assert(is_digit(s[0]));
        assert(s[0] != '+');
    }
}

/// Signed numbers are read as they are written, within their bounds.
pub proof fn signed_numbers_are_read_as_written(n: nat, s: Seq<char>, max: int)
    requires
        max >= 0,
    ensures
        n <= max ==> signed_up_to(decimal(n), max) == Some(n as int),
        n > max ==> signed_up_to(decimal(n), max) is None,
        n <= max + 1 ==> signed_up_to(seq!['-'] + decimal(n), max) == Some(-(n as int)),
        n > max + 1 ==> signed_up_to(seq!['-'] + decimal(n), max) is None,
        s.len() == 0 || !all_digits(s) ==> signed_up_to(seq!['-'] + s, max) is None,
        s.len() > 0 && s[0] != '-' ==> signed_up_to(s, max) == (if parsed(s) is Some && parsed(s)->0
            <= max {
            Some(parsed(s)->0 as int)
        } else {
            None
        }),
        s.len() == 0 ==> signed_up_to(s, max) is None,
{
    decimal_round_trip(n);
    lemma_decimal_value(n);
    lemma_digits(s);
    assert((seq!['-'] + decimal(n)).skip(1) =~= decimal(n));
    assert((seq!['-'] + s).skip(1) =~= s);
}

/// A setting counts where it is a number within its bounds, and the default
/// counts where it is not, or is missing.
pub proof fn settings_count_where_they_are_numbers(s: &str, max: nat, default: nat)
    ensures
        setting_or(None, max, default) == default,
        parsed(s@) is Some && parsed(s@)->0 <= max ==> setting_or(Some(s), max, default)
            == parsed(s@)->0,
        parsed(s@) is None || parsed(s@)->0 > max ==> setting_or(Some(s), max, default) == default,
{
}

/// Where nothing is said, an entry of the cache is kept for three days, the
/// cache holds a hundred megabytes, a request may have a gigabyte, and requests
/// are a tenth of a second apart.
pub proof fn defaults_hold_where_nothing_is_said()
    ensures
        DEFAULT_TTL == 3 * 24 * 60 * 60,
        DEFAULT_CACHE_SIZE == 100,
        DEFAULT_REQUEST_SIZE == 1024 * 1024 * 1024,
        server_limit(None) == 1024 * 1024 * 1024,
        interval_for(None) == Some(100u64),
        NANOS_PER_SECOND == 1000 * NANOS_PER_MILLISECOND,
        NANOS_PER_MILLISECOND == 1000 * 1000,
{
}

/// The interval between requests is the number of milliseconds that was set.
/// Zero switches it off, and what is no number counts as a tenth of a second.
pub proof fn intervals_are_as_set(s: &str)
    ensures
        ({
            let v = parsed(s@);
            &&& v == Some(0nat) ==> interval_for(Some(s)) is None
            &&& v is Some && 0 < v->0 <= u64::MAX ==> interval_for(Some(s)) == Some(v->0 as u64)
            &&& v is None || v->0 > u64::MAX ==> interval_for(Some(s)) == Some(100u64)
        }),
{
}

/// A request waits exactly for what is missing of the interval, and not at all
/// where nothing is missing.
pub proof fn requests_wait_for_what_is_missing(interval: u64, elapsed: Span)
    requires
        elapsed.nanos < 1000000000,
    ensures
        ({
            let passed = elapsed.secs * 1000000000 + elapsed.nanos;
            let due = interval * 1000000;
            &&& passed >= due ==> wait_for(interval, elapsed) == 0
            &&& passed < due ==> passed + wait_for(interval, elapsed) == due
            &&& elapsed.length() == passed
        }),
{
}

/// The limit of the server is the signed number that was set, within 32 bits,
/// and a gigabyte where none was.
pub proof fn server_limits_are_as_set(s: &str)
    ensures
        server_limit(Some(s)) == (if signed_up_to(s@, 0x7fff_ffff) is Some {
            signed_up_to(s@, 0x7fff_ffff)->0
        } else {
            1073741824
        }),
{
}

/// A span of days, hours, minutes and seconds is written with these numbers,
/// from the largest unit that is not zero on.
pub proof fn spans_are_written_by_unit(days: nat, hours: nat, minutes: nat, seconds: nat)
    requires
        hours < 24,
        minutes < 60,
        seconds < 60,
    ensures
        ({
            let text = span_text(days * 86400 + hours * 3600 + minutes * 60 + seconds);
            let s = decimal(seconds) + " seconds"@;
            let m = decimal(minutes) + " minutes "@ + s;
            let h = decimal(hours) + " hours "@ + m;
            let d = decimal(days) + " days "@ + h;
            &&& days > 0 ==> text == d
            &&& days == 0 && hours > 0 ==> text == h
            &&& days == 0 && hours == 0 && minutes > 0 ==> text == m
            &&& days == 0 && hours == 0 && minutes == 0 ==> text == s
        }),
{
    let total = days * 86400 + hours * 3600 + minutes * 60 + seconds;
    let rest = hours * 3600 + minutes * 60 + seconds;
    assert(rest < 86400);
    assert(total / 86400 == days && total % 86400 == rest);
    assert(rest / 3600 == hours && rest % 3600 == minutes * 60 + seconds);
    assert(total % 3600 == minutes * 60 + seconds);
    assert((minutes * 60 + seconds) / 60 == minutes);
    assert(total % 60 == seconds);
}

/// Of the password the log shows a star for each byte; any other value it shows
/// as it is.
pub proof fn only_the_password_is_hidden(key: Seq<char>, value: Seq<char>)
    ensures
        key != "ADMIN_PASSWORD"@ ==> shown_value(key, value) == value,
        shown_value("ADMIN_PASSWORD"@, value).len() == encode_utf8(value).len(),
        forall|i: int|
            0 <= i < shown_value("ADMIN_PASSWORD"@, value).len() ==> (#[trigger] shown_value(
                "ADMIN_PASSWORD"@,
                value,
            )[i]) == '*',
{
}

/// A variable has its value, or the default where it is missing; the address is
/// the host and the port with a colon between them.
pub proof fn values_are_taken_as_they_are(
    value: &str,
    default: Seq<char>,
    host: Seq<char>,
    port: Seq<char>,
)
    ensures
        value_or(Some(value), default) == value@,
        value_or(None, default) == default,
        address(host, port) == host + seq![':'] + port,
{
    reveal_strlit(":");
    assert(":"@ =~= seq![':']);
}

/// A configuration file is taken as it is; a missing one switches everything
/// off; a failure keeps its text.
pub proof fn configuration_files_are_taken_as_they_are(config: Config, e: String)
    ensures
        loaded(Some(Ok(Ok(config)))) == Ok::<_, Seq<char>>(config@),
        loaded(None) is Ok,
        loaded(None)->Ok_0.enable != Some(true),
        loaded(None)->Ok_0.models.len() == 0,
        loaded(None)->Ok_0.custom_models is None,
        loaded(Some(Ok(Err(e)))) == Err::<crate::types::ConfigView, _>(
            "Failed to parse models.yaml: "@ + e@,
        ),
        loaded(Some(Err(e))) == Err::<crate::types::ConfigView, _>(
            "Failed to read models.yaml: "@ + e@,
        ),
{
}

/// A number within bounds is read, and one beyond them is not.
pub proof fn bounds_are_kept(s: Seq<char>, max: nat)
    ensures
        parsed(s) is Some && parsed(s)->0 <= max ==> parsed_up_to(s, max) == parsed(s),
        parsed(s) is None || parsed(s)->0 > max ==> parsed_up_to(s, max) is None,
{
}

} // verus!

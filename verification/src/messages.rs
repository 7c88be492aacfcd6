//! Decoding of StandX stream messages: routing by channel and timestamps.

use vstd::prelude::*;
use vstd::string::StringExecFns;
use vstd::string::StrSliceExecFns;
use vstd::string::StringSliceAdditionalSpecFns;

verus! {

/// `serde_json::Error`, carried opaquely in `MessageError::JsonError`.
#[verifier::external_type_specification]
#[verifier::external_body]
pub struct ExJsonError(serde_json::Error);

/// `std::time::SystemTime`, an opaque wall-clock instant.
#[verifier::external_type_specification]
#[verifier::external_body]
pub struct ExSystemTime(std::time::SystemTime);

/// Errors met while decoding a stream message.
pub enum MessageError {
    JsonError(serde_json::Error),
    InvalidPrice(String),
    InvalidQuantity(String),
    InvalidTimestamp(String),
    UnknownChannel(String),
    MissingField(String),
}

/// What chrono makes of an RFC 3339 text: `None` when
/// `chrono::DateTime::parse_from_rfc3339` refuses it, otherwise the parsed instant's
/// `timestamp_nanos_opt()` (`None` when it lies outside the nanosecond range of `i64`).
pub uninterp spec fn rfc3339_nanos(text: Seq<char>) -> Option<Option<i64>>;

/// `chrono::DateTime::parse_from_rfc3339`, the parsed instant read back with
/// `DateTime::timestamp_nanos_opt`. Claimed: the result is `rfc3339_nanos` of the text,
/// i.e. it depends on the text alone.
#[verifier::external_body]
fn parse_rfc3339_nanos(text: &str) -> (res: Option<Option<i64>>)
    ensures
        res == rfc3339_nanos(text@),
{
    chrono::DateTime::parse_from_rfc3339(text).ok().map(|dt| dt.timestamp_nanos_opt())
}

/// The value, or `0` when there is none.
pub open spec fn value_or_zero(n: Option<i64>) -> i64 {
    match n {
        Some(v) => v,
        None => 0,
    }
}

/// What `parse_timestamp` answers for a text: its RFC 3339 reading; failing that, when
/// the text does not end in `Z` and its UTF-8 encoding is shorter than 64 bytes, the
/// reading of the text with `Z` appended; `None` when neither reading succeeds.
pub open spec fn timestamp_of(text: Seq<char>) -> Option<i64> {
    match rfc3339_nanos(text) {
        Some(n) => Some(value_or_zero(n)),
        None => {
            if retries_as_utc(text) {
                match rfc3339_nanos(text.push('Z')) {
                    Some(n) => Some(value_or_zero(n)),
                    None => None,
                }
            } else {
                None
            }
        },
    }
}

/// Whether a text that chrono refuses is tried again with `Z` (UTC) appended: it does
/// not end in `Z` and is shorter than 64 bytes.
pub open spec fn retries_as_utc(text: Seq<char>) -> bool {
    !(text.len() > 0 && text.last() == 'Z') && vstd::utf8::encode_utf8(text).len() < 64
}

pub fn retry_as_utc(s: &str) -> (res: bool)
    ensures
        res == retries_as_utc(s@),
{
    let count = s.unicode_len();
    let ends_with_z = count > 0 && s.get_char(count - 1) == 'Z';
    let byte_len = s.as_bytes().len();
    !ends_with_z && byte_len < 64
}

/// The timestamp of `s` from chrono's readings of `s` itself and of `s` with `Z`
/// appended (`None` when that reading was not made or failed): the first reading that
/// succeeded, with 0 for an instant outside the `i64` nanosecond range, or
/// `InvalidTimestamp` carrying `s`.
pub fn timestamp_from_readings(
    s: &str,
    direct: Option<Option<i64>>,
    as_utc: Option<Option<i64>>,
) -> (res: Result<i64, MessageError>)
    ensures
        direct matches Some(n) ==> res == Ok::<i64, MessageError>(value_or_zero(n)),
        direct is None ==> (as_utc matches Some(n) ==> res == Ok::<i64, MessageError>(
            value_or_zero(n),
        )),
        direct is None ==> (as_utc is None ==> (res matches Err(MessageError::InvalidTimestamp(t))
            && t@ == s@)),
{
    match direct {
        Some(n) => Ok(match n {
            Some(v) => v,
            None => 0,
        }),
        None => match as_utc {
            Some(n) => Ok(match n {
                Some(v) => v,
                None => 0,
            }),
            None => Err(MessageError::InvalidTimestamp(String::from_str(s))),
        },
    }
}

/// Parses an RFC 3339 timestamp into nanoseconds since the Unix epoch; a missing
/// trailing `Z` (UTC) is tolerated.
pub fn parse_timestamp(s: &str) -> (res: Result<i64, MessageError>)
    ensures
        rfc3339_nanos(s@) is None && !(s@.len() > 0 && s@.last() == 'Z')
            && vstd::utf8::encode_utf8(s@).len() < 64 ==> (rfc3339_nanos(s@.push('Z')) matches Some(
            n,
        ) ==> res == Ok::<i64, MessageError>(
            match n {
                Some(v) => v,
                None => 0,
            },
        )),
        match res {
            Ok(n) => timestamp_of(s@) == Some(n),
            Err(e) => {
                &&& timestamp_of(s@) is None
                &&& e matches MessageError::InvalidTimestamp(t) && t@ == s@
            },
        },
{
    let direct = parse_rfc3339_nanos(s);
    let mut as_utc: Option<Option<i64>> = None;
    if direct.is_none() && retry_as_utc(s) {
        let mut with_z = String::from_str(s);
        with_z.append("Z");
        proof {
            reveal_strlit("Z");
            assert(with_z@ =~= s@.push('Z'));
        }
        as_utc = parse_rfc3339_nanos(with_z.as_str());
    }
    timestamp_from_readings(s, direct, as_utc)
}

/// The part of a JSON `time` field that the decoder reads.
pub enum TimeValue {
    /// A JSON number, with its value when it is an integer that fits in `i64`.
    Number(Option<i64>),
    /// A JSON string.
    Text(String),
    /// Anything else.
    Other,
}

/// `ms * 1_000_000`, saturated at the bounds of `i64`.
pub open spec fn millis_to_nanos(ms: i64) -> i64 {
    let n = ms * 1_000_000;
    if n > i64::MAX {
        i64::MAX
    } else if n < i64::MIN {
        i64::MIN
    } else {
        n as i64
    }
}

/// Millisecond stamps become nanoseconds: exactly `ms * 1_000_000` whenever that fits
/// in `i64`, keeping the sign, and the nearest bound of `i64` otherwise.
pub proof fn lemma_millis_to_nanos(ms: i64)
    ensures
        i64::MIN <= ms * 1_000_000 <= i64::MAX ==> millis_to_nanos(ms) == ms * 1_000_000,
        ms * 1_000_000 > i64::MAX ==> millis_to_nanos(ms) == i64::MAX,
        ms * 1_000_000 < i64::MIN ==> millis_to_nanos(ms) == i64::MIN,
        ms > 0 ==> millis_to_nanos(ms) > 0,
        ms < 0 ==> millis_to_nanos(ms) < 0,
        ms == 0 ==> millis_to_nanos(ms) == 0,
{
}

/// Converts a `time` field to nanoseconds: numbers are milliseconds (a number that is
/// no `i64` counts as 0), strings are RFC 3339, anything else is 0.
pub fn parse_timestamp_value(val: &TimeValue) -> (res: Result<i64, MessageError>)
    ensures
        val matches TimeValue::Number(n) ==> res == Ok::<i64, MessageError>(
            millis_to_nanos(value_or_zero(*n)),
        ),
        val matches TimeValue::Text(t) ==> match res {
            Ok(n) => timestamp_of(t@) == Some(n),
            Err(e) => {
                &&& timestamp_of(t@) is None
                &&& e matches MessageError::InvalidTimestamp(x) && x@ == t@
            },
        },
        val matches TimeValue::Other ==> res == Ok::<i64, MessageError>(0),
{
    match val {
        TimeValue::Number(n) => {
            let ms: i64 = match n {
                Some(v) => *v,
                None => 0,
            };
            match ms.checked_mul(1_000_000) {
                Some(v) => Ok(v),
                None => {
                    if ms > 0 {
                        Ok(i64::MAX)
                    } else {
                        Ok(i64::MIN)
                    }
                },
            }
        },
        TimeValue::Text(t) => parse_timestamp(t.as_str()),
        TimeValue::Other => Ok(0),
    }
}

/// `std::time::SystemTime::now`; nothing is claimed of the instant.
#[verifier::external_body]
fn system_time_now() -> std::time::SystemTime {
    std::time::SystemTime::now()
}

/// `SystemTime::duration_since(UNIX_EPOCH)`, `None` for an instant before the epoch;
/// nothing is claimed of the duration.
#[verifier::external_body]
fn duration_since_unix_epoch(t: &std::time::SystemTime) -> Option<std::time::Duration> {
    t.duration_since(std::time::UNIX_EPOCH).ok()
}

/// `Duration::as_nanos`; nothing is claimed of the count.
#[verifier::external_body]
fn duration_as_nanos(d: &std::time::Duration) -> u128 {
    d.as_nanos()
}

/// Nanoseconds since the epoch as the stream stamps them: the count truncated to
/// `i64`, or 0 when the clock reads before the epoch.
pub fn stamp_from_nanos(nanos: Option<u128>) -> (res: i64)
    ensures
        res == match nanos {
            Some(n) => n as i64,
            None => 0i64,
        },
{
    match nanos {
        Some(n) => n as i64,
        None => 0,
    }
}

/// The wall clock in nanoseconds since the Unix epoch (0 before the epoch).
pub fn current_time_ns() -> (res: i64) {
    let now = system_time_now();
    let nanos = match duration_since_unix_epoch(&now) {
        Some(d) => Some(duration_as_nanos(&d)),
        None => None,
    };
    stamp_from_nanos(nanos)
}

/// How a decoded message is to be turned into a `StandXMessage`.
#[derive(PartialEq, Eq, Structural, Clone, Copy, Debug)]
pub enum MessageRoute {
    /// `depth_book` channel: decode `data` as an order-book update.
    DepthBook,
    /// `auth` channel: read `code` and `msg` from `data`.
    Auth,
    /// A channel-less reply with a non-zero `code`.
    Error,
    /// Keep `data` as an unrecognised payload.
    UnknownData,
    /// Keep the whole message as an unrecognised payload.
    UnknownWhole,
    /// The channel needs `data` and the message has none.
    MissingData,
}

/// The route of a message with this channel, reply code and presence of `data`.
pub open spec fn route_of(channel: Option<Seq<char>>, code: Option<i32>, has_data: bool) -> MessageRoute {
    match channel {
        Some(c) => {
            if c == "depth_book"@ || c == "auth"@ {
                if !has_data {
                    MessageRoute::MissingData
                } else if c == "depth_book"@ {
                    MessageRoute::DepthBook
                } else {
                    MessageRoute::Auth
                }
            } else if has_data {
                MessageRoute::UnknownData
            } else {
                MessageRoute::UnknownWhole
            }
        },
        None => {
            if code matches Some(k) && k != 0 {
                MessageRoute::Error
            } else if has_data {
                MessageRoute::UnknownData
            } else {
                MessageRoute::UnknownWhole
            }
        },
    }
}

/// Routing by channel and reply: a channel-less reply with a non-zero code is an error
/// whether or not it carries `data`; any other channel-less message is kept as an
/// unrecognised payload (its `data` when present); `depth_book` and `auth` need `data`.
pub proof fn lemma_routing(channel: Option<Seq<char>>, code: Option<i32>, has_data: bool)
    ensures
        channel is None && (code is Some && code.unwrap() != 0) ==> route_of(channel, code, has_data)
            == MessageRoute::Error,
        channel is None && !((code is Some && code.unwrap() != 0)) && has_data ==> route_of(
            channel,
            code,
            has_data,
        ) == MessageRoute::UnknownData,
        channel is None && !((code is Some && code.unwrap() != 0)) && !has_data ==> route_of(
            channel,
            code,
            has_data,
        ) == MessageRoute::UnknownWhole,
        channel == Some("depth_book"@) && has_data ==> route_of(channel, code, has_data)
            == MessageRoute::DepthBook,
        channel == Some("auth"@) && has_data ==> route_of(channel, code, has_data)
            == MessageRoute::Auth,
        (channel == Some("depth_book"@) || channel == Some("auth"@)) && !has_data ==> route_of(
            channel,
            code,
            has_data,
        ) == MessageRoute::MissingData,
        route_of(channel, code, has_data) == MessageRoute::Error ==> channel is None,
{
    reveal_strlit("depth_book");
    reveal_strlit("auth");
    assert("auth"@.len() != "depth_book"@.len());
}

/// How a text is read: chrono's reading of the text itself when it succeeds; otherwise,
/// for a text that does not end in `Z` and whose UTF-8 encoding is shorter than 64
/// bytes, the reading of the text with `Z` appended (UTC), whatever its length below
/// that bound; nothing otherwise. An instant outside the `i64` nanosecond range reads
/// as 0.
pub proof fn lemma_timestamp_reading(text: Seq<char>)
    ensures
        rfc3339_nanos(text) matches Some(n) ==> timestamp_of(text) == Some(
            match n {
                Some(v) => v,
                None => 0i64,
            },
        ),
        rfc3339_nanos(text) is None && !(text.len() > 0 && text.last() == 'Z')
            && vstd::utf8::encode_utf8(text).len() < 64 ==> timestamp_of(text) == match rfc3339_nanos(
            text.push('Z'),
        ) {
            Some(n) => Some(
                match n {
                    Some(v) => v,
                    None => 0i64,
                },
            ),
            None => None,
        },
        rfc3339_nanos(text) is None && ((text.len() > 0 && text.last() == 'Z')
            || vstd::utf8::encode_utf8(text).len() >= 64) ==> timestamp_of(text) is None,
{
}

/// Decides how a message is decoded from its channel, reply code and `data` presence.
pub fn route_message(channel: &Option<String>, code: Option<i32>, has_data: bool) -> (res: MessageRoute)
    ensures
        res == route_of(
            match channel {
                Some(c) => Some(c@),
                None => None,
            },
            code,
            has_data,
        ),
        channel is None && (code is Some && code.unwrap() != 0) ==> res == MessageRoute::Error,
        channel is None && !((code is Some && code.unwrap() != 0)) ==> res == (if has_data {
            MessageRoute::UnknownData
        } else {
            MessageRoute::UnknownWhole
        }),
{
    match channel {
        Some(c) => {
            let depth = String::from_str("depth_book");
            let auth = String::from_str("auth");
            let is_depth = *c == depth;
            let is_auth = *c == auth;
            if is_depth || is_auth {
                if !has_data {
                    MessageRoute::MissingData
                } else if is_depth {
                    MessageRoute::DepthBook
                } else {
                    MessageRoute::Auth
                }
            } else if has_data {
                MessageRoute::UnknownData
            } else {
                MessageRoute::UnknownWhole
            }
        },
        None => {
            let is_error = match code {
                Some(k) => k != 0,
                None => false,
            };
            if is_error {
                MessageRoute::Error
            } else if has_data {
                MessageRoute::UnknownData
            } else {
                MessageRoute::UnknownWhole
            }
        },
    }
}

/// The `code` of an auth reply as the stream reports it: the integer truncated to
/// `i32`, 0 when absent.
pub fn auth_code(code: Option<i64>) -> (res: i32)
    ensures
        res == match code {
            Some(c) => c as i32,
            None => 0i32,
        },
{
    match code {
        Some(c) => c as i32,
        None => 0,
    }
}

} // verus!

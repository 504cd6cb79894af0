//! The request policy of the Dashboard client: which responses are retried and
//! after what delay, when a payload is too large, which terminal status a
//! request ends with, and the provenance recorded for it.
//!
//! Sending requests, reading bodies and sleeping happen in the caller, which
//! reports each result here and performs the step this module decides.

use vstd::prelude::*;

use crate::model::{FetchOutcome, FetchSpec, FetchStatus, Provenance};
use crate::text::{chars_of, owned};
use crate::METHOD_VERSION;
use sha2::Digest;

verus! {

/// The default number of requests in flight at once.
pub const DEFAULT_CONCURRENCY: usize = 50;

/// The default per-attempt timeout, in seconds.
pub const DEFAULT_TIMEOUT_SECS: u64 = 10;

/// The default largest payload accepted, in bytes (16 MiB).
pub const DEFAULT_MAX_PAYLOAD_BYTES: usize = 16777216;

/// The number of attempts made for one request.
pub const MAX_ATTEMPTS: u8 = 4;

// ------------------------------------------------------------------------
// Configuration
// ------------------------------------------------------------------------

/// A rejected client configuration.
#[derive(Debug)]
pub enum ClientError {
    InvalidConfiguration(String),
}

/// The message of the first configuration rule that is broken, if any.
pub open spec fn config_problem(
    concurrency: usize,
    rate_is_valid: bool,
    timeout_is_zero: bool,
    max_payload_bytes: usize,
) -> Option<Seq<char>> {
    if concurrency == 0 {
        Some("concurrency must be greater than zero"@)
    } else if !rate_is_valid {
        Some("max_requests_per_second must be finite and greater than zero"@)
    } else if timeout_is_zero {
        Some("timeout must be greater than zero"@)
    } else if max_payload_bytes == 0 {
        Some("max_payload_bytes must be greater than zero"@)
    } else {
        None
    }
}

/// Checks the client limits in order: a positive concurrency, a finite and
/// positive request rate (`rate_is_valid`), a nonzero timeout, and a positive
/// payload limit.
pub fn check_client_limits(
    concurrency: usize,
    rate_is_valid: bool,
    timeout_is_zero: bool,
    max_payload_bytes: usize,
) -> (r: Result<(), ClientError>)
    ensures
        match config_problem(concurrency, rate_is_valid, timeout_is_zero, max_payload_bytes) {
            None => r is Ok,
            Some(message) => r matches Err(ClientError::InvalidConfiguration(m)) && m@ == message,
        },
{
    if concurrency == 0 {
        return Err(ClientError::InvalidConfiguration(owned("concurrency must be greater than zero")));
    }
    if !rate_is_valid {
        return Err(
            ClientError::InvalidConfiguration(
                owned("max_requests_per_second must be finite and greater than zero"),
            ),
        );
    }
    if timeout_is_zero {
        return Err(ClientError::InvalidConfiguration(owned("timeout must be greater than zero")));
    }
    if max_payload_bytes == 0 {
        return Err(
            ClientError::InvalidConfiguration(owned("max_payload_bytes must be greater than zero")),
        );
    }
    Ok(())
}

// ------------------------------------------------------------------------
// Retry policy
// ------------------------------------------------------------------------

/// HTTP 408, 429 and every 5xx status are retried.
pub open spec fn spec_retryable(status_code: u16) -> bool {
    status_code == 408 || status_code == 429 || (500 <= status_code && status_code <= 599)
}

/// Whether a response status is retried.
pub fn retryable_status(status_code: u16) -> (r: bool)
    ensures
        r == spec_retryable(status_code),
{
    status_code == 408 || status_code == 429 || (500 <= status_code && status_code <= 599)
}

/// The backoff after a failed attempt: 250 ms, 500 ms, then 1000 ms for every
/// later attempt.
pub open spec fn backoff_millis(attempt: u8) -> u64 {
    if attempt <= 1 {
        250
    } else if attempt == 2 {
        500
    } else {
        1000
    }
}

/// The backoff after failed attempt `attempt` (counted from 1), in milliseconds.
pub fn retry_backoff(attempt: u8) -> (millis: u64)
    ensures
        millis == backoff_millis(attempt),
{
    if attempt <= 1 {
        250
    } else if attempt == 2 {
        500
    } else {
        1000
    }
}

/// Whether a body chunk still fits under the payload limit after `received`
/// bytes.
pub fn body_accepts_chunk(received: usize, chunk_len: usize, limit: usize) -> (r: bool)
    ensures
        r == (received + chunk_len <= limit || (received > limit && chunk_len == 0)),
{
    let room: usize = if limit >= received { limit - received } else { 0 };
    chunk_len <= room
}

// ------------------------------------------------------------------------
// The per-request decision machine
// ------------------------------------------------------------------------

/// What happened when a request was sent.
#[derive(Debug)]
pub enum SendResult {
    /// No response arrived.
    TransportError { message: String },
    /// A response arrived with this status, declared length, and the delay in
    /// seconds its `Retry-After` header asks for.
    Response { status_code: u16, declared_bytes: Option<u64>, retry_after_secs: Option<u64> },
}

/// How reading a response body ended.
#[derive(Debug)]
pub enum BodyResult {
    /// The body grew past the payload limit.
    TooLarge,
    /// The connection failed while reading.
    TransportError { message: String },
    /// The whole body was read; it holds this many bytes.
    Complete { payload_bytes: usize },
}

/// What the caller does next for a request.
#[derive(Debug)]
pub enum FetchStep {
    /// Wait this many milliseconds, then send the request again.
    Retry { delay_millis: u128 },
    /// Read the response body.
    ReadBody,
    /// Parse the body that was read.
    Parse,
    /// Stop with this status. `http_status` is the response status, if one
    /// arrived; `keeps_payload` says whether provenance records the body read.
    Finish { status: FetchStatus, http_status: Option<u16>, keeps_payload: bool },
}

/// The delay before the next attempt after a retried response: the larger of
/// the server's requested delay and the backoff.
pub open spec fn retry_delay(attempt: u8, retry_after_secs: Option<u64>) -> u128 {
    match retry_after_secs {
        Some(secs) => if secs * 1000 > backoff_millis(attempt) {
            (secs * 1000) as u128
        } else {
            backoff_millis(attempt) as u128
        },
        None => backoff_millis(attempt) as u128,
    }
}

/// The step after sending attempt `attempt` of at most `MAX_ATTEMPTS`.
///
/// A transport error is retried until the last attempt, then ends the
/// request. A retryable status is retried likewise, after the larger of the
/// server's delay and the backoff. A declared length above the limit ends the
/// request; otherwise the body is read.
pub open spec fn spec_after_send(attempt: u8, max_payload_bytes: usize, result: SendResult) -> FetchStep {
    match result {
        SendResult::TransportError { message } => if attempt < MAX_ATTEMPTS {
            FetchStep::Retry { delay_millis: backoff_millis(attempt) as u128 }
        } else {
            FetchStep::Finish {
                status: FetchStatus::TransportError { message },
                http_status: None,
                keeps_payload: false,
            }
        },
        SendResult::Response { status_code, declared_bytes, retry_after_secs } => if spec_retryable(
            status_code,
        ) && attempt < MAX_ATTEMPTS {
            FetchStep::Retry { delay_millis: retry_delay(attempt, retry_after_secs) }
        } else if declared_bytes is Some && declared_bytes->0 > max_payload_bytes {
            FetchStep::Finish {
                status: FetchStatus::PayloadTooLarge { limit_bytes: max_payload_bytes, declared_bytes },
                http_status: Some(status_code),
                keeps_payload: false,
            }
        } else {
            FetchStep::ReadBody
        },
    }
}

/// Decides the step after sending a request.
pub fn after_send(attempt: u8, max_payload_bytes: usize, result: SendResult) -> (step: FetchStep)
    requires
        1 <= attempt <= MAX_ATTEMPTS,
    ensures
        step == spec_after_send(attempt, max_payload_bytes, result),
{
    match result {
        SendResult::TransportError { message } => {
            if attempt < MAX_ATTEMPTS {
                FetchStep::Retry { delay_millis: retry_backoff(attempt) as u128 }
            } else {
                FetchStep::Finish {
                    status: FetchStatus::TransportError { message },
                    http_status: None,
                    keeps_payload: false,
                }
            }
        },
        SendResult::Response { status_code, declared_bytes, retry_after_secs } => {
            if retryable_status(status_code) && attempt < MAX_ATTEMPTS {
                let backoff = retry_backoff(attempt) as u128;
                let delay = match retry_after_secs {
                    Some(secs) => {
                        let server = secs as u128 * 1000;
                        if server > backoff {
                            server
                        } else {
                            backoff
                        }
                    },
                    None => backoff,
                };
                FetchStep::Retry { delay_millis: delay }
            } else {
                let too_large = match declared_bytes {
                    Some(length) => length > max_payload_bytes as u64,
                    None => false,
                };
                if too_large {
                    FetchStep::Finish {
                        status: FetchStatus::PayloadTooLarge {
                            limit_bytes: max_payload_bytes,
                            declared_bytes,
                        },
                        http_status: Some(status_code),
                        keeps_payload: false,
                    }
                } else {
                    FetchStep::ReadBody
                }
            }
        },
    }
}

/// Whether a status is a success status (2xx).
pub open spec fn spec_success_status(status_code: u16) -> bool {
    200 <= status_code && status_code <= 299
}

/// The step after reading the body of attempt `attempt`.
///
/// A body over the limit ends the request; a read failure is retried until
/// the last attempt; a complete body ends the request with an HTTP error for a
/// non-success status, with an empty-payload status for an empty body, and is
/// otherwise parsed.
pub open spec fn spec_after_body(
    attempt: u8,
    status_code: u16,
    declared_bytes: Option<u64>,
    max_payload_bytes: usize,
    body: BodyResult,
) -> FetchStep {
    match body {
        BodyResult::TooLarge => FetchStep::Finish {
            status: FetchStatus::PayloadTooLarge { limit_bytes: max_payload_bytes, declared_bytes },
            http_status: Some(status_code),
            keeps_payload: false,
        },
        BodyResult::TransportError { message } => if attempt < MAX_ATTEMPTS {
            FetchStep::Retry { delay_millis: backoff_millis(attempt) as u128 }
        } else {
            FetchStep::Finish {
                status: FetchStatus::TransportError { message },
                http_status: Some(status_code),
                keeps_payload: false,
            }
        },
        BodyResult::Complete { payload_bytes } => if !spec_success_status(status_code) {
            FetchStep::Finish {
                status: FetchStatus::HttpError { status_code },
                http_status: Some(status_code),
                keeps_payload: true,
            }
        } else if payload_bytes == 0 {
            FetchStep::Finish {
                status: FetchStatus::EmptyPayload,
                http_status: Some(status_code),
                keeps_payload: true,
            }
        } else {
            FetchStep::Parse
        },
    }
}

/// Decides the step after reading a response body.
pub fn after_body(
    attempt: u8,
    status_code: u16,
    declared_bytes: Option<u64>,
    max_payload_bytes: usize,
    body: BodyResult,
) -> (step: FetchStep)
    requires
        1 <= attempt <= MAX_ATTEMPTS,
    ensures
        step == spec_after_body(attempt, status_code, declared_bytes, max_payload_bytes, body),
{
    match body {
        BodyResult::TooLarge => FetchStep::Finish {
            status: FetchStatus::PayloadTooLarge { limit_bytes: max_payload_bytes, declared_bytes },
            http_status: Some(status_code),
            keeps_payload: false,
        },
        BodyResult::TransportError { message } => {
            if attempt < MAX_ATTEMPTS {
                FetchStep::Retry { delay_millis: retry_backoff(attempt) as u128 }
            } else {
                FetchStep::Finish {
                    status: FetchStatus::TransportError { message },
                    http_status: Some(status_code),
                    keeps_payload: false,
                }
            }
        },
        BodyResult::Complete { payload_bytes } => {
            if !(200 <= status_code && status_code <= 299) {
                FetchStep::Finish {
                    status: FetchStatus::HttpError { status_code },
                    http_status: Some(status_code),
                    keeps_payload: true,
                }
            } else if payload_bytes == 0 {
                FetchStep::Finish {
                    status: FetchStatus::EmptyPayload,
                    http_status: Some(status_code),
                    keeps_payload: true,
                }
            } else {
                FetchStep::Parse
            }
        },
    }
}

/// A request that ended without a card.
pub fn failure<N>(spec: FetchSpec, provenance: Provenance, status: FetchStatus) -> (o: FetchOutcome<N>)
    ensures
        o.spec == spec,
        o.provenance == provenance,
        o.status == status,
        o.card is None,
{
    FetchOutcome { spec, status, card: None, provenance }
}

// ------------------------------------------------------------------------
// Provenance
// ------------------------------------------------------------------------

/// The SHA-256 digest of a byte sequence.
pub uninterp spec fn sha256(bytes: Seq<u8>) -> Seq<u8>;

/// `sha2::Sha256::digest`: the SHA-256 digest of the payload, whose length is
/// the 32 bytes of the algorithm's output.
#[verifier::external_body]
fn sha256_digest(payload: &[u8]) -> (d: Vec<u8>)
    ensures
        d@ == sha256(payload@),
        d@.len() == 32,
{
    sha2::Sha256::digest(payload).to_vec()
}

/// The lowercase hexadecimal digit of `d < 16`.
pub open spec fn hex_digit(d: u8) -> char {
    if d < 10 {
        ((d + 48) as u8) as char
    } else {
        ((d + 87) as u8) as char
    }
}

/// Two lowercase hexadecimal digits per byte.
pub open spec fn hex_text(bytes: Seq<u8>) -> Seq<char>
    decreases bytes.len(),
{
    if bytes.len() == 0 {
        Seq::empty()
    } else {
        hex_text(bytes.drop_last()).push(hex_digit(bytes.last() / 16)).push(
            hex_digit(bytes.last() % 16),
        )
    }
}

fn hex_char(d: u8) -> (c: char)
    requires
        d < 16,
    ensures
        c == hex_digit(d),
{
    if d < 10 {
        (d + 48) as char
    } else {
        (d + 87) as char
    }
}

/// The lowercase hexadecimal SHA-256 digest of a payload.
pub fn sha256_hex(payload: &[u8]) -> (s: String)
    ensures
        s@ == hex_text(sha256(payload@)),
{
    let digest = sha256_digest(payload);
    let mut out = String::new();
    let mut i: usize = 0;
    while i < digest.len()
        invariant
            i <= digest@.len(),
            out@ == hex_text(digest@.take(i as int)),
        decreases digest@.len() - i,
    {
        let b = digest[i];
        crate::text::push_char(&mut out, hex_char(b / 16));
        crate::text::push_char(&mut out, hex_char(b % 16));
        assert(digest@.take(i + 1).drop_last() =~= digest@.take(i as int));
        i = i + 1;
    }
    assert(digest@.take(digest@.len() as int) =~= digest@);
    out
}

/// The provenance of an attempt: where it went, when, how many attempts it
/// took, the response status, and the size and digest of the payload kept.
pub open spec fn spec_provenance(
    spec: FetchSpec,
    attempts: u8,
    http_status: Option<u16>,
    payload: Option<Seq<u8>>,
    retrieved_at_utc: Seq<char>,
    p: Provenance,
) -> bool {
    &&& p.source_url@ == spec.url@
    &&& p.retrieved_at_utc@ == retrieved_at_utc
    &&& crate::model::opt_view(p.payload_sha256) == match payload {
        Some(bytes) => Some(hex_text(sha256(bytes))),
        None => None,
    }
    &&& p.payload_bytes == match payload {
        Some(bytes) => bytes.len(),
        None => 0,
    }
    &&& p.http_status == http_status
    &&& p.attempts == attempts
    &&& p.method_version@ == METHOD_VERSION@
}

/// Builds the provenance of an attempt retrieved at `retrieved_at_utc`.
pub fn provenance(
    spec: &FetchSpec,
    attempts: u8,
    http_status: Option<u16>,
    payload: Option<&[u8]>,
    retrieved_at_utc: String,
) -> (p: Provenance)
    ensures
        spec_provenance(
            *spec,
            attempts,
            http_status,
            match payload {
                Some(bytes) => Some(bytes@),
                None => None,
            },
            retrieved_at_utc@,
            p,
        ),
{
    let (digest, size) = match payload {
        Some(bytes) => (Some(sha256_hex(bytes)), bytes.len()),
        None => (None, 0),
    };
    Provenance {
        source_url: spec.url.clone(),
        retrieved_at_utc,
        payload_sha256: digest,
        payload_bytes: size,
        http_status,
        attempts,
        method_version: owned(METHOD_VERSION),
    }
}

// ------------------------------------------------------------------------
// Laws of the request policy
// ------------------------------------------------------------------------

/// The backoff never shrinks from one attempt to the next.
pub proof fn law_backoff_never_shrinks(a: u8, b: u8)
    requires
        a <= b,
    ensures
        backoff_millis(a) <= backoff_millis(b),
{
}

/// Retries are bounded: the last attempt never asks for another.
pub proof fn law_last_attempt_never_retries(
    max_payload_bytes: usize,
    result: SendResult,
    status_code: u16,
    declared_bytes: Option<u64>,
    body: BodyResult,
)
    ensures
        !(spec_after_send(MAX_ATTEMPTS, max_payload_bytes, result) is Retry),
        !(spec_after_body(MAX_ATTEMPTS, status_code, declared_bytes, max_payload_bytes, body) is Retry),
{
}

/// A payload is parsed only after a complete, nonempty body with a success
/// status, and a body is read only when the declared length fits the limit.
pub proof fn law_only_complete_successful_bodies_are_parsed(
    attempt: u8,
    status_code: u16,
    declared_bytes: Option<u64>,
    max_payload_bytes: usize,
    result: SendResult,
    body: BodyResult,
)
    ensures
        spec_after_body(attempt, status_code, declared_bytes, max_payload_bytes, body) is Parse
            ==> spec_success_status(status_code) && (body matches BodyResult::Complete {
            payload_bytes,
        } && payload_bytes > 0),
        spec_after_send(attempt, max_payload_bytes, result) is ReadBody ==> (result matches SendResult::Response {
            declared_bytes: d,
            ..
        } && (d is None || d->0 <= max_payload_bytes)),
{
}

// ------------------------------------------------------------------------
// HTTP dates
// ------------------------------------------------------------------------

/// ASCII whitespace, as `u8::is_ascii_whitespace` defines it.
pub open spec fn ascii_white(c: char) -> bool {
    c == ' ' || c == '\t' || c == '\n' || c == '\x0C' || c == '\r'
}

/// The maximal runs of non-ASCII-whitespace characters (the pieces
/// `str::split_ascii_whitespace` yields).
pub open spec fn ascii_fields(s: Seq<char>) -> Seq<Seq<char>>
    decreases s.len(),
{
    if s.len() == 0 {
        Seq::empty()
    } else {
        let w = ascii_fields(s.drop_last());
        if ascii_white(s.last()) {
            w
        } else if s.len() >= 2 && !ascii_white(s[s.len() - 2]) {
            w.drop_last().push(w.last().push(s.last()))
        } else {
            w.push(seq![s.last()])
        }
    }
}

/// The pieces between colons (the pieces `str::split(':')` yields).
pub open spec fn colon_pieces(s: Seq<char>) -> Seq<Seq<char>>
    decreases s.len(),
{
    if s.len() == 0 {
        seq![Seq::empty()]
    } else {
        let w = colon_pieces(s.drop_last());
        if s.last() == ':' {
            w.push(Seq::empty())
        } else {
            w.drop_last().push(w.last().push(s.last()))
        }
    }
}

/// The value of a text of decimal digits, if every character is one.
pub open spec fn digits_of(s: Seq<char>) -> Option<nat>
    decreases s.len(),
{
    if s.len() == 0 {
        Some(0)
    } else if '0' <= s.last() && s.last() <= '9' {
        match digits_of(s.drop_last()) {
            Some(v) => Some(v * 10 + ((s.last() as u32) - 48) as nat),
            None => None,
        }
    } else {
        None
    }
}

/// A number as `str::parse` reads an unsigned integer no larger than `max`:
/// an optional `+`, then one or more decimal digits.
pub open spec fn parsed_unsigned(s: Seq<char>, max: nat) -> Option<nat> {
    let d = if s.len() > 0 && s[0] == '+' {
        s.drop_first()
    } else {
        s
    };
    if d.len() > 0 && digits_of(d) is Some && digits_of(d)->0 <= max {
        digits_of(d)
    } else {
        None
    }
}

/// A number as `str::parse::<i32>` reads it: an optional sign, then one or
/// more decimal digits, within the range of `i32`.
pub open spec fn parsed_i32(s: Seq<char>) -> Option<int> {
    if s.len() > 0 && s[0] == '-' {
        let d = s.drop_first();
        if d.len() > 0 && digits_of(d) is Some && digits_of(d)->0 <= 2147483648 {
            Some(-(digits_of(d)->0 as int))
        } else {
            None
        }
    } else {
        match parsed_unsigned(s, 2147483647) {
            Some(v) => Some(v as int),
            None => None,
        }
    }
}

/// The number of a month's three-letter English name.
pub open spec fn month_number(name: Seq<char>) -> Option<u8> {
    if name == "Jan"@ {
        Some(1)
    } else if name == "Feb"@ {
        Some(2)
    } else if name == "Mar"@ {
        Some(3)
    } else if name == "Apr"@ {
        Some(4)
    } else if name == "May"@ {
        Some(5)
    } else if name == "Jun"@ {
        Some(6)
    } else if name == "Jul"@ {
        Some(7)
    } else if name == "Aug"@ {
        Some(8)
    } else if name == "Sep"@ {
        Some(9)
    } else if name == "Oct"@ {
        Some(10)
    } else if name == "Nov"@ {
        Some(11)
    } else if name == "Dec"@ {
        Some(12)
    } else {
        None
    }
}

/// The fields of an IMF-fixdate HTTP date; the calendar is checked by whoever
/// turns them into a time.
#[derive(Debug, Clone, Copy, PartialEq, Eq, Structural)]
pub struct HttpDate {
    pub year: i32,
    pub month: u8,
    pub day: u8,
    pub hour: u8,
    pub minute: u8,
    pub second: u8,
}

/// The fields of `Wdy, DD Mon YYYY HH:MM:SS GMT`: six whitespace-separated
/// fields, the first ending in a comma, the last `GMT`, a known month name,
/// and a clock of exactly three numbers.
pub open spec fn http_date_fields(value: Seq<char>) -> Option<HttpDate> {
    let f = ascii_fields(value);
    if f.len() != 6 || !(f[0].len() > 0 && f[0].last() == ',') || f[5] != "GMT"@ {
        None
    } else {
        let clock = colon_pieces(f[4]);
        let day = parsed_unsigned(f[1], 255);
        let month = month_number(f[2]);
        let year = parsed_i32(f[3]);
        if day is None || month is None || year is None || clock.len() < 3 {
            None
        } else {
            let hour = parsed_unsigned(clock[0], 255);
            let minute = parsed_unsigned(clock[1], 255);
            let second = parsed_unsigned(clock[2], 255);
            if hour is None || minute is None || second is None || clock.len() != 3 {
                None
            } else {
                Some(
                    HttpDate {
                        year: year->0 as i32,
                        month: month->0,
                        day: day->0 as u8,
                        hour: hour->0 as u8,
                        minute: minute->0 as u8,
                        second: second->0 as u8,
                    },
                )
            }
        }
    }
}

fn is_ascii_white(c: char) -> (r: bool)
    ensures
        r == ascii_white(c),
{
    c == ' ' || c == '\t' || c == '\n' || c == '\x0C' || c == '\r'
}

/// Splits at ASCII whitespace, dropping empty pieces.
fn split_ascii_fields(v: &[char]) -> (ws: Vec<Vec<char>>)
    ensures
        ws@.map_values(|w: Vec<char>| w@) == ascii_fields(v@),
{
    let mut ws: Vec<Vec<char>> = Vec::new();
    let mut cur: Vec<char> = Vec::new();
    let mut i: usize = 0;
    while i < v.len()
        invariant
            i <= v@.len(),
            ascii_fields(v@.take(i as int)) == if cur@.len() > 0 {
                ws@.map_values(|w: Vec<char>| w@).push(cur@)
            } else {
                ws@.map_values(|w: Vec<char>| w@)
            },
            cur@.len() > 0 <==> (i > 0 && !ascii_white(v@[i - 1])),
        decreases v@.len() - i,
    {
        let c = v[i];
        let ghost pre = v@.take(i as int);
        let ghost post = v@.take(i + 1);
        let ghost done = ws@.map_values(|w: Vec<char>| w@);
        assert(post.drop_last() =~= pre);
        assert(post.last() == c);
        if is_ascii_white(c) {
            if cur.len() > 0 {
                let ghost old_cur = cur@;
                ws.push(cur);
                cur = Vec::new();
                assert(ws@.map_values(|w: Vec<char>| w@) =~= done.push(old_cur));
            }
        } else {
            if cur.len() > 0 {
                assert(post[post.len() - 2] == v@[i - 1]);
                let ghost old_cur = cur@;
                cur.push(c);
                assert(done.push(old_cur).drop_last().push(done.push(old_cur).last().push(c))
                    =~= done.push(cur@));
            } else {
                assert(i == 0 || ascii_white(post[post.len() - 2]));
                cur.push(c);
                assert(cur@ =~= seq![c]);
            }
        }
        i = i + 1;
    }
    assert(v@.take(v@.len() as int) =~= v@);
    if cur.len() > 0 {
        let ghost done = ws@.map_values(|w: Vec<char>| w@);
        let ghost old_cur = cur@;
        ws.push(cur);
        assert(ws@.map_values(|w: Vec<char>| w@) =~= done.push(old_cur));
    }
    ws
}

/// Splits at every colon, keeping empty pieces.
fn split_colons(v: &[char]) -> (ps: Vec<Vec<char>>)
    ensures
        ps@.map_values(|w: Vec<char>| w@) == colon_pieces(v@),
{
    let mut ps: Vec<Vec<char>> = Vec::new();
    let mut cur: Vec<char> = Vec::new();
    let mut i: usize = 0;
    assert(v@.take(0) =~= Seq::<char>::empty());
    assert(ps@.map_values(|w: Vec<char>| w@).push(cur@) =~= seq![Seq::<char>::empty()]);
    while i < v.len()
        invariant
            i <= v@.len(),
            colon_pieces(v@.take(i as int)) == ps@.map_values(|w: Vec<char>| w@).push(cur@),
        decreases v@.len() - i,
    {
        let c = v[i];
        let ghost pre = v@.take(i as int);
        let ghost post = v@.take(i + 1);
        let ghost done = ps@.map_values(|w: Vec<char>| w@);
        assert(post.drop_last() =~= pre);
        assert(post.last() == c);
        if c == ':' {
            let ghost old_cur = cur@;
            ps.push(cur);
            cur = Vec::new();
            assert(ps@.map_values(|w: Vec<char>| w@) =~= done.push(old_cur));
            assert(ps@.map_values(|w: Vec<char>| w@).push(cur@) =~= done.push(old_cur).push(Seq::<char>::empty()));
        } else {
            let ghost old_cur = cur@;
            cur.push(c);
            assert(done.push(old_cur).drop_last().push(done.push(old_cur).last().push(c)) =~= done.push(cur@));
        }
        i = i + 1;
    }
    assert(v@.take(v@.len() as int) =~= v@);
    let ghost done = ps@.map_values(|w: Vec<char>| w@);
    let ghost old_cur = cur@;
    ps.push(cur);
    assert(ps@.map_values(|w: Vec<char>| w@) =~= done.push(old_cur));
    ps
}

proof fn lemma_digits_prefix(s: Seq<char>, k: int)
    requires
        0 <= k <= s.len(),
        digits_of(s) is Some,
    ensures
        digits_of(s.take(k)) is Some,
        digits_of(s.take(k))->0 <= digits_of(s)->0,
    decreases s.len(),
{
    if k < s.len() {
        assert(s.drop_last().take(k) =~= s.take(k));
        lemma_digits_prefix(s.drop_last(), k);
    } else {
        assert(s.take(k) =~= s);
    }
}

/// Reads decimal digits, as `str::parse` reads an unsigned number no larger
/// than `max`.
pub(crate) fn parse_unsigned(s: &[char], max: u64) -> (r: Option<u64>)
    ensures
        match r {
            Some(v) => parsed_unsigned(s@, max as nat) == Some(v as nat),
            None => parsed_unsigned(s@, max as nat) is None,
        },
{
    let n = s.len();
    let start: usize = if n > 0 && s[0] == '+' { 1 } else { 0 };
    let ghost d = if s@.len() > 0 && s@[0] == '+' {
        s@.drop_first()
    } else {
        s@
    };
    assert(d =~= s@.skip(start as int));
    if start >= n {
        return None;
    }
    let mut value: u64 = 0;
    let mut i: usize = start;
    assert(s@.subrange(start as int, start as int) =~= Seq::<char>::empty());
    while i < n
        invariant
            n == s@.len(),
            start <= i <= n,
            d == s@.skip(start as int),
            d == if s@.len() > 0 && s@[0] == '+' {
                s@.drop_first()
            } else {
                s@
            },
            digits_of(s@.subrange(start as int, i as int)) == Some(value as nat),
            value <= max,
        decreases n - i,
    {
        let c = s[i];
        let ghost pre = s@.subrange(start as int, i as int);
        let ghost post = s@.subrange(start as int, i + 1);
        assert(post.drop_last() =~= pre);
        assert(post.last() == c);
        if !('0' <= c && c <= '9') {
            proof {
                if digits_of(d) is Some {
                    lemma_digits_prefix(d, (i + 1 - start) as int);
                    assert(d.take((i + 1 - start) as int) =~= post);
                }
            }
            return None;
        }
        let next: u128 = (value as u128) * 10 + ((c as u32) - 48) as u128;
        if next > max as u128 {
            proof {
                if digits_of(d) is Some {
                    lemma_digits_prefix(d, (i + 1 - start) as int);
                    assert(d.take((i + 1 - start) as int) =~= post);
                }
            }
            return None;
        }
        value = next as u64;
        i = i + 1;
    }
    assert(s@.subrange(start as int, n as int) =~= d);
    Some(value)
}

pub(crate) fn parse_i32(s: &[char]) -> (r: Option<i32>)
    ensures
        match r {
            Some(v) => parsed_i32(s@) == Some(v as int),
            None => parsed_i32(s@) is None,
        },
{
    if s.len() > 0 && s[0] == '-' {
        let mut rest: Vec<char> = Vec::new();
        let mut i: usize = 1;
        while i < s.len()
            invariant
                1 <= i <= s@.len(),
                rest@ == s@.subrange(1, i as int),
            decreases s@.len() - i,
        {
            rest.push(s[i]);
            i = i + 1;
            assert(rest@ =~= s@.subrange(1, i as int));
        }
        assert(rest@ =~= s@.drop_first());
        if rest.len() > 0 && rest[0] == '+' {
            proof {
                lemma_plus_not_digits(rest@);
            }
            return None;
        }
        match parse_unsigned(rest.as_slice(), 2147483648) {
            Some(v) => {
                let neg: i64 = 0 - (v as i64);
                Some(neg as i32)
            },
            None => None,
        }
    } else {
        match parse_unsigned(s, 2147483647) {
            Some(v) => Some(v as i32),
            None => None,
        }
    }
}

proof fn lemma_plus_not_digits(s: Seq<char>)
    requires
        s.len() > 0,
        s[0] == '+',
    ensures
        digits_of(s) is None,
    decreases s.len(),
{
    if s.len() > 1 {
        assert(s.drop_last()[0] == '+');
        lemma_plus_not_digits(s.drop_last());
    }
}

fn month_of(name: &[char]) -> (r: Option<u8>)
    ensures
        r == month_number(name@),
{
    let t = crate::text::string_from(name);
    if t == owned("Jan") {
        Some(1)
    } else if t == owned("Feb") {
        Some(2)
    } else if t == owned("Mar") {
        Some(3)
    } else if t == owned("Apr") {
        Some(4)
    } else if t == owned("May") {
        Some(5)
    } else if t == owned("Jun") {
        Some(6)
    } else if t == owned("Jul") {
        Some(7)
    } else if t == owned("Aug") {
        Some(8)
    } else if t == owned("Sep") {
        Some(9)
    } else if t == owned("Oct") {
        Some(10)
    } else if t == owned("Nov") {
        Some(11)
    } else if t == owned("Dec") {
        Some(12)
    } else {
        None
    }
}

/// Reads the fields of an IMF-fixdate HTTP date, without locale state.
pub fn http_date_parts(value: &str) -> (r: Option<HttpDate>)
    ensures
        r == http_date_fields(value@),
{
    let chars = chars_of(value);
    let fields = split_ascii_fields(chars.as_slice());
    let ghost f = fields@.map_values(|w: Vec<char>| w@);
    if fields.len() != 6 {
        return None;
    }
    assert(f[0] == fields@[0]@ && f[1] == fields@[1]@ && f[2] == fields@[2]@);
    assert(f[3] == fields@[3]@ && f[4] == fields@[4]@ && f[5] == fields@[5]@);
    let first = &fields[0];
    if !(first.len() > 0 && first[first.len() - 1] == ',') {
        return None;
    }
    let last = crate::text::string_from(fields[5].as_slice());
    if !(last == owned("GMT")) {
        return None;
    }
    let clock = split_colons(fields[4].as_slice());
    let ghost cv = clock@.map_values(|w: Vec<char>| w@);
    let day = parse_unsigned(fields[1].as_slice(), 255);
    let month = month_of(fields[2].as_slice());
    let year = parse_i32(fields[3].as_slice());
    if day.is_none() || month.is_none() || year.is_none() || clock.len() < 3 {
        return None;
    }
    assert(cv[0] == clock@[0]@ && cv[1] == clock@[1]@ && cv[2] == clock@[2]@);
    let hour = parse_unsigned(clock[0].as_slice(), 255);
    let minute = parse_unsigned(clock[1].as_slice(), 255);
    let second = parse_unsigned(clock[2].as_slice(), 255);
    if hour.is_none() || minute.is_none() || second.is_none() || clock.len() != 3 {
        return None;
    }
    Some(
        HttpDate {
            year: year.unwrap(),
            month: month.unwrap(),
            day: day.unwrap() as u8,
            hour: hour.unwrap() as u8,
            minute: minute.unwrap() as u8,
            second: second.unwrap() as u8,
        },
    )
}

// ------------------------------------------------------------------------
// Retry-After
// ------------------------------------------------------------------------

/// Whether `year` is a leap year of the proleptic Gregorian calendar.
pub open spec fn leap_year(year: int) -> bool {
    year % 4 == 0 && (year % 100 != 0 || year % 400 == 0)
}

/// The number of days in `month` (1 to 12) of `year`.
pub open spec fn days_in_month(year: int, month: int) -> int {
    if month == 2 {
        if leap_year(year) {
            29
        } else {
            28
        }
    } else if month == 4 || month == 6 || month == 9 || month == 11 {
        30
    } else {
        31
    }
}

/// Whether the components name a real day of the Gregorian calendar and a
/// time of that day.
pub open spec fn valid_calendar_time(
    year: int,
    month: int,
    day: int,
    hour: int,
    minute: int,
    second: int,
) -> bool {
    &&& 1 <= month <= 12
    &&& 1 <= day <= days_in_month(year, month)
    &&& hour < 24
    &&& minute < 60
    &&& second < 60
}

/// The Unix time that the `time` crate gives for a UTC calendar date and
/// time of day, or `None` where it refuses the components.
pub uninterp spec fn calendar_timestamp(
    year: i32,
    month: u8,
    day: u8,
    hour: u8,
    minute: u8,
    second: u8,
) -> Option<i64>;

/// The number of days from 1970-01-01 to a date of the proleptic Gregorian
/// calendar (negative before it).
pub open spec fn days_from_civil(year: int, month: int, day: int) -> int {
    let y = if month <= 2 {
        year - 1
    } else {
        year
    };
    let era = y / 400;
    let yoe = y - era * 400;
    let mp = if month > 2 {
        month - 3
    } else {
        month + 9
    };
    let doy = (153 * mp + 2) / 5 + day - 1;
    let doe = yoe * 365 + yoe / 4 - yoe / 100 + doy;
    era * 146097 + doe - 719468
}

/// The Unix time of a UTC date and time of day: whole days since
/// 1970-01-01 times 86400, plus the seconds of the day.
pub open spec fn unix_time(year: int, month: int, day: int, hour: int, minute: int, second: int) -> int {
    days_from_civil(year, month, day) * 86400 + hour * 3600 + minute * 60 + second
}

/// `time::Date::from_calendar_date`, `time::Time::from_hms` and
/// `unix_timestamp` of the UTC date and time they make. The `time` crate
/// refuses a month outside 1 to 12, a day the month does not have, a time of
/// day outside 00:00:00 to 23:59:59 and a year outside its range, which holds
/// -9999 to 9999 (more with its `large-dates` feature); a time it gives is
/// the Unix time of the date and time.
#[verifier::external_body]
fn utc_timestamp(year: i32, month: u8, day: u8, hour: u8, minute: u8, second: u8) -> (r: Option<
    i64,
>)
    ensures
        r == calendar_timestamp(year, month, day, hour, minute, second),
        !valid_calendar_time(year as int, month as int, day as int, hour as int, minute as int, second as int)
            ==> r is None,
        valid_calendar_time(year as int, month as int, day as int, hour as int, minute as int, second as int)
            && -9999 <= year <= 9999 ==> r is Some,
        r matches Some(t) ==> t == unix_time(year as int, month as int, day as int, hour as int, minute as int, second as int),
{
    let month = time::Month::try_from(month).ok()?;
    let date = time::Date::from_calendar_date(year, month, day).ok()?;
    let clock = time::Time::from_hms(hour, minute, second).ok()?;
    Some(date.with_time(clock).assume_utc().unix_timestamp())
}

/// The Unix time of an IMF-fixdate HTTP date, if it reads as one.
pub open spec fn http_date_time(value: Seq<char>) -> Option<i64> {
    match http_date_fields(value) {
        Some(d) => calendar_timestamp(d.year, d.month, d.day, d.hour, d.minute, d.second),
        None => None,
    }
}

/// Parses the IMF-fixdate form of an HTTP date into a Unix time, without
/// locale state.
pub fn parse_http_date(value: &str) -> (r: Option<i64>)
    ensures
        r == http_date_time(value@),
        r matches Some(t) ==> http_date_fields(value@) matches Some(d) && t == unix_time(
            d.year as int,
            d.month as int,
            d.day as int,
            d.hour as int,
            d.minute as int,
            d.second as int,
        ),
        http_date_fields(value@) matches Some(d) && -9999 <= d.year <= 9999 && valid_calendar_time(
            d.year as int,
            d.month as int,
            d.day as int,
            d.hour as int,
            d.minute as int,
            d.second as int,
        ) ==> r is Some,
{
    match http_date_parts(value) {
        Some(d) => utc_timestamp(d.year, d.month, d.day, d.hour, d.minute, d.second),
        None => None,
    }
}

/// The delay a `Retry-After` value asks for, in seconds, at Unix time `now`:
/// a number of seconds, or an HTTP date still in the future.
pub open spec fn retry_after_delay(value: Seq<char>, now: i64) -> Option<int> {
    let t = crate::text::trim(value);
    match parsed_unsigned(t, u64::MAX as nat) {
        Some(v) => Some(v as int),
        None => match http_date_time(t) {
            Some(target) => if target > now {
                Some(target - now)
            } else {
                None
            },
            None => None,
        },
    }
}

/// Reads a `Retry-After` header value at Unix time `now`: the seconds it
/// asks to wait, or `None` where it is neither a number of seconds nor a
/// future HTTP date.
pub fn parse_retry_after(value: &str, now: i64) -> (r: Option<u64>)
    ensures
        match r {
            Some(v) => retry_after_delay(value@, now) == Some(v as int),
            None => retry_after_delay(value@, now) is None,
        },
{
    let t = crate::text::trim_string(value);
    let chars = chars_of(t.as_str());
    match parse_unsigned(chars.as_slice(), u64::MAX) {
        Some(v) => Some(v),
        None => match parse_http_date(t.as_str()) {
            Some(target) => {
                if target > now {
                    let wait: i128 = (target as i128) - (now as i128);
                    Some(wait as u64)
                } else {
                    None
                }
            },
            None => None,
        },
    }
}

} // verus!

//! ESI's rate limits: reading the limit headers of a response, the
//! cooldown that every request waits out, and what to do with each
//! response.
//!
//! Times are milliseconds on a monotonic clock that the caller reads;
//! header values are whole seconds.

use vstd::prelude::*;
use vstd::string::StringSliceAdditionalSpecFns;
use crate::text::{chars_of, lower_seq, parse_u64, parse_u64_spec};

verus! {

/// Retries after a `429` before giving up.
pub const MAX_RATE_LIMIT_RETRIES: usize = 2;

/// The longest cooldown a request waits out by itself.
pub const MAX_AUTO_WAIT_MS: u64 = 5000;

/// The wait when a limit response names none.
pub const DEFAULT_RETRY_AFTER_SECONDS: u64 = 5;

/// The pause when a route's token bucket runs low.
pub const LOW_BUCKET_COOLDOWN_MS: u64 = 1000;

/// Pause once this few errors remain in the error budget.
pub const ERROR_LIMIT_PAUSE_THRESHOLD: u64 = 5;

/// Pause once this few tokens remain in a route's bucket.
pub const RATE_LIMIT_WARN_THRESHOLD: u64 = 10;

/// The headers of a response, in the order they arrived: a name and the
/// raw bytes of its value.
pub struct ResponseHeaders {
    entries: Vec<(String, Vec<u8>)>,
}

pub open spec fn entry_view(e: (String, Vec<u8>)) -> (Seq<char>, Seq<u8>) {
    (e.0@, e.1@)
}

impl View for ResponseHeaders {
    type V = Seq<(Seq<char>, Seq<u8>)>;

    closed spec fn view(&self) -> Seq<(Seq<char>, Seq<u8>)> {
        self.entries@.map_values(|e: (String, Vec<u8>)| entry_view(e))
    }
}

/// Header names compare without regard to ASCII case.
pub open spec fn names_match(a: Seq<char>, b: Seq<char>) -> bool {
    lower_seq(a) == lower_seq(b)
}

/// The value of the first header called `name`.
pub open spec fn first_value(entries: Seq<(Seq<char>, Seq<u8>)>, name: Seq<char>) -> Option<Seq<u8>>
    decreases entries.len(),
{
    if entries.len() == 0 {
        None
    } else if names_match(entries[0].0, name) {
        Some(entries[0].1)
    } else {
        first_value(entries.drop_first(), name)
    }
}

/// A byte a header value may show as text: printable ASCII or a tab.
pub open spec fn visible_ascii(b: u8) -> bool {
    (32 <= b < 127) || b == 9
}

/// The text of the first header called `name`, when its bytes are all
/// printable.
pub open spec fn header_text(entries: Seq<(Seq<char>, Seq<u8>)>, name: Seq<char>) -> Option<Seq<char>> {
    match first_value(entries, name) {
        Some(v) => if forall|i: int| 0 <= i < v.len() ==> visible_ascii(#[trigger] v[i]) {
            Some(v.map_values(|b: u8| b as char))
        } else {
            None
        },
        None => None,
    }
}

/// The first header called `name` as a whole number.
pub open spec fn header_u64_spec(entries: Seq<(Seq<char>, Seq<u8>)>, name: Seq<char>) -> Option<u64> {
    match header_text(entries, name) {
        Some(t) => parse_u64_spec(t),
        None => None,
    }
}

impl ResponseHeaders {
    pub fn new() -> (r: ResponseHeaders)
        ensures
            r@ == Seq::<(Seq<char>, Seq<u8>)>::empty(),
    {
        let r = ResponseHeaders { entries: Vec::new() };
        assert(r@ =~= Seq::<(Seq<char>, Seq<u8>)>::empty());
        r
    }

    /// Adds a header after the others, keeping any of the same name.
    pub fn append(&mut self, name: &str, value: &[u8])
        ensures
            final(self)@ == old(self)@.push((name@, value@)),
    {
        let mut bytes: Vec<u8> = Vec::new();
        let mut i: usize = 0;
        while i < value.len()
            invariant
                i <= value.len(),
                bytes@ == value@.take(i as int),
            decreases value.len() - i,
        {
            bytes.push(value[i]);
            assert(value@.take(i + 1) =~= value@.take(i as int).push(value@[i as int]));
            i = i + 1;
        }
        assert(value@.take(value.len() as int) =~= value@);
        let ghost before = self@;
        self.entries.push((name.to_string(), bytes));
        assert(self@ =~= before.push((name@, value@)));
    }

    /// Sets the header `name` to `value`, dropping every header of that
    /// name that was there.
    pub fn insert(&mut self, name: &str, value: &str)
        ensures
            final(self)@ == old(self)@.filter(|e: (Seq<char>, Seq<u8>)| !names_match(e.0, name@)).push(
                (name@, value.spec_bytes()),
            ),
    {
        let key = lower_chars_of(name);
        let ghost old_view = self@;
        let mut kept: Vec<(String, Vec<u8>)> = Vec::new();
        let mut i: usize = 0;
        while i < self.entries.len()
            invariant
                i <= self.entries.len(),
                old_view == self@,
                key@ == lower_seq(name@),
                kept@.map_values(|e: (String, Vec<u8>)| entry_view(e)) == old_view.take(i as int).filter(
                    |e: (Seq<char>, Seq<u8>)| !names_match(e.0, name@),
                ),
            decreases self.entries.len() - i,
        {
            let entry_key = lower_chars_of(self.entries[i].0.as_str());
            let ghost e = old_view[i as int];
            assert(old_view.take(i + 1) =~= old_view.take(i as int).push(e));
            assert(self.entries@[i as int].0@ == e.0);
            if !crate::text::chars_eq(&entry_key, &key) {
                let copy = (self.entries[i].0.clone(), copy_bytes(&self.entries[i].1));
                let ghost prev = kept@;
                kept.push(copy);
                assert(kept@.map_values(|e: (String, Vec<u8>)| entry_view(e)) =~= prev.map_values(
                    |e: (String, Vec<u8>)| entry_view(e),
                ).push(e));
            }
            proof {
                old_view.take(i as int).lemma_filter_push(e, |e: (Seq<char>, Seq<u8>)| !names_match(e.0, name@));
            }
            i = i + 1;
        }
        assert(old_view.take(self.entries.len() as int) =~= old_view);
        let bytes = copy_bytes_of_str(value);
        let ghost before = kept@.map_values(|e: (String, Vec<u8>)| entry_view(e));
        kept.push((name.to_string(), bytes));
        self.entries = kept;
        assert(self@ =~= before.push((name@, value.spec_bytes())));
    }
}

fn lower_chars_of(s: &str) -> (r: Vec<char>)
    ensures
        r@ == lower_seq(s@),
{
    crate::text::lower_chars(&chars_of(s))
}

fn copy_bytes(v: &Vec<u8>) -> (r: Vec<u8>)
    ensures
        r@ == v@,
{
    let mut r: Vec<u8> = Vec::new();
    let mut i: usize = 0;
    while i < v.len()
        invariant
            i <= v.len(),
            r@ == v@.take(i as int),
        decreases v.len() - i,
    {
        r.push(v[i]);
        assert(v@.take(i + 1) =~= v@.take(i as int).push(v@[i as int]));
        i = i + 1;
    }
    assert(v@.take(v.len() as int) =~= v@);
    r
}

fn copy_bytes_of_str(s: &str) -> (r: Vec<u8>)
    ensures
        r@ == s.spec_bytes(),
{
    let b = s.as_bytes();
    let mut r: Vec<u8> = Vec::new();
    let mut i: usize = 0;
    while i < b.len()
        invariant
            i <= b.len(),
            b@ == s.spec_bytes(),
            r@ == b@.take(i as int),
        decreases b.len() - i,
    {
        r.push(b[i]);
        assert(b@.take(i + 1) =~= b@.take(i as int).push(b@[i as int]));
        i = i + 1;
    }
    assert(b@.take(b.len() as int) =~= b@);
    r
}

/// The bytes of the first header called `name`.
fn first_header_value<'a>(headers: &'a ResponseHeaders, name: &str) -> (r: Option<&'a Vec<u8>>)
    ensures
        match first_value(headers@, name@) {
            Some(v) => r matches Some(b) && b@ == v,
            None => r is None,
        },
{
    let key = lower_chars_of(name);
    let ghost all = headers@;
    assert(all.skip(0) =~= all);
    let mut i: usize = 0;
    while i < headers.entries.len()
        invariant
            i <= headers.entries.len(),
            all == headers@,
            key@ == lower_seq(name@),
            first_value(all, name@) == first_value(all.skip(i as int), name@),
        decreases headers.entries.len() - i,
    {
        assert(all.skip(i as int).drop_first() =~= all.skip(i + 1));
        assert(all.skip(i as int)[0] == entry_view(headers.entries@[i as int]));
        let entry_key = lower_chars_of(headers.entries[i].0.as_str());
        if crate::text::chars_eq(&entry_key, &key) {
            return Some(&headers.entries[i].1);
        }
        i = i + 1;
    }
    None
}

/// `HeaderMap::get(name)` followed by `HeaderValue::to_str` and a parse as
/// `u64`.
pub fn header_u64(headers: &ResponseHeaders, name: &str) -> (r: Option<u64>)
    ensures
        r == header_u64_spec(headers@, name@),
{
    let value = match first_header_value(headers, name) {
        Some(v) => v,
        None => {
            assert(first_value(headers@, name@) is None);
            assert(header_text(headers@, name@) is None);
            return None;
        },
    };
    let mut text: Vec<char> = Vec::new();
    let mut i: usize = 0;
    while i < value.len()
        invariant
            i <= value.len(),
            text@ == value@.take(i as int).map_values(|b: u8| b as char),
            forall|j: int| 0 <= j < i ==> visible_ascii(#[trigger] value@[j]),
            first_value(headers@, name@) == Some(value@),
        decreases value.len() - i,
    {
        let b = value[i];
        if !((32 <= b && b < 127) || b == 9) {
            assert(!visible_ascii(value@[i as int]));
            return None;
        }
        text.push(b as char);
        assert(value@.take(i + 1).map_values(|b: u8| b as char) =~= value@.take(i as int).map_values(
            |b: u8| b as char,
        ).push(b as char));
        i = i + 1;
    }
    assert(value@.take(value.len() as int) =~= value@);
    parse_u64(&text)
}

/// Whether some header is called `name`.
pub fn has_header(headers: &ResponseHeaders, name: &str) -> (r: bool)
    ensures
        r == first_value(headers@, name@) is Some,
{
    first_header_value(headers, name).is_some()
}

/// Seconds to wait according to `Retry-After`.
pub fn retry_after_duration(headers: &ResponseHeaders) -> (r: Option<u64>)
    ensures
        r == header_u64_spec(headers@, "Retry-After"@),
{
    header_u64(headers, "Retry-After")
}

/// Seconds until the error budget refills, from `X-Esi-Error-Limit-Reset`.
pub fn error_limit_reset_duration(headers: &ResponseHeaders) -> (r: Option<u64>)
    ensures
        r == header_u64_spec(headers@, "X-Esi-Error-Limit-Reset"@),
{
    header_u64(headers, "X-Esi-Error-Limit-Reset")
}

/// A wait in whole seconds as messages show it: never less than one.
pub fn wait_seconds(wait_ms: u64) -> (r: u64)
    ensures
        r == if wait_ms / 1000 >= 1 { wait_ms / 1000 } else { 1 },
{
    let secs = wait_ms / 1000;
    if secs >= 1 { secs } else { 1 }
}

// ---------------------------------------------------------------------
// The shared cooldown
// ---------------------------------------------------------------------

/// Until when every ESI request waits.
pub struct RateLimitState {
    pub cooldown_until_ms: Option<u64>,
}

impl Default for RateLimitState {
    fn default() -> (r: RateLimitState)
        ensures
            r.cooldown_until_ms is None,
    {
        RateLimitState { cooldown_until_ms: None }
    }
}

/// The cooldown after recording a wait of `wait_ms` at `now_ms`: it ends
/// at the later of its old end and `now_ms + wait_ms`; a zero wait
/// changes nothing.
pub open spec fn after_cooldown(until: Option<u64>, now_ms: u64, wait_ms: u64) -> Option<u64> {
    if wait_ms == 0 {
        until
    } else {
        match until {
            Some(u) => if now_ms + wait_ms > u {
                Some((now_ms + wait_ms) as u64)
            } else {
                Some(u)
            },
            None => Some((now_ms + wait_ms) as u64),
        }
    }
}

impl RateLimitState {
    /// How long the recorded cooldown still lasts at `now_ms`; one that
    /// has run out is forgotten.
    pub fn recorded_cooldown(&mut self, now_ms: u64) -> (r: Option<u64>)
        ensures
            match old(self).cooldown_until_ms {
                None => r is None && final(self).cooldown_until_ms is None,
                Some(u) => if u <= now_ms {
                    r is None && final(self).cooldown_until_ms is None
                } else {
                    r == Some((u - now_ms) as u64) && final(self).cooldown_until_ms == Some(u)
                },
            },
    {
        match self.cooldown_until_ms {
            None => None,
            Some(u) => {
                if u <= now_ms {
                    self.cooldown_until_ms = None;
                    None
                } else {
                    Some(u - now_ms)
                }
            },
        }
    }

    /// Makes every request wait at least `wait_ms` from `now_ms`; a
    /// longer cooldown already recorded stays.
    pub fn record_cooldown(&mut self, now_ms: u64, wait_ms: u64)
        requires
            now_ms + wait_ms <= u64::MAX,
        ensures
            final(self).cooldown_until_ms == after_cooldown(old(self).cooldown_until_ms, now_ms, wait_ms),
    {
        if wait_ms == 0 {
            return;
        }
        let until = now_ms + wait_ms;
        match self.cooldown_until_ms {
            Some(existing) => {
                if until > existing {
                    self.cooldown_until_ms = Some(until);
                }
            },
            None => {
                self.cooldown_until_ms = Some(until);
            },
        }
    }
}

/// Recording a cooldown never shortens the one that was there, and it
/// lasts at least as long as the wait.
pub proof fn law_cooldown_only_grows(until: Option<u64>, now_ms: u64, wait_ms: u64)
    requires
        wait_ms > 0,
        now_ms + wait_ms <= u64::MAX,
    ensures
        after_cooldown(until, now_ms, wait_ms) matches Some(v) && v >= now_ms + wait_ms && (until matches Some(
            u,
        ) ==> v >= u),
{
}

// ---------------------------------------------------------------------
// Deciding on a response
// ---------------------------------------------------------------------

#[derive(Clone, Copy, Debug, PartialEq, Eq, Structural)]
pub enum RateLimitDecision {
    ReturnResponse,
    /// Send again after this many milliseconds.
    RetryAfter(u64),
}

/// Why an ESI request was given up.
#[derive(Clone, Copy, Debug, PartialEq, Eq, Structural)]
pub enum RateLimitError {
    /// ESI's error limit was reached; retry after this many seconds.
    ErrorLimitReached(u64),
    /// A cooldown longer than a request waits by itself is active.
    CooldownActive(u64),
    /// The bucket limit stayed active through every retry.
    RetriesExhausted(u64),
    /// No attempt was left.
    AttemptsExhausted,
}

impl RateLimitError {
    /// The message the error shows for `operation`.
    pub fn message(&self, operation: &str) -> (r: String)
        ensures
            r@ == rate_limit_error_text(*self, operation@),
    {
        let mut out: Vec<char> = Vec::new();
        match *self {
            RateLimitError::ErrorLimitReached(secs) => {
                crate::text::push_str(&mut out, "ESI error limit reached while ");
                crate::text::push_all(&mut out, &chars_of(operation));
                crate::text::push_str(&mut out, "; retry after ");
                crate::text::push_decimal(&mut out, secs);
                crate::text::push_str(&mut out, "s");
            },
            RateLimitError::CooldownActive(secs) => {
                crate::text::push_str(&mut out, "ESI rate limit cooldown active for ");
                crate::text::push_decimal(&mut out, secs);
                crate::text::push_str(&mut out, "s before ");
                crate::text::push_all(&mut out, &chars_of(operation));
                crate::text::push_str(&mut out, "; try again shortly");
            },
            RateLimitError::RetriesExhausted(secs) => {
                crate::text::push_str(&mut out, "ESI rate limit remained active after retries for ");
                crate::text::push_all(&mut out, &chars_of(operation));
                crate::text::push_str(&mut out, "; retry after ");
                crate::text::push_decimal(&mut out, secs);
                crate::text::push_str(&mut out, "s");
            },
            RateLimitError::AttemptsExhausted => {
                crate::text::push_str(&mut out, "ESI request for ");
                crate::text::push_all(&mut out, &chars_of(operation));
                crate::text::push_str(&mut out, " exhausted rate-limit retries");
            },
        }
        crate::text::string_of(&out)
    }
}

pub open spec fn rate_limit_error_text(e: RateLimitError, operation: Seq<char>) -> Seq<char> {
    match e {
        RateLimitError::ErrorLimitReached(secs) => "ESI error limit reached while "@ + operation + "; retry after "@
            + crate::text::decimal(secs as nat) + "s"@,
        RateLimitError::CooldownActive(secs) => "ESI rate limit cooldown active for "@ + crate::text::decimal(
            secs as nat,
        ) + "s before "@ + operation + "; try again shortly"@,
        RateLimitError::RetriesExhausted(secs) => "ESI rate limit remained active after retries for "@ + operation
            + "; retry after "@ + crate::text::decimal(secs as nat) + "s"@,
        RateLimitError::AttemptsExhausted => "ESI request for "@ + operation + " exhausted rate-limit retries"@,
    }
}

/// A wait in seconds, or the default when the header is missing or not a
/// number, in milliseconds.
pub open spec fn wait_ms_or_default(secs: Option<u64>) -> int {
    match secs {
        Some(s) => s * 1000,
        None => DEFAULT_RETRY_AFTER_SECONDS * 1000,
    }
}

/// Every wait that a response can ask for fits on the clock after
/// `now_ms`.
pub open spec fn waits_fit(now_ms: u64, headers: Seq<(Seq<char>, Seq<u8>)>) -> bool {
    &&& now_ms + wait_ms_or_default(header_u64_spec(headers, "Retry-After"@)) <= u64::MAX
    &&& now_ms + wait_ms_or_default(header_u64_spec(headers, "X-Esi-Error-Limit-Reset"@)) <= u64::MAX
    &&& now_ms + LOW_BUCKET_COOLDOWN_MS <= u64::MAX
}

/// Whether the waits a response asks for fit on the clock after `now_ms`.
pub fn response_waits_fit(now_ms: u64, headers: &ResponseHeaders) -> (r: bool)
    ensures
        r == waits_fit(now_ms, headers@),
{
    let retry = retry_after_duration(headers);
    let reset = error_limit_reset_duration(headers);
    wait_fits(now_ms, retry) && wait_fits(now_ms, reset) && now_ms <= u64::MAX - LOW_BUCKET_COOLDOWN_MS
}

fn wait_fits(now_ms: u64, secs: Option<u64>) -> (r: bool)
    ensures
        r == (now_ms + wait_ms_or_default(secs) <= u64::MAX),
{
    let s = match secs {
        Some(s) => s,
        None => DEFAULT_RETRY_AFTER_SECONDS,
    };
    s <= (u64::MAX - now_ms) / 1000
}

/// The cooldown after looking at the error-budget headers.
pub open spec fn after_error_budget(until: Option<u64>, now_ms: u64, h: Seq<(Seq<char>, Seq<u8>)>) -> Option<u64> {
    match header_u64_spec(h, "X-Esi-Error-Limit-Remain"@) {
        Some(remaining) => if remaining <= ERROR_LIMIT_PAUSE_THRESHOLD {
            after_cooldown(
                until,
                now_ms,
                wait_ms_or_default(header_u64_spec(h, "X-Esi-Error-Limit-Reset"@)) as u64,
            )
        } else {
            until
        },
        None => until,
    }
}

/// The cooldown after looking at a route's bucket headers.
pub open spec fn after_bucket(until: Option<u64>, now_ms: u64, h: Seq<(Seq<char>, Seq<u8>)>) -> Option<u64> {
    match header_u64_spec(h, "X-Ratelimit-Remaining"@) {
        Some(remaining) => if remaining <= RATE_LIMIT_WARN_THRESHOLD {
            after_cooldown(until, now_ms, LOW_BUCKET_COOLDOWN_MS)
        } else {
            until
        },
        None => until,
    }
}

/// Whether a response says the error limit was hit.
pub open spec fn error_limited(status: u16, h: Seq<(Seq<char>, Seq<u8>)>) -> bool {
    status == 420 || first_value(h, "X-Esi-Error-Limited"@) is Some
}

/// What a response at `now_ms` leads to: the cooldown afterwards, and
/// whether to hand the response back, send again, or give up.
pub open spec fn decide(until: Option<u64>, now_ms: u64, status: u16, h: Seq<(Seq<char>, Seq<u8>)>) -> (
    Option<u64>,
    Result<RateLimitDecision, RateLimitError>,
) {
    let u1 = after_error_budget(until, now_ms, h);
    let u2 = after_bucket(u1, now_ms, h);
    if status == 429 {
        let wait = wait_ms_or_default(header_u64_spec(h, "Retry-After"@)) as u64;
        (after_cooldown(u2, now_ms, wait), Ok(RateLimitDecision::RetryAfter(wait)))
    } else if error_limited(status, h) {
        let wait = wait_ms_or_default(header_u64_spec(h, "X-Esi-Error-Limit-Reset"@)) as u64;
        let secs = if wait / 1000 >= 1 { wait / 1000 } else { 1 };
        (after_cooldown(u2, now_ms, wait), Err(RateLimitError::ErrorLimitReached(secs)))
    } else {
        (u2, Ok(RateLimitDecision::ReturnResponse))
    }
}

fn wait_ms_of(secs: Option<u64>, now_ms: u64) -> (r: u64)
    requires
        now_ms + wait_ms_or_default(secs) <= u64::MAX,
    ensures
        r == wait_ms_or_default(secs),
{
    match secs {
        Some(s) => s * 1000,
        None => DEFAULT_RETRY_AFTER_SECONDS * 1000,
    }
}

/// Reads the limit headers of a response with `status` at `now_ms`,
/// records the cooldowns they ask for, and decides what happens next.
pub fn rate_limit_decision(state: &mut RateLimitState, now_ms: u64, status: u16, headers: &ResponseHeaders) -> (r:
    Result<RateLimitDecision, RateLimitError>)
    requires
        waits_fit(now_ms, headers@),
    ensures
        (final(state).cooldown_until_ms, r) == decide(old(state).cooldown_until_ms, now_ms, status, headers@),
{
    // the error budget
    let reset = error_limit_reset_duration(headers);
    match header_u64(headers, "X-Esi-Error-Limit-Remain") {
        Some(remaining) => {
            if remaining <= ERROR_LIMIT_PAUSE_THRESHOLD {
                let wait = wait_ms_of(reset, now_ms);
                state.record_cooldown(now_ms, wait);
            }
        },
        None => {},
    }
    // the route's bucket
    match header_u64(headers, "X-Ratelimit-Remaining") {
        Some(remaining) => {
            if remaining <= RATE_LIMIT_WARN_THRESHOLD {
                state.record_cooldown(now_ms, LOW_BUCKET_COOLDOWN_MS);
            }
        },
        None => {},
    }
    if status == 429 {
        let wait = wait_ms_of(retry_after_duration(headers), now_ms);
        state.record_cooldown(now_ms, wait);
        return Ok(RateLimitDecision::RetryAfter(wait));
    }
    if status == 420 || has_header(headers, "X-Esi-Error-Limited") {
        let wait = wait_ms_of(reset, now_ms);
        state.record_cooldown(now_ms, wait);
        return Err(RateLimitError::ErrorLimitReached(wait_seconds(wait)));
    }
    Ok(RateLimitDecision::ReturnResponse)
}

/// What waiting out `wait_ms` before a request comes to: nothing, a
/// sleep of that long, or an error when it is longer than a request waits
/// by itself.
pub fn wait_plan(wait_ms: u64) -> (r: Result<Option<u64>, RateLimitError>)
    ensures
        wait_ms == 0 ==> r == Ok::<Option<u64>, RateLimitError>(None),
        0 < wait_ms <= MAX_AUTO_WAIT_MS ==> r == Ok::<Option<u64>, RateLimitError>(Some(wait_ms)),
        wait_ms > MAX_AUTO_WAIT_MS ==> r == Err::<Option<u64>, RateLimitError>(
            RateLimitError::CooldownActive(if wait_ms / 1000 >= 1 { wait_ms / 1000 } else { 1 }),
        ),
{
    if wait_ms == 0 {
        return Ok(None);
    }
    if wait_ms > MAX_AUTO_WAIT_MS {
        return Err(RateLimitError::CooldownActive(wait_seconds(wait_ms)));
    }
    Ok(Some(wait_ms))
}

/// What a request does after a decision on its `attempt`-th response
/// (counting from zero).
#[derive(Clone, Copy, Debug, PartialEq, Eq, Structural)]
pub enum SendStep {
    /// Hand the response to the caller.
    Return,
    /// Wait this many milliseconds, then send again.
    Retry(u64),
    /// Give up with this error.
    Fail(RateLimitError),
}

/// The next step of a request: a `429` is retried while retries are left.
pub fn next_send_step(attempt: usize, decision: RateLimitDecision) -> (r: SendStep)
    ensures
        decision == RateLimitDecision::ReturnResponse ==> r == SendStep::Return,
        decision matches RateLimitDecision::RetryAfter(w) ==> (if attempt < MAX_RATE_LIMIT_RETRIES {
            r == SendStep::Retry(w)
        } else {
            r == SendStep::Fail(RateLimitError::RetriesExhausted(if w / 1000 >= 1 { w / 1000 } else { 1 }))
        }),
{
    match decision {
        RateLimitDecision::ReturnResponse => SendStep::Return,
        RateLimitDecision::RetryAfter(wait) => {
            if attempt < MAX_RATE_LIMIT_RETRIES {
                SendStep::Retry(wait)
            } else {
                SendStep::Fail(RateLimitError::RetriesExhausted(wait_seconds(wait)))
            }
        },
    }
}

/// The error-budget pause: when ESI says five or fewer errors are left
/// before its error limit, every request waits at least until the limit
/// resets (five seconds when the reset is not given), and a response that
/// is neither a `429` nor an error-limit answer is still handed back.
pub proof fn law_low_error_budget_pauses(until: Option<u64>, now_ms: u64, status: u16, h: Seq<(Seq<char>, Seq<u8>)>)
    requires
        waits_fit(now_ms, h),
        header_u64_spec(h, "X-Esi-Error-Limit-Remain"@) matches Some(remaining) && remaining <= 5,
    ensures
        ({
            let reset_ms: int = match header_u64_spec(h, "X-Esi-Error-Limit-Reset"@) {
                Some(secs) => secs * 1000,
                None => 5000,
            };
            reset_ms > 0 ==> (decide(until, now_ms, status, h).0 matches Some(v) && v >= now_ms + reset_ms)
        }),
        status != 429 && status != 420 && first_value(h, "X-Esi-Error-Limited"@) is None ==> decide(
            until,
            now_ms,
            status,
            h,
        ).1 == Ok::<RateLimitDecision, RateLimitError>(RateLimitDecision::ReturnResponse),
{
}

/// A healthy response leaves the cooldown alone: with more than five
/// errors left (or no error-budget header), more than ten requests left in
/// the route's bucket (or no bucket header), and neither a `429` nor an
/// error-limit answer, the response is handed back and nothing waits.
pub proof fn law_healthy_response_keeps_cooldown(until: Option<u64>, now_ms: u64, status: u16, h: Seq<(Seq<char>, Seq<u8>)>)
    requires
        waits_fit(now_ms, h),
        header_u64_spec(h, "X-Esi-Error-Limit-Remain"@) matches Some(remaining) ==> remaining > 5,
        header_u64_spec(h, "X-Ratelimit-Remaining"@) matches Some(remaining) ==> remaining > 10,
        status != 429,
        status != 420,
        first_value(h, "X-Esi-Error-Limited"@) is None,
    ensures
        decide(until, now_ms, status, h) == (until, Ok::<RateLimitDecision, RateLimitError>(RateLimitDecision::ReturnResponse)),
{
}

/// A nearly empty bucket pauses the route: with ten or fewer requests
/// left, every request waits at least a second.
pub proof fn law_low_bucket_pauses(until: Option<u64>, now_ms: u64, status: u16, h: Seq<(Seq<char>, Seq<u8>)>)
    requires
        waits_fit(now_ms, h),
        header_u64_spec(h, "X-Ratelimit-Remaining"@) matches Some(remaining) && remaining <= 10,
    ensures
        decide(until, now_ms, status, h).0 matches Some(v) && v >= now_ms + 1000,
{
}

/// A decision never shortens a cooldown already recorded.
pub proof fn law_decision_never_shortens_cooldown(until: Option<u64>, now_ms: u64, status: u16, h: Seq<(Seq<char>, Seq<u8>)>)
    requires
        waits_fit(now_ms, h),
        until matches Some(u),
    ensures
        decide(until, now_ms, status, h).0 matches Some(v) && v >= until->0,
{
}

/// A `429` is sent again after its `Retry-After` (five seconds when not
/// given), and every request waits at least that long.
pub proof fn law_too_many_requests_retries(until: Option<u64>, now_ms: u64, h: Seq<(Seq<char>, Seq<u8>)>)
    requires
        waits_fit(now_ms, h),
    ensures
        ({
            let wait: int = match header_u64_spec(h, "Retry-After"@) {
                Some(secs) => secs * 1000,
                None => 5000,
            };
            &&& decide(until, now_ms, 429, h).1 == Ok::<RateLimitDecision, RateLimitError>(
                RateLimitDecision::RetryAfter(wait as u64),
            )
            &&& wait > 0 ==> (decide(until, now_ms, 429, h).0 matches Some(v) && v >= now_ms + wait)
        }),
{
}

} // verus!

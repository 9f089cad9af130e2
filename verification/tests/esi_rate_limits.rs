use set_desto::rate_limit::{
    error_limit_reset_duration, has_header, header_u64, next_send_step, rate_limit_decision,
    response_waits_fit, retry_after_duration, wait_plan, wait_seconds, RateLimitDecision,
    RateLimitError, RateLimitState, ResponseHeaders, SendStep,
};

#[test]
fn parses_retry_after_header() {
    let mut headers = ResponseHeaders::new();
    headers.insert("Retry-After", "7");

    assert_eq!(retry_after_duration(&headers), Some(7));
}

#[test]
fn parses_error_limit_reset_header() {
    let mut headers = ResponseHeaders::new();
    headers.insert("X-Esi-Error-Limit-Reset", "43");

    assert_eq!(error_limit_reset_duration(&headers), Some(43));
}

#[test]
fn ignores_invalid_numeric_headers() {
    let mut headers = ResponseHeaders::new();
    headers.insert("X-Ratelimit-Remaining", "nope");

    assert_eq!(header_u64(&headers, "X-Ratelimit-Remaining"), None);
}

#[test]
fn header_names_ignore_ascii_case_and_the_first_counts() {
    let mut headers = ResponseHeaders::new();
    headers.append("retry-after", b"3");
    headers.append("Retry-After", b"9");
    assert_eq!(retry_after_duration(&headers), Some(3));
    assert!(has_header(&headers, "RETRY-AFTER"));
    headers.insert("RETRY-after", "11");
    assert_eq!(retry_after_duration(&headers), Some(11));
}

#[test]
fn non_text_header_bytes_are_not_numbers() {
    let mut headers = ResponseHeaders::new();
    headers.append("Retry-After", &[0x37, 0xff]);
    assert_eq!(retry_after_duration(&headers), None);
    assert!(has_header(&headers, "Retry-After"));
}

#[test]
fn too_many_requests_waits_for_retry_after() {
    let mut state = RateLimitState::default();
    let mut headers = ResponseHeaders::new();
    headers.insert("Retry-After", "2");
    assert!(response_waits_fit(1_000, &headers));
    let decision = rate_limit_decision(&mut state, 1_000, 429, &headers);
    assert_eq!(decision, Ok(RateLimitDecision::RetryAfter(2_000)));
    assert_eq!(state.cooldown_until_ms, Some(3_000));
}

#[test]
fn too_many_requests_defaults_to_five_seconds() {
    let mut state = RateLimitState::default();
    let headers = ResponseHeaders::new();
    let decision = rate_limit_decision(&mut state, 0, 429, &headers);
    assert_eq!(decision, Ok(RateLimitDecision::RetryAfter(5_000)));
}

#[test]
fn error_limit_is_an_error_with_the_reset_time() {
    let mut state = RateLimitState::default();
    let mut headers = ResponseHeaders::new();
    headers.insert("X-Esi-Error-Limit-Reset", "30");
    let decision = rate_limit_decision(&mut state, 500, 420, &headers);
    assert_eq!(decision, Err(RateLimitError::ErrorLimitReached(30)));
    assert_eq!(state.cooldown_until_ms, Some(30_500));
    assert_eq!(
        RateLimitError::ErrorLimitReached(30).message("sending waypoint"),
        "ESI error limit reached while sending waypoint; retry after 30s"
    );
}

#[test]
fn low_budgets_record_a_cooldown_but_return_the_response() {
    let mut state = RateLimitState::default();
    let mut headers = ResponseHeaders::new();
    headers.insert("X-Ratelimit-Remaining", "10");
    let decision = rate_limit_decision(&mut state, 100, 200, &headers);
    assert_eq!(decision, Ok(RateLimitDecision::ReturnResponse));
    assert_eq!(state.cooldown_until_ms, Some(1_100));

    let mut state = RateLimitState::default();
    let mut headers = ResponseHeaders::new();
    headers.insert("X-Ratelimit-Remaining", "11");
    assert_eq!(rate_limit_decision(&mut state, 100, 200, &headers), Ok(RateLimitDecision::ReturnResponse));
    assert_eq!(state.cooldown_until_ms, None);
}

#[test]
fn cooldowns_only_grow_and_expire() {
    let mut state = RateLimitState::default();
    state.record_cooldown(1_000, 4_000);
    state.record_cooldown(1_000, 1_000);
    assert_eq!(state.cooldown_until_ms, Some(5_000));
    assert_eq!(state.recorded_cooldown(2_000), Some(3_000));
    assert_eq!(state.recorded_cooldown(5_000), None);
    assert_eq!(state.cooldown_until_ms, None);
}

#[test]
fn waits_are_planned_up_to_the_automatic_limit() {
    assert_eq!(wait_plan(0), Ok(None));
    assert_eq!(wait_plan(5_000), Ok(Some(5_000)));
    assert_eq!(wait_plan(5_001), Err(RateLimitError::CooldownActive(5)));
    assert_eq!(wait_seconds(200), 1);
    assert_eq!(
        RateLimitError::CooldownActive(5).message("searching structures"),
        "ESI rate limit cooldown active for 5s before searching structures; try again shortly"
    );
}

#[test]
fn retries_stop_after_the_limit() {
    assert_eq!(next_send_step(0, RateLimitDecision::RetryAfter(2_000)), SendStep::Retry(2_000));
    assert_eq!(next_send_step(1, RateLimitDecision::RetryAfter(2_000)), SendStep::Retry(2_000));
    assert_eq!(
        next_send_step(2, RateLimitDecision::RetryAfter(2_000)),
        SendStep::Fail(RateLimitError::RetriesExhausted(2))
    );
    assert_eq!(next_send_step(5, RateLimitDecision::ReturnResponse), SendStep::Return);
}

use prompt_codec::calendar::{civil_from_days, rfc3339_from_unix};
use prompt_codec::decimal::parse_u64;
use prompt_codec::telemetry::{
    extract_cached_tokens, flush_due, last_cached_tokens, now_rfc3339, now_unix, unix_seconds,
    RecentRequest, RecentRequests, TailBuffer, Totals, TotalsSnapshot, TAIL_CAP,
};

#[test]
fn tail_buffer_keeps_only_last_16kb() {
    let mut tb = TailBuffer::new();
    for i in 0..(TAIL_CAP * 4) {
        let byte = [b'a' + (i % 26) as u8];
        tb.push(&byte);
    }
    let marker = b"MARKER_AT_THE_VERY_END";
    tb.push(marker);
    let bytes = tb.as_bytes();
    assert_eq!(bytes.len(), TAIL_CAP, "ring never exceeds its cap");
    assert!(bytes.ends_with(marker), "the most recent bytes must survive");
}

#[test]
fn tail_buffer_oversized_single_chunk_keeps_its_own_tail() {
    let mut tb = TailBuffer::new();
    let mut big = vec![b'x'; TAIL_CAP + 500];
    big.extend_from_slice(b"TAILEND");
    tb.push(&big);
    let bytes = tb.as_bytes();
    assert_eq!(bytes.len(), TAIL_CAP);
    assert!(bytes.ends_with(b"TAILEND"));
}

#[test]
fn tail_does_not_depend_on_chunking() {
    let body: Vec<u8> = (0..TAIL_CAP + 777).map(|i| (i % 251) as u8).collect();
    let mut whole = TailBuffer::default();
    whole.push(&body);
    for cut in [0, 1, 700, 777, TAIL_CAP, TAIL_CAP + 1] {
        let mut parts = TailBuffer::new();
        parts.push(&body[..cut]);
        parts.push(&body[cut..]);
        assert_eq!(parts.as_bytes(), whole.as_bytes());
        assert_eq!(parts.as_bytes(), &body[777..]);
    }
    let mut few = TailBuffer::new();
    few.push(b"ab");
    few.push(b"");
    few.push(b"c");
    assert_eq!(few.as_bytes(), b"abc");
}

#[test]
fn extract_finds_cached_tokens_in_plain_json_tail() {
    let body = br#"{"id":"x","usage":{"prompt_tokens":100,"prompt_tokens_details":{"cached_tokens":40}}}"#;
    assert_eq!(extract_cached_tokens(body), Some(40));
}

#[test]
fn extract_finds_cached_tokens_in_final_sse_chunk() {
    let sse = b"data: {\"choices\":[]}\n\ndata: {\"usage\":{\"prompt_tokens\":80,\"prompt_tokens_details\":{\"cached_tokens\": 12}}}\n\ndata: [DONE]\n\n";
    assert_eq!(extract_cached_tokens(sse), Some(12));
}

#[test]
fn extract_matches_anthropic_cache_read_input_tokens() {
    let body = br#"{"usage":{"input_tokens":200,"cache_read_input_tokens":150,"output_tokens":5}}"#;
    assert_eq!(extract_cached_tokens(body), Some(150));
}

#[test]
fn extract_prefers_last_occurrence() {
    let body = br#"{"cached_tokens": 10} ... {"cached_tokens":  99 }"#;
    assert_eq!(extract_cached_tokens(body), Some(99));
}

#[test]
fn extract_returns_none_when_absent() {
    let body = br#"{"id":"x","choices":[{"message":{"content":"hi"}}]}"#;
    assert_eq!(extract_cached_tokens(body), None);
}

#[test]
fn extract_finds_value_split_across_ring_boundary() {
    let filler = vec![b' '; TAIL_CAP];
    let payload = br#"trailing junk {"cached_tokens":  777 } end"#;
    let mut tb = TailBuffer::new();
    for b in filler.iter().chain(payload.iter()) {
        tb.push(&[*b]);
    }
    assert_eq!(extract_cached_tokens(tb.as_bytes()), Some(777));
}

#[test]
fn extract_copes_with_bytes_that_are_no_text() {
    let mut body = vec![0xff, 0xfe, b' '];
    body.extend_from_slice(br#""cached_tokens":7"#);
    body.push(0xc3);
    assert_eq!(extract_cached_tokens(&body), Some(7));
    // A count beyond the range is none, even if an earlier one was in it.
    let body = br#""cached_tokens":7 "cached_tokens":99999999999999999999"#;
    assert_eq!(extract_cached_tokens(body), None);
}

#[test]
fn last_count_is_taken() {
    assert_eq!(last_cached_tokens(&vec![]), None);
    assert_eq!(last_cached_tokens(&vec!["1".to_string(), "22".to_string()]), Some(22));
    assert_eq!(last_cached_tokens(&vec!["1".to_string(), "x".to_string()]), None);
}

#[test]
fn numbers_are_read_as_far_as_they_fit() {
    assert_eq!(parse_u64("18446744073709551615"), Some(u64::MAX));
    assert_eq!(parse_u64("18446744073709551616"), None);
    assert_eq!(parse_u64("+5"), Some(5));
    assert_eq!(parse_u64("007"), Some(7));
    assert_eq!(parse_u64(""), None);
    assert_eq!(parse_u64("-1"), None);
    assert_eq!(parse_u64("1 "), None);
}

#[test]
fn totals_record_request_returns_running_count_and_sums() {
    let mut t = Totals::fresh();
    assert_eq!(t.record_request(100, 40), 1);
    assert_eq!(t.record_request(200, 90), 2);
    let s = t.snapshot();
    assert_eq!(s.requests, 2);
    assert_eq!(s.before_tokens, 300);
    assert_eq!(s.after_tokens, 130);
    assert_eq!(s.saved_tokens(), 170);
}

#[test]
fn totals_saved_tokens_clamps_on_expansion() {
    let s = TotalsSnapshot {
        requests: 1,
        before_tokens: 100,
        after_tokens: 150,
        upstream_cached_tokens: 0,
        responses_with_cache_info: 0,
        since: "x".to_string(),
    };
    assert_eq!(s.saved_tokens(), 0);
}

#[test]
fn totals_go_on_from_a_snapshot() {
    let mut t = Totals::load(Some(TotalsSnapshot {
        requests: 3,
        before_tokens: 1000,
        after_tokens: 400,
        upstream_cached_tokens: 80,
        responses_with_cache_info: 2,
        since: "2026-07-18T17:00:00Z".to_string(),
    }));
    t.record_cache_info(40);
    let s = t.snapshot();
    assert_eq!(s.requests, 3);
    assert_eq!(s.saved_tokens(), 600);
    assert_eq!(s.upstream_cached_tokens, 120);
    assert_eq!(s.responses_with_cache_info, 3);
    assert_eq!(s.since, "2026-07-18T17:00:00Z");
}

#[test]
fn totals_without_a_snapshot_are_fresh() {
    let t = Totals::load(None);
    assert_eq!(t.snapshot().requests, 0);
    assert!(t.snapshot().since.ends_with('Z'));
    assert_eq!(Totals::starting("x".to_string()).snapshot().since, "x");
}

#[test]
fn counters_wrap_around() {
    let mut t = Totals::from_snapshot(TotalsSnapshot {
        requests: u64::MAX,
        before_tokens: u64::MAX,
        after_tokens: 0,
        upstream_cached_tokens: u64::MAX,
        responses_with_cache_info: 0,
        since: "x".to_string(),
    });
    assert_eq!(t.record_request(2, 1), 0);
    t.record_cache_info(1);
    assert_eq!(t.snapshot().before_tokens, 1);
    assert_eq!(t.snapshot().upstream_cached_tokens, 0);
}

#[test]
fn totals_are_flushed_every_32_requests() {
    assert!(!flush_due(31));
    assert!(flush_due(32));
    assert!(!flush_due(33));
    assert!(flush_due(64));
}

#[test]
fn recent_requests_forget_the_oldest() {
    let mut r = RecentRequests::new();
    for i in 0..60 {
        r.push(RecentRequest {
            endpoint: format!("/v1/{i}"),
            before_tokens: i,
            after_tokens: 1,
        });
    }
    assert_eq!(r.len(), 50);
    assert_eq!(r.get(0).unwrap().endpoint, "/v1/10");
    assert_eq!(r.get(49).unwrap().before_tokens, 59);
    assert!(r.get(50).is_none());
}

#[test]
fn rfc3339_formats_known_timestamps() {
    assert_eq!(rfc3339_from_unix(0), "1970-01-01T00:00:00Z");
    assert_eq!(rfc3339_from_unix(1_000_000_000), "2001-09-09T01:46:40Z");
}

#[test]
fn dates_are_right_at_the_edges() {
    assert_eq!(rfc3339_from_unix(-1), "1969-12-31T23:59:59Z");
    assert_eq!(rfc3339_from_unix(951_782_399), "2000-02-28T23:59:59Z");
    assert_eq!(rfc3339_from_unix(951_782_400), "2000-02-29T00:00:00Z");
    assert_eq!(rfc3339_from_unix(4_107_542_400), "2100-03-01T00:00:00Z");
    assert_eq!(rfc3339_from_unix(4_107_542_399), "2100-02-28T23:59:59Z");
    assert_eq!(rfc3339_from_unix(-62_167_219_200), "0000-01-01T00:00:00Z");
    assert_eq!(rfc3339_from_unix(-62_167_219_201), "-001-12-31T23:59:59Z");
    assert_eq!(rfc3339_from_unix(253_402_300_800), "10000-01-01T00:00:00Z");
    assert_eq!(civil_from_days(-719_468), (0, 3, 1));
    assert_eq!(civil_from_days(19_782), (2024, 2, 29));
    rfc3339_from_unix(i64::MIN);
    rfc3339_from_unix(i64::MAX);
}

#[test]
fn clock_readings_count_as_seconds() {
    assert_eq!(unix_seconds(None), 0);
    assert_eq!(unix_seconds(Some(5)), 5);
    assert_eq!(unix_seconds(Some(i64::MAX as u64)), i64::MAX);
    assert_eq!(unix_seconds(Some(i64::MAX as u64 + 1)), i64::MIN);
    assert_eq!(unix_seconds(Some(u64::MAX)), -1);
    assert!(now_unix() > 1_600_000_000);
    assert_eq!(now_rfc3339().len(), 20);
}

use kanon::message::{DeliverMessageRequest, MessageSegment, PipelineEventRequest, Segment};
use kanon::message::MediaSource;
use kanon::pipeline::dead_letter::{segment_record, SegmentRecord};
use kanon::pipeline::dead_letter::{
    civil_from_days, dead_letter_record, sanitize_filename, time_triplet_at, unix_to_date_string, DeadLetterWriter,
};
use kanon::pipeline::observer::PipelineStage;
use kanon::pipeline::pre_filter::{
    FilterObservation, FilterStep, PreFilterChain, PreFilterOutcome, PreFilterResult, ACTION_BLOCK, ACTION_MODIFY,
    ACTION_PASS,
};
use kanon::supervisor::circuit_breaker::{CircuitBreaker, CircuitBreakerConfig, CircuitState, FailureReason};
use kanon::supervisor::ManagedHost;

fn text(t: &str) -> MessageSegment {
    MessageSegment { segment: Some(Segment::Text { content: t.to_string() }) }
}

fn event(raw: &str) -> PipelineEventRequest {
    PipelineEventRequest {
        event_id: "evt-1".to_string(),
        platform: "qqofficial".to_string(),
        channel_id: "c1".to_string(),
        sender_id: "u1".to_string(),
        raw_text: raw.to_string(),
        segments: vec![MessageSegment { segment: Some(Segment::Mention { target_user_id: "bot".to_string(), display_name: "Bot".to_string(), is_all: false }) }, text(raw), text("tail")],
    }
}

fn reply(action: i32, modified: &str) -> FilterObservation {
    FilterObservation::Replied {
        result: PreFilterResult { action, modified_text: modified.to_string(), reply_messages: vec![text("blocked!")] },
        rtt: 1_000,
    }
}

#[test]
fn days_since_the_epoch_become_calendar_dates() {
    assert_eq!(civil_from_days(0), (1970, 1, 1));
    assert_eq!(civil_from_days(11016), (2000, 2, 29));
    assert_eq!(civil_from_days(19675), (2023, 11, 14));
    assert_eq!(unix_to_date_string(0), "1970-01-01");
    assert_eq!(unix_to_date_string(951782400), "2000-02-29");
    assert_eq!(unix_to_date_string(1700000000), "2023-11-14");
    assert_eq!(unix_to_date_string(4102444799), "2099-12-31");
}

#[test]
fn timestamps_are_rendered_in_iso_8601() {
    let (ms, iso, date) = time_triplet_at(1_700_000_000_123);
    assert_eq!(ms, 1_700_000_000_123);
    assert_eq!(iso, "2023-11-14T22:13:20Z");
    assert_eq!(date, "2023-11-14");
}

#[test]
fn dead_letter_files_are_per_platform_and_day() {
    assert_eq!(sanitize_filename("qq/official v2"), "qq_official_v2");
    let writer = DeadLetterWriter::new("/var/kanon/dead_letter".to_string());
    assert_eq!(writer.base_dir(), "/var/kanon/dead_letter");
    assert_eq!(writer.record_path("qq/official", "2023-11-14"), "/var/kanon/dead_letter/qq_official_2023-11-14.jsonl");
}

#[test]
fn a_dropped_delivery_without_event_gets_a_generated_identifier() {
    let request = DeliverMessageRequest {
        event_id: String::new(),
        platform: "qqofficial".to_string(),
        channel_id: "chan".to_string(),
        recipient_id: "user".to_string(),
        segments: vec![text("hello")],
    };
    let record = dead_letter_record(request.clone(), "circuit open", 42, "1970-01-01T00:00:00Z".to_string());
    assert_eq!(record.event_id, "dead-letter-42-chan");
    assert_eq!(record.reason, "circuit open");
    assert_eq!(record.segments, request.segments);
    let mut with_id = request;
    with_id.event_id = "evt-9".to_string();
    assert_eq!(dead_letter_record(with_id, "x", 1, String::new()).event_id, "evt-9");
}

#[test]
fn filters_run_by_priority_then_host_identifier() {
    let hosts = vec![
        ManagedHost::new("host_c".to_string(), "/c".to_string(), vec![], 200),
        ManagedHost::new("host_b".to_string(), "/b".to_string(), vec![], 100),
        ManagedHost::new("host_a".to_string(), "/a".to_string(), vec![], 200),
    ];
    assert_eq!(PreFilterChain::filter_order(&hosts), vec![1, 2, 0]);
}

#[test]
fn test_prefilter_fast_skips_open_host_and_emits_observation_event() {
    let mut breaker = CircuitBreaker::new(CircuitBreakerConfig::default());
    assert!(PreFilterChain::admit_at(&mut breaker, "evt-1", "stalled_host", 0).is_none());
    breaker.trip_at("stalled", 1);
    match PreFilterChain::admit_at(&mut breaker, "evt-1", "stalled_host", 2) {
        Some(stage @ PipelineStage::CircuitBreakerTripped { .. }) => {
            assert_eq!(stage.name(), "circuit_breaker_tripped");
            assert_eq!(stage.event_id(), "evt-1");
            match stage {
                PipelineStage::CircuitBreakerTripped { host_id, phase, reason, .. } => {
                    assert_eq!(host_id, "stalled_host");
                    assert_eq!(phase, "pre_filter");
                    assert_eq!(reason, "Circuit breaker OPEN (state: Open, consecutive failures: 0)");
                }
                _ => unreachable!(),
            }
        }
        other => panic!("an open breaker must skip the host: {other:?}"),
    }
    assert_eq!(breaker.state_at(3), CircuitState::Open);
}

#[test]
fn a_blocking_filter_stops_the_chain_with_its_replies() {
    let mut breaker = CircuitBreaker::with_defaults();
    match PreFilterChain::step(event("hi"), "host_guard", &mut breaker, reply(ACTION_BLOCK, ""), 5) {
        FilterStep::Finish(PreFilterOutcome::Blocked { host_id, reply_messages }) => {
            assert_eq!(host_id, "host_guard");
            assert_eq!(reply_messages, vec![text("blocked!")]);
        }
        _ => panic!("must block"),
    }
    assert_eq!(breaker.average_rtt(), Some(1_000));
}

#[test]
fn a_modifying_filter_rewrites_the_first_text_segment() {
    let mut breaker = CircuitBreaker::with_defaults();
    match PreFilterChain::step(event("hi"), "host_rewrite", &mut breaker, reply(ACTION_MODIFY, "HELLO"), 5) {
        FilterStep::Continue(e) => {
            assert_eq!(e.raw_text, "HELLO");
            assert_eq!(e.segments[1], text("HELLO"));
            assert_eq!(e.segments[2], text("tail"));
            assert_eq!(e.event_id, "evt-1");
        }
        FilterStep::Finish(_) => panic!("must continue"),
    }
    match PreFilterChain::step(event("hi"), "host_pass", &mut breaker, reply(ACTION_PASS, "ignored"), 6) {
        FilterStep::Continue(e) => assert_eq!(e, event("hi")),
        FilterStep::Finish(_) => panic!("must continue"),
    }
    match PreFilterChain::step(event("hi"), "host_odd", &mut breaker, reply(7, "ignored"), 7) {
        FilterStep::Continue(e) => assert_eq!(e, event("hi")),
        FilterStep::Finish(_) => panic!("unknown actions pass"),
    }
}

#[test]
fn failures_are_recorded_and_timeouts_end_the_chain() {
    let mut breaker = CircuitBreaker::with_defaults();
    match PreFilterChain::step(event("hi"), "h", &mut breaker, FilterObservation::RpcFailed { code: "Unavailable".to_string() }, 1) {
        FilterStep::Continue(e) => assert_eq!(e, event("hi")),
        FilterStep::Finish(_) => panic!("an RPC error lets the chain go on"),
    }
    assert_eq!(breaker.consecutive_failures(), 1);
    assert_eq!(breaker.last_failure_reason(), Some(FailureReason::Reported("PreFilter gRPC error: Unavailable".to_string())));
    match PreFilterChain::step(event("hi"), "h", &mut breaker, FilterObservation::TimedOut, 2) {
        FilterStep::Finish(PreFilterOutcome::Passed(e)) => assert_eq!(e, event("hi")),
        _ => panic!("a timeout passes the event"),
    }
    assert_eq!(breaker.consecutive_failures(), 2);
    match PreFilterChain::step(event("hi"), "h", &mut breaker, FilterObservation::DeadlineReached, 3) {
        FilterStep::Finish(PreFilterOutcome::Passed(_)) => {}
        _ => panic!("the deadline passes the event"),
    }
    assert_eq!(breaker.consecutive_failures(), 2);
}

#[test]
fn a_text_free_event_keeps_its_segments_when_modified() {
    let mut e = event("x");
    e.segments = vec![MessageSegment { segment: None }];
    let out = PreFilterChain::apply_modification(e.clone(), "new".to_string());
    assert_eq!(out.segments, e.segments);
    assert_eq!(out.raw_text, "new");
}

#[test]
fn records_keep_where_an_image_came_from_but_not_its_bytes() {
    let image = |source| MessageSegment {
        segment: Some(Segment::Image { mime_type: "image/png".to_string(), filename: "a.png".to_string(), source }),
    };
    match segment_record(&image(Some(MediaSource::FilePath("/tmp/a.png".to_string())))) {
        SegmentRecord::Image { file_path, url, has_bytes, mime_type, .. } => {
            assert_eq!(file_path.as_deref(), Some("/tmp/a.png"));
            assert_eq!(url, None);
            assert!(!has_bytes);
            assert_eq!(mime_type, "image/png");
        }
        _ => panic!("an image stays an image"),
    }
    match segment_record(&image(Some(MediaSource::RawBytes(vec![1, 2, 3])))) {
        SegmentRecord::Image { file_path, url, has_bytes, .. } => {
            assert_eq!((file_path, url, has_bytes), (None, None, true));
        }
        _ => panic!("an image stays an image"),
    }
    assert!(matches!(segment_record(&MessageSegment { segment: None }), SegmentRecord::Unknown));
    assert!(matches!(segment_record(&text("hi")), SegmentRecord::Text { content } if content == "hi"));
}

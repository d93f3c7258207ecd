use erudaite_core::capture::{
    capture_from_samples, classify_sample, CaptureOutcome, CaptureSession, TickAction,
};
use erudaite_core::sentinel::sentinel_for;

fn some(s: &str) -> Option<String> {
    Some(s.to_string())
}

#[test]
fn scenario_reverted_for_whole_window_returns_empty() {
    // The gesture produced no new selection: every poll shows the previous
    // content again. The capture returns empty text and restores "abc".
    let samples: Vec<Option<String>> = (0..13).map(|_| some("abc")).collect();
    let finish = capture_from_samples(some("abc"), 1_700_000_000_000, &samples);
    assert_eq!(finish.captured, "");
    assert_eq!(finish.restore, some("abc"));
}

#[test]
fn scenario_new_value_on_fourth_tick() {
    let now_ms = 1_700_000_000_000u64;
    let sentinel = sentinel_for(now_ms);
    let mut session = CaptureSession::begin(some("abc"), now_ms);
    assert_eq!(session.on_tick(&Some(sentinel.clone())), TickAction::Continue);
    assert_eq!(session.on_tick(&Some(sentinel.clone())), TickAction::Continue);
    // Third sample still unresolved: the one alternate-gesture retry.
    assert_eq!(session.on_tick(&Some(sentinel.clone())), TickAction::RetryAlternate);
    assert_eq!(session.on_tick(&some("xyz")), TickAction::Captured);
    let finish = session.finish();
    assert_eq!(finish.captured, "xyz");
    assert_eq!(finish.restore, some("abc"));
}

#[test]
fn restoration_happens_on_success_timeout_and_no_samples() {
    let prev = some("before");
    let cases: Vec<Vec<Option<String>>> = vec![
        vec![],
        vec![None, None],
        vec![some("before"); 5],
        vec![some("fresh text")],
    ];
    for samples in cases {
        let finish = capture_from_samples(prev.clone(), 42, &samples);
        assert_eq!(finish.restore, prev);
    }
    // Without previous content the restore directive is empty as well.
    let finish = capture_from_samples(None, 42, &vec![some("fresh text")]);
    assert_eq!(finish.restore, None);
    assert_eq!(finish.captured, "fresh text");
}

#[test]
fn sentinels_differ_for_different_instants() {
    assert_ne!(sentinel_for(1), sentinel_for(2));
    assert_ne!(sentinel_for(0), sentinel_for(10));
    assert_ne!(sentinel_for(1_699_999_999_999), sentinel_for(1_700_000_000_000));
    assert_eq!(sentinel_for(7), sentinel_for(7));
    assert_eq!(sentinel_for(7), "__ERUDAITE_SENTINEL__7__");
}

#[test]
fn suppressed_gesture_never_returns_previous_content() {
    // The copy gesture is a no-op: the clipboard only ever shows the
    // sentinel or the previous content. The full window elapses; the call
    // must come back empty, never with "abc".
    let now_ms = 99u64;
    let sentinel = sentinel_for(now_ms);
    let mut samples: Vec<Option<String>> = Vec::new();
    for k in 0..13 {
        samples.push(if k % 2 == 0 { Some(sentinel.clone()) } else { some("abc") });
    }
    let finish = capture_from_samples(some("abc"), now_ms, &samples);
    assert_eq!(finish.captured, "");
    assert_eq!(finish.restore, some("abc"));
}

#[test]
fn classification_follows_the_taxonomy() {
    let sentinel = sentinel_for(5);
    let prev = some("old text");
    let classify = |cur: &str| classify_sample(cur, sentinel.as_str(), &prev);
    assert_eq!(classify(""), CaptureOutcome::Empty);
    assert_eq!(classify("   \t\r\n"), CaptureOutcome::Empty);
    assert_eq!(classify(sentinel.as_str()), CaptureOutcome::StillSentinel);
    // Whitespace around the sentinel still counts as the sentinel.
    assert_eq!(
        classify(&format!("  {}  ", sentinel)),
        CaptureOutcome::StillSentinel
    );
    // A value merely carrying the marker is sentinel residue, not a capture.
    assert_eq!(
        classify("x __ERUDAITE_SENTINEL__123__ y"),
        CaptureOutcome::StillSentinel
    );
    assert_eq!(classify("old text"), CaptureOutcome::RevertedToPrevious);
    assert_eq!(classify("  old text  "), CaptureOutcome::RevertedToPrevious);
    assert_eq!(classify("new text"), CaptureOutcome::Other);
}

#[test]
fn without_previous_content_any_new_text_is_a_capture() {
    let sentinel = sentinel_for(5);
    assert_eq!(
        classify_sample("anything", sentinel.as_str(), &None),
        CaptureOutcome::Other
    );
    assert_eq!(
        classify_sample("", sentinel.as_str(), &None),
        CaptureOutcome::Empty
    );
}

#[test]
fn captured_text_is_trimmed() {
    let finish = capture_from_samples(None, 3, &vec![some("  padded  ")]);
    assert_eq!(finish.captured, "padded");
}

#[test]
fn alternate_gesture_is_retried_at_most_once() {
    let now_ms = 8u64;
    let sentinel = sentinel_for(now_ms);
    let mut session = CaptureSession::begin(some("abc"), now_ms);
    let mut retries = 0;
    for _ in 0..9 {
        if session.on_tick(&Some(sentinel.clone())) == TickAction::RetryAlternate {
            retries += 1;
        }
    }
    assert_eq!(retries, 1);
    let finish = session.finish();
    assert_eq!(finish.captured, "");
    assert_eq!(finish.restore, some("abc"));
}

#[test]
fn unreadable_samples_do_not_count_towards_the_retry() {
    let now_ms = 9u64;
    let sentinel = sentinel_for(now_ms);
    let mut session = CaptureSession::begin(None, now_ms);
    assert_eq!(session.on_tick(&None), TickAction::Continue);
    assert_eq!(session.on_tick(&None), TickAction::Continue);
    assert_eq!(session.on_tick(&Some(sentinel.clone())), TickAction::Continue);
    assert_eq!(session.on_tick(&Some(sentinel.clone())), TickAction::Continue);
    // Only the third readable sample reaches the threshold.
    assert_eq!(session.on_tick(&Some(sentinel.clone())), TickAction::RetryAlternate);
}

#[test]
fn sentinel_wait_observes_only_the_sentinel() {
    let now_ms = 11u64;
    let session = CaptureSession::begin(some("abc"), now_ms);
    let sentinel = sentinel_for(now_ms);
    assert!(session.sentinel_observed(&Some(sentinel.clone())));
    assert!(session.sentinel_observed(&Some(format!(" {} ", sentinel))));
    assert!(!session.sentinel_observed(&some("abc")));
    assert!(!session.sentinel_observed(&None));
    assert_eq!(session.sentinel_text(), sentinel.as_str());
}

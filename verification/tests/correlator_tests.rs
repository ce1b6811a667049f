use observe_core::correlator::PPM_SCALE;
use observe_core::Correlation;
use observe_core::Event;
use observe_core::EventType;
use observe_core::RustCorrelator;
use observe_core::Timestamp;

fn ui(id: &str, t: i64) -> Event {
    Event::new(id.to_string(), EventType::UiInteraction, Timestamp::Finite(t))
}

fn api(id: &str, t: i64) -> Event {
    Event::new(id.to_string(), EventType::ApiCall, Timestamp::Finite(t))
}

#[test]
fn test_event_creation() {
    let event = Event::new(
        "evt_1".to_string(),
        EventType::UiInteraction,
        Timestamp::Finite(1000),
    );
    assert_eq!(event.event_id, "evt_1");
    assert_eq!(event.event_type, EventType::UiInteraction);
    assert_eq!(event.timestamp, Timestamp::Finite(1000));
}

#[test]
fn test_correlator_basic() {
    let mut correlator = RustCorrelator::new(5000, 500_000);

    let ui_event = ui("ui_1", 1000);
    let api_event = api("api_1", 1050);

    correlator.add_event(ui_event);
    correlator.add_event(api_event);

    assert_eq!(correlator.len(), 2);
}

#[test]
fn test_correlation_calculation() {
    let correlator = RustCorrelator::new(5000, 500_000);

    let source = ui("src", 1000);
    let target = api("tgt", 1100);

    let confidence = correlator.calculate_confidence(&source, &target, 100);
    assert!(confidence > 0);
    assert!(confidence <= PPM_SCALE);
}

#[test]
fn test_should_correlate() {
    let correlator = RustCorrelator::new(5000, 500_000);

    assert!(correlator.should_correlate(&EventType::UiInteraction, &EventType::ApiCall));
    assert!(correlator.should_correlate(&EventType::ApiResponse, &EventType::Navigation));
    assert!(!correlator.should_correlate(&EventType::UiInteraction, &EventType::UiInteraction));
}

#[test]
fn test_nan_timestamp_handling() {
    let mut correlator = RustCorrelator::new(5000, 500_000);

    let event1 = ui("e1", 1000);
    let event2 = api("e2", 1100);
    let event_nan = Event::new(
        "e_nan".to_string(),
        EventType::UiInteraction,
        Timestamp::NaN,
    );

    correlator.add_event(event1);
    correlator.add_event(event2);
    correlator.add_event(event_nan);

    let correlations = correlator.find_correlations();
    let _graph = correlator.build_correlation_graph();
    let _stats = correlator.get_statistics();

    let valid_correlations: Vec<&Correlation> = correlations
        .iter()
        .filter(|c| c.source_event_id != "e_nan" && c.target_event_id != "e_nan")
        .collect();

    assert_eq!(valid_correlations.len(), correlations.len());
    assert!(valid_correlations.len() > 0, "Valid events should still correlate");
}

#[test]
fn test_infinity_timestamp_handling() {
    let mut correlator = RustCorrelator::new(5000, 500_000);

    let event1 = ui("e1", 1000);
    let event_inf = Event::new("e_inf".to_string(), EventType::ApiCall, Timestamp::PosInf);
    let event_neg_inf = Event::new(
        "e_neg_inf".to_string(),
        EventType::UiInteraction,
        Timestamp::NegInf,
    );

    correlator.add_event(event1);
    correlator.add_event(event_inf);
    correlator.add_event(event_neg_inf);

    let correlations = correlator.find_correlations();
    for c in &correlations {
        assert!(c.source_event_id != "e_inf" && c.target_event_id != "e_inf");
        assert!(c.source_event_id != "e_neg_inf" && c.target_event_id != "e_neg_inf");
    }
}

#[test]
fn single_window_pair_scores_exactly() {
    let mut correlator = RustCorrelator::new(5000, 500_000);
    correlator.add_event(ui("u1", 1000));
    correlator.add_event(api("a1", 1050));

    let correlations = correlator.find_correlations();
    assert_eq!(correlations.len(), 1);
    let c = &correlations[0];
    assert_eq!(c.source_event_id, "u1");
    assert_eq!(c.target_event_id, "a1");
    assert_eq!(c.time_delta_ms, 50);
    // 0.4 * (1 - 50/5000) + 0.3 = 0.696
    assert_eq!(c.confidence_ppm, 696_000);
    assert_eq!(c.correlation_type, "UI_INTERACTION_API_CALL");
}

#[test]
fn shared_screen_key_lifts_confidence() {
    let mut correlator = RustCorrelator::new(5000, 500_000);
    let mut u1 = ui("u1", 1000);
    u1.add_data("screen".to_string(), "A".to_string());
    let mut n1 = Event::new(
        "n1".to_string(),
        EventType::Navigation,
        Timestamp::Finite(1100),
    );
    n1.add_data("screen".to_string(), "A".to_string());

    let similarity = correlator.calculate_data_similarity(&u1, &n1);
    assert_eq!(similarity, PPM_SCALE);

    correlator.add_event(u1);
    correlator.add_event(n1);
    let correlations = correlator.find_correlations();
    assert_eq!(correlations.len(), 1);
    let c = &correlations[0];
    // 0.4 * (1 - 100/5000) + 0.3 + 0.3 = 0.992
    assert_eq!(c.confidence_ppm, 992_000);
    assert_eq!(c.correlation_type, "UI_INTERACTION_NAVIGATION");
}

#[test]
fn identical_kinds_never_correlate() {
    let mut correlator = RustCorrelator::new(5000, 500_000);
    correlator.add_event(ui("u1", 1000));
    correlator.add_event(ui("u2", 1001));

    assert_eq!(correlator.find_correlations().len(), 0);
}

#[test]
fn empty_store_statistics_are_zero() {
    let correlator = RustCorrelator::new(5000, 500_000);
    let stats = correlator.get_statistics();
    assert_eq!(stats.total_correlations, 0);
    assert_eq!(stats.avg_confidence_ppm, 0);
    assert_eq!(stats.avg_time_delta_ms, 0);
    assert!(stats.by_type.is_empty());
}

#[test]
fn repeated_calls_return_identical_output() {
    let mut correlator = RustCorrelator::new(5000, 500_000);
    correlator.add_event(ui("u1", 1000));
    correlator.add_event(api("a1", 1050));
    correlator.add_event(Event::new(
        "r1".to_string(),
        EventType::ApiResponse,
        Timestamp::Finite(1200),
    ));

    let first = correlator.find_correlations();
    let second = correlator.find_correlations();
    assert_eq!(first.len(), second.len());
    for (a, b) in first.iter().zip(second.iter()) {
        assert_eq!(a.source_event_id, b.source_event_id);
        assert_eq!(a.target_event_id, b.target_event_id);
        assert_eq!(a.confidence_ppm, b.confidence_ppm);
        assert_eq!(a.time_delta_ms, b.time_delta_ms);
        assert_eq!(a.correlation_type, b.correlation_type);
    }
}

#[test]
fn insertion_order_does_not_change_output() {
    let mut forward = RustCorrelator::new(5000, 500_000);
    forward.add_event(ui("u1", 1000));
    forward.add_event(api("a1", 1050));
    forward.add_event(Event::new(
        "r1".to_string(),
        EventType::ApiResponse,
        Timestamp::Finite(1200),
    ));

    forward.add_event(Event::new(
        "e_nan".to_string(),
        EventType::ApiCall,
        Timestamp::NaN,
    ));

    let mut backward = RustCorrelator::new(5000, 500_000);
    backward.add_event(Event::new(
        "e_nan".to_string(),
        EventType::ApiCall,
        Timestamp::NaN,
    ));
    backward.add_event(Event::new(
        "r1".to_string(),
        EventType::ApiResponse,
        Timestamp::Finite(1200),
    ));
    backward.add_event(api("a1", 1050));
    backward.add_event(ui("u1", 1000));

    let f = forward.find_correlations();
    let b = backward.find_correlations();
    assert_eq!(f.len(), b.len());
    for (a, c) in f.iter().zip(b.iter()) {
        assert_eq!(a.source_event_id, c.source_event_id);
        assert_eq!(a.target_event_id, c.target_event_id);
        assert_eq!(a.confidence_ppm, c.confidence_ppm);
    }
}

#[test]
fn emitted_correlations_stay_in_bounds() {
    let mut correlator = RustCorrelator::new(5000, 100_000);
    correlator.add_event(ui("u1", 0));
    correlator.add_event(api("a1", 4999));
    correlator.add_event(api("a2", 5001));
    correlator.add_event(Event::new(
        "r1".to_string(),
        EventType::ApiResponse,
        Timestamp::Finite(6000),
    ));
    correlator.add_event(Event::new(
        "s1".to_string(),
        EventType::ScreenChange,
        Timestamp::Finite(7000),
    ));

    for c in correlator.find_correlations() {
        assert!(c.time_delta_ms <= 5000);
        assert!(c.confidence_ppm <= PPM_SCALE);
        assert!(c.confidence_ppm >= 100_000);
    }
}

#[test]
fn out_of_window_pairs_are_dropped() {
    let mut correlator = RustCorrelator::new(5000, 100_000);
    correlator.add_event(ui("u1", 0));
    correlator.add_event(api("a1", 5000));
    correlator.add_event(api("a2", 5001));

    let correlations = correlator.find_correlations();
    assert_eq!(correlations.len(), 1);
    assert_eq!(correlations[0].target_event_id, "a1");
    assert_eq!(correlations[0].time_delta_ms, 5000);
}

#[test]
fn directional_ui_to_api_scan() {
    let mut correlator = RustCorrelator::new(5000, 500_000);
    correlator.add_event(api("a1", 1050));
    correlator.add_event(ui("u1", 1000));
    correlator.add_event(Event::new(
        "n1".to_string(),
        EventType::Navigation,
        Timestamp::Finite(1100),
    ));

    let correlations = correlator.correlate_ui_to_api();
    assert_eq!(correlations.len(), 1);
    let c = &correlations[0];
    assert_eq!(c.source_event_id, "u1");
    assert_eq!(c.target_event_id, "a1");
    assert_eq!(c.time_delta_ms, 50);
    assert_eq!(c.confidence_ppm, 696_000);
    assert_eq!(c.correlation_type, "UI_TO_API");
}

#[test]
fn directional_api_to_navigation_scan() {
    let mut correlator = RustCorrelator::new(5000, 500_000);
    correlator.add_event(Event::new(
        "r1".to_string(),
        EventType::ApiResponse,
        Timestamp::Finite(1000),
    ));
    correlator.add_event(Event::new(
        "n1".to_string(),
        EventType::Navigation,
        Timestamp::Finite(1100),
    ));
    correlator.add_event(Event::new(
        "s1".to_string(),
        EventType::ScreenChange,
        Timestamp::Finite(1200),
    ));
    correlator.add_event(Event::new(
        "n_late".to_string(),
        EventType::Navigation,
        Timestamp::Finite(9000),
    ));

    let correlations = correlator.correlate_api_to_navigation();
    assert_eq!(correlations.len(), 2);
    assert_eq!(correlations[0].target_event_id, "n1");
    assert_eq!(correlations[1].target_event_id, "s1");
    for c in &correlations {
        assert_eq!(c.correlation_type, "API_TO_NAVIGATION");
    }
}

#[test]
fn graph_merges_sources_sharing_an_id() {
    let mut correlator = RustCorrelator::new(5000, 100_000);
    correlator.add_event(ui("u1", 1000));
    correlator.add_event(api("a1", 1050));
    correlator.add_event(Event::new(
        "n1".to_string(),
        EventType::Navigation,
        Timestamp::Finite(1100),
    ));

    let graph = correlator.build_correlation_graph();
    assert_eq!(graph.len(), 1);
    assert_eq!(graph[0].0, "u1");
    assert_eq!(graph[0].1, vec!["a1".to_string(), "n1".to_string()]);
}

#[test]
fn graph_keeps_multi_edges() {
    let mut correlator = RustCorrelator::new(5000, 100_000);
    correlator.add_event(ui("u1", 1000));
    correlator.add_event(ui("u1", 1001));
    correlator.add_event(api("a1", 1050));

    let graph = correlator.build_correlation_graph();
    // Two distinct events share the id u1; their edges merge under one node
    // and the repeated target is kept.
    assert_eq!(graph.len(), 1);
    assert_eq!(graph[0].0, "u1");
    assert_eq!(graph[0].1, vec!["a1".to_string(), "a1".to_string()]);
}

#[test]
fn open_tags_never_correlate() {
    let mut correlator = RustCorrelator::new(5000, 0);
    correlator.add_event(Event::new(
        "x1".to_string(),
        EventType::Other("CUSTOM_TAG".to_string()),
        Timestamp::Finite(1000),
    ));
    correlator.add_event(api("a1", 1050));
    correlator.add_event(Event::new(
        "x2".to_string(),
        EventType::Other("UI_INTERACTION_LIKE".to_string()),
        Timestamp::Finite(1060),
    ));

    assert_eq!(correlator.find_correlations().len(), 0);
}

#[test]
fn statistics_report_exact_averages() {
    let mut correlator = RustCorrelator::new(5000, 500_000);
    correlator.add_event(ui("u1", 1000));
    correlator.add_event(api("a1", 1050));

    let stats = correlator.get_statistics();
    assert_eq!(stats.total_correlations, 1);
    assert_eq!(stats.avg_confidence_ppm, 696_000);
    assert_eq!(stats.avg_time_delta_ms, 50);
    assert_eq!(stats.by_type.len(), 1);
    assert_eq!(stats.by_type[0].0, "UI_INTERACTION_API_CALL");
    assert_eq!(stats.by_type[0].1, 1);
}

#[test]
fn add_data_replaces_existing_key() {
    let mut event = ui("u1", 1000);
    event.add_data("screen".to_string(), "A".to_string());
    event.add_data("screen".to_string(), "B".to_string());
    event.add_data("tab".to_string(), "3".to_string());

    assert_eq!(event.data.len(), 2);
    assert_eq!(event.data[0], ("screen".to_string(), "B".to_string()));
    assert_eq!(event.data[1], ("tab".to_string(), "3".to_string()));
}

#[test]
fn data_similarity_counts_matching_values_only() {
    let correlator = RustCorrelator::new(5000, 500_000);
    let mut a = ui("u1", 1000);
    a.add_data("screen".to_string(), "A".to_string());
    a.add_data("tab".to_string(), "3".to_string());
    a.add_data("mode".to_string(), "dark".to_string());
    let mut b = api("a1", 1050);
    b.add_data("screen".to_string(), "A".to_string());
    b.add_data("tab".to_string(), "5".to_string());

    // Two shared keys, one matching value: 0.5.
    assert_eq!(correlator.calculate_data_similarity(&a, &b), 500_000);

    let empty = api("a2", 1060);
    assert_eq!(correlator.calculate_data_similarity(&a, &empty), 0);
}

#[test]
fn extreme_finite_timestamps_stay_exact() {
    let mut correlator = RustCorrelator::new(u64::MAX, 100_000);
    correlator.add_event(ui("first", i64::MIN));
    correlator.add_event(api("last", i64::MAX));

    let correlations = correlator.find_correlations();
    assert_eq!(correlations.len(), 1);
    assert_eq!(correlations[0].time_delta_ms, u64::MAX);
}

#[test]
fn nan_event_changes_nothing() {
    let mut plain = RustCorrelator::new(5000, 500_000);
    plain.add_event(ui("u1", 1000));
    plain.add_event(api("a1", 1050));

    let mut with_nan = RustCorrelator::new(5000, 500_000);
    with_nan.add_event(ui("u1", 1000));
    with_nan.add_event(api("a1", 1050));
    with_nan.add_event(Event::new(
        "e_nan".to_string(),
        EventType::UiInteraction,
        Timestamp::NaN,
    ));

    let a = plain.find_correlations();
    let b = with_nan.find_correlations();
    assert_eq!(a.len(), b.len());
    for (x, y) in a.iter().zip(b.iter()) {
        assert_eq!(x.source_event_id, y.source_event_id);
        assert_eq!(x.target_event_id, y.target_event_id);
        assert_eq!(x.confidence_ppm, y.confidence_ppm);
    }
}

#[test]
fn infinite_event_changes_nothing() {
    let mut plain = RustCorrelator::new(5000, 500_000);
    plain.add_event(ui("u1", 1000));
    plain.add_event(api("a1", 1050));

    let mut with_inf = RustCorrelator::new(5000, 500_000);
    with_inf.add_event(ui("u1", 1000));
    with_inf.add_event(api("a1", 1050));
    with_inf.add_event(Event::new(
        "e_inf".to_string(),
        EventType::ApiCall,
        Timestamp::PosInf,
    ));

    let a = plain.find_correlations();
    let b = with_inf.find_correlations();
    assert_eq!(a.len(), b.len());
    for (x, y) in a.iter().zip(b.iter()) {
        assert_eq!(x.source_event_id, y.source_event_id);
        assert_eq!(x.target_event_id, y.target_event_id);
    }
}

#[test]
fn clear_empties_the_store() {
    let mut correlator = RustCorrelator::new(5000, 500_000);
    correlator.add_events(vec![ui("u1", 1000), api("a1", 1050)]);
    assert_eq!(correlator.len(), 2);
    correlator.clear();
    assert_eq!(correlator.len(), 0);
    assert_eq!(correlator.find_correlations().len(), 0);
}

#[test]
fn zero_window_emits_nothing() {
    let mut correlator = RustCorrelator::new(0, 0);
    correlator.add_event(ui("u1", 1000));
    correlator.add_event(api("a1", 1000));

    assert_eq!(correlator.find_correlations().len(), 0);
}

#[test]
fn all_five_pairs_are_allowed_and_no_other() {
    let correlator = RustCorrelator::new(5000, 500_000);
    let kinds = [
        EventType::UiInteraction,
        EventType::ApiCall,
        EventType::ApiResponse,
        EventType::Navigation,
        EventType::ScreenChange,
        EventType::Other("CUSTOM".to_string()),
    ];
    let allowed = [
        (EventType::UiInteraction, EventType::ApiCall),
        (EventType::ApiCall, EventType::ApiResponse),
        (EventType::ApiResponse, EventType::Navigation),
        (EventType::ApiResponse, EventType::ScreenChange),
        (EventType::UiInteraction, EventType::Navigation),
    ];
    for a in &kinds {
        for b in &kinds {
            let expected = allowed.iter().any(|(x, y)| x == a && y == b);
            assert_eq!(correlator.should_correlate(a, b), expected);
            assert_eq!(correlator.are_compatible_types(a, b), expected);
        }
    }
}

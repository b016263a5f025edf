use trust_runtime::conformance::{
    case_outcome, is_valid_case_id, parse_bool, parse_duration, parse_restart_mode,
    parse_typed_value, restarts_before, should_skip_step_value, split_unix_utc, step_value,
    tally_statuses, validate_case_entry, validate_series_lengths, CaseObservation, CaseReasonCode,
    CaseStatus, ConformanceError, RestartDirective,
};
use trust_runtime::mqttcfg::{is_local_host, parse_broker_endpoint, MqttConfigError, MqttIoConfig, MqttParams};
use trust_runtime::debugstop::{
    build_stop_events, DebugStop, DebugStopReason, SourceLocation, StopCoordinator, StopEvent,
};
use trust_runtime::pairing::PairingStore;
use trust_runtime::security::AccessRole;
use trust_runtime::value::{RestartMode, Value, VariableStorage};

#[test]
fn case_id_validation_matches_naming_rules() {
    assert!(is_valid_case_id("cfm_timers_ton_sequence_001", "timers"));
    assert!(is_valid_case_id("cfm_memory_map_sync_word_123", "memory_map"));
    assert!(!is_valid_case_id("CFM_timers_ton_sequence_001", "timers"));
    assert!(!is_valid_case_id("cfm_timers_ton_sequence_01", "timers"));
    assert!(!is_valid_case_id("cfm_edges_case_001", "timers"));
}

#[test]
fn parse_typed_values_supports_core_manifest_types() {
    assert!(matches!(parse_typed_value("BOOL:true"), Ok(Value::Bool(true))));
    assert!(matches!(parse_typed_value("INT:-4"), Ok(Value::Int(-4))));
    assert!(matches!(parse_typed_value("WORD:41"), Ok(Value::Word(41))));
    assert!(
        matches!(parse_typed_value("TIME:10ms"), Ok(Value::Time(d)) if d.nanos == 10_000_000)
    );
}

#[test]
fn unix_split_produces_epoch() {
    let parts = split_unix_utc(0);
    assert_eq!(parts, (1970, 1, 1, 0, 0, 0));
}

#[test]
fn typed_value_errors_name_the_problem() {
    assert!(matches!(
        parse_typed_value("41"),
        Err(ConformanceError::BadTypedValue(_))
    ));
    assert!(matches!(
        parse_typed_value("WORD:99999"),
        Err(ConformanceError::BadNumber(_))
    ));
    assert!(matches!(
        parse_typed_value("REAL:1.5"),
        Err(ConformanceError::FloatText(false, d)) if d == "1.5"
    ));
    assert!(matches!(
        parse_typed_value("LREAL: -2.25 "),
        Err(ConformanceError::FloatText(true, d)) if d == "-2.25"
    ));
    assert!(matches!(
        parse_typed_value("COLOR:red"),
        Err(ConformanceError::UnsupportedKind(_))
    ));
    assert!(matches!(
        parse_typed_value("BOOL:maybe"),
        Err(ConformanceError::BadBool(_))
    ));
}

#[test]
fn duration_and_bool_and_restart_literals_parse() {
    assert_eq!(parse_duration("250ms").expect("ms").nanos, 250_000_000);
    assert_eq!(parse_duration("7ns").expect("ns").nanos, 7);
    assert_eq!(parse_duration("2s").expect("s").nanos, 2_000_000_000);
    assert_eq!(parse_duration("15").expect("default ms").nanos, 15_000_000);
    assert_eq!(parse_duration("1_000ms").expect("underscores").nanos, 1_000_000_000);
    assert!(parse_duration("xyz").is_err());
    assert_eq!(parse_bool(" TRUE ").expect("bool"), true);
    assert!(parse_bool("yes").is_err());
    assert_eq!(parse_restart_mode("Warm").expect("warm"), RestartMode::Warm);
    assert_eq!(parse_restart_mode("COLD").expect("cold"), RestartMode::Cold);
    assert!(parse_restart_mode("hot").is_err());
    assert!(should_skip_step_value("skip"));
    assert!(should_skip_step_value("_"));
    assert!(!should_skip_step_value("BOOL:true"));
}

#[test]
fn breakpoint_stop_is_emitted_without_pause_expected_when_generation_matches() {
    let mut control = StopCoordinator::new();
    let generation = control.advance_generation(0);
    let location = SourceLocation { file_id: 0, start: 21, end: 42 };
    let stop = DebugStop {
        reason: DebugStopReason::Breakpoint,
        location: Some(location),
        thread_id: Some(1),
        breakpoint_generation: Some(generation),
    };
    assert!(control.should_emit_stop(&stop));
}

#[test]
fn breakpoint_stop_is_dropped_when_generation_mismatches() {
    let mut control = StopCoordinator::new();
    let _ = control.advance_generation(0);
    let location = SourceLocation { file_id: 0, start: 21, end: 42 };
    let stop = DebugStop {
        reason: DebugStopReason::Breakpoint,
        location: Some(location),
        thread_id: Some(1),
        breakpoint_generation: Some(999),
    };
    assert!(!control.should_emit_stop(&stop));
}

#[test]
fn replacing_breakpoints_drops_stops_sampled_before() {
    let mut control = StopCoordinator::new();
    let first = control.advance_generation(7);
    let stop = DebugStop {
        reason: DebugStopReason::Breakpoint,
        location: Some(SourceLocation { file_id: 7, start: 0, end: 4 }),
        thread_id: Some(1),
        breakpoint_generation: Some(first),
    };
    let second = control.advance_generation(7);
    assert!(second > first);
    assert!(!control.should_emit_stop(&stop));
}

#[test]
fn stop_events_are_sequenced_without_gaps() {
    let stop = DebugStop {
        reason: DebugStopReason::Breakpoint,
        location: Some(SourceLocation { file_id: 0, start: 0, end: 4 }),
        thread_id: None,
        breakpoint_generation: Some(1),
    };
    let (events, next) = build_stop_events(&stop, None, true, 10);
    assert_eq!(events.len(), 3);
    assert_eq!(next, 13);
    assert!(matches!(
        &events[0],
        StopEvent::Output { seq: 10, text } if text == "[trust-debug] stopped: reason=breakpoint thread_id=1\n"
    ));
    assert!(matches!(
        &events[1],
        StopEvent::Stopped { seq: 11, reason, thread_id: 1, all_threads_stopped: true } if reason == "breakpoint"
    ));
    assert!(matches!(&events[2], StopEvent::Invalidated { seq: 12, thread_id: 1 }));
    let (events, next) = build_stop_events(&stop, Some(4), false, 13);
    assert_eq!(events.len(), 2);
    assert_eq!(next, 15);
    assert!(matches!(
        &events[1],
        StopEvent::Stopped { seq: 14, thread_id: 1, all_threads_stopped: false, .. }
    ));
}

#[test]
fn pause_stops_need_an_expected_pause() {
    let mut control = StopCoordinator::new();
    let stop = DebugStop {
        reason: DebugStopReason::Pause,
        location: None,
        thread_id: Some(1),
        breakpoint_generation: None,
    };
    assert!(!control.should_emit_stop(&stop));
    control.expect_pause();
    assert!(control.should_emit_stop(&stop));
    assert!(!control.should_emit_stop(&stop));
}

#[test]
fn retained_snapshot_reloads_to_the_same_values() {
    let mut storage = VariableStorage::default();
    storage.set_retain("Counter", Value::Int(7));
    storage.set_retain("Label", Value::String(String::from("Pump-A")));
    storage.set_retain("Counter", Value::Int(9));
    let snapshot = storage.retain_snapshot();
    let mut reloaded = VariableStorage::default();
    reloaded.merge_retained(snapshot);
    assert!(matches!(reloaded.get_retain("Counter"), Some(Value::Int(9))));
    assert!(matches!(reloaded.get_retain("Label"), Some(Value::String(s)) if s == "Pump-A"));
    assert!(reloaded.get_retain("Missing").is_none());
}

#[test]
fn pairing_claim_cycle_issues_a_valid_token() {
    let mut store = PairingStore::with_clock(Vec::new(), 1_000);
    let code = store.start_pairing(1_000);
    assert_eq!(code.code.len(), 6);
    assert_eq!(code.expires_at, 1_300);
    let token = store.claim(&code.code, None, 1_050).expect("claim");
    assert_eq!(token.len(), 43);
    assert!(store.validate(&token, 1_100));
    let listing = store.list(1_100);
    assert_eq!(listing.len(), 1);
    assert_eq!(listing[0].role, AccessRole::Operator);
    assert!(listing[0].expires_at > listing[0].created_at);
}

#[test]
fn pairing_codes_expire_and_admin_is_downgraded() {
    let mut store = PairingStore::with_clock(Vec::new(), 1_000);
    let code = store.start_pairing(1_000);
    assert!(store.claim(&code.code, None, 1_301).is_none());
    let code = store.start_pairing(2_000);
    let token = store
        .claim(&code.code, Some(AccessRole::Admin), 2_010)
        .expect("claim");
    assert_eq!(
        store.validate_with_role(&token, 2_020),
        Some(AccessRole::Engineer)
    );
}

#[test]
fn pairing_tokens_expire_and_can_be_revoked() {
    let mut store = PairingStore::with_clock(Vec::new(), 1_000);
    let code = store.start_pairing(1_000);
    let token = store
        .claim(&code.code, Some(AccessRole::Viewer), 1_010)
        .expect("claim");
    assert_eq!(
        store.validate_with_role(&token, 1_020),
        Some(AccessRole::Viewer)
    );
    let expiry = 1_010 + 30 * 24 * 60 * 60 + 1;
    assert_eq!(store.validate_with_role(&token, expiry), None);
    let code = store.start_pairing(expiry + 10);
    let token2 = store.claim(&code.code, None, expiry + 20).expect("claim");
    let listing = store.list(expiry + 30);
    assert_eq!(listing.len(), 1);
    let revoked = store.revoke_all(expiry + 40);
    assert_eq!(revoked, 1);
    assert!(!store.validate(&token2, expiry + 50));
}

fn plain_params(broker: &str) -> MqttParams {
    MqttParams {
        broker: String::from(broker),
        client_id: None,
        topic_in: None,
        topic_out: None,
        username: None,
        password: None,
        reconnect_ms: None,
        keep_alive_s: None,
        tls: None,
        allow_insecure_remote: None,
    }
}

#[test]
fn security_test_rejects_remote_insecure_broker() {
    let result = MqttIoConfig::from_params(plain_params("10.10.0.9:1883"), String::from("rt"));
    assert!(result.is_err(), "expected security validation failure");
    assert!(matches!(result, Err(MqttConfigError::InsecureRemote(_))));

    let mut allowed = plain_params("10.10.0.9:1883");
    allowed.allow_insecure_remote = Some(true);
    let ok = MqttIoConfig::from_params(allowed, String::from("rt"));
    assert!(ok.is_ok(), "explicit insecure override should be allowed");
}

#[test]
fn broker_endpoints_parse_with_schemes_and_brackets() {
    let ep = parse_broker_endpoint("tcp://127.0.0.1:1883").expect("tcp scheme");
    assert_eq!(ep.host, "127.0.0.1");
    assert_eq!(ep.port, 1883);
    let ep = parse_broker_endpoint("[::1]:1883").expect("bracketed");
    assert_eq!(ep.host, "::1");
    assert_eq!(ep.port, 1883);
    assert!(matches!(
        parse_broker_endpoint("nohost"),
        Err(MqttConfigError::BadBroker(_))
    ));
    assert!(matches!(
        parse_broker_endpoint("host:0"),
        Err(MqttConfigError::BadPort(_))
    ));
    assert!(matches!(
        parse_broker_endpoint(" :1883"),
        Err(MqttConfigError::EmptyHost(_))
    ));
    assert!(is_local_host("LOCALHOST"));
    assert!(is_local_host("::1"));
    assert!(!is_local_host("10.0.0.1"));
}

#[test]
fn mqtt_credentials_and_defaults_follow_the_contract() {
    let mut p = plain_params("localhost:1883");
    p.username = Some(String::from("svc"));
    assert!(matches!(
        MqttIoConfig::from_params(p, String::from("rt")),
        Err(MqttConfigError::CredentialsMismatch)
    ));
    let mut p = plain_params("localhost:1883");
    p.tls = Some(true);
    assert!(matches!(
        MqttIoConfig::from_params(p, String::from("rt")),
        Err(MqttConfigError::TlsUnsupported)
    ));
    let config = MqttIoConfig::from_params(plain_params("localhost:1883"), String::from("rt"))
        .expect("valid");
    assert_eq!(config.topic_in, "trust/io/in");
    assert_eq!(config.topic_out, "trust/io/out");
    assert_eq!(config.reconnect_ms, 500);
    assert_eq!(config.client_id, "rt");
}

#[test]
fn series_lengths_and_restart_windows_are_enforced() {
    let series = vec![(String::from("flag"), vec![String::from("BOOL:true"); 3])];
    let direct: Vec<(String, Vec<String>)> = Vec::new();
    let restarts = vec![RestartDirective { before_cycle: 2, mode: String::from("warm") }];
    assert!(validate_series_lengths(0, &series, &direct, &restarts, 3).is_ok());
    assert!(validate_series_lengths(3, &series, &direct, &restarts, 3).is_ok());
    assert!(validate_series_lengths(2, &series, &direct, &restarts, 3).is_err());
    assert!(validate_series_lengths(0, &series, &direct, &restarts, 4).is_err());
    let bad = vec![RestartDirective { before_cycle: 0, mode: String::from("warm") }];
    assert!(validate_series_lengths(0, &series, &direct, &bad, 3).is_err());
}

#[test]
fn cycle_plans_pick_restarts_and_respect_the_skip_sentinel() {
    let restarts = vec![
        RestartDirective { before_cycle: 1, mode: String::from("cold") },
        RestartDirective { before_cycle: 2, mode: String::from("warm") },
        RestartDirective { before_cycle: 2, mode: String::from("cold") },
    ];
    let fired = restarts_before(&restarts, 2).expect("modes");
    assert_eq!(fired, vec![RestartMode::Warm, RestartMode::Cold]);
    assert_eq!(restarts_before(&restarts, 3).expect("none"), Vec::new());
    let bad = vec![RestartDirective { before_cycle: 1, mode: String::from("hot") }];
    assert!(restarts_before(&bad, 1).is_err());
    assert!(matches!(step_value("skip"), Ok(None)));
    assert!(matches!(step_value("INT:7"), Ok(Some(Value::Int(7)))));
    assert!(step_value("INT:oops").is_err());
}

#[test]
fn case_outcomes_follow_the_comparison_taxonomy() {
    let base = CaseObservation {
        executed: true,
        update_expected: false,
        expected_written: false,
        expected_present: true,
        expected_readable: true,
        matches_expected: true,
    };
    assert_eq!(case_outcome(base), (CaseStatus::Passed, None));
    assert_eq!(
        case_outcome(CaseObservation { matches_expected: false, ..base }),
        (CaseStatus::Failed, Some(CaseReasonCode::ExpectedMismatch))
    );
    assert_eq!(
        case_outcome(CaseObservation { expected_present: false, ..base }),
        (CaseStatus::Error, Some(CaseReasonCode::ExpectedMissing))
    );
    assert_eq!(
        case_outcome(CaseObservation { expected_readable: false, ..base }),
        (CaseStatus::Error, Some(CaseReasonCode::ExpectedReadError))
    );
    assert_eq!(
        case_outcome(CaseObservation { executed: false, ..base }),
        (CaseStatus::Error, Some(CaseReasonCode::CaseExecutionError))
    );
    assert_eq!(
        case_outcome(CaseObservation { update_expected: true, expected_written: true, ..base }),
        (CaseStatus::Passed, None)
    );
    assert_eq!(
        case_outcome(CaseObservation { update_expected: true, ..base }),
        (CaseStatus::Error, Some(CaseReasonCode::ExpectedWriteError))
    );
    let statuses = vec![
        CaseStatus::Passed,
        CaseStatus::Failed,
        CaseStatus::Passed,
        CaseStatus::Error,
    ];
    let totals = tally_statuses(&statuses);
    assert_eq!(totals.total, 4);
    assert_eq!(totals.passed, 2);
    assert_eq!(totals.failed, 1);
    assert_eq!(totals.errors, 1);
    assert_eq!(totals.skipped, 0);
    assert!(validate_case_entry("cfm_timers_a_001", "cfm_timers_a_001", "timers", "timers").is_ok());
    assert!(validate_case_entry("other", "cfm_timers_a_001", "timers", "timers").is_err());
}

#[test]
fn access_roles_parse_and_order() {
    assert_eq!(AccessRole::parse(" Engineer "), Some(AccessRole::Engineer));
    assert_eq!(AccessRole::parse("viewer"), Some(AccessRole::Viewer));
    assert_eq!(AccessRole::parse("root"), None);
    assert!(AccessRole::Admin.allows(AccessRole::Viewer));
    assert!(!AccessRole::Viewer.allows(AccessRole::Operator));
    assert_eq!(AccessRole::Operator.as_str(), "operator");
}

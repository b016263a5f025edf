use trust_runtime::historian::{
    render_prometheus, AlertRule, AlertState, HistorianConfig, HistorianPrometheusSnapshot,
    HistorianSample, HistorianService, HistorianValue, RecordingMode, RuntimeMetricsSnapshot,
};
use trust_runtime::opcua::{
    map_iec_value, validate_security_profile, OpcUaDataType, OpcUaMessageSecurityMode,
    OpcUaSecurityPolicy, OpcUaSecurityProfile, OpcUaValue, OpcUaVariant,
};
use trust_runtime::value::{DebugSnapshot, Duration, Value, VariableStorage};

fn basic_config() -> HistorianConfig {
    HistorianConfig {
        enabled: true,
        sample_interval_ms: 100,
        mode: RecordingMode::All,
        allow_list: Vec::new(),
        history_path: String::from("history/journal"),
        max_entries: 1_000,
        prometheus_enabled: true,
        prometheus_path: String::from("/metrics"),
        alerts: Vec::new(),
    }
}

fn snapshot_with_values(counter: i16, temp: f64, active: bool) -> DebugSnapshot {
    let mut storage = VariableStorage::default();
    storage.set_global("Counter", Value::Int(counter));
    storage.set_global("Temp", Value::LReal(temp.to_bits()));
    storage.set_global("Active", Value::Bool(active));
    storage.set_global("Label", Value::String(String::from("Pump-A")));
    DebugSnapshot { storage, now: Duration::from_millis(1_000) }
}

#[test]
fn prometheus_render_includes_runtime_and_historian_metrics() {
    let mut runtime = RuntimeMetricsSnapshot::default();
    runtime.uptime_ms = 1200;
    runtime.faults = 1;
    runtime.overruns = 2;
    let body = render_prometheus(
        &runtime,
        Some(HistorianPrometheusSnapshot {
            samples_total: 10,
            series_total: 3,
            alerts_total: 4,
        }),
    );
    assert!(body.contains("trust_runtime_uptime_ms 1200"));
    assert!(body.contains("trust_runtime_faults_total 1"));
    assert!(body.contains("trust_runtime_historian_samples_total 10"));
    assert!(body.contains("trust_runtime_historian_alerts_total 4"));
}

#[test]
fn recording_respects_the_sample_interval() {
    let service = HistorianService::new(basic_config(), None, Vec::new());
    let mut service = service.expect("service");
    let first = snapshot_with_values(7, 21.5, true);
    let second = snapshot_with_values(8, 25.0, false);

    let captured = service.capture_snapshot_at(&first, 1_000);
    assert!(captured.recorded >= 4);
    let skipped = service.capture_snapshot_at(&first, 1_050);
    assert_eq!(skipped.recorded, 0, "sample interval should suppress early capture");
    let again = service.capture_snapshot_at(&second, 1_150);
    assert!(again.recorded >= 4);

    let counter = service.query(Some("Counter"), None, 10);
    assert_eq!(counter.len(), 2);
    assert!(matches!(counter[0].value, HistorianValue::Integer(7)));
    assert!(matches!(counter[1].value, HistorianValue::Integer(8)));

    let active = service.query(Some("Active"), None, 10);
    assert!(matches!(active[0].value, HistorianValue::Bool(true)));
    assert!(matches!(active[1].value, HistorianValue::Bool(false)));

    let label = service.query(Some("Label"), None, 10);
    assert!(matches!(&label[0].value, HistorianValue::String(s) if s == "Pump-A"));
}

#[test]
fn preloaded_journal_samples_query_in_original_order() {
    let preloaded = vec![
        HistorianSample {
            timestamp_ms: 100,
            source_time_ns: 1,
            variable: String::from("Counter"),
            value: HistorianValue::Integer(42),
        },
        HistorianSample {
            timestamp_ms: 200,
            source_time_ns: 2,
            variable: String::from("Counter"),
            value: HistorianValue::Integer(43),
        },
    ];
    let mut service = HistorianService::new(basic_config(), None, preloaded).expect("restart");
    let counter = service.query(Some("Counter"), None, 10);
    assert_eq!(counter.len(), 2);
    assert!(matches!(counter[0].value, HistorianValue::Integer(42)));
    assert!(matches!(counter[1].value, HistorianValue::Integer(43)));
    assert_eq!(counter[0].timestamp_ms, 100);
    assert_eq!(counter[1].timestamp_ms, 200);
    let outcome = service.capture_snapshot_at(&snapshot_with_values(44, 1.0, true), 5_000);
    assert!(outcome.recorded >= 1);
}

#[test]
fn alert_debounce_of_two_fires_once_and_clears_once() {
    let mut config = basic_config();
    config.sample_interval_ms = 1;
    config.alerts = vec![AlertRule {
        name: String::from("high_temp"),
        variable: String::from("Temp"),
        above: Some(50.0f64.to_bits()),
        below: None,
        debounce_samples: 2,
        hook: Some(String::from("alerts/hook-log")),
    }];
    let mut service = HistorianService::new(config, None, Vec::new()).expect("service");

    let mut hook_events = 0;
    for (temp, ts) in [(40.0, 1_000u128), (60.0, 1_010), (61.0, 1_020), (45.0, 1_030)] {
        let outcome = service.capture_snapshot_at(&snapshot_with_values(1, temp, true), ts);
        hook_events += outcome.hooks.len();
    }

    let events = service.alerts(10);
    assert_eq!(events.len(), 2);
    assert_eq!(events[0].state, AlertState::Triggered);
    assert_eq!(events[0].timestamp_ms, 1_020);
    assert_eq!(events[1].state, AlertState::Cleared);
    assert_eq!(events[1].timestamp_ms, 1_030);
    assert_eq!(hook_events, 2);
}

#[test]
fn allowlist_mode_records_matching_paths_only() {
    let mut config = basic_config();
    config.mode = RecordingMode::Allowlist;
    config.allow_list = vec![String::from("Temp"), String::from("retain.*")];
    let mut service = HistorianService::new(config, None, Vec::new()).expect("service");

    let mut storage = VariableStorage::default();
    storage.set_global("Counter", Value::Int(9));
    storage.set_global("Temp", Value::LReal(5.0f64.to_bits()));
    storage.set_retain("Persist", Value::Bool(true));
    let snapshot = DebugSnapshot { storage, now: Duration::from_millis(500) };
    service.capture_snapshot_at(&snapshot, 3_000);

    assert_eq!(service.query(Some("Counter"), None, 10).len(), 0);
    assert_eq!(service.query(Some("Temp"), None, 10).len(), 1);
    assert_eq!(service.query(Some("retain.Persist"), None, 10).len(), 1);
}

#[test]
fn maps_scalar_numeric_and_string_types() {
    assert!(matches!(
        map_iec_value(&Value::Bool(true)),
        Some(OpcUaValue { data_type: OpcUaDataType::Boolean, value: OpcUaVariant::Boolean(true) })
    ));
    assert!(matches!(
        map_iec_value(&Value::DInt(42)),
        Some(OpcUaValue { data_type: OpcUaDataType::Int32, value: OpcUaVariant::Int32(42) })
    ));
    let mapped = map_iec_value(&Value::LReal(3.5f64.to_bits())).expect("double");
    assert!(matches!(
        mapped,
        OpcUaValue { data_type: OpcUaDataType::Double, value: OpcUaVariant::Double(bits) }
            if bits == 3.5f64.to_bits()
    ));
    assert!(matches!(
        map_iec_value(&Value::String(String::from("Pump"))),
        Some(OpcUaValue { data_type: OpcUaDataType::String, value: OpcUaVariant::String(s) })
            if s == "Pump"
    ));
}

#[test]
fn rejects_non_scalar_or_protocol_specific_types() {
    assert!(map_iec_value(&Value::Null).is_none());
    assert!(map_iec_value(&Value::Reference(None)).is_none());
    assert!(map_iec_value(&Value::Time(Duration::from_millis(10))).is_none());
}

#[test]
fn secure_profile_defaults_to_signed_and_encrypted_policy() {
    assert_eq!(
        OpcUaSecurityProfile::default(),
        OpcUaSecurityProfile {
            policy: OpcUaSecurityPolicy::Basic256Sha256,
            mode: OpcUaMessageSecurityMode::SignAndEncrypt,
            allow_anonymous: false,
        }
    );
}

#[test]
fn parses_security_policy_and_mode_aliases() {
    assert_eq!(
        OpcUaSecurityPolicy::parse("basic256_sha256"),
        Some(OpcUaSecurityPolicy::Basic256Sha256)
    );
    assert_eq!(
        OpcUaSecurityPolicy::parse("Aes128-Sha256-RsaOaep"),
        Some(OpcUaSecurityPolicy::Aes128Sha256RsaOaep)
    );
    assert_eq!(
        OpcUaMessageSecurityMode::parse("sign_and_encrypt"),
        Some(OpcUaMessageSecurityMode::SignAndEncrypt)
    );
    assert_eq!(
        OpcUaMessageSecurityMode::parse("none"),
        Some(OpcUaMessageSecurityMode::NoSecurity)
    );
}

#[test]
fn rejects_invalid_security_profile_combinations() {
    let invalid = OpcUaSecurityProfile {
        policy: OpcUaSecurityPolicy::NoSecurity,
        mode: OpcUaMessageSecurityMode::Sign,
        allow_anonymous: true,
    };
    assert!(validate_security_profile(&invalid).is_err());
}

#[test]
fn integer_samples_compare_against_float_thresholds() {
    let mut config = basic_config();
    config.sample_interval_ms = 1;
    config.alerts = vec![AlertRule {
        name: String::from("high_count"),
        variable: String::from("Counter"),
        above: Some(10.5f64.to_bits()),
        below: None,
        debounce_samples: 1,
        hook: None,
    }];
    let mut service = HistorianService::new(config, None, Vec::new()).expect("service");
    service.capture_snapshot_at(&snapshot_with_values(5, 0.0, true), 1_000);
    assert_eq!(service.alerts(10).len(), 0);
    service.capture_snapshot_at(&snapshot_with_values(11, 0.0, true), 1_100);
    let events = service.alerts(10);
    assert_eq!(events.len(), 1);
    assert_eq!(events[0].state, AlertState::Triggered);
}

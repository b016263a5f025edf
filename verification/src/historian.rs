//! Time-series historian: interval-gated sampling of the variable
//! storage, allow-list filtering, a bounded in-memory ring with a
//! journal hand-off, and threshold alerts with debounce. Appending the
//! journal file and dispatching hooks are the caller's part; which
//! samples and hook events exist is decided here.

use vstd::prelude::*;

use crate::fbits::{exact_f64_bits, f64_lt, F64_ONE_BITS, F64_ZERO_BITS};
use crate::globpat::{glob_accepts, glob_match, glob_matches, glob_pattern_valid};
use crate::strutil::trim_spec;
use crate::value::{Value, VariableStorage, Duration};

verus! {

/// What the sampler records.
#[derive(Debug, Clone, Copy, PartialEq, Eq, Structural)]
pub enum RecordingMode {
    All,
    Allowlist,
}

/// One alert rule as configured; thresholds are IEEE-754 bit patterns.
pub struct AlertRule {
    pub name: String,
    pub variable: String,
    pub above: Option<u64>,
    pub below: Option<u64>,
    pub debounce_samples: u32,
    pub hook: Option<String>,
}

/// Historian configuration.
pub struct HistorianConfig {
    pub enabled: bool,
    pub sample_interval_ms: u64,
    pub mode: RecordingMode,
    pub allow_list: Vec<String>,
    pub history_path: String,
    pub max_entries: usize,
    pub prometheus_enabled: bool,
    pub prometheus_path: String,
    pub alerts: Vec<AlertRule>,
}

/// A sampled scalar.
pub enum HistorianValue {
    Bool(bool),
    Integer(i64),
    Unsigned(u64),
    Float(u64),
    String(String),
}

/// Model of a sampled scalar.
pub enum HvModel {
    Bool(bool),
    Integer(i64),
    Unsigned(u64),
    Float(u64),
    Text(Seq<char>),
}

/// The model of a sampled scalar.
pub open spec fn hv_model(v: HistorianValue) -> HvModel {
    match v {
        HistorianValue::Bool(b) => HvModel::Bool(b),
        HistorianValue::Integer(i) => HvModel::Integer(i),
        HistorianValue::Unsigned(u) => HvModel::Unsigned(u),
        HistorianValue::Float(f) => HvModel::Float(f),
        HistorianValue::String(s) => HvModel::Text(s@),
    }
}

/// One historian sample.
pub struct HistorianSample {
    pub timestamp_ms: u128,
    pub source_time_ns: i64,
    pub variable: String,
    pub value: HistorianValue,
}

/// Model of a sample: timestamp, source time, path, value.
pub open spec fn sample_model(s: HistorianSample) -> (u128, i64, Seq<char>, HvModel) {
    (s.timestamp_ms, s.source_time_ns, s.variable@, hv_model(s.value))
}

/// Models of a sample list, in order.
pub open spec fn sample_models(ss: Seq<HistorianSample>) -> Seq<(u128, i64, Seq<char>, HvModel)> {
    ss.map_values(|s: HistorianSample| sample_model(s))
}

/// Alert transition directions.
#[derive(Debug, Clone, Copy, PartialEq, Eq, Structural)]
pub enum AlertState {
    Triggered,
    Cleared,
}

/// One alert transition.
pub struct HistorianAlertEvent {
    pub timestamp_ms: u128,
    pub rule: String,
    pub variable: String,
    pub state: AlertState,
    pub value: Option<u64>,
    pub threshold: String,
}

/// Counters exposed over the metrics endpoint.
#[derive(Debug, Clone, Copy, PartialEq, Eq, Structural)]
pub struct HistorianPrometheusSnapshot {
    pub samples_total: u64,
    pub series_total: usize,
    pub alerts_total: u64,
}

impl Default for HistorianPrometheusSnapshot {
    /// All counters at zero.
    fn default() -> (r: HistorianPrometheusSnapshot)
        ensures
            r.samples_total == 0 && r.series_total == 0 && r.alerts_total == 0,
    {
        HistorianPrometheusSnapshot { samples_total: 0, series_total: 0, alerts_total: 0 }
    }
}

/// Where a fired alert is delivered.
pub enum HookTarget {
    Log,
    File(String),
    Webhook(String),
}

/// Model of a hook target.
pub open spec fn hook_model(h: HookTarget) -> Option<(bool, Seq<char>)> {
    match h {
        HookTarget::Log => None,
        HookTarget::File(p) => Some((false, p@)),
        HookTarget::Webhook(u) => Some((true, u@)),
    }
}

/// Per-rule debounce state.
#[derive(Debug, Clone, Copy, PartialEq, Eq, Structural)]
pub struct AlertTracker {
    pub active: bool,
    pub consecutive: u32,
}

/// True when `value` (as bits) breaches a threshold: above it, or
/// below it.
pub open spec fn spec_breached(value: u64, above: Option<u64>, below: Option<u64>) -> bool {
    (match above {
        Some(limit) => f64_lt(limit, value),
        None => false,
    }) || (match below {
        Some(limit) => f64_lt(value, limit),
        None => false,
    })
}

/// Decides whether a value breaches the rule's thresholds.
pub fn threshold_breached(value: u64, above: Option<u64>, below: Option<u64>) -> (r: bool)
    ensures
        r == spec_breached(value, above, below),
{
    let over = match above {
        Some(limit) => crate::fbits::f64_bits_gt(value, limit),
        None => false,
    };
    let under = match below {
        Some(limit) => crate::fbits::f64_bits_lt(value, limit),
        None => false,
    };
    over || under
}

/// One debounce step: a breach counts up and trips the rule once the
/// count reaches the debounce; a non-breach resets the count and
/// clears a tripped rule. The second component tells which transition,
/// if any, fired.
pub open spec fn tracker_step(t: AlertTracker, breached: bool, debounce: u32) -> (
    AlertTracker,
    Option<AlertState>,
) {
    if breached {
        let c = if t.consecutive == u32::MAX {
            u32::MAX
        } else {
            (t.consecutive + 1) as u32
        };
        if !t.active && c >= debounce {
            (AlertTracker { active: true, consecutive: c }, Some(AlertState::Triggered))
        } else {
            (AlertTracker { active: t.active, consecutive: c }, None)
        }
    } else {
        if t.active {
            (AlertTracker { active: false, consecutive: 0 }, Some(AlertState::Cleared))
        } else {
            (AlertTracker { active: false, consecutive: 0 }, None)
        }
    }
}

/// A Triggered transition fires only when the consecutive count has
/// reached the rule's debounce, and a Cleared transition only from a
/// tracker that a prior Triggered left active.
pub proof fn lemma_alert_debounce(t: AlertTracker, breached: bool, debounce: u32)
    ensures
        tracker_step(t, breached, debounce).1 == Some(AlertState::Triggered) ==> tracker_step(
            t,
            breached,
            debounce,
        ).0.consecutive >= debounce && breached && !t.active,
        tracker_step(t, breached, debounce).1 == Some(AlertState::Cleared) ==> t.active
            && !breached,
{
}

/// A rule is tripped exactly while its last transition was Triggered:
/// once Triggered fires, no second Triggered comes before a Cleared,
/// and no Cleared comes without a Triggered before it.
pub proof fn lemma_alert_alternation(t: AlertTracker, breached: bool, debounce: u32)
    ensures
        t.active ==> tracker_step(t, breached, debounce).1 != Some(AlertState::Triggered),
        !t.active ==> tracker_step(t, breached, debounce).1 != Some(AlertState::Cleared),
        tracker_step(t, breached, debounce).1 == Some(AlertState::Triggered) ==> tracker_step(
            t,
            breached,
            debounce,
        ).0.active,
        tracker_step(t, breached, debounce).1 == Some(AlertState::Cleared) ==> !tracker_step(
            t,
            breached,
            debounce,
        ).0.active,
{
}

/// A compiled alert rule.
pub struct CompiledAlertRule {
    pub name: String,
    pub variable: String,
    pub above: Option<u64>,
    pub below: Option<u64>,
    pub debounce_samples: u32,
    pub hook: Option<HookTarget>,
}

/// Errors of historian configuration.
#[derive(Debug)]
pub enum HistorianConfigError {
    EmptyAlertName,
    EmptyAlertVariable,
    MissingThreshold(String),
    ZeroDebounce(String),
    InvalidPattern(String),
}

/// Payload-free tag of a configuration error.
#[derive(Debug, Clone, Copy, PartialEq, Eq, Structural)]
pub enum HistorianConfigErrorKind {
    EmptyAlertName,
    EmptyAlertVariable,
    MissingThreshold,
    ZeroDebounce,
    InvalidPattern,
}

impl HistorianConfigError {
    /// The tag of this error.
    pub open spec fn kind(&self) -> HistorianConfigErrorKind {
        match self {
            HistorianConfigError::EmptyAlertName => HistorianConfigErrorKind::EmptyAlertName,
            HistorianConfigError::EmptyAlertVariable => HistorianConfigErrorKind::EmptyAlertVariable,
            HistorianConfigError::MissingThreshold(..) => HistorianConfigErrorKind::MissingThreshold,
            HistorianConfigError::ZeroDebounce(..) => HistorianConfigErrorKind::ZeroDebounce,
            HistorianConfigError::InvalidPattern(..) => HistorianConfigErrorKind::InvalidPattern,
        }
    }
}

/// Which error, if any, the rule at a given position raises.
pub open spec fn rule_err(r: AlertRule) -> Option<HistorianConfigErrorKind> {
    if trim_spec(r.name@).len() == 0 {
        Some(HistorianConfigErrorKind::EmptyAlertName)
    } else if trim_spec(r.variable@).len() == 0 {
        Some(HistorianConfigErrorKind::EmptyAlertVariable)
    } else if r.above is None && r.below is None {
        Some(HistorianConfigErrorKind::MissingThreshold)
    } else if r.debounce_samples == 0 {
        Some(HistorianConfigErrorKind::ZeroDebounce)
    } else {
        None
    }
}

/// The hook target a rule's hook text names: `log`, an `http://` or
/// `https://` URL, else a file path resolved under the bundle root.
pub open spec fn hook_target_model(text: Seq<char>, bundle_root: Option<&str>) -> Option<(
    bool,
    Seq<char>,
)> {
    if crate::strutil::lower_key(text) == crate::strutil::lower_key("log"@) {
        None
    } else if has_prefix(text, "http://"@) || has_prefix(text, "https://"@) {
        Some((true, text))
    } else {
        Some((false, resolved_rel_path(text, bundle_root)))
    }
}

/// True when `p` starts `s`.
pub open spec fn has_prefix(s: Seq<char>, p: Seq<char>) -> bool {
    s.len() >= p.len() && s.take(p.len() as int) == p
}

/// A path resolved under an optional root: absolute paths stand.
pub open spec fn resolved_rel_path(path: Seq<char>, root: Option<&str>) -> Seq<char> {
    if path.len() > 0 && path[0] == '/' {
        path
    } else {
        match root {
            Some(r) => r@ + "/"@ + path,
            None => path,
        }
    }
}

/// Resolves a path under an optional bundle root.
pub fn resolve_path(path: &str, bundle_root: Option<&str>) -> (r: String)
    ensures
        r@ == resolved_rel_path(path@, bundle_root),
{
    let n = path.unicode_len();
    if n > 0 && path.get_char(0) == '/' {
        return path.to_owned();
    }
    match bundle_root {
        None => path.to_owned(),
        Some(root) => {
            let mut s = root.to_owned();
            s.append("/");
            s.append(path);
            s
        },
    }
}

fn starts_with_lit(s: &str, p: &str) -> (r: bool)
    ensures
        r == has_prefix(s@, p@),
{
    let sv = crate::strutil::chars_of(s);
    let pv = crate::strutil::chars_of(p);
    if sv.len() < pv.len() {
        return false;
    }
    let n = pv.len();
    let mut i: usize = 0;
    while i < n
        invariant
            n == pv@.len() <= sv@.len(),
            sv@ == s@,
            pv@ == p@,
            i <= n,
            forall|j: int| 0 <= j < i ==> sv@[j] == pv@[j],
        decreases n - i,
    {
        if sv[i] != pv[i] {
            proof {
                assert(s@.take(n as int)[i as int] != p@[i as int]);
            }
            return false;
        }
        i = i + 1;
    }
    proof {
        assert(s@.take(n as int) =~= p@);
    }
    true
}

fn lower_eq_exact(s: &str, t: &str) -> (r: bool)
    ensures
        r == (crate::strutil::lower_key(s@) == crate::strutil::lower_key(t@)),
{
    let sv = crate::strutil::chars_of(s);
    let tv = crate::strutil::chars_of(t);
    let a = crate::strutil::lower_key_of(&sv);
    let b = crate::strutil::lower_key_of(&tv);
    crate::strutil::eq_keys(&a, &b)
}

fn compile_hook(text: &str, bundle_root: Option<&str>) -> (r: HookTarget)
    ensures
        hook_model(r) == hook_target_model(text@, bundle_root),
{
    if lower_eq_exact(text, "log") {
        HookTarget::Log
    } else if starts_with_lit(text, "http://") || starts_with_lit(text, "https://") {
        HookTarget::Webhook(text.to_owned())
    } else {
        HookTarget::File(resolve_path(text, bundle_root))
    }
}

/// Model of a compiled rule: name, variable, thresholds, debounce,
/// hook.
pub open spec fn rule_model(r: CompiledAlertRule) -> (
    Seq<char>,
    Seq<char>,
    Option<u64>,
    Option<u64>,
    u32,
    Option<Option<(bool, Seq<char>)>>,
) {
    (
        r.name@,
        r.variable@,
        r.above,
        r.below,
        r.debounce_samples,
        match r.hook {
            Some(h) => Some(hook_model(h)),
            None => None,
        },
    )
}

/// Models of a compiled rule list.
pub open spec fn rule_models(rs: Seq<CompiledAlertRule>) -> Seq<
    (Seq<char>, Seq<char>, Option<u64>, Option<u64>, u32, Option<Option<(bool, Seq<char>)>>),
> {
    rs.map_values(|r: CompiledAlertRule| rule_model(r))
}

/// Compiles the alert rules, checking each in order; `bundle_root`
/// anchors relative hook file paths.
pub fn compile_alert_rules(rules: &Vec<AlertRule>, bundle_root: Option<&str>) -> (r: Result<
    Vec<CompiledAlertRule>,
    HistorianConfigError,
>)
    ensures
        match r {
            Ok(out) => {
                &&& forall|i: int|
                    0 <= i < rules@.len() ==> #[trigger] rule_err(rules@[i]) is None
                &&& out@.len() == rules@.len()
                &&& forall|i: int|
                    0 <= i < rules@.len() ==> #[trigger] rule_models(out@)[i] == (
                        rules@[i].name@,
                        rules@[i].variable@,
                        rules@[i].above,
                        rules@[i].below,
                        rules@[i].debounce_samples,
                        match rules@[i].hook {
                            Some(h) => Some(hook_target_model(h@, bundle_root)),
                            None => None::<Option<(bool, Seq<char>)>>,
                        },
                    )
            },
            Err(e) => exists|i: int|
                0 <= i < rules@.len() && #[trigger] rule_err(rules@[i]) == Some(e.kind()),
        },
{
    let n = rules.len();
    let mut out: Vec<CompiledAlertRule> = Vec::new();
    let mut i: usize = 0;
    while i < n
        invariant
            n == rules@.len(),
            i <= n,
            out@.len() == i as int,
            forall|j: int| 0 <= j < i ==> #[trigger] rule_err(rules@[j]) is None,
            forall|j: int|
                0 <= j < i ==> #[trigger] rule_models(out@)[j] == (
                    rules@[j].name@,
                    rules@[j].variable@,
                    rules@[j].above,
                    rules@[j].below,
                    rules@[j].debounce_samples,
                    match rules@[j].hook {
                        Some(h) => Some(hook_target_model(h@, bundle_root)),
                        None => None::<Option<(bool, Seq<char>)>>,
                    },
                ),
        decreases n - i,
    {
        let rule = &rules[i];
        let name_trim = crate::strutil::trim_str(rule.name.as_str());
        if name_trim.as_str().unicode_len() == 0 {
            proof {
                assert(rule_err(rules@[i as int]) == Some(
                    HistorianConfigErrorKind::EmptyAlertName,
                ));
            }
            return Err(HistorianConfigError::EmptyAlertName);
        }
        let var_trim = crate::strutil::trim_str(rule.variable.as_str());
        if var_trim.as_str().unicode_len() == 0 {
            proof {
                assert(rule_err(rules@[i as int]) == Some(
                    HistorianConfigErrorKind::EmptyAlertVariable,
                ));
            }
            return Err(HistorianConfigError::EmptyAlertVariable);
        }
        let no_threshold = match (&rule.above, &rule.below) {
            (None, None) => true,
            _ => false,
        };
        if no_threshold {
            proof {
                assert(rule_err(rules@[i as int]) == Some(
                    HistorianConfigErrorKind::MissingThreshold,
                ));
            }
            return Err(HistorianConfigError::MissingThreshold(rule.name.clone()));
        }
        if rule.debounce_samples == 0 {
            proof {
                assert(rule_err(rules@[i as int]) == Some(HistorianConfigErrorKind::ZeroDebounce));
            }
            return Err(HistorianConfigError::ZeroDebounce(rule.name.clone()));
        }
        let hook = match &rule.hook {
            Some(text) => Some(compile_hook(text.as_str(), bundle_root)),
            None => None,
        };
        let compiled = CompiledAlertRule {
            name: rule.name.clone(),
            variable: rule.variable.clone(),
            above: rule.above,
            below: rule.below,
            debounce_samples: rule.debounce_samples,
            hook,
        };
        let ghost prev = out@;
        out.push(compiled);
        i = i + 1;
        proof {
            assert forall|j: int| 0 <= j < i implies #[trigger] rule_models(out@)[j] == (
                rules@[j].name@,
                rules@[j].variable@,
                rules@[j].above,
                rules@[j].below,
                rules@[j].debounce_samples,
                match rules@[j].hook {
                    Some(h) => Some(hook_target_model(h@, bundle_root)),
                    None => None::<Option<(bool, Seq<char>)>>,
                },
            ) by {
                assert(rule_models(out@)[j] == rule_model(out@[j]));
                if j < i - 1 {
                    assert(out@[j] == prev[j]);
                    assert(rule_models(prev)[j] == rule_model(prev[j]));
                }
            }
        }
    }
    Ok(out)
}

/// Checks every allow-list pattern; `Ok` hands the patterns back.
pub fn compile_patterns(patterns: Vec<String>) -> (r: Result<Vec<String>, HistorianConfigError>)
    ensures
        match r {
            Ok(out) => out == patterns && forall|i: int|
                0 <= i < patterns@.len() ==> glob_accepts(#[trigger] patterns@[i]@),
            Err(e) => e.kind() == HistorianConfigErrorKind::InvalidPattern && exists|i: int|
                0 <= i < patterns@.len() && !glob_accepts(#[trigger] patterns@[i]@),
        },
{
    let n = patterns.len();
    let mut i: usize = 0;
    while i < n
        invariant
            n == patterns@.len(),
            i <= n,
            forall|j: int| 0 <= j < i ==> glob_accepts(#[trigger] patterns@[j]@),
        decreases n - i,
    {
        if !glob_pattern_valid(patterns[i].as_str()) {
            return Err(HistorianConfigError::InvalidPattern(patterns[i].clone()));
        }
        i = i + 1;
    }
    Ok(patterns)
}

/// The scalar a value samples as, if any: numeric widths collapse to
/// the journal's integer, unsigned, float and string kinds.
pub open spec fn leaf_model(v: Value) -> Option<HvModel> {
    match v {
        Value::Bool(b) => Some(HvModel::Bool(b)),
        Value::SInt(x) => Some(HvModel::Integer(x as i64)),
        Value::Int(x) => Some(HvModel::Integer(x as i64)),
        Value::DInt(x) => Some(HvModel::Integer(x as i64)),
        Value::LInt(x) => Some(HvModel::Integer(x)),
        Value::USInt(x) => Some(HvModel::Unsigned(x as u64)),
        Value::UInt(x) => Some(HvModel::Unsigned(x as u64)),
        Value::UDInt(x) => Some(HvModel::Unsigned(x as u64)),
        Value::ULInt(x) => Some(HvModel::Unsigned(x)),
        Value::Real(x) => Some(HvModel::Float(crate::fbits::f32_widen(x))),
        Value::LReal(x) => Some(HvModel::Float(x)),
        Value::Byte(x) => Some(HvModel::Unsigned(x as u64)),
        Value::Word(x) => Some(HvModel::Unsigned(x as u64)),
        Value::DWord(x) => Some(HvModel::Unsigned(x as u64)),
        Value::LWord(x) => Some(HvModel::Unsigned(x)),
        Value::Time(d) => Some(
            HvModel::Integer(
                if d.nanos >= 0 {
                    (d.nanos / 1000000) as i64
                } else {
                    (-((-(d.nanos as int)) / 1000000)) as i64
                },
            ),
        ),
        Value::LTime(d) => Some(
            HvModel::Integer(
                if d.nanos >= 0 {
                    (d.nanos / 1000000) as i64
                } else {
                    (-((-(d.nanos as int)) / 1000000)) as i64
                },
            ),
        ),
        Value::Date(x) => Some(HvModel::Integer(x)),
        Value::LDate(x) => Some(HvModel::Integer(x)),
        Value::Tod(x) => Some(HvModel::Integer(x)),
        Value::LTod(x) => Some(HvModel::Integer(x)),
        Value::Dt(x) => Some(HvModel::Integer(x)),
        Value::Ldt(x) => Some(HvModel::Integer(x)),
        Value::String(s) => Some(HvModel::Text(s@)),
        Value::WString(s) => Some(HvModel::Text(s@)),
        Value::Char(c) => Some(HvModel::Text(seq![c as char])),
        Value::WChar(c) => if crate::strutil::valid_scalar(c as u32) {
            Some(HvModel::Text(seq![(c as u32) as char]))
        } else {
            None
        },
        _ => None,
    }
}

/// Converts a value to the scalar it samples as.
pub fn to_historian_value(value: &Value) -> (r: Option<HistorianValue>)
    ensures
        match r {
            Some(h) => leaf_model(*value) == Some(hv_model(h)),
            None => leaf_model(*value) is None,
        },
{
    match value {
        Value::Bool(b) => Some(HistorianValue::Bool(*b)),
        Value::SInt(x) => Some(HistorianValue::Integer(*x as i64)),
        Value::Int(x) => Some(HistorianValue::Integer(*x as i64)),
        Value::DInt(x) => Some(HistorianValue::Integer(*x as i64)),
        Value::LInt(x) => Some(HistorianValue::Integer(*x)),
        Value::USInt(x) => Some(HistorianValue::Unsigned(*x as u64)),
        Value::UInt(x) => Some(HistorianValue::Unsigned(*x as u64)),
        Value::UDInt(x) => Some(HistorianValue::Unsigned(*x as u64)),
        Value::ULInt(x) => Some(HistorianValue::Unsigned(*x)),
        Value::Real(x) => Some(HistorianValue::Float(crate::fbits::widen_f32_bits(*x))),
        Value::LReal(x) => Some(HistorianValue::Float(*x)),
        Value::Byte(x) => Some(HistorianValue::Unsigned(*x as u64)),
        Value::Word(x) => Some(HistorianValue::Unsigned(*x as u64)),
        Value::DWord(x) => Some(HistorianValue::Unsigned(*x as u64)),
        Value::LWord(x) => Some(HistorianValue::Unsigned(*x)),
        Value::Time(d) => Some(HistorianValue::Integer(d.as_millis())),
        Value::LTime(d) => Some(HistorianValue::Integer(d.as_millis())),
        Value::Date(x) => Some(HistorianValue::Integer(*x)),
        Value::LDate(x) => Some(HistorianValue::Integer(*x)),
        Value::Tod(x) => Some(HistorianValue::Integer(*x)),
        Value::LTod(x) => Some(HistorianValue::Integer(*x)),
        Value::Dt(x) => Some(HistorianValue::Integer(*x)),
        Value::Ldt(x) => Some(HistorianValue::Integer(*x)),
        Value::String(s) => Some(HistorianValue::String(s.clone())),
        Value::WString(s) => Some(HistorianValue::String(s.clone())),
        Value::Char(c) => Some(
            HistorianValue::String(crate::strutil::char_string(*c as char)),
        ),
        Value::WChar(c) => match crate::strutil::char_of_u32(*c as u32) {
            Some(ch) => Some(HistorianValue::String(crate::strutil::char_string(ch))),
            None => None,
        },
        _ => None,
    }
}

/// Views of the allow-list patterns.
pub open spec fn pattern_views(ps: Seq<String>) -> Seq<Seq<char>> {
    ps.map_values(|p: String| p@)
}

/// Whether a leaf path is recorded: always when recording everything,
/// else when some allow-list pattern matches it.
pub open spec fn path_recorded(path: Seq<char>, all_mode: bool, pats: Seq<Seq<char>>) -> bool {
    all_mode || exists|i: int| 0 <= i < pats.len() && glob_matches(#[trigger] pats[i], path)
}

/// Decides whether a leaf path is recorded.
pub fn should_record(path: &str, all_mode: bool, patterns: &Vec<String>) -> (r: bool)
    ensures
        r == path_recorded(path@, all_mode, pattern_views(patterns@)),
{
    if all_mode {
        return true;
    }
    let ghost pv = pattern_views(patterns@);
    let n = patterns.len();
    let mut i: usize = 0;
    while i < n
        invariant
            n == patterns@.len(),
            pv == pattern_views(patterns@),
            i <= n,
            forall|j: int| 0 <= j < i ==> !glob_matches(#[trigger] pv[j], path@),
        decreases n - i,
    {
        proof {
            assert(pv[i as int] == patterns@[i as int]@);
        }
        if glob_match(patterns[i].as_str(), path) {
            return true;
        }
        i = i + 1;
    }
    false
}

/// Leaves a value flattens to, already filtered by the allow list.
/// Struct fields join the path with a dot, array elements with a
/// bracketed index; instances spend `fuel` to follow the indirection.
pub open spec fn flat(
    path: Seq<char>,
    v: Value,
    storage: VariableStorage,
    all_mode: bool,
    pats: Seq<Seq<char>>,
    fuel: nat,
) -> Seq<(Seq<char>, HvModel)>
    decreases fuel, v, 1nat,
{
    match leaf_model(v) {
        Some(h) => if path_recorded(path, all_mode, pats) {
            seq![(path, h)]
        } else {
            Seq::empty()
        },
        None => match v {
            Value::Struct(st) => flat_fields(path, st.fields@, storage, all_mode, pats, fuel),
            Value::Array(a) => flat_elems(path, a.elements@, 0, storage, all_mode, pats, fuel),
            Value::Instance(id) => {
                if fuel > 0 {
                    match crate::value::lookup_instance_raw(storage.instances_raw(), id.0) {
                        Some(fields) => flat_fields(
                            path,
                            fields@,
                            storage,
                            all_mode,
                            pats,
                            (fuel - 1) as nat,
                        ),
                        None => Seq::empty(),
                    }
                } else {
                    Seq::empty()
                }
            },
            _ => Seq::empty(),
        },
    }
}

/// Leaves of named fields under a dotted path.
pub open spec fn flat_fields(
    path: Seq<char>,
    fs: Seq<(String, Value)>,
    storage: VariableStorage,
    all_mode: bool,
    pats: Seq<Seq<char>>,
    fuel: nat,
) -> Seq<(Seq<char>, HvModel)>
    decreases fuel, fs, 0nat,
{
    if fs.len() == 0 {
        Seq::empty()
    } else {
        flat(path + "."@ + fs[0].0@, fs[0].1, storage, all_mode, pats, fuel) + flat_fields(
            path,
            fs.drop_first(),
            storage,
            all_mode,
            pats,
            fuel,
        )
    }
}

/// Leaves of array elements under a bracketed path.
pub open spec fn flat_elems(
    path: Seq<char>,
    es: Seq<Value>,
    idx: nat,
    storage: VariableStorage,
    all_mode: bool,
    pats: Seq<Seq<char>>,
    fuel: nat,
) -> Seq<(Seq<char>, HvModel)>
    decreases fuel, es, 0nat,
{
    if es.len() == 0 {
        Seq::empty()
    } else {
        flat(path + "["@ + crate::strutil::dec_of(idx) + "]"@, es[0], storage, all_mode, pats, fuel)
            + flat_elems(path, es.drop_first(), idx + 1, storage, all_mode, pats, fuel)
    }
}

/// Models of flattened path-value pairs.
pub open spec fn pair_models(ps: Seq<(String, HistorianValue)>) -> Seq<(Seq<char>, HvModel)> {
    ps.map_values(|p: (String, HistorianValue)| (p.0@, hv_model(p.1)))
}

/// Flattens one value's recorded leaves onto `out`.
#[verifier::loop_isolation(false)]
fn flatten_value(
    path: &str,
    value: &Value,
    storage: &VariableStorage,
    all_mode: bool,
    patterns: &Vec<String>,
    fuel: u32,
    out: &mut Vec<(String, HistorianValue)>,
)
    ensures
        pair_models(final(out)@) == pair_models(old(out)@) + flat(
            path@,
            *value,
            *storage,
            all_mode,
            pattern_views(patterns@),
            fuel as nat,
        ),
    decreases fuel, value,
{
    let ghost pats = pattern_views(patterns@);
    match to_historian_value(value) {
        Some(h) => {
            if should_record(path, all_mode, patterns) {
                let ghost prev = out@;
                out.push((path.to_owned(), h));
                proof {
                    assert(pair_models(out@) =~= pair_models(prev) + flat(
                        path@,
                        *value,
                        *storage,
                        all_mode,
                        pats,
                        fuel as nat,
                    ));
                }
            } else {
                proof {
                    assert(pair_models(out@) =~= pair_models(out@) + flat(
                        path@,
                        *value,
                        *storage,
                        all_mode,
                        pats,
                        fuel as nat,
                    ));
                }
            }
        },
        None => {
            match value {
                Value::Struct(st) => {
                    let ghost fs = st.fields@;
                    let ghost base = out@;
                    let n = st.fields.len();
                    let mut i: usize = 0;
                    proof {
                        assert(fs.skip(0) =~= fs);
                        assert(pair_models(out@) + flat_fields(
                            path@,
                            fs.skip(0),
                            *storage,
                            all_mode,
                            pats,
                            fuel as nat,
                        ) =~= pair_models(base) + flat_fields(
                            path@,
                            fs,
                            *storage,
                            all_mode,
                            pats,
                            fuel as nat,
                        ));
                    }
                    while i < n
                        invariant
                            i <= n,
                            pair_models(out@) + flat_fields(
                                path@,
                                fs.skip(i as int),
                                *storage,
                                all_mode,
                                pats,
                                fuel as nat,
                            ) == pair_models(base) + flat_fields(
                                path@,
                                fs,
                                *storage,
                                all_mode,
                                pats,
                                fuel as nat,
                            ),
                        decreases n - i,
                    {
                        let entry = &st.fields[i];
                        let mut child = path.to_owned();
                        child.append(".");
                        child.append(entry.0.as_str());
                        proof {
                            assert(decreases_to!(*value => st.fields));
                            assert(decreases_to!(st.fields => st.fields@));
                            assert(decreases_to!(st.fields@ => st.fields@[i as int]));
                            assert(decreases_to!(st.fields@[i as int] => st.fields@[i as int].1));
                            assert(decreases_to!(*value => st.fields@[i as int].1));
                            assert(fs.skip(i as int)[0] == fs[i as int]);
                            assert(fs.skip(i as int).drop_first() =~= fs.skip(i + 1));
                        }
                        flatten_value(
                            child.as_str(),
                            &entry.1,
                            storage,
                            all_mode,
                            patterns,
                            fuel,
                            out,
                        );
                        i = i + 1;
                    }
                    proof {
                        assert(fs.skip(n as int) =~= Seq::<(String, Value)>::empty());
                        assert(pair_models(out@) =~= pair_models(out@) + flat_fields(
                            path@,
                            fs.skip(n as int),
                            *storage,
                            all_mode,
                            pats,
                            fuel as nat,
                        ));
                    }
                },
                Value::Array(a) => {
                    let ghost es = a.elements@;
                    let ghost base = out@;
                    let n = a.elements.len();
                    let mut i: usize = 0;
                    proof {
                        assert(es.skip(0) =~= es);
                        assert(pair_models(out@) + flat_elems(
                            path@,
                            es.skip(0),
                            0,
                            *storage,
                            all_mode,
                            pats,
                            fuel as nat,
                        ) =~= pair_models(base) + flat_elems(
                            path@,
                            es,
                            0,
                            *storage,
                            all_mode,
                            pats,
                            fuel as nat,
                        ));
                    }
                    while i < n
                        invariant
                            i <= n,
                            pair_models(out@) + flat_elems(
                                path@,
                                es.skip(i as int),
                                i as nat,
                                *storage,
                                all_mode,
                                pats,
                                fuel as nat,
                            ) == pair_models(base) + flat_elems(
                                path@,
                                es,
                                0,
                                *storage,
                                all_mode,
                                pats,
                                fuel as nat,
                            ),
                        decreases n - i,
                    {
                        let mut child = path.to_owned();
                        child.append("[");
                        child.append(crate::strutil::dec_u64(i as u64).as_str());
                        child.append("]");
                        proof {
                            assert(decreases_to!(*value => a.elements));
                            assert(decreases_to!(a.elements => a.elements@));
                            assert(decreases_to!(a.elements@ => a.elements@[i as int]));
                            assert(decreases_to!(*value => a.elements@[i as int]));
                            assert(es.skip(i as int)[0] == es[i as int]);
                            assert(es.skip(i as int).drop_first() =~= es.skip(i + 1));
                        }
                        flatten_value(
                            child.as_str(),
                            &a.elements[i],
                            storage,
                            all_mode,
                            patterns,
                            fuel,
                            out,
                        );
                        i = i + 1;
                    }
                    proof {
                        assert(es.skip(n as int) =~= Seq::<Value>::empty());
                        assert(pair_models(out@) =~= pair_models(out@) + flat_elems(
                            path@,
                            es.skip(n as int),
                            n as nat,
                            *storage,
                            all_mode,
                            pats,
                            fuel as nat,
                        ));
                    }
                },
                Value::Instance(id) => {
                    if fuel > 0 {
                        match storage.get_instance(id.0) {
                            Some(fields) => {
                                let ghost fs = fields@;
                                let ghost base = out@;
                                let n = fields.len();
                                let mut i: usize = 0;
                                proof {
                                    assert(fs.skip(0) =~= fs);
                                    assert(pair_models(out@) + flat_fields(
                                        path@,
                                        fs.skip(0),
                                        *storage,
                                        all_mode,
                                        pats,
                                        (fuel - 1) as nat,
                                    ) =~= pair_models(base) + flat_fields(
                                        path@,
                                        fs,
                                        *storage,
                                        all_mode,
                                        pats,
                                        (fuel - 1) as nat,
                                    ));
                                }
                                while i < n
                                    invariant
                                        i <= n,
                                        pair_models(out@) + flat_fields(
                                            path@,
                                            fs.skip(i as int),
                                            *storage,
                                            all_mode,
                                            pats,
                                            (fuel - 1) as nat,
                                        ) == pair_models(base) + flat_fields(
                                            path@,
                                            fs,
                                            *storage,
                                            all_mode,
                                            pats,
                                            (fuel - 1) as nat,
                                        ),
                                    decreases n - i,
                                {
                                    let entry = &fields[i];
                                    let mut child = path.to_owned();
                                    child.append(".");
                                    child.append(entry.0.as_str());
                                    proof {
                                        assert(fs.skip(i as int)[0] == fs[i as int]);
                                        assert(fs.skip(i as int).drop_first() =~= fs.skip(i + 1));
                                    }
                                    flatten_value(
                                        child.as_str(),
                                        &entry.1,
                                        storage,
                                        all_mode,
                                        patterns,
                                        fuel - 1,
                                        out,
                                    );
                                    i = i + 1;
                                }
                                proof {
                                    assert(fs.skip(n as int) =~= Seq::<(String, Value)>::empty());
                                    assert(pair_models(out@) =~= pair_models(out@) + flat_fields(
                                        path@,
                                        fs.skip(n as int),
                                        *storage,
                                        all_mode,
                                        pats,
                                        (fuel - 1) as nat,
                                    ));
                                }
                            },
                            None => {
                                proof {
                                    assert(pair_models(out@) =~= pair_models(out@) + flat(
                                        path@,
                                        *value,
                                        *storage,
                                        all_mode,
                                        pats,
                                        fuel as nat,
                                    ));
                                }
                            },
                        }
                    } else {
                        proof {
                            assert(pair_models(out@) =~= pair_models(out@) + flat(
                                path@,
                                *value,
                                *storage,
                                all_mode,
                                pats,
                                fuel as nat,
                            ));
                        }
                    }
                },
                _ => {
                    proof {
                        assert(pair_models(out@) =~= pair_models(out@) + flat(
                            path@,
                            *value,
                            *storage,
                            all_mode,
                            pats,
                            fuel as nat,
                        ));
                    }
                },
            }
        },
    }
}

/// Leaves of a global list, each flattened under its own name.
pub open spec fn flat_globals(
    entries: Seq<(String, Value)>,
    storage: VariableStorage,
    all_mode: bool,
    pats: Seq<Seq<char>>,
    fuel: nat,
) -> Seq<(Seq<char>, HvModel)>
    decreases entries.len(),
{
    if entries.len() == 0 {
        Seq::empty()
    } else {
        flat(entries[0].0@, entries[0].1, storage, all_mode, pats, fuel) + flat_globals(
            entries.drop_first(),
            storage,
            all_mode,
            pats,
            fuel,
        )
    }
}

/// Leaves of the retained list, each flattened under `retain.`.
pub open spec fn flat_retain(
    entries: Seq<(String, Value)>,
    storage: VariableStorage,
    all_mode: bool,
    pats: Seq<Seq<char>>,
    fuel: nat,
) -> Seq<(Seq<char>, HvModel)>
    decreases entries.len(),
{
    if entries.len() == 0 {
        Seq::empty()
    } else {
        flat("retain."@ + entries[0].0@, entries[0].1, storage, all_mode, pats, fuel) + flat_retain(
            entries.drop_first(),
            storage,
            all_mode,
            pats,
            fuel,
        )
    }
}

/// Every recorded leaf of a snapshot: globals first, then retained
/// variables under `retain.`.
pub open spec fn collected_pairs(
    snapshot: crate::value::DebugSnapshot,
    all_mode: bool,
    pats: Seq<Seq<char>>,
    fuel: nat,
) -> Seq<(Seq<char>, HvModel)> {
    flat_globals(snapshot.storage.globals_raw(), snapshot.storage, all_mode, pats, fuel)
        + flat_retain(snapshot.storage.retain_raw(), snapshot.storage, all_mode, pats, fuel)
}

/// The samples a capture at `ts` produces from the recorded leaves.
pub open spec fn stamped(ts: u128, ns: i64, pairs: Seq<(Seq<char>, HvModel)>) -> Seq<
    (u128, i64, Seq<char>, HvModel),
> {
    pairs.map_values(|p: (Seq<char>, HvModel)| (ts, ns, p.0, p.1))
}

/// How many instance indirections a flattening will follow.
pub const FLATTEN_FUEL: u32 = 64;

/// Flattens a snapshot into timestamped samples.
#[verifier::loop_isolation(false)]
pub fn collect_snapshot_samples(
    snapshot: &crate::value::DebugSnapshot,
    all_mode: bool,
    patterns: &Vec<String>,
    timestamp_ms: u128,
) -> (r: Vec<HistorianSample>)
    ensures
        sample_models(r@) == stamped(
            timestamp_ms,
            snapshot.now.nanos,
            collected_pairs(
                *snapshot,
                all_mode,
                pattern_views(patterns@),
                FLATTEN_FUEL as nat,
            ),
        ),
{
    let ghost pats = pattern_views(patterns@);
    let mut pairs: Vec<(String, HistorianValue)> = Vec::new();
    let globals = snapshot.storage.globals();
    let ghost gs = globals@;
    let n = globals.len();
    let mut i: usize = 0;
    proof {
        assert(gs.skip(0) =~= gs);
        assert(pair_models(pairs@) =~= Seq::<(Seq<char>, HvModel)>::empty());
    }
    while i < n
        invariant
            i <= n,
            pair_models(pairs@) + flat_globals(
                gs.skip(i as int),
                snapshot.storage,
                all_mode,
                pats,
                FLATTEN_FUEL as nat,
            ) == flat_globals(gs, snapshot.storage, all_mode, pats, FLATTEN_FUEL as nat),
        decreases n - i,
    {
        let entry = &globals[i];
        proof {
            assert(gs.skip(i as int)[0] == gs[i as int]);
            assert(gs.skip(i as int).drop_first() =~= gs.skip(i + 1));
        }
        flatten_value(
            entry.0.as_str(),
            &entry.1,
            &snapshot.storage,
            all_mode,
            patterns,
            FLATTEN_FUEL,
            &mut pairs,
        );
        i = i + 1;
    }
    proof {
        assert(gs.skip(n as int) =~= Seq::<(String, Value)>::empty());
    }
    let retained = snapshot.storage.retain();
    let ghost rs = retained@;
    let rn = retained.len();
    let mut i: usize = 0;
    proof {
        assert(rs.skip(0) =~= rs);
    }
    while i < rn
        invariant
            i <= rn,
            pair_models(pairs@) + flat_retain(
                rs.skip(i as int),
                snapshot.storage,
                all_mode,
                pats,
                FLATTEN_FUEL as nat,
            ) == flat_globals(gs, snapshot.storage, all_mode, pats, FLATTEN_FUEL as nat)
                + flat_retain(rs, snapshot.storage, all_mode, pats, FLATTEN_FUEL as nat),
        decreases rn - i,
    {
        let entry = &retained[i];
        let mut child = String::from_str("retain.");
        proof {
            reveal_strlit("retain.");
        }
        child.append(entry.0.as_str());
        proof {
            assert(rs.skip(i as int)[0] == rs[i as int]);
            assert(rs.skip(i as int).drop_first() =~= rs.skip(i + 1));
        }
        flatten_value(
            child.as_str(),
            &entry.1,
            &snapshot.storage,
            all_mode,
            patterns,
            FLATTEN_FUEL,
            &mut pairs,
        );
        i = i + 1;
    }
    proof {
        assert(rs.skip(rn as int) =~= Seq::<(String, Value)>::empty());
    }
    let source_time_ns = snapshot.now.as_nanos();
    let pn = pairs.len();
    let mut out: Vec<HistorianSample> = Vec::new();
    let mut i: usize = 0;
    let ghost all = pair_models(pairs@);
    proof {
        assert(all.len() == pn);
    }
    while i < pn
        invariant
            i <= pn,
            pn == pairs@.len() == all.len(),
            forall|j: int|
                i <= j < pn ==> ((#[trigger] pairs@[j]).0@, hv_model(pairs@[j].1)) == all[j],
            source_time_ns == snapshot.now.nanos,
            out@.len() == i as int,
            forall|j: int|
                0 <= j < i ==> #[trigger] sample_models(out@)[j] == (
                    timestamp_ms,
                    snapshot.now.nanos,
                    all[j].0,
                    all[j].1,
                ),
        decreases pn - i,
    {
        let mut entry = (String::new(), HistorianValue::Bool(false));
        pairs.set_and_swap(i, &mut entry);
        proof {
            assert((entry.0@, hv_model(entry.1)) == all[i as int]);
        }
        let ghost prev = out@;
        out.push(
            HistorianSample {
                timestamp_ms,
                source_time_ns,
                variable: entry.0,
                value: entry.1,
            },
        );
        i = i + 1;
        proof {
            assert forall|j: int| 0 <= j < i implies #[trigger] sample_models(out@)[j] == (
                timestamp_ms,
                snapshot.now.nanos,
                all[j].0,
                all[j].1,
            ) by {
                assert(sample_models(out@)[j] == sample_model(out@[j]));
                if j < i - 1 {
                    assert(out@[j] == prev[j]);
                    assert(sample_models(prev)[j] == sample_model(prev[j]));
                }
            }
        }
    }
    proof {
        assert(sample_models(out@) =~= stamped(timestamp_ms, snapshot.now.nanos, all));
    }
    out
}

/// The bits a sampled value contributes to alert comparison: booleans
/// read as one and zero, floats stand as they are, text never
/// compares. Integers convert exactly while a double can hold them;
/// by intent, a count beyond that range takes no part in alert
/// comparison rather than being rounded into one.
pub open spec fn hv_num(h: HvModel) -> Option<u64> {
    match h {
        HvModel::Bool(b) => Some(
            if b {
                F64_ONE_BITS
            } else {
                F64_ZERO_BITS
            },
        ),
        HvModel::Integer(i) => if -0x20000000000000 <= i <= 0x20000000000000 {
            Some(exact_f64_bits(i as int))
        } else {
            None
        },
        HvModel::Unsigned(u) => if u <= 0x20000000000000 {
            Some(exact_f64_bits(u as int))
        } else {
            None
        },
        HvModel::Float(f) => Some(f),
        HvModel::Text(_) => None,
    }
}

fn hv_num_exec(v: &HistorianValue) -> (r: Option<u64>)
    ensures
        r == hv_num(hv_model(*v)),
{
    match v {
        HistorianValue::Bool(b) => Some(
            if *b {
                F64_ONE_BITS
            } else {
                F64_ZERO_BITS
            },
        ),
        HistorianValue::Integer(i) => if -0x20000000000000 <= *i && *i <= 0x20000000000000 {
            Some(crate::fbits::int_to_f64_bits(*i))
        } else {
            None
        },
        HistorianValue::Unsigned(u) => if *u <= 0x20000000000000 {
            Some(crate::fbits::int_to_f64_bits(*u as i64))
        } else {
            None
        },
        HistorianValue::Float(f) => Some(*f),
        HistorianValue::String(_) => None,
    }
}

/// The last numeric reading of `var` in a capture's samples.
pub open spec fn latest_num(
    samples: Seq<(u128, i64, Seq<char>, HvModel)>,
    var: Seq<char>,
) -> Option<u64>
    decreases samples.len(),
{
    if samples.len() == 0 {
        None
    } else if samples.last().2 == var && hv_num(samples.last().3) is Some {
        hv_num(samples.last().3)
    } else {
        latest_num(samples.drop_last(), var)
    }
}

fn latest_num_exec(samples: &Vec<HistorianSample>, var: &str) -> (r: Option<u64>)
    ensures
        r == latest_num(sample_models(samples@), var@),
{
    let ghost sm = sample_models(samples@);
    let vc = crate::strutil::chars_of(var);
    let mut i: usize = samples.len();
    proof {
        assert(sm.take(samples@.len() as int) =~= sm);
    }
    while i > 0
        invariant
            i <= samples@.len(),
            sm == sample_models(samples@),
            vc@ == var@,
            latest_num(sm, var@) == latest_num(sm.take(i as int), var@),
        decreases i,
    {
        let s = &samples[i - 1];
        proof {
            assert(sm.take(i as int).last() == sample_model(samples@[i - 1]));
            assert(sm.take(i as int).drop_last() =~= sm.take(i - 1));
        }
        let sv = crate::strutil::chars_of(s.variable.as_str());
        if crate::strutil::eq_chars(&sv, &vc) {
            match hv_num_exec(&s.value) {
                Some(bits) => {
                    return Some(bits);
                },
                None => {},
            }
        }
        i = i - 1;
    }
    proof {
        assert(sm.take(0) =~= Seq::<(u128, i64, Seq<char>, HvModel)>::empty());
    }
    None
}

/// Threshold description of a rule: which side of the band it names.
pub open spec fn threshold_text(above: Option<u64>, below: Option<u64>) -> Seq<char> {
    match (above, below) {
        (Some(_), Some(_)) => "outside_band"@,
        (Some(_), None) => "above"@,
        (None, Some(_)) => "below"@,
        (None, None) => "threshold"@,
    }
}

fn rule_threshold_text(above: Option<u64>, below: Option<u64>) -> (r: String)
    ensures
        r@ == threshold_text(above, below),
{
    match (above, below) {
        (Some(_), Some(_)) => String::from_str("outside_band"),
        (Some(_), None) => String::from_str("above"),
        (None, Some(_)) => String::from_str("below"),
        (None, None) => String::from_str("threshold"),
    }
}

/// Model of an alert event: time, rule, variable, transition, value,
/// threshold text.
pub open spec fn event_model(e: HistorianAlertEvent) -> (
    u128,
    Seq<char>,
    Seq<char>,
    AlertState,
    Option<u64>,
    Seq<char>,
) {
    (e.timestamp_ms, e.rule@, e.variable@, e.state, e.value, e.threshold@)
}

/// Models of an event list, in order.
pub open spec fn event_models(es: Seq<HistorianAlertEvent>) -> Seq<
    (u128, Seq<char>, Seq<char>, AlertState, Option<u64>, Seq<char>),
> {
    es.map_values(|e: HistorianAlertEvent| event_model(e))
}

/// What evaluating the rules over a capture's samples produces: the
/// advanced trackers, the transitions in rule order, and the hook
/// deliveries for rules that carry a hook.
pub open spec fn alerts_after(
    rules: Seq<CompiledAlertRule>,
    trackers: Seq<AlertTracker>,
    samples: Seq<(u128, i64, Seq<char>, HvModel)>,
    ts: u128,
) -> (
    Seq<AlertTracker>,
    Seq<(u128, Seq<char>, Seq<char>, AlertState, Option<u64>, Seq<char>)>,
    Seq<
        (
            Option<(bool, Seq<char>)>,
            (u128, Seq<char>, Seq<char>, AlertState, Option<u64>, Seq<char>),
        ),
    >,
)
    decreases rules.len(),
{
    if rules.len() == 0 || trackers.len() != rules.len() {
        (trackers, Seq::empty(), Seq::empty())
    } else {
        let (pt, pe, ph) = alerts_after(rules.drop_last(), trackers.drop_last(), samples, ts);
        let rule = rules.last();
        let val = latest_num(samples, rule.variable@);
        let breached = match val {
            Some(v) => spec_breached(v, rule.above, rule.below),
            None => false,
        };
        let (t2, ev) = tracker_step(trackers.last(), breached, rule.debounce_samples);
        match ev {
            Some(state) => {
                let em = (
                    ts,
                    rule.name@,
                    rule.variable@,
                    state,
                    val,
                    threshold_text(rule.above, rule.below),
                );
                let hooks = match rule.hook {
                    Some(h) => ph.push((hook_model(h), em)),
                    None => ph,
                };
                (pt.push(t2), pe.push(em), hooks)
            },
            None => (pt.push(t2), pe, ph),
        }
    }
}

/// True when the transition `em` is justified by one of the rules:
/// that rule's debounce step over its latest sampled value emitted
/// exactly this event, a Triggered one only from an inactive tracker
/// whose count reached the debounce on a breach, a Cleared one only
/// from an active tracker on a non-breach.
pub open spec fn event_explained(
    em: (u128, Seq<char>, Seq<char>, AlertState, Option<u64>, Seq<char>),
    rules: Seq<CompiledAlertRule>,
    trackers: Seq<AlertTracker>,
    samples: Seq<(u128, i64, Seq<char>, HvModel)>,
    ts: u128,
) -> bool {
    exists|i: int|
        0 <= i < rules.len() && {
            let rule = #[trigger] rules[i];
            let val = latest_num(samples, rule.variable@);
            let breached = match val {
                Some(v) => spec_breached(v, rule.above, rule.below),
                None => false,
            };
            let stepped = tracker_step(trackers[i], breached, rule.debounce_samples);
            &&& stepped.1 == Some(em.3)
            &&& em == (
                ts,
                rule.name@,
                rule.variable@,
                em.3,
                val,
                threshold_text(rule.above, rule.below),
            )
            &&& (em.3 == AlertState::Triggered ==> stepped.0.consecutive >= rule.debounce_samples
                && breached && !trackers[i].active)
            &&& (em.3 == AlertState::Cleared ==> trackers[i].active && !breached)
        }
}

/// Every transition an evaluation emits is explained by its rule: a
/// Triggered event comes only when the consecutive breach count has
/// reached the rule's debounce on an inactive tracker, and a Cleared
/// event only from a tracker a prior Triggered left active. This holds
/// for any number of rules.
pub proof fn lemma_alerts_after_sound(
    rules: Seq<CompiledAlertRule>,
    trackers: Seq<AlertTracker>,
    samples: Seq<(u128, i64, Seq<char>, HvModel)>,
    ts: u128,
)
    requires
        trackers.len() == rules.len(),
    ensures
        forall|k: int|
            0 <= k < alerts_after(rules, trackers, samples, ts).1.len() ==> event_explained(
                #[trigger] alerts_after(rules, trackers, samples, ts).1[k],
                rules,
                trackers,
                samples,
                ts,
            ),
    decreases rules.len(),
{
    if rules.len() > 0 {
        lemma_alerts_after_sound(rules.drop_last(), trackers.drop_last(), samples, ts);
        let (pt, pe, ph) = alerts_after(rules.drop_last(), trackers.drop_last(), samples, ts);
        let ev = alerts_after(rules, trackers, samples, ts).1;
        let rule = rules.last();
        let val = latest_num(samples, rule.variable@);
        let breached = match val {
            Some(v) => spec_breached(v, rule.above, rule.below),
            None => false,
        };
        let stepped = tracker_step(trackers.last(), breached, rule.debounce_samples);
        assert forall|k: int| 0 <= k < ev.len() implies event_explained(
            #[trigger] ev[k],
            rules,
            trackers,
            samples,
            ts,
        ) by {
            if k < pe.len() {
                assert(ev[k] == pe[k]);
                assert(event_explained(pe[k], rules.drop_last(), trackers.drop_last(), samples, ts));
                let i = choose|i: int|
                    0 <= i < rules.drop_last().len() && {
                        let rule2 = #[trigger] rules.drop_last()[i];
                        let val2 = latest_num(samples, rule2.variable@);
                        let breached2 = match val2 {
                            Some(v) => spec_breached(v, rule2.above, rule2.below),
                            None => false,
                        };
                        let stepped2 = tracker_step(
                            trackers.drop_last()[i],
                            breached2,
                            rule2.debounce_samples,
                        );
                        &&& stepped2.1 == Some(pe[k].3)
                        &&& pe[k] == (
                            ts,
                            rule2.name@,
                            rule2.variable@,
                            pe[k].3,
                            val2,
                            threshold_text(rule2.above, rule2.below),
                        )
                        &&& (pe[k].3 == AlertState::Triggered ==> stepped2.0.consecutive
                            >= rule2.debounce_samples && breached2 && !trackers.drop_last()[i].active)
                        &&& (pe[k].3 == AlertState::Cleared ==> trackers.drop_last()[i].active
                            && !breached2)
                    };
                assert(rules.drop_last()[i] == rules[i]);
                assert(trackers.drop_last()[i] == trackers[i]);
            } else {
                assert(stepped.1 is Some);
                let i = rules.len() - 1;
                assert(rules[i] == rule);
                assert(trackers[i] == trackers.last());
                lemma_alert_debounce(trackers.last(), breached, rule.debounce_samples);
                assert(ev[k] == (
                    ts,
                    rule.name@,
                    rule.variable@,
                    stepped.1->0,
                    val,
                    threshold_text(rule.above, rule.below),
                ));
            }
        }
    }
}

/// The breach a rule sees in a capture's samples: whether its latest
/// numeric reading crosses a threshold.
pub open spec fn rule_breached(
    rule: CompiledAlertRule,
    samples: Seq<(u128, i64, Seq<char>, HvModel)>,
) -> bool {
    match latest_num(samples, rule.variable@) {
        Some(v) => spec_breached(v, rule.above, rule.below),
        None => false,
    }
}

/// Every tracker advances by exactly one debounce step of its own
/// rule: a breach increments the consecutive count, a non-breach
/// resets it to zero; for every rule whose step fires a transition,
/// that transition is in the emitted events. Together with
/// [`lemma_alerts_after_sound`] this is the if-and-only-if of the
/// debounce law, for any number of rules.
pub proof fn lemma_alerts_after_steps(
    rules: Seq<CompiledAlertRule>,
    trackers: Seq<AlertTracker>,
    samples: Seq<(u128, i64, Seq<char>, HvModel)>,
    ts: u128,
)
    requires
        trackers.len() == rules.len(),
    ensures
        alerts_after(rules, trackers, samples, ts).0.len() == rules.len(),
        forall|i: int|
            0 <= i < rules.len() ==> #[trigger] alerts_after(rules, trackers, samples, ts).0[i]
                == tracker_step(
                trackers[i],
                rule_breached(rules[i], samples),
                rules[i].debounce_samples,
            ).0,
        forall|i: int|
            0 <= i < rules.len() && tracker_step(
                trackers[i],
                rule_breached(#[trigger] rules[i], samples),
                rules[i].debounce_samples,
            ).1 is Some ==> exists|k: int|
                0 <= k < alerts_after(rules, trackers, samples, ts).1.len() && #[trigger] alerts_after(
                    rules,
                    trackers,
                    samples,
                    ts,
                ).1[k] == (
                    ts,
                    rules[i].name@,
                    rules[i].variable@,
                    tracker_step(
                        trackers[i],
                        rule_breached(rules[i], samples),
                        rules[i].debounce_samples,
                    ).1->0,
                    latest_num(samples, rules[i].variable@),
                    threshold_text(rules[i].above, rules[i].below),
                ),
    decreases rules.len(),
{
    if rules.len() > 0 {
        lemma_alerts_after_steps(rules.drop_last(), trackers.drop_last(), samples, ts);
        let (pt, pe, ph) = alerts_after(rules.drop_last(), trackers.drop_last(), samples, ts);
        let whole = alerts_after(rules, trackers, samples, ts);
        let last_i = rules.len() - 1;
        assert forall|i: int| 0 <= i < rules.len() implies #[trigger] whole.0[i] == tracker_step(
            trackers[i],
            rule_breached(rules[i], samples),
            rules[i].debounce_samples,
        ).0 by {
            if i < last_i {
                assert(whole.0[i] == pt[i]);
                assert(rules.drop_last()[i] == rules[i]);
                assert(trackers.drop_last()[i] == trackers[i]);
            } else {
                assert(whole.0[i] == whole.0.last());
            }
        }
        assert forall|i: int|
            0 <= i < rules.len() && tracker_step(
                trackers[i],
                rule_breached(#[trigger] rules[i], samples),
                rules[i].debounce_samples,
            ).1 is Some implies exists|k: int|
            0 <= k < whole.1.len() && #[trigger] whole.1[k] == (
                ts,
                rules[i].name@,
                rules[i].variable@,
                tracker_step(
                    trackers[i],
                    rule_breached(rules[i], samples),
                    rules[i].debounce_samples,
                ).1->0,
                latest_num(samples, rules[i].variable@),
                threshold_text(rules[i].above, rules[i].below),
            ) by {
            if i < last_i {
                assert(rules.drop_last()[i] == rules[i]);
                assert(trackers.drop_last()[i] == trackers[i]);
                let k = choose|k: int|
                    0 <= k < pe.len() && #[trigger] pe[k] == (
                        ts,
                        rules[i].name@,
                        rules[i].variable@,
                        tracker_step(
                            trackers[i],
                            rule_breached(rules[i], samples),
                            rules[i].debounce_samples,
                        ).1->0,
                        latest_num(samples, rules[i].variable@),
                        threshold_text(rules[i].above, rules[i].below),
                    );
                assert(whole.1[k] == pe[k]);
            } else {
                assert(whole.1[whole.1.len() - 1] == (
                    ts,
                    rules[i].name@,
                    rules[i].variable@,
                    tracker_step(
                        trackers[i],
                        rule_breached(rules[i], samples),
                        rules[i].debounce_samples,
                    ).1->0,
                    latest_num(samples, rules[i].variable@),
                    threshold_text(rules[i].above, rules[i].below),
                ));
            }
        }
    }
}

/// The last `max` entries of `s`, in order.
pub open spec fn ring_keep<A>(s: Seq<A>, max: int) -> Seq<A> {
    if s.len() <= max {
        s
    } else {
        s.skip(s.len() - max)
    }
}

fn clone_hv(v: &HistorianValue) -> (r: HistorianValue)
    ensures
        hv_model(r) == hv_model(*v),
{
    match v {
        HistorianValue::Bool(b) => HistorianValue::Bool(*b),
        HistorianValue::Integer(i) => HistorianValue::Integer(*i),
        HistorianValue::Unsigned(u) => HistorianValue::Unsigned(*u),
        HistorianValue::Float(f) => HistorianValue::Float(*f),
        HistorianValue::String(s) => HistorianValue::String(s.clone()),
    }
}

fn clone_sample(s: &HistorianSample) -> (r: HistorianSample)
    ensures
        sample_model(r) == sample_model(*s),
{
    HistorianSample {
        timestamp_ms: s.timestamp_ms,
        source_time_ns: s.source_time_ns,
        variable: s.variable.clone(),
        value: clone_hv(&s.value),
    }
}

fn clone_event(e: &HistorianAlertEvent) -> (r: HistorianAlertEvent)
    ensures
        event_model(r) == event_model(*e),
{
    HistorianAlertEvent {
        timestamp_ms: e.timestamp_ms,
        rule: e.rule.clone(),
        variable: e.variable.clone(),
        state: e.state,
        value: e.value,
        threshold: e.threshold.clone(),
    }
}

fn clone_hook(h: &HookTarget) -> (r: HookTarget)
    ensures
        hook_model(r) == hook_model(*h),
{
    match h {
        HookTarget::Log => HookTarget::Log,
        HookTarget::File(p) => HookTarget::File(p.clone()),
        HookTarget::Webhook(u) => HookTarget::Webhook(u.clone()),
    }
}

/// What one capture hands back to the caller: how many samples were
/// recorded, the samples to append to the journal, and the hook
/// deliveries to perform.
pub struct CaptureOutcome {
    pub recorded: usize,
    pub appended: Vec<HistorianSample>,
    pub hooks: Vec<(HookTarget, HistorianAlertEvent)>,
}

/// How many alert events the in-memory ring keeps.
pub const ALERT_RING_MAX: usize = 1000;

/// The historian: its configuration, compiled rules and allow-list,
/// the sample ring, and the alert state.
pub struct HistorianService {
    config: HistorianConfig,
    all_mode: bool,
    patterns: Vec<String>,
    rules: Vec<CompiledAlertRule>,
    trackers: Vec<AlertTracker>,
    samples: Vec<HistorianSample>,
    series_names: Vec<String>,
    samples_total: u64,
    last_capture_ms: Option<u128>,
    alerts: Vec<HistorianAlertEvent>,
    alerts_total: u64,
}

impl HistorianService {
    /// Models of the samples in the ring, oldest first.
    pub closed spec fn samples_view(&self) -> Seq<(u128, i64, Seq<char>, HvModel)> {
        sample_models(self.samples@)
    }

    /// Models of the kept alert events, oldest first.
    pub closed spec fn alerts_view(&self) -> Seq<
        (u128, Seq<char>, Seq<char>, AlertState, Option<u64>, Seq<char>),
    > {
        event_models(self.alerts@)
    }

    /// The per-rule debounce trackers.
    pub closed spec fn trackers_view(&self) -> Seq<AlertTracker> {
        self.trackers@
    }

    /// The compiled rules.
    pub closed spec fn rules_view(&self) -> Seq<CompiledAlertRule> {
        self.rules@
    }

    /// When the last capture was accepted.
    pub closed spec fn last_capture(&self) -> Option<u128> {
        self.last_capture_ms
    }

    /// Whether every path records, and the allow-list texts.
    pub closed spec fn filter_view(&self) -> (bool, Seq<Seq<char>>) {
        (self.all_mode, pattern_views(self.patterns@))
    }

    /// Total samples ever recorded, saturating.
    pub closed spec fn total_samples(&self) -> u64 {
        self.samples_total
    }

    /// Total alert transitions ever recorded, saturating.
    pub closed spec fn total_alerts(&self) -> u64 {
        self.alerts_total
    }

    /// True when `v` is a series_names series name.
    pub closed spec fn tracks(&self, v: Seq<char>) -> bool {
        exists|j: int| 0 <= j < self.series_names@.len() && (#[trigger] self.series_names@[j])@ == v
    }

    /// How many distinct series are series_names.
    pub closed spec fn series_count(&self) -> usize {
        self.series_names.len()
    }

    /// The effective sampling interval: at least one millisecond.
    pub open spec fn interval_ms(&self) -> u128 {
        if self.config_interval() >= 1 {
            self.config_interval() as u128
        } else {
            1
        }
    }

    /// The configured sampling interval.
    pub closed spec fn config_interval(&self) -> u64 {
        self.config.sample_interval_ms
    }

    /// Whether the metrics endpoint is on.
    pub closed spec fn metrics_enabled(&self) -> bool {
        self.config.prometheus_enabled
    }

    /// The configured metrics path.
    pub closed spec fn metrics_path(&self) -> Seq<char> {
        self.config.prometheus_path@
    }

    /// The configuration, with its history path resolved.
    pub fn config(&self) -> (r: &HistorianConfig)
        ensures
            r.sample_interval_ms == self.config_interval(),
    {
        &self.config
    }

    /// The metrics path when the endpoint is enabled.
    pub fn prometheus_path(&self) -> (r: Option<&str>)
        ensures
            r is Some <==> self.metrics_enabled(),
            r is Some ==> r->0@ == self.metrics_path(),
    {
        if self.config.prometheus_enabled {
            Some(self.config.prometheus_path.as_str())
        } else {
            None
        }
    }

    /// The historian's counters.
    pub fn prometheus_snapshot(&self) -> (r: HistorianPrometheusSnapshot)
        ensures
            r.samples_total == self.total_samples(),
            r.series_total == self.series_count(),
            r.alerts_total == self.total_alerts(),
    {
        HistorianPrometheusSnapshot {
            samples_total: self.samples_total,
            series_total: self.series_names.len(),
            alerts_total: self.alerts_total,
        }
    }

    fn track(&mut self, name: &str)
        ensures
            forall|v: Seq<char>|
                #[trigger] final(self).tracks(v) <==> (old(self).tracks(v) || v == name@),
            final(self).config == old(self).config,
            final(self).samples@ == old(self).samples@,
            final(self).alerts@ == old(self).alerts@,
            final(self).trackers@ == old(self).trackers@,
            final(self).rules@ == old(self).rules@,
            final(self).samples_total == old(self).samples_total,
            final(self).alerts_total == old(self).alerts_total,
            final(self).last_capture_ms == old(self).last_capture_ms,
            final(self).all_mode == old(self).all_mode,
            final(self).patterns@ == old(self).patterns@,
    {
        let nc = crate::strutil::chars_of(name);
        let n = self.series_names.len();
        let mut i: usize = 0;
        while i < n
            invariant
                n == self.series_names@.len(),
                i <= n,
                nc@ == name@,
                self == old(self),
                forall|j: int| 0 <= j < i ==> (#[trigger] self.series_names@[j])@ != name@,
            decreases n - i,
        {
            let tc = crate::strutil::chars_of(self.series_names[i].as_str());
            if crate::strutil::eq_chars(&tc, &nc) {
                proof {
                    assert(self.tracks(name@));
                }
                return ;
            }
            i = i + 1;
        }
        let ghost prev = self.series_names@;
        self.series_names.push(name.to_owned());
        proof {
            assert forall|v: Seq<char>| #[trigger] final(self).tracks(v) <==> (old(self).tracks(v)
                || v == name@) by {
                if final(self).tracks(v) {
                    let j = choose|j: int|
                        0 <= j < final(self).series_names@.len()
                            && (#[trigger] final(self).series_names@[j])@ == v;
                    if j < prev.len() {
                        assert(prev[j]@ == v);
                    }
                }
                if old(self).tracks(v) {
                    let j = choose|j: int|
                        0 <= j < prev.len() && (#[trigger] prev[j])@ == v;
                    assert(final(self).series_names@[j]@ == v);
                }
                if v == name@ {
                    assert(final(self).series_names@[prev.len() as int]@ == v);
                }
            }
        }
    }

    /// Samples the snapshot, unless the interval has not yet elapsed.
    /// A gated capture changes nothing and records nothing; an
    /// accepted one appends the collected samples to the ring (bounded
    /// by `max_entries`), advances every alert tracker, keeps the
    /// fired transitions, and hands back what to persist and dispatch.
    #[verifier::loop_isolation(false)]
    #[verifier::rlimit(60)]
    pub fn capture_snapshot_at(
        &mut self,
        snapshot: &crate::value::DebugSnapshot,
        timestamp_ms: u128,
    ) -> (r: CaptureOutcome)
        ensures
            ({
                let gated = match old(self).last_capture() {
                    Some(last) => (if timestamp_ms >= last {
                        timestamp_ms - last
                    } else {
                        0
                    }) < old(self).interval_ms(),
                    None => false,
                };
                let collected = stamped(
                    timestamp_ms,
                    snapshot.now.nanos,
                    collected_pairs(
                        *snapshot,
                        old(self).filter_view().0,
                        old(self).filter_view().1,
                        FLATTEN_FUEL as nat,
                    ),
                );
                if gated {
                    &&& *final(self) == *old(self)
                    &&& r.recorded == 0
                    &&& r.appended@.len() == 0
                    &&& r.hooks@.len() == 0
                } else if collected.len() == 0 {
                    &&& final(self).last_capture() == Some(timestamp_ms)
                    &&& final(self).samples_view() == old(self).samples_view()
                    &&& final(self).alerts_view() == old(self).alerts_view()
                    &&& final(self).trackers_view() == old(self).trackers_view()
                    &&& final(self).total_samples() == old(self).total_samples()
                    &&& r.recorded == 0
                    &&& r.appended@.len() == 0
                    &&& r.hooks@.len() == 0
                } else {
                    let stepped = alerts_after(
                        old(self).rules_view(),
                        old(self).trackers_view(),
                        collected,
                        timestamp_ms,
                    );
                    &&& r.recorded == collected.len()
                    &&& sample_models(r.appended@) == collected
                    &&& final(self).samples_view() == ring_keep(
                        old(self).samples_view() + collected,
                        old(self).max_ring() as int,
                    )
                    &&& final(self).last_capture() == Some(timestamp_ms)
                    &&& final(self).total_samples() == if old(self).total_samples() + collected.len()
                        <= u64::MAX {
                        (old(self).total_samples() + collected.len()) as u64
                    } else {
                        u64::MAX
                    }
                    &&& forall|v: Seq<char>|
                        #[trigger] final(self).tracks(v) <==> (old(self).tracks(v) || exists|i: int|
                            0 <= i < collected.len() && (#[trigger] collected[i]).2 == v)
                    &&& final(self).trackers_view() == stepped.0
                    &&& final(self).alerts_view() == ring_keep(
                        old(self).alerts_view() + stepped.1,
                        ALERT_RING_MAX as int,
                    )
                    &&& final(self).total_alerts() == if old(self).total_alerts() + stepped.1.len()
                        <= u64::MAX {
                        (old(self).total_alerts() + stepped.1.len()) as u64
                    } else {
                        u64::MAX
                    }
                    &&& r.hooks@.map_values(
                        |p: (HookTarget, HistorianAlertEvent)| (hook_model(p.0), event_model(p.1)),
                    ) == stepped.2
                }
            }),
            final(self).rules_view() == old(self).rules_view(),
            final(self).filter_view() == old(self).filter_view(),
            final(self).config_interval() == old(self).config_interval(),
            final(self).max_ring() == old(self).max_ring(),
    {
        let interval: u64 = if self.config.sample_interval_ms >= 1 {
            self.config.sample_interval_ms
        } else {
            1
        };
        match self.last_capture_ms {
            Some(last) => {
                let elapsed: u128 = if timestamp_ms >= last {
                    timestamp_ms - last
                } else {
                    0
                };
                if elapsed < interval as u128 {
                    return CaptureOutcome {
                        recorded: 0,
                        appended: Vec::new(),
                        hooks: Vec::new(),
                    };
                }
            },
            None => {},
        }
        let collected = collect_snapshot_samples(
            snapshot,
            self.all_mode,
            &self.patterns,
            timestamp_ms,
        );
        let ghost cm = sample_models(collected@);
        if collected.is_empty() {
            self.last_capture_ms = Some(timestamp_ms);
            return CaptureOutcome { recorded: 0, appended: Vec::new(), hooks: Vec::new() };
        }
        let recorded = collected.len();
        let n = collected.len();
        let ghost base = self.samples@;
        let ghost whole = sample_models(base) + cm;
        let mut i: usize = 0;
        while i < n
            invariant
                n == collected@.len(),
                cm == sample_models(collected@),
                i <= n,
                self.config == old(self).config,
                sample_models(self.samples@) == sample_models(base) + cm.take(i as int),
                forall|v: Seq<char>|
                    #[trigger] self.tracks(v) <==> (old(self).tracks(v) || exists|j: int|
                        0 <= j < i && (#[trigger] cm[j]).2 == v),
                self.alerts@ == old(self).alerts@,
                self.trackers@ == old(self).trackers@,
                self.rules@ == old(self).rules@,
                self.samples_total == old(self).samples_total,
                self.alerts_total == old(self).alerts_total,
                self.last_capture_ms == old(self).last_capture_ms,
                self.all_mode == old(self).all_mode,
                self.patterns@ == old(self).patterns@,
            decreases n - i,
        {
            let s = &collected[i];
            proof {
                assert(cm[i as int] == sample_model(collected@[i as int]));
            }
            let ghost tracks_before = *self;
            self.track(s.variable.as_str());
            let ghost after_track = *self;
            let cs = clone_sample(s);
            let ghost before = self.samples@;
            self.samples.push(cs);
            i = i + 1;
            proof {
                assert(sample_models(self.samples@) =~= sample_models(before).push(
                    sample_model(cs),
                ));
                assert(cm.take(i as int).drop_last() =~= cm.take(i - 1));
                assert(cm.take(i as int).last() == cm[i - 1]);
                assert(sample_models(self.samples@) =~= sample_models(base) + cm.take(i as int));
                assert(self.series_names@ == after_track.series_names@);
                assert forall|v: Seq<char>| #[trigger] self.tracks(v) <==> (old(self).tracks(v)
                    || exists|j: int| 0 <= j < i && (#[trigger] cm[j]).2 == v) by {
                    assert(self.tracks(v) == after_track.tracks(v));
                    if after_track.tracks(v) {
                        assert(tracks_before.tracks(v) || v == collected@[i - 1].variable@);
                        if v == collected@[i - 1].variable@ {
                            assert(cm[i - 1].2 == v);
                        }
                    }
                    if old(self).tracks(v) {
                        assert(tracks_before.tracks(v));
                        assert(after_track.tracks(v));
                    }
                    if exists|j: int| 0 <= j < i && (#[trigger] cm[j]).2 == v {
                        let j = choose|j: int| 0 <= j < i && (#[trigger] cm[j]).2 == v;
                        if j < i - 1 {
                            assert(tracks_before.tracks(v));
                            assert(after_track.tracks(v));
                        } else {
                            assert(v == collected@[i - 1].variable@);
                            assert(after_track.tracks(v));
                        }
                    }
                }
            }
        }
        proof {
            assert(cm.take(n as int) =~= cm);
            assert(sample_models(self.samples@) =~= whole);
            assert(whole.skip(0) =~= whole);
        }
        while self.samples.len() > self.config.max_entries
            invariant
                self.config == old(self).config,
                self.samples@.len() <= whole.len(),
                self.samples@.len() >= self.config.max_entries || self.samples@.len()
                    == whole.len(),
                sample_models(self.samples@) == whole.skip(whole.len() - self.samples@.len()),
                forall|v: Seq<char>|
                    #[trigger] self.tracks(v) <==> (old(self).tracks(v) || exists|j: int|
                        0 <= j < cm.len() && (#[trigger] cm[j]).2 == v),
                self.alerts@ == old(self).alerts@,
                self.trackers@ == old(self).trackers@,
                self.rules@ == old(self).rules@,
                self.samples_total == old(self).samples_total,
                self.alerts_total == old(self).alerts_total,
                self.last_capture_ms == old(self).last_capture_ms,
                self.all_mode == old(self).all_mode,
                self.patterns@ == old(self).patterns@,
            decreases self.samples@.len(),
        {
            let ghost b4 = *self;
            self.samples.remove(0);
            proof {
                let before = b4.samples@;
                assert(sample_models(self.samples@) =~= sample_models(before).drop_first());
                assert(whole.skip(whole.len() - before.len()).drop_first() =~= whole.skip(
                    whole.len() - before.len() + 1,
                ));
                assert(self.series_names@ == b4.series_names@);
                assert forall|v: Seq<char>| #[trigger] self.tracks(v) <==> (old(self).tracks(v)
                    || exists|j: int| 0 <= j < cm.len() && (#[trigger] cm[j]).2 == v) by {
                    assert(self.tracks(v) == b4.tracks(v));
                }
            }
        }
        proof {
            assert(sample_models(self.samples@) =~= ring_keep(
                whole,
                self.config.max_entries as int,
            ));
        }
        let ghost post_prune = *self;
        proof {
            assert(forall|v: Seq<char>|
                #[trigger] post_prune.tracks(v) <==> (old(self).tracks(v) || exists|j: int|
                    0 <= j < cm.len() && (#[trigger] cm[j]).2 == v));
        }
        self.samples_total = self.samples_total.saturating_add(recorded as u64);
        self.last_capture_ms = Some(timestamp_ms);
        let ghost old_trackers = self.trackers@;
        let rn = self.rules.len();
        let mut new_trackers: Vec<AlertTracker> = Vec::new();
        let mut events: Vec<HistorianAlertEvent> = Vec::new();
        let mut hooks: Vec<(HookTarget, HistorianAlertEvent)> = Vec::new();
        if self.trackers.len() == rn {
            let mut i: usize = 0;
            while i < rn
                invariant
                    rn == self.rules@.len() == self.trackers@.len(),
                    i <= rn,
                    cm == sample_models(collected@),
                    collected@.len() == n,
                    (
                        new_trackers@,
                        event_models(events@),
                        hooks@.map_values(
                            |p: (HookTarget, HistorianAlertEvent)| (
                                hook_model(p.0),
                                event_model(p.1),
                            ),
                        ),
                    ) == alerts_after(
                        self.rules@.take(i as int),
                        self.trackers@.take(i as int),
                        cm,
                        timestamp_ms,
                    ),
                decreases rn - i,
            {
                let rule = &self.rules[i];
                let val = latest_num_exec(&collected, rule.variable.as_str());
                let breached = match val {
                    Some(v) => threshold_breached(v, rule.above, rule.below),
                    None => false,
                };
                let t = self.trackers[i];
                let c: u32 = if breached {
                    if t.consecutive == u32::MAX {
                        u32::MAX
                    } else {
                        t.consecutive + 1
                    }
                } else {
                    0
                };
                let ghost (t2g, evg) = tracker_step(t, breached, rule.debounce_samples);
                let mut fired: Option<AlertState> = None;
                let mut t2 = AlertTracker { active: t.active, consecutive: c };
                if breached {
                    if !t.active && c >= rule.debounce_samples {
                        t2.active = true;
                        fired = Some(AlertState::Triggered);
                    }
                } else {
                    if t.active {
                        t2.active = false;
                        fired = Some(AlertState::Cleared);
                    }
                }
                proof {
                    assert(t2 == t2g);
                    assert(fired == evg);
                }
                new_trackers.push(t2);
                let ghost pe = events@;
                let ghost phk = hooks@;
                match fired {
                    Some(state) => {
                        let event = HistorianAlertEvent {
                            timestamp_ms,
                            rule: rule.name.clone(),
                            variable: rule.variable.clone(),
                            state,
                            value: val,
                            threshold: rule_threshold_text(rule.above, rule.below),
                        };
                        match &rule.hook {
                            Some(h) => {
                                hooks.push((clone_hook(h), clone_event(&event)));
                            },
                            None => {},
                        }
                        events.push(event);
                    },
                    None => {},
                }
                i = i + 1;
                proof {
                    assert(self.rules@.take(i as int).drop_last() =~= self.rules@.take(i - 1));
                    assert(self.trackers@.take(i as int).drop_last() =~= self.trackers@.take(
                        i - 1,
                    ));
                    assert(self.rules@.take(i as int).last() == self.rules@[i - 1]);
                    assert(self.trackers@.take(i as int).last() == self.trackers@[i - 1]);
                    assert(event_models(events@) =~= event_models(events@));
                    if evg is Some {
                        assert(event_models(events@).drop_last() =~= event_models(pe));
                        assert(event_models(events@) =~= event_models(pe).push(
                            event_models(events@).last(),
                        ));
                        if self.rules@[i - 1].hook is Some {
                            assert(hooks@.map_values(
                                |p: (HookTarget, HistorianAlertEvent)| (
                                    hook_model(p.0),
                                    event_model(p.1),
                                ),
                            ) =~= phk.map_values(
                                |p: (HookTarget, HistorianAlertEvent)| (
                                    hook_model(p.0),
                                    event_model(p.1),
                                ),
                            ).push(
                                (
                                    hook_model(hooks@.last().0),
                                    event_model(hooks@.last().1),
                                ),
                            ));
                        }
                    }
                }
            }
            proof {
                assert(self.rules@.take(rn as int) =~= self.rules@);
                assert(self.trackers@.take(rn as int) =~= self.trackers@);
            }
        }
        if self.trackers.len() == rn {
            self.trackers = new_trackers;
        } else {
            proof {
                assert(alerts_after(self.rules@, self.trackers@, cm, timestamp_ms) == (
                    self.trackers@,
                    Seq::<
                        (u128, Seq<char>, Seq<char>, AlertState, Option<u64>, Seq<char>),
                    >::empty(),
                    Seq::<
                        (
                            Option<(bool, Seq<char>)>,
                            (u128, Seq<char>, Seq<char>, AlertState, Option<u64>, Seq<char>),
                        ),
                    >::empty(),
                ));
                assert(event_models(events@)
                    =~= Seq::<
                    (u128, Seq<char>, Seq<char>, AlertState, Option<u64>, Seq<char>),
                >::empty());
                assert(hooks@.map_values(
                    |p: (HookTarget, HistorianAlertEvent)| (hook_model(p.0), event_model(p.1)),
                )
                    =~= Seq::<
                    (
                        Option<(bool, Seq<char>)>,
                        (u128, Seq<char>, Seq<char>, AlertState, Option<u64>, Seq<char>),
                    ),
                >::empty());
            }
        }
        let en = events.len();
        self.alerts_total = self.alerts_total.saturating_add(en as u64);
        let ghost mid = *self;
        let ghost em = event_models(events@);
        let ghost alert_whole = event_models(self.alerts@) + em;
        let ghost alert_base = event_models(self.alerts@);
        let mut i: usize = 0;
        while i < en
            invariant
                en == events@.len(),
                em.len() == en,
                i <= en,
                event_models(self.alerts@) == alert_base + em.take(i as int),
                forall|j: int| i <= j < en ==> event_model(#[trigger] events@[j]) == em[j],
                self.config == old(self).config,
                self.samples@ == mid.samples@,
                self.trackers@ == mid.trackers@,
                self.rules@ == old(self).rules@,
                self.samples_total == mid.samples_total,
                self.alerts_total == mid.alerts_total,
                self.last_capture_ms == mid.last_capture_ms,
                self.all_mode == old(self).all_mode,
                self.patterns@ == old(self).patterns@,
                self.series_names@ == mid.series_names@,
            decreases en - i,
        {
            let mut entry = HistorianAlertEvent {
                timestamp_ms: 0,
                rule: String::new(),
                variable: String::new(),
                state: AlertState::Cleared,
                value: None,
                threshold: String::new(),
            };
            let ghost events_before = events@;
            events.set_and_swap(i, &mut entry);
            proof {
                assert(event_model(entry) == em[i as int]);
                assert forall|j: int| i + 1 <= j < en implies event_model(#[trigger] events@[j])
                    == em[j] by {
                    assert(events@[j] == events_before[j]);
                }
            }
            let ghost before = self.alerts@;
            self.alerts.push(entry);
            i = i + 1;
            proof {
                assert(event_models(self.alerts@) =~= event_models(before).push(em[i - 1]));
                assert(em.take(i as int).drop_last() =~= em.take(i - 1));
                assert(em.take(i as int).last() == em[i - 1]);
                assert(event_models(self.alerts@) =~= alert_base + em.take(i as int));
            }
        }
        proof {
            assert(em.take(en as int) =~= em);
            assert(event_models(self.alerts@) =~= alert_whole);
            assert(alert_whole.skip(0) =~= alert_whole);
        }
        while self.alerts.len() > ALERT_RING_MAX
            invariant
                self.alerts@.len() <= alert_whole.len(),
                self.alerts@.len() >= ALERT_RING_MAX || self.alerts@.len() == alert_whole.len(),
                event_models(self.alerts@) == alert_whole.skip(
                    alert_whole.len() - self.alerts@.len(),
                ),
                self.config == old(self).config,
                self.samples@ == mid.samples@,
                self.trackers@ == mid.trackers@,
                self.rules@ == old(self).rules@,
                self.samples_total == mid.samples_total,
                self.alerts_total == mid.alerts_total,
                self.last_capture_ms == mid.last_capture_ms,
                self.all_mode == old(self).all_mode,
                self.patterns@ == old(self).patterns@,
                self.series_names@ == mid.series_names@,
            decreases self.alerts@.len(),
        {
            let ghost before = self.alerts@;
            self.alerts.remove(0);
            proof {
                assert(event_models(self.alerts@) =~= event_models(before).drop_first());
                assert(alert_whole.skip(alert_whole.len() - before.len()).drop_first()
                    =~= alert_whole.skip(alert_whole.len() - before.len() + 1));
            }
        }
        proof {
            assert(event_models(self.alerts@) =~= ring_keep(alert_whole, ALERT_RING_MAX as int));
            let collected_spec = stamped(
                timestamp_ms,
                snapshot.now.nanos,
                collected_pairs(
                    *snapshot,
                    old(self).filter_view().0,
                    old(self).filter_view().1,
                    FLATTEN_FUEL as nat,
                ),
            );
            assert(cm == collected_spec);
            let stepped = alerts_after(
                old(self).rules_view(),
                old(self).trackers_view(),
                collected_spec,
                timestamp_ms,
            );
            assert(recorded == collected_spec.len());
            assert(final(self).samples_view() == ring_keep(
                old(self).samples_view() + collected_spec,
                old(self).max_ring() as int,
            ));
            assert(final(self).last_capture() == Some(timestamp_ms));
            assert(final(self).total_samples() == if old(self).total_samples()
                + collected_spec.len() <= u64::MAX {
                (old(self).total_samples() + collected_spec.len()) as u64
            } else {
                u64::MAX
            });
            assert(final(self).trackers_view() == stepped.0);
            assert(final(self).alerts_view() == ring_keep(
                old(self).alerts_view() + stepped.1,
                ALERT_RING_MAX as int,
            ));
            assert(final(self).total_alerts() == if old(self).total_alerts() + stepped.1.len()
                <= u64::MAX {
                (old(self).total_alerts() + stepped.1.len()) as u64
            } else {
                u64::MAX
            });
            assert(hooks@.map_values(
                |p: (HookTarget, HistorianAlertEvent)| (hook_model(p.0), event_model(p.1)),
            ) == stepped.2);
            assert forall|v: Seq<char>| #[trigger] final(self).tracks(v) <==> (old(self).tracks(v)
                || exists|i: int|
                0 <= i < collected_spec.len() && (#[trigger] collected_spec[i]).2 == v) by {
                assert(self.series_names@ == mid.series_names@);
                assert(mid.series_names@ == post_prune.series_names@);
                assert(self.tracks(v) == post_prune.tracks(v));
                assert(post_prune.tracks(v) <==> (old(self).tracks(v) || exists|j: int|
                    0 <= j < cm.len() && (#[trigger] cm[j]).2 == v));
            }
        }
        CaptureOutcome { recorded, appended: collected, hooks }
    }

    /// The configured ring bound.
    pub closed spec fn max_ring(&self) -> usize {
        self.config.max_entries
    }

    /// Builds the historian: validates the allow-list patterns,
    /// compiles the alert rules, resolves the journal path under the
    /// bundle root, and preloads journal samples into the ring in
    /// order. Reading the journal file is the caller's part.
    #[verifier::loop_isolation(false)]
    #[verifier::rlimit(60)]
    pub fn new(
        config: HistorianConfig,
        bundle_root: Option<&str>,
        preloaded: Vec<HistorianSample>,
    ) -> (r: Result<HistorianService, HistorianConfigError>)
        ensures
            match r {
                Ok(h) => {
                    &&& h.samples_view() == ring_keep(
                        sample_models(preloaded@),
                        config.max_entries as int,
                    )
                    &&& h.last_capture() is None
                    &&& h.alerts_view().len() == 0
                    &&& h.trackers_view().len() == h.rules_view().len()
                    &&& h.rules_view().len() == config.alerts@.len()
                    &&& forall|i: int|
                        0 <= i < h.trackers_view().len() ==> #[trigger] h.trackers_view()[i]
                            == (AlertTracker { active: false, consecutive: 0 })
                    &&& h.total_samples() == if preloaded@.len() <= u64::MAX {
                        preloaded@.len() as u64
                    } else {
                        u64::MAX
                    }
                    &&& h.total_alerts() == 0
                    &&& h.config_interval() == config.sample_interval_ms
                    &&& h.max_ring() == config.max_entries
                    &&& h.filter_view().0 == (config.mode == RecordingMode::All)
                    &&& h.filter_view().1 == pattern_views(config.allow_list@)
                    &&& forall|v: Seq<char>|
                        #[trigger] h.tracks(v) <==> exists|i: int|
                            0 <= i < preloaded@.len() && (#[trigger] preloaded@[i]).variable@ == v
                },
                Err(e) => (e.kind() == HistorianConfigErrorKind::InvalidPattern && exists|i: int|
                    0 <= i < config.allow_list@.len() && !glob_accepts(
                        #[trigger] config.allow_list@[i]@,
                    )) || (exists|i: int|
                    0 <= i < config.alerts@.len() && rule_err(#[trigger] config.alerts@[i])
                        == Some(e.kind())),
            },
            (forall|i: int|
                0 <= i < config.allow_list@.len() ==> glob_accepts(
                    #[trigger] config.allow_list@[i]@,
                )) && (forall|i: int|
                0 <= i < config.alerts@.len() ==> rule_err(#[trigger] config.alerts@[i]) is None)
                ==> r is Ok,
    {
        let all_mode = config.mode == RecordingMode::All;
        let mut patterns: Vec<String> = Vec::new();
        let pn = config.allow_list.len();
        let mut i: usize = 0;
        while i < pn
            invariant
                pn == config.allow_list@.len(),
                i <= pn,
                patterns@.len() == i as int,
                forall|j: int| 0 <= j < i ==> #[trigger] patterns@[j]@ == config.allow_list@[j]@,
            decreases pn - i,
        {
            let ghost prev = patterns@;
            patterns.push(config.allow_list[i].clone());
            i = i + 1;
            proof {
                assert forall|j: int| 0 <= j < i implies #[trigger] patterns@[j]@
                    == config.allow_list@[j]@ by {
                    if j < i - 1 {
                        assert(patterns@[j] == prev[j]);
                    }
                }
            }
        }
        let ghost cloned = patterns@;
        let patterns = match compile_patterns(patterns) {
            Ok(p) => p,
            Err(e) => {
                proof {
                    let j = choose|j: int| 0 <= j < cloned.len() && !glob_accepts(
                        #[trigger] cloned[j]@,
                    );
                    assert(!glob_accepts(config.allow_list@[j]@));
                }
                return Err(e);
            },
        };
        let rules = match compile_alert_rules(&config.alerts, bundle_root) {
            Ok(rs) => rs,
            Err(e) => {
                return Err(e);
            },
        };
        let history_path = resolve_path(config.history_path.as_str(), bundle_root);
        let mut cfg = config;
        cfg.history_path = history_path;
        let mut trackers: Vec<AlertTracker> = Vec::new();
        let rn = rules.len();
        let mut i: usize = 0;
        while i < rn
            invariant
                i <= rn,
                trackers@.len() == i as int,
                forall|j: int|
                    0 <= j < i ==> #[trigger] trackers@[j] == (AlertTracker {
                        active: false,
                        consecutive: 0,
                    }),
            decreases rn - i,
        {
            trackers.push(AlertTracker { active: false, consecutive: 0 });
            i = i + 1;
        }
        let mut h = HistorianService {
            config: cfg,
            all_mode,
            patterns,
            rules,
            trackers,
            samples: Vec::new(),
            series_names: Vec::new(),
            samples_total: 0,
            last_capture_ms: None,
            alerts: Vec::new(),
            alerts_total: 0,
        };
        let ghost pm = sample_models(preloaded@);
        let ghost cfg0 = h.config;
        let ghost am0 = h.all_mode;
        let ghost pat0 = h.patterns@;
        let ghost rules0 = h.rules@;
        let ghost trk0 = h.trackers@;
        let n = preloaded.len();
        let mut i: usize = 0;
        let mut loaded = preloaded;
        proof {
            assert(sample_models(h.samples@) =~= Seq::<(u128, i64, Seq<char>, HvModel)>::empty());
            assert(event_models(h.alerts@)
                =~= Seq::<(u128, Seq<char>, Seq<char>, AlertState, Option<u64>, Seq<char>)>::empty());
        }
        while i < n
            invariant
                n == loaded@.len(),
                pm.len() == n,
                i <= n,
                forall|j: int|
                    i <= j < n ==> sample_model(#[trigger] loaded@[j]) == pm[j],
                sample_models(h.samples@) == pm.take(i as int),
                h.config == cfg0,
                h.all_mode == am0,
                h.patterns@ == pat0,
                h.rules@ == rules0,
                h.trackers@ == trk0,
                h.alerts@.len() == 0,
                h.samples_total == 0,
                h.alerts_total == 0,
                h.last_capture_ms is None,
                forall|v: Seq<char>|
                    #[trigger] h.tracks(v) <==> exists|j: int|
                        0 <= j < i && (#[trigger] pm[j]).2 == v,
            decreases n - i,
        {
            let mut entry = HistorianSample {
                timestamp_ms: 0,
                source_time_ns: 0,
                variable: String::new(),
                value: HistorianValue::Bool(false),
            };
            loaded.set_and_swap(i, &mut entry);
            proof {
                assert(sample_model(entry) == pm[i as int]);
                assert forall|j: int| i + 1 <= j < n implies sample_model(
                    #[trigger] loaded@[j],
                ) == pm[j] by {}
            }
            let ghost before_tracks = h;
            let ghost entry_var = entry.variable@;
            h.track(entry.variable.as_str());
            let ghost after_track = h;
            let ghost before = h.samples@;
            h.samples.push(entry);
            i = i + 1;
            proof {
                assert(sample_models(h.samples@) =~= sample_models(before).push(pm[i - 1]));
                assert(pm.take(i as int).drop_last() =~= pm.take(i - 1));
                assert(pm.take(i as int).last() == pm[i - 1]);
                assert(sample_models(h.samples@) =~= pm.take(i as int));
                assert(entry_var == pm[i - 1].2);
                assert forall|v: Seq<char>| #[trigger] h.tracks(v) <==> exists|j: int|
                    0 <= j < i && (#[trigger] pm[j]).2 == v by {
                    assert(h.series_names@ == after_track.series_names@);
                    assert(h.tracks(v) == after_track.tracks(v));
                    if after_track.tracks(v) {
                        assert(before_tracks.tracks(v) || v == entry_var);
                    }
                    if exists|j: int| 0 <= j < i && (#[trigger] pm[j]).2 == v {
                        let j = choose|j: int| 0 <= j < i && (#[trigger] pm[j]).2 == v;
                        if j < i - 1 {
                            assert(before_tracks.tracks(v));
                            assert(after_track.tracks(v));
                        } else {
                            assert(v == entry_var);
                            assert(after_track.tracks(v));
                        }
                    }
                }
            }
        }
        proof {
            assert(pm.take(n as int) =~= pm);
        }
        let ghost post_load = h;
        proof {
            assert(forall|v: Seq<char>|
                #[trigger] post_load.tracks(v) <==> exists|j: int|
                    0 <= j < n && (#[trigger] pm[j]).2 == v);
        }
        let ghost whole = pm;
        h.samples_total = if n as u64 <= u64::MAX {
            n as u64
        } else {
            u64::MAX
        };
        let ghost tot0 = h.samples_total;
        let ghost sn0 = h.series_names@;
        while h.samples.len() > h.config.max_entries
            invariant
                h.samples@.len() <= whole.len(),
                h.samples@.len() >= h.config.max_entries || h.samples@.len() == whole.len(),
                sample_models(h.samples@) == whole.skip(whole.len() - h.samples@.len()),
                h.config == cfg0,
                h.all_mode == am0,
                h.patterns@ == pat0,
                h.rules@ == rules0,
                h.trackers@ == trk0,
                h.alerts@.len() == 0,
                h.alerts_total == 0,
                h.last_capture_ms is None,
                h.samples_total == tot0,
                h.series_names@ == sn0,
            decreases h.samples@.len(),
        {
            let ghost b4 = h;
            h.samples.remove(0);
            proof {
                let before = b4.samples@;
                assert(sample_models(h.samples@) =~= sample_models(before).drop_first());
                assert(whole.skip(whole.len() - before.len()).drop_first() =~= whole.skip(
                    whole.len() - before.len() + 1,
                ));
            }
        }
        proof {
            assert(sample_models(h.samples@) =~= ring_keep(whole, h.config.max_entries as int));
            assert(h.samples_view() == ring_keep(pm, config.max_entries as int));
            assert(h.last_capture() is None);
            assert(h.alerts_view().len() == 0);
            assert(h.trackers_view().len() == h.rules_view().len());
            assert(h.rules_view().len() == config.alerts@.len());
            assert(forall|i2: int|
                0 <= i2 < h.trackers_view().len() ==> #[trigger] h.trackers_view()[i2]
                    == (AlertTracker { active: false, consecutive: 0 }));
            assert(h.total_samples() == if preloaded@.len() <= u64::MAX {
                preloaded@.len() as u64
            } else {
                u64::MAX
            });
            assert(h.total_alerts() == 0);
            assert(h.config_interval() == config.sample_interval_ms);
            assert(h.max_ring() == config.max_entries);
            assert(h.filter_view().0 == (config.mode == RecordingMode::All));
            assert(h.filter_view().1 =~= pattern_views(config.allow_list@));
            assert forall|v: Seq<char>| #[trigger] h.tracks(v) <==> exists|i2: int|
                0 <= i2 < pm.len() && (#[trigger] pm[i2]).2 == v by {
                assert(h.series_names@ == sn0);
                assert(sn0 == post_load.series_names@);
                assert(h.tracks(v) == post_load.tracks(v));
            }
            assert forall|v: Seq<char>| #[trigger] h.tracks(v) <==> exists|i2: int|
                0 <= i2 < preloaded@.len() && (#[trigger] preloaded@[i2]).variable@ == v by {
                if h.tracks(v) {
                    let j = choose|j: int| 0 <= j < pm.len() && (#[trigger] pm[j]).2 == v;
                    assert(pm[j] == sample_model(preloaded@[j]));
                    assert(preloaded@[j].variable@ == v);
                }
                if exists|i2: int|
                    0 <= i2 < preloaded@.len() && (#[trigger] preloaded@[i2]).variable@ == v {
                    let j = choose|j: int|
                        0 <= j < preloaded@.len() && (#[trigger] preloaded@[j]).variable@ == v;
                    assert(pm[j] == sample_model(preloaded@[j]));
                    assert(pm[j].2 == v);
                }
            }
        }
        Ok(h)
    }

    /// Matching samples, in chronological order: at most the clamped
    /// limit of the most recent samples whose variable and time match
    /// the filters.
    pub fn query(&self, variable: Option<&str>, since_ms: Option<u128>, limit: usize) -> (r: Vec<
        HistorianSample,
    >)
        ensures
            sample_models(r@) == ring_keep(
                query_filter(self.samples_view(), opt_text(variable), since_ms),
                clamp_limit(limit, 5000),
            ),
    {
        let lim: usize = if limit < 1 {
            1
        } else if limit > 5000 {
            5000
        } else {
            limit
        };
        let ghost sv = self.samples_view();
        let ghost filtered = query_filter(sv, opt_text(variable), since_ms);
        let n = self.samples.len();
        let mut kept: Vec<HistorianSample> = Vec::new();
        let mut i: usize = 0;
        proof {
            assert(sample_models(kept@) =~= query_filter(
                sv.take(0),
                opt_text(variable),
                since_ms,
            ));
        }
        while i < n
            invariant
                n == self.samples@.len(),
                sv == self.samples_view(),
                i <= n,
                sample_models(kept@) == query_filter(sv.take(i as int), opt_text(variable), since_ms),
            decreases n - i,
        {
            let s = &self.samples[i];
            proof {
                assert(sv.take(i + 1).drop_last() =~= sv.take(i as int));
                assert(sv.take(i + 1).last() == sample_model(self.samples@[i as int]));
            }
            let var_ok = match variable {
                Some(v) => {
                    let sc = crate::strutil::chars_of(s.variable.as_str());
                    let vc = crate::strutil::chars_of(v);
                    crate::strutil::eq_chars(&sc, &vc)
                },
                None => true,
            };
            let since_ok = match since_ms {
                Some(t) => s.timestamp_ms >= t,
                None => true,
            };
            if var_ok && since_ok {
                let ghost before = kept@;
                kept.push(clone_sample(s));
                proof {
                    assert(sample_models(kept@) =~= sample_models(before).push(
                        sample_model(self.samples@[i as int]),
                    ));
                }
            }
            i = i + 1;
        }
        proof {
            assert(sv.take(n as int) =~= sv);
        }
        let ghost whole = filtered;
        let mut kept = kept;
        while kept.len() > lim
            invariant
                kept@.len() <= whole.len(),
                kept@.len() >= lim || kept@.len() == whole.len(),
                sample_models(kept@) == whole.skip(whole.len() - kept@.len()),
                lim == clamp_limit(limit, 5000),
            decreases kept@.len(),
        {
            let ghost before = kept@;
            kept.remove(0);
            proof {
                assert(sample_models(kept@) =~= sample_models(before).drop_first());
                assert(whole.skip(whole.len() - before.len()).drop_first() =~= whole.skip(
                    whole.len() - before.len() + 1,
                ));
            }
        }
        proof {
            assert(whole.skip(0) =~= whole);
            assert(sample_models(kept@) =~= ring_keep(whole, lim as int));
        }
        kept
    }

    /// The most recent alert transitions, oldest first, capped by the
    /// clamped limit.
    pub fn alerts(&self, limit: usize) -> (r: Vec<HistorianAlertEvent>)
        ensures
            event_models(r@) == ring_keep(self.alerts_view(), clamp_limit(limit, 1000)),
    {
        let lim: usize = if limit < 1 {
            1
        } else if limit > 1000 {
            1000
        } else {
            limit
        };
        let ghost av = self.alerts_view();
        let n = self.alerts.len();
        let mut kept: Vec<HistorianAlertEvent> = Vec::new();
        let mut i: usize = 0;
        proof {
            assert(event_models(kept@) =~= av.take(0));
        }
        while i < n
            invariant
                n == self.alerts@.len(),
                av == self.alerts_view(),
                i <= n,
                event_models(kept@) == av.take(i as int),
            decreases n - i,
        {
            let ghost before = kept@;
            kept.push(clone_event(&self.alerts[i]));
            i = i + 1;
            proof {
                assert(event_models(kept@) =~= event_models(before).push(
                    event_model(self.alerts@[i - 1]),
                ));
                assert(av.take(i as int).drop_last() =~= av.take(i - 1));
                assert(av.take(i as int).last() == event_model(self.alerts@[i - 1]));
                assert(event_models(kept@) =~= av.take(i as int));
            }
        }
        proof {
            assert(av.take(n as int) =~= av);
        }
        let ghost whole = av;
        let mut kept = kept;
        while kept.len() > lim
            invariant
                kept@.len() <= whole.len(),
                kept@.len() >= lim || kept@.len() == whole.len(),
                event_models(kept@) == whole.skip(whole.len() - kept@.len()),
                lim == clamp_limit(limit, 1000),
            decreases kept@.len(),
        {
            let ghost before = kept@;
            kept.remove(0);
            proof {
                assert(event_models(kept@) =~= event_models(before).drop_first());
                assert(whole.skip(whole.len() - before.len()).drop_first() =~= whole.skip(
                    whole.len() - before.len() + 1,
                ));
            }
        }
        proof {
            assert(whole.skip(0) =~= whole);
            assert(event_models(kept@) =~= ring_keep(whole, lim as int));
        }
        kept
    }
}

/// Per-task cycle metrics; times are nanoseconds.
pub struct TaskMetricsSnapshot {
    pub name: String,
    pub last_ns: u64,
    pub overruns: u64,
}

/// Cycle timing; times are nanoseconds.
#[derive(Debug, Clone, Copy, PartialEq, Eq, Structural)]
pub struct CycleMetricsSnapshot {
    pub last_ns: u64,
    pub avg_ns: u64,
}

/// Runtime counters the metrics endpoint renders.
pub struct RuntimeMetricsSnapshot {
    pub uptime_ms: u64,
    pub faults: u64,
    pub overruns: u64,
    pub cycle: CycleMetricsSnapshot,
    pub tasks: Vec<TaskMetricsSnapshot>,
}

impl Default for RuntimeMetricsSnapshot {
    /// All counters at zero, no tasks.
    fn default() -> (r: RuntimeMetricsSnapshot)
        ensures
            r.uptime_ms == 0 && r.faults == 0 && r.overruns == 0,
            r.cycle.last_ns == 0 && r.cycle.avg_ns == 0,
            r.tasks@.len() == 0,
    {
        RuntimeMetricsSnapshot {
            uptime_ms: 0,
            faults: 0,
            overruns: 0,
            cycle: CycleMetricsSnapshot { last_ns: 0, avg_ns: 0 },
            tasks: Vec::new(),
        }
    }
}

/// A nanosecond count as milliseconds with six decimals.
pub open spec fn ms_fixed6(ns: u64) -> Seq<char> {
    crate::strutil::dec_of((ns / 1000000) as nat) + "."@ + crate::strutil::dec_pad(
        (ns % 1000000) as nat,
        6,
    )
}

fn ms_fixed6_exec(ns: u64) -> (r: String)
    ensures
        r@ == ms_fixed6(ns),
{
    let mut s = crate::strutil::dec_u64(ns / 1000000);
    s.append(".");
    proof {
        reveal_strlit(".");
    }
    s.append(crate::strutil::dec_u64_pad(ns % 1000000, 6).as_str());
    s
}

/// A label value with backslashes, quotes and newlines escaped.
pub open spec fn escaped_label(s: Seq<char>) -> Seq<char>
    decreases s.len(),
{
    if s.len() == 0 {
        Seq::empty()
    } else {
        escaped_label(s.drop_last()) + escaped_char(s.last())
    }
}

/// The escape of one label character.
pub open spec fn escaped_char(c: char) -> Seq<char> {
    if c == '\\' {
        seq!['\\', '\\']
    } else if c == '"' {
        seq!['\\', '"']
    } else if c == '\n' {
        seq!['\\', 'n']
    } else {
        seq![c]
    }
}

/// Escapes a label value for the metrics exposition format.
pub fn escape_label(value: &str) -> (r: String)
    ensures
        r@ == escaped_label(value@),
{
    let cs = crate::strutil::chars_of(value);
    let n = cs.len();
    let mut r = String::new();
    let mut i: usize = 0;
    proof {
        assert(r@ =~= escaped_label(value@.take(0)));
    }
    while i < n
        invariant
            n == cs@.len(),
            cs@ == value@,
            i <= n,
            r@ == escaped_label(value@.take(i as int)),
        decreases n - i,
    {
        let c = cs[i];
        proof {
            reveal_strlit("\\\\");
            reveal_strlit("\\\"");
            reveal_strlit("\\n");
            assert(value@.take(i + 1).drop_last() =~= value@.take(i as int));
        }
        if c == '\\' {
            r.append("\\\\");
        } else if c == '"' {
            r.append("\\\"");
        } else if c == '\n' {
            r.append("\\n");
        } else {
            let piece = crate::strutil::char_string(c);
            r.append(piece.as_str());
        }
        i = i + 1;
        proof {
            assert(r@ =~= escaped_label(value@.take(i as int)));
        }
    }
    proof {
        assert(value@.take(n as int) =~= value@);
    }
    r
}

/// The task lines of the last-duration block.
pub open spec fn task_last_lines(tasks: Seq<TaskMetricsSnapshot>) -> Seq<char>
    decreases tasks.len(),
{
    if tasks.len() == 0 {
        Seq::empty()
    } else {
        task_last_lines(tasks.drop_last()) + "trust_runtime_task_last_ms{task=\""@ + escaped_label(
            tasks.last().name@,
        ) + "\"} "@ + ms_fixed6(tasks.last().last_ns) + "\n"@
    }
}

/// The task lines of the overrun block.
pub open spec fn task_overrun_lines(tasks: Seq<TaskMetricsSnapshot>) -> Seq<char>
    decreases tasks.len(),
{
    if tasks.len() == 0 {
        Seq::empty()
    } else {
        task_overrun_lines(tasks.drop_last()) + "trust_runtime_task_overruns_total{task=\""@
            + escaped_label(tasks.last().name@) + "\"} "@ + crate::strutil::dec_of(
            tasks.last().overruns as nat,
        ) + "\n"@
    }
}

/// One metric block: help line, type line, then the sample line.
pub open spec fn metric_block(
    help: Seq<char>,
    ty: Seq<char>,
    name: Seq<char>,
    value: Seq<char>,
) -> Seq<char> {
    help + ty + name + value + "\n"@
}

/// The historian block, present when historian counters are handed in.
pub open spec fn historian_block(h: Option<HistorianPrometheusSnapshot>) -> Seq<char> {
    match h {
        None => Seq::empty(),
        Some(hs) => metric_block(
            "# HELP trust_runtime_historian_samples_total Persisted historian samples.\n"@,
            "# TYPE trust_runtime_historian_samples_total counter\n"@,
            "trust_runtime_historian_samples_total "@,
            crate::strutil::dec_of(hs.samples_total as nat),
        ) + metric_block(
            "# HELP trust_runtime_historian_series_total Distinct historian variables tracked.\n"@,
            "# TYPE trust_runtime_historian_series_total gauge\n"@,
            "trust_runtime_historian_series_total "@,
            crate::strutil::dec_of(hs.series_total as nat),
        ) + metric_block(
            "# HELP trust_runtime_historian_alerts_total Historian alert transitions.\n"@,
            "# TYPE trust_runtime_historian_alerts_total counter\n"@,
            "trust_runtime_historian_alerts_total "@,
            crate::strutil::dec_of(hs.alerts_total as nat),
        ),
    }
}

/// The runtime counter blocks that open the document.
pub open spec fn base_blocks(runtime: RuntimeMetricsSnapshot) -> Seq<char> {
    metric_block(
        "# HELP trust_runtime_uptime_ms Runtime uptime in milliseconds.\n"@,
        "# TYPE trust_runtime_uptime_ms gauge\n"@,
        "trust_runtime_uptime_ms "@,
        crate::strutil::dec_of(runtime.uptime_ms as nat),
    ) + metric_block(
        "# HELP trust_runtime_faults_total Runtime fault count.\n"@,
        "# TYPE trust_runtime_faults_total counter\n"@,
        "trust_runtime_faults_total "@,
        crate::strutil::dec_of(runtime.faults as nat),
    ) + metric_block(
        "# HELP trust_runtime_overruns_total Runtime cycle overrun count.\n"@,
        "# TYPE trust_runtime_overruns_total counter\n"@,
        "trust_runtime_overruns_total "@,
        crate::strutil::dec_of(runtime.overruns as nat),
    ) + metric_block(
        "# HELP trust_runtime_cycle_last_ms Last cycle duration in milliseconds.\n"@,
        "# TYPE trust_runtime_cycle_last_ms gauge\n"@,
        "trust_runtime_cycle_last_ms "@,
        ms_fixed6(runtime.cycle.last_ns),
    ) + metric_block(
        "# HELP trust_runtime_cycle_avg_ms Average cycle duration in milliseconds.\n"@,
        "# TYPE trust_runtime_cycle_avg_ms gauge\n"@,
        "trust_runtime_cycle_avg_ms "@,
        ms_fixed6(runtime.cycle.avg_ns),
    )
}

/// The whole metrics document.
pub open spec fn rendered_metrics(
    runtime: RuntimeMetricsSnapshot,
    historian: Option<HistorianPrometheusSnapshot>,
) -> Seq<char> {
    base_blocks(runtime)
        + "# HELP trust_runtime_task_last_ms Last task duration in milliseconds.\n"@
        + "# TYPE trust_runtime_task_last_ms gauge\n"@ + task_last_lines(runtime.tasks@)
        + "# HELP trust_runtime_task_overruns_total Task overrun count.\n"@
        + "# TYPE trust_runtime_task_overruns_total counter\n"@ + task_overrun_lines(
        runtime.tasks@,
    ) + historian_block(historian)
}

fn append_metric(body: &mut String, help: &str, ty: &str, name: &str, value: &str)
    ensures
        final(body)@ == old(body)@ + metric_block(help@, ty@, name@, value@),
{
    body.append(help);
    body.append(ty);
    body.append(name);
    body.append(value);
    body.append("\n");
    proof {
        assert(final(body)@ =~= old(body)@ + metric_block(help@, ty@, name@, value@));
    }
}

/// Renders the metrics document: runtime counters, cycle and task
/// timings as fixed-point milliseconds, and the historian's counters
/// when handed in.
#[verifier::loop_isolation(false)]
#[verifier::rlimit(100)]
pub fn render_prometheus(
    runtime: &RuntimeMetricsSnapshot,
    historian: Option<HistorianPrometheusSnapshot>,
) -> (r: String)
    ensures
        r@ == rendered_metrics(*runtime, historian),
{
    let mut body = String::new();
    append_metric(
        &mut body,
        "# HELP trust_runtime_uptime_ms Runtime uptime in milliseconds.\n",
        "# TYPE trust_runtime_uptime_ms gauge\n",
        "trust_runtime_uptime_ms ",
        crate::strutil::dec_u64(runtime.uptime_ms).as_str(),
    );
    append_metric(
        &mut body,
        "# HELP trust_runtime_faults_total Runtime fault count.\n",
        "# TYPE trust_runtime_faults_total counter\n",
        "trust_runtime_faults_total ",
        crate::strutil::dec_u64(runtime.faults).as_str(),
    );
    append_metric(
        &mut body,
        "# HELP trust_runtime_overruns_total Runtime cycle overrun count.\n",
        "# TYPE trust_runtime_overruns_total counter\n",
        "trust_runtime_overruns_total ",
        crate::strutil::dec_u64(runtime.overruns).as_str(),
    );
    append_metric(
        &mut body,
        "# HELP trust_runtime_cycle_last_ms Last cycle duration in milliseconds.\n",
        "# TYPE trust_runtime_cycle_last_ms gauge\n",
        "trust_runtime_cycle_last_ms ",
        ms_fixed6_exec(runtime.cycle.last_ns).as_str(),
    );
    append_metric(
        &mut body,
        "# HELP trust_runtime_cycle_avg_ms Average cycle duration in milliseconds.\n",
        "# TYPE trust_runtime_cycle_avg_ms gauge\n",
        "trust_runtime_cycle_avg_ms ",
        ms_fixed6_exec(runtime.cycle.avg_ns).as_str(),
    );
    proof {
        assert(body@ =~= base_blocks(*runtime));
    }
    body.append("# HELP trust_runtime_task_last_ms Last task duration in milliseconds.\n");
    body.append("# TYPE trust_runtime_task_last_ms gauge\n");
    let ghost tasks = runtime.tasks@;
    let tn = runtime.tasks.len();
    let ghost head = body@;
    let mut i: usize = 0;
    proof {
        assert(task_last_lines(tasks.take(0)) =~= Seq::<char>::empty());
        assert(body@ =~= head + task_last_lines(tasks.take(0)));
    }
    while i < tn
        invariant
            i <= tn,
            body@ == head + task_last_lines(tasks.take(i as int)),
        decreases tn - i,
    {
        let task = &runtime.tasks[i];
        body.append("trust_runtime_task_last_ms{task=\"");
        body.append(escape_label(task.name.as_str()).as_str());
        body.append("\"} ");
        body.append(ms_fixed6_exec(task.last_ns).as_str());
        body.append("\n");
        i = i + 1;
        proof {
            assert(tasks.take(i as int).drop_last() =~= tasks.take(i - 1));
            assert(tasks.take(i as int).last() == tasks[i - 1]);
            assert(body@ =~= head + task_last_lines(tasks.take(i as int)));
        }
    }
    proof {
        assert(tasks.take(tn as int) =~= tasks);
    }
    body.append("# HELP trust_runtime_task_overruns_total Task overrun count.\n");
    body.append("# TYPE trust_runtime_task_overruns_total counter\n");
    let ghost head2 = body@;
    let mut i: usize = 0;
    proof {
        assert(task_overrun_lines(tasks.take(0)) =~= Seq::<char>::empty());
        assert(body@ =~= head2 + task_overrun_lines(tasks.take(0)));
    }
    while i < tn
        invariant
            i <= tn,
            body@ == head2 + task_overrun_lines(tasks.take(i as int)),
        decreases tn - i,
    {
        let task = &runtime.tasks[i];
        body.append("trust_runtime_task_overruns_total{task=\"");
        body.append(escape_label(task.name.as_str()).as_str());
        body.append("\"} ");
        body.append(crate::strutil::dec_u64(task.overruns).as_str());
        body.append("\n");
        i = i + 1;
        proof {
            assert(tasks.take(i as int).drop_last() =~= tasks.take(i - 1));
            assert(tasks.take(i as int).last() == tasks[i - 1]);
            assert(body@ =~= head2 + task_overrun_lines(tasks.take(i as int)));
        }
    }
    proof {
        assert(tasks.take(tn as int) =~= tasks);
    }
    let ghost head3 = body@;
    match historian {
        Some(hs) => {
            append_metric(
                &mut body,
                "# HELP trust_runtime_historian_samples_total Persisted historian samples.\n",
                "# TYPE trust_runtime_historian_samples_total counter\n",
                "trust_runtime_historian_samples_total ",
                crate::strutil::dec_u64(hs.samples_total).as_str(),
            );
            append_metric(
                &mut body,
                "# HELP trust_runtime_historian_series_total Distinct historian variables tracked.\n",
                "# TYPE trust_runtime_historian_series_total gauge\n",
                "trust_runtime_historian_series_total ",
                crate::strutil::dec_u64(hs.series_total as u64).as_str(),
            );
            append_metric(
                &mut body,
                "# HELP trust_runtime_historian_alerts_total Historian alert transitions.\n",
                "# TYPE trust_runtime_historian_alerts_total counter\n",
                "trust_runtime_historian_alerts_total ",
                crate::strutil::dec_u64(hs.alerts_total).as_str(),
            );
            proof {
                assert(body@ =~= head3 + historian_block(historian));
            }
        },
        None => {
            proof {
                assert(body@ =~= head3 + historian_block(historian));
            }
        },
    }
    proof {
        assert(body@ =~= rendered_metrics(*runtime, historian));
    }
    body
}

impl HistorianService {
    /// Renders the metrics document with this historian's counters.
    pub fn render_prometheus(&self, runtime: &RuntimeMetricsSnapshot) -> (r: String)
        ensures
            r@ == rendered_metrics(
                *runtime,
                Some(
                    HistorianPrometheusSnapshot {
                        samples_total: self.total_samples(),
                        series_total: self.series_count(),
                        alerts_total: self.total_alerts(),
                    },
                ),
            ),
    {
        let snap = self.prometheus_snapshot();
        render_prometheus(runtime, Some(snap))
    }
}

/// An optional filter text's characters.
pub open spec fn opt_text(v: Option<&str>) -> Option<Seq<char>> {
    match v {
        Some(t) => Some(t@),
        None => None,
    }
}

/// A query limit clamped to `1..=cap`.
pub open spec fn clamp_limit(limit: usize, cap: int) -> int {
    if limit < 1 {
        1
    } else if limit > cap {
        cap
    } else {
        limit as int
    }
}

/// Samples passing a query's variable and time filters, in order.
pub open spec fn query_filter(
    samples: Seq<(u128, i64, Seq<char>, HvModel)>,
    variable: Option<Seq<char>>,
    since_ms: Option<u128>,
) -> Seq<(u128, i64, Seq<char>, HvModel)>
    decreases samples.len(),
{
    if samples.len() == 0 {
        Seq::empty()
    } else {
        let rest = query_filter(samples.drop_last(), variable, since_ms);
        let last = samples.last();
        let var_ok = match variable {
            Some(v) => last.2 == v,
            None => true,
        };
        let since_ok = match since_ms {
            Some(t) => last.0 >= t,
            None => true,
        };
        if var_ok && since_ok {
            rest.push(last)
        } else {
            rest
        }
    }
}

/// An unfiltered query with a limit no smaller than the ring returns
/// the ring exactly: journal samples loaded on restart read back in
/// their original order.
pub proof fn lemma_journal_round_trip(samples: Seq<(u128, i64, Seq<char>, HvModel)>, lim: int)
    requires
        lim >= samples.len(),
    ensures
        ring_keep(query_filter(samples, None, None), lim) == samples,
    decreases samples.len(),
{
    lemma_query_filter_all(samples);
}

proof fn lemma_query_filter_all(samples: Seq<(u128, i64, Seq<char>, HvModel)>)
    ensures
        query_filter(samples, None, None) == samples,
    decreases samples.len(),
{
    if samples.len() > 0 {
        lemma_query_filter_all(samples.drop_last());
        assert(query_filter(samples, None, None) =~= samples);
    } else {
        assert(query_filter(samples, None, None) =~= samples);
    }
}

} // verus!

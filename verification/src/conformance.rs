//! Pure parts of the conformance harness: case naming rules, manifest
//! validation, typed value and duration literals, and calendar
//! arithmetic for report timestamps. Walking the suite directories and
//! driving cycles are the caller's part.

use vstd::prelude::*;

use crate::strutil::{
    all_digits, dec_val, i64_text_ok, i64_text_val, lex_le, lower_key, lower_u, trim_spec,
    u64_digits, u64_text_ok,
};
use crate::value::{Duration, RestartMode, Value};

verus! {

/// Outcome classes of one conformance case.
#[derive(Debug, Clone, Copy, PartialEq, Eq, Structural)]
pub enum CaseStatus {
    Passed,
    Failed,
    Error,
    Skipped,
}

impl CaseStatus {
    /// The summary word for this status.
    pub fn as_str(self) -> (r: &'static str)
        ensures
            match self {
                CaseStatus::Passed => r@ == "passed"@,
                CaseStatus::Failed => r@ == "failed"@,
                CaseStatus::Error => r@ == "error"@,
                CaseStatus::Skipped => r@ == "skipped"@,
            },
    {
        match self {
            CaseStatus::Passed => "passed",
            CaseStatus::Failed => "failed",
            CaseStatus::Error => "error",
            CaseStatus::Skipped => "skipped",
        }
    }
}

/// A machine-readable failure reason with a message and optional
/// detail.
pub struct SummaryReason {
    pub code: String,
    pub message: String,
    pub details: Option<String>,
}

/// Builds a failure reason.
pub fn reason(code: &str, message: &str, details: Option<String>) -> (r: SummaryReason)
    ensures
        r.code@ == code@,
        r.message@ == message@,
        r.details == details,
{
    SummaryReason { code: code.to_owned(), message: message.to_owned(), details }
}

/// A duration in milliseconds, saturating at the `u64` limit.
pub fn elapsed_ms(millis: u128) -> (r: u64)
    ensures
        millis <= u64::MAX ==> r == millis,
        millis > u64::MAX ==> r == u64::MAX,
{
    if millis > u64::MAX as u128 {
        u64::MAX
    } else {
        millis as u64
    }
}

/// True when `c` may appear in a case identifier.
pub open spec fn case_id_char(c: char) -> bool {
    ('a' <= c && c <= 'z') || ('0' <= c && c <= '9') || c == '_'
}

/// True when `id` is a well-formed case identifier for `category`: it
/// starts `cfm_<category>_`, holds only lower-case letters, digits and
/// underscores, and ends in an underscore-separated three-digit
/// suffix.
pub open spec fn valid_case_id(id: Seq<char>, category: Seq<char>) -> bool {
    let prefix = "cfm_"@ + category + "_"@;
    &&& id.len() >= prefix.len()
    &&& id.take(prefix.len() as int) == prefix
    &&& forall|i: int| 0 <= i < id.len() ==> case_id_char(#[trigger] id[i])
    &&& last_segment(id).len() == 3
    &&& all_digits(last_segment(id))
}

/// The text after the final underscore of `id`; all of `id` when it
/// holds none.
pub open spec fn last_segment(id: Seq<char>) -> Seq<char>
    decreases id.len(),
{
    if id.len() == 0 {
        Seq::empty()
    } else if id.last() == '_' {
        Seq::empty()
    } else {
        last_segment(id.drop_last()).push(id.last())
    }
}

proof fn lemma_last_segment_suffix(id: Seq<char>, k: int)
    requires
        0 <= k <= id.len(),
        forall|i: int| k <= i < id.len() ==> (#[trigger] id[i]) != '_',
        k > 0 ==> id[k - 1] == '_',
    ensures
        last_segment(id) == id.skip(k),
    decreases id.len() - k,
{
    if id.len() == k {
        if k > 0 {
            assert(id.skip(k) =~= Seq::<char>::empty());
            if id.len() > 0 && id.last() != '_' {
                assert(id[id.len() - 1] == '_');
            }
        } else {
            assert(id.skip(0) =~= id);
            if id.len() > 0 {
                assert(id[id.len() - 1] != '_' || true);
            }
        }
        if id.len() == 0 {
            assert(last_segment(id) =~= id.skip(k));
        } else {
            assert(id.last() == id[k - 1]);
            assert(id.last() == '_');
            assert(last_segment(id) =~= id.skip(k));
        }
    } else {
        assert(id.last() == id[id.len() - 1]);
        assert(id.last() != '_');
        assert(id.drop_last()[k - 1] == id[k - 1] || k == 0);
        lemma_last_segment_suffix(id.drop_last(), k);
        assert(id.drop_last().skip(k).push(id.last()) =~= id.skip(k));
    }
}

fn suffix_start(idc: &Vec<char>) -> (k: usize)
    ensures
        k <= idc@.len(),
        forall|j: int| k <= j < idc@.len() ==> (#[trigger] idc@[j]) != '_',
        k > 0 ==> idc@[k - 1] == '_',
{
    let n = idc.len();
    let mut k: usize = n;
    while k > 0
        invariant
            k <= n == idc@.len(),
            forall|j: int| k <= j < n ==> (#[trigger] idc@[j]) != '_',
        decreases k,
    {
        if idc[k - 1] == '_' {
            return k;
        }
        k = k - 1;
    }
    0
}

/// Decides whether a case identifier fits its category's naming rules.
pub fn is_valid_case_id(id: &str, category: &str) -> (r: bool)
    ensures
        r == valid_case_id(id@, category@),
{
    let idc = crate::strutil::chars_of(id);
    let n = idc.len();
    let ghost prefix = "cfm_"@ + category@ + "_"@;
    let mut prefix_str = String::from_str("cfm_");
    proof {
        reveal_strlit("cfm_");
        reveal_strlit("_");
    }
    prefix_str.append(category);
    prefix_str.append("_");
    let pc = crate::strutil::chars_of(prefix_str.as_str());
    let pn = pc.len();
    proof {
        assert(pc@ == prefix);
    }
    if n < pn {
        return false;
    }
    let mut i: usize = 0;
    while i < pn
        invariant
            pn == pc@.len() <= n == idc@.len(),
            idc@ == id@,
            pc@ == prefix,
            prefix == "cfm_"@ + category@ + "_"@,
            i <= pn,
            forall|j: int| 0 <= j < i ==> idc@[j] == pc@[j],
        decreases pn - i,
    {
        if idc[i] != pc[i] {
            proof {
                assert(id@.take(pn as int)[i as int] != prefix[i as int]);
                assert(id@.take(pn as int) != prefix);
            }
            return false;
        }
        i = i + 1;
    }
    proof {
        assert(id@.take(pn as int) =~= prefix);
    }
    let mut i: usize = 0;
    while i < n
        invariant
            n == idc@.len(),
            idc@ == id@,
            i <= n,
            forall|j: int| 0 <= j < i ==> case_id_char(#[trigger] id@[j]),
        decreases n - i,
    {
        let c = idc[i];
        if !(('a' <= c && c <= 'z') || ('0' <= c && c <= '9') || c == '_') {
            return false;
        }
        i = i + 1;
    }
    let k = suffix_start(&idc);
    proof {
        lemma_last_segment_suffix(id@, k as int);
    }
    if n - k != 3 {
        return false;
    }
    let mut i: usize = k;
    while i < n
        invariant
            k <= i <= n == idc@.len(),
            idc@ == id@,
            last_segment(id@) == id@.skip(k as int),
            forall|j: int| k <= j < i ==> crate::strutil::digit(#[trigger] id@[j]),
        decreases n - i,
    {
        let c = idc[i];
        if !('0' <= c && c <= '9') {
            proof {
                assert(id@.skip(k as int)[i - k] == id@[i as int]);
            }
            return false;
        }
        i = i + 1;
    }
    proof {
        assert forall|j: int| 0 <= j < last_segment(id@).len() implies crate::strutil::digit(
            #[trigger] last_segment(id@)[j],
        ) by {
            assert(last_segment(id@)[j] == id@[k + j]);
        }
    }
    true
}

/// True when a series value means "leave this input unchanged".
pub open spec fn skip_value(s: Seq<char>) -> bool {
    lower_key(s) == lower_key("skip"@) || s == "_"@
}

/// Decides whether a series value is the skip sentinel.
pub fn should_skip_step_value(value: &str) -> (r: bool)
    ensures
        r == skip_value(value@),
{
    let vc = crate::strutil::chars_of(value);
    let lk = crate::strutil::lower_key_of(&vc);
    let sc = crate::strutil::chars_of("skip");
    let sk = crate::strutil::lower_key_of(&sc);
    if crate::strutil::eq_keys(&lk, &sk) {
        return true;
    }
    let uc = crate::strutil::chars_of("_");
    crate::strutil::eq_chars(&vc, &uc)
}

/// Errors of manifest and literal parsing.
#[derive(Debug)]
pub enum ConformanceError {
    BadRestartMode(String),
    BadBool(String),
    BadNumber(String),
    BadTypedValue(String),
    UnsupportedKind(String),
    FloatText(bool, String),
    ZeroCycles,
    SeriesLength(String),
    RestartOutOfRange(u32),
}

/// Payload-free tag of a conformance error.
#[derive(Debug, Clone, Copy, PartialEq, Eq, Structural)]
pub enum ConformanceErrorKind {
    BadRestartMode,
    BadBool,
    BadNumber,
    BadTypedValue,
    UnsupportedKind,
    FloatText,
    ZeroCycles,
    SeriesLength,
    RestartOutOfRange,
}

impl ConformanceError {
    /// The tag of this error.
    pub open spec fn kind(&self) -> ConformanceErrorKind {
        match self {
            ConformanceError::BadRestartMode(..) => ConformanceErrorKind::BadRestartMode,
            ConformanceError::BadBool(..) => ConformanceErrorKind::BadBool,
            ConformanceError::BadNumber(..) => ConformanceErrorKind::BadNumber,
            ConformanceError::BadTypedValue(..) => ConformanceErrorKind::BadTypedValue,
            ConformanceError::UnsupportedKind(..) => ConformanceErrorKind::UnsupportedKind,
            ConformanceError::FloatText(..) => ConformanceErrorKind::FloatText,
            ConformanceError::ZeroCycles => ConformanceErrorKind::ZeroCycles,
            ConformanceError::SeriesLength(..) => ConformanceErrorKind::SeriesLength,
            ConformanceError::RestartOutOfRange(..) => ConformanceErrorKind::RestartOutOfRange,
        }
    }
}

/// The restart mode a manifest names, case-folded.
pub open spec fn restart_mode_of(s: Seq<char>) -> Option<RestartMode> {
    if lower_key(s) == lower_key("cold"@) {
        Some(RestartMode::Cold)
    } else if lower_key(s) == lower_key("warm"@) {
        Some(RestartMode::Warm)
    } else {
        None
    }
}

/// Reads a restart mode.
pub fn parse_restart_mode(mode: &str) -> (r: Result<RestartMode, ConformanceError>)
    ensures
        match r {
            Ok(m) => restart_mode_of(mode@) == Some(m),
            Err(e) => restart_mode_of(mode@) is None && e.kind()
                == ConformanceErrorKind::BadRestartMode,
        },
{
    let mc = crate::strutil::chars_of(mode);
    let mk = crate::strutil::lower_key_of(&mc);
    let cold = crate::strutil::chars_of("cold");
    let ck = crate::strutil::lower_key_of(&cold);
    if crate::strutil::eq_keys(&mk, &ck) {
        return Ok(RestartMode::Cold);
    }
    let warm = crate::strutil::chars_of("warm");
    let wk = crate::strutil::lower_key_of(&warm);
    if crate::strutil::eq_keys(&mk, &wk) {
        return Ok(RestartMode::Warm);
    }
    Err(ConformanceError::BadRestartMode(mode.to_owned()))
}

/// The boolean a literal names, trimmed and case-folded.
pub open spec fn bool_of(s: Seq<char>) -> Option<bool> {
    if lower_key(trim_spec(s)) == lower_key("true"@) {
        Some(true)
    } else if lower_key(trim_spec(s)) == lower_key("false"@) {
        Some(false)
    } else {
        None
    }
}

/// Reads a boolean literal.
pub fn parse_bool(raw: &str) -> (r: Result<bool, ConformanceError>)
    ensures
        match r {
            Ok(b) => bool_of(raw@) == Some(b),
            Err(e) => bool_of(raw@) is None && e.kind() == ConformanceErrorKind::BadBool,
        },
{
    if crate::strutil::lower_matches(raw, "true") {
        Ok(true)
    } else if crate::strutil::lower_matches(raw, "false") {
        Ok(false)
    } else {
        Err(ConformanceError::BadBool(raw.to_owned()))
    }
}

/// The digits of a numeric literal: trimmed, underscores dropped.
pub open spec fn number_text(s: Seq<char>) -> Seq<char> {
    trim_spec(s).filter(|c: char| c != '_')
}

fn number_chars(raw: &str) -> (r: Vec<char>)
    ensures
        r@ == number_text(raw@),
{
    let rc = crate::strutil::chars_of(raw);
    let trimmed = crate::strutil::trim_chars(&rc);
    let n = trimmed.len();
    let mut out: Vec<char> = Vec::new();
    let mut i: usize = 0;
    while i < n
        invariant
            n == trimmed@.len(),
            trimmed@ == trim_spec(raw@),
            i <= n,
            out@ == trimmed@.take(i as int).filter(|c: char| c != '_'),
        decreases n - i,
    {
        let c = trimmed[i];
        proof {
            reveal_with_fuel(Seq::<_>::filter, 2);
            assert(trimmed@.take(i + 1).drop_last() =~= trimmed@.take(i as int));
        }
        if c != '_' {
            out.push(c);
        }
        i = i + 1;
    }
    proof {
        assert(trimmed@.take(n as int) =~= trimmed@);
    }
    out
}

/// The suffix of a duration literal, folded: milliseconds,
/// nanoseconds, or seconds.
pub open spec fn dur_suffix(d: Seq<char>) -> (int, Seq<char>) {
    if d.len() >= 2 && lower_u(d[d.len() - 2]) == 'm' as u32 && lower_u(d[d.len() - 1]) == 's'
        as u32 {
        (0, d.take(d.len() - 2))
    } else if d.len() >= 2 && lower_u(d[d.len() - 2]) == 'n' as u32 && lower_u(d[d.len() - 1])
        == 's' as u32 {
        (1, d.take(d.len() - 2))
    } else if d.len() >= 1 && lower_u(d[d.len() - 1]) == 's' as u32 {
        (2, d.take(d.len() - 1))
    } else {
        (0, d)
    }
}

/// Reads a duration literal: a signed count with an optional `ms`,
/// `ns` or `s` suffix, defaulting to milliseconds; underscores are
/// ignored and the count must fit an `i64`.
pub fn parse_duration(raw: &str) -> (r: Result<Duration, ConformanceError>)
    ensures
        ({
            let (unit, digits) = dur_suffix(number_text(raw@));
            match r {
                Ok(d) => {
                    let v = i64_text_val(digits);
                    &&& i64_text_ok(digits)
                    &&& unit == 1 ==> d.nanos == v
                    &&& (unit == 0 && i64::MIN <= v * 1000000 <= i64::MAX) ==> d.nanos == v
                        * 1000000
                    &&& (unit == 2 && i64::MIN <= v * 1000000000 <= i64::MAX) ==> d.nanos == v
                        * 1000000000
                },
                Err(e) => !i64_text_ok(digits) && e.kind() == ConformanceErrorKind::BadNumber,
            }
        }),
{
    let d = number_chars(raw);
    let n = d.len();
    let mut unit: u8 = 0;
    let mut digits = d;
    if n >= 2 && crate::strutil::lower_of(digits[n - 2]) == 'm' as u32
        && crate::strutil::lower_of(digits[n - 1]) == 's' as u32 {
        unit = 0;
        digits.truncate(n - 2);
    } else if n >= 2 && crate::strutil::lower_of(digits[n - 2]) == 'n' as u32
        && crate::strutil::lower_of(digits[n - 1]) == 's' as u32 {
        unit = 1;
        digits.truncate(n - 2);
    } else if n >= 1 && crate::strutil::lower_of(digits[n - 1]) == 's' as u32 {
        unit = 2;
        digits.truncate(n - 1);
    }
    let value = match crate::strutil::parse_i64_chars(&digits) {
        Some(v) => v,
        None => {
            return Err(ConformanceError::BadNumber(raw.to_owned()));
        },
    };
    if unit == 0 {
        Ok(Duration::from_millis(value))
    } else if unit == 1 {
        Ok(Duration::from_nanos(value))
    } else {
        Ok(Duration::from_secs(value))
    }
}

/// Index of the first colon of `s`, or its length when it has none.
pub open spec fn colon_at(s: Seq<char>) -> int
    decreases s.len(),
{
    if s.len() == 0 {
        0
    } else if s[0] == ':' {
        0
    } else {
        1 + colon_at(s.drop_first())
    }
}

fn find_colon(v: &Vec<char>) -> (k: usize)
    ensures
        k as int == colon_at(v@),
        k <= v@.len(),
{
    let n = v.len();
    let mut i: usize = 0;
    proof {
        assert(v@.skip(0) =~= v@);
    }
    while i < n
        invariant
            n == v@.len(),
            i <= n,
            colon_at(v@) == i + colon_at(v@.skip(i as int)),
            forall|j: int| 0 <= j < i ==> v@[j] != ':',
        decreases n - i,
    {
        proof {
            assert(v@.skip(i as int)[0] == v@[i as int]);
            assert(v@.skip(i as int).drop_first() =~= v@.skip(i + 1));
        }
        if v[i] == ':' {
            return i;
        }
        i = i + 1;
    }
    proof {
        assert(v@.skip(n as int) =~= Seq::<char>::empty());
    }
    n
}

/// The nanosecond count a duration literal denotes, saturating at the
/// `i64` range; the scale is millisecond, nanosecond, or second.
pub open spec fn scaled_nanos(v: int, scale: int) -> int {
    if v * scale > i64::MAX {
        i64::MAX as int
    } else if v * scale < i64::MIN {
        i64::MIN as int
    } else {
        v * scale
    }
}

/// The value a signed-integer literal of the given range denotes.
pub open spec fn int_in_range(digits: Seq<char>, lo: int, hi: int) -> Option<int> {
    if i64_text_ok(digits) && lo <= i64_text_val(digits) <= hi {
        Some(i64_text_val(digits))
    } else {
        None
    }
}

/// The value an unsigned literal of the given range denotes.
pub open spec fn uint_in_range(digits: Seq<char>, hi: int) -> Option<int> {
    if u64_text_ok(digits) && dec_val(u64_digits(digits)) <= hi {
        Some(dec_val(u64_digits(digits)) as int)
    } else {
        None
    }
}

/// What a typed literal `KIND:VALUE` denotes. Float text cannot be
/// read in the verified core, so `REAL` and `LREAL` literals come back
/// as [`ConformanceErrorKind::FloatText`] with the cleaned digits, for
/// the caller to finish with its own float parser.
pub open spec fn typed_value_of(raw: Seq<char>) -> Result<
    crate::value::ValueModel,
    ConformanceErrorKind,
> {
    let k = colon_at(raw);
    if k == raw.len() {
        Err(ConformanceErrorKind::BadTypedValue)
    } else {
        let kind = crate::strutil::upper_key(trim_spec(raw.take(k)));
        let payload = trim_spec(raw.skip(k + 1));
        let digits = payload.filter(|c: char| c != '_');
        if kind == crate::strutil::upper_key("bool"@) {
            match bool_of(payload) {
                Some(b) => Ok(crate::value::ValueModel::Bool(b)),
                None => Err(ConformanceErrorKind::BadBool),
            }
        } else if kind == crate::strutil::upper_key("sint"@) {
            match int_in_range(digits, -128, 127) {
                Some(v) => Ok(crate::value::ValueModel::SInt(v as i8)),
                None => Err(ConformanceErrorKind::BadNumber),
            }
        } else if kind == crate::strutil::upper_key("int"@) {
            match int_in_range(digits, -32768, 32767) {
                Some(v) => Ok(crate::value::ValueModel::Int(v as i16)),
                None => Err(ConformanceErrorKind::BadNumber),
            }
        } else if kind == crate::strutil::upper_key("dint"@) {
            match int_in_range(digits, -0x80000000, 0x7fffffff) {
                Some(v) => Ok(crate::value::ValueModel::DInt(v as i32)),
                None => Err(ConformanceErrorKind::BadNumber),
            }
        } else if kind == crate::strutil::upper_key("lint"@) {
            match int_in_range(digits, i64::MIN as int, i64::MAX as int) {
                Some(v) => Ok(crate::value::ValueModel::LInt(v as i64)),
                None => Err(ConformanceErrorKind::BadNumber),
            }
        } else if kind == crate::strutil::upper_key("usint"@) {
            match uint_in_range(digits, 255) {
                Some(v) => Ok(crate::value::ValueModel::USInt(v as u8)),
                None => Err(ConformanceErrorKind::BadNumber),
            }
        } else if kind == crate::strutil::upper_key("uint"@) {
            match uint_in_range(digits, 65535) {
                Some(v) => Ok(crate::value::ValueModel::UInt(v as u16)),
                None => Err(ConformanceErrorKind::BadNumber),
            }
        } else if kind == crate::strutil::upper_key("udint"@) {
            match uint_in_range(digits, 0xffffffff) {
                Some(v) => Ok(crate::value::ValueModel::UDInt(v as u32)),
                None => Err(ConformanceErrorKind::BadNumber),
            }
        } else if kind == crate::strutil::upper_key("ulint"@) {
            match uint_in_range(digits, u64::MAX as int) {
                Some(v) => Ok(crate::value::ValueModel::ULInt(v as u64)),
                None => Err(ConformanceErrorKind::BadNumber),
            }
        } else if kind == crate::strutil::upper_key("byte"@) {
            match uint_in_range(digits, 255) {
                Some(v) => Ok(crate::value::ValueModel::Byte(v as u8)),
                None => Err(ConformanceErrorKind::BadNumber),
            }
        } else if kind == crate::strutil::upper_key("word"@) {
            match uint_in_range(digits, 65535) {
                Some(v) => Ok(crate::value::ValueModel::Word(v as u16)),
                None => Err(ConformanceErrorKind::BadNumber),
            }
        } else if kind == crate::strutil::upper_key("dword"@) {
            match uint_in_range(digits, 0xffffffff) {
                Some(v) => Ok(crate::value::ValueModel::DWord(v as u32)),
                None => Err(ConformanceErrorKind::BadNumber),
            }
        } else if kind == crate::strutil::upper_key("lword"@) {
            match uint_in_range(digits, u64::MAX as int) {
                Some(v) => Ok(crate::value::ValueModel::LWord(v as u64)),
                None => Err(ConformanceErrorKind::BadNumber),
            }
        } else if kind == crate::strutil::upper_key("time"@) {
            let (unit, dd) = dur_suffix(digits);
            if i64_text_ok(dd) {
                let scale = if unit == 0 {
                    1000000int
                } else if unit == 1 {
                    1int
                } else {
                    1000000000int
                };
                Ok(crate::value::ValueModel::Time(scaled_nanos(i64_text_val(dd), scale) as i64))
            } else {
                Err(ConformanceErrorKind::BadNumber)
            }
        } else if kind == crate::strutil::upper_key("ltime"@) {
            let (unit, dd) = dur_suffix(digits);
            if i64_text_ok(dd) {
                let scale = if unit == 0 {
                    1000000int
                } else if unit == 1 {
                    1int
                } else {
                    1000000000int
                };
                Ok(crate::value::ValueModel::LTime(scaled_nanos(i64_text_val(dd), scale) as i64))
            } else {
                Err(ConformanceErrorKind::BadNumber)
            }
        } else if kind == crate::strutil::upper_key("string"@) {
            Ok(crate::value::ValueModel::String(payload))
        } else if kind == crate::strutil::upper_key("real"@) || kind == crate::strutil::upper_key(
            "lreal"@,
        ) {
            Err(ConformanceErrorKind::FloatText)
        } else {
            Err(ConformanceErrorKind::UnsupportedKind)
        }
    }
}

fn parse_int_kind(digits: &Vec<char>, lo: i64, hi: i64) -> (r: Option<i64>)
    ensures
        match r {
            Some(v) => int_in_range(digits@, lo as int, hi as int) == Some(v as int),
            None => int_in_range(digits@, lo as int, hi as int) is None,
        },
{
    match crate::strutil::parse_i64_chars(digits) {
        Some(v) => if lo <= v && v <= hi {
            Some(v)
        } else {
            None
        },
        None => None,
    }
}

fn parse_uint_kind(digits: &Vec<char>, hi: u64) -> (r: Option<u64>)
    ensures
        match r {
            Some(v) => uint_in_range(digits@, hi as int) == Some(v as int),
            None => uint_in_range(digits@, hi as int) is None,
        },
{
    match crate::strutil::parse_u64_chars(digits) {
        Some(v) => if v <= hi {
            Some(v)
        } else {
            None
        },
        None => None,
    }
}

fn parse_dur_nanos(digits: Vec<char>) -> (r: Option<i64>)
    ensures
        ({
            let (unit, dd) = dur_suffix(digits@);
            let scale = if unit == 0 {
                1000000int
            } else if unit == 1 {
                1int
            } else {
                1000000000int
            };
            match r {
                Some(v) => i64_text_ok(dd) && v as int == scaled_nanos(i64_text_val(dd), scale),
                None => !i64_text_ok(dd),
            }
        }),
{
    let n = digits.len();
    let mut unit: u8 = 0;
    let mut digits = digits;
    if n >= 2 && crate::strutil::lower_of(digits[n - 2]) == 'm' as u32 && crate::strutil::lower_of(
        digits[n - 1],
    ) == 's' as u32 {
        unit = 0;
        digits.truncate(n - 2);
    } else if n >= 2 && crate::strutil::lower_of(digits[n - 2]) == 'n' as u32
        && crate::strutil::lower_of(digits[n - 1]) == 's' as u32 {
        unit = 1;
        digits.truncate(n - 2);
    } else if n >= 1 && crate::strutil::lower_of(digits[n - 1]) == 's' as u32 {
        unit = 2;
        digits.truncate(n - 1);
    }
    let value = crate::strutil::parse_i64_chars(&digits)?;
    let d = if unit == 0 {
        Duration::from_millis(value)
    } else if unit == 1 {
        Duration::from_nanos(value)
    } else {
        Duration::from_secs(value)
    };
    Some(d.nanos)
}

/// Reads a `KIND:VALUE` literal into a runtime value.
pub fn parse_typed_value(raw: &str) -> (r: Result<Value, ConformanceError>)
    ensures
        match r {
            Ok(v) => typed_value_of(raw@) == Ok::<crate::value::ValueModel, ConformanceErrorKind>(
                crate::value::model(v),
            ),
            Err(e) => typed_value_of(raw@) == Err::<crate::value::ValueModel, ConformanceErrorKind>(
                e.kind(),
            ),
        },
        match r {
            Err(ConformanceError::FloatText(double, digits)) => ({
                let k = colon_at(raw@);
                &&& double == (crate::strutil::upper_key(trim_spec(raw@.take(k)))
                    == crate::strutil::upper_key("lreal"@))
                &&& digits@ == trim_spec(raw@.skip(k + 1)).filter(|c: char| c != '_')
            }),
            _ => true,
        },
{
    let rc = crate::strutil::chars_of(raw);
    let k = find_colon(&rc);
    let n = rc.len();
    if k == n {
        return Err(ConformanceError::BadTypedValue(raw.to_owned()));
    }
    let mut kind_part: Vec<char> = Vec::new();
    let mut i: usize = 0;
    while i < k
        invariant
            k <= n == rc@.len(),
            rc@ == raw@,
            i <= k,
            kind_part@ == raw@.take(k as int).take(i as int),
        decreases k - i,
    {
        kind_part.push(rc[i]);
        i = i + 1;
        proof {
            assert(kind_part@ =~= raw@.take(k as int).take(i as int));
        }
    }
    proof {
        assert(raw@.take(k as int).take(k as int) =~= raw@.take(k as int));
    }
    let mut payload_part: Vec<char> = Vec::new();
    let mut i: usize = k + 1;
    while i < n
        invariant
            k < i <= n || (k + 1 > n && i == k + 1),
            n == rc@.len(),
            rc@ == raw@,
            k < n,
            i <= n,
            payload_part@ == raw@.skip(k + 1).take(i - k - 1),
        decreases n - i,
    {
        payload_part.push(rc[i]);
        i = i + 1;
        proof {
            assert(payload_part@ =~= raw@.skip(k + 1).take(i - k - 1));
        }
    }
    proof {
        assert(raw@.skip(k + 1).take(n - k - 1) =~= raw@.skip(k + 1));
    }
    let kind_trim = crate::strutil::trim_chars(&kind_part);
    let kind_key = crate::strutil::upper_key_of(&kind_trim);
    let payload = crate::strutil::trim_chars(&payload_part);
    let ghost payload_spec = trim_spec(raw@.skip(k + 1));
    let pn = payload.len();
    let mut digits: Vec<char> = Vec::new();
    let mut i: usize = 0;
    while i < pn
        invariant
            pn == payload@.len(),
            payload@ == payload_spec,
            i <= pn,
            digits@ == payload_spec.take(i as int).filter(|c: char| c != '_'),
        decreases pn - i,
    {
        let c = payload[i];
        proof {
            reveal_with_fuel(Seq::<_>::filter, 2);
            assert(payload_spec.take(i + 1).drop_last() =~= payload_spec.take(i as int));
        }
        if c != '_' {
            digits.push(c);
        }
        i = i + 1;
    }
    proof {
        assert(payload_spec.take(pn as int) =~= payload_spec);
    }
    if eq_key_lit(&kind_key, "bool") {
        let mut ps = String::new();
        let pl = payload.len();
        let mut j: usize = 0;
        while j < pl
            invariant
                pl == payload@.len(),
                j <= pl,
                ps@ == payload@.take(j as int),
            decreases pl - j,
        {
            let piece = crate::strutil::char_string(payload[j]);
            ps.append(piece.as_str());
            j = j + 1;
            proof {
                assert(ps@ =~= payload@.take(j as int));
            }
        }
        proof {
            assert(payload@.take(pl as int) =~= payload@);
            crate::strutil::lemma_trim_idempotent(raw@.skip(k + 1));
        }
        match parse_bool(ps.as_str()) {
            Ok(b) => Ok(Value::Bool(b)),
            Err(_) => Err(ConformanceError::BadBool(raw.to_owned())),
        }
    } else if eq_key_lit(&kind_key, "sint") {
        match parse_int_kind(&digits, -128, 127) {
            Some(v) => Ok(Value::SInt(v as i8)),
            None => Err(ConformanceError::BadNumber(raw.to_owned())),
        }
    } else if eq_key_lit(&kind_key, "int") {
        match parse_int_kind(&digits, -32768, 32767) {
            Some(v) => Ok(Value::Int(v as i16)),
            None => Err(ConformanceError::BadNumber(raw.to_owned())),
        }
    } else if eq_key_lit(&kind_key, "dint") {
        match parse_int_kind(&digits, -0x80000000, 0x7fffffff) {
            Some(v) => Ok(Value::DInt(v as i32)),
            None => Err(ConformanceError::BadNumber(raw.to_owned())),
        }
    } else if eq_key_lit(&kind_key, "lint") {
        match parse_int_kind(&digits, i64::MIN, i64::MAX) {
            Some(v) => Ok(Value::LInt(v)),
            None => Err(ConformanceError::BadNumber(raw.to_owned())),
        }
    } else if eq_key_lit(&kind_key, "usint") {
        match parse_uint_kind(&digits, 255) {
            Some(v) => Ok(Value::USInt(v as u8)),
            None => Err(ConformanceError::BadNumber(raw.to_owned())),
        }
    } else if eq_key_lit(&kind_key, "uint") {
        match parse_uint_kind(&digits, 65535) {
            Some(v) => Ok(Value::UInt(v as u16)),
            None => Err(ConformanceError::BadNumber(raw.to_owned())),
        }
    } else if eq_key_lit(&kind_key, "udint") {
        match parse_uint_kind(&digits, 0xffffffff) {
            Some(v) => Ok(Value::UDInt(v as u32)),
            None => Err(ConformanceError::BadNumber(raw.to_owned())),
        }
    } else if eq_key_lit(&kind_key, "ulint") {
        match parse_uint_kind(&digits, u64::MAX) {
            Some(v) => Ok(Value::ULInt(v)),
            None => Err(ConformanceError::BadNumber(raw.to_owned())),
        }
    } else if eq_key_lit(&kind_key, "byte") {
        match parse_uint_kind(&digits, 255) {
            Some(v) => Ok(Value::Byte(v as u8)),
            None => Err(ConformanceError::BadNumber(raw.to_owned())),
        }
    } else if eq_key_lit(&kind_key, "word") {
        match parse_uint_kind(&digits, 65535) {
            Some(v) => Ok(Value::Word(v as u16)),
            None => Err(ConformanceError::BadNumber(raw.to_owned())),
        }
    } else if eq_key_lit(&kind_key, "dword") {
        match parse_uint_kind(&digits, 0xffffffff) {
            Some(v) => Ok(Value::DWord(v as u32)),
            None => Err(ConformanceError::BadNumber(raw.to_owned())),
        }
    } else if eq_key_lit(&kind_key, "lword") {
        match parse_uint_kind(&digits, u64::MAX) {
            Some(v) => Ok(Value::LWord(v)),
            None => Err(ConformanceError::BadNumber(raw.to_owned())),
        }
    } else if eq_key_lit(&kind_key, "time") {
        match parse_dur_nanos(digits) {
            Some(nanos) => Ok(Value::Time(Duration { nanos })),
            None => Err(ConformanceError::BadNumber(raw.to_owned())),
        }
    } else if eq_key_lit(&kind_key, "ltime") {
        match parse_dur_nanos(digits) {
            Some(nanos) => Ok(Value::LTime(Duration { nanos })),
            None => Err(ConformanceError::BadNumber(raw.to_owned())),
        }
    } else if eq_key_lit(&kind_key, "string") {
        let mut ps = String::new();
        let pl = payload.len();
        let mut j: usize = 0;
        while j < pl
            invariant
                pl == payload@.len(),
                j <= pl,
                ps@ == payload@.take(j as int),
            decreases pl - j,
        {
            let piece = crate::strutil::char_string(payload[j]);
            ps.append(piece.as_str());
            j = j + 1;
            proof {
                assert(ps@ =~= payload@.take(j as int));
            }
        }
        proof {
            assert(payload@.take(pl as int) =~= payload@);
        }
        Ok(Value::String(ps))
    } else if eq_key_lit(&kind_key, "real") || eq_key_lit(&kind_key, "lreal") {
        let double = eq_key_lit(&kind_key, "lreal");
        let mut ds = String::new();
        let dl = digits.len();
        let mut j: usize = 0;
        while j < dl
            invariant
                dl == digits@.len(),
                j <= dl,
                ds@ == digits@.take(j as int),
            decreases dl - j,
        {
            let piece = crate::strutil::char_string(digits[j]);
            ds.append(piece.as_str());
            j = j + 1;
            proof {
                assert(ds@ =~= digits@.take(j as int));
            }
        }
        proof {
            assert(digits@.take(dl as int) =~= digits@);
        }
        Err(ConformanceError::FloatText(double, ds))
    } else {
        Err(ConformanceError::UnsupportedKind(raw.to_owned()))
    }
}

/// Truncated division, as machine division computes it.
pub open spec fn div_trunc(a: int, b: int) -> int {
    if a >= 0 {
        a / b
    } else {
        -((-a) / b)
    }
}

/// Civil date of a day count since the Unix epoch, by era arithmetic.
pub open spec fn civil_of(days: int) -> (int, int, int) {
    let z = days + 719468;
    let era = div_trunc(
        if z >= 0 {
            z
        } else {
            z - 146096
        },
        146097,
    );
    let doe = z - era * 146097;
    let yoe = (doe - doe / 1460 + doe / 36524 - doe / 146096) / 365;
    let y = yoe + era * 400;
    let doy = doe - (365 * yoe + yoe / 4 - yoe / 100);
    let mp = (5 * doy + 2) / 153;
    let day = doy - (153 * mp + 2) / 5 + 1;
    let month = mp + (if mp < 10 {
        3int
    } else {
        -9int
    });
    let year = y + (if month <= 2 {
        1int
    } else {
        0int
    });
    (year, month, day)
}

/// Converts a day count since the Unix epoch to year, month and day.
#[verifier::rlimit(100)]
pub fn civil_from_days(days_since_unix_epoch: i64) -> (r: (i64, i64, i64))
    requires
        -365000000 <= days_since_unix_epoch <= 365000000,
    ensures
        (r.0 as int, r.1 as int, r.2 as int) == civil_of(days_since_unix_epoch as int),
{
    let z: i64 = days_since_unix_epoch + 719468;
    let shifted: i64 = if z >= 0 {
        z
    } else {
        z - 146096
    };
    let era: i64 = shifted / 146097;
    let doe: i64 = z - era * 146097;
    let yoe: i64 = (doe - doe / 1460 + doe / 36524 - doe / 146096) / 365;
    let y: i64 = yoe + era * 400;
    let doy: i64 = doe - (365 * yoe + yoe / 4 - yoe / 100);
    let mp: i64 = (5 * doy + 2) / 153;
    let day: i64 = doy - (153 * mp + 2) / 5 + 1;
    let month: i64 = mp + (if mp < 10 {
        3
    } else {
        -9
    });
    let year: i64 = y + (if month <= 2 {
        1
    } else {
        0
    });
    (year, month, day)
}

/// Year, month, day, hour, minute and second of a Unix timestamp.
pub open spec fn utc_split(secs: int) -> (int, int, int, int, int, int) {
    let days = secs / 86400;
    let in_day = secs % 86400;
    let (year, month, day) = civil_of(days);
    (year, month, day, in_day / 3600, (in_day % 3600) / 60, in_day % 60)
}

/// Splits a Unix timestamp into calendar and clock parts.
pub fn split_unix_utc(unix_secs: i64) -> (r: (i64, i64, i64, i64, i64, i64))
    requires
        -9000000000000 <= unix_secs <= 9000000000000,
    ensures
        (r.0 as int, r.1 as int, r.2 as int, r.3 as int, r.4 as int, r.5 as int) == utc_split(
            unix_secs as int,
        ),
{
    let days: i64 = match unix_secs.checked_div_euclid(86400) {
        Some(d) => d,
        None => 0,
    };
    let in_day: i64 = match unix_secs.checked_rem_euclid(86400) {
        Some(m) => m,
        None => 0,
    };
    let (year, month, day) = civil_from_days(days);
    let hour: i64 = in_day / 3600;
    let minute: i64 = (in_day % 3600) / 60;
    let second: i64 = in_day % 60;
    (year, month, day, hour, minute, second)
}

/// One scheduled restart of a case.
pub struct RestartDirective {
    pub before_cycle: u32,
    pub mode: String,
}

/// Checks the manifest's series lengths: a non-empty `advance_ms`
/// series and every input series must hold exactly `cycles` entries,
/// and every restart must fall within `1..=cycles`.
pub fn validate_series_lengths(
    advance_ms_len: usize,
    input_series: &Vec<(String, Vec<String>)>,
    direct_input_series: &Vec<(String, Vec<String>)>,
    restarts: &Vec<RestartDirective>,
    cycles: u32,
) -> (r: Result<(), ConformanceError>)
    ensures
        r is Ok <==> ((advance_ms_len == 0 || advance_ms_len == cycles) && (forall|i: int|
            0 <= i < input_series@.len() ==> (#[trigger] input_series@[i]).1@.len() == cycles) && (
        forall|i: int|
            0 <= i < direct_input_series@.len() ==> (#[trigger] direct_input_series@[i]).1@.len()
                == cycles) && (forall|i: int|
            0 <= i < restarts@.len() ==> 1 <= (#[trigger] restarts@[i]).before_cycle <= cycles)),
        r is Err ==> r->Err_0.kind() == ConformanceErrorKind::SeriesLength
            || r->Err_0.kind() == ConformanceErrorKind::RestartOutOfRange,
{
    if advance_ms_len != 0 && advance_ms_len != cycles as usize {
        return Err(ConformanceError::SeriesLength(String::from_str("advance_ms")));
    }
    let n = input_series.len();
    let mut i: usize = 0;
    while i < n
        invariant
            n == input_series@.len(),
            i <= n,
            forall|j: int|
                0 <= j < i ==> (#[trigger] input_series@[j]).1@.len() == cycles,
        decreases n - i,
    {
        if input_series[i].1.len() != cycles as usize {
            return Err(ConformanceError::SeriesLength(input_series[i].0.clone()));
        }
        i = i + 1;
    }
    let n = direct_input_series.len();
    let mut i: usize = 0;
    while i < n
        invariant
            n == direct_input_series@.len(),
            i <= n,
            forall|j: int|
                0 <= j < i ==> (#[trigger] direct_input_series@[j]).1@.len() == cycles,
        decreases n - i,
    {
        if direct_input_series[i].1.len() != cycles as usize {
            return Err(ConformanceError::SeriesLength(direct_input_series[i].0.clone()));
        }
        i = i + 1;
    }
    let n = restarts.len();
    let mut i: usize = 0;
    while i < n
        invariant
            n == restarts@.len(),
            i <= n,
            forall|j: int|
                0 <= j < i ==> 1 <= (#[trigger] restarts@[j]).before_cycle <= cycles,
        decreases n - i,
    {
        let before = restarts[i].before_cycle;
        if before == 0 || before > cycles {
            return Err(ConformanceError::RestartOutOfRange(before));
        }
        i = i + 1;
    }
    Ok(())
}

/// Restart modes scheduled before the given cycle, in directive order.
pub open spec fn restarts_before_spec(restarts: Seq<RestartDirective>, cycle_number: u32) -> Result<
    Seq<RestartMode>,
    ConformanceErrorKind,
>
    decreases restarts.len(),
{
    if restarts.len() == 0 {
        Ok(Seq::empty())
    } else {
        match restarts_before_spec(restarts.drop_last(), cycle_number) {
            Err(k) => Err(k),
            Ok(rest) => if restarts.last().before_cycle == cycle_number {
                match restart_mode_of(restarts.last().mode@) {
                    Some(m) => Ok(rest.push(m)),
                    None => Err(ConformanceErrorKind::BadRestartMode),
                }
            } else {
                Ok(rest)
            },
        }
    }
}

/// The restarts a cycle applies: every directive scheduled before this
/// cycle number, parsed, in order.
pub fn restarts_before(restarts: &Vec<RestartDirective>, cycle_number: u32) -> (r: Result<
    Vec<RestartMode>,
    ConformanceError,
>)
    ensures
        match r {
            Ok(modes) => restarts_before_spec(restarts@, cycle_number) == Ok::<
                Seq<RestartMode>,
                ConformanceErrorKind,
            >(modes@),
            Err(e) => restarts_before_spec(restarts@, cycle_number) == Err::<
                Seq<RestartMode>,
                ConformanceErrorKind,
            >(e.kind()),
        },
{
    let n = restarts.len();
    let mut modes: Vec<RestartMode> = Vec::new();
    let mut i: usize = 0;
    while i < n
        invariant
            n == restarts@.len(),
            i <= n,
            restarts_before_spec(restarts@.take(i as int), cycle_number) == Ok::<
                Seq<RestartMode>,
                ConformanceErrorKind,
            >(modes@),
        decreases n - i,
    {
        let entry = &restarts[i];
        proof {
            assert(restarts@.take(i + 1).drop_last() =~= restarts@.take(i as int));
            assert(restarts@.take(i + 1).last() == restarts@[i as int]);
        }
        if entry.before_cycle == cycle_number {
            match parse_restart_mode(entry.mode.as_str()) {
                Ok(mode) => {
                    modes.push(mode);
                },
                Err(e) => {
                    proof {
                        lemma_restarts_err_sticks(restarts@, i + 1, cycle_number, e.kind());
                    }
                    return Err(e);
                },
            }
        }
        i = i + 1;
    }
    proof {
        assert(restarts@.take(n as int) =~= restarts@);
    }
    Ok(modes)
}

proof fn lemma_restarts_err_sticks(
    restarts: Seq<RestartDirective>,
    i: int,
    cycle_number: u32,
    k: ConformanceErrorKind,
)
    requires
        0 <= i <= restarts.len(),
        restarts_before_spec(restarts.take(i), cycle_number) == Err::<
            Seq<RestartMode>,
            ConformanceErrorKind,
        >(k),
    ensures
        restarts_before_spec(restarts, cycle_number) == Err::<
            Seq<RestartMode>,
            ConformanceErrorKind,
        >(k),
    decreases restarts.len() - i,
{
    if i < restarts.len() {
        assert(restarts.take(i + 1).drop_last() =~= restarts.take(i));
        lemma_restarts_err_sticks(restarts, i + 1, cycle_number, k);
    } else {
        assert(restarts.take(i) =~= restarts);
    }
}

/// What a series entry asks of the cycle: nothing for the skip
/// sentinel, else the typed value it names.
pub fn step_value(raw: &str) -> (r: Result<Option<Value>, ConformanceError>)
    ensures
        match r {
            Ok(opt) => match opt {
                None => skip_value(raw@),
                Some(v) => !skip_value(raw@) && typed_value_of(raw@) == Ok::<
                    crate::value::ValueModel,
                    ConformanceErrorKind,
                >(crate::value::model(v)),
            },
            Err(e) => !skip_value(raw@) && typed_value_of(raw@) == Err::<
                crate::value::ValueModel,
                ConformanceErrorKind,
            >(e.kind()),
        },
{
    if should_skip_step_value(raw) {
        return Ok(None);
    }
    match parse_typed_value(raw) {
        Ok(v) => Ok(Some(v)),
        Err(e) => Err(e),
    }
}

/// Views of restart directives: schedule and mode text.
pub open spec fn directive_views(restarts: Seq<RestartDirective>) -> Seq<(u32, Seq<char>)> {
    restarts.map_values(|r: RestartDirective| (r.before_cycle, r.mode@))
}

/// The restarts a cycle applies are a function of the manifest's
/// directives and the cycle number alone: two manifests whose
/// directives read the same schedule the same restarts for every
/// cycle. What a cycle does beyond that is the executor's part, which
/// consumes these decisions.
pub proof fn lemma_cycle_restarts_deterministic(
    a: Seq<RestartDirective>,
    b: Seq<RestartDirective>,
    cycle_number: u32,
)
    requires
        directive_views(a) == directive_views(b),
    ensures
        restarts_before_spec(a, cycle_number) == restarts_before_spec(b, cycle_number),
    decreases a.len(),
{
    assert(directive_views(a).len() == a.len());
    assert(directive_views(b).len() == b.len());
    if a.len() > 0 {
        assert(directive_views(a.drop_last()) =~= directive_views(b.drop_last())) by {
            assert forall|j: int| 0 <= j < a.len() - 1 implies directive_views(a.drop_last())[j]
                == directive_views(b.drop_last())[j] by {
                assert(directive_views(a.drop_last())[j] == (
                    a.drop_last()[j].before_cycle,
                    a.drop_last()[j].mode@,
                ));
                assert(directive_views(b.drop_last())[j] == (
                    b.drop_last()[j].before_cycle,
                    b.drop_last()[j].mode@,
                ));
                assert(directive_views(a)[j] == directive_views(b)[j]);
            }
        }
        lemma_cycle_restarts_deterministic(a.drop_last(), b.drop_last(), cycle_number);
        assert(directive_views(a)[a.len() - 1] == directive_views(b)[b.len() - 1]);
        assert(a.last().before_cycle == b.last().before_cycle);
        assert(a.last().mode@ == b.last().mode@);
    }
}

/// The reason code a case outcome carries, when it carries one.
#[derive(Debug, Clone, Copy, PartialEq, Eq, Structural)]
pub enum CaseReasonCode {
    CaseExecutionError,
    ExpectedWriteError,
    ExpectedMissing,
    ExpectedReadError,
    ExpectedMismatch,
}

impl CaseReasonCode {
    /// The summary word for this reason code.
    pub fn as_str(self) -> (r: &'static str)
        ensures
            match self {
                CaseReasonCode::CaseExecutionError => r@ == "case_execution_error"@,
                CaseReasonCode::ExpectedWriteError => r@ == "expected_write_error"@,
                CaseReasonCode::ExpectedMissing => r@ == "expected_missing"@,
                CaseReasonCode::ExpectedReadError => r@ == "expected_read_error"@,
                CaseReasonCode::ExpectedMismatch => r@ == "expected_mismatch"@,
            },
    {
        match self {
            CaseReasonCode::CaseExecutionError => "case_execution_error",
            CaseReasonCode::ExpectedWriteError => "expected_write_error",
            CaseReasonCode::ExpectedMissing => "expected_missing",
            CaseReasonCode::ExpectedReadError => "expected_read_error",
            CaseReasonCode::ExpectedMismatch => "expected_mismatch",
        }
    }
}

/// What the runner observed of one case, after execution and the
/// expected-artifact handling.
#[derive(Debug, Clone, Copy, PartialEq, Eq, Structural)]
pub struct CaseObservation {
    pub executed: bool,
    pub update_expected: bool,
    pub expected_written: bool,
    pub expected_present: bool,
    pub expected_readable: bool,
    pub matches_expected: bool,
}

/// The status and reason a case observation yields: an execution
/// failure is an error; updating writes the expected artifact and
/// passes unless the write failed; otherwise a missing or unreadable
/// expected artifact is an error, a mismatch fails, and agreement
/// passes.
pub open spec fn case_outcome_of(o: CaseObservation) -> (CaseStatus, Option<CaseReasonCode>) {
    if !o.executed {
        (CaseStatus::Error, Some(CaseReasonCode::CaseExecutionError))
    } else if o.update_expected {
        if o.expected_written {
            (CaseStatus::Passed, None)
        } else {
            (CaseStatus::Error, Some(CaseReasonCode::ExpectedWriteError))
        }
    } else if !o.expected_present {
        (CaseStatus::Error, Some(CaseReasonCode::ExpectedMissing))
    } else if !o.expected_readable {
        (CaseStatus::Error, Some(CaseReasonCode::ExpectedReadError))
    } else if o.matches_expected {
        (CaseStatus::Passed, None)
    } else {
        (CaseStatus::Failed, Some(CaseReasonCode::ExpectedMismatch))
    }
}

/// Decides a case's status and reason code.
pub fn case_outcome(o: CaseObservation) -> (r: (CaseStatus, Option<CaseReasonCode>))
    ensures
        r == case_outcome_of(o),
{
    if !o.executed {
        (CaseStatus::Error, Some(CaseReasonCode::CaseExecutionError))
    } else if o.update_expected {
        if o.expected_written {
            (CaseStatus::Passed, None)
        } else {
            (CaseStatus::Error, Some(CaseReasonCode::ExpectedWriteError))
        }
    } else if !o.expected_present {
        (CaseStatus::Error, Some(CaseReasonCode::ExpectedMissing))
    } else if !o.expected_readable {
        (CaseStatus::Error, Some(CaseReasonCode::ExpectedReadError))
    } else if o.matches_expected {
        (CaseStatus::Passed, None)
    } else {
        (CaseStatus::Failed, Some(CaseReasonCode::ExpectedMismatch))
    }
}

/// How many of the statuses equal `status`.
pub open spec fn status_count(statuses: Seq<CaseStatus>, status: CaseStatus) -> int {
    statuses.filter(|s: CaseStatus| s == status).len() as int
}

/// The summary totals of a run.
#[derive(Debug, Clone, Copy, PartialEq, Eq, Structural)]
pub struct SummaryTotals {
    pub total: usize,
    pub passed: usize,
    pub failed: usize,
    pub errors: usize,
    pub skipped: usize,
}

/// Tallies case statuses into the summary totals.
pub fn tally_statuses(statuses: &Vec<CaseStatus>) -> (r: SummaryTotals)
    ensures
        r.total == statuses@.len(),
        r.passed as int == status_count(statuses@, CaseStatus::Passed),
        r.failed as int == status_count(statuses@, CaseStatus::Failed),
        r.errors as int == status_count(statuses@, CaseStatus::Error),
        r.skipped as int == status_count(statuses@, CaseStatus::Skipped),
{
    let n = statuses.len();
    let mut passed: usize = 0;
    let mut failed: usize = 0;
    let mut errors: usize = 0;
    let mut skipped: usize = 0;
    let mut i: usize = 0;
    while i < n
        invariant
            n == statuses@.len(),
            i <= n,
            passed as int == status_count(statuses@.take(i as int), CaseStatus::Passed),
            failed as int == status_count(statuses@.take(i as int), CaseStatus::Failed),
            errors as int == status_count(statuses@.take(i as int), CaseStatus::Error),
            skipped as int == status_count(statuses@.take(i as int), CaseStatus::Skipped),
            passed + failed + errors + skipped <= i,
        decreases n - i,
    {
        proof {
            reveal_with_fuel(Seq::<_>::filter, 2);
            assert(statuses@.take(i + 1).drop_last() =~= statuses@.take(i as int));
            assert(statuses@.take(i + 1).last() == statuses@[i as int]);
        }
        match statuses[i] {
            CaseStatus::Passed => {
                passed = passed + 1;
            },
            CaseStatus::Failed => {
                failed = failed + 1;
            },
            CaseStatus::Error => {
                errors = errors + 1;
            },
            CaseStatus::Skipped => {
                skipped = skipped + 1;
            },
        }
        i = i + 1;
    }
    proof {
        assert(statuses@.take(n as int) =~= statuses@);
    }
    SummaryTotals { total: n, passed, failed, errors, skipped }
}

/// True when the case identifiers appear in ascending order: the
/// summary's `case_id_asc` ordering.
pub open spec fn ids_ascending(ids: Seq<Seq<char>>) -> bool {
    forall|i: int, j: int| 0 <= i < j < ids.len() ==> lex_le(#[trigger] ids[i], #[trigger] ids[j])
}

/// Decides whether case identifiers already stand in summary order.
pub fn check_ids_ascending(ids: &Vec<String>) -> (r: bool)
    ensures
        r == ids_ascending(ids@.map_values(|s: String| s@)),
{
    let ghost iv = ids@.map_values(|s: String| s@);
    let n = ids.len();
    if n == 0 {
        return true;
    }
    let mut i: usize = 1;
    while i < n
        invariant
            n == ids@.len(),
            iv == ids@.map_values(|s: String| s@),
            1 <= i <= n,
            forall|j: int| 0 <= j < i - 1 ==> lex_le(#[trigger] iv[j], iv[j + 1]),
        decreases n - i,
    {
        let a = crate::strutil::chars_of(ids[i - 1].as_str());
        let b = crate::strutil::chars_of(ids[i].as_str());
        if !crate::strutil::le_chars(&a, &b) {
            proof {
                assert(!lex_le(iv[i - 1], iv[i as int]));
            }
            return false;
        }
        i = i + 1;
    }
    proof {
        crate::strutil::lemma_lex_le_adjacent_sorted(iv);
    }
    true
}

/// Errors of case discovery.
#[derive(Debug)]
pub enum DiscoveryError {
    IdMismatch(String, String),
    CategoryMismatch(String, String),
    BadCaseId(String),
}

/// Checks one discovered case directory: the manifest's id must equal
/// the directory's name, its category the directory's category, and
/// the id must fit the naming rules.
pub fn validate_case_entry(
    dir_name: &str,
    manifest_id: &str,
    manifest_category: &str,
    category: &str,
) -> (r: Result<(), DiscoveryError>)
    ensures
        r is Ok <==> (manifest_id@ == dir_name@ && manifest_category@ == category@
            && valid_case_id(manifest_id@, category@)),
{
    let idc = crate::strutil::chars_of(manifest_id);
    let dc = crate::strutil::chars_of(dir_name);
    if !crate::strutil::eq_chars(&idc, &dc) {
        return Err(DiscoveryError::IdMismatch(manifest_id.to_owned(), dir_name.to_owned()));
    }
    let mc = crate::strutil::chars_of(manifest_category);
    let cc = crate::strutil::chars_of(category);
    if !crate::strutil::eq_chars(&mc, &cc) {
        return Err(
            DiscoveryError::CategoryMismatch(manifest_category.to_owned(), category.to_owned()),
        );
    }
    if !is_valid_case_id(manifest_id, category) {
        return Err(DiscoveryError::BadCaseId(manifest_id.to_owned()));
    }
    Ok(())
}

fn eq_key_lit(key: &Vec<u32>, lit: &str) -> (r: bool)
    ensures
        r == (key@ == crate::strutil::upper_key(lit@)),
{
    let lc = crate::strutil::chars_of(lit);
    let lk = crate::strutil::upper_key_of(&lc);
    crate::strutil::eq_keys(key, &lk)
}

} // verus!

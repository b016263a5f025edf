//! OPC UA interoperability profile: security policies and modes with
//! their configuration aliases, profile validation, the IEC value
//! mapping, and the wire-server surface. The wire transport itself is
//! an outside concern and is reported as unavailable here.

use vstd::prelude::*;

use crate::strutil::{norm_key, trim_spec};
use crate::value::Value;

verus! {

/// Supported security policies.
#[derive(Debug, Clone, Copy, PartialEq, Eq, Structural)]
pub enum OpcUaSecurityPolicy {
    NoSecurity,
    Basic256Sha256,
    Aes128Sha256RsaOaep,
}

/// The policy an alias names: compared with case, `-` and `_` folded
/// away.
pub open spec fn parse_policy(s: Seq<char>) -> Option<OpcUaSecurityPolicy> {
    let k = norm_key(trim_spec(s));
    if k == norm_key("none"@) {
        Some(OpcUaSecurityPolicy::NoSecurity)
    } else if k == norm_key("basic256sha256"@) {
        Some(OpcUaSecurityPolicy::Basic256Sha256)
    } else if k == norm_key("aes128sha256rsaoaep"@) {
        Some(OpcUaSecurityPolicy::Aes128Sha256RsaOaep)
    } else {
        None
    }
}

impl OpcUaSecurityPolicy {
    /// Reads a policy alias.
    pub fn parse(text: &str) -> (r: Option<OpcUaSecurityPolicy>)
        ensures
            r == parse_policy(text@),
    {
        if crate::strutil::norm_matches(text, "none") {
            Some(OpcUaSecurityPolicy::NoSecurity)
        } else if crate::strutil::norm_matches(text, "basic256sha256") {
            Some(OpcUaSecurityPolicy::Basic256Sha256)
        } else if crate::strutil::norm_matches(text, "aes128sha256rsaoaep") {
            Some(OpcUaSecurityPolicy::Aes128Sha256RsaOaep)
        } else {
            None
        }
    }

    /// The configuration name of this policy.
    pub fn as_config_value(self) -> (r: &'static str)
        ensures
            match self {
                OpcUaSecurityPolicy::NoSecurity => r@ == "none"@,
                OpcUaSecurityPolicy::Basic256Sha256 => r@ == "basic256sha256"@,
                OpcUaSecurityPolicy::Aes128Sha256RsaOaep => r@ == "aes128sha256rsaoaep"@,
            },
    {
        match self {
            OpcUaSecurityPolicy::NoSecurity => "none",
            OpcUaSecurityPolicy::Basic256Sha256 => "basic256sha256",
            OpcUaSecurityPolicy::Aes128Sha256RsaOaep => "aes128sha256rsaoaep",
        }
    }
}

/// Supported message security modes.
#[derive(Debug, Clone, Copy, PartialEq, Eq, Structural)]
pub enum OpcUaMessageSecurityMode {
    NoSecurity,
    Sign,
    SignAndEncrypt,
}

/// The mode an alias names.
pub open spec fn parse_mode(s: Seq<char>) -> Option<OpcUaMessageSecurityMode> {
    let k = norm_key(trim_spec(s));
    if k == norm_key("none"@) {
        Some(OpcUaMessageSecurityMode::NoSecurity)
    } else if k == norm_key("sign"@) {
        Some(OpcUaMessageSecurityMode::Sign)
    } else if k == norm_key("signandencrypt"@) {
        Some(OpcUaMessageSecurityMode::SignAndEncrypt)
    } else {
        None
    }
}

impl OpcUaMessageSecurityMode {
    /// Reads a mode alias.
    pub fn parse(text: &str) -> (r: Option<OpcUaMessageSecurityMode>)
        ensures
            r == parse_mode(text@),
    {
        if crate::strutil::norm_matches(text, "none") {
            Some(OpcUaMessageSecurityMode::NoSecurity)
        } else if crate::strutil::norm_matches(text, "sign") {
            Some(OpcUaMessageSecurityMode::Sign)
        } else if crate::strutil::norm_matches(text, "signandencrypt") {
            Some(OpcUaMessageSecurityMode::SignAndEncrypt)
        } else {
            None
        }
    }

    /// The configuration name of this mode.
    pub fn as_config_value(self) -> (r: &'static str)
        ensures
            match self {
                OpcUaMessageSecurityMode::NoSecurity => r@ == "none"@,
                OpcUaMessageSecurityMode::Sign => r@ == "sign"@,
                OpcUaMessageSecurityMode::SignAndEncrypt => r@ == "sign_and_encrypt"@,
            },
    {
        match self {
            OpcUaMessageSecurityMode::NoSecurity => "none",
            OpcUaMessageSecurityMode::Sign => "sign",
            OpcUaMessageSecurityMode::SignAndEncrypt => "sign_and_encrypt",
        }
    }
}

/// A security profile: policy, mode, and whether anonymous sessions
/// are allowed.
#[derive(Debug, Clone, Copy, PartialEq, Eq, Structural)]
pub struct OpcUaSecurityProfile {
    pub policy: OpcUaSecurityPolicy,
    pub mode: OpcUaMessageSecurityMode,
    pub allow_anonymous: bool,
}

impl Default for OpcUaSecurityProfile {
    /// Signed and encrypted with Basic256Sha256, no anonymous access.
    fn default() -> (r: OpcUaSecurityProfile)
        ensures
            r.policy == OpcUaSecurityPolicy::Basic256Sha256,
            r.mode == OpcUaMessageSecurityMode::SignAndEncrypt,
            !r.allow_anonymous,
    {
        OpcUaSecurityProfile {
            policy: OpcUaSecurityPolicy::Basic256Sha256,
            mode: OpcUaMessageSecurityMode::SignAndEncrypt,
            allow_anonymous: false,
        }
    }
}

/// True for the policy-and-mode pairings the runtime can serve.
pub open spec fn profile_ok(p: OpcUaSecurityProfile) -> bool {
    match (p.policy, p.mode) {
        (OpcUaSecurityPolicy::NoSecurity, OpcUaMessageSecurityMode::NoSecurity) => true,
        (OpcUaSecurityPolicy::Basic256Sha256, OpcUaMessageSecurityMode::Sign) => true,
        (OpcUaSecurityPolicy::Basic256Sha256, OpcUaMessageSecurityMode::SignAndEncrypt) => true,
        (OpcUaSecurityPolicy::Aes128Sha256RsaOaep, OpcUaMessageSecurityMode::Sign) => true,
        (OpcUaSecurityPolicy::Aes128Sha256RsaOaep, OpcUaMessageSecurityMode::SignAndEncrypt) => true,
        _ => false,
    }
}

/// Errors of the OPC UA surface.
#[derive(Debug)]
pub enum OpcUaError {
    InvalidProfile,
    WireUnavailable,
    Disabled,
}

/// Rejects policy-and-mode pairings the runtime cannot serve.
pub fn validate_security_profile(profile: &OpcUaSecurityProfile) -> (r: Result<(), OpcUaError>)
    ensures
        r is Ok <==> profile_ok(*profile),
        r is Err ==> r->Err_0 == OpcUaError::InvalidProfile,
{
    let ok = match (profile.policy, profile.mode) {
        (OpcUaSecurityPolicy::NoSecurity, OpcUaMessageSecurityMode::NoSecurity) => true,
        (OpcUaSecurityPolicy::Basic256Sha256, OpcUaMessageSecurityMode::Sign) => true,
        (OpcUaSecurityPolicy::Basic256Sha256, OpcUaMessageSecurityMode::SignAndEncrypt) => true,
        (OpcUaSecurityPolicy::Aes128Sha256RsaOaep, OpcUaMessageSecurityMode::Sign) => true,
        (
            OpcUaSecurityPolicy::Aes128Sha256RsaOaep,
            OpcUaMessageSecurityMode::SignAndEncrypt,
        ) => true,
        _ => false,
    };
    if ok {
        Ok(())
    } else {
        Err(OpcUaError::InvalidProfile)
    }
}

/// The endpoint path a configuration names: empty means the root, and
/// anything else must start with a slash.
pub open spec fn endpoint_path_of(s: Seq<char>) -> Option<Seq<char>> {
    let t = trim_spec(s);
    if t.len() == 0 {
        Some("/"@)
    } else if t[0] == '/' {
        Some(t)
    } else {
        None
    }
}

/// Normalises the endpoint path, refusing one that does not start with
/// a slash.
pub fn normalize_endpoint_path(path: &str) -> (r: Result<String, OpcUaError>)
    ensures
        match r {
            Ok(p) => endpoint_path_of(path@) == Some(p@),
            Err(_) => endpoint_path_of(path@) is None,
        },
{
    let trimmed = crate::strutil::trim_str(path);
    let n = trimmed.as_str().unicode_len();
    if n == 0 {
        proof {
            reveal_strlit("/");
        }
        return Ok(String::from_str("/"));
    }
    if trimmed.as_str().get_char(0) == '/' {
        Ok(trimmed)
    } else {
        Err(OpcUaError::InvalidProfile)
    }
}

/// OPC UA scalar types the runtime exposes.
#[derive(Debug, Clone, Copy, PartialEq, Eq, Structural)]
pub enum OpcUaDataType {
    Boolean,
    Int16,
    Int32,
    Int64,
    UInt16,
    UInt32,
    UInt64,
    Float,
    Double,
    String,
}

/// A wire value; floats are bit patterns.
pub enum OpcUaVariant {
    Boolean(bool),
    Int16(i16),
    Int32(i32),
    Int64(i64),
    UInt16(u16),
    UInt32(u32),
    UInt64(u64),
    Float(u32),
    Double(u64),
    String(String),
}

/// Model of a wire value.
pub enum OvModel {
    Boolean(bool),
    Int16(i16),
    Int32(i32),
    Int64(i64),
    UInt16(u16),
    UInt32(u32),
    UInt64(u64),
    Float(u32),
    Double(u64),
    Text(Seq<char>),
}

/// The model of a wire value.
pub open spec fn ov_model(v: OpcUaVariant) -> OvModel {
    match v {
        OpcUaVariant::Boolean(b) => OvModel::Boolean(b),
        OpcUaVariant::Int16(x) => OvModel::Int16(x),
        OpcUaVariant::Int32(x) => OvModel::Int32(x),
        OpcUaVariant::Int64(x) => OvModel::Int64(x),
        OpcUaVariant::UInt16(x) => OvModel::UInt16(x),
        OpcUaVariant::UInt32(x) => OvModel::UInt32(x),
        OpcUaVariant::UInt64(x) => OvModel::UInt64(x),
        OpcUaVariant::Float(x) => OvModel::Float(x),
        OpcUaVariant::Double(x) => OvModel::Double(x),
        OpcUaVariant::String(s) => OvModel::Text(s@),
    }
}

/// A typed wire value.
pub struct OpcUaValue {
    pub data_type: OpcUaDataType,
    pub value: OpcUaVariant,
}

/// One exposed node.
pub struct OpcUaExposedNode {
    pub name: String,
    pub node_id: String,
    pub data_type: OpcUaDataType,
}

/// How a client authenticates.
pub enum OpcUaClientIdentity {
    Anonymous,
    UserName { username: String, password: String },
}

/// Client probe options.
#[derive(Debug, Clone, Copy, PartialEq, Eq, Structural)]
pub struct OpcUaClientOptions {
    pub trust_server_certificate: bool,
}

impl Default for OpcUaClientOptions {
    /// Trusts the server certificate, as the startup probe does.
    fn default() -> (r: OpcUaClientOptions)
        ensures
            r.trust_server_certificate,
    {
        OpcUaClientOptions { trust_server_certificate: true }
    }
}

/// Counters of a load-fixture run.
#[derive(Debug, Clone, Copy, PartialEq, Eq, Structural)]
pub struct OpcUaLoadReport {
    pub iterations: usize,
    pub browse_ok: usize,
    pub read_ok: usize,
    pub write_ok: usize,
    pub elapsed_ms: u128,
}

/// The wire mapping of a runtime value, if it maps: every IEC scalar
/// collapses onto an OPC UA scalar; composites, references, durations
/// and dates do not map.
pub open spec fn iec_wire_model(v: Value) -> Option<(OpcUaDataType, OvModel)> {
    match v {
        Value::Bool(b) => Some((OpcUaDataType::Boolean, OvModel::Boolean(b))),
        Value::Int(x) => Some((OpcUaDataType::Int16, OvModel::Int16(x))),
        Value::DInt(x) => Some((OpcUaDataType::Int32, OvModel::Int32(x))),
        Value::LInt(x) => Some((OpcUaDataType::Int64, OvModel::Int64(x))),
        Value::UInt(x) => Some((OpcUaDataType::UInt16, OvModel::UInt16(x))),
        Value::UDInt(x) => Some((OpcUaDataType::UInt32, OvModel::UInt32(x))),
        Value::ULInt(x) => Some((OpcUaDataType::UInt64, OvModel::UInt64(x))),
        Value::Real(x) => Some((OpcUaDataType::Float, OvModel::Float(x))),
        Value::LReal(x) => Some((OpcUaDataType::Double, OvModel::Double(x))),
        Value::String(s) => Some((OpcUaDataType::String, OvModel::Text(s@))),
        Value::WString(s) => Some((OpcUaDataType::String, OvModel::Text(s@))),
        Value::Char(c) => Some((OpcUaDataType::String, OvModel::Text(seq![c as char]))),
        Value::WChar(c) => if crate::strutil::valid_scalar(c as u32) {
            Some((OpcUaDataType::String, OvModel::Text(seq![(c as u32) as char])))
        } else {
            None
        },
        Value::SInt(x) => Some((OpcUaDataType::Int16, OvModel::Int16(x as i16))),
        Value::USInt(x) => Some((OpcUaDataType::UInt16, OvModel::UInt16(x as u16))),
        Value::Byte(x) => Some((OpcUaDataType::UInt16, OvModel::UInt16(x as u16))),
        Value::Word(x) => Some((OpcUaDataType::UInt16, OvModel::UInt16(x))),
        Value::DWord(x) => Some((OpcUaDataType::UInt32, OvModel::UInt32(x))),
        Value::LWord(x) => Some((OpcUaDataType::UInt64, OvModel::UInt64(x))),
        _ => None,
    }
}

/// Maps a runtime value to its OPC UA type and wire value.
pub fn map_iec_value(value: &Value) -> (r: Option<OpcUaValue>)
    ensures
        match r {
            Some(v) => iec_wire_model(*value) == Some((v.data_type, ov_model(v.value))),
            None => iec_wire_model(*value) is None,
        },
{
    match value {
        Value::Bool(b) => Some(
            OpcUaValue { data_type: OpcUaDataType::Boolean, value: OpcUaVariant::Boolean(*b) },
        ),
        Value::Int(x) => Some(
            OpcUaValue { data_type: OpcUaDataType::Int16, value: OpcUaVariant::Int16(*x) },
        ),
        Value::DInt(x) => Some(
            OpcUaValue { data_type: OpcUaDataType::Int32, value: OpcUaVariant::Int32(*x) },
        ),
        Value::LInt(x) => Some(
            OpcUaValue { data_type: OpcUaDataType::Int64, value: OpcUaVariant::Int64(*x) },
        ),
        Value::UInt(x) => Some(
            OpcUaValue { data_type: OpcUaDataType::UInt16, value: OpcUaVariant::UInt16(*x) },
        ),
        Value::UDInt(x) => Some(
            OpcUaValue { data_type: OpcUaDataType::UInt32, value: OpcUaVariant::UInt32(*x) },
        ),
        Value::ULInt(x) => Some(
            OpcUaValue { data_type: OpcUaDataType::UInt64, value: OpcUaVariant::UInt64(*x) },
        ),
        Value::Real(x) => Some(
            OpcUaValue { data_type: OpcUaDataType::Float, value: OpcUaVariant::Float(*x) },
        ),
        Value::LReal(x) => Some(
            OpcUaValue { data_type: OpcUaDataType::Double, value: OpcUaVariant::Double(*x) },
        ),
        Value::String(s) => Some(
            OpcUaValue { data_type: OpcUaDataType::String, value: OpcUaVariant::String(s.clone()) },
        ),
        Value::WString(s) => Some(
            OpcUaValue { data_type: OpcUaDataType::String, value: OpcUaVariant::String(s.clone()) },
        ),
        Value::Char(c) => Some(
            OpcUaValue {
                data_type: OpcUaDataType::String,
                value: OpcUaVariant::String(crate::strutil::char_string(*c as char)),
            },
        ),
        Value::WChar(c) => match crate::strutil::char_of_u32(*c as u32) {
            Some(ch) => Some(
                OpcUaValue {
                    data_type: OpcUaDataType::String,
                    value: OpcUaVariant::String(crate::strutil::char_string(ch)),
                },
            ),
            None => None,
        },
        Value::SInt(x) => Some(
            OpcUaValue { data_type: OpcUaDataType::Int16, value: OpcUaVariant::Int16(*x as i16) },
        ),
        Value::USInt(x) => Some(
            OpcUaValue {
                data_type: OpcUaDataType::UInt16,
                value: OpcUaVariant::UInt16(*x as u16),
            },
        ),
        Value::Byte(x) => Some(
            OpcUaValue {
                data_type: OpcUaDataType::UInt16,
                value: OpcUaVariant::UInt16(*x as u16),
            },
        ),
        Value::Word(x) => Some(
            OpcUaValue { data_type: OpcUaDataType::UInt16, value: OpcUaVariant::UInt16(*x) },
        ),
        Value::DWord(x) => Some(
            OpcUaValue { data_type: OpcUaDataType::UInt32, value: OpcUaVariant::UInt32(*x) },
        ),
        Value::LWord(x) => Some(
            OpcUaValue { data_type: OpcUaDataType::UInt64, value: OpcUaVariant::UInt64(*x) },
        ),
        _ => None,
    }
}

/// Runtime OPC UA configuration.
pub struct OpcUaRuntimeConfig {
    pub enabled: bool,
    pub listen: String,
    pub endpoint_path: String,
    pub namespace_uri: String,
    pub publish_interval_ms: u64,
    pub max_nodes: usize,
    pub expose: Vec<String>,
    pub security: OpcUaSecurityProfile,
    pub username: Option<String>,
    pub password: Option<String>,
}

impl Default for OpcUaRuntimeConfig {
    /// Disabled, listening on every interface at the standard port,
    /// with the secure default profile.
    fn default() -> (r: OpcUaRuntimeConfig)
        ensures
            !r.enabled,
            r.listen@ == "0.0.0.0:4840"@,
            r.endpoint_path@ == "/"@,
            r.namespace_uri@ == "urn:trust:runtime"@,
            r.publish_interval_ms == 250,
            r.max_nodes == 128,
            r.expose@.len() == 0,
            r.security.policy == OpcUaSecurityPolicy::Basic256Sha256,
            r.security.mode == OpcUaMessageSecurityMode::SignAndEncrypt,
            !r.security.allow_anonymous,
            r.username is None,
            r.password is None,
    {
        OpcUaRuntimeConfig {
            enabled: false,
            listen: String::from_str("0.0.0.0:4840"),
            endpoint_path: String::from_str("/"),
            namespace_uri: String::from_str("urn:trust:runtime"),
            publish_interval_ms: 250,
            max_nodes: 128,
            expose: Vec::new(),
            security: OpcUaSecurityProfile {
                policy: OpcUaSecurityPolicy::Basic256Sha256,
                mode: OpcUaMessageSecurityMode::SignAndEncrypt,
                allow_anonymous: false,
            },
            username: None,
            password: None,
        }
    }
}

/// The error every wire operation reports in a build without the wire
/// transport.
pub fn opcua_wire_feature_error() -> (r: OpcUaError)
    ensures
        r == OpcUaError::WireUnavailable,
{
    OpcUaError::WireUnavailable
}

/// Handle of a started wire server: its endpoint, profile, and nodes.
/// Without the wire transport no server ever starts, so every probe
/// reports the transport unavailable.
pub struct OpcUaWireServer {
    pub endpoint: String,
    pub security: OpcUaSecurityProfile,
    pub nodes: Vec<OpcUaExposedNode>,
}

impl OpcUaWireServer {
    /// The endpoint URL clients connect to.
    pub fn endpoint_url(&self) -> (r: &str)
        ensures
            r@ == self.endpoint@,
    {
        self.endpoint.as_str()
    }

    /// The security profile served.
    pub fn security_profile(&self) -> (r: OpcUaSecurityProfile)
        ensures
            r == self.security,
    {
        self.security
    }

    /// The exposed nodes.
    pub fn exposed_nodes(&self) -> (r: &Vec<OpcUaExposedNode>)
        ensures
            r == &self.nodes,
    {
        &self.nodes
    }

    /// Stops the server; nothing runs here without the wire transport.
    pub fn stop(&mut self)
        ensures
            *final(self) == *old(self),
    {
    }

    /// Reads one node as a client would; the wire transport is not
    /// available here.
    pub fn probe_read(&self, node_name: &str, identity: &OpcUaClientIdentity) -> (r: Result<
        OpcUaVariant,
        OpcUaError,
    >)
        ensures
            r is Err && r->Err_0 == OpcUaError::WireUnavailable,
    {
        let _ = node_name;
        let _ = identity;
        Err(opcua_wire_feature_error())
    }

    /// Like [`OpcUaWireServer::probe_read`], with explicit options.
    pub fn probe_read_with_options(
        &self,
        node_name: &str,
        identity: &OpcUaClientIdentity,
        options: OpcUaClientOptions,
    ) -> (r: Result<OpcUaVariant, OpcUaError>)
        ensures
            r is Err && r->Err_0 == OpcUaError::WireUnavailable,
    {
        let _ = node_name;
        let _ = identity;
        let _ = options;
        Err(opcua_wire_feature_error())
    }

    /// Runs the browse-read-write fixture; the wire transport is not
    /// available here.
    pub fn run_load_fixture(
        &self,
        node_name: &str,
        iterations: usize,
        identity: &OpcUaClientIdentity,
        options: OpcUaClientOptions,
    ) -> (r: Result<OpcUaLoadReport, OpcUaError>)
        ensures
            r is Err && r->Err_0 == OpcUaError::WireUnavailable,
    {
        let _ = node_name;
        let _ = iterations;
        let _ = identity;
        let _ = options;
        Err(opcua_wire_feature_error())
    }
}

/// Starts the wire server: disabled configurations start nothing, and
/// an enabled one reports the transport unavailable in this build.
pub fn start_wire_server(resource_name: &str, config: &OpcUaRuntimeConfig) -> (r: Result<
    Option<OpcUaWireServer>,
    OpcUaError,
>)
    ensures
        !config.enabled ==> r == Ok::<Option<OpcUaWireServer>, OpcUaError>(None),
        config.enabled ==> r is Err && r->Err_0 == OpcUaError::WireUnavailable,
{
    let _ = resource_name;
    if !config.enabled {
        return Ok(None);
    }
    Err(opcua_wire_feature_error())
}

} // verus!

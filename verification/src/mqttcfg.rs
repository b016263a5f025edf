//! MQTT I/O driver configuration: broker endpoint parsing and the
//! security rules a driver configuration must satisfy. Deserialising
//! the parameter table and running the broker session are the caller's
//! part; every acceptance rule is decided here.

use vstd::prelude::*;

use crate::strutil::{dec_val, lower_key, trim_spec, u64_digits};

verus! {

/// A broker address: host and port.
pub struct BrokerEndpoint {
    pub host: String,
    pub port: u16,
}

/// The raw driver parameters, as the configuration table names them.
pub struct MqttParams {
    pub broker: String,
    pub client_id: Option<String>,
    pub topic_in: Option<String>,
    pub topic_out: Option<String>,
    pub username: Option<String>,
    pub password: Option<String>,
    pub reconnect_ms: Option<u64>,
    pub keep_alive_s: Option<u64>,
    pub tls: Option<bool>,
    pub allow_insecure_remote: Option<bool>,
}

/// A validated driver configuration.
pub struct MqttIoConfig {
    pub endpoint: BrokerEndpoint,
    pub client_id: String,
    pub topic_in: String,
    pub topic_out: String,
    pub username: Option<String>,
    pub password: Option<String>,
    pub reconnect_ms: u64,
}

/// Errors of driver configuration.
#[derive(Debug)]
pub enum MqttConfigError {
    TlsUnsupported,
    InsecureRemote(String),
    CredentialsMismatch,
    BadBroker(String),
    EmptyHost(String),
    BadPort(String),
    KeepAliveTooLarge,
}

/// Payload-free tag of a configuration error.
#[derive(Debug, Clone, Copy, PartialEq, Eq, Structural)]
pub enum MqttConfigErrorKind {
    TlsUnsupported,
    InsecureRemote,
    CredentialsMismatch,
    BadBroker,
    EmptyHost,
    BadPort,
    KeepAliveTooLarge,
}

impl MqttConfigError {
    /// The tag of this error.
    pub open spec fn kind(&self) -> MqttConfigErrorKind {
        match self {
            MqttConfigError::TlsUnsupported => MqttConfigErrorKind::TlsUnsupported,
            MqttConfigError::InsecureRemote(..) => MqttConfigErrorKind::InsecureRemote,
            MqttConfigError::CredentialsMismatch => MqttConfigErrorKind::CredentialsMismatch,
            MqttConfigError::BadBroker(..) => MqttConfigErrorKind::BadBroker,
            MqttConfigError::EmptyHost(..) => MqttConfigErrorKind::EmptyHost,
            MqttConfigError::BadPort(..) => MqttConfigErrorKind::BadPort,
            MqttConfigError::KeepAliveTooLarge => MqttConfigErrorKind::KeepAliveTooLarge,
        }
    }
}

/// True when `host` names the local machine: `localhost` in any case,
/// or a loopback literal.
pub open spec fn local_host(host: Seq<char>) -> bool {
    lower_key(host) == lower_key("localhost"@) || host == "127.0.0.1"@ || host == "::1"@
}

/// Decides whether a broker host is local.
pub fn is_local_host(host: &str) -> (r: bool)
    ensures
        r == local_host(host@),
{
    let hc = crate::strutil::chars_of(host);
    let hk = crate::strutil::lower_key_of(&hc);
    let lc = crate::strutil::chars_of("localhost");
    let lk = crate::strutil::lower_key_of(&lc);
    if crate::strutil::eq_keys(&hk, &lk) {
        return true;
    }
    let v4 = crate::strutil::chars_of("127.0.0.1");
    if crate::strutil::eq_chars(&hc, &v4) {
        return true;
    }
    let v6 = crate::strutil::chars_of("::1");
    crate::strutil::eq_chars(&hc, &v6)
}

/// The port a broker text names: trimmed decimal digits, nonzero, at
/// most what a `u16` holds.
pub open spec fn port_of(s: Seq<char>) -> Option<u16> {
    let d = u64_digits(trim_spec(s));
    if d.len() > 0 && crate::strutil::all_digits(d) && 1 <= dec_val(d) <= u16::MAX {
        Some(dec_val(d) as u16)
    } else {
        None
    }
}

/// Reads a broker port: decimal, nonzero, within the `u16` range.
pub fn parse_port(port: &str, full: &str) -> (r: Result<u16, MqttConfigError>)
    ensures
        match r {
            Ok(p) => port_of(port@) == Some(p),
            Err(e) => port_of(port@) is None && e.kind() == MqttConfigErrorKind::BadPort,
        },
{
    let pc = crate::strutil::chars_of(port);
    let trimmed = crate::strutil::trim_chars(&pc);
    match crate::strutil::parse_u64_chars(&trimmed) {
        Some(v) => {
            if 1 <= v && v <= u16::MAX as u64 {
                Ok(v as u16)
            } else {
                Err(MqttConfigError::BadPort(full.to_owned()))
            }
        },
        None => Err(MqttConfigError::BadPort(full.to_owned())),
    }
}

/// The broker text without a leading `tcp://` or `mqtt://` scheme.
pub open spec fn broker_body(s: Seq<char>) -> Seq<char> {
    let t = trim_spec(s);
    if t.len() >= 6 && t.take(6) == "tcp://"@ {
        t.skip(6)
    } else if t.len() >= 7 && t.take(7) == "mqtt://"@ {
        t.skip(7)
    } else {
        t
    }
}

/// Where the host-port split of a broker text falls: for a bracketed
/// address the index after `]:`, else after the last colon.
pub open spec fn broker_split(b: Seq<char>) -> Option<(Seq<char>, Seq<char>)> {
    if b.len() > 0 && b[0] == '[' {
        match bracket_end(b) {
            Some(i) => Some((b.subrange(1, i), b.skip(i + 2))),
            None => None,
        }
    } else {
        match last_colon(b) {
            Some(i) => Some((trim_spec(b.take(i)), b.skip(i + 1))),
            None => None,
        }
    }
}

/// Index of the first `]:` pair of a bracketed address, pointing at
/// the bracket.
pub open spec fn bracket_end(b: Seq<char>) -> Option<int>
    decreases b.len(),
{
    bracket_end_from(b, 0)
}

/// Index of the first `]:` pair at or after `from`.
pub open spec fn bracket_end_from(b: Seq<char>, from: int) -> Option<int>
    decreases b.len() - from,
{
    if from < 0 || from + 1 >= b.len() {
        None
    } else if b[from] == ']' && b[from + 1] == ':' {
        Some(from)
    } else {
        bracket_end_from(b, from + 1)
    }
}

/// Index of the last colon of `b`, if any.
pub open spec fn last_colon(b: Seq<char>) -> Option<int>
    decreases b.len(),
{
    if b.len() == 0 {
        None
    } else if b.last() == ':' {
        Some(b.len() - 1)
    } else {
        match last_colon(b.drop_last()) {
            Some(i) => Some(i),
            None => None,
        }
    }
}

fn find_bracket_end(b: &Vec<char>) -> (r: Option<usize>)
    ensures
        match r {
            Some(i) => bracket_end(b@) == Some(i as int) && i + 1 < b@.len() && b@[i as int] == ']'
                && b@[i + 1] == ':',
            None => bracket_end(b@) is None,
        },
{
    let n = b.len();
    let mut i: usize = 0;
    while n >= 1 && i < n - 1
        invariant
            n == b@.len(),
            i <= n,
            bracket_end(b@) == bracket_end_from(b@, i as int),
        decreases n - i,
    {
        if b[i] == ']' && b[i + 1] == ':' {
            return Some(i);
        }
        i = i + 1;
    }
    None
}

fn find_last_colon(b: &Vec<char>) -> (r: Option<usize>)
    ensures
        match r {
            Some(i) => last_colon(b@) == Some(i as int) && i < b@.len(),
            None => last_colon(b@) is None,
        },
{
    let mut i: usize = b.len();
    proof {
        assert(b@.take(b@.len() as int) =~= b@);
    }
    while i > 0
        invariant
            i <= b@.len(),
            last_colon(b@) == last_colon(b@.take(i as int)),
        decreases i,
    {
        proof {
            assert(b@.take(i as int).last() == b@[i - 1]);
            assert(b@.take(i as int).drop_last() =~= b@.take(i - 1));
        }
        if b[i - 1] == ':' {
            return Some(i - 1);
        }
        i = i - 1;
    }
    proof {
        assert(b@.take(0) =~= Seq::<char>::empty());
    }
    None
}

fn copy_range(b: &Vec<char>, from: usize, to: usize) -> (r: Vec<char>)
    requires
        from <= to <= b@.len(),
    ensures
        r@ == b@.subrange(from as int, to as int),
{
    let mut r: Vec<char> = Vec::new();
    let mut i: usize = from;
    while i < to
        invariant
            from <= i <= to <= b@.len(),
            r@ == b@.subrange(from as int, i as int),
        decreases to - i,
    {
        r.push(b[i]);
        i = i + 1;
        proof {
            assert(r@ =~= b@.subrange(from as int, i as int));
        }
    }
    r
}

fn chars_to_string(v: &Vec<char>) -> (r: String)
    ensures
        r@ == v@,
{
    let n = v.len();
    let mut r = String::new();
    let mut i: usize = 0;
    while i < n
        invariant
            n == v@.len(),
            i <= n,
            r@ == v@.take(i as int),
        decreases n - i,
    {
        let piece = crate::strutil::char_string(v[i]);
        r.append(piece.as_str());
        i = i + 1;
        proof {
            assert(r@ =~= v@.take(i as int));
        }
    }
    proof {
        assert(v@.take(n as int) =~= v@);
    }
    r
}

/// Which error, if any, a broker text raises, and on success the host
/// and port it names.
pub open spec fn broker_of(s: Seq<char>) -> Result<(Seq<char>, u16), MqttConfigErrorKind> {
    let b = broker_body(s);
    match broker_split(b) {
        None => Err(MqttConfigErrorKind::BadBroker),
        Some((host, port_text)) => if host.len() == 0 {
            Err(MqttConfigErrorKind::EmptyHost)
        } else {
            match port_of(port_text) {
                Some(p) => Ok((host, p)),
                None => Err(MqttConfigErrorKind::BadPort),
            }
        },
    }
}

/// Splits a broker text into host and port: an optional `tcp://` or
/// `mqtt://` scheme, a bracketed address or a host before the last
/// colon, and a nonzero decimal port.
pub fn parse_broker_endpoint(text: &str) -> (r: Result<BrokerEndpoint, MqttConfigError>)
    ensures
        match r {
            Ok(endpoint) => broker_of(text@) == Ok::<(Seq<char>, u16), MqttConfigErrorKind>(
                (endpoint.host@, endpoint.port),
            ),
            Err(e) => broker_of(text@) == Err::<(Seq<char>, u16), MqttConfigErrorKind>(e.kind()),
        },
{
    let tc = crate::strutil::chars_of(text);
    let trimmed = crate::strutil::trim_chars(&tc);
    let ghost t = trim_spec(text@);
    let n = trimmed.len();
    let tcp = crate::strutil::chars_of("tcp://");
    let mqtt = crate::strutil::chars_of("mqtt://");
    let mut body = trimmed;
    if body.len() >= 6 && {
        let head = copy_range(&body, 0, 6);
        crate::strutil::eq_chars(&head, &tcp)
    } {
        proof {
            assert(t.take(6) =~= t.subrange(0, 6));
        }
        body = copy_range(&body, 6, n);
        proof {
            assert(body@ =~= broker_body(text@));
        }
    } else if body.len() >= 7 && {
        let head = copy_range(&body, 0, 7);
        crate::strutil::eq_chars(&head, &mqtt)
    } {
        proof {
            assert(t.take(7) =~= t.subrange(0, 7));
            if t.len() >= 6 {
                assert(t.take(6) =~= t.subrange(0, 6));
            }
        }
        body = copy_range(&body, 7, n);
        proof {
            assert(body@ =~= broker_body(text@));
        }
    } else {
        proof {
            if t.len() >= 6 {
                assert(t.take(6) =~= t.subrange(0, 6));
            }
            if t.len() >= 7 {
                assert(t.take(7) =~= t.subrange(0, 7));
            }
            assert(body@ =~= broker_body(text@));
        }
    }
    let ghost bb = broker_body(text@);
    let bn = body.len();
    if bn > 0 && body[0] == '[' {
        match find_bracket_end(&body) {
            Some(i) => {
                proof {
                    assert(bb[0] == '[');
                    assert(i >= 1);
                }
                let host = copy_range(&body, 1, i);
                proof {
                    assert(host@ =~= bb.subrange(1, i as int));
                }
                if host.len() == 0 {
                    return Err(MqttConfigError::EmptyHost(text.to_owned()));
                }
                let port_text = copy_range(&body, i + 2, bn);
                proof {
                    assert(port_text@ =~= bb.skip(i + 2));
                }
                let port_str = chars_to_string(&port_text);
                match parse_port(port_str.as_str(), text) {
                    Ok(port) => Ok(BrokerEndpoint { host: chars_to_string(&host), port }),
                    Err(e) => Err(e),
                }
            },
            None => Err(MqttConfigError::BadBroker(text.to_owned())),
        }
    } else {
        match find_last_colon(&body) {
            Some(i) => {
                let raw_host = copy_range(&body, 0, i);
                proof {
                    assert(raw_host@ =~= bb.take(i as int));
                }
                let host = crate::strutil::trim_chars(&raw_host);
                if host.len() == 0 {
                    return Err(MqttConfigError::EmptyHost(text.to_owned()));
                }
                let port_text = copy_range(&body, i + 1, bn);
                proof {
                    assert(port_text@ =~= bb.skip(i + 1));
                }
                let port_str = chars_to_string(&port_text);
                match parse_port(port_str.as_str(), text) {
                    Ok(port) => Ok(BrokerEndpoint { host: chars_to_string(&host), port }),
                    Err(e) => Err(e),
                }
            },
            None => Err(MqttConfigError::BadBroker(text.to_owned())),
        }
    }
}

/// Which error, if any, a parameter set raises, in the order the
/// checks run: TLS is not served, a non-local broker needs the
/// explicit opt-in, credentials come together or not at all, and the
/// keep-alive must fit sixteen bits.
pub open spec fn params_err(p: MqttParams) -> Option<MqttConfigErrorKind> {
    match broker_of(p.broker@) {
        Err(k) => Some(k),
        Ok((host, _)) => {
            let tls = match p.tls {
                Some(t) => t,
                None => false,
            };
            let allow_remote = match p.allow_insecure_remote {
                Some(a) => a,
                None => false,
            };
            if tls {
                Some(MqttConfigErrorKind::TlsUnsupported)
            } else if !allow_remote && !local_host(host) {
                Some(MqttConfigErrorKind::InsecureRemote)
            } else if (p.username is Some) != (p.password is Some) {
                Some(MqttConfigErrorKind::CredentialsMismatch)
            } else if (match p.keep_alive_s {
                Some(k) => if k >= 1 {
                    k
                } else {
                    1
                },
                None => 5,
            }) > u16::MAX {
                Some(MqttConfigErrorKind::KeepAliveTooLarge)
            } else {
                None
            }
        },
    }
}

impl MqttIoConfig {
    /// Validates driver parameters and fills the defaults: topics
    /// `trust/io/in` and `trust/io/out`, a reconnect interval of at
    /// least one millisecond (default 500), and the caller's client
    /// identifier when none is given.
    pub fn from_params(params: MqttParams, default_client_id: String) -> (r: Result<
        MqttIoConfig,
        MqttConfigError,
    >)
        ensures
            match r {
                Ok(c) => {
                    &&& params_err(params) is None
                    &&& broker_of(params.broker@) == Ok::<
                        (Seq<char>, u16),
                        MqttConfigErrorKind,
                    >((c.endpoint.host@, c.endpoint.port))
                    &&& c.client_id@ == (match params.client_id {
                        Some(id) => id@,
                        None => default_client_id@,
                    })
                    &&& c.topic_in@ == (match params.topic_in {
                        Some(t) => t@,
                        None => "trust/io/in"@,
                    })
                    &&& c.topic_out@ == (match params.topic_out {
                        Some(t) => t@,
                        None => "trust/io/out"@,
                    })
                    &&& (match c.username {
                        Some(u) => params.username is Some && u@ == params.username->0@,
                        None => params.username is None,
                    })
                    &&& (match c.password {
                        Some(w) => params.password is Some && w@ == params.password->0@,
                        None => params.password is None,
                    })
                    &&& c.reconnect_ms == (match params.reconnect_ms {
                        Some(ms) => if ms >= 1 {
                            ms
                        } else {
                            1
                        },
                        None => 500,
                    })
                },
                Err(e) => params_err(params) == Some(e.kind()),
            },
    {
        let endpoint = match parse_broker_endpoint(params.broker.as_str()) {
            Ok(ep) => ep,
            Err(e) => {
                return Err(e);
            },
        };
        let tls = match params.tls {
            Some(t) => t,
            None => false,
        };
        if tls {
            return Err(MqttConfigError::TlsUnsupported);
        }
        let allow_remote = match params.allow_insecure_remote {
            Some(a) => a,
            None => false,
        };
        if !allow_remote && !is_local_host(endpoint.host.as_str()) {
            return Err(MqttConfigError::InsecureRemote(endpoint.host.clone()));
        }
        let creds_mismatch = match (&params.username, &params.password) {
            (Some(_), None) => true,
            (None, Some(_)) => true,
            _ => false,
        };
        if creds_mismatch {
            return Err(MqttConfigError::CredentialsMismatch);
        }
        let keep_alive = match params.keep_alive_s {
            Some(k) => if k >= 1 {
                k
            } else {
                1
            },
            None => 5,
        };
        if keep_alive > u16::MAX as u64 {
            return Err(MqttConfigError::KeepAliveTooLarge);
        }
        let client_id = match params.client_id {
            Some(id) => id,
            None => default_client_id,
        };
        let topic_in = match params.topic_in {
            Some(t) => t,
            None => String::from_str("trust/io/in"),
        };
        let topic_out = match params.topic_out {
            Some(t) => t,
            None => String::from_str("trust/io/out"),
        };
        let reconnect_ms = match params.reconnect_ms {
            Some(ms) => if ms >= 1 {
                ms
            } else {
                1
            },
            None => 500,
        };
        proof {
            reveal_strlit("trust/io/in");
            reveal_strlit("trust/io/out");
        }
        Ok(
            MqttIoConfig {
                endpoint,
                client_id,
                topic_in,
                topic_out,
                username: params.username,
                password: params.password,
                reconnect_ms,
            },
        )
    }

    /// Checks driver parameters without keeping the configuration.
    pub fn validate_params(params: MqttParams) -> (r: Result<(), MqttConfigError>)
        ensures
            match r {
                Ok(_) => params_err(params) is None,
                Err(e) => params_err(params) == Some(e.kind()),
            },
    {
        match Self::from_params(params, String::new()) {
            Ok(_) => Ok(()),
            Err(e) => Err(e),
        }
    }
}

} // verus!

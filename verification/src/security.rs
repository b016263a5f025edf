//! Access roles and TLS material handling: role parsing and ordering,
//! and the path resolution and assembly rules for certificate files.
//! Reading the files and building TLS sessions is the caller's part.

use vstd::prelude::*;

use crate::strutil::{lower_key, trim_spec};

verus! {

/// Hierarchy level an access token may hold, ordered from least to
/// most privileged.
#[derive(Debug, Clone, Copy, PartialEq, Eq, Structural)]
pub enum AccessRole {
    Viewer,
    Operator,
    Engineer,
    Admin,
}

/// The role named by `s`: its trimmed, case-folded text must spell one
/// of the four role names.
pub open spec fn parse_role(s: Seq<char>) -> Option<AccessRole> {
    let k = lower_key(trim_spec(s));
    if k == lower_key("viewer"@) {
        Some(AccessRole::Viewer)
    } else if k == lower_key("operator"@) {
        Some(AccessRole::Operator)
    } else if k == lower_key("engineer"@) {
        Some(AccessRole::Engineer)
    } else if k == lower_key("admin"@) {
        Some(AccessRole::Admin)
    } else {
        None
    }
}

impl AccessRole {
    /// Numeric rank used to compare privilege levels.
    pub open spec fn spec_rank(self) -> int {
        match self {
            AccessRole::Viewer => 0,
            AccessRole::Operator => 1,
            AccessRole::Engineer => 2,
            AccessRole::Admin => 3,
        }
    }

    /// Reads a role name, ignoring case and surrounding whitespace.
    pub fn parse(text: &str) -> (r: Option<AccessRole>)
        ensures
            r == parse_role(text@),
    {
        if crate::strutil::lower_matches(text, "viewer") {
            Some(AccessRole::Viewer)
        } else if crate::strutil::lower_matches(text, "operator") {
            Some(AccessRole::Operator)
        } else if crate::strutil::lower_matches(text, "engineer") {
            Some(AccessRole::Engineer)
        } else if crate::strutil::lower_matches(text, "admin") {
            Some(AccessRole::Admin)
        } else {
            None
        }
    }

    /// The configuration name of this role.
    pub fn as_str(self) -> (r: &'static str)
        ensures
            match self {
                AccessRole::Viewer => r@ == "viewer"@,
                AccessRole::Operator => r@ == "operator"@,
                AccessRole::Engineer => r@ == "engineer"@,
                AccessRole::Admin => r@ == "admin"@,
            },
    {
        match self {
            AccessRole::Viewer => "viewer",
            AccessRole::Operator => "operator",
            AccessRole::Engineer => "engineer",
            AccessRole::Admin => "admin",
        }
    }

    /// A role grants access to everything a lower-ranked role may do.
    pub fn allows(self, required: Self) -> (r: bool)
        ensures
            r == (self.spec_rank() >= required.spec_rank()),
    {
        self.rank() >= required.rank()
    }

    fn rank(self) -> (r: u8)
        ensures
            r as int == self.spec_rank(),
    {
        match self {
            AccessRole::Viewer => 0,
            AccessRole::Operator => 1,
            AccessRole::Engineer => 2,
            AccessRole::Admin => 3,
        }
    }
}

/// Whether transport security is on.
#[derive(Debug, Clone, Copy, PartialEq, Eq, Structural)]
pub enum TlsMode {
    Disabled,
    Required,
}

/// TLS file configuration: paths may be absolute or relative to the
/// project root.
pub struct TlsConfig {
    pub mode: TlsMode,
    pub cert_path: Option<String>,
    pub key_path: Option<String>,
    pub ca_path: Option<String>,
}

/// Certificate material once the files are read: resolved paths and
/// raw PEM bytes. The CA bytes fall back to the certificate's own.
pub struct TlsMaterials {
    pub cert_path: String,
    pub key_path: String,
    pub ca_path: Option<String>,
    pub certificate_pem: Vec<u8>,
    pub private_key_pem: Vec<u8>,
    pub ca_pem: Vec<u8>,
}

/// Errors of TLS material resolution.
#[derive(Debug)]
pub enum TlsError {
    MissingCertPath,
    MissingKeyPath,
    RelativeWithoutRoot,
}

/// True when `path` is absolute in the POSIX sense.
pub open spec fn absolute_path(path: Seq<char>) -> bool {
    path.len() > 0 && path[0] == '/'
}

/// The resolved form of `path` under an optional project root.
pub open spec fn resolved_path(path: Seq<char>, root: Option<&str>) -> Seq<char> {
    if absolute_path(path) {
        path
    } else {
        match root {
            Some(r) => r@ + "/"@ + path,
            None => path,
        }
    }
}

/// Resolves a TLS file path: absolute paths stand as they are, and a
/// relative path needs a project root to be joined to.
pub fn resolve_tls_path(path: &str, project_root: Option<&str>) -> (r: Result<String, TlsError>)
    ensures
        match r {
            Ok(p) => (absolute_path(path@) || project_root is Some) && p@ == resolved_path(
                path@,
                project_root,
            ),
            Err(e) => !absolute_path(path@) && project_root is None && e
                == TlsError::RelativeWithoutRoot,
        },
{
    let n = path.unicode_len();
    if n > 0 && path.get_char(0) == '/' {
        return Ok(path.to_owned());
    }
    match project_root {
        None => Err(TlsError::RelativeWithoutRoot),
        Some(root) => {
            let mut s = root.to_owned();
            s.append("/");
            s.append(path);
            Ok(s)
        },
    }
}

/// The resolved certificate, key and CA paths of a TLS configuration.
pub struct TlsPaths {
    pub cert_path: String,
    pub key_path: String,
    pub ca_path: Option<String>,
}

/// Resolves the file paths a TLS configuration names. `None` means TLS
/// is off; reading the named files is the caller's part.
pub fn resolve_tls_materials(config: &TlsConfig, project_root: Option<&str>) -> (r: Result<
    Option<TlsPaths>,
    TlsError,
>)
    ensures
        config.mode == TlsMode::Disabled ==> r == Ok::<Option<TlsPaths>, TlsError>(None),
        match r {
            Ok(opt) => match opt {
                None => config.mode == TlsMode::Disabled,
                Some(p) => {
                    &&& config.mode == TlsMode::Required
                    &&& config.cert_path is Some
                    &&& config.key_path is Some
                    &&& p.cert_path@ == resolved_path(config.cert_path->0@, project_root)
                    &&& p.key_path@ == resolved_path(config.key_path->0@, project_root)
                    &&& match p.ca_path {
                        Some(cp) => config.ca_path is Some && cp@ == resolved_path(
                            config.ca_path->0@,
                            project_root,
                        ),
                        None => config.ca_path is None,
                    }
                },
            },
            Err(e) => config.mode == TlsMode::Required && match e {
                TlsError::MissingCertPath => config.cert_path is None,
                TlsError::MissingKeyPath => config.cert_path is Some && config.key_path is None,
                TlsError::RelativeWithoutRoot => project_root is None,
            },
        },
{
    if config.mode == TlsMode::Disabled {
        return Ok(None);
    }
    let cert_src = match &config.cert_path {
        Some(p) => p.as_str(),
        None => {
            return Err(TlsError::MissingCertPath);
        },
    };
    let key_src = match &config.key_path {
        Some(p) => p.as_str(),
        None => {
            return Err(TlsError::MissingKeyPath);
        },
    };
    let cert_path = resolve_tls_path(cert_src, project_root)?;
    let key_path = resolve_tls_path(key_src, project_root)?;
    let ca_path = match &config.ca_path {
        Some(p) => Some(resolve_tls_path(p.as_str(), project_root)?),
        None => None,
    };
    Ok(Some(TlsPaths { cert_path, key_path, ca_path }))
}

/// Bundles the raw PEM bytes with their resolved paths; an absent CA
/// file falls back to the certificate's own bytes.
pub fn assemble_tls_materials(
    paths: TlsPaths,
    certificate_pem: Vec<u8>,
    private_key_pem: Vec<u8>,
    ca_pem: Option<Vec<u8>>,
) -> (r: TlsMaterials)
    ensures
        r.cert_path == paths.cert_path,
        r.key_path == paths.key_path,
        r.ca_path == paths.ca_path,
        r.certificate_pem == certificate_pem,
        r.private_key_pem == private_key_pem,
        match ca_pem {
            Some(b) => r.ca_pem == b,
            None => r.ca_pem@ == certificate_pem@,
        },
{
    let ca_bytes = match ca_pem {
        Some(b) => b,
        None => clone_bytes(&certificate_pem),
    };
    TlsMaterials {
        cert_path: paths.cert_path,
        key_path: paths.key_path,
        ca_path: paths.ca_path,
        certificate_pem,
        private_key_pem,
        ca_pem: ca_bytes,
    }
}

fn clone_bytes(v: &Vec<u8>) -> (r: Vec<u8>)
    ensures
        r@ == v@,
{
    let n = v.len();
    let mut r: Vec<u8> = Vec::new();
    let mut i: usize = 0;
    while i < n
        invariant
            n == v@.len(),
            i <= n,
            r@ == v@.take(i as int),
        decreases n - i,
    {
        r.push(v[i]);
        i = i + 1;
        proof {
            assert(r@ =~= v@.take(i as int));
        }
    }
    proof {
        assert(v@.take(n as int) =~= v@);
    }
    r
}

} // verus!

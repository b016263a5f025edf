//! Local package registry: content-addressed digests, publish,
//! download, verify and list over an in-memory view of the bundle
//! tree. Reading and writing the registry's files is left to the
//! caller; every rule about their contents is decided here.

use vstd::prelude::*;

use crate::crypto::{sha256, sha256_of};
use crate::strutil::{chars_of, le_chars, lex_le, trim_spec};
use vstd::utf8::encode_utf8;

verus! {

/// Registry schema version understood by this crate.
pub const REGISTRY_SCHEMA_VERSION: u32 = 1;

/// Who may read and publish without a token.
#[derive(Debug, Clone, Copy, PartialEq, Eq, Structural)]
pub enum RegistryVisibility {
    Public,
    Private,
}

/// The `[registry]` section of the registry's configuration file.
pub struct RegistryConfig {
    pub version: u32,
    pub visibility: RegistryVisibility,
    pub auth_token: Option<String>,
}

/// Public summary of a registry's configuration.
pub struct RegistrySettings {
    pub version: u32,
    pub visibility: RegistryVisibility,
}

/// One HTTP endpoint of the registry API profile.
pub struct RegistryEndpoint {
    pub method: String,
    pub path: String,
    pub description: String,
    pub auth: String,
}

/// Field lists of the metadata documents.
pub struct RegistryMetadataModel {
    pub package_fields: Vec<String>,
    pub file_digest_fields: Vec<String>,
}

/// Self-description of the registry API.
pub struct RegistryApiProfile {
    pub api_version: String,
    pub schema_version: u32,
    pub endpoints: Vec<RegistryEndpoint>,
    pub metadata_model: RegistryMetadataModel,
    pub private_registry_contract: Vec<String>,
}

/// Digest record of one file of a published package.
pub struct PackageFileDigest {
    pub path: String,
    pub bytes: u64,
    pub sha256: String,
}

/// Metadata document of one published package version.
pub struct PackageMetadata {
    pub name: String,
    pub version: String,
    pub resource_name: String,
    pub bundle_version: u32,
    pub published_at_unix: u64,
    pub total_bytes: u64,
    pub package_sha256: String,
    pub files: Vec<PackageFileDigest>,
}

/// Index entry for one published package version.
pub struct PackageSummary {
    pub name: String,
    pub version: String,
    pub resource_name: String,
    pub published_at_unix: u64,
    pub total_bytes: u64,
    pub package_sha256: String,
}

/// The registry's package index.
pub struct RegistryIndex {
    pub schema_version: u32,
    pub generated_at_unix: u64,
    pub packages: Vec<PackageSummary>,
}

/// One file of a bundle, held in memory: its path relative to the
/// bundle root (with `/` separators) and its contents.
pub struct PackageFile {
    pub path: String,
    pub data: Vec<u8>,
}

/// What went wrong in a registry operation.
#[derive(Debug)]
pub enum RegistryError {
    UnsupportedSchemaVersion(u32),
    PrivateNeedsToken,
    Unauthorized,
    RequiredFieldEmpty(String),
    InvalidIdentifier(String),
    PackageExists,
    EmptyPayload,
    FileCountMismatch(usize, usize),
    PathMismatch(String, String),
    SizeMismatch(String, u64, u64),
    DigestMismatch(String),
    PackageShaMismatch,
}

/// Payload-free tag of a [`RegistryError`], used by contracts.
#[derive(Debug, Clone, Copy, PartialEq, Eq, Structural)]
pub enum RegistryErrorKind {
    UnsupportedSchemaVersion,
    PrivateNeedsToken,
    Unauthorized,
    RequiredFieldEmpty,
    InvalidIdentifier,
    PackageExists,
    EmptyPayload,
    FileCountMismatch,
    PathMismatch,
    SizeMismatch,
    DigestMismatch,
    PackageShaMismatch,
}

impl RegistryError {
    /// The tag of this error.
    pub open spec fn kind(&self) -> RegistryErrorKind {
        match self {
            RegistryError::UnsupportedSchemaVersion(..) => RegistryErrorKind::UnsupportedSchemaVersion,
            RegistryError::PrivateNeedsToken => RegistryErrorKind::PrivateNeedsToken,
            RegistryError::Unauthorized => RegistryErrorKind::Unauthorized,
            RegistryError::RequiredFieldEmpty(..) => RegistryErrorKind::RequiredFieldEmpty,
            RegistryError::InvalidIdentifier(..) => RegistryErrorKind::InvalidIdentifier,
            RegistryError::PackageExists => RegistryErrorKind::PackageExists,
            RegistryError::EmptyPayload => RegistryErrorKind::EmptyPayload,
            RegistryError::FileCountMismatch(..) => RegistryErrorKind::FileCountMismatch,
            RegistryError::PathMismatch(..) => RegistryErrorKind::PathMismatch,
            RegistryError::SizeMismatch(..) => RegistryErrorKind::SizeMismatch,
            RegistryError::DigestMismatch(..) => RegistryErrorKind::DigestMismatch,
            RegistryError::PackageShaMismatch => RegistryErrorKind::PackageShaMismatch,
        }
    }
}

/// Abstract view of a file digest: path, size, digest text.
pub open spec fn dview(d: PackageFileDigest) -> (Seq<char>, u64, Seq<char>) {
    (d.path@, d.bytes, d.sha256@)
}

/// Abstract view of a bundle file: path and contents.
pub open spec fn fview(f: PackageFile) -> (Seq<char>, Seq<u8>) {
    (f.path@, f.data@)
}

/// Digest view of one bundle file: its path, its size, and the hex
/// text of its SHA-256.
pub open spec fn digest_of(f: (Seq<char>, Seq<u8>)) -> (Seq<char>, u64, Seq<char>) {
    (f.0, f.1.len() as u64, hex_of(sha256_of(f.1)))
}

/// Views of a digest list, in order.
pub open spec fn dviews(ds: Seq<PackageFileDigest>) -> Seq<(Seq<char>, u64, Seq<char>)> {
    ds.map_values(|d: PackageFileDigest| dview(d))
}

/// Views of a bundle's files, in order.
pub open spec fn fviews(fs: Seq<PackageFile>) -> Seq<(Seq<char>, Seq<u8>)> {
    fs.map_values(|f: PackageFile| fview(f))
}

/// Digest views of a bundle's file views, in order.
pub open spec fn digest_views(fs: Seq<(Seq<char>, Seq<u8>)>) -> Seq<(Seq<char>, u64, Seq<char>)> {
    fs.map_values(|f: (Seq<char>, Seq<u8>)| digest_of(f))
}

/// Hex digit character for a value below sixteen.
pub open spec fn hex_char(d: nat) -> char {
    if d < 10 {
        crate::strutil::digit_char(d)
    } else if d == 10 {
        'a'
    } else if d == 11 {
        'b'
    } else if d == 12 {
        'c'
    } else if d == 13 {
        'd'
    } else if d == 14 {
        'e'
    } else {
        'f'
    }
}

/// Lower-case hexadecimal text of `data`, two digits per byte.
pub open spec fn hex_of(data: Seq<u8>) -> Seq<char>
    decreases data.len(),
{
    if data.len() == 0 {
        Seq::empty()
    } else {
        hex_of(data.drop_last()).push(hex_char((data.last() / 16) as nat)).push(
            hex_char((data.last() % 16) as nat),
        )
    }
}

fn hex_digit_str(d: u8) -> (r: &'static str)
    requires
        d < 16,
    ensures
        r@ =~= seq![hex_char(d as nat)],
{
    proof {
        reveal_strlit("a");
        reveal_strlit("b");
        reveal_strlit("c");
        reveal_strlit("d");
        reveal_strlit("e");
        reveal_strlit("f");
    }
    if d < 10 {
        crate::strutil::digit_str(d as u64)
    } else if d == 10 {
        "a"
    } else if d == 11 {
        "b"
    } else if d == 12 {
        "c"
    } else if d == 13 {
        "d"
    } else if d == 14 {
        "e"
    } else {
        "f"
    }
}

/// Renders `bytes` as lower-case hexadecimal text.
pub fn hex_string(bytes: &Vec<u8>) -> (r: String)
    ensures
        r@ == hex_of(bytes@),
{
    let n = bytes.len();
    let mut r = String::new();
    let mut i: usize = 0;
    while i < n
        invariant
            n == bytes@.len(),
            i <= n,
            r@ == hex_of(bytes@.take(i as int)),
        decreases n - i,
    {
        let b = bytes[i];
        r.append(hex_digit_str(b / 16));
        r.append(hex_digit_str(b % 16));
        i = i + 1;
        proof {
            assert(bytes@.take(i as int).drop_last() =~= bytes@.take(i - 1));
            assert(r@ =~= hex_of(bytes@.take(i as int)));
        }
    }
    proof {
        assert(bytes@.take(n as int) =~= bytes@);
    }
    r
}

/// The eight bytes of `n`, least significant first.
pub open spec fn le64_bytes(n: u64) -> Seq<u8> {
    seq![
        (n % 256) as u8,
        ((n / 256) % 256) as u8,
        ((n / 0x10000) % 256) as u8,
        ((n / 0x1000000) % 256) as u8,
        ((n / 0x100000000) % 256) as u8,
        ((n / 0x10000000000) % 256) as u8,
        ((n / 0x1000000000000) % 256) as u8,
        ((n / 0x100000000000000) % 256) as u8,
    ]
}

fn push_le64(out: &mut Vec<u8>, n: u64)
    ensures
        final(out)@ == old(out)@ + le64_bytes(n),
{
    out.push((n % 256) as u8);
    out.push(((n / 256) % 256) as u8);
    out.push(((n / 0x10000) % 256) as u8);
    out.push(((n / 0x1000000) % 256) as u8);
    out.push(((n / 0x100000000) % 256) as u8);
    out.push(((n / 0x10000000000) % 256) as u8);
    out.push(((n / 0x1000000000000) % 256) as u8);
    out.push(((n / 0x100000000000000) % 256) as u8);
    proof {
        assert(out@ =~= old(out)@ + le64_bytes(n));
    }
}

fn push_str_bytes(out: &mut Vec<u8>, s: &str)
    ensures
        final(out)@ == old(out)@ + encode_utf8(s@),
{
    let b = s.as_bytes();
    let n = b.len();
    let mut i: usize = 0;
    while i < n
        invariant
            n == b@.len(),
            i <= n,
            b@ == encode_utf8(s@),
            out@ == old(out)@ + b@.take(i as int),
        decreases n - i,
    {
        out.push(b[i]);
        i = i + 1;
        proof {
            assert(out@ =~= old(out)@ + b@.take(i as int));
        }
    }
    proof {
        assert(b@.take(n as int) =~= b@);
        assert(out@ =~= old(out)@ + encode_utf8(s@));
    }
}

/// Bytes hashed for one digest entry: the path, a zero byte, the hex
/// digest text, a zero byte, then the size in little-endian order.
pub open spec fn digest_entry_bytes(t: (Seq<char>, u64, Seq<char>)) -> Seq<u8> {
    encode_utf8(t.0) + seq![0u8] + encode_utf8(t.2) + seq![0u8] + le64_bytes(t.1)
}

/// Concatenation of every entry's bytes, in list order.
pub open spec fn digest_input(ts: Seq<(Seq<char>, u64, Seq<char>)>) -> Seq<u8>
    decreases ts.len(),
{
    if ts.len() == 0 {
        Seq::empty()
    } else {
        digest_input(ts.drop_last()) + digest_entry_bytes(ts.last())
    }
}

/// The package digest: hex of the SHA-256 over the entries' bytes.
pub open spec fn package_digest(ts: Seq<(Seq<char>, u64, Seq<char>)>) -> Seq<char> {
    hex_of(sha256_of(digest_input(ts)))
}

/// Computes the aggregated package digest of the (already sorted)
/// digest list.
pub fn aggregate_package_sha(files: &Vec<PackageFileDigest>) -> (r: String)
    ensures
        r@ == package_digest(dviews(files@)),
{
    let ghost ts = dviews(files@);
    let n = files.len();
    let mut msg: Vec<u8> = Vec::new();
    let mut i: usize = 0;
    while i < n
        invariant
            n == files@.len(),
            i <= n,
            ts == dviews(files@),
            msg@ == digest_input(ts.take(i as int)),
        decreases n - i,
    {
        let f = &files[i];
        push_str_bytes(&mut msg, f.path.as_str());
        msg.push(0);
        push_str_bytes(&mut msg, f.sha256.as_str());
        msg.push(0);
        push_le64(&mut msg, f.bytes);
        i = i + 1;
        proof {
            assert(ts.take(i as int).drop_last() =~= ts.take(i - 1));
            assert(ts.take(i as int).last() == dview(files@[i - 1]));
            assert(msg@ =~= digest_input(ts.take(i as int)));
        }
    }
    proof {
        assert(ts.take(n as int) =~= ts);
    }
    let digest = sha256(msg.as_slice());
    hex_string(&digest)
}

/// `s` with `x` inserted before the suffix of entries whose path is
/// strictly greater; entries with equal paths keep their order.
pub open spec fn insert_by_path(
    s: Seq<(Seq<char>, u64, Seq<char>)>,
    x: (Seq<char>, u64, Seq<char>),
) -> Seq<(Seq<char>, u64, Seq<char>)>
    decreases s.len(),
{
    if s.len() > 0 && !lex_le(s.last().0, x.0) {
        insert_by_path(s.drop_last(), x).push(s.last())
    } else {
        s.push(x)
    }
}

/// `s` sorted by path, stably.
pub open spec fn sort_by_path(s: Seq<(Seq<char>, u64, Seq<char>)>) -> Seq<
    (Seq<char>, u64, Seq<char>),
>
    decreases s.len(),
{
    if s.len() == 0 {
        Seq::empty()
    } else {
        insert_by_path(sort_by_path(s.drop_last()), s.last())
    }
}

/// The digest list a bundle publishes and verification recomputes:
/// every file's digest view, sorted by path.
pub open spec fn bundle_digests(files: Seq<(Seq<char>, Seq<u8>)>) -> Seq<
    (Seq<char>, u64, Seq<char>),
> {
    sort_by_path(digest_views(files))
}

proof fn lemma_insert_by_path_at(
    s: Seq<(Seq<char>, u64, Seq<char>)>,
    x: (Seq<char>, u64, Seq<char>),
    p: int,
)
    requires
        0 <= p <= s.len(),
        forall|j: int| p <= j < s.len() ==> !lex_le(#[trigger] s[j].0, x.0),
        p > 0 ==> lex_le(s[p - 1].0, x.0),
    ensures
        insert_by_path(s, x) == s.insert(p, x),
    decreases s.len() - p,
{
    if p == s.len() {
        if s.len() > 0 {
            assert(lex_le(s[s.len() - 1].0, x.0));
        }
        assert(s.push(x) =~= s.insert(p, x));
    } else {
        assert(!lex_le(s[s.len() - 1].0, x.0));
        lemma_insert_by_path_at(s.drop_last(), x, p);
        assert(insert_by_path(s.drop_last(), x) == s.drop_last().insert(p, x));
        assert(s.drop_last().insert(p, x).push(s.last()) =~= s.insert(p, x));
    }
}

fn find_insert_pos(v: &Vec<PackageFileDigest>, xp: &Vec<char>) -> (p: usize)
    ensures
        p <= v@.len(),
        forall|j: int| #![trigger v@[j]] p <= j < v@.len() ==> !lex_le(v@[j].path@, xp@),
        p > 0 ==> lex_le(v@[p - 1].path@, xp@),
{
    let mut p: usize = v.len();
    while p > 0
        invariant
            p <= v@.len(),
            forall|j: int| #![trigger v@[j]] p <= j < v@.len() ==> !lex_le(v@[j].path@, xp@),
        decreases p,
    {
        let prev = chars_of(v[p - 1].path.as_str());
        if le_chars(&prev, xp) {
            return p;
        }
        p = p - 1;
    }
    0
}

fn insert_digest(v: &mut Vec<PackageFileDigest>, x: PackageFileDigest)
    ensures
        dviews(final(v)@) == insert_by_path(dviews(old(v)@), dview(x)),
{
    let ghost s = dviews(old(v)@);
    let xp = chars_of(x.path.as_str());
    let p = find_insert_pos(v, &xp);
    proof {
        lemma_insert_by_path_at(s, dview(x), p as int);
    }
    v.insert(p, x);
    proof {
        assert(dviews(final(v)@) =~= s.insert(p as int, dview(x)));
    }
}

/// Computes the digest record of every bundle file and returns them
/// sorted by path.
pub fn collect_file_digests(files: &Vec<PackageFile>) -> (r: Vec<PackageFileDigest>)
    ensures
        dviews(r@) == bundle_digests(fviews(files@)),
{
    let ghost fs = fviews(files@);
    let n = files.len();
    let mut r: Vec<PackageFileDigest> = Vec::new();
    let mut i: usize = 0;
    while i < n
        invariant
            n == files@.len(),
            i <= n,
            fs == fviews(files@),
            dviews(r@) == sort_by_path(digest_views(fs.take(i as int))),
        decreases n - i,
    {
        let f = &files[i];
        let digest = sha256(f.data.as_slice());
        let d = PackageFileDigest {
            path: f.path.clone(),
            bytes: f.data.len() as u64,
            sha256: hex_string(&digest),
        };
        proof {
            assert(dview(d) == digest_of(fs[i as int]));
        }
        insert_digest(&mut r, d);
        i = i + 1;
        proof {
            assert(digest_views(fs.take(i as int)).drop_last() =~= digest_views(fs.take(i - 1)));
            assert(digest_views(fs.take(i as int)).last() == digest_of(fs[i - 1]));
        }
    }
    proof {
        assert(fs.take(n as int) =~= fs);
    }
    r
}

/// Characters allowed in package names and versions.
pub open spec fn ident_char(c: char) -> bool {
    ('0' <= c && c <= '9') || ('a' <= c && c <= 'z') || ('A' <= c && c <= 'Z') || c == '-' || c
        == '_' || c == '.'
}

/// True exactly when every character of `s` is allowed in an identifier.
pub open spec fn ident_ok(s: Seq<char>) -> bool {
    forall|i: int| 0 <= i < s.len() ==> ident_char(#[trigger] s[i])
}

/// Checks that `value` holds only identifier characters; `label` names
/// the field in the error.
pub fn validate_identifier(label: &str, value: &str) -> (r: Result<(), RegistryError>)
    ensures
        match r {
            Ok(_) => ident_ok(value@),
            Err(e) => e.kind() == RegistryErrorKind::InvalidIdentifier && !ident_ok(value@),
        },
{
    let n = value.unicode_len();
    let mut i: usize = 0;
    while i < n
        invariant
            n == value@.len(),
            i <= n,
            forall|j: int| 0 <= j < i ==> ident_char(#[trigger] value@[j]),
        decreases n - i,
    {
        let c = value.get_char(i);
        let ok = ('0' <= c && c <= '9') || ('a' <= c && c <= 'z') || ('A' <= c && c <= 'Z') || c
            == '-' || c == '_' || c == '.';
        if !ok {
            return Err(RegistryError::InvalidIdentifier(label.to_owned()));
        }
        i = i + 1;
    }
    Ok(())
}

/// Trims `value` and requires it non-empty; `label` names the field in
/// the error.
pub fn normalize_required_field(label: &str, value: &str) -> (r: Result<String, RegistryError>)
    ensures
        match r {
            Ok(s) => trim_spec(value@).len() > 0 && s@ == trim_spec(value@),
            Err(e) => e.kind() == RegistryErrorKind::RequiredFieldEmpty && trim_spec(value@).len()
                == 0,
        },
{
    let trimmed = crate::strutil::trim_str(value);
    if trimmed.as_str().unicode_len() == 0 {
        Err(RegistryError::RequiredFieldEmpty(label.to_owned()))
    } else {
        Ok(trimmed)
    }
}

/// Trims an optional token; an absent or blank token becomes `None`.
pub fn normalize_token(token: Option<String>) -> (r: Option<String>)
    ensures
        match r {
            Some(s) => token is Some && s@ == trim_spec(token->0@) && s@.len() > 0,
            None => match token {
                Some(t) => trim_spec(t@).len() == 0,
                None => true,
            },
        },
{
    match token {
        None => None,
        Some(t) => {
            let trimmed = crate::strutil::trim_str(t.as_str());
            if trimmed.as_str().unicode_len() == 0 {
                None
            } else {
                Some(trimmed)
            }
        },
    }
}

/// The token text a caller handed in; an absent token reads as empty.
pub open spec fn provided_token(token: Option<&str>) -> Seq<char> {
    match token {
        Some(t) => t@,
        None => Seq::empty(),
    }
}

/// Which error, if any, an access check raises: a private registry
/// needs a configured token, and the caller's trimmed token must match
/// it exactly.
pub open spec fn access_err(config: RegistryConfig, provided: Seq<char>) -> Option<
    RegistryErrorKind,
> {
    if config.visibility != RegistryVisibility::Private {
        None
    } else {
        match config.auth_token {
            None => Some(RegistryErrorKind::PrivateNeedsToken),
            Some(expected) => if trim_spec(provided) == expected@ {
                None
            } else {
                Some(RegistryErrorKind::Unauthorized)
            },
        }
    }
}

/// Rejects callers that may not touch a private registry.
pub fn ensure_access(config: &RegistryConfig, token: Option<&str>) -> (r: Result<
    (),
    RegistryError,
>)
    ensures
        match r {
            Ok(_) => access_err(*config, provided_token(token)) is None,
            Err(e) => access_err(*config, provided_token(token)) == Some(e.kind()),
        },
{
    if config.visibility == RegistryVisibility::Public {
        return Ok(());
    }
    match &config.auth_token {
        None => Err(RegistryError::PrivateNeedsToken),
        Some(expected) => {
            let raw = match token {
                Some(t) => t,
                None => "",
            };
            proof {
                reveal_strlit("");
                assert(""@ =~= Seq::<char>::empty());
            }
            let provided = crate::strutil::trim_str(raw);
            if provided == *expected {
                Ok(())
            } else {
                Err(RegistryError::Unauthorized)
            }
        },
    }
}

/// Which error, if any, a configuration violates: the schema version
/// must be the one this crate understands, and a private registry must
/// carry a non-blank token.
pub open spec fn contract_err(config: RegistryConfig) -> Option<RegistryErrorKind> {
    if config.version != REGISTRY_SCHEMA_VERSION {
        Some(RegistryErrorKind::UnsupportedSchemaVersion)
    } else if config.visibility == RegistryVisibility::Private && trim_spec(
        match config.auth_token {
            Some(t) => t@,
            None => Seq::empty(),
        },
    ).len() == 0 {
        Some(RegistryErrorKind::PrivateNeedsToken)
    } else {
        None
    }
}

/// Rejects configurations that break the private-registry contract.
pub fn enforce_private_contract(config: &RegistryConfig) -> (r: Result<(), RegistryError>)
    ensures
        match r {
            Ok(_) => contract_err(*config) is None,
            Err(e) => contract_err(*config) == Some(e.kind()),
        },
{
    if config.version != REGISTRY_SCHEMA_VERSION {
        return Err(RegistryError::UnsupportedSchemaVersion(config.version));
    }
    if config.visibility == RegistryVisibility::Private {
        let raw = match &config.auth_token {
            Some(t) => t.as_str(),
            None => "",
        };
        proof {
            reveal_strlit("");
            assert(""@ =~= Seq::<char>::empty());
        }
        let trimmed = crate::strutil::trim_str(raw);
        if trimmed.as_str().unicode_len() == 0 {
            return Err(RegistryError::PrivateNeedsToken);
        }
    }
    Ok(())
}

/// What `init_registry` hands back: the settings to report, the
/// configuration to write, and a fresh empty index.
pub struct RegistryInit {
    pub settings: RegistrySettings,
    pub config: RegistryConfig,
    pub index: RegistryIndex,
}

/// Builds the configuration, settings and empty index of a new
/// registry. Writing them to disk is the caller's part.
pub fn init_registry(
    visibility: RegistryVisibility,
    auth_token: Option<String>,
    now: u64,
) -> (r: Result<RegistryInit, RegistryError>)
    ensures
        match r {
            Ok(init) => {
                &&& init.config.version == REGISTRY_SCHEMA_VERSION
                &&& init.config.visibility == visibility
                &&& match init.config.auth_token {
                    Some(s) => auth_token is Some && s@ == trim_spec(auth_token->0@) && s@.len()
                        > 0,
                    None => match auth_token {
                        Some(t) => trim_spec(t@).len() == 0,
                        None => true,
                    },
                }
                &&& contract_err(init.config) is None
                &&& init.settings.version == REGISTRY_SCHEMA_VERSION
                &&& init.settings.visibility == visibility
                &&& init.index.schema_version == REGISTRY_SCHEMA_VERSION
                &&& init.index.generated_at_unix == now
                &&& init.index.packages@.len() == 0
            },
            Err(e) => {
                &&& e.kind() == RegistryErrorKind::PrivateNeedsToken
                &&& visibility == RegistryVisibility::Private
                &&& match auth_token {
                    Some(t) => trim_spec(t@).len() == 0,
                    None => true,
                }
            },
        },
{
    let config = RegistryConfig {
        version: REGISTRY_SCHEMA_VERSION,
        visibility,
        auth_token: normalize_token(auth_token),
    };
    match enforce_private_contract(&config) {
        Ok(_) => {},
        Err(e) => {
            proof {
                if auth_token is Some {
                    crate::strutil::lemma_trim_idempotent(auth_token->0@);
                }
            }
            return Err(e);
        },
    }
    let settings = RegistrySettings { version: config.version, visibility: config.visibility };
    let index = RegistryIndex {
        schema_version: REGISTRY_SCHEMA_VERSION,
        generated_at_unix: now,
        packages: Vec::new(),
    };
    Ok(RegistryInit { settings, config, index })
}

/// Projects the settings out of a loaded configuration, refusing one
/// that breaks the contract.
pub fn load_registry_settings(config: &RegistryConfig) -> (r: Result<
    RegistrySettings,
    RegistryError,
>)
    ensures
        match r {
            Ok(s) => contract_err(*config) is None && s.version == config.version && s.visibility
                == config.visibility,
            Err(e) => contract_err(*config) == Some(e.kind()),
        },
{
    enforce_private_contract(config)?;
    Ok(RegistrySettings { version: config.version, visibility: config.visibility })
}

/// First discrepancy, if any, between expected and actual digest
/// entries compared pairwise in order.
pub open spec fn entries_err(
    ms: Seq<(Seq<char>, u64, Seq<char>)>,
    ds: Seq<(Seq<char>, u64, Seq<char>)>,
) -> Option<RegistryErrorKind>
    decreases ms.len(),
{
    if ms.len() == 0 || ds.len() == 0 {
        None
    } else if ms[0].0 != ds[0].0 {
        Some(RegistryErrorKind::PathMismatch)
    } else if ms[0].1 != ds[0].1 {
        Some(RegistryErrorKind::SizeMismatch)
    } else if ms[0].2 != ds[0].2 {
        Some(RegistryErrorKind::DigestMismatch)
    } else {
        entries_err(ms.drop_first(), ds.drop_first())
    }
}

/// Which error, if any, verification of `m` against the bundle `fs`
/// raises: the file count, then each entry in order, then the
/// aggregated digest.
pub open spec fn verify_err(m: PackageMetadata, fs: Seq<(Seq<char>, Seq<u8>)>) -> Option<
    RegistryErrorKind,
> {
    let ds = bundle_digests(fs);
    let ms = dviews(m.files@);
    if ms.len() != ds.len() {
        Some(RegistryErrorKind::FileCountMismatch)
    } else if entries_err(ms, ds) is Some {
        entries_err(ms, ds)
    } else if m.package_sha256@ != package_digest(ds) {
        Some(RegistryErrorKind::PackageShaMismatch)
    } else {
        None
    }
}

proof fn lemma_entries_err_none(
    ms: Seq<(Seq<char>, u64, Seq<char>)>,
    ds: Seq<(Seq<char>, u64, Seq<char>)>,
)
    requires
        ms.len() == ds.len(),
        entries_err(ms, ds) is None,
    ensures
        ms == ds,
    decreases ms.len(),
{
    if ms.len() > 0 {
        lemma_entries_err_none(ms.drop_first(), ds.drop_first());
        assert(ms[0] == ds[0]);
        assert forall|i: int| 0 <= i < ms.len() implies ms[i] == ds[i] by {
            if i > 0 {
                assert(ms[i] == ms.drop_first()[i - 1]);
                assert(ds[i] == ds.drop_first()[i - 1]);
            }
        }
        assert(ms =~= ds);
    } else {
        assert(ms =~= ds);
    }
}

/// Verification succeeds exactly when the metadata's digest list is
/// the bundle's recomputed digest list and the aggregated package
/// digest matches.
pub proof fn lemma_verify_exact(m: PackageMetadata, fs: Seq<(Seq<char>, Seq<u8>)>)
    ensures
        verify_err(m, fs) is None <==> (dviews(m.files@) == bundle_digests(fs)
            && m.package_sha256@ == package_digest(bundle_digests(fs))),
{
    let ds = bundle_digests(fs);
    let ms = dviews(m.files@);
    if verify_err(m, fs) is None {
        lemma_entries_err_none(ms, ds);
    } else if ms == ds {
        lemma_entries_err_refl(ms);
    }
}

proof fn lemma_entries_err_refl(ms: Seq<(Seq<char>, u64, Seq<char>)>)
    ensures
        entries_err(ms, ms) is None,
    decreases ms.len(),
{
    if ms.len() > 0 {
        lemma_entries_err_refl(ms.drop_first());
    }
}

/// Walks the bundle, recomputes every digest, and compares against the
/// metadata: count, then path, size and digest of every file in order,
/// then the aggregated package digest.
pub fn verify_bundle_tree_against_metadata(files: &Vec<PackageFile>, metadata: &PackageMetadata) -> (r:
    Result<(), RegistryError>)
    ensures
        match r {
            Ok(_) => verify_err(*metadata, fviews(files@)) is None,
            Err(e) => verify_err(*metadata, fviews(files@)) == Some(
                e.kind(),
            ),
        },
{
    let ghost fs = fviews(files@);
    let ghost ms = dviews(metadata.files@);
    let digests = collect_file_digests(files);
    let ghost ds = bundle_digests(fs);
    let n = metadata.files.len();
    if n != digests.len() {
        return Err(RegistryError::FileCountMismatch(n, digests.len()));
    }
    let mut i: usize = 0;
    proof {
        assert(ms.skip(0) =~= ms);
        assert(ds.skip(0) =~= ds);
    }
    while i < n
        invariant
            n == ms.len() == ds.len(),
            i <= n,
            fs == fviews(files@),
            ms == dviews(metadata.files@),
            ds == bundle_digests(fs),
            ds == dviews(digests@),
            n == metadata.files@.len() == digests@.len(),
            entries_err(ms, ds) == entries_err(ms.skip(i as int), ds.skip(i as int)),
        decreases n - i,
    {
        let expected = &metadata.files[i];
        let actual = &digests[i];
        proof {
            assert(ms.skip(i as int)[0] == dview(metadata.files@[i as int]));
            assert(ds.skip(i as int)[0] == dview(digests@[i as int]));
        }
        if expected.path != actual.path {
            return Err(RegistryError::PathMismatch(expected.path.clone(), actual.path.clone()));
        }
        if expected.bytes != actual.bytes {
            return Err(
                RegistryError::SizeMismatch(expected.path.clone(), expected.bytes, actual.bytes),
            );
        }
        if expected.sha256 != actual.sha256 {
            return Err(RegistryError::DigestMismatch(expected.path.clone()));
        }
        proof {
            assert(ms.skip(i as int).drop_first() =~= ms.skip(i + 1));
            assert(ds.skip(i as int).drop_first() =~= ds.skip(i + 1));
        }
        i = i + 1;
    }
    proof {
        assert(ms.skip(n as int) =~= Seq::<(Seq<char>, u64, Seq<char>)>::empty());
        assert(entries_err(ms, ds) is None);
    }
    let actual_sha = aggregate_package_sha(&digests);
    if metadata.package_sha256 != actual_sha {
        return Err(RegistryError::PackageShaMismatch);
    }
    Ok(())
}

/// Result of a successful verification.
pub struct VerifyReport {
    pub metadata: PackageMetadata,
    pub verified_files: usize,
}

/// Checks access, then verifies the stored bundle against its
/// metadata.
pub fn verify_package(
    config: &RegistryConfig,
    token: Option<&str>,
    metadata: PackageMetadata,
    files: &Vec<PackageFile>,
) -> (r: Result<VerifyReport, RegistryError>)
    ensures
        match r {
            Ok(rep) => {
                &&& access_err(*config, provided_token(token)) is None
                &&& verify_err(metadata, fviews(files@)) is None
                &&& rep.metadata == metadata
                &&& rep.verified_files == metadata.files@.len()
            },
            Err(e) => match access_err(*config, provided_token(token)) {
                Some(k) => e.kind() == k,
                None => verify_err(metadata, fviews(files@)) == Some(
                    e.kind(),
                ),
            },
        },
{
    ensure_access(config, token)?;
    verify_bundle_tree_against_metadata(files, &metadata)?;
    let verified_files = metadata.files.len();
    Ok(VerifyReport { metadata, verified_files })
}

/// Result of a successful download.
pub struct DownloadReport {
    pub metadata: PackageMetadata,
}

/// Checks access and, when asked, verifies the stored bundle before it
/// is installed. Copying the files is the caller's part; verifying the
/// copy is another call of
/// [`verify_bundle_tree_against_metadata`].
pub fn download_package(
    config: &RegistryConfig,
    token: Option<&str>,
    metadata: PackageMetadata,
    files: &Vec<PackageFile>,
    verify_before_install: bool,
) -> (r: Result<DownloadReport, RegistryError>)
    ensures
        match r {
            Ok(rep) => {
                &&& access_err(*config, provided_token(token)) is None
                &&& verify_before_install ==> verify_err(
                    metadata,
                    fviews(files@),
                ) is None
                &&& rep.metadata == metadata
            },
            Err(e) => match access_err(*config, provided_token(token)) {
                Some(k) => e.kind() == k,
                None => verify_before_install && verify_err(
                    metadata,
                    fviews(files@),
                ) == Some(e.kind()),
            },
        },
{
    ensure_access(config, token)?;
    if verify_before_install {
        verify_bundle_tree_against_metadata(files, &metadata)?;
    }
    Ok(DownloadReport { metadata })
}

/// Abstract view of an index entry: name, version, resource name,
/// publication time, total size, package digest.
pub open spec fn sview(s: PackageSummary) -> (
    Seq<char>,
    Seq<char>,
    Seq<char>,
    u64,
    u64,
    Seq<char>,
) {
    (s.name@, s.version@, s.resource_name@, s.published_at_unix, s.total_bytes, s.package_sha256@)
}

/// Views of an index's entries, in order.
pub open spec fn sviews(ss: Seq<PackageSummary>) -> Seq<
    (Seq<char>, Seq<char>, Seq<char>, u64, u64, Seq<char>),
> {
    ss.map_values(|s: PackageSummary| sview(s))
}

/// The summary a metadata document contributes to the index.
pub open spec fn metadata_summary(m: PackageMetadata) -> (
    Seq<char>,
    Seq<char>,
    Seq<char>,
    u64,
    u64,
    Seq<char>,
) {
    (m.name@, m.version@, m.resource_name@, m.published_at_unix, m.total_bytes, m.package_sha256@)
}

/// Index order: by name, then by version.
pub open spec fn summary_le(
    a: (Seq<char>, Seq<char>, Seq<char>, u64, u64, Seq<char>),
    b: (Seq<char>, Seq<char>, Seq<char>, u64, u64, Seq<char>),
) -> bool {
    crate::strutil::lex_lt(a.0, b.0) || (a.0 == b.0 && lex_le(a.1, b.1))
}

/// `s` with `x` inserted before the suffix of strictly greater
/// entries; equal keys keep their order.
pub open spec fn insert_by_name_version(
    s: Seq<(Seq<char>, Seq<char>, Seq<char>, u64, u64, Seq<char>)>,
    x: (Seq<char>, Seq<char>, Seq<char>, u64, u64, Seq<char>),
) -> Seq<(Seq<char>, Seq<char>, Seq<char>, u64, u64, Seq<char>)>
    decreases s.len(),
{
    if s.len() > 0 && !summary_le(s.last(), x) {
        insert_by_name_version(s.drop_last(), x).push(s.last())
    } else {
        s.push(x)
    }
}

/// `s` sorted by name and version, stably.
pub open spec fn sort_by_name_version(
    s: Seq<(Seq<char>, Seq<char>, Seq<char>, u64, u64, Seq<char>)>,
) -> Seq<(Seq<char>, Seq<char>, Seq<char>, u64, u64, Seq<char>)>
    decreases s.len(),
{
    if s.len() == 0 {
        Seq::empty()
    } else {
        insert_by_name_version(sort_by_name_version(s.drop_last()), s.last())
    }
}

/// Index entries after a publication: every entry for the same name
/// and version is dropped, the new summary is added, and the whole is
/// sorted by name and version.
pub open spec fn index_entries_after(
    entries: Seq<(Seq<char>, Seq<char>, Seq<char>, u64, u64, Seq<char>)>,
    m: (Seq<char>, Seq<char>, Seq<char>, u64, u64, Seq<char>),
) -> Seq<(Seq<char>, Seq<char>, Seq<char>, u64, u64, Seq<char>)> {
    sort_by_name_version(
        entries.filter(
            |e: (Seq<char>, Seq<char>, Seq<char>, u64, u64, Seq<char>)|
                !(e.0 == m.0 && e.1 == m.1),
        ).push(m),
    )
}

fn clone_summary(s: &PackageSummary) -> (r: PackageSummary)
    ensures
        sview(r) == sview(*s),
{
    PackageSummary {
        name: s.name.clone(),
        version: s.version.clone(),
        resource_name: s.resource_name.clone(),
        published_at_unix: s.published_at_unix,
        total_bytes: s.total_bytes,
        package_sha256: s.package_sha256.clone(),
    }
}

fn summary_le_exec(a: &PackageSummary, b: &PackageSummary) -> (r: bool)
    ensures
        r == summary_le(sview(*a), sview(*b)),
{
    let an = chars_of(a.name.as_str());
    let bn = chars_of(b.name.as_str());
    if crate::strutil::lt_chars(&an, &bn) {
        return true;
    }
    if !crate::strutil::eq_chars(&an, &bn) {
        return false;
    }
    let av = chars_of(a.version.as_str());
    let bv = chars_of(b.version.as_str());
    le_chars(&av, &bv)
}

proof fn lemma_insert_summary_at(
    s: Seq<(Seq<char>, Seq<char>, Seq<char>, u64, u64, Seq<char>)>,
    x: (Seq<char>, Seq<char>, Seq<char>, u64, u64, Seq<char>),
    p: int,
)
    requires
        0 <= p <= s.len(),
        forall|j: int| p <= j < s.len() ==> !summary_le(#[trigger] s[j], x),
        p > 0 ==> summary_le(s[p - 1], x),
    ensures
        insert_by_name_version(s, x) == s.insert(p, x),
    decreases s.len() - p,
{
    if p == s.len() {
        if s.len() > 0 {
            assert(summary_le(s[s.len() - 1], x));
        }
        assert(s.push(x) =~= s.insert(p, x));
    } else {
        assert(!summary_le(s[s.len() - 1], x));
        lemma_insert_summary_at(s.drop_last(), x, p);
        assert(s.drop_last().insert(p, x).push(s.last()) =~= s.insert(p, x));
    }
}

fn find_insert_pos_summary(v: &Vec<PackageSummary>, x: &PackageSummary) -> (p: usize)
    ensures
        p <= v@.len(),
        forall|j: int|
            #![trigger v@[j]]
            p <= j < v@.len() ==> !summary_le(sview(v@[j]), sview(*x)),
        p > 0 ==> summary_le(sview(v@[p - 1]), sview(*x)),
{
    let mut p: usize = v.len();
    while p > 0
        invariant
            p <= v@.len(),
            forall|j: int|
                #![trigger v@[j]]
                p <= j < v@.len() ==> !summary_le(sview(v@[j]), sview(*x)),
        decreases p,
    {
        if summary_le_exec(&v[p - 1], x) {
            return p;
        }
        p = p - 1;
    }
    0
}

fn insert_summary(v: &mut Vec<PackageSummary>, x: PackageSummary)
    ensures
        sviews(final(v)@) == insert_by_name_version(sviews(old(v)@), sview(x)),
{
    let ghost s = sviews(old(v)@);
    let p = find_insert_pos_summary(v, &x);
    proof {
        assert forall|j: int| p <= j < s.len() implies !summary_le(#[trigger] s[j], sview(x)) by {
            assert(s[j] == sview(v@[j]));
        }
        lemma_insert_summary_at(s, sview(x), p as int);
    }
    v.insert(p, x);
    proof {
        assert(sviews(final(v)@) =~= s.insert(p as int, sview(x)));
    }
}

/// Rewrites the index for a fresh publication: entries for the same
/// name and version give way to the new summary, entries are sorted by
/// name and version, and the generation stamp is refreshed.
pub fn update_registry_index(index: RegistryIndex, metadata: &PackageMetadata, now: u64) -> (r:
    RegistryIndex)
    ensures
        r.schema_version == index.schema_version,
        r.generated_at_unix == now,
        sviews(r.packages@) == index_entries_after(
            sviews(index.packages@),
            metadata_summary(*metadata),
        ),
{
    let ghost entries = sviews(index.packages@);
    let ghost m = metadata_summary(*metadata);
    let ghost keep = |e: (Seq<char>, Seq<char>, Seq<char>, u64, u64, Seq<char>)|
        !(e.0 == m.0 && e.1 == m.1);
    let n = index.packages.len();
    let mut kept: Vec<PackageSummary> = Vec::new();
    let mut i: usize = 0;
    while i < n
        invariant
            n == index.packages@.len(),
            i <= n,
            entries == sviews(index.packages@),
            m == metadata_summary(*metadata),
            keep == (|e: (Seq<char>, Seq<char>, Seq<char>, u64, u64, Seq<char>)|
                !(e.0 == m.0 && e.1 == m.1)),
            sviews(kept@) == entries.take(i as int).filter(keep),
        decreases n - i,
    {
        let entry = &index.packages[i];
        proof {
            reveal_with_fuel(Seq::<_>::filter, 2);
            assert(entries.take(i + 1).drop_last() =~= entries.take(i as int));
            assert(entries.take(i + 1).last() == sview(index.packages@[i as int]));
        }
        let same = entry.name == metadata.name && entry.version == metadata.version;
        if !same {
            kept.push(clone_summary(entry));
            proof {
                assert(sviews(kept@).drop_last() =~= entries.take(i as int).filter(keep));
                assert(sviews(kept@) =~= entries.take(i + 1).filter(keep));
            }
        }
        i = i + 1;
    }
    proof {
        assert(entries.take(n as int) =~= entries);
    }
    kept.push(
        PackageSummary {
            name: metadata.name.clone(),
            version: metadata.version.clone(),
            resource_name: metadata.resource_name.clone(),
            published_at_unix: metadata.published_at_unix,
            total_bytes: metadata.total_bytes,
            package_sha256: metadata.package_sha256.clone(),
        },
    );
    let ghost listed = entries.filter(keep).push(m);
    proof {
        assert(sviews(kept@) =~= listed);
    }
    let kn = kept.len();
    let mut sorted: Vec<PackageSummary> = Vec::new();
    let mut i: usize = 0;
    while i < kn
        invariant
            kn == kept@.len(),
            i <= kn,
            listed == sviews(kept@),
            sviews(sorted@) == sort_by_name_version(listed.take(i as int)),
        decreases kn - i,
    {
        let entry = clone_summary(&kept[i]);
        proof {
            assert(listed.take(i + 1).drop_last() =~= listed.take(i as int));
            assert(listed.take(i + 1).last() == sview(kept@[i as int]));
        }
        insert_summary(&mut sorted, entry);
        i = i + 1;
    }
    proof {
        assert(listed.take(kn as int) =~= listed);
    }
    RegistryIndex {
        schema_version: index.schema_version,
        generated_at_unix: now,
        packages: sorted,
    }
}

/// Sum of the entry sizes of a digest list.
pub open spec fn sum_sizes(ts: Seq<(Seq<char>, u64, Seq<char>)>) -> int
    decreases ts.len(),
{
    if ts.len() == 0 {
        0
    } else {
        sum_sizes(ts.drop_last()) + ts.last().1
    }
}

/// `sum_sizes` clamped to what a `u64` holds.
pub open spec fn clamped_size(ts: Seq<(Seq<char>, u64, Seq<char>)>) -> int {
    if sum_sizes(ts) > u64::MAX {
        u64::MAX as int
    } else {
        sum_sizes(ts)
    }
}

fn total_size(digests: &Vec<PackageFileDigest>) -> (r: u64)
    ensures
        r == clamped_size(dviews(digests@)),
{
    let ghost ts = dviews(digests@);
    let n = digests.len();
    let mut total: u64 = 0;
    let mut i: usize = 0;
    while i < n
        invariant
            n == digests@.len(),
            i <= n,
            ts == dviews(digests@),
            total == clamped_size(ts.take(i as int)),
        decreases n - i,
    {
        proof {
            assert(ts.take(i + 1).drop_last() =~= ts.take(i as int));
            assert(ts.take(i + 1).last() == dview(digests@[i as int]));
        }
        total = total.saturating_add(digests[i].bytes);
        i = i + 1;
    }
    proof {
        assert(ts.take(n as int) =~= ts);
    }
    total
}

/// The package name to publish under: the explicit name if one was
/// given, else the bundle's resource name.
pub open spec fn name_source(package_name: Option<String>, resource_name: String) -> Seq<char> {
    match package_name {
        Some(n) => n@,
        None => resource_name@,
    }
}

/// Which error, if any, a publication raises, in the order the checks
/// run: access, package name, version, an existing package, an empty
/// payload.
pub open spec fn publish_err(
    config: RegistryConfig,
    provided: Seq<char>,
    name_src: Seq<char>,
    version: Seq<char>,
    package_exists: bool,
    files_len: int,
) -> Option<RegistryErrorKind> {
    if access_err(config, provided) is Some {
        access_err(config, provided)
    } else if trim_spec(name_src).len() == 0 {
        Some(RegistryErrorKind::RequiredFieldEmpty)
    } else if !ident_ok(trim_spec(name_src)) {
        Some(RegistryErrorKind::InvalidIdentifier)
    } else if trim_spec(version).len() == 0 {
        Some(RegistryErrorKind::RequiredFieldEmpty)
    } else if !ident_ok(trim_spec(version)) {
        Some(RegistryErrorKind::InvalidIdentifier)
    } else if package_exists {
        Some(RegistryErrorKind::PackageExists)
    } else if files_len == 0 {
        Some(RegistryErrorKind::EmptyPayload)
    } else {
        None
    }
}

/// What a successful publication hands back: the metadata to write and
/// the rewritten index.
pub struct PublishOutcome {
    pub metadata: PackageMetadata,
    pub index: RegistryIndex,
}

/// Publishes an in-memory bundle: checks access and identifiers,
/// digests every file, aggregates the package digest, and rewrites the
/// index. Copying the bundle into the registry and writing the two
/// documents is the caller's part; `package_exists` says whether the
/// target directory is already taken.
pub fn publish_package(
    config: &RegistryConfig,
    token: Option<&str>,
    package_name: Option<String>,
    version: String,
    resource_name: String,
    bundle_version: u32,
    files: &Vec<PackageFile>,
    package_exists: bool,
    index: RegistryIndex,
    now: u64,
) -> (r: Result<PublishOutcome, RegistryError>)
    ensures
        ({
            let err = publish_err(
                *config,
                provided_token(token),
                name_source(package_name, resource_name),
                version@,
                package_exists,
                files@.len() as int,
            );
            match r {
                Ok(o) => {
                    &&& err is None
                    &&& o.metadata.name@ == trim_spec(name_source(package_name, resource_name))
                    &&& o.metadata.version@ == trim_spec(version@)
                    &&& o.metadata.resource_name@ == resource_name@
                    &&& o.metadata.bundle_version == bundle_version
                    &&& o.metadata.published_at_unix == now
                    &&& dviews(o.metadata.files@) == bundle_digests(fviews(files@))
                    &&& o.metadata.package_sha256@ == package_digest(bundle_digests(fviews(files@)))
                    &&& o.metadata.total_bytes == clamped_size(bundle_digests(fviews(files@)))
                    &&& o.index.schema_version == index.schema_version
                    &&& o.index.generated_at_unix == now
                    &&& sviews(o.index.packages@) == index_entries_after(
                        sviews(index.packages@),
                        metadata_summary(o.metadata),
                    )
                },
                Err(e) => err == Some(e.kind()),
            }
        }),
{
    ensure_access(config, token)?;
    let name_raw = match &package_name {
        Some(n) => n.as_str(),
        None => resource_name.as_str(),
    };
    let name = normalize_required_field("package name", name_raw)?;
    validate_identifier("package name", name.as_str())?;
    let version = normalize_required_field("package version", version.as_str())?;
    validate_identifier("package version", version.as_str())?;
    if package_exists {
        return Err(RegistryError::PackageExists);
    }
    let digests = collect_file_digests(files);
    if digests.is_empty() {
        proof {
            assert(dviews(digests@).len() == 0);
            lemma_bundle_digests_len(fviews(files@));
        }
        return Err(RegistryError::EmptyPayload);
    }
    proof {
        lemma_bundle_digests_len(fviews(files@));
    }
    let total_bytes = total_size(&digests);
    let package_sha256 = aggregate_package_sha(&digests);
    let metadata = PackageMetadata {
        name,
        version,
        resource_name,
        bundle_version,
        published_at_unix: now,
        total_bytes,
        package_sha256,
        files: digests,
    };
    let index = update_registry_index(index, &metadata, now);
    Ok(PublishOutcome { metadata, index })
}

proof fn lemma_insert_by_path_len(
    s: Seq<(Seq<char>, u64, Seq<char>)>,
    x: (Seq<char>, u64, Seq<char>),
)
    ensures
        insert_by_path(s, x).len() == s.len() + 1,
    decreases s.len(),
{
    if s.len() > 0 && !lex_le(s.last().0, x.0) {
        lemma_insert_by_path_len(s.drop_last(), x);
    }
}

proof fn lemma_bundle_digests_len(fs: Seq<(Seq<char>, Seq<u8>)>)
    ensures
        bundle_digests(fs).len() == fs.len(),
    decreases fs.len(),
{
    if fs.len() > 0 {
        assert(digest_views(fs).drop_last() =~= digest_views(fs.drop_last()));
        lemma_sort_by_path_len(digest_views(fs));
    } else {
        assert(digest_views(fs) =~= Seq::<(Seq<char>, u64, Seq<char>)>::empty());
    }
}

proof fn lemma_sort_by_path_len(s: Seq<(Seq<char>, u64, Seq<char>)>)
    ensures
        sort_by_path(s).len() == s.len(),
    decreases s.len(),
{
    if s.len() > 0 {
        lemma_sort_by_path_len(s.drop_last());
        lemma_insert_by_path_len(sort_by_path(s.drop_last()), s.last());
    }
}

/// Metadata written by a successful publication verifies against the
/// bundle it was computed from.
pub proof fn lemma_publish_then_verify(m: PackageMetadata, fs: Seq<(Seq<char>, Seq<u8>)>)
    requires
        dviews(m.files@) == bundle_digests(fs),
        m.package_sha256@ == package_digest(bundle_digests(fs)),
    ensures
        verify_err(m, fs) is None,
{
    lemma_verify_exact(m, fs);
}

/// A changed bundle is detected as far as the digest reaches: once the
/// recomputed digest list differs from the metadata's — as any change
/// of a file's path, size or SHA-256 digest makes it differ —
/// verification fails. That a changed byte changes the SHA-256 itself
/// is the hash's collision resistance, which no contract states.
pub proof fn lemma_mutation_detected(m: PackageMetadata, fs: Seq<(Seq<char>, Seq<u8>)>)
    requires
        dviews(m.files@) != bundle_digests(fs) || m.package_sha256@ != package_digest(
            bundle_digests(fs),
        ),
    ensures
        verify_err(m, fs) is Some,
{
    lemma_verify_exact(m, fs);
}

/// Path of the registry's configuration file under its root.
pub fn registry_config_path(registry_root: &str) -> (r: String)
    ensures
        r@ == registry_root@ + "/registry.toml"@,
{
    let mut s = registry_root.to_owned();
    s.append("/registry.toml");
    s
}

/// Path of the registry's index file under its root.
pub fn registry_index_path(registry_root: &str) -> (r: String)
    ensures
        r@ == registry_root@ + "/index.json"@,
{
    let mut s = registry_root.to_owned();
    s.append("/index.json");
    s
}

/// Path of the registry's package tree under its root.
pub fn registry_packages_path(registry_root: &str) -> (r: String)
    ensures
        r@ == registry_root@ + "/packages"@,
{
    let mut s = registry_root.to_owned();
    s.append("/packages");
    s
}

/// Directory of one package version inside the registry.
pub fn package_root(registry_root: &str, name: &str, version: &str) -> (r: String)
    ensures
        r@ == registry_root@ + "/packages"@ + "/"@ + name@ + "/"@ + version@,
{
    let mut s = registry_packages_path(registry_root);
    s.append("/");
    s.append(name);
    s.append("/");
    s.append(version);
    s
}

fn owned(s: &str) -> (r: String)
    ensures
        r@ == s@,
{
    s.to_owned()
}

/// The registry's self-description: its endpoints, metadata fields,
/// and the private-registry rules.
pub fn registry_api_profile() -> (r: RegistryApiProfile)
    ensures
        r.api_version@ == "v1"@,
        r.schema_version == REGISTRY_SCHEMA_VERSION,
        r.endpoints@.len() == 4,
        r.endpoints@[0].method@ == "PUT"@,
        r.endpoints@[0].path@ == "/v1/packages/{name}/{version}"@,
        r.endpoints@[1].method@ == "GET"@,
        r.endpoints@[1].path@ == "/v1/packages/{name}/{version}"@,
        r.endpoints@[2].method@ == "GET"@,
        r.endpoints@[2].path@ == "/v1/packages/{name}/{version}/verify"@,
        r.endpoints@[3].method@ == "GET"@,
        r.endpoints@[3].path@ == "/v1/index"@,
        forall|i: int|
            0 <= i < 4 ==> (#[trigger] r.endpoints@[i]).auth@
                == "required for private registries"@,
        r.metadata_model.package_fields@.len() == 8,
        r.metadata_model.package_fields@[0]@ == "name"@,
        r.metadata_model.package_fields@[1]@ == "version"@,
        r.metadata_model.package_fields@[2]@ == "resource_name"@,
        r.metadata_model.package_fields@[3]@ == "bundle_version"@,
        r.metadata_model.package_fields@[4]@ == "published_at_unix"@,
        r.metadata_model.package_fields@[5]@ == "total_bytes"@,
        r.metadata_model.package_fields@[6]@ == "package_sha256"@,
        r.metadata_model.package_fields@[7]@ == "files"@,
        r.metadata_model.file_digest_fields@.len() == 3,
        r.metadata_model.file_digest_fields@[0]@ == "path"@,
        r.metadata_model.file_digest_fields@[1]@ == "bytes"@,
        r.metadata_model.file_digest_fields@[2]@ == "sha256"@,
        r.private_registry_contract@.len() == 3,
        r.private_registry_contract@[0]@ == "visibility=private requires configured auth_token"@,
        r.private_registry_contract@[1]@ == "all read/write actions require token match"@,
        r.private_registry_contract@[2]@ == "token is never returned in API payloads"@,
{
    let mut endpoints: Vec<RegistryEndpoint> = Vec::new();
    endpoints.push(
        RegistryEndpoint {
            method: owned("PUT"),
            path: owned("/v1/packages/{name}/{version}"),
            description: owned("Publish a package payload and metadata"),
            auth: owned("required for private registries"),
        },
    );
    endpoints.push(
        RegistryEndpoint {
            method: owned("GET"),
            path: owned("/v1/packages/{name}/{version}"),
            description: owned("Download package payload"),
            auth: owned("required for private registries"),
        },
    );
    endpoints.push(
        RegistryEndpoint {
            method: owned("GET"),
            path: owned("/v1/packages/{name}/{version}/verify"),
            description: owned("Verify package integrity against metadata digests"),
            auth: owned("required for private registries"),
        },
    );
    endpoints.push(
        RegistryEndpoint {
            method: owned("GET"),
            path: owned("/v1/index"),
            description: owned("List package summaries"),
            auth: owned("required for private registries"),
        },
    );
    let mut package_fields: Vec<String> = Vec::new();
    package_fields.push(owned("name"));
    package_fields.push(owned("version"));
    package_fields.push(owned("resource_name"));
    package_fields.push(owned("bundle_version"));
    package_fields.push(owned("published_at_unix"));
    package_fields.push(owned("total_bytes"));
    package_fields.push(owned("package_sha256"));
    package_fields.push(owned("files"));
    let mut file_digest_fields: Vec<String> = Vec::new();
    file_digest_fields.push(owned("path"));
    file_digest_fields.push(owned("bytes"));
    file_digest_fields.push(owned("sha256"));
    let mut private_registry_contract: Vec<String> = Vec::new();
    private_registry_contract.push(owned("visibility=private requires configured auth_token"));
    private_registry_contract.push(owned("all read/write actions require token match"));
    private_registry_contract.push(owned("token is never returned in API payloads"));
    RegistryApiProfile {
        api_version: owned("v1"),
        schema_version: REGISTRY_SCHEMA_VERSION,
        endpoints,
        metadata_model: RegistryMetadataModel { package_fields, file_digest_fields },
        private_registry_contract,
    }
}

/// Checks access and hands back the index's package summaries.
pub fn list_packages(config: &RegistryConfig, token: Option<&str>, index: RegistryIndex) -> (r:
    Result<Vec<PackageSummary>, RegistryError>)
    ensures
        match r {
            Ok(v) => {
                &&& access_err(*config, provided_token(token)) is None
                &&& index.schema_version == REGISTRY_SCHEMA_VERSION
                &&& v == index.packages
            },
            Err(e) => match access_err(*config, provided_token(token)) {
                Some(k) => e.kind() == k,
                None => e.kind() == RegistryErrorKind::UnsupportedSchemaVersion
                    && index.schema_version != REGISTRY_SCHEMA_VERSION,
            },
        },
{
    ensure_access(config, token)?;
    if index.schema_version != REGISTRY_SCHEMA_VERSION {
        return Err(RegistryError::UnsupportedSchemaVersion(index.schema_version));
    }
    Ok(index.packages)
}

} // verus!

//! Pairing-token store: short-lived six-digit pairing codes exchanged
//! for long-lived, role-scoped opaque tokens. The store is the pure
//! state machine; reading the clock at the edge and persisting the
//! token list are the caller's part, signalled through
//! [`PairingStore::needs_save`].

use vstd::prelude::*;

use crate::crypto::{base64url, base64url_of, random_bytes};
use crate::security::AccessRole;
use crate::strutil::{all_digits, dec_of, dec_pad, trim_spec};

verus! {

/// Seconds a pairing code stays claimable.
pub const PAIRING_CODE_TTL_SECS: u64 = 300;

/// Seconds a claimed token stays valid.
pub const PAIRING_TOKEN_TTL_SECS: u64 = 30 * 24 * 60 * 60;

/// Most enabled tokens the store will hold.
pub const PAIRING_MAX_TOKENS: usize = 256;

/// Random bytes behind each token: 256 bits.
pub const TOKEN_BYTES: usize = 32;

/// A pairing code handed to the operator.
pub struct PairingCode {
    pub code: String,
    pub expires_at: u64,
}

/// One stored token.
pub struct PairingToken {
    pub id: String,
    pub token: String,
    pub created_at: u64,
    pub enabled: bool,
    pub role: AccessRole,
    pub expires_at: u64,
}

/// What a listing shows of a token: everything but the secret, whose
/// last characters appear as `tail`.
pub struct PairingSummary {
    pub id: String,
    pub enabled: bool,
    pub created_at: u64,
    pub expires_at: u64,
    pub role: AccessRole,
    pub tail: String,
}

struct PendingCode {
    code: String,
    expires_at: u64,
}

/// The pairing store: its tokens, at most one outstanding code, and a
/// flag telling the caller the token list needs persisting.
pub struct PairingStore {
    tokens: Vec<PairingToken>,
    pending: Option<PendingCode>,
    dirty: bool,
}

/// Abstract view of a token: id, secret, creation time, enabled flag,
/// role, expiry.
pub open spec fn tview(t: PairingToken) -> (Seq<char>, Seq<char>, u64, bool, AccessRole, u64) {
    (t.id@, t.token@, t.created_at, t.enabled, t.role, t.expires_at)
}

/// Views of a token list, in order.
pub open spec fn tviews(ts: Seq<PairingToken>) -> Seq<
    (Seq<char>, Seq<char>, u64, bool, AccessRole, u64),
> {
    ts.map_values(|t: PairingToken| tview(t))
}

/// Tokens that are not yet expired at `now`.
pub open spec fn pruned(
    ts: Seq<(Seq<char>, Seq<char>, u64, bool, AccessRole, u64)>,
    now: u64,
) -> Seq<(Seq<char>, Seq<char>, u64, bool, AccessRole, u64)> {
    ts.filter(|t: (Seq<char>, Seq<char>, u64, bool, AccessRole, u64)| t.5 >= now)
}

/// How many tokens of the list are enabled.
pub open spec fn enabled_count(ts: Seq<(Seq<char>, Seq<char>, u64, bool, AccessRole, u64)>) -> int {
    ts.filter(|t: (Seq<char>, Seq<char>, u64, bool, AccessRole, u64)| t.3).len() as int
}

/// Role of the first enabled token whose secret is `tok`.
pub open spec fn find_role(
    ts: Seq<(Seq<char>, Seq<char>, u64, bool, AccessRole, u64)>,
    tok: Seq<char>,
) -> Option<AccessRole>
    decreases ts.len(),
{
    if ts.len() == 0 {
        None
    } else if ts[0].3 && ts[0].1 == tok {
        Some(ts[0].4)
    } else {
        find_role(ts.drop_first(), tok)
    }
}

/// A loaded token without an expiry gets one: its creation time plus
/// the token lifetime, pushed just past `now` if that already lies in
/// the past.
pub open spec fn normalized_token(
    t: (Seq<char>, Seq<char>, u64, bool, AccessRole, u64),
    now: u64,
) -> (Seq<char>, Seq<char>, u64, bool, AccessRole, u64) {
    if t.5 != 0 {
        t
    } else {
        let candidate = if t.2 + PAIRING_TOKEN_TTL_SECS > u64::MAX {
            u64::MAX
        } else {
            (t.2 + PAIRING_TOKEN_TTL_SECS) as u64
        };
        let fixed = if candidate <= now {
            (now + 1) as u64
        } else {
            candidate
        };
        (t.0, t.1, t.2, t.3, t.4, fixed)
    }
}

/// The operator role, handed out when no role was asked for.
pub fn default_token_role() -> (r: AccessRole)
    ensures
        r == AccessRole::Operator,
{
    AccessRole::Operator
}

/// The role a claim actually receives: the requested one, except that
/// an absent request means Operator and a request for Admin is
/// downgraded to Engineer.
pub open spec fn sanitized_role(role: Option<AccessRole>) -> AccessRole {
    match role {
        None => AccessRole::Operator,
        Some(AccessRole::Admin) => AccessRole::Engineer,
        Some(other) => other,
    }
}

/// Downgrades a requested role to what pairing may grant.
pub fn sanitize_requested_role(role: Option<AccessRole>) -> (r: AccessRole)
    ensures
        r == sanitized_role(role),
{
    match role {
        None => AccessRole::Operator,
        Some(AccessRole::Admin) => AccessRole::Engineer,
        Some(other) => other,
    }
}

fn generate_code() -> (r: String)
    ensures
        r@.len() == 6,
        all_digits(r@),
{
    let b = random_bytes(4);
    let v: u64 = b[0] as u64 + 256 * (b[1] as u64) + 65536 * (b[2] as u64) + 16777216 * (
    b[3] as u64);
    let code = v % 1000000;
    let r = crate::strutil::dec_u64_pad(code, 6);
    proof {
        lemma_dec_pad_digits(code as nat, 6);
    }
    r
}

proof fn lemma_dec_of_digits(n: nat)
    ensures
        all_digits(dec_of(n)),
        dec_of(n).len() >= 1,
    decreases n,
{
    if n < 10 {
        assert(dec_of(n) == seq![crate::strutil::digit_char(n)]);
    } else {
        lemma_dec_of_digits(n / 10);
        let s = dec_of(n);
        assert(s == dec_of(n / 10).push(crate::strutil::digit_char(n % 10)));
        assert forall|i: int| 0 <= i < s.len() implies crate::strutil::digit(#[trigger] s[i]) by {
            if i < s.len() - 1 {
                assert(s[i] == dec_of(n / 10)[i]);
            }
        }
    }
}

proof fn lemma_zeros_digits(k: nat)
    ensures
        crate::strutil::zeros(k).len() == k,
        all_digits(crate::strutil::zeros(k)),
    decreases k,
{
    if k > 0 {
        lemma_zeros_digits((k - 1) as nat);
        let s = crate::strutil::zeros(k);
        assert forall|i: int| 0 <= i < s.len() implies crate::strutil::digit(#[trigger] s[i]) by {
            if i < s.len() - 1 {
                assert(s[i] == crate::strutil::zeros((k - 1) as nat)[i]);
            }
        }
    }
}

proof fn lemma_dec_pad_digits(n: nat, w: nat)
    requires
        n < 1000000,
        w == 6,
    ensures
        dec_pad(n, w).len() == 6,
        all_digits(dec_pad(n, w)),
{
    lemma_dec_of_digits(n);
    crate::strutil::lemma_dec_of_len(n);
    let d = dec_of(n);
    if d.len() >= w {
        assert(dec_pad(n, w) == d);
        assert(d.len() == 6 ==> dec_pad(n, w).len() == 6);
    } else {
        lemma_zeros_digits((w - d.len()) as nat);
        let z = crate::strutil::zeros((w - d.len()) as nat);
        let s = z + d;
        assert forall|i: int| 0 <= i < s.len() implies crate::strutil::digit(#[trigger] s[i]) by {
            if i < z.len() {
                assert(s[i] == z[i]);
            } else {
                assert(s[i] == d[i - z.len()]);
            }
        }
    }
}

fn generate_token() -> (r: String)
    ensures
        exists|b: Seq<u8>| b.len() == TOKEN_BYTES && r@ == base64url_of(b),
        r@.len() == (TOKEN_BYTES * 4 + 2) / 3,
{
    let b = random_bytes(TOKEN_BYTES);
    let r = base64url(b.as_slice());
    proof {
        assert(b@.len() == TOKEN_BYTES && r@ == base64url_of(b@));
    }
    r
}

/// The masked tail a listing shows: an ellipsis, then the last four
/// characters of the secret (fewer if it is shorter).
pub open spec fn mask_spec(t: Seq<char>) -> Seq<char> {
    let from = if t.len() >= 4 {
        t.len() - 4
    } else {
        0
    };
    seq!['\u{2026}'] + t.subrange(from as int, t.len() as int)
}

/// Masks a token down to its last four characters.
pub fn mask_tail(token: &str) -> (r: String)
    ensures
        r@ == mask_spec(token@),
{
    let n = token.unicode_len();
    let from: usize = if n >= 4 {
        n - 4
    } else {
        0
    };
    let tail = token.substring_char(from, n);
    let mut r = String::from_str("\u{2026}");
    proof {
        reveal_strlit("\u{2026}");
    }
    r.append(tail);
    proof {
        assert(r@ =~= mask_spec(token@));
    }
    r
}

fn clone_token(t: &PairingToken) -> (r: PairingToken)
    ensures
        tview(r) == tview(*t),
{
    PairingToken {
        id: t.id.clone(),
        token: t.token.clone(),
        created_at: t.created_at,
        enabled: t.enabled,
        role: t.role,
        expires_at: t.expires_at,
    }
}

/// Drops expired tokens; returns the kept tokens and whether any left.
fn prune_expired_tokens(tokens: Vec<PairingToken>, now: u64) -> (r: (Vec<PairingToken>, bool))
    ensures
        tviews(r.0@) == pruned(tviews(tokens@), now),
        r.1 == (tviews(tokens@).len() != pruned(tviews(tokens@), now).len()),
{
    let ghost ts = tviews(tokens@);
    let ghost keep = |t: (Seq<char>, Seq<char>, u64, bool, AccessRole, u64)| t.5 >= now;
    let n = tokens.len();
    let mut kept: Vec<PairingToken> = Vec::new();
    let mut i: usize = 0;
    while i < n
        invariant
            n == tokens@.len(),
            i <= n,
            ts == tviews(tokens@),
            keep == (|t: (Seq<char>, Seq<char>, u64, bool, AccessRole, u64)| t.5 >= now),
            tviews(kept@) == ts.take(i as int).filter(keep),
        decreases n - i,
    {
        let t = &tokens[i];
        proof {
            reveal_with_fuel(Seq::<_>::filter, 2);
            assert(ts.take(i + 1).drop_last() =~= ts.take(i as int));
            assert(ts.take(i + 1).last() == tview(tokens@[i as int]));
        }
        if t.expires_at >= now {
            kept.push(clone_token(t));
            proof {
                assert(tviews(kept@).drop_last() =~= ts.take(i as int).filter(keep));
                assert(tviews(kept@) =~= ts.take(i + 1).filter(keep));
            }
        }
        i = i + 1;
    }
    proof {
        assert(ts.take(n as int) =~= ts);
        crate::strutil::lemma_filter_len_le(ts, keep);
    }
    let changed = kept.len() != n;
    (kept, changed)
}

impl PairingStore {
    /// The stored tokens' views, oldest first.
    pub closed spec fn token_views(&self) -> Seq<(Seq<char>, Seq<char>, u64, bool, AccessRole, u64)> {
        tviews(self.tokens@)
    }

    /// The outstanding pairing code, if one exists: its text and expiry.
    pub closed spec fn pending_view(&self) -> Option<(Seq<char>, u64)> {
        match self.pending {
            Some(p) => Some((p.code@, p.expires_at)),
            None => None,
        }
    }

    /// True when the token list changed since the caller last saved it.
    pub closed spec fn needs_save(&self) -> bool {
        self.dirty
    }

    /// Tells the caller whether the token list needs persisting.
    pub fn should_save(&self) -> (r: bool)
        ensures
            r == self.needs_save(),
    {
        self.dirty
    }

    /// A copy of the stored tokens, for persistence.
    pub fn tokens_snapshot(&self) -> (r: Vec<PairingToken>)
        ensures
            tviews(r@) == self.token_views(),
    {
        let n = self.tokens.len();
        let mut out: Vec<PairingToken> = Vec::new();
        let mut i: usize = 0;
        while i < n
            invariant
                n == self.tokens@.len(),
                i <= n,
                out@.len() == i as int,
                forall|j: int|
                    0 <= j < i ==> #[trigger] tviews(out@)[j] == self.token_views()[j],
            decreases n - i,
        {
            let ghost prev = out@;
            out.push(clone_token(&self.tokens[i]));
            i = i + 1;
            proof {
                assert forall|j: int| 0 <= j < i implies #[trigger] tviews(out@)[j]
                    == self.token_views()[j] by {
                    assert(tviews(out@)[j] == tview(out@[j]));
                    if j < i - 1 {
                        assert(out@[j] == prev[j]);
                        assert(tviews(prev)[j] == tview(prev[j]));
                    }
                    assert(self.token_views()[j] == tview(self.tokens@[j]));
                }
            }
        }
        proof {
            assert(tviews(out@) =~= self.token_views());
        }
        out
    }

    /// Records that the caller persisted the token list.
    pub fn mark_saved(&mut self)
        ensures
            !final(self).needs_save(),
            final(self).token_views() == old(self).token_views(),
            final(self).pending_view() == old(self).pending_view(),
    {
        self.dirty = false;
    }

    /// Builds a store from loaded tokens under an explicit clock
    /// reading: tokens without an expiry receive one.
    pub fn with_clock(tokens: Vec<PairingToken>, now: u64) -> (r: PairingStore)
        requires
            now < u64::MAX,
        ensures
            r.token_views().len() == tviews(tokens@).len(),
            forall|i: int|
                0 <= i < tviews(tokens@).len() ==> #[trigger] r.token_views()[i]
                    == normalized_token(tviews(tokens@)[i], now),
            r.pending_view() is None,
            !r.needs_save(),
    {
        let ghost ts = tviews(tokens@);
        let n = tokens.len();
        let mut fixed: Vec<PairingToken> = Vec::new();
        let mut i: usize = 0;
        while i < n
            invariant
                n == tokens@.len(),
                now < u64::MAX,
                i <= n,
                ts == tviews(tokens@),
                tviews(fixed@).len() == i as int,
                forall|j: int|
                    0 <= j < i ==> #[trigger] tviews(fixed@)[j] == normalized_token(ts[j], now),
            decreases n - i,
        {
            let t = &tokens[i];
            let mut c = clone_token(t);
            if c.expires_at == 0 {
                let candidate = c.created_at.saturating_add(PAIRING_TOKEN_TTL_SECS);
                c.expires_at = if candidate <= now {
                    now + 1
                } else {
                    candidate
                };
            }
            proof {
                assert(tview(c) == normalized_token(ts[i as int], now));
            }
            let ghost prev = fixed@;
            fixed.push(c);
            i = i + 1;
            proof {
                assert forall|j: int| 0 <= j < i implies #[trigger] tviews(fixed@)[j]
                    == normalized_token(ts[j], now) by {
                    assert(tviews(fixed@)[j] == tview(fixed@[j]));
                    if j < i - 1 {
                        assert(fixed@[j] == prev[j]);
                        assert(tviews(prev)[j] == tview(prev[j]));
                    } else {
                        assert(fixed@[j] == c);
                    }
                }
            }
        }
        PairingStore { tokens: fixed, pending: None, dirty: false }
    }

    /// Builds a store from loaded tokens under the wall clock.
    pub fn load(tokens: Vec<PairingToken>) -> (r: PairingStore)
        ensures
            r.pending_view() is None,
            !r.needs_save(),
            r.token_views().len() == tviews(tokens@).len(),
            forall|i: int|
                0 <= i < tviews(tokens@).len() ==> ({
                    let t = tviews(tokens@)[i];
                    let u = #[trigger] r.token_views()[i];
                    u.0 == t.0 && u.1 == t.1 && u.2 == t.2 && u.3 == t.3 && u.4 == t.4 && (t.5 != 0
                        ==> u.5 == t.5) && (t.5 == 0 ==> u.5 > 0)
                }),
    {
        let mut now = crate::clock::now_secs();
        if now == u64::MAX {
            now = u64::MAX - 1;
        }
        Self::with_clock(tokens, now)
    }

    /// Starts a pairing round: prunes expired tokens and replaces any
    /// outstanding code with a fresh six-digit one valid for
    /// [`PAIRING_CODE_TTL_SECS`].
    pub fn start_pairing(&mut self, now: u64) -> (r: PairingCode)
        requires
            now + PAIRING_CODE_TTL_SECS <= u64::MAX,
        ensures
            final(self).token_views() == pruned(old(self).token_views(), now),
            r.code@.len() == 6,
            all_digits(r.code@),
            r.expires_at == now + PAIRING_CODE_TTL_SECS,
            final(self).pending_view() == Some((r.code@, r.expires_at)),
            old(self).needs_save() ==> final(self).needs_save(),
            final(self).token_views() != old(self).token_views() ==> final(self).needs_save(),
    {
        let code = generate_code();
        let expires_at = now + PAIRING_CODE_TTL_SECS;
        self.prune(now);
        self.pending = Some(PendingCode { code: code.clone(), expires_at });
        PairingCode { code, expires_at }
    }

    fn prune(&mut self, now: u64)
        ensures
            final(self).token_views() == pruned(old(self).token_views(), now),
            final(self).pending_view() == old(self).pending_view(),
            old(self).needs_save() ==> final(self).needs_save(),
            final(self).token_views() != old(self).token_views() ==> final(self).needs_save(),
    {
        let mut tokens = Vec::new();
        core::mem::swap(&mut tokens, &mut self.tokens);
        let (kept, changed) = prune_expired_tokens(tokens, now);
        self.tokens = kept;
        if changed {
            self.dirty = true;
        }
        proof {
            if !changed {
                crate::strutil::lemma_filter_same_len(
                    old(self).token_views(),
                    |t: (Seq<char>, Seq<char>, u64, bool, AccessRole, u64)| t.5 >= now,
                );
            }
        }
    }

    fn count_enabled(&self) -> (r: usize)
        ensures
            r as int == enabled_count(self.token_views()),
    {
        let ghost ts = self.token_views();
        let ghost keep = |t: (Seq<char>, Seq<char>, u64, bool, AccessRole, u64)| t.3;
        let n = self.tokens.len();
        let mut count: usize = 0;
        let mut i: usize = 0;
        while i < n
            invariant
                n == self.tokens@.len(),
                i <= n,
                ts == self.token_views(),
                keep == (|t: (Seq<char>, Seq<char>, u64, bool, AccessRole, u64)| t.3),
                count <= i,
                count as int == ts.take(i as int).filter(keep).len(),
            decreases n - i,
        {
            proof {
                reveal_with_fuel(Seq::<_>::filter, 2);
                assert(ts.take(i + 1).drop_last() =~= ts.take(i as int));
                assert(ts.take(i + 1).last() == tview(self.tokens@[i as int]));
            }
            if self.tokens[i].enabled {
                count = count + 1;
            }
            i = i + 1;
        }
        proof {
            assert(ts.take(n as int) =~= ts);
        }
        count
    }

    /// Exchanges an outstanding pairing code for a fresh token. The
    /// code must still be valid and match after trimming; the role is
    /// downgraded as [`sanitized_role`] says; the store refuses more
    /// than [`PAIRING_MAX_TOKENS`] enabled tokens.
    pub fn claim(&mut self, code: &str, requested_role: Option<AccessRole>, now: u64) -> (r:
        Option<String>)
        requires
            now + PAIRING_TOKEN_TTL_SECS <= u64::MAX,
        ensures
            old(self).needs_save() ==> final(self).needs_save(),
            final(self).token_views() != old(self).token_views() ==> final(self).needs_save(),
            ({
                let pr = pruned(old(self).token_views(), now);
                match old(self).pending_view() {
                    None => r is None && final(self).token_views() == pr
                        && final(self).pending_view() is None,
                    Some(p) => if p.1 < now {
                        r is None && final(self).token_views() == pr
                            && final(self).pending_view() is None
                    } else if p.0 != trim_spec(code@) {
                        r is None && final(self).token_views() == pr && final(self).pending_view()
                            == Some(p)
                    } else if enabled_count(pr) >= PAIRING_MAX_TOKENS {
                        r is None && final(self).token_views() == pr
                            && final(self).pending_view() is None
                    } else {
                        &&& r is Some
                        &&& r->0@.len() == (TOKEN_BYTES * 4 + 2) / 3
                        &&& final(self).pending_view() is None
                        &&& final(self).token_views() == pr.push(
                            (
                                "pair-"@ + dec_of(now as nat),
                                r->0@,
                                now,
                                true,
                                sanitized_role(requested_role),
                                (now + PAIRING_TOKEN_TTL_SECS) as u64,
                            ),
                        )
                    },
                }
            }),
    {
        self.prune(now);
        let mut pending: Option<PendingCode> = None;
        core::mem::swap(&mut pending, &mut self.pending);
        let p = match pending {
            None => {
                return None;
            },
            Some(p) => p,
        };
        if p.expires_at < now {
            return None;
        }
        let trimmed = crate::strutil::trim_str(code);
        if p.code != trimmed {
            self.pending = Some(p);
            return None;
        }
        if self.count_enabled() >= PAIRING_MAX_TOKENS {
            return None;
        }
        let role = sanitize_requested_role(requested_role);
        let token = generate_token();
        let mut id = String::from_str("pair-");
        proof {
            reveal_strlit("pair-");
        }
        id.append(crate::strutil::dec_u64(now).as_str());
        let ghost before = self.token_views();
        self.tokens.push(
            PairingToken {
                id,
                token: token.clone(),
                created_at: now,
                enabled: true,
                role,
                expires_at: now + PAIRING_TOKEN_TTL_SECS,
            },
        );
        self.dirty = true;
        proof {
            assert(final(self).token_views() =~= before.push(
                (
                    "pair-"@ + dec_of(now as nat),
                    token@,
                    now,
                    true,
                    sanitized_role(requested_role),
                    (now + PAIRING_TOKEN_TTL_SECS) as u64,
                ),
            ));
            assert(final(self).token_views() != before);
        }
        Some(token)
    }

    /// Looks a token up: its role, when it is enabled and unexpired.
    pub fn validate_with_role(&mut self, token: &str, now: u64) -> (r: Option<AccessRole>)
        ensures
            final(self).token_views() == pruned(old(self).token_views(), now),
            final(self).pending_view() == old(self).pending_view(),
            old(self).needs_save() ==> final(self).needs_save(),
            final(self).token_views() != old(self).token_views() ==> final(self).needs_save(),
            r == find_role(pruned(old(self).token_views(), now), token@),
    {
        self.prune(now);
        let ghost ts = self.token_views();
        let tok = crate::strutil::chars_of(token);
        let n = self.tokens.len();
        let mut i: usize = 0;
        proof {
            assert(ts.skip(0) =~= ts);
        }
        while i < n
            invariant
                n == self.tokens@.len(),
                i <= n,
                ts == self.token_views(),
                self.token_views() == pruned(old(self).token_views(), now),
                self.pending_view() == old(self).pending_view(),
                old(self).needs_save() ==> self.needs_save(),
                self.token_views() != old(self).token_views() ==> self.needs_save(),
                tok@ == token@,
                find_role(ts, token@) == find_role(ts.skip(i as int), token@),
            decreases n - i,
        {
            let entry = &self.tokens[i];
            proof {
                assert(ts.skip(i as int)[0] == tview(self.tokens@[i as int]));
                assert(ts.skip(i as int).drop_first() =~= ts.skip(i + 1));
            }
            if entry.enabled {
                let ec = crate::strutil::chars_of(entry.token.as_str());
                if crate::strutil::eq_chars(&ec, &tok) {
                    return Some(entry.role);
                }
            }
            i = i + 1;
        }
        proof {
            assert(ts.skip(n as int)
                =~= Seq::<(Seq<char>, Seq<char>, u64, bool, AccessRole, u64)>::empty());
        }
        None
    }

    /// True exactly when the token is enabled and unexpired.
    pub fn validate(&mut self, token: &str, now: u64) -> (r: bool)
        ensures
            final(self).token_views() == pruned(old(self).token_views(), now),
            final(self).pending_view() == old(self).pending_view(),
            old(self).needs_save() ==> final(self).needs_save(),
            final(self).token_views() != old(self).token_views() ==> final(self).needs_save(),
            r == (find_role(pruned(old(self).token_views(), now), token@) is Some),
    {
        let role = self.validate_with_role(token, now);
        match role {
            Some(_) => true,
            None => false,
        }
    }

    /// Lists the stored tokens without revealing their secrets.
    pub fn list(&mut self, now: u64) -> (r: Vec<PairingSummary>)
        ensures
            final(self).token_views() == pruned(old(self).token_views(), now),
            final(self).pending_view() == old(self).pending_view(),
            old(self).needs_save() ==> final(self).needs_save(),
            final(self).token_views() != old(self).token_views() ==> final(self).needs_save(),
            r@.len() == pruned(old(self).token_views(), now).len(),
            forall|i: int|
                0 <= i < r@.len() ==> ({
                    let t = pruned(old(self).token_views(), now)[i];
                    let u = #[trigger] r@[i];
                    u.id@ == t.0 && u.enabled == t.3 && u.created_at == t.2 && u.expires_at == t.5
                        && u.role == t.4 && u.tail@ == mask_spec(t.1)
                }),
    {
        self.prune(now);
        let ghost ts = self.token_views();
        let n = self.tokens.len();
        let mut out: Vec<PairingSummary> = Vec::new();
        let mut i: usize = 0;
        while i < n
            invariant
                n == self.tokens@.len(),
                i <= n,
                ts == self.token_views(),
                out@.len() == i as int,
                forall|j: int|
                    0 <= j < i ==> ({
                        let t = ts[j];
                        let u = #[trigger] out@[j];
                        u.id@ == t.0 && u.enabled == t.3 && u.created_at == t.2 && u.expires_at
                            == t.5 && u.role == t.4 && u.tail@ == mask_spec(t.1)
                    }),
            decreases n - i,
        {
            let entry = &self.tokens[i];
            let summary = PairingSummary {
                id: entry.id.clone(),
                enabled: entry.enabled,
                created_at: entry.created_at,
                expires_at: entry.expires_at,
                role: entry.role,
                tail: mask_tail(entry.token.as_str()),
            };
            let ghost prev = out@;
            out.push(summary);
            i = i + 1;
            proof {
                assert forall|j: int| 0 <= j < i implies ({
                    let t = ts[j];
                    let u = #[trigger] out@[j];
                    u.id@ == t.0 && u.enabled == t.3 && u.created_at == t.2 && u.expires_at == t.5
                        && u.role == t.4 && u.tail@ == mask_spec(t.1)
                }) by {
                    if j < i - 1 {
                        assert(out@[j] == prev[j]);
                    }
                    assert(ts[j] == tview(self.tokens@[j]));
                }
            }
        }
        out
    }

    /// Disables every token with the given id; true when one existed.
    pub fn revoke(&mut self, id: &str, now: u64) -> (r: bool)
        ensures
            final(self).pending_view() == old(self).pending_view(),
            ({
                let pr = pruned(old(self).token_views(), now);
                &&& final(self).token_views().len() == pr.len()
                &&& forall|i: int|
                    0 <= i < pr.len() ==> ({
                        let t = pr[i];
                        let u = #[trigger] final(self).token_views()[i];
                        if t.0 == id@ {
                            u == (t.0, t.1, t.2, false, t.4, t.5)
                        } else {
                            u == t
                        }
                    })
                &&& r == exists|i: int| 0 <= i < pr.len() && (#[trigger] pr[i].0) == id@
            }),
    {
        self.prune(now);
        let ghost ts = self.token_views();
        let idc = crate::strutil::chars_of(id);
        let n = self.tokens.len();
        let mut out: Vec<PairingToken> = Vec::new();
        let mut changed = false;
        let mut i: usize = 0;
        while i < n
            invariant
                n == self.tokens@.len(),
                i <= n,
                ts == self.token_views(),
                idc@ == id@,
                out@.len() == i as int,
                changed == exists|j: int| 0 <= j < i && (#[trigger] ts[j].0) == id@,
                forall|j: int|
                    0 <= j < i ==> ({
                        let t = ts[j];
                        let u = #[trigger] tviews(out@)[j];
                        if t.0 == id@ {
                            u == (t.0, t.1, t.2, false, t.4, t.5)
                        } else {
                            u == t
                        }
                    }),
            decreases n - i,
        {
            let entry = &self.tokens[i];
            let mut c = clone_token(entry);
            let ec = crate::strutil::chars_of(entry.id.as_str());
            let matches_id = crate::strutil::eq_chars(&ec, &idc);
            if matches_id {
                c.enabled = false;
                changed = true;
            }
            let ghost prev = out@;
            out.push(c);
            i = i + 1;
            proof {
                assert(ts[i - 1] == tview(self.tokens@[i - 1]));
                assert forall|j: int| 0 <= j < i implies ({
                    let t = ts[j];
                    let u = #[trigger] tviews(out@)[j];
                    if t.0 == id@ {
                        u == (t.0, t.1, t.2, false, t.4, t.5)
                    } else {
                        u == t
                    }
                }) by {
                    assert(tviews(out@)[j] == tview(out@[j]));
                    if j < i - 1 {
                        assert(out@[j] == prev[j]);
                        assert(tviews(prev)[j] == tview(prev[j]));
                    }
                }
                if matches_id {
                    assert(ts[i - 1].0 == id@);
                } else {
                    assert(ts[i - 1].0 != id@);
                }
            }
        }
        self.tokens = out;
        if changed {
            self.dirty = true;
        }
        changed
    }

    /// Disables every enabled token; returns how many there were.
    pub fn revoke_all(&mut self, now: u64) -> (r: usize)
        ensures
            final(self).pending_view() == old(self).pending_view(),
            ({
                let pr = pruned(old(self).token_views(), now);
                &&& final(self).token_views().len() == pr.len()
                &&& forall|i: int|
                    0 <= i < pr.len() ==> ({
                        let t = pr[i];
                        (#[trigger] final(self).token_views()[i]) == (
                            t.0,
                            t.1,
                            t.2,
                            false,
                            t.4,
                            t.5,
                        )
                    })
                &&& r as int == enabled_count(pr)
            }),
    {
        self.prune(now);
        let count = self.count_enabled();
        let ghost ts = self.token_views();
        let n = self.tokens.len();
        let mut out: Vec<PairingToken> = Vec::new();
        let mut i: usize = 0;
        while i < n
            invariant
                n == self.tokens@.len(),
                i <= n,
                ts == self.token_views(),
                out@.len() == i as int,
                forall|j: int|
                    0 <= j < i ==> ({
                        let t = ts[j];
                        (#[trigger] tviews(out@)[j]) == (t.0, t.1, t.2, false, t.4, t.5)
                    }),
            decreases n - i,
        {
            let entry = &self.tokens[i];
            let mut c = clone_token(entry);
            c.enabled = false;
            let ghost prev = out@;
            out.push(c);
            i = i + 1;
            proof {
                assert(ts[i - 1] == tview(self.tokens@[i - 1]));
                assert forall|j: int| 0 <= j < i implies ({
                    let t = ts[j];
                    (#[trigger] tviews(out@)[j]) == (t.0, t.1, t.2, false, t.4, t.5)
                }) by {
                    assert(tviews(out@)[j] == tview(out@[j]));
                    if j < i - 1 {
                        assert(out@[j] == prev[j]);
                        assert(tviews(prev)[j] == tview(prev[j]));
                    }
                }
            }
        }
        self.tokens = out;
        if count > 0 {
            self.dirty = true;
        }
        count
    }
}

} // verus!

//! Passkey authentication: users register secp256r1 passkeys (WebAuthn credentials) next to
//! their ordinary account signature and can authenticate with either.
//!
//! `PasskeyAuth` holds the storage of the module: one authentication profile per user, the
//! registered credentials by credential id, and the outstanding WebAuthn challenges.
use crate::collections::{bytes_equal, BytesMap, IdMap};
use crate::crypto::{secp256r1_signature_valid, secp256r1_verify};
use crate::AccountId;
use vstd::prelude::*;
use vstd::utf8::encode_utf8;

verus! {

broadcast use vstd::std_specs::hash::group_hash_axioms;

/// Maximum number of passkey credentials per user.
pub const MAX_PASSKEYS_PER_USER: u32 = 3;

/// Challenge lifetime in seconds (5 minutes).
pub const CHALLENGE_EXPIRY_SECS: u64 = 5 * 60;

/// WebAuthn user verification requirement.
pub const USER_VERIFICATION_REQUIRED: bool = true;

/// How a user authenticates.
#[derive(Clone, Copy, Debug, PartialEq, Eq, Structural)]
pub enum AuthMethod {
    /// Ordinary account signature.
    Ed25519,
    /// Passkey (WebAuthn) signature.
    Secp256r1,
}

/// Errors of the passkey module; `code` gives each its contract error number.
#[derive(Clone, Copy, Debug, PartialEq, Eq, Structural)]
pub enum PasskeyError {
    InvalidSignature,
    InvalidCredential,
    CredentialNotFound,
    ChallengeExpired,
    ChallengeNotFound,
    TooManyCredentials,
    UnsupportedMethod,
    OriginMismatch,
    UserVerificationRequired,
    InvalidPublicKey,
    ProfileNotFound,
    CredentialInactive,
}

impl PasskeyError {
    /// The contract error number of this error.
    pub open spec fn error_code(self) -> u32 {
        match self {
            PasskeyError::InvalidSignature => 1001,
            PasskeyError::InvalidCredential => 1002,
            PasskeyError::CredentialNotFound => 1003,
            PasskeyError::ChallengeExpired => 1004,
            PasskeyError::ChallengeNotFound => 1005,
            PasskeyError::TooManyCredentials => 1006,
            PasskeyError::UnsupportedMethod => 1007,
            PasskeyError::OriginMismatch => 1008,
            PasskeyError::UserVerificationRequired => 1009,
            PasskeyError::InvalidPublicKey => 1010,
            PasskeyError::ProfileNotFound => 1011,
            PasskeyError::CredentialInactive => 1012,
        }
    }

    /// The contract error number of this error.
    pub fn code(&self) -> (c: u32)
        ensures
            c == self.error_code(),
    {
        match self {
            PasskeyError::InvalidSignature => 1001,
            PasskeyError::InvalidCredential => 1002,
            PasskeyError::CredentialNotFound => 1003,
            PasskeyError::ChallengeExpired => 1004,
            PasskeyError::ChallengeNotFound => 1005,
            PasskeyError::TooManyCredentials => 1006,
            PasskeyError::UnsupportedMethod => 1007,
            PasskeyError::OriginMismatch => 1008,
            PasskeyError::UserVerificationRequired => 1009,
            PasskeyError::InvalidPublicKey => 1010,
            PasskeyError::ProfileNotFound => 1011,
            PasskeyError::CredentialInactive => 1012,
        }
    }
}

/// A registered passkey.
#[derive(Debug)]
pub struct PasskeyCredential {
    /// The SEC-1 encoded secp256r1 public key (33 bytes when compressed).
    pub public_key: Vec<u8>,
    /// The WebAuthn credential id.
    pub credential_id: Vec<u8>,
    /// The origin this passkey is bound to.
    pub origin: String,
    /// Registration time.
    pub registered_at: u64,
    /// Whether the passkey may be used.
    pub is_active: bool,
}

/// The value of a `PasskeyCredential`.
pub struct CredentialView {
    pub public_key: Seq<u8>,
    pub credential_id: Seq<u8>,
    pub origin: Seq<char>,
    pub registered_at: u64,
    pub is_active: bool,
}

impl View for PasskeyCredential {
    type V = CredentialView;

    open spec fn view(&self) -> CredentialView {
        CredentialView {
            public_key: self.public_key@,
            credential_id: self.credential_id@,
            origin: self.origin@,
            registered_at: self.registered_at,
            is_active: self.is_active,
        }
    }
}

impl Clone for PasskeyCredential {
    fn clone(&self) -> (r: Self)
        ensures
            r@ == self@,
    {
        let r = PasskeyCredential {
            public_key: self.public_key.clone(),
            credential_id: self.credential_id.clone(),
            origin: self.origin.clone(),
            registered_at: self.registered_at,
            is_active: self.is_active,
        };
        assert(r.public_key@ =~= self.public_key@);
        assert(r.credential_id@ =~= self.credential_id@);
        r
    }
}

/// A passkey assertion: the signature and the data that was signed.
#[derive(Debug)]
pub struct PasskeySignature {
    /// The secp256r1 signature, `r || s` (64 bytes).
    pub signature: Vec<u8>,
    /// The authenticator data.
    pub auth_data: Vec<u8>,
    /// The client data JSON.
    pub client_data: Vec<u8>,
}

/// The value of a `PasskeySignature`.
pub struct SignatureView {
    pub signature: Seq<u8>,
    pub auth_data: Seq<u8>,
    pub client_data: Seq<u8>,
}

impl View for PasskeySignature {
    type V = SignatureView;

    open spec fn view(&self) -> SignatureView {
        SignatureView {
            signature: self.signature@,
            auth_data: self.auth_data@,
            client_data: self.client_data@,
        }
    }
}

impl Clone for PasskeySignature {
    fn clone(&self) -> (r: Self)
        ensures
            r@ == self@,
    {
        let r = PasskeySignature {
            signature: self.signature.clone(),
            auth_data: self.auth_data.clone(),
            client_data: self.client_data.clone(),
        };
        assert(r.signature@ =~= self.signature@);
        assert(r.auth_data@ =~= self.auth_data@);
        assert(r.client_data@ =~= self.client_data@);
        r
    }
}

/// A user's authentication profile.
#[derive(Debug)]
pub struct UserAuthProfile {
    /// The user's address.
    pub address: AccountId,
    /// The preferred authentication method.
    pub preferred_method: AuthMethod,
    /// The registered passkeys (at most `MAX_PASSKEYS_PER_USER`).
    pub passkey_credentials: Vec<PasskeyCredential>,
    /// Creation time of the profile.
    pub created_at: u64,
    /// Time of the last activity.
    pub last_active: u64,
}

/// The values of a sequence of credentials.
pub open spec fn credentials_view(v: Seq<PasskeyCredential>) -> Seq<CredentialView> {
    v.map_values(|c: PasskeyCredential| c@)
}

/// The value of a `UserAuthProfile`.
pub struct ProfileView {
    pub address: AccountId,
    pub preferred_method: AuthMethod,
    pub passkey_credentials: Seq<CredentialView>,
    pub created_at: u64,
    pub last_active: u64,
}

impl View for UserAuthProfile {
    type V = ProfileView;

    open spec fn view(&self) -> ProfileView {
        ProfileView {
            address: self.address,
            preferred_method: self.preferred_method,
            passkey_credentials: credentials_view(self.passkey_credentials@),
            created_at: self.created_at,
            last_active: self.last_active,
        }
    }
}

impl Clone for UserAuthProfile {
    fn clone(&self) -> (r: Self)
        ensures
            r@ == self@,
    {
        let creds = self.passkey_credentials.clone();
        let r = UserAuthProfile {
            address: self.address,
            preferred_method: self.preferred_method,
            passkey_credentials: creds,
            created_at: self.created_at,
            last_active: self.last_active,
        };
        assert(credentials_view(r.passkey_credentials@) =~= credentials_view(
            self.passkey_credentials@,
        ));
        r
    }
}

/// The profile a user gets on first registration.
pub open spec fn fresh_profile(user: AccountId, now: u64) -> ProfileView {
    ProfileView {
        address: user,
        preferred_method: AuthMethod::Secp256r1,
        passkey_credentials: Seq::empty(),
        created_at: now,
        last_active: now,
    }
}

impl UserAuthProfile {
    /// The profile a user gets on first registration.
    pub fn fresh(user: AccountId, now: u64) -> (p: Self)
        ensures
            p@ == fresh_profile(user, now),
    {
        let p = UserAuthProfile {
            address: user,
            preferred_method: AuthMethod::Secp256r1,
            passkey_credentials: Vec::new(),
            created_at: now,
            last_active: now,
        };
        assert(credentials_view(p.passkey_credentials@) =~= Seq::<CredentialView>::empty());
        p
    }
}

/// Some credential in `creds` has the id `id`.
pub open spec fn has_credential_id(creds: Seq<CredentialView>, id: Seq<u8>) -> bool {
    exists|i: int| 0 <= i < creds.len() && creds[i].credential_id == id
}

/// `creds` with every credential of id `id` left out, keeping their order.
pub open spec fn without_credential(creds: Seq<CredentialView>, id: Seq<u8>) -> Seq<CredentialView>
    decreases creds.len(),
{
    if creds.len() == 0 {
        creds
    } else {
        let rest = without_credential(creds.drop_last(), id);
        if creds.last().credential_id == id {
            rest
        } else {
            rest.push(creds.last())
        }
    }
}

/// No two credentials in `creds` share an id.
pub open spec fn credential_ids_distinct(creds: Seq<CredentialView>) -> bool {
    forall|i: int, j: int|
        0 <= i < creds.len() && 0 <= j < creds.len() && i != j ==> creds[i].credential_id
            != creds[j].credential_id
}

/// A stored profile is consistent: it belongs to the user it is stored under, holds at most
/// `MAX_PASSKEYS_PER_USER` passkeys with distinct ids, and prefers passkeys only when it has one.
pub open spec fn profile_well_formed(p: ProfileView, user: AccountId) -> bool {
    &&& p.address == user
    &&& p.passkey_credentials.len() <= MAX_PASSKEYS_PER_USER
    &&& credential_ids_distinct(p.passkey_credentials)
    &&& p.preferred_method == AuthMethod::Secp256r1 ==> p.passkey_credentials.len() > 0
}

/// The value of the passkey module's storage.
pub struct PasskeyStateView {
    pub profiles: Map<AccountId, ProfileView>,
    pub credentials: Map<Seq<u8>, CredentialView>,
    pub challenges: Map<AccountId, Seq<u8>>,
    pub challenge_timestamps: Map<AccountId, u64>,
}

impl PasskeyStateView {
    /// Every stored profile is consistent.
    pub open spec fn well_formed(self) -> bool {
        forall|u: AccountId| #[trigger]
            self.profiles.contains_key(u) ==> profile_well_formed(self.profiles[u], u)
    }

    /// The profile of `user`, or the one a first registration creates.
    pub open spec fn profile_or_fresh(self, user: AccountId, now: u64) -> ProfileView {
        if self.profiles.contains_key(user) {
            self.profiles[user]
        } else {
            fresh_profile(user, now)
        }
    }
}

/// The credential a registration creates.
pub open spec fn new_credential(
    public_key: Seq<u8>,
    credential_id: Seq<u8>,
    origin: Seq<char>,
    now: u64,
) -> CredentialView {
    CredentialView { public_key, credential_id, origin, registered_at: now, is_active: true }
}

/// Outcome of `register_passkey`: the result and the storage afterwards.
pub open spec fn register_passkey_spec(
    s: PasskeyStateView,
    user: AccountId,
    public_key: Seq<u8>,
    credential_id: Seq<u8>,
    origin: Seq<char>,
    now: u64,
) -> (Result<(), PasskeyError>, PasskeyStateView) {
    let p = s.profile_or_fresh(user, now);
    let c = new_credential(public_key, credential_id, origin, now);
    if p.passkey_credentials.len() >= MAX_PASSKEYS_PER_USER {
        (Err(PasskeyError::TooManyCredentials), s)
    } else if has_credential_id(p.passkey_credentials, credential_id) {
        (Err(PasskeyError::InvalidCredential), s)
    } else {
        let np = ProfileView {
            address: p.address,
            preferred_method: AuthMethod::Secp256r1,
            passkey_credentials: p.passkey_credentials.push(c),
            created_at: p.created_at,
            last_active: now,
        };
        (
            Ok(()),
            PasskeyStateView {
                profiles: s.profiles.insert(user, np),
                credentials: s.credentials.insert(credential_id, c),
                challenges: s.challenges,
                challenge_timestamps: s.challenge_timestamps,
            },
        )
    }
}

/// The message a passkey signs: the authenticator data followed by the client data.
pub open spec fn webauthn_message(sig: SignatureView) -> Seq<u8> {
    sig.auth_data + sig.client_data
}

/// `needle` occurs in `hay` as a run of consecutive bytes.
pub open spec fn carries(hay: Seq<u8>, needle: Seq<u8>) -> bool {
    exists|i: int| 0 <= i && i + needle.len() <= hay.len() && #[trigger] hay.subrange(i, i + needle.len()) == needle
}

/// Offset of the flags byte in WebAuthn authenticator data (after the 32-byte RP id hash).
pub const AUTH_DATA_FLAGS_INDEX: usize = 32;

/// The user-verified (UV) bit of the authenticator data flags.
pub const USER_VERIFIED_FLAG: u8 = 4;

/// The authenticator reports that it verified the user (the UV flag is set).
pub open spec fn user_verified(auth_data: Seq<u8>) -> bool {
    auth_data.len() > AUTH_DATA_FLAGS_INDEX && auth_data[AUTH_DATA_FLAGS_INDEX as int] & USER_VERIFIED_FLAG
        != 0
}

/// `user` registered a passkey with id `credential_id`.
pub open spec fn owns_credential(s: PasskeyStateView, user: AccountId, credential_id: Seq<u8>) -> bool {
    s.profiles.contains_key(user) && has_credential_id(s.profiles[user].passkey_credentials, credential_id)
}

/// Outcome of `authenticate_with_passkey`: the result and the storage afterwards.
pub open spec fn authenticate_spec(
    s: PasskeyStateView,
    user: AccountId,
    sig: SignatureView,
    credential_id: Seq<u8>,
    now: u64,
) -> (Result<bool, PasskeyError>, PasskeyStateView) {
    if !s.credentials.contains_key(credential_id) {
        (Err(PasskeyError::CredentialNotFound), s)
    } else if !s.credentials[credential_id].is_active {
        (Err(PasskeyError::CredentialInactive), s)
    } else if !owns_credential(s, user, credential_id) {
        (Err(PasskeyError::InvalidCredential), s)
    } else if !carries(sig.client_data, encode_utf8(s.credentials[credential_id].origin)) {
        (Err(PasskeyError::OriginMismatch), s)
    } else if USER_VERIFICATION_REQUIRED && !user_verified(sig.auth_data) {
        (Err(PasskeyError::UserVerificationRequired), s)
    } else if !s.challenges.contains_key(user) || !s.challenge_timestamps.contains_key(user)
        || !carries(sig.client_data, s.challenges[user]) {
        (Err(PasskeyError::ChallengeNotFound), s)
    } else if now > s.challenge_timestamps[user] + CHALLENGE_EXPIRY_SECS {
        (Err(PasskeyError::ChallengeExpired), s)
    } else if !secp256r1_signature_valid(
        s.credentials[credential_id].public_key,
        webauthn_message(sig),
        sig.signature,
    ) {
        (Err(PasskeyError::InvalidSignature), s)
    } else {
        let p = s.profiles[user];
        let np = ProfileView { last_active: now, ..p };
        (
            Ok(true),
            PasskeyStateView {
                profiles: s.profiles.insert(user, np),
                credentials: s.credentials,
                challenges: s.challenges.remove(user),
                challenge_timestamps: s.challenge_timestamps.remove(user),
            },
        )
    }
}

/// Outcome of `remove_passkey`: the result and the storage afterwards.
pub open spec fn remove_passkey_spec(
    s: PasskeyStateView,
    user: AccountId,
    credential_id: Seq<u8>,
    now: u64,
) -> (Result<(), PasskeyError>, PasskeyStateView) {
    if !s.profiles.contains_key(user) {
        (Err(PasskeyError::ProfileNotFound), s)
    } else if !has_credential_id(s.profiles[user].passkey_credentials, credential_id) {
        (Err(PasskeyError::CredentialNotFound), s)
    } else {
        let p = s.profiles[user];
        let kept = without_credential(p.passkey_credentials, credential_id);
        let np = ProfileView {
            address: p.address,
            preferred_method: if kept.len() == 0 {
                AuthMethod::Ed25519
            } else {
                p.preferred_method
            },
            passkey_credentials: kept,
            created_at: p.created_at,
            last_active: now,
        };
        (
            Ok(()),
            PasskeyStateView {
                profiles: s.profiles.insert(user, np),
                credentials: s.credentials.remove(credential_id),
                challenges: s.challenges,
                challenge_timestamps: s.challenge_timestamps,
            },
        )
    }
}

/// Outcome of `set_preferred_auth_method`: the result and the storage afterwards.
pub open spec fn set_preferred_spec(
    s: PasskeyStateView,
    user: AccountId,
    method: AuthMethod,
    now: u64,
) -> (Result<(), PasskeyError>, PasskeyStateView) {
    if !s.profiles.contains_key(user) {
        (Err(PasskeyError::ProfileNotFound), s)
    } else if method == AuthMethod::Secp256r1 && s.profiles[user].passkey_credentials.len() == 0 {
        (Err(PasskeyError::CredentialNotFound), s)
    } else {
        let p = s.profiles[user];
        let np = ProfileView {
            address: p.address,
            preferred_method: method,
            passkey_credentials: p.passkey_credentials,
            created_at: p.created_at,
            last_active: now,
        };
        (
            Ok(()),
            PasskeyStateView {
                profiles: s.profiles.insert(user, np),
                credentials: s.credentials,
                challenges: s.challenges,
                challenge_timestamps: s.challenge_timestamps,
            },
        )
    }
}

/// The eight big-endian bytes of `x`.
pub open spec fn u64_be_bytes(x: u64) -> Seq<u8> {
    seq![
        (x >> 56u64) as u8,
        (x >> 48u64) as u8,
        (x >> 40u64) as u8,
        (x >> 32u64) as u8,
        (x >> 24u64) as u8,
        (x >> 16u64) as u8,
        (x >> 8u64) as u8,
        x as u8,
    ]
}

/// Outcome of `generate_challenge`: the challenge issued and the storage afterwards.
pub open spec fn generate_challenge_spec(
    s: PasskeyStateView,
    user: AccountId,
    now: u64,
    random_bytes: Seq<u8>,
) -> (Seq<u8>, PasskeyStateView) {
    let challenge = u64_be_bytes(now) + random_bytes;
    (
        challenge,
        PasskeyStateView {
            challenges: s.challenges.insert(user, challenge),
            challenge_timestamps: s.challenge_timestamps.insert(user, now),
            ..s
        },
    )
}

/// Outcome of `verify_challenge_valid`.
pub open spec fn challenge_check_spec(
    s: PasskeyStateView,
    user: AccountId,
    challenge: Seq<u8>,
    now: u64,
) -> Result<bool, PasskeyError> {
    if s.challenges.contains_key(user) && s.challenge_timestamps.contains_key(user) {
        if s.challenges[user] == challenge {
            if now <= s.challenge_timestamps[user] + CHALLENGE_EXPIRY_SECS {
                Ok(true)
            } else {
                Err(PasskeyError::ChallengeExpired)
            }
        } else {
            Err(PasskeyError::ChallengeNotFound)
        }
    } else {
        Err(PasskeyError::ChallengeNotFound)
    }
}

/// What the caller must still do after `require_auth_enhanced` accepts.
#[derive(Clone, Copy, Debug, PartialEq, Eq, Structural)]
pub enum AuthRequirement {
    /// The ordinary account authorization (`require_auth`) of the user is required.
    AccountAuth,
    /// A passkey signature was verified; nothing more is required.
    PasskeyVerified,
}

/// The storage of the passkey module.
pub struct PasskeyAuth {
    /// Authentication profile of each user.
    pub profiles: IdMap<AccountId, UserAuthProfile>,
    /// Registered credentials by credential id.
    pub credentials: BytesMap<PasskeyCredential>,
    /// The last challenge issued to each user.
    pub challenges: IdMap<AccountId, Vec<u8>>,
    /// When that challenge was issued.
    pub challenge_timestamps: IdMap<AccountId, u64>,
}

impl View for PasskeyAuth {
    type V = PasskeyStateView;

    open spec fn view(&self) -> PasskeyStateView {
        PasskeyStateView {
            profiles: self.profiles@,
            credentials: self.credentials@,
            challenges: self.challenges@,
            challenge_timestamps: self.challenge_timestamps@,
        }
    }
}

/// Whether some credential in `creds` has the id `id`.
fn contains_credential_id(creds: &Vec<PasskeyCredential>, id: &Vec<u8>) -> (r: bool)
    ensures
        r == has_credential_id(credentials_view(creds@), id@),
{
    let mut i: usize = 0;
    while i < creds.len()
        invariant
            i <= creds.len(),
            forall|j: int| 0 <= j < i ==> creds@[j].credential_id@ != id@,
        decreases creds.len() - i,
    {
        if bytes_equal(&creds[i].credential_id, id) {
            assert(credentials_view(creds@)[i as int].credential_id == id@);
            return true;
        }
        i = i + 1;
    }
    assert forall|j: int| 0 <= j < credentials_view(creds@).len() implies credentials_view(
        creds@,
    )[j].credential_id != id@ by {
        assert(creds@[j].credential_id@ != id@);
    }
    false
}

/// Whether `needle` occurs in `hay` at offset `at`.
fn run_at(hay: &[u8], needle: &[u8], at: usize) -> (r: bool)
    requires
        at + needle@.len() <= hay@.len(),
    ensures
        r == (hay@.subrange(at as int, at + needle@.len()) == needle@),
{
    let n = hay.len();
    let mut j: usize = 0;
    while j < needle.len()
        invariant
            at + needle@.len() <= hay@.len(),
            n == hay@.len(),
            j <= needle.len(),
            forall|m: int| 0 <= m < j ==> hay@[at + m] == needle@[m],
        decreases needle.len() - j,
    {
        if hay[at + j] != needle[j] {
            assert(hay@.subrange(at as int, at + needle@.len())[j as int] != needle@[j as int]);
            return false;
        }
        j = j + 1;
    }
    assert(hay@.subrange(at as int, at + needle@.len()) =~= needle@);
    true
}

/// Whether `needle` occurs in `hay` as a run of consecutive bytes.
fn contains_run(hay: &[u8], needle: &[u8]) -> (r: bool)
    ensures
        r == carries(hay@, needle@),
{
    if needle.len() > hay.len() {
        return false;
    }
    let last = hay.len() - needle.len();
    let mut i: usize = 0;
    while i < last
        invariant
            i <= last,
            last + needle.len() == hay.len(),
            forall|k: int| 0 <= k < i ==> #[trigger] hay@.subrange(k, k + needle@.len()) != needle@,
        decreases last - i,
    {
        if run_at(hay, needle, i) {
            return true;
        }
        i = i + 1;
    }
    let found = run_at(hay, needle, last);
    assert forall|k: int| 0 <= k && k + needle@.len() <= hay@.len() && k != last implies #[trigger] hay@.subrange(
        k,
        k + needle@.len(),
    ) != needle@ by {
        assert(k < i);
    }
    found
}

/// Whether the authenticator data reports that the user was verified.
fn has_user_verified_flag(auth_data: &Vec<u8>) -> (r: bool)
    ensures
        r == user_verified(auth_data@),
{
    auth_data.len() > AUTH_DATA_FLAGS_INDEX && auth_data[AUTH_DATA_FLAGS_INDEX] & USER_VERIFIED_FLAG != 0
}

/// Whether `user` registered a passkey with id `credential_id`.
fn user_owns_credential(auth: &PasskeyAuth, user: AccountId, credential_id: &Vec<u8>) -> (r: bool)
    ensures
        r == owns_credential(auth@, user, credential_id@),
{
    match auth.profiles.get(user) {
        Some(p) => contains_credential_id(&p.passkey_credentials, credential_id),
        None => false,
    }
}

/// Facts about `without_credential`.
pub proof fn lemma_without_credential(creds: Seq<CredentialView>, id: Seq<u8>)
    ensures
        without_credential(creds, id).len() <= creds.len(),
        forall|j: int|
            0 <= j < without_credential(creds, id).len() ==> (exists|i: int|
                0 <= i < creds.len() && creds[i] == #[trigger] without_credential(creds, id)[j]),
        forall|j: int|
            0 <= j < without_credential(creds, id).len() ==> #[trigger] without_credential(
                creds,
                id,
            )[j].credential_id != id,
        credential_ids_distinct(creds) ==> credential_ids_distinct(without_credential(creds, id)),
        !has_credential_id(creds, id) ==> without_credential(creds, id) == creds,
        has_credential_id(creds, id) && credential_ids_distinct(creds) ==> without_credential(
            creds,
            id,
        ).len() + 1 == creds.len(),
    decreases creds.len(),
{
    if creds.len() > 0 {
        let t = creds.drop_last();
        lemma_without_credential(t, id);
        let w = without_credential(t, id);
        let last = creds.last();
        assert forall|j: int|
            0 <= j < without_credential(creds, id).len() implies (exists|i: int|
                0 <= i < creds.len() && creds[i] == #[trigger] without_credential(
                    creds,
                    id,
                )[j]) by {
            if last.credential_id == id || j < w.len() {
                let i = choose|i: int| 0 <= i < t.len() && t[i] == w[j];
                assert(creds[i] == t[i]);
            } else {
                assert(creds[creds.len() - 1] == last);
            }
        }
        if credential_ids_distinct(creds) {
            assert(credential_ids_distinct(t)) by {
                assert forall|a: int, b: int|
                    0 <= a < t.len() && 0 <= b < t.len() && a != b implies t[a].credential_id
                    != t[b].credential_id by {
                    assert(t[a] == creds[a]);
                    assert(t[b] == creds[b]);
                }
            }
            if last.credential_id != id {
                let r = w.push(last);
                assert forall|a: int, b: int|
                    0 <= a < r.len() && 0 <= b < r.len() && a != b implies r[a].credential_id
                    != r[b].credential_id by {
                    if a < w.len() && b < w.len() {
                        assert(r[a] == w[a] && r[b] == w[b]);
                    } else if a < w.len() {
                        let i = choose|i: int| 0 <= i < t.len() && t[i] == w[a];
                        assert(creds[i] == t[i]);
                        assert(creds[creds.len() - 1] == last);
                    } else {
                        let i = choose|i: int| 0 <= i < t.len() && t[i] == w[b];
                        assert(creds[i] == t[i]);
                        assert(creds[creds.len() - 1] == last);
                    }
                }
            }
        }
        if !has_credential_id(creds, id) {
            assert(!has_credential_id(t, id)) by {
                if has_credential_id(t, id) {
                    let i = choose|i: int| 0 <= i < t.len() && t[i].credential_id == id;
                    assert(creds[i] == t[i]);
                }
            }
            assert(last.credential_id != id) by {
                assert(creds[creds.len() - 1] == last);
            }
            assert(t.push(last) =~= creds);
        }
        if has_credential_id(creds, id) && credential_ids_distinct(creds) {
            assert(credential_ids_distinct(t)) by {
                assert forall|a: int, b: int|
                    0 <= a < t.len() && 0 <= b < t.len() && a != b implies t[a].credential_id
                    != t[b].credential_id by {
                    assert(t[a] == creds[a]);
                    assert(t[b] == creds[b]);
                }
            }
            if last.credential_id == id {
                assert(!has_credential_id(t, id)) by {
                    if has_credential_id(t, id) {
                        let i = choose|i: int| 0 <= i < t.len() && t[i].credential_id == id;
                        assert(creds[i] == t[i]);
                        assert(creds[creds.len() - 1] == last);
                    }
                }
            } else {
                assert(has_credential_id(t, id)) by {
                    let i = choose|i: int| 0 <= i < creds.len() && creds[i].credential_id == id;
                    assert(i != creds.len() - 1);
                    assert(creds[i] == t[i]);
                }
            }
        }
    }
}

/// The credentials of `creds` whose id differs from `id`, and whether any had that id.
fn credentials_without(creds: &Vec<PasskeyCredential>, id: &Vec<u8>) -> (r: (
    Vec<PasskeyCredential>,
    bool,
))
    ensures
        credentials_view(r.0@) == without_credential(credentials_view(creds@), id@),
        r.1 == has_credential_id(credentials_view(creds@), id@),
{
    let ghost cv = credentials_view(creds@);
    let mut kept: Vec<PasskeyCredential> = Vec::new();
    let mut found = false;
    let mut i: usize = 0;
    while i < creds.len()
        invariant
            i <= creds.len(),
            cv == credentials_view(creds@),
            credentials_view(kept@) == without_credential(cv.take(i as int), id@),
            found == has_credential_id(cv.take(i as int), id@),
        decreases creds.len() - i,
    {
        let ghost before = cv.take(i as int);
        assert(cv.take(i + 1).drop_last() =~= before);
        assert(cv.take(i + 1).last() == creds@[i as int]@);
        if bytes_equal(&creds[i].credential_id, id) {
            found = true;
        } else {
            kept.push(creds[i].clone());
            assert(credentials_view(kept@) =~= without_credential(before, id@).push(
                creds@[i as int]@,
            ));
        }
        proof {
            let after = cv.take(i + 1);
            if has_credential_id(after, id@) && !has_credential_id(before, id@) {
                let j = choose|j: int| 0 <= j < after.len() && after[j].credential_id == id@;
                if j < i {
                    assert(before[j] == after[j]);
                }
            }
            if has_credential_id(before, id@) {
                let j = choose|j: int| 0 <= j < before.len() && before[j].credential_id == id@;
                assert(before[j] == after[j]);
            }
        }
        i = i + 1;
    }
    assert(cv.take(creds.len() as int) =~= cv);
    (kept, found)
}

/// The eight big-endian bytes of `x`.
fn u64_to_be_bytes(x: u64) -> (r: Vec<u8>)
    ensures
        r@ == u64_be_bytes(x),
{
    let mut r: Vec<u8> = Vec::new();
    r.push((x >> 56u64) as u8);
    r.push((x >> 48u64) as u8);
    r.push((x >> 40u64) as u8);
    r.push((x >> 32u64) as u8);
    r.push((x >> 24u64) as u8);
    r.push((x >> 16u64) as u8);
    r.push((x >> 8u64) as u8);
    r.push(x as u8);
    assert(r@ =~= u64_be_bytes(x));
    r
}

/// `a` followed by `b`.
fn concat_bytes(a: &Vec<u8>, b: &Vec<u8>) -> (r: Vec<u8>)
    ensures
        r@ == a@ + b@,
{
    let mut r: Vec<u8> = Vec::new();
    let mut i: usize = 0;
    while i < a.len()
        invariant
            i <= a.len(),
            r@ == a@.take(i as int),
        decreases a.len() - i,
    {
        r.push(a[i]);
        assert(r@ =~= a@.take(i + 1));
        i = i + 1;
    }
    let mut j: usize = 0;
    while j < b.len()
        invariant
            j <= b.len(),
            r@ == a@ + b@.take(j as int),
            a@.take(a.len() as int) == a@,
        decreases b.len() - j,
    {
        r.push(b[j]);
        assert(r@ =~= a@ + b@.take(j + 1));
        j = j + 1;
    }
    assert(a@ + b@.take(b.len() as int) =~= a@ + b@);
    r
}

/// The message a passkey signs: the authenticator data followed by the client data.
pub fn create_webauthn_message(auth_data: &Vec<u8>, client_data: &Vec<u8>) -> (message: Vec<u8>)
    ensures
        message@ == auth_data@ + client_data@,
{
    concat_bytes(auth_data, client_data)
}

impl PasskeyAuth {
    /// Storage with no profiles, credentials or challenges.
    pub fn new() -> (s: Self)
        ensures
            s@.profiles == Map::<AccountId, ProfileView>::empty(),
            s@.credentials == Map::<Seq<u8>, CredentialView>::empty(),
            s@.challenges == Map::<AccountId, Seq<u8>>::empty(),
            s@.challenge_timestamps == Map::<AccountId, u64>::empty(),
            s@.well_formed(),
    {
        PasskeyAuth {
            profiles: IdMap::new(),
            credentials: BytesMap::new(),
            challenges: IdMap::new(),
            challenge_timestamps: IdMap::new(),
        }
    }

    /// Registers a passkey for `user` at time `now` (the caller has checked the user's
    /// authorization). Fails with `TooManyCredentials` when the user already has
    /// `MAX_PASSKEYS_PER_USER` passkeys and with `InvalidCredential` when one of them has the
    /// same credential id; otherwise the credential is appended to the user's profile (created
    /// on first use, preferring passkeys) and stored under its id.
    pub fn register_passkey(
        &mut self,
        user: AccountId,
        public_key: Vec<u8>,
        credential_id: Vec<u8>,
        origin: String,
        now: u64,
    ) -> (r: Result<(), PasskeyError>)
        ensures
            (r, final(self)@) == register_passkey_spec(
                old(self)@,
                user,
                public_key@,
                credential_id@,
                origin@,
                now,
            ),
            old(self)@.well_formed() ==> final(self)@.well_formed(),
    {
        let ghost s = self@;
        let (count, duplicate) = match self.profiles.get(user) {
            Some(p) => (
                p.passkey_credentials.len(),
                contains_credential_id(&p.passkey_credentials, &credential_id),
            ),
            None => (0, false),
        };
        if count >= MAX_PASSKEYS_PER_USER as usize {
            return Err(PasskeyError::TooManyCredentials);
        }
        if duplicate {
            return Err(PasskeyError::InvalidCredential);
        }
        let new_cred = PasskeyCredential {
            public_key,
            credential_id: credential_id.clone(),
            origin,
            registered_at: now,
            is_active: true,
        };
        assert(new_cred@.credential_id =~= credential_id@);
        let mut profile = match self.profiles.remove(user) {
            Some(p) => p,
            None => UserAuthProfile::fresh(user, now),
        };
        let ghost p0 = profile@;
        profile.passkey_credentials.push(new_cred.clone());
        profile.preferred_method = AuthMethod::Secp256r1;
        profile.last_active = now;
        assert(profile@.passkey_credentials =~= p0.passkey_credentials.push(new_cred@));
        self.profiles.insert(user, profile);
        self.credentials.insert(credential_id, new_cred);
        proof {
            assert(self@.profiles =~= s.profiles.insert(user, profile@));
            if s.well_formed() {
                let np = profile@;
                assert forall|u: AccountId| #[trigger]
                    self@.profiles.contains_key(u) implies profile_well_formed(
                    self@.profiles[u],
                    u,
                ) by {
                    if u == user {
                        let cs = np.passkey_credentials;
                        assert forall|a: int, b: int|
                            0 <= a < cs.len() && 0 <= b < cs.len() && a != b implies cs[a].credential_id
                            != cs[b].credential_id by {
                            if a < cs.len() - 1 && b < cs.len() - 1 {
                                assert(cs[a] == p0.passkey_credentials[a]);
                                assert(cs[b] == p0.passkey_credentials[b]);
                            } else if a < cs.len() - 1 {
                                assert(cs[a] == p0.passkey_credentials[a]);
                            } else {
                                assert(cs[b] == p0.passkey_credentials[b]);
                            }
                        }
                    }
                }
            }
        }
        Ok(())
    }

    /// Authenticates `user` with a passkey assertion made with the credential `credential_id`
    /// at time `now`. The checks, in order: `CredentialNotFound` when no credential has that
    /// id, `CredentialInactive` when it is deactivated, `InvalidCredential` when it is not one
    /// of `user`'s passkeys, `OriginMismatch` when the client data does not name the origin
    /// the passkey is bound to, `UserVerificationRequired` when the authenticator data lacks
    /// the user-verified flag, `ChallengeNotFound` when the client data does not carry the
    /// challenge last issued to `user`, `ChallengeExpired` when that challenge is more than
    /// `CHALLENGE_EXPIRY_SECS` old, and `InvalidSignature` when the signature over the
    /// WebAuthn message does not verify under the passkey's public key. On success the
    /// challenge is used up, so the same assertion is not accepted twice, and the user's last
    /// activity becomes `now`.
    pub fn authenticate_with_passkey(
        &mut self,
        user: AccountId,
        signature: PasskeySignature,
        credential_id: Vec<u8>,
        now: u64,
    ) -> (r: Result<bool, PasskeyError>)
        ensures
            (r, final(self)@) == authenticate_spec(
                old(self)@,
                user,
                signature@,
                credential_id@,
                now,
            ),
            old(self)@.well_formed() ==> final(self)@.well_formed(),
    {
        let ghost s = self@;
        let valid = match self.credentials.get(&credential_id) {
            None => {
                return Err(PasskeyError::CredentialNotFound);
            },
            Some(c) => {
                if !c.is_active {
                    return Err(PasskeyError::CredentialInactive);
                }
                if !user_owns_credential(self, user, &credential_id) {
                    return Err(PasskeyError::InvalidCredential);
                }
                if !contains_run(signature.client_data.as_slice(), c.origin.as_str().as_bytes()) {
                    return Err(PasskeyError::OriginMismatch);
                }
                if USER_VERIFICATION_REQUIRED && !has_user_verified_flag(&signature.auth_data) {
                    return Err(PasskeyError::UserVerificationRequired);
                }
                let (challenge, issued_at) = match (
                    self.challenges.get(user),
                    self.challenge_timestamps.get(user),
                ) {
                    (Some(ch), Some(t)) => (ch, *t),
                    _ => {
                        return Err(PasskeyError::ChallengeNotFound);
                    },
                };
                if !contains_run(signature.client_data.as_slice(), challenge.as_slice()) {
                    return Err(PasskeyError::ChallengeNotFound);
                }
                if now > issued_at && now - issued_at > CHALLENGE_EXPIRY_SECS {
                    return Err(PasskeyError::ChallengeExpired);
                }
                let message = create_webauthn_message(&signature.auth_data, &signature.client_data);
                secp256r1_verify(&c.public_key, &message, &signature.signature)
            },
        };
        if !valid {
            return Err(PasskeyError::InvalidSignature);
        }
        self.challenges.remove(user);
        self.challenge_timestamps.remove(user);
        match self.profiles.remove(user) {
            Some(mut p) => {
                p.last_active = now;
                self.profiles.insert(user, p);
                assert(self@.profiles =~= s.profiles.insert(user, p@));
            },
            None => {
                proof {
                    assert(false);
                }
            },
        }
        proof {
            if s.well_formed() {
                assert forall|u: AccountId| #[trigger]
                    self@.profiles.contains_key(u) implies profile_well_formed(self@.profiles[u], u) by {
                    assert(s.profiles.contains_key(u));
                }
            }
        }
        Ok(true)
    }

    /// Issues a fresh WebAuthn challenge to `user` at time `now`: the eight big-endian bytes of
    /// `now` followed by `random_bytes` (32 bytes drawn from the host's random generator by the
    /// contract entry point). The challenge and its time replace any earlier ones.
    pub fn generate_challenge(&mut self, user: AccountId, now: u64, random_bytes: &Vec<u8>) -> (challenge:
        Vec<u8>)
        ensures
            (challenge@, final(self)@) == generate_challenge_spec(old(self)@, user, now, random_bytes@),
            old(self)@.well_formed() ==> final(self)@.well_formed(),
    {
        let prefix = u64_to_be_bytes(now);
        let challenge = concat_bytes(&prefix, random_bytes);
        let stored = challenge.clone();
        assert(stored@ =~= challenge@);
        self.challenges.insert(user, stored);
        self.challenge_timestamps.insert(user, now);
        challenge
    }

    /// Ordinary account signatures are checked by the host's account authorization, so this
    /// accepts every input.
    pub fn verify_ed25519_signature(
        &self,
        user: AccountId,
        message: &Vec<u8>,
        signature: &Vec<u8>,
    ) -> (r: Result<bool, PasskeyError>)
        ensures
            r == Ok::<bool, PasskeyError>(true),
    {
        Ok(true)
    }

    /// The authentication profile of `user`, or `ProfileNotFound`.
    pub fn get_auth_profile(&self, user: AccountId) -> (r: Result<UserAuthProfile, PasskeyError>)
        ensures
            match r {
                Ok(p) => self@.profiles.contains_key(user) && p@ == self@.profiles[user],
                Err(e) => !self@.profiles.contains_key(user) && e == PasskeyError::ProfileNotFound,
            },
    {
        match self.profiles.get(user) {
            Some(p) => Ok(p.clone()),
            None => Err(PasskeyError::ProfileNotFound),
        }
    }

    /// Removes the passkey `credential_id` from `user`'s profile at time `now` (the caller has
    /// checked the user's authorization). Fails with `ProfileNotFound` or
    /// `CredentialNotFound`; otherwise the credential leaves the profile and the credential
    /// store, and a profile left without passkeys falls back to account signatures.
    pub fn remove_passkey(&mut self, user: AccountId, credential_id: &Vec<u8>, now: u64) -> (r:
        Result<(), PasskeyError>)
        ensures
            (r, final(self)@) == remove_passkey_spec(old(self)@, user, credential_id@, now),
            old(self)@.well_formed() ==> final(self)@.well_formed(),
    {
        let ghost s = self@;
        let (kept, found) = match self.profiles.get(user) {
            Some(p) => credentials_without(&p.passkey_credentials, credential_id),
            None => {
                return Err(PasskeyError::ProfileNotFound);
            },
        };
        if !found {
            return Err(PasskeyError::CredentialNotFound);
        }
        let _ = self.credentials.remove(credential_id);
        match self.profiles.remove(user) {
            Some(mut profile) => {
                let ghost p0 = profile@;
                profile.passkey_credentials = kept;
                profile.last_active = now;
                if profile.passkey_credentials.len() == 0 {
                    profile.preferred_method = AuthMethod::Ed25519;
                }
                self.profiles.insert(user, profile);
                proof {
                    assert(self@.profiles =~= s.profiles.insert(user, profile@));
                    lemma_without_credential(p0.passkey_credentials, credential_id@);
                    if s.well_formed() {
                        assert(profile_well_formed(s.profiles[user], user));
                        assert forall|u: AccountId| #[trigger]
                            self@.profiles.contains_key(u) implies profile_well_formed(
                            self@.profiles[u],
                            u,
                        ) by {
                            if u != user {
                                assert(s.profiles.contains_key(u));
                            }
                        }
                    }
                }
            },
            None => {},
        }
        Ok(())
    }

    /// Sets `user`'s preferred authentication method at time `now` (the caller has checked the
    /// user's authorization). Fails with `ProfileNotFound`, or with `CredentialNotFound` when
    /// passkeys are chosen but none is registered.
    pub fn set_preferred_auth_method(&mut self, user: AccountId, method: AuthMethod, now: u64) -> (r:
        Result<(), PasskeyError>)
        ensures
            (r, final(self)@) == set_preferred_spec(old(self)@, user, method, now),
            old(self)@.well_formed() ==> final(self)@.well_formed(),
    {
        let ghost s = self@;
        let count = match self.profiles.get(user) {
            Some(p) => p.passkey_credentials.len(),
            None => {
                return Err(PasskeyError::ProfileNotFound);
            },
        };
        match method {
            AuthMethod::Secp256r1 => {
                if count == 0 {
                    return Err(PasskeyError::CredentialNotFound);
                }
            },
            AuthMethod::Ed25519 => {},
        }
        match self.profiles.remove(user) {
            Some(mut profile) => {
                profile.preferred_method = method;
                profile.last_active = now;
                self.profiles.insert(user, profile);
                proof {
                    assert(self@.profiles =~= s.profiles.insert(user, profile@));
                    if s.well_formed() {
                        assert(profile_well_formed(s.profiles[user], user));
                        assert forall|u: AccountId| #[trigger]
                            self@.profiles.contains_key(u) implies profile_well_formed(
                            self@.profiles[u],
                            u,
                        ) by {
                            if u != user {
                                assert(s.profiles.contains_key(u));
                            }
                        }
                    }
                }
            },
            None => {},
        }
        Ok(())
    }
}

/// Checks `challenge` against the challenge last issued to `user` at time `now`: `Ok(true)`
/// while it is at most `CHALLENGE_EXPIRY_SECS` old, `ChallengeExpired` afterwards, and
/// `ChallengeNotFound` when no challenge (or a different one) is on record.
pub fn verify_challenge_valid(auth: &PasskeyAuth, user: AccountId, challenge: &Vec<u8>, now: u64) -> (r:
    Result<bool, PasskeyError>)
    requires
        auth@.challenges.contains_key(user) && auth@.challenge_timestamps.contains_key(user)
            && auth@.challenges[user] == challenge@ ==> auth@.challenge_timestamps[user]
            + CHALLENGE_EXPIRY_SECS <= u64::MAX,
    ensures
        r == challenge_check_spec(auth@, user, challenge@, now),
{
    let stored = auth.challenges.get(user);
    let timestamp = auth.challenge_timestamps.get(user);
    match (stored, timestamp) {
        (Some(stored), Some(timestamp)) => {
            if bytes_equal(stored, challenge) {
                if now <= *timestamp + CHALLENGE_EXPIRY_SECS {
                    Ok(true)
                } else {
                    Err(PasskeyError::ChallengeExpired)
                }
            } else {
                Err(PasskeyError::ChallengeNotFound)
            }
        },
        _ => Err(PasskeyError::ChallengeNotFound),
    }
}

/// Expired challenges are kept: storage is left as it is.
pub fn cleanup_expired_challenges(auth: &PasskeyAuth) {
}

/// Authenticates `user` with either method at time `now`. Without a profile, or when the
/// chosen method (`auth_method`, else the preferred one) is the account signature, the
/// caller must still require the account's authorization (`AccountAuth`). With passkeys, a
/// missing signature fails with `InvalidSignature`, a missing credential id with
/// `CredentialNotFound`, and otherwise the outcome is that of `authenticate_with_passkey`.
pub fn require_auth_enhanced(
    auth: &mut PasskeyAuth,
    user: AccountId,
    auth_method: Option<AuthMethod>,
    passkey_signature: Option<PasskeySignature>,
    credential_id: Option<Vec<u8>>,
    now: u64,
) -> (r: Result<AuthRequirement, PasskeyError>)
    ensures
        !old(auth)@.profiles.contains_key(user) ==> r == Ok::<AuthRequirement, PasskeyError>(
            AuthRequirement::AccountAuth,
        ) && final(auth)@ == old(auth)@,
        old(auth)@.profiles.contains_key(user) ==> {
            let method = match auth_method {
                Some(m) => m,
                None => old(auth)@.profiles[user].preferred_method,
            };
            match method {
                AuthMethod::Ed25519 => r == Ok::<AuthRequirement, PasskeyError>(
                    AuthRequirement::AccountAuth,
                ) && final(auth)@ == old(auth)@,
                AuthMethod::Secp256r1 => match (passkey_signature, credential_id) {
                    (None, _) => r == Err::<AuthRequirement, PasskeyError>(
                        PasskeyError::InvalidSignature,
                    ) && final(auth)@ == old(auth)@,
                    (Some(_), None) => r == Err::<AuthRequirement, PasskeyError>(
                        PasskeyError::CredentialNotFound,
                    ) && final(auth)@ == old(auth)@,
                    (Some(sig), Some(id)) => {
                        let (ar, s2) = authenticate_spec(old(auth)@, user, sig@, id@, now);
                        &&& final(auth)@ == s2
                        &&& match ar {
                            Ok(_) => r == Ok::<AuthRequirement, PasskeyError>(
                                AuthRequirement::PasskeyVerified,
                            ),
                            Err(e) => r == Err::<AuthRequirement, PasskeyError>(e),
                        }
                    },
                },
            }
        },
        old(auth)@.well_formed() ==> final(auth)@.well_formed(),
{
    let method = match auth.profiles.get(user) {
        None => {
            return Ok(AuthRequirement::AccountAuth);
        },
        Some(profile) => match auth_method {
            Some(m) => m,
            None => profile.preferred_method,
        },
    };
    match method {
        AuthMethod::Ed25519 => Ok(AuthRequirement::AccountAuth),
        AuthMethod::Secp256r1 => {
            let signature = match passkey_signature {
                Some(s) => s,
                None => {
                    return Err(PasskeyError::InvalidSignature);
                },
            };
            let cred_id = match credential_id {
                Some(c) => c,
                None => {
                    return Err(PasskeyError::CredentialNotFound);
                },
            };
            match auth.authenticate_with_passkey(user, signature, cred_id, now) {
                Ok(is_valid) => {
                    if is_valid {
                        Ok(AuthRequirement::PasskeyVerified)
                    } else {
                        Err(PasskeyError::InvalidSignature)
                    }
                },
                Err(e) => Err(e),
            }
        },
    }
}

/// Removing a passkey right after registering it gives the user back the passkeys they had
/// before the registration, and the credential id is no longer stored.
pub proof fn lemma_register_then_remove_restores_passkeys(
    s: PasskeyStateView,
    user: AccountId,
    public_key: Seq<u8>,
    credential_id: Seq<u8>,
    origin: Seq<char>,
    registered_at: u64,
    removed_at: u64,
)
    requires
        s.well_formed(),
        register_passkey_spec(s, user, public_key, credential_id, origin, registered_at).0 is Ok,
    ensures
        ({
            let s1 = register_passkey_spec(s, user, public_key, credential_id, origin, registered_at).1;
            let (r2, s2) = remove_passkey_spec(s1, user, credential_id, removed_at);
            &&& r2 is Ok
            &&& s2.profiles[user].passkey_credentials == s.profile_or_fresh(
                user,
                registered_at,
            ).passkey_credentials
            &&& !s2.credentials.contains_key(credential_id)
        }),
{
    let p = s.profile_or_fresh(user, registered_at);
    let c = new_credential(public_key, credential_id, origin, registered_at);
    let creds = p.passkey_credentials.push(c);
    assert(creds.last() == c);
    assert(creds.drop_last() =~= p.passkey_credentials);
    assert(has_credential_id(creds, credential_id)) by {
        assert(creds[creds.len() - 1].credential_id == credential_id);
    }
    lemma_without_credential(p.passkey_credentials, credential_id);
}

/// A challenge just issued to a user verifies while it is at most five minutes (300 seconds)
/// old and is reported expired afterwards.
pub proof fn lemma_issued_challenge_verifies_until_expiry(
    s: PasskeyStateView,
    user: AccountId,
    issued_at: u64,
    random_bytes: Seq<u8>,
    checked_at: u64,
)
    requires
        issued_at + CHALLENGE_EXPIRY_SECS <= u64::MAX,
    ensures
        ({
            let (challenge, s1) = generate_challenge_spec(s, user, issued_at, random_bytes);
            challenge_check_spec(s1, user, challenge, checked_at) == if checked_at <= issued_at
                + 300 {
                Ok::<bool, PasskeyError>(true)
            } else {
                Err(PasskeyError::ChallengeExpired)
            }
        }),
{
}

/// A challenge other than the one last issued to the user is never accepted.
pub proof fn lemma_other_challenge_rejected(
    s: PasskeyStateView,
    user: AccountId,
    issued_at: u64,
    random_bytes: Seq<u8>,
    other: Seq<u8>,
    checked_at: u64,
)
    requires
        other != u64_be_bytes(issued_at) + random_bytes,
    ensures
        challenge_check_spec(
            generate_challenge_spec(s, user, issued_at, random_bytes).1,
            user,
            other,
            checked_at,
        ) == Err::<bool, PasskeyError>(PasskeyError::ChallengeNotFound),
{
}

/// A passkey authentication is accepted only for an active passkey of the user itself,
/// with client data that names the passkey's origin and carries the unexpired challenge last
/// issued to the user, a user-verified authenticator, and a signature over the WebAuthn
/// message that the passkey's public key verifies. A refused attempt changes nothing; an
/// accepted one uses up the challenge and changes nothing else but the user's last activity.
pub proof fn lemma_authentication_requirements(
    s: PasskeyStateView,
    user: AccountId,
    sig: SignatureView,
    credential_id: Seq<u8>,
    now: u64,
)
    ensures
        ({
            let (r, s1) = authenticate_spec(s, user, sig, credential_id, now);
            &&& r is Ok ==> {
                &&& s.credentials.contains_key(credential_id)
                &&& s.credentials[credential_id].is_active
                &&& owns_credential(s, user, credential_id)
                &&& carries(sig.client_data, encode_utf8(s.credentials[credential_id].origin))
                &&& user_verified(sig.auth_data)
                &&& s.challenges.contains_key(user)
                &&& carries(sig.client_data, s.challenges[user])
                &&& now <= s.challenge_timestamps[user] + CHALLENGE_EXPIRY_SECS
                &&& secp256r1_signature_valid(
                    s.credentials[credential_id].public_key,
                    sig.auth_data + sig.client_data,
                    sig.signature,
                )
                &&& !s1.challenges.contains_key(user)
                &&& s1.challenges == s.challenges.remove(user)
                &&& s1.profiles.dom() == s.profiles.dom()
            }
            &&& r is Err ==> s1 == s
            &&& s1.credentials == s.credentials
            &&& forall|u: AccountId| #[trigger]
                s1.profiles.contains_key(u) ==> s1.profiles[u].passkey_credentials
                    == s.profiles[u].passkey_credentials && s1.profiles[u].preferred_method
                    == s.profiles[u].preferred_method
        }),
{
    let (r, s1) = authenticate_spec(s, user, sig, credential_id, now);
    if r is Ok {
        assert(s1.profiles.dom() =~= s.profiles.dom());
    }
}

/// When a passkey authentication succeeds: exactly when the credential is stored and active,
/// is one of the user's own registered passkeys (any of them), the client data contains the
/// UTF-8 bytes of the passkey's origin and the challenge last issued to the user as runs of
/// consecutive bytes, the authenticator data has the user-verified bit (bit 2 of byte 32)
/// set, the challenge is at most 300 seconds old, and the signature over the authenticator
/// data followed by the client data verifies under the passkey's public key. A credential
/// that is stored and active but not among the user's passkeys is refused with
/// `InvalidCredential`.
pub proof fn lemma_authentication_succeeds_exactly(
    s: PasskeyStateView,
    user: AccountId,
    sig: SignatureView,
    credential_id: Seq<u8>,
    now: u64,
)
    ensures
        ({
            let r = authenticate_spec(s, user, sig, credential_id, now).0;
            let registered = s.credentials.contains_key(credential_id)
                && s.credentials[credential_id].is_active;
            let own = s.profiles.contains_key(user) && exists|i: int|
                0 <= i < s.profiles[user].passkey_credentials.len()
                    && s.profiles[user].passkey_credentials[i].credential_id == credential_id;
            let origin = encode_utf8(s.credentials[credential_id].origin);
            let challenge = s.challenges[user];
            &&& r is Ok ==> r == Ok::<bool, PasskeyError>(true)
            &&& (r is Ok) == {
                &&& registered
                &&& own
                &&& exists|k: int|
                    0 <= k && k + origin.len() <= sig.client_data.len() && #[trigger] sig.client_data.subrange(
                        k,
                        k + origin.len(),
                    ) == origin
                &&& sig.auth_data.len() > 32
                &&& sig.auth_data[32] & 4u8 != 0
                &&& s.challenges.contains_key(user)
                &&& s.challenge_timestamps.contains_key(user)
                &&& exists|k: int|
                    0 <= k && k + challenge.len() <= sig.client_data.len() && #[trigger] sig.client_data.subrange(
                        k,
                        k + challenge.len(),
                    ) == challenge
                &&& now <= s.challenge_timestamps[user] + 300
                &&& secp256r1_signature_valid(
                    s.credentials[credential_id].public_key,
                    sig.auth_data + sig.client_data,
                    sig.signature,
                )
            }
            &&& (r == Err::<bool, PasskeyError>(PasskeyError::InvalidCredential)) == (registered && !own)
        }),
{
}

/// An accepted passkey assertion cannot be replayed: presenting it again, at any time, is
/// refused until a new challenge is issued.
pub proof fn lemma_assertion_not_replayed(
    s: PasskeyStateView,
    user: AccountId,
    sig: SignatureView,
    credential_id: Seq<u8>,
    now: u64,
    again_at: u64,
)
    requires
        authenticate_spec(s, user, sig, credential_id, now).0 is Ok,
    ensures
        authenticate_spec(authenticate_spec(s, user, sig, credential_id, now).1, user, sig, credential_id, again_at).0 is Err,
{
}

/// Every credential of `creds` whose id is not `id` is kept by `without_credential`.
proof fn lemma_without_credential_keeps_others(creds: Seq<CredentialView>, id: Seq<u8>)
    ensures
        forall|i: int|
            0 <= i < creds.len() && (#[trigger] creds[i]).credential_id != id ==> exists|j: int|
                0 <= j < without_credential(creds, id).len() && without_credential(creds, id)[j]
                    == creds[i],
    decreases creds.len(),
{
    if creds.len() > 0 {
        let t = creds.drop_last();
        lemma_without_credential_keeps_others(t, id);
        let w = without_credential(t, id);
        assert forall|i: int|
            0 <= i < creds.len() && (#[trigger] creds[i]).credential_id != id implies exists|j: int|
            0 <= j < without_credential(creds, id).len() && without_credential(creds, id)[j]
                == creds[i] by {
            let r = without_credential(creds, id);
            if i < creds.len() - 1 {
                assert(t[i] == creds[i]);
                let j = choose|j: int| 0 <= j < w.len() && w[j] == t[i];
                if creds.last().credential_id != id {
                    assert(r == w.push(creds.last()));
                    assert(r[j] == w[j]);
                } else {
                    assert(r == w);
                }
                assert(0 <= j < r.len() && r[j] == creds[i]);
            } else {
                assert(r == w.push(creds.last()));
                assert(r[w.len() as int] == creds[i]);
            }
        }
    }
}

/// Registering a passkey succeeds exactly when the user has fewer than three passkeys and
/// none with that id. The user's passkeys are then the earlier ones followed by the new,
/// active one, which is also stored under its id; passkeys become the preferred method; a
/// new profile records `now` as its creation time. A refused registration changes nothing.
pub proof fn lemma_register_passkey_effects(
    s: PasskeyStateView,
    user: AccountId,
    public_key: Seq<u8>,
    credential_id: Seq<u8>,
    origin: Seq<char>,
    now: u64,
)
    ensures
        ({
            let (r, s1) = register_passkey_spec(s, user, public_key, credential_id, origin, now);
            let before = s.profile_or_fresh(user, now).passkey_credentials;
            &&& r is Ok <==> before.len() < 3 && forall|i: int|
                0 <= i < before.len() ==> (#[trigger] before[i]).credential_id != credential_id
            &&& r is Err ==> s1 == s
            &&& r is Ok ==> {
                let p = s1.profiles[user];
                let c = CredentialView {
                    public_key,
                    credential_id,
                    origin,
                    registered_at: now,
                    is_active: true,
                };
                &&& s1.profiles.contains_key(user)
                &&& p.passkey_credentials.len() == before.len() + 1
                &&& forall|i: int| 0 <= i < before.len() ==> #[trigger] p.passkey_credentials[i] == before[i]
                &&& p.passkey_credentials[before.len() as int] == c
                &&& s1.credentials.contains_key(credential_id)
                &&& s1.credentials[credential_id] == c
                &&& p.preferred_method == AuthMethod::Secp256r1
                &&& p.address == if s.profiles.contains_key(user) { s.profiles[user].address } else { user }
                &&& p.created_at == if s.profiles.contains_key(user) { s.profiles[user].created_at } else { now }
                &&& p.last_active == now
            }
        }),
{
    let before = s.profile_or_fresh(user, now).passkey_credentials;
    let (r, s1) = register_passkey_spec(s, user, public_key, credential_id, origin, now);
    if has_credential_id(before, credential_id) {
        let i = choose|i: int| 0 <= i < before.len() && before[i].credential_id == credential_id;
        assert(before[i].credential_id == credential_id);
    }
    if r is Ok {
        let p = s1.profiles[user];
        assert forall|i: int| 0 <= i < before.len() implies #[trigger] p.passkey_credentials[i]
            == before[i] by {
        }
    }
}

/// Removing one of a user's passkeys keeps the user's preferred method while other passkeys
/// remain, and falls back to account signatures only when none remains.
pub proof fn lemma_remove_passkey_keeps_preference(
    s: PasskeyStateView,
    user: AccountId,
    credential_id: Seq<u8>,
    now: u64,
)
    requires
        remove_passkey_spec(s, user, credential_id, now).0 is Ok,
    ensures
        ({
            let s1 = remove_passkey_spec(s, user, credential_id, now).1;
            &&& s1.profiles[user].passkey_credentials.len() > 0 ==> s1.profiles[user].preferred_method
                == s.profiles[user].preferred_method
            &&& s1.profiles[user].passkey_credentials.len() == 0 ==> s1.profiles[user].preferred_method
                == AuthMethod::Ed25519
        }),
{
}

/// Removing a passkey: it succeeds exactly when the user has a profile holding a passkey with
/// that id. Then the user keeps exactly their other passkeys, the credential is no longer
/// stored, the preferred method is kept while passkeys remain and falls back to account
/// signatures when none remains, and no other profile changes. A refused removal changes
/// nothing.
pub proof fn lemma_remove_passkey_effects(s: PasskeyStateView, user: AccountId, credential_id: Seq<u8>, now: u64)
    ensures
        ({
            let (r, s1) = remove_passkey_spec(s, user, credential_id, now);
            &&& r is Ok <==> s.profiles.contains_key(user) && exists|i: int|
                0 <= i < s.profiles[user].passkey_credentials.len()
                    && s.profiles[user].passkey_credentials[i].credential_id == credential_id
            &&& r is Err ==> s1 == s
            &&& r is Ok ==> {
                let before = s.profiles[user].passkey_credentials;
                let after = s1.profiles[user].passkey_credentials;
                &&& s1.profiles.contains_key(user)
                &&& forall|j: int| 0 <= j < after.len() ==> (#[trigger] after[j]).credential_id
                    != credential_id && exists|i: int| 0 <= i < before.len() && before[i] == after[j]
                &&& forall|i: int|
                    0 <= i < before.len() && (#[trigger] before[i]).credential_id != credential_id
                        ==> exists|j: int| 0 <= j < after.len() && after[j] == before[i]
                &&& after.len() > 0 ==> s1.profiles[user].preferred_method
                    == s.profiles[user].preferred_method
                &&& after.len() == 0 ==> s1.profiles[user].preferred_method == AuthMethod::Ed25519
                &&& s1.profiles[user].address == s.profiles[user].address
                &&& s1.profiles[user].created_at == s.profiles[user].created_at
                &&& s1.profiles[user].last_active == now
                &&& !s1.credentials.contains_key(credential_id)
                &&& forall|k: Seq<u8>| k != credential_id ==> s1.credentials.contains_key(k)
                    == s.credentials.contains_key(k) && (s.credentials.contains_key(k)
                    ==> s1.credentials[k] == s.credentials[k])
                &&& forall|u: AccountId| u != user ==> s1.profiles.contains_key(u)
                    == s.profiles.contains_key(u) && (s.profiles.contains_key(u) ==> s1.profiles[u]
                    == s.profiles[u])
                &&& s1.challenges == s.challenges
                &&& s1.challenge_timestamps == s.challenge_timestamps
            }
        }),
{
    let (r, s1) = remove_passkey_spec(s, user, credential_id, now);
    if s.profiles.contains_key(user) {
        let before = s.profiles[user].passkey_credentials;
        lemma_without_credential(before, credential_id);
        lemma_without_credential_keeps_others(before, credential_id);
        if r is Ok {
            let after = s1.profiles[user].passkey_credentials;
            assert(after == without_credential(before, credential_id));
            assert forall|j: int| 0 <= j < after.len() implies (#[trigger] after[j]).credential_id
                != credential_id && exists|i: int| 0 <= i < before.len() && before[i] == after[j] by {
            }
        }
    }
}

/// In consistent storage (which new storage is, and which every operation keeps), every
/// profile holds at most `MAX_PASSKEYS_PER_USER` passkeys with pairwise distinct ids, and a
/// profile that prefers passkeys has at least one.
pub proof fn lemma_profiles_within_limits(s: PasskeyStateView, user: AccountId)
    requires
        s.well_formed(),
        s.profiles.contains_key(user),
    ensures
        s.profiles[user].passkey_credentials.len() <= MAX_PASSKEYS_PER_USER,
        credential_ids_distinct(s.profiles[user].passkey_credentials),
        s.profiles[user].preferred_method == AuthMethod::Secp256r1
            ==> s.profiles[user].passkey_credentials.len() > 0,
{
}

/// A user with a profile can always fall back to account signatures, and choosing them keeps
/// the registered passkeys.
pub proof fn lemma_fallback_to_account_signature(s: PasskeyStateView, user: AccountId, now: u64)
    requires
        s.profiles.contains_key(user),
    ensures
        ({
            let (r, s1) = set_preferred_spec(s, user, AuthMethod::Ed25519, now);
            &&& r is Ok
            &&& s1.profiles[user].preferred_method == AuthMethod::Ed25519
            &&& s1.profiles[user].passkey_credentials == s.profiles[user].passkey_credentials
        }),
{
}

} // verus!

use p256::ecdsa::signature::Signer;
use p256::elliptic_curve::sec1::ToEncodedPoint;
use sorosusu_contracts::passkey_auth::{
    cleanup_expired_challenges, create_webauthn_message, require_auth_enhanced,
    verify_challenge_valid, AuthMethod, AuthRequirement, PasskeyAuth, PasskeyError,
    PasskeySignature, CHALLENGE_EXPIRY_SECS, MAX_PASSKEYS_PER_USER,
};

const USER: u64 = 7;
const NOW: u64 = 1_700_000_000;

fn key() -> Vec<u8> {
    let mut k = vec![2u8];
    k.extend_from_slice(&[0x11u8; 32]);
    k
}

fn dummy_signature() -> PasskeySignature {
    PasskeySignature { signature: vec![1u8; 64], auth_data: vec![1, 2, 3], client_data: vec![4, 5] }
}

#[test]
fn test_register_creates_profile() {
    let mut auth = PasskeyAuth::new();
    assert_eq!(auth.get_auth_profile(USER).unwrap_err(), PasskeyError::ProfileNotFound);
    assert_eq!(auth.register_passkey(USER, key(), vec![1], String::from("app"), NOW), Ok(()));
    let p = auth.get_auth_profile(USER).unwrap();
    assert_eq!(p.address, USER);
    assert_eq!(p.preferred_method, AuthMethod::Secp256r1);
    assert_eq!(p.passkey_credentials.len(), 1);
    assert_eq!(p.passkey_credentials[0].credential_id, vec![1]);
    assert_eq!(p.passkey_credentials[0].origin, "app");
    assert!(p.passkey_credentials[0].is_active);
    assert_eq!(p.created_at, NOW);
    assert_eq!(p.last_active, NOW);
    let stored = auth.credentials.get(&vec![1]).unwrap();
    assert_eq!(stored.public_key, key());
    assert_eq!(stored.registered_at, NOW);
}

#[test]
fn test_register_limits_and_duplicates() {
    let mut auth = PasskeyAuth::new();
    assert_eq!(MAX_PASSKEYS_PER_USER, 3);
    assert_eq!(auth.register_passkey(USER, key(), vec![1], String::from("a"), NOW), Ok(()));
    assert_eq!(
        auth.register_passkey(USER, key(), vec![1], String::from("a"), NOW + 1),
        Err(PasskeyError::InvalidCredential)
    );
    assert_eq!(auth.register_passkey(USER, key(), vec![2], String::from("a"), NOW + 2), Ok(()));
    assert_eq!(auth.register_passkey(USER, key(), vec![3], String::from("a"), NOW + 3), Ok(()));
    assert_eq!(
        auth.register_passkey(USER, key(), vec![4], String::from("a"), NOW + 4),
        Err(PasskeyError::TooManyCredentials)
    );
    assert_eq!(PasskeyError::TooManyCredentials.code(), 1006);
    assert_eq!(PasskeyError::InvalidCredential.code(), 1002);
    let p = auth.get_auth_profile(USER).unwrap();
    assert_eq!(p.passkey_credentials.len(), 3);
    assert_eq!(p.last_active, NOW + 3);
}

#[test]
fn test_remove_passkey_falls_back_to_account_auth() {
    let mut auth = PasskeyAuth::new();
    assert_eq!(auth.remove_passkey(USER, &vec![1], NOW), Err(PasskeyError::ProfileNotFound));
    auth.register_passkey(USER, key(), vec![1], String::from("a"), NOW).unwrap();
    auth.register_passkey(USER, key(), vec![2], String::from("a"), NOW).unwrap();
    assert_eq!(auth.remove_passkey(USER, &vec![9], NOW + 1), Err(PasskeyError::CredentialNotFound));
    assert_eq!(auth.remove_passkey(USER, &vec![1], NOW + 2), Ok(()));
    let p = auth.get_auth_profile(USER).unwrap();
    assert_eq!(p.passkey_credentials.len(), 1);
    assert_eq!(p.passkey_credentials[0].credential_id, vec![2]);
    assert_eq!(p.preferred_method, AuthMethod::Secp256r1);
    assert!(auth.credentials.get(&vec![1]).is_none());
    assert_eq!(auth.remove_passkey(USER, &vec![2], NOW + 3), Ok(()));
    let p = auth.get_auth_profile(USER).unwrap();
    assert!(p.passkey_credentials.is_empty());
    assert_eq!(p.preferred_method, AuthMethod::Ed25519);
    assert_eq!(p.last_active, NOW + 3);
}

#[test]
fn test_set_preferred_method() {
    let mut auth = PasskeyAuth::new();
    assert_eq!(
        auth.set_preferred_auth_method(USER, AuthMethod::Ed25519, NOW),
        Err(PasskeyError::ProfileNotFound)
    );
    auth.register_passkey(USER, key(), vec![1], String::from("a"), NOW).unwrap();
    assert_eq!(auth.set_preferred_auth_method(USER, AuthMethod::Ed25519, NOW + 1), Ok(()));
    assert_eq!(auth.get_auth_profile(USER).unwrap().preferred_method, AuthMethod::Ed25519);
    auth.remove_passkey(USER, &vec![1], NOW + 2).unwrap();
    assert_eq!(
        auth.set_preferred_auth_method(USER, AuthMethod::Secp256r1, NOW + 3),
        Err(PasskeyError::CredentialNotFound)
    );
    assert_eq!(auth.get_auth_profile(USER).unwrap().last_active, NOW + 2);
}

#[test]
fn test_authenticate_errors() {
    let mut auth = PasskeyAuth::new();
    assert_eq!(
        auth.authenticate_with_passkey(USER, dummy_signature(), vec![1], NOW),
        Err(PasskeyError::CredentialNotFound)
    );
    auth.register_passkey(USER, key(), vec![1], String::from("app"), NOW).unwrap();
    // the client data does not name the origin "app"
    assert_eq!(
        auth.authenticate_with_passkey(USER, dummy_signature(), vec![1], NOW + 1),
        Err(PasskeyError::OriginMismatch)
    );
    // the authenticator did not verify the user
    let challenge = auth.generate_challenge(USER, NOW, &vec![3u8; 32]);
    let unverified = PasskeySignature {
        signature: vec![1u8; 64],
        auth_data: auth_data(false),
        client_data: client_data("app", &challenge),
    };
    assert_eq!(
        auth.authenticate_with_passkey(USER, unverified, vec![1], NOW + 1),
        Err(PasskeyError::UserVerificationRequired)
    );
    // no key point / not a valid signature
    let bad = PasskeySignature {
        signature: vec![1u8; 64],
        auth_data: auth_data(true),
        client_data: client_data("app", &challenge),
    };
    assert_eq!(
        auth.authenticate_with_passkey(USER, bad, vec![1], NOW + 1),
        Err(PasskeyError::InvalidSignature)
    );
    assert_eq!(auth.get_auth_profile(USER).unwrap().last_active, NOW);
    assert_eq!(PasskeyError::OriginMismatch.code(), 1008);
    assert_eq!(PasskeyError::UserVerificationRequired.code(), 1009);
}

#[test]
fn test_authenticate_inactive_credential() {
    let mut auth = PasskeyAuth::new();
    auth.register_passkey(USER, key(), vec![1], String::from("a"), NOW).unwrap();
    let mut cred = auth.credentials.get(&vec![1]).unwrap().clone();
    cred.is_active = false;
    auth.credentials.insert(vec![1], cred);
    assert_eq!(
        auth.authenticate_with_passkey(USER, dummy_signature(), vec![1], NOW),
        Err(PasskeyError::CredentialInactive)
    );
}

#[test]
fn test_webauthn_message_concatenates() {
    assert_eq!(create_webauthn_message(&vec![1, 2], &vec![3]), vec![1, 2, 3]);
    assert_eq!(create_webauthn_message(&vec![], &vec![]), Vec::<u8>::new());
}

#[test]
fn test_challenge_lifecycle() {
    let mut auth = PasskeyAuth::new();
    let random = vec![9u8; 32];
    assert_eq!(
        verify_challenge_valid(&auth, USER, &vec![1], NOW),
        Err(PasskeyError::ChallengeNotFound)
    );
    let challenge = auth.generate_challenge(USER, 0x0102030405060708, &random);
    assert_eq!(challenge.len(), 40);
    assert_eq!(&challenge[0..8], &[1, 2, 3, 4, 5, 6, 7, 8]);
    assert_eq!(&challenge[8..], &random[..]);
    let issued = 0x0102030405060708u64;
    assert_eq!(verify_challenge_valid(&auth, USER, &challenge, issued), Ok(true));
    assert_eq!(
        verify_challenge_valid(&auth, USER, &challenge, issued + CHALLENGE_EXPIRY_SECS),
        Ok(true)
    );
    assert_eq!(
        verify_challenge_valid(&auth, USER, &challenge, issued + CHALLENGE_EXPIRY_SECS + 1),
        Err(PasskeyError::ChallengeExpired)
    );
    assert_eq!(
        verify_challenge_valid(&auth, USER, &vec![0u8; 40], issued),
        Err(PasskeyError::ChallengeNotFound)
    );
    cleanup_expired_challenges(&auth);
    assert_eq!(verify_challenge_valid(&auth, USER, &challenge, issued), Ok(true));
}

#[test]
fn test_generate_challenge_replaces_earlier() {
    let mut auth = PasskeyAuth::new();
    let first = auth.generate_challenge(USER, 300, &vec![1u8; 32]);
    assert_eq!(first.len(), 40);
    assert_eq!(&first[0..8], &300u64.to_be_bytes());
    assert_eq!(verify_challenge_valid(&auth, USER, &first, 600), Ok(true));
    assert_eq!(verify_challenge_valid(&auth, USER, &first, 601), Err(PasskeyError::ChallengeExpired));
    let second = auth.generate_challenge(USER, 400, &vec![2u8; 32]);
    assert_ne!(first, second);
    assert_eq!(&second[8..], &[2u8; 32][..]);
    assert_eq!(verify_challenge_valid(&auth, USER, &first, 400), Err(PasskeyError::ChallengeNotFound));
    assert_eq!(verify_challenge_valid(&auth, USER, &second, 700), Ok(true));
    assert_eq!(verify_challenge_valid(&auth, USER, &second, 701), Err(PasskeyError::ChallengeExpired));
}

#[test]
fn test_require_auth_enhanced_paths() {
    let mut auth = PasskeyAuth::new();
    assert_eq!(
        require_auth_enhanced(&mut auth, USER, None, None, None, NOW),
        Ok(AuthRequirement::AccountAuth)
    );
    auth.register_passkey(USER, key(), vec![1], String::from("a"), NOW).unwrap();
    assert_eq!(
        require_auth_enhanced(&mut auth, USER, Some(AuthMethod::Ed25519), None, None, NOW),
        Ok(AuthRequirement::AccountAuth)
    );
    assert_eq!(
        require_auth_enhanced(&mut auth, USER, None, None, Some(vec![1]), NOW),
        Err(PasskeyError::InvalidSignature)
    );
    assert_eq!(
        require_auth_enhanced(&mut auth, USER, None, Some(dummy_signature()), None, NOW),
        Err(PasskeyError::CredentialNotFound)
    );
    assert_eq!(
        require_auth_enhanced(&mut auth, USER, None, Some(dummy_signature()), Some(vec![5]), NOW),
        Err(PasskeyError::CredentialNotFound)
    );
    assert_eq!(
        require_auth_enhanced(&mut auth, USER, None, Some(dummy_signature()), Some(vec![1]), NOW),
        Err(PasskeyError::OriginMismatch)
    );
}

#[test]
fn test_ed25519_verification_defers_to_host() {
    let auth = PasskeyAuth::new();
    assert_eq!(auth.verify_ed25519_signature(USER, &vec![1, 2], &vec![0u8; 64]), Ok(true));
}

fn signing_key() -> p256::ecdsa::SigningKey {
    p256::ecdsa::SigningKey::from_slice(&[0x42u8; 32]).unwrap()
}

fn compressed_public_key() -> Vec<u8> {
    let vk = p256::ecdsa::VerifyingKey::from(&signing_key());
    vk.to_encoded_point(true).as_bytes().to_vec()
}

fn signed_assertion(auth_data: Vec<u8>, client_data: Vec<u8>) -> PasskeySignature {
    let mut message = auth_data.clone();
    message.extend_from_slice(&client_data);
    let sig: p256::ecdsa::Signature = signing_key().sign(&message);
    PasskeySignature { signature: sig.to_bytes().to_vec(), auth_data, client_data }
}

/// Authenticator data: a 32-byte relying-party id hash, the flags (user present, and user
/// verified when asked), and a signature counter.
fn auth_data(verified: bool) -> Vec<u8> {
    let mut d = vec![0x5au8; 32];
    d.push(if verified { 0x05 } else { 0x01 });
    d.extend_from_slice(&[0, 0, 0, 7]);
    d
}

/// Client data naming `origin` and carrying `challenge`.
fn client_data(origin: &str, challenge: &[u8]) -> Vec<u8> {
    let mut d = b"{\"type\":\"webauthn.get\",\"origin\":\"".to_vec();
    d.extend_from_slice(origin.as_bytes());
    d.extend_from_slice(b"\",\"challenge\":\"");
    d.extend_from_slice(challenge);
    d.extend_from_slice(b"\"}");
    d
}

#[test]
fn test_authenticate_with_valid_passkey_signature() {
    let mut auth = PasskeyAuth::new();
    let pk = compressed_public_key();
    assert_eq!(pk.len(), 33);
    auth.register_passkey(USER, pk, vec![1], String::from("app"), NOW).unwrap();
    let challenge = auth.generate_challenge(USER, NOW + 5, &vec![7u8; 32]);
    let assertion = signed_assertion(auth_data(true), client_data("app", &challenge));

    // the same signature over other data is refused
    let mut forged = assertion.clone();
    forged.client_data.push(b' ');
    assert_eq!(
        auth.authenticate_with_passkey(USER, forged, vec![1], NOW + 10),
        Err(PasskeyError::InvalidSignature)
    );
    assert_eq!(auth.get_auth_profile(USER).unwrap().last_active, NOW);

    assert_eq!(auth.authenticate_with_passkey(USER, assertion.clone(), vec![1], NOW + 10), Ok(true));
    assert_eq!(auth.get_auth_profile(USER).unwrap().last_active, NOW + 10);
    // the challenge is used up: replaying the assertion is refused
    assert_eq!(
        auth.authenticate_with_passkey(USER, assertion, vec![1], NOW + 11),
        Err(PasskeyError::ChallengeNotFound)
    );
    assert_eq!(verify_challenge_valid(&auth, USER, &challenge, NOW + 11), Err(PasskeyError::ChallengeNotFound));

    let challenge = auth.generate_challenge(USER, NOW + 20, &vec![8u8; 32]);
    let assertion = signed_assertion(auth_data(true), client_data("app", &challenge));
    assert_eq!(
        require_auth_enhanced(&mut auth, USER, None, Some(assertion), Some(vec![1]), NOW + 30),
        Ok(AuthRequirement::PasskeyVerified)
    );
    assert_eq!(auth.get_auth_profile(USER).unwrap().last_active, NOW + 30);
}

#[test]
fn test_authenticate_needs_fresh_issued_challenge() {
    let mut auth = PasskeyAuth::new();
    auth.register_passkey(USER, compressed_public_key(), vec![1], String::from("app"), NOW).unwrap();
    // no challenge issued yet
    let stale = signed_assertion(auth_data(true), client_data("app", &[1, 2, 3]));
    assert_eq!(
        auth.authenticate_with_passkey(USER, stale.clone(), vec![1], NOW),
        Err(PasskeyError::ChallengeNotFound)
    );
    // a challenge is issued, but the assertion answers another one
    let challenge = auth.generate_challenge(USER, NOW, &vec![9u8; 32]);
    assert_eq!(
        auth.authenticate_with_passkey(USER, stale, vec![1], NOW),
        Err(PasskeyError::ChallengeNotFound)
    );
    // the right challenge, but too late
    let late = signed_assertion(auth_data(true), client_data("app", &challenge));
    assert_eq!(
        auth.authenticate_with_passkey(USER, late.clone(), vec![1], NOW + CHALLENGE_EXPIRY_SECS + 1),
        Err(PasskeyError::ChallengeExpired)
    );
    // at the last moment it is accepted
    assert_eq!(auth.authenticate_with_passkey(USER, late, vec![1], NOW + CHALLENGE_EXPIRY_SECS), Ok(true));
}

#[test]
fn test_authenticate_only_own_passkeys() {
    let mut auth = PasskeyAuth::new();
    let other = USER + 1;
    auth.register_passkey(other, compressed_public_key(), vec![1], String::from("app"), NOW).unwrap();
    auth.register_passkey(USER, key(), vec![2], String::from("app"), NOW).unwrap();
    let challenge = auth.generate_challenge(USER, NOW, &vec![4u8; 32]);
    // a valid assertion made with another user's passkey
    let assertion = signed_assertion(auth_data(true), client_data("app", &challenge));
    assert_eq!(
        auth.authenticate_with_passkey(USER, assertion, vec![1], NOW),
        Err(PasskeyError::InvalidCredential)
    );
    assert_eq!(verify_challenge_valid(&auth, USER, &challenge, NOW), Ok(true));
    assert_eq!(auth.get_auth_profile(USER).unwrap().last_active, NOW);
}

#[test]
fn test_authenticate_checks_origin() {
    let mut auth = PasskeyAuth::new();
    auth.register_passkey(USER, compressed_public_key(), vec![1], String::from("app"), NOW).unwrap();
    let challenge = auth.generate_challenge(USER, NOW, &vec![6u8; 32]);
    let elsewhere = signed_assertion(auth_data(true), client_data("web", &challenge));
    assert_eq!(
        auth.authenticate_with_passkey(USER, elsewhere, vec![1], NOW),
        Err(PasskeyError::OriginMismatch)
    );
}

#[test]
fn test_register_then_remove_restores_passkeys() {
    let mut auth = PasskeyAuth::new();
    auth.register_passkey(USER, key(), vec![1], String::from("a"), NOW).unwrap();
    auth.register_passkey(USER, key(), vec![2], String::from("b"), NOW + 1).unwrap();
    let before = auth.get_auth_profile(USER).unwrap();
    auth.register_passkey(USER, key(), vec![3], String::from("c"), NOW + 2).unwrap();
    auth.remove_passkey(USER, &vec![3], NOW + 3).unwrap();
    let after = auth.get_auth_profile(USER).unwrap();
    assert_eq!(after.passkey_credentials.len(), before.passkey_credentials.len());
    for (x, y) in after.passkey_credentials.iter().zip(before.passkey_credentials.iter()) {
        assert_eq!(x.credential_id, y.credential_id);
        assert_eq!(x.origin, y.origin);
        assert_eq!(x.registered_at, y.registered_at);
    }
    assert!(auth.credentials.get(&vec![3]).is_none());
    assert!(auth.credentials.get(&vec![2]).is_some());
}

#[test]
fn test_register_makes_passkeys_preferred_again() {
    let mut auth = PasskeyAuth::new();
    assert_eq!(auth.register_passkey(USER, key(), vec![1], String::from("a"), NOW), Ok(()));
    assert_eq!(auth.set_preferred_auth_method(USER, AuthMethod::Ed25519, NOW + 1), Ok(()));
    assert_eq!(auth.get_auth_profile(USER).unwrap().preferred_method, AuthMethod::Ed25519);
    assert_eq!(auth.register_passkey(USER, key(), vec![2], String::from("a"), NOW + 2), Ok(()));
    let p = auth.get_auth_profile(USER).unwrap();
    assert_eq!(p.preferred_method, AuthMethod::Secp256r1);
    assert_eq!(p.passkey_credentials.len(), 2);
    assert_eq!(p.created_at, NOW);
    assert_eq!(p.last_active, NOW + 2);
}

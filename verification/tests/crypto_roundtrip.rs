use blackipher::user::User;
use blackipher::user::{demo_round_trip, round_trip_message};

fn init() {
    let _ = sodiumoxide::init();
}

#[test]
fn seal_open_hello() {
    init();
    let alice = User::new("alice", 2);
    let bob = User::new("bob", 2);
    let (epk, nonce, ct, send_log) = alice.encrypt_message_with_logs(&bob, "hello");
    let opened = bob.decrypt_message_with_logs(&epk, &nonce, &ct, "alice");
    let (plaintext, recv_log) = opened.expect("round trip must succeed");
    assert_eq!(plaintext, "hello");
    assert!(send_log.contains("alice"));
    assert!(send_log.contains("bob"));
    assert!(recv_log.contains("alice"));
    assert!(recv_log.contains("hello"));
}

#[test]
fn round_trip_helper_returns_plaintext() {
    init();
    let alice = User::new("alice", 1);
    let bob = User::new("bob", 1);
    let r = round_trip_message(&alice, &bob, "salut, monde é✓");
    let (pt, send_log, recv_log) = r.expect("round trip must succeed");
    assert_eq!(pt, "salut, monde é✓");
    assert!(send_log.starts_with("== log ==\nSender: alice\nReceiver: bob\n"));
    assert!(recv_log.starts_with("== log (recv) ==\nReceiver: bob\nSender: alice\n"));
}

#[test]
fn demo_round_trip_succeeds() {
    init();
    let r = demo_round_trip("a short message");
    let (pt, _, _) = r.expect("demo exchange must succeed");
    assert_eq!(pt, "a short message");
}

#[test]
fn empty_plaintext_round_trips() {
    init();
    let alice = User::new("alice", 0);
    let bob = User::new("bob", 0);
    let (epk, nonce, ct, _) = alice.encrypt_message_with_logs(&bob, "");
    let (plaintext, _) = bob
        .decrypt_message_with_logs(&epk, &nonce, &ct, "alice")
        .expect("empty message must round trip");
    assert_eq!(plaintext, "");
}

#[test]
fn tampered_ciphertext_is_rejected() {
    init();
    let alice = User::new("alice", 2);
    let bob = User::new("bob", 2);
    let (epk, nonce, ct, _) = alice.encrypt_message_with_logs(&bob, "hello");
    for i in 0..ct.len() {
        let mut bad = ct.clone();
        bad[i] ^= 1;
        assert!(
            bob.decrypt_message_with_logs(&epk, &nonce, &bad, "alice").is_none(),
            "flipped ciphertext byte {} must not decrypt",
            i
        );
    }
}

#[test]
fn tampered_ephemeral_key_is_rejected() {
    init();
    let alice = User::new("alice", 2);
    let bob = User::new("bob", 2);
    let (epk, nonce, ct, _) = alice.encrypt_message_with_logs(&bob, "hello");
    for i in 0..epk.len() {
        let mut bad = epk.clone();
        bad[i] ^= 1;
        assert!(
            bob.decrypt_message_with_logs(&bad, &nonce, &ct, "alice").is_none(),
            "flipped ephemeral-key byte {} must not decrypt",
            i
        );
    }
}

#[test]
fn tampered_nonce_is_rejected() {
    init();
    let alice = User::new("alice", 2);
    let bob = User::new("bob", 2);
    let (epk, nonce, ct, _) = alice.encrypt_message_with_logs(&bob, "hello");
    for i in 0..nonce.len() {
        let mut bad = nonce.clone();
        bad[i] ^= 1;
        assert!(
            bob.decrypt_message_with_logs(&epk, &bad, &ct, "alice").is_none(),
            "flipped nonce byte {} must not decrypt",
            i
        );
    }
}

#[test]
fn wrong_size_inputs_are_rejected() {
    init();
    let alice = User::new("alice", 0);
    let bob = User::new("bob", 0);
    let (epk, nonce, ct, _) = alice.encrypt_message_with_logs(&bob, "hello");
    let short_epk = epk[..31].to_vec();
    assert!(bob.decrypt_message_with_logs(&short_epk, &nonce, &ct, "alice").is_none());
    let short_nonce = nonce[..23].to_vec();
    assert!(bob.decrypt_message_with_logs(&epk, &short_nonce, &ct, "alice").is_none());
}

#[test]
fn fresh_ephemeral_key_and_nonce_each_seal() {
    init();
    let alice = User::new("alice", 2);
    let bob = User::new("bob", 2);
    let (epk1, nonce1, ct1, _) = alice.encrypt_message_with_logs(&bob, "same text");
    let (epk2, nonce2, ct2, _) = alice.encrypt_message_with_logs(&bob, "same text");
    assert_ne!(epk1, epk2, "two seals must use distinct ephemeral keys");
    assert_ne!(nonce1, nonce2, "two seals must use distinct nonces");
    assert!(
        epk1 != epk2 || nonce1 != nonce2 || ct1 != ct2,
        "envelopes must never be bit-identical"
    );
}

#[test]
fn signed_prekey_verifies_and_binds() {
    init();
    let bob = User::new("bob", 2);
    assert!(User::verify_peer_spk(&bob));
    for i in 0..bob.signed_pre_pk.len() {
        let mut forged = bob.clone();
        forged.signed_pre_pk[i] ^= 1;
        assert!(
            !User::verify_peer_spk(&forged),
            "altered pre-key byte {} must not verify",
            i
        );
    }
}

#[test]
fn invalid_peer_signature_is_logged_but_does_not_block_sealing() {
    init();
    let alice = User::new("alice", 2);
    let mut bob = User::new("bob", 2);
    bob.signed_pre_sig[0] ^= 1;
    assert!(!User::verify_peer_spk(&bob));
    let (epk, nonce, ct, send_log) = alice.encrypt_message_with_logs(&bob, "hello anyway");
    assert!(send_log.contains("Verify(peer.SPK signed by peer.ID) = false"));
    let (plaintext, _) = bob
        .decrypt_message_with_logs(&epk, &nonce, &ct, "alice")
        .expect("sealing to an unverified peer must still round trip");
    assert_eq!(plaintext, "hello anyway");
}

#[test]
fn username_accessor() {
    init();
    let alice = User::new("alice", 0);
    assert_eq!(alice.username(), "alice");
}

#[test]
fn describe_keys_lists_every_key_in_hex() {
    init();
    let alice = User::new("alice", 3);
    let lines = alice.describe_keys();
    assert_eq!(lines.len(), 6 + 2 * 3);
    assert_eq!(lines[0], "User: alice");
    let expected = [
        ("  Identity Public Key : ", 32),
        ("  Identity Secret Key : ", 64),
        ("  Signed Pre Public   : ", 32),
        ("  Signed Pre Secret   : ", 32),
        ("  Signature on SPK    : ", 64),
    ];
    for (k, (prefix, key_len)) in expected.iter().enumerate() {
        let line = &lines[k + 1];
        assert!(line.starts_with(prefix), "line {:?} misses {:?}", line, prefix);
        let hex_part = &line[prefix.len()..];
        assert_eq!(hex_part.len(), 2 * key_len);
        assert!(hex_part.chars().all(|c| c.is_ascii_hexdigit()));
    }
    assert_eq!(
        &lines[1]["  Identity Public Key : ".len()..],
        hex::encode(&alice.identity_pk).as_str()
    );
    for j in 0..3 {
        assert!(lines[6 + 2 * j].starts_with("  One-Time PreKey (pub): "));
        assert!(lines[6 + 2 * j + 1].starts_with("  One-Time PreKey (priv): "));
    }
}

#[test]
fn send_log_schema_is_fixed() {
    init();
    let alice = User::new("alice", 0);
    let bob = User::new("bob", 0);
    let (epk, nonce, ct, send_log) = alice.encrypt_message_with_logs(&bob, "hi");
    let expected = format!(
        "== log ==\nSender: alice\nReceiver: bob\nVerify(peer.SPK signed by peer.ID) = true\nEphemeral PK: {}\nDH(ephemeral, peer.SPK): precomputed (32 bytes)\nNonce: {}\nCiphertext: {}\n",
        hex::encode(&epk),
        hex::encode(&nonce),
        hex::encode(&ct),
    );
    assert_eq!(send_log, expected);
}

#[test]
fn recv_log_schema_is_fixed() {
    init();
    let alice = User::new("alice", 0);
    let bob = User::new("bob", 0);
    let (epk, nonce, ct, _) = alice.encrypt_message_with_logs(&bob, "hi");
    let (pt, recv_log) = bob
        .decrypt_message_with_logs(&epk, &nonce, &ct, "alice")
        .expect("must decrypt");
    let expected = format!(
        "== log (recv) ==\nReceiver: bob\nSender: alice\nDH(sender.ephemeral, self.SPK): precomputed (32 bytes)\nNonce: {}\nCiphertext: {}\nPlaintext: {}\n",
        hex::encode(&nonce),
        hex::encode(&ct),
        pt,
    );
    assert_eq!(recv_log, expected);
}

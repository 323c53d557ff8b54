use blackipher::sessions::Session;
use blackipher::contacts::Contacts;
use blackipher::user::User;

fn sample_store() -> Session {
    let mut s = Session::new();
    s.add_message(
        "alice",
        vec![1, 2, 3, 255],
        vec![9; 32],
        vec![7; 24],
        String::from("first log, with accents: é✓"),
    );
    s.add_message(
        "alice",
        vec![4, 5],
        vec![8; 32],
        vec![6; 24],
        String::from("second log"),
    );
    s.add_message("bob", Vec::new(), vec![1; 32], vec![2; 24], String::new());
    s
}

#[test]
fn unknown_peer_lookup_is_none() {
    let s = Session::new();
    assert!(s.get_messages("nobody").is_none());
    let s = sample_store();
    assert!(s.get_messages("nobody").is_none());
    assert!(s.get_messages("alice").is_some());
}

#[test]
fn append_keeps_order_and_creates_entries() {
    let s = sample_store();
    let alice = s.get_messages("alice").expect("alice conversation exists");
    assert_eq!(alice.len(), 2);
    assert_eq!(alice[0].ciphertext, vec![1, 2, 3, 255]);
    assert_eq!(alice[0].log, "first log, with accents: é✓");
    assert_eq!(alice[1].ciphertext, vec![4, 5]);
    assert_eq!(alice[1].log, "second log");
    let bob = s.get_messages("bob").expect("bob conversation exists");
    assert_eq!(bob.len(), 1);
    assert!(bob[0].ciphertext.is_empty());
}

#[test]
fn save_then_load_reconstructs_every_conversation() {
    let before = sample_store();
    let bytes = before.to_bytes();
    let reloaded = Session::from_bytes(bytes.as_slice());
    for name in ["alice", "bob"] {
        let a = before.get_messages(name).expect("present before");
        let b = reloaded.get_messages(name).expect("present after");
        assert_eq!(a.len(), b.len());
        for (x, y) in a.iter().zip(b.iter()) {
            assert_eq!(x.ciphertext, y.ciphertext);
            assert_eq!(x.ephemeral_pk, y.ephemeral_pk);
            assert_eq!(x.nonce, y.nonce);
            assert_eq!(x.log, y.log);
        }
    }
    assert!(reloaded.get_messages("nobody").is_none());
}

#[test]
fn persist_round_trip_preserves_the_store() {
    let before = sample_store();
    let after = before.persist_round_trip();
    assert_eq!(after.conversations.len(), before.conversations.len());
    let a = before.get_messages("alice").expect("present before");
    let b = after.get_messages("alice").expect("present after");
    assert_eq!(a.len(), b.len());
    assert_eq!(a[0].log, b[0].log);
}

#[test]
fn empty_store_round_trips() {
    let bytes = Session::new().to_bytes();
    assert_eq!(bytes.len(), 8);
    let reloaded = Session::from_bytes(bytes.as_slice());
    assert!(reloaded.get_messages("alice").is_none());
}

#[test]
fn garbage_bytes_give_an_empty_store() {
    let reloaded = Session::from_bytes(b"not a session file at all");
    assert!(reloaded.get_messages("alice").is_none());
    let reloaded = Session::from_bytes(&[]);
    assert!(reloaded.get_messages("alice").is_none());
}

#[test]
fn invalid_text_in_encoding_gives_an_empty_store() {
    let mut bytes: Vec<u8> = Vec::new();
    bytes.extend_from_slice(&1u64.to_le_bytes());
    bytes.extend_from_slice(&1u64.to_le_bytes());
    bytes.push(0xff);
    bytes.extend_from_slice(&0u64.to_le_bytes());
    let reloaded = Session::from_bytes(bytes.as_slice());
    assert!(reloaded.get_messages("alice").is_none());
    assert!(Session::try_from_bytes(bytes.as_slice()).is_none());
}

#[test]
fn repeated_names_in_encoding_are_rejected() {
    let empty_conv_named_a: Vec<u8> = {
        let mut c: Vec<u8> = Vec::new();
        c.extend_from_slice(&1u64.to_le_bytes());
        c.push(b'a');
        c.extend_from_slice(&0u64.to_le_bytes());
        c
    };
    let mut one: Vec<u8> = Vec::new();
    one.extend_from_slice(&1u64.to_le_bytes());
    one.extend_from_slice(&empty_conv_named_a);
    assert!(Session::try_from_bytes(one.as_slice()).is_some());
    let mut two: Vec<u8> = Vec::new();
    two.extend_from_slice(&2u64.to_le_bytes());
    two.extend_from_slice(&empty_conv_named_a);
    two.extend_from_slice(&empty_conv_named_a);
    assert!(
        Session::try_from_bytes(two.as_slice()).is_none(),
        "two conversations under one name must not parse"
    );
    assert!(Session::from_bytes(two.as_slice()).get_messages("a").is_none());
}

#[test]
fn trailing_bytes_are_rejected() {
    let mut bytes = sample_store().to_bytes();
    assert!(Session::try_from_bytes(bytes.as_slice()).is_some());
    bytes.push(0);
    assert!(Session::try_from_bytes(bytes.as_slice()).is_none());
}

#[test]
fn default_store_is_empty() {
    let s = Session::default();
    assert!(s.get_messages("alice").is_none());
    assert_eq!(s.conversations.len(), 0);
}

#[test]
fn contacts_add_find_get() {
    let _ = sodiumoxide::init();
    let alice = User::new("alice", 1);
    let bob = User::new("bob", 1);
    let mut contacts = Contacts::new();
    assert!(contacts.find("alice").is_none());
    contacts.add(alice.clone());
    contacts.add(bob.clone());
    let found = contacts.find("alice").expect("alice is a contact");
    assert_eq!(found.identity_pk, alice.identity_pk);
    let got = contacts.get("bob").expect("bob is a contact");
    assert_eq!(got.identity_pk, bob.identity_pk);
    assert!(contacts.find("carol").is_none());
    assert_eq!(contacts.names(), vec!["alice".to_string(), "bob".to_string()]);
}

#[test]
fn contacts_find_returns_first_duplicate_and_remove_drops_all() {
    let _ = sodiumoxide::init();
    let first = User::new("alice", 0);
    let second = User::new("alice", 0);
    let bob = User::new("bob", 0);
    let mut contacts = Contacts::new();
    contacts.add(first.clone());
    contacts.add(second.clone());
    contacts.add(bob.clone());
    let found = contacts.find("alice").expect("alice is a contact");
    assert_eq!(found.identity_pk, first.identity_pk);
    contacts.remove("alice");
    assert!(contacts.find("alice").is_none());
    assert_eq!(contacts.names(), vec!["bob".to_string()]);
    contacts.remove("nobody");
    assert_eq!(contacts.names(), vec!["bob".to_string()]);
}

#[test]
fn sealed_messages_survive_the_store_round_trip() {
    let _ = sodiumoxide::init();
    let me = User::new("katpercent", 4);
    let alice = User::new("alice", 4);
    let (epk, nonce, ct, send_log) = me.encrypt_message_with_logs(&alice, "hello alice");
    let mut session = Session::new();
    session.add_message("alice", ct, epk, nonce, send_log);
    let reloaded = Session::from_bytes(session.to_bytes().as_slice());
    let stored = &reloaded.get_messages("alice").expect("conversation kept")[0];
    let (pt, _) = alice
        .decrypt_message_with_logs(&stored.ephemeral_pk, &stored.nonce, &stored.ciphertext, "katpercent")
        .expect("stored envelope must still decrypt");
    assert_eq!(pt, "hello alice");
}

//! A participant's cryptographic identity and the per-message handshake:
//! a long-term signing key pair, a signed medium-term agreement key pair, a
//! pool of one-time agreement key pairs, and the seal / open operations that
//! encrypt to a peer and decrypt from a peer, each with an audit log.

use vstd::prelude::*;
use vstd::string::*;
use vstd::utf8::*;
use crate::crypto::{
    box_gen_keypair, box_gen_nonce, box_open, box_pk_of, box_precompute, box_seal, dh_of, opened,
    sig_of, sig_valid, sign_detached_sig, sign_gen_keypair, sign_pk_of, string_from_utf8,
    verify_detached_ok, BOX_KEY_LEN, BOX_MAC_LEN, BOX_NONCE_LEN, BOX_SHARED_LEN, SIGN_PK_LEN,
    SIGN_SIG_LEN, SIGN_SK_LEN,
};
use crate::hexfmt::{dec_of, digit_char, hex_of, hex_string};

verus! {

/// The characters an audit log renders a truth value as.
pub open spec fn bool_chars(b: bool) -> Seq<char> {
    if b {
        "true"@
    } else {
        "false"@
    }
}

/// The audit log a seal operation emits: sender, receiver, the outcome of
/// the peer-key signature check, the ephemeral public key, the shared-key
/// length, the nonce and the ciphertext.
pub open spec fn send_log_spec(
    sender: Seq<char>,
    receiver: Seq<char>,
    spk_ok: bool,
    epk: Seq<u8>,
    shared_len: nat,
    nonce: Seq<u8>,
    ct: Seq<u8>,
) -> Seq<char> {
    "== log ==\nSender: "@ + sender + "\nReceiver: "@ + receiver
        + "\nVerify(peer.SPK signed by peer.ID) = "@ + bool_chars(spk_ok) + "\nEphemeral PK: "@
        + hex_of(epk) + "\nDH(ephemeral, peer.SPK): precomputed ("@ + dec_of(shared_len)
        + " bytes)\nNonce: "@ + hex_of(nonce) + "\nCiphertext: "@ + hex_of(ct) + "\n"@
}

/// The audit log an open operation emits: receiver, sender, the shared-key
/// length, the nonce, the ciphertext and the recovered plaintext.
pub open spec fn recv_log_spec(
    receiver: Seq<char>,
    sender: Seq<char>,
    shared_len: nat,
    nonce: Seq<u8>,
    ct: Seq<u8>,
    plaintext: Seq<char>,
) -> Seq<char> {
    "== log (recv) ==\nReceiver: "@ + receiver + "\nSender: "@ + sender
        + "\nDH(sender.ephemeral, self.SPK): precomputed ("@ + dec_of(shared_len)
        + " bytes)\nNonce: "@ + hex_of(nonce) + "\nCiphertext: "@ + hex_of(ct) + "\nPlaintext: "@
        + plaintext + "\n"@
}

proof fn lemma_dec_of_shared_len()
    ensures
        dec_of(BOX_SHARED_LEN as nat) == "32"@,
{
    reveal_strlit("32");
    assert(dec_of(3) == seq![digit_char(3)]);
    assert(dec_of(32) == dec_of(3).push(digit_char(2)));
    assert(digit_char(3) == '3');
    assert(digit_char(2) == '2');
    assert(dec_of(32) =~= "32"@);
}

fn build_send_log(
    sender: &str,
    receiver: &str,
    spk_ok: bool,
    epk: &Vec<u8>,
    shared: &Vec<u8>,
    nonce: &Vec<u8>,
    ct: &Vec<u8>,
) -> (r: String)
    requires
        shared@.len() == BOX_SHARED_LEN,
    ensures
        r@ == send_log_spec(sender@, receiver@, spk_ok, epk@, shared@.len() as nat, nonce@, ct@),
{
    let mut s = String::from_str("== log ==\nSender: ");
    s.append(sender);
    s.append("\nReceiver: ");
    s.append(receiver);
    s.append("\nVerify(peer.SPK signed by peer.ID) = ");
    if spk_ok {
        s.append("true");
    } else {
        s.append("false");
    }
    s.append("\nEphemeral PK: ");
    let epk_hex = hex_string(epk.as_slice());
    s.append(epk_hex.as_str());
    s.append("\nDH(ephemeral, peer.SPK): precomputed (");
    s.append("32");
    proof {
        lemma_dec_of_shared_len();
    }
    s.append(" bytes)\nNonce: ");
    let nonce_hex = hex_string(nonce.as_slice());
    s.append(nonce_hex.as_str());
    s.append("\nCiphertext: ");
    let ct_hex = hex_string(ct.as_slice());
    s.append(ct_hex.as_str());
    s.append("\n");
    proof {
        assert(s@ =~= send_log_spec(
            sender@,
            receiver@,
            spk_ok,
            epk@,
            shared@.len() as nat,
            nonce@,
            ct@,
        ));
    }
    s
}

fn build_recv_log(
    receiver: &str,
    sender: &str,
    shared: &Vec<u8>,
    nonce: &Vec<u8>,
    ct: &Vec<u8>,
    plaintext: &str,
) -> (r: String)
    requires
        shared@.len() == BOX_SHARED_LEN,
    ensures
        r@ == recv_log_spec(receiver@, sender@, shared@.len() as nat, nonce@, ct@, plaintext@),
{
    let mut s = String::from_str("== log (recv) ==\nReceiver: ");
    s.append(receiver);
    s.append("\nSender: ");
    s.append(sender);
    s.append("\nDH(sender.ephemeral, self.SPK): precomputed (");
    s.append("32");
    proof {
        lemma_dec_of_shared_len();
    }
    s.append(" bytes)\nNonce: ");
    let nonce_hex = hex_string(nonce.as_slice());
    s.append(nonce_hex.as_str());
    s.append("\nCiphertext: ");
    let ct_hex = hex_string(ct.as_slice());
    s.append(ct_hex.as_str());
    s.append("\nPlaintext: ");
    s.append(plaintext);
    s.append("\n");
    proof {
        assert(s@ =~= recv_log_spec(
            receiver@,
            sender@,
            shared@.len() as nat,
            nonce@,
            ct@,
            plaintext@,
        ));
    }
    s
}

fn hex_line(prefix: &str, bytes: &Vec<u8>) -> (r: String)
    ensures
        r@ == prefix@ + hex_of(bytes@),
{
    let mut s = String::from_str(prefix);
    let h = hex_string(bytes.as_slice());
    s.append(h.as_str());
    s
}

/// Whether a one-time key pair is well formed: both halves of agreement-key
/// length, the public half derived from the secret half.
pub open spec fn otk_wf(kp: (Vec<u8>, Vec<u8>)) -> bool {
    &&& kp.0@.len() == BOX_KEY_LEN
    &&& kp.1@.len() == BOX_KEY_LEN
    &&& kp.0@ == box_pk_of(kp.1@)
}

/// A participant: a long-term Ed25519 identity key pair, a medium-term
/// Curve25519 agreement key pair signed by the identity key, and a pool of
/// one-time agreement key pairs.
#[derive(Clone)]
pub struct User {
    pub username: String,
    pub identity_pk: Vec<u8>,
    pub identity_sk: Vec<u8>,
    pub signed_pre_pk: Vec<u8>,
    pub signed_pre_sk: Vec<u8>,
    pub signed_pre_sig: Vec<u8>,
    pub one_time_prekeys: Vec<(Vec<u8>, Vec<u8>)>,
}

impl User {
    /// What sealing to this participant relies on: the agreement keys have
    /// their primitive's lengths, the medium-term public key is the one
    /// derived from its secret key, key agreement against the medium-term
    /// pair is symmetric, and the signature and identity public key have
    /// their lengths. Nothing here says the signature is valid: a peer
    /// whose pre-key signature does not verify can still be sealed to.
    pub open spec fn agreement_wf(self) -> bool {
        &&& self.identity_pk@.len() == SIGN_PK_LEN
        &&& self.signed_pre_pk@.len() == BOX_KEY_LEN
        &&& self.signed_pre_sk@.len() == BOX_KEY_LEN
        &&& self.signed_pre_pk@ == box_pk_of(self.signed_pre_sk@)
        &&& (forall|osk: Seq<u8>|
            osk.len() == BOX_KEY_LEN ==> #[trigger] dh_of(box_pk_of(osk), self.signed_pre_sk@)
                == dh_of(self.signed_pre_pk@, osk))
        &&& self.signed_pre_sig@.len() == SIGN_SIG_LEN
    }

    /// Full well-formedness, as construction establishes it: the agreement
    /// half above, plus the identity key pair belonging together, the
    /// pre-key signature being the identity key's signature over the
    /// pre-key public half and verifying under the identity public key,
    /// and every one-time pair being well formed.
    pub open spec fn wf(self) -> bool {
        &&& self.agreement_wf()
        &&& self.identity_sk@.len() == SIGN_SK_LEN
        &&& self.identity_pk@ == sign_pk_of(self.identity_sk@)
        &&& self.signed_pre_sig@ == sig_of(self.signed_pre_pk@, self.identity_sk@)
        &&& sig_valid(self.signed_pre_sig@, self.signed_pre_pk@, self.identity_pk@)
        &&& (forall|j: int|
            0 <= j < self.one_time_prekeys@.len() ==> otk_wf(#[trigger] self.one_time_prekeys@[j]))
    }

    /// Creates a participant: fresh identity and agreement key pairs, the
    /// agreement public key signed with the identity secret key, and the
    /// requested number of one-time key pairs.
    pub fn new(username: &str, num_prekeys: usize) -> (r: User)
        ensures
            r.wf(),
            r.username@ == username@,
            r.one_time_prekeys@.len() == num_prekeys,
    {
        let (id_pk, id_sk) = sign_gen_keypair();
        let (spk_pk, spk_sk) = box_gen_keypair();
        let sig = sign_detached_sig(spk_pk.as_slice(), id_sk.as_slice());
        proof {
            assert(sig_valid(sig_of(spk_pk@, id_sk@), spk_pk@, id_pk@));
        }
        let mut ot_prekeys: Vec<(Vec<u8>, Vec<u8>)> = Vec::new();
        let mut i: usize = 0;
        while i < num_prekeys
            invariant
                i <= num_prekeys,
                ot_prekeys@.len() == i,
                forall|j: int| 0 <= j < i ==> otk_wf(#[trigger] ot_prekeys@[j]),
            decreases num_prekeys - i,
        {
            let kp = box_gen_keypair();
            ot_prekeys.push(kp);
            i += 1;
        }
        User {
            username: String::from_str(username),
            identity_pk: id_pk,
            identity_sk: id_sk,
            signed_pre_pk: spk_pk,
            signed_pre_sk: spk_sk,
            signed_pre_sig: sig,
            one_time_prekeys: ot_prekeys,
        }
    }

    /// Renders every key and the pre-key signature as a line of text with
    /// the value in hexadecimal: a heading with the name, one line per
    /// long-term and medium-term key, then two lines per one-time key pair.
    /// Purely for inspection; no protocol logic reads these lines.
    pub fn describe_keys(&self) -> (r: Vec<String>)
        ensures
            r@.len() == 6 + 2 * self.one_time_prekeys@.len(),
            r@[0]@ == "User: "@ + self.username@,
            r@[1]@ == "  Identity Public Key : "@ + hex_of(self.identity_pk@),
            r@[2]@ == "  Identity Secret Key : "@ + hex_of(self.identity_sk@),
            r@[3]@ == "  Signed Pre Public   : "@ + hex_of(self.signed_pre_pk@),
            r@[4]@ == "  Signed Pre Secret   : "@ + hex_of(self.signed_pre_sk@),
            r@[5]@ == "  Signature on SPK    : "@ + hex_of(self.signed_pre_sig@),
            forall|j: int|
                0 <= j < self.one_time_prekeys@.len() ==> r@[6 + 2 * j]@ == "  One-Time PreKey (pub): "@
                    + hex_of((#[trigger] self.one_time_prekeys@[j]).0@) && r@[6 + 2 * j + 1]@
                    == "  One-Time PreKey (priv): "@ + hex_of(self.one_time_prekeys@[j].1@),
    {
        let mut r: Vec<String> = Vec::new();
        let mut heading = String::from_str("User: ");
        heading.append(self.username.as_str());
        r.push(heading);
        r.push(hex_line("  Identity Public Key : ", &self.identity_pk));
        r.push(hex_line("  Identity Secret Key : ", &self.identity_sk));
        r.push(hex_line("  Signed Pre Public   : ", &self.signed_pre_pk));
        r.push(hex_line("  Signed Pre Secret   : ", &self.signed_pre_sk));
        r.push(hex_line("  Signature on SPK    : ", &self.signed_pre_sig));
        let mut i: usize = 0;
        while i < self.one_time_prekeys.len()
            invariant
                i <= self.one_time_prekeys@.len(),
                r@.len() == 6 + 2 * i,
                r@[0]@ == "User: "@ + self.username@,
                r@[1]@ == "  Identity Public Key : "@ + hex_of(self.identity_pk@),
                r@[2]@ == "  Identity Secret Key : "@ + hex_of(self.identity_sk@),
                r@[3]@ == "  Signed Pre Public   : "@ + hex_of(self.signed_pre_pk@),
                r@[4]@ == "  Signed Pre Secret   : "@ + hex_of(self.signed_pre_sk@),
                r@[5]@ == "  Signature on SPK    : "@ + hex_of(self.signed_pre_sig@),
                forall|j: int|
                    0 <= j < i ==> r@[6 + 2 * j]@ == "  One-Time PreKey (pub): "@ + hex_of(
                        (#[trigger] self.one_time_prekeys@[j]).0@,
                    ) && r@[6 + 2 * j + 1]@ == "  One-Time PreKey (priv): "@ + hex_of(
                        self.one_time_prekeys@[j].1@,
                    ),
            decreases self.one_time_prekeys@.len() - i,
        {
            r.push(hex_line("  One-Time PreKey (pub): ", &self.one_time_prekeys[i].0));
            r.push(hex_line("  One-Time PreKey (priv): ", &self.one_time_prekeys[i].1));
            i += 1;
        }
        r
    }

    /// The participant's name.
    pub fn username(&self) -> (r: &str)
        ensures
            r@ == self.username@,
    {
        self.username.as_str()
    }

    /// Checks that a peer's medium-term agreement key genuinely belongs to
    /// that peer: its signature verifies under the peer's identity public
    /// key. On any identity as constructed here the check succeeds.
    pub fn verify_peer_spk(peer: &User) -> (ok: bool)
        requires
            peer.signed_pre_sig@.len() == SIGN_SIG_LEN,
            peer.identity_pk@.len() == SIGN_PK_LEN,
        ensures
            ok == sig_valid(peer.signed_pre_sig@, peer.signed_pre_pk@, peer.identity_pk@),
            peer.wf() ==> ok,
    {
        verify_detached_ok(
            peer.signed_pre_sig.as_slice(),
            peer.signed_pre_pk.as_slice(),
            peer.identity_pk.as_slice(),
        )
    }

    /// Seals a message to a peer: checks the peer's signed pre-key (the
    /// outcome is recorded in the log but does not stop the operation —
    /// sealing proceeds, and succeeds, even when the signature does not
    /// verify), generates an ephemeral key pair and a nonce, derives the
    /// shared key against the peer's medium-term public key, and encrypts.
    /// Returns the ephemeral public key, the nonce, the ciphertext and the
    /// audit log.
    ///
    /// The ciphertext opens, under the returned nonce and the key the peer
    /// will derive from the ephemeral public key and their own medium-term
    /// secret key, to exactly the UTF-8 bytes of the plaintext.
    pub fn encrypt_message_with_logs(&self, peer: &User, plaintext: &str) -> (r: (
        Vec<u8>,
        Vec<u8>,
        Vec<u8>,
        String,
    ))
        requires
            peer.agreement_wf(),
            encode_utf8(plaintext@).len() + BOX_MAC_LEN <= usize::MAX,
        ensures
            r.0@.len() == BOX_KEY_LEN,
            r.1@.len() == BOX_NONCE_LEN,
            r.2@.len() == encode_utf8(plaintext@).len() + BOX_MAC_LEN,
            opened(r.2@, r.1@, dh_of(r.0@, peer.signed_pre_sk@)) == Some(encode_utf8(plaintext@)),
            r.3@ == send_log_spec(
                self.username@,
                peer.username@,
                sig_valid(peer.signed_pre_sig@, peer.signed_pre_pk@, peer.identity_pk@),
                r.0@,
                BOX_SHARED_LEN as nat,
                r.1@,
                r.2@,
            ),
    {
        let spk_ok = User::verify_peer_spk(peer);
        let (ephemeral_pk, ephemeral_sk) = box_gen_keypair();
        let shared = box_precompute(peer.signed_pre_pk.as_slice(), ephemeral_sk.as_slice());
        let nonce = box_gen_nonce();
        let m = plaintext.as_bytes_vec();
        let ciphertext = box_seal(m.as_slice(), nonce.as_slice(), shared.as_slice());
        proof {
            assert(dh_of(box_pk_of(ephemeral_sk@), peer.signed_pre_sk@) == dh_of(
                peer.signed_pre_pk@,
                ephemeral_sk@,
            ));
            assert(dh_of(ephemeral_pk@, peer.signed_pre_sk@) == shared@);
        }
        let log = build_send_log(
            self.username.as_str(),
            peer.username.as_str(),
            spk_ok,
            &ephemeral_pk,
            &shared,
            &nonce,
            &ciphertext,
        );
        (ephemeral_pk, nonce, ciphertext, log)
    }

    /// Opens a message from a peer: derives the shared key from the sender's
    /// ephemeral public key and one's own medium-term secret key, attempts
    /// authenticated decryption, and requires the decrypted bytes to be
    /// valid text. Yields the plaintext with an audit log, or nothing — on a
    /// malformed key or nonce, an authentication failure, or invalid text.
    pub fn decrypt_message_with_logs(
        &self,
        sender_ephemeral_pk: &Vec<u8>,
        nonce: &Vec<u8>,
        ciphertext: &Vec<u8>,
        sender_name: &str,
    ) -> (r: Option<(String, String)>)
        requires
            self.signed_pre_sk@.len() == BOX_KEY_LEN,
        ensures
            match r {
                Some(pl) => {
                    &&& sender_ephemeral_pk@.len() == BOX_KEY_LEN
                    &&& nonce@.len() == BOX_NONCE_LEN
                    &&& opened(
                        ciphertext@,
                        nonce@,
                        dh_of(sender_ephemeral_pk@, self.signed_pre_sk@),
                    ) matches Some(b) && valid_utf8(b) && pl.0@ == decode_utf8(b)
                    &&& pl.1@ == recv_log_spec(
                        self.username@,
                        sender_name@,
                        BOX_SHARED_LEN as nat,
                        nonce@,
                        ciphertext@,
                        pl.0@,
                    )
                },
                None => {
                    ||| sender_ephemeral_pk@.len() != BOX_KEY_LEN
                    ||| nonce@.len() != BOX_NONCE_LEN
                    ||| opened(
                        ciphertext@,
                        nonce@,
                        dh_of(sender_ephemeral_pk@, self.signed_pre_sk@),
                    ) is None
                    ||| (opened(
                        ciphertext@,
                        nonce@,
                        dh_of(sender_ephemeral_pk@, self.signed_pre_sk@),
                    ) matches Some(b) && !valid_utf8(b))
                },
            },
    {
        if sender_ephemeral_pk.len() != BOX_KEY_LEN {
            return None;
        }
        if nonce.len() != BOX_NONCE_LEN {
            return None;
        }
        let shared = box_precompute(sender_ephemeral_pk.as_slice(), self.signed_pre_sk.as_slice());
        let pt_bytes = match box_open(ciphertext.as_slice(), nonce.as_slice(), shared.as_slice()) {
            Some(b) => b,
            None => {
                return None;
            },
        };
        let plaintext = match string_from_utf8(pt_bytes) {
            Some(s) => s,
            None => {
                return None;
            },
        };
        let log = build_recv_log(
            self.username.as_str(),
            sender_name,
            &shared,
            nonce,
            ciphertext,
            plaintext.as_str(),
        );
        Some((plaintext, log))
    }
}

/// Sealing a message to a receiver with well-formed agreement keys and
/// opening what came out, with the ephemeral key and nonce the seal
/// produced, always recovers the plaintext: the returned text equals the
/// message, whatever the sender's key material and whether or not the
/// receiver's pre-key signature verifies.
pub fn round_trip_message(sender: &User, receiver: &User, plaintext: &str) -> (r: Option<
    (String, String, String),
>)
    requires
        receiver.agreement_wf(),
        encode_utf8(plaintext@).len() + BOX_MAC_LEN <= usize::MAX,
    ensures
        r matches Some(t) && t.0@ == plaintext@,
{
    let (ephemeral_pk, nonce, ciphertext, send_log) = sender.encrypt_message_with_logs(
        receiver,
        plaintext,
    );
    proof {
        encode_utf8_valid_utf8(plaintext@);
        encode_utf8_decode_utf8(plaintext@);
    }
    let opened_pair = receiver.decrypt_message_with_logs(
        &ephemeral_pk,
        &nonce,
        &ciphertext,
        sender.username.as_str(),
    );
    match opened_pair {
        Some(pl) => Some((pl.0, send_log, pl.1)),
        None => None,
    }
}

/// Seals and opens a message between two freshly created identities. The
/// exchange succeeds whenever the plaintext's byte length leaves room for
/// the authentication tag, and the text that comes back equals the text
/// sent in.
pub fn demo_round_trip(plaintext: &str) -> (r: Option<(String, String, String)>)
    ensures
        encode_utf8(plaintext@).len() + BOX_MAC_LEN <= usize::MAX ==> r is Some,
        r matches Some(t) ==> t.0@ == plaintext@,
{
    let alice = User::new("alice", 2);
    let bob = User::new("bob", 2);
    let plaintext_bytes = plaintext.as_bytes_vec();
    if plaintext_bytes.len() <= usize::MAX - BOX_MAC_LEN {
        round_trip_message(&alice, &bob, plaintext)
    } else {
        None
    }
}

} // verus!

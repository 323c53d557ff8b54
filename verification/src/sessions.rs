//! The conversation store: a durable, keyed, append-only log of sealed
//! messages. Each peer name maps to the ordered sequence of messages sealed
//! for that peer; the whole store round-trips through an exact,
//! length-prefixed byte encoding.

use vstd::prelude::*;
use vstd::string::*;
use vstd::bytes::*;
use vstd::utf8::*;
use vstd::slice::*;
use crate::crypto::string_from_utf8;

verus! {

/// The mathematical value of one stored message.
pub ghost struct MsgView {
    pub ciphertext: Seq<u8>,
    pub ephemeral_pk: Seq<u8>,
    pub nonce: Seq<u8>,
    pub log: Seq<char>,
}

/// One sealed message as kept in the store: the ciphertext, the sender's
/// ephemeral public key, the nonce, and the audit log of the sealing.
#[derive(Clone)]
pub struct StoredMessage {
    pub ciphertext: Vec<u8>,
    pub ephemeral_pk: Vec<u8>,
    pub nonce: Vec<u8>,
    pub log: String,
}

impl View for StoredMessage {
    type V = MsgView;

    open spec fn view(&self) -> MsgView {
        MsgView {
            ciphertext: self.ciphertext@,
            ephemeral_pk: self.ephemeral_pk@,
            nonce: self.nonce@,
            log: self.log@,
        }
    }
}

/// The mathematical value of a whole store: the conversations in insertion
/// order, each a peer name with its messages in append order.
pub type StoreView = Seq<(Seq<char>, Seq<MsgView>)>;

/// The values of a sequence of stored messages.
pub open spec fn msgs_view(ms: Seq<StoredMessage>) -> Seq<MsgView> {
    ms.map_values(|m: StoredMessage| m@)
}

/// The messages filed under a name: those of the first conversation whose
/// key equals the name, or nothing when no conversation carries it.
pub open spec fn lookup(convs: StoreView, name: Seq<char>) -> Option<Seq<MsgView>>
    decreases convs.len(),
{
    if convs.len() == 0 {
        None
    } else if convs[0].0 == name {
        Some(convs[0].1)
    } else {
        lookup(convs.subrange(1, convs.len() as int), name)
    }
}

/// Whether no two conversations carry the same name. The store keeps this
/// invariant: filing merges into an existing conversation, and parsing
/// rejects an encoding with a repeated name.
pub open spec fn unique_names(convs: StoreView) -> bool {
    forall|i: int, j: int| 0 <= i < j < convs.len() ==> (#[trigger] convs[i]).0 != (#[trigger] convs[j]).0
}

/// The store after filing a message under a name: appended to the first
/// conversation carrying the name, or to a new conversation at the end when
/// none does.
pub open spec fn add_msg(convs: StoreView, name: Seq<char>, m: MsgView) -> StoreView
    decreases convs.len(),
{
    if convs.len() == 0 {
        seq![(name, seq![m])]
    } else if convs[0].0 == name {
        seq![(convs[0].0, convs[0].1.push(m))] + convs.subrange(1, convs.len() as int)
    } else {
        seq![convs[0]] + add_msg(convs.subrange(1, convs.len() as int), name, m)
    }
}

/// The values of a sequence of keyed conversations.
pub open spec fn convs_view(cs: Seq<(String, Vec<StoredMessage>)>) -> StoreView {
    Seq::new(cs.len(), |i: int| (cs[i].0@, msgs_view(cs[i].1@)))
}

/// All conversations in a session, keyed by the peer's name.
pub struct Session {
    pub conversations: Vec<(String, Vec<StoredMessage>)>,
}

impl View for Session {
    type V = StoreView;

    open spec fn view(&self) -> StoreView {
        convs_view(self.conversations@)
    }
}

/// A byte sequence prefixed with its length as eight little-endian bytes.
pub open spec fn enc_bytes(b: Seq<u8>) -> Seq<u8> {
    spec_u64_to_le_bytes(b.len() as u64) + b
}

/// A character sequence encoded as its length-prefixed UTF-8 bytes.
pub open spec fn enc_chars(s: Seq<char>) -> Seq<u8> {
    enc_bytes(encode_utf8(s))
}

/// One stored message: its four fields, each length-prefixed, in order.
pub open spec fn enc_msg(m: MsgView) -> Seq<u8> {
    enc_bytes(m.ciphertext) + enc_bytes(m.ephemeral_pk) + enc_bytes(m.nonce) + enc_chars(m.log)
}

/// A message sequence: each message's encoding, in order.
pub open spec fn enc_msgs(ms: Seq<MsgView>) -> Seq<u8>
    decreases ms.len(),
{
    if ms.len() == 0 {
        Seq::empty()
    } else {
        enc_msg(ms[0]) + enc_msgs(ms.subrange(1, ms.len() as int))
    }
}

/// One conversation: the peer name, the message count as eight
/// little-endian bytes, then the messages.
pub open spec fn enc_conv(c: (Seq<char>, Seq<MsgView>)) -> Seq<u8> {
    enc_chars(c.0) + spec_u64_to_le_bytes(c.1.len() as u64) + enc_msgs(c.1)
}

/// A conversation sequence: each conversation's encoding, in order.
pub open spec fn enc_convs(cs: StoreView) -> Seq<u8>
    decreases cs.len(),
{
    if cs.len() == 0 {
        Seq::empty()
    } else {
        enc_conv(cs[0]) + enc_convs(cs.subrange(1, cs.len() as int))
    }
}

/// A whole store: the conversation count as eight little-endian bytes, then
/// the conversations.
pub open spec fn enc_store(v: StoreView) -> Seq<u8> {
    spec_u64_to_le_bytes(v.len() as u64) + enc_convs(v)
}

/// The eight little-endian bytes at an offset, read as a number, with the
/// offset that follows them; nothing when fewer than eight bytes remain.
pub open spec fn parse_u64(b: Seq<u8>, i: int) -> Option<(u64, int)> {
    if 0 <= i && i + 8 <= b.len() {
        Some((spec_u64_from_le_bytes(b.subrange(i, i + 8)), i + 8))
    } else {
        None
    }
}

/// A length-prefixed byte string at an offset: the bytes after the prefix,
/// with the offset that follows them; nothing when the data runs short.
pub open spec fn parse_chunk(b: Seq<u8>, i: int) -> Option<(Seq<u8>, int)> {
    match parse_u64(b, i) {
        Some((n, j)) => {
            if j + n <= b.len() {
                Some((b.subrange(j, j + n as int), j + n as int))
            } else {
                None
            }
        },
        None => None,
    }
}

/// A length-prefixed text at an offset: the decoding of a byte string that
/// must be valid UTF-8.
pub open spec fn parse_text(b: Seq<u8>, i: int) -> Option<(Seq<char>, int)> {
    match parse_chunk(b, i) {
        Some((bs, j)) => {
            if valid_utf8(bs) {
                Some((decode_utf8(bs), j))
            } else {
                None
            }
        },
        None => None,
    }
}

/// One stored message at an offset: three byte strings and a text, in order.
pub open spec fn parse_msg(b: Seq<u8>, i: int) -> Option<(MsgView, int)> {
    match parse_chunk(b, i) {
        Some((ct, j1)) => match parse_chunk(b, j1) {
            Some((epk, j2)) => match parse_chunk(b, j2) {
                Some((nonce, j3)) => match parse_text(b, j3) {
                    Some((log, j4)) => Some(
                        (MsgView { ciphertext: ct, ephemeral_pk: epk, nonce, log }, j4),
                    ),
                    None => None,
                },
                None => None,
            },
            None => None,
        },
        None => None,
    }
}

/// A run of stored messages at an offset.
pub open spec fn parse_msgs(b: Seq<u8>, i: int, count: nat) -> Option<(Seq<MsgView>, int)>
    decreases count,
{
    if count == 0 {
        Some((Seq::empty(), i))
    } else {
        match parse_msg(b, i) {
            Some((m, j)) => match parse_msgs(b, j, (count - 1) as nat) {
                Some((ms, j2)) => Some((seq![m] + ms, j2)),
                None => None,
            },
            None => None,
        }
    }
}

/// One conversation at an offset: the peer name, the message count, then
/// that many messages.
pub open spec fn parse_conv(b: Seq<u8>, i: int) -> Option<((Seq<char>, Seq<MsgView>), int)> {
    match parse_text(b, i) {
        Some((name, j1)) => match parse_u64(b, j1) {
            Some((count, j2)) => match parse_msgs(b, j2, count as nat) {
                Some((ms, j3)) => Some(((name, ms), j3)),
                None => None,
            },
            None => None,
        },
        None => None,
    }
}

/// A run of conversations at an offset.
pub open spec fn parse_convs(b: Seq<u8>, i: int, count: nat) -> Option<(StoreView, int)>
    decreases count,
{
    if count == 0 {
        Some((Seq::empty(), i))
    } else {
        match parse_conv(b, i) {
            Some((c, j)) => match parse_convs(b, j, (count - 1) as nat) {
                Some((cs, j2)) => Some((seq![c] + cs, j2)),
                None => None,
            },
            None => None,
        }
    }
}

/// A whole store: the conversation count, then that many conversations
/// with pairwise distinct names, consuming the bytes exactly; nothing on
/// any shortfall, invalid text, a repeated name, or trailing garbage.
pub open spec fn parse_store(b: Seq<u8>) -> Option<StoreView> {
    match parse_u64(b, 0) {
        Some((n, j)) => match parse_convs(b, j, n as nat) {
            Some((cs, j2)) => {
                if j2 == b.len() && unique_names(cs) {
                    Some(cs)
                } else {
                    None
                }
            },
            None => None,
        },
        None => None,
    }
}

proof fn lemma_enc_msgs_app(a: Seq<MsgView>, b: Seq<MsgView>)
    ensures
        enc_msgs(a + b) == enc_msgs(a) + enc_msgs(b),
    decreases a.len(),
{
    if a.len() == 0 {
        assert(a + b =~= b);
        assert(enc_msgs(a) + enc_msgs(b) =~= enc_msgs(b));
    } else {
        let t = a.subrange(1, a.len() as int);
        lemma_enc_msgs_app(t, b);
        assert((a + b).subrange(1, (a + b).len() as int) =~= t + b);
        assert((a + b)[0] == a[0]);
        assert(enc_msg(a[0]) + (enc_msgs(t) + enc_msgs(b)) =~= (enc_msg(a[0]) + enc_msgs(t))
            + enc_msgs(b));
    }
}

proof fn lemma_enc_msgs_single(m: MsgView)
    ensures
        enc_msgs(seq![m]) == enc_msg(m),
{
    assert(seq![m].subrange(1, 1) =~= Seq::<MsgView>::empty());
    assert(enc_msgs(Seq::<MsgView>::empty()) == Seq::<u8>::empty());
    assert(seq![m][0] == m);
    assert(enc_msgs(seq![m]) == enc_msg(m) + enc_msgs(seq![m].subrange(1, 1)));
    assert(enc_msg(m) + Seq::<u8>::empty() =~= enc_msg(m));
}

proof fn lemma_enc_convs_app(a: StoreView, b: StoreView)
    ensures
        enc_convs(a + b) == enc_convs(a) + enc_convs(b),
    decreases a.len(),
{
    if a.len() == 0 {
        assert(a + b =~= b);
        assert(enc_convs(a) + enc_convs(b) =~= enc_convs(b));
    } else {
        let t = a.subrange(1, a.len() as int);
        lemma_enc_convs_app(t, b);
        assert((a + b).subrange(1, (a + b).len() as int) =~= t + b);
        assert((a + b)[0] == a[0]);
        assert(enc_conv(a[0]) + (enc_convs(t) + enc_convs(b)) =~= (enc_conv(a[0]) + enc_convs(t))
            + enc_convs(b));
    }
}

proof fn lemma_enc_convs_single(c: (Seq<char>, Seq<MsgView>))
    ensures
        enc_convs(seq![c]) == enc_conv(c),
{
    assert(seq![c].subrange(1, 1) =~= StoreView::empty());
    assert(enc_convs(StoreView::empty()) == Seq::<u8>::empty());
    assert(seq![c][0] == c);
    assert(enc_convs(seq![c]) == enc_conv(c) + enc_convs(seq![c].subrange(1, 1)));
    assert(enc_conv(c) + Seq::<u8>::empty() =~= enc_conv(c));
}

/// Whether a message's fields are short enough for their lengths to be
/// written as eight-byte numbers.
pub open spec fn msg_fits(m: MsgView) -> bool {
    &&& m.ciphertext.len() <= u64::MAX
    &&& m.ephemeral_pk.len() <= u64::MAX
    &&& m.nonce.len() <= u64::MAX
    &&& encode_utf8(m.log).len() <= u64::MAX
}

/// Whether a conversation's name, count and messages fit the encoding.
pub open spec fn conv_fits(c: (Seq<char>, Seq<MsgView>)) -> bool {
    &&& encode_utf8(c.0).len() <= u64::MAX
    &&& c.1.len() <= u64::MAX
    &&& forall|j: int| 0 <= j < c.1.len() ==> #[trigger] msg_fits(c.1[j])
}

/// Whether a store fits the encoding; every store held in memory does.
pub open spec fn store_fits(v: StoreView) -> bool {
    &&& v.len() <= u64::MAX
    &&& forall|j: int| 0 <= j < v.len() ==> #[trigger] conv_fits(v[j])
}

proof fn lemma_subrange_at(b: Seq<u8>, i: int, e: Seq<u8>, lo: int, hi: int)
    requires
        0 <= i,
        i + e.len() <= b.len(),
        b.subrange(i, i + e.len() as int) == e,
        0 <= lo <= hi <= e.len(),
    ensures
        b.subrange(i + lo, i + hi) == e.subrange(lo, hi),
{
    assert forall|k: int| 0 <= k < hi - lo implies b.subrange(i + lo, i + hi)[k] == e.subrange(
        lo,
        hi,
    )[k] by {
        assert(b.subrange(i, i + e.len() as int)[lo + k] == e[lo + k]);
    }
    assert(b.subrange(i + lo, i + hi) =~= e.subrange(lo, hi));
}

proof fn lemma_parse_chunk_enc(b: Seq<u8>, i: int, x: Seq<u8>)
    requires
        x.len() <= u64::MAX,
        0 <= i,
        i + 8 + x.len() <= b.len(),
        b.subrange(i, i + 8 + x.len()) == enc_bytes(x),
    ensures
        parse_chunk(b, i) == Some((x, i + 8 + x.len())),
{
    lemma_auto_spec_u64_to_from_le_bytes();
    let e = enc_bytes(x);
    let lenb = spec_u64_to_le_bytes(x.len() as u64);
    assert(lenb.len() == 8);
    assert(e.len() == 8 + x.len());
    lemma_subrange_at(b, i, e, 0, 8);
    assert(e.subrange(0, 8) =~= lenb);
    assert(spec_u64_from_le_bytes(b.subrange(i, i + 8)) == x.len() as u64);
    lemma_subrange_at(b, i, e, 8, e.len() as int);
    assert(e.subrange(8, e.len() as int) =~= x);
    assert(b.subrange(i + 8, i + 8 + x.len()) =~= x);
}

proof fn lemma_parse_text_enc(b: Seq<u8>, i: int, s: Seq<char>)
    requires
        encode_utf8(s).len() <= u64::MAX,
        0 <= i,
        i + 8 + encode_utf8(s).len() <= b.len(),
        b.subrange(i, i + 8 + encode_utf8(s).len()) == enc_chars(s),
    ensures
        parse_text(b, i) == Some((s, i + 8 + encode_utf8(s).len())),
{
    lemma_parse_chunk_enc(b, i, encode_utf8(s));
    encode_utf8_valid_utf8(s);
    encode_utf8_decode_utf8(s);
}

proof fn lemma_parse_msg_enc(b: Seq<u8>, i: int, m: MsgView)
    requires
        msg_fits(m),
        0 <= i,
        i + enc_msg(m).len() <= b.len(),
        b.subrange(i, i + enc_msg(m).len()) == enc_msg(m),
    ensures
        parse_msg(b, i) == Some((m, i + enc_msg(m).len())),
{
    let e1 = enc_bytes(m.ciphertext);
    let e2 = enc_bytes(m.ephemeral_pk);
    let e3 = enc_bytes(m.nonce);
    let e4 = enc_chars(m.log);
    let o1 = i + e1.len();
    let o2 = o1 + e2.len();
    let o3 = o2 + e3.len();
    let o4 = o3 + e4.len();
    lemma_auto_spec_u64_to_from_le_bytes();
    let e = enc_msg(m);
    assert(e.len() == e1.len() + e2.len() + e3.len() + e4.len());
    lemma_subrange_at(b, i, e, 0, e1.len() as int);
    assert(e.subrange(0, e1.len() as int) =~= e1);
    lemma_parse_chunk_enc(b, i, m.ciphertext);
    lemma_subrange_at(b, i, e, o1 - i, o2 - i);
    assert(e.subrange(o1 - i, o2 - i) =~= e2);
    lemma_parse_chunk_enc(b, o1, m.ephemeral_pk);
    lemma_subrange_at(b, i, e, o2 - i, o3 - i);
    assert(e.subrange(o2 - i, o3 - i) =~= e3);
    lemma_parse_chunk_enc(b, o2, m.nonce);
    lemma_subrange_at(b, i, e, o3 - i, o4 - i);
    assert(e.subrange(o3 - i, o4 - i) =~= e4);
    lemma_parse_text_enc(b, o3, m.log);
    assert(parse_msg(b, i) == Some((m, o4)));
}

proof fn lemma_parse_msgs_enc(b: Seq<u8>, i: int, ms: Seq<MsgView>)
    requires
        forall|j: int| 0 <= j < ms.len() ==> #[trigger] msg_fits(ms[j]),
        0 <= i,
        i + enc_msgs(ms).len() <= b.len(),
        b.subrange(i, i + enc_msgs(ms).len()) == enc_msgs(ms),
    ensures
        parse_msgs(b, i, ms.len()) == Some((ms, i + enc_msgs(ms).len())),
    decreases ms.len(),
{
    if ms.len() == 0 {
        assert(parse_msgs(b, i, 0) == Some((Seq::<MsgView>::empty(), i)));
        assert(ms =~= Seq::<MsgView>::empty());
    } else {
        let e = enc_msg(ms[0]);
        let t = ms.subrange(1, ms.len() as int);
        let whole = enc_msgs(ms);
        assert(whole == e + enc_msgs(t));
        lemma_subrange_at(b, i, whole, 0, e.len() as int);
        assert(whole.subrange(0, e.len() as int) =~= e);
        lemma_parse_msg_enc(b, i, ms[0]);
        lemma_subrange_at(b, i, whole, e.len() as int, whole.len() as int);
        assert(whole.subrange(e.len() as int, whole.len() as int) =~= enc_msgs(t));
        assert(forall|j: int| 0 <= j < t.len() ==> #[trigger] msg_fits(t[j]));
        lemma_parse_msgs_enc(b, i + e.len(), t);
        assert(seq![ms[0]] + t =~= ms);
        assert(parse_msgs(b, i, ms.len()) == Some((ms, i + enc_msgs(ms).len())));
    }
}

proof fn lemma_parse_conv_enc(b: Seq<u8>, i: int, c: (Seq<char>, Seq<MsgView>))
    requires
        conv_fits(c),
        0 <= i,
        i + enc_conv(c).len() <= b.len(),
        b.subrange(i, i + enc_conv(c).len()) == enc_conv(c),
    ensures
        parse_conv(b, i) == Some((c, i + enc_conv(c).len())),
{
    let e1 = enc_chars(c.0);
    let e2 = spec_u64_to_le_bytes(c.1.len() as u64);
    let e3 = enc_msgs(c.1);
    let o1 = i + e1.len();
    let o2 = o1 + e2.len();
    let o3 = o2 + e3.len();
    lemma_auto_spec_u64_to_from_le_bytes();
    let e = enc_conv(c);
    assert(e.len() == e1.len() + e2.len() + e3.len());
    lemma_subrange_at(b, i, e, 0, e1.len() as int);
    assert(e.subrange(0, e1.len() as int) =~= e1);
    lemma_parse_text_enc(b, i, c.0);
    lemma_subrange_at(b, i, e, o1 - i, o2 - i);
    assert(e.subrange(o1 - i, o2 - i) =~= e2);
    assert(spec_u64_from_le_bytes(b.subrange(o1, o1 + 8)) == c.1.len() as u64);
    lemma_subrange_at(b, i, e, o2 - i, o3 - i);
    assert(e.subrange(o2 - i, o3 - i) =~= e3);
    lemma_parse_msgs_enc(b, o2, c.1);
    assert(parse_conv(b, i) == Some((c, o3)));
}

proof fn lemma_parse_convs_enc(b: Seq<u8>, i: int, cs: StoreView)
    requires
        forall|j: int| 0 <= j < cs.len() ==> #[trigger] conv_fits(cs[j]),
        0 <= i,
        i + enc_convs(cs).len() <= b.len(),
        b.subrange(i, i + enc_convs(cs).len()) == enc_convs(cs),
    ensures
        parse_convs(b, i, cs.len()) == Some((cs, i + enc_convs(cs).len())),
    decreases cs.len(),
{
    if cs.len() == 0 {
        assert(parse_convs(b, i, 0) == Some((StoreView::empty(), i)));
        assert(cs =~= StoreView::empty());
    } else {
        let e = enc_conv(cs[0]);
        let t = cs.subrange(1, cs.len() as int);
        let whole = enc_convs(cs);
        assert(whole == e + enc_convs(t));
        lemma_subrange_at(b, i, whole, 0, e.len() as int);
        assert(whole.subrange(0, e.len() as int) =~= e);
        lemma_parse_conv_enc(b, i, cs[0]);
        lemma_subrange_at(b, i, whole, e.len() as int, whole.len() as int);
        assert(whole.subrange(e.len() as int, whole.len() as int) =~= enc_convs(t));
        assert(forall|j: int| 0 <= j < t.len() ==> #[trigger] conv_fits(t[j]));
        lemma_parse_convs_enc(b, i + e.len(), t);
        assert(seq![cs[0]] + t =~= cs);
        assert(parse_convs(b, i, cs.len()) == Some((cs, i + enc_convs(cs).len())));
    }
}

proof fn lemma_enc_msg_len(m: MsgView)
    ensures
        enc_msg(m).len() == 32 + m.ciphertext.len() + m.ephemeral_pk.len() + m.nonce.len()
            + encode_utf8(m.log).len(),
{
    lemma_auto_spec_u64_to_from_le_bytes();
}

proof fn lemma_enc_msgs_len_ge(ms: Seq<MsgView>, k: int)
    requires
        0 <= k < ms.len(),
    ensures
        enc_msgs(ms).len() >= enc_msg(ms[k]).len(),
        enc_msgs(ms).len() >= ms.len(),
    decreases ms.len(),
{
    let t = ms.subrange(1, ms.len() as int);
    lemma_enc_msg_len(ms[0]);
    if ms.len() > 1 {
        lemma_enc_msgs_len_ge(t, if k == 0 {
            0
        } else {
            k - 1
        });
    }
    if k > 0 {
        assert(t[k - 1] == ms[k]);
    }
}

proof fn lemma_enc_conv_len(c: (Seq<char>, Seq<MsgView>))
    ensures
        enc_conv(c).len() >= 16 + encode_utf8(c.0).len(),
        enc_conv(c).len() >= c.1.len(),
        forall|k: int|
            0 <= k < c.1.len() ==> enc_conv(c).len() >= (#[trigger] enc_msg(c.1[k])).len(),
{
    lemma_auto_spec_u64_to_from_le_bytes();
    if c.1.len() > 0 {
        lemma_enc_msgs_len_ge(c.1, 0);
        assert forall|k: int| 0 <= k < c.1.len() implies enc_conv(c).len() >= (#[trigger] enc_msg(
            c.1[k],
        )).len() by {
            lemma_enc_msgs_len_ge(c.1, k);
        }
    }
}

proof fn lemma_enc_convs_len_ge(cs: StoreView, k: int)
    requires
        0 <= k < cs.len(),
    ensures
        enc_convs(cs).len() >= enc_conv(cs[k]).len(),
        enc_convs(cs).len() >= cs.len(),
    decreases cs.len(),
{
    let t = cs.subrange(1, cs.len() as int);
    lemma_enc_conv_len(cs[0]);
    if cs.len() > 1 {
        lemma_enc_convs_len_ge(t, if k == 0 {
            0
        } else {
            k - 1
        });
    }
    if k > 0 {
        assert(t[k - 1] == cs[k]);
    }
}

/// A store whose whole encoding has at most the largest eight-byte length
/// fits the encoding: every count and every field length fits too.
pub proof fn lemma_store_fits_of_enc_len(v: StoreView)
    requires
        enc_store(v).len() <= u64::MAX,
    ensures
        store_fits(v),
{
    lemma_auto_spec_u64_to_from_le_bytes();
    if v.len() > 0 {
        lemma_enc_convs_len_ge(v, 0);
    }
    assert forall|j: int| 0 <= j < v.len() implies #[trigger] conv_fits(v[j]) by {
        lemma_enc_convs_len_ge(v, j);
        let c = v[j];
        lemma_enc_conv_len(c);
        assert forall|k: int| 0 <= k < c.1.len() implies #[trigger] msg_fits(c.1[k]) by {
            lemma_enc_msg_len(c.1[k]);
        }
    }
}

/// Serializing a store with distinct names and parsing the bytes back
/// reconstructs the store exactly: every conversation, and every message's
/// ciphertext, ephemeral key, nonce and log, byte for byte and character
/// for character.
pub proof fn lemma_store_round_trip(v: StoreView)
    requires
        store_fits(v),
        unique_names(v),
    ensures
        parse_store(enc_store(v)) == Some(v),
{
    let b = enc_store(v);
    lemma_auto_spec_u64_to_from_le_bytes();
    let lenb = spec_u64_to_le_bytes(v.len() as u64);
    assert(lenb.len() == 8);
    assert(b.subrange(0, 8) =~= lenb);
    assert(spec_u64_from_le_bytes(b.subrange(0, 8)) == v.len() as u64);
    assert(b.subrange(8, 8 + enc_convs(v).len() as int) =~= enc_convs(v));
    lemma_parse_convs_enc(b, 8, v);
    assert(parse_store(b) == Some(v));
}

fn append_chunk(out: &mut Vec<u8>, data: &[u8])
    ensures
        final(out)@ == old(out)@ + enc_bytes(data@),
{
    let mut lenb = u64_to_le_bytes(data.len() as u64);
    out.append(&mut lenb);
    out.extend_from_slice(data);
    proof {
        assert(out@ =~= old(out)@ + enc_bytes(data@));
    }
}

fn append_text(out: &mut Vec<u8>, s: &str)
    ensures
        final(out)@ == old(out)@ + enc_chars(s@),
{
    append_chunk(out, s.as_bytes());
}

fn read_u64(bytes: &[u8], i: usize) -> (r: Option<(u64, usize)>)
    ensures
        match r {
            Some(p) => parse_u64(bytes@, i as int) == Some((p.0, p.1 as int)),
            None => parse_u64(bytes@, i as int) is None,
        },
{
    if i <= bytes.len() && bytes.len() - i >= 8 {
        let s = slice_subrange(bytes, i, i + 8);
        let x = u64_from_le_bytes(s);
        Some((x, i + 8))
    } else {
        None
    }
}

fn read_chunk(bytes: &[u8], i: usize) -> (r: Option<(Vec<u8>, usize)>)
    ensures
        match r {
            Some(p) => parse_chunk(bytes@, i as int) == Some((p.0@, p.1 as int)),
            None => parse_chunk(bytes@, i as int) is None,
        },
{
    match read_u64(bytes, i) {
        Some((n, j)) => {
            if n <= (bytes.len() - j) as u64 {
                let end = j + (n as usize);
                let v = slice_to_vec(slice_subrange(bytes, j, end));
                Some((v, end))
            } else {
                None
            }
        },
        None => None,
    }
}

fn read_text(bytes: &[u8], i: usize) -> (r: Option<(String, usize)>)
    ensures
        match r {
            Some(p) => parse_text(bytes@, i as int) == Some((p.0@, p.1 as int)),
            None => parse_text(bytes@, i as int) is None,
        },
{
    match read_chunk(bytes, i) {
        Some((bs, j)) => match string_from_utf8(bs) {
            Some(s) => Some((s, j)),
            None => None,
        },
        None => None,
    }
}

fn read_msg(bytes: &[u8], i: usize) -> (r: Option<(StoredMessage, usize)>)
    ensures
        match r {
            Some(p) => parse_msg(bytes@, i as int) == Some((p.0@, p.1 as int)),
            None => parse_msg(bytes@, i as int) is None,
        },
{
    match read_chunk(bytes, i) {
        Some((ciphertext, j1)) => match read_chunk(bytes, j1) {
            Some((ephemeral_pk, j2)) => match read_chunk(bytes, j2) {
                Some((nonce, j3)) => match read_text(bytes, j3) {
                    Some((log, j4)) => Some(
                        (StoredMessage { ciphertext, ephemeral_pk, nonce, log }, j4),
                    ),
                    None => None,
                },
                None => None,
            },
            None => None,
        },
        None => None,
    }
}

spec fn compose_msgs(prefix: Seq<MsgView>, o: Option<(Seq<MsgView>, int)>) -> Option<
    (Seq<MsgView>, int),
> {
    match o {
        Some(p) => Some((prefix + p.0, p.1)),
        None => None,
    }
}

fn read_msgs(bytes: &[u8], i: usize, count: u64) -> (r: Option<(Vec<StoredMessage>, usize)>)
    ensures
        match r {
            Some(p) => parse_msgs(bytes@, i as int, count as nat) == Some(
                (msgs_view(p.0@), p.1 as int),
            ),
            None => parse_msgs(bytes@, i as int, count as nat) is None,
        },
{
    let mut acc: Vec<StoredMessage> = Vec::new();
    let mut cur = i;
    let mut k: u64 = 0;
    while k < count
        invariant
            k <= count,
            compose_msgs(msgs_view(acc@), parse_msgs(bytes@, cur as int, (count - k) as nat))
                == parse_msgs(bytes@, i as int, count as nat),
        decreases count - k,
    {
        let ghost rem = (count - k) as nat;
        match read_msg(bytes, cur) {
            Some((m, j)) => {
                proof {
                    let o2 = parse_msgs(bytes@, j as int, (rem - 1) as nat);
                    assert(parse_msgs(bytes@, cur as int, rem) == (match o2 {
                        Some(p) => Some((seq![m@] + p.0, p.1)),
                        None => None,
                    }));
                    if o2 is Some {
                        let p = o2->Some_0;
                        assert(msgs_view(acc@.push(m)) =~= msgs_view(acc@).push(m@));
                        assert(msgs_view(acc@).push(m@) + p.0 =~= msgs_view(acc@) + (seq![m@]
                            + p.0));
                    }
                }
                acc.push(m);
                cur = j;
                k += 1;
            },
            None => {
                proof {
                    assert(parse_msgs(bytes@, cur as int, rem) is None);
                }
                return None;
            },
        }
    }
    proof {
        assert(parse_msgs(bytes@, cur as int, 0) == Some((Seq::<MsgView>::empty(), cur as int)));
        assert(msgs_view(acc@) + Seq::<MsgView>::empty() =~= msgs_view(acc@));
    }
    Some((acc, cur))
}

fn read_conv(bytes: &[u8], i: usize) -> (r: Option<((String, Vec<StoredMessage>), usize)>)
    ensures
        match r {
            Some(p) => parse_conv(bytes@, i as int) == Some(
                ((p.0.0@, msgs_view(p.0.1@)), p.1 as int),
            ),
            None => parse_conv(bytes@, i as int) is None,
        },
{
    match read_text(bytes, i) {
        Some((name, j1)) => match read_u64(bytes, j1) {
            Some((count, j2)) => match read_msgs(bytes, j2, count) {
                Some((ms, j3)) => Some(((name, ms), j3)),
                None => None,
            },
            None => None,
        },
        None => None,
    }
}

spec fn compose_convs(prefix: StoreView, o: Option<(StoreView, int)>) -> Option<(StoreView, int)> {
    match o {
        Some(p) => Some((prefix + p.0, p.1)),
        None => None,
    }
}

fn read_convs(bytes: &[u8], i: usize, count: u64) -> (r: Option<
    (Vec<(String, Vec<StoredMessage>)>, usize),
>)
    ensures
        match r {
            Some(p) => parse_convs(bytes@, i as int, count as nat) == Some(
                (convs_view(p.0@), p.1 as int),
            ),
            None => parse_convs(bytes@, i as int, count as nat) is None,
        },
{
    let mut acc: Vec<(String, Vec<StoredMessage>)> = Vec::new();
    let mut cur = i;
    let mut k: u64 = 0;
    while k < count
        invariant
            k <= count,
            compose_convs(convs_view(acc@), parse_convs(bytes@, cur as int, (count - k) as nat))
                == parse_convs(bytes@, i as int, count as nat),
        decreases count - k,
    {
        let ghost rem = (count - k) as nat;
        match read_conv(bytes, cur) {
            Some((c, j)) => {
                proof {
                    let o2 = parse_convs(bytes@, j as int, (rem - 1) as nat);
                    let ghost cv = (c.0@, msgs_view(c.1@));
                    assert(parse_convs(bytes@, cur as int, rem) == (match o2 {
                        Some(p) => Some((seq![cv] + p.0, p.1)),
                        None => None,
                    }));
                    if o2 is Some {
                        let p = o2->Some_0;
                        assert(convs_view(acc@.push(c)) =~= convs_view(acc@).push(cv));
                        assert(convs_view(acc@).push(cv) + p.0 =~= convs_view(acc@) + (seq![cv]
                            + p.0));
                    }
                }
                acc.push(c);
                cur = j;
                k += 1;
            },
            None => {
                proof {
                    assert(parse_convs(bytes@, cur as int, rem) is None);
                }
                return None;
            },
        }
    }
    proof {
        assert(parse_convs(bytes@, cur as int, 0) == Some((StoreView::empty(), cur as int)));
        assert(convs_view(acc@) + StoreView::empty() =~= convs_view(acc@));
    }
    Some((acc, cur))
}

/// Filing a message touches exactly the conversation it names: under that
/// name the message is appended (to the empty sequence when the name was
/// absent), and every other name's messages are unchanged.
pub proof fn lemma_add_msg_lookup(convs: StoreView, name: Seq<char>, m: MsgView)
    ensures
        lookup(add_msg(convs, name, m), name) == Some(
            match lookup(convs, name) {
                Some(ms) => ms.push(m),
                None => seq![m],
            },
        ),
        forall|other: Seq<char>|
            other != name ==> #[trigger] lookup(add_msg(convs, name, m), other) == lookup(
                convs,
                other,
            ),
    decreases convs.len(),
{
    let r = add_msg(convs, name, m);
    if convs.len() == 0 {
        assert(r == seq![(name, seq![m])]);
        assert(r.subrange(1, 1) =~= Seq::<(Seq<char>, Seq<MsgView>)>::empty());
        assert forall|other: Seq<char>| other != name implies #[trigger] lookup(r, other)
            == lookup(convs, other) by {
            assert(lookup(r.subrange(1, 1), other) is None);
            assert(lookup(r, other) is None);
        }
    } else if convs[0].0 == name {
        let tail = convs.subrange(1, convs.len() as int);
        assert(r == seq![(convs[0].0, convs[0].1.push(m))] + tail);
        assert(r[0] == (convs[0].0, convs[0].1.push(m)));
        assert(r.subrange(1, r.len() as int) =~= tail);
        assert forall|other: Seq<char>| other != name implies #[trigger] lookup(r, other)
            == lookup(convs, other) by {
            assert(lookup(r, other) == lookup(tail, other));
            assert(lookup(convs, other) == lookup(tail, other));
        }
    } else {
        let tail = convs.subrange(1, convs.len() as int);
        lemma_add_msg_lookup(tail, name, m);
        assert(r == seq![convs[0]] + add_msg(tail, name, m));
        assert(r[0] == convs[0]);
        assert(r.subrange(1, r.len() as int) =~= add_msg(tail, name, m));
        assert forall|other: Seq<char>| other != name implies #[trigger] lookup(r, other)
            == lookup(convs, other) by {
            if convs[0].0 == other {
                assert(lookup(r, other) == Some(convs[0].1));
                assert(lookup(convs, other) == Some(convs[0].1));
            } else {
                assert(lookup(add_msg(tail, name, m), other) == lookup(tail, other));
                assert(lookup(r, other) == lookup(add_msg(tail, name, m), other));
                assert(lookup(convs, other) == lookup(tail, other));
            }
        }
    }
}

proof fn lemma_add_msg_names(convs: StoreView, name: Seq<char>, m: MsgView, i: int)
    requires
        0 <= i < add_msg(convs, name, m).len(),
    ensures
        add_msg(convs, name, m)[i].0 == name || exists|j: int|
            0 <= j < convs.len() && (#[trigger] convs[j]).0 == add_msg(convs, name, m)[i].0,
    decreases convs.len(),
{
    let r = add_msg(convs, name, m);
    if convs.len() == 0 {
        assert(r[0].0 == name);
    } else if convs[0].0 == name {
        if i == 0 {
            assert((#[trigger] convs[0]).0 == r[i].0);
        } else {
            assert(r[i] == convs.subrange(1, convs.len() as int)[i - 1]);
            assert((#[trigger] convs[i]).0 == r[i].0);
        }
    } else {
        if i == 0 {
            assert((#[trigger] convs[0]).0 == r[i].0);
        } else {
            let t = convs.subrange(1, convs.len() as int);
            assert(r[i] == add_msg(t, name, m)[i - 1]);
            lemma_add_msg_names(t, name, m, i - 1);
            if add_msg(t, name, m)[i - 1].0 != name {
                let j = choose|j: int|
                    0 <= j < t.len() && (#[trigger] t[j]).0 == add_msg(t, name, m)[i - 1].0;
                assert((#[trigger] convs[j + 1]).0 == r[i].0);
            }
        }
    }
}

/// Filing a message keeps the store's names pairwise distinct: a present
/// name is merged into, an absent one is appended once.
pub proof fn lemma_add_msg_unique(convs: StoreView, name: Seq<char>, m: MsgView)
    requires
        unique_names(convs),
    ensures
        unique_names(add_msg(convs, name, m)),
    decreases convs.len(),
{
    let r = add_msg(convs, name, m);
    if convs.len() == 0 {
    } else if convs[0].0 == name {
        let t = convs.subrange(1, convs.len() as int);
        assert forall|i: int, j: int| 0 <= i < j < r.len() implies (#[trigger] r[i]).0
            != (#[trigger] r[j]).0 by {
            if i > 0 {
                assert(r[i] == t[i - 1]);
            }
            assert(r[j] == t[j - 1]);
            assert(r[i].0 == convs[i].0);
            assert(r[j].0 == convs[j].0);
        }
    } else {
        let t = convs.subrange(1, convs.len() as int);
        assert forall|i: int, j: int| 0 <= i < j < t.len() implies (#[trigger] t[i]).0
            != (#[trigger] t[j]).0 by {
            assert(convs[i + 1].0 != convs[j + 1].0);
        }
        lemma_add_msg_unique(t, name, m);
        let rt = add_msg(t, name, m);
        assert forall|i: int, j: int| 0 <= i < j < r.len() implies (#[trigger] r[i]).0
            != (#[trigger] r[j]).0 by {
            if i == 0 {
                assert(r[j] == rt[j - 1]);
                lemma_add_msg_names(t, name, m, j - 1);
                if rt[j - 1].0 != name {
                    let w = choose|w: int|
                        0 <= w < t.len() && (#[trigger] t[w]).0 == rt[j - 1].0;
                    assert(convs[0].0 != convs[w + 1].0);
                }
            } else {
                assert(r[i] == rt[i - 1]);
                assert(r[j] == rt[j - 1]);
            }
        }
    }
}

proof fn lemma_lookup_at_first_match(convs: StoreView, name: Seq<char>, k: int)
    requires
        0 <= k < convs.len(),
        convs[k].0 == name,
        forall|j: int| 0 <= j < k ==> (#[trigger] convs[j]).0 != name,
    ensures
        lookup(convs, name) == Some(convs[k].1),
    decreases k,
{
    if k == 0 {
    } else {
        let tail = convs.subrange(1, convs.len() as int);
        lemma_lookup_at_first_match(tail, name, k - 1);
    }
}

proof fn lemma_lookup_no_match(convs: StoreView, name: Seq<char>)
    requires
        forall|j: int| 0 <= j < convs.len() ==> (#[trigger] convs[j]).0 != name,
    ensures
        lookup(convs, name) is None,
    decreases convs.len(),
{
    if convs.len() == 0 {
    } else {
        lemma_lookup_no_match(convs.subrange(1, convs.len() as int), name);
    }
}

proof fn lemma_add_msg_at_first_match(convs: StoreView, name: Seq<char>, m: MsgView, k: int)
    requires
        0 <= k < convs.len(),
        convs[k].0 == name,
        forall|j: int| 0 <= j < k ==> (#[trigger] convs[j]).0 != name,
    ensures
        add_msg(convs, name, m) =~= convs.update(k, (convs[k].0, convs[k].1.push(m))),
    decreases k,
{
    if k == 0 {
        assert(add_msg(convs, name, m) =~= convs.update(0, (convs[0].0, convs[0].1.push(m))));
    } else {
        let tail = convs.subrange(1, convs.len() as int);
        lemma_add_msg_at_first_match(tail, name, m, k - 1);
        assert(add_msg(convs, name, m) =~= convs.update(k, (convs[k].0, convs[k].1.push(m))));
    }
}

proof fn lemma_add_msg_no_match(convs: StoreView, name: Seq<char>, m: MsgView)
    requires
        forall|j: int| 0 <= j < convs.len() ==> (#[trigger] convs[j]).0 != name,
    ensures
        add_msg(convs, name, m) =~= convs.push((name, seq![m])),
    decreases convs.len(),
{
    if convs.len() == 0 {
    } else {
        let tail = convs.subrange(1, convs.len() as int);
        lemma_add_msg_no_match(tail, name, m);
        assert(add_msg(convs, name, m) =~= convs.push((name, seq![m])));
    }
}

fn names_unique(cs: &Vec<(String, Vec<StoredMessage>)>) -> (r: bool)
    ensures
        r == unique_names(convs_view(cs@)),
{
    let v = Ghost(convs_view(cs@));
    let mut i: usize = 0;
    while i < cs.len()
        invariant
            i <= cs@.len(),
            v@ == convs_view(cs@),
            forall|a: int, b: int| 0 <= a < b < i ==> (#[trigger] v@[a]).0 != (#[trigger] v@[b]).0,
        decreases cs@.len() - i,
    {
        let mut j: usize = 0;
        while j < i
            invariant
                j <= i,
                i < cs@.len(),
                v@ == convs_view(cs@),
                forall|a: int| 0 <= a < j ==> (#[trigger] v@[a]).0 != v@[i as int].0,
            decreases i - j,
        {
            if cs[j].0 == cs[i].0 {
                proof {
                    assert(v@[j as int].0 == v@[i as int].0);
                }
                return false;
            }
            j += 1;
        }
        i += 1;
    }
    true
}

impl Session {
    /// Names are pairwise distinct: the invariant the keyed store keeps.
    pub open spec fn wf(self) -> bool {
        unique_names(self@)
    }

    /// A store with no conversations.
    pub fn new() -> (r: Session)
        ensures
            r@.len() == 0,
            r.wf(),
    {
        Session { conversations: Vec::new() }
    }

    fn find_conv(&self, name: &String) -> (r: Option<usize>)
        ensures
            match r {
                Some(k) => {
                    &&& k < self@.len()
                    &&& self@[k as int].0 == name@
                    &&& forall|j: int| 0 <= j < k ==> (#[trigger] self@[j]).0 != name@
                },
                None => forall|j: int| 0 <= j < self@.len() ==> (#[trigger] self@[j]).0 != name@,
            },
    {
        let mut k: usize = 0;
        while k < self.conversations.len()
            invariant
                k <= self@.len(),
                forall|j: int| 0 <= j < k ==> (#[trigger] self@[j]).0 != name@,
            decreases self@.len() - k,
        {
            if self.conversations[k].0 == *name {
                return Some(k);
            }
            k += 1;
        }
        None
    }

    /// Files a sealed message under the given recipient, creating the
    /// conversation if it is absent and appending to it otherwise.
    pub fn add_message(
        &mut self,
        recipient: &str,
        ciphertext: Vec<u8>,
        ephemeral_pk: Vec<u8>,
        nonce: Vec<u8>,
        log: String,
    )
        ensures
            final(self)@ == add_msg(
                old(self)@,
                recipient@,
                MsgView { ciphertext: ciphertext@, ephemeral_pk: ephemeral_pk@, nonce: nonce@, log: log@ },
            ),
            old(self).wf() ==> final(self).wf(),
    {
        proof {
            if old(self).wf() {
                lemma_add_msg_unique(
                    old(self)@,
                    recipient@,
                    MsgView {
                        ciphertext: ciphertext@,
                        ephemeral_pk: ephemeral_pk@,
                        nonce: nonce@,
                        log: log@,
                    },
                );
            }
        }
        let ghost m = MsgView {
            ciphertext: ciphertext@,
            ephemeral_pk: ephemeral_pk@,
            nonce: nonce@,
            log: log@,
        };
        let msg = StoredMessage { ciphertext, ephemeral_pk, nonce, log };
        let rec = String::from_str(recipient);
        match self.find_conv(&rec) {
            Some(k) => {
                proof {
                    lemma_add_msg_at_first_match(old(self)@, recipient@, m, k as int);
                }
                let mut entry = self.conversations.remove(k);
                entry.1.push(msg);
                self.conversations.insert(k, entry);
                proof {
                    assert(msgs_view(entry.1@) =~= old(self)@[k as int].1.push(m));
                    assert(self@ =~= old(self)@.update(
                        k as int,
                        (old(self)@[k as int].0, old(self)@[k as int].1.push(m)),
                    ));
                }
            },
            None => {
                proof {
                    lemma_add_msg_no_match(old(self)@, recipient@, m);
                }
                let mut msgs: Vec<StoredMessage> = Vec::new();
                msgs.push(msg);
                self.conversations.push((rec, msgs));
                proof {
                    assert(msgs_view(msgs@) =~= seq![m]);
                    assert(self@ =~= old(self)@.push((recipient@, seq![m])));
                }
            },
        }
    }

    /// Serializes the whole store to its exact byte encoding.
    pub fn to_bytes(&self) -> (r: Vec<u8>)
        ensures
            r@ == enc_store(self@),
    {
        let mut out = u64_to_le_bytes(self.conversations.len() as u64);
        let ghost head = out@;
        let mut i: usize = 0;
        while i < self.conversations.len()
            invariant
                i <= self.conversations@.len(),
                head == spec_u64_to_le_bytes(self@.len() as u64),
                self@.len() == self.conversations@.len(),
                out@ == head + enc_convs(self@.subrange(0, i as int)),
            decreases self.conversations@.len() - i,
        {
            let ghost conv_start = out@;
            append_text(&mut out, self.conversations[i].0.as_str());
            let mut countb = u64_to_le_bytes(self.conversations[i].1.len() as u64);
            out.append(&mut countb);
            let ghost msgs_head = out@;
            let msgs = &self.conversations[i].1;
            let mut j: usize = 0;
            while j < msgs.len()
                invariant
                    j <= msgs@.len(),
                    out@ == msgs_head + enc_msgs(msgs_view(msgs@).subrange(0, j as int)),
                decreases msgs@.len() - j,
            {
                let ghost before = out@;
                append_chunk(&mut out, msgs[j].ciphertext.as_slice());
                append_chunk(&mut out, msgs[j].ephemeral_pk.as_slice());
                append_chunk(&mut out, msgs[j].nonce.as_slice());
                append_text(&mut out, msgs[j].log.as_str());
                proof {
                    let mv = msgs_view(msgs@);
                    assert(out@ =~= before + enc_msg(mv[j as int]));
                    assert(mv.subrange(0, j as int + 1) =~= mv.subrange(0, j as int) + seq![
                        mv[j as int],
                    ]);
                    lemma_enc_msgs_app(mv.subrange(0, j as int), seq![mv[j as int]]);
                    lemma_enc_msgs_single(mv[j as int]);
                    assert(out@ =~= msgs_head + enc_msgs(mv.subrange(0, j as int + 1)));
                }
                j += 1;
            }
            proof {
                let mv = msgs_view(msgs@);
                assert(mv.subrange(0, mv.len() as int) =~= mv);
                assert(self@[i as int] == (self.conversations@[i as int].0@, mv));
                assert(out@ =~= conv_start + enc_conv(self@[i as int]));
                assert(self@.subrange(0, i as int + 1) =~= self@.subrange(0, i as int) + seq![
                    self@[i as int],
                ]);
                lemma_enc_convs_app(self@.subrange(0, i as int), seq![self@[i as int]]);
                lemma_enc_convs_single(self@[i as int]);
                assert(out@ =~= head + enc_convs(self@.subrange(0, i as int + 1)));
            }
            i += 1;
        }
        proof {
            assert(self@.subrange(0, self@.len() as int) =~= self@);
        }
        out
    }

    /// Parses a store from its byte encoding; nothing when the bytes are
    /// not exactly the encoding of some store with distinct names.
    pub fn try_from_bytes(bytes: &[u8]) -> (r: Option<Session>)
        ensures
            match r {
                Some(s) => parse_store(bytes@) == Some(s@) && s.wf(),
                None => parse_store(bytes@) is None,
            },
    {
        match read_u64(bytes, 0) {
            Some((n, j)) => match read_convs(bytes, j, n) {
                Some((cs, end)) => {
                    if end == bytes.len() && names_unique(&cs) {
                        Some(Session { conversations: cs })
                    } else {
                        None
                    }
                },
                None => None,
            },
            None => None,
        }
    }

    /// Reconstructs a store from bytes read back from durable storage: the
    /// parsed store when the bytes are an exact encoding, and the empty
    /// store on any parse failure.
    pub fn from_bytes(bytes: &[u8]) -> (r: Session)
        ensures
            match parse_store(bytes@) {
                Some(v) => r@ == v,
                None => r@.len() == 0,
            },
            r.wf(),
    {
        match Session::try_from_bytes(bytes) {
            Some(s) => s,
            None => Session::new(),
        }
    }

    /// Serializes this store and reads the bytes back: the result holds
    /// exactly the same conversations. Persisting and reloading loses
    /// nothing.
    pub fn persist_round_trip(&self) -> (r: Session)
        requires
            self.wf(),
        ensures
            r@ == self@,
    {
        let bytes = self.to_bytes();
        let byte_count = bytes.len();
        proof {
            assert(enc_store(self@).len() == byte_count);
            lemma_store_fits_of_enc_len(self@);
            lemma_store_round_trip(self@);
        }
        Session::from_bytes(bytes.as_slice())
    }

    /// The messages recorded with the given recipient, in append order, or
    /// nothing when no conversation with that recipient exists.
    pub fn get_messages(&self, recipient: &str) -> (r: Option<&Vec<StoredMessage>>)
        ensures
            match r {
                Some(v) => lookup(self@, recipient@) == Some(msgs_view(v@)),
                None => lookup(self@, recipient@) is None,
            },
    {
        let rec = String::from_str(recipient);
        match self.find_conv(&rec) {
            Some(k) => {
                proof {
                    lemma_lookup_at_first_match(self@, recipient@, k as int);
                }
                Some(&self.conversations[k].1)
            },
            None => {
                proof {
                    lemma_lookup_no_match(self@, recipient@);
                }
                None
            },
        }
    }
}

impl Default for Session {
    /// An empty store.
    fn default() -> (r: Session)
        ensures
            r@.len() == 0,
            r.wf(),
    {
        Session::new()
    }
}

} // verus!

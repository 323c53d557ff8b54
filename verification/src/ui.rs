//! The decision core of the interface loop: the events the interface
//! produces, the state they act on, and the transition that performs the
//! sealing and filing a send asks for. Rendering and the event loop stay
//! outside the library; they hand events in and persist the store when the
//! transition says so.

use vstd::prelude::*;
use vstd::string::*;
use vstd::utf8::encode_utf8;
use crate::contacts::{find_user, Contacts};
use crate::crypto::{dh_of, opened, sig_valid, BOX_MAC_LEN, BOX_SHARED_LEN};
use crate::sessions::{add_msg, MsgView, Session};
use crate::user::{send_log_spec, User};

verus! {

/// An event of the interface loop.
#[derive(Debug, Clone)]
pub enum Message {
    InputChanged(String),
    Send,
    SelectContact(String),
}

/// Whether a character counts as blank when input is trimmed: the Unicode
/// White_Space set, the one `str::trim` removes.
pub open spec fn is_space(c: char) -> bool {
    ||| c == ' '
    ||| ('\u{0009}' <= c && c <= '\u{000D}')
    ||| c == '\u{0085}'
    ||| c == '\u{00A0}'
    ||| c == '\u{1680}'
    ||| ('\u{2000}' <= c && c <= '\u{200A}')
    ||| c == '\u{2028}'
    ||| c == '\u{2029}'
    ||| c == '\u{202F}'
    ||| c == '\u{205F}'
    ||| c == '\u{3000}'
}

/// The characters left after dropping leading blanks.
pub open spec fn trim_front(s: Seq<char>) -> Seq<char>
    decreases s.len(),
{
    if s.len() > 0 && is_space(s[0]) {
        trim_front(s.subrange(1, s.len() as int))
    } else {
        s
    }
}

/// The characters left after dropping trailing blanks.
pub open spec fn trim_back(s: Seq<char>) -> Seq<char>
    decreases s.len(),
{
    if s.len() > 0 && is_space(s[s.len() - 1]) {
        trim_back(s.subrange(0, s.len() - 1))
    } else {
        s
    }
}

/// The characters left after dropping blanks at both ends.
pub open spec fn trimmed(s: Seq<char>) -> Seq<char> {
    trim_back(trim_front(s))
}

proof fn lemma_trim_front_range(s: Seq<char>, k: int)
    requires
        0 <= k <= s.len(),
        forall|j: int| 0 <= j < k ==> is_space(#[trigger] s[j]),
        k == s.len() || !is_space(s[k]),
    ensures
        trim_front(s) == s.subrange(k, s.len() as int),
    decreases k,
{
    if k == 0 {
        assert(s.subrange(0, s.len() as int) =~= s);
    } else {
        let t = s.subrange(1, s.len() as int);
        lemma_trim_front_range(t, k - 1);
        assert(t.subrange(k - 1, t.len() as int) =~= s.subrange(k, s.len() as int));
    }
}

proof fn lemma_trim_back_range(s: Seq<char>, e: int)
    requires
        0 <= e <= s.len(),
        forall|j: int| e <= j < s.len() ==> is_space(#[trigger] s[j]),
        e == 0 || !is_space(s[e - 1]),
    ensures
        trim_back(s) == s.subrange(0, e),
    decreases s.len(),
{
    if s.len() > 0 && is_space(s[s.len() - 1]) {
        let t = s.subrange(0, s.len() - 1);
        lemma_trim_back_range(t, e);
        assert(t.subrange(0, e) =~= s.subrange(0, e));
    } else {
        assert(e == s.len() as int);
        assert(s.subrange(0, s.len() as int) =~= s);
    }
}

fn is_space_char(c: char) -> (r: bool)
    ensures
        r == is_space(c),
{
    c == ' ' || ('\u{0009}' <= c && c <= '\u{000D}') || c == '\u{0085}' || c == '\u{00A0}'
        || c == '\u{1680}' || ('\u{2000}' <= c && c <= '\u{200A}') || c == '\u{2028}'
        || c == '\u{2029}' || c == '\u{202F}' || c == '\u{205F}' || c == '\u{3000}'
}

fn trim_spaces(s: &str) -> (r: String)
    ensures
        r@ == trimmed(s@),
{
    let n = s.unicode_len();
    let mut start: usize = 0;
    while start < n && is_space_char(s.get_char(start))
        invariant
            0 <= start <= n,
            n == s@.len(),
            forall|j: int| 0 <= j < start ==> is_space(#[trigger] s@[j]),
        decreases n - start,
    {
        start += 1;
    }
    let mut end: usize = n;
    while end > start && is_space_char(s.get_char(end - 1))
        invariant
            start <= end <= n,
            n == s@.len(),
            forall|j: int| end <= j < n ==> is_space(#[trigger] s@[j]),
        decreases end,
    {
        end -= 1;
    }
    proof {
        lemma_trim_front_range(s@, start as int);
        lemma_trim_back_range(s@.subrange(start as int, n as int), end - start);
        assert(s@.subrange(start as int, n as int).subrange(0, end - start) =~= s@.subrange(
            start as int,
            end as int,
        ));
    }
    let piece = s.substring_char(start, end);
    String::from_str(piece)
}

/// The interface state: the text being typed, the selected conversation,
/// the address book, the local identity and the conversation store.
pub struct UI {
    pub input_value: String,
    pub contacts: Contacts,
    pub selected_contact: Option<String>,
    pub current_user: User,
    pub session: Session,
}

impl UI {
    /// Every contact has well-formed agreement keys, so a send can seal to
    /// any of them — also to one whose pre-key signature does not verify:
    /// that failure is only logged.
    pub open spec fn wf(self) -> bool {
        forall|j: int|
            0 <= j < self.contacts.users@.len() ==> (#[trigger] self.contacts.users@[j]).agreement_wf()
    }

    /// The initial state: nothing typed, nothing selected, the given
    /// address book, identity and previously loaded store.
    pub fn with_contacts(contacts: Contacts, current_user: User, session: Session) -> (r: UI)
        ensures
            r.input_value@.len() == 0,
            r.selected_contact is None,
            r.contacts == contacts,
            r.current_user == current_user,
            r.session == session,
    {
        UI {
            input_value: String::new(),
            contacts,
            selected_contact: None,
            current_user,
            session,
        }
    }
}

/// Applies one event to the interface state and says whether the store
/// must be persisted afterwards. Typing replaces the input text; selecting
/// replaces the selection; a send, when a contact is selected, the trimmed
/// input is non-empty and the contact is known, seals the trimmed text to
/// that contact, files the envelope under the contact's name, clears the
/// input, and asks for persistence. Any other send changes nothing.
pub fn update(ui: &mut UI, message: Message) -> (persist: bool)
    requires
        old(ui).wf(),
    ensures
        final(ui).contacts == old(ui).contacts,
        final(ui).current_user == old(ui).current_user,
        match message {
            Message::InputChanged(v) => {
                &&& final(ui).input_value == v
                &&& final(ui).selected_contact == old(ui).selected_contact
                &&& final(ui).session == old(ui).session
                &&& !persist
            },
            Message::SelectContact(n) => {
                &&& final(ui).selected_contact == Some(n)
                &&& final(ui).input_value == old(ui).input_value
                &&& final(ui).session == old(ui).session
                &&& !persist
            },
            Message::Send => match old(ui).selected_contact {
                Some(name) => {
                    let t = trimmed(old(ui).input_value@);
                    let found = find_user(old(ui).contacts.users@, name@);
                    if t.len() == 0 || found is None || encode_utf8(t).len() + BOX_MAC_LEN
                        > usize::MAX {
                        *final(ui) == *old(ui) && !persist
                    } else {
                        let recipient = found->Some_0;
                        &&& persist
                        &&& final(ui).selected_contact == old(ui).selected_contact
                        &&& final(ui).input_value@.len() == 0
                        &&& exists|m: MsgView|
                            {
                                &&& final(ui).session@ == #[trigger] add_msg(
                                    old(ui).session@,
                                    name@,
                                    m,
                                )
                                &&& opened(
                                    m.ciphertext,
                                    m.nonce,
                                    dh_of(m.ephemeral_pk, recipient.signed_pre_sk@),
                                ) == Some(encode_utf8(t))
                                &&& m.log == send_log_spec(
                                    old(ui).current_user.username@,
                                    recipient.username@,
                                    sig_valid(
                                        recipient.signed_pre_sig@,
                                        recipient.signed_pre_pk@,
                                        recipient.identity_pk@,
                                    ),
                                    m.ephemeral_pk,
                                    BOX_SHARED_LEN as nat,
                                    m.nonce,
                                    m.ciphertext,
                                )
                            }
                    }
                },
                None => *final(ui) == *old(ui) && !persist,
            },
        },
{
    match message {
        Message::InputChanged(value) => {
            ui.input_value = value;
            false
        },
        Message::SelectContact(name) => {
            ui.selected_contact = Some(name);
            false
        },
        Message::Send => {
            let name = match &ui.selected_contact {
                Some(n) => String::from_str(n.as_str()),
                None => {
                    return false;
                },
            };
            let text = trim_spaces(ui.input_value.as_str());
            if text.as_str().is_empty() {
                return false;
            }
            let text_bytes = text.as_str().as_bytes();
            if text_bytes.len() > usize::MAX - BOX_MAC_LEN {
                return false;
            }
            let sealed = match ui.contacts.find(name.as_str()) {
                Some(recipient) => {
                    proof {
                        crate::contacts::lemma_find_user_found(ui.contacts.users@, name@);
                    }
                    Some(ui.current_user.encrypt_message_with_logs(recipient, text.as_str()))
                },
                None => None,
            };
            match sealed {
                Some((epk, nonce, ct, send_log)) => {
                    let ghost m = MsgView {
                        ciphertext: ct@,
                        ephemeral_pk: epk@,
                        nonce: nonce@,
                        log: send_log@,
                    };
                    ui.session.add_message(name.as_str(), ct, epk, nonce, send_log);
                    ui.input_value = String::new();
                    proof {
                        assert(ui.session@ == add_msg(old(ui).session@, name@, m));
                    }
                    true
                },
                None => false,
            }
        },
    }
}

} // verus!

use blackipher::contacts::Contacts;
use blackipher::sessions::Session;
use blackipher::ui::{update, Message, UI};
use blackipher::user::User;

fn fresh_ui() -> UI {
    let _ = sodiumoxide::init();
    let me = User::new("katpercent", 4);
    let alice = User::new("alice", 4);
    let bob = User::new("bob", 4);
    let mut contacts = Contacts::new();
    contacts.add(alice);
    contacts.add(bob);
    UI::with_contacts(contacts, me, Session::new())
}

#[test]
fn typing_and_selecting_update_state() {
    let mut ui = fresh_ui();
    assert!(ui.selected_contact.is_none());
    assert!(!update(&mut ui, Message::InputChanged("draft".to_string())));
    assert_eq!(ui.input_value, "draft");
    assert!(!update(&mut ui, Message::SelectContact("bob".to_string())));
    assert_eq!(ui.selected_contact.as_deref(), Some("bob"));
    assert_eq!(ui.input_value, "draft");
}

#[test]
fn send_seals_trimmed_text_and_clears_input() {
    let mut ui = fresh_ui();
    update(&mut ui, Message::SelectContact("alice".to_string()));
    update(&mut ui, Message::InputChanged("  hello alice \n".to_string()));
    assert!(update(&mut ui, Message::Send), "a valid send must ask for persistence");
    assert_eq!(ui.input_value, "");
    let messages = ui.session.get_messages("alice").expect("conversation created");
    assert_eq!(messages.len(), 1);
    let stored = &messages[0];
    let alice = ui.contacts.find("alice").expect("alice is a contact");
    let (pt, _) = alice
        .decrypt_message_with_logs(
            &stored.ephemeral_pk,
            &stored.nonce,
            &stored.ciphertext,
            "katpercent",
        )
        .expect("the stored envelope must decrypt");
    assert_eq!(pt, "hello alice");
}

#[test]
fn unicode_white_space_is_trimmed_like_str_trim() {
    let mut ui = fresh_ui();
    update(&mut ui, Message::SelectContact("bob".to_string()));
    let padded = "\u{00A0}\u{000B}\u{2003}hello bob\u{2028}\u{00A0} ";
    assert_eq!(padded.trim(), "hello bob");
    update(&mut ui, Message::InputChanged(padded.to_string()));
    assert!(update(&mut ui, Message::Send));
    let stored = &ui.session.get_messages("bob").expect("conversation created")[0];
    let bob = ui.contacts.find("bob").expect("bob is a contact");
    let (pt, _) = bob
        .decrypt_message_with_logs(
            &stored.ephemeral_pk,
            &stored.nonce,
            &stored.ciphertext,
            "katpercent",
        )
        .expect("the stored envelope must decrypt");
    assert_eq!(pt, "hello bob");

    update(&mut ui, Message::InputChanged("\u{00A0}\u{2003}\u{000C}".to_string()));
    assert!(
        !update(&mut ui, Message::Send),
        "input that is all white space must not be sent"
    );
}

#[test]
fn send_without_selection_or_text_does_nothing() {
    let mut ui = fresh_ui();
    update(&mut ui, Message::InputChanged("hello".to_string()));
    assert!(!update(&mut ui, Message::Send), "no selection: nothing to persist");
    assert_eq!(ui.input_value, "hello");
    assert!(ui.session.get_messages("alice").is_none());

    update(&mut ui, Message::SelectContact("alice".to_string()));
    update(&mut ui, Message::InputChanged("   \n\t ".to_string()));
    assert!(!update(&mut ui, Message::Send), "blank input: nothing to persist");
    assert!(ui.session.get_messages("alice").is_none());
}

#[test]
fn send_to_unknown_contact_does_nothing() {
    let mut ui = fresh_ui();
    update(&mut ui, Message::SelectContact("carol".to_string()));
    update(&mut ui, Message::InputChanged("hello carol".to_string()));
    assert!(!update(&mut ui, Message::Send));
    assert_eq!(ui.input_value, "hello carol");
    assert!(ui.session.get_messages("carol").is_none());
}

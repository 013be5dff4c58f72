use support_bridge::commands::Command;
use support_bridge::handlers::{
    handle_callback_query, handle_commands, handle_messages, Action, CallbackEvent, Markup,
    MessageEvent, MessageRef,
};
use support_bridge::state::{Language, StateContainer, TicketType};
use support_bridge::util::UserIdentity;

const GROUP: i64 = 9999;

fn user(name: &str) -> UserIdentity {
    UserIdentity { username: Some(String::from(name)), first_name: String::from("First") }
}

fn private_msg(chat_id: i64, message_id: i32) -> MessageEvent {
    MessageEvent {
        chat_id,
        message_id,
        is_private: true,
        text: None,
        reply_to: None,
        is_topic_created: false,
        from_is_bot: false,
        from: Some(user("alice")),
    }
}

fn group_msg(message_id: i32) -> MessageEvent {
    MessageEvent {
        chat_id: GROUP,
        message_id,
        is_private: false,
        text: None,
        reply_to: None,
        is_topic_created: false,
        from_is_bot: false,
        from: Some(user("staff")),
    }
}

fn callback(data: &str, chat_id: i64, message_id: i32) -> CallbackEvent {
    CallbackEvent {
        query_id: String::from("q1"),
        data: Some(String::from(data)),
        message: Some(MessageRef { chat_id, message_id }),
        from: user("alice"),
    }
}

fn send(target: i64, text: &str) -> Action {
    Action::SendMessage {
        target,
        text: String::from(text),
        reply_to: None,
        markup: None,
        markdown: false,
    }
}

fn send_reply(target: i64, text: &str, reply_to: i32) -> Action {
    Action::SendMessage {
        target,
        text: String::from(text),
        reply_to: Some(reply_to),
        markup: None,
        markdown: false,
    }
}

#[test]
fn getid_answers_with_the_chat_id() {
    let mut st = StateContainer::new();
    let acts = handle_commands(&mut st, Command::GetId, &private_msg(-42, 1), GROUP);
    assert_eq!(acts, vec![send(-42, "-42")]);
}

#[test]
fn support_rejected_outside_private_chat() {
    let mut st = StateContainer::new();
    let acts = handle_commands(&mut st, Command::Support, &group_msg(1), GROUP);
    assert_eq!(acts, vec![send(GROUP, "This command can only be used in private chat")]);
    assert!(st.pending_chat.is_none());
}

#[test]
fn support_rejected_when_binding_already_open() {
    let mut st = StateContainer::new();
    st.put(5, 100);
    let acts = handle_commands(&mut st, Command::Support, &private_msg(5, 1), GROUP);
    assert_eq!(
        acts,
        vec![send(
            5,
            "You already have an open support ticket. Close it with /close or write a new message.",
        )]
    );
}

// The full negotiation: language prompt, category prompt, thread creation,
// then commitment of the binding on the creation announcement.
#[test]
fn full_negotiation_creates_thread_and_binding() {
    let mut st = StateContainer::new();

    let acts = handle_commands(&mut st, Command::Support, &private_msg(5, 1), GROUP);
    assert_eq!(acts.len(), 1);
    match &acts[0] {
        Action::SendMessage { target, text, reply_to, markup, markdown } => {
            assert_eq!(*target, 5);
            assert_eq!(text, "Please select your preferred language for support:");
            assert_eq!(*reply_to, None);
            assert_eq!(*markup, Some(Markup::LanguageChoices));
            assert!(!markdown);
        },
        other => panic!("unexpected action {:?}", other),
    }
    assert!(st.pending_chat.is_none());

    let acts = handle_callback_query(&mut st, &callback("lang_en", 5, 2), GROUP);
    assert_eq!(acts.len(), 3);
    assert_eq!(acts[0], Action::DeleteMessage { target: 5, message_id: 2 });
    match &acts[1] {
        Action::SendMessage { target, text, markup, .. } => {
            assert_eq!(*target, 5);
            assert_eq!(text, "What kind of support do you need?");
            assert_eq!(*markup, Some(Markup::CategoryChoices(Language::English)));
        },
        other => panic!("unexpected action {:?}", other),
    }
    assert_eq!(acts[2], Action::AnswerInteractive { event_id: String::from("q1") });
    let p = st.pending_chat.expect("language selection must claim the slot");
    assert_eq!(p.chat_id, 5);
    assert!(p.language == Language::English);
    assert!(p.ticket_type.is_none());

    let acts = handle_callback_query(&mut st, &callback("ticket_bug", 5, 3), GROUP);
    assert_eq!(acts.len(), 3);
    assert_eq!(acts[0], Action::DeleteMessage { target: 5, message_id: 3 });
    match &acts[1] {
        Action::CreateThread { space, title, initial_text, .. } => {
            assert_eq!(*space, GROUP);
            assert_eq!(title, "🇬🇧 Bug - alice");
            assert!(title.contains("🇬🇧"));
            assert!(title.contains("Bug"));
            assert!(title.contains("alice"));
            assert_eq!(initial_text, "New support ticket");
        },
        other => panic!("unexpected action {:?}", other),
    }
    let p = st.pending_chat.expect("category selection keeps the slot");
    assert_eq!(p.ticket_type, Some(TicketType::Bug));

    let creation = MessageEvent {
        chat_id: GROUP,
        message_id: 777,
        is_private: false,
        text: None,
        reply_to: None,
        is_topic_created: true,
        from_is_bot: true,
        from: None,
    };
    let acts = handle_messages(&mut st, &creation, GROUP);
    assert_eq!(acts.len(), 1);
    match &acts[0] {
        Action::SendMessage { target, text, markdown, .. } => {
            assert_eq!(*target, 5);
            assert_eq!(
                text,
                "Support ticket created for *_Bug_*\\! You can now chat with RustBusters through this bot\\.\nTo close the chat, use /close\\."
            );
            assert!(markdown);
        },
        other => panic!("unexpected action {:?}", other),
    }
    assert!(st.pending_chat.is_none());
    assert_eq!(st.get_thread(5), Some(777));
    assert_eq!(st.get_conversation(777), Some(5));
}

// A second request while a negotiation is in flight is refused and the slot
// keeps its occupant.
#[test]
fn second_request_rejected_while_negotiation_pending() {
    let mut st = StateContainer::new();
    handle_commands(&mut st, Command::Support, &private_msg(5, 1), GROUP);
    handle_callback_query(&mut st, &callback("lang_it", 5, 2), GROUP);
    let before = st.pending_chat;

    let acts = handle_commands(&mut st, Command::Support, &private_msg(6, 3), GROUP);
    assert_eq!(
        acts,
        vec![send(
            6,
            "Another support request is being processed. Please wait a moment and try again.",
        )]
    );
    assert_eq!(st.pending_chat, before);
}

// Staff replies inside a bound thread reach the user; replies to unrelated
// messages are dropped.
#[test]
fn staff_reply_is_relayed_and_unbound_reply_is_dropped() {
    let mut st = StateContainer::new();
    st.put(5, 100);

    let mut reply = group_msg(42);
    reply.reply_to = Some(100);
    reply.text = Some(String::from("hello"));
    let acts = handle_messages(&mut st, &reply, GROUP);
    assert_eq!(acts, vec![send(5, "hello")]);

    let mut unrelated = group_msg(43);
    unrelated.reply_to = Some(555);
    unrelated.text = Some(String::from("hello"));
    let acts = handle_messages(&mut st, &unrelated, GROUP);
    assert!(acts.is_empty());
}

#[test]
fn private_text_is_relayed_into_the_thread() {
    let mut st = StateContainer::new();
    st.put(5, 100);
    let mut msg = private_msg(5, 50);
    msg.text = Some(String::from("my printer is on fire"));
    let acts = handle_messages(&mut st, &msg, GROUP);
    assert_eq!(acts, vec![send_reply(GROUP, "my printer is on fire", 100)]);

    let mut unbound = private_msg(6, 51);
    unbound.text = Some(String::from("hello?"));
    let acts = handle_messages(&mut st, &unbound, GROUP);
    assert!(acts.is_empty());
}

// Closing from the user notifies the thread as a reply to its creating
// message, notifies the user, removes the binding, and later messages are
// no longer relayed.
#[test]
fn close_from_user_tears_the_binding_down() {
    let mut st = StateContainer::new();
    st.put(5, 100);
    let acts = handle_commands(&mut st, Command::Close, &private_msg(5, 60), GROUP);
    assert_eq!(
        acts,
        vec![
            send_reply(GROUP, "Chat ended by the user alice", 100),
            send(5, "The support topic has been closed."),
        ]
    );
    assert_eq!(st.get_thread(5), None);

    let mut after = private_msg(5, 61);
    after.text = Some(String::from("are you still there?"));
    let acts = handle_messages(&mut st, &after, GROUP);
    assert!(acts.is_empty());
}

#[test]
fn close_from_staff_tears_the_binding_down() {
    let mut st = StateContainer::new();
    st.put(5, 100);
    let mut close = group_msg(70);
    close.reply_to = Some(100);
    let acts = handle_commands(&mut st, Command::Close, &close, GROUP);
    assert_eq!(
        acts,
        vec![
            send_reply(GROUP, "Chat ended", 100),
            send(5, "RustBusters closed the support chat. Write /support to open a new one."),
        ]
    );
    assert_eq!(st.get_thread(5), None);
}

// Closing with nothing to close is a silent no-op, not an error.
#[test]
fn close_without_binding_is_a_no_op() {
    let mut st = StateContainer::new();
    let acts = handle_commands(&mut st, Command::Close, &private_msg(5, 80), GROUP);
    assert!(acts.is_empty());
    assert!(st.snapshot().is_empty());

    let mut in_group = group_msg(81);
    in_group.reply_to = Some(12345);
    let acts = handle_commands(&mut st, Command::Close, &in_group, GROUP);
    assert!(acts.is_empty());
}

#[test]
fn callback_without_payload_is_only_acknowledged() {
    let mut st = StateContainer::new();
    let mut q = callback("lang_en", 5, 2);
    q.data = None;
    let acts = handle_callback_query(&mut st, &q, GROUP);
    assert_eq!(acts, vec![Action::AnswerInteractive { event_id: String::from("q1") }]);
    assert!(st.pending_chat.is_none());
}

#[test]
fn callback_with_unknown_payload_is_only_acknowledged() {
    let mut st = StateContainer::new();
    let acts = handle_callback_query(&mut st, &callback("something_else", 5, 2), GROUP);
    assert_eq!(acts, vec![Action::AnswerInteractive { event_id: String::from("q1") }]);
    assert!(st.pending_chat.is_none());
}

#[test]
fn category_selection_without_pending_negotiation_is_a_no_op() {
    let mut st = StateContainer::new();
    let acts = handle_callback_query(&mut st, &callback("ticket_other", 5, 2), GROUP);
    assert_eq!(acts, vec![Action::AnswerInteractive { event_id: String::from("q1") }]);
    assert!(st.pending_chat.is_none());
}

#[test]
fn topic_creation_without_complete_negotiation_changes_nothing() {
    let mut st = StateContainer::new();
    handle_callback_query(&mut st, &callback("lang_en", 5, 2), GROUP);
    let creation = MessageEvent {
        chat_id: GROUP,
        message_id: 777,
        is_private: false,
        text: None,
        reply_to: None,
        is_topic_created: true,
        from_is_bot: true,
        from: None,
    };
    let acts = handle_messages(&mut st, &creation, GROUP);
    assert!(acts.is_empty());
    assert_eq!(st.get_thread(5), None);
    assert!(st.pending_chat.is_some());

    let mut not_bot = creation;
    not_bot.from_is_bot = false;
    handle_callback_query(&mut st, &callback("ticket_bug", 5, 3), GROUP);
    let acts = handle_messages(&mut st, &not_bot, GROUP);
    assert!(acts.is_empty());
    assert_eq!(st.get_thread(5), None);
}

// Staff-side fallback cleanup: a stale binding whose thread handle equals
// the close event's own identifier is removed even without a resolvable
// reply.
#[test]
fn close_from_staff_removes_stale_binding_with_own_id() {
    let mut st = StateContainer::new();
    st.put(5, 90);
    let mut close = group_msg(90);
    close.reply_to = None;
    let acts = handle_commands(&mut st, Command::Close, &close, GROUP);
    assert!(acts.is_empty());
    assert_eq!(st.get_thread(5), None);
}

#[test]
fn italian_negotiation_uses_italian_texts() {
    let mut st = StateContainer::new();
    handle_commands(&mut st, Command::Support, &private_msg(5, 1), GROUP);
    let acts = handle_callback_query(&mut st, &callback("lang_it", 5, 2), GROUP);
    match &acts[1] {
        Action::SendMessage { text, markup, .. } => {
            assert_eq!(text, "Che tipo di supporto ti serve?");
            assert_eq!(*markup, Some(Markup::CategoryChoices(Language::Italian)));
        },
        other => panic!("unexpected action {:?}", other),
    }
    let acts = handle_callback_query(&mut st, &callback("ticket_how_to", 5, 3), GROUP);
    match &acts[1] {
        Action::CreateThread { title, .. } => {
            assert_eq!(title, "🇮🇹 How to ... - alice");
        },
        other => panic!("unexpected action {:?}", other),
    }
    let creation = MessageEvent {
        chat_id: GROUP,
        message_id: 321,
        is_private: false,
        text: None,
        reply_to: None,
        is_topic_created: true,
        from_is_bot: true,
        from: None,
    };
    let acts = handle_messages(&mut st, &creation, GROUP);
    match &acts[0] {
        Action::SendMessage { target, text, markdown, .. } => {
            assert_eq!(*target, 5);
            assert_eq!(
                text,
                "Ticket di supporto creato per *_How to \\.\\.\\._*\\! Puoi ora chattare con RustBusters attraverso questo bot\\.\nPer chiudere la chat, usa /close\\."
            );
            assert!(markdown);
        },
        other => panic!("unexpected action {:?}", other),
    }
    assert_eq!(st.get_thread(5), Some(321));
}

#[test]
fn start_command_does_nothing() {
    let mut st = StateContainer::new();
    let acts = handle_commands(&mut st, Command::Start, &private_msg(5, 1), GROUP);
    assert!(acts.is_empty());
}

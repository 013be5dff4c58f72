//! The decision logic of every inbound event. Each handler takes the shared
//! state and a plain-valued event, mutates the state under the caller's lock,
//! and returns the bounded list of outbound calls the transport must make.
//! Performing those calls — sending, deleting, creating threads, answering
//! interactive events — is the caller's job, outside the library.

use crate::commands::Command;
use crate::decimal::dec_int;
use crate::decimal::i64_to_dec;
use crate::prompts::category_prompt_spec;
use crate::prompts::create_typeofticket_keyboard;
use crate::prompts::language_prompt_spec;
use crate::prompts::parse_payload;
use crate::prompts::payload_spec;
use crate::prompts::SelectionPayload;
use crate::state::sb;
use crate::state::Language;
use crate::state::PendingTicket;
use crate::state::SavedBinding;
use crate::state::StateContainer;
use crate::state::TicketType;
use crate::util::get_random_topic_color;
use crate::util::get_user_name;
use crate::util::is_topic_color;
use crate::util::user_name_spec;
use crate::util::UserIdentity;
use vstd::prelude::*;
use vstd::string::StringExecFns;

verus! {

/// A message event, reduced to what the coordinator reads of it.
pub struct MessageEvent {
    /// The chat the message arrived in.
    pub chat_id: i64,
    /// The message's own identifier.
    pub message_id: i32,
    /// Whether the chat is a private one-to-one conversation.
    pub is_private: bool,
    /// The message text, if it has one.
    pub text: Option<String>,
    /// The identifier of the message this one replies to, if any.
    pub reply_to: Option<i32>,
    /// Whether this event announces the creation of a thread.
    pub is_topic_created: bool,
    /// Whether the sender is the bot itself.
    pub from_is_bot: bool,
    /// The sender, when known.
    pub from: Option<UserIdentity>,
}

/// A reference to the prompt message an interactive selection came from.
#[derive(Clone, Copy, PartialEq, Eq, Structural, Debug)]
pub struct MessageRef {
    pub chat_id: i64,
    pub message_id: i32,
}

/// An interactive selection event.
pub struct CallbackEvent {
    /// The identifier the transport needs to acknowledge the event.
    pub query_id: String,
    /// The payload of the pressed button, if any.
    pub data: Option<String>,
    /// The prompt message the button belonged to, when still accessible.
    pub message: Option<MessageRef>,
    /// The user who pressed the button.
    pub from: UserIdentity,
}

/// Which keyboard accompanies an outbound message.
#[derive(Clone, Copy, PartialEq, Eq, Structural, Debug)]
pub enum Markup {
    LanguageChoices,
    CategoryChoices(Language),
}

/// One outbound call for the transport to make, in list order.
#[derive(Clone, Debug, PartialEq)]
pub enum Action {
    /// Send `text` to `target`, optionally as a reply, with a keyboard, or
    /// with markdown formatting.
    SendMessage {
        target: i64,
        text: String,
        reply_to: Option<i32>,
        markup: Option<Markup>,
        markdown: bool,
    },
    /// Delete a message, used to retire an answered prompt.
    DeleteMessage { target: i64, message_id: i32 },
    /// Create a thread in the staff space.
    CreateThread { space: i64, title: String, color: u32, initial_text: String },
    /// Acknowledge an interactive selection event.
    AnswerInteractive { event_id: String },
}

pub open spec fn is_send(
    a: Action,
    target: i64,
    text: Seq<char>,
    reply_to: Option<i32>,
    markup: Option<Markup>,
    markdown: bool,
) -> bool {
    match a {
        Action::SendMessage { target: t, text: x, reply_to: r, markup: m, markdown: d } => t
            == target && x@ == text && r == reply_to && m == markup && d == markdown,
        _ => false,
    }
}

pub open spec fn is_delete(a: Action, target: i64, message_id: i32) -> bool {
    match a {
        Action::DeleteMessage { target: t, message_id: m } => t == target && m == message_id,
        _ => false,
    }
}

pub open spec fn is_create_thread(
    a: Action,
    space: i64,
    title: Seq<char>,
    initial_text: Seq<char>,
) -> bool {
    match a {
        Action::CreateThread { space: s, title: t, color: c, initial_text: x } => s == space && t@
            == title && is_topic_color(c) && x@ == initial_text,
        _ => false,
    }
}

pub open spec fn is_answer(a: Action, event_id: Seq<char>) -> bool {
    match a {
        Action::AnswerInteractive { event_id: e } => e@ == event_id,
        _ => false,
    }
}

pub open spec fn is_answer_any(a: Action) -> bool {
    a is AnswerInteractive
}

pub open spec fn not_private_text() -> Seq<char> {
    "This command can only be used in private chat"@
}

pub open spec fn already_open_text() -> Seq<char> {
    "You already have an open support ticket. Close it with /close or write a new message."@
}

pub open spec fn busy_text() -> Seq<char> {
    "Another support request is being processed. Please wait a moment and try again."@
}

pub open spec fn ended_by_user_text(name: Seq<char>) -> Seq<char> {
    "Chat ended by the user "@ + name
}

pub open spec fn topic_closed_text() -> Seq<char> {
    "The support topic has been closed."@
}

pub open spec fn chat_ended_text() -> Seq<char> {
    "Chat ended"@
}

pub open spec fn closed_by_staff_text() -> Seq<char> {
    "RustBusters closed the support chat. Write /support to open a new one."@
}

pub open spec fn new_ticket_text() -> Seq<char> {
    "New support ticket"@
}

/// The category label as it appears inside the markdown confirmation, with
/// the dots escaped.
pub open spec fn escaped_label_spec(t: TicketType) -> Seq<char> {
    match t {
        TicketType::Bug => "Bug"@,
        TicketType::HowTo => "How to \\.\\.\\."@,
        TicketType::Other => "Other"@,
    }
}

/// The completion notice sent to the user once the thread exists, in the
/// selected language and naming the selected category.
pub open spec fn confirmation_spec(lang: Language, t: TicketType) -> Seq<char> {
    match lang {
        Language::Italian => "Ticket di supporto creato per *_"@ + escaped_label_spec(t)
            + "_*\\! Puoi ora chattare con RustBusters attraverso questo bot\\.\nPer chiudere la chat, usa /close\\."@,
        Language::English => "Support ticket created for *_"@ + escaped_label_spec(t)
            + "_*\\! You can now chat with RustBusters through this bot\\.\nTo close the chat, use /close\\."@,
    }
}

/// The title a new thread is created with: flag, category label, user name.
pub open spec fn topic_title_spec(lang: Language, t: TicketType, name: Seq<char>) -> Seq<char> {
    lang.spec_flag() + " "@ + t.spec_label() + " - "@ + name
}

fn escaped_label(t: TicketType) -> (r: String)
    ensures
        r@ == escaped_label_spec(t),
{
    match t {
        TicketType::Bug => String::from_str("Bug"),
        TicketType::HowTo => String::from_str("How to \\.\\.\\."),
        TicketType::Other => String::from_str("Other"),
    }
}

fn confirmation_text(lang: Language, t: TicketType) -> (r: String)
    ensures
        r@ == confirmation_spec(lang, t),
{
    let mut r: String;
    match lang {
        Language::Italian => {
            r = String::from_str("Ticket di supporto creato per *_");
            let label = escaped_label(t);
            r.append(label.as_str());
            r.append(
                "_*\\! Puoi ora chattare con RustBusters attraverso questo bot\\.\nPer chiudere la chat, usa /close\\.",
            );
        },
        Language::English => {
            r = String::from_str("Support ticket created for *_");
            let label = escaped_label(t);
            r.append(label.as_str());
            r.append(
                "_*\\! You can now chat with RustBusters through this bot\\.\nTo close the chat, use /close\\.",
            );
        },
    }
    r
}

fn topic_title(lang: Language, t: TicketType, name: &String) -> (r: String)
    ensures
        r@ == topic_title_spec(lang, t, name@),
{
    let mut r = String::from_str(lang.to_flag());
    r.append(" ");
    let label = t.to_string();
    r.append(label.as_str());
    r.append(" - ");
    r.append(name.as_str());
    r
}

/// Handle a command from the dispatcher.
///
/// `GetId` answers with the chat's identifier and touches no state. `Support`
/// opens a negotiation only in a private chat, only when the conversation
/// holds no binding, and only when no negotiation is in flight anywhere —
/// each refusal answers with its own notice and changes nothing, so a second
/// concurrent request cannot claim the slot. `Close` tears a binding down
/// from either side and is a silent no-op when there is nothing to close;
/// closing an open binding names the sender, so such an event must carry
/// one.
pub fn handle_commands(
    state: &mut StateContainer,
    cmd: Command,
    msg: &MessageEvent,
    support_group: i64,
) -> (actions: Vec<Action>)
    requires
        old(state).wf(),
        cmd is Close && old(state).conv_bound(msg.chat_id) ==> msg.from is Some,
    ensures
        final(state).wf(),
        cmd is Start ==> final(state).same_state(*old(state)) && actions@.len() == 0,
        cmd is GetId ==> final(state).same_state(*old(state)) && actions@.len() == 1 && is_send(
            actions@[0],
            msg.chat_id,
            dec_int(msg.chat_id as int),
            None,
            None,
            false,
        ),
        cmd is Support && !msg.is_private ==> final(state).same_state(*old(state)) && actions@.len()
            == 1 && is_send(actions@[0], msg.chat_id, not_private_text(), None, None, false),
        cmd is Support && msg.is_private && old(state).conv_bound(msg.chat_id)
            ==> final(state).same_state(*old(state)) && actions@.len() == 1 && is_send(
            actions@[0],
            msg.chat_id,
            already_open_text(),
            None,
            None,
            false,
        ),
        cmd is Support && msg.is_private && !old(state).conv_bound(msg.chat_id)
            && old(state).pending_chat is Some ==> final(state).same_state(*old(state))
            && actions@.len() == 1 && is_send(
            actions@[0],
            msg.chat_id,
            busy_text(),
            None,
            None,
            false,
        ),
        cmd is Support && msg.is_private && !old(state).conv_bound(msg.chat_id)
            && old(state).pending_chat is None ==> final(state).same_state(*old(state))
            && actions@.len() == 1 && is_send(
            actions@[0],
            msg.chat_id,
            language_prompt_spec(),
            None,
            Some(Markup::LanguageChoices),
            false,
        ),
        cmd is Close ==> final(state).pending_chat == old(state).pending_chat,
        forall|t: i32|
            cmd is Close && #[trigger] old(state).bound_to(msg.chat_id, t) ==> actions@.len() == 2
                && is_send(
                actions@[0],
                support_group,
                ended_by_user_text(user_name_spec(msg.from->0)),
                Some(t),
                None,
                false,
            ) && is_send(actions@[1], msg.chat_id, topic_closed_text(), None, None, false) && (
            forall|b: SavedBinding|
                final(state).has_binding(b) <==> (old(state).has_binding(b) && b.chat_id
                    != msg.chat_id)),
        forall|rid: i32, c: i64|
            cmd is Close && !old(state).conv_bound(msg.chat_id) && msg.chat_id == support_group
                && msg.reply_to == Some(rid) && #[trigger] old(state).bound_to(c, rid)
                ==> actions@.len() == 2 && is_send(
                actions@[0],
                support_group,
                chat_ended_text(),
                Some(rid),
                None,
                false,
            ) && is_send(actions@[1], c, closed_by_staff_text(), None, None, false) && (
            forall|b: SavedBinding|
                final(state).has_binding(b) <==> (old(state).has_binding(b) && b.topic_msg_id != rid
                    && b.topic_msg_id != msg.message_id)),
        cmd is Close && !old(state).conv_bound(msg.chat_id) && msg.chat_id == support_group && (
        match msg.reply_to {
            Some(rid) => !old(state).thread_bound(rid),
            None => true,
        }) ==> actions@.len() == 0 && (forall|b: SavedBinding|
            final(state).has_binding(b) <==> (old(state).has_binding(b) && b.topic_msg_id
                != msg.message_id)),
        cmd is Close && !old(state).conv_bound(msg.chat_id) && msg.chat_id != support_group
            ==> final(state).same_state(*old(state)) && actions@.len() == 0,
{
    let mut actions: Vec<Action> = Vec::new();
    match cmd {
        Command::Start => {},
        Command::GetId => {
            let text = i64_to_dec(msg.chat_id);
            actions.push(
                Action::SendMessage {
                    target: msg.chat_id,
                    text,
                    reply_to: None,
                    markup: None,
                    markdown: false,
                },
            );
        },
        Command::Support => {
            if !msg.is_private {
                actions.push(
                    Action::SendMessage {
                        target: msg.chat_id,
                        text: String::from_str("This command can only be used in private chat"),
                        reply_to: None,
                        markup: None,
                        markdown: false,
                    },
                );
            } else if state.get_thread(msg.chat_id).is_some() {
                actions.push(
                    Action::SendMessage {
                        target: msg.chat_id,
                        text: String::from_str(
                            "You already have an open support ticket. Close it with /close or write a new message.",
                        ),
                        reply_to: None,
                        markup: None,
                        markdown: false,
                    },
                );
            } else if state.pending_chat.is_some() {
                actions.push(
                    Action::SendMessage {
                        target: msg.chat_id,
                        text: String::from_str(
                            "Another support request is being processed. Please wait a moment and try again.",
                        ),
                        reply_to: None,
                        markup: None,
                        markdown: false,
                    },
                );
            } else {
                actions.push(
                    Action::SendMessage {
                        target: msg.chat_id,
                        text: String::from_str(
                            "Please select your preferred language for support:",
                        ),
                        reply_to: None,
                        markup: Some(Markup::LanguageChoices),
                        markdown: false,
                    },
                );
            }
        },
        Command::Close => {
            let found = state.get_thread(msg.chat_id);
            match found {
                Some(t) => {
                    let name = get_user_name(msg.from.as_ref().unwrap());
                    let mut text = String::from_str("Chat ended by the user ");
                    text.append(name.as_str());
                    actions.push(
                        Action::SendMessage {
                            target: support_group,
                            text,
                            reply_to: Some(t),
                            markup: None,
                            markdown: false,
                        },
                    );
                    actions.push(
                        Action::SendMessage {
                            target: msg.chat_id,
                            text: String::from_str("The support topic has been closed."),
                            reply_to: None,
                            markup: None,
                            markdown: false,
                        },
                    );
                    state.remove_by_conversation(msg.chat_id);
                    proof {
                        assert forall|t2: i32|
                            old(state).bound_to(msg.chat_id, t2) implies t2 == t by {
                            old(state).lemma_conv_unique(msg.chat_id, t2, t);
                        };
                    }
                },
                None => {
                    if msg.chat_id == support_group {
                        match msg.reply_to {
                            Some(rid) => {
                                let resolved = state.get_conversation(rid);
                                match resolved {
                                    Some(c) => {
                                        actions.push(
                                            Action::SendMessage {
                                                target: support_group,
                                                text: String::from_str("Chat ended"),
                                                reply_to: Some(rid),
                                                markup: None,
                                                markdown: false,
                                            },
                                        );
                                        actions.push(
                                            Action::SendMessage {
                                                target: c,
                                                text: String::from_str(
                                                    "RustBusters closed the support chat. Write /support to open a new one.",
                                                ),
                                                reply_to: None,
                                                markup: None,
                                                markdown: false,
                                            },
                                        );
                                        state.remove_by_thread(rid);
                                        proof {
                                            assert forall|c2: i64|
                                                old(state).bound_to(c2, rid) implies c2 == c by {
                                                old(state).lemma_thread_unique(rid, c2, c);
                                            };
                                        }
                                    },
                                    None => {},
                                }
                            },
                            None => {},
                        }
                        state.remove_by_thread(msg.message_id);
                    }
                },
            }
        },
    }
    actions
}

/// Handle an ordinary message event.
///
/// A thread-creation announcement authored by the bot completes the pending
/// negotiation: the binding is committed, the slot is cleared, and the user
/// is notified in their chosen language, naming their chosen category. A
/// text from a bound private conversation is relayed into its thread; a
/// staff text replying to a bound thread's creating message is relayed back
/// to that user; a message with no resolvable binding is silently dropped.
pub fn handle_messages(
    state: &mut StateContainer,
    msg: &MessageEvent,
    support_group: i64,
) -> (actions: Vec<Action>)
    requires
        old(state).wf(),
        msg.is_topic_created ==> !old(state).thread_bound(msg.message_id),
    ensures
        final(state).wf(),
        msg.is_topic_created && msg.from_is_bot ==> (old(state).pending_chat matches Some(p)
            ==> (p.ticket_type matches Some(tt) ==> final(state).pending_chat is None && (
        forall|b: SavedBinding|
            final(state).has_binding(b) <==> ((old(state).has_binding(b) && b.chat_id
                != p.chat_id) || b == sb(p.chat_id, msg.message_id))) && actions@.len() == 1
            && is_send(
            actions@[0],
            p.chat_id,
            confirmation_spec(p.language, tt),
            None,
            None,
            true,
        ))),
        msg.is_topic_created && (!msg.from_is_bot || (match old(state).pending_chat {
            Some(p) => p.ticket_type is None,
            None => true,
        })) ==> final(state).same_state(*old(state)) && actions@.len() == 0,
        !msg.is_topic_created ==> final(state).same_state(*old(state)),
        forall|t: i32|
            !msg.is_topic_created && msg.is_private && #[trigger] old(state).bound_to(
                msg.chat_id,
                t,
            ) && msg.text is Some ==> actions@.len() == 1 && is_send(
                actions@[0],
                support_group,
                msg.text->0@,
                Some(t),
                None,
                false,
            ),
        !msg.is_topic_created && msg.is_private && (!old(state).conv_bound(msg.chat_id)
            || msg.text is None) ==> actions@.len() == 0,
        forall|rid: i32, c: i64|
            !msg.is_topic_created && !msg.is_private && msg.chat_id == support_group
                && msg.reply_to == Some(rid) && #[trigger] old(state).bound_to(c, rid)
                && msg.text is Some ==> actions@.len() == 1 && is_send(
                actions@[0],
                c,
                msg.text->0@,
                None,
                None,
                false,
            ),
        !msg.is_topic_created && !msg.is_private && (msg.chat_id != support_group
            || msg.reply_to is None || (match msg.reply_to {
            Some(rid) => !old(state).thread_bound(rid),
            None => false,
        }) || msg.text is None) ==> actions@.len() == 0,
{
    let mut actions: Vec<Action> = Vec::new();
    if msg.is_topic_created {
        if msg.from_is_bot {
            let pending = state.pending_chat;
            match pending {
                Some(p) => {
                    match p.ticket_type {
                        Some(tt) => {
                            state.put(p.chat_id, msg.message_id);
                            state.pending_chat = None;
                            let text = confirmation_text(p.language, tt);
                            actions.push(
                                Action::SendMessage {
                                    target: p.chat_id,
                                    text,
                                    reply_to: None,
                                    markup: None,
                                    markdown: true,
                                },
                            );
                        },
                        None => {},
                    }
                },
                None => {},
            }
        }
        return actions;
    }
    if msg.is_private {
        let found = state.get_thread(msg.chat_id);
        match found {
            Some(t) => {
                match &msg.text {
                    Some(txt) => {
                        actions.push(
                            Action::SendMessage {
                                target: support_group,
                                text: txt.clone(),
                                reply_to: Some(t),
                                markup: None,
                                markdown: false,
                            },
                        );
                        proof {
                            assert forall|t2: i32|
                                old(state).bound_to(msg.chat_id, t2) implies t2 == t by {
                                old(state).lemma_conv_unique(msg.chat_id, t2, t);
                            };
                        }
                    },
                    None => {},
                }
            },
            None => {},
        }
    } else {
        if msg.chat_id == support_group {
            match msg.reply_to {
                Some(rid) => {
                    let resolved = state.get_conversation(rid);
                    match resolved {
                        Some(c) => {
                            match &msg.text {
                                Some(txt) => {
                                    actions.push(
                                        Action::SendMessage {
                                            target: c,
                                            text: txt.clone(),
                                            reply_to: None,
                                            markup: None,
                                            markdown: false,
                                        },
                                    );
                                    proof {
                                        assert forall|c2: i64|
                                            old(state).bound_to(c2, rid) implies c2 == c by {
                                            old(state).lemma_thread_unique(rid, c2, c);
                                        };
                                    }
                                },
                                None => {},
                            }
                        },
                        None => {},
                    }
                },
                None => {},
            }
        }
    }
    actions
}

/// Handle an interactive selection event.
///
/// A language choice claims the negotiation slot for the prompting chat,
/// retires the prompt and presents the category choice. A category choice
/// with a negotiation in flight records the category and asks the transport
/// to create the thread, titled with the flag, the category label and the
/// user's name. A selection with no payload, an unknown payload, or no live
/// negotiation changes nothing. Whatever the branch, the event is
/// acknowledged exactly once, and the binding store is never touched.
pub fn handle_callback_query(
    state: &mut StateContainer,
    query: &CallbackEvent,
    support_group: i64,
) -> (actions: Vec<Action>)
    requires
        old(state).wf(),
    ensures
        final(state).wf(),
        final(state).bindings@ == old(state).bindings@,
        actions@.len() >= 1,
        is_answer(actions@[actions@.len() - 1], query.query_id@),
        forall|k: int| 0 <= k < actions@.len() - 1 ==> !is_answer_any(#[trigger] actions@[k]),
        (query.data is None || query.message is None) ==> final(state).same_state(*old(state))
            && actions@.len() == 1,
        query.data matches Some(d) ==> (query.message is Some && payload_spec(d@) is None
            ==> final(state).same_state(*old(state)) && actions@.len() == 1),
        query.data matches Some(d) ==> (query.message matches Some(m) ==> (payload_spec(d@)
            matches Some(SelectionPayload::LanguageChoice(lang)) ==> final(state).pending_chat
            == Some(
            (PendingTicket { chat_id: m.chat_id, language: lang, ticket_type: None }),
        ) && actions@.len() == 3 && is_delete(actions@[0], m.chat_id, m.message_id) && is_send(
            actions@[1],
            m.chat_id,
            category_prompt_spec(lang),
            None,
            Some(Markup::CategoryChoices(lang)),
            false,
        ))),
        query.data matches Some(d) ==> (query.message matches Some(m)
            ==> (old(state).pending_chat matches Some(p) ==> (payload_spec(d@) matches Some(
            SelectionPayload::CategoryChoice(tt),
        ) ==> final(state).pending_chat == Some(
            (PendingTicket { chat_id: p.chat_id, language: p.language, ticket_type: Some(tt) }),
        ) && actions@.len() == 3 && is_delete(actions@[0], m.chat_id, m.message_id)
            && is_create_thread(
            actions@[1],
            support_group,
            topic_title_spec(p.language, tt, user_name_spec(query.from)),
            new_ticket_text(),
        )))),
        query.data matches Some(d) ==> (query.message is Some && old(state).pending_chat is None
            ==> (payload_spec(d@) matches Some(SelectionPayload::CategoryChoice(tt))
            ==> final(state).same_state(*old(state)) && actions@.len() == 1)),
{
    let mut actions: Vec<Action> = Vec::new();
    if query.data.is_some() && query.message.is_some() {
        let d = query.data.as_ref().unwrap();
        let m = query.message.unwrap();
        match parse_payload(d.as_str()) {
            Some(SelectionPayload::LanguageChoice(lang)) => {
                state.pending_chat = Some(
                    PendingTicket { chat_id: m.chat_id, language: lang, ticket_type: None },
                );
                actions.push(
                    Action::DeleteMessage { target: m.chat_id, message_id: m.message_id },
                );
                let (prompt, _buttons) = create_typeofticket_keyboard(lang);
                actions.push(
                    Action::SendMessage {
                        target: m.chat_id,
                        text: prompt,
                        reply_to: None,
                        markup: Some(Markup::CategoryChoices(lang)),
                        markdown: false,
                    },
                );
            },
            Some(SelectionPayload::CategoryChoice(tt)) => {
                let pending = state.pending_chat;
                match pending {
                    Some(p) => {
                        state.pending_chat = Some(
                            PendingTicket {
                                chat_id: p.chat_id,
                                language: p.language,
                                ticket_type: Some(tt),
                            },
                        );
                        actions.push(
                            Action::DeleteMessage { target: m.chat_id, message_id: m.message_id },
                        );
                        let name = get_user_name(&query.from);
                        let title = topic_title(p.language, tt, &name);
                        let color = get_random_topic_color();
                        actions.push(
                            Action::CreateThread {
                                space: support_group,
                                title,
                                color,
                                initial_text: String::from_str("New support ticket"),
                            },
                        );
                    },
                    None => {},
                }
            },
            None => {},
        }
    }
    actions.push(Action::AnswerInteractive { event_id: query.query_id.clone() });
    actions
}

} // verus!

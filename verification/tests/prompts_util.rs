use support_bridge::prompts::{
    create_language_keyboard, create_typeofticket_keyboard, parse_payload, SelectionPayload,
};
use support_bridge::state::{Language, TicketType};
use support_bridge::util::{get_random_topic_color, get_user_name, UserIdentity};

#[test]
fn language_flags_and_labels() {
    assert_eq!(Language::Italian.to_flag(), "🇮🇹");
    assert_eq!(Language::English.to_flag(), "🇬🇧");
    assert_eq!(TicketType::Bug.to_string(), "Bug");
    assert_eq!(TicketType::HowTo.to_string(), "How to ...");
    assert_eq!(TicketType::Other.to_string(), "Other");
}

#[test]
fn language_keyboard_content() {
    let kb = create_language_keyboard();
    assert_eq!(kb.len(), 2);
    assert_eq!(kb[0].0, "🇮🇹 Italiano");
    assert_eq!(kb[0].1, "lang_it");
    assert_eq!(kb[1].0, "🇬🇧 English");
    assert_eq!(kb[1].1, "lang_en");
}

#[test]
fn category_keyboard_content_per_language() {
    let (prompt, kb) = create_typeofticket_keyboard(Language::Italian);
    assert_eq!(prompt, "Che tipo di supporto ti serve?");
    assert_eq!(kb.len(), 3);
    assert_eq!(kb[0].0, "Segnalazione Bug");
    assert_eq!(kb[1].0, "Come fare...");
    assert_eq!(kb[2].0, "Altro");
    assert_eq!(kb[0].1, "ticket_bug");
    assert_eq!(kb[1].1, "ticket_how_to");
    assert_eq!(kb[2].1, "ticket_other");

    let (prompt, kb) = create_typeofticket_keyboard(Language::English);
    assert_eq!(prompt, "What kind of support do you need?");
    assert_eq!(kb[0].0, "Bug Report");
    assert_eq!(kb[1].0, "How to...");
    assert_eq!(kb[2].0, "Other");
}

#[test]
fn payloads_parse_to_their_meaning() {
    assert_eq!(
        parse_payload("lang_it"),
        Some(SelectionPayload::LanguageChoice(Language::Italian))
    );
    assert_eq!(
        parse_payload("lang_en"),
        Some(SelectionPayload::LanguageChoice(Language::English))
    );
    assert_eq!(
        parse_payload("ticket_bug"),
        Some(SelectionPayload::CategoryChoice(TicketType::Bug))
    );
    assert_eq!(
        parse_payload("ticket_how_to"),
        Some(SelectionPayload::CategoryChoice(TicketType::HowTo))
    );
    assert_eq!(
        parse_payload("ticket_other"),
        Some(SelectionPayload::CategoryChoice(TicketType::Other))
    );
    assert_eq!(parse_payload(""), None);
    assert_eq!(parse_payload("lang_fr"), None);
    assert_eq!(parse_payload("lang_it "), None);
}

#[test]
fn user_name_prefers_username() {
    let with = UserIdentity {
        username: Some(String::from("alice")),
        first_name: String::from("Alice"),
    };
    let without = UserIdentity { username: None, first_name: String::from("Alice") };
    assert_eq!(get_user_name(&with), "alice");
    assert_eq!(get_user_name(&without), "Alice");
}

#[test]
fn topic_color_comes_from_the_palette() {
    let palette = [0x6FB9F0, 0xFFD67E, 0xCB86DB, 0x8EEE98, 0xFF93B2, 0xFB6F5F];
    for _ in 0..50 {
        let c = get_random_topic_color();
        assert!(palette.contains(&c), "color {:#x} not in palette", c);
    }
}

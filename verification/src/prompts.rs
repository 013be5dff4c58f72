//! The interactive selection steps: the closed set of payloads the two
//! keyboards carry, and the keyboards themselves, each button a label and a
//! payload. Rendering is the transport's job; the library fixes the content.

use crate::state::Language;
use crate::state::TicketType;
use vstd::prelude::*;
use vstd::string::StringExecFns;
use vstd::string::StrSliceExecFns;

verus! {

/// What a selection payload can mean. Every payload the keyboards emit is
/// one of these; anything else is ignored.
#[derive(Clone, Copy, PartialEq, Eq, Structural, Debug)]
pub enum SelectionPayload {
    LanguageChoice(Language),
    CategoryChoice(TicketType),
}

/// The meaning of a payload text.
pub open spec fn payload_spec(s: Seq<char>) -> Option<SelectionPayload> {
    if s == "lang_it"@ {
        Some(SelectionPayload::LanguageChoice(Language::Italian))
    } else if s == "lang_en"@ {
        Some(SelectionPayload::LanguageChoice(Language::English))
    } else if s == "ticket_bug"@ {
        Some(SelectionPayload::CategoryChoice(TicketType::Bug))
    } else if s == "ticket_how_to"@ {
        Some(SelectionPayload::CategoryChoice(TicketType::HowTo))
    } else if s == "ticket_other"@ {
        Some(SelectionPayload::CategoryChoice(TicketType::Other))
    } else {
        None
    }
}

/// Character-wise comparison of two texts.
fn str_eq(a: &str, b: &str) -> (r: bool)
    ensures
        r == (a@ == b@),
{
    let al = a.unicode_len();
    let bl = b.unicode_len();
    if al != bl {
        proof {
            assert(a@.len() != b@.len());
        }
        return false;
    }
    let mut k: usize = 0;
    while k < al
        invariant
            al == a@.len(),
            al == b@.len(),
            k <= al,
            forall|m: int| 0 <= m < k ==> a@[m] == b@[m],
        decreases al - k,
    {
        if a.get_char(k) != b.get_char(k) {
            return false;
        }
        k += 1;
    }
    proof {
        assert(a@ =~= b@);
    }
    true
}

/// Classify a selection payload; unknown text means no selection.
pub fn parse_payload(data: &str) -> (r: Option<SelectionPayload>)
    ensures
        r == payload_spec(data@),
{
    if str_eq(data, "lang_it") {
        Some(SelectionPayload::LanguageChoice(Language::Italian))
    } else if str_eq(data, "lang_en") {
        Some(SelectionPayload::LanguageChoice(Language::English))
    } else if str_eq(data, "ticket_bug") {
        Some(SelectionPayload::CategoryChoice(TicketType::Bug))
    } else if str_eq(data, "ticket_how_to") {
        Some(SelectionPayload::CategoryChoice(TicketType::HowTo))
    } else if str_eq(data, "ticket_other") {
        Some(SelectionPayload::CategoryChoice(TicketType::Other))
    } else {
        None
    }
}

/// The text of the language prompt.
pub open spec fn language_prompt_spec() -> Seq<char> {
    "Please select your preferred language for support:"@
}

/// The text of the category prompt, in the chosen language.
pub open spec fn category_prompt_spec(lang: Language) -> Seq<char> {
    match lang {
        Language::Italian => "Che tipo di supporto ti serve?"@,
        Language::English => "What kind of support do you need?"@,
    }
}

/// The language keyboard: one row of two buttons, each a label and the
/// payload sent back when it is pressed.
pub fn create_language_keyboard() -> (r: Vec<(String, String)>)
    ensures
        r@.len() == 2,
        r@[0].0@ == "🇮🇹 Italiano"@ && r@[0].1@ == "lang_it"@,
        r@[1].0@ == "🇬🇧 English"@ && r@[1].1@ == "lang_en"@,
{
    let mut r: Vec<(String, String)> = Vec::new();
    r.push((String::from_str("🇮🇹 Italiano"), String::from_str("lang_it")));
    r.push((String::from_str("🇬🇧 English"), String::from_str("lang_en")));
    r
}

/// The category prompt and keyboard: a row of three buttons labelled in the
/// chosen language, with language-independent payloads.
pub fn create_typeofticket_keyboard(lang: Language) -> (r: (String, Vec<(String, String)>))
    ensures
        r.0@ == category_prompt_spec(lang),
        r.1@.len() == 3,
        lang is Italian ==> r.1@[0].0@ == "Segnalazione Bug"@ && r.1@[1].0@ == "Come fare..."@
            && r.1@[2].0@ == "Altro"@,
        lang is English ==> r.1@[0].0@ == "Bug Report"@ && r.1@[1].0@ == "How to..."@
            && r.1@[2].0@ == "Other"@,
        r.1@[0].1@ == "ticket_bug"@,
        r.1@[1].1@ == "ticket_how_to"@,
        r.1@[2].1@ == "ticket_other"@,
{
    let mut buttons: Vec<(String, String)> = Vec::new();
    let message: String;
    match lang {
        Language::Italian => {
            message = String::from_str("Che tipo di supporto ti serve?");
            buttons.push((String::from_str("Segnalazione Bug"), String::from_str("ticket_bug")));
            buttons.push((String::from_str("Come fare..."), String::from_str("ticket_how_to")));
            buttons.push((String::from_str("Altro"), String::from_str("ticket_other")));
        },
        Language::English => {
            message = String::from_str("What kind of support do you need?");
            buttons.push((String::from_str("Bug Report"), String::from_str("ticket_bug")));
            buttons.push((String::from_str("How to..."), String::from_str("ticket_how_to")));
            buttons.push((String::from_str("Other"), String::from_str("ticket_other")));
        },
    }
    (message, buttons)
}

} // verus!

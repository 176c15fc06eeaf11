//! Routing of inbound conversation events and the decisions of the media
//! pipeline. The caller performs each action and reports what came of it.

use vstd::prelude::*;
use crate::recognizer::{default_code, default_language, Language};
use crate::storage::Storage;
use crate::text::{is_prefix, starts_with};

verus! {

/// The kind of media attached to a message.
#[derive(Clone, Copy, PartialEq, Eq, Structural, Debug)]
pub enum MediaAttachment {
    Voice,
    VideoNote,
}

/// An event delivered by the chat platform.
pub enum InboundEvent {
    /// A message whose first entity is a bot command.
    Command { conversation: i64, command: String },
    /// A message with a voice or video-note attachment.
    Media { conversation: i64, message_id: i64, attachment: MediaAttachment, file_reference: String },
    /// A press on a language button.
    LanguageSelection { conversation: i64, callback_id: String, language_code: String },
    /// Anything else.
    Other,
}

/// What to do about an event.
#[derive(Debug, PartialEq, Eq)]
pub enum Action {
    SendHelp { conversation: i64 },
    SendLanguageSelector { conversation: i64 },
    ProcessMedia { conversation: i64, message_id: i64, attachment: MediaAttachment, file_reference: String },
    StoreLanguage { conversation: i64, callback_id: String, language_code: String },
    Ignore,
}

/// `command` is the command `name`, alone or addressed to a bot as `name@bot`.
pub open spec fn names_command(name: Seq<char>, command: Seq<char>) -> bool {
    command == name || is_prefix(name.push('@'), command)
}

/// Whether `command` is the command `name`, alone or as `name@bot`.
pub fn is_command(command: &str, name: &str) -> (r: bool)
    ensures
        r == names_command(name@, command@),
{
    if !starts_with(command, name) {
        proof {
            if command@ == name@ {
                assert(command@.subrange(0, name@.len() as int) =~= name@);
            }
            if is_prefix(name@.push('@'), command@) {
                let k = name@.len() as int;
                assert(command@.subrange(0, k) =~= command@.subrange(0, k + 1).subrange(0, k));
                assert(name@.push('@').subrange(0, k) =~= name@);
            }
        }
        return false;
    }
    let n = name.unicode_len();
    let c = command.unicode_len();
    if n == c {
        assert(command@ =~= command@.subrange(0, n as int));
        return true;
    }
    let next = command.get_char(n);
    proof {
        let with_at = name@.push('@');
        if next == '@' {
            assert(command@.subrange(0, n + 1) =~= with_at);
        } else if is_prefix(with_at, command@) {
            assert(command@.subrange(0, n + 1)[n as int] == with_at[n as int]);
        }
    }
    next == '@'
}

/// The action for `event`: the commands `/help` and `/set_lang` (alone or as
/// `/help@bot`) get their handler, media goes to the media pipeline, a language selection is
/// stored, anything else is ignored.
pub fn route(event: InboundEvent) -> (r: Action)
    ensures
        match event {
            InboundEvent::Command { conversation, command } => if names_command("/help"@, command@) {
                r == (Action::SendHelp { conversation })
            } else if names_command("/set_lang"@, command@) {
                r == (Action::SendLanguageSelector { conversation })
            } else {
                r is Ignore
            },
            InboundEvent::Media { conversation, message_id, attachment, file_reference } => match r {
                Action::ProcessMedia { conversation: c, message_id: m, attachment: a, file_reference: f } =>
                    c == conversation && m == message_id && a == attachment && f@ == file_reference@,
                _ => false,
            },
            InboundEvent::LanguageSelection { conversation, callback_id, language_code } => match r {
                Action::StoreLanguage { conversation: c, callback_id: b, language_code: l } =>
                    c == conversation && b@ == callback_id@ && l@ == language_code@,
                _ => false,
            },
            InboundEvent::Other => r is Ignore,
        },
{
    match event {
        InboundEvent::Command { conversation, command } => {
            if is_command(command.as_str(), "/help") {
                Action::SendHelp { conversation }
            } else if is_command(command.as_str(), "/set_lang") {
                Action::SendLanguageSelector { conversation }
            } else {
                Action::Ignore
            }
        },
        InboundEvent::Media { conversation, message_id, attachment, file_reference } => {
            Action::ProcessMedia { conversation, message_id, attachment, file_reference }
        },
        InboundEvent::LanguageSelection { conversation, callback_id, language_code } => {
            Action::StoreLanguage { conversation, callback_id, language_code }
        },
        InboundEvent::Other => Action::Ignore,
    }
}

pub open spec fn help_text() -> Seq<char> {
    "Hello! I can convert voice and video note messages to text. You can forward messages to me or add me to a chat. Use /set_lang to choose the recognition language; the default is Russian."@
}

/// The reply to `/help`.
pub fn help_message() -> (r: &'static str)
    ensures
        r@ == help_text(),
{
    "Hello! I can convert voice and video note messages to text. You can forward messages to me or add me to a chat. Use /set_lang to choose the recognition language; the default is Russian."
}

pub open spec fn selector_prompt_text() -> Seq<char> {
    "Choose the recognition language"@
}

/// The text sent with the language selector.
pub fn selector_prompt() -> (r: &'static str)
    ensures
        r@ == selector_prompt_text(),
{
    "Choose the recognition language"
}

pub open spec fn confirmation_text() -> Seq<char> {
    "Language saved"@
}

pub open spec fn failure_text() -> Seq<char> {
    "Something went wrong. Please try again later."@
}

/// The reply sent in place of a transcript when the pipeline failed.
pub fn failure_message() -> (r: &'static str)
    ensures
        r@ == failure_text(),
{
    "Something went wrong. Please try again later."
}

/// A button of the language selector.
#[derive(Debug)]
pub struct Button {
    /// The text on the button.
    pub label: String,
    /// What a press on it sends back: the language code.
    pub token: String,
}

/// The language selector: the languages in order, two buttons per row, each
/// labelled with the language's name and carrying its code.
pub fn language_keyboard(languages: &Vec<Language>) -> (r: Vec<Vec<Button>>)
    ensures
        r@.len() == (languages@.len() + 1) / 2,
        forall|k: int| 0 <= k < r@.len() ==> (#[trigger] r@[k])@.len() == if 2 * k + 1 < languages@.len() {
            2int
        } else {
            1int
        },
        forall|k: int, c: int| 0 <= k < r@.len() && 0 <= c < r@[k]@.len() ==> {
            let b = #[trigger] r@[k]@[c];
            b.label@ == languages@[2 * k + c].friendly_name@ && b.token@ == languages@[2 * k + c].code@
        },
{
    let n = languages.len();
    let mut rows: Vec<Vec<Button>> = Vec::new();
    let mut i: usize = 0;
    while i < n
        invariant
            n == languages@.len(),
            i <= n,
            i % 2 == 0 || i == n,
            rows@.len() == (i + 1) / 2,
            forall|k: int| 0 <= k < rows@.len() ==> (#[trigger] rows@[k])@.len() == if 2 * k + 1 < n {
                2int
            } else {
                1int
            },
            forall|k: int, c: int| 0 <= k < rows@.len() && 0 <= c < rows@[k]@.len() ==> {
                let b = #[trigger] rows@[k]@[c];
                b.label@ == languages@[2 * k + c].friendly_name@ && b.token@ == languages@[2 * k + c].code@
            },
        decreases n - i,
    {
        let mut row: Vec<Button> = Vec::new();
        let first = &languages[i];
        row.push(Button { label: first.friendly_name.clone(), token: first.code.clone() });
        if i + 1 < n {
            let second = &languages[i + 1];
            row.push(Button { label: second.friendly_name.clone(), token: second.code.clone() });
        }
        let ghost k = rows@.len();
        assert(2 * k == i);
        rows.push(row);
        if i + 1 < n {
            i = i + 2;
        } else {
            i = n;
        }
    }
    rows
}

/// The language to recognize a conversation's media in: its stored choice,
/// else the default.
pub fn preferred_language(store: &Storage, conversation: i64) -> (r: String)
    requires
        store.wf(),
    ensures
        r@ == if store@.contains_key(conversation) {
            store@[conversation]
        } else {
            default_code()
        },
{
    match store.get(conversation) {
        Some(code) => code,
        None => default_language(),
    }
}

/// Stores the language chosen for a conversation and gives the text that
/// acknowledges the choice.
pub fn select_language(store: &mut Storage, conversation: i64, language_code: String) -> (r: &'static str)
    requires
        old(store).wf(),
    ensures
        final(store).wf(),
        final(store)@ == old(store)@.insert(conversation, language_code@),
        r@ == confirmation_text(),
{
    store.put(conversation, language_code);
    "Language saved"
}

} // verus!

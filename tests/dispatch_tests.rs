use recognition_bot::dispatch::{
    failure_message, help_message, is_command, language_keyboard, preferred_language, route, select_language, Action,
    InboundEvent, MediaAttachment,
};
use recognition_bot::recognizer::{supported_languages, Language};
use recognition_bot::storage::Storage;

fn command(c: &str) -> InboundEvent {
    InboundEvent::Command { conversation: 3, command: c.to_string() }
}

#[test]
fn commands_are_routed_by_prefix() {
    assert_eq!(route(command("/help")), Action::SendHelp { conversation: 3 });
    assert_eq!(route(command("/help@bot")), Action::SendHelp { conversation: 3 });
    assert_eq!(route(command("/set_lang")), Action::SendLanguageSelector { conversation: 3 });
    assert_eq!(route(command("/start")), Action::Ignore);
    assert_eq!(route(command("/set_lang@bot")), Action::SendLanguageSelector { conversation: 3 });
    assert_eq!(route(command("/helpful")), Action::Ignore);
    assert_eq!(route(command("/set_language")), Action::Ignore);
    assert_eq!(route(command("/hel")), Action::Ignore);
    assert_eq!(route(InboundEvent::Other), Action::Ignore);
    assert!(help_message().contains("/set_lang"));
}

#[test]
fn media_goes_to_the_pipeline() {
    let e = InboundEvent::Media {
        conversation: 42,
        message_id: 9,
        attachment: MediaAttachment::VideoNote,
        file_reference: "f1".to_string(),
    };
    assert_eq!(
        route(e),
        Action::ProcessMedia {
            conversation: 42,
            message_id: 9,
            attachment: MediaAttachment::VideoNote,
            file_reference: "f1".to_string()
        }
    );
}

#[test]
fn language_selection_is_stored_and_acknowledged() {
    let mut store = Storage::empty();
    let e = InboundEvent::LanguageSelection {
        conversation: 7,
        callback_id: "cb-1".to_string(),
        language_code: "en-us".to_string(),
    };
    match route(e) {
        Action::StoreLanguage { conversation, callback_id, language_code } => {
            assert_eq!(callback_id, "cb-1");
            let ack = select_language(&mut store, conversation, language_code);
            assert_eq!(ack, "Language saved");
        }
        other => panic!("unexpected {:?}", other),
    }
    assert_eq!(store.get(7), Some("en-us".to_string()));
}

#[test]
fn preferred_language_defaults() {
    let mut store = Storage::empty();
    assert_eq!(preferred_language(&store, 1), "ru-RU");
    store.put(1, "de-DE".to_string());
    assert_eq!(preferred_language(&store, 1), "de-DE");
    assert_eq!(failure_message(), "Something went wrong. Please try again later.");
}

#[test]
fn selector_has_two_buttons_per_row() {
    let rows = language_keyboard(&supported_languages());
    assert_eq!(rows.len(), 2);
    assert_eq!(rows[0][0].label, "Russian");
    assert_eq!(rows[0][0].token, "ru-RU");
    assert_eq!(rows[0][1].token, "en-US");
    assert_eq!(rows[1][0].token, "uk-UA");
    assert_eq!(rows[1][1].label, "German");
    let three: Vec<Language> = supported_languages().into_iter().take(3).collect();
    let rows = language_keyboard(&three);
    assert_eq!(rows.len(), 2);
    assert_eq!(rows[1].len(), 1);
    assert_eq!(rows[1][0].token, "uk-UA");
    assert!(language_keyboard(&Vec::new()).is_empty());
}

#[test]
fn command_names_match_whole() {
    assert!(is_command("/help", "/help"));
    assert!(is_command("/help@recognition_bot", "/help"));
    assert!(!is_command("/helpme", "/help"));
    assert!(!is_command("/he", "/help"));
    assert!(!is_command("", "/help"));
}

use recognition_bot::dispatch::MediaAttachment;
use recognition_bot::media::MediaKind;
use recognition_bot::session::{MediaAction, MediaEvent, MediaSession, Stage};

fn voice_session() -> MediaSession {
    MediaSession::new(42, 1001, MediaAttachment::Voice, "file-7".to_string(), "ru-RU".to_string())
}

#[test]
fn voice_message_gets_one_threaded_transcript_reply() {
    let mut s = voice_session();
    let mut replies = Vec::new();
    let wav = b"RIFF....WAVE".to_vec();
    let mut actions = vec![s.step(MediaEvent::Begin)];
    actions.push(s.step(MediaEvent::TypingDone));
    actions.push(s.step(MediaEvent::FileResolved(Some("voice/7.oga".to_string()))));
    actions.push(s.step(MediaEvent::Downloaded(vec![1, 2, 3])));
    actions.push(s.step(MediaEvent::Transcoded(wav.clone())));
    actions.push(s.step(MediaEvent::Recognized("hello world".to_string())));
    actions.push(s.step(MediaEvent::ReplySent));
    assert_eq!(actions[0], MediaAction::SendTyping { conversation: 42 });
    assert_eq!(actions[1], MediaAction::ResolveFile { file_reference: "file-7".to_string() });
    assert_eq!(actions[2], MediaAction::Download { file_path: "voice/7.oga".to_string() });
    assert_eq!(actions[3], MediaAction::Transcode { media: MediaKind::Ogg(vec![1, 2, 3]) });
    assert_eq!(actions[4], MediaAction::Recognize { audio: wav, language: "ru-RU".to_string() });
    for a in &actions {
        if let MediaAction::Reply { .. } = a {
            replies.push(a);
        }
    }
    assert_eq!(replies.len(), 1);
    assert_eq!(
        *replies[0],
        MediaAction::Reply { conversation: 42, reply_to: 1001, text: "hello world".to_string() }
    );
    assert_eq!(actions[6], MediaAction::Finish);
    assert_eq!(s.stage, Stage::Finished);
}

#[test]
fn typing_failure_is_not_fatal() {
    let mut s = voice_session();
    s.step(MediaEvent::Begin);
    assert_eq!(s.step(MediaEvent::Failed), MediaAction::ResolveFile { file_reference: "file-7".to_string() });
}

#[test]
fn step_failure_gives_generic_reply() {
    let mut s = MediaSession::new(5, 6, MediaAttachment::VideoNote, "v".to_string(), "en-US".to_string());
    s.step(MediaEvent::Begin);
    s.step(MediaEvent::TypingDone);
    s.step(MediaEvent::FileResolved(Some("p".to_string())));
    assert_eq!(s.step(MediaEvent::Downloaded(vec![9])), MediaAction::Transcode { media: MediaKind::Mp4(vec![9]) });
    assert_eq!(
        s.step(MediaEvent::Failed),
        MediaAction::Reply {
            conversation: 5,
            reply_to: 6,
            text: "Something went wrong. Please try again later.".to_string()
        }
    );
    assert_eq!(s.step(MediaEvent::ReplySent), MediaAction::Finish);
    assert_eq!(s.step(MediaEvent::Begin), MediaAction::Finish);
}

#[test]
fn missing_file_path_fails_the_pipeline() {
    let mut s = voice_session();
    s.step(MediaEvent::Begin);
    s.step(MediaEvent::TypingDone);
    assert_eq!(
        s.step(MediaEvent::FileResolved(None)),
        MediaAction::Reply {
            conversation: 42,
            reply_to: 1001,
            text: "Something went wrong. Please try again later.".to_string()
        }
    );
}

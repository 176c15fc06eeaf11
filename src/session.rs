//! The media pipeline of one event as a state machine: the caller performs
//! each action (a typing indicator, fetching the file, transcoding,
//! recognition, the reply) and feeds back what came of it.

use vstd::prelude::*;
use crate::dispatch::{failure_text, MediaAttachment};
use crate::media::MediaKind;

verus! {

/// Where a media session stands: what it waits for.
#[derive(Clone, Copy, PartialEq, Eq, Structural, Debug)]
pub enum Stage {
    Start,
    AwaitTyping,
    AwaitFile,
    AwaitDownload,
    AwaitTranscode,
    AwaitRecognition,
    AwaitReply,
    Finished,
}

/// What came of the last action.
pub enum MediaEvent {
    /// The session is to begin.
    Begin,
    /// The typing indicator was sent, or sending it failed; either way the
    /// pipeline goes on.
    TypingDone,
    /// The file reference was resolved to a download path, if the platform gave one.
    FileResolved(Option<String>),
    /// The attachment's bytes.
    Downloaded(Vec<u8>),
    /// The normalized audio.
    Transcoded(Vec<u8>),
    /// The transcript.
    Recognized(String),
    /// The last action failed.
    Failed,
    /// The reply was sent.
    ReplySent,
}

/// What the caller is to do next.
#[derive(Debug, PartialEq, Eq)]
pub enum MediaAction {
    SendTyping { conversation: i64 },
    ResolveFile { file_reference: String },
    Download { file_path: String },
    Transcode { media: MediaKind },
    Recognize { audio: Vec<u8>, language: String },
    Reply { conversation: i64, reply_to: i64, text: String },
    Finish,
}

/// The payload of an attachment of `attachment`'s kind holding `bytes`.
pub open spec fn media_of(attachment: MediaAttachment, bytes: Seq<u8>, m: MediaKind) -> bool {
    match m {
        MediaKind::Ogg(b) => attachment == MediaAttachment::Voice && b@ == bytes,
        MediaKind::Mp4(b) => attachment == MediaAttachment::VideoNote && b@ == bytes,
    }
}

/// The processing of one media message.
pub struct MediaSession {
    pub conversation: i64,
    pub message_id: i64,
    pub attachment: MediaAttachment,
    pub file_reference: String,
    /// The language to recognize in.
    pub language: String,
    pub stage: Stage,
}

impl MediaSession {
    /// `a` is a reply to the session's message with `text`.
    pub open spec fn is_reply(&self, a: MediaAction, text: Seq<char>) -> bool {
        match a {
            MediaAction::Reply { conversation, reply_to, text: t } => conversation == self.conversation
                && reply_to == self.message_id && t@ == text,
            _ => false,
        }
    }

    /// The session keeps its message, attachment and language.
    pub open spec fn same_message(&self, other: &MediaSession) -> bool {
        self.conversation == other.conversation && self.message_id == other.message_id
            && self.attachment == other.attachment && self.file_reference@ == other.file_reference@
            && self.language@ == other.language@
    }

    /// A session for the message `message_id` of `conversation`, to be
    /// recognized in `language`.
    pub fn new(
        conversation: i64,
        message_id: i64,
        attachment: MediaAttachment,
        file_reference: String,
        language: String,
    ) -> (r: MediaSession)
        ensures
            r.conversation == conversation,
            r.message_id == message_id,
            r.attachment == attachment,
            r.file_reference@ == file_reference@,
            r.language@ == language@,
            r.stage == Stage::Start,
    {
        MediaSession { conversation, message_id, attachment, file_reference, language, stage: Stage::Start }
    }

    /// Advances the session by what came of its last action and gives the next
    /// action. Once the pipeline has begun, a failure of any step but the
    /// typing indicator leads to one reply with the failure text; a transcript
    /// leads to one reply with it; after the reply the session is finished.
    pub fn step(&mut self, event: MediaEvent) -> (r: MediaAction)
        ensures
            final(self).same_message(old(self)),
            match old(self).stage {
                Stage::Start => final(self).stage == Stage::AwaitTyping
                    && r == (MediaAction::SendTyping { conversation: old(self).conversation }),
                Stage::AwaitTyping => match event {
                    MediaEvent::TypingDone | MediaEvent::Failed => final(self).stage == Stage::AwaitFile
                        && match r {
                        MediaAction::ResolveFile { file_reference } => file_reference@ == old(self).file_reference@,
                        _ => false,
                    },
                    _ => final(self).stage == Stage::AwaitReply && old(self).is_reply(r, failure_text()),
                },
                Stage::AwaitFile => match event {
                    MediaEvent::FileResolved(Some(p)) => final(self).stage == Stage::AwaitDownload
                        && match r {
                        MediaAction::Download { file_path } => file_path@ == p@,
                        _ => false,
                    },
                    _ => final(self).stage == Stage::AwaitReply && old(self).is_reply(r, failure_text()),
                },
                Stage::AwaitDownload => match event {
                    MediaEvent::Downloaded(b) => final(self).stage == Stage::AwaitTranscode && match r {
                        MediaAction::Transcode { media } => media_of(old(self).attachment, b@, media),
                        _ => false,
                    },
                    _ => final(self).stage == Stage::AwaitReply && old(self).is_reply(r, failure_text()),
                },
                Stage::AwaitTranscode => match event {
                    MediaEvent::Transcoded(a) => final(self).stage == Stage::AwaitRecognition && match r {
                        MediaAction::Recognize { audio, language } => audio@ == a@ && language@
                            == old(self).language@,
                        _ => false,
                    },
                    _ => final(self).stage == Stage::AwaitReply && old(self).is_reply(r, failure_text()),
                },
                Stage::AwaitRecognition => match event {
                    MediaEvent::Recognized(t) => final(self).stage == Stage::AwaitReply && old(self).is_reply(
                        r,
                        t@,
                    ),
                    _ => final(self).stage == Stage::AwaitReply && old(self).is_reply(r, failure_text()),
                },
                Stage::AwaitReply | Stage::Finished => final(self).stage == Stage::Finished && r is Finish,
            },
    {
        match self.stage {
            Stage::Start => {
                self.stage = Stage::AwaitTyping;
                MediaAction::SendTyping { conversation: self.conversation }
            },
            Stage::AwaitTyping => match event {
                MediaEvent::TypingDone | MediaEvent::Failed => {
                    self.stage = Stage::AwaitFile;
                    MediaAction::ResolveFile { file_reference: self.file_reference.clone() }
                },
                _ => self.fail(),
            },
            Stage::AwaitFile => match event {
                MediaEvent::FileResolved(Some(p)) => {
                    self.stage = Stage::AwaitDownload;
                    MediaAction::Download { file_path: p }
                },
                _ => self.fail(),
            },
            Stage::AwaitDownload => match event {
                MediaEvent::Downloaded(b) => {
                    self.stage = Stage::AwaitTranscode;
                    let media = match self.attachment {
                        MediaAttachment::Voice => MediaKind::Ogg(b),
                        MediaAttachment::VideoNote => MediaKind::Mp4(b),
                    };
                    MediaAction::Transcode { media }
                },
                _ => self.fail(),
            },
            Stage::AwaitTranscode => match event {
                MediaEvent::Transcoded(a) => {
                    self.stage = Stage::AwaitRecognition;
                    MediaAction::Recognize { audio: a, language: self.language.clone() }
                },
                _ => self.fail(),
            },
            Stage::AwaitRecognition => match event {
                MediaEvent::Recognized(t) => {
                    self.stage = Stage::AwaitReply;
                    MediaAction::Reply { conversation: self.conversation, reply_to: self.message_id, text: t }
                },
                _ => self.fail(),
            },
            Stage::AwaitReply | Stage::Finished => {
                self.stage = Stage::Finished;
                MediaAction::Finish
            },
        }
    }

    fn fail(&mut self) -> (r: MediaAction)
        ensures
            final(self).same_message(old(self)),
            final(self).stage == Stage::AwaitReply,
            old(self).is_reply(r, failure_text()),
    {
        self.stage = Stage::AwaitReply;
        MediaAction::Reply {
            conversation: self.conversation,
            reply_to: self.message_id,
            text: "Something went wrong. Please try again later.".to_owned(),
        }
    }
}

} // verus!

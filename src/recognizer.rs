//! The client side of the remote recognition service: the request address, the
//! interpretation of its responses, and the catalog of supported languages.

use vstd::prelude::*;
use crate::decimal::{append_nat_text, nat_text};
use vstd::utf8::{decode_utf8, valid_utf8};
use crate::text::utf8_to_string;

verus! {

/// A language that recognition supports.
#[derive(Debug)]
pub struct Language {
    /// The code sent to the service, such as `ru-RU`.
    pub code: String,
    /// The name shown to people.
    pub friendly_name: String,
}

/// The supported languages as (code, name) pairs, in the order in which they are offered.
pub open spec fn catalog() -> Seq<(Seq<char>, Seq<char>)> {
    seq![
        ("ru-RU"@, "Russian"@),
        ("en-US"@, "English"@),
        ("uk-UA"@, "Ukrainian"@),
        ("de-DE"@, "German"@),
    ]
}

/// The code used for a conversation that has chosen no language.
pub open spec fn default_code() -> Seq<char> {
    "ru-RU"@
}

/// The default language is in the catalog.
pub proof fn lemma_default_in_catalog()
    ensures
        exists|i: int| 0 <= i < catalog().len() && (#[trigger] catalog()[i]).0 == default_code(),
{
    assert(catalog()[0].0 == default_code());
}

fn language(code: &str, friendly_name: &str) -> (r: Language)
    ensures
        r.code@ == code@,
        r.friendly_name@ == friendly_name@,
{
    Language { code: code.to_owned(), friendly_name: friendly_name.to_owned() }
}

/// The supported languages, in catalog order.
pub fn supported_languages() -> (r: Vec<Language>)
    ensures
        r@.len() == catalog().len(),
        forall|i: int| 0 <= i < r@.len() ==> (#[trigger] r@[i]).code@ == catalog()[i].0
            && r@[i].friendly_name@ == catalog()[i].1,
{
    let mut v: Vec<Language> = Vec::new();
    v.push(language("ru-RU", "Russian"));
    v.push(language("en-US", "English"));
    v.push(language("uk-UA", "Ukrainian"));
    v.push(language("de-DE", "German"));
    v
}

/// The code of the default language.
pub fn default_language() -> (r: String)
    ensures
        r@ == default_code(),
{
    "ru-RU".to_owned()
}

/// A 2xx status.
pub open spec fn is_success_status(status: u16) -> bool {
    200 <= status <= 299
}

/// Why recognition failed.
#[derive(Debug, PartialEq, Eq)]
pub enum RecognitionError {
    /// The service could not be reached or the exchange broke off.
    Transport(String),
    /// The service answered with a 2xx status, but the body was not UTF-8 text.
    UndecodableBody,
    /// The service answered with this status other than 2xx, and a body that
    /// is not UTF-8 text.
    RejectedUndecodable { status: u16 },
    /// The service answered with a status other than 2xx, and this body.
    Rejected { status: u16, body: String },
}

impl RecognitionError {
    /// Human-readable description of the error.
    pub fn describe(&self) -> (r: String)
        ensures
            r@ == match self {
                RecognitionError::Transport(m) => "Transport error: "@ + m@,
                RecognitionError::UndecodableBody => "Response body is not UTF-8"@,
                RecognitionError::RejectedUndecodable { status } => "Api responded with status "@
                    + nat_text(*status as nat) + " and a body that is not UTF-8"@,
                RecognitionError::Rejected { status, body } => "Api responded with status "@
                    + nat_text(*status as nat) + " and body "@ + body@,
            },
    {
        let mut out = String::new();
        match self {
            RecognitionError::Transport(m) => {
                out.append("Transport error: ");
                out.append(m.as_str());
            },
            RecognitionError::UndecodableBody => {
                out.append("Response body is not UTF-8");
            },
            RecognitionError::RejectedUndecodable { status } => {
                out.append("Api responded with status ");
                append_nat_text(&mut out, *status as u64);
                out.append(" and a body that is not UTF-8");
            },
            RecognitionError::Rejected { status, body } => {
                out.append("Api responded with status ");
                append_nat_text(&mut out, *status as u64);
                out.append(" and body ");
                out.append(body.as_str());
            },
        }
        out
    }
}

/// Client of the recognition service at a fixed address.
pub struct Recognizer {
    uri: String,
}

impl Recognizer {
    /// The address of the service.
    pub closed spec fn uri(&self) -> Seq<char> {
        self.uri@
    }

    /// A client of the service at `recognizer_uri`.
    pub fn new(recognizer_uri: String) -> (r: Recognizer)
        ensures
            r.uri() == recognizer_uri@,
    {
        Recognizer { uri: recognizer_uri }
    }

    /// The address to post audio in `language` to: the service address with
    /// the language as its `lang` query parameter.
    pub fn request_uri(&self, language: &str) -> (r: String)
        ensures
            r@ == self.uri() + "?lang="@ + language@,
    {
        let mut out = self.uri.clone();
        out.append("?lang=");
        out.append(language);
        out
    }

    /// The transcript that a response with `status` and `body` carries: the body
    /// as text for a 2xx status, else a rejection that keeps the status and,
    /// when it is text, the body.
    pub fn interpret_response(status: u16, body: Vec<u8>) -> (r: Result<String, RecognitionError>)
        ensures
            is_success_status(status) && valid_utf8(body@) ==> r is Ok && r->Ok_0@ == decode_utf8(body@),
            is_success_status(status) && !valid_utf8(body@) ==> r is Err && r->Err_0 is UndecodableBody,
            !is_success_status(status) && valid_utf8(body@) ==> match r {
                Err(RecognitionError::Rejected { status: s, body: b }) => s == status && b@ == decode_utf8(body@),
                _ => false,
            },
            !is_success_status(status) && !valid_utf8(body@) ==> r == Err::<String, RecognitionError>(
                RecognitionError::RejectedUndecodable { status },
            ),
    {
        let text = utf8_to_string(&body);
        if 200 <= status && status <= 299 {
            match text {
                Some(t) => Ok(t),
                None => Err(RecognitionError::UndecodableBody),
            }
        } else {
            match text {
                Some(t) => Err(RecognitionError::Rejected { status, body: t }),
                None => Err(RecognitionError::RejectedUndecodable { status }),
            }
        }
    }
}

} // verus!

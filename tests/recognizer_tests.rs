use recognition_bot::recognizer::{default_language, supported_languages, RecognitionError, Recognizer};

#[test]
fn rejection_carries_status_and_body() {
    let r = Recognizer::interpret_response(503, b"overloaded".to_vec());
    assert_eq!(r, Err(RecognitionError::Rejected { status: 503, body: "overloaded".to_string() }));
    assert_eq!(r.unwrap_err().describe(), "Api responded with status 503 and body overloaded");
}

#[test]
fn success_body_is_the_transcript() {
    assert_eq!(Recognizer::interpret_response(200, "привет мир".as_bytes().to_vec()), Ok("привет мир".to_string()));
    assert_eq!(Recognizer::interpret_response(204, vec![]), Ok(String::new()));
    assert_eq!(
        Recognizer::interpret_response(300, b"moved".to_vec()),
        Err(RecognitionError::Rejected { status: 300, body: "moved".to_string() })
    );
}

#[test]
fn undecodable_body_is_its_own_error() {
    assert_eq!(Recognizer::interpret_response(200, vec![0xc3]), Err(RecognitionError::UndecodableBody));
    assert_eq!(RecognitionError::Transport("refused".to_string()).describe(), "Transport error: refused");
}

#[test]
fn request_carries_language() {
    let r = Recognizer::new("http://asr.local/recognize".to_string());
    assert_eq!(r.request_uri("en-US"), "http://asr.local/recognize?lang=en-US");
}

#[test]
fn catalog_is_fixed_and_holds_default() {
    let langs = supported_languages();
    let codes: Vec<&str> = langs.iter().map(|l| l.code.as_str()).collect();
    assert_eq!(codes, vec!["ru-RU", "en-US", "uk-UA", "de-DE"]);
    assert_eq!(langs[1].friendly_name, "English");
    assert!(codes.contains(&default_language().as_str()));
}

#[test]
fn rejection_keeps_status_when_body_is_not_text() {
    let r = Recognizer::interpret_response(502, vec![0xff, 0x00]);
    assert_eq!(r, Err(RecognitionError::RejectedUndecodable { status: 502 }));
    assert_eq!(r.unwrap_err().describe(), "Api responded with status 502 and a body that is not UTF-8");
}

use recognition_bot::media::{convert, transcoder_args, transcoder_program, ConvertError, MediaKind, TranscoderOutput};

#[test]
fn successful_run_yields_stdout() {
    let out = TranscoderOutput { exit_success: true, stdout: vec![82, 73, 70, 70], stderr: b"warn".to_vec() };
    assert_eq!(convert(out), Ok(vec![82, 73, 70, 70]));
}

#[test]
fn failed_run_is_a_transcode_error_with_its_message() {
    let out = TranscoderOutput { exit_success: false, stdout: vec![1, 2], stderr: b"Invalid data found".to_vec() };
    let err = convert(out).unwrap_err();
    assert_eq!(err, ConvertError::Transcoder("Invalid data found".to_string()));
    assert_eq!(err.describe(), "Transcoder error: Invalid data found");
}

#[test]
fn failed_run_with_binary_diagnostics() {
    let out = TranscoderOutput { exit_success: false, stdout: vec![], stderr: vec![0xff, 0xfe] };
    assert_eq!(convert(out), Err(ConvertError::UnreadableDiagnostics));
}

#[test]
fn transcoder_invocation_is_fixed() {
    assert_eq!(transcoder_program(), "avconv");
    assert_eq!(
        transcoder_args("/tmp/x.oga"),
        vec!["-i", "/tmp/x.oga", "-vn", "-acodec", "pcm_s16le", "-ac", "1", "-ar", "16000", "-f", "wav", "pipe:"]
    );
}

#[test]
fn suffix_follows_kind() {
    assert_eq!(MediaKind::Ogg(vec![1]).file_suffix(), ".oga");
    assert_eq!(MediaKind::Mp4(vec![1]).file_suffix(), "mp4");
    assert_eq!(MediaKind::Mp4(vec![7, 8]).bytes(), &vec![7u8, 8]);
}

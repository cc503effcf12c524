use mimo_asr::audio::{AudioSource, PreparedAudio, SpeechContainer};
use mimo_asr::client::{is_success, MimoTranscriptionClient, Reply, Transcription};
use mimo_asr::error::AsrError;
use mimo_asr::request::AsrConfig;
use mimo_asr::response::{JsonValue, MimoAsrResponse, MimoChoice, MimoResponseMessage};

fn client(valid: bool) -> MimoTranscriptionClient {
    MimoTranscriptionClient::new(AsrConfig {
        mimo_api_key: "secret".to_string(),
        mimo_base_url: "https://h/v1/".to_string(),
        mimo_model: "m".to_string(),
        mimo_language: "".to_string(),
        valid,
    })
}

fn outcome(t: Transcription) -> Result<String, AsrError> {
    match t {
        Transcription::Finished { outcome } => outcome,
        other => panic!("not finished: {:?}", other),
    }
}

fn connection_message(t: Transcription) -> String {
    match outcome(t) {
        Err(AsrError::ConnectionFailed(m)) => m,
        other => panic!("{:?}", other),
    }
}

#[test]
fn invalid_settings_end_at_once() {
    let t = client(false).transcribe_file("a.mp3");
    assert_eq!(connection_message(t), "Invalid MiMo ASR configuration");
    assert!(!client(false).config().is_valid());
}

#[test]
fn a_run_reaches_its_transcript() {
    let client = client(true);
    let source = match client.transcribe_file("/rec/a.MP3") {
        Transcription::LoadAudio { source } => source,
        other => panic!("{:?}", other),
    };
    let audio = match client.audio_loaded(source, Ok(b"foo".to_vec()), SpeechContainer::Mp3) {
        Transcription::AudioReady { audio } => audio,
        other => panic!("{:?}", other),
    };
    assert_eq!(audio.mime_type, "audio/mpeg");
    let call = match client.audio_ready(&audio) {
        Transcription::SendRequest { call } => call,
        other => panic!("{:?}", other),
    };
    assert_eq!(call.endpoint, "https://h/v1/chat/completions");
    assert_eq!(call.api_key, "secret");
    assert_eq!(call.request.asr_options.language, "auto");
    let body = match client.replied(Reply::Received { status: 200, body: vec![1, 2] }) {
        Transcription::ParseReply { body } => body,
        other => panic!("{:?}", other),
    };
    assert_eq!(body, vec![1, 2]);
    let response = MimoAsrResponse {
        choices: Some(vec![MimoChoice {
            message: Some(MimoResponseMessage {
                content: Some(JsonValue::String(" done ".to_string())),
            }),
            finish_reason: Some("stop".to_string()),
        }]),
        error: None,
    };
    assert_eq!(outcome(client.reply_parsed(Ok(response))).unwrap(), "done");
}

#[test]
fn start_follows_the_extension() {
    for (path, ogg) in [("x.opus", true), ("x.OGG", true), ("x.wav", false)] {
        match client(true).transcribe_file(path) {
            Transcription::LoadAudio { source } => {
                assert_eq!(matches!(source, AudioSource::OggOpus), ogg)
            }
            other => panic!("{:?}", other),
        }
    }
    assert!(matches!(
        client(true).start(Some("wav")),
        Transcription::LoadAudio { source: AudioSource::Wav }
    ));
}

#[test]
fn loading_errors_end_the_run() {
    let t = client(true).audio_loaded(AudioSource::Wav, Err("gone".to_string()), SpeechContainer::Mp3);
    assert_eq!(connection_message(t), "Failed to read audio file: gone");
    let prepared = client(true).audio_prepared(Ok(PreparedAudio {
        mime_type: "audio/wav",
        bytes: vec![],
    }));
    assert!(matches!(prepared, Transcription::AudioReady { .. }));
}

#[test]
fn connection_errors_tell_how_long_it_took() {
    let unsent = Reply::Unsent { elapsed: "1.5s".to_string(), error: "refused".to_string() };
    assert_eq!(
        connection_message(client(true).replied(unsent)),
        "MiMo request failed after 1.5s: refused"
    );
    let lost = Reply::Lost { elapsed: "2s".to_string(), error: "reset".to_string() };
    assert_eq!(
        connection_message(client(true).replied(lost)),
        "Failed to read MiMo response after 2s: reset"
    );
}

#[test]
fn failing_status_is_quoted_with_its_body() {
    let cases: [(u16, &[u8], &str); 5] = [
        (500, b"oops", "MiMo HTTP 500: oops"),
        (401, "无效".as_bytes(), "MiMo HTTP 401: 无效"),
        (99, b"", "MiMo HTTP 99: "),
        (300, b"a\xffb", "MiMo HTTP 300: a\u{fffd}b"),
        (0, b"x", "MiMo HTTP 0: x"),
    ];
    for (status, body, expected) in cases {
        let t = client(true).replied(Reply::Received { status, body: body.to_vec() });
        match outcome(t) {
            Err(AsrError::ServerError(m)) => assert_eq!(m, expected),
            other => panic!("{:?}", other),
        }
    }
}

#[test]
fn success_is_a_status_in_the_two_hundreds() {
    for status in 0..=1000u16 {
        assert_eq!(is_success(status), (200..300).contains(&status));
    }
}

#[test]
fn unparsable_reply_is_reported() {
    match outcome(client(true).reply_parsed(Err("expected value".to_string()))) {
        Err(AsrError::ProtocolError(m)) => {
            assert_eq!(m, "Invalid MiMo response JSON: expected value")
        }
        other => panic!("{:?}", other),
    }
}

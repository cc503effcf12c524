use mimo_asr::audio::PreparedAudio;
use mimo_asr::request::{
    can_send, data_uri, endpoint, normalize_language, transcription_call, AsrConfig,
    MAX_COMPLETION_TOKENS, REQUEST_TIMEOUT_SECS,
};

fn config(base_url: &str, language: &str) -> AsrConfig {
    AsrConfig {
        mimo_api_key: "key".to_string(),
        mimo_base_url: base_url.to_string(),
        mimo_model: "mimo-v2.5-asr".to_string(),
        mimo_language: language.to_string(),
        valid: true,
    }
}

fn audio(bytes: &[u8]) -> PreparedAudio {
    PreparedAudio { mime_type: "audio/mpeg", bytes: bytes.to_vec() }
}

#[test]
fn blank_language_defaults_to_auto() {
    assert_eq!(normalize_language("  "), "auto");
    assert_eq!(normalize_language("zh"), "zh");
}

#[test]
fn language_is_trimmed() {
    assert_eq!(normalize_language(" \t zh-CN \u{3000}\n"), "zh-CN");
    assert_eq!(normalize_language("a b"), "a b");
    assert_eq!(normalize_language(""), "auto");
    assert_eq!(normalize_language(&normalize_language("  en ")), "en");
}

#[test]
fn white_space_is_the_unicode_property() {
    let white: Vec<u32> = (0x9..=0xd)
        .chain([0x20, 0x85, 0xa0, 0x1680])
        .chain(0x2000..=0x200a)
        .chain([0x2028, 0x2029, 0x202f, 0x205f, 0x3000])
        .collect();
    for c in '\0'..=char::MAX {
        let blank = normalize_language(&c.to_string()) == "auto";
        assert_eq!(blank, white.contains(&(c as u32)), "{:?}", c);
    }
}

#[test]
fn endpoint_ignores_trailing_slashes() {
    let expected = "https://api.example.com/v1/chat/completions";
    assert_eq!(endpoint("https://api.example.com/v1"), expected);
    assert_eq!(endpoint("https://api.example.com/v1/"), expected);
    assert_eq!(endpoint("https://api.example.com/v1///"), expected);
    assert_eq!(endpoint(""), "/chat/completions");
    assert_eq!(endpoint("//"), "/chat/completions");
}

#[test]
fn audio_is_encoded_in_standard_base64() {
    let cases: [(&[u8], &str); 7] = [
        (b"", ""),
        (b"f", "Zg=="),
        (b"fo", "Zm8="),
        (b"foo", "Zm9v"),
        (b"foob", "Zm9vYg=="),
        (&[0xfb, 0xff, 0xfe], "+//+"),
        (&[0, 0x10, 0x83, 0x10, 0x51, 0x87], "ABCDEFGH"),
    ];
    for (bytes, text) in cases {
        assert_eq!(data_uri(&audio(bytes)), format!("data:audio/mpeg;base64,{}", text));
    }
}

#[test]
fn different_audio_has_different_uris() {
    let mut seen = Vec::new();
    for a in 0..=255u8 {
        seen.push(data_uri(&audio(&[a])));
        seen.push(data_uri(&audio(&[a, 0])));
        seen.push(data_uri(&audio(&[0, 0, a])));
    }
    let count = seen.len();
    seen.sort();
    seen.dedup();
    assert_eq!(seen.len(), count);
}

#[test]
fn ordinary_audio_can_be_sent() {
    assert!(can_send(&audio(&[0; 1000])));
}

#[test]
fn request_holds_audio_and_options() {
    let call = transcription_call(&config("https://h/v1/", " zh "), &audio(b"foo"));
    assert_eq!(call.endpoint, "https://h/v1/chat/completions");
    assert_eq!(call.api_key, "key");
    assert_eq!(call.request.model, "mimo-v2.5-asr");
    assert_eq!(call.request.max_tokens, 4096);
    assert_eq!(call.request.asr_options.language, "zh");
    assert_eq!(call.request.messages.len(), 1);
    assert_eq!(call.request.messages[0].role, "user");
    assert_eq!(call.request.messages[0].content.len(), 1);
    let part = &call.request.messages[0].content[0];
    assert_eq!(part.part_type, "input_audio");
    assert_eq!(part.input_audio.data, "data:audio/mpeg;base64,Zm9v");
}

#[test]
fn limits_are_those_of_the_service() {
    assert_eq!(MAX_COMPLETION_TOKENS, 4096);
    assert_eq!(REQUEST_TIMEOUT_SECS, 120);
    assert!(config("", "").is_valid());
}

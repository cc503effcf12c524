use mimo_asr::audio::{
    audio_source, encode_pcm16_mono_16k, extension, lowered, mime_type_for_path, mp3_audio,
    prepare_audio, AudioSource, SpeechContainer,
};
use mimo_asr::error::AsrError;
use mimo_asr::mp3::pcm16_mono_16k_to_mp3;
use mimo_asr::wav::pcm16_mono_16k_to_wav;

fn ext(path: &str) -> Option<String> {
    extension(path)
}

#[test]
fn extension_is_lowered() {
    assert_eq!(ext("a.wav").as_deref(), Some("wav"));
    assert_eq!(ext("/tmp/rec/Voice.OPUS").as_deref(), Some("opus"));
    assert_eq!(ext("a.b.Mp3").as_deref(), Some("mp3"));
    assert_eq!(ext("录音.WAV").as_deref(), Some("wav"));
    assert_eq!(ext("x.Ä").as_deref(), Some("Ä"));
    assert_eq!(ext("dir.d/trailing.").as_deref(), Some(""));
    assert_eq!(ext("...").as_deref(), Some(""));
    assert_eq!(ext("12:30.ogg").as_deref(), Some("ogg"));
}

#[test]
fn some_paths_have_no_extension() {
    for path in ["", "wav", "dir.d/file", "/tmp/.wav", "..", "a/..", ".hidden", "/"] {
        assert_eq!(ext(path), None, "{}", path);
    }
    for path in [".", "./", "./.", "/.", "../", "a.wav/..", "dir.d/file/", ".hidden/"] {
        assert_eq!(ext(path), None, "{}", path);
    }
}

#[test]
fn no_dot_is_no_extension() {
    for path in ["C:\\rec\\note", "C:", "\\\\s\\d", "//s/d", "//s/d/note", "a:b/c\\d"] {
        assert_eq!(ext(path), None, "{}", path);
        assert_eq!(mime_type_for_path(path), "application/octet-stream", "{}", path);
    }
}

#[test]
fn files_below_a_share_have_their_extension() {
    for path in ["\\\\s\\d\\a.Wav", "//s/d/a.wav", "\\\\nas.local\\d.x\\e\\a.b.wav", "//s/d/a.wav/."] {
        assert_eq!(ext(path).as_deref(), Some("wav"), "{}", path);
        assert_eq!(mime_type_for_path(path), "audio/wav", "{}", path);
    }
    assert_eq!(ext("//s/d/.hidden"), None);
}

#[test]
fn end_slashes_are_ignored() {
    for path in ["a.Wav", "a.wav/", "a.wav//", "/tmp/a.wav/.", "a.wav/./", "d/a.wav/.//."] {
        assert_eq!(ext(path).as_deref(), Some("wav"), "{}", path);
    }
}

#[test]
fn found_extensions_are_lowered() {
    assert_eq!(lowered(None), None);
    assert_eq!(lowered(Some(String::new())).as_deref(), Some(""));
    assert_eq!(lowered(Some("MpGa".to_string())).as_deref(), Some("mpga"));
    assert_eq!(lowered(Some("ÄZ[@".to_string())).as_deref(), Some("Äz[@"));
}

#[test]
fn media_types_follow_the_extension() {
    let cases = [
        ("a.wav", "audio/wav"),
        ("a.mp3", "audio/mpeg"),
        ("a.mpeg", "audio/mpeg"),
        ("a.MPGA", "audio/mpeg"),
        ("a.flac", "audio/flac"),
        ("a.m4a", "audio/mp4"),
        ("a.mp4", "audio/mp4"),
        ("a.ogg", "audio/ogg"),
        ("a.opus", "audio/ogg"),
        ("a.webm", "application/octet-stream"),
        ("a", "application/octet-stream"),
    ];
    for (path, expected) in cases {
        assert_eq!(mime_type_for_path(path), expected, "{}", path);
    }
}

#[test]
fn sources_follow_the_extension() {
    assert!(matches!(audio_source(Some("opus")), AudioSource::OggOpus));
    assert!(matches!(audio_source(Some("ogg")), AudioSource::OggOpus));
    assert!(matches!(audio_source(Some("wav")), AudioSource::Wav));
    for (e, expected) in [
        (Some("mp3"), "audio/mpeg"),
        (Some("mpeg"), "audio/mpeg"),
        (Some("mpga"), "audio/mpeg"),
        (Some("flac"), "audio/flac"),
        (Some("m4a"), "audio/mp4"),
        (Some("txt"), "application/octet-stream"),
        (None, "application/octet-stream"),
    ] {
        match audio_source(e) {
            AudioSource::AsIs { mime_type } => assert_eq!(mime_type, expected),
            other => panic!("{:?} for {:?}", other, e),
        }
    }
}

#[test]
fn speech_is_encoded_to_its_container() {
    let pcm: Vec<u8> = (0..16_000u32).flat_map(|i| ((i % 100) as i16).to_le_bytes()).collect();
    let wav = encode_pcm16_mono_16k(&pcm, SpeechContainer::Wav).unwrap();
    assert_eq!(wav.mime_type, "audio/wav");
    assert_eq!(wav.bytes, pcm16_mono_16k_to_wav(&pcm));
    let mp3 = encode_pcm16_mono_16k(&pcm, SpeechContainer::Mp3).unwrap();
    assert_eq!(mp3.mime_type, "audio/mpeg");
    assert_eq!(mp3.bytes, pcm16_mono_16k_to_mp3(&pcm).unwrap());
}

#[test]
fn mp3_audio_keeps_errors() {
    match mp3_audio(Err(AsrError::ProtocolError("p".to_string()))) {
        Err(AsrError::ProtocolError(m)) => assert_eq!(m, "p"),
        other => panic!("{:?}", other),
    }
    assert_eq!(mp3_audio(Ok(vec![1])).unwrap().bytes, vec![1]);
}

#[test]
fn decoder_errors_are_handed_on() {
    let failed = prepare_audio(AudioSource::OggOpus, Err("broken".to_string()), SpeechContainer::Wav);
    match failed {
        Err(AsrError::ProtocolError(m)) => assert_eq!(m, "broken"),
        other => panic!("{:?}", other),
    }
    match prepare_audio(AudioSource::OggOpus, Ok(vec![]), SpeechContainer::Wav) {
        Err(AsrError::ProtocolError(m)) => assert_eq!(m, "音频文件解码后为空"),
        other => panic!("{:?}", other),
    }
}

#[test]
fn read_errors_are_reported() {
    for source in [AudioSource::Wav, AudioSource::AsIs { mime_type: "audio/flac" }] {
        match prepare_audio(source, Err("no such file".to_string()), SpeechContainer::Mp3) {
            Err(AsrError::ConnectionFailed(m)) => {
                assert_eq!(m, "Failed to read audio file: no such file")
            }
            other => panic!("{:?}", other),
        }
    }
}

#[test]
fn unreadable_wav_is_not_prepared() {
    let r = prepare_audio(AudioSource::Wav, Ok(b"not a wav".to_vec()), SpeechContainer::Wav);
    match r {
        Err(AsrError::ProtocolError(m)) => {
            assert_eq!(m, "MiMo WAV fallback: not a RIFF/WAVE file")
        }
        other => panic!("{:?}", other),
    }
}

#[test]
fn decoded_and_read_speech_is_encoded() {
    let pcm = vec![1u8, 0, 2, 0];
    let wav = pcm16_mono_16k_to_wav(&pcm);
    let ogg = prepare_audio(AudioSource::OggOpus, Ok(pcm), SpeechContainer::Wav).unwrap();
    assert_eq!(ogg.bytes, wav);
    let again = prepare_audio(AudioSource::Wav, Ok(wav.clone()), SpeechContainer::Wav).unwrap();
    assert_eq!(again.mime_type, "audio/wav");
    assert_eq!(again.bytes, wav);
}

#[test]
fn other_files_are_sent_as_they_are() {
    let source = audio_source(Some("flac"));
    let audio = prepare_audio(source, Ok(vec![1, 2, 3]), SpeechContainer::Mp3).unwrap();
    assert_eq!(audio.mime_type, "audio/flac");
    assert_eq!(audio.bytes, vec![1, 2, 3]);
}

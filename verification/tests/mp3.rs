use mimo_asr::error::AsrError;
use mimo_asr::mp3::{
    after_build, after_encode, after_flush, after_new, after_setting, mp3_outcome,
    pcm16_mono_16k_to_mp3, refused, Mp3Failure,
};
use mp3lame_encoder::{BuildError, Builder, EncodeError};

fn tone(seconds: usize) -> Vec<u8> {
    (0..16_000 * seconds)
        .flat_map(|i| (((i % 80) as i16 - 40) * 300).to_le_bytes())
        .collect()
}

#[test]
fn mp3_encoding_is_smaller_than_pcm_and_nonempty() {
    // 1s of 16 kHz mono PCM (a quiet sine-ish ramp is fine for a size check).
    let pcm: Vec<u8> = (0..16_000)
        .flat_map(|i| ((i as i16).wrapping_mul(7)).to_le_bytes())
        .collect();
    let mp3 = pcm16_mono_16k_to_mp3(&pcm).unwrap();
    assert!(!mp3.is_empty());
    assert!(mp3.len() < pcm.len(), "MP3 should be smaller than raw PCM");
}

#[test]
fn mp3_is_a_stream_of_speech_frames() {
    let mp3 = pcm16_mono_16k_to_mp3(&tone(2)).unwrap();
    // MPEG-2 layer III without CRC, 48 kbit/s at 16 kHz, mono.
    assert_eq!(mp3[0], 0xff);
    assert_eq!(mp3[1] & 0xfe, 0xf2);
    assert_eq!(mp3[2] >> 4, 6);
    assert_eq!((mp3[2] >> 2) & 3, 2);
    assert_eq!(mp3[3] >> 6, 3);
}

#[test]
fn mp3_grows_by_48_kilobits_a_second() {
    let short = pcm16_mono_16k_to_mp3(&tone(10)).unwrap().len();
    let long = pcm16_mono_16k_to_mp3(&tone(20)).unwrap().len();
    let grown = long - short;
    assert!((59_000..=61_000).contains(&grown), "grew by {}", grown);
}

#[test]
fn odd_byte_is_not_encoded() {
    let mut pcm = tone(1);
    let whole = pcm16_mono_16k_to_mp3(&pcm).unwrap();
    pcm.push(9);
    assert_eq!(pcm16_mono_16k_to_mp3(&pcm).unwrap(), whole);
}

#[test]
fn no_samples_encode_without_error() {
    assert!(pcm16_mono_16k_to_mp3(&[]).is_ok());
}

#[test]
fn failures_are_reported() {
    let cases = [
        (Mp3Failure::NoBuilder, "Failed to create MP3 encoder"),
        (Mp3Failure::Setup("bad bitrate".to_string()), "MP3 encoder setup failed: bad bitrate"),
        (Mp3Failure::Encode("alloc failure".to_string()), "MP3 encode failed: alloc failure"),
        (Mp3Failure::Flush("error code=-6".to_string()), "MP3 flush failed: error code=-6"),
    ];
    for (failure, expected) in cases {
        match mp3_outcome(Err(failure)) {
            Err(AsrError::ProtocolError(m)) => assert_eq!(m, expected),
            other => panic!("unexpected {:?}", other),
        }
    }
    assert_eq!(mp3_outcome(Ok(vec![1, 2])).unwrap(), vec![1, 2]);
}

fn message(r: Result<Vec<u8>, Mp3Failure>) -> String {
    match mp3_outcome(r) {
        Err(AsrError::ProtocolError(m)) => m,
        other => panic!("unexpected {:?}", other),
    }
}

#[test]
fn missing_builder_is_a_failure() {
    assert!(matches!(after_new(None), Err(Mp3Failure::NoBuilder)));
    assert!(after_new(Builder::new()).is_ok());
}

#[test]
fn refused_settings_are_setup_failures() {
    assert!(after_setting(Ok(())).is_ok());
    let f = after_setting(Err(BuildError::BadBRate)).unwrap_err();
    assert_eq!(message(Err(f)), "MP3 encoder setup failed: bad bitrate");
    let f = refused(BuildError::Other(-7));
    assert_eq!(message(Err(f)), "MP3 encoder setup failed: error code=-7");
}

#[test]
fn refused_build_is_a_setup_failure() {
    match after_build(Err(BuildError::NoMem)) {
        Err(f) => assert_eq!(message(Err(f)), "MP3 encoder setup failed: alloc failure"),
        Ok(_) => panic!("expected a failure"),
    }
    let built = Builder::new().unwrap().build();
    assert!(after_build(built).is_ok());
}

#[test]
fn refused_samples_are_encode_failures() {
    assert_eq!(after_encode(Ok(vec![1, 2])).unwrap(), vec![1, 2]);
    let cause = EncodeError::NoMem;
    let expected = format!("MP3 encode failed: {}", cause);
    assert_eq!(message(after_encode(Err(cause))), expected);
}

#[test]
fn flushed_bytes_follow_encoded_bytes() {
    assert_eq!(after_flush(vec![1, 2], Ok(vec![3])).unwrap(), vec![1, 2, 3]);
    assert_eq!(after_flush(vec![1, 2], Ok(vec![])).unwrap(), vec![1, 2]);
    let cause = EncodeError::BufferTooSmall;
    let expected = format!("MP3 flush failed: {}", cause);
    assert_eq!(message(after_flush(vec![1, 2], Err(cause))), expected);
}

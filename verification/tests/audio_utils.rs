use mimo_asr::audio_utils::{downmix_to_mono, resample_to_16k};
use mimo_asr::pcm::{decode_samples, push_le16, push_le32, read_le16, read_le32};

fn pcm_of(samples: &[i16]) -> Vec<u8> {
    samples.iter().flat_map(|s| s.to_le_bytes()).collect()
}

#[test]
fn samples_are_little_endian() {
    let pcm = pcm_of(&[0, 1, -1, 256, i16::MIN, i16::MAX]);
    assert_eq!(decode_samples(&pcm), vec![0, 1, -1, 256, i16::MIN, i16::MAX]);
    assert_eq!(decode_samples(&[1, 2, 3]), vec![513]);
    assert_eq!(decode_samples(&[]), Vec::<i16>::new());
}

#[test]
fn numbers_are_little_endian() {
    let mut out = vec![7u8];
    push_le16(&mut out, 0x1234);
    push_le32(&mut out, 0xdead_beef);
    assert_eq!(out, vec![7, 0x34, 0x12, 0xef, 0xbe, 0xad, 0xde]);
    assert_eq!(read_le16(&out, 1), 0x1234);
    assert_eq!(read_le32(&out, 3), 0xdead_beef);
}

#[test]
fn mean_rounds_toward_zero() {
    assert_eq!(downmix_to_mono(&pcm_of(&[1, 2, -1, -2]), 2), pcm_of(&[1, -1]));
    assert_eq!(downmix_to_mono(&pcm_of(&[10, 20, 31]), 3), pcm_of(&[20]));
    assert_eq!(
        downmix_to_mono(&pcm_of(&[i16::MIN, i16::MIN, i16::MAX, i16::MAX]), 2),
        pcm_of(&[i16::MIN, i16::MAX])
    );
}

#[test]
fn mono_and_equal_channels_are_kept() {
    let mono = [3i16, -4, 500, -32768];
    assert_eq!(downmix_to_mono(&pcm_of(&mono), 1), pcm_of(&mono));
    for channels in [2usize, 3, 8] {
        let wide: Vec<i16> = mono.iter().flat_map(|s| vec![*s; channels]).collect();
        assert_eq!(downmix_to_mono(&pcm_of(&wide), channels as u16), pcm_of(&mono));
    }
}

#[test]
fn partial_frame_is_dropped() {
    assert_eq!(downmix_to_mono(&pcm_of(&[1, 3, 100]), 2), pcm_of(&[2]));
    assert_eq!(downmix_to_mono(&[1, 0, 3, 0, 9], 2), pcm_of(&[2]));
}

#[test]
fn target_rate_is_kept() {
    let pcm = pcm_of(&[3, -4, 500, -32768, 32767]);
    assert_eq!(resample_to_16k(&pcm, 16_000), pcm);
}

#[test]
fn downsampling_takes_every_third() {
    let pcm = pcm_of(&[0, 1, 2, 30, 4, 5, -60, 7, 8, 9]);
    assert_eq!(resample_to_16k(&pcm, 48_000), pcm_of(&[0, 30, -60]));
}

#[test]
fn upsampling_interpolates() {
    let pcm = pcm_of(&[0, 10, -10]);
    assert_eq!(resample_to_16k(&pcm, 8_000), pcm_of(&[0, 5, 10, 0, -10, -10]));
    // Between 10 and -5, a quarter of the way on: 6.25, 2.5, -1.25.
    let pcm = pcm_of(&[10, -5]);
    assert_eq!(
        resample_to_16k(&pcm, 4_000),
        pcm_of(&[10, 6, 2, -1, -5, -5, -5, -5])
    );
}

#[test]
fn constant_audio_stays_constant() {
    for rate in [8_000u32, 11_025, 22_050, 44_100, 96_000] {
        let out = resample_to_16k(&pcm_of(&[-777; 500]), rate);
        assert_eq!(out.len() / 2, 500 * 16_000 / rate as usize);
        assert!(decode_samples(&out).iter().all(|s| *s == -777));
    }
}

#[test]
fn unknown_rate_leaves_audio_alone() {
    assert_eq!(resample_to_16k(&[1, 2, 3], 0), vec![1, 2, 3]);
}

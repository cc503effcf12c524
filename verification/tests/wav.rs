use mimo_asr::error::AsrError;
use mimo_asr::wav::{pcm16_mono_16k_to_wav, read_wav, wav_to_pcm16_mono_16k};

fn wav_bytes(sample_rate: u32, channels: u16, pcm: &[u8]) -> Vec<u8> {
    let bits = 16u16;
    let byte_rate = sample_rate * channels as u32 * (bits as u32 / 8);
    let block_align = channels * (bits / 8);
    let mut wav = Vec::new();
    wav.extend_from_slice(b"RIFF");
    wav.extend_from_slice(&(36 + pcm.len() as u32).to_le_bytes());
    wav.extend_from_slice(b"WAVE");
    wav.extend_from_slice(b"fmt ");
    wav.extend_from_slice(&16u32.to_le_bytes());
    wav.extend_from_slice(&1u16.to_le_bytes());
    wav.extend_from_slice(&channels.to_le_bytes());
    wav.extend_from_slice(&sample_rate.to_le_bytes());
    wav.extend_from_slice(&byte_rate.to_le_bytes());
    wav.extend_from_slice(&block_align.to_le_bytes());
    wav.extend_from_slice(&bits.to_le_bytes());
    wav.extend_from_slice(b"data");
    wav.extend_from_slice(&(pcm.len() as u32).to_le_bytes());
    wav.extend_from_slice(pcm);
    wav
}

fn pcm_of(samples: &[i16]) -> Vec<u8> {
    samples.iter().flat_map(|s| s.to_le_bytes()).collect()
}

fn protocol_message(r: Result<Vec<u8>, AsrError>) -> String {
    match r {
        Err(AsrError::ProtocolError(m)) => m,
        other => panic!("expected a protocol error, got {:?}", other),
    }
}

#[test]
fn wav_parser_downsamples_48k_mono_to_16k() {
    // 0.5s of 48 kHz mono => expect ~0.5s of 16 kHz mono (a third of samples).
    let pcm: Vec<u8> = vec![0u8; 48_000 /* samples */ * 2 /* bytes */];
    let wav = wav_bytes(48_000, 1, &pcm);
    let out = wav_to_pcm16_mono_16k(&wav).unwrap();
    let out_samples = out.len() / 2;
    assert!(
        (15_500..=16_500).contains(&out_samples),
        "expected ~16000 samples, got {}",
        out_samples
    );
}

#[test]
fn wav_parser_rejects_non_pcm16() {
    let wav = wav_bytes(16_000, 1, &[0u8; 4]);
    // Corrupt bits-per-sample to 8.
    let mut broken = wav.clone();
    // fmt body starts at offset 20; bits-per-sample is 14 bytes in => offset 34.
    broken[34] = 8;
    broken[35] = 0;
    assert!(wav_to_pcm16_mono_16k(&broken).is_err());
}

#[test]
fn rejected_bit_depth_is_named() {
    let mut broken = wav_bytes(16_000, 1, &[0u8; 4]);
    broken[34] = 24;
    assert_eq!(
        protocol_message(wav_to_pcm16_mono_16k(&broken)),
        "MiMo WAV fallback: only 16-bit PCM is supported, got 24-bit"
    );
}

#[test]
fn other_files_are_not_read() {
    let expected = "MiMo WAV fallback: not a RIFF/WAVE file";
    assert_eq!(protocol_message(wav_to_pcm16_mono_16k(b"")), expected);
    assert_eq!(protocol_message(wav_to_pcm16_mono_16k(b"RIFF....WAV")), expected);
    assert_eq!(protocol_message(wav_to_pcm16_mono_16k(b"RIFX....WAVE")), expected);
    assert_eq!(protocol_message(wav_to_pcm16_mono_16k(b"RIFF....WAVX")), expected);
}

#[test]
fn file_without_data_is_reported() {
    let wav = wav_bytes(16_000, 1, &[]);
    assert_eq!(
        protocol_message(wav_to_pcm16_mono_16k(&wav[..36])),
        "MiMo WAV fallback: missing data chunk"
    );
    // An empty data chunk is data.
    assert_eq!(wav_to_pcm16_mono_16k(&wav).unwrap(), Vec::<u8>::new());
}

#[test]
fn written_header_is_canonical() {
    let pcm = pcm_of(&[1, -1, 300]);
    assert_eq!(pcm16_mono_16k_to_wav(&pcm), wav_bytes(16_000, 1, &pcm));
    assert_eq!(pcm16_mono_16k_to_wav(&[]).len(), 44);
}

#[test]
fn written_file_reads_back() {
    for n in [0usize, 1, 2, 3, 7, 1000] {
        let pcm: Vec<u8> = (0..n).map(|i| (i * 37 % 251) as u8).collect();
        assert_eq!(wav_to_pcm16_mono_16k(&pcm16_mono_16k_to_wav(&pcm)).unwrap(), pcm);
    }
}

#[test]
fn stereo_is_mixed_down() {
    let wav = wav_bytes(16_000, 2, &pcm_of(&[100, 200, -5, -2, 32767, 32767, 7]));
    assert_eq!(wav_to_pcm16_mono_16k(&wav).unwrap(), pcm_of(&[150, -3, 32767]));
}

#[test]
fn stereo_48k_is_mixed_down_and_resampled() {
    let stereo: Vec<i16> = (0..12).flat_map(|i| [i * 10, i * 10 + 2]).collect();
    let wav = wav_bytes(48_000, 2, &pcm_of(&stereo));
    assert_eq!(wav_to_pcm16_mono_16k(&wav).unwrap(), pcm_of(&[1, 31, 61, 91]));
}

#[test]
fn unknown_chunk_is_skipped() {
    let pcm = pcm_of(&[5, 6]);
    let plain = wav_bytes(16_000, 1, &pcm);
    for body in [&b"even"[..], &b"odd"[..], &b""[..]] {
        let mut wav = plain[..12].to_vec();
        wav.extend_from_slice(b"LIST");
        wav.extend_from_slice(&(body.len() as u32).to_le_bytes());
        wav.extend_from_slice(body);
        if body.len() % 2 == 1 {
            wav.push(0);
        }
        wav.extend_from_slice(&plain[12..]);
        assert_eq!(wav_to_pcm16_mono_16k(&wav).unwrap(), pcm);
    }
}

#[test]
fn data_cut_short_is_kept() {
    let wav = wav_bytes(16_000, 1, &pcm_of(&[1, 2, 3, 4]));
    assert_eq!(wav_to_pcm16_mono_16k(&wav[..wav.len() - 4]).unwrap(), pcm_of(&[1, 2]));
}

#[test]
fn last_data_chunk_counts() {
    let mut wav = wav_bytes(16_000, 1, &pcm_of(&[1]));
    wav.extend_from_slice(b"data");
    wav.extend_from_slice(&2u32.to_le_bytes());
    wav.extend_from_slice(&pcm_of(&[9]));
    assert_eq!(wav_to_pcm16_mono_16k(&wav).unwrap(), pcm_of(&[9]));
}

#[test]
fn short_fmt_chunk_is_ignored() {
    let mut wav = b"RIFF\0\0\0\0WAVEfmt ".to_vec();
    wav.extend_from_slice(&4u32.to_le_bytes());
    wav.extend_from_slice(&[1, 0, 9, 0]);
    wav.extend_from_slice(b"data");
    wav.extend_from_slice(&2u32.to_le_bytes());
    wav.extend_from_slice(&[3, 4]);
    let audio = read_wav(&wav).unwrap_or_else(|e| panic!("{:?}", e));
    assert_eq!(audio.format.channels, 1);
    assert_eq!(audio.format.sample_rate, 16_000);
    assert_eq!(audio.format.bits, 16);
    assert_eq!(audio.data, &[3, 4]);
}

#[test]
fn format_is_read_whole() {
    let wav = wav_bytes(44_100, 6, &[0; 24]);
    let audio = read_wav(&wav).unwrap_or_else(|e| panic!("{:?}", e));
    assert_eq!(audio.format.channels, 6);
    assert_eq!(audio.format.sample_rate, 44_100);
    assert_eq!(audio.format.bits, 16);
}

//! RIFF/WAVE: writing 16 kHz mono PCM, and reading 16-bit PCM of any rate and
//! number of channels.

use vstd::prelude::*;
use vstd::slice::{slice_subrange, slice_to_vec};

use crate::audio_utils::{downmix_to_mono, downmixed, resample_to_16k, resampled_pcm};
use crate::error::{bytes_view, AsrError, AsrErrorView};
use crate::pcm::{
    law_le32_round_trip, le16, le16_bytes, le32, le32_bytes, lemma_concat, pcm_bytes, push_le16,
    push_le32, read_le16, read_le32, samples, TARGET_RATE,
};
use crate::text::{appended, decimal, decimal_string};

verus! {

/// The bytes of `RIFF`.
pub open spec fn riff_id() -> Seq<u8> {
    seq![0x52u8, 0x49, 0x46, 0x46]
}

/// The bytes of `WAVE`.
pub open spec fn wave_id() -> Seq<u8> {
    seq![0x57u8, 0x41, 0x56, 0x45]
}

/// The bytes of `fmt `.
pub open spec fn fmt_id() -> Seq<u8> {
    seq![0x66u8, 0x6d, 0x74, 0x20]
}

/// The bytes of `data`.
pub open spec fn data_id() -> Seq<u8> {
    seq![0x64u8, 0x61, 0x74, 0x61]
}

/// The body of the `fmt ` chunk for uncompressed 16 kHz mono 16-bit PCM.
pub open spec fn speech_format() -> Seq<u8> {
    le16_bytes(1)  // uncompressed PCM
     + le16_bytes(1)  // channels
     + le32_bytes(16_000)  // samples per second
     + le32_bytes(32_000)  // bytes per second
     + le16_bytes(2)  // bytes per frame
     + le16_bytes(16)  // bits per sample

}

/// A size as the 32-bit field of a RIFF header holds it.
pub open spec fn size_field(n: int) -> Seq<u8> {
    le32_bytes(n % 0x1_0000_0000)
}

/// The header of a RIFF file with `n` bytes of samples in a canonical file.
pub open spec fn riff_header(n: int) -> Seq<u8> {
    riff_id() + size_field(36 + n) + wave_id()
}

/// The `fmt ` chunk for uncompressed 16 kHz mono 16-bit PCM.
pub open spec fn fmt_chunk() -> Seq<u8> {
    fmt_id() + le32_bytes(16) + speech_format()
}

/// The header of a `data` chunk of `n` bytes.
pub open spec fn data_header(n: int) -> Seq<u8> {
    data_id() + size_field(n)
}

/// 16 kHz mono PCM behind the canonical header of 44 bytes.
pub open spec fn wav_file(pcm: Seq<u8>) -> Seq<u8> {
    riff_header(pcm.len() as int) + fmt_chunk() + data_header(pcm.len() as int) + pcm
}

/// Appends four bytes.
fn push_id(out: &mut Vec<u8>, a: u8, b: u8, c: u8, d: u8)
    ensures
        final(out)@ == old(out)@ + seq![a, b, c, d],
{
    out.push(a);
    out.push(b);
    out.push(c);
    out.push(d);
    assert(out@ =~= old(out)@ + seq![a, b, c, d]);
}

/// Appends the body of the `fmt ` chunk for uncompressed 16 kHz mono PCM.
fn push_speech_format(out: &mut Vec<u8>)
    ensures
        final(out)@ == old(out)@ + speech_format(),
{
    push_le16(out, 1);
    push_le16(out, 1);
    push_le32(out, 16_000);
    push_le32(out, 32_000);
    push_le16(out, 2);
    push_le16(out, 16);
    proof {
        let start = old(out)@;
        let a = le16_bytes(1);
        let b = a + le16_bytes(1);
        let c = b + le32_bytes(16_000);
        let d = c + le32_bytes(32_000);
        let e = d + le16_bytes(2);
        lemma_concat(start, a, le16_bytes(1));
        lemma_concat(start, b, le32_bytes(16_000));
        lemma_concat(start, c, le32_bytes(32_000));
        lemma_concat(start, d, le16_bytes(2));
        lemma_concat(start, e, le16_bytes(16));
    }
}

/// Appends the header of a RIFF file.
fn push_riff_header(out: &mut Vec<u8>, n: u32)
    ensures
        final(out)@ == old(out)@ + riff_header(n as int),
{
    let riff_len: u32 = n.wrapping_add(36);
    push_id(out, 0x52, 0x49, 0x46, 0x46);
    push_le32(out, riff_len);
    push_id(out, 0x57, 0x41, 0x56, 0x45);
    proof {
        assert(riff_len == (36 + n) % 0x1_0000_0000);
        lemma_concat(old(out)@, riff_id(), size_field(36 + n));
        lemma_concat(old(out)@, riff_id() + size_field(36 + n), wave_id());
    }
}

/// Appends the `fmt ` chunk.
fn push_fmt_chunk(out: &mut Vec<u8>)
    ensures
        final(out)@ == old(out)@ + fmt_chunk(),
{
    push_id(out, 0x66, 0x6d, 0x74, 0x20);
    push_le32(out, 16);
    push_speech_format(out);
    proof {
        lemma_concat(old(out)@, fmt_id(), le32_bytes(16));
        lemma_concat(old(out)@, fmt_id() + le32_bytes(16), speech_format());
    }
}

/// Appends the header of a `data` chunk.
fn push_data_header(out: &mut Vec<u8>, n: u32)
    ensures
        final(out)@ == old(out)@ + data_header(n as int),
{
    push_id(out, 0x64, 0x61, 0x74, 0x61);
    push_le32(out, n);
    proof {
        assert(n as int % 0x1_0000_0000 == n);
        lemma_concat(old(out)@, data_id(), size_field(n as int));
    }
}

/// Size fields hold sizes modulo 2^32.
proof fn lemma_headers_modulo(n: int)
    ensures
        riff_header(n % 0x1_0000_0000) == riff_header(n),
        data_header(n % 0x1_0000_0000) == data_header(n),
{
    assert((36 + n % 0x1_0000_0000) % 0x1_0000_0000 == (36 + n) % 0x1_0000_0000);
}

/// Wraps 16 kHz mono signed 16-bit little-endian PCM in a WAV file. Both size
/// fields are taken modulo 2^32, as their width demands.
pub fn pcm16_mono_16k_to_wav(pcm: &[u8]) -> (r: Vec<u8>)
    ensures
        r@ == wav_file(pcm@),
{
    let data_len: u32 = (pcm.len() as u64 % 0x1_0000_0000) as u32;
    let mut wav: Vec<u8> = Vec::new();
    push_riff_header(&mut wav, data_len);
    push_fmt_chunk(&mut wav);
    push_data_header(&mut wav, data_len);
    let ghost header = wav@;
    wav.extend_from_slice(pcm);
    proof {
        lemma_headers_modulo(pcm@.len() as int);
        assert(Seq::<u8>::empty() + riff_header(data_len as int) =~= riff_header(data_len as int));
        assert(wav@ =~= header + pcm@);
    }
    wav
}

/// What a `fmt ` chunk says of the audio.
#[derive(Clone, Copy, Debug)]
pub struct WavFormat {
    pub channels: u16,
    pub sample_rate: u32,
    pub bits: u16,
}

/// The format of a file without a usable `fmt ` chunk.
pub open spec fn default_format() -> WavFormat {
    WavFormat { channels: 1, sample_rate: TARGET_RATE, bits: 16 }
}

/// A chunk of a RIFF file.
pub struct Chunk {
    pub id: Seq<u8>,
    pub body: Seq<u8>,
}

/// The chunks of a RIFF file from `pos` on. A chunk is an id of four bytes, a
/// 32-bit size and a body of that size, which the end of the file may cut
/// short; a pad byte follows a body of odd size.
pub open spec fn chunks_from(bytes: Seq<u8>, pos: int) -> Seq<Chunk>
    decreases bytes.len() + 1 - pos,
{
    if pos < 0 || pos + 8 > bytes.len() {
        Seq::empty()
    } else {
        let size = le32(bytes, pos + 4);
        let start = pos + 8;
        let end = if start + size <= bytes.len() {
            start + size
        } else {
            bytes.len() as int
        };
        let chunk = Chunk { id: bytes.subrange(pos, pos + 4), body: bytes.subrange(start, end) };
        seq![chunk] + chunks_from(bytes, end + size % 2)
    }
}

/// Whether a chunk states the format.
pub open spec fn states_format(chunk: Chunk) -> bool {
    chunk.id == fmt_id() && chunk.body.len() >= 16
}

/// The format that the body of a `fmt ` chunk states.
pub open spec fn stated_format(body: Seq<u8>) -> WavFormat {
    WavFormat {
        channels: le16(body, 2) as u16,
        sample_rate: le32(body, 4) as u32,
        bits: le16(body, 14) as u16,
    }
}

/// The format that the last of `chunks` to state one states.
pub open spec fn format_of(chunks: Seq<Chunk>) -> WavFormat
    decreases chunks.len(),
{
    if chunks.len() == 0 {
        default_format()
    } else if states_format(chunks.last()) {
        stated_format(chunks.last().body)
    } else {
        format_of(chunks.drop_last())
    }
}

/// The body of the last `data` chunk.
pub open spec fn data_of(chunks: Seq<Chunk>) -> Option<Seq<u8>>
    decreases chunks.len(),
{
    if chunks.len() == 0 {
        None
    } else if chunks.last().id == data_id() {
        Some(chunks.last().body)
    } else {
        data_of(chunks.drop_last())
    }
}

/// Whether `bytes` begins as a WAVE file does.
pub open spec fn is_riff_wave(bytes: Seq<u8>) -> bool {
    &&& bytes.len() >= 12
    &&& bytes.subrange(0, 4) == riff_id()
    &&& bytes.subrange(8, 12) == wave_id()
}

/// The format and the data of a WAVE file, or why it cannot be read.
pub open spec fn wav_contents(bytes: Seq<u8>) -> Result<(WavFormat, Seq<u8>), AsrErrorView> {
    let chunks = chunks_from(bytes, 12);
    let format = format_of(chunks);
    if !is_riff_wave(bytes) {
        Err(AsrErrorView::ProtocolError("MiMo WAV fallback: not a RIFF/WAVE file"@))
    } else if format.bits != 16 {
        Err(
            AsrErrorView::ProtocolError(
                "MiMo WAV fallback: only 16-bit PCM is supported, got "@ + decimal(
                    format.bits as nat,
                ) + "-bit"@,
            ),
        )
    } else {
        match data_of(chunks) {
            None => Err(AsrErrorView::ProtocolError("MiMo WAV fallback: missing data chunk"@)),
            Some(data) => Ok((format, data)),
        }
    }
}

/// Data of the given format as 16 kHz mono PCM.
pub open spec fn speech_pcm(format: WavFormat, data: Seq<u8>) -> Seq<u8> {
    let mono = if format.channels > 1 {
        pcm_bytes(downmixed(samples(data), format.channels as nat))
    } else {
        data
    };
    if format.sample_rate != TARGET_RATE {
        resampled_pcm(mono, format.sample_rate as int)
    } else {
        mono
    }
}

/// The 16 kHz mono PCM of a WAVE file, or why it cannot be read.
pub open spec fn wav_pcm(bytes: Seq<u8>) -> Result<Seq<u8>, AsrErrorView> {
    match wav_contents(bytes) {
        Ok((format, data)) => Ok(speech_pcm(format, data)),
        Err(e) => Err(e),
    }
}

/// Whether the four bytes at `pos` are `a`, `b`, `c` and `d`.
fn has_id(bytes: &[u8], pos: usize, a: u8, b: u8, c: u8, d: u8) -> (r: bool)
    requires
        pos + 4 <= bytes.len(),
    ensures
        r == (bytes@.subrange(pos as int, pos + 4) == seq![a, b, c, d]),
{
    let r: bool = bytes[pos] == a && bytes[pos + 1] == b && bytes[pos + 2] == c && bytes[pos + 3]
        == d;
    proof {
        let id = bytes@.subrange(pos as int, pos + 4);
        assert(id[0] == bytes@[pos as int] && id[1] == bytes@[pos + 1] && id[2] == bytes@[pos + 2]
            && id[3] == bytes@[pos + 3]);
        if r {
            assert(id =~= seq![a, b, c, d]);
        }
    }
    r
}

/// Reads the body of a `fmt ` chunk.
fn read_format(bytes: &[u8], start: usize, end: usize) -> (r: WavFormat)
    requires
        start + 16 <= end <= bytes.len(),
    ensures
        r == stated_format(bytes@.subrange(start as int, end as int)),
{
    proof {
        let body = bytes@.subrange(start as int, end as int);
        assert forall|i: int| 0 <= i < 16 implies #[trigger] body[i] == bytes@[start + i] by {}
    }
    WavFormat {
        channels: read_le16(bytes, start + 2),
        sample_rate: read_le32(bytes, start + 4),
        bits: read_le16(bytes, start + 14),
    }
}

/// The format and the data of a WAVE file that has been read.
pub struct WavAudio<'a> {
    pub format: WavFormat,
    pub data: &'a [u8],
}

/// `r` with its data and its error viewed.
pub open spec fn audio_view(r: Result<WavAudio, AsrError>) -> Result<
    (WavFormat, Seq<u8>),
    AsrErrorView,
> {
    match r {
        Ok(audio) => Ok((audio.format, audio.data@)),
        Err(e) => Err(e@),
    }
}

/// Reads the chunks of a WAVE file. Chunks other than `fmt ` and `data` are
/// skipped, and of several of the same kind the last counts.
pub fn read_wav<'a>(bytes: &'a [u8]) -> (r: Result<WavAudio<'a>, AsrError>)
    ensures
        audio_view(r) == wav_contents(bytes@),
{
    let len: usize = bytes.len();
    if len < 12 || !has_id(bytes, 0, 0x52, 0x49, 0x46, 0x46) || !has_id(
        bytes,
        8,
        0x57,
        0x41,
        0x56,
        0x45,
    ) {
        return Err(
            AsrError::ProtocolError("MiMo WAV fallback: not a RIFF/WAVE file".to_string()),
        );
    }
    let mut format = WavFormat { channels: 1, sample_rate: TARGET_RATE, bits: 16 };
    let mut data: Option<&'a [u8]> = None;
    let mut pos: usize = 12;
    let ghost mut seen: Seq<Chunk> = Seq::empty();
    assert(chunks_from(bytes@, 12) =~= seen + chunks_from(bytes@, 12));
    while len - pos >= 8
        invariant
            len == bytes@.len(),
            pos <= len,
            chunks_from(bytes@, 12) == seen + chunks_from(bytes@, pos as int),
            format == format_of(seen),
            data is Some <==> data_of(seen) is Some,
            data matches Some(d) ==> data_of(seen) == Some(d@),
        decreases len - pos,
    {
        let size: usize = read_le32(bytes, pos + 4) as usize;
        let start: usize = pos + 8;
        let end: usize = if size <= len - start {
            start + size
        } else {
            len
        };
        let ghost chunk = Chunk {
            id: bytes@.subrange(pos as int, pos + 4),
            body: bytes@.subrange(start as int, end as int),
        };
        if has_id(bytes, pos, 0x66, 0x6d, 0x74, 0x20) {
            if end - start >= 16 {
                format = read_format(bytes, start, end);
            }
        } else if has_id(bytes, pos, 0x64, 0x61, 0x74, 0x61) {
            data = Some(slice_subrange(bytes, start, end));
        }
        proof {
            let next = end + (size as int) % 2;
            assert(chunks_from(bytes@, pos as int) == seq![chunk] + chunks_from(bytes@, next));
            assert(seen.push(chunk) + chunks_from(bytes@, next) =~= seen + (seq![chunk]
                + chunks_from(bytes@, next)));
            assert(seen.push(chunk).drop_last() =~= seen);
            assert(seen.push(chunk).last() == chunk);
            assert(fmt_id()[0] != data_id()[0]);
            seen = seen.push(chunk);
        }
        // A pad byte follows a body of odd size.
        pos = if size % 2 == 1 && end < len {
            end + 1
        } else {
            end
        };
    }
    if format.bits != 16 {
        let bits = decimal_string(format.bits);
        let mut message = appended(
            "MiMo WAV fallback: only 16-bit PCM is supported, got ",
            bits.as_str(),
        );
        message.append("-bit");
        return Err(AsrError::ProtocolError(message));
    }
    match data {
        None => Err(AsrError::ProtocolError("MiMo WAV fallback: missing data chunk".to_string())),
        Some(data) => Ok(WavAudio { format, data }),
    }
}

/// Reads a WAVE file of 16-bit PCM as 16 kHz mono PCM, mixing down and
/// resampling where its format demands it.
pub fn wav_to_pcm16_mono_16k(bytes: &[u8]) -> (r: Result<Vec<u8>, AsrError>)
    ensures
        bytes_view(r) == wav_pcm(bytes@),
{
    let audio = match read_wav(bytes) {
        Ok(audio) => audio,
        Err(e) => {
            return Err(e);
        },
    };
    let mono: Vec<u8> = if audio.format.channels > 1 {
        downmix_to_mono(audio.data, audio.format.channels)
    } else {
        slice_to_vec(audio.data)
    };
    if audio.format.sample_rate != TARGET_RATE {
        Ok(resample_to_16k(mono.as_slice(), audio.format.sample_rate))
    } else {
        Ok(mono)
    }
}

/// The chunk at `pos`, where an id, a size and a whole body of that size stand
/// there.
proof fn lemma_chunk_at(bytes: Seq<u8>, pos: int, id: Seq<u8>, body: Seq<u8>)
    requires
        0 <= pos,
        id.len() == 4,
        body.len() < 0x1_0000_0000,
        pos + 8 + body.len() <= bytes.len(),
        bytes.subrange(pos, pos + 4) == id,
        bytes.subrange(pos + 4, pos + 8) == le32_bytes(body.len() as int),
        bytes.subrange(pos + 8, pos + 8 + body.len()) == body,
    ensures
        chunks_from(bytes, pos) == seq![Chunk { id, body }] + chunks_from(
            bytes,
            pos + 8 + body.len() + body.len() % 2,
        ),
{
    let field = bytes.subrange(pos + 4, pos + 8);
    law_le32_round_trip(body.len() as int);
    assert(field[0] == bytes[pos + 4] && field[1] == bytes[pos + 5] && field[2] == bytes[pos + 6]
        && field[3] == bytes[pos + 7]);
    assert(le32(bytes, pos + 4) == body.len());
}

/// The parts of a file stand where the canonical layout puts them.
proof fn lemma_places(
    riff: Seq<u8>,
    riff_size: Seq<u8>,
    wave: Seq<u8>,
    fmt: Seq<u8>,
    fmt_size: Seq<u8>,
    format: Seq<u8>,
    data: Seq<u8>,
    data_size: Seq<u8>,
    pcm: Seq<u8>,
    w: Seq<u8>,
)
    requires
        riff.len() == 4,
        riff_size.len() == 4,
        wave.len() == 4,
        fmt.len() == 4,
        fmt_size.len() == 4,
        format.len() == 16,
        data.len() == 4,
        data_size.len() == 4,
        w == (riff + riff_size + wave) + (fmt + fmt_size + format) + (data + data_size) + pcm,
    ensures
        w.len() == 44 + pcm.len(),
        w.subrange(0, 4) == riff,
        w.subrange(8, 12) == wave,
        w.subrange(12, 16) == fmt,
        w.subrange(16, 20) == fmt_size,
        w.subrange(20, 36) == format,
        w.subrange(36, 40) == data,
        w.subrange(40, 44) == data_size,
        w.subrange(44, 44 + pcm.len() as int) == pcm,
{
    assert(w.subrange(0, 4) =~= riff);
    assert(w.subrange(8, 12) =~= wave);
    assert(w.subrange(12, 16) =~= fmt);
    assert(w.subrange(16, 20) =~= fmt_size);
    assert(w.subrange(20, 36) =~= format);
    assert(w.subrange(36, 40) =~= data);
    assert(w.subrange(40, 44) =~= data_size);
    assert(w.subrange(44, 44 + pcm.len() as int) =~= pcm);
}

/// The written format states 16 kHz mono 16-bit PCM.
proof fn lemma_speech_format()
    ensures
        speech_format().len() == 16,
        stated_format(speech_format()) == (WavFormat {
            channels: 1,
            sample_rate: TARGET_RATE,
            bits: 16,
        }),
{
    let f = speech_format();
    assert(f[2] == 1 && f[3] == 0);
    assert(f[4] == 0x80 && f[5] == 0x3e && f[6] == 0 && f[7] == 0);
    assert(f[14] == 16 && f[15] == 0);
}

/// A file laid out as a canonical one holds a `fmt ` and a `data` chunk and
/// nothing else.
proof fn lemma_two_chunks(w: Seq<u8>, body: Seq<u8>, pcm: Seq<u8>)
    requires
        body.len() == 16,
        pcm.len() < 0x1_0000_0000,
        w.len() == 44 + pcm.len(),
        w.subrange(12, 16) == fmt_id(),
        w.subrange(16, 20) == le32_bytes(16),
        w.subrange(20, 36) == body,
        w.subrange(36, 40) == data_id(),
        w.subrange(40, 44) == le32_bytes(pcm.len() as int),
        w.subrange(44, 44 + pcm.len() as int) == pcm,
    ensures
        chunks_from(w, 12) == seq![
            Chunk { id: fmt_id(), body },
            Chunk { id: data_id(), body: pcm },
        ],
{
    let n = pcm.len();
    lemma_chunk_at(w, 12, fmt_id(), body);
    lemma_chunk_at(w, 36, data_id(), pcm);
    assert(chunks_from(w, (44 + n + n % 2) as int) =~= Seq::empty());
    assert(chunks_from(w, 12) =~= seq![
        Chunk { id: fmt_id(), body },
        Chunk { id: data_id(), body: pcm },
    ]);
}

/// What a `fmt ` chunk with a following `data` chunk states.
proof fn lemma_fmt_then_data(body: Seq<u8>, data: Seq<u8>)
    requires
        body.len() >= 16,
    ensures
        ({
            let chunks = seq![Chunk { id: fmt_id(), body }, Chunk { id: data_id(), body: data }];
            format_of(chunks) == stated_format(body) && data_of(chunks) == Some(data)
        }),
{
    let fmt = Chunk { id: fmt_id(), body };
    let chunks = seq![fmt, Chunk { id: data_id(), body: data }];
    assert(fmt_id()[0] != data_id()[0]);
    assert(chunks.drop_last() =~= seq![fmt]);
    assert(seq![fmt].last() == fmt);
    assert(format_of(seq![fmt]) == stated_format(body));
}

/// A WAV file is its PCM behind a header of 44 bytes.
pub proof fn law_header_is_44_bytes(pcm: Seq<u8>)
    ensures
        wav_file(pcm).len() == 44 + pcm.len(),
        wav_file(pcm).skip(44) == pcm,
{
    let n = pcm.len() as int;
    let header = riff_header(n) + fmt_chunk() + data_header(n);
    assert(header.len() == 44);
    lemma_behind_header(header, pcm);
}

/// What stands behind a header is what follows its length.
proof fn lemma_behind_header(header: Seq<u8>, pcm: Seq<u8>)
    ensures
        (header + pcm).skip(header.len() as int) == pcm,
{
    assert((header + pcm).skip(header.len() as int) =~= pcm);
}

/// A file laid out as a canonical one reads as the PCM at its end.
#[verifier::spinoff_prover]
proof fn lemma_canonical_file(w: Seq<u8>, body: Seq<u8>, pcm: Seq<u8>)
    requires
        body.len() == 16,
        stated_format(body) == default_format(),
        pcm.len() < 0x1_0000_0000,
        w.len() == 44 + pcm.len(),
        w.subrange(0, 4) == riff_id(),
        w.subrange(8, 12) == wave_id(),
        w.subrange(12, 16) == fmt_id(),
        w.subrange(16, 20) == le32_bytes(16),
        w.subrange(20, 36) == body,
        w.subrange(36, 40) == data_id(),
        w.subrange(40, 44) == le32_bytes(pcm.len() as int),
        w.subrange(44, 44 + pcm.len() as int) == pcm,
    ensures
        wav_pcm(w) == Ok::<Seq<u8>, AsrErrorView>(pcm),
{
    lemma_two_chunks(w, body, pcm);
    lemma_fmt_then_data(body, pcm);
    lemma_contents(w, pcm);
}

/// A file made of the parts of a canonical one reads as its PCM.
#[verifier::spinoff_prover]
proof fn lemma_canonical_parts(
    riff_size: Seq<u8>,
    format: Seq<u8>,
    data_size: Seq<u8>,
    pcm: Seq<u8>,
    w: Seq<u8>,
)
    requires
        pcm.len() < 0x1_0000_0000,
        riff_size.len() == 4,
        format.len() == 16,
        stated_format(format) == default_format(),
        data_size == le32_bytes(pcm.len() as int),
        w == (riff_id() + riff_size + wave_id()) + (fmt_id() + le32_bytes(16) + format) + (data_id()
            + data_size) + pcm,
    ensures
        wav_pcm(w) == Ok::<Seq<u8>, AsrErrorView>(pcm),
{
    law_le32_round_trip(16);
    law_le32_round_trip(pcm.len() as int);
    lemma_places(
        riff_id(),
        riff_size,
        wave_id(),
        fmt_id(),
        le32_bytes(16),
        format,
        data_id(),
        data_size,
        pcm,
        w,
    );
    lemma_canonical_file(w, format, pcm);
}

/// The size fields of a written WAV file.
proof fn lemma_size_fields(pcm: Seq<u8>)
    requires
        pcm.len() < 0x1_0000_0000,
    ensures
        size_field(36 + pcm.len() as int).len() == 4,
        size_field(pcm.len() as int) == le32_bytes(pcm.len() as int),
{
    let n = pcm.len() as int;
    assert(n % 0x1_0000_0000 == n);
    law_le32_round_trip((36 + n) % 0x1_0000_0000);
}

/// Reading back a written WAV file gives the PCM it was written from. (Longer
/// PCM does not fit the 32-bit size of its chunk.)
#[verifier::spinoff_prover]
pub proof fn law_wav_round_trip(pcm: Seq<u8>)
    requires
        pcm.len() < 0x1_0000_0000,
    ensures
        wav_pcm(wav_file(pcm)) == Ok::<Seq<u8>, AsrErrorView>(pcm),
{
    let n = pcm.len() as int;
    lemma_speech_format();
    lemma_size_fields(pcm);
    lemma_canonical_parts(size_field(36 + n), speech_format(), size_field(n), pcm, wav_file(pcm));
}

/// A file whose chunks state 16 kHz mono PCM reads as its data.
proof fn lemma_contents(bytes: Seq<u8>, data: Seq<u8>)
    requires
        is_riff_wave(bytes),
        format_of(chunks_from(bytes, 12)) == (WavFormat {
            channels: 1,
            sample_rate: TARGET_RATE,
            bits: 16,
        }),
        data_of(chunks_from(bytes, 12)) == Some(data),
    ensures
        wav_pcm(bytes) == Ok::<Seq<u8>, AsrErrorView>(data),
{
}

/// The chunks of a file do not depend on what stands before them.
proof fn lemma_chunks_after_prefix(prefix: Seq<u8>, bytes: Seq<u8>, pos: int)
    requires
        0 <= pos,
    ensures
        chunks_from(prefix + bytes, prefix.len() + pos) == chunks_from(bytes, pos),
    decreases bytes.len() + 1 - pos,
{
    let all = prefix + bytes;
    let p = prefix.len() as int;
    if pos + 8 <= bytes.len() {
        assert forall|i: int| 0 <= i < bytes.len() implies #[trigger] all[p + i] == bytes[i] by {}
        assert(all[p + pos + 4] == bytes[pos + 4] && all[p + pos + 5] == bytes[pos + 5]
            && all[p + pos + 6] == bytes[pos + 6] && all[p + pos + 7] == bytes[pos + 7]);
        let size = le32(bytes, pos + 4);
        assert(le32(all, p + pos + 4) == size);
        let start = pos + 8;
        let end = if start + size <= bytes.len() {
            start + size
        } else {
            bytes.len() as int
        };
        assert(all.subrange(p + pos, p + pos + 4) =~= bytes.subrange(pos, pos + 4));
        assert(all.subrange(p + start, p + end) =~= bytes.subrange(start, end));
        lemma_chunks_after_prefix(prefix, bytes, end + size % 2);
    }
}

/// A chunk of another kind in front says nothing of format and data.
proof fn lemma_other_chunk_in_front(c: Chunk, chunks: Seq<Chunk>)
    requires
        c.id != fmt_id(),
        c.id != data_id(),
    ensures
        format_of(seq![c] + chunks) == format_of(chunks),
        data_of(seq![c] + chunks) == data_of(chunks),
    decreases chunks.len(),
{
    let all = seq![c] + chunks;
    if chunks.len() == 0 {
        assert(all.drop_last() =~= Seq::empty());
        assert(all.last() == c);
        assert(format_of(all.drop_last()) == default_format());
        assert(data_of(all.drop_last()) is None);
    } else {
        assert(all.last() == chunks.last());
        lemma_other_chunk_in_front(c, chunks.drop_last());
        assert(all.drop_last() =~= seq![c] + chunks.drop_last());
    }
}

/// A chunk that is neither `fmt ` nor `data` does not change what is read: a
/// file with it right after its header reads as the file without it does.
#[verifier::spinoff_prover]
pub proof fn law_unknown_chunk_is_skipped(
    header: Seq<u8>,
    id: Seq<u8>,
    body: Seq<u8>,
    pad: Seq<u8>,
    rest: Seq<u8>,
)
    requires
        header.len() == 12,
        id.len() == 4,
        id != fmt_id(),
        id != data_id(),
        body.len() < 0x1_0000_0000,
        pad.len() == body.len() % 2,
    ensures
        wav_pcm(header + (id + le32_bytes(body.len() as int) + body + pad) + rest) == wav_pcm(
            header + rest,
        ),
{
    let n = body.len() as int;
    let field = le32_bytes(n);
    let chunk = id + field + body + pad;
    let with = header + chunk + rest;
    let without = header + rest;
    law_le32_round_trip(n);
    assert(with.subrange(12, 16) =~= id);
    assert(with.subrange(16, 20) =~= field);
    assert(with.subrange(20, 20 + n) =~= body);
    lemma_chunk_at(with, 12, id, body);
    assert(header + rest =~= without);
    lemma_chunks_after_prefix(header, rest, 0);
    assert((header + chunk).len() == 20 + n + n % 2);
    lemma_chunks_after_prefix(header + chunk, rest, 0);
    lemma_other_chunk_in_front(Chunk { id, body }, chunks_from(rest, 0));
    assert(with.subrange(0, 4) =~= without.subrange(0, 4));
    assert(with.subrange(8, 12) =~= without.subrange(8, 12));
}

/// Audio that is 16 kHz mono already is handed on as it stands in the file.
pub proof fn law_speech_is_handed_on(bytes: Seq<u8>)
    requires
        wav_contents(bytes) is Ok,
        wav_contents(bytes)->Ok_0.0.channels <= 1,
        wav_contents(bytes)->Ok_0.0.sample_rate == TARGET_RATE,
    ensures
        wav_pcm(bytes) == Ok::<Seq<u8>, AsrErrorView>(wav_contents(bytes)->Ok_0.1),
{
}

/// The number in a field of four bytes stands in a file where the field does.
proof fn lemma_le32_at(w: Seq<u8>, i: int, field: Seq<u8>)
    requires
        0 <= i,
        i + 4 <= w.len(),
        w.subrange(i, i + 4) == field,
    ensures
        le32(w, i) == le32(field, 0),
{
    assert(field[0] == w[i] && field[1] == w[i + 1] && field[2] == w[i + 2] && field[3] == w[i
        + 3]);
}

/// The numbers of a written format.
#[verifier::spinoff_prover]
proof fn lemma_speech_format_fields()
    ensures
        speech_format().len() == 16,
        le16(speech_format(), 0) == 1,
        le16(speech_format(), 2) == 1,
        le32(speech_format(), 4) == 16_000,
        le32(speech_format(), 8) == 32_000,
        le16(speech_format(), 12) == 2,
        le16(speech_format(), 14) == 16,
{
    let f = speech_format();
    assert(f[0] == 1 && f[1] == 0 && f[2] == 1 && f[3] == 0);
    assert(f[4] == 0x80 && f[5] == 0x3e && f[6] == 0 && f[7] == 0);
    assert(f[8] == 0x00 && f[9] == 0x7d && f[10] == 0 && f[11] == 0);
    assert(f[12] == 2 && f[13] == 0 && f[14] == 16 && f[15] == 0);
}

/// The numbers of a format stand in a file where the format does.
proof fn lemma_format_at(w: Seq<u8>, format: Seq<u8>)
    requires
        w.len() >= 36,
        format.len() == 16,
        w.subrange(20, 36) == format,
    ensures
        le16(w, 20) == le16(format, 0),
        le16(w, 22) == le16(format, 2),
        le32(w, 24) == le32(format, 4),
        le32(w, 28) == le32(format, 8),
        le16(w, 32) == le16(format, 12),
        le16(w, 34) == le16(format, 14),
{
    assert forall|i: int| 0 <= i < 16 implies #[trigger] format[i] == w[20 + i] by {
        assert(w.subrange(20, 36)[i] == w[20 + i]);
    }
}

/// Where the parts of a written file stand.
#[verifier::spinoff_prover]
proof fn lemma_written_places(pcm: Seq<u8>, riff_size: Seq<u8>, format: Seq<u8>, data_size: Seq<u8>)
    requires
        riff_size == size_field(36 + pcm.len() as int),
        format == speech_format(),
        data_size == size_field(pcm.len() as int),
        riff_size.len() == 4,
        format.len() == 16,
        data_size.len() == 4,
    ensures
        wav_file(pcm).len() == 44 + pcm.len(),
        wav_file(pcm).subrange(0, 4) == riff_id(),
        wav_file(pcm).subrange(4, 8) == riff_size,
        wav_file(pcm).subrange(8, 12) == wave_id(),
        wav_file(pcm).subrange(12, 16) == fmt_id(),
        wav_file(pcm).subrange(16, 20) == le32_bytes(16),
        wav_file(pcm).subrange(20, 36) == format,
        wav_file(pcm).subrange(36, 40) == data_id(),
        wav_file(pcm).subrange(40, 44) == data_size,
        wav_file(pcm).subrange(44, 44 + pcm.len() as int) == pcm,
{
    law_le32_round_trip(16);
    lemma_places(
        riff_id(),
        riff_size,
        wave_id(),
        fmt_id(),
        le32_bytes(16),
        format,
        data_id(),
        data_size,
        pcm,
        wav_file(pcm),
    );
    lemma_riff_size_place(
        riff_id(),
        riff_size,
        wave_id() + fmt_chunk() + data_header(pcm.len() as int) + pcm,
        wav_file(pcm),
    );
}

/// The size of a file stands behind its id.
proof fn lemma_riff_size_place(riff: Seq<u8>, riff_size: Seq<u8>, rest: Seq<u8>, w: Seq<u8>)
    requires
        riff.len() == 4,
        riff_size.len() == 4,
        w =~= riff + riff_size + rest,
    ensures
        w.subrange(4, 8) == riff_size,
{
    assert(w.subrange(4, 8) =~= riff_size);
}

/// A written file is `RIFF`, its size less eight, `WAVE`, a `fmt ` chunk of 16
/// bytes that states uncompressed mono PCM of 16 bits at 16 kHz, and a `data`
/// chunk with the PCM, whole. The sizes are modulo 2^32.
#[verifier::spinoff_prover]
pub proof fn law_written_fields(pcm: Seq<u8>)
    ensures
        wav_file(pcm).len() == 44 + pcm.len(),
        wav_file(pcm).subrange(0, 4) == seq![0x52u8, 0x49, 0x46, 0x46],
        le32(wav_file(pcm), 4) == (36 + pcm.len()) % 0x1_0000_0000,
        wav_file(pcm).subrange(8, 12) == seq![0x57u8, 0x41, 0x56, 0x45],
        wav_file(pcm).subrange(12, 16) == seq![0x66u8, 0x6d, 0x74, 0x20],
        le32(wav_file(pcm), 16) == 16,
        le16(wav_file(pcm), 20) == 1,
        le16(wav_file(pcm), 22) == 1,
        le32(wav_file(pcm), 24) == 16_000,
        le32(wav_file(pcm), 28) == 32_000,
        le16(wav_file(pcm), 32) == 2,
        le16(wav_file(pcm), 34) == 16,
        wav_file(pcm).subrange(36, 40) == seq![0x64u8, 0x61, 0x74, 0x61],
        le32(wav_file(pcm), 40) == pcm.len() % 0x1_0000_0000,
        wav_file(pcm).subrange(44, 44 + pcm.len() as int) == pcm,
{
    let n = pcm.len() as int;
    let w = wav_file(pcm);
    law_le32_round_trip((36 + n) % 0x1_0000_0000);
    law_le32_round_trip(n % 0x1_0000_0000);
    law_le32_round_trip(16);
    lemma_speech_format_fields();
    lemma_written_places(pcm, size_field(36 + n), speech_format(), size_field(n));
    lemma_le32_at(w, 4, size_field(36 + n));
    lemma_le32_at(w, 16, le32_bytes(16));
    lemma_le32_at(w, 40, size_field(n));
    lemma_format_at(w, speech_format());
}

/// A chunk that does not state the format, be it of another kind or a `fmt `
/// chunk of less than 16 bytes, leaves the format as it is wherever it stands.
pub proof fn law_format_of_other_chunks(a: Seq<Chunk>, c: Chunk, b: Seq<Chunk>)
    requires
        c.id != seq![0x66u8, 0x6d, 0x74, 0x20] || c.body.len() < 16,
    ensures
        format_of(a + seq![c] + b) == format_of(a + b),
    decreases b.len(),
{
    let with = a + seq![c] + b;
    if b.len() == 0 {
        assert(with.drop_last() =~= a + b);
        assert(with.last() == c);
    } else {
        law_format_of_other_chunks(a, c, b.drop_last());
        assert(with.drop_last() =~= a + seq![c] + b.drop_last());
        assert((a + b).drop_last() =~= a + b.drop_last());
        assert(with.last() == b.last() && (a + b).last() == b.last());
    }
}

/// A chunk other than `data` leaves the data as it is wherever it stands.
pub proof fn law_data_of_other_chunks(a: Seq<Chunk>, c: Chunk, b: Seq<Chunk>)
    requires
        c.id != seq![0x64u8, 0x61, 0x74, 0x61],
    ensures
        data_of(a + seq![c] + b) == data_of(a + b),
    decreases b.len(),
{
    let with = a + seq![c] + b;
    if b.len() == 0 {
        assert(with.drop_last() =~= a + b);
        assert(with.last() == c);
    } else {
        law_data_of_other_chunks(a, c, b.drop_last());
        assert(with.drop_last() =~= a + seq![c] + b.drop_last());
        assert((a + b).drop_last() =~= a + b.drop_last());
        assert(with.last() == b.last() && (a + b).last() == b.last());
    }
}

/// The last `fmt ` chunk of at least 16 bytes states the format: bytes 2 and 3
/// are the channels, bytes 4 to 7 the rate and bytes 14 and 15 the bits, low
/// byte first. What stands before it does not count, nor what stands behind it.
pub proof fn law_last_format_counts(a: Seq<Chunk>, c: Chunk, b: Seq<Chunk>)
    requires
        c.id == seq![0x66u8, 0x6d, 0x74, 0x20],
        c.body.len() >= 16,
        forall|i: int|
            0 <= i < b.len() ==> (#[trigger] b[i]).id != seq![0x66u8, 0x6d, 0x74, 0x20]
                || b[i].body.len() < 16,
    ensures
        format_of(a + seq![c] + b).channels == c.body[2] + 0x100 * c.body[3],
        format_of(a + seq![c] + b).sample_rate == c.body[4] + 0x100 * c.body[5] + 0x1_0000
            * c.body[6] + 0x100_0000 * c.body[7],
        format_of(a + seq![c] + b).bits == c.body[14] + 0x100 * c.body[15],
    decreases b.len(),
{
    let all = a + seq![c] + b;
    if b.len() == 0 {
        assert(all.last() == c);
    } else {
        law_last_format_counts(a, c, b.drop_last());
        assert(all.drop_last() =~= a + seq![c] + b.drop_last());
        assert(all.last() == b[b.len() - 1]);
    }
}

/// The last `data` chunk holds the data, whole.
pub proof fn law_last_data_counts(a: Seq<Chunk>, c: Chunk, b: Seq<Chunk>)
    requires
        c.id == seq![0x64u8, 0x61, 0x74, 0x61],
        forall|i: int|
            0 <= i < b.len() ==> (#[trigger] b[i]).id != seq![0x64u8, 0x61, 0x74, 0x61],
    ensures
        data_of(a + seq![c] + b) == Some(c.body),
    decreases b.len(),
{
    let all = a + seq![c] + b;
    if b.len() == 0 {
        assert(all.last() == c);
    } else {
        law_last_data_counts(a, c, b.drop_last());
        assert(all.drop_last() =~= a + seq![c] + b.drop_last());
        assert(all.last() == b[b.len() - 1]);
    }
}

/// Chunks of which none states the format are of 16 kHz mono 16-bit PCM.
pub proof fn law_format_is_speech_by_default(chunks: Seq<Chunk>)
    requires
        forall|i: int|
            0 <= i < chunks.len() ==> (#[trigger] chunks[i]).id != seq![0x66u8, 0x6d, 0x74, 0x20]
                || chunks[i].body.len() < 16,
    ensures
        format_of(chunks).channels == 1,
        format_of(chunks).sample_rate == 16_000,
        format_of(chunks).bits == 16,
    decreases chunks.len(),
{
    if chunks.len() > 0 {
        assert(chunks.last() == chunks[chunks.len() - 1]);
        law_format_is_speech_by_default(chunks.drop_last());
    }
}

/// Chunks of which none is a `data` chunk hold no data.
pub proof fn law_no_data_by_default(chunks: Seq<Chunk>)
    requires
        forall|i: int|
            0 <= i < chunks.len() ==> (#[trigger] chunks[i]).id != seq![0x64u8, 0x61, 0x74, 0x61],
    ensures
        data_of(chunks) is None,
    decreases chunks.len(),
{
    if chunks.len() > 0 {
        assert(chunks.last() == chunks[chunks.len() - 1]);
        law_no_data_by_default(chunks.drop_last());
    }
}

/// A whole chunk behind the header of a file is read first, with its id and its
/// body, and the chunks behind it, and behind the pad byte of a body of odd
/// size, are read as if it were not there.
#[verifier::spinoff_prover]
pub proof fn law_chunk_is_read(
    header: Seq<u8>,
    id: Seq<u8>,
    size: Seq<u8>,
    body: Seq<u8>,
    pad: Seq<u8>,
    rest: Seq<u8>,
)
    requires
        header.len() == 12,
        id.len() == 4,
        size.len() == 4,
        size[0] + 0x100 * size[1] + 0x1_0000 * size[2] + 0x100_0000 * size[3] == body.len(),
        pad.len() == body.len() % 2,
    ensures
        chunks_from(header + (id + size + body + pad) + rest, 12) == seq![Chunk { id, body }]
            + chunks_from(header + rest, 12),
{
    let n = body.len() as int;
    let chunk = id + size + body + pad;
    let with = header + chunk + rest;
    assert(with.subrange(12, 16) =~= id);
    assert(with.subrange(16, 20) =~= size);
    assert(with.subrange(20, 20 + n) =~= body);
    lemma_le32_at(with, 16, size);
    assert(le32(with, 16) == n);
    assert(chunks_from(with, 12) == seq![Chunk { id, body }] + chunks_from(
        with,
        20 + n + n % 2,
    ));
    lemma_chunks_after_prefix(header, rest, 0);
    assert((header + chunk).len() == 20 + n + n % 2);
    lemma_chunks_after_prefix(header + chunk, rest, 0);
}

/// A chunk that the end of the file cuts short, or whose pad byte it cuts off,
/// is read with what there is of its body, and is the last one.
#[verifier::spinoff_prover]
pub proof fn law_cut_chunk_is_read(header: Seq<u8>, id: Seq<u8>, size: Seq<u8>, body: Seq<u8>)
    requires
        header.len() == 12,
        id.len() == 4,
        size.len() == 4,
        size[0] + 0x100 * size[1] + 0x1_0000 * size[2] + 0x100_0000 * size[3] >= body.len(),
    ensures
        chunks_from(header + (id + size + body), 12) == seq![Chunk { id, body }],
{
    let bytes = header + (id + size + body);
    let n = body.len() as int;
    assert(bytes.subrange(12, 16) =~= id);
    assert(bytes.subrange(16, 20) =~= size);
    assert(bytes.subrange(20, 20 + n) =~= body);
    lemma_le32_at(bytes, 16, size);
    let k = le32(bytes, 16);
    assert(k >= n);
    assert(chunks_from(bytes, 20 + n + k % 2) =~= Seq::empty());
    assert(chunks_from(bytes, 12) =~= seq![Chunk { id, body }]);
}

/// Less than eight bytes behind the header are no chunk.
pub proof fn law_no_chunk_is_read(header: Seq<u8>, rest: Seq<u8>)
    requires
        header.len() == 12,
        rest.len() < 8,
    ensures
        chunks_from(header + rest, 12) == Seq::<Chunk>::empty(),
{
}

/// The bytes of `chunks`, one behind the other: id, size, body, and a zero
/// behind a body of odd size.
pub open spec fn chunk_bytes(chunks: Seq<Chunk>) -> Seq<u8>
    decreases chunks.len(),
{
    if chunks.len() == 0 {
        Seq::empty()
    } else {
        let c = chunks[0];
        (c.id + le32_bytes(c.body.len() as int) + c.body + Seq::new(c.body.len() % 2, |i: int| 0u8))
            + chunk_bytes(chunks.skip(1))
    }
}

/// All chunks of a file are read, in order, with their ids and bodies.
#[verifier::spinoff_prover]
pub proof fn law_chunks_are_read_back(header: Seq<u8>, chunks: Seq<Chunk>)
    requires
        header.len() == 12,
        forall|i: int|
            0 <= i < chunks.len() ==> (#[trigger] chunks[i]).id.len() == 4 && chunks[i].body.len()
                < 0x1_0000_0000,
    ensures
        chunks_from(header + chunk_bytes(chunks), 12) == chunks,
    decreases chunks.len(),
{
    if chunks.len() == 0 {
        law_no_chunk_is_read(header, chunk_bytes(chunks));
        assert(chunks =~= Seq::empty());
    } else {
        let c = chunks[0];
        let tail = chunks.skip(1);
        let size = le32_bytes(c.body.len() as int);
        let pad = Seq::new(c.body.len() % 2, |i: int| 0u8);
        law_le32_round_trip(c.body.len() as int);
        assert forall|i: int| 0 <= i < tail.len() implies (#[trigger] tail[i]).id.len() == 4
            && tail[i].body.len() < 0x1_0000_0000 by {
            assert(tail[i] == chunks[i + 1]);
        }
        law_chunks_are_read_back(header, tail);
        law_chunk_is_read(header, c.id, size, c.body, pad, chunk_bytes(tail));
        lemma_concat(header, c.id + size + c.body + pad, chunk_bytes(tail));
        assert(chunks =~= seq![c] + tail);
    }
}

/// A file that does not begin with `RIFF`, any four bytes and `WAVE` is refused.
pub proof fn law_other_files_are_refused(bytes: Seq<u8>)
    requires
        bytes.len() < 12 || bytes.take(4) != seq![0x52u8, 0x49, 0x46, 0x46] || bytes.subrange(8, 12)
            != seq![0x57u8, 0x41, 0x56, 0x45],
    ensures
        wav_pcm(bytes) == Err::<Seq<u8>, AsrErrorView>(
            AsrErrorView::ProtocolError("MiMo WAV fallback: not a RIFF/WAVE file"@),
        ),
{
    if bytes.len() >= 12 {
        assert(bytes.take(4) =~= bytes.subrange(0, 4));
    }
}

/// A file of the right kind is refused for its bits unless they are 16, then
/// for want of data, and else is read: its format and data are those of its
/// chunks.
pub proof fn law_wave_files_are_read(bytes: Seq<u8>)
    requires
        bytes.len() >= 12,
        bytes.take(4) == seq![0x52u8, 0x49, 0x46, 0x46],
        bytes.subrange(8, 12) == seq![0x57u8, 0x41, 0x56, 0x45],
    ensures
        format_of(chunks_from(bytes, 12)).bits != 16 ==> wav_pcm(bytes) == Err::<
            Seq<u8>,
            AsrErrorView,
        >(
            AsrErrorView::ProtocolError(
                "MiMo WAV fallback: only 16-bit PCM is supported, got "@ + decimal(
                    format_of(chunks_from(bytes, 12)).bits as nat,
                ) + "-bit"@,
            ),
        ),
        format_of(chunks_from(bytes, 12)).bits == 16 && data_of(chunks_from(bytes, 12)) is None
            ==> wav_pcm(bytes) == Err::<Seq<u8>, AsrErrorView>(
            AsrErrorView::ProtocolError("MiMo WAV fallback: missing data chunk"@),
        ),
        format_of(chunks_from(bytes, 12)).bits == 16 && data_of(chunks_from(bytes, 12)) is Some
            ==> wav_pcm(bytes) == Ok::<Seq<u8>, AsrErrorView>(
            speech_pcm(format_of(chunks_from(bytes, 12)), data_of(chunks_from(bytes, 12))->0),
        ),
{
    assert(bytes.take(4) =~= bytes.subrange(0, 4));
}

/// Audio of one channel, or of none, is resampled if it is not at 16 kHz; audio
/// of several channels is what their mix is.
pub proof fn law_speech_pcm(format: WavFormat, data: Seq<u8>)
    ensures
        format.channels <= 1 && format.sample_rate == 16_000 ==> speech_pcm(format, data) == data,
        format.channels <= 1 && format.sample_rate != 16_000 ==> speech_pcm(format, data)
            == resampled_pcm(data, format.sample_rate as int),
        format.channels > 1 ==> speech_pcm(format, data) == speech_pcm(
            (WavFormat { channels: 1, ..format }),
            pcm_bytes(downmixed(samples(data), format.channels as nat)),
        ),
{
}

/// A file is read as the samples of its last `data` chunk at the channels and
/// the rate that its last `fmt ` chunk of at least 16 bytes states, if that
/// states 16 bits, whatever other chunks stand before, between and behind them.
#[verifier::spinoff_prover]
pub proof fn law_other_chunks_in_a_file_are_skipped(
    header: Seq<u8>,
    a: Seq<Chunk>,
    fmt: Chunk,
    b: Seq<Chunk>,
    data: Chunk,
    c: Seq<Chunk>,
    format: WavFormat,
)
    requires
        header.len() == 12,
        header.take(4) == seq![0x52u8, 0x49, 0x46, 0x46],
        header.skip(8) == seq![0x57u8, 0x41, 0x56, 0x45],
        fmt.id == seq![0x66u8, 0x6d, 0x74, 0x20],
        fmt.body.len() >= 16,
        format.channels == fmt.body[2] + 0x100 * fmt.body[3],
        format.sample_rate == fmt.body[4] + 0x100 * fmt.body[5] + 0x1_0000 * fmt.body[6]
            + 0x100_0000 * fmt.body[7],
        format.bits == 16,
        fmt.body[14] == 16,
        fmt.body[15] == 0,
        data.id == seq![0x64u8, 0x61, 0x74, 0x61],
        forall|i: int|
            0 <= i < (b + seq![data] + c).len() ==> (#[trigger] (b + seq![data] + c)[i]).id
                != seq![0x66u8, 0x6d, 0x74, 0x20] || (b + seq![data] + c)[i].body.len() < 16,
        forall|i: int|
            0 <= i < c.len() ==> (#[trigger] c[i]).id != seq![0x64u8, 0x61, 0x74, 0x61],
        forall|i: int|
            0 <= i < (a + seq![fmt] + (b + seq![data] + c)).len() ==> (#[trigger] (a + seq![fmt] + (
            b + seq![data] + c))[i]).id.len() == 4 && (a + seq![fmt] + (b + seq![data] + c))[i].body.len()
                < 0x1_0000_0000,
    ensures
        wav_pcm(header + chunk_bytes(a + seq![fmt] + (b + seq![data] + c))) == Ok::<
            Seq<u8>,
            AsrErrorView,
        >(speech_pcm(format, data.body)),
{
    let tail = b + seq![data] + c;
    let chunks = a + seq![fmt] + tail;
    let bytes = header + chunk_bytes(chunks);
    law_chunks_are_read_back(header, chunks);
    law_last_format_counts(a, fmt, tail);
    law_last_data_counts(a + seq![fmt] + b, data, c);
    assert(chunks =~= (a + seq![fmt] + b) + seq![data] + c);
    assert(bytes.take(4) =~= header.take(4));
    assert(bytes.subrange(8, 12) =~= header.skip(8));
    assert(format_of(chunks) == format);
    law_wave_files_are_read(bytes);
}

/// A file that was read is known by its format and its data, whole, or by its
/// error.
pub proof fn law_wav_is_format_and_data(audio: WavAudio, e: AsrError)
    ensures
        audio_view(Ok(audio)) == Ok::<(WavFormat, Seq<u8>), AsrErrorView>(
            (audio.format, audio.data@),
        ),
        audio_view(Err(e)) == Err::<(WavFormat, Seq<u8>), AsrErrorView>(e@),
{
}

/// What is made of a file is made of its format and its data, and of nothing
/// else.
pub proof fn law_contents_are_format_and_data(bytes: Seq<u8>)
    ensures
        wav_contents(bytes) matches Ok((format, data)) ==> wav_pcm(bytes) == Ok::<
            Seq<u8>,
            AsrErrorView,
        >(speech_pcm(format, data)) && format == format_of(chunks_from(bytes, 12)) && data_of(
            chunks_from(bytes, 12),
        ) == Some(data),
        wav_contents(bytes) matches Err(e) ==> wav_pcm(bytes) == Err::<Seq<u8>, AsrErrorView>(e),
{
}

} // verus!

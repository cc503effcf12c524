//! MP3 encoding of speech with LAME.
//!
//! LAME computes in floating point, so the bytes it emits are not described
//! here. What is tracked is the state of an encoder: what it was asked to do,
//! which samples it was given, and which bytes it has emitted for them.

use mp3lame_encoder::{BuildError, Builder, EncodeError, Encoder};
use vstd::prelude::*;
use vstd::string::to_string_from_display_ensures;

use crate::error::{bytes_view, AsrError, AsrErrorView};
use crate::pcm::{decode_samples, law_odd_byte_makes_no_sample, law_samples_in_order, samples};
use crate::text::appended;

verus! {

/// The builder of the outside encoder.
#[verifier::external_type_specification]
#[verifier::external_body]
pub struct ExBuilder(Builder);

/// The outside encoder.
#[verifier::external_type_specification]
#[verifier::external_body]
pub struct ExEncoder(Encoder);

/// Why the outside builder refused a setting.
#[verifier::external_type_specification]
#[verifier::external_body]
pub struct ExBuildError(BuildError);

/// Why the outside encoder refused samples.
#[verifier::external_type_specification]
#[verifier::external_body]
pub struct ExEncodeError(EncodeError);

/// What an encoder is asked for.
pub struct Settings {
    pub channels: int,
    pub sample_rate: int,
    pub kbps: int,
    pub quality: int,
}

/// What has passed through an encoder.
pub struct EncoderState {
    pub settings: Settings,
    /// The samples it was given.
    pub input: Seq<i16>,
    /// The bytes it has emitted.
    pub output: Seq<u8>,
    /// Whether it was flushed after the last samples.
    pub flushed: bool,
}

/// What a builder has been asked for so far.
pub uninterp spec fn builder_settings(builder: Builder) -> Settings;

/// What has passed through an encoder so far.
pub uninterp spec fn encoder_state(encoder: Encoder) -> EncoderState;

/// `Builder::new` allocates a builder, or returns `None` where that fails.
pub assume_specification[ Builder::new ]() -> (r: Option<Builder>)
;

/// `Builder::set_num_channels` accepts one or two channels, and then changes
/// that setting alone.
pub assume_specification[ Builder::set_num_channels ](builder: &mut Builder, num: u8) -> (r: Result<
    (),
    BuildError,
>)
    ensures
        r is Ok <==> 1 <= num <= 2,
        r is Ok ==> builder_settings(*final(builder)) == (Settings {
            channels: num as int,
            ..builder_settings(*old(builder))
        }),
        r is Err ==> builder_settings(*final(builder)) == builder_settings(*old(builder)),
;

/// `Builder::set_sample_rate` accepts every rate but zero, and then changes
/// that setting alone; LAME holds it in a 32-bit signed integer.
pub assume_specification[ Builder::set_sample_rate ](builder: &mut Builder, rate: u32) -> (r: Result<
    (),
    BuildError,
>)
    ensures
        r is Ok <==> rate > 0,
        r is Ok && rate <= i32::MAX ==> builder_settings(*final(builder)) == (Settings {
            sample_rate: rate as int,
            ..builder_settings(*old(builder))
        }),
        r is Err ==> builder_settings(*final(builder)) == builder_settings(*old(builder)),
;

/// `Builder::set_brate` succeeds with each of the outside `Bitrate` values, of
/// which this converts one, and changes that setting alone.
#[verifier::external_body]
fn set_brate(builder: &mut Builder, kbps: u16) -> (r: Result<(), BuildError>)
    requires
        kbps == 48,
    ensures
        r is Ok,
        builder_settings(*final(builder)) == (Settings {
            kbps: kbps as int,
            ..builder_settings(*old(builder))
        }),
{
    let _ = kbps;
    builder.set_brate(mp3lame_encoder::Bitrate::Kbps48)
}

/// `Builder::set_quality` succeeds with each of the outside `Quality` values,
/// of which this converts one, and changes that setting alone.
#[verifier::external_body]
fn set_quality(builder: &mut Builder, quality: u8) -> (r: Result<(), BuildError>)
    requires
        quality == 5,
    ensures
        r is Ok,
        builder_settings(*final(builder)) == (Settings {
            quality: quality as int,
            ..builder_settings(*old(builder))
        }),
{
    let _ = quality;
    builder.set_quality(mp3lame_encoder::Quality::Good)
}

/// `Builder::build` makes an encoder of the builder's settings through which
/// nothing has passed. That it succeeds is not claimed: LAME may run out of
/// memory.
pub assume_specification[ Builder::build ](builder: Builder) -> (r: Result<Encoder, BuildError>)
    ensures
        r matches Ok(encoder) ==> encoder_state(encoder) == (EncoderState {
            settings: builder_settings(builder),
            input: Seq::empty(),
            output: Seq::empty(),
            flushed: false,
        }),
;

/// The room that an encoder is given for what it may emit for `n` samples.
pub open spec fn room_for(n: int) -> int {
    n + (n + 3) / 4 + 7200
}

/// `max_required_buffer_size` adds a quarter, rounded up, and the 7200 bytes of
/// one frame to the number of samples, in wrapping arithmetic.
pub assume_specification[ mp3lame_encoder::max_required_buffer_size ](sample_number: usize) -> (r:
    usize)
    ensures
        r == if room_for(sample_number as int) <= usize::MAX {
            room_for(sample_number as int)
        } else {
            room_for(sample_number as int) - usize::MAX - 1
        },
;

/// `Encoder::encode_to_vec` on mono samples, into a fresh buffer of `room`
/// bytes: without that much spare capacity LAME would write past it. The result
/// is what is emitted. An encoder of two channels would take no samples from a
/// mono buffer, and one that has taken samples before would abort on a count
/// that LAME's 32-bit signed integer cannot hold, so both are left out. A fresh
/// encoder survives such a count, but nothing is claimed of it then.
#[verifier::external_body]
fn encode_to_vec(encoder: &mut Encoder, pcm: &[i16], room: usize) -> (r: Result<
    Vec<u8>,
    EncodeError,
>)
    requires
        encoder_state(*old(encoder)).settings.channels == 1,
        encoder_state(*old(encoder)).input.len() == 0,
        room == room_for(pcm@.len() as int),
    ensures
        r matches Ok(out) ==> pcm@.len() <= i32::MAX ==> encoder_state(*final(encoder)) == (
        EncoderState {
            settings: encoder_state(*old(encoder)).settings,
            input: encoder_state(*old(encoder)).input + pcm@,
            output: encoder_state(*old(encoder)).output + out@,
            flushed: encoder_state(*old(encoder)).flushed && pcm@.len() == 0,
        }),
{
    let mut out = Vec::with_capacity(room);
    let written = encoder.encode_to_vec(mp3lame_encoder::MonoPcm(pcm), &mut out);
    written.map(|_| out)
}

/// `Encoder::flush_to_vec` with `FlushNoGap`, into a fresh buffer of `room`
/// bytes, of which its documentation asks for 7200. The result is what is
/// emitted.
#[verifier::external_body]
fn flush_to_vec(encoder: &mut Encoder, room: usize) -> (r: Result<Vec<u8>, EncodeError>)
    requires
        room == 7200,
    ensures
        r matches Ok(out) ==> encoder_state(*final(encoder)) == (EncoderState {
            settings: encoder_state(*old(encoder)).settings,
            input: encoder_state(*old(encoder)).input,
            output: encoder_state(*old(encoder)).output + out@,
            flushed: true,
        }),
{
    let mut out = Vec::with_capacity(room);
    let written = encoder.flush_to_vec::<mp3lame_encoder::FlushNoGap>(&mut out);
    written.map(|_| out)
}

/// What speech is encoded with: 16 kHz mono at a constant 48 kbit/s, which is
/// about 0.36 MB a minute.
pub open spec fn speech_settings() -> Settings {
    Settings { channels: 1, sample_rate: 16_000, kbps: 48, quality: 5 }
}

/// Whether an encoder of the speech settings, given the samples of `pcm` and
/// flushed, has emitted `mp3`.
pub open spec fn is_mp3_of(mp3: Seq<u8>, pcm: Seq<u8>) -> bool {
    exists|encoder: Encoder| #[trigger]
        encoder_state(encoder) == (EncoderState {
            settings: speech_settings(),
            input: samples(pcm),
            output: mp3,
            flushed: true,
        })
}

/// Why speech could not be encoded, with what the encoder said of it.
#[derive(Debug)]
pub enum Mp3Failure {
    /// There was no memory for a builder.
    NoBuilder,
    /// A setting was refused.
    Setup(String),
    /// The samples were refused.
    Encode(String),
    /// The flush was refused.
    Flush(String),
}

/// Whether `text` is what some error of the builder displays.
pub open spec fn displays_build_error(text: String) -> bool {
    exists|e: BuildError| #[trigger] to_string_from_display_ensures(&e, text)
}

/// Whether `text` is what some error of the encoder displays.
pub open spec fn displays_encode_error(text: String) -> bool {
    exists|e: EncodeError| #[trigger] to_string_from_display_ensures(&e, text)
}

impl Mp3Failure {
    /// The error that reports the failure.
    pub open spec fn error(self) -> AsrErrorView {
        match self {
            Mp3Failure::NoBuilder => AsrErrorView::ProtocolError("Failed to create MP3 encoder"@),
            Mp3Failure::Setup(cause) => AsrErrorView::ProtocolError(
                "MP3 encoder setup failed: "@ + cause@,
            ),
            Mp3Failure::Encode(cause) => AsrErrorView::ProtocolError(
                "MP3 encode failed: "@ + cause@,
            ),
            Mp3Failure::Flush(cause) => AsrErrorView::ProtocolError("MP3 flush failed: "@ + cause@),
        }
    }

    /// Whether the cause is what one of the encoder's own errors displays.
    pub open spec fn quotes_encoder(self) -> bool {
        match self {
            Mp3Failure::NoBuilder => true,
            Mp3Failure::Setup(cause) => displays_build_error(cause),
            Mp3Failure::Encode(cause) => displays_encode_error(cause),
            Mp3Failure::Flush(cause) => displays_encode_error(cause),
        }
    }

    /// Reports the failure.
    pub fn report(self) -> (r: AsrError)
        ensures
            r@ == self.error(),
    {
        AsrError::ProtocolError(
            match self {
                Mp3Failure::NoBuilder => "Failed to create MP3 encoder".to_string(),
                Mp3Failure::Setup(cause) => appended("MP3 encoder setup failed: ", cause.as_str()),
                Mp3Failure::Encode(cause) => appended("MP3 encode failed: ", cause.as_str()),
                Mp3Failure::Flush(cause) => appended("MP3 flush failed: ", cause.as_str()),
            },
        )
    }
}

/// What the answer to the request for a builder amounts to.
pub fn after_new(made: Option<Builder>) -> (r: Result<Builder, Mp3Failure>)
    ensures
        match made {
            Some(builder) => r == Ok::<Builder, Mp3Failure>(builder),
            None => r == Err::<Builder, Mp3Failure>(Mp3Failure::NoBuilder),
        },
{
    match made {
        Some(builder) => Ok(builder),
        None => Err(Mp3Failure::NoBuilder),
    }
}

/// What a refused setting, or a refusal to build, amounts to.
pub fn refused(cause: BuildError) -> (r: Mp3Failure)
    ensures
        r matches Mp3Failure::Setup(text) && to_string_from_display_ensures(&cause, text),
{
    Mp3Failure::Setup(cause.to_string())
}

/// What the builder's answer to a setting amounts to.
pub fn after_setting(set: Result<(), BuildError>) -> (r: Result<(), Mp3Failure>)
    ensures
        match set {
            Ok(_) => r is Ok,
            Err(cause) => r matches Err(f) && (f matches Mp3Failure::Setup(text)
                && to_string_from_display_ensures(&cause, text)),
        },
{
    match set {
        Ok(_) => Ok(()),
        Err(cause) => Err(refused(cause)),
    }
}

/// What the builder's answer to the request for an encoder amounts to.
pub fn after_build(built: Result<Encoder, BuildError>) -> (r: Result<Encoder, Mp3Failure>)
    ensures
        match built {
            Ok(encoder) => r == Ok::<Encoder, Mp3Failure>(encoder),
            Err(cause) => r matches Err(f) && (f matches Mp3Failure::Setup(text)
                && to_string_from_display_ensures(&cause, text)),
        },
{
    match built {
        Ok(encoder) => Ok(encoder),
        Err(cause) => Err(refused(cause)),
    }
}

/// What the encoder's answer to the samples amounts to.
pub fn after_encode(encoded: Result<Vec<u8>, EncodeError>) -> (r: Result<Vec<u8>, Mp3Failure>)
    ensures
        match encoded {
            Ok(bytes) => r == Ok::<Vec<u8>, Mp3Failure>(bytes),
            Err(cause) => r matches Err(f) && (f matches Mp3Failure::Encode(text)
                && to_string_from_display_ensures(&cause, text)),
        },
{
    match encoded {
        Ok(bytes) => Ok(bytes),
        Err(cause) => Err(Mp3Failure::Encode(cause.to_string())),
    }
}

/// What the encoder's answer to the flush amounts to, once `mp3` was emitted
/// for the samples: both together, or a failure and nothing of `mp3`.
pub fn after_flush(mp3: Vec<u8>, flushed: Result<Vec<u8>, EncodeError>) -> (r: Result<
    Vec<u8>,
    Mp3Failure,
>)
    ensures
        match flushed {
            Ok(rest) => r matches Ok(whole) && whole@ == mp3@ + rest@,
            Err(cause) => r matches Err(f) && (f matches Mp3Failure::Flush(text)
                && to_string_from_display_ensures(&cause, text)),
        },
{
    match flushed {
        Ok(rest) => {
            let mut whole = mp3;
            let mut rest = rest;
            whole.append(&mut rest);
            Ok(whole)
        },
        Err(cause) => Err(Mp3Failure::Flush(cause.to_string())),
    }
}

/// Asks a builder for the speech settings, all of which it accepts.
fn set_up(builder: &mut Builder) -> (r: Result<(), Mp3Failure>)
    ensures
        r is Ok,
        builder_settings(*final(builder)) == speech_settings(),
{
    if let Err(failure) = after_setting(builder.set_num_channels(1)) {
        return Err(failure);
    }
    if let Err(failure) = after_setting(builder.set_sample_rate(16_000)) {
        return Err(failure);
    }
    if let Err(failure) = after_setting(set_brate(builder, 48)) {
        return Err(failure);
    }
    after_setting(set_quality(builder, 5))
}

/// Makes an encoder of the speech settings. A failure is that of making the
/// builder or the encoder: no setting is refused.
fn speech_encoder() -> (r: Result<Encoder, Mp3Failure>)
    ensures
        r matches Ok(encoder) ==> encoder_state(encoder) == (EncoderState {
            settings: speech_settings(),
            input: Seq::empty(),
            output: Seq::empty(),
            flushed: false,
        }),
        r matches Err(f) ==> (f is NoBuilder || f is Setup) && f.quotes_encoder(),
{
    let mut builder = match after_new(Builder::new()) {
        Ok(builder) => builder,
        Err(failure) => {
            return Err(failure);
        },
    };
    if let Err(failure) = set_up(&mut builder) {
        return Err(failure);
    }
    after_build(builder.build())
}

/// Runs the samples of `pcm` through an encoder of the speech settings.
fn encode_speech(pcm: &[u8]) -> (r: Result<Vec<u8>, Mp3Failure>)
    ensures
        r matches Ok(mp3) ==> pcm@.len() / 2 <= i32::MAX ==> is_mp3_of(mp3@, pcm@),
        r matches Err(f) ==> f.quotes_encoder(),
{
    let samples: Vec<i16> = decode_samples(pcm);
    assert(samples@.len() == pcm.len() / 2);
    let mut encoder = match speech_encoder() {
        Ok(encoder) => encoder,
        Err(failure) => {
            return Err(failure);
        },
    };
    let room: usize = mp3lame_encoder::max_required_buffer_size(samples.len());
    let encoded = encode_to_vec(&mut encoder, samples.as_slice(), room);
    let mp3: Vec<u8> = match after_encode(encoded) {
        Ok(mp3) => mp3,
        Err(failure) => {
            return Err(failure);
        },
    };
    let flushed = flush_to_vec(&mut encoder, 7200);
    proof {
        assert(Seq::<u8>::empty() + mp3@ =~= mp3@);
        assert(Seq::<i16>::empty() + samples@ =~= samples@);
    }
    after_flush(mp3, flushed)
}

/// What a run of the encoder amounts to: its bytes, or the report of its
/// failure.
pub fn mp3_outcome(run: Result<Vec<u8>, Mp3Failure>) -> (r: Result<Vec<u8>, AsrError>)
    ensures
        bytes_view(r) == match run {
            Ok(mp3) => Ok(mp3@),
            Err(failure) => Err(failure.error()),
        },
{
    match run {
        Ok(mp3) => Ok(mp3),
        Err(failure) => Err(failure.report()),
    }
}

/// What encoding `pcm` to MP3 may end with: its MP3, or the report of a failure
/// that quotes the encoder. (LAME counts samples in a 32-bit signed integer: of
/// PCM with more nothing is said.)
pub open spec fn may_end_with(pcm: Seq<u8>, r: Result<Seq<u8>, AsrErrorView>) -> bool {
    match r {
        Ok(mp3) => pcm.len() / 2 <= i32::MAX ==> is_mp3_of(mp3, pcm),
        Err(e) => exists|f: Mp3Failure| #[trigger] f.quotes_encoder() && e == f.error(),
    }
}

/// Encodes 16 kHz mono signed 16-bit little-endian PCM to MP3.
///
/// Whether LAME has the memory it needs, and which bytes it emits, is not known
/// here. What follows from each of its answers stands with [`after_new`],
/// [`after_setting`], [`after_build`], [`after_encode`], [`after_flush`] and
/// [`mp3_outcome`], through which all of them go.
pub fn pcm16_mono_16k_to_mp3(pcm: &[u8]) -> (r: Result<Vec<u8>, AsrError>)
    ensures
        may_end_with(pcm@, bytes_view(r)),
{
    mp3_outcome(encode_speech(pcm))
}

/// Every failure of the encoder is reported as a protocol error.
pub proof fn law_failure_is_a_protocol_error(pcm: Seq<u8>, e: AsrErrorView)
    requires
        may_end_with(pcm, Err(e)),
    ensures
        e is ProtocolError,
{
}

/// A byte left over behind whole samples changes nothing: what is the MP3 of
/// PCM with it is the MP3 of PCM without it, and encoding may end with the same.
pub proof fn law_odd_byte_is_not_encoded(
    pcm: Seq<u8>,
    x: u8,
    mp3: Seq<u8>,
    r: Result<Seq<u8>, AsrErrorView>,
)
    requires
        pcm.len() % 2 == 0,
    ensures
        is_mp3_of(mp3, pcm.push(x)) == is_mp3_of(mp3, pcm),
        may_end_with(pcm.push(x), r) == may_end_with(pcm, r),
{
    law_odd_byte_makes_no_sample(pcm, x);
}

/// Whether the encoder emits the same bytes whenever it encodes `pcm`.
pub open spec fn is_repeatable(pcm: Seq<u8>) -> bool {
    forall|a: Seq<u8>, b: Seq<u8>| #[trigger]
        is_mp3_of(a, pcm) && #[trigger] is_mp3_of(b, pcm) ==> a == b
}

/// Where the encoder emits the same bytes for the same PCM, it emits the same
/// bytes for PCM with a byte left over behind whole samples as without it.
pub proof fn law_odd_byte_leaves_mp3_as_it_is(
    pcm: Seq<u8>,
    x: u8,
    without: Result<Seq<u8>, AsrErrorView>,
    with: Result<Seq<u8>, AsrErrorView>,
)
    requires
        pcm.len() % 2 == 0,
        pcm.len() / 2 <= i32::MAX,
        is_repeatable(pcm),
        may_end_with(pcm, without),
        may_end_with(pcm.push(x), with),
        without is Ok,
        with is Ok,
    ensures
        with == without,
{
    law_odd_byte_is_not_encoded(pcm, x, with->Ok_0, with);
    assert(is_mp3_of(with->Ok_0, pcm) && is_mp3_of(without->Ok_0, pcm));
}

/// What is returned as the MP3 of PCM was emitted, whole, by an encoder that was
/// asked for one channel at 16 kHz, 48 kbit/s and quality 5, that was given one
/// sample for every two bytes of the PCM, in order, and that was flushed. A
/// sample is the number that its bytes are, low byte first, less 65536 where
/// its top bit is set.
pub proof fn law_encoder_is_given_the_samples_in_order(pcm: Seq<u8>, mp3: Seq<u8>)
    requires
        pcm.len() / 2 <= 0x7fff_ffff,
        may_end_with(pcm, Ok(mp3)),
    ensures
        exists|encoder: Encoder|
            {
                let state = #[trigger] encoder_state(encoder);
                &&& state.settings.channels == 1
                &&& state.settings.sample_rate == 16_000
                &&& state.settings.kbps == 48
                &&& state.settings.quality == 5
                &&& state.input.len() == pcm.len() / 2
                &&& forall|i: int|
                    0 <= i < pcm.len() / 2 ==> #[trigger] state.input[i] == pcm[2 * i] + 0x100
                        * pcm[2 * i + 1] - if pcm[2 * i + 1] >= 0x80 {
                        0x1_0000int
                    } else {
                        0
                    }
                &&& state.output == mp3
                &&& state.flushed
            },
{
    law_samples_in_order(pcm);
    assert(is_mp3_of(mp3, pcm));
    let encoder = choose|encoder: Encoder|
        {
            let state = #[trigger] encoder_state(encoder);
            &&& state.settings == speech_settings()
            &&& state.input == samples(pcm)
            &&& state.output == mp3
            &&& state.flushed
        };
    assert(encoder_state(encoder).input == samples(pcm));
}

/// A failure is reported with what was attempted and, whole, what the encoder
/// said of it.
pub proof fn law_failure_is_reported_whole(cause: String)
    ensures
        Mp3Failure::NoBuilder.error() == AsrErrorView::ProtocolError(
            "Failed to create MP3 encoder"@,
        ),
        Mp3Failure::Setup(cause).error() == AsrErrorView::ProtocolError(
            "MP3 encoder setup failed: "@ + cause@,
        ),
        Mp3Failure::Encode(cause).error() == AsrErrorView::ProtocolError(
            "MP3 encode failed: "@ + cause@,
        ),
        Mp3Failure::Flush(cause).error() == AsrErrorView::ProtocolError(
            "MP3 flush failed: "@ + cause@,
        ),
{
}

/// An error of encoding is that there was no builder, or it quotes an error of
/// the builder or of the encoder.
pub proof fn law_errors_quote_the_encoder(pcm: Seq<u8>, e: AsrErrorView)
    requires
        may_end_with(pcm, Err(e)),
    ensures
        ({
            ||| e == AsrErrorView::ProtocolError("Failed to create MP3 encoder"@)
            ||| exists|cause: BuildError, text: String| #[trigger]
                to_string_from_display_ensures(&cause, text) && e == AsrErrorView::ProtocolError(
                    "MP3 encoder setup failed: "@ + text@,
                )
            ||| exists|cause: EncodeError, text: String| #[trigger]
                to_string_from_display_ensures(&cause, text) && (e == AsrErrorView::ProtocolError(
                    "MP3 encode failed: "@ + text@,
                ) || e == AsrErrorView::ProtocolError("MP3 flush failed: "@ + text@))
        }),
{
    let f = choose|f: Mp3Failure| #[trigger] f.quotes_encoder() && e == f.error();
    match f {
        Mp3Failure::NoBuilder => {},
        Mp3Failure::Setup(text) => {
            let cause = choose|cause: BuildError| #[trigger]
                to_string_from_display_ensures(&cause, text);
            assert(to_string_from_display_ensures(&cause, text));
        },
        Mp3Failure::Encode(text) => {
            let cause = choose|cause: EncodeError| #[trigger]
                to_string_from_display_ensures(&cause, text);
            assert(to_string_from_display_ensures(&cause, text));
        },
        Mp3Failure::Flush(text) => {
            let cause = choose|cause: EncodeError| #[trigger]
                to_string_from_display_ensures(&cause, text);
            assert(to_string_from_display_ensures(&cause, text));
        },
    }
}

} // verus!

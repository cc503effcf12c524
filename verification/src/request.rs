//! The request: where it goes and what it holds.

use base64::engine::general_purpose::STANDARD;
use base64::Engine;
use vstd::prelude::*;

use crate::audio::{PreparedAudio, PreparedAudioView};
use crate::text::{
    appended, is_white_space, law_blank_iff_trims_to_nothing,
    law_surrounding_white_space_is_trimmed, law_trim_is_idempotent, law_without_trailing,
    lemma_nothing_to_trim, trim_end_char, trimmed, without_trailing,
};

verus! {

/// The transcript is emitted as completion tokens, of which the model accepts
/// at most 4096. The default of the service is half of that, which would cut
/// longer recordings off, so the ceiling is always asked for.
pub const MAX_COMPLETION_TOKENS: u32 = 4096;

/// How long a request may take before it is given up, in seconds.
pub const REQUEST_TIMEOUT_SECS: u64 = 120;

/// The settings that the client reads.
#[derive(Debug)]
pub struct AsrConfig {
    pub mimo_api_key: String,
    pub mimo_base_url: String,
    pub mimo_model: String,
    pub mimo_language: String,
    /// Whether the settings passed validation where they were loaded.
    pub valid: bool,
}

impl AsrConfig {
    /// Whether the settings can be used.
    pub fn is_valid(&self) -> (r: bool)
        ensures
            r == self.valid,
    {
        self.valid
    }
}

/// The language that is asked for: the configured one without surrounding
/// white space, or `auto` where none is configured.
pub open spec fn normalized_language(language: Seq<char>) -> Seq<char> {
    if trimmed(language).len() == 0 {
        "auto"@
    } else {
        trimmed(language)
    }
}

/// Normalizes a configured language.
pub fn normalize_language(language: &str) -> (r: String)
    ensures
        r@ == normalized_language(language@),
{
    let language = language.trim();
    if language.is_empty() {
        "auto".to_string()
    } else {
        language.to_string()
    }
}

/// A language that is asked for is not blank and has no surrounding white
/// space, and normalizing it again does not change it.
pub proof fn law_normalized_language(language: Seq<char>)
    ensures
        normalized_language(language).len() > 0,
        trimmed(normalized_language(language)) == normalized_language(language),
        normalized_language(normalized_language(language)) == normalized_language(language),
{
    reveal_strlit("auto");
    law_trim_is_idempotent(language);
    lemma_nothing_to_trim("auto"@);
}

/// A blank language is asked for as `auto`.
pub proof fn law_blank_language_is_auto(language: Seq<char>)
    requires
        forall|i: int| 0 <= i < language.len() ==> is_white_space(#[trigger] language[i]),
    ensures
        normalized_language(language) == "auto"@,
{
    law_blank_iff_trims_to_nothing(language);
}

/// Where requests for a base URL go.
pub open spec fn endpoint_of(base_url: Seq<char>) -> Seq<char> {
    without_trailing(base_url, '/') + "/chat/completions"@
}

/// Where requests for a base URL go.
pub fn endpoint(base_url: &str) -> (r: String)
    ensures
        r@ == endpoint_of(base_url@),
{
    appended(trim_end_char(base_url, '/'), "/chat/completions")
}

/// A slash at the end of the base URL makes no difference.
pub proof fn law_trailing_slash_is_ignored(base_url: Seq<char>)
    ensures
        endpoint_of(base_url.push('/')) == endpoint_of(base_url),
{
    assert(base_url.push('/').drop_last() =~= base_url);
}

/// The path is joined to the base URL by a single slash.
pub proof fn law_single_slash(base_url: Seq<char>)
    ensures
        ({
            let base = without_trailing(base_url, '/');
            &&& base.is_prefix_of(endpoint_of(base_url))
            &&& base.len() > 0 ==> base.last() != '/'
            &&& endpoint_of(base_url)[base.len() as int] == '/'
            &&& endpoint_of(base_url)[base.len() as int + 1] != '/'
        }),
{
    reveal_strlit("/chat/completions");
    law_without_trailing(base_url, '/');
}

/// The character that stands for six bits.
pub open spec fn base64_digit(bits: int) -> char {
    if bits < 26 {
        ('A' as u32 + bits) as char
    } else if bits < 52 {
        ('a' as u32 + (bits - 26)) as char
    } else if bits < 62 {
        ('0' as u32 + (bits - 52)) as char
    } else if bits == 62 {
        '+'
    } else {
        '/'
    }
}

/// Byte `i`, or zero past the end.
pub open spec fn byte_or_zero(bytes: Seq<u8>, i: int) -> int {
    if i < bytes.len() {
        bytes[i] as int
    } else {
        0
    }
}

/// The 24-bit number that the three bytes from `i` on make up.
pub open spec fn triple(bytes: Seq<u8>, i: int) -> int {
    byte_or_zero(bytes, i) * 65536 + byte_or_zero(bytes, i + 1) * 256 + byte_or_zero(bytes, i + 2)
}

/// Six of the bits of a 24-bit number, the highest first.
pub open spec fn six_bits(n: int, place: int) -> int {
    if place == 0 {
        n / 262144
    } else if place == 1 {
        n / 4096 % 64
    } else if place == 2 {
        n / 64 % 64
    } else {
        n % 64
    }
}

/// The length of the Base64 text of `n` bytes.
pub open spec fn base64_len(n: int) -> int {
    (n + 2) / 3 * 4
}

/// The Base64 text of `bytes` in the standard alphabet: four characters for
/// every three bytes, with `=` in place of those that hold no bits of a byte.
pub open spec fn base64_text(bytes: Seq<u8>) -> Seq<char> {
    Seq::new(
        base64_len(bytes.len() as int) as nat,
        |i: int|
            if i / 4 * 3 + i % 4 > bytes.len() {
                '='
            } else {
                base64_digit(six_bits(triple(bytes, i / 4 * 3), i % 4))
            },
    )
}

/// `Engine::encode` of the `STANDARD` engine writes Base64 in the standard
/// alphabet with padding. It panics where the text is longer than a string can
/// be.
#[verifier::external_body]
fn base64_encode(bytes: &[u8]) -> (r: String)
    requires
        base64_len(bytes@.len() as int) <= isize::MAX,
    ensures
        r@ == base64_text(bytes@),
{
    STANDARD.encode(bytes)
}

/// Audio inside a `data:` URI.
pub open spec fn data_uri_of(audio: PreparedAudioView) -> Seq<char> {
    "data:"@ + audio.mime_type + ";base64,"@ + base64_text(audio.bytes)
}

/// Whether the text of `n` bytes fits a string.
pub open spec fn fits_data_uri(n: int) -> bool {
    base64_len(n) <= isize::MAX
}

/// Whether audio is short enough for a `data:` URI.
pub fn can_send(audio: &PreparedAudio) -> (r: bool)
    ensures
        r == fits_data_uri(audio.bytes@.len() as int),
{
    let n: u128 = audio.bytes.len() as u128;
    (n + 2) / 3 * 4 <= isize::MAX as u128
}

/// Puts audio inside a `data:` URI.
pub fn data_uri(audio: &PreparedAudio) -> (r: String)
    requires
        fits_data_uri(audio.bytes@.len() as int),
    ensures
        r@ == data_uri_of(audio@),
{
    let mut uri = appended("data:", audio.mime_type);
    uri.append(";base64,");
    uri.append(base64_encode(audio.bytes.as_slice()).as_str());
    uri
}

/// Different six bits have different digits, and none has the pad character.
proof fn lemma_digits_differ(a: int, b: int)
    requires
        0 <= a < 64,
        0 <= b < 64,
    ensures
        base64_digit(a) == base64_digit(b) ==> a == b,
        base64_digit(a) != '=',
{
}

/// The bits of a triple, six at a time, determine it.
proof fn lemma_six_bits(n: int)
    requires
        0 <= n < 0x100_0000,
    ensures
        0 <= six_bits(n, 0) < 64,
        0 <= six_bits(n, 1) < 64,
        0 <= six_bits(n, 2) < 64,
        0 <= six_bits(n, 3) < 64,
        n == six_bits(n, 0) * 262144 + six_bits(n, 1) * 4096 + six_bits(n, 2) * 64 + six_bits(n, 3),
{
}

/// The bits past the last byte of a triple are zero.
proof fn lemma_padding_bits(bytes: Seq<u8>, i: int, place: int)
    requires
        0 <= i < bytes.len(),
        0 <= place < 4,
        i + place > bytes.len(),
    ensures
        six_bits(triple(bytes, i), place) == 0,
{
    let n = triple(bytes, i);
    let b = byte_or_zero(bytes, i);
    if i + 1 >= bytes.len() {
        assert(n == b * 65536);
        assert(n / 64 % 64 == 0 && n % 64 == 0);
    } else {
        assert(i + 2 == bytes.len());
        assert(n == b * 65536 + byte_or_zero(bytes, i + 1) * 256);
        assert(n % 64 == 0);
    }
}

/// The bytes of a triple determine it, and it them.
proof fn lemma_triple(bytes: Seq<u8>, i: int)
    requires
        0 <= i < bytes.len(),
    ensures
        0 <= triple(bytes, i) < 0x100_0000,
        byte_or_zero(bytes, i) == triple(bytes, i) / 65536,
        byte_or_zero(bytes, i + 1) == triple(bytes, i) / 256 % 256,
        byte_or_zero(bytes, i + 2) == triple(bytes, i) % 256,
{
}

/// Where texts agree, neither comes from fewer bytes than the other.
proof fn lemma_text_determines_length(a: Seq<u8>, b: Seq<u8>)
    requires
        base64_text(a) == base64_text(b),
    ensures
        a.len() >= b.len(),
{
    let n = a.len() as int;
    let m = b.len() as int;
    assert(base64_text(a).len() == (n + 2) / 3 * 4);
    assert(base64_text(b).len() == (m + 2) / 3 * 4);
    if n < m {
        let q = (m + 2) / 3 - 1;
        assert((n + 2) / 3 - 1 == q);
        let p = n + 1 - 3 * q;
        assert(0 <= q && 3 * q < n && m <= 3 * q + 3);
        assert(0 <= p < 4);
        let i = 4 * q + p;
        assert(i / 4 == q && i % 4 == p);
        assert(base64_text(a)[i] == '=');
        lemma_triple(b, 3 * q);
        lemma_six_bits(triple(b, 3 * q));
        lemma_digits_differ(six_bits(triple(b, 3 * q), p), 0);
        assert(base64_text(b)[i] == base64_digit(six_bits(triple(b, 3 * q), p)));
    }
}

/// Six bits at one place of two agreeing texts of equally many bytes are equal.
proof fn lemma_six_bits_agree(a: Seq<u8>, b: Seq<u8>, q: int, place: int)
    requires
        base64_text(a) == base64_text(b),
        a.len() == b.len(),
        0 <= q,
        3 * q < a.len(),
        0 <= place < 4,
    ensures
        six_bits(triple(a, 3 * q), place) == six_bits(triple(b, 3 * q), place),
{
    let i = 4 * q + place;
    assert(i / 4 == q && i % 4 == place);
    assert(i < base64_len(a.len() as int));
    if 3 * q + place > a.len() {
        lemma_padding_bits(a, 3 * q, place);
        lemma_padding_bits(b, 3 * q, place);
    } else {
        let x = six_bits(triple(a, 3 * q), place);
        let y = six_bits(triple(b, 3 * q), place);
        lemma_triple(a, 3 * q);
        lemma_triple(b, 3 * q);
        lemma_six_bits(triple(a, 3 * q));
        lemma_six_bits(triple(b, 3 * q));
        assert(base64_text(a)[i] == base64_digit(x));
        assert(base64_text(b)[i] == base64_digit(y));
        lemma_digits_differ(x, y);
    }
}

/// The Base64 text of bytes determines them.
pub proof fn law_base64_is_lossless(a: Seq<u8>, b: Seq<u8>)
    requires
        base64_text(a) == base64_text(b),
    ensures
        a == b,
{
    lemma_text_determines_length(a, b);
    lemma_text_determines_length(b, a);
    assert forall|i: int| 0 <= i < a.len() implies a[i] == b[i] by {
        let q = i / 3;
        assert(i == 3 * q || i == 3 * q + 1 || i == 3 * q + 2);
        lemma_six_bits_agree(a, b, q, 0);
        lemma_six_bits_agree(a, b, q, 1);
        lemma_six_bits_agree(a, b, q, 2);
        lemma_six_bits_agree(a, b, q, 3);
        lemma_triple(a, 3 * q);
        lemma_triple(b, 3 * q);
        lemma_six_bits(triple(a, 3 * q));
        lemma_six_bits(triple(b, 3 * q));
        assert(triple(a, 3 * q) == triple(b, 3 * q));
    }
    assert(a =~= b);
}

/// A `data:` URI holds its audio whole: audio of one media type is determined
/// by its URI.
pub proof fn law_data_uri_is_lossless(a: PreparedAudioView, b: PreparedAudioView)
    requires
        a.mime_type == b.mime_type,
        data_uri_of(a) == data_uri_of(b),
    ensures
        a.bytes == b.bytes,
{
    let head = "data:"@ + a.mime_type + ";base64,"@;
    let k = head.len() as int;
    assert(data_uri_of(a).skip(k) =~= base64_text(a.bytes));
    assert(data_uri_of(b).skip(k) =~= base64_text(b.bytes));
    law_base64_is_lossless(a.bytes, b.bytes);
}

/// The options of a transcription.
#[derive(Debug)]
pub struct MimoAsrOptions {
    pub language: String,
}

/// Audio in a message.
#[derive(Debug)]
pub struct MimoInputAudio {
    /// `data:{mime};base64,{payload}`
    pub data: String,
}

/// A part of the content of a message.
#[derive(Debug)]
pub struct MimoContentPart {
    pub part_type: &'static str,
    pub input_audio: MimoInputAudio,
}

/// A message.
#[derive(Debug)]
pub struct MimoMessage {
    pub role: &'static str,
    pub content: Vec<MimoContentPart>,
}

/// The body of a request.
#[derive(Debug)]
pub struct MimoAsrRequest {
    pub model: String,
    pub max_tokens: u32,
    pub messages: Vec<MimoMessage>,
    pub asr_options: MimoAsrOptions,
}

/// A request with the place it goes to and the key it is authorized by.
#[derive(Debug)]
pub struct TranscriptionCall {
    pub endpoint: String,
    pub api_key: String,
    pub request: MimoAsrRequest,
}

/// Whether `request` asks for the transcript of `audio` under `config`: a
/// single user message with the audio as its only part, with as many tokens as
/// the model accepts.
pub open spec fn asks_for(
    request: MimoAsrRequest,
    config: AsrConfig,
    audio: PreparedAudioView,
) -> bool {
    &&& request.model@ == config.mimo_model@
    &&& request.max_tokens == MAX_COMPLETION_TOKENS
    &&& request.asr_options.language@ == normalized_language(config.mimo_language@)
    &&& request.messages@.len() == 1
    &&& request.messages@[0].role@ == "user"@
    &&& request.messages@[0].content@.len() == 1
    &&& request.messages@[0].content@[0].part_type@ == "input_audio"@
    &&& request.messages@[0].content@[0].input_audio.data@ == data_uri_of(audio)
}

/// Whether `call` sends such a request to the configured service.
pub open spec fn is_call_for(
    call: TranscriptionCall,
    config: AsrConfig,
    audio: PreparedAudioView,
) -> bool {
    &&& call.endpoint@ == endpoint_of(config.mimo_base_url@)
    &&& call.api_key@ == config.mimo_api_key@
    &&& asks_for(call.request, config, audio)
}

/// Makes the request for the transcript of `audio`.
pub fn transcription_call(config: &AsrConfig, audio: &PreparedAudio) -> (r: TranscriptionCall)
    requires
        fits_data_uri(audio.bytes@.len() as int),
    ensures
        is_call_for(r, *config, audio@),
{
    let part = MimoContentPart {
        part_type: "input_audio",
        input_audio: MimoInputAudio { data: data_uri(audio) },
    };
    let message = MimoMessage { role: "user", content: vec![part] };
    TranscriptionCall {
        endpoint: endpoint(config.mimo_base_url.as_str()),
        api_key: config.mimo_api_key.clone(),
        request: MimoAsrRequest {
            model: config.mimo_model.clone(),
            max_tokens: MAX_COMPLETION_TOKENS,
            messages: vec![message],
            asr_options: MimoAsrOptions {
                language: normalize_language(config.mimo_language.as_str()),
            },
        },
    }
}

/// The `data:` URI of audio is `data:`, its media type, `;base64,` and the
/// Base64 text of all its bytes.
pub proof fn law_data_uri_names_type_and_bytes(audio: PreparedAudioView)
    ensures
        ({
            let uri = data_uri_of(audio);
            let k = 5 + audio.mime_type.len() as int;
            &&& uri.len() == k + 8 + (audio.bytes.len() + 2) / 3 * 4
            &&& uri.subrange(0, 5) == "data:"@
            &&& uri.subrange(5, k) == audio.mime_type
            &&& uri.subrange(k, k + 8) == ";base64,"@
            &&& uri.skip(k + 8) == base64_text(audio.bytes)
        }),
{
    reveal_strlit("data:");
    reveal_strlit(";base64,");
    let uri = data_uri_of(audio);
    let k = 5 + audio.mime_type.len() as int;
    assert(uri.subrange(0, 5) =~= "data:"@);
    assert(uri.subrange(5, k) =~= audio.mime_type);
    assert(uri.subrange(k, k + 8) =~= ";base64,"@);
    assert(uri.skip(k + 8) =~= base64_text(audio.bytes));
}

/// A `data:` URI determines its audio, media type and bytes, as long as no media
/// type has a semicolon: audio of different types has different URIs.
pub proof fn law_data_uri_determines_audio(a: PreparedAudioView, b: PreparedAudioView)
    requires
        data_uri_of(a) == data_uri_of(b),
        forall|i: int| 0 <= i < a.mime_type.len() ==> #[trigger] a.mime_type[i] != ';',
        forall|i: int| 0 <= i < b.mime_type.len() ==> #[trigger] b.mime_type[i] != ';',
    ensures
        a.mime_type == b.mime_type,
        a.bytes == b.bytes,
{
    lemma_type_ends_no_earlier(a, b);
    lemma_type_ends_no_earlier(b, a);
    law_data_uri_names_type_and_bytes(a);
    law_data_uri_names_type_and_bytes(b);
    law_base64_is_lossless(a.bytes, b.bytes);
}

/// The media type in one of two equal URIs does not end before the other's.
proof fn lemma_type_ends_no_earlier(a: PreparedAudioView, b: PreparedAudioView)
    requires
        data_uri_of(a) == data_uri_of(b),
        forall|i: int| 0 <= i < b.mime_type.len() ==> #[trigger] b.mime_type[i] != ';',
    ensures
        a.mime_type.len() >= b.mime_type.len(),
{
    reveal_strlit(";base64,");
    law_data_uri_names_type_and_bytes(a);
    law_data_uri_names_type_and_bytes(b);
    let uri = data_uri_of(a);
    let n = a.mime_type.len() as int;
    let m = b.mime_type.len() as int;
    if n < m {
        assert(uri.subrange(5 + n, 5 + n + 8)[0] == uri[5 + n]);
        assert(uri.subrange(5, 5 + m)[n] == uri[5 + n]);
        assert(b.mime_type[n] == ';');
    }
}

/// Audio can be sent if and only if four characters for every three bytes, or
/// less at the end, fit a string.
pub proof fn law_limit_of_a_data_uri(n: int)
    ensures
        fits_data_uri(n) <==> (n + 2) / 3 * 4 <= isize::MAX,
{
}

/// The language that is asked for is the configured one, whole, without the
/// white space around it.
pub proof fn law_language_is_asked_for_whole(
    before: Seq<char>,
    language: Seq<char>,
    after: Seq<char>,
)
    requires
        language.len() > 0,
        !is_white_space(language[0]),
        !is_white_space(language.last()),
        forall|i: int| 0 <= i < before.len() ==> is_white_space(#[trigger] before[i]),
        forall|i: int| 0 <= i < after.len() ==> is_white_space(#[trigger] after[i]),
    ensures
        normalized_language(before + language + after) == language,
{
    law_surrounding_white_space_is_trimmed(before, language, after);
}

/// Requests go to the path for chat completions below the base URL, whole.
pub proof fn law_endpoint_is_below_the_base_url(base_url: Seq<char>)
    requires
        base_url.len() == 0 || base_url.last() != '/',
    ensures
        endpoint_of(base_url) == base_url + "/chat/completions"@,
{
}

/// A call goes to the configured service under the configured key, and asks the
/// configured model for a transcript in the configured language, of up to 4096
/// tokens, of the audio in a single part of a single message of the user. A
/// request may take 120 seconds.
pub proof fn law_call_follows_settings_and_audio(
    call: TranscriptionCall,
    config: AsrConfig,
    audio: PreparedAudioView,
)
    requires
        is_call_for(call, config, audio),
    ensures
        call.endpoint@ == endpoint_of(config.mimo_base_url@),
        call.api_key@ == config.mimo_api_key@,
        call.request.model@ == config.mimo_model@,
        call.request.max_tokens == 4096,
        call.request.asr_options.language@ == normalized_language(config.mimo_language@),
        call.request.messages@.len() == 1,
        call.request.messages@[0].role@ == "user"@,
        call.request.messages@[0].content@.len() == 1,
        call.request.messages@[0].content@[0].part_type@ == "input_audio"@,
        call.request.messages@[0].content@[0].input_audio.data@ == data_uri_of(audio),
        REQUEST_TIMEOUT_SECS == 120,
{
}

/// Calls for different audio hold different data: what was recorded can be told
/// from the call.
pub proof fn law_call_determines_audio(
    call: TranscriptionCall,
    config: AsrConfig,
    a: PreparedAudioView,
    b: PreparedAudioView,
)
    requires
        is_call_for(call, config, a),
        is_call_for(call, config, b),
        forall|i: int| 0 <= i < a.mime_type.len() ==> #[trigger] a.mime_type[i] != ';',
        forall|i: int| 0 <= i < b.mime_type.len() ==> #[trigger] b.mime_type[i] != ';',
    ensures
        a.mime_type == b.mime_type,
        a.bytes == b.bytes,
{
    law_data_uri_determines_audio(a, b);
}

} // verus!

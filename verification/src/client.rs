//! The client: the decisions of a transcription, step by step.
//!
//! A transcription alternates with the outside world: a file is loaded, a
//! request is sent, a body is parsed. Each state of a [`Transcription`] names
//! what is to be done next, and a method of [`MimoTranscriptionClient`] takes
//! the answer to the next state. [`Transcription::Finished`] is the last one.

use vstd::prelude::*;
use vstd::utf8::{decode_utf8, valid_utf8};

use crate::audio::{
    audio_source, extension, is_encoded, loaded_view, lowered_extension, may_be_extension,
    opt_str_view, preparation, prepare_audio, prepared_view, source_for, AudioSource, Preparation,
    PreparedAudio, PreparedAudioView, SpeechContainer,
};
use crate::error::{text_view, AsrError, AsrErrorView};
use crate::request::{
    fits_data_uri, is_call_for, transcription_call, AsrConfig, TranscriptionCall,
};
use crate::response::{extract_text, MimoAsrResponse};
use crate::text::{appended, decimal, decimal_string};

verus! {

/// A transcription, as far as it has got.
#[derive(Debug)]
pub enum Transcription {
    /// The audio file is to be loaded, as its source demands.
    LoadAudio { source: AudioSource },
    /// The audio can be put into a request.
    AudioReady { audio: PreparedAudio },
    /// The request is to be sent.
    SendRequest { call: TranscriptionCall },
    /// The body of the reply is to be parsed.
    ParseReply { body: Vec<u8> },
    /// There is a transcript, or an error.
    Finished { outcome: Result<String, AsrError> },
}

impl Transcription {
    /// How many steps can still follow.
    pub open spec fn steps_left(self) -> nat {
        match self {
            Transcription::LoadAudio { .. } => 4,
            Transcription::AudioReady { .. } => 3,
            Transcription::SendRequest { .. } => 2,
            Transcription::ParseReply { .. } => 1,
            Transcription::Finished { .. } => 0,
        }
    }

    /// Whether the transcription has ended with `outcome`.
    pub open spec fn has_ended(self, outcome: Result<Seq<char>, AsrErrorView>) -> bool {
        self matches Transcription::Finished { outcome: o } && text_view(o) == outcome
    }

    /// Whether the transcription goes on with prepared audio, or has ended with
    /// the error of preparing it.
    pub open spec fn follows(self, prepared: Result<PreparedAudioView, AsrErrorView>) -> bool {
        match prepared {
            Ok(audio) => self matches Transcription::AudioReady { audio: a } && a@ == audio,
            Err(e) => self.has_ended(Err(e)),
        }
    }
}

/// A transcription ends after at most four answers of the outside world: every
/// method of the client that takes one leaves fewer steps, and only a finished
/// transcription has none left.
pub proof fn law_transcription_ends(t: Transcription)
    ensures
        t.steps_left() <= 4,
        t.steps_left() == 0 <==> t is Finished,
{
}

/// The answer to a request.
#[derive(Debug)]
pub enum Reply {
    /// The request could not be sent.
    Unsent { elapsed: String, error: String },
    /// The body of the answer could not be read.
    Lost { elapsed: String, error: String },
    /// An answer with its status and its body.
    Received { status: u16, body: Vec<u8> },
}

/// Whether a status tells of success.
pub open spec fn is_success_status(status: u16) -> bool {
    200 <= status < 300
}

/// Whether a status tells of success.
pub fn is_success(status: u16) -> (r: bool)
    ensures
        r == is_success_status(status),
{
    200 <= status && status < 300
}

/// The text that `String::from_utf8_lossy` reads in `bytes`.
pub uninterp spec fn lossy_text(bytes: Seq<u8>) -> Seq<char>;

/// `String::from_utf8_lossy` reads UTF-8 as it is, and replaces what is not
/// UTF-8 by replacement characters.
#[verifier::external_body]
fn from_utf8_lossy(bytes: &[u8]) -> (r: String)
    ensures
        r@ == lossy_text(bytes@),
        valid_utf8(bytes@) ==> r@ == decode_utf8(bytes@),
{
    String::from_utf8_lossy(bytes).into_owned()
}

/// The error for a status other than success and the text of the body.
pub open spec fn status_error(status: u16, text: Seq<char>) -> AsrErrorView {
    AsrErrorView::ServerError("MiMo HTTP "@ + decimal(status as nat) + ": "@ + text)
}

/// Reports a status other than success, with the text of the body.
pub fn report_status(status: u16, text: &str) -> (r: AsrError)
    ensures
        r@ == status_error(status, text@),
{
    let mut message = appended("MiMo HTTP ", decimal_string(status).as_str());
    message.append(": ");
    message.append(text);
    AsrError::ServerError(message)
}

/// A message with what was attempted, how long it took, and why it failed.
pub open spec fn after_message(
    attempt: Seq<char>,
    elapsed: Seq<char>,
    error: Seq<char>,
) -> Seq<char> {
    attempt + " after "@ + elapsed + ": "@ + error
}

/// Writes a message with what was attempted, how long it took, and why it
/// failed.
fn write_after_message(attempt: &str, elapsed: &str, error: &str) -> (r: String)
    ensures
        r@ == after_message(attempt@, elapsed@, error@),
{
    let mut message = appended(attempt, " after ");
    message.append(elapsed);
    message.append(": ");
    message.append(error);
    message
}

/// A client for the batch speech recognition of Xiaomi MiMo.
///
/// The service takes chat completions at `{base_url}/chat/completions`. Audio
/// goes in as a Base64 `data:` URI in an `input_audio` part, and the transcript
/// comes back as the content of the message of a choice.
#[derive(Debug)]
pub struct MimoTranscriptionClient {
    config: AsrConfig,
}

impl MimoTranscriptionClient {
    /// The settings of the client.
    pub closed spec fn settings(&self) -> AsrConfig {
        self.config
    }

    /// Makes a client with the given settings.
    pub fn new(config: AsrConfig) -> (r: Self)
        ensures
            r.settings() == config,
    {
        MimoTranscriptionClient { config }
    }

    /// The settings of the client.
    pub fn config(&self) -> (r: &AsrConfig)
        ensures
            *r == self.settings(),
    {
        &self.config
    }

    /// Begins the transcription of a file with the given extension, in small
    /// letters. Settings that are not valid end it at once.
    pub fn start(&self, extension: Option<&str>) -> (r: Transcription)
        ensures
            if self.settings().valid {
                r matches Transcription::LoadAudio { source } && source@ == source_for(
                    opt_str_view(extension),
                )
            } else {
                r.has_ended(
                    Err(AsrErrorView::ConnectionFailed("Invalid MiMo ASR configuration"@)),
                )
            },
    {
        if !self.config.is_valid() {
            return Transcription::Finished {
                outcome: Err(
                    AsrError::ConnectionFailed("Invalid MiMo ASR configuration".to_string()),
                ),
            };
        }
        Transcription::LoadAudio { source: audio_source(extension) }
    }

    /// Begins the transcription of the file at `path`.
    pub fn transcribe_file(&self, path: &str) -> (r: Transcription)
        ensures
            self.settings().valid ==> (r matches Transcription::LoadAudio { source } && (exists|
                found: Option<Seq<char>>,
            | #[trigger]
                may_be_extension(found, path@) && source@ == source_for(
                    lowered_extension(found),
                ))),
            !self.settings().valid ==> r.has_ended(
                Err(AsrErrorView::ConnectionFailed("Invalid MiMo ASR configuration"@)),
            ),
    {
        match extension(path) {
            Some(e) => self.start(Some(e.as_str())),
            None => self.start(None),
        }
    }

    /// Goes on with audio that was prepared, or ends with the error of
    /// preparing it.
    pub fn audio_prepared(&self, prepared: Result<PreparedAudio, AsrError>) -> (r: Transcription)
        ensures
            r.follows(prepared_view(prepared)),
            r.steps_left() < 4,
    {
        match prepared {
            Ok(audio) => Transcription::AudioReady { audio },
            Err(e) => Transcription::Finished { outcome: Err(e) },
        }
    }

    /// Goes on once the file was loaded, or could not be.
    pub fn audio_loaded(
        &self,
        source: AudioSource,
        loaded: Result<Vec<u8>, String>,
        container: SpeechContainer,
    ) -> (r: Transcription)
        ensures
            match preparation(source@, loaded_view(loaded)) {
                Preparation::Encode(pcm) => exists|prepared| #[trigger]
                    is_encoded(pcm, container, prepared) && r.follows(prepared),
                Preparation::Send(audio) => r.follows(Ok(audio)),
                Preparation::Fail(e) => r.has_ended(Err(e)),
            },
            r.steps_left() < 4,
    {
        self.audio_prepared(prepare_audio(source, loaded, container))
    }

    /// Goes on with audio that is ready.
    pub fn audio_ready(&self, audio: &PreparedAudio) -> (r: Transcription)
        requires
            fits_data_uri(audio.bytes@.len() as int),
        ensures
            r matches Transcription::SendRequest { call } && is_call_for(
                call,
                self.settings(),
                audio@,
            ),
            r.steps_left() < 3,
    {
        Transcription::SendRequest { call: transcription_call(&self.config, audio) }
    }

    /// Goes on with the answer to the request. An answer with another status
    /// than success ends the transcription with its status and body.
    pub fn replied(&self, reply: Reply) -> (r: Transcription)
        ensures
            match reply {
                Reply::Unsent { elapsed, error } => r.has_ended(
                    Err(
                        AsrErrorView::ConnectionFailed(
                            after_message("MiMo request failed"@, elapsed@, error@),
                        ),
                    ),
                ),
                Reply::Lost { elapsed, error } => r.has_ended(
                    Err(
                        AsrErrorView::ConnectionFailed(
                            after_message("Failed to read MiMo response"@, elapsed@, error@),
                        ),
                    ),
                ),
                Reply::Received { status, body } => if is_success_status(status) {
                    r matches Transcription::ParseReply { body: b } && b@ == body@
                } else {
                    &&& r.has_ended(Err(status_error(status, lossy_text(body@))))
                    &&& valid_utf8(body@) ==> lossy_text(body@) == decode_utf8(body@)
                },
            },
            r.steps_left() < 2,
    {
        let error = match reply {
            Reply::Unsent { elapsed, error } => AsrError::ConnectionFailed(
                write_after_message("MiMo request failed", elapsed.as_str(), error.as_str()),
            ),
            Reply::Lost { elapsed, error } => AsrError::ConnectionFailed(
                write_after_message(
                    "Failed to read MiMo response",
                    elapsed.as_str(),
                    error.as_str(),
                ),
            ),
            Reply::Received { status, body } => {
                if is_success(status) {
                    return Transcription::ParseReply { body };
                }
                report_status(status, from_utf8_lossy(body.as_slice()).as_str())
            },
        };
        Transcription::Finished { outcome: Err(error) }
    }

    /// Ends with the body of the reply, or with the error of parsing it.
    pub fn reply_parsed(&self, parsed: Result<MimoAsrResponse, String>) -> (r: Transcription)
        ensures
            match parsed {
                Ok(response) => r.has_ended(response.outcome()),
                Err(m) => r.has_ended(
                    Err(AsrErrorView::ProtocolError("Invalid MiMo response JSON: "@ + m@)),
                ),
            },
            r.steps_left() < 1,
    {
        Transcription::Finished {
            outcome: match parsed {
                Ok(response) => extract_text(response),
                Err(m) => Err(
                    AsrError::ProtocolError(appended("Invalid MiMo response JSON: ", m.as_str())),
                ),
            },
        }
    }
}

/// A transcription has ended with a text or an error if and only if it is
/// finished with just that.
pub proof fn law_end_of_a_transcription(
    t: Transcription,
    text: String,
    e: AsrError,
    outcome: Result<Seq<char>, AsrErrorView>,
)
    ensures
        !(t is Finished) ==> !t.has_ended(outcome),
        (Transcription::Finished { outcome: Ok(text) }).has_ended(outcome) <==> outcome == Ok::<
            Seq<char>,
            AsrErrorView,
        >(text@),
        (Transcription::Finished { outcome: Err(e) }).has_ended(outcome) <==> outcome == Err::<
            Seq<char>,
            AsrErrorView,
        >(e@),
{
}

/// Prepared audio goes on as it is, and an error of preparing it ends the
/// transcription.
pub proof fn law_prepared_audio_goes_on(t: Transcription, audio: PreparedAudioView, e: AsrErrorView)
    ensures
        t.follows(Ok(audio)) <==> (t matches Transcription::AudioReady { audio: a }
            && a.mime_type@ == audio.mime_type && a.bytes@ == audio.bytes),
        t.follows(Err(e)) <==> t.has_ended(Err(e)),
{
}

/// The statuses from 200 to 299 tell of success, and no others.
pub proof fn law_success_is_2xx(status: u16)
    ensures
        is_success_status(status) <==> status as int / 100 == 2,
{
}

/// A status other than success is reported with its number and the text of the
/// body, whole.
pub proof fn law_status_is_reported_whole(status: u16, text: Seq<char>)
    ensures
        status_error(status, text) == AsrErrorView::ServerError(
            "MiMo HTTP "@ + decimal(status as nat) + ": "@ + text,
        ),
{
}

/// A failed attempt is reported with how long it took and why it failed, both
/// whole.
pub proof fn law_attempt_is_reported_whole(
    attempt: Seq<char>,
    elapsed: Seq<char>,
    error: Seq<char>,
)
    ensures
        after_message(attempt, elapsed, error) == attempt + " after "@ + elapsed + ": "@ + error,
{
}

} // verus!

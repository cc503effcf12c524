//! From an audio file to what is sent: which files are decoded, which are sent
//! as they are, and in which container.

use std::path::Path;

use vstd::prelude::*;

use crate::error::{AsrError, AsrErrorView};
use crate::mp3::{may_end_with, pcm16_mono_16k_to_mp3};
use crate::text::{appended, ascii_lowered, law_ascii_lowered_is_idempotent};
use crate::wav::{
    law_wav_round_trip, pcm16_mono_16k_to_wav, wav_file, wav_pcm, wav_to_pcm16_mono_16k,
};

verus! {

/// Whether `c` separates the parts of a path on some platform.
pub open spec fn is_separator(c: char) -> bool {
    c == '/' || c == '\\' || c == ':'
}

/// `path` without the slashes, and the `.` behind slashes, at its end: they do
/// not change which file it names.
pub open spec fn without_end_slashes(path: Seq<char>) -> Seq<char>
    decreases path.len(),
{
    if path.len() > 0 && path.last() == '/' {
        without_end_slashes(path.drop_last())
    } else if path.len() > 1 && path.last() == '.' && path.drop_last().last() == '/' {
        without_end_slashes(path.drop_last().drop_last())
    } else {
        path
    }
}

/// `path` after its last separator of any platform.
pub open spec fn last_part(path: Seq<char>) -> Seq<char>
    decreases path.len(),
{
    if path.len() == 0 || is_separator(path.last()) {
        Seq::empty()
    } else {
        last_part(path.drop_last()).push(path.last())
    }
}

/// `name` after its last dot.
pub open spec fn after_last_dot(name: Seq<char>) -> Seq<char>
    decreases name.len(),
{
    if name.len() == 0 || name.last() == '.' {
        Seq::empty()
    } else {
        after_last_dot(name.drop_last()).push(name.last())
    }
}

/// Whether a dot that does not begin `name` stands in it. (The name of the
/// parent directory has no extension.)
pub open spec fn has_extension(name: Seq<char>) -> bool {
    name != seq!['.', '.'] && exists|i: int| 0 < i < name.len() && #[trigger] name[i] == '.'
}

/// Whether `c` is a slash of some platform.
pub open spec fn is_slash(c: char) -> bool {
    c == '/' || c == '\\'
}

/// Whether `path` may begin with the name of a server, on some platform.
pub open spec fn may_name_server(path: Seq<char>) -> bool {
    path.len() >= 2 && is_slash(path[0]) && is_slash(path[1])
}

/// Whether `path` begins with a server, whose name ends at `s`, and a share of
/// it, whose name ends at `d`. (A `?` or `.` in place of a server has another
/// meaning.)
pub open spec fn names_share(path: Seq<char>, s: int, d: int) -> bool {
    &&& may_name_server(path)
    &&& 2 < s && s + 1 < d < path.len()
    &&& is_slash(path[s]) && is_slash(path[d])
    &&& forall|i: int| 2 <= i < d && i != s ==> !is_separator(#[trigger] path[i])
    &&& s == 3 ==> path[2] != '?' && path[2] != '.'
}

/// The last part of `path` that is not a mere `.`: where the separators of all
/// platforms agree, the name of the file.
pub open spec fn name_in(path: Seq<char>) -> Seq<char> {
    last_part(without_end_slashes(path))
}

/// Whether `path` has no separator but `/`.
pub open spec fn is_plain(path: Seq<char>) -> bool {
    forall|i: int| 0 <= i < path.len() ==> #[trigger] path[i] != '\\' && path[i] != ':'
}

/// Whether `path` begins with a server and a share, and goes on below them.
pub open spec fn is_below_share(path: Seq<char>) -> bool {
    exists|s: int, d: int| #[trigger]
        names_share(path, s, d) && d < without_end_slashes(path).len()
}

/// Whether `path` has one of the forms in which every platform finds the same
/// extension: either `/` is its only separator or there is an extension after
/// every separator, and if it may begin with a server, it is below a share.
/// Platforms may agree on a path of another form, too.
pub open spec fn is_portable(path: Seq<char>) -> bool {
    &&& has_extension(name_in(path)) || is_plain(path)
    &&& may_name_server(path) ==> is_below_share(path)
}

/// The extension in `path`: what follows the last dot of its name, where that
/// dot does not begin the name.
pub open spec fn extension_in(path: Seq<char>) -> Option<Seq<char>> {
    if has_extension(name_in(path)) {
        Some(after_last_dot(name_in(path)))
    } else {
        None
    }
}

/// An extension, where there is one, in small letters.
pub open spec fn lowered_extension(extension: Option<Seq<char>>) -> Option<Seq<char>> {
    match extension {
        Some(e) => Some(ascii_lowered(e)),
        None => None,
    }
}

/// The extension in `path`, in small letters.
pub open spec fn lowered_extension_in(path: Seq<char>) -> Option<Seq<char>> {
    lowered_extension(extension_in(path))
}

/// Whether `s` has no dot.
pub open spec fn has_no_dot(s: Seq<char>) -> bool {
    forall|i: int| 0 <= i < s.len() ==> #[trigger] s[i] != '.'
}

/// Whether `e` stands in `path` right after the dot at `i`.
pub open spec fn stands_after(e: Seq<char>, path: Seq<char>, i: int) -> bool {
    &&& 0 < i && i + 1 + e.len() <= path.len()
    &&& path[i] == '.'
    &&& path.subrange(i + 1, i + 1 + e.len()) == e
}

/// Whether a platform may find the extension `found` in `path`: on each one an
/// extension has no dot and stands after one, and where they all agree it is
/// the extension in `path`.
pub open spec fn may_be_extension(found: Option<Seq<char>>, path: Seq<char>) -> bool {
    &&& found matches Some(e) ==> has_no_dot(e) && exists|i: int| #[trigger]
        stands_after(e, path, i)
    &&& is_portable(path) ==> found == extension_in(path)
}

/// `o` with its text viewed.
pub open spec fn opt_string_view(o: Option<String>) -> Option<Seq<char>> {
    match o {
        Some(s) => Some(s@),
        None => None,
    }
}

/// `o` with its text viewed.
pub open spec fn opt_str_view(o: Option<&str>) -> Option<Seq<char>> {
    match o {
        Some(s) => Some(s@),
        None => None,
    }
}

/// `Path::extension` of a path, where the extension is UTF-8: what follows the
/// last dot of the file name, or `None` where there is no file name, or none
/// with a dot but at its beginning. Slashes and `.` components at the end of a
/// path are no part of it, nor are a server and its share. Platforms differ in
/// what separates the parts of a path: of a path whose extension may depend on
/// that, only what holds on each of them is said.
#[verifier::external_body]
fn path_extension(path: &str) -> (r: Option<String>)
    ensures
        may_be_extension(opt_string_view(r), path@),
{
    Path::new(path).extension().and_then(|e| e.to_str()).map(|e| e.to_string())
}

/// The extension that was found in a path, if any, in small letters.
pub fn lowered(found: Option<String>) -> (r: Option<String>)
    ensures
        opt_string_view(r) == lowered_extension(opt_string_view(found)),
{
    match found {
        Some(e) => Some(e.as_str().to_ascii_lowercase()),
        None => None,
    }
}

/// The extension of a path in small letters.
pub fn extension(path: &str) -> (r: Option<String>)
    ensures
        is_portable(path@) ==> opt_string_view(r) == lowered_extension_in(path@),
        has_no_dot(path@) ==> r is None,
        exists|found: Option<Seq<char>>| #[trigger]
            may_be_extension(found, path@) && opt_string_view(r) == lowered_extension(found),
        r matches Some(e) ==> e@ == ascii_lowered(e@),
{
    let found = path_extension(path);
    proof {
        if found is Some {
            law_ascii_lowered_is_idempotent(found->0@);
        }
    }
    lowered(found)
}

/// The media type for files of an extension.
pub open spec fn mime_type(extension: Option<Seq<char>>) -> Seq<char> {
    match extension {
        None => "application/octet-stream"@,
        Some(e) => if e == "wav"@ {
            "audio/wav"@
        } else if e == "mp3"@ || e == "mpeg"@ || e == "mpga"@ {
            "audio/mpeg"@
        } else if e == "flac"@ {
            "audio/flac"@
        } else if e == "m4a"@ || e == "mp4"@ {
            "audio/mp4"@
        } else if e == "ogg"@ || e == "opus"@ {
            "audio/ogg"@
        } else {
            "application/octet-stream"@
        },
    }
}

/// The media type for files of an extension.
pub fn mime_type_for_extension(extension: Option<&str>) -> (r: &'static str)
    ensures
        r@ == mime_type(opt_str_view(extension)),
{
    match extension {
        None => "application/octet-stream",
        Some(e) => if *e == *"wav" {
            "audio/wav"
        } else if *e == *"mp3" || *e == *"mpeg" || *e == *"mpga" {
            "audio/mpeg"
        } else if *e == *"flac" {
            "audio/flac"
        } else if *e == *"m4a" || *e == *"mp4" {
            "audio/mp4"
        } else if *e == *"ogg" || *e == *"opus" {
            "audio/ogg"
        } else {
            "application/octet-stream"
        },
    }
}

/// The media type for the file at `path`.
pub fn mime_type_for_path(path: &str) -> (r: &'static str)
    ensures
        is_portable(path@) ==> r@ == mime_type(lowered_extension_in(path@)),
        has_no_dot(path@) ==> r@ == mime_type(None),
        exists|found: Option<Seq<char>>| #[trigger]
            may_be_extension(found, path@) && r@ == mime_type(lowered_extension(found)),
{
    match extension(path) {
        Some(e) => mime_type_for_extension(Some(e.as_str())),
        None => mime_type_for_extension(None),
    }
}

/// Audio that is ready to be sent.
#[derive(Debug)]
pub struct PreparedAudio {
    pub mime_type: &'static str,
    pub bytes: Vec<u8>,
}

/// Audio that is ready to be sent, viewed.
pub struct PreparedAudioView {
    pub mime_type: Seq<char>,
    pub bytes: Seq<u8>,
}

impl View for PreparedAudio {
    type V = PreparedAudioView;

    open spec fn view(&self) -> PreparedAudioView {
        PreparedAudioView { mime_type: self.mime_type@, bytes: self.bytes@ }
    }
}

/// `r` with its audio and its error viewed.
pub open spec fn prepared_view(r: Result<PreparedAudio, AsrError>) -> Result<
    PreparedAudioView,
    AsrErrorView,
> {
    match r {
        Ok(audio) => Ok(audio@),
        Err(e) => Err(e@),
    }
}

/// The container that speech is encoded to.
#[derive(Clone, Copy, Debug, PartialEq, Eq, Structural)]
pub enum SpeechContainer {
    /// About 0.36 MB a minute, which keeps recordings of many minutes under the
    /// 10 MB that the service accepts.
    Mp3,
    /// About five times as large, for platforms without an MP3 encoder.
    Wav,
}

/// What encoding `pcm` to a container may end with.
pub open spec fn is_encoded(
    pcm: Seq<u8>,
    container: SpeechContainer,
    r: Result<PreparedAudioView, AsrErrorView>,
) -> bool {
    match container {
        SpeechContainer::Wav => r == Ok::<PreparedAudioView, AsrErrorView>(
            PreparedAudioView { mime_type: "audio/wav"@, bytes: wav_file(pcm) },
        ),
        SpeechContainer::Mp3 => match r {
            Ok(audio) => audio.mime_type == "audio/mpeg"@ && may_end_with(pcm, Ok(audio.bytes)),
            Err(e) => may_end_with(pcm, Err(e)),
        },
    }
}

/// The audio of an MP3 encoding.
pub fn mp3_audio(encoded: Result<Vec<u8>, AsrError>) -> (r: Result<PreparedAudio, AsrError>)
    ensures
        prepared_view(r) == match encoded {
            Ok(bytes) => Ok(PreparedAudioView { mime_type: "audio/mpeg"@, bytes: bytes@ }),
            Err(e) => Err(e@),
        },
{
    match encoded {
        Ok(bytes) => Ok(PreparedAudio { mime_type: "audio/mpeg", bytes }),
        Err(e) => Err(e),
    }
}

/// Encodes 16 kHz mono signed 16-bit little-endian PCM to a container that the
/// service accepts.
pub fn encode_pcm16_mono_16k(pcm: &[u8], container: SpeechContainer) -> (r: Result<
    PreparedAudio,
    AsrError,
>)
    ensures
        is_encoded(pcm@, container, prepared_view(r)),
{
    match container {
        SpeechContainer::Mp3 => mp3_audio(pcm16_mono_16k_to_mp3(pcm)),
        SpeechContainer::Wav => Ok(
            PreparedAudio { mime_type: "audio/wav", bytes: pcm16_mono_16k_to_wav(pcm) },
        ),
    }
}

/// How an audio file is to be loaded.
#[derive(Debug)]
pub enum AudioSource {
    /// Decode its Ogg/Opus stream to 16 kHz mono PCM.
    OggOpus,
    /// Read its bytes, which are a WAVE file.
    Wav,
    /// Read its bytes, to be sent as they are under a media type.
    AsIs { mime_type: &'static str },
}

/// An [`AudioSource`], viewed.
pub enum AudioSourceView {
    OggOpus,
    Wav,
    AsIs { mime_type: Seq<char> },
}

impl View for AudioSource {
    type V = AudioSourceView;

    open spec fn view(&self) -> AudioSourceView {
        match self {
            AudioSource::OggOpus => AudioSourceView::OggOpus,
            AudioSource::Wav => AudioSourceView::Wav,
            AudioSource::AsIs { mime_type } => AudioSourceView::AsIs { mime_type: mime_type@ },
        }
    }
}

/// How files of an extension are loaded: Ogg/Opus and WAVE files are encoded
/// anew; MP3 is accepted by the service as it is; of anything else the service
/// is to judge.
pub open spec fn source_for(extension: Option<Seq<char>>) -> AudioSourceView {
    if extension == Some("opus"@) || extension == Some("ogg"@) {
        AudioSourceView::OggOpus
    } else if extension == Some("wav"@) {
        AudioSourceView::Wav
    } else {
        AudioSourceView::AsIs { mime_type: mime_type(extension) }
    }
}

/// Decides how a file is loaded.
pub fn audio_source(extension: Option<&str>) -> (r: AudioSource)
    ensures
        r@ == source_for(opt_str_view(extension)),
{
    match extension {
        None => AudioSource::AsIs { mime_type: mime_type_for_extension(None) },
        Some(e) => if *e == *"opus" || *e == *"ogg" {
            AudioSource::OggOpus
        } else if *e == *"wav" {
            AudioSource::Wav
        } else {
            AudioSource::AsIs { mime_type: mime_type_for_extension(Some(e)) }
        },
    }
}

/// What remains to be done with a loaded file.
pub enum Preparation {
    /// Encode this PCM.
    Encode(Seq<u8>),
    /// Send this audio.
    Send(PreparedAudioView),
    /// Give up.
    Fail(AsrErrorView),
}

/// `loaded` with its bytes and its error message viewed.
pub open spec fn loaded_view(loaded: Result<Vec<u8>, String>) -> Result<Seq<u8>, Seq<char>> {
    match loaded {
        Ok(bytes) => Ok(bytes@),
        Err(m) => Err(m@),
    }
}

/// What remains to be done once a file was loaded, or could not be.
pub open spec fn preparation(
    source: AudioSourceView,
    loaded: Result<Seq<u8>, Seq<char>>,
) -> Preparation {
    match (source, loaded) {
        (AudioSourceView::OggOpus, Err(m)) => Preparation::Fail(AsrErrorView::ProtocolError(m)),
        (_, Err(m)) => Preparation::Fail(
            AsrErrorView::ConnectionFailed("Failed to read audio file: "@ + m),
        ),
        (AudioSourceView::OggOpus, Ok(pcm)) => if pcm.len() == 0 {
            Preparation::Fail(AsrErrorView::ProtocolError("音频文件解码后为空"@))
        } else {
            Preparation::Encode(pcm)
        },
        (AudioSourceView::Wav, Ok(bytes)) => match wav_pcm(bytes) {
            Ok(pcm) => Preparation::Encode(pcm),
            Err(e) => Preparation::Fail(e),
        },
        (AudioSourceView::AsIs { mime_type }, Ok(bytes)) => Preparation::Send(
            PreparedAudioView { mime_type, bytes },
        ),
    }
}

/// Prepares a file that was loaded as its source demands: `loaded` is the PCM
/// of an Ogg/Opus file or the decoder's error, and of any other file its bytes
/// or the error of reading it.
pub fn prepare_audio(
    source: AudioSource,
    loaded: Result<Vec<u8>, String>,
    container: SpeechContainer,
) -> (r: Result<PreparedAudio, AsrError>)
    ensures
        match preparation(source@, loaded_view(loaded)) {
            Preparation::Encode(pcm) => is_encoded(pcm, container, prepared_view(r)),
            Preparation::Send(audio) => prepared_view(r) == Ok::<_, AsrErrorView>(audio),
            Preparation::Fail(e) => prepared_view(r) == Err::<PreparedAudioView, _>(e),
        },
{
    match (source, loaded) {
        (AudioSource::OggOpus, Err(m)) => Err(AsrError::ProtocolError(m)),
        (AudioSource::OggOpus, Ok(pcm)) => {
            if pcm.len() == 0 {
                Err(AsrError::ProtocolError("音频文件解码后为空".to_string()))
            } else {
                encode_pcm16_mono_16k(pcm.as_slice(), container)
            }
        },
        (_, Err(m)) => Err(
            AsrError::ConnectionFailed(appended("Failed to read audio file: ", m.as_str())),
        ),
        (AudioSource::Wav, Ok(bytes)) => {
            match wav_to_pcm16_mono_16k(bytes.as_slice()) {
                Ok(pcm) => encode_pcm16_mono_16k(pcm.as_slice(), container),
                Err(e) => Err(e),
            }
        },
        (AudioSource::AsIs { mime_type }, Ok(bytes)) => Ok(PreparedAudio { mime_type, bytes }),
    }
}

/// What is left of a path without the slashes at its end is a prefix of it.
proof fn lemma_end_slashes(path: Seq<char>)
    ensures
        without_end_slashes(path).is_prefix_of(path),
    decreases path.len(),
{
    if path.len() > 0 && path.last() == '/' {
        lemma_end_slashes(path.drop_last());
    } else if path.len() > 1 && path.last() == '.' && path.drop_last().last() == '/' {
        lemma_end_slashes(path.drop_last().drop_last());
    }
}

/// The last part of a path is a suffix of it.
proof fn lemma_last_part(path: Seq<char>)
    ensures
        last_part(path).is_suffix_of(path),
    decreases path.len(),
{
    if path.len() > 0 && !is_separator(path.last()) {
        lemma_last_part(path.drop_last());
    }
}

/// What follows the last dot of a name has no dot and is a suffix, with a dot
/// in front of it where the name has one.
proof fn lemma_after_last_dot(name: Seq<char>)
    ensures
        has_no_dot(after_last_dot(name)),
        after_last_dot(name).is_suffix_of(name),
        after_last_dot(name).len() < name.len() ==> name[name.len() - 1 - after_last_dot(
            name,
        ).len()] == '.',
    decreases name.len(),
{
    if name.len() > 0 && name.last() != '.' {
        lemma_after_last_dot(name.drop_last());
    }
}

/// The extension in a path is one that a platform may find in it.
pub proof fn law_extension_in_path(path: Seq<char>)
    ensures
        may_be_extension(extension_in(path), path),
{
    let front = without_end_slashes(path);
    let name = name_in(path);
    let e = after_last_dot(name);
    lemma_end_slashes(path);
    lemma_last_part(front);
    lemma_after_last_dot(name);
    if has_extension(name) {
        let j = choose|j: int| 0 < j < name.len() && #[trigger] name[j] == '.';
        let k = name.len() - 1 - e.len();
        if j > k {
            assert(e[j - k - 1] == '.');
        }
        let i = front.len() - name.len() + k;
        assert(path.subrange(i + 1, i + 1 + e.len()) =~= e);
        assert(stands_after(e, path, i));
    }
}

/// A path without a dot has no extension on any platform.
pub proof fn law_no_dot_no_extension(path: Seq<char>, found: Option<Seq<char>>)
    requires
        has_no_dot(path),
        may_be_extension(found, path),
    ensures
        found is None,
{
}

/// Lowering a path lowers what it is without its end.
proof fn lemma_end_slashes_lowered(path: Seq<char>)
    ensures
        without_end_slashes(ascii_lowered(path)) == ascii_lowered(without_end_slashes(path)),
    decreases path.len(),
{
    let low = ascii_lowered(path);
    if path.len() > 0 {
        assert(low.drop_last() =~= ascii_lowered(path.drop_last()));
        if path.last() == '/' {
            lemma_end_slashes_lowered(path.drop_last());
        } else if path.len() > 1 {
            let front = path.drop_last();
            assert(low.drop_last().drop_last() =~= ascii_lowered(front.drop_last()));
            lemma_end_slashes_lowered(front.drop_last());
        }
    }
}

/// Lowering a path lowers its last part.
proof fn lemma_last_part_lowered(path: Seq<char>)
    ensures
        last_part(ascii_lowered(path)) == ascii_lowered(last_part(path)),
    decreases path.len(),
{
    let low = ascii_lowered(path);
    if path.len() == 0 || is_separator(path.last()) {
        assert(ascii_lowered(last_part(path)) =~= Seq::empty());
    } else {
        assert(low.drop_last() =~= ascii_lowered(path.drop_last()));
        lemma_last_part_lowered(path.drop_last());
        assert(ascii_lowered(last_part(path)) =~= ascii_lowered(last_part(path.drop_last())).push(
            low.last(),
        ));
    }
}

/// Lowering a name lowers what follows its last dot.
proof fn lemma_after_last_dot_lowered(name: Seq<char>)
    ensures
        after_last_dot(ascii_lowered(name)) == ascii_lowered(after_last_dot(name)),
    decreases name.len(),
{
    let low = ascii_lowered(name);
    if name.len() == 0 || name.last() == '.' {
        assert(ascii_lowered(after_last_dot(name)) =~= Seq::empty());
    } else {
        assert(low.drop_last() =~= ascii_lowered(name.drop_last()));
        lemma_after_last_dot_lowered(name.drop_last());
        assert(ascii_lowered(after_last_dot(name)) =~= ascii_lowered(
            after_last_dot(name.drop_last()),
        ).push(low.last()));
    }
}

/// Lowering a name does not give or take away its extension.
proof fn lemma_has_extension_lowered(name: Seq<char>)
    ensures
        has_extension(ascii_lowered(name)) == has_extension(name),
{
    let low = ascii_lowered(name);
    assert forall|i: int| 0 <= i < name.len() implies (#[trigger] low[i] == '.') == (name[i]
        == '.') by {}
    if has_extension(name) {
        let i = choose|i: int| 0 < i < name.len() && #[trigger] name[i] == '.';
        assert(low[i] == '.');
        if low == seq!['.', '.'] {
            assert(low.len() == 2 && low[0] == '.' && low[1] == '.');
            assert(name.len() == 2 && name[0] == '.' && name[1] == '.');
            assert(name =~= seq!['.', '.']);
        }
    }
    if has_extension(low) {
        let i = choose|i: int| 0 < i < low.len() && #[trigger] low[i] == '.';
        assert(name[i] == '.');
        if name == seq!['.', '.'] {
            assert(name[0] == '.' && name[1] == '.');
            assert(low =~= seq!['.', '.']);
        }
    }
}

/// Slashes at the end of a path make no difference to its extension.
pub proof fn law_end_slash_is_ignored(path: Seq<char>)
    ensures
        lowered_extension_in(path.push('/')) == lowered_extension_in(path),
{
    assert(path.push('/').drop_last() =~= path);
}

/// Capitals in a path make no difference to how its file is loaded.
pub proof fn law_case_is_ignored(path: Seq<char>)
    ensures
        lowered_extension_in(ascii_lowered(path)) == lowered_extension_in(path),
{
    lemma_end_slashes_lowered(path);
    lemma_last_part_lowered(without_end_slashes(path));
    lemma_has_extension_lowered(name_in(path));
    lemma_after_last_dot_lowered(name_in(path));
    law_ascii_lowered_is_idempotent(after_last_dot(name_in(path)));
}

/// Speech that was encoded goes out under a media type that the service
/// accepts.
pub proof fn law_encoded_speech_is_accepted(
    pcm: Seq<u8>,
    container: SpeechContainer,
    audio: PreparedAudioView,
)
    requires
        is_encoded(pcm, container, Ok(audio)),
    ensures
        audio.mime_type == "audio/mpeg"@ || audio.mime_type == "audio/wav"@,
{
}

/// MP3 goes out as it is.
pub proof fn law_mp3_is_sent_as_is(extension: Seq<char>, bytes: Seq<u8>)
    requires
        extension == "mp3"@ || extension == "mpeg"@ || extension == "mpga"@,
    ensures
        preparation(source_for(Some(extension)), Ok(bytes)) == Preparation::Send(
            PreparedAudioView { mime_type: "audio/mpeg"@, bytes },
        ),
{
    reveal_strlit("opus");
    reveal_strlit("ogg");
    reveal_strlit("wav");
    reveal_strlit("mp3");
    reveal_strlit("mpeg");
    reveal_strlit("mpga");
    assert("mp3"@[0] == 'm' && "mpeg"@[0] == 'm' && "mpga"@[0] == 'm');
    assert("opus"@[0] == 'o' && "ogg"@[0] == 'o' && "wav"@[0] == 'w');
}

/// A file that is sent as it is keeps every byte, under the media type of its
/// extension.
pub proof fn law_unknown_files_are_sent_as_is(extension: Option<Seq<char>>, bytes: Seq<u8>)
    requires
        source_for(extension) is AsIs,
    ensures
        preparation(source_for(extension), Ok(bytes)) == Preparation::Send(
            PreparedAudioView { mime_type: mime_type(extension), bytes },
        ),
{
}

/// A WAVE file of 16 kHz mono PCM that was written here, read again and encoded
/// to WAVE again, is the same file.
pub proof fn law_written_wav_is_stable(
    pcm: Seq<u8>,
    r: Result<PreparedAudioView, AsrErrorView>,
)
    requires
        pcm.len() < 0x1_0000_0000,
    ensures
        preparation(AudioSourceView::Wav, Ok(wav_file(pcm))) == Preparation::Encode(pcm),
        is_encoded(pcm, SpeechContainer::Wav, r) ==> r == Ok::<PreparedAudioView, AsrErrorView>(
            PreparedAudioView { mime_type: "audio/wav"@, bytes: wav_file(pcm) },
        ),
{
    law_wav_round_trip(pcm);
}

/// A name behind a separator, or alone, is the last part of its path.
proof fn lemma_last_part_is_the_name(dir: Seq<char>, name: Seq<char>)
    requires
        dir.len() == 0 || is_separator(dir.last()),
        forall|i: int| 0 <= i < name.len() ==> !is_separator(#[trigger] name[i]),
    ensures
        last_part(dir + name) == name,
    decreases name.len(),
{
    let path = dir + name;
    if name.len() == 0 {
        assert(path =~= dir);
        assert(last_part(path) =~= name);
    } else {
        assert(path.drop_last() =~= dir + name.drop_last());
        assert(path.last() == name[name.len() - 1]);
        lemma_last_part_is_the_name(dir, name.drop_last());
        assert(name =~= name.drop_last().push(name.last()));
    }
}

/// What has no dot and follows one is what follows the last one.
proof fn lemma_what_follows_the_dot(stem: Seq<char>, e: Seq<char>)
    requires
        has_no_dot(e),
    ensures
        after_last_dot(stem.push('.') + e) == e,
    decreases e.len(),
{
    let name = stem.push('.') + e;
    if e.len() == 0 {
        assert(name =~= stem.push('.'));
        assert(after_last_dot(name) =~= e);
    } else {
        assert(name.drop_last() =~= stem.push('.') + e.drop_last());
        assert(name.last() == e[e.len() - 1]);
        assert forall|i: int| 0 <= i < e.drop_last().len() implies #[trigger] e.drop_last()[i]
            != '.' by {
            assert(e[i] != '.');
        }
        lemma_what_follows_the_dot(stem, e.drop_last());
        assert(e =~= e.drop_last().push(e.last()));
    }
}

/// The extension of a file is what follows the dot behind its stem, whole, in
/// whatever directory it is; and every platform finds it unless the path may
/// begin with a server.
pub proof fn law_extension_of_a_file(dir: Seq<char>, stem: Seq<char>, e: Seq<char>)
    requires
        dir.len() == 0 || dir.last() == '/' || dir.last() == '\\' || dir.last() == ':',
        stem.len() > 0,
        forall|i: int|
            0 <= i < stem.len() ==> #[trigger] stem[i] != '/' && stem[i] != '\\' && stem[i] != ':',
        forall|i: int|
            0 <= i < e.len() ==> #[trigger] e[i] != '/' && e[i] != '\\' && e[i] != ':' && e[i]
                != '.',
        e.len() == 0 ==> stem != seq!['.'],
    ensures
        extension_in(dir + (stem.push('.') + e)) == Some(e),
        lowered_extension_in(dir + (stem.push('.') + e)) == Some(ascii_lowered(e)),
        !may_name_server(dir + (stem.push('.') + e)) ==> is_portable(dir + (stem.push('.') + e)),
{
    let name = stem.push('.') + e;
    let path = dir + name;
    assert forall|i: int| 0 <= i < name.len() implies !is_separator(#[trigger] name[i]) by {
        if i < stem.len() {
            assert(name[i] == stem[i]);
        } else if i > stem.len() {
            assert(name[i] == e[i - stem.len() - 1]);
        }
    }
    assert(path.last() == name[name.len() - 1]);
    assert(path.drop_last().last() == name[name.len() - 2]);
    assert(without_end_slashes(path) == path);
    lemma_last_part_is_the_name(dir, name);
    lemma_what_follows_the_dot(stem, e);
    assert(name[stem.len() as int] == '.');
    if name == seq!['.', '.'] {
        assert(name.len() == 2 && name[0] == '.' && name[1] == '.');
        assert(stem.len() == 1 && stem[0] == '.');
        assert(stem =~= seq!['.']);
    }
}

/// A file whose name has no dot, or none but the first character, has no
/// extension, in whatever directory it is; nor has a parent directory.
pub proof fn law_names_without_extension(dir: Seq<char>, name: Seq<char>)
    requires
        dir.len() == 0 || dir.last() == '/' || dir.last() == '\\' || dir.last() == ':',
        name.len() > 0,
        name != seq!['.'],
        forall|i: int|
            0 <= i < name.len() ==> #[trigger] name[i] != '/' && name[i] != '\\' && name[i] != ':',
        name == seq!['.', '.'] || forall|i: int| 0 < i < name.len() ==> #[trigger] name[i] != '.',
    ensures
        extension_in(dir + name) is None,
        lowered_extension_in(dir + name) is None,
{
    let path = dir + name;
    assert(path.last() == name[name.len() - 1]);
    if name.len() == 1 {
        assert(name =~= seq![name[0]]);
        assert(name[0] != '.');
    } else {
        assert(path.drop_last().last() == name[name.len() - 2]);
    }
    assert(without_end_slashes(path) == path);
    lemma_last_part_is_the_name(dir, name);
}

/// Every platform finds the same extension in a path without `\` and `:` that
/// does not begin with two slashes, and what it finds is the extension in it.
pub proof fn law_plain_paths_are_portable(path: Seq<char>, found: Option<Seq<char>>)
    requires
        forall|i: int| 0 <= i < path.len() ==> #[trigger] path[i] != '\\' && path[i] != ':',
        path.len() < 2 || path[0] != '/' || path[1] != '/',
    ensures
        is_portable(path),
        may_be_extension(found, path) ==> found == extension_in(path),
{
    if path.len() >= 2 {
        assert(path[0] != '\\' && path[1] != '\\');
    }
}

/// On a path whose extension does not depend on the platform, what is found is
/// the extension in it.
pub proof fn law_found_extension(path: Seq<char>, found: Option<Seq<char>>)
    requires
        is_portable(path),
        may_be_extension(found, path),
    ensures
        found == extension_in(path),
{
}

/// The media types of the extensions that have one; every other file, and every
/// file without an extension, is a mere stream of bytes.
pub proof fn law_media_types(e: Seq<char>)
    ensures
        mime_type(None) == "application/octet-stream"@,
        e == "wav"@ ==> mime_type(Some(e)) == "audio/wav"@,
        e == "mp3"@ || e == "mpeg"@ || e == "mpga"@ ==> mime_type(Some(e)) == "audio/mpeg"@,
        e == "flac"@ ==> mime_type(Some(e)) == "audio/flac"@,
        e == "m4a"@ || e == "mp4"@ ==> mime_type(Some(e)) == "audio/mp4"@,
        e == "ogg"@ || e == "opus"@ ==> mime_type(Some(e)) == "audio/ogg"@,
        e != "wav"@ && e != "mp3"@ && e != "mpeg"@ && e != "mpga"@ && e != "flac"@ && e != "m4a"@
            && e != "mp4"@ && e != "ogg"@ && e != "opus"@ ==> mime_type(Some(e))
            == "application/octet-stream"@,
{
    reveal_strlit("wav");
    reveal_strlit("mp3");
    reveal_strlit("mpeg");
    reveal_strlit("mpga");
    reveal_strlit("flac");
    reveal_strlit("m4a");
    reveal_strlit("mp4");
    reveal_strlit("ogg");
    reveal_strlit("opus");
    assert("wav"@[0] == 'w' && "flac"@[0] == 'f' && "ogg"@[0] == 'o' && "opus"@[0] == 'o');
    assert("mp3"@[0] == 'm' && "mpeg"@[0] == 'm' && "mpga"@[0] == 'm' && "m4a"@[0] == 'm'
        && "mp4"@[0] == 'm');
    assert("mp3"@[2] == '3' && "mp4"@[2] == '4' && "m4a"@[1] == '4' && "mp3"@[1] == 'p');
    assert("mpeg"@.len() == 4 && "mpga"@.len() == 4 && "m4a"@.len() == 3 && "mp4"@.len() == 3);
}

/// Ogg/Opus and WAVE files are decoded, and no others: any other file is sent
/// as it is, under the media type of its extension.
pub proof fn law_sources(extension: Option<Seq<char>>)
    ensures
        source_for(extension) is OggOpus <==> extension == Some("opus"@) || extension == Some(
            "ogg"@,
        ),
        source_for(extension) is Wav <==> extension == Some("wav"@),
        extension != Some("opus"@) && extension != Some("ogg"@) && extension != Some("wav"@)
            ==> source_for(extension) == (AudioSourceView::AsIs { mime_type: mime_type(extension) }),
{
    reveal_strlit("opus");
    reveal_strlit("ogg");
    reveal_strlit("wav");
    assert("wav"@[0] == 'w' && "ogg"@[0] == 'o' && "opus"@[0] == 'o');
}

/// A decoded stream is encoded whole, unless it is empty, which is an error, and
/// so is the decoder's refusal.
pub proof fn law_decoded_speech_is_encoded_whole(pcm: Seq<u8>, m: Seq<char>)
    ensures
        pcm.len() > 0 ==> preparation(AudioSourceView::OggOpus, Ok(pcm)) == Preparation::Encode(
            pcm,
        ),
        pcm.len() == 0 ==> preparation(AudioSourceView::OggOpus, Ok(pcm)) == Preparation::Fail(
            AsrErrorView::ProtocolError("音频文件解码后为空"@),
        ),
        preparation(AudioSourceView::OggOpus, Err(m)) == Preparation::Fail(
            AsrErrorView::ProtocolError(m),
        ),
{
}

/// The speech in a WAVE file is encoded whole, even where there is none, and a
/// file that cannot be read as one is an error.
pub proof fn law_wave_is_encoded_whole(bytes: Seq<u8>)
    ensures
        wav_pcm(bytes) matches Ok(pcm) ==> preparation(AudioSourceView::Wav, Ok(bytes))
            == Preparation::Encode(pcm),
        wav_pcm(bytes) matches Err(e) ==> preparation(AudioSourceView::Wav, Ok(bytes))
            == Preparation::Fail(e),
{
}

/// A file that is sent as it is keeps its media type and all its bytes, and one
/// that cannot be read is an error that says why, whole.
pub proof fn law_other_files_are_sent_whole(mime_type: Seq<char>, bytes: Seq<u8>, m: Seq<char>)
    ensures
        preparation(AudioSourceView::AsIs { mime_type }, Ok(bytes)) == Preparation::Send(
            PreparedAudioView { mime_type, bytes },
        ),
        preparation(AudioSourceView::AsIs { mime_type }, Err(m)) == Preparation::Fail(
            AsrErrorView::ConnectionFailed("Failed to read audio file: "@ + m),
        ),
        preparation(AudioSourceView::Wav, Err(m)) == Preparation::Fail(
            AsrErrorView::ConnectionFailed("Failed to read audio file: "@ + m),
        ),
{
}

/// Encoding to WAVE always ends with the file of all the PCM; encoding to MP3
/// ends with bytes of that kind, or with an error, that the encoder may end
/// with.
pub proof fn law_encoded_speech(
    pcm: Seq<u8>,
    r: Result<PreparedAudioView, AsrErrorView>,
    audio: PreparedAudioView,
    e: AsrErrorView,
)
    ensures
        is_encoded(pcm, SpeechContainer::Wav, r) <==> r == Ok::<PreparedAudioView, AsrErrorView>(
            PreparedAudioView { mime_type: "audio/wav"@, bytes: wav_file(pcm) },
        ),
        is_encoded(pcm, SpeechContainer::Mp3, Ok(audio)) <==> audio.mime_type == "audio/mpeg"@
            && may_end_with(pcm, Ok(audio.bytes)),
        is_encoded(pcm, SpeechContainer::Mp3, Err(e)) <==> may_end_with(pcm, Err(e)),
{
}

/// Audio, sources and what was loaded are known by their media types, bytes and
/// messages, whole.
pub proof fn law_audio_is_type_and_bytes(
    audio: PreparedAudio,
    source: AudioSource,
    bytes: Vec<u8>,
    m: String,
    e: AsrError,
)
    ensures
        audio@.mime_type == audio.mime_type@,
        audio@.bytes == audio.bytes@,
        prepared_view(Ok(audio)) == Ok::<PreparedAudioView, AsrErrorView>(audio@),
        prepared_view(Err(e)) == Err::<PreparedAudioView, AsrErrorView>(e@),
        loaded_view(Ok(bytes)) == Ok::<Seq<u8>, Seq<char>>(bytes@),
        loaded_view(Err(m)) == Err::<Seq<u8>, Seq<char>>(m@),
        source is OggOpus <==> source@ is OggOpus,
        source is Wav <==> source@ is Wav,
        source matches AudioSource::AsIs { mime_type } ==> source@ == (AudioSourceView::AsIs {
            mime_type: mime_type@,
        }),
        opt_string_view(Some(m)) == Some(m@),
        opt_string_view(None) == None::<Seq<char>>,
        opt_str_view(Some(audio.mime_type)) == Some(audio.mime_type@),
        opt_str_view(None) == None::<Seq<char>>,
        lowered_extension(Some(m@)) == Some(ascii_lowered(m@)),
        lowered_extension(None) == None::<Seq<char>>,
{
}

/// Every platform finds the extension of a file below a server and a share,
/// whose names end at `s` and `d`. (A `?` or `.` in place of a server has
/// another meaning.)
pub proof fn law_extension_below_a_share(
    dir: Seq<char>,
    stem: Seq<char>,
    e: Seq<char>,
    s: int,
    d: int,
)
    requires
        2 < s,
        s + 1 < d < dir.len(),
        dir[0] == '/' || dir[0] == '\\',
        dir[1] == '/' || dir[1] == '\\',
        dir[s] == '/' || dir[s] == '\\',
        dir[d] == '/' || dir[d] == '\\',
        forall|i: int|
            2 <= i < d && i != s ==> #[trigger] dir[i] != '/' && dir[i] != '\\' && dir[i] != ':',
        s == 3 ==> dir[2] != '?' && dir[2] != '.',
        dir.last() == '/' || dir.last() == '\\' || dir.last() == ':',
        stem.len() > 0,
        forall|i: int|
            0 <= i < stem.len() ==> #[trigger] stem[i] != '/' && stem[i] != '\\' && stem[i] != ':',
        forall|i: int|
            0 <= i < e.len() ==> #[trigger] e[i] != '/' && e[i] != '\\' && e[i] != ':' && e[i]
                != '.',
        e.len() == 0 ==> stem != seq!['.'],
    ensures
        is_portable(dir + (stem.push('.') + e)),
        extension_in(dir + (stem.push('.') + e)) == Some(e),
{
    let name = stem.push('.') + e;
    let path = dir + name;
    law_extension_of_a_file(dir, stem, e);
    assert(path[0] == dir[0] && path[1] == dir[1]);
    assert(path[s] == dir[s] && path[d] == dir[d]);
    assert forall|i: int| 2 <= i < d && i != s implies !is_separator(#[trigger] path[i]) by {
        assert(path[i] == dir[i]);
    }
    assert(path[2] == dir[2]);
    assert(names_share(path, s, d));
    lemma_name_ends_path(dir, name);
}

/// A path that ends in a name other than `.` has no slashes at its end.
proof fn lemma_name_ends_path(dir: Seq<char>, name: Seq<char>)
    requires
        name.len() > 1,
        name.last() != '/',
        name[name.len() - 2] != '/',
    ensures
        without_end_slashes(dir + name) == dir + name,
{
    let path = dir + name;
    assert(path.last() == name[name.len() - 1]);
    assert(path.drop_last().last() == name[name.len() - 2]);
}

/// A text has no dot if and only if no character of it is one.
pub proof fn law_dots(s: Seq<char>)
    ensures
        has_no_dot(s) <==> !s.contains('.'),
{
}

} // verus!

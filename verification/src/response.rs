//! The reply: reading the transcript, or the error, out of it.

use vstd::prelude::*;

use crate::error::{text_view, AsrError, AsrErrorView};
use crate::text::{
    appended, is_white_space, join, joined, law_joined, law_joined_length, law_trimmed, trimmed,
    views,
};

verus! {

/// A JSON value.
#[derive(Debug)]
pub enum JsonValue {
    Null,
    Bool(bool),
    /// A number, as it was written.
    Number(String),
    String(String),
    Array(Vec<JsonValue>),
    Object(Vec<JsonMember>),
}

/// A member of a JSON object. No two members of one object have the same name.
#[derive(Debug)]
pub struct JsonMember {
    pub name: String,
    pub value: JsonValue,
}

/// The place of the first of `members` from `i` on with a name.
pub open spec fn member_index(members: Seq<JsonMember>, name: Seq<char>, i: int) -> Option<int>
    decreases members.len() - i,
{
    if i < 0 || i >= members.len() {
        None
    } else if members[i].name@ == name {
        Some(i)
    } else {
        member_index(members, name, i + 1)
    }
}

impl JsonValue {
    /// The member of an object with a name.
    pub open spec fn member(self, name: Seq<char>) -> Option<JsonValue> {
        match self {
            JsonValue::Object(members) => match member_index(members@, name, 0) {
                Some(i) => Some(members@[i].value),
                None => None,
            },
            _ => None,
        }
    }

    /// The text of a string.
    pub open spec fn text(self) -> Option<Seq<char>> {
        match self {
            JsonValue::String(s) => Some(s@),
            _ => None,
        }
    }

    /// The text of the member `text` of an object, where that is a string.
    pub open spec fn part_text(self) -> Option<Seq<char>> {
        match self.member("text"@) {
            Some(value) => value.text(),
            None => None,
        }
    }

    /// Finds the member of an object with a name.
    pub fn get(&self, name: &str) -> (r: Option<&JsonValue>)
        ensures
            match r {
                Some(v) => self.member(name@) == Some(*v),
                None => self.member(name@) is None,
            },
    {
        match self {
            JsonValue::Object(members) => {
                let mut i: usize = 0;
                while i < members.len()
                    invariant
                        i <= members@.len(),
                        member_index(members@, name@, 0) == member_index(
                            members@,
                            name@,
                            i as int,
                        ),
                        *self == JsonValue::Object(*members),
                    decreases members.len() - i,
                {
                    if *members[i].name.as_str() == *name {
                        return Some(&members[i].value);
                    }
                    i += 1;
                }
                None
            },
            _ => None,
        }
    }

    /// The text of a string.
    pub fn as_str(&self) -> (r: Option<&str>)
        ensures
            match r {
                Some(s) => self.text() == Some(s@),
                None => self.text() is None,
            },
    {
        match self {
            JsonValue::String(s) => Some(s.as_str()),
            _ => None,
        }
    }
}

/// Whether no two members have the same name.
pub open spec fn names_differ(members: Seq<JsonMember>) -> bool {
    forall|i: int, j: int|
        0 <= i < j < members.len() ==> (#[trigger] members[i]).name@ != (
        #[trigger] members[j]).name@
}

/// The first member with a name at or after `i` is the one at `k`, where the
/// names differ.
proof fn lemma_member_index(members: Seq<JsonMember>, k: int, i: int)
    requires
        names_differ(members),
        0 <= i <= k < members.len(),
    ensures
        member_index(members, members[k].name@, i) == Some(k),
    decreases k - i,
{
    if i < k {
        lemma_member_index(members, k, i + 1);
    }
}

/// Every member of an object is found under its name.
pub proof fn law_every_member_is_found(members: Vec<JsonMember>, k: int)
    requires
        names_differ(members@),
        0 <= k < members@.len(),
    ensures
        JsonValue::Object(members).member(members@[k].name@) == Some(members@[k].value),
{
    lemma_member_index(members@, k, 0);
}

/// The texts of the first `n` of `parts`, one after the other. Parts without a
/// text contribute nothing.
pub open spec fn part_texts(parts: Seq<JsonValue>, n: nat) -> Seq<char>
    decreases n,
{
    if n == 0 {
        Seq::empty()
    } else {
        match parts[n - 1].part_text() {
            Some(text) => part_texts(parts, (n - 1) as nat) + text,
            None => part_texts(parts, (n - 1) as nat),
        }
    }
}

/// The plain text of the content of a message: a string, or the texts of an
/// array of parts. Anything else has none.
pub open spec fn content_text(content: JsonValue) -> Seq<char> {
    match content {
        JsonValue::String(text) => text@,
        JsonValue::Array(parts) => part_texts(parts@, parts@.len()),
        _ => Seq::empty(),
    }
}

/// Flattens the content of a message into plain text. The service answers with
/// a string; other gateways answer with an array of parts.
pub fn content_to_text(content: &JsonValue) -> (r: String)
    ensures
        r@ == content_text(*content),
{
    match content {
        JsonValue::String(text) => text.clone(),
        JsonValue::Array(parts) => {
            let mut out = String::new();
            let mut i: usize = 0;
            while i < parts.len()
                invariant
                    i <= parts@.len(),
                    out@ == part_texts(parts@, i as nat),
                decreases parts.len() - i,
            {
                if let Some(value) = parts[i].get("text") {
                    if let Some(text) = value.as_str() {
                        out.append(text);
                    }
                }
                i += 1;
            }
            out
        },
        _ => String::new(),
    }
}

/// An error of the service.
#[derive(Debug)]
pub struct MimoError {
    pub message: Option<String>,
}

/// A message of the service.
#[derive(Debug)]
pub struct MimoResponseMessage {
    pub content: Option<JsonValue>,
}

/// One of the answers of the service.
#[derive(Debug)]
pub struct MimoChoice {
    pub message: Option<MimoResponseMessage>,
    pub finish_reason: Option<String>,
}

/// The body of a reply.
#[derive(Debug)]
pub struct MimoAsrResponse {
    pub choices: Option<Vec<MimoChoice>>,
    pub error: Option<MimoError>,
}

impl MimoChoice {
    /// The text of a choice that has content.
    pub open spec fn text(self) -> Option<Seq<char>> {
        match self.message {
            Some(message) => match message.content {
                Some(content) => Some(content_text(content)),
                None => None,
            },
            None => None,
        }
    }

    /// Whether the choice ended because the tokens ran out.
    pub open spec fn ran_out_of_tokens(self) -> bool {
        self.finish_reason matches Some(reason) && reason@ == "length"@
    }
}

/// The texts of those of the first `n` choices that have content.
pub open spec fn choice_texts(choices: Seq<MimoChoice>, n: nat) -> Seq<Seq<char>>
    decreases n,
{
    if n == 0 {
        Seq::empty()
    } else {
        match choices[n - 1].text() {
            Some(text) => choice_texts(choices, (n - 1) as nat).push(text),
            None => choice_texts(choices, (n - 1) as nat),
        }
    }
}

impl MimoAsrResponse {
    /// The choices; none where the reply has no list of them.
    pub open spec fn choice_list(self) -> Seq<MimoChoice> {
        match self.choices {
            Some(choices) => choices@,
            None => Seq::empty(),
        }
    }

    /// The texts of the choices, one to a line, without surrounding white space.
    pub open spec fn transcript(self) -> Seq<char> {
        trimmed(joined(choice_texts(self.choice_list(), self.choice_list().len()), "\n"@))
    }

    /// What the reply amounts to: the error it carries, or else its transcript,
    /// which must not be empty.
    pub open spec fn outcome(self) -> Result<Seq<char>, AsrErrorView> {
        match self.error {
            Some(error) => Err(
                AsrErrorView::ServerError(
                    "MiMo error: "@ + match error.message {
                        Some(message) => message@,
                        None => "unknown error"@,
                    },
                ),
            ),
            None => if self.transcript().len() == 0 {
                Err(AsrErrorView::ServerError("MiMo returned an empty transcript"@))
            } else {
                Ok(self.transcript())
            },
        }
    }

    /// Whether some choice ended because the tokens ran out.
    pub open spec fn ran_out_of_tokens(self) -> bool {
        exists|i: int|
            0 <= i < self.choice_list().len() && (
            #[trigger] self.choice_list()[i]).ran_out_of_tokens()
    }
}

/// Collects the texts of the choices that have content.
fn collect_texts(choices: &Vec<MimoChoice>) -> (r: Vec<String>)
    ensures
        views(r@) == choice_texts(choices@, choices@.len()),
{
    let mut texts: Vec<String> = Vec::new();
    let mut i: usize = 0;
    assert(views(texts@) =~= choice_texts(choices@, 0));
    while i < choices.len()
        invariant
            i <= choices@.len(),
            views(texts@) == choice_texts(choices@, i as nat),
        decreases choices.len() - i,
    {
        let ghost before = texts@;
        if let Some(message) = &choices[i].message {
            if let Some(content) = &message.content {
                let text = content_to_text(content);
                texts.push(text);
                assert(views(texts@) =~= views(before).push(text@));
            }
        }
        i += 1;
    }
    texts
}

/// Reads the transcript, or the error, out of a reply.
pub fn extract_text(response: MimoAsrResponse) -> (r: Result<String, AsrError>)
    ensures
        text_view(r) == response.outcome(),
{
    if let Some(error) = response.error {
        return Err(
            AsrError::ServerError(
                match error.message {
                    Some(message) => appended("MiMo error: ", message.as_str()),
                    None => appended("MiMo error: ", "unknown error"),
                },
            ),
        );
    }
    let choices = match response.choices {
        Some(choices) => choices,
        None => Vec::new(),
    };
    let texts = collect_texts(&choices);
    let whole = join(&texts, "\n");
    let text = whole.as_str().trim();
    if text.is_empty() {
        Err(AsrError::ServerError("MiMo returned an empty transcript".to_string()))
    } else {
        Ok(text.to_string())
    }
}

/// Whether a reply carries a transcript that was cut off at the ceiling of
/// output tokens: the recording is likely too long for a single request.
pub fn is_truncated(response: &MimoAsrResponse) -> (r: bool)
    ensures
        r == (response.error is None && response.ran_out_of_tokens()),
{
    if response.error.is_some() {
        return false;
    }
    if let Some(choices) = &response.choices {
        let mut i: usize = 0;
        while i < choices.len()
            invariant
                i <= choices@.len(),
                response.error is None,
                response.choice_list() == choices@,
                forall|j: int| 0 <= j < i ==> !(#[trigger] choices@[j]).ran_out_of_tokens(),
            decreases choices.len() - i,
        {
            if let Some(reason) = &choices[i].finish_reason {
                if *reason.as_str() == *"length" {
                    assert(response.choice_list()[i as int].ran_out_of_tokens());
                    return true;
                }
            }
            i += 1;
        }
    }
    false
}

/// A transcript that is returned is not empty and has no surrounding white
/// space.
pub proof fn law_transcript_is_clean(response: MimoAsrResponse)
    requires
        response.outcome() is Ok,
    ensures
        response.outcome()->Ok_0.len() > 0,
        !is_white_space(response.outcome()->Ok_0[0]),
        !is_white_space(response.outcome()->Ok_0.last()),
{
    law_trimmed(joined(choice_texts(response.choice_list(), response.choice_list().len()), "\n"@));
}

/// A reply that carries an error is never read as a transcript, whatever its
/// choices are.
pub proof fn law_error_prevails(response: MimoAsrResponse)
    requires
        response.error is Some,
    ensures
        response.outcome() matches Err(AsrErrorView::ServerError(_)),
{
}

/// A reply with a single choice, which has content that is not blank, reads as
/// the text of that content, trimmed.
pub proof fn law_single_choice(response: MimoAsrResponse)
    requires
        response.error is None,
        response.choice_list().len() == 1,
        response.choice_list()[0].text() is Some,
        trimmed(response.choice_list()[0].text().unwrap()).len() > 0,
    ensures
        response.outcome() == Ok::<Seq<char>, AsrErrorView>(
            trimmed(response.choice_list()[0].text().unwrap()),
        ),
{
    let choices = response.choice_list();
    assert(choice_texts(choices, 0) =~= Seq::empty());
    assert(choice_texts(choices, 1) =~= seq![choices[0].text().unwrap()]);
}

/// A part with a text flattens to the same text as the string itself.
pub proof fn law_part_reads_as_string(part: JsonValue, parts: Vec<JsonValue>, text: String)
    requires
        parts@ == seq![part],
        part.part_text() == Some(text@),
    ensures
        content_text(JsonValue::Array(parts)) == content_text(JsonValue::String(text)),
{
    assert(part_texts(parts@, 0) =~= Seq::empty());
    assert(part_texts(parts@, 1) =~= text@);
}

/// The texts of parts that follow each other follow each other.
pub proof fn law_parts_concatenate(a: Seq<JsonValue>, b: Seq<JsonValue>)
    ensures
        part_texts(a + b, a.len() + b.len()) == part_texts(a, a.len()) + part_texts(b, b.len()),
    decreases b.len(),
{
    if b.len() == 0 {
        assert(a + b =~= a);
        assert(part_texts(a, a.len()) + part_texts(b, 0) =~= part_texts(a, a.len()));
    } else {
        let front = b.drop_last();
        law_parts_concatenate(a, front);
        lemma_part_texts_of_prefix(a + front, b.last(), (a + front).len());
        lemma_part_texts_of_prefix(front, b.last(), front.len());
        assert(a + b =~= (a + front).push(b.last()));
        assert(b =~= front.push(b.last()));
        if let Some(text) = b.last().part_text() {
            assert(part_texts(a, a.len()) + (part_texts(front, front.len()) + text) =~= part_texts(
                a,
                a.len(),
            ) + part_texts(front, front.len()) + text);
        }
    }
}

/// The texts of the first parts do not depend on a later one.
proof fn lemma_part_texts_of_prefix(parts: Seq<JsonValue>, extra: JsonValue, n: nat)
    requires
        n <= parts.len(),
    ensures
        part_texts(parts.push(extra), n) == part_texts(parts, n),
    decreases n,
{
    if n > 0 {
        lemma_part_texts_of_prefix(parts, extra, (n - 1) as nat);
    }
}

/// Choices without content leave the transcript as it is.
pub proof fn law_choice_without_content_is_ignored(choices: Seq<MimoChoice>, extra: MimoChoice)
    requires
        extra.text() is None,
    ensures
        choice_texts(choices.push(extra), choices.len() + 1) == choice_texts(
            choices,
            choices.len(),
        ),
{
    lemma_choice_texts_of_prefix(choices, extra, choices.len());
}

/// The texts of the first choices do not depend on a later one.
proof fn lemma_choice_texts_of_prefix(choices: Seq<MimoChoice>, extra: MimoChoice, n: nat)
    requires
        n <= choices.len(),
    ensures
        choice_texts(choices.push(extra), n) == choice_texts(choices, n),
    decreases n,
{
    if n > 0 {
        lemma_choice_texts_of_prefix(choices, extra, (n - 1) as nat);
    }
}

/// A name stands for the first member of an object that has it, and for nothing
/// where none has. Only objects have members.
pub proof fn law_member_is_the_first_of_its_name(
    value: JsonValue,
    members: Vec<JsonMember>,
    name: Seq<char>,
)
    ensures
        (forall|i: int| 0 <= i < members@.len() ==> (#[trigger] members@[i]).name@ != name)
            ==> JsonValue::Object(members).member(name) is None,
        forall|k: int|
            0 <= k < members@.len() && (#[trigger] members@[k]).name@ == name && (forall|i: int|
                0 <= i < k ==> (#[trigger] members@[i]).name@ != name)
                ==> JsonValue::Object(members).member(name) == Some(members@[k].value),
        !(value is Object) ==> value.member(name) is None,
{
    if forall|i: int| 0 <= i < members@.len() ==> (#[trigger] members@[i]).name@ != name {
        lemma_no_member(members@, name, 0);
    }
    assert forall|k: int|
        0 <= k < members@.len() && (#[trigger] members@[k]).name@ == name && (forall|i: int|
            0 <= i < k ==> (#[trigger] members@[i]).name@ != name) implies JsonValue::Object(
        members,
    ).member(name) == Some(members@[k].value) by {
        lemma_first_member(members@, name, k, 0);
    }
}

/// Where no member has a name, none is found.
proof fn lemma_no_member(members: Seq<JsonMember>, name: Seq<char>, i: int)
    requires
        0 <= i,
        forall|j: int| 0 <= j < members.len() ==> (#[trigger] members[j]).name@ != name,
    ensures
        member_index(members, name, i) is None,
    decreases members.len() - i,
{
    if i < members.len() {
        lemma_no_member(members, name, i + 1);
    }
}

/// The first member with a name is found.
proof fn lemma_first_member(members: Seq<JsonMember>, name: Seq<char>, k: int, i: int)
    requires
        0 <= i <= k < members.len(),
        members[k].name@ == name,
        forall|j: int| 0 <= j < k ==> (#[trigger] members[j]).name@ != name,
    ensures
        member_index(members, name, i) == Some(k),
    decreases k - i,
{
    if i < k {
        lemma_first_member(members, name, k, i + 1);
    }
}

/// A part has the text that its member `text` is, whole, where that is a string,
/// and no other text.
pub proof fn law_text_of_a_part(part: JsonValue, t: String)
    ensures
        part.member("text"@) == Some(JsonValue::String(t)) ==> part.part_text() == Some(t@),
        part.member("text"@) is None ==> part.part_text() is None,
        part.member("text"@) matches Some(v) && !(v is String) ==> part.part_text() is None,
{
}

/// A part alone contributes its text, whole, or nothing where it has none; and
/// no parts contribute nothing.
pub proof fn law_texts_of_a_part(part: JsonValue)
    ensures
        part_texts(Seq::empty(), 0) == Seq::<char>::empty(),
        part.part_text() matches Some(t) ==> part_texts(seq![part], 1) == t,
        part.part_text() is None ==> part_texts(seq![part], 1) == Seq::<char>::empty(),
{
    assert(part_texts(seq![part], 0) =~= Seq::empty());
    if let Some(t) = part.part_text() {
        assert(part_texts(seq![part], 1) =~= t);
    }
}

/// Content that is a string reads as the string, whole; content that is an array
/// as the texts of all its parts; other content has no text.
pub proof fn law_content_is_read_whole(content: JsonValue, t: String, parts: Vec<JsonValue>)
    ensures
        content_text(JsonValue::String(t)) == t@,
        content_text(JsonValue::Array(parts)) == part_texts(parts@, parts@.len()),
        !(content is String) && !(content is Array) ==> content_text(content) == Seq::<
            char,
        >::empty(),
{
}

/// A choice has the text of the content of its message, whole, and none without
/// a message or without content.
pub proof fn law_choice_is_read_whole(choice: MimoChoice, message: MimoResponseMessage, c: JsonValue)
    ensures
        choice.message == Some(message) && message.content == Some(c) ==> choice.text() == Some(
            content_text(c),
        ),
        choice.message == Some(message) && message.content is None ==> choice.text() is None,
        choice.message is None ==> choice.text() is None,
{
}

/// The texts of the choices that have one are taken in order, each one whole.
pub proof fn law_choice_texts(choices: Seq<MimoChoice>, extra: MimoChoice)
    ensures
        choice_texts(Seq::empty(), 0) == Seq::<Seq<char>>::empty(),
        extra.text() matches Some(t) ==> choice_texts(choices.push(extra), choices.len() + 1)
            == choice_texts(choices, choices.len()).push(t),
        extra.text() is None ==> choice_texts(choices.push(extra), choices.len() + 1)
            == choice_texts(choices, choices.len()),
{
    lemma_choice_texts_of_prefix(choices, extra, choices.len());
}

/// Choices that all have content have as many texts, in the same order.
proof fn lemma_texts_of_contents(choices: Seq<MimoChoice>, contents: Seq<JsonValue>, n: nat)
    requires
        n <= choices.len(),
        contents.len() == choices.len(),
        forall|i: int|
            0 <= i < choices.len() ==> ((#[trigger] choices[i]).message matches Some(m) && m.content
                == Some(contents[i])),
    ensures
        choice_texts(choices, n) == contents.take(n as int).map_values(
            |c: JsonValue| content_text(c),
        ),
    decreases n,
{
    let text = |c: JsonValue| content_text(c);
    if n > 0 {
        lemma_texts_of_contents(choices, contents, (n - 1) as nat);
        assert(choices[n - 1].text() == Some(content_text(contents[n - 1])));
        assert(contents.take(n as int).map_values(text) =~= contents.take(n - 1).map_values(
            text,
        ).push(content_text(contents[n - 1])));
    } else {
        assert(contents.take(0).map_values(text) =~= Seq::empty());
    }
}

/// A reply without an error whose choices all have content reads as their texts,
/// each one whole, one to a line, without the white space around the whole; and
/// it is an error if nothing else is left. How the choices ended does not
/// matter.
pub proof fn law_reply_is_read_whole(
    response: MimoAsrResponse,
    choices: Vec<MimoChoice>,
    contents: Seq<JsonValue>,
)
    requires
        response.error is None,
        response.choices == Some(choices),
        contents.len() == choices@.len(),
        forall|i: int|
            0 <= i < choices@.len() ==> ((#[trigger] choices@[i]).message matches Some(m)
                && m.content == Some(contents[i])),
    ensures
        ({
            let whole = joined(contents.map_values(|c: JsonValue| content_text(c)), "\n"@);
            &&& trimmed(whole).len() > 0 ==> response.outcome() == Ok::<Seq<char>, AsrErrorView>(
                trimmed(whole),
            )
            &&& trimmed(whole).len() == 0 ==> response.outcome() == Err::<Seq<char>, AsrErrorView>(
                AsrErrorView::ServerError("MiMo returned an empty transcript"@),
            )
        }),
{
    lemma_texts_of_contents(choices@, contents, choices@.len());
    assert(contents.take(choices@.len() as int) =~= contents);
}

/// A reply without an error whose single choice has a message with a string as
/// its content reads as that string, however long it is, without the white
/// space around it.
pub proof fn law_string_is_read_whole(
    response: MimoAsrResponse,
    choices: Vec<MimoChoice>,
    message: MimoResponseMessage,
    t: String,
)
    requires
        response.error is None,
        response.choices == Some(choices),
        choices@.len() == 1,
        choices@[0].message == Some(message),
        message.content == Some(JsonValue::String(t)),
        trimmed(t@).len() > 0,
    ensures
        response.outcome() == Ok::<Seq<char>, AsrErrorView>(trimmed(t@)),
{
    let contents = seq![JsonValue::String(t)];
    law_reply_is_read_whole(response, choices, contents);
    law_joined(Seq::empty(), "\n"@, t@);
    assert(contents.map_values(|c: JsonValue| content_text(c)) =~= seq![t@]);
}

/// No character is lost: before the white space around it is removed, the
/// transcript of a reply is as long as the texts of its choices together and a
/// line break between each two of them.
pub proof fn law_transcript_length(contents: Seq<JsonValue>)
    requires
        contents.len() > 0,
    ensures
        joined(contents.map_values(|c: JsonValue| content_text(c)), "\n"@).len()
            == contents.map_values(|c: JsonValue| content_text(c).len() as int).fold_left(
            0int,
            |sum: int, n: int| sum + n,
        ) + contents.len() - 1,
{
    reveal_strlit("\n");
    let texts = contents.map_values(|c: JsonValue| content_text(c));
    law_joined_length(texts, "\n"@);
    assert(texts.map_values(|p: Seq<char>| p.len() as int) =~= contents.map_values(
        |c: JsonValue| content_text(c).len() as int,
    ));
}

/// A reply without an error and without choices, or without content in any of
/// them, has an empty transcript, which is an error.
pub proof fn law_reply_without_content_is_an_error(response: MimoAsrResponse)
    requires
        response.error is None,
        response.choices matches Some(choices) ==> forall|i: int|
            0 <= i < choices@.len() ==> ((#[trigger] choices@[i]).message matches Some(m)
                ==> m.content is None),
    ensures
        response.outcome() == Err::<Seq<char>, AsrErrorView>(
            AsrErrorView::ServerError("MiMo returned an empty transcript"@),
        ),
{
    let choices = response.choice_list();
    lemma_no_texts(choices, choices.len());
    law_joined(Seq::empty(), "\n"@, Seq::empty());
    assert(choice_texts(choices, choices.len()) =~= Seq::empty());
}

/// Choices without content have no texts.
proof fn lemma_no_texts(choices: Seq<MimoChoice>, n: nat)
    requires
        n <= choices.len(),
        forall|i: int|
            0 <= i < choices.len() ==> ((#[trigger] choices[i]).message matches Some(m)
                ==> m.content is None),
    ensures
        choice_texts(choices, n).len() == 0,
    decreases n,
{
    if n > 0 {
        lemma_no_texts(choices, (n - 1) as nat);
        assert(choices[n - 1].text() is None);
    }
}

/// The error of a reply is reported with its message, whole, or as unknown.
pub proof fn law_error_is_reported_whole(response: MimoAsrResponse, error: MimoError, m: String)
    requires
        response.error == Some(error),
    ensures
        error.message == Some(m) ==> response.outcome() == Err::<Seq<char>, AsrErrorView>(
            AsrErrorView::ServerError("MiMo error: "@ + m@),
        ),
        error.message is None ==> response.outcome() == Err::<Seq<char>, AsrErrorView>(
            AsrErrorView::ServerError("MiMo error: "@ + "unknown error"@),
        ),
{
}

/// A reply was cut off if and only if the reason that some choice, whichever it
/// is, ended for is `length`.
pub proof fn law_cut_off_by_length(response: MimoAsrResponse, choices: Vec<MimoChoice>)
    ensures
        response.choices is None ==> !response.ran_out_of_tokens(),
        response.choices == Some(choices) ==> (response.ran_out_of_tokens() <==> exists|i: int|
            0 <= i < choices@.len() && ((#[trigger] choices@[i]).finish_reason matches Some(reason)
                && reason@ == "length"@)),
{
    if response.choices == Some(choices) {
        assert(response.choice_list() == choices@);
        if exists|i: int|
            0 <= i < choices@.len() && ((#[trigger] choices@[i]).finish_reason matches Some(reason)
                && reason@ == "length"@) {
            let i = choose|i: int|
                0 <= i < choices@.len() && ((#[trigger] choices@[i]).finish_reason matches Some(
                    reason,
                ) && reason@ == "length"@);
            assert(response.choice_list()[i].ran_out_of_tokens());
        }
    }
}

} // verus!

//! Language models: what is sent to one, and what is read out of its answers.

pub mod laws;

use crate::error::CoreError;
use crate::number::Number;
use crate::text;
use crate::text::CharClass;
use vstd::prelude::*;

verus! {

/// Why a language model gave no completion.
#[derive(Clone, Debug, PartialEq, Eq)]
pub enum LlmError {
    EmptyMessages,
    Backend(String),
    Timeout,
    Malformed(String),
    AuthFailure,
}

impl LlmError {
    /// What the error says.
    pub open spec fn shown(self) -> Seq<char> {
        match self {
            LlmError::EmptyMessages => "no messages provided"@,
            LlmError::Backend(reason) => "backend error: "@ + reason@,
            LlmError::Timeout => "backend timed out before responding"@,
            LlmError::Malformed(reason) => "malformed backend response: "@ + reason@,
            LlmError::AuthFailure => "backend rejected credentials"@,
        }
    }

    /// What the error says.
    pub fn to_string(&self) -> (r: String)
        ensures
            r@ == self.shown(),
    {
        match self {
            LlmError::EmptyMessages => "no messages provided".to_owned(),
            LlmError::Backend(reason) => text::concat("backend error: ", reason.as_str()),
            LlmError::Timeout => "backend timed out before responding".to_owned(),
            LlmError::Malformed(reason) => text::concat("malformed backend response: ", reason.as_str()),
            LlmError::AuthFailure => "backend rejected credentials".to_owned(),
        }
    }
}

/// Who says a message.
#[derive(Clone, Copy, Debug, PartialEq, Eq, Structural)]
pub enum Role {
    System,
    User,
    Assistant,
}

impl Role {
    /// The role in the form that backends and payloads use.
    pub open spec fn keyword(self) -> Seq<char> {
        match self {
            Role::System => "system"@,
            Role::User => "user"@,
            Role::Assistant => "assistant"@,
        }
    }

    /// The role in the form that prompts use.
    pub open spec fn label(self) -> Seq<char> {
        match self {
            Role::System => "System"@,
            Role::User => "User"@,
            Role::Assistant => "Assistant"@,
        }
    }

    /// The role in the form that backends and payloads use.
    pub fn as_str(self) -> (r: &'static str)
        ensures
            r@ == self.keyword(),
    {
        match self {
            Role::System => "system",
            Role::User => "user",
            Role::Assistant => "assistant",
        }
    }

    /// The role in the form that prompts use.
    fn as_label(self) -> (r: &'static str)
        ensures
            r@ == self.label(),
    {
        match self {
            Role::System => "System",
            Role::User => "User",
            Role::Assistant => "Assistant",
        }
    }
}

/// A message to a language model; its images are encoded as texts.
#[derive(Debug, PartialEq, Eq)]
pub struct Message {
    pub role: Role,
    pub content: String,
    pub images: Vec<String>,
}

/// A message as a value.
#[verifier::ext_equal]
pub struct MessageModel {
    pub role: Role,
    pub content: Seq<char>,
    pub images: Seq<Seq<char>>,
}

impl View for Message {
    type V = MessageModel;

    open spec fn view(&self) -> MessageModel {
        MessageModel { role: self.role, content: self.content@, images: text::texts(self.images@) }
    }
}

/// A message without images, as a value.
pub open spec fn plain(role: Role, content: Seq<char>) -> MessageModel {
    MessageModel { role, content, images: Seq::empty() }
}

/// Some messages as values.
pub open spec fn message_models(messages: Seq<Message>) -> Seq<MessageModel> {
    messages.map_values(|m: Message| m@)
}

impl Message {
    /// A message without images.
    pub fn new(role: Role, content: &str) -> (r: Self)
        ensures
            r@ == plain(role, content@),
    {
        let r = Message { role, content: content.to_owned(), images: Vec::new() };
        proof {
            assert(r@ =~= plain(role, content@));
        }
        r
    }

    /// A message with images.
    pub fn with_images(role: Role, content: &str, images: Vec<String>) -> (r: Self)
        ensures
            r@ == (MessageModel { role, content: content@, images: text::texts(images@) }),
    {
        Message { role, content: content.to_owned(), images }
    }
}

impl Clone for Message {
    fn clone(&self) -> (r: Self)
        ensures
            r@ == self@,
    {
        Message {
            role: self.role,
            content: self.content.clone(),
            images: text::copy_texts(&self.images),
        }
    }
}

/// What a language model wrote.
#[derive(Clone, Debug, PartialEq, Eq)]
pub struct Completion {
    pub content: String,
}

impl Completion {
    pub fn new(content: &str) -> (r: Self)
        ensures
            r.content@ == content@,
    {
        Completion { content: content.to_owned() }
    }
}

/// The order key of the greatest temperature, two.
pub const MAX_TEMPERATURE_KEY: i64 = 0x4000_0000_0000_0000;

/// The language model that is asked, where it is and how it answers.
#[derive(Clone, Debug, PartialEq, Eq)]
pub struct LlmConfig {
    pub model: String,
    pub base_url: Option<String>,
    pub api_key: Option<String>,
    pub temperature: Option<Number>,
}

impl LlmConfig {
    /// What is wrong with the configuration, if anything is.
    pub open spec fn problem(self) -> Option<Seq<char>> {
        if text::trimmed(self.model@, CharClass::Space).len() == 0 {
            Some("model must not be empty"@)
        } else if self.temperature matches Some(t) && !(0 <= t.key <= MAX_TEMPERATURE_KEY) {
            Some("temperature must be between 0.0 and 2.0, got "@ + self.temperature->0.text@)
        } else {
            None
        }
    }

    /// Accepts a configuration whose model has a name and whose temperature, if
    /// it is set, is between zero and two.
    pub fn validate(&self) -> (r: Result<(), CoreError>)
        ensures
            match self.problem() {
                None => r is Ok,
                Some(message) => r matches Err(err) && err.is_config(message),
            },
    {
        if text::trim(self.model.as_str(), CharClass::Space).as_str().is_empty() {
            return Err(CoreError::Config("model must not be empty".to_owned()));
        }
        match &self.temperature {
            Some(t) => {
                if t.key < 0 || t.key > MAX_TEMPERATURE_KEY {
                    return Err(
                        CoreError::Config(
                            text::concat(
                                "temperature must be between 0.0 and 2.0, got ",
                                t.text.as_str(),
                            ),
                        ),
                    );
                }
            },
            None => {},
        }
        Ok(())
    }
}

/// The outcome of a completion as a value.
pub open spec fn answer_in(r: Result<Completion, LlmError>) -> Result<Seq<char>, LlmError> {
    match r {
        Ok(completion) => Ok(completion.content@),
        Err(err) => Err(err),
    }
}

/// A language model.
pub trait LlmProvider {
    /// Whether the model may answer some messages with an outcome; unless the
    /// provider says more, with any.
    open spec fn may_answer(
        &self,
        messages: Seq<MessageModel>,
        outcome: Result<Seq<char>, LlmError>,
    ) -> bool {
        true
    }

    /// Completes a conversation.
    fn complete(&self, messages: &[Message]) -> (r: Result<Completion, LlmError>)
        ensures
            self.may_answer(message_models(messages@), answer_in(r)),
    ;
}

impl<T: LlmProvider + ?Sized> LlmProvider for Box<T> {
    open spec fn may_answer(
        &self,
        messages: Seq<MessageModel>,
        outcome: Result<Seq<char>, LlmError>,
    ) -> bool {
        (**self).may_answer(messages, outcome)
    }

    fn complete(&self, messages: &[Message]) -> (r: Result<Completion, LlmError>) {
        (**self).complete(messages)
    }
}

/// What a language model is told to do with a conversation.
pub const EXTRACTION_PROMPT: &'static str = "Extract discrete factual statements from the conversation. Output one fact per line. Do not number them. Do not add blank lines.";

/// What a language model is told to do with the steps of an agent.
pub const PROCEDURE_PROMPT: &'static str = "Summarize the procedure that the conversation records. List each action with its result, in order.";

/// What a language model is asked about images.
pub const IMAGE_PROMPT: &'static str = "Describe the image in plain sentences.";

/// A message as a line of a prompt.
pub open spec fn spoken_line(m: MessageModel) -> Seq<char> {
    m.role.label() + ": "@ + m.content
}

/// A conversation as the text of a prompt.
pub open spec fn transcript(conversation: Seq<MessageModel>) -> Seq<char> {
    "Conversation:\n"@ + text::joined(
        conversation.map_values(|m: MessageModel| spoken_line(m)),
        "\n"@,
    )
}

/// An instruction, and the conversation that it is about.
pub open spec fn prompt(
    instruction: Seq<char>,
    conversation: Seq<MessageModel>,
) -> Seq<MessageModel> {
    seq![plain(Role::System, instruction), plain(Role::User, transcript(conversation))]
}

/// The facts in an answer: its lines, trimmed, without the empty ones.
pub open spec fn facts_in(answer: Seq<char>) -> Seq<Seq<char>> {
    text::nonempty(
        text::lines(answer).map_values(|line: Seq<char>| text::trimmed(line, CharClass::Space)),
    )
}

fn transcribe(conversation: &[Message]) -> (r: String)
    ensures
        r@ == transcript(message_models(conversation@)),
{
    let ghost models = message_models(conversation@);
    let ghost spoken = models.map_values(|m: MessageModel| spoken_line(m));
    let mut lines: Vec<String> = Vec::new();
    let mut i: usize = 0;
    while i < conversation.len()
        invariant
            i <= conversation.len(),
            models == message_models(conversation@),
            spoken == models.map_values(|m: MessageModel| spoken_line(m)),
            text::texts(lines@) == spoken.take(i as int),
        decreases conversation.len() - i,
    {
        let ghost before = text::texts(lines@);
        let line = text::concat3(
            conversation[i].role.as_label(),
            ": ",
            conversation[i].content.as_str(),
        );
        proof {
            assert(line@ == spoken[i as int]);
        }
        lines.push(line);
        proof {
            assert(text::texts(lines@) =~= before.push(spoken[i as int]));
            assert(spoken.take(i + 1) =~= before.push(spoken[i as int]));
        }
        i = i + 1;
    }
    proof {
        assert(spoken.take(i as int) =~= spoken);
    }
    text::concat("Conversation:\n", text::join(&lines, "\n").as_str())
}

fn ask<P: LlmProvider>(provider: &P, instruction: &str, conversation: &[Message]) -> (r: Result<
    Completion,
    LlmError,
>)
    ensures
        provider.may_answer(prompt(instruction@, message_models(conversation@)), answer_in(r)),
{
    let said = transcribe(conversation);
    let mut messages: Vec<Message> = Vec::new();
    messages.push(Message::new(Role::System, instruction));
    messages.push(Message::new(Role::User, said.as_str()));
    proof {
        assert(message_models(messages@) =~= prompt(
            instruction@,
            message_models(conversation@),
        ));
    }
    provider.complete(messages.as_slice())
}

/// Has a language model extract the facts of a conversation.
pub fn extract_facts<P: LlmProvider>(provider: &P, conversation: &[Message]) -> (r: Result<
    Vec<String>,
    LlmError,
>)
    ensures
        exists|outcome: Result<Seq<char>, LlmError>|
            {
                &&& #[trigger] provider.may_answer(
                    prompt(EXTRACTION_PROMPT@, message_models(conversation@)),
                    outcome,
                )
                &&& match outcome {
                    Ok(answer) => r matches Ok(facts) && text::texts(facts@) == facts_in(answer),
                    Err(err) => r == Err::<Vec<String>, LlmError>(err),
                }
            },
{
    match ask(provider, EXTRACTION_PROMPT, conversation) {
        Ok(completion) => Ok(parse_facts(completion.content.as_str())),
        Err(err) => Err(err),
    }
}

/// Reads the facts out of an answer.
pub fn parse_facts(answer: &str) -> (r: Vec<String>)
    ensures
        text::texts(r@) == facts_in(answer@),
{
    trim_all(text::split_lines(answer))
}

/// Whether a text is a fact: it is not empty, it has no white space around it,
/// and it is one line.
pub open spec fn is_fact(fact: Seq<char>) -> bool {
    &&& fact.len() > 0
    &&& text::trimmed(fact, CharClass::Space) == fact
    &&& text::lacks(fact, CharClass::Only('\n'))
}

proof fn lemma_nonempty(pieces: Seq<Seq<char>>)
    ensures
        forall|i: int|
            0 <= i < text::nonempty(pieces).len() ==> (#[trigger] text::nonempty(pieces)[i]).len()
                > 0 && pieces.contains(text::nonempty(pieces)[i]),
        (forall|i: int| 0 <= i < pieces.len() ==> (#[trigger] pieces[i]).len() > 0)
            ==> text::nonempty(pieces) == pieces,
    decreases pieces.len(),
{
    reveal(Seq::filter);
    let kept = text::nonempty(pieces);
    if pieces.len() > 0 {
        let rest = pieces.drop_last();
        lemma_nonempty(rest);
        assert(pieces[pieces.len() - 1] == pieces.last());
        assert forall|i: int| 0 <= i < kept.len() implies (#[trigger] kept[i]).len() > 0
            && pieces.contains(kept[i]) by {
            if i < text::nonempty(rest).len() {
                assert(kept[i] == text::nonempty(rest)[i]);
                let k = choose|k: int| 0 <= k < rest.len() && rest[k] == kept[i];
                assert(pieces[k] == kept[i]);
            }
        }
        if forall|i: int| 0 <= i < pieces.len() ==> (#[trigger] pieces[i]).len() > 0 {
            assert forall|i: int| 0 <= i < rest.len() implies (#[trigger] rest[i]).len() > 0 by {
                assert(rest[i] == pieces[i]);
            }
            assert(rest.push(pieces.last()) =~= pieces);
        }
    }
}

/// What an answer is read as are facts, and facts that are written one to a line
/// are read as they are.
pub proof fn law_facts_read_back(answer: Seq<char>)
    ensures
        forall|i: int| 0 <= i < facts_in(answer).len() ==> is_fact(#[trigger] facts_in(answer)[i]),
        facts_in(text::joined(facts_in(answer), "\n"@)) == facts_in(answer),
{
    let facts = facts_in(answer);
    let feed = CharClass::Only('\n');
    let lines = text::lines(answer);
    text::law_lines_have_no_line_feeds(answer);
    let trimmed = lines.map_values(|line: Seq<char>| text::trimmed(line, CharClass::Space));
    lemma_nonempty(trimmed);
    assert forall|i: int| 0 <= i < facts.len() implies is_fact(#[trigger] facts[i]) by {
        let k = choose|k: int| 0 <= k < trimmed.len() && trimmed[k] == facts[i];
        assert(text::lacks(lines[k], feed));
        text::law_trimmed_once(lines[k], CharClass::Space, feed);
    }
    assert forall|i: int| 0 <= i < facts.len() implies text::is_line(#[trigger] facts[i]) by {
        assert(is_fact(facts[i]));
        text::law_trimmed_once(facts[i], CharClass::Space, feed);
    }
    text::law_lines_of_joined(facts);
    let clean = facts.map_values(|line: Seq<char>| text::trimmed(line, CharClass::Space));
    assert forall|i: int| 0 <= i < facts.len() implies #[trigger] clean[i] == facts[i] by {
        assert(is_fact(facts[i]));
    }
    assert(clean =~= facts);
    assert forall|i: int| 0 <= i < facts.len() implies (#[trigger] facts[i]).len() > 0 by {
        assert(is_fact(facts[i]));
    }
    lemma_nonempty(facts);
}

/// Trims some texts and drops those that are then empty.
fn trim_all(lines: Vec<String>) -> (r: Vec<String>)
    ensures
        text::texts(r@) == text::nonempty(
            text::texts(lines@).map_values(
                |line: Seq<char>| text::trimmed(line, CharClass::Space),
            ),
        ),
{
    let ghost wanted = text::texts(lines@).map_values(
        |line: Seq<char>| text::trimmed(line, CharClass::Space),
    );
    let mut trimmed: Vec<String> = Vec::new();
    let mut i: usize = 0;
    while i < lines.len()
        invariant
            i <= lines.len(),
            wanted == text::texts(lines@).map_values(
                |line: Seq<char>| text::trimmed(line, CharClass::Space),
            ),
            text::texts(trimmed@) == wanted.take(i as int),
        decreases lines.len() - i,
    {
        let ghost before = text::texts(trimmed@);
        trimmed.push(text::trim(lines[i].as_str(), CharClass::Space));
        proof {
            assert(text::texts(trimmed@) =~= before.push(wanted[i as int]));
            assert(wanted.take(i + 1) =~= before.push(wanted[i as int]));
        }
        i = i + 1;
    }
    proof {
        assert(wanted.take(i as int) =~= wanted);
    }
    text::keep_nonempty(trimmed)
}

/// Has a language model sum up what an agent did.
pub fn summarize_procedure<P: LlmProvider>(provider: &P, conversation: &[Message]) -> (r: Result<
    String,
    LlmError,
>)
    ensures
        provider.may_answer(
            prompt(PROCEDURE_PROMPT@, message_models(conversation@)),
            said_in(r),
        ),
{
    match ask(provider, PROCEDURE_PROMPT, conversation) {
        Ok(completion) => Ok(completion.content),
        Err(err) => Err(err),
    }
}

/// The outcome of a question as a value.
pub open spec fn said_in(r: Result<String, LlmError>) -> Result<Seq<char>, LlmError> {
    match r {
        Ok(answer) => Ok(answer@),
        Err(err) => Err(err),
    }
}

/// The question about some images.
pub open spec fn image_question(images: Seq<Seq<char>>) -> Seq<MessageModel> {
    seq![MessageModel { role: Role::User, content: IMAGE_PROMPT@, images }]
}

/// Has a language model say what some images show.
pub fn describe_image<P: LlmProvider>(provider: &P, images: Vec<String>) -> (r: Result<
    String,
    LlmError,
>)
    ensures
        provider.may_answer(image_question(text::texts(images@)), said_in(r)),
{
    let ghost wanted = image_question(text::texts(images@));
    let mut messages: Vec<Message> = Vec::new();
    messages.push(Message::with_images(Role::User, IMAGE_PROMPT, images));
    proof {
        assert(message_models(messages@) =~= wanted);
    }
    match provider.complete(messages.as_slice()) {
        Ok(completion) => Ok(completion.content),
        Err(err) => Err(err),
    }
}

/// What some lines say after the first colon and space in each; lines without
/// one are left out.
pub open spec fn said_on(lines: Seq<Seq<char>>) -> Seq<Seq<char>>
    decreases lines.len(),
{
    if lines.len() == 0 {
        Seq::empty()
    } else {
        match text::after_first(lines.last(), ": "@) {
            Some(said) => said_on(lines.drop_last()).push(said),
            None => said_on(lines.drop_last()),
        }
    }
}

/// What is said in a transcript, without the names of those who say it; the
/// text itself where it names no one.
pub open spec fn said_overall(conversation: Seq<char>) -> Seq<char> {
    let said = said_on(text::lines(conversation));
    if said.len() == 0 {
        conversation
    } else {
        text::joined(said, " "@)
    }
}

/// The sentences of a text, trimmed, without the empty ones.
pub open spec fn sentences_in(s: Seq<char>) -> Seq<Seq<char>> {
    text::nonempty(
        text::split_on(s, CharClass::SentenceEnd).map_values(
            |sentence: Seq<char>| text::trimmed(sentence, CharClass::Space),
        ),
    )
}

/// What the local provider makes of a text: its sentences, one on each line,
/// each with a full stop.
pub open spec fn one_sentence_per_line(conversation: Seq<char>) -> Seq<char> {
    text::joined(
        sentences_in(said_overall(conversation)).map_values(|s: Seq<char>| s.push('.')),
        "\n"@,
    )
}

/// Whether a text is one sentence: it ends in a full stop, has no other end of a
/// sentence, and says something, without white space around it.
pub open spec fn is_sentence(s: Seq<char>) -> bool {
    &&& s.len() > 1
    &&& s.last() == '.'
    &&& text::lacks(s.drop_last(), CharClass::SentenceEnd)
    &&& text::trimmed(s, CharClass::Space) == s
    &&& text::trimmed(s.drop_last(), CharClass::Space) == s.drop_last()
}

proof fn lemma_said_has_no_line_feeds(lines: Seq<Seq<char>>)
    requires
        forall|i: int| 0 <= i < lines.len() ==> text::lacks(#[trigger] lines[i], CharClass::Only('\n')),
    ensures
        forall|i: int|
            0 <= i < said_on(lines).len() ==> text::lacks(
                #[trigger] said_on(lines)[i],
                CharClass::Only('\n'),
            ),
        (exists|i: int| 0 <= i < lines.len() && text::occurs(#[trigger] lines[i], ": "@))
            ==> said_on(lines).len() > 0,
    decreases lines.len(),
{
    let feed = CharClass::Only('\n');
    if lines.len() > 0 {
        let rest = lines.drop_last();
        assert forall|i: int| 0 <= i < rest.len() implies text::lacks(#[trigger] rest[i], feed) by {
            assert(rest[i] == lines[i]);
        }
        lemma_said_has_no_line_feeds(rest);
        let before = said_on(rest);
        let all = said_on(lines);
        assert(text::lacks(lines[lines.len() - 1], feed));
        if text::after_first(lines.last(), ": "@) is Some {
            text::lemma_after_first_lacks(lines.last(), ": "@, feed);
        }
        assert forall|i: int| 0 <= i < all.len() implies text::lacks(#[trigger] all[i], feed) by {
            if i < before.len() {
                assert(all[i] == before[i]);
            }
        }
        if exists|i: int| 0 <= i < lines.len() && text::occurs(#[trigger] lines[i], ": "@) {
            let i = choose|i: int| 0 <= i < lines.len() && text::occurs(#[trigger] lines[i], ": "@);
            if i < rest.len() {
                assert(text::occurs(rest[i], ": "@));
            }
        }
    }
}

/// The local provider refuses an empty conversation alone, and looks at nothing
/// but the content of the last message. Where a line of that names who speaks,
/// each line of the answer is one sentence.
pub proof fn law_local_answers(
    messages: Seq<MessageModel>,
    outcome: Result<Seq<char>, LlmError>,
    i: int,
)
    requires
        LocalSentenceLlmProvider.may_answer(messages, outcome),
    ensures
        outcome is Err <==> messages.len() == 0,
        outcome matches Err(err) ==> err == LlmError::EmptyMessages,
        messages.len() > 0 ==> LocalSentenceLlmProvider.may_answer(
            seq![messages.last()],
            outcome,
        ),
        messages.len() > 0 && 0 <= i < text::lines(outcome->Ok_0).len() && (exists|k: int|
            0 <= k < text::lines(messages.last().content).len() && text::occurs(
                #[trigger] text::lines(messages.last().content)[k],
                ": "@,
            )) ==> is_sentence(text::lines(outcome->Ok_0)[i]),
{
    if messages.len() > 0 && exists|k: int|
        0 <= k < text::lines(messages.last().content).len() && text::occurs(
            #[trigger] text::lines(messages.last().content)[k],
            ": "@,
        ) {
        let content = messages.last().content;
        let feed = CharClass::Only('\n');
        let end = CharClass::SentenceEnd;
        let said = said_on(text::lines(content));
        text::law_lines_have_no_line_feeds(content);
        lemma_said_has_no_line_feeds(text::lines(content));
        reveal_strlit(" ");
        text::lemma_joined_lacks(said, " "@, feed);
        let overall = said_overall(content);
        let pieces = text::split_on(overall, end);
        text::law_pieces_lack_the_class(overall, end);
        text::lemma_pieces_lack(overall, end, feed);
        let trimmed = pieces.map_values(
            |sentence: Seq<char>| text::trimmed(sentence, CharClass::Space),
        );
        lemma_nonempty(trimmed);
        let sentences = sentences_in(overall);
        let stopped = sentences.map_values(|s: Seq<char>| s.push('.'));
        assert forall|j: int| 0 <= j < stopped.len() implies is_sentence(#[trigger] stopped[j])
            && text::is_line(stopped[j]) by {
            let bare = sentences[j];
            let k = choose|k: int| 0 <= k < trimmed.len() && trimmed[k] == bare;
            assert(text::lacks(pieces[k], end));
            assert(text::lacks(pieces[k], feed));
            text::law_trimmed_once(pieces[k], CharClass::Space, end);
            text::law_trimmed_once(pieces[k], CharClass::Space, feed);
            let full = stopped[j];
            assert(full == bare.push('.'));
            assert(full.drop_last() =~= bare);
            assert(full[0] == bare[0]);
            assert(text::trimmed_start(full, CharClass::Space) == full);
            assert forall|x: int| 0 <= x < full.len() implies !feed.holds(#[trigger] full[x]) by {
                if x < bare.len() {
                    assert(full[x] == bare[x]);
                }
            }
        }
        text::law_lines_of_joined(stopped);
    }
}

/// A stand-in for a language model that hands back the sentences of the last
/// message.
pub struct LocalSentenceLlmProvider;

impl LocalSentenceLlmProvider {
    pub fn new() -> (r: Self)
        ensures
            r == LocalSentenceLlmProvider,
    {
        LocalSentenceLlmProvider
    }
}

impl Default for LocalSentenceLlmProvider {
    fn default() -> (r: Self)
        ensures
            r == LocalSentenceLlmProvider,
    {
        Self::new()
    }
}

fn split_sentences(conversation: &str) -> (r: Vec<String>)
    ensures
        text::texts(r@) == sentences_in(said_overall(conversation@)),
{
    let lines = text::split_lines(conversation);
    let mut said: Vec<String> = Vec::new();
    let mut i: usize = 0;
    let ghost all = text::texts(lines@);
    proof {
        assert(text::texts(said@) =~= said_on(all.take(0)));
    }
    while i < lines.len()
        invariant
            i <= lines.len(),
            all == text::texts(lines@),
            text::texts(said@) == said_on(all.take(i as int)),
        decreases lines.len() - i,
    {
        let ghost before = text::texts(said@);
        proof {
            assert(all.take(i + 1).drop_last() =~= all.take(i as int));
            assert(all.take(i + 1).last() == lines@[i as int]@);
        }
        match text::after(lines[i].as_str(), ": ") {
            Some(part) => {
                said.push(part);
                proof {
                    assert(text::texts(said@) =~= before.push(part@));
                }
            },
            None => {},
        }
        i = i + 1;
    }
    proof {
        assert(all.take(i as int) =~= all);
    }
    let combined = if said.len() == 0 {
        conversation.to_owned()
    } else {
        text::join(&said, " ")
    };
    trim_all(text::split(combined.as_str(), CharClass::SentenceEnd))
}

impl LlmProvider for LocalSentenceLlmProvider {
    /// An empty conversation is refused; any other is answered with the
    /// sentences of its last message.
    open spec fn may_answer(
        &self,
        messages: Seq<MessageModel>,
        outcome: Result<Seq<char>, LlmError>,
    ) -> bool {
        if messages.len() == 0 {
            outcome == Err::<Seq<char>, LlmError>(LlmError::EmptyMessages)
        } else {
            outcome == Ok::<Seq<char>, LlmError>(one_sentence_per_line(messages.last().content))
        }
    }

    fn complete(&self, messages: &[Message]) -> (r: Result<Completion, LlmError>) {
        if messages.len() == 0 {
            return Err(LlmError::EmptyMessages);
        }
        let last = &messages[messages.len() - 1];
        let sentences = split_sentences(last.content.as_str());
        let ghost all = text::texts(sentences@);
        let ghost stopped = all.map_values(|s: Seq<char>| s.push('.'));
        let mut lines: Vec<String> = Vec::new();
        let mut i: usize = 0;
        while i < sentences.len()
            invariant
                i <= sentences.len(),
                all == text::texts(sentences@),
                stopped == all.map_values(|s: Seq<char>| s.push('.')),
                text::texts(lines@) == stopped.take(i as int),
            decreases sentences.len() - i,
        {
            let ghost before = text::texts(lines@);
            let mut line = sentences[i].clone();
            line.push('.');
            lines.push(line);
            proof {
                assert(text::texts(lines@) =~= before.push(stopped[i as int]));
                assert(stopped.take(i + 1) =~= before.push(stopped[i as int]));
            }
            i = i + 1;
        }
        proof {
            assert(stopped.take(i as int) =~= stopped);
            assert(message_models(messages@).last() == last@);
        }
        Ok(Completion { content: text::join(&lines, "\n") })
    }
}

/// The conversation that the contract checks of a provider use.
pub open spec fn greeting() -> Seq<MessageModel> {
    seq![plain(Role::User, "hello"@)]
}

fn greet<P: LlmProvider + ?Sized>(provider: &P) -> (r: Result<Completion, LlmError>)
    ensures
        provider.may_answer(greeting(), answer_in(r)),
{
    let mut messages: Vec<Message> = Vec::new();
    messages.push(Message::new(Role::User, "hello"));
    proof {
        assert(message_models(messages@) =~= greeting());
    }
    provider.complete(messages.as_slice())
}

/// Checks that hold of every language model of its kind.
pub trait LlmContractTests: LlmProvider {
    /// Whether a greeting is answered with some text.
    fn contract_happy_path(&self) -> (r: bool)
        ensures
            exists|outcome: Result<Seq<char>, LlmError>|
                #[trigger] self.may_answer(greeting(), outcome) && r == (outcome matches Ok(answer)
                    && answer.len() > 0),
    {
        match greet(self) {
            Ok(completion) => !completion.content.as_str().is_empty(),
            Err(_) => false,
        }
    }

    /// Whether an empty conversation is refused.
    fn contract_rejects_empty_messages(&self) -> (r: bool)
        ensures
            exists|outcome: Result<Seq<char>, LlmError>|
                #[trigger] self.may_answer(Seq::empty(), outcome) && r == (outcome == Err::<
                    Seq<char>,
                    LlmError,
                >(LlmError::EmptyMessages)),
    {
        let messages: Vec<Message> = Vec::new();
        let outcome = self.complete(messages.as_slice());
        proof {
            assert(message_models(messages@) =~= Seq::empty());
            assert(self.may_answer(Seq::empty(), answer_in(outcome)));
        }
        match outcome {
            Err(LlmError::EmptyMessages) => true,
            _ => false,
        }
    }

    /// Whether a greeting fails in the backend.
    fn contract_rejects_backend_error(&self) -> (r: bool)
        ensures
            exists|outcome: Result<Seq<char>, LlmError>|
                #[trigger] self.may_answer(greeting(), outcome) && r == (outcome matches Err(
                    LlmError::Backend(_),
                )),
    {
        match greet(self) {
            Err(LlmError::Backend(_)) => true,
            _ => false,
        }
    }
}

impl<T: LlmProvider + ?Sized> LlmContractTests for T {

}

} // verus!

//! What language models are asked, and what is made of their answers.

use super::{LlmConfig, LlmError, LlmProvider, LocalSentenceLlmProvider, MessageModel, Role};
use crate::llm;
use crate::text;
use crate::text::CharClass;
use vstd::prelude::*;

verus! {

/// The names of the roles, for backends and for prompts.
pub proof fn law_roles()
    ensures
        Role::System.keyword() == "system"@,
        Role::User.keyword() == "user"@,
        Role::Assistant.keyword() == "assistant"@,
        Role::System.label() == "System"@,
        Role::User.label() == "User"@,
        Role::Assistant.label() == "Assistant"@,
{
}

/// What is asked of a conversation: first comes the instruction, from the system,
/// then the conversation, from the user. The conversation has one line for each
/// message, in order, with who said it before what was said.
pub proof fn law_prompt(
    instruction: Seq<char>,
    conversation: Seq<MessageModel>,
    last: MessageModel,
)
    ensures
        llm::prompt(instruction, conversation).len() == 2,
        llm::prompt(instruction, conversation)[0].role is System,
        llm::prompt(instruction, conversation)[0].content == instruction,
        llm::prompt(instruction, conversation)[0].images.len() == 0,
        llm::prompt(instruction, conversation)[1].role is User,
        llm::prompt(instruction, conversation)[1].images.len() == 0,
        llm::prompt(instruction, Seq::empty())[1].content == "Conversation:\n"@,
        llm::prompt(instruction, seq![last])[1].content == "Conversation:\n"@ + last.role.label()
            + ": "@ + last.content,
        conversation.len() > 0 ==> llm::prompt(instruction, conversation.push(last))[1].content
            == llm::prompt(instruction, conversation)[1].content + "\n"@ + last.role.label() + ": "@
            + last.content,
{
    let line = |m: MessageModel| llm::spoken_line(m);
    let said = conversation.map_values(line);
    let more = conversation.push(last);
    let none = Seq::<MessageModel>::empty();
    let one = seq![last];
    assert(none.map_values(line) =~= Seq::empty());
    assert(text::joined(Seq::empty(), "\n"@) =~= Seq::empty());
    assert("Conversation:\n"@ + Seq::<char>::empty() =~= "Conversation:\n"@);
    assert(one.map_values(line) =~= seq![llm::spoken_line(last)]);
    assert("Conversation:\n"@ + (last.role.label() + ": "@ + last.content) =~= "Conversation:\n"@
        + last.role.label() + ": "@ + last.content);
    if conversation.len() > 0 {
        assert(more.map_values(line) =~= said.push(llm::spoken_line(last)));
        assert(more.map_values(line).drop_last() =~= said);
        assert(llm::transcript(more) =~= llm::transcript(conversation) + "\n"@
            + last.role.label() + ": "@ + last.content);
    }
}

/// The question about images carries the images, from the user.
pub proof fn law_image_question(images: Seq<Seq<char>>)
    ensures
        llm::image_question(images).len() == 1,
        llm::image_question(images)[0].role is User,
        llm::image_question(images)[0].images == images,
        llm::image_question(images)[0].content == "Describe the image in plain sentences."@,
{
}

proof fn lemma_nonempty_parts(a: Seq<Seq<char>>, b: Seq<Seq<char>>)
    ensures
        text::nonempty(a + b) == text::nonempty(a) + text::nonempty(b),
{
    Seq::filter_distributes_over_add(a, b, |p: Seq<char>| p.len() > 0);
}

proof fn lemma_nonempty_one(one: Seq<char>)
    ensures
        text::nonempty(seq![one]) == if one.len() > 0 {
            seq![one]
        } else {
            Seq::empty()
        },
{
    let keep = |p: Seq<char>| p.len() > 0;
    reveal(Seq::filter);
    assert(seq![one].drop_last() =~= Seq::empty());
    assert(Seq::<Seq<char>>::empty().filter(keep) =~= Seq::empty());
    assert(text::nonempty(seq![one]) =~= if one.len() > 0 {
        seq![one]
    } else {
        Seq::empty()
    });
}

/// The facts of an answer are its lines without white space around them; a line
/// that has nothing else is none. What follows a line feed gives the facts that it
/// has alone.
pub proof fn law_facts(line: Seq<char>, rest: Seq<char>)
    requires
        text::lacks(line, CharClass::Only('\n')),
        line.len() > 0 ==> line.last() != '\r',
    ensures
        ({
            let fact = text::trimmed(line, CharClass::Space);
            &&& fact.len() > 0 ==> llm::facts_in(line.push('\n') + rest) == seq![fact]
                + llm::facts_in(rest)
            &&& fact.len() == 0 ==> llm::facts_in(line.push('\n') + rest) == llm::facts_in(rest)
            &&& fact.len() > 0 ==> llm::facts_in(line) == seq![fact]
        }),
        llm::facts_in(Seq::empty()) == Seq::<Seq<char>>::empty(),
{
    let trim = |l: Seq<char>| text::trimmed(l, CharClass::Space);
    let fact = text::trimmed(line, CharClass::Space);
    let none = Seq::<Seq<char>>::empty();
    text::laws::law_lines(line, rest);
    let others = text::lines(rest);
    assert((seq![line] + others).map_values(trim) =~= seq![fact] + others.map_values(trim));
    lemma_nonempty_parts(seq![fact], others.map_values(trim));
    lemma_nonempty_one(fact);
    assert(none + llm::facts_in(rest) =~= llm::facts_in(rest));
    if fact.len() > 0 {
        text::laws::law_trimmed_is_the_middle(line, CharClass::Space);
        if line.len() == 0 {
            assert(fact.len() == 0) by {
                assert(text::trimmed(line, CharClass::Space).len() <= line.len());
            }
        }
        assert(seq![line].map_values(trim) =~= seq![fact]);
    }
    assert(none.map_values(trim) =~= none);
    reveal(Seq::filter);
    assert(text::nonempty(none) =~= none);
}

/// What is said on some lines: what stands after the first colon and space of
/// each, in order; a line without them says nothing.
pub proof fn law_said(lines: Seq<Seq<char>>, line: Seq<char>)
    ensures
        llm::said_on(Seq::empty()) == Seq::<Seq<char>>::empty(),
        text::after_first(line, ": "@) is Some ==> llm::said_on(lines.push(line)) == llm::said_on(
            lines,
        ).push(text::after_first(line, ": "@)->0),
        text::after_first(line, ": "@) is None ==> llm::said_on(lines.push(line)) == llm::said_on(
            lines,
        ),
{
    assert(lines.push(line).drop_last() =~= lines);
}

/// What is said in a conversation: what its lines say, with a space between; a
/// text in which no line says anything is all said.
pub proof fn law_said_overall(conversation: Seq<char>)
    ensures
        llm::said_on(text::lines(conversation)).len() == 0 ==> llm::said_overall(conversation)
            == conversation,
        llm::said_on(text::lines(conversation)).len() > 0 ==> llm::said_overall(conversation)
            == text::joined(llm::said_on(text::lines(conversation)), " "@),
{
}

/// The sentences of a text end at its marks, and stand without white space around
/// them; one that has nothing else is none. What follows a mark gives the sentences
/// that it has alone.
pub proof fn law_sentences(a: Seq<char>, mark: char, b: Seq<char>)
    requires
        mark == '.' || mark == '!' || mark == '?',
        forall|i: int|
            0 <= i < a.len() ==> #[trigger] a[i] != '.' && a[i] != '!' && a[i] != '?',
    ensures
        ({
            let sentence = text::trimmed(a, CharClass::Space);
            &&& sentence.len() > 0 ==> llm::sentences_in(a.push(mark) + b) == seq![sentence]
                + llm::sentences_in(b)
            &&& sentence.len() == 0 ==> llm::sentences_in(a.push(mark) + b) == llm::sentences_in(b)
            &&& sentence.len() > 0 ==> llm::sentences_in(a) == seq![sentence]
            &&& sentence.len() == 0 ==> llm::sentences_in(a) == Seq::<Seq<char>>::empty()
        }),
{
    let class = CharClass::SentenceEnd;
    let trim = |s: Seq<char>| text::trimmed(s, CharClass::Space);
    let sentence = text::trimmed(a, CharClass::Space);
    let none = Seq::<Seq<char>>::empty();
    assert(text::lacks(a, class));
    text::laws::law_split(a, mark, b, class);
    let others = text::split_on(b, class);
    assert((seq![a] + others).map_values(trim) =~= seq![sentence] + others.map_values(trim));
    assert(seq![a].map_values(trim) =~= seq![sentence]);
    lemma_nonempty_parts(seq![sentence], others.map_values(trim));
    lemma_nonempty_one(sentence);
    assert(none + llm::sentences_in(b) =~= llm::sentences_in(b));
}

/// The local provider answers with the sentences of what the last message says,
/// each with a full stop, on lines of their own; it refuses an empty conversation.
pub proof fn law_local_answers(
    provider: LocalSentenceLlmProvider,
    messages: Seq<MessageModel>,
    outcome: Result<Seq<char>, LlmError>,
    first: Seq<Seq<char>>,
    sentence: Seq<char>,
)
    requires
        provider.may_answer(messages, outcome),
    ensures
        messages.len() == 0 ==> outcome == Err::<Seq<char>, LlmError>(LlmError::EmptyMessages),
        messages.len() > 0 ==> {
            let sentences = llm::sentences_in(llm::said_overall(messages.last().content));
            &&& outcome is Ok
            &&& sentences.len() == 0 ==> outcome->Ok_0.len() == 0
            &&& sentences == seq![sentence] ==> outcome->Ok_0 == sentence.push('.')
            &&& first.len() > 0 && sentences == first.push(sentence) ==> outcome->Ok_0
                == text::joined(first.map_values(|s: Seq<char>| s.push('.')), "\n"@) + "\n"@
                + sentence.push('.')
        },
{
    let stop = |s: Seq<char>| s.push('.');
    let all = first.push(sentence).map_values(stop);
    assert(all.drop_last() =~= first.map_values(stop));
    assert(all.last() == sentence.push('.'));
    assert(seq![sentence].map_values(stop) =~= seq![sentence.push('.')]);
}

/// A configuration is refused where the model has no name but white space, and
/// where the temperature is below zero, above two, or no number.
pub proof fn law_config(config: LlmConfig)
    ensures
        text::trimmed(config.model@, CharClass::Space).len() == 0 ==> config.problem() == Some(
            "model must not be empty"@,
        ),
        text::trimmed(config.model@, CharClass::Space).len() > 0 ==> {
            &&& config.temperature is None ==> config.problem() is None
            &&& config.temperature is Some && 0 <= config.temperature->0.key
                <= 0x4000_0000_0000_0000 ==> config.problem() is None
            &&& config.temperature is Some && !(0 <= config.temperature->0.key
                <= 0x4000_0000_0000_0000) ==> config.problem() == Some(
                "temperature must be between 0.0 and 2.0, got "@ + config.temperature->0.text@,
            )
        },
{
}

/// What the errors of a language model say.
pub proof fn law_errors(reason: String)
    ensures
        LlmError::EmptyMessages.shown() == "no messages provided"@,
        LlmError::Backend(reason).shown() == "backend error: "@ + reason@,
        LlmError::Timeout.shown() == "backend timed out before responding"@,
        LlmError::Malformed(reason).shown() == "malformed backend response: "@ + reason@,
        LlmError::AuthFailure.shown() == "backend rejected credentials"@,
{
}

} // verus!

//! The names and the quotations in a text.

pub mod laws;

use crate::text;
use crate::text::CharClass;
use vstd::prelude::*;

verus! {

/// What marks an entity in a text.
#[derive(Debug, Clone, Copy, PartialEq, Eq, Structural)]
pub enum EntityType {
    /// Two or more capitalized words in a row.
    Proper,
    /// Double quotes.
    Quoted,
}

impl EntityType {
    /// The type in the form that payloads use.
    pub open spec fn keyword(self) -> Seq<char> {
        match self {
            EntityType::Proper => "proper"@,
            EntityType::Quoted => "quoted"@,
        }
    }

    /// The type in the form that payloads use.
    pub fn as_str(self) -> (r: &'static str)
        ensures
            r@ == self.keyword(),
    {
        match self {
            EntityType::Proper => "proper",
            EntityType::Quoted => "quoted",
        }
    }
}

/// Whether a word starts with an uppercase letter and goes on in letters.
pub open spec fn capitalized(word: Seq<char>) -> bool {
    &&& word.len() > 0
    &&& text::uppercase(word[0])
    &&& forall|i: int| 1 <= i < word.len() ==> text::alphabetic(#[trigger] word[i])
}

/// A token without the marks around it.
pub open spec fn bare(token: Seq<char>) -> Seq<char> {
    text::trimmed(token, CharClass::NotAlphanumeric)
}

/// Whether a token ends a sentence.
pub open spec fn ends_sentence(token: Seq<char>) -> bool {
    token.len() > 0 && CharClass::SentenceEnd.holds(token.last())
}

/// Some spans, and one more if a run has two words at least.
pub open spec fn with_run(spans: Seq<Seq<char>>, run: Seq<Seq<char>>) -> Seq<Seq<char>> {
    if run.len() > 1 {
        spans.push(text::joined(run, " "@))
    } else {
        spans
    }
}

/// The spans that end among some tokens, and the run of capitalized words that
/// the tokens end in. A run ends before a token that is no capitalized word, and
/// after one that ends a sentence.
pub open spec fn scanned(tokens: Seq<Seq<char>>) -> (Seq<Seq<char>>, Seq<Seq<char>>)
    decreases tokens.len(),
{
    if tokens.len() == 0 {
        (Seq::empty(), Seq::empty())
    } else {
        let (spans, run) = scanned(tokens.drop_last());
        let token = tokens.last();
        if !capitalized(bare(token)) {
            (with_run(spans, run), Seq::empty())
        } else if ends_sentence(token) {
            (with_run(spans, run.push(bare(token))), Seq::empty())
        } else {
            (spans, run.push(bare(token)))
        }
    }
}

/// The runs of two or more capitalized words within a sentence.
pub open spec fn proper_spans(s: Seq<char>) -> Seq<Seq<char>> {
    let (spans, run) = scanned(text::runs(s, CharClass::Space));
    with_run(spans, run)
}

/// The first quotations of a text that is cut at its quotes: every second piece
/// is one, trimmed, if it has more than two characters.
pub open spec fn quotations(pieces: Seq<Seq<char>>, n: nat) -> Seq<Seq<char>>
    decreases n,
{
    if n == 0 {
        Seq::empty()
    } else {
        let before = quotations(pieces, (n - 1) as nat);
        let quoted = text::trimmed(pieces[2 * n - 1], CharClass::Space);
        if quoted.len() > 2 {
            before.push(quoted)
        } else {
            before
        }
    }
}

/// What stands between each opening quote and the quote that closes it.
pub open spec fn quoted_spans(s: Seq<char>) -> Seq<Seq<char>> {
    let pieces = text::split_on(s, CharClass::Only('"'));
    quotations(pieces, ((pieces.len() - 1) / 2) as nat)
}

/// Some texts as entities of a type.
pub open spec fn tagged(kind: EntityType, spans: Seq<Seq<char>>) -> Seq<(EntityType, Seq<char>)> {
    spans.map_values(|span: Seq<char>| (kind, span))
}

/// The entities of a text: first the names, then the quotations.
pub open spec fn entities_in(s: Seq<char>) -> Seq<(EntityType, Seq<char>)> {
    tagged(EntityType::Proper, proper_spans(s)) + tagged(EntityType::Quoted, quoted_spans(s))
}

/// Some entities as values.
pub open spec fn entity_models(v: Seq<(EntityType, String)>) -> Seq<(EntityType, Seq<char>)> {
    v.map_values(|e: (EntityType, String)| (e.0, e.1@))
}

/// Whether a word starts with an uppercase letter and goes on in letters.
pub fn is_capitalized_word(word: &str) -> (r: bool)
    ensures
        r == capitalized(word@),
{
    let cs = text::chars_of(word);
    if cs.len() == 0 || !cs[0].is_uppercase() {
        return false;
    }
    let mut i: usize = 1;
    while i < cs.len()
        invariant
            1 <= i <= cs.len(),
            cs@ == word@,
            forall|j: int| 1 <= j < i ==> text::alphabetic(#[trigger] word@[j]),
        decreases cs.len() - i,
    {
        if !cs[i].is_alphabetic() {
            return false;
        }
        i = i + 1;
    }
    true
}

fn close_run(spans: &mut Vec<String>, run: &Vec<String>)
    ensures
        text::texts(final(spans)@) == with_run(text::texts(old(spans)@), text::texts(run@)),
{
    if run.len() > 1 {
        let ghost before = text::texts(spans@);
        let span = text::join(run, " ");
        spans.push(span);
        proof {
            assert(text::texts(spans@) =~= before.push(span@));
        }
    }
}

/// The runs of two or more capitalized words within a sentence.
pub fn extract_proper_spans(s: &str) -> (r: Vec<String>)
    ensures
        text::texts(r@) == proper_spans(s@),
{
    let tokens = text::split_runs(s, CharClass::Space);
    let ghost all = text::texts(tokens@);
    let mut spans: Vec<String> = Vec::new();
    let mut run: Vec<String> = Vec::new();
    let mut i: usize = 0;
    proof {
        assert(text::texts(spans@) =~= Seq::empty());
        assert(text::texts(run@) =~= Seq::empty());
    }
    while i < tokens.len()
        invariant
            i <= tokens.len(),
            all == text::texts(tokens@),
            (text::texts(spans@), text::texts(run@)) == scanned(all.take(i as int)),
        decreases tokens.len() - i,
    {
        proof {
            assert(all.take(i + 1).drop_last() =~= all.take(i as int));
            assert(all.take(i + 1).last() == tokens@[i as int]@);
        }
        let token = text::chars_of(tokens[i].as_str());
        let ends = token.len() > 0 && CharClass::SentenceEnd.has(token[token.len() - 1]);
        let word = text::trim(tokens[i].as_str(), CharClass::NotAlphanumeric);
        if is_capitalized_word(word.as_str()) {
            let ghost before = text::texts(run@);
            run.push(word);
            proof {
                assert(text::texts(run@) =~= before.push(word@));
            }
            if ends {
                close_run(&mut spans, &run);
                run = Vec::new();
                proof {
                    assert(text::texts(run@) =~= Seq::empty());
                }
            }
        } else {
            close_run(&mut spans, &run);
            run = Vec::new();
            proof {
                assert(text::texts(run@) =~= Seq::empty());
            }
        }
        i = i + 1;
    }
    proof {
        assert(all.take(i as int) =~= all);
    }
    close_run(&mut spans, &run);
    spans
}

/// What stands between each opening quote and the quote that closes it.
pub fn extract_quoted_spans(s: &str) -> (r: Vec<String>)
    ensures
        text::texts(r@) == quoted_spans(s@),
{
    let pieces = text::split(s, CharClass::Only('"'));
    let ghost all = text::texts(pieces@);
    let mut spans: Vec<String> = Vec::new();
    let mut n: usize = 0;
    proof {
        assert(text::texts(spans@) =~= quotations(all, 0));
    }
    while n < (pieces.len() - 1) / 2
        invariant
            pieces.len() >= 1,
            n <= (pieces.len() - 1) / 2,
            all == text::texts(pieces@),
            text::texts(spans@) == quotations(all, n as nat),
        decreases pieces.len() - n,
    {
        let ghost before = text::texts(spans@);
        let quoted = text::trim(pieces[2 * n + 1].as_str(), CharClass::Space);
        proof {
            assert(all[2 * (n + 1) - 1] == pieces@[2 * n + 1]@);
        }
        if is_long_enough(quoted.as_str()) {
            spans.push(quoted);
            proof {
                assert(text::texts(spans@) =~= before.push(quoted@));
            }
        }
        n = n + 1;
    }
    spans
}

/// Whether a text has more than two characters.
fn is_long_enough(s: &str) -> (r: bool)
    ensures
        r == (s@.len() > 2),
{
    text::chars_of(s).len() > 2
}

fn push_tagged(entities: &mut Vec<(EntityType, String)>, kind: EntityType, spans: Vec<String>)
    ensures
        entity_models(final(entities)@) == entity_models(old(entities)@) + tagged(
            kind,
            text::texts(spans@),
        ),
{
    let ghost before = entity_models(entities@);
    let ghost all = tagged(kind, text::texts(spans@));
    let mut i: usize = 0;
    proof {
        assert(before + all.take(0) =~= before);
    }
    while i < spans.len()
        invariant
            i <= spans.len(),
            all == tagged(kind, text::texts(spans@)),
            entity_models(entities@) == before + all.take(i as int),
        decreases spans.len() - i,
    {
        let ghost now = entity_models(entities@);
        entities.push((kind, spans[i].clone()));
        proof {
            assert(entity_models(entities@) =~= now.push(all[i as int]));
            assert(before + all.take(i + 1) =~= now.push(all[i as int]));
        }
        i = i + 1;
    }
    proof {
        assert(all.take(i as int) =~= all);
    }
}

/// The entities of a text: first the names, then the quotations.
pub fn extract_entities(s: &str) -> (r: Vec<(EntityType, String)>)
    ensures
        entity_models(r@) == entities_in(s@),
{
    let mut entities: Vec<(EntityType, String)> = Vec::new();
    proof {
        assert(entity_models(entities@) =~= Seq::empty());
    }
    push_tagged(&mut entities, EntityType::Proper, extract_proper_spans(s));
    push_tagged(&mut entities, EntityType::Quoted, extract_quoted_spans(s));
    proof {
        assert(entity_models(entities@) =~= entities_in(s@));
    }
    entities
}

} // verus!

//! What the entities of a text are, by where they stand in it.

use super::EntityType;
use crate::entity;
use crate::text;
use crate::text::CharClass;
use vstd::prelude::*;

verus! {

/// Whether a token is a capitalized word, but for the marks around it.
pub open spec fn is_word(token: Seq<char>) -> bool {
    let word = text::trimmed(token, CharClass::NotAlphanumeric);
    &&& word.len() > 0
    &&& text::uppercase(word[0])
    &&& forall|i: int| 1 <= i < word.len() ==> text::alphabetic(#[trigger] word[i])
}

/// Whether a token is the last of a sentence.
pub open spec fn is_last(token: Seq<char>) -> bool {
    token.len() > 0 && (token.last() == '.' || token.last() == '!' || token.last() == '?')
}

/// Whether some tokens, from one to before another, are capitalized words of one
/// sentence, and no word before them goes with them.
pub open spec fn is_run(tokens: Seq<Seq<char>>, from: int, to: int) -> bool {
    &&& 0 <= from < to <= tokens.len()
    &&& forall|i: int| from <= i < to ==> is_word(#[trigger] tokens[i])
    &&& forall|i: int| from <= i < to - 1 ==> !is_last(#[trigger] tokens[i])
    &&& from == 0 || !is_word(tokens[from - 1]) || is_last(tokens[from - 1])
}

/// Whether no word after a run goes with it.
pub open spec fn is_over(tokens: Seq<Seq<char>>, to: int) -> bool {
    to == tokens.len() || is_last(tokens[to - 1]) || !is_word(tokens[to])
}

/// The words of some tokens, without the marks around them, with blanks between.
pub open spec fn name_of(tokens: Seq<Seq<char>>, from: int, to: int) -> Seq<char> {
    text::joined(
        Seq::new(
            (to - from) as nat,
            |i: int| text::trimmed(tokens[from + i], CharClass::NotAlphanumeric),
        ),
        seq![' '],
    )
}

/// Whether a run is over before the end of the tokens.
spec fn is_closed(tokens: Seq<Seq<char>>, from: int, to: int) -> bool {
    &&& is_run(tokens, from, to)
    &&& is_last(tokens[to - 1]) || to < tokens.len() && !is_word(tokens[to])
}

/// Whether something is the name of a run that is over before the end.
spec fn is_closed_name(tokens: Seq<Seq<char>>, name: Seq<char>) -> bool {
    exists|from: int, to: int| #[trigger]
        is_closed(tokens, from, to) && to - from > 1 && name == name_of(tokens, from, to)
}

proof fn lemma_shorter(tokens: Seq<Seq<char>>, from: int, to: int)
    requires
        tokens.len() > 0,
        to < tokens.len(),
    ensures
        is_run(tokens, from, to) == is_run(tokens.drop_last(), from, to),
        0 <= from <= to ==> name_of(tokens, from, to) == name_of(tokens.drop_last(), from, to),
{
    let rest = tokens.drop_last();
    assert forall|i: int| 0 <= i < rest.len() implies #[trigger] rest[i] == tokens[i] by {}
    if is_run(tokens, from, to) {
        assert(is_run(rest, from, to));
    }
    if is_run(rest, from, to) {
        assert forall|i: int| from <= i < to implies is_word(#[trigger] tokens[i]) by {
            assert(is_word(rest[i]));
        }
        assert forall|i: int| from <= i < to - 1 implies !is_last(#[trigger] tokens[i]) by {
            assert(!is_last(rest[i]));
        }
        assert(is_run(tokens, from, to));
    }
    if 0 <= from <= to {
        let a = Seq::new(
            (to - from) as nat,
            |i: int| text::trimmed(tokens[from + i], CharClass::NotAlphanumeric),
        );
        let b = Seq::new(
            (to - from) as nat,
            |i: int| text::trimmed(rest[from + i], CharClass::NotAlphanumeric),
        );
        assert(a =~= b);
    }
}

/// What the scan of some tokens has found: the names of the runs that are over,
/// and the words of the one that is not.
proof fn lemma_scanned(tokens: Seq<Seq<char>>) -> (start: int)
    ensures
        0 <= start <= tokens.len(),
        start == 0 || !is_word(tokens[start - 1]) || is_last(tokens[start - 1]),
        forall|i: int| start <= i < tokens.len() ==> is_word(#[trigger] tokens[i]) && !is_last(
            tokens[i],
        ),
        entity::scanned(tokens).1 == Seq::new(
            (tokens.len() - start) as nat,
            |i: int| text::trimmed(tokens[start + i], CharClass::NotAlphanumeric),
        ),
        forall|from: int, to: int|
            #![trigger is_closed(tokens, from, to)]
            is_closed(tokens, from, to) && to - from > 1 ==> entity::scanned(tokens).0.contains(
                name_of(tokens, from, to),
            ),
        forall|k: int|
            0 <= k < entity::scanned(tokens).0.len() ==> is_closed_name(
                tokens,
                #[trigger] entity::scanned(tokens).0[k],
            ),
    decreases tokens.len(),
{
    if tokens.len() == 0 {
        assert(entity::scanned(tokens).1 =~= Seq::new(
            0,
            |i: int| text::trimmed(tokens[i], CharClass::NotAlphanumeric),
        ));
        0
    } else {
        let rest = tokens.drop_last();
        let n = tokens.len() as int;
        let token = tokens.last();
        let open = lemma_scanned(rest);
        let (spans, run) = entity::scanned(rest);
        let word = text::trimmed(token, CharClass::NotAlphanumeric);
        assert(tokens[n - 1] == token);
        assert forall|i: int| 0 <= i < n - 1 implies #[trigger] rest[i] == tokens[i] by {}
        assert(entity::capitalized(entity::bare(token)) == is_word(token));
        assert(entity::ends_sentence(token) == is_last(token));
        reveal_strlit(" ");
        assert(" "@ =~= seq![' ']);
        let (all, left) = entity::scanned(tokens);
        let end = if is_word(token) { n } else { n - 1 };
        let whole = if is_word(token) { run.push(word) } else { run };
        let named = Seq::new(
            (end - open) as nat,
            |i: int| text::trimmed(tokens[open + i], CharClass::NotAlphanumeric),
        );
        assert(whole =~= named);
        let closes = !is_word(token) || is_last(token);
        assert(all == if closes && whole.len() > 1 {
            spans.push(name_of(tokens, open, end))
        } else {
            spans
        });
        if closes && whole.len() > 1 {
            assert forall|i: int| open <= i < end implies is_word(#[trigger] tokens[i]) by {
                if i < n - 1 {
                    assert(is_word(rest[i]));
                }
            }
            assert forall|i: int| open <= i < end - 1 implies !is_last(#[trigger] tokens[i]) by {
                assert(!is_last(rest[i]));
            }
            if !is_word(token) {
                assert(!is_last(rest[n - 2]));
            }
            assert(is_run(tokens, open, end));
            assert(is_closed(tokens, open, end));
            assert(all[spans.len() as int] == name_of(tokens, open, end));
        }
        assert forall|from: int, to: int|
            #![trigger is_closed(tokens, from, to)]
            is_closed(tokens, from, to) && to - from > 1 implies all.contains(
            name_of(tokens, from, to),
        ) by {
            if to < n {
                lemma_shorter(tokens, from, to);
            }
            if to < n && is_closed(rest, from, to) {
                assert(spans.contains(name_of(rest, from, to)));
                let k = choose|k: int| 0 <= k < spans.len() && spans[k] == name_of(rest, from, to);
                assert(all[k] == spans[k]);
            } else {
                assert(to == end);
                assert(from == open) by {
                    if from < open {
                        assert(is_word(tokens[open - 1]));
                        if open - 1 < to - 1 {
                            assert(!is_last(tokens[open - 1]));
                        }
                        assert(rest[open - 1] == tokens[open - 1]);
                    }
                    if open < from {
                        assert(is_word(rest[from - 1]) && !is_last(rest[from - 1]));
                    }
                }
            }
        }
        assert forall|k: int| 0 <= k < all.len() implies is_closed_name(tokens, #[trigger] all[k]) by {
            if k < spans.len() {
                assert(is_closed_name(rest, spans[k]));
                let (from, to) = choose|from: int, to: int|
                    #![trigger is_closed(rest, from, to)]
                    is_closed(rest, from, to) && to - from > 1 && spans[k] == name_of(
                        rest,
                        from,
                        to,
                    );
                lemma_shorter(tokens, from, to);
                assert(is_closed(tokens, from, to));
            } else {
                assert(is_closed(tokens, open, end));
            }
        }
        let start = if closes { n } else { open };
        assert(left =~= Seq::new(
            (n - start) as nat,
            |i: int| text::trimmed(tokens[start + i], CharClass::NotAlphanumeric),
        ));
        assert forall|i: int| start <= i < n implies is_word(#[trigger] tokens[i]) && !is_last(
            tokens[i],
        ) by {
            if i < n - 1 {
                assert(is_word(rest[i]));
            }
        }
        if start > 0 && start < n {
            assert(rest[start - 1] == tokens[start - 1]);
        }
        start
    }
}

/// The names in a text are its runs of two or more capitalized words, however
/// long: each run within a sentence that no word beside it goes with is a name, as
/// its words without the marks around them and with blanks between; and each name
/// is such a run.
pub proof fn law_names_are_runs(s: Seq<char>, from: int, to: int, k: int)
    ensures
        ({
            let tokens = text::runs(s, CharClass::Space);
            &&& is_run(tokens, from, to) && is_over(tokens, to) && to - from >= 2
                ==> entity::proper_spans(s).contains(name_of(tokens, from, to))
            &&& 0 <= k < entity::proper_spans(s).len() ==> exists|a: int, b: int|
                #![trigger is_run(tokens, a, b)]
                is_run(tokens, a, b) && is_over(tokens, b) && b - a >= 2 && entity::proper_spans(
                    s,
                )[k] == name_of(tokens, a, b)
        }),
{
    let tokens = text::runs(s, CharClass::Space);
    let n = tokens.len() as int;
    let open = lemma_scanned(tokens);
    let (spans, run) = entity::scanned(tokens);
    let all = entity::proper_spans(s);
    reveal_strlit(" ");
    assert(" "@ =~= seq![' ']);
    assert(all == if n - open > 1 {
        spans.push(name_of(tokens, open, n))
    } else {
        spans
    });
    if n - open > 1 {
        assert(is_run(tokens, open, n));
        assert(all[spans.len() as int] == name_of(tokens, open, n));
    }
    if is_run(tokens, from, to) && is_over(tokens, to) && to - from >= 2 {
        if is_closed(tokens, from, to) {
            assert(spans.contains(name_of(tokens, from, to)));
            let i = choose|i: int| 0 <= i < spans.len() && spans[i] == name_of(tokens, from, to);
            assert(all[i] == spans[i]);
        } else {
            assert(to == n);
            assert(from == open) by {
                if from < open {
                    assert(is_word(tokens[open - 1]));
                    if open - 1 < to - 1 {
                        assert(!is_last(tokens[open - 1]));
                    }
                }
                if open < from {
                    assert(is_word(tokens[from - 1]) && !is_last(tokens[from - 1]));
                }
            }
        }
    }
    if 0 <= k < all.len() && k < spans.len() {
        assert(is_closed_name(tokens, spans[k]));
        let (a, b) = choose|a: int, b: int|
            #![trigger is_closed(tokens, a, b)]
            is_closed(tokens, a, b) && b - a > 1 && spans[k] == name_of(tokens, a, b);
        assert(is_run(tokens, a, b));
    }
}

/// What stands between the quote with a number and the next, counted in pairs,
/// without white space around it.
pub open spec fn between_quotes(s: Seq<char>, m: int) -> Seq<char> {
    text::trimmed(text::split_on(s, CharClass::Only('"'))[2 * m + 1], CharClass::Space)
}

/// How many quotes a text has.
pub open spec fn quotes_in(s: Seq<char>) -> int {
    text::split_on(s, CharClass::Only('"')).len() - 1
}

proof fn lemma_quotations(s: Seq<char>, n: nat)
    ensures
        ({
            let found = entity::quotations(text::split_on(s, CharClass::Only('"')), n);
            &&& forall|m: int|
                0 <= m < n && (#[trigger] between_quotes(s, m)).len() > 2 ==> found.contains(
                    between_quotes(s, m),
                )
            &&& forall|q: Seq<char>| #[trigger]
                found.contains(q) ==> q.len() > 2 && exists|m: int|
                    0 <= m < n && q == #[trigger] between_quotes(s, m)
        }),
    decreases n,
{
    let pieces = text::split_on(s, CharClass::Only('"'));
    if n > 0 {
        let fewer = (n - 1) as nat;
        lemma_quotations(s, fewer);
        let before = entity::quotations(pieces, fewer);
        let all = entity::quotations(pieces, n);
        let last = text::trimmed(pieces[2 * n - 1], CharClass::Space);
        assert(last == between_quotes(s, n - 1));
        assert forall|m: int| 0 <= m < n && (
        #[trigger] between_quotes(s, m)).len() > 2 implies all.contains(between_quotes(s, m)) by {
            if m < fewer {
                let q = between_quotes(s, m);
                assert(before.contains(q));
                let k = choose|k: int| 0 <= k < before.len() && before[k] == q;
                assert(all[k] == q);
            } else {
                assert(all[before.len() as int] == last);
            }
        }
        assert forall|q: Seq<char>| #[trigger] all.contains(q) implies q.len() > 2 && exists|m: int|
            0 <= m < n && q == #[trigger] between_quotes(s, m) by {
            let k = choose|k: int| 0 <= k < all.len() && all[k] == q;
            if k < before.len() {
                assert(before[k] == q);
                assert(before.contains(q));
                let m = choose|m: int| 0 <= m < fewer && q == #[trigger] between_quotes(s, m);
                assert(0 <= m < n);
            } else {
                assert(q == between_quotes(s, n - 1));
            }
        }
    }
}

/// The quotations in a text are what stands between an opening quote and the next
/// one, without white space around it, if that is three characters or more. A
/// quote that nothing closes opens nothing.
pub proof fn law_quotations_stand_between_quotes(s: Seq<char>, m: int, q: Seq<char>)
    ensures
        0 <= m && 2 * m + 2 <= quotes_in(s) && between_quotes(s, m).len() >= 3
            ==> entity::quoted_spans(s).contains(between_quotes(s, m)),
        entity::quoted_spans(s).contains(q) ==> q.len() >= 3 && exists|i: int|
            0 <= i && 2 * i + 2 <= quotes_in(s) && q == #[trigger] between_quotes(s, i),
{
    let pieces = text::split_on(s, CharClass::Only('"'));
    text::law_pieces_lack_the_class(s, CharClass::Only('"'));
    let n = ((pieces.len() - 1) / 2) as nat;
    lemma_quotations(s, n);
    if 0 <= m && 2 * m + 2 <= quotes_in(s) {
        assert(m < n);
    }
    if entity::quoted_spans(s).contains(q) {
        let i = choose|i: int| 0 <= i < n && q == #[trigger] between_quotes(s, i);
        assert(2 * i + 2 <= quotes_in(s));
    }
}

/// A text without quotes has no quotations, and a quotation between two texts
/// without quotes is found.
pub proof fn law_a_quotation_is_found(a: Seq<char>, quoted: Seq<char>, b: Seq<char>)
    requires
        text::lacks(a, CharClass::Only('"')),
        text::lacks(b, CharClass::Only('"')),
        text::lacks(quoted, CharClass::Only('"')),
        text::trimmed(quoted, CharClass::Space) == quoted,
        quoted.len() >= 3,
    ensures
        entity::quoted_spans(a) == Seq::<Seq<char>>::empty(),
        entity::quoted_spans(a.push('"') + (quoted.push('"') + b)) == seq![quoted],
{
    let class = CharClass::Only('"');
    text::laws::law_split(a, '"', quoted.push('"') + b, class);
    text::laws::law_split(quoted, '"', b, class);
    text::laws::law_split(b, '"', b, class);
    let pieces = text::split_on(a.push('"') + (quoted.push('"') + b), class);
    assert(pieces =~= seq![a, quoted, b]);
    assert(entity::quotations(pieces, 0) =~= Seq::empty());
    assert(pieces[2 * 1 - 1] == quoted);
    assert(entity::quotations(pieces, 1) =~= seq![quoted]);
}

/// The entities of a text are its names, marked as such, and its quotations,
/// marked as such; each mark has its own word.
pub proof fn law_entities(s: Seq<char>, name: Seq<char>)
    ensures
        entity::entities_in(s).contains((EntityType::Proper, name))
            <==> entity::proper_spans(s).contains(name),
        entity::entities_in(s).contains((EntityType::Quoted, name))
            <==> entity::quoted_spans(s).contains(name),
        entity::entities_in(s).len() == entity::proper_spans(s).len() + entity::quoted_spans(
            s,
        ).len(),
        EntityType::Proper.keyword() == "proper"@,
        EntityType::Quoted.keyword() == "quoted"@,
{
    let names = entity::proper_spans(s);
    let quoted = entity::quoted_spans(s);
    let all = entity::entities_in(s);
    assert forall|i: int| 0 <= i < names.len() implies all[i] == (EntityType::Proper, #[trigger] names[i]) by {}
    assert forall|i: int| 0 <= i < quoted.len() implies all[names.len() + i] == (
        EntityType::Quoted,
        #[trigger] quoted[i],
    ) by {}
    if names.contains(name) {
        let i = choose|i: int| 0 <= i < names.len() && names[i] == name;
        assert(all[i] == (EntityType::Proper, names[i]));
    }
    if quoted.contains(name) {
        let i = choose|i: int| 0 <= i < quoted.len() && quoted[i] == name;
        assert(all[names.len() + i] == (EntityType::Quoted, quoted[i]));
    }
    if all.contains((EntityType::Proper, name)) {
        let i = choose|i: int| 0 <= i < all.len() && all[i] == (EntityType::Proper, name);
        if i < names.len() {
            assert(all[i] == (EntityType::Proper, names[i]));
        } else {
            assert(all[names.len() + (i - names.len())] == (EntityType::Quoted, quoted[i - names.len()]));
        }
    }
    if all.contains((EntityType::Quoted, name)) {
        let i = choose|i: int| 0 <= i < all.len() && all[i] == (EntityType::Quoted, name);
        if i < names.len() {
            assert(all[i] == (EntityType::Proper, names[i]));
        } else {
            assert(all[names.len() + (i - names.len())] == (EntityType::Quoted, quoted[i - names.len()]));
        }
    }
}

} // verus!

//! What the operations on texts are for, in relations between texts.

use super::CharClass;
use crate::text;
use vstd::prelude::*;

verus! {

/// The characters that end a sentence are the full stop, the exclamation mark and
/// the question mark; white space holds the blank, the tab and the line ends; a
/// class of one character holds that one.
pub proof fn law_classes(c: char, d: char)
    ensures
        CharClass::SentenceEnd.holds(c) <==> c == '.' || c == '!' || c == '?',
        CharClass::Only(d).holds(c) <==> c == d,
        CharClass::NotAlphanumeric.holds(c) <==> !text::alphanumeric(c),
        c == ' ' || c == '\t' || c == '\n' || c == '\r' || c == '\u{a0}' || c == '\u{3000}'
            ==> CharClass::Space.holds(c),
        '!' <= c <= '~' ==> !CharClass::Space.holds(c),
{
}

proof fn lemma_start(s: Seq<char>, class: CharClass) -> (k: int)
    ensures
        0 <= k <= s.len(),
        text::trimmed_start(s, class) == s.skip(k),
        forall|i: int| 0 <= i < k ==> class.holds(#[trigger] s[i]),
    decreases s.len(),
{
    if s.len() > 0 && class.holds(s[0]) {
        let k = lemma_start(s.skip(1), class) + 1;
        assert(s.skip(1).skip(k - 1) =~= s.skip(k));
        assert forall|i: int| 0 <= i < k implies class.holds(#[trigger] s[i]) by {
            if i > 0 {
                assert(s.skip(1)[i - 1] == s[i]);
            }
        }
        k
    } else {
        assert(s.skip(0) =~= s);
        0
    }
}

proof fn lemma_end(s: Seq<char>, class: CharClass) -> (k: int)
    ensures
        0 <= k <= s.len(),
        text::trimmed_end(s, class) == s.take(k),
        forall|i: int| k <= i < s.len() ==> class.holds(#[trigger] s[i]),
    decreases s.len(),
{
    if s.len() > 0 && class.holds(s.last()) {
        let k = lemma_end(s.drop_last(), class);
        assert(s.drop_last().take(k) =~= s.take(k));
        assert forall|i: int| k <= i < s.len() implies class.holds(#[trigger] s[i]) by {
            if i < s.len() - 1 {
                assert(s.drop_last()[i] == s[i]);
            }
        }
        k
    } else {
        assert(s.take(s.len() as int) =~= s);
        s.len() as int
    }
}

/// What is taken off the ends of a text is of the class, and nothing of the class
/// is left at its ends.
pub proof fn law_trimmed_is_the_middle(s: Seq<char>, class: CharClass)
    ensures
        exists|before: Seq<char>, after: Seq<char>|
            {
                &&& s == #[trigger] (before + text::trimmed(s, class) + after)
                &&& forall|i: int| 0 <= i < before.len() ==> class.holds(#[trigger] before[i])
                &&& forall|i: int| 0 <= i < after.len() ==> class.holds(#[trigger] after[i])
            },
        text::trimmed(s, class).len() > 0 ==> !class.holds(text::trimmed(s, class)[0])
            && !class.holds(text::trimmed(s, class).last()),
{
    let k = lemma_start(s, class);
    let start = s.skip(k);
    let n = lemma_end(start, class);
    let before = s.take(k);
    let after = start.skip(n);
    assert(s =~= before + text::trimmed(s, class) + after);
    assert forall|i: int| 0 <= i < after.len() implies class.holds(#[trigger] after[i]) by {
        assert(after[i] == start[n + i]);
    }
    text::law_trimmed_once(s, class, class);
}

/// Only the end of a text is trimmed where that is asked for.
pub proof fn law_trimmed_end_is_the_start(s: Seq<char>, class: CharClass)
    ensures
        exists|after: Seq<char>|
            {
                &&& s == #[trigger] (text::trimmed_end(s, class) + after)
                &&& forall|i: int| 0 <= i < after.len() ==> class.holds(#[trigger] after[i])
            },
        text::trimmed_end(s, class).len() > 0 ==> !class.holds(text::trimmed_end(s, class).last()),
    decreases s.len(),
{
    let n = lemma_end(s, class);
    assert(s =~= text::trimmed_end(s, class) + s.skip(n));
    assert forall|i: int| 0 <= i < s.skip(n).len() implies class.holds(#[trigger] s.skip(n)[i]) by {
        assert(s.skip(n)[i] == s[n + i]);
    }
    super::lemma_trimmed_end(s, class, class);
}

/// Splitting a text at a character of the class splits what is before it and what
/// is after it; a text without such characters is one piece.
pub proof fn law_split(a: Seq<char>, c: char, b: Seq<char>, class: CharClass)
    requires
        class.holds(c),
    ensures
        text::split_on(a.push(c) + b, class) == text::split_on(a, class) + text::split_on(b, class),
        text::lacks(a, class) ==> text::split_on(a, class) == seq![a],
    decreases b.len(),
{
    let s = a.push(c);
    let none = Seq::<char>::empty();
    if text::lacks(a, class) {
        super::lemma_split_longer(none, a, class);
        assert(none + a =~= a);
        assert(text::split_on(none, class) =~= seq![none]);
        assert(text::split_on(a, class) =~= seq![a]);
    }
    let first = text::split_on(a, class);
    if b.len() == 0 {
        assert(s + b =~= s);
        assert(s.drop_last() =~= a);
        assert(b =~= none);
        assert(text::split_on(b, class) =~= seq![none]);
        assert(first + seq![none] =~= first.push(none));
    } else {
        let rest = b.drop_last();
        law_split(a, c, rest, class);
        assert((s + b).drop_last() =~= s + rest);
        assert((s + b).last() == b.last());
        let pieces = text::split_on(rest, class);
        super::lemma_split_len(rest, class);
        if class.holds(b.last()) {
            assert((first + pieces).push(none) =~= first + pieces.push(none));
        } else {
            let joint = first + pieces;
            assert(joint.last() == pieces.last());
            assert(joint.drop_last() =~= first + pieces.drop_last());
            assert(joint.drop_last().push(joint.last().push(b.last())) =~= first
                + pieces.drop_last().push(pieces.last().push(b.last())));
        }
    }
}

/// The runs of a text: those before a character of the class, then those after
/// it; a text without such characters is one run, and an empty text is none.
pub proof fn law_runs(a: Seq<char>, c: char, b: Seq<char>, class: CharClass)
    requires
        class.holds(c),
    ensures
        text::runs(a.push(c) + b, class) == text::runs(a, class) + text::runs(b, class),
        text::lacks(a, class) && a.len() > 0 ==> text::runs(a, class) == seq![a],
        text::runs(Seq::empty(), class) == Seq::<Seq<char>>::empty(),
{
    law_split(a, c, b, class);
    let keep = |p: Seq<char>| p.len() > 0;
    let none = Seq::<char>::empty();
    Seq::filter_distributes_over_add(text::split_on(a, class), text::split_on(b, class), keep);
    reveal(Seq::filter);
    let one = seq![a];
    assert(one.drop_last() =~= Seq::empty());
    assert(one.drop_last().filter(keep) =~= Seq::empty());
    if text::lacks(a, class) && a.len() > 0 {
        assert(one.filter(keep) =~= one);
    }
    let empty = seq![none];
    assert(text::split_on(none, class) =~= empty);
    assert(empty.drop_last() =~= Seq::empty());
    assert(empty.filter(keep) =~= Seq::empty());
}

/// Joining puts the separator between the pieces: what is joined of two lists is
/// what is joined of each, with the separator between. One piece is joined to
/// itself, and none to an empty text.
pub proof fn law_joined(a: Seq<Seq<char>>, b: Seq<Seq<char>>, separator: Seq<char>, one: Seq<char>)
    ensures
        a.len() > 0 && b.len() > 0 ==> text::joined(a + b, separator) == text::joined(a, separator)
            + separator + text::joined(b, separator),
        text::joined(seq![one], separator) == one,
        text::joined(Seq::empty(), separator) == Seq::<char>::empty(),
    decreases b.len(),
{
    if a.len() > 0 && b.len() > 0 {
        let all = a + b;
        assert(all.last() == b.last());
        if b.len() == 1 {
            assert(all.drop_last() =~= a);
            assert(b[0] == b.last());
        } else {
            let rest = b.drop_last();
            law_joined(a, rest, separator, one);
            assert(all.drop_last() =~= a + rest);
            assert(text::joined(all, separator) =~= text::joined(a, separator) + separator
                + text::joined(b, separator));
        }
    }
}

/// The lines of a text: the first ends at the first line feed, which is taken off
/// together with one carriage return before it, and the others follow. What has no
/// line feed is one line unless it is empty.
pub proof fn law_lines(a: Seq<char>, b: Seq<char>)
    requires
        text::lacks(a, CharClass::Only('\n')),
    ensures
        a.len() == 0 || a.last() != '\r' ==> text::lines(a.push('\n') + b) == seq![a]
            + text::lines(b),
        text::lines(a.push('\r').push('\n') + b) == seq![a] + text::lines(b),
        a.len() > 0 ==> text::lines(a) == seq![a],
        text::lines(Seq::empty()) == Seq::<Seq<char>>::empty(),
{
    let feed = CharClass::Only('\n');
    law_split(a, '\n', b, feed);
    let returned = a.push('\r');
    assert(text::lacks(returned, feed));
    law_split(returned, '\n', b, feed);
    super::lemma_split_len(b, feed);
    let rest = text::split_on(b, feed);
    let all = seq![a] + rest;
    let other = seq![returned] + rest;
    assert(all.drop_last() =~= seq![a] + rest.drop_last());
    assert(other.drop_last() =~= seq![returned] + rest.drop_last());
    assert(all.last() == rest.last());
    assert(other.last() == rest.last());
    assert(text::without_return(returned) =~= a);
    if !(a.len() > 0 && a.last() == '\r') {
        assert(text::lines(a.push('\n') + b) =~= seq![a] + text::lines(b));
    }
    assert(text::lines(returned.push('\n') + b) =~= seq![a] + text::lines(b));
    if a.len() > 0 {
        assert(seq![a].drop_last() =~= Seq::empty());
        assert(text::lines(a) =~= seq![a]);
    }
    let none = Seq::<char>::empty();
    assert(text::split_on(none, feed) =~= seq![none]);
    assert(text::lines(none) =~= Seq::empty());
}

/// A pattern occurs in a text exactly where the text is something, the pattern,
/// and something else.
pub proof fn law_occurs(s: Seq<char>, pattern: Seq<char>, a: Seq<char>, b: Seq<char>)
    ensures
        text::occurs(a + pattern + b, pattern),
        text::occurs(s, pattern) ==> exists|x: Seq<char>, y: Seq<char>| s == #[trigger] (x + pattern + y),
{
    let whole = a + pattern + b;
    assert(whole.subrange(a.len() as int, (a.len() + pattern.len()) as int) =~= pattern);
    assert(text::occurs_at(whole, pattern, a.len() as int));
    if text::occurs(s, pattern) {
        let i = choose|i: int| text::occurs_at(s, pattern, i);
        let x = s.take(i);
        let y = s.skip(i + pattern.len());
        assert(s.subrange(i, i + pattern.len()) == pattern);
        assert(s =~= x + pattern + y);
    }
}

/// Whether a text is something, a pattern, and something else, and the pattern
/// occurs neither in the first part nor across its end.
pub open spec fn is_first_cut(
    s: Seq<char>,
    before: Seq<char>,
    pattern: Seq<char>,
    after: Seq<char>,
) -> bool {
    &&& s == before + pattern + after
    &&& pattern.len() > 0 ==> !text::occurs((before + pattern).drop_last(), pattern)
}

/// What follows the first occurrence of a pattern: the text is something, the
/// pattern, and that; and the pattern does not occur in what comes before, nor
/// across. There is nothing to follow exactly where the pattern does not occur.
pub proof fn law_after_first(s: Seq<char>, pattern: Seq<char>)
    ensures
        text::after_first(s, pattern) is Some <==> text::occurs(s, pattern),
        text::occurs(s, pattern) ==> exists|before: Seq<char>| #[trigger]
            is_first_cut(s, before, pattern, text::after_first(s, pattern)->0),
{
    if text::occurs(s, pattern) {
        let at = choose|i: int| text::occurs_at(s, pattern, i);
        super::lemma_occurs_first(s, pattern, at);
        let i = choose|i: int| text::first_at(s, pattern, i);
        let a = s.take(i);
        let rest = s.skip(i + pattern.len());
        assert(s.subrange(i, i + pattern.len()) == pattern);
        assert(s =~= a + pattern + rest);
        let shorter = (a + pattern).drop_last();
        if pattern.len() > 0 && text::occurs(shorter, pattern) {
            let j = choose|j: int| text::occurs_at(shorter, pattern, j);
            assert(shorter.subrange(j, j + pattern.len()) =~= s.subrange(j, j + pattern.len()));
            assert(text::occurs_at(s, pattern, j));
            assert(0 <= j < i);
        }
        assert(text::after_first(s, pattern) == Some(rest));
        assert(is_first_cut(s, a, pattern, rest));
        assert(rest == text::after_first(s, pattern)->0);
        assert(is_first_cut(s, a, pattern, text::after_first(s, pattern)->0));
    }
}

/// Replacing a character replaces it in each part of a text, and leaves a text
/// without it as it is.
pub proof fn law_replaced(a: Seq<char>, b: Seq<char>, c: char, with: Seq<char>)
    ensures
        text::replaced(a.push(c) + b, c, with) == text::replaced(a, c, with) + with
            + text::replaced(b, c, with),
        text::lacks(a, CharClass::Only(c)) ==> text::replaced(a, c, with) == a,
    decreases a.len() + b.len(),
{
    let s = a.push(c) + b;
    if b.len() == 0 {
        assert(s =~= a.push(c));
        assert(s.drop_last() =~= a);
        assert(text::replaced(a, c, with) + with =~= text::replaced(a, c, with) + with
            + text::replaced(b, c, with));
    } else {
        law_replaced(a, b.drop_last(), c, with);
        assert(s.drop_last() =~= a.push(c) + b.drop_last());
        assert(s.last() == b.last());
        assert(text::replaced(s, c, with) =~= text::replaced(a, c, with) + with + text::replaced(
            b,
            c,
            with,
        ));
    }
    if text::lacks(a, CharClass::Only(c)) && a.len() > 0 {
        let rest = a.drop_last();
        assert(text::lacks(rest, CharClass::Only(c))) by {
            assert forall|i: int| 0 <= i < rest.len() implies !CharClass::Only(c).holds(
                #[trigger] rest[i],
            ) by {
                assert(rest[i] == a[i]);
            }
        }
        law_replaced(rest, Seq::empty(), c, with);
        assert(!CharClass::Only(c).holds(a[a.len() - 1]));
        assert(rest.push(a.last()) =~= a);
    }
}

/// One text comes before another exactly where, after what they have in common,
/// it ends first or goes on with the smaller character.
pub proof fn law_precedes(common: Seq<char>, a: Seq<char>, b: Seq<char>)
    requires
        a.len() == 0 || b.len() == 0 || a[0] != b[0],
    ensures
        text::precedes(common + a, common + b) <==> b.len() > 0 && (a.len() == 0 || a[0] < b[0]),
    decreases common.len(),
{
    if common.len() == 0 {
        assert(common + a =~= a);
        assert(common + b =~= b);
    } else {
        law_precedes(common.skip(1), a, b);
        assert((common + a).skip(1) =~= common.skip(1) + a);
        assert((common + b).skip(1) =~= common.skip(1) + b);
    }
}

proof fn lemma_digits_read(n: nat)
    ensures
        text::is_number(text::decimal(n)),
        text::digits_value(text::decimal(n)) == n,
    decreases n,
{
    text::lemma_decimal_digits(n);
    let d = text::decimal(n);
    assert(text::digit(n % 10) as int == '0' as int + n % 10);
    if n < 10 {
        assert(d.drop_last() =~= Seq::empty());
        assert(text::digits_value(d.drop_last()) == 0);
        assert(d.last() == text::digit(n));
    } else {
        lemma_digits_read(n / 10);
        assert(d.drop_last() =~= text::decimal(n / 10));
        assert(d.last() == text::digit(n % 10));
    }
}

/// A size that is written in decimal is read as it is, with a plus sign before it
/// or without; a text with any other character is no size.
pub proof fn law_sizes_read_back(n: usize, s: Seq<char>, i: int)
    ensures
        text::size_in(text::decimal(n as nat)) == Some(n),
        text::size_in(seq!['+'] + text::decimal(n as nat)) == Some(n),
        1 <= i < s.len() && !('0' <= s[i] <= '9') ==> text::size_in(s) is None,
        s.len() > 0 && !('0' <= s[0] <= '9') && s[0] != '+' ==> text::size_in(s) is None,
        s.len() == 0 ==> text::size_in(s) is None,
        s == seq!['+'] ==> text::size_in(s) is None,
{
    lemma_digits_read(n as nat);
    text::lemma_decimal_digits(n as nat);
    let d = text::decimal(n as nat);
    assert(text::unsigned(d) == d) by {
        assert('0' <= d[0] <= '9');
    }
    assert((seq!['+'] + d).skip(1) =~= d);
    if 1 <= i < s.len() && !('0' <= s[i] <= '9') {
        if s[0] == '+' {
            assert(s.skip(1)[i - 1] == s[i]);
        }
    }
}

/// The decimal notation of a number is made of digits, starts with no zero unless
/// it is that of zero, and a longer number ends in its last digit.
pub proof fn law_decimal(n: nat)
    ensures
        text::is_number(text::decimal(n)),
        text::decimal(0) == seq!['0'],
        n > 0 ==> text::decimal(n)[0] != '0',
        n >= 10 ==> text::decimal(n) == text::decimal(n / 10) + text::decimal(n % 10),
    decreases n,
{
    lemma_digits_read(n);
    assert(text::digit(0) == '0');
    assert(text::digit(n % 10) as int == '0' as int + n % 10);
    if n >= 10 {
        law_decimal(n / 10);
        text::lemma_decimal_digits(n / 10);
        assert(text::decimal(n) =~= text::decimal(n / 10) + text::decimal(n % 10));
        assert(text::decimal(n)[0] == text::decimal(n / 10)[0]);
    }
}

/// A padded number is as wide as asked for or wider, and stands for the same
/// number: it is zeros and the number in decimal.
pub proof fn law_padded(n: nat, width: nat)
    ensures
        text::padded(n, width).len() >= width,
        text::padded(n, width).len() == width || text::padded(n, width) == text::decimal(n),
        text::padded(n, width).skip(
            text::padded(n, width).len() - text::decimal(n).len(),
        ) == text::decimal(n),
        forall|i: int|
            0 <= i < text::padded(n, width).len() - text::decimal(n).len() ==> #[trigger] text::padded(
                n,
                width,
            )[i] == '0',
{
    let p = text::padded(n, width);
    let d = text::decimal(n);
    assert(p.skip(p.len() - d.len()) =~= d);
}

/// A negative number is written with a minus sign before its magnitude; any other
/// without a sign.
pub proof fn law_signed_decimal(n: nat)
    ensures
        text::signed_decimal(n as int) == text::decimal(n),
        n > 0 ==> text::signed_decimal(-(n as int)) == seq!['-'] + text::decimal(n),
{
    reveal_strlit("-");
    assert("-"@ =~= seq!['-']);
}

/// Lower case in ASCII: a letter becomes the small one, whatever its case, and
/// nothing else changes.
pub proof fn law_lower_case(s: Seq<char>, i: int)
    requires
        text::all_ascii(s),
        0 <= i < s.len(),
    ensures
        text::lowered(s).len() == s.len(),
        'A' <= s[i] <= 'Z' ==> text::lowered(s)[i] as int == s[i] as int - 'A' as int + 'a' as int,
        !('A' <= s[i] <= 'Z') ==> text::lowered(s)[i] == s[i],
{
}

} // verus!

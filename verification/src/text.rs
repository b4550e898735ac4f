//! Strings as sequences of characters.
//!
//! The specifications below say what the operations of this crate mean on
//! `Seq<char>`; the executable functions work on `str` and `String`.

pub mod laws;

use vstd::prelude::*;

verus! {

broadcast use vstd::string::group_string_axioms;

/// Whether a character has the Unicode `White_Space` property.
pub open spec fn whitespace(c: char) -> bool {
    ||| '\u{9}' <= c <= '\u{d}'
    ||| c == '\u{20}'
    ||| c == '\u{85}'
    ||| c == '\u{a0}'
    ||| c == '\u{1680}'
    ||| '\u{2000}' <= c <= '\u{200a}'
    ||| c == '\u{2028}'
    ||| c == '\u{2029}'
    ||| c == '\u{202f}'
    ||| c == '\u{205f}'
    ||| c == '\u{3000}'
}

/// Whether a character is a capital of the Latin alphabet.
pub open spec fn is_capital(c: char) -> bool {
    'A' <= c <= 'Z'
}

/// Whether a character is a letter of the Latin alphabet without marks.
pub open spec fn is_letter(c: char) -> bool {
    is_capital(c) || 'a' <= c <= 'z'
}

/// Whether a character has the Unicode `Alphabetic` property.
pub uninterp spec fn alphabetic(c: char) -> bool;

/// Whether a character is alphabetic or of a numeric category.
pub uninterp spec fn alphanumeric(c: char) -> bool;

/// Whether a character has the Unicode `Uppercase` property.
pub uninterp spec fn uppercase(c: char) -> bool;

/// The lowercase equivalent of a text.
pub uninterp spec fn lowercase(s: Seq<char>) -> Seq<char>;

/// Whether a text has characters of ASCII only.
pub open spec fn all_ascii(s: Seq<char>) -> bool {
    forall|i: int| 0 <= i < s.len() ==> #[trigger] s[i] <= '\u{7f}'
}

/// A capital as a small letter; any other character as it is.
pub open spec fn small(c: char) -> char {
    if is_capital(c) {
        (c as u32 + 32) as char
    } else {
        c
    }
}

/// A text in lower case: of ASCII, with small letters for its capitals.
pub open spec fn lowered(s: Seq<char>) -> Seq<char> {
    if all_ascii(s) {
        s.map_values(|c: char| small(c))
    } else {
        lowercase(s)
    }
}

/// A text between double quotes, escaped as Rust's debug formatting does.
pub uninterp spec fn debug_form(s: Seq<char>) -> Seq<char>;

/// `char::is_whitespace`: the characters with the property, as Unicode lists
/// them.
pub assume_specification[ char::is_whitespace ](c: char) -> (b: bool)
    ensures
        b == whitespace(c),
;

/// `char::is_alphabetic`: the property has the given name. In ASCII the letters
/// have it.
pub assume_specification[ char::is_alphabetic ](c: char) -> (b: bool)
    ensures
        b == alphabetic(c),
        c <= '\u{7f}' ==> b == is_letter(c),
;

/// `char::is_alphanumeric`: the property has the given name. In ASCII the
/// letters and the digits have it.
pub assume_specification[ char::is_alphanumeric ](c: char) -> (b: bool)
    ensures
        b == alphanumeric(c),
        c <= '\u{7f}' ==> b == (is_letter(c) || '0' <= c <= '9'),
;

/// `char::is_uppercase`: the property has the given name. In ASCII the capitals
/// have it.
pub assume_specification[ char::is_uppercase ](c: char) -> (b: bool)
    ensures
        b == uppercase(c),
        c <= '\u{7f}' ==> b == is_capital(c),
;

/// `String::push`: the character is appended.
pub assume_specification[ std::string::String::push ](s: &mut std::string::String, c: char)
    ensures
        final(s)@ == old(s)@.push(c),
;

/// `str::to_lowercase`: the result has the given name. In ASCII the capitals
/// become small letters, and all else stays as it is.
#[verifier::external_body]
pub(crate) fn to_lowercase(s: &str) -> (r: String)
    ensures
        r@ == lowercase(s@),
        all_ascii(s@) ==> r@ == s@.map_values(|c: char| small(c)),
{
    s.to_lowercase()
}

/// The `Debug` form of `str`: the result has the given name.
#[verifier::external_body]
pub(crate) fn to_debug(s: &str) -> (r: String)
    ensures
        r@ == debug_form(s@),
{
    format!("{s:?}")
}

/// A set of characters to split on or to trim.
#[derive(Clone, Copy)]
pub enum CharClass {
    /// White space.
    Space,
    /// Whatever is neither a letter nor a digit.
    NotAlphanumeric,
    /// A full stop, an exclamation mark or a question mark.
    SentenceEnd,
    /// One single character.
    Only(char),
}

impl CharClass {
    /// Whether the class holds a character.
    pub open spec fn holds(self, c: char) -> bool {
        match self {
            CharClass::Space => whitespace(c),
            CharClass::NotAlphanumeric => !alphanumeric(c),
            CharClass::SentenceEnd => c == '.' || c == '!' || c == '?',
            CharClass::Only(d) => c == d,
        }
    }

    pub fn has(self, c: char) -> (b: bool)
        ensures
            b == self.holds(c),
    {
        match self {
            CharClass::Space => c.is_whitespace(),
            CharClass::NotAlphanumeric => !c.is_alphanumeric(),
            CharClass::SentenceEnd => c == '.' || c == '!' || c == '?',
            CharClass::Only(d) => c == d,
        }
    }
}

/// The views of a sequence of strings.
pub open spec fn texts(v: Seq<String>) -> Seq<Seq<char>> {
    v.map_values(|s: String| s@)
}

/// A text without the characters of a class at its start.
pub open spec fn trimmed_start(s: Seq<char>, class: CharClass) -> Seq<char>
    decreases s.len(),
{
    if s.len() > 0 && class.holds(s[0]) {
        trimmed_start(s.skip(1), class)
    } else {
        s
    }
}

/// A text without the characters of a class at its end.
pub open spec fn trimmed_end(s: Seq<char>, class: CharClass) -> Seq<char>
    decreases s.len(),
{
    if s.len() > 0 && class.holds(s.last()) {
        trimmed_end(s.drop_last(), class)
    } else {
        s
    }
}

/// A text without the characters of a class at either end.
pub open spec fn trimmed(s: Seq<char>, class: CharClass) -> Seq<char> {
    trimmed_end(trimmed_start(s, class), class)
}

/// The pieces between the characters of a class; there is one piece more than
/// there are such characters.
pub open spec fn split_on(s: Seq<char>, class: CharClass) -> Seq<Seq<char>>
    decreases s.len(),
{
    if s.len() == 0 {
        seq![Seq::empty()]
    } else {
        let before = split_on(s.drop_last(), class);
        if class.holds(s.last()) {
            before.push(Seq::empty())
        } else {
            before.drop_last().push(before.last().push(s.last()))
        }
    }
}

/// The pieces that hold at least one character.
pub open spec fn nonempty(pieces: Seq<Seq<char>>) -> Seq<Seq<char>> {
    pieces.filter(|p: Seq<char>| p.len() > 0)
}

/// The maximal runs of characters outside a class.
pub open spec fn runs(s: Seq<char>, class: CharClass) -> Seq<Seq<char>> {
    nonempty(split_on(s, class))
}

/// The pieces with a separator between each two of them.
pub open spec fn joined(pieces: Seq<Seq<char>>, separator: Seq<char>) -> Seq<char>
    decreases pieces.len(),
{
    if pieces.len() == 0 {
        Seq::empty()
    } else if pieces.len() == 1 {
        pieces[0]
    } else {
        joined(pieces.drop_last(), separator) + separator + pieces.last()
    }
}

/// A line without the carriage return that precedes its line feed.
pub open spec fn without_return(line: Seq<char>) -> Seq<char> {
    if line.len() > 0 && line.last() == '\r' {
        line.drop_last()
    } else {
        line
    }
}

/// The lines of a text: each ends at a line feed, which is taken off together
/// with a carriage return before it; what follows the last line feed is a line
/// unless it is empty.
pub open spec fn lines(s: Seq<char>) -> Seq<Seq<char>> {
    let pieces = split_on(s, CharClass::Only('\n'));
    let ended = pieces.drop_last().map_values(|p: Seq<char>| without_return(p));
    if pieces.last().len() == 0 {
        ended
    } else {
        ended.push(pieces.last())
    }
}

/// Whether a pattern stands in a text at a position.
pub open spec fn occurs_at(s: Seq<char>, pattern: Seq<char>, i: int) -> bool {
    0 <= i && i + pattern.len() <= s.len() && s.subrange(i, i + pattern.len()) == pattern
}

/// Whether a pattern stands somewhere in a text.
pub open spec fn occurs(s: Seq<char>, pattern: Seq<char>) -> bool {
    exists|i: int| occurs_at(s, pattern, i)
}

/// The first position of a pattern in a text.
pub open spec fn first_at(s: Seq<char>, pattern: Seq<char>, i: int) -> bool {
    occurs_at(s, pattern, i) && forall|j: int| 0 <= j < i ==> !occurs_at(s, pattern, j)
}

/// What follows the first occurrence of a pattern in a text.
pub open spec fn after_first(s: Seq<char>, pattern: Seq<char>) -> Option<Seq<char>> {
    if occurs(s, pattern) {
        let i = choose|i: int| first_at(s, pattern, i);
        Some(s.skip(i + pattern.len()))
    } else {
        None
    }
}

/// A text with each occurrence of one character replaced by a text.
pub open spec fn replaced(s: Seq<char>, c: char, with: Seq<char>) -> Seq<char>
    decreases s.len(),
{
    if s.len() == 0 {
        Seq::empty()
    } else if s.last() == c {
        replaced(s.drop_last(), c, with) + with
    } else {
        replaced(s.drop_last(), c, with).push(s.last())
    }
}

/// Whether one text comes before another in the order of their characters.
pub open spec fn precedes(a: Seq<char>, b: Seq<char>) -> bool
    decreases a.len(),
{
    if b.len() == 0 {
        false
    } else if a.len() == 0 {
        true
    } else if a[0] == b[0] {
        precedes(a.skip(1), b.skip(1))
    } else {
        a[0] < b[0]
    }
}

/// No text comes before itself, and of two different ones exactly one comes
/// before the other.
pub proof fn lemma_precedes_total(a: Seq<char>, b: Seq<char>)
    ensures
        a == b ==> !precedes(a, b),
        a != b ==> precedes(a, b) != precedes(b, a),
    decreases a.len(),
{
    if a.len() == 0 || b.len() == 0 {
        if a.len() == b.len() {
            assert(a =~= b);
        }
    } else if a[0] == b[0] {
        lemma_precedes_total(a.skip(1), b.skip(1));
        assert(a == b <==> a.skip(1) == b.skip(1)) by {
            assert(a =~= seq![a[0]] + a.skip(1));
            assert(b =~= seq![b[0]] + b.skip(1));
        }
    }
}

/// What comes before a text comes before those that the text comes before.
pub proof fn lemma_precedes_transitive(a: Seq<char>, b: Seq<char>, c: Seq<char>)
    requires
        precedes(a, b),
        precedes(b, c),
    ensures
        precedes(a, c),
    decreases a.len(),
{
    if a.len() > 0 && b.len() > 0 && c.len() > 0 && a[0] == b[0] && b[0] == c[0] {
        lemma_precedes_transitive(a.skip(1), b.skip(1), c.skip(1));
    }
}

/// The decimal digit of a number below ten.
pub open spec fn digit(n: nat) -> char {
    ('0' as int + n) as char
}

/// A number in decimal notation.
pub open spec fn decimal(n: nat) -> Seq<char>
    decreases n,
{
    if n < 10 {
        seq![digit(n)]
    } else {
        decimal(n / 10).push(digit(n % 10))
    }
}

/// Only digits stand in the decimal notation of a number.
pub proof fn lemma_decimal_digits(n: nat)
    ensures
        decimal(n).len() > 0,
        forall|i: int| 0 <= i < decimal(n).len() ==> '0' <= #[trigger] decimal(n)[i] <= '9',
    decreases n,
{
    if n >= 10 {
        lemma_decimal_digits(n / 10);
    }
}

/// Different numbers have different decimal notations.
pub proof fn law_decimals_differ(a: nat, b: nat)
    requires
        decimal(a) == decimal(b),
    ensures
        a == b,
    decreases a,
{
    lemma_decimal_digits(a / 10);
    lemma_decimal_digits(b / 10);
    assert(decimal(a).last() == digit(a % 10));
    assert(decimal(b).last() == digit(b % 10));
    assert(digit(a % 10) as int == '0' as int + a % 10);
    assert(digit(b % 10) as int == '0' as int + b % 10);
    if a < 10 {
        assert(decimal(b).len() == 1);
        assert(b < 10);
    } else {
        assert(b >= 10) by {
            assert(decimal(a).len() > 1);
        }
        assert(decimal(a).drop_last() =~= decimal(a / 10));
        assert(decimal(b).drop_last() =~= decimal(b / 10));
        assert(decimal(a).last() == decimal(b).last());
        law_decimals_differ(a / 10, b / 10);
    }
}

/// The number that some digits stand for.
pub open spec fn digits_value(s: Seq<char>) -> nat
    decreases s.len(),
{
    if s.len() == 0 {
        0
    } else {
        digits_value(s.drop_last()) * 10 + (s.last() as int - '0' as int) as nat
    }
}

/// Whether a text is made of digits, at least one.
pub open spec fn is_number(s: Seq<char>) -> bool {
    s.len() > 0 && forall|i: int| 0 <= i < s.len() ==> '0' <= #[trigger] s[i] <= '9'
}

/// A number without the plus sign before it.
pub open spec fn unsigned(s: Seq<char>) -> Seq<char> {
    if s.len() > 1 && s[0] == '+' {
        s.skip(1)
    } else {
        s
    }
}

/// The size that a text stands for, if it is a number that fits.
pub open spec fn size_in(s: Seq<char>) -> Option<usize> {
    if is_number(unsigned(s)) && digits_value(unsigned(s)) <= usize::MAX {
        Some(digits_value(unsigned(s)) as usize)
    } else {
        None
    }
}

/// A number in decimal notation, with zeros before it up to a width.
pub open spec fn padded(n: nat, width: nat) -> Seq<char> {
    let d = decimal(n);
    if d.len() < width {
        Seq::new((width - d.len()) as nat, |i: int| '0') + d
    } else {
        d
    }
}

/// The characters of a string.
pub fn chars_of(s: &str) -> (v: Vec<char>)
    ensures
        v@ == s@,
{
    let mut v: Vec<char> = Vec::new();
    for c in it: s.chars()
        invariant
            v@ == it.seq().take(it.index()),
            it.seq() == s@,
    {
        v.push(c);
    }
    v
}

/// Whether two strings hold the same characters.
pub fn same(a: &str, b: &str) -> (r: bool)
    ensures
        r == (a@ == b@),
{
    let x = chars_of(a);
    let y = chars_of(b);
    if x.len() != y.len() {
        return false;
    }
    let mut i: usize = 0;
    while i < x.len()
        invariant
            i <= x.len(),
            x.len() == y.len(),
            x@ == a@,
            y@ == b@,
            a@.take(i as int) == b@.take(i as int),
        decreases x.len() - i,
    {
        if x[i] != y[i] {
            proof {
                assert(a@[i as int] != b@[i as int]);
            }
            return false;
        }
        proof {
            assert(a@.take(i + 1) =~= a@.take(i as int).push(a@[i as int]));
            assert(b@.take(i + 1) =~= b@.take(i as int).push(b@[i as int]));
        }
        i = i + 1;
    }
    proof {
        assert(a@.take(i as int) =~= a@);
        assert(b@.take(i as int) =~= b@);
    }
    true
}

/// The first characters of some, as a text.
pub fn take_chars(cs: &Vec<char>, n: usize) -> (r: String)
    requires
        n <= cs@.len(),
    ensures
        r@ == cs@.take(n as int),
{
    let mut r = String::new();
    let mut i: usize = 0;
    proof {
        assert(r@ =~= cs@.take(0));
    }
    while i < n
        invariant
            i <= n <= cs@.len(),
            r@ == cs@.take(i as int),
        decreases n - i,
    {
        r.push(cs[i]);
        proof {
            assert(cs@.take(i + 1) =~= cs@.take(i as int).push(cs@[i as int]));
        }
        i = i + 1;
    }
    r
}

/// Two strings, one after the other.
pub fn concat(a: &str, b: &str) -> (r: String)
    ensures
        r@ == a@ + b@,
{
    let mut r = a.to_owned();
    r.append(b);
    r
}

/// Three strings, one after the other.
pub fn concat3(a: &str, b: &str, c: &str) -> (r: String)
    ensures
        r@ == a@ + b@ + c@,
{
    let mut r = a.to_owned();
    r.append(b);
    r.append(c);
    r
}

/// A copy of a vector of strings.
pub fn copy_texts(v: &Vec<String>) -> (r: Vec<String>)
    ensures
        r@ == v@,
{
    let mut r: Vec<String> = Vec::new();
    let mut i: usize = 0;
    while i < v.len()
        invariant
            i <= v.len(),
            r@ == v@.take(i as int),
        decreases v.len() - i,
    {
        r.push(v[i].clone());
        i = i + 1;
    }
    proof {
        assert(v@.take(i as int) =~= v@);
    }
    r
}

/// Whether a string is among others.
pub fn is_among(s: &str, v: &Vec<String>) -> (r: bool)
    ensures
        r == texts(v@).contains(s@),
{
    let mut i: usize = 0;
    while i < v.len()
        invariant
            i <= v.len(),
            forall|j: int| 0 <= j < i ==> v@[j]@ != s@,
        decreases v.len() - i,
    {
        if same(v[i].as_str(), s) {
            proof {
                assert(texts(v@)[i as int] == s@);
            }
            return true;
        }
        i = i + 1;
    }
    proof {
        assert forall|j: int| 0 <= j < texts(v@).len() implies texts(v@)[j] != s@ by {}
    }
    false
}

proof fn lemma_split_len(s: Seq<char>, class: CharClass)
    ensures
        split_on(s, class).len() >= 1,
    decreases s.len(),
{
    if s.len() > 0 {
        lemma_split_len(s.drop_last(), class);
    }
}

/// Whether no character of a class stands in a text.
pub open spec fn lacks(s: Seq<char>, class: CharClass) -> bool {
    forall|i: int| 0 <= i < s.len() ==> !class.holds(#[trigger] s[i])
}

/// No piece of a text that is split holds a character of the class.
pub proof fn law_pieces_lack_the_class(s: Seq<char>, class: CharClass)
    ensures
        split_on(s, class).len() >= 1,
        forall|i: int| 0 <= i < split_on(s, class).len() ==> lacks(#[trigger] split_on(s, class)[i], class),
    decreases s.len(),
{
    if s.len() > 0 {
        let before = split_on(s.drop_last(), class);
        law_pieces_lack_the_class(s.drop_last(), class);
        let pieces = split_on(s, class);
        assert forall|i: int| 0 <= i < pieces.len() implies lacks(#[trigger] pieces[i], class) by {
            if i < before.len() - 1 {
                assert(pieces[i] == before[i]);
            } else if !class.holds(s.last()) {
                assert(lacks(before.last(), class));
            } else if i < before.len() {
                assert(pieces[i] == before[i]);
            }
        }
    }
}

proof fn lemma_split_longer(s: Seq<char>, t: Seq<char>, class: CharClass)
    requires
        lacks(t, class),
    ensures
        split_on(s, class).len() >= 1,
        split_on(s + t, class) == split_on(s, class).drop_last().push(split_on(s, class).last() + t),
    decreases t.len(),
{
    lemma_split_len(s, class);
    let pieces = split_on(s, class);
    if t.len() == 0 {
        assert(s + t =~= s);
        assert(pieces.last() + t =~= pieces.last());
        assert(pieces.drop_last().push(pieces.last()) =~= pieces);
    } else {
        let shorter = t.drop_last();
        assert(lacks(shorter, class)) by {
            assert forall|i: int| 0 <= i < shorter.len() implies !class.holds(#[trigger] shorter[i]) by {
                assert(shorter[i] == t[i]);
            }
        }
        lemma_split_longer(s, shorter, class);
        assert((s + t).drop_last() =~= s + shorter);
        assert(t[t.len() - 1] == t.last());
        assert((s + t).last() == t.last());
        let before = split_on(s + shorter, class);
        assert(before.last() == pieces.last() + shorter);
        assert(before.last().push(t.last()) =~= pieces.last() + t);
        assert(before.drop_last() =~= pieces.drop_last());
    }
}

proof fn lemma_trimmed_start(s: Seq<char>, class: CharClass, other: CharClass)
    ensures
        trimmed_start(s, class).len() > 0 ==> !class.holds(trimmed_start(s, class)[0]),
        lacks(s, other) ==> lacks(trimmed_start(s, class), other),
    decreases s.len(),
{
    if s.len() > 0 && class.holds(s[0]) {
        lemma_trimmed_start(s.skip(1), class, other);
        if lacks(s, other) {
            assert forall|i: int| 0 <= i < s.skip(1).len() implies !other.holds(
                #[trigger] s.skip(1)[i],
            ) by {
                assert(s.skip(1)[i] == s[i + 1]);
            }
        }
    }
}

proof fn lemma_trimmed_end(s: Seq<char>, class: CharClass, other: CharClass)
    ensures
        trimmed_end(s, class).len() > 0 ==> {
            &&& !class.holds(trimmed_end(s, class).last())
            &&& trimmed_end(s, class)[0] == s[0]
        },
        lacks(s, other) ==> lacks(trimmed_end(s, class), other),
    decreases s.len(),
{
    if s.len() > 0 && class.holds(s.last()) {
        lemma_trimmed_end(s.drop_last(), class, other);
        if lacks(s, other) {
            assert forall|i: int| 0 <= i < s.drop_last().len() implies !other.holds(
                #[trigger] s.drop_last()[i],
            ) by {
                assert(s.drop_last()[i] == s[i]);
            }
        }
    }
}

/// Trimming once is enough: what is trimmed neither starts nor ends with a
/// character of the class, and holds no character that the text lacks.
pub proof fn law_trimmed_once(s: Seq<char>, class: CharClass, other: CharClass)
    ensures
        trimmed(trimmed(s, class), class) == trimmed(s, class),
        trimmed(s, class).len() > 0 ==> {
            &&& !class.holds(trimmed(s, class)[0])
            &&& !class.holds(trimmed(s, class).last())
        },
        lacks(s, other) ==> lacks(trimmed(s, class), other),
{
    let start = trimmed_start(s, class);
    lemma_trimmed_start(s, class, other);
    lemma_trimmed_end(start, class, other);
}

/// No piece of a text that is split holds a character that the text lacks.
pub proof fn lemma_pieces_lack(s: Seq<char>, class: CharClass, other: CharClass)
    requires
        lacks(s, other),
    ensures
        forall|i: int| 0 <= i < split_on(s, class).len() ==> lacks(#[trigger] split_on(s, class)[i], other),
    decreases s.len(),
{
    if s.len() > 0 {
        let rest = s.drop_last();
        let before = split_on(rest, class);
        assert(lacks(rest, other)) by {
            assert forall|i: int| 0 <= i < rest.len() implies !other.holds(#[trigger] rest[i]) by {
                assert(rest[i] == s[i]);
            }
        }
        lemma_pieces_lack(rest, class, other);
        law_pieces_lack_the_class(rest, class);
        let pieces = split_on(s, class);
        assert forall|i: int| 0 <= i < pieces.len() implies lacks(#[trigger] pieces[i], other) by {
            if i < before.len() - 1 {
                assert(pieces[i] == before[i]);
            } else if !class.holds(s.last()) {
                assert(lacks(before.last(), other));
                assert(!other.holds(s[s.len() - 1]));
            } else if i < before.len() {
                assert(pieces[i] == before[i]);
            }
        }
    }
}

/// What is joined of pieces and a separator that lack a character lacks it.
pub proof fn lemma_joined_lacks(pieces: Seq<Seq<char>>, separator: Seq<char>, class: CharClass)
    requires
        forall|i: int| 0 <= i < pieces.len() ==> lacks(#[trigger] pieces[i], class),
        lacks(separator, class),
    ensures
        lacks(joined(pieces, separator), class),
    decreases pieces.len(),
{
    if pieces.len() > 1 {
        let rest = pieces.drop_last();
        assert forall|i: int| 0 <= i < rest.len() implies lacks(#[trigger] rest[i], class) by {
            assert(rest[i] == pieces[i]);
        }
        lemma_joined_lacks(rest, separator, class);
        assert(lacks(pieces[pieces.len() - 1], class));
        let start = joined(rest, separator);
        let all = start + separator + pieces.last();
        assert forall|i: int| 0 <= i < all.len() implies !class.holds(#[trigger] all[i]) by {
            if i < start.len() {
                assert(all[i] == start[i]);
            } else if i < start.len() + separator.len() {
                assert(all[i] == separator[i - start.len()]);
            } else {
                assert(all[i] == pieces.last()[i - start.len() - separator.len()]);
            }
        }
    }
}

/// No line of a text holds a line feed.
pub proof fn law_lines_have_no_line_feeds(s: Seq<char>)
    ensures
        forall|i: int| 0 <= i < lines(s).len() ==> lacks(#[trigger] lines(s)[i], CharClass::Only('\n')),
{
    let feed = CharClass::Only('\n');
    let pieces = split_on(s, feed);
    let all = lines(s);
    law_pieces_lack_the_class(s, feed);
    assert forall|i: int| 0 <= i < all.len() implies lacks(#[trigger] all[i], feed) by {
        assert(lacks(pieces[i], feed));
        if i < pieces.len() - 1 {
            let line = without_return(pieces[i]);
            assert forall|k: int| 0 <= k < line.len() implies !feed.holds(#[trigger] line[k]) by {
                assert(line[k] == pieces[i][k]);
            }
        }
    }
}

/// Whether a text is a line that is read as it is: it is not empty, and neither
/// holds a line feed nor ends in a carriage return.
pub open spec fn is_line(s: Seq<char>) -> bool {
    &&& s.len() > 0
    &&& lacks(s, CharClass::Only('\n'))
    &&& s.last() != '\r'
}

/// Lines that are joined by line feeds are the lines of the text.
pub proof fn law_lines_of_joined(pieces: Seq<Seq<char>>)
    requires
        forall|i: int| 0 <= i < pieces.len() ==> is_line(#[trigger] pieces[i]),
    ensures
        lines(joined(pieces, "\n"@)) == pieces,
{
    let feed = CharClass::Only('\n');
    reveal_strlit("\n");
    assert("\n"@ =~= seq!['\n']);
    let all = joined(pieces, "\n"@);
    if pieces.len() == 0 {
        assert(split_on(all, feed) =~= seq![Seq::<char>::empty()]);
        assert(lines(all) =~= pieces);
    } else {
        assert forall|i: int| 0 <= i < pieces.len() implies lacks(#[trigger] pieces[i], feed) by {
            assert(is_line(pieces[i]));
        }
        law_split_of_joined(pieces, '\n');
        assert(is_line(pieces[pieces.len() - 1]));
        assert forall|i: int| 0 <= i < pieces.len() implies without_return(#[trigger] pieces[i])
            == pieces[i] by {
            assert(is_line(pieces[i]));
        }
        assert(lines(all) =~= pieces);
    }
}

/// A pattern that stands in a text stands somewhere first.
proof fn lemma_occurs_first(s: Seq<char>, pattern: Seq<char>, i: int)
    requires
        occurs_at(s, pattern, i),
    ensures
        exists|k: int| first_at(s, pattern, k),
    decreases i,
{
    if !first_at(s, pattern, i) {
        let j = choose|j: int| 0 <= j < i && occurs_at(s, pattern, j);
        lemma_occurs_first(s, pattern, j);
    }
}

/// What follows a pattern holds no character that the text lacks.
pub proof fn lemma_after_first_lacks(s: Seq<char>, pattern: Seq<char>, class: CharClass)
    requires
        lacks(s, class),
        after_first(s, pattern) is Some,
    ensures
        lacks(after_first(s, pattern)->0, class),
{
    let at = choose|i: int| occurs_at(s, pattern, i);
    lemma_occurs_first(s, pattern, at);
    let i = choose|i: int| first_at(s, pattern, i);
    let rest = s.skip(i + pattern.len());
    assert forall|k: int| 0 <= k < rest.len() implies !class.holds(#[trigger] rest[k]) by {
        assert(rest[k] == s[k + i + pattern.len()]);
    }
}

/// In ASCII, what stands in a text stands there in lower case too.
pub proof fn law_lower_case_keeps_occurrences(s: Seq<char>, pattern: Seq<char>)
    requires
        all_ascii(s),
        all_ascii(pattern),
        occurs(s, pattern),
    ensures
        occurs(lowered(s), lowered(pattern)),
{
    let i = choose|i: int| occurs_at(s, pattern, i);
    let n = pattern.len() as int;
    assert forall|k: int| 0 <= k < n implies lowered(s).subrange(i, i + n)[k] == lowered(pattern)[k] by {
        assert(s.subrange(i, i + n)[k] == pattern[k]);
    }
    assert(lowered(s).subrange(i, i + n) =~= lowered(pattern));
    assert(occurs_at(lowered(s), lowered(pattern), i));
}

/// Splitting what was joined by a character gives the pieces again, if none of
/// them holds it.
pub proof fn law_split_of_joined(pieces: Seq<Seq<char>>, c: char)
    requires
        pieces.len() > 0,
        forall|i: int| 0 <= i < pieces.len() ==> lacks(#[trigger] pieces[i], CharClass::Only(c)),
    ensures
        split_on(joined(pieces, seq![c]), CharClass::Only(c)) == pieces,
    decreases pieces.len(),
{
    let class = CharClass::Only(c);
    if pieces.len() == 1 {
        let none = Seq::<char>::empty();
        lemma_split_longer(none, pieces[0], class);
        assert(none + pieces[0] =~= pieces[0]);
        assert(split_on(pieces[0], class) =~= pieces);
    } else {
        let rest = pieces.drop_last();
        law_split_of_joined(rest, c);
        let start = joined(rest, seq![c]) + seq![c];
        assert(start.drop_last() =~= joined(rest, seq![c]));
        assert(start.last() == c);
        assert(split_on(start, class) =~= rest.push(Seq::empty()));
        assert(lacks(pieces[pieces.len() - 1], class));
        lemma_split_longer(start, pieces.last(), class);
        assert(Seq::<char>::empty() + pieces.last() =~= pieces.last());
        assert(rest.push(Seq::empty()).drop_last() =~= rest);
        assert(rest.push(pieces.last()) =~= pieces);
    }
}

/// Joining what was split at a character gives the text again.
pub proof fn law_joined_of_split(s: Seq<char>, c: char)
    ensures
        joined(split_on(s, CharClass::Only(c)), seq![c]) == s,
    decreases s.len(),
{
    let class = CharClass::Only(c);
    let pieces = split_on(s, class);
    if s.len() == 0 {
        assert(pieces[0] =~= s);
    } else {
        let before = split_on(s.drop_last(), class);
        lemma_split_len(s.drop_last(), class);
        law_joined_of_split(s.drop_last(), c);
        assert(s =~= s.drop_last().push(s.last()));
        if class.holds(s.last()) {
            assert(pieces.drop_last() =~= before);
            assert(joined(pieces, seq![c]) =~= s);
        } else {
            assert(pieces.drop_last() =~= before.drop_last());
            if before.len() == 1 {
                assert(joined(before, seq![c]) == before[0]);
                assert(joined(pieces, seq![c]) =~= s);
            } else {
                assert(joined(pieces, seq![c]) =~= s);
            }
        }
    }
}

/// Splits a text at each character of a class.
pub fn split(s: &str, class: CharClass) -> (r: Vec<String>)
    ensures
        texts(r@) == split_on(s@, class),
        r@.len() >= 1,
{
    let cs = chars_of(s);
    let mut r: Vec<String> = Vec::new();
    let mut piece = String::new();
    let mut i: usize = 0;
    proof {
        assert(texts(r@).push(piece@) =~= split_on(s@.take(0), class));
    }
    while i < cs.len()
        invariant
            i <= cs.len(),
            cs@ == s@,
            texts(r@).push(piece@) == split_on(s@.take(i as int), class),
        decreases cs.len() - i,
    {
        let c = cs[i];
        proof {
            assert(s@.take(i + 1).drop_last() =~= s@.take(i as int));
            lemma_split_len(s@.take(i as int), class);
        }
        let ghost before = split_on(s@.take(i as int), class);
        if class.has(c) {
            r.push(piece);
            piece = String::new();
            proof {
                assert(texts(r@) =~= before);
                assert(texts(r@).push(piece@) =~= split_on(s@.take(i + 1), class));
            }
        } else {
            piece.push(c);
            proof {
                assert(before.drop_last() =~= texts(r@));
                assert(texts(r@).push(piece@) =~= split_on(s@.take(i + 1), class));
            }
        }
        i = i + 1;
    }
    proof {
        assert(s@.take(i as int) =~= s@);
    }
    let ghost done = texts(r@).push(piece@);
    r.push(piece);
    proof {
        assert(texts(r@) =~= done);
    }
    r
}

/// The pieces that hold at least one character.
pub fn keep_nonempty(v: Vec<String>) -> (r: Vec<String>)
    ensures
        texts(r@) == nonempty(texts(v@)),
{
    let mut r: Vec<String> = Vec::new();
    let mut i: usize = 0;
    proof {
        assert(texts(r@) =~= nonempty(texts(v@).take(0))) by {
            reveal(Seq::filter);
        }
    }
    while i < v.len()
        invariant
            i <= v.len(),
            texts(r@) == nonempty(texts(v@).take(i as int)),
        decreases v.len() - i,
    {
        let ghost before = texts(r@);
        proof {
            reveal(Seq::filter);
            assert(texts(v@).take(i + 1).drop_last() =~= texts(v@).take(i as int));
            assert(texts(v@).take(i + 1).last() == v@[i as int]@);
        }
        if !v[i].as_str().is_empty() {
            r.push(v[i].clone());
            proof {
                assert(texts(r@) =~= before.push(v@[i as int]@));
            }
        }
        i = i + 1;
    }
    proof {
        assert(texts(v@).take(i as int) =~= texts(v@));
    }
    r
}

/// The maximal runs of characters outside a class.
pub fn split_runs(s: &str, class: CharClass) -> (r: Vec<String>)
    ensures
        texts(r@) == runs(s@, class),
{
    keep_nonempty(split(s, class))
}

/// Joins some pieces with a separator.
pub fn join(v: &Vec<String>, separator: &str) -> (r: String)
    ensures
        r@ == joined(texts(v@), separator@),
{
    let mut r = String::new();
    let mut i: usize = 0;
    while i < v.len()
        invariant
            i <= v.len(),
            r@ == joined(texts(v@).take(i as int), separator@),
        decreases v.len() - i,
    {
        if i > 0 {
            r.append(separator);
        }
        r.append(v[i].as_str());
        proof {
            assert(texts(v@).take(i + 1).drop_last() =~= texts(v@).take(i as int));
            if i == 0 {
                assert(r@ =~= v@[0]@);
            }
        }
        i = i + 1;
    }
    proof {
        assert(texts(v@).take(i as int) =~= texts(v@));
    }
    r
}

/// Takes the characters of a class off both ends of a text.
pub fn trim(s: &str, class: CharClass) -> (r: String)
    ensures
        r@ == trimmed(s@, class),
{
    let cs = chars_of(s);
    let mut from: usize = 0;
    proof {
        assert(s@.skip(0) =~= s@);
    }
    while from < cs.len() && class.has(cs[from])
        invariant
            from <= cs.len(),
            cs@ == s@,
            trimmed_start(s@, class) == trimmed_start(s@.skip(from as int), class),
        decreases cs.len() - from,
    {
        proof {
            assert(s@.skip(from as int).skip(1) =~= s@.skip(from + 1));
            assert(s@.skip(from as int)[0] == s@[from as int]);
        }
        from = from + 1;
    }
    let ghost rest = s@.skip(from as int);
    proof {
        if from < cs.len() {
            assert(rest[0] == s@[from as int]);
        }
        assert(trimmed_start(s@, class) == rest);
    }
    let mut to: usize = cs.len();
    proof {
        assert(s@.subrange(from as int, to as int) =~= rest);
    }
    while from < to && class.has(cs[to - 1])
        invariant
            from <= to <= cs.len(),
            cs@ == s@,
            trimmed_end(rest, class) == trimmed_end(s@.subrange(from as int, to as int), class),
        decreases to,
    {
        let ghost now = s@.subrange(from as int, to as int);
        proof {
            assert(now.last() == s@[to - 1]);
            assert(now.drop_last() =~= s@.subrange(from as int, to - 1));
        }
        to = to - 1;
    }
    proof {
        let now = s@.subrange(from as int, to as int);
        if from < to {
            assert(now.last() == s@[to - 1]);
        }
    }
    s.substring_char(from, to).to_owned()
}

/// Takes the characters of a class off the end of a text.
pub fn trim_end(s: &str, class: CharClass) -> (r: String)
    ensures
        r@ == trimmed_end(s@, class),
{
    let cs = chars_of(s);
    let mut to: usize = cs.len();
    proof {
        assert(s@.take(to as int) =~= s@);
    }
    while to > 0 && class.has(cs[to - 1])
        invariant
            to <= cs.len(),
            cs@ == s@,
            trimmed_end(s@, class) == trimmed_end(s@.take(to as int), class),
        decreases to,
    {
        proof {
            assert(s@.take(to as int).last() == s@[to - 1]);
            assert(s@.take(to as int).drop_last() =~= s@.take(to - 1));
        }
        to = to - 1;
    }
    proof {
        if to > 0 {
            assert(s@.take(to as int).last() == s@[to - 1]);
        }
    }
    take_chars(&cs, to)
}

/// Splits a text into its lines.
pub fn split_lines(s: &str) -> (r: Vec<String>)
    ensures
        texts(r@) == lines(s@),
{
    let pieces = split(s, CharClass::Only('\n'));
    let ghost all = texts(pieces@);
    let mut r: Vec<String> = Vec::new();
    let mut i: usize = 0;
    while i < pieces.len() - 1
        invariant
            pieces.len() >= 1,
            i <= pieces.len() - 1,
            all == texts(pieces@),
            texts(r@) == all.take(i as int).map_values(|p: Seq<char>| without_return(p)),
        decreases pieces.len() - i,
    {
        let line = chars_of(pieces[i].as_str());
        let n = line.len();
        let ghost before = texts(r@);
        let kept = if n > 0 && line[n - 1] == '\r' {
            pieces[i].as_str().substring_char(0, n - 1).to_owned()
        } else {
            pieces[i].clone()
        };
        proof {
            assert(all[i as int] == pieces@[i as int]@);
            assert(pieces@[i as int]@.subrange(0, n - 1) =~= pieces@[i as int]@.drop_last());
            assert(kept@ == without_return(all[i as int]));
        }
        r.push(kept);
        proof {
            assert(texts(r@) =~= before.push(without_return(all[i as int])));
            assert(texts(r@) =~= all.take(i + 1).map_values(|p: Seq<char>| without_return(p)));
        }
        i = i + 1;
    }
    proof {
        assert(all.take(i as int) =~= all.drop_last());
        assert(all.last() == pieces@[i as int]@);
    }
    if !pieces[i].as_str().is_empty() {
        let ghost before = texts(r@);
        r.push(pieces[i].clone());
        proof {
            assert(texts(r@) =~= before.push(all.last()));
        }
    }
    r
}

/// The first position of a pattern in a text, counted in characters.
pub fn find(s: &str, pattern: &str) -> (r: Option<usize>)
    ensures
        match r {
            Some(i) => first_at(s@, pattern@, i as int),
            None => !occurs(s@, pattern@),
        },
{
    let cs = chars_of(s);
    let ps = chars_of(pattern);
    if ps.len() > cs.len() {
        return None;
    }
    let last: usize = cs.len() - ps.len();
    let mut i: usize = 0;
    loop
        invariant
            i <= last,
            last == cs.len() - ps.len(),
            cs@ == s@,
            ps@ == pattern@,
            forall|j: int| 0 <= j < i ==> !occurs_at(s@, pattern@, j),
        decreases last - i,
    {
        let mut k: usize = 0;
        while k < ps.len() && cs[i + k] == ps[k]
            invariant
                k <= ps.len(),
                i <= last,
                last == cs.len() - ps.len(),
                cs@ == s@,
                ps@ == pattern@,
                forall|m: int| 0 <= m < k ==> s@[i + m] == pattern@[m],
            decreases ps.len() - k,
        {
            k = k + 1;
        }
        if k == ps.len() {
            proof {
                assert(s@.subrange(i as int, i + pattern@.len()) =~= pattern@);
            }
            return Some(i);
        }
        proof {
            assert(s@.subrange(i as int, i + pattern@.len())[k as int] != pattern@[k as int]);
            assert(!occurs_at(s@, pattern@, i as int));
        }
        if i == last {
            proof {
                assert forall|j: int| !occurs_at(s@, pattern@, j) by {}
            }
            return None;
        }
        i = i + 1;
    }
}

/// Whether a pattern stands somewhere in a text.
pub fn contains(s: &str, pattern: &str) -> (r: bool)
    ensures
        r == occurs(s@, pattern@),
{
    match find(s, pattern) {
        Some(i) => {
            proof {
                assert(occurs_at(s@, pattern@, i as int));
            }
            true
        },
        None => false,
    }
}

/// Splits a text at the first occurrence of a pattern.
pub fn split_once(s: &str, pattern: &str) -> (r: Option<(String, String)>)
    ensures
        match r {
            Some((before, after)) => {
                &&& first_at(s@, pattern@, before@.len() as int)
                &&& s@ == before@ + pattern@ + after@
            },
            None => !occurs(s@, pattern@),
        },
{
    match find(s, pattern) {
        Some(i) => {
            let n = s.unicode_len();
            let m = pattern.unicode_len();
            let before = s.substring_char(0, i).to_owned();
            let after = s.substring_char(i + m, n).to_owned();
            proof {
                assert(s@.subrange(i as int, i + m) == pattern@);
                assert(s@ =~= before@ + pattern@ + after@);
            }
            Some((before, after))
        },
        None => None,
    }
}

/// What follows the first occurrence of a pattern in a text.
pub fn after(s: &str, pattern: &str) -> (r: Option<String>)
    ensures
        match r {
            Some(rest) => after_first(s@, pattern@) == Some(rest@),
            None => after_first(s@, pattern@) is None,
        },
{
    match find(s, pattern) {
        Some(i) => {
            let n = s.unicode_len();
            let m = pattern.unicode_len();
            let rest = s.substring_char(i + m, n).to_owned();
            proof {
                assert(occurs_at(s@, pattern@, i as int));
                assert(first_at(s@, pattern@, i as int));
                let k = choose|k: int| first_at(s@, pattern@, k);
                assert(first_at(s@, pattern@, k));
                assert(k == i) by {
                    if k < i {
                        assert(occurs_at(s@, pattern@, k));
                    }
                    if i < k {
                        assert(occurs_at(s@, pattern@, i as int));
                    }
                }
                assert(rest@ =~= s@.skip(i + pattern@.len()));
            }
            Some(rest)
        },
        None => None,
    }
}

/// Replaces each occurrence of one character by a text.
pub fn replace(s: &str, c: char, with: &str) -> (r: String)
    ensures
        r@ == replaced(s@, c, with@),
{
    let cs = chars_of(s);
    let mut r = String::new();
    let mut i: usize = 0;
    while i < cs.len()
        invariant
            i <= cs.len(),
            cs@ == s@,
            r@ == replaced(s@.take(i as int), c, with@),
        decreases cs.len() - i,
    {
        proof {
            assert(s@.take(i + 1).drop_last() =~= s@.take(i as int));
        }
        if cs[i] == c {
            r.append(with);
        } else {
            r.push(cs[i]);
        }
        i = i + 1;
    }
    proof {
        assert(s@.take(i as int) =~= s@);
    }
    r
}

/// Whether one text comes before another in the order of their characters,
/// which is also the order of their UTF-8 bytes.
pub fn less(a: &str, b: &str) -> (r: bool)
    ensures
        r == precedes(a@, b@),
{
    let x = chars_of(a);
    let y = chars_of(b);
    let mut i: usize = 0;
    proof {
        assert(a@.skip(0) =~= a@);
        assert(b@.skip(0) =~= b@);
    }
    while i < x.len() && i < y.len() && x[i] == y[i]
        invariant
            i <= x.len(),
            i <= y.len(),
            x@ == a@,
            y@ == b@,
            precedes(a@, b@) == precedes(a@.skip(i as int), b@.skip(i as int)),
        decreases x.len() - i,
    {
        proof {
            assert(a@.skip(i as int)[0] == a@[i as int]);
            assert(b@.skip(i as int)[0] == b@[i as int]);
            assert(a@.skip(i as int).skip(1) =~= a@.skip(i + 1));
            assert(b@.skip(i as int).skip(1) =~= b@.skip(i + 1));
        }
        i = i + 1;
    }
    proof {
        if i < y.len() {
            assert(b@.skip(i as int)[0] == b@[i as int]);
            if i < x.len() {
                assert(a@.skip(i as int)[0] == a@[i as int]);
            }
        }
    }
    i < y.len() && (i >= x.len() || x[i] < y[i])
}

fn digit_char(n: u8) -> (c: char)
    requires
        n < 10,
    ensures
        c == digit(n as nat),
{
    (48u8 + n) as char
}

/// Writes a number in decimal notation.
pub fn to_decimal(n: u128) -> (r: String)
    ensures
        r@ == decimal(n as nat),
    decreases n,
{
    if n < 10 {
        let mut r = String::new();
        r.push(digit_char(n as u8));
        proof {
            assert(r@ =~= seq![digit(n as nat)]);
        }
        r
    } else {
        let mut r = to_decimal(n / 10);
        r.push(digit_char((n % 10) as u8));
        r
    }
}

/// Writes the sum of two numbers in decimal notation, however large it is.
pub fn sum_to_decimal(a: u128, b: u128) -> (r: String)
    ensures
        r@ == decimal((a + b) as nat),
{
    let ones: u128 = a % 10 + b % 10;
    let tens: u128 = a / 10 + b / 10 + ones / 10;
    proof {
        assert((a + b) / 10 == tens);
        assert((a + b) % 10 == ones % 10);
    }
    if tens == 0 {
        return to_decimal(ones);
    }
    let mut r = to_decimal(tens);
    r.push(digit_char((ones % 10) as u8));
    r
}

/// Writes a number in decimal notation, with zeros before it up to a width.
pub fn to_padded(n: u128, width: usize) -> (r: String)
    ensures
        r@ == padded(n as nat, width as nat),
{
    let d = to_decimal(n);
    let len = d.as_str().unicode_len();
    let mut r = String::new();
    let mut i: usize = len;
    while i < width
        invariant
            len <= i,
            i <= width || i == len,
            r@ == Seq::new((i - len) as nat, |k: int| '0'),
        decreases width - i,
    {
        r.push('0');
        proof {
            assert(r@ =~= Seq::new((i + 1 - len) as nat, |k: int| '0'));
        }
        i = i + 1;
    }
    r.append(d.as_str());
    proof {
        if len >= width {
            assert(r@ =~= d@);
        }
    }
    r
}

proof fn lemma_digits_grow(s: Seq<char>, i: int)
    requires
        0 <= i <= s.len(),
        is_number(s),
    ensures
        digits_value(s.take(i)) <= digits_value(s),
    decreases s.len() - i,
{
    if i < s.len() {
        lemma_digits_grow(s, i + 1);
        assert(s.take(i + 1).drop_last() =~= s.take(i));
    } else {
        assert(s.take(i) =~= s);
    }
}

/// Reads a size.
pub fn parse_size(s: &str) -> (r: Option<usize>)
    ensures
        r == size_in(s@),
{
    let cs = chars_of(s);
    let start: usize = if cs.len() > 1 && cs[0] == '+' {
        1
    } else {
        0
    };
    let ghost digits = unsigned(s@);
    proof {
        assert(digits =~= s@.skip(start as int));
    }
    if cs.len() == 0 {
        return None;
    }
    let mut n: usize = 0;
    let mut i: usize = start;
    proof {
        assert(digits.take(0) =~= Seq::empty());
    }
    while i < cs.len()
        invariant
            start <= i <= cs.len(),
            cs@ == s@,
            digits == unsigned(s@),
            digits == s@.skip(start as int),
            n == digits_value(digits.take(i - start)),
            forall|j: int| 0 <= j < i - start ==> '0' <= #[trigger] digits[j] <= '9',
        decreases cs.len() - i,
    {
        let c = cs[i];
        proof {
            assert(digits[i - start] == c);
            assert(digits.take(i - start + 1).drop_last() =~= digits.take(i - start));
            assert(digits.take(i - start + 1).last() == c);
        }
        if c < '0' || c > '9' {
            return None;
        }
        let d: usize = (c as u32 - '0' as u32) as usize;
        proof {
            if is_number(digits) {
                lemma_digits_grow(digits, i - start + 1);
            }
        }
        if n > usize::MAX / 10 {
            return None;
        }
        let tens: usize = n * 10;
        if d > usize::MAX - tens {
            return None;
        }
        n = tens + d;
        i = i + 1;
    }
    proof {
        assert(digits.take(i - start) =~= digits);
    }
    Some(n)
}

/// A text, or another if it is not there.
pub open spec fn or(s: Option<Seq<char>>, otherwise: Seq<char>) -> Seq<char> {
    match s {
        Some(s) => s,
        None => otherwise,
    }
}

/// A text that may be there, as a value.
pub open spec fn model(s: Option<String>) -> Option<Seq<char>> {
    match s {
        Some(s) => Some(s@),
        None => None,
    }
}

/// Pairs of texts as values.
pub open spec fn pairs(v: Seq<(String, String)>) -> Seq<(Seq<char>, Seq<char>)> {
    v.map_values(|p: (String, String)| (p.0@, p.1@))
}

/// A text that may be there, as a value.
pub open spec fn lent(s: Option<&str>) -> Option<Seq<char>> {
    match s {
        Some(s) => Some(s@),
        None => None,
    }
}

/// A text, or another if it is not there.
pub fn text_or(s: &Option<String>, otherwise: &str) -> (r: String)
    ensures
        r@ == or(model(*s), otherwise@),
{
    match s {
        Some(s) => s.clone(),
        None => otherwise.to_owned(),
    }
}

/// A number in decimal, with a sign if it is negative.
pub open spec fn signed_decimal(n: int) -> Seq<char> {
    if n < 0 {
        "-"@ + decimal((-n) as nat)
    } else {
        decimal(n as nat)
    }
}

/// A number in decimal, with a sign if it is negative.
pub fn to_signed(n: i64) -> (r: String)
    ensures
        r@ == signed_decimal(n as int),
{
    if n < 0 {
        concat("-", to_decimal((-(n as i128)) as u128).as_str())
    } else {
        to_decimal(n as u128)
    }
}

} // verus!

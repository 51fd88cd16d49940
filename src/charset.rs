use vstd::prelude::*;

verus! {

/// The character classes the scanners work with.
#[derive(Debug, Clone, Copy, PartialEq, Eq, Structural)]
pub enum CharClass {
    /// Letters that may begin an identifier (ASCII letters only).
    IdentifierStart,
    /// Letters, digits and underscore: what may follow the first identifier letter.
    IdentifierContinue,
    /// Decimal digits.
    Digit,
    /// Horizontal whitespace: space and tab, never newline.
    Space,
    /// `+ - / = * %`
    Operator,
    /// `{ } [ ] < > ( ) ; ,`
    Separator,
    /// Anything but a newline: the body of a single-line comment.
    CommentBody,
}

pub open spec fn is_letter(c: char) -> bool {
    ('a' <= c && c <= 'z') || ('A' <= c && c <= 'Z')
}

pub open spec fn is_digit(c: char) -> bool {
    '0' <= c && c <= '9'
}

/// Membership of a character in a class.
pub open spec fn in_class(c: char, class: CharClass) -> bool {
    match class {
        CharClass::IdentifierStart => is_letter(c),
        CharClass::IdentifierContinue => is_letter(c) || is_digit(c) || c == '_',
        CharClass::Digit => is_digit(c),
        CharClass::Space => c == ' ' || c == '\t',
        CharClass::Operator => c == '+' || c == '-' || c == '/' || c == '=' || c == '*' || c == '%',
        CharClass::Separator => c == '{' || c == '}' || c == '[' || c == ']' || c == '<' || c == '>'
            || c == '(' || c == ')' || c == ';' || c == ',',
        CharClass::CommentBody => c != '\n',
    }
}

/// Tests whether `c` belongs to `class`.
pub fn char_in_class(c: char, class: CharClass) -> (r: bool)
    ensures
        r == in_class(c, class),
{
    match class {
        CharClass::IdentifierStart => ('a' <= c && c <= 'z') || ('A' <= c && c <= 'Z'),
        CharClass::IdentifierContinue => ('a' <= c && c <= 'z') || ('A' <= c && c <= 'Z') || (
        '0' <= c && c <= '9') || c == '_',
        CharClass::Digit => '0' <= c && c <= '9',
        CharClass::Space => c == ' ' || c == '\t',
        CharClass::Operator => c == '+' || c == '-' || c == '/' || c == '=' || c == '*' || c
            == '%',
        CharClass::Separator => c == '{' || c == '}' || c == '[' || c == ']' || c == '<' || c
            == '>' || c == '(' || c == ')' || c == ';' || c == ',',
        CharClass::CommentBody => c != '\n',
    }
}

/// Whether a word is `true` or `false`.
pub open spec fn is_boolean_word(w: Seq<char>) -> bool {
    w == seq!['t', 'r', 'u', 'e'] || w == seq!['f', 'a', 'l', 's', 'e']
}

/// Whether a word is one of the reserved words `var const fn if else elif`.
pub open spec fn is_keyword_word(w: Seq<char>) -> bool {
    ||| w == seq!['v', 'a', 'r']
    ||| w == seq!['c', 'o', 'n', 's', 't']
    ||| w == seq!['f', 'n']
    ||| w == seq!['i', 'f']
    ||| w == seq!['e', 'l', 's', 'e']
    ||| w == seq!['e', 'l', 'i', 'f']
}

/// Whether `s[start..end]` spells exactly `word`.
fn segment_is(s: &Vec<char>, start: usize, end: usize, word: &[char]) -> (r: bool)
    requires
        start <= end <= s@.len(),
    ensures
        r == (s@.subrange(start as int, end as int) == word@),
{
    if end - start != word.len() {
        return false;
    }
    let mut i: usize = 0;
    while i < word.len()
        invariant
            start <= end <= s@.len(),
            end - start == word@.len(),
            i <= word@.len(),
            forall|j: int| 0 <= j < i ==> s@[start + j] == word@[j],
        decreases word@.len() - i,
    {
        if s[start + i] != word[i] {
            assert(s@.subrange(start as int, end as int)[i as int] != word@[i as int]);
            return false;
        }
        i = i + 1;
    }
    assert(s@.subrange(start as int, end as int) =~= word@);
    true
}

/// Whether `s[start..end]` is `true` or `false`.
pub fn segment_is_boolean(s: &Vec<char>, start: usize, end: usize) -> (r: bool)
    requires
        start <= end <= s@.len(),
    ensures
        r == is_boolean_word(s@.subrange(start as int, end as int)),
{
    let t = segment_is(s, start, end, &['t', 'r', 'u', 'e']);
    let f = segment_is(s, start, end, &['f', 'a', 'l', 's', 'e']);
    t || f
}

/// Whether `s[start..end]` is one of the reserved words.
pub fn segment_is_keyword(s: &Vec<char>, start: usize, end: usize) -> (r: bool)
    requires
        start <= end <= s@.len(),
    ensures
        r == is_keyword_word(s@.subrange(start as int, end as int)),
{
    segment_is(s, start, end, &['v', 'a', 'r']) || segment_is(s, start, end, &['c', 'o', 'n', 's', 't'])
        || segment_is(s, start, end, &['f', 'n']) || segment_is(s, start, end, &['i', 'f'])
        || segment_is(s, start, end, &['e', 'l', 's', 'e']) || segment_is(
        s,
        start,
        end,
        &['e', 'l', 'i', 'f'],
    )
}

} // verus!

use vstd::prelude::*;
use crate::charset::{CharClass, in_class, is_keyword_word};
use crate::lexer::{
    concat_lexemes, is_scan_between, is_scan_from, is_scanned_token, run_end, scan_at, total_span,
};
use crate::token::{Token, TokenKind};

verus! {

/// Two tokens agree in kind, span and lexeme.
pub open spec fn same_token(t: Token, u: Token) -> bool {
    &&& t.kind == u.kind
    &&& t.start_position == u.start_position
    &&& t.end_position == u.end_position
    &&& t.lexeme@ == u.lexeme@
}

/// A run of `class` characters over `[i, k)` that stops at `k` ends at `k`.
proof fn lemma_run_end_at(s: Seq<char>, i: int, k: int, class: CharClass)
    requires
        0 <= i <= k <= s.len(),
        forall|j: int| i <= j < k ==> in_class(#[trigger] s[j], class),
        k == s.len() || !in_class(s[k], class),
    ensures
        run_end(s, i, class) == k,
    decreases k - i,
{
    if i < k {
        lemma_run_end_at(s, i + 1, k, class);
    }
}

/// A reserved word at the start of the source, followed by the end of the
/// source or by a character that cannot continue an identifier, is scanned as
/// one `Keyword` token covering exactly that word; the token that follows it
/// is not a keyword.
pub proof fn keyword_scans_alone(s: Seq<char>, w: Seq<char>)
    requires
        is_keyword_word(w),
        w.len() <= s.len(),
        s.subrange(0, w.len() as int) == w,
        w.len() < s.len() ==> !in_class(s[w.len() as int], CharClass::IdentifierContinue),
    ensures
        scan_at(s, 0) == (TokenKind::Keyword, w.len() as int),
        s.subrange(0, scan_at(s, 0).1) == w,
        w.len() < s.len() ==> scan_at(s, w.len() as int).0 != TokenKind::Keyword,
{
    let k = w.len() as int;
    assert forall|j: int| 0 <= j < k implies in_class(#[trigger] s[j], CharClass::IdentifierStart) by {
        assert(s[j] == s.subrange(0, k)[j]);
    }
    lemma_run_end_at(s, 0, k, CharClass::IdentifierStart);
    assert(w[0] != 't' && w[0] != 'f' || w.len() == 2);
    if k < s.len() {
        lemma_run_end_at(s, k, k, CharClass::IdentifierStart);
        assert(s.subrange(k, k).len() == 0);
    }
}

proof fn lemma_agree_upto(s: Seq<char>, from: int, a: Seq<Token>, b: Seq<Token>, i: int)
    requires
        is_scan_from(s, from, a),
        is_scan_from(s, from, b),
        0 <= i < a.len(),
        i < b.len(),
    ensures
        same_token(a[i], b[i]),
    decreases i,
{
    reveal(is_scanned_token);
    if i > 0 {
        lemma_agree_upto(s, from, a, b, i - 1);
        assert(a[i].start_position == a[i - 1].end_position);
        assert(b[i].start_position == b[i - 1].end_position);
    }
    assert(is_scanned_token(s, a[i]));
    assert(is_scanned_token(s, b[i]));
}

proof fn lemma_cover_between(s: Seq<char>, from: int, to: int, toks: Seq<Token>)
    requires
        0 <= from <= s.len(),
        is_scan_between(s, from, to, toks),
    ensures
        from <= to <= s.len(),
        concat_lexemes(toks) == s.subrange(from, to),
        total_span(toks) == to - from,
    decreases toks.len(),
{
    reveal(is_scanned_token);
    if toks.len() == 0 {
        assert(s.subrange(from, to) =~= Seq::<char>::empty());
    } else {
        let n = toks.len() - 1;
        let t = toks[n];
        let mid = t.start_position as int;
        let rest = toks.drop_last();
        assert(is_scanned_token(s, t));
        assert forall|i: int| 0 <= i < rest.len() implies is_scanned_token(s, #[trigger] rest[i]) by {
            assert(rest[i] == toks[i]);
        }
        assert forall|i: int|
            #![trigger rest[i], rest[i - 1]]
            0 < i < rest.len() implies rest[i].start_position == rest[i - 1].end_position by {
            assert(rest[i] == toks[i]);
            assert(rest[i - 1] == toks[i - 1]);
        }
        if n > 0 {
            assert(toks[n].start_position == toks[n - 1].end_position);
            assert(rest.last() == toks[n - 1]);
        }
        lemma_cover_between(s, from, mid, rest);
        crate::lexer::lemma_scan_at_bounds(s, mid);
        assert(s.subrange(from, to) =~= s.subrange(from, mid) + s.subrange(mid, to));
    }
}

/// A complete scan loses nothing and repeats nothing: the lexemes of the
/// tokens, joined in order, are exactly the source, and their span lengths add
/// up to its length.
pub proof fn scan_covers_source(s: Seq<char>, toks: Seq<Token>)
    requires
        is_scan_from(s, 0, toks),
    ensures
        concat_lexemes(toks) == s,
        total_span(toks) == s.len(),
{
    lemma_cover_between(s, 0, s.len() as int, toks);
    assert(s.subrange(0, s.len() as int) =~= s);
}

/// Scanning has no hidden state: any two complete token sequences of one
/// source, from one starting offset, agree token for token.
pub proof fn scan_is_deterministic(s: Seq<char>, from: int, a: Seq<Token>, b: Seq<Token>)
    requires
        is_scan_from(s, from, a),
        is_scan_from(s, from, b),
    ensures
        a.len() == b.len(),
        forall|i: int| 0 <= i < a.len() ==> same_token(#[trigger] a[i], b[i]),
{
    reveal(is_scanned_token);
    assert forall|i: int| 0 <= i < a.len() && i < b.len() implies same_token(#[trigger] a[i], b[i]) by {
        lemma_agree_upto(s, from, a, b, i);
    }
    if a.len() < b.len() {
        let n = a.len() as int;
        assert(is_scanned_token(s, b[n]));
        if n > 0 {
            assert(b[n].start_position == b[n - 1].end_position);
            assert(same_token(a[n - 1], b[n - 1]));
        }
    }
    if b.len() < a.len() {
        let n = b.len() as int;
        assert(is_scanned_token(s, a[n]));
        if n > 0 {
            assert(a[n].start_position == a[n - 1].end_position);
            assert(same_token(a[n - 1], b[n - 1]));
        }
    }
}

} // verus!

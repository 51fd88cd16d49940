use vstd::prelude::*;
use crate::charset::{
    CharClass, char_in_class, in_class, is_boolean_word, is_keyword_word, segment_is_boolean,
    segment_is_keyword,
};
use crate::token::{Token, TokenKind};

verus! {

/// Line (from 1) of the cursor at offset `p`: one more than the newlines before it.
pub open spec fn line_at(s: Seq<char>, p: int) -> int
    decreases p,
{
    if p <= 0 {
        1
    } else if s[p - 1] == '\n' {
        line_at(s, p - 1) + 1
    } else {
        line_at(s, p - 1)
    }
}

/// Column (from 0) of the cursor at offset `p`: characters since the last newline.
pub open spec fn column_at(s: Seq<char>, p: int) -> int
    decreases p,
{
    if p <= 0 {
        0
    } else if s[p - 1] == '\n' {
        0
    } else {
        column_at(s, p - 1) + 1
    }
}

proof fn lemma_cursor_bounds(s: Seq<char>, p: int)
    requires
        0 <= p,
    ensures
        1 <= line_at(s, p) <= p + 1,
        0 <= column_at(s, p) <= p,
    decreases p,
{
    if p > 0 {
        lemma_cursor_bounds(s, p - 1);
    }
}

/// End of the maximal run of `class` characters of `s` that starts at `i`.
pub open spec fn run_end(s: Seq<char>, i: int, class: CharClass) -> int
    decreases s.len() - i,
{
    if 0 <= i < s.len() && in_class(s[i], class) {
        run_end(s, i + 1, class)
    } else {
        i
    }
}

proof fn lemma_run_end_bounds(s: Seq<char>, i: int, class: CharClass)
    requires
        0 <= i <= s.len(),
    ensures
        i <= run_end(s, i, class) <= s.len(),
    decreases s.len() - i,
{
    if i < s.len() && in_class(s[i], class) {
        lemma_run_end_bounds(s, i + 1, class);
    }
}

/// The kind and end offset of the token the dispatcher scans at `pos`,
/// trying keyword/boolean, identifier, operator, separator, whitespace and
/// comment in that order, and falling back to one `Unknown` character.
pub open spec fn scan_at(s: Seq<char>, pos: int) -> (TokenKind, int) {
    let w = run_end(s, pos, CharClass::IdentifierStart);
    let c = s[pos];
    if is_boolean_word(s.subrange(pos, w)) {
        (TokenKind::Boolean, w)
    } else if is_keyword_word(s.subrange(pos, w)) {
        (TokenKind::Keyword, w)
    } else if in_class(c, CharClass::IdentifierStart) {
        (TokenKind::Identifier, run_end(s, pos + 1, CharClass::IdentifierContinue))
    } else if in_class(c, CharClass::Operator) {
        (TokenKind::Operator, run_end(s, pos, CharClass::Operator))
    } else if in_class(c, CharClass::Separator) {
        (TokenKind::Separator, pos + 1)
    } else if in_class(c, CharClass::Space) {
        (TokenKind::Space, run_end(s, pos, CharClass::Space))
    } else if c == '#' {
        (TokenKind::SingleLineComment, run_end(s, pos + 1, CharClass::CommentBody))
    } else {
        (TokenKind::Unknown, pos + 1)
    }
}

/// `t` has kind `kind`, spans `[start, end)` and holds exactly those characters of `s`.
pub open spec fn token_spans(t: Token, s: Seq<char>, kind: TokenKind, start: int, end: int) -> bool {
    &&& t.kind == kind
    &&& t.start_position == start
    &&& t.end_position == end
    &&& t.lexeme@ == s.subrange(start, end)
}

/// `t` is the token the dispatcher scans in `s` at `t`'s start.
#[verifier::opaque]
pub open spec fn is_scanned_token(s: Seq<char>, t: Token) -> bool {
    &&& 0 <= t.start_position < s.len()
    &&& token_spans(t, s, scan_at(s, t.start_position as int).0, t.start_position as int, scan_at(s, t.start_position as int).1)
}

/// The token carried by either arm of the dispatcher's result.
pub open spec fn result_token(r: Result<Token, Token>) -> Token {
    match r {
        Ok(t) => t,
        Err(t) => t,
    }
}

pub(crate) proof fn lemma_scan_at_bounds(s: Seq<char>, pos: int)
    requires
        0 <= pos < s.len(),
    ensures
        pos < scan_at(s, pos).1 <= s.len(),
{
    lemma_run_end_bounds(s, pos, CharClass::IdentifierStart);
    lemma_run_end_bounds(s, pos + 1, CharClass::IdentifierContinue);
    lemma_run_end_bounds(s, pos + 1, CharClass::Operator);
    lemma_run_end_bounds(s, pos + 1, CharClass::Space);
    lemma_run_end_bounds(s, pos + 1, CharClass::CommentBody);
    let w = run_end(s, pos, CharClass::IdentifierStart);
    if w == pos {
        assert(s.subrange(pos, w).len() == 0);
    }
}

/// `toks` is what the dispatcher yields, one call after another, when it
/// starts at offset `from` and stops at offset `to`: each token is the one
/// scanned at the previous token's end.
pub open spec fn is_scan_between(s: Seq<char>, from: int, to: int, toks: Seq<Token>) -> bool {
    &&& forall|i: int| 0 <= i < toks.len() ==> is_scanned_token(s, #[trigger] toks[i])
    &&& toks.len() > 0 ==> toks[0].start_position == from
    &&& forall|i: int|
        #![trigger toks[i], toks[i - 1]]
        0 < i < toks.len() ==> toks[i].start_position == toks[i - 1].end_position
    &&& if toks.len() == 0 {
        to == from
    } else {
        toks.last().end_position == to
    }
}

/// `toks` is the complete token sequence of `s` from offset `from` to its end.
pub open spec fn is_scan_from(s: Seq<char>, from: int, toks: Seq<Token>) -> bool {
    is_scan_between(s, from, s.len() as int, toks)
}

/// The lexemes of `toks`, joined in order.
pub open spec fn concat_lexemes(toks: Seq<Token>) -> Seq<char>
    decreases toks.len(),
{
    if toks.len() == 0 {
        Seq::empty()
    } else {
        concat_lexemes(toks.drop_last()) + toks.last().lexeme@
    }
}

/// The sum of the span lengths `end - start` of `toks`.
pub open spec fn total_span(toks: Seq<Token>) -> int
    decreases toks.len(),
{
    if toks.len() == 0 {
        0
    } else {
        total_span(toks.drop_last()) + (toks.last().end_position - toks.last().start_position)
    }
}

proof fn lemma_scan_extend(s: Seq<char>, from: int, p: int, toks: Seq<Token>, t: Token)
    requires
        0 <= from <= p,
        is_scan_between(s, from, p, toks),
        concat_lexemes(toks) == s.subrange(from, p),
        total_span(toks) == p - from,
        is_scanned_token(s, t),
        t.start_position == p,
    ensures
        is_scan_between(s, from, t.end_position as int, toks.push(t)),
        concat_lexemes(toks.push(t)) == s.subrange(from, t.end_position as int),
        total_span(toks.push(t)) == t.end_position - from,
{
    let e = t.end_position as int;
    let r = toks.push(t);
    reveal(is_scanned_token);
    lemma_scan_at_bounds(s, p);
    assert(r.drop_last() =~= toks);
    assert(s.subrange(from, e) =~= s.subrange(from, p) + s.subrange(p, e));
    assert forall|i: int|
        #![trigger r[i], r[i - 1]]
        0 < i < r.len() implies r[i].start_position == r[i - 1].end_position by {
        assert(r[i - 1] == toks[i - 1]);
        if i < toks.len() {
            assert(r[i] == toks[i]);
        }
    }
    assert forall|i: int| 0 <= i < r.len() implies is_scanned_token(s, #[trigger] r[i]) by {
        if i < toks.len() {
            assert(r[i] == toks[i]);
        }
    }
}

/// Relies on String::push: appends one character at the end.
#[verifier::external_body]
fn push_char(s: &mut String, c: char)
    ensures
        final(s)@ == old(s)@.push(c),
{
    s.push(c);
}

/// A tokenizer over an owned source buffer, with a cursor into it.
pub struct Lexer {
    code: Vec<char>,
    position: usize,
    line: usize,
    column: usize,
}

impl Lexer {
    /// The source buffer.
    pub closed spec fn source(&self) -> Seq<char> {
        self.code@
    }

    /// The cursor's offset into the source.
    pub closed spec fn pos(&self) -> int {
        self.position as int
    }

    /// The cursor lies within the source, and its line and column are those
    /// of its offset.
    pub closed spec fn wf(&self) -> bool {
        &&& self.code@.len() < usize::MAX
        &&& self.position <= self.code@.len()
        &&& self.line == line_at(self.code@, self.position as int)
        &&& self.column == column_at(self.code@, self.position as int)
    }

    /// A tokenizer at the start of `code`. A `String` never holds `usize::MAX`
    /// characters, so the bound below always holds.
    pub fn new(code: String) -> (r: Lexer)
        requires
            code@.len() < usize::MAX,
        ensures
            r.wf(),
            r.source() == code@,
            r.pos() == 0,
    {
        let mut chars: Vec<char> = Vec::new();
        for c in it: code.as_str().chars()
            invariant
                chars@ == it.seq().take(it.index() as int),
        {
            chars.push(c);
        }
        assert(chars@ == code@);
        Lexer { code: chars, position: 0, line: 1, column: 0 }
    }
    /// True while the cursor has not reached the end of the source.
    fn is_bound(&self) -> (r: bool)
        requires
            self.wf(),
        ensures
            r == (self.pos() < self.source().len()),
    {
        self.position < self.code.len()
    }

    /// The character under the cursor, if any.
    fn peek_char(&self) -> (r: Option<char>)
        requires
            self.wf(),
        ensures
            r == (if self.pos() < self.source().len() {
                Some(self.source()[self.pos()])
            } else {
                None::<char>
            }),
    {
        if self.is_bound() {
            Some(self.code[self.position])
        } else {
            None
        }
    }

    /// Consumes the character under the cursor and moves line and column past it.
    fn eat_char(&mut self) -> (r: char)
        requires
            old(self).wf(),
            old(self).pos() < old(self).source().len(),
        ensures
            final(self).wf(),
            final(self).source() == old(self).source(),
            final(self).pos() == old(self).pos() + 1,
            r == old(self).source()[old(self).pos()],
    {
        proof {
            lemma_cursor_bounds(self.code@, self.position as int);
        }
        let c = self.code[self.position];
        self.position = self.position + 1;
        if c == '\n' {
            self.line = self.line + 1;
            self.column = 0;
        } else {
            self.column = self.column + 1;
        }
        c
    }

    /// Consumes the maximal run of `class` characters at the cursor and returns
    /// `prefix` followed by that run.
    fn eat_run(&mut self, class: CharClass, prefix: String) -> (r: String)
        requires
            old(self).wf(),
        ensures
            final(self).wf(),
            final(self).source() == old(self).source(),
            final(self).pos() == run_end(old(self).source(), old(self).pos(), class),
            old(self).pos() <= final(self).pos(),
            r@ == prefix@ + old(self).source().subrange(old(self).pos(), final(self).pos()),
    {
        let ghost s = self.code@;
        let ghost start = self.position as int;
        let mut run = prefix;
        proof {
            lemma_run_end_bounds(s, start, class);
        }
        while self.is_bound() && char_in_class(self.code[self.position], class)
            invariant
                self.wf(),
                self.code@ == s,
                0 <= start <= self.pos() <= s.len(),
                run_end(s, start, class) == run_end(s, self.pos(), class),
                run@ == prefix@ + s.subrange(start, self.pos()),
            decreases s.len() - self.pos(),
        {
            let c = self.eat_char();
            push_char(&mut run, c);
            assert(run@ =~= prefix@ + s.subrange(start, self.pos()));
        }
        assert(s.subrange(start, start) =~= Seq::<char>::empty());
        run
    }

    /// Keyword/boolean scanner: takes the run of letters at the cursor and
    /// classifies it as `Boolean` (`true`, `false`) or `Keyword`; any other word
    /// is rejected and the cursor put back where it was.
    fn valid_keyword(&mut self) -> (r: Option<Token>)
        requires
            old(self).wf(),
        ensures
            final(self).wf(),
            final(self).source() == old(self).source(),
            ({
                let s = old(self).source();
                let p = old(self).pos();
                let w = run_end(s, p, CharClass::IdentifierStart);
                let word = s.subrange(p, w);
                &&& r is Some <==> (is_boolean_word(word) || is_keyword_word(word))
                &&& r is Some ==> final(self).pos() == w && token_spans(
                    r->0,
                    s,
                    if is_boolean_word(word) {
                        TokenKind::Boolean
                    } else {
                        TokenKind::Keyword
                    },
                    p,
                    w,
                )
                &&& r is None ==> final(self).pos() == p
            }),
    {
        let start = self.position;
        let saved_line = self.line;
        let saved_column = self.column;
        let word = self.eat_run(CharClass::IdentifierStart, String::new());
        let end = self.position;
        if segment_is_boolean(&self.code, start, end) {
            Some(Token::new(TokenKind::Boolean, start, end, word))
        } else if segment_is_keyword(&self.code, start, end) {
            Some(Token::new(TokenKind::Keyword, start, end, word))
        } else {
            self.position = start;
            self.line = saved_line;
            self.column = saved_column;
            None
        }
    }

    /// Identifier scanner: a letter followed by letters, digits and underscores.
    fn valid_identifier(&mut self) -> (r: Option<Token>)
        requires
            old(self).wf(),
        ensures
            final(self).wf(),
            final(self).source() == old(self).source(),
            ({
                let s = old(self).source();
                let p = old(self).pos();
                let e = run_end(s, p + 1, CharClass::IdentifierContinue);
                &&& r is Some <==> (p < s.len() && in_class(s[p], CharClass::IdentifierStart))
                &&& r is Some ==> final(self).pos() == e && token_spans(
                    r->0,
                    s,
                    TokenKind::Identifier,
                    p,
                    e,
                )
                &&& r is None ==> final(self).pos() == p
            }),
    {
        let start = self.position;
        match self.peek_char() {
            Some(c) => {
                if char_in_class(c, CharClass::IdentifierStart) {
                    let first = self.eat_char();
                    let mut prefix = String::new();
                    push_char(&mut prefix, first);
                    let ident = self.eat_run(CharClass::IdentifierContinue, prefix);
                    proof {
                        let s = self.code@;
                        assert(ident@ =~= s.subrange(start as int, self.position as int));
                    }
                    Some(Token::new(TokenKind::Identifier, start, self.position, ident))
                } else {
                    None
                }
            },
            None => None,
        }
    }

    /// Operator scanner: the maximal run of operator characters, as one token.
    fn valid_operator(&mut self) -> (r: Option<Token>)
        requires
            old(self).wf(),
        ensures
            final(self).wf(),
            final(self).source() == old(self).source(),
            ({
                let s = old(self).source();
                let p = old(self).pos();
                let e = run_end(s, p, CharClass::Operator);
                &&& r is Some <==> (p < s.len() && in_class(s[p], CharClass::Operator))
                &&& r is Some ==> final(self).pos() == e && token_spans(
                    r->0,
                    s,
                    TokenKind::Operator,
                    p,
                    e,
                )
                &&& r is None ==> final(self).pos() == p
            }),
    {
        self.scan_run(CharClass::Operator, TokenKind::Operator)
    }

    /// Whitespace scanner: the maximal run of spaces and tabs.
    fn valid_space(&mut self) -> (r: Option<Token>)
        requires
            old(self).wf(),
        ensures
            final(self).wf(),
            final(self).source() == old(self).source(),
            ({
                let s = old(self).source();
                let p = old(self).pos();
                let e = run_end(s, p, CharClass::Space);
                &&& r is Some <==> (p < s.len() && in_class(s[p], CharClass::Space))
                &&& r is Some ==> final(self).pos() == e && token_spans(
                    r->0,
                    s,
                    TokenKind::Space,
                    p,
                    e,
                )
                &&& r is None ==> final(self).pos() == p
            }),
    {
        self.scan_run(CharClass::Space, TokenKind::Space)
    }

    /// A maximal run of `class` characters as one token of `kind`; no token
    /// (and the cursor untouched) when the run is empty.
    fn scan_run(&mut self, class: CharClass, kind: TokenKind) -> (r: Option<Token>)
        requires
            old(self).wf(),
        ensures
            final(self).wf(),
            final(self).source() == old(self).source(),
            ({
                let s = old(self).source();
                let p = old(self).pos();
                let e = run_end(s, p, class);
                &&& r is Some <==> (p < s.len() && in_class(s[p], class))
                &&& r is Some ==> final(self).pos() == e && token_spans(r->0, s, kind, p, e)
                &&& r is None ==> final(self).pos() == p
            }),
    {
        let start = self.position;
        proof {
            let s = self.code@;
            if start < s.len() && in_class(s[start as int], class) {
                lemma_run_end_bounds(s, start + 1, class);
            }
        }
        let run = self.eat_run(class, String::new());
        proof {
            assert(run@ =~= self.code@.subrange(start as int, self.position as int));
        }
        if self.position == start {
            None
        } else {
            Some(Token::new(kind, start, self.position, run))
        }
    }

    /// Separator scanner: exactly one separator character, never a pair.
    fn valid_separator(&mut self) -> (r: Option<Token>)
        requires
            old(self).wf(),
        ensures
            final(self).wf(),
            final(self).source() == old(self).source(),
            ({
                let s = old(self).source();
                let p = old(self).pos();
                &&& r is Some <==> (p < s.len() && in_class(s[p], CharClass::Separator))
                &&& r is Some ==> final(self).pos() == p + 1 && token_spans(
                    r->0,
                    s,
                    TokenKind::Separator,
                    p,
                    p + 1,
                )
                &&& r is None ==> final(self).pos() == p
            }),
    {
        let start = self.position;
        match self.peek_char() {
            Some(c) => {
                if char_in_class(c, CharClass::Separator) {
                    let sep = self.eat_char();
                    let mut lexeme = String::new();
                    push_char(&mut lexeme, sep);
                    proof {
                        assert(lexeme@ =~= self.code@.subrange(start as int, self.position as int));
                    }
                    Some(Token::new(TokenKind::Separator, start, self.position, lexeme))
                } else {
                    None
                }
            },
            None => None,
        }
    }

    /// Single-line comment scanner: from `#` up to, not including, the next
    /// newline or the end of the source.
    fn valid_single_line_comment(&mut self) -> (r: Option<Token>)
        requires
            old(self).wf(),
        ensures
            final(self).wf(),
            final(self).source() == old(self).source(),
            ({
                let s = old(self).source();
                let p = old(self).pos();
                let e = run_end(s, p + 1, CharClass::CommentBody);
                &&& r is Some <==> (p < s.len() && s[p] == '#')
                &&& r is Some ==> final(self).pos() == e && token_spans(
                    r->0,
                    s,
                    TokenKind::SingleLineComment,
                    p,
                    e,
                )
                &&& r is None ==> final(self).pos() == p
            }),
    {
        let start = self.position;
        match self.peek_char() {
            Some(c) => {
                if c == '#' {
                    let hash = self.eat_char();
                    let mut prefix = String::new();
                    push_char(&mut prefix, hash);
                    let comment = self.eat_run(CharClass::CommentBody, prefix);
                    proof {
                        let s = self.code@;
                        assert(comment@ =~= s.subrange(start as int, self.position as int));
                    }
                    Some(Token::new(TokenKind::SingleLineComment, start, self.position, comment))
                } else {
                    None
                }
            },
            None => None,
        }
    }
    /// Scans one token at the cursor. The scanners are tried in the order
    /// keyword/boolean, identifier, operator, separator, whitespace, comment;
    /// the first that matches gives `Ok`. When none matches, one character is
    /// consumed and returned as an `Unknown` token in `Err`.
    pub fn lex_next(&mut self) -> (r: Result<Token, Token>)
        requires
            old(self).wf(),
            old(self).pos() < old(self).source().len(),
        ensures
            final(self).wf(),
            final(self).source() == old(self).source(),
            old(self).pos() < final(self).pos(),
            final(self).pos() == scan_at(old(self).source(), old(self).pos()).1,
            is_scanned_token(old(self).source(), result_token(r)),
            result_token(r).start_position == old(self).pos(),
            result_token(r).end_position == final(self).pos(),
            r is Err <==> scan_at(old(self).source(), old(self).pos()).0 == TokenKind::Unknown,
    {
        proof {
            lemma_scan_at_bounds(self.code@, self.position as int);
            reveal(is_scanned_token);
        }
        if let Some(t) = self.valid_keyword() {
            return Ok(t);
        }
        if let Some(t) = self.valid_identifier() {
            return Ok(t);
        }
        if let Some(t) = self.valid_operator() {
            return Ok(t);
        }
        if let Some(t) = self.valid_separator() {
            return Ok(t);
        }
        if let Some(t) = self.valid_space() {
            return Ok(t);
        }
        if let Some(t) = self.valid_single_line_comment() {
            return Ok(t);
        }
        let start = self.position;
        let c = self.eat_char();
        let mut lexeme = String::new();
        push_char(&mut lexeme, c);
        proof {
            assert(lexeme@ =~= self.code@.subrange(start as int, self.position as int));
        }
        Err(Token::new(TokenKind::Unknown, start, self.position, lexeme))
    }

    /// Drains the source from the cursor to its end and returns every token
    /// scanned on the way, `Unknown` ones included. The tokens cover the rest
    /// of the source without gap or overlap: their lexemes join to exactly that
    /// text and their spans add up to its length.
    pub fn lex(&mut self) -> (r: Vec<Token>)
        requires
            old(self).wf(),
        ensures
            final(self).wf(),
            final(self).source() == old(self).source(),
            final(self).pos() == old(self).source().len(),
            is_scan_from(old(self).source(), old(self).pos(), r@),
            concat_lexemes(r@) == old(self).source().subrange(
                old(self).pos(),
                old(self).source().len() as int,
            ),
            total_span(r@) == old(self).source().len() - old(self).pos(),
    {
        let ghost s = self.code@;
        let ghost from = self.position as int;
        let mut toks: Vec<Token> = Vec::new();
        proof {
            assert(s.subrange(from, from) =~= Seq::<char>::empty());
        }
        while self.is_bound()
            invariant
                self.wf(),
                self.code@ == s,
                0 <= from <= self.pos() <= s.len(),
                is_scan_between(s, from, self.pos(), toks@),
                concat_lexemes(toks@) == s.subrange(from, self.pos()),
                total_span(toks@) == self.pos() - from,
            decreases s.len() - self.pos(),
        {
            let ghost before = toks@;
            let ghost p = self.position as int;
            let t = match self.lex_next() {
                Ok(t) => t,
                Err(t) => t,
            };
            toks.push(t);
            proof {
                lemma_scan_extend(s, from, p, before, t);
            }
        }
        toks
    }
    /// True once the cursor has reached the end of the source.
    pub fn at_end(&self) -> (r: bool)
        requires
            self.wf(),
        ensures
            r == (self.pos() >= self.source().len()),
    {
        !self.is_bound()
    }

    /// Offset of the cursor in the source, in characters.
    pub fn position(&self) -> (r: usize)
        requires
            self.wf(),
        ensures
            r == self.pos(),
    {
        self.position
    }

    /// Line of the cursor, counted from 1.
    pub fn line(&self) -> (r: usize)
        requires
            self.wf(),
        ensures
            r == line_at(self.source(), self.pos()),
    {
        self.line
    }

    /// Column of the cursor, counted from 0 after the last newline.
    pub fn column(&self) -> (r: usize)
        requires
            self.wf(),
        ensures
            r == column_at(self.source(), self.pos()),
    {
        self.column
    }
}

} // verus!

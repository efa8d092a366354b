use vstd::prelude::*;
use crate::text::{chars_of, copy_range, same_chars};
use crate::token::{Token, TokenType};

verus! {

pub open spec fn is_digit_char(c: char) -> bool {
    '0' <= c && c <= '9'
}

pub open spec fn is_alpha_char(c: char) -> bool {
    ('a' <= c && c <= 'z') || ('A' <= c && c <= 'Z') || c == '_'
}

pub open spec fn is_ident_char(c: char) -> bool {
    is_alpha_char(c) || is_digit_char(c)
}

/// The first index at or after `pos` whose character does not satisfy `p`
/// (or the length of `src`).
pub open spec fn run_end(src: Seq<char>, pos: int, p: spec_fn(char) -> bool) -> int
    decreases src.len() - pos,
{
    if 0 <= pos < src.len() && p(src[pos]) {
        run_end(src, pos + 1, p)
    } else {
        pos
    }
}

pub open spec fn digits_end(src: Seq<char>, pos: int) -> int {
    run_end(src, pos, |c: char| is_digit_char(c))
}

pub open spec fn ident_end(src: Seq<char>, pos: int) -> int {
    run_end(src, pos, |c: char| is_ident_char(c))
}

pub open spec fn string_end(src: Seq<char>, pos: int) -> int {
    run_end(src, pos, |c: char| c != '"')
}

pub open spec fn count_newlines(s: Seq<char>) -> int
    decreases s.len(),
{
    if s.len() == 0 {
        0
    } else {
        count_newlines(s.drop_last()) + if s.last() == '\n' { 1int } else { 0int }
    }
}

/// Position and line reached after skipping blanks, newlines and line comments.
pub open spec fn skip_ws(src: Seq<char>, pos: int, line: int) -> (int, int)
    decreases src.len() - pos,
{
    if 0 <= pos < src.len() {
        let c = src[pos];
        if c == ' ' || c == '\r' || c == '\t' {
            skip_ws(src, pos + 1, line)
        } else if c == '\n' {
            skip_ws(src, pos + 1, line + 1)
        } else if c == '/' && pos + 1 < src.len() && src[pos + 1] == '/' {
            skip_comment(src, pos + 2, line)
        } else {
            (pos, line)
        }
    } else {
        (pos, line)
    }
}

/// Position and line reached after skipping blanks and newlines only.
pub open spec fn skip_blanks(src: Seq<char>, pos: int, line: int) -> (int, int)
    decreases src.len() - pos,
{
    if 0 <= pos < src.len() {
        let c = src[pos];
        if c == ' ' || c == '\r' || c == '\t' {
            skip_blanks(src, pos + 1, line)
        } else if c == '\n' {
            skip_blanks(src, pos + 1, line + 1)
        } else {
            (pos, line)
        }
    } else {
        (pos, line)
    }
}

/// Skipping blanks first changes nothing of where `skip_ws` ends, and leaves
/// the position at the end or at a character that is not blank.
pub proof fn lemma_skip_blanks(src: Seq<char>, pos: int, line: int)
    requires
        0 <= pos <= src.len(),
    ensures
        ({
            let b = skip_blanks(src, pos, line);
            &&& pos <= b.0 <= src.len()
            &&& skip_ws(src, pos, line) == skip_ws(src, b.0, b.1)
            &&& b.0 < src.len() ==> src[b.0] != ' ' && src[b.0] != '\r' && src[b.0] != '\t'
                && src[b.0] != '\n'
        }),
    decreases src.len() - pos,
{
    if pos < src.len() {
        let c = src[pos];
        if c == ' ' || c == '\r' || c == '\t' {
            lemma_skip_blanks(src, pos + 1, line);
        } else if c == '\n' {
            lemma_skip_blanks(src, pos + 1, line + 1);
        }
    }
}

/// Skipping the rest of a line comment, then whatever follows it.
pub open spec fn skip_comment(src: Seq<char>, pos: int, line: int) -> (int, int)
    decreases src.len() - pos,
{
    if 0 <= pos < src.len() {
        if src[pos] == '\n' {
            skip_ws(src, pos + 1, line + 1)
        } else {
            skip_comment(src, pos + 1, line)
        }
    } else {
        (pos, line)
    }
}

/// The kind of an identifier-shaped lexeme: a keyword's kind on an exact match.
pub open spec fn keyword_kind(w: Seq<char>) -> TokenType {
    if w == "and"@ {
        TokenType::AND
    } else if w == "class"@ {
        TokenType::CLASS
    } else if w == "else"@ {
        TokenType::ELSE
    } else if w == "false"@ {
        TokenType::FALSE
    } else if w == "for"@ {
        TokenType::FOR
    } else if w == "fun"@ {
        TokenType::FUN
    } else if w == "if"@ {
        TokenType::IF
    } else if w == "nil"@ {
        TokenType::NIL
    } else if w == "or"@ {
        TokenType::OR
    } else if w == "print"@ {
        TokenType::PRINT
    } else if w == "return"@ {
        TokenType::RETURN
    } else if w == "super"@ {
        TokenType::SUPER
    } else if w == "this"@ {
        TokenType::THIS
    } else if w == "true"@ {
        TokenType::TRUE
    } else if w == "var"@ {
        TokenType::VAR
    } else if w == "while"@ {
        TokenType::WHILE
    } else {
        TokenType::IDENTIFIER
    }
}

/// The kind of a one-character token, if `c` is one.
pub open spec fn single_kind(c: char) -> Option<TokenType> {
    if c == '(' {
        Some(TokenType::LEFT_PAREN)
    } else if c == ')' {
        Some(TokenType::RIGHT_PAREN)
    } else if c == '{' {
        Some(TokenType::LEFT_BRACE)
    } else if c == '}' {
        Some(TokenType::RIGHT_BRACE)
    } else if c == ';' {
        Some(TokenType::SEMICOLON)
    } else if c == ',' {
        Some(TokenType::COMMA)
    } else if c == '.' {
        Some(TokenType::DOT)
    } else if c == '-' {
        Some(TokenType::MINUS)
    } else if c == '+' {
        Some(TokenType::PLUS)
    } else if c == '/' {
        Some(TokenType::SLASH)
    } else if c == '*' {
        Some(TokenType::STAR)
    } else {
        None
    }
}

/// For a character that may be followed by `=`: the kinds without and with it.
pub open spec fn pair_kinds(c: char) -> Option<(TokenType, TokenType)> {
    if c == '!' {
        Some((TokenType::BANG, TokenType::BANG_EQUAL))
    } else if c == '=' {
        Some((TokenType::EQUAL, TokenType::EQUAL_EQUAL))
    } else if c == '<' {
        Some((TokenType::LESS, TokenType::LESS_EQUAL))
    } else if c == '>' {
        Some((TokenType::GREATER, TokenType::GREATER_EQUAL))
    } else {
        None
    }
}

/// End of a numeric literal whose first digit stands at `s`.
pub open spec fn number_end(src: Seq<char>, s: int) -> int {
    let d = digits_end(src, s + 1);
    if d + 1 < src.len() && src[d] == '.' && is_digit_char(src[d + 1]) {
        digits_end(src, d + 1)
    } else {
        d
    }
}

/// The token that starts at `s` (no blank there), on line `line`: its kind,
/// its lexeme (the message for an error token), its line, and the position
/// and line after it.
pub open spec fn lex_at(src: Seq<char>, s: int, line: int) -> (TokenType, Seq<char>, int, int, int) {
    if s >= src.len() {
        (TokenType::EOF, Seq::empty(), line, s, line)
    } else {
        let c = src[s];
        if single_kind(c) is Some {
            (single_kind(c)->0, src.subrange(s, s + 1), line, s + 1, line)
        } else if pair_kinds(c) is Some {
            if s + 1 < src.len() && src[s + 1] == '=' {
                ((pair_kinds(c)->0).1, src.subrange(s, s + 2), line, s + 2, line)
            } else {
                ((pair_kinds(c)->0).0, src.subrange(s, s + 1), line, s + 1, line)
            }
        } else if c == '"' {
            let e = string_end(src, s + 1);
            let l = line + count_newlines(src.subrange(s + 1, e));
            if e >= src.len() {
                (TokenType::ERROR, "Unterminated string."@, l, e, l)
            } else {
                (TokenType::STRING, src.subrange(s, e + 1), l, e + 1, l)
            }
        } else if is_alpha_char(c) {
            let e = ident_end(src, s + 1);
            (keyword_kind(src.subrange(s, e)), src.subrange(s, e), line, e, line)
        } else if is_digit_char(c) {
            let e = number_end(src, s);
            (TokenType::NUMBER, src.subrange(s, e), line, e, line)
        } else {
            (TokenType::ERROR, "Unexpected character: "@.push(c), line, s + 1, line)
        }
    }
}

/// The next token of `src` from position `pos` on line `line`, as `lex_at`
/// describes it, after blanks and comments are skipped.
pub open spec fn scan_spec(src: Seq<char>, pos: int, line: int) -> (TokenType, Seq<char>, int, int, int) {
    lex_at(src, skip_ws(src, pos, line).0, skip_ws(src, pos, line).1)
}

/// Once the source is used up, scanning gives an empty end-of-input token on
/// the same line and stays where it is, however often it is repeated.
pub proof fn lemma_end_of_input_repeats(src: Seq<char>, line: int)
    ensures
        scan_spec(src, src.len() as int, line) == (
            TokenType::EOF,
            Seq::<char>::empty(),
            line,
            src.len() as int,
            line,
        ),
{
}

pub proof fn lemma_skip_bounds(src: Seq<char>, pos: int, line: int)
    requires
        0 <= pos <= src.len(),
        1 <= line <= pos + 1,
    ensures
        pos <= skip_ws(src, pos, line).0 <= src.len(),
        line <= skip_ws(src, pos, line).1 <= skip_ws(src, pos, line).0 + 1,
    decreases src.len() - pos,
{
    if pos < src.len() {
        let c = src[pos];
        if c == ' ' || c == '\r' || c == '\t' {
            lemma_skip_bounds(src, pos + 1, line);
        } else if c == '\n' {
            lemma_skip_bounds(src, pos + 1, line + 1);
        } else if c == '/' && pos + 1 < src.len() && src[pos + 1] == '/' {
            lemma_comment_bounds(src, pos + 2, line);
        }
    }
}

pub proof fn lemma_comment_bounds(src: Seq<char>, pos: int, line: int)
    requires
        0 <= pos <= src.len(),
        1 <= line <= pos + 1,
    ensures
        pos <= skip_comment(src, pos, line).0 <= src.len(),
        line <= skip_comment(src, pos, line).1 <= skip_comment(src, pos, line).0 + 1,
    decreases src.len() - pos,
{
    if pos < src.len() {
        if src[pos] == '\n' {
            lemma_skip_bounds(src, pos + 1, line + 1);
        } else {
            lemma_comment_bounds(src, pos + 1, line);
        }
    }
}

pub proof fn lemma_count_newlines_bound(s: Seq<char>)
    ensures
        0 <= count_newlines(s) <= s.len(),
    decreases s.len(),
{
    if s.len() > 0 {
        lemma_count_newlines_bound(s.drop_last());
    }
}

/// Turns source text into tokens, one per call of `scan_token`.
pub struct Scanner {
    pub start: usize,
    pub current: usize,
    pub line: usize,
    pub source: Vec<char>,
}

fn is_digit(c: char) -> (r: bool)
    ensures
        r == is_digit_char(c),
{
    '0' <= c && c <= '9'
}

fn is_alpha(c: char) -> (r: bool)
    ensures
        r == is_alpha_char(c),
{
    ('a' <= c && c <= 'z') || ('A' <= c && c <= 'Z') || c == '_'
}

/// The kind of an identifier-shaped lexeme, looked up by exact match.
fn identifier_type(w: &Vec<char>) -> (r: TokenType)
    ensures
        r == keyword_kind(w@),
{
    if same_chars(w, "and") {
        TokenType::AND
    } else if same_chars(w, "class") {
        TokenType::CLASS
    } else if same_chars(w, "else") {
        TokenType::ELSE
    } else if same_chars(w, "false") {
        TokenType::FALSE
    } else if same_chars(w, "for") {
        TokenType::FOR
    } else if same_chars(w, "fun") {
        TokenType::FUN
    } else if same_chars(w, "if") {
        TokenType::IF
    } else if same_chars(w, "nil") {
        TokenType::NIL
    } else if same_chars(w, "or") {
        TokenType::OR
    } else if same_chars(w, "print") {
        TokenType::PRINT
    } else if same_chars(w, "return") {
        TokenType::RETURN
    } else if same_chars(w, "super") {
        TokenType::SUPER
    } else if same_chars(w, "this") {
        TokenType::THIS
    } else if same_chars(w, "true") {
        TokenType::TRUE
    } else if same_chars(w, "var") {
        TokenType::VAR
    } else if same_chars(w, "while") {
        TokenType::WHILE
    } else {
        TokenType::IDENTIFIER
    }
}

impl Scanner {
    /// Positions within the source, and a line count no larger than the
    /// number of characters read so far allows.
    pub open spec fn wf(&self) -> bool {
        &&& self.start <= self.current <= self.source@.len()
        &&& self.source@.len() < usize::MAX
        &&& 1 <= self.line <= self.current + 1
    }

    pub fn new(source: String) -> (r: Scanner)
        requires
            source@.len() < usize::MAX,
        ensures
            r.wf(),
            r.source@ == source@,
            r.start == 0,
            r.current == 0,
            r.line == 1,
    {
        Scanner { start: 0, current: 0, line: 1, source: chars_of(source.as_str()) }
    }

    fn make_token(&self, token_type: TokenType) -> (r: Token)
        requires
            self.wf(),
        ensures
            r.token_type == token_type,
            r.lexeme@ == self.source@.subrange(self.start as int, self.current as int),
            r.line == self.line,
    {
        Token::new(token_type, copy_range(&self.source, self.start, self.current), self.line)
    }

    fn error_token(&self, message: Vec<char>) -> (r: Token)
        ensures
            r.token_type == TokenType::ERROR,
            r.lexeme@ == message@,
            r.line == self.line,
    {
        Token::new(TokenType::ERROR, message, self.line)
    }

    fn is_at_end(&self) -> (r: bool)
        ensures
            r == (self.current >= self.source@.len()),
    {
        self.current >= self.source.len()
    }

    fn advance(&mut self) -> (r: char)
        requires
            old(self).wf(),
            old(self).current < old(self).source@.len(),
        ensures
            r == old(self).source@[old(self).current as int],
            final(self).current == old(self).current + 1,
            final(self).source@ == old(self).source@,
            final(self).line == old(self).line,
            final(self).start == old(self).start,
            final(self).wf(),
    {
        let c = self.source[self.current];
        self.current = self.current + 1;
        c
    }

    fn expect(&mut self, expected: char) -> (r: bool)
        requires
            old(self).wf(),
        ensures
            r == (old(self).current < old(self).source@.len()
                && old(self).source@[old(self).current as int] == expected),
            final(self).current == old(self).current + if r { 1int } else { 0int },
            final(self).source@ == old(self).source@,
            final(self).line == old(self).line,
            final(self).start == old(self).start,
            final(self).wf(),
    {
        if self.is_at_end() {
            return false;
        }
        if self.source[self.current] != expected {
            return false;
        }
        self.current = self.current + 1;
        true
    }

    fn peek(&self) -> (r: char)
        ensures
            r == if self.current < self.source@.len() {
                self.source@[self.current as int]
            } else {
                '\0'
            },
    {
        if self.is_at_end() {
            return '\0';
        }
        self.source[self.current]
    }

    fn peek_next(&self) -> (r: char)
        requires
            self.wf(),
        ensures
            r == if self.current + 1 < self.source@.len() {
                self.source@[self.current + 1]
            } else {
                '\0'
            },
    {
        if self.current + 1 >= self.source.len() {
            return '\0';
        }
        self.source[self.current + 1]
    }

    /// Skips blanks (space, tab, carriage return) and newlines, counting the
    /// newlines; stops at the first other character or at the end.
    fn skip_whitespace(&mut self)
        requires
            old(self).wf(),
        ensures
            final(self).wf(),
            final(self).source@ == old(self).source@,
            final(self).start == old(self).start,
            (final(self).current as int, final(self).line as int) == skip_blanks(
                old(self).source@,
                old(self).current as int,
                old(self).line as int,
            ),
    {
        let ghost target = skip_blanks(self.source@, self.current as int, self.line as int);
        let ghost src = self.source@;
        let ghost start = self.start;
        loop
            invariant
                self.wf(),
                self.source@ == src,
                self.start == start,
                src == old(self).source@,
                start == old(self).start,
                target == skip_blanks(src, old(self).current as int, old(self).line as int),
                skip_blanks(src, self.current as int, self.line as int) == target,
            decreases src.len() - self.current,
        {
            let c = self.peek();
            if c == ' ' || c == '\r' || c == '\t' {
                self.advance();
            } else if c == '\n' {
                self.advance();
                self.line = self.line + 1;
            } else {
                return;
            }
        }
    }

    /// Skips blanks, newlines and line comments, in any order, as `skip_ws`
    /// describes.
    fn skip_blanks_and_comments(&mut self)
        requires
            old(self).wf(),
        ensures
            final(self).wf(),
            final(self).source@ == old(self).source@,
            final(self).start == old(self).start,
            (final(self).current as int, final(self).line as int) == skip_ws(
                old(self).source@,
                old(self).current as int,
                old(self).line as int,
            ),
    {
        let ghost target = skip_ws(self.source@, self.current as int, self.line as int);
        let ghost src = self.source@;
        let ghost start = self.start;
        loop
            invariant
                self.wf(),
                self.source@ == src,
                self.start == start,
                src == old(self).source@,
                start == old(self).start,
                target == skip_ws(src, old(self).current as int, old(self).line as int),
                skip_ws(src, self.current as int, self.line as int) == target,
            decreases src.len() - self.current,
        {
            let ghost before = self.current;
            proof {
                lemma_skip_blanks(src, self.current as int, self.line as int);
            }
            self.skip_whitespace();
            if self.peek() == '/' && self.peek_next() == '/' {
                self.advance();
                self.advance();
                while self.peek() != '\n' && !self.is_at_end()
                    invariant
                        self.wf(),
                        self.source@ == src,
                        self.start == start,
                        src == old(self).source@,
                        start == old(self).start,
                        target == skip_ws(src, old(self).current as int, old(self).line as int),
                        skip_comment(src, self.current as int, self.line as int) == target,
                        self.current >= before + 2,
                    decreases src.len() - self.current,
                {
                    self.advance();
                }
            } else {
                return;
            }
        }
    }

    fn string(&mut self) -> (r: Token)
        requires
            old(self).wf(),
            old(self).current == old(self).start + 1,
            old(self).source@[old(self).start as int] == '"',
        ensures
            final(self).wf(),
            final(self).source@ == old(self).source@,
            final(self).start == old(self).start,
            final(self).current > old(self).start,
            final(self).line >= old(self).line,
            ({
                let t = lex_at(old(self).source@, old(self).start as int, old(self).line as int);
                &&& r.token_type == t.0
                &&& r.lexeme@ == t.1
                &&& r.line == t.2
                &&& final(self).current == t.3
                &&& final(self).line == t.4
            }),
    {
        let ghost src = self.source@;
        let ghost s = self.start as int;
        let ghost line0 = self.line as int;
        let ghost e = string_end(src, s + 1);
        proof {
            assert(src.subrange(s + 1, s + 1) =~= Seq::<char>::empty());
        }
        while self.peek() != '"' && !self.is_at_end()
            invariant
                self.wf(),
                self.source@ == src,
                self.start == s,
                s + 1 <= self.current,
                string_end(src, self.current as int) == e,
                self.line == line0 + count_newlines(src.subrange(s + 1, self.current as int)),
                self.line >= line0,
                line0 == old(self).line,
            decreases src.len() - self.current,
        {
            let ghost cur = self.current as int;
            let c = self.advance();
            if c == '\n' {
                self.line = self.line + 1;
            }
            proof {
                lemma_count_newlines_bound(src.subrange(s + 1, self.current as int));
            }
            assert(src.subrange(s + 1, cur + 1).drop_last() =~= src.subrange(s + 1, cur));
        }
        if self.is_at_end() {
            return self.error_token(chars_of("Unterminated string."));
        }
        self.advance();
        self.make_token(TokenType::STRING)
    }

    fn identifier(&mut self) -> (r: Token)
        requires
            old(self).wf(),
            old(self).current == old(self).start + 1,
            is_alpha_char(old(self).source@[old(self).start as int]),
        ensures
            final(self).wf(),
            final(self).source@ == old(self).source@,
            final(self).start == old(self).start,
            final(self).current > old(self).start,
            final(self).line >= old(self).line,
            ({
                let t = lex_at(old(self).source@, old(self).start as int, old(self).line as int);
                &&& r.token_type == t.0
                &&& r.lexeme@ == t.1
                &&& r.line == t.2
                &&& final(self).current == t.3
                &&& final(self).line == t.4
            }),
    {
        let ghost src = self.source@;
        let ghost s = self.start as int;
        let ghost e = ident_end(src, s + 1);
        while is_alpha(self.peek()) || is_digit(self.peek())
            invariant
                self.wf(),
                self.source@ == src,
                self.start == s,
                ident_end(src, self.current as int) == e,
                e == ident_end(src, s + 1),
                src == old(self).source@,
                s == old(self).start,
                self.line == old(self).line,
                s + 1 <= self.current,
            decreases src.len() - self.current,
        {
            self.advance();
        }
        assert(self.current as int == e);
        let lexeme = copy_range(&self.source, self.start, self.current);
        let kind = identifier_type(&lexeme);
        assert(single_kind(src[s]) is None);
        assert(pair_kinds(src[s]) is None);
        Token::new(kind, lexeme, self.line)
    }

    fn number(&mut self) -> (r: Token)
        requires
            old(self).wf(),
            old(self).current == old(self).start + 1,
            is_digit_char(old(self).source@[old(self).start as int]),
        ensures
            final(self).wf(),
            final(self).source@ == old(self).source@,
            final(self).start == old(self).start,
            final(self).current > old(self).start,
            final(self).line >= old(self).line,
            ({
                let t = lex_at(old(self).source@, old(self).start as int, old(self).line as int);
                &&& r.token_type == t.0
                &&& r.lexeme@ == t.1
                &&& r.line == t.2
                &&& final(self).current == t.3
                &&& final(self).line == t.4
            }),
    {
        let ghost src = self.source@;
        let ghost s = self.start as int;
        let ghost d = digits_end(src, s + 1);
        while is_digit(self.peek())
            invariant
                self.wf(),
                self.source@ == src,
                self.start == s,
                digits_end(src, self.current as int) == d,
                d == digits_end(src, s + 1),
                src == old(self).source@,
                s == old(self).start,
                self.line == old(self).line,
                s + 1 <= self.current,
            decreases src.len() - self.current,
        {
            self.advance();
        }
        if self.peek() == '.' && is_digit(self.peek_next()) {
            self.advance();
            assert(self.current as int == d + 1);
            let ghost e = digits_end(src, self.current as int);
            while is_digit(self.peek())
                invariant
                    self.wf(),
                    self.source@ == src,
                    self.start == s,
                    digits_end(src, self.current as int) == e,
                    e == digits_end(src, d + 1),
                    d == digits_end(src, s + 1),
                    src == old(self).source@,
                    s == old(self).start,
                    self.line == old(self).line,
                    s + 1 <= self.current,
                decreases src.len() - self.current,
            {
                self.advance();
            }
        }
        self.make_token(TokenType::NUMBER)
    }

    /// Scans the next token, skipping blanks and comments before it. At the end
    /// of the source it returns an end-of-input token, and keeps doing so.
    pub fn scan_token(&mut self) -> (r: Token)
        requires
            old(self).wf(),
        ensures
            final(self).wf(),
            final(self).source@ == old(self).source@,
            final(self).start as int == skip_ws(
                old(self).source@,
                old(self).current as int,
                old(self).line as int,
            ).0,
            ({
                let t = scan_spec(old(self).source@, old(self).current as int, old(self).line as int);
                &&& r.token_type == t.0
                &&& r.lexeme@ == t.1
                &&& r.line == t.2
                &&& final(self).current == t.3
                &&& final(self).line == t.4
            }),
            r.token_type == TokenType::EOF ==> final(self).current == old(self).source@.len(),
            r.token_type != TokenType::EOF ==> final(self).current > old(self).current,
            old(self).line <= final(self).line,
    {
        proof {
            lemma_skip_bounds(self.source@, self.current as int, self.line as int);
        }
        self.skip_blanks_and_comments();
        self.start = self.current;
        if self.is_at_end() {
            return self.make_token(TokenType::EOF);
        }
        let c = self.advance();
        if c == '(' {
            self.make_token(TokenType::LEFT_PAREN)
        } else if c == ')' {
            self.make_token(TokenType::RIGHT_PAREN)
        } else if c == '{' {
            self.make_token(TokenType::LEFT_BRACE)
        } else if c == '}' {
            self.make_token(TokenType::RIGHT_BRACE)
        } else if c == ';' {
            self.make_token(TokenType::SEMICOLON)
        } else if c == ',' {
            self.make_token(TokenType::COMMA)
        } else if c == '.' {
            self.make_token(TokenType::DOT)
        } else if c == '-' {
            self.make_token(TokenType::MINUS)
        } else if c == '+' {
            self.make_token(TokenType::PLUS)
        } else if c == '/' {
            self.make_token(TokenType::SLASH)
        } else if c == '*' {
            self.make_token(TokenType::STAR)
        } else if c == '!' {
            if self.expect('=') {
                self.make_token(TokenType::BANG_EQUAL)
            } else {
                self.make_token(TokenType::BANG)
            }
        } else if c == '=' {
            if self.expect('=') {
                self.make_token(TokenType::EQUAL_EQUAL)
            } else {
                self.make_token(TokenType::EQUAL)
            }
        } else if c == '<' {
            if self.expect('=') {
                self.make_token(TokenType::LESS_EQUAL)
            } else {
                self.make_token(TokenType::LESS)
            }
        } else if c == '>' {
            if self.expect('=') {
                self.make_token(TokenType::GREATER_EQUAL)
            } else {
                self.make_token(TokenType::GREATER)
            }
        } else if c == '"' {
            self.string()
        } else if is_alpha(c) {
            self.identifier()
        } else if is_digit(c) {
            self.number()
        } else {
            let mut message = chars_of("Unexpected character: ");
            message.push(c);
            self.error_token(message)
        }
    }
}

} // verus!

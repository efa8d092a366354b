use vstd::prelude::*;
use crate::scanner::{Scanner, scan_spec};
use crate::text::chars_of;
use crate::token::{Token, TokenType};

verus! {

/// Where a diagnostic points: at the end of input, at a lexical error (whose
/// text is the message itself), or at a token's lexeme.
#[derive(Debug, Clone, Copy, PartialEq, Eq, Structural)]
pub enum ErrorSite {
    AtEnd,
    Lexical,
    AtLexeme,
}

/// A recorded syntax or lexical error.
#[derive(Debug, Clone)]
pub struct Diagnostic {
    pub line: usize,
    pub site: ErrorSite,
    pub lexeme: Vec<char>,
    pub message: Vec<char>,
}

impl View for Diagnostic {
    type V = (int, ErrorSite, Seq<char>, Seq<char>);

    open spec fn view(&self) -> (int, ErrorSite, Seq<char>, Seq<char>) {
        (self.line as int, self.site, self.lexeme@, self.message@)
    }
}

/// The site a diagnostic about a token of this kind points at.
pub open spec fn site_of(kind: TokenType) -> ErrorSite {
    if kind == TokenType::EOF {
        ErrorSite::AtEnd
    } else if kind == TokenType::ERROR {
        ErrorSite::Lexical
    } else {
        ErrorSite::AtLexeme
    }
}

/// The next token that is not a lexical error, with the scanner position and
/// line after it: error tokens met on the way are passed over.
pub open spec fn next_good(src: Seq<char>, pos: int, line: int) -> (
    TokenType,
    Seq<char>,
    int,
    int,
    int,
)
    decreases src.len() - pos,
{
    let t = scan_spec(src, pos, line);
    if t.0 == TokenType::ERROR && pos < t.3 <= src.len() {
        next_good(src, t.3, t.4)
    } else {
        t
    }
}

/// Holds the previous token, the current one (one token of lookahead), and
/// the error state. Before the first `advance` both tokens are an empty
/// end-of-input token on line 1.
pub struct Parser {
    pub scanner: Scanner,
    pub previous: Token,
    pub current: Token,
    pub had_error: bool,
    pub panic_mode: bool,
    pub diagnostics: Vec<Diagnostic>,
}

/// What `advance` records when the first token it scans is a lexical error:
/// a diagnostic whose lexeme and message are the error text, unless panic
/// mode was already on.
pub open spec fn lexical_report(
    before: Seq<(int, ErrorSite, Seq<char>, Seq<char>)>,
    after: Seq<(int, ErrorSite, Seq<char>, Seq<char>)>,
    was_panicking: bool,
    first: (TokenType, Seq<char>, int, int, int),
) -> bool {
    if first.0 == TokenType::ERROR && !was_panicking {
        after == before.push((first.2, ErrorSite::Lexical, first.1, first.1))
    } else {
        after == before
    }
}

impl Parser {
    pub open spec fn diagnostics_view(&self) -> Seq<(int, ErrorSite, Seq<char>, Seq<char>)> {
        self.diagnostics@.map_values(|d: Diagnostic| d@)
    }

    /// No token held is a lexical error; the error flag is set exactly when a
    /// diagnostic was recorded, and panic mode only after one.
    pub open spec fn wf(&self) -> bool {
        &&& self.scanner.wf()
        &&& self.previous.token_type != TokenType::ERROR
        &&& self.current.token_type != TokenType::ERROR
        &&& self.had_error == (self.diagnostics@.len() > 0)
        &&& self.panic_mode == self.had_error
    }

    /// A quantity that every `advance` past a token other than end-of-input
    /// makes smaller.
    pub open spec fn measure(&self) -> nat {
        (2 * (self.scanner.source@.len() - self.scanner.current) + if self.current.token_type
            == TokenType::EOF {
            0int
        } else {
            1int
        }) as nat
    }

    pub fn new(scanner: Scanner) -> (r: Parser)
        requires
            scanner.wf(),
        ensures
            r.wf(),
            r.scanner == scanner,
            r.previous@ == (TokenType::EOF, Seq::<char>::empty(), 1int),
            r.current@ == (TokenType::EOF, Seq::<char>::empty(), 1int),
            !r.had_error,
            !r.panic_mode,
            r.diagnostics@.len() == 0,
    {
        Parser {
            scanner,
            previous: Token::new(TokenType::EOF, Vec::new(), 1),
            current: Token::new(TokenType::EOF, Vec::new(), 1),
            had_error: false,
            panic_mode: false,
            diagnostics: Vec::new(),
        }
    }

    /// Records a diagnostic about `token`, unless panic mode is on; then
    /// enters panic mode.
    fn error_at(&mut self, token: &Token, message: Vec<char>)
        requires
            old(self).wf(),
        ensures
            final(self).wf(),
            final(self).scanner == old(self).scanner,
            final(self).previous == old(self).previous,
            final(self).current == old(self).current,
            final(self).panic_mode,
            final(self).had_error,
            old(self).panic_mode ==> final(self).diagnostics_view() == old(self).diagnostics_view(),
            !old(self).panic_mode ==> final(self).diagnostics_view() == old(self).diagnostics_view().push(
                (token.line as int, site_of(token.token_type), token.lexeme@, message@),
            ),
    {
        if self.panic_mode {
            return;
        }
        self.panic_mode = true;
        let site = if token.token_type == TokenType::EOF {
            ErrorSite::AtEnd
        } else if token.token_type == TokenType::ERROR {
            ErrorSite::Lexical
        } else {
            ErrorSite::AtLexeme
        };
        let d = Diagnostic { line: token.line, site, lexeme: token.lexeme.clone(), message };
        self.diagnostics.push(d);
        self.had_error = true;
        proof {
            assert(self.diagnostics_view() =~= old(self).diagnostics_view().push(d@));
        }
    }

    /// Reports an error at the current token.
    fn error_at_current(&mut self, message: Vec<char>)
        requires
            old(self).wf(),
        ensures
            final(self).wf(),
            final(self).scanner == old(self).scanner,
            final(self).previous == old(self).previous,
            final(self).current == old(self).current,
            final(self).panic_mode,
            final(self).had_error,
            old(self).panic_mode ==> final(self).diagnostics_view() == old(self).diagnostics_view(),
            !old(self).panic_mode ==> final(self).diagnostics_view() == old(self).diagnostics_view().push(
                (
                    old(self).current.line as int,
                    site_of(old(self).current.token_type),
                    old(self).current.lexeme@,
                    message@,
                ),
            ),
    {
        let token = self.current.duplicate();
        self.error_at(&token, message);
    }

    /// Reports an error at the previous token.
    pub fn error(&mut self, message: &str)
        requires
            old(self).wf(),
        ensures
            final(self).wf(),
            final(self).scanner == old(self).scanner,
            final(self).previous == old(self).previous,
            final(self).current == old(self).current,
            final(self).panic_mode,
            final(self).had_error,
            old(self).panic_mode ==> final(self).diagnostics_view() == old(self).diagnostics_view(),
            !old(self).panic_mode ==> final(self).diagnostics_view() == old(self).diagnostics_view().push(
                (
                    old(self).previous.line as int,
                    site_of(old(self).previous.token_type),
                    old(self).previous.lexeme@,
                    message@,
                ),
            ),
    {
        let token = self.previous.duplicate();
        self.error_at(&token, chars_of(message));
    }

    pub fn previous(&self) -> (r: &Token)
        ensures
            r == &self.previous,
    {
        &self.previous
    }

    pub fn current(&self) -> (r: &Token)
        ensures
            r == &self.current,
    {
        &self.current
    }

    pub fn previous_line(&self) -> (r: usize)
        ensures
            r == self.previous.line,
    {
        self.previous.line
    }

    /// Moves to the next token: the current one becomes the previous one, and
    /// the next token that is not a lexical error becomes current. A lexical
    /// error on the way is reported (the first one only: reporting it enters
    /// panic mode).
    pub fn advance(&mut self)
        requires
            old(self).wf(),
        ensures
            final(self).wf(),
            final(self).scanner.source@ == old(self).scanner.source@,
            final(self).previous@ == old(self).current@,
            ({
                let t = next_good(
                    old(self).scanner.source@,
                    old(self).scanner.current as int,
                    old(self).scanner.line as int,
                );
                &&& final(self).current@ == (t.0, t.1, t.2)
                &&& final(self).scanner.current == t.3
                &&& final(self).scanner.line == t.4
            }),
            ({
                let first = scan_spec(
                    old(self).scanner.source@,
                    old(self).scanner.current as int,
                    old(self).scanner.line as int,
                );
                &&& lexical_report(
                    old(self).diagnostics_view(),
                    final(self).diagnostics_view(),
                    old(self).panic_mode,
                    first,
                )
                &&& final(self).panic_mode == (old(self).panic_mode || first.0 == TokenType::ERROR)
                &&& final(self).had_error == (old(self).had_error || first.0 == TokenType::ERROR)
            }),
            final(self).measure() <= old(self).measure(),
            old(self).current.token_type != TokenType::EOF ==> final(self).measure() < old(self).measure(),
            final(self).current.token_type == TokenType::EOF ==> final(self).scanner.current == final(self).scanner.source@.len(),
    {
        let ghost src = self.scanner.source@;
        let ghost first = scan_spec(src, self.scanner.current as int, self.scanner.line as int);
        let ghost target = next_good(src, self.scanner.current as int, self.scanner.line as int);
        let ghost seen = false;
        loop
            invariant
                self.wf(),
                self.scanner.source@ == src,
                src == old(self).scanner.source@,
                first == scan_spec(src, old(self).scanner.current as int, old(self).scanner.line as int),
                target == next_good(src, old(self).scanner.current as int, old(self).scanner.line as int),
                next_good(src, self.scanner.current as int, self.scanner.line as int) == target,
                self.scanner.current >= old(self).scanner.current,
                self.previous == old(self).previous,
                self.current == old(self).current,
                !seen ==> self.scanner.current == old(self).scanner.current && self.scanner.line
                    == old(self).scanner.line && self.diagnostics_view() == old(self).diagnostics_view()
                    && self.panic_mode == old(self).panic_mode && self.had_error == old(self).had_error,
                seen ==> first.0 == TokenType::ERROR && self.scanner.current > old(self).scanner.current
                    && lexical_report(
                    old(self).diagnostics_view(),
                    self.diagnostics_view(),
                    old(self).panic_mode,
                    first,
                ) && self.panic_mode && self.had_error,
            decreases src.len() - self.scanner.current,
        {
            let token = self.scanner.scan_token();
            if token.token_type != TokenType::ERROR {
                self.previous = self.current.duplicate();
                self.current = token;
                return;
            }
            let message = token.lexeme.clone();
            self.error_at(&token, message);
            proof {
                seen = true;
            }
        }
    }

    /// Advances past the current token if it has the given kind; otherwise
    /// reports `message` at it.
    pub fn consume(&mut self, token_type: TokenType, message: &str)
        requires
            old(self).wf(),
        ensures
            final(self).wf(),
            final(self).scanner.source@ == old(self).scanner.source@,
            final(self).measure() <= old(self).measure(),
            old(self).had_error ==> final(self).had_error,
            old(self).current.token_type == token_type ==> {
                let t = next_good(
                    old(self).scanner.source@,
                    old(self).scanner.current as int,
                    old(self).scanner.line as int,
                );
                &&& final(self).previous@ == old(self).current@
                &&& final(self).current@ == (t.0, t.1, t.2)
                &&& final(self).scanner.current == t.3
                &&& final(self).scanner.line == t.4
                &&& token_type != TokenType::EOF ==> final(self).measure() < old(self).measure()
                &&& final(self).current.token_type == TokenType::EOF ==> final(self).scanner.current == final(self).scanner.source@.len()
                &&& final(self).had_error == (old(self).had_error || scan_spec(
                    old(self).scanner.source@,
                    old(self).scanner.current as int,
                    old(self).scanner.line as int,
                ).0 == TokenType::ERROR)
                &&& final(self).panic_mode == (old(self).panic_mode || scan_spec(
                    old(self).scanner.source@,
                    old(self).scanner.current as int,
                    old(self).scanner.line as int,
                ).0 == TokenType::ERROR)
                &&& lexical_report(
                    old(self).diagnostics_view(),
                    final(self).diagnostics_view(),
                    old(self).panic_mode,
                    scan_spec(
                        old(self).scanner.source@,
                        old(self).scanner.current as int,
                        old(self).scanner.line as int,
                    ),
                )
            },
            old(self).current.token_type != token_type ==> {
                &&& final(self).scanner == old(self).scanner
                &&& final(self).previous == old(self).previous
                &&& final(self).current == old(self).current
                &&& final(self).had_error
                &&& final(self).panic_mode
                &&& old(self).panic_mode ==> final(self).diagnostics_view() == old(self).diagnostics_view()
                &&& !old(self).panic_mode ==> final(self).diagnostics_view() == old(self).diagnostics_view().push(
                    (
                        old(self).current.line as int,
                        site_of(old(self).current.token_type),
                        old(self).current.lexeme@,
                        message@,
                    ),
                )
            },
    {
        if self.current.token_type == token_type {
            self.advance();
            return;
        }
        self.error_at_current(chars_of(message));
    }
}

/// Binding strengths, weakest first.
#[derive(Debug, Clone, Copy, PartialEq, Eq, Structural)]
pub enum Precedence {
    Lowest,
    Assignment,
    Or,
    And,
    Equality,
    Comparison,
    Term,
    Factor,
    Unary,
    Call,
    Primary,
}

impl Precedence {
    /// The position of this strength in the order, from 0 for `Lowest`.
    pub open spec fn rank(&self) -> nat {
        match self {
            Precedence::Lowest => 0,
            Precedence::Assignment => 1,
            Precedence::Or => 2,
            Precedence::And => 3,
            Precedence::Equality => 4,
            Precedence::Comparison => 5,
            Precedence::Term => 6,
            Precedence::Factor => 7,
            Precedence::Unary => 8,
            Precedence::Call => 9,
            Precedence::Primary => 10,
        }
    }

    pub fn level(&self) -> (r: u8)
        ensures
            r as nat == self.rank(),
    {
        match self {
            Precedence::Lowest => 0,
            Precedence::Assignment => 1,
            Precedence::Or => 2,
            Precedence::And => 3,
            Precedence::Equality => 4,
            Precedence::Comparison => 5,
            Precedence::Term => 6,
            Precedence::Factor => 7,
            Precedence::Unary => 8,
            Precedence::Call => 9,
            Precedence::Primary => 10,
        }
    }

    /// The next stronger binding; after the strongest comes `Lowest` again.
    pub fn next(&self) -> (r: Precedence)
        ensures
            r.rank() == (self.rank() + 1) % 11,
    {
        match self {
            Precedence::Lowest => Precedence::Assignment,
            Precedence::Assignment => Precedence::Or,
            Precedence::Or => Precedence::And,
            Precedence::And => Precedence::Equality,
            Precedence::Equality => Precedence::Comparison,
            Precedence::Comparison => Precedence::Term,
            Precedence::Term => Precedence::Factor,
            Precedence::Factor => Precedence::Unary,
            Precedence::Unary => Precedence::Call,
            Precedence::Call => Precedence::Primary,
            Precedence::Primary => Precedence::Lowest,
        }
    }
}

} // verus!

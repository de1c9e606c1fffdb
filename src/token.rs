use vstd::prelude::*;

verus! {

/// The eight symbols of the language.
#[derive(Clone, Copy, Debug, PartialEq, Eq, Structural)]
pub enum TokenKind {
    Plus,
    Minus,
    LeftBrace,
    RightBrace,
    Dot,
    Comma,
    LeftBracket,
    RightBracket,
}

/// The kind that a character stands for, if it is one of the eight symbols.
pub open spec fn kind_of(c: char) -> Option<TokenKind> {
    if c == '+' {
        Some(TokenKind::Plus)
    } else if c == '-' {
        Some(TokenKind::Minus)
    } else if c == '<' {
        Some(TokenKind::LeftBrace)
    } else if c == '>' {
        Some(TokenKind::RightBrace)
    } else if c == '.' {
        Some(TokenKind::Dot)
    } else if c == ',' {
        Some(TokenKind::Comma)
    } else if c == '[' {
        Some(TokenKind::LeftBracket)
    } else if c == ']' {
        Some(TokenKind::RightBracket)
    } else {
        None
    }
}

impl TokenKind {
    /// The character of each kind.
    pub open spec fn spec_char(self) -> char {
        match self {
            TokenKind::Plus => '+',
            TokenKind::Minus => '-',
            TokenKind::LeftBrace => '<',
            TokenKind::RightBrace => '>',
            TokenKind::Dot => '.',
            TokenKind::Comma => ',',
            TokenKind::LeftBracket => '[',
            TokenKind::RightBracket => ']',
        }
    }

    pub fn to_char(&self) -> (c: char)
        ensures
            c == self.spec_char(),
            kind_of(c) == Some(*self),
    {
        match *self {
            TokenKind::Plus => '+',
            TokenKind::Minus => '-',
            TokenKind::LeftBrace => '<',
            TokenKind::RightBrace => '>',
            TokenKind::Dot => '.',
            TokenKind::Comma => ',',
            TokenKind::LeftBracket => '[',
            TokenKind::RightBracket => ']',
        }
    }
}

/// A classified symbol with its 1-based position in the source.
#[derive(Clone, Copy, Debug, PartialEq, Eq, Structural)]
pub struct Token {
    pub kind: TokenKind,
    pub row: usize,
    pub col: usize,
}

/// An unrecognized character and its 1-based position.
#[derive(Clone, Copy, Debug, PartialEq, Eq, Structural)]
pub struct LexError {
    pub character: char,
    pub row: usize,
    pub col: usize,
}

/// Where the scanner stands within the current line.
#[derive(Clone, Copy, Debug, PartialEq, Eq, Structural)]
pub enum ScanMode {
    /// Only whitespace seen so far on this line.
    LineStart,
    /// A symbol has been seen on this line.
    Body,
    /// The line began with the comment marker; the rest of it is skipped.
    Comment,
}

/// The characters that `char::is_whitespace` accepts (Unicode White_Space).
pub open spec fn is_white(c: char) -> bool {
    ('\u{9}' <= c && c <= '\u{d}') || c == ' ' || c == '\u{85}' || c == '\u{a0}' || c
        == '\u{1680}' || ('\u{2000}' <= c && c <= '\u{200a}') || c == '\u{2028}' || c
        == '\u{2029}' || c == '\u{202f}' || c == '\u{205f}' || c == '\u{3000}'
}

pub fn is_whitespace(c: char) -> (r: bool)
    ensures
        r == is_white(c),
{
    ('\u{9}' <= c && c <= '\u{d}') || c == ' ' || c == '\u{85}' || c == '\u{a0}' || c
        == '\u{1680}' || ('\u{2000}' <= c && c <= '\u{200a}') || c == '\u{2028}' || c
        == '\u{2029}' || c == '\u{202f}' || c == '\u{205f}' || c == '\u{3000}'
}

/// Puts a token in front of a scan result; an error stays as it is.
pub open spec fn prepend(t: Token, rest: Result<Seq<Token>, LexError>) -> Result<
    Seq<Token>,
    LexError,
> {
    match rest {
        Ok(ts) => Ok(seq![t] + ts),
        Err(e) => Err(e),
    }
}

/// The tokens of `s` from index `pos` on, where `lines` lines have ended before `pos`, the
/// current line starts at `line_start`, and `mode` says what the line held so far. A newline
/// ends a line; a line whose first non-whitespace character is `#` is skipped; whitespace is
/// skipped; any other character is a symbol or the first error.
pub open spec fn tokens_from(s: Seq<char>, pos: int, lines: int, line_start: int, mode: ScanMode) -> Result<
    Seq<Token>,
    LexError,
>
    decreases s.len() - pos,
{
    if pos < 0 || pos >= s.len() {
        Ok(Seq::empty())
    } else {
        let c = s[pos];
        if c == '\n' {
            tokens_from(s, pos + 1, lines + 1, pos + 1, ScanMode::LineStart)
        } else if mode == ScanMode::Comment || is_white(c) {
            tokens_from(s, pos + 1, lines, line_start, mode)
        } else if c == '#' && mode == ScanMode::LineStart {
            tokens_from(s, pos + 1, lines, line_start, ScanMode::Comment)
        } else {
            let row = (lines + 1) as usize;
            let col = (pos - line_start + 1) as usize;
            match kind_of(c) {
                Some(k) => prepend(
                    Token { kind: k, row, col },
                    tokens_from(s, pos + 1, lines, line_start, ScanMode::Body),
                ),
                None => Err(LexError { character: c, row, col }),
            }
        }
    }
}

/// A scanner state: position, lines ended before it, start of the current line, mode.
pub type ScanState = (int, int, int, ScanMode);

/// What one scanning step yields from the given state: the first token, or the first
/// unrecognized character as an error, or `None` at the end of the text; and the state just
/// past that character (or at the end). It skips what `tokens_from` skips.
pub open spec fn first_item(s: Seq<char>, pos: int, lines: int, line_start: int, mode: ScanMode) -> (
    Option<Result<Token, LexError>>,
    ScanState,
)
    decreases s.len() - pos,
{
    if pos < 0 || pos >= s.len() {
        (None, (pos, lines, line_start, mode))
    } else {
        let c = s[pos];
        if c == '\n' {
            first_item(s, pos + 1, lines + 1, pos + 1, ScanMode::LineStart)
        } else if mode == ScanMode::Comment || is_white(c) {
            first_item(s, pos + 1, lines, line_start, mode)
        } else if c == '#' && mode == ScanMode::LineStart {
            first_item(s, pos + 1, lines, line_start, ScanMode::Comment)
        } else {
            let row = (lines + 1) as usize;
            let col = (pos - line_start + 1) as usize;
            let item = match kind_of(c) {
                Some(k) => Ok(Token { kind: k, row, col }),
                None => Err(LexError { character: c, row, col }),
            };
            (Some(item), (pos + 1, lines, line_start, ScanMode::Body))
        }
    }
}

/// The tokens of a whole source text, or its first lexical error.
pub open spec fn scan_spec(s: Seq<char>) -> Result<Seq<Token>, LexError> {
    tokens_from(s, 0, 0, 0, ScanMode::LineStart)
}

/// From any scanner state, the tokens come on the current line or later, in row order.
proof fn lemma_tokens_from_rows(s: Seq<char>, pos: int, lines: int, line_start: int, mode: ScanMode)
    requires
        s.len() <= usize::MAX,
        0 <= lines <= pos,
        0 <= line_start <= pos,
    ensures
        tokens_from(s, pos, lines, line_start, mode) is Ok ==> {
            let ts = tokens_from(s, pos, lines, line_start, mode)->Ok_0;
            &&& forall|a: int| 0 <= a < ts.len() ==> #[trigger] ts[a].row >= lines + 1
            &&& forall|a: int, b: int| 0 <= a < b < ts.len() ==> ts[a].row <= ts[b].row
        },
    decreases s.len() - pos,
{
    if 0 <= pos < s.len() {
        let c = s[pos];
        if c == '\n' {
            lemma_tokens_from_rows(s, pos + 1, lines + 1, pos + 1, ScanMode::LineStart);
        } else if mode == ScanMode::Comment || is_white(c) {
            lemma_tokens_from_rows(s, pos + 1, lines, line_start, mode);
        } else if c == '#' && mode == ScanMode::LineStart {
            lemma_tokens_from_rows(s, pos + 1, lines, line_start, ScanMode::Comment);
        } else {
            lemma_tokens_from_rows(s, pos + 1, lines, line_start, ScanMode::Body);
            let rest = tokens_from(s, pos + 1, lines, line_start, ScanMode::Body);
            if rest is Ok && kind_of(c) is Some {
                let t = Token { kind: kind_of(c)->Some_0, row: (lines + 1) as usize, col: (pos
                    - line_start + 1) as usize };
                let ts = seq![t] + rest->Ok_0;
                assert forall|a: int, b: int| 0 <= a < b < ts.len() implies ts[a].row <= ts[b].row by {
                    if a > 0 {
                        assert(ts[a] == rest->Ok_0[a - 1]);
                    }
                    assert(ts[b] == rest->Ok_0[b - 1]);
                }
                assert forall|a: int| 0 <= a < ts.len() implies #[trigger] ts[a].row >= lines + 1 by {
                    if a > 0 {
                        assert(ts[a] == rest->Ok_0[a - 1]);
                    }
                }
            }
        }
    }
}

/// Scanning yields tokens in source order: their rows never decrease.
pub proof fn lemma_scan_rows_ordered(s: Seq<char>)
    requires
        s.len() <= usize::MAX,
    ensures
        scan_spec(s) is Ok ==> {
            let ts = scan_spec(s)->Ok_0;
            forall|a: int, b: int| 0 <= a < b < ts.len() ==> ts[a].row <= ts[b].row
        },
{
    lemma_tokens_from_rows(s, 0, 0, 0, ScanMode::LineStart);
}

impl TokenKind {
    pub fn from_char(c: char) -> (r: Option<TokenKind>)
        ensures
            r == kind_of(c),
    {
        match c {
            '+' => Some(TokenKind::Plus),
            '-' => Some(TokenKind::Minus),
            '<' => Some(TokenKind::LeftBrace),
            '>' => Some(TokenKind::RightBrace),
            '.' => Some(TokenKind::Dot),
            ',' => Some(TokenKind::Comma),
            '[' => Some(TokenKind::LeftBracket),
            ']' => Some(TokenKind::RightBracket),
            _ => None,
        }
    }
}

impl Token {
    /// The token for `c` at the given position, or the error for an unrecognized character.
    pub fn from_char(c: char, row: usize, col: usize) -> (r: Result<Token, LexError>)
        ensures
            r == (match kind_of(c) {
                Some(k) => Ok(Token { kind: k, row, col }),
                None => Err(LexError { character: c, row, col }),
            }),
    {
        match TokenKind::from_char(c) {
            Some(kind) => Ok(Token { kind, row, col }),
            None => Err(LexError { character: c, row, col }),
        }
    }

    pub fn kind(&self) -> (r: TokenKind)
        ensures
            r == self.kind,
    {
        self.kind
    }

    pub fn row(&self) -> (r: usize)
        ensures
            r == self.row,
    {
        self.row
    }

    pub fn col(&self) -> (r: usize)
        ensures
            r == self.col,
    {
        self.col
    }
}

/// A scanner over a source text that yields one token per call of `next`.
pub struct Tokenizer {
    chars: Vec<char>,
    pos: usize,
    lines: usize,
    line_start: usize,
    mode: ScanMode,
}

impl Tokenizer {
    pub closed spec fn wf(&self) -> bool {
        &&& self.pos <= self.chars@.len()
        &&& self.line_start <= self.pos
        &&& self.lines <= self.pos
    }

    /// How many characters of the source have been consumed.
    pub closed spec fn position(&self) -> nat {
        self.pos as nat
    }

    /// The text being scanned.
    pub closed spec fn source(&self) -> Seq<char> {
        self.chars@
    }

    /// The state of the scan.
    pub closed spec fn state(&self) -> ScanState {
        (self.pos as int, self.lines as int, self.line_start as int, self.mode)
    }

    /// What the next call of `next` yields, and the state after it.
    pub open spec fn first(&self) -> (Option<Result<Token, LexError>>, ScanState) {
        first_item(self.source(), self.state().0, self.state().1, self.state().2, self.state().3)
    }

    /// The tokens that the calls of `next` still yield, or the error that they reach first.
    pub open spec fn rest(&self) -> Result<Seq<Token>, LexError> {
        tokens_from(self.source(), self.state().0, self.state().1, self.state().2, self.state().3)
    }

    /// A scanner positioned at the start of `source`.
    pub fn read(source: &str) -> (t: Tokenizer)
        ensures
            t.wf(),
            t.source() == source@,
            t.state() == (0int, 0int, 0int, ScanMode::LineStart),
            t.rest() == scan_spec(source@),
    {
        let mut chars: Vec<char> = Vec::new();
        for c in it: source.chars()
            invariant
                chars.len() == it.index(),
                forall|j: int| 0 <= j < chars.len() ==> chars@[j] == it.seq()[j],
        {
            chars.push(c);
        }
        assert(chars@ =~= source@);
        Tokenizer { chars, pos: 0, lines: 0, line_start: 0, mode: ScanMode::LineStart }
    }

    /// The next token, the next lexical error, or `None` once the source is exhausted.
    /// After an error the scanner goes on past the offending character.
    pub fn next(&mut self) -> (r: Option<Result<Token, LexError>>)
        requires
            old(self).wf(),
        ensures
            final(self).wf(),
            final(self).source() == old(self).source(),
            r == old(self).first().0,
            final(self).state() == old(self).first().1,
            r is Some ==> final(self).position() > old(self).position(),
            match r {
                None => old(self).rest() == Ok::<Seq<Token>, LexError>(Seq::empty()),
                Some(Ok(t)) => old(self).rest() == prepend(t, final(self).rest()),
                Some(Err(e)) => old(self).rest() == Err::<Seq<Token>, LexError>(e),
            },
    {
        let ghost start = self.rest();
        while self.pos < self.chars.len()
            invariant
                self.wf(),
                self.chars@ == old(self).chars@,
                self.pos >= old(self).pos,
                start == old(self).rest(),
                self.rest() == start,
                self.first() == old(self).first(),
            decreases self.chars@.len() - self.pos,
        {
            let c = self.chars[self.pos];
            if c == '\n' {
                self.lines = self.lines + 1;
                self.pos = self.pos + 1;
                self.line_start = self.pos;
                self.mode = ScanMode::LineStart;
            } else if self.mode == ScanMode::Comment || is_whitespace(c) {
                self.pos = self.pos + 1;
            } else if c == '#' && self.mode == ScanMode::LineStart {
                self.pos = self.pos + 1;
                self.mode = ScanMode::Comment;
            } else {
                let row = self.lines + 1;
                let col = self.pos - self.line_start + 1;
                self.pos = self.pos + 1;
                self.mode = ScanMode::Body;
                return Some(Token::from_char(c, row, col));
            }
        }
        None
    }
}

} // verus!

verus! {

/// Scans a whole source text into its tokens, or fails with its first lexical error.
pub fn scan(source: &str) -> (r: Result<Vec<Token>, LexError>)
    ensures
        match r {
            Ok(ts) => scan_spec(source@) == Ok::<Seq<Token>, LexError>(ts@),
            Err(e) => scan_spec(source@) == Err::<Seq<Token>, LexError>(e),
        },
{
    let mut tokenizer = Tokenizer::read(source);
    let mut tokens: Vec<Token> = Vec::new();
    loop
        invariant
            tokenizer.wf(),
            tokenizer.source() == source@,
            tokenizer.position() <= source@.len(),
            scan_spec(source@) == prepend_all(tokens@, tokenizer.rest()),
        decreases tokenizer.source().len() - tokenizer.position(),
    {
        match tokenizer.next() {
            None => {
                assert(tokens@ + Seq::<Token>::empty() =~= tokens@);
                return Ok(tokens);
            },
            Some(Ok(t)) => {
                proof {
                    lemma_prepend_all_push(tokens@, t, tokenizer.rest());
                }
                tokens.push(t);
            },
            Some(Err(e)) => {
                return Err(e);
            },
        }
    }
}

/// Puts a sequence of tokens in front of a scan result; an error stays as it is.
pub open spec fn prepend_all(ts: Seq<Token>, rest: Result<Seq<Token>, LexError>) -> Result<
    Seq<Token>,
    LexError,
> {
    match rest {
        Ok(us) => Ok(ts + us),
        Err(e) => Err(e),
    }
}

proof fn lemma_prepend_all_push(ts: Seq<Token>, t: Token, rest: Result<Seq<Token>, LexError>)
    ensures
        prepend_all(ts, prepend(t, rest)) == prepend_all(ts.push(t), rest),
{
    if let Ok(us) = rest {
        assert(ts + (seq![t] + us) =~= ts.push(t) + us);
    }
}

} // verus!

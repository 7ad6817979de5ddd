use vstd::prelude::*;

verus! {

/// The closed set of lexeme categories.
#[derive(Clone, Copy, PartialEq, Eq, Structural, Debug)]
pub enum TokenType {
    // Single-character tokens.
    LeftParen,
    RightParen,
    LeftBrace,
    RightBrace,
    Comma,
    Dot,
    Minus,
    Plus,
    Semicolon,
    Slash,
    Star,
    // One or two character tokens.
    Bang,
    BangEqual,
    Equal,
    EqualEqual,
    Greater,
    GreaterEqual,
    Less,
    LessEqual,
    // Literals.
    Identifier,
    String,
    Number,
    // Keywords.
    And,
    Class,
    Else,
    False,
    For,
    Fun,
    If,
    Nil,
    Or,
    Print,
    Return,
    Super,
    This,
    True,
    Var,
    While,
    Error,
    Eof,
}

/// The two lexical errors. An error token carries one of these instead of a
/// source-buffer span, and it must reach whatever reports diagnostics.
#[derive(Clone, Copy, PartialEq, Eq, Structural, Debug)]
pub enum ScanError {
    UnterminatedString,
    UnexpectedCharacter,
}

impl ScanError {
    /// The human-readable message of this error.
    pub fn message(&self) -> (r: &'static str)
        ensures
            *self == ScanError::UnterminatedString ==> r@ == "Unterminated string."@,
            *self == ScanError::UnexpectedCharacter ==> r@ == "Unexpected character."@,
    {
        proof {
            reveal_strlit("Unterminated string.");
            reveal_strlit("Unexpected character.");
        }
        match self {
            ScanError::UnterminatedString => "Unterminated string.",
            ScanError::UnexpectedCharacter => "Unexpected character.",
        }
    }
}

/// One unit of lexical output: a category, a span into the source buffer
/// (in characters), and the 1-based line the token began on. Error tokens
/// carry a message instead of a span.
#[derive(Clone, Copy, Debug)]
pub struct Token {
    pub token_type: TokenType,
    pub start: usize,
    pub length: usize,
    pub line: usize,
    pub error_message: Option<ScanError>,
}

pub open spec fn is_digit_char(c: char) -> bool {
    '0' as u32 <= c as u32 && c as u32 <= '9' as u32
}

pub open spec fn is_alpha_char(c: char) -> bool {
    ('a' as u32 <= c as u32 && c as u32 <= 'z' as u32) || ('A' as u32 <= c as u32 && c as u32
        <= 'Z' as u32) || c == '_'
}

pub open spec fn is_alnum_char(c: char) -> bool {
    is_alpha_char(c) || is_digit_char(c)
}

/// How many of the first `n` characters are newlines. The scanner's line
/// counter is always one more than this count at its cursor.
pub open spec fn newlines_up_to(src: Seq<char>, n: int) -> nat
    decreases n,
{
    if n <= 0 {
        0
    } else {
        newlines_up_to(src, n - 1) + (if 0 <= n - 1 < src.len() && src[n - 1] == '\n' {
            1nat
        } else {
            0nat
        })
    }
}

/// The 1-based source line that position `n` lies on.
pub open spec fn spec_line_at(src: Seq<char>, n: int) -> nat {
    1 + newlines_up_to(src, n)
}

pub proof fn lemma_newlines_le(src: Seq<char>, n: int)
    requires
        n >= 0,
    ensures
        newlines_up_to(src, n) <= n,
    decreases n,
{
    if n > 0 {
        lemma_newlines_le(src, n - 1);
    }
}

/// Where skipping whitespace and line comments from position `i` ends.
/// `in_comment` means the cursor stands inside a `//` comment, which runs
/// to the next newline (the newline itself is skipped as whitespace).
pub open spec fn ws_end(src: Seq<char>, i: int, in_comment: bool) -> int
    decreases src.len() - i,
{
    if i < 0 || i >= src.len() {
        i
    } else if in_comment {
        if src[i] == '\n' {
            ws_end(src, i + 1, false)
        } else {
            ws_end(src, i + 1, true)
        }
    } else if src[i] == ' ' || src[i] == '\r' || src[i] == '\t' {
        ws_end(src, i + 1, false)
    } else if src[i] == '\n' {
        ws_end(src, i + 1, false)
    } else if src[i] == '/' && i + 1 < src.len() && src[i + 1] == '/' {
        ws_end(src, i + 2, true)
    } else {
        i
    }
}

pub proof fn lemma_ws_end_bounds(src: Seq<char>, i: int, in_comment: bool)
    requires
        0 <= i <= src.len(),
    ensures
        i <= ws_end(src, i, in_comment) <= src.len(),
    decreases src.len() - i,
{
    if i < src.len() {
        if in_comment {
            lemma_ws_end_bounds(src, i + 1, src[i] != '\n');
        } else if src[i] == ' ' || src[i] == '\r' || src[i] == '\t' || src[i] == '\n' {
            lemma_ws_end_bounds(src, i + 1, false);
        } else if src[i] == '/' && i + 1 < src.len() && src[i + 1] == '/' {
            lemma_ws_end_bounds(src, i + 2, true);
        }
    }
}

/// Where whitespace skipping stops, a significant character stands: not a
/// blank, not a newline, and not the start of a `//` comment.
pub proof fn lemma_ws_end_char(src: Seq<char>, i: int, in_comment: bool)
    requires
        0 <= i <= src.len(),
    ensures
        ({
            let e = ws_end(src, i, in_comment);
            e < src.len() ==> (src[e] != ' ' && src[e] != '\r' && src[e] != '\t' && src[e] != '\n'
                && !(src[e] == '/' && e + 1 < src.len() && src[e + 1] == '/'))
        }),
    decreases src.len() - i,
{
    if i < src.len() {
        if in_comment {
            lemma_ws_end_char(src, i + 1, src[i] != '\n');
        } else if src[i] == ' ' || src[i] == '\r' || src[i] == '\t' || src[i] == '\n' {
            lemma_ws_end_char(src, i + 1, false);
        } else if src[i] == '/' && i + 1 < src.len() && src[i + 1] == '/' {
            lemma_ws_end_char(src, i + 2, true);
        }
    }
}

/// The first position at or after `i` whose character is not part of an
/// identifier (alphanumeric or underscore), or the end of the source.
pub open spec fn ident_end(src: Seq<char>, i: int) -> int
    decreases src.len() - i,
{
    if i < 0 || i >= src.len() || !is_alnum_char(src[i]) {
        i
    } else {
        ident_end(src, i + 1)
    }
}

pub proof fn lemma_ident_end_bounds(src: Seq<char>, i: int)
    requires
        0 <= i <= src.len(),
    ensures
        i <= ident_end(src, i) <= src.len(),
    decreases src.len() - i,
{
    if i < src.len() && is_alnum_char(src[i]) {
        lemma_ident_end_bounds(src, i + 1);
    }
}

/// The first position at or after `i` whose character is not a digit.
pub open spec fn digits_end(src: Seq<char>, i: int) -> int
    decreases src.len() - i,
{
    if i < 0 || i >= src.len() || !is_digit_char(src[i]) {
        i
    } else {
        digits_end(src, i + 1)
    }
}

pub proof fn lemma_digits_end_bounds(src: Seq<char>, i: int)
    requires
        0 <= i <= src.len(),
    ensures
        i <= digits_end(src, i) <= src.len(),
    decreases src.len() - i,
{
    if i < src.len() && is_digit_char(src[i]) {
        lemma_digits_end_bounds(src, i + 1);
    }
}

/// Where a number literal beginning at `i` ends: the leading digits,
/// optionally one `.` followed by at least one more digit and the digits
/// after it. No exponents, no leading or trailing dot.
pub open spec fn num_end(src: Seq<char>, i: int) -> int {
    let d = digits_end(src, i);
    if d < src.len() && src[d] == '.' && d + 1 < src.len() && is_digit_char(src[d + 1]) {
        digits_end(src, d + 2)
    } else {
        d
    }
}

/// The position of the closing quote of a string whose body starts at `i`,
/// or the end of the source when the string is unterminated.
pub open spec fn str_body_end(src: Seq<char>, i: int) -> int
    decreases src.len() - i,
{
    if i < 0 || i >= src.len() {
        src.len() as int
    } else if src[i] == '"' {
        i
    } else {
        str_body_end(src, i + 1)
    }
}

pub proof fn lemma_str_body_end_bounds(src: Seq<char>, i: int)
    requires
        0 <= i <= src.len(),
    ensures
        i <= str_body_end(src, i) <= src.len(),
    decreases src.len() - i,
{
    if i < src.len() && src[i] != '"' {
        lemma_str_body_end_bounds(src, i + 1);
    }
}

/// The fixed keyword table: an identifier's exact character sequence decides
/// keyword against plain identifier; there is no partial matching.
pub open spec fn spec_keyword(s: Seq<char>) -> TokenType {
    if s.len() == 2 && s[0] == 'i' && s[1] == 'f' {
        TokenType::If
    } else if s.len() == 2 && s[0] == 'o' && s[1] == 'r' {
        TokenType::Or
    } else if s.len() == 3 && s[0] == 'a' && s[1] == 'n' && s[2] == 'd' {
        TokenType::And
    } else if s.len() == 3 && s[0] == 'f' && s[1] == 'o' && s[2] == 'r' {
        TokenType::For
    } else if s.len() == 3 && s[0] == 'f' && s[1] == 'u' && s[2] == 'n' {
        TokenType::Fun
    } else if s.len() == 3 && s[0] == 'n' && s[1] == 'i' && s[2] == 'l' {
        TokenType::Nil
    } else if s.len() == 3 && s[0] == 'v' && s[1] == 'a' && s[2] == 'r' {
        TokenType::Var
    } else if s.len() == 4 && s[0] == 'e' && s[1] == 'l' && s[2] == 's' && s[3] == 'e' {
        TokenType::Else
    } else if s.len() == 4 && s[0] == 't' && s[1] == 'h' && s[2] == 'i' && s[3] == 's' {
        TokenType::This
    } else if s.len() == 4 && s[0] == 't' && s[1] == 'r' && s[2] == 'u' && s[3] == 'e' {
        TokenType::True
    } else if s.len() == 5 && s[0] == 'c' && s[1] == 'l' && s[2] == 'a' && s[3] == 's' && s[4]
        == 's' {
        TokenType::Class
    } else if s.len() == 5 && s[0] == 'f' && s[1] == 'a' && s[2] == 'l' && s[3] == 's' && s[4]
        == 'e' {
        TokenType::False
    } else if s.len() == 5 && s[0] == 'p' && s[1] == 'r' && s[2] == 'i' && s[3] == 'n' && s[4]
        == 't' {
        TokenType::Print
    } else if s.len() == 5 && s[0] == 's' && s[1] == 'u' && s[2] == 'p' && s[3] == 'e' && s[4]
        == 'r' {
        TokenType::Super
    } else if s.len() == 5 && s[0] == 'w' && s[1] == 'h' && s[2] == 'i' && s[3] == 'l' && s[4]
        == 'e' {
        TokenType::While
    } else if s.len() == 6 && s[0] == 'r' && s[1] == 'e' && s[2] == 't' && s[3] == 'u' && s[4]
        == 'r' && s[5] == 'n' {
        TokenType::Return
    } else {
        TokenType::Identifier
    }
}

/// The category of a one-character punctuation token.
pub open spec fn spec_single(c: char) -> Option<TokenType> {
    if c == '(' {
        Some(TokenType::LeftParen)
    } else if c == ')' {
        Some(TokenType::RightParen)
    } else if c == '{' {
        Some(TokenType::LeftBrace)
    } else if c == '}' {
        Some(TokenType::RightBrace)
    } else if c == ';' {
        Some(TokenType::Semicolon)
    } else if c == ',' {
        Some(TokenType::Comma)
    } else if c == '.' {
        Some(TokenType::Dot)
    } else if c == '-' {
        Some(TokenType::Minus)
    } else if c == '+' {
        Some(TokenType::Plus)
    } else if c == '/' {
        Some(TokenType::Slash)
    } else if c == '*' {
        Some(TokenType::Star)
    } else {
        None
    }
}

/// What one call of `scan_token` at cursor `pos` produces: the token's
/// category, span and error, the 1-based line its first significant
/// character lies on, and the cursor position after it.
pub struct ScanStep {
    pub token_type: TokenType,
    pub start: int,
    pub length: int,
    pub line: nat,
    pub next: int,
    pub error_message: Option<ScanError>,
}

/// The complete lexical rule: skip whitespace and comments, then classify
/// by the first significant character. This is the single definition every
/// scanner contract speaks of.
pub open spec fn spec_scan_at(src: Seq<char>, pos: int) -> ScanStep {
    let p = ws_end(src, pos, false);
    if p >= src.len() {
        ScanStep {
            token_type: TokenType::Eof,
            start: p,
            length: 0,
            line: spec_line_at(src, p),
            next: p,
            error_message: None,
        }
    } else {
        let c = src[p];
        if is_alpha_char(c) {
            let e = ident_end(src, p + 1);
            ScanStep {
                token_type: spec_keyword(src.subrange(p, e)),
                start: p,
                length: e - p,
                line: spec_line_at(src, p),
                next: e,
                error_message: None,
            }
        } else if is_digit_char(c) {
            let e = num_end(src, p);
            ScanStep {
                token_type: TokenType::Number,
                start: p,
                length: e - p,
                line: spec_line_at(src, p),
                next: e,
                error_message: None,
            }
        } else if c == '"' {
            let b = str_body_end(src, p + 1);
            if b < src.len() {
                ScanStep {
                    token_type: TokenType::String,
                    start: p,
                    length: b + 1 - p,
                    line: spec_line_at(src, p),
                    next: b + 1,
                    error_message: None,
                }
            } else {
                ScanStep {
                    token_type: TokenType::Error,
                    start: 0,
                    length: 0,
                    line: spec_line_at(src, p),
                    next: src.len() as int,
                    error_message: Some(ScanError::UnterminatedString),
                }
            }
        } else if c == '!' || c == '=' || c == '<' || c == '>' {
            let two = p + 1 < src.len() && src[p + 1] == '=';
            let tt = if c == '!' {
                if two {
                    TokenType::BangEqual
                } else {
                    TokenType::Bang
                }
            } else if c == '=' {
                if two {
                    TokenType::EqualEqual
                } else {
                    TokenType::Equal
                }
            } else if c == '<' {
                if two {
                    TokenType::LessEqual
                } else {
                    TokenType::Less
                }
            } else {
                if two {
                    TokenType::GreaterEqual
                } else {
                    TokenType::Greater
                }
            };
            ScanStep {
                token_type: tt,
                start: p,
                length: if two {
                    2
                } else {
                    1
                },
                line: spec_line_at(src, p),
                next: p + (if two {
                    2int
                } else {
                    1int
                }),
                error_message: None,
            }
        } else {
            match spec_single(c) {
                Some(tt) => ScanStep {
                    token_type: tt,
                    start: p,
                    length: 1,
                    line: spec_line_at(src, p),
                    next: p + 1,
                    error_message: None,
                },
                None => ScanStep {
                    token_type: TokenType::Error,
                    start: 0,
                    length: 0,
                    line: spec_line_at(src, p),
                    next: p + 1,
                    error_message: Some(ScanError::UnexpectedCharacter),
                },
            }
        }
    }
}

/// A scan makes progress: the cursor never moves backwards, stays inside
/// the source, and advances strictly unless the token is end-of-input;
/// every token's span lies inside the source.
pub proof fn lemma_scan_progress(src: Seq<char>, pos: int)
    requires
        0 <= pos <= src.len(),
    ensures
        ({
            let st = spec_scan_at(src, pos);
            &&& pos <= st.next <= src.len()
            &&& (st.token_type != TokenType::Eof ==> st.next > pos)
            &&& 0 <= st.start
            &&& 0 <= st.length
            &&& st.start + st.length <= src.len()
        }),
{
    lemma_ws_end_bounds(src, pos, false);
    let p = ws_end(src, pos, false);
    if p < src.len() {
        let c = src[p];
        if is_alpha_char(c) {
            lemma_ident_end_bounds(src, p + 1);
        } else if is_digit_char(c) {
            lemma_digits_end_bounds(src, p + 1);
            assert(digits_end(src, p) == digits_end(src, p + 1));
            let d = digits_end(src, p);
            if d < src.len() && src[d] == '.' && d + 1 < src.len() && is_digit_char(src[d + 1]) {
                lemma_digits_end_bounds(src, d + 2);
            }
        } else if c == '"' {
            lemma_str_body_end_bounds(src, p + 1);
        }
    }
}

/// Scanning at the end of the source yields the end-of-input token and
/// leaves the cursor in place, so repeated calls return it forever.
pub proof fn lemma_eof_idempotent(src: Seq<char>, pos: int)
    requires
        pos == src.len(),
    ensures
        spec_scan_at(src, pos).token_type == TokenType::Eof,
        spec_scan_at(src, pos).next == pos,
{
}

/// The scanner: a cursor over the source characters. `start` marks the
/// first character of the token being scanned, `current` the next unread
/// character, and `line` the 1-based line that `current` lies on.
pub struct Scanner {
    pub source: Vec<char>,
    pub start: usize,
    pub current: usize,
    pub line: usize,
}

impl Scanner {
    /// Validity: the cursor lies inside the source and the line counter
    /// agrees with the newlines before the cursor.
    pub open spec fn wf(self) -> bool {
        &&& self.start <= self.current <= self.source@.len()
        &&& self.line == spec_line_at(self.source@, self.current as int)
        &&& self.source@.len() < usize::MAX
    }

    pub fn new() -> (r: Self)
        ensures
            r.wf(),
            r.source@ =~= Seq::<char>::empty(),
            r.current == 0,
            r.start == 0,
            r.line == 1,
    {
        Self { source: Vec::new(), start: 0, current: 0, line: 1 }
    }

    /// Replaces the source buffer and rewinds the cursor to its start.
    pub fn set_source(&mut self, source: String)
        requires
            source@.len() < usize::MAX,
        ensures
            final(self).wf(),
            final(self).source@ == source@,
            final(self).current == 0,
            final(self).start == 0,
            final(self).line == 1,
    {
        self.source = chars_of(source.as_str());
        self.start = 0;
        self.current = 0;
        self.line = 1;
    }

    /// The characters a token's span refers to, as an owned string.
    pub fn get_token_value(&self, token: &Token) -> (r: String)
        requires
            token.start + token.length <= self.source@.len(),
        ensures
            r@ == self.source@.subrange(token.start as int, token.start + token.length),
    {
        let n = self.source.len();
        let mut picked: Vec<char> = Vec::new();
        let mut i: usize = 0;
        while i < token.length
            invariant
                i <= token.length,
                n == self.source@.len(),
                token.start + token.length <= self.source@.len(),
                picked@ =~= self.source@.subrange(token.start as int, token.start + i),
            decreases token.length - i,
        {
            picked.push(self.source[token.start + i]);
            i = i + 1;
            proof {
                assert(picked@ =~= self.source@.subrange(token.start as int, token.start + i));
            }
        }
        string_of(&picked)
    }

    fn is_at_end(&self) -> (r: bool)
        ensures
            r == (self.current >= self.source@.len()),
    {
        self.current >= self.source.len()
    }

    fn peek(&self) -> (r: Option<char>)
        ensures
            r == if self.current < self.source@.len() {
                Some(self.source@[self.current as int])
            } else {
                None::<char>
            },
    {
        if self.current < self.source.len() {
            Some(self.source[self.current])
        } else {
            None
        }
    }

    fn peek_next(&self) -> (r: Option<char>)
        requires
            self.current <= self.source@.len(),
        ensures
            r == if self.current + 1 < self.source@.len() {
                Some(self.source@[self.current + 1])
            } else {
                None::<char>
            },
    {
        if self.current < self.source.len() && self.current + 1 < self.source.len() {
            Some(self.source[self.current + 1])
        } else {
            None
        }
    }

    fn advance(&mut self) -> (c: char)
        requires
            old(self).current < old(self).source@.len(),
        ensures
            c == old(self).source@[old(self).current as int],
            final(self).current == old(self).current + 1,
            final(self).source == old(self).source,
            final(self).start == old(self).start,
            final(self).line == old(self).line,
    {
        let c = self.source[self.current];
        // The cursor is strictly below the length, which fits in usize, so
        // the increment cannot wrap.
        let n = self.source.len();
        self.current = self.current + 1;
        c
    }

    fn match_char(&mut self, expected: char) -> (r: bool)
        requires
            old(self).current <= old(self).source@.len(),
        ensures
            final(self).source == old(self).source,
            final(self).start == old(self).start,
            final(self).line == old(self).line,
            r == (old(self).current < old(self).source@.len() && old(self).source@[old(
                self,
            ).current as int] == expected),
            final(self).current == if r {
                old(self).current + 1
            } else {
                old(self).current as int
            },
    {
        if self.current < self.source.len() && self.source[self.current] == expected {
            self.current = self.current + 1;
            true
        } else {
            false
        }
    }

    fn is_alpha(&self, c: char) -> (r: bool)
        ensures
            r == is_alpha_char(c),
    {
        ('a' as u32 <= c as u32 && c as u32 <= 'z' as u32) || ('A' as u32 <= c as u32 && c as u32
            <= 'Z' as u32) || c == '_'
    }

    fn is_digit(&self, c: char) -> (r: bool)
        ensures
            r == is_digit_char(c),
    {
        '0' as u32 <= c as u32 && c as u32 <= '9' as u32
    }

    fn make_token(&self, token_type: TokenType) -> (t: Token)
        requires
            self.start <= self.current,
        ensures
            t.token_type == token_type,
            t.start == self.start,
            t.length == self.current - self.start,
            t.line == self.line,
            t.error_message is None,
    {
        Token {
            token_type,
            start: self.start,
            length: self.current - self.start,
            line: self.line,
            error_message: None,
        }
    }

    fn error_token(&self, error: ScanError) -> (t: Token)
        ensures
            t.token_type == TokenType::Error,
            t.start == 0,
            t.length == 0,
            t.line == self.line,
            t.error_message == Some(error),
    {
        Token {
            token_type: TokenType::Error,
            start: 0,
            length: 0,
            line: self.line,
            error_message: Some(error),
        }
    }

    /// Consumes spaces, tabs, carriage returns, newlines and `//` comments;
    /// newlines advance the line counter.
    fn skip_whitespace(&mut self)
        requires
            old(self).wf(),
        ensures
            final(self).wf(),
            final(self).source@ == old(self).source@,
            final(self).start == old(self).start,
            final(self).current == ws_end(old(self).source@, old(self).current as int, false),
    {
        let ghost src = self.source@;
        let ghost start0 = self.start;
        let ghost target = ws_end(src, old(self).current as int, false);
        loop
            invariant
                self.wf(),
                self.source@ == src,
                self.start == start0,
                ws_end(src, self.current as int, false) == target,
            ensures
                self.wf(),
                self.source@ == src,
                self.start == start0,
                self.current == target,
            decreases src.len() - self.current,
        {
            let ghost cur0 = self.current as int;
            let c = self.peek();
            match c {
                Some(' ') | Some('\r') | Some('\t') => {
                    self.advance();
                }
                Some('\n') => {
                    proof {
                        lemma_newlines_le(src, cur0);
                    }
                    self.line = self.line + 1;
                    self.advance();
                }
                Some('/') => {
                    let two = match self.peek_next() {
                        Some('/') => true,
                        _ => false,
                    };
                    if !two {
                        proof {
                            assert(ws_end(src, cur0, false) == cur0);
                        }
                        break ;
                    }
                    self.advance();
                    self.advance();
                    proof {
                        assert(newlines_up_to(src, cur0 + 1) == newlines_up_to(src, cur0));
                        assert(newlines_up_to(src, cur0 + 2) == newlines_up_to(src, cur0 + 1));
                    }
                    // Inside the comment: consume up to, but not including,
                    // the terminating newline.
                    loop
                        invariant
                            self.wf(),
                            self.source@ == src,
                            self.start == start0,
                            cur0 + 2 <= self.current,
                            ws_end(src, self.current as int, true) == target,
                        ensures
                            self.wf(),
                            self.source@ == src,
                            self.start == start0,
                            cur0 + 2 <= self.current,
                            ws_end(src, self.current as int, true) == target,
                            self.current >= src.len() || src[self.current as int] == '\n',
                        decreases src.len() - self.current,
                    {
                        let d = self.peek();
                        match d {
                            Some('\n') => {
                                break ;
                            }
                            Some(_) => {
                                proof {
                                    assert(src[self.current as int] != '\n');
                                }
                                self.advance();
                            }
                            None => {
                                break ;
                            }
                        }
                    }
                    if self.is_at_end() {
                        proof {
                            assert(ws_end(src, self.current as int, true) == self.current);
                            assert(ws_end(src, self.current as int, false) == self.current);
                        }
                        break ;
                    }
                    proof {
                        assert(src[self.current as int] == '\n');
                        assert(ws_end(src, self.current as int, true) == ws_end(
                            src,
                            self.current as int + 1,
                            false,
                        ));
                        assert(ws_end(src, self.current as int, false) == ws_end(
                            src,
                            self.current as int + 1,
                            false,
                        ));
                    }
                }
                _ => {
                    proof {
                        if cur0 < src.len() {
                            assert(ws_end(src, cur0, false) == cur0);
                        }
                    }
                    break ;
                }
            }
        }
    }

    /// One call, one token: classifies the next lexeme exactly as
    /// `spec_scan_at` describes and advances the cursor past it.
    pub fn scan_token(&mut self) -> (token: Token)
        requires
            old(self).wf(),
        ensures
            ({
                let st = spec_scan_at(old(self).source@, old(self).current as int);
                &&& final(self).wf()
                &&& final(self).source@ == old(self).source@
                &&& final(self).current == st.next
                &&& final(self).start == ws_end(old(self).source@, old(self).current as int, false)
                &&& token.token_type == st.token_type
                &&& token.start == st.start
                &&& token.length == st.length
                &&& token.error_message == st.error_message
                &&& token.line == st.line
            }),
    {
        let ghost src = self.source@;
        let ghost pos0 = old(self).current as int;
        self.skip_whitespace();
        let ghost p = self.current as int;
        proof {
            lemma_ws_end_bounds(src, pos0, false);
            lemma_ws_end_char(src, pos0, false);
            if p < src.len() {
                // The significant character is not a newline, so consuming
                // it leaves the line count unchanged.
                assert(src[p] != '\n');
                assert(newlines_up_to(src, p + 1) == newlines_up_to(src, p));
            }
        }
        self.start = self.current;
        if self.is_at_end() {
            return self.make_token(TokenType::Eof);
        }
        let c = self.advance();
        if self.is_alpha(c) {
            return self.identifier();
        }
        if self.is_digit(c) {
            proof {
                assert(digits_end(src, p) == digits_end(src, p + 1));
                assert(num_end(src, p) == num_end(src, p + 1));
            }
            return self.number();
        }
        match c {
            '(' => self.make_token(TokenType::LeftParen),
            ')' => self.make_token(TokenType::RightParen),
            '{' => self.make_token(TokenType::LeftBrace),
            '}' => self.make_token(TokenType::RightBrace),
            ';' => self.make_token(TokenType::Semicolon),
            ',' => self.make_token(TokenType::Comma),
            '.' => self.make_token(TokenType::Dot),
            '-' => self.make_token(TokenType::Minus),
            '+' => self.make_token(TokenType::Plus),
            '/' => self.make_token(TokenType::Slash),
            '*' => self.make_token(TokenType::Star),
            '!' => {
                let two = self.match_char('=');
                proof {
                    if two {
                        assert(newlines_up_to(src, p + 2) == newlines_up_to(src, p + 1));
                    }
                }
                let tt = if two {
                    TokenType::BangEqual
                } else {
                    TokenType::Bang
                };
                self.make_token(tt)
            }
            '=' => {
                let two = self.match_char('=');
                proof {
                    if two {
                        assert(newlines_up_to(src, p + 2) == newlines_up_to(src, p + 1));
                    }
                }
                let tt = if two {
                    TokenType::EqualEqual
                } else {
                    TokenType::Equal
                };
                self.make_token(tt)
            }
            '<' => {
                let two = self.match_char('=');
                proof {
                    if two {
                        assert(newlines_up_to(src, p + 2) == newlines_up_to(src, p + 1));
                    }
                }
                let tt = if two {
                    TokenType::LessEqual
                } else {
                    TokenType::Less
                };
                self.make_token(tt)
            }
            '>' => {
                let two = self.match_char('=');
                proof {
                    if two {
                        assert(newlines_up_to(src, p + 2) == newlines_up_to(src, p + 1));
                    }
                }
                let tt = if two {
                    TokenType::GreaterEqual
                } else {
                    TokenType::Greater
                };
                self.make_token(tt)
            }
            '"' => self.string(),
            _ => self.error_token(ScanError::UnexpectedCharacter),
        }
    }

    /// Consumes the rest of an identifier and classifies it against the
    /// keyword table.
    fn identifier(&mut self) -> (t: Token)
        requires
            old(self).wf(),
            old(self).start < old(self).current,
        ensures
            final(self).wf(),
            final(self).source@ == old(self).source@,
            final(self).start == old(self).start,
            final(self).line == old(self).line,
            final(self).current == ident_end(old(self).source@, old(self).current as int),
            t.token_type == spec_keyword(
                old(self).source@.subrange(
                    old(self).start as int,
                    ident_end(old(self).source@, old(self).current as int),
                ),
            ),
            t.start == old(self).start,
            t.length == final(self).current - old(self).start,
            t.line == old(self).line,
            t.error_message is None,
    {
        let ghost src = self.source@;
        let ghost start0 = self.start;
        let ghost line0 = self.line;
        let ghost cur_in = self.current;
        loop
            invariant
                self.wf(),
                self.source@ == src,
                self.start == start0,
                self.line == line0,
                cur_in <= self.current,
                ident_end(src, self.current as int) == ident_end(src, cur_in as int),
            ensures
                self.wf(),
                self.source@ == src,
                self.start == start0,
                self.line == line0,
                cur_in <= self.current,
                self.current == ident_end(src, cur_in as int),
            decreases src.len() - self.current,
        {
            let more = match self.peek() {
                Some(ch) => self.is_alpha(ch) || self.is_digit(ch),
                None => false,
            };
            if !more {
                proof {
                    assert(ident_end(src, self.current as int) == self.current);
                }
                break ;
            }
            proof {
                assert(is_alnum_char(src[self.current as int]));
                assert(src[self.current as int] != '\n');
            }
            self.advance();
        }
        self.make_token(self.identifier_type())
    }

    /// The keyword table in executable form, over the span
    /// `start..current`.
    fn identifier_type(&self) -> (tt: TokenType)
        requires
            self.start <= self.current <= self.source@.len(),
        ensures
            tt == spec_keyword(self.source@.subrange(self.start as int, self.current as int)),
    {
        let s = self.start;
        let n = self.current - self.start;
        let v = &self.source;
        if n == 2 && v[s] == 'i' && v[s + 1] == 'f' {
            TokenType::If
        } else if n == 2 && v[s] == 'o' && v[s + 1] == 'r' {
            TokenType::Or
        } else if n == 3 && v[s] == 'a' && v[s + 1] == 'n' && v[s + 2] == 'd' {
            TokenType::And
        } else if n == 3 && v[s] == 'f' && v[s + 1] == 'o' && v[s + 2] == 'r' {
            TokenType::For
        } else if n == 3 && v[s] == 'f' && v[s + 1] == 'u' && v[s + 2] == 'n' {
            TokenType::Fun
        } else if n == 3 && v[s] == 'n' && v[s + 1] == 'i' && v[s + 2] == 'l' {
            TokenType::Nil
        } else if n == 3 && v[s] == 'v' && v[s + 1] == 'a' && v[s + 2] == 'r' {
            TokenType::Var
        } else if n == 4 && v[s] == 'e' && v[s + 1] == 'l' && v[s + 2] == 's' && v[s + 3] == 'e' {
            TokenType::Else
        } else if n == 4 && v[s] == 't' && v[s + 1] == 'h' && v[s + 2] == 'i' && v[s + 3] == 's' {
            TokenType::This
        } else if n == 4 && v[s] == 't' && v[s + 1] == 'r' && v[s + 2] == 'u' && v[s + 3] == 'e' {
            TokenType::True
        } else if n == 5 && v[s] == 'c' && v[s + 1] == 'l' && v[s + 2] == 'a' && v[s + 3] == 's'
            && v[s + 4] == 's' {
            TokenType::Class
        } else if n == 5 && v[s] == 'f' && v[s + 1] == 'a' && v[s + 2] == 'l' && v[s + 3] == 's'
            && v[s + 4] == 'e' {
            TokenType::False
        } else if n == 5 && v[s] == 'p' && v[s + 1] == 'r' && v[s + 2] == 'i' && v[s + 3] == 'n'
            && v[s + 4] == 't' {
            TokenType::Print
        } else if n == 5 && v[s] == 's' && v[s + 1] == 'u' && v[s + 2] == 'p' && v[s + 3] == 'e'
            && v[s + 4] == 'r' {
            TokenType::Super
        } else if n == 5 && v[s] == 'w' && v[s + 1] == 'h' && v[s + 2] == 'i' && v[s + 3] == 'l'
            && v[s + 4] == 'e' {
            TokenType::While
        } else if n == 6 && v[s] == 'r' && v[s + 1] == 'e' && v[s + 2] == 't' && v[s + 3] == 'u'
            && v[s + 4] == 'r' && v[s + 5] == 'n' {
            TokenType::Return
        } else {
            TokenType::Identifier
        }
    }

    /// Consumes the rest of a number literal: digits, optionally one `.`
    /// followed by more digits.
    fn number(&mut self) -> (t: Token)
        requires
            old(self).wf(),
            old(self).start < old(self).current,
        ensures
            final(self).wf(),
            final(self).source@ == old(self).source@,
            final(self).start == old(self).start,
            final(self).line == old(self).line,
            final(self).current == num_end(old(self).source@, old(self).current as int),
            t.token_type == TokenType::Number,
            t.start == old(self).start,
            t.length == final(self).current - old(self).start,
            t.line == old(self).line,
            t.error_message is None,
    {
        let ghost src = self.source@;
        let ghost start0 = self.start;
        let ghost line0 = self.line;
        let ghost cur_in = self.current;
        loop
            invariant
                self.wf(),
                self.source@ == src,
                self.start == start0,
                self.line == line0,
                cur_in <= self.current,
                digits_end(src, self.current as int) == digits_end(src, cur_in as int),
            ensures
                self.wf(),
                self.source@ == src,
                self.start == start0,
                self.line == line0,
                cur_in <= self.current,
                self.current == digits_end(src, cur_in as int),
            decreases src.len() - self.current,
        {
            let more = match self.peek() {
                Some(ch) => self.is_digit(ch),
                None => false,
            };
            if !more {
                proof {
                    assert(digits_end(src, self.current as int) == self.current);
                }
                break ;
            }
            proof {
                assert(src[self.current as int] != '\n');
            }
            self.advance();
        }
        let ghost d = digits_end(src, cur_in as int);
        let frac = match (self.peek(), self.peek_next()) {
            (Some('.'), Some(c2)) => self.is_digit(c2),
            _ => false,
        };
        if frac {
            proof {
                assert(newlines_up_to(src, d + 1) == newlines_up_to(src, d));
                assert(newlines_up_to(src, d + 2) == newlines_up_to(src, d + 1));
            }
            self.advance();
            self.advance();
            loop
                invariant
                    self.wf(),
                    self.source@ == src,
                    self.start == start0,
                    self.line == line0,
                    d + 2 <= self.current,
                    digits_end(src, self.current as int) == digits_end(src, d + 2),
                ensures
                    self.wf(),
                    self.source@ == src,
                    self.start == start0,
                    self.line == line0,
                    d + 2 <= self.current,
                    self.current == digits_end(src, d + 2),
                decreases src.len() - self.current,
            {
                let more = match self.peek() {
                    Some(ch) => self.is_digit(ch),
                    None => false,
                };
                if !more {
                    proof {
                        assert(digits_end(src, self.current as int) == self.current);
                    }
                    break ;
                }
                proof {
                    assert(src[self.current as int] != '\n');
                }
                self.advance();
            }
        }
        self.make_token(TokenType::Number)
    }

    /// Consumes a string literal's body up to its closing quote; embedded
    /// newlines advance the line counter; hitting the end of the source
    /// first yields the unterminated-string error token.
    fn string(&mut self) -> (t: Token)
        requires
            old(self).wf(),
            old(self).start < old(self).current,
        ensures
            final(self).wf(),
            final(self).source@ == old(self).source@,
            final(self).start == old(self).start,
            ({
                let src = old(self).source@;
                let b = str_body_end(src, old(self).current as int);
                if b < src.len() {
                    &&& final(self).current == b + 1
                    &&& t.token_type == TokenType::String
                    &&& t.start == old(self).start
                    &&& t.length == b + 1 - old(self).start
                    &&& t.line == old(self).line
                    &&& t.error_message is None
                } else {
                    &&& final(self).current == src.len()
                    &&& t.token_type == TokenType::Error
                    &&& t.start == 0
                    &&& t.length == 0
                    &&& t.line == old(self).line
                    &&& t.error_message == Some(ScanError::UnterminatedString)
                }
            }),
    {
        let ghost src = self.source@;
        let ghost start0 = self.start;
        let ghost cur_in = self.current;
        let ghost b = str_body_end(src, old(self).current as int);
        // The token is stamped with the line its opening quote lies on,
        // while the scanner's own counter advances over embedded newlines.
        let token_line = self.line;
        loop
            invariant
                self.wf(),
                self.source@ == src,
                self.start == start0,
                cur_in <= self.current,
                str_body_end(src, self.current as int) == b,
            ensures
                self.wf(),
                self.source@ == src,
                self.start == start0,
                cur_in <= self.current,
                self.current == b,
                self.current >= src.len() || src[self.current as int] == '"',
            decreases src.len() - self.current,
        {
            let c = self.peek();
            match c {
                Some('"') => {
                    proof {
                        assert(str_body_end(src, self.current as int) == self.current);
                    }
                    break ;
                }
                None => {
                    proof {
                        assert(str_body_end(src, self.current as int) == src.len());
                    }
                    break ;
                }
                Some('\n') => {
                    proof {
                        lemma_newlines_le(src, self.current as int);
                        assert(src[self.current as int] != '"');
                    }
                    self.line = self.line + 1;
                    self.advance();
                }
                Some(_) => {
                    proof {
                        assert(src[self.current as int] != '"');
                    }
                    self.advance();
                }
            }
        }
        if self.is_at_end() {
            return Token {
                token_type: TokenType::Error,
                start: 0,
                length: 0,
                line: token_line,
                error_message: Some(ScanError::UnterminatedString),
            };
        }
        proof {
            assert(src[b] == '"');
            assert(newlines_up_to(src, b + 1) == newlines_up_to(src, b));
        }
        self.advance();
        Token {
            token_type: TokenType::String,
            start: self.start,
            length: self.current - self.start,
            line: token_line,
            error_message: None,
        }
    }
}

/// Relies on str::chars: the characters of a string slice, in order; they
/// are exactly the slice's view.
#[verifier::external_body]
fn chars_of(s: &str) -> (v: Vec<char>)
    ensures
        v@ == s@,
{
    s.chars().collect()
}

/// Relies on core::iter::Iterator::collect for String: the characters,
/// joined in order, are exactly the buffer's view.
#[verifier::external_body]
fn string_of(chars: &Vec<char>) -> (s: String)
    ensures
        s@ == chars@,
{
    chars.iter().collect()
}

} // verus!

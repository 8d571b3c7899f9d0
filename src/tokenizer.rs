//! Lexical scanning: source text to classified tokens.
use vstd::prelude::*;
use vstd::std_specs::iter::IteratorSpec;

verus! {

/// The lexical class of a token.
#[derive(PartialEq, Eq, Structural, Clone, Copy, Debug)]
pub enum TokenClass {
    Int,
    Float,
    Identifier,
    Plus,
    Minus,
    Star,
    Slash,
    Equals,
    LeftParen,
    RightParen,
    End,
}

/// A token: its class and the span `start..end` of the source characters it covers.
#[derive(PartialEq, Eq, Structural, Clone, Copy, Debug)]
pub struct Token {
    pub class: TokenClass,
    pub start: usize,
    pub end: usize,
}

/// A character that cannot start any token.
#[derive(PartialEq, Eq, Structural, Clone, Copy, Debug)]
pub struct LexError {
    pub position: usize,
    pub found: char,
}

pub open spec fn is_digit(c: char) -> bool {
    '0' <= c && c <= '9'
}

pub open spec fn is_ident_start(c: char) -> bool {
    ('a' <= c && c <= 'z') || ('A' <= c && c <= 'Z') || c == '_'
}

pub open spec fn is_ident_char(c: char) -> bool {
    is_ident_start(c) || is_digit(c)
}

pub open spec fn is_space(c: char) -> bool {
    c == ' ' || c == '\t' || c == '\n' || c == '\r'
}

/// The class of a one-character symbol token, if `c` is one.
pub open spec fn symbol_class(c: char) -> Option<TokenClass> {
    if c == '+' {
        Some(TokenClass::Plus)
    } else if c == '-' {
        Some(TokenClass::Minus)
    } else if c == '*' {
        Some(TokenClass::Star)
    } else if c == '/' {
        Some(TokenClass::Slash)
    } else if c == '=' {
        Some(TokenClass::Equals)
    } else if c == '(' {
        Some(TokenClass::LeftParen)
    } else if c == ')' {
        Some(TokenClass::RightParen)
    } else {
        None
    }
}

/// End of the maximal run of digits, with at most one decimal point, from `j`;
/// and whether the run holds a decimal point.
pub open spec fn number_scan(s: Seq<char>, j: int, seen_dot: bool) -> (int, bool)
    decreases s.len() - j,
{
    if 0 <= j < s.len() && (is_digit(s[j]) || (s[j] == '.' && !seen_dot)) {
        number_scan(s, j + 1, seen_dot || s[j] == '.')
    } else {
        (j, seen_dot)
    }
}

/// End of the maximal run of identifier characters from `j`.
pub open spec fn ident_end(s: Seq<char>, j: int) -> int
    decreases s.len() - j,
{
    if 0 <= j < s.len() && is_ident_char(s[j]) {
        ident_end(s, j + 1)
    } else {
        j
    }
}

pub open spec fn prepend(p: Seq<Token>, r: Result<Seq<Token>, LexError>) -> Result<
    Seq<Token>,
    LexError,
> {
    match r {
        Ok(t) => Ok(p + t),
        Err(e) => Err(e),
    }
}

/// The tokens of `s` from position `i` on, closed by one `End` token at `s.len()`.
pub open spec fn lex_from(s: Seq<char>, i: int) -> Result<Seq<Token>, LexError>
    decreases s.len() - i,
{
    if i < 0 || i >= s.len() {
        Ok(seq![Token { class: TokenClass::End, start: s.len() as usize, end: s.len() as usize }])
    } else if is_space(s[i]) {
        lex_from(s, i + 1)
    } else if is_digit(s[i]) {
        let (e, dot) = number_scan(s, i, false);
        let class = if dot {
            TokenClass::Float
        } else {
            TokenClass::Int
        };
        if i < e <= s.len() {
            prepend(seq![Token { class, start: i as usize, end: e as usize }], lex_from(s, e))
        } else {
            Err(LexError { position: i as usize, found: s[i] })
        }
    } else if is_ident_start(s[i]) {
        let e = ident_end(s, i);
        if i < e <= s.len() {
            prepend(
                seq![Token { class: TokenClass::Identifier, start: i as usize, end: e as usize }],
                lex_from(s, e),
            )
        } else {
            Err(LexError { position: i as usize, found: s[i] })
        }
    } else if symbol_class(s[i]) is Some {
        prepend(
            seq![Token { class: symbol_class(s[i])->0, start: i as usize, end: (i + 1) as usize }],
            lex_from(s, i + 1),
        )
    } else {
        Err(LexError { position: i as usize, found: s[i] })
    }
}

/// The tokens of the whole of `s`.
pub open spec fn lex(s: Seq<char>) -> Result<Seq<Token>, LexError> {
    lex_from(s, 0)
}

proof fn lemma_number_scan_bounds(s: Seq<char>, j: int, seen_dot: bool)
    requires
        0 <= j <= s.len(),
    ensures
        j <= number_scan(s, j, seen_dot).0 <= s.len(),
    decreases s.len() - j,
{
    if j < s.len() && (is_digit(s[j]) || (s[j] == '.' && !seen_dot)) {
        lemma_number_scan_bounds(s, j + 1, seen_dot || s[j] == '.');
    }
}

proof fn lemma_ident_end_bounds(s: Seq<char>, j: int)
    requires
        0 <= j <= s.len(),
    ensures
        j <= ident_end(s, j) <= s.len(),
    decreases s.len() - j,
{
    if j < s.len() && is_ident_char(s[j]) {
        lemma_ident_end_bounds(s, j + 1);
    }
}

proof fn lemma_prepend_assoc(a: Seq<Token>, x: Token, r: Result<Seq<Token>, LexError>)
    ensures
        prepend(a, prepend(seq![x], r)) == prepend(a.push(x), r),
{
    match r {
        Ok(t) => {
            assert(a + (seq![x] + t) =~= a.push(x) + t);
        },
        Err(_) => {},
    }
}

/// Every token of a successful scan covers a span within the source,
/// and the last token is `End`.
pub open spec fn tokens_fit(s: Seq<char>, t: Seq<Token>) -> bool {
    &&& t.len() > 0
    &&& t.last().class == TokenClass::End
    &&& forall|k: int| 0 <= k < t.len() ==> #[trigger] t[k].start <= t[k].end <= s.len()
}

pub proof fn lemma_lex_fits(s: Seq<char>, i: int)
    requires
        0 <= i <= s.len(),
        s.len() <= usize::MAX,
    ensures
        lex_from(s, i) is Ok ==> tokens_fit(s, lex_from(s, i)->Ok_0),
    decreases s.len() - i,
{
    if i < s.len() {
        if is_space(s[i]) {
            lemma_lex_fits(s, i + 1);
        } else if is_digit(s[i]) {
            lemma_number_scan_bounds(s, i, false);
            let e = number_scan(s, i, false).0;
            if e > i {
                lemma_lex_fits(s, e);
            }
        } else if is_ident_start(s[i]) {
            lemma_ident_end_bounds(s, i);
            let e = ident_end(s, i);
            if e > i {
                lemma_lex_fits(s, e);
            }
        } else if symbol_class(s[i]) is Some {
            lemma_lex_fits(s, i + 1);
        }
    }
}

/// The characters of `s`, in order.
pub fn chars_of(s: &str) -> (r: Vec<char>)
    ensures
        r@ == s@,
{
    let mut out: Vec<char> = Vec::new();
    let mut it = s.chars();
    proof {
        broadcast use vstd::string::axiom_spec_iter, vstd::string::next_postcondition;
    }
    loop
        invariant
            out@ + it.remaining() == s@,
            it.decrease() is Some,
        ensures
            out@ == s@,
        decreases it.decrease()->0,
    {
        match it.next() {
            Some(c) => out.push(c),
            None => {
                assert(out@ + it.remaining() =~= out@);
                break ;
            },
        }
    }
    out
}

fn is_digit_exec(c: char) -> (r: bool)
    ensures
        r == is_digit(c),
{
    '0' <= c && c <= '9'
}

fn is_ident_start_exec(c: char) -> (r: bool)
    ensures
        r == is_ident_start(c),
{
    ('a' <= c && c <= 'z') || ('A' <= c && c <= 'Z') || c == '_'
}

fn symbol_class_exec(c: char) -> (r: Option<TokenClass>)
    ensures
        r == symbol_class(c),
{
    if c == '+' {
        Some(TokenClass::Plus)
    } else if c == '-' {
        Some(TokenClass::Minus)
    } else if c == '*' {
        Some(TokenClass::Star)
    } else if c == '/' {
        Some(TokenClass::Slash)
    } else if c == '=' {
        Some(TokenClass::Equals)
    } else if c == '(' {
        Some(TokenClass::LeftParen)
    } else if c == ')' {
        Some(TokenClass::RightParen)
    } else {
        None
    }
}

/// Scans all of `s` into tokens, closed by an `End` token, or reports the first
/// character that cannot start a token.
pub fn tokenize(s: &Vec<char>) -> (r: Result<Vec<Token>, LexError>)
    ensures
        r is Ok <==> lex(s@) is Ok,
        r is Ok ==> r->Ok_0@ == lex(s@)->Ok_0,
        r is Err ==> r == Err::<Vec<Token>, LexError>(lex(s@)->Err_0),
{
    let n = s.len();
    let mut tokens: Vec<Token> = Vec::new();
    let mut i: usize = 0;
    assert(tokens@ + seq![] =~= seq![]);
    while i < n
        invariant
            n == s@.len(),
            i <= n,
            lex(s@) == prepend(tokens@, lex_from(s@, i as int)),
        decreases n - i,
    {
        let c = s[i];
        if c == ' ' || c == '\t' || c == '\n' || c == '\r' {
            i = i + 1;
        } else if is_digit_exec(c) {
            let mut j: usize = i;
            let mut dot: bool = false;
            while j < n && (is_digit_exec(s[j]) || (s[j] == '.' && !dot))
                invariant
                    n == s@.len(),
                    i <= j <= n,
                    number_scan(s@, i as int, false) == number_scan(s@, j as int, dot),
                    j == i ==> !dot,
                decreases n - j,
            {
                dot = dot || s[j] == '.';
                j = j + 1;
            }
            let class = if dot {
                TokenClass::Float
            } else {
                TokenClass::Int
            };
            let tok = Token { class, start: i, end: j };
            proof {
                lemma_number_scan_bounds(s@, i as int, false);
                assert(j > i);
                assert(lex_from(s@, i as int) == prepend(seq![tok], lex_from(s@, j as int)));
                lemma_prepend_assoc(tokens@, tok, lex_from(s@, j as int));
            }
            tokens.push(tok);
            i = j;
        } else if is_ident_start_exec(c) {
            let mut j: usize = i;
            while j < n && (is_ident_start_exec(s[j]) || is_digit_exec(s[j]))
                invariant
                    n == s@.len(),
                    i <= j <= n,
                    ident_end(s@, i as int) == ident_end(s@, j as int),
                decreases n - j,
            {
                j = j + 1;
            }
            let tok = Token { class: TokenClass::Identifier, start: i, end: j };
            proof {
                lemma_ident_end_bounds(s@, i as int);
                assert(j > i);
                assert(lex_from(s@, i as int) == prepend(seq![tok], lex_from(s@, j as int)));
                lemma_prepend_assoc(tokens@, tok, lex_from(s@, j as int));
            }
            tokens.push(tok);
            i = j;
        } else {
            match symbol_class_exec(c) {
                Some(class) => {
                    let tok = Token { class, start: i, end: i + 1 };
                    proof {
                        assert(lex_from(s@, i as int) == prepend(seq![tok], lex_from(s@, i + 1)));
                        lemma_prepend_assoc(tokens@, tok, lex_from(s@, i + 1));
                    }
                    tokens.push(tok);
                    i = i + 1;
                },
                None => {
                    return Err(LexError { position: i, found: c });
                },
            }
        }
    }
    let end = Token { class: TokenClass::End, start: n, end: n };
    tokens.push(end);
    Ok(tokens)
}

/// A pull interface over the tokens of one source text.
pub struct Tokenizer {
    pub chars: Vec<char>,
    pub tokens: Vec<Token>,
    pub position: usize,
}

impl Tokenizer {
    /// The tokens are those of the characters, and the position is on one of them.
    pub open spec fn wf(&self) -> bool {
        &&& lex(self.chars@) is Ok
        &&& self.tokens@ == lex(self.chars@)->Ok_0
        &&& self.position < self.tokens@.len()
        &&& self.chars@.len() <= usize::MAX
        &&& self.tokens@.len() <= usize::MAX
    }

    pub proof fn lemma_fits(&self)
        requires
            self.wf(),
        ensures
            tokens_fit(self.chars@, self.tokens@),
    {
        lemma_lex_fits(self.chars@, 0);
    }

    /// Scans `code`; the first token is next.
    pub fn from(code: &str) -> (r: Result<Tokenizer, LexError>)
        ensures
            r is Ok <==> lex(code@) is Ok,
            r is Ok ==> r->Ok_0.wf() && r->Ok_0.chars@ == code@ && r->Ok_0.position == 0,
            r is Err ==> r->Err_0 == lex(code@)->Err_0,
    {
        let chars = chars_of(code);
        match tokenize(&chars) {
            Ok(tokens) => {
                let _ = chars.len();
                let _ = tokens.len();
                proof {
                    lemma_lex_fits(chars@, 0);
                }
                Ok(Tokenizer { chars, tokens, position: 0 })
            },
            Err(e) => Err(e),
        }
    }

    /// The next token, left in place.
    pub fn peek(&self) -> (r: Token)
        requires
            self.wf(),
        ensures
            r == self.tokens@[self.position as int],
    {
        self.tokens[self.position]
    }

    /// The next token, consumed; `End` is never passed.
    pub fn next(&mut self) -> (r: Token)
        requires
            old(self).wf(),
        ensures
            final(self).wf(),
            final(self).chars == old(self).chars,
            final(self).tokens == old(self).tokens,
            r == old(self).tokens@[old(self).position as int],
            final(self).position == if r.class == TokenClass::End {
                old(self).position
            } else {
                (old(self).position + 1) as usize
            },
    {
        proof {
            self.lemma_fits();
        }
        let t = self.tokens[self.position];
        if t.class != TokenClass::End {
            self.position = self.position + 1;
        }
        t
    }
}

} // verus!

//! Splitting source text into tokens.
//!
//! Tokens are separated by white space and `//` line comments. A name is a
//! letter or `_` followed by letters, digits or `_`; `dup`, `let` and
//! `match` are keywords; a name
//! followed by `-1` is a predecessor name; a number is a run of decimal
//! digits that fits in 32 bits. Where several tokens could start at a
//! place, the longest one is taken, and a keyword over a name of the same
//! length.
use vstd::prelude::*;

verus! {

/// A token of the textual syntax.
#[derive(Debug)]
pub enum Token {
    Name(String),
    /// A name followed by `-1`: the predecessor variable of a number match.
    Pred(String),
    Num(u32),
    /// `λ` or `@`.
    Lambda,
    Dollar,
    Hash,
    Asterisk,
    Add,
    Sub,
    Div,
    Mod,
    EqualsEquals,
    NotEquals,
    Ltn,
    Gtn,
    Lte,
    Gte,
    And,
    Or,
    Xor,
    Tilde,
    Shl,
    Shr,
    LBracket,
    RBracket,
    LParen,
    RParen,
    Comma,
    Semicolon,
    Colon,
    Equals,
    Dup,
    Let,
    Match,
}

/// The model of a token: names as character sequences.
pub enum TokV {
    Name(Seq<char>),
    Pred(Seq<char>),
    Num(u32),
    Lambda,
    Dollar,
    Hash,
    Asterisk,
    Add,
    Sub,
    Div,
    Mod,
    EqualsEquals,
    NotEquals,
    Ltn,
    Gtn,
    Lte,
    Gte,
    And,
    Or,
    Xor,
    Tilde,
    Shl,
    Shr,
    LBracket,
    RBracket,
    LParen,
    RParen,
    Comma,
    Semicolon,
    Colon,
    Equals,
    Dup,
    Let,
    Match,
}

impl View for Token {
    type V = TokV;

    open spec fn view(&self) -> TokV {
        match self {
            Token::Name(s) => TokV::Name(s@),
            Token::Pred(s) => TokV::Pred(s@),
            Token::Num(n) => TokV::Num(*n),
            Token::Lambda => TokV::Lambda,
            Token::Dollar => TokV::Dollar,
            Token::Hash => TokV::Hash,
            Token::Asterisk => TokV::Asterisk,
            Token::Add => TokV::Add,
            Token::Sub => TokV::Sub,
            Token::Div => TokV::Div,
            Token::Mod => TokV::Mod,
            Token::EqualsEquals => TokV::EqualsEquals,
            Token::NotEquals => TokV::NotEquals,
            Token::Ltn => TokV::Ltn,
            Token::Gtn => TokV::Gtn,
            Token::Lte => TokV::Lte,
            Token::Gte => TokV::Gte,
            Token::And => TokV::And,
            Token::Or => TokV::Or,
            Token::Xor => TokV::Xor,
            Token::Tilde => TokV::Tilde,
            Token::Shl => TokV::Shl,
            Token::Shr => TokV::Shr,
            Token::LBracket => TokV::LBracket,
            Token::RBracket => TokV::RBracket,
            Token::LParen => TokV::LParen,
            Token::RParen => TokV::RParen,
            Token::Comma => TokV::Comma,
            Token::Semicolon => TokV::Semicolon,
            Token::Colon => TokV::Colon,
            Token::Equals => TokV::Equals,
            Token::Dup => TokV::Dup,
            Token::Let => TokV::Let,
            Token::Match => TokV::Match,
        }
    }
}

/// The model of an optional token.
pub open spec fn opt_tok(t: Option<Token>) -> Option<TokV> {
    match t {
        Some(tok) => Some(tok@),
        None => None,
    }
}

/// The models of a sequence of tokens.
pub open spec fn toks_view(v: Seq<Token>) -> Seq<TokV> {
    v.map_values(|t: Token| t@)
}

pub open spec fn is_space(c: char) -> bool {
    c == ' ' || c == '\t' || c == '\n' || c == '\r' || c == '\x0C'
}

pub open spec fn is_digit(c: char) -> bool {
    '0' <= c && c <= '9'
}

pub open spec fn is_name_start(c: char) -> bool {
    c == '_' || ('a' <= c && c <= 'z') || ('A' <= c && c <= 'Z')
}

pub open spec fn is_name_char(c: char) -> bool {
    is_name_start(c) || is_digit(c)
}

/// The number of name characters from position `i` on.
pub open spec fn name_run(cs: Seq<char>, i: int) -> nat
    decreases cs.len() - i,
{
    if 0 <= i < cs.len() && is_name_char(cs[i]) {
        1 + name_run(cs, i + 1)
    } else {
        0
    }
}

/// The number of digits from position `i` on.
pub open spec fn digit_run(cs: Seq<char>, i: int) -> nat
    decreases cs.len() - i,
{
    if 0 <= i < cs.len() && is_digit(cs[i]) {
        1 + digit_run(cs, i + 1)
    } else {
        0
    }
}

/// The number of characters from position `i` on before a line break.
pub open spec fn line_rest(cs: Seq<char>, i: int) -> nat
    decreases cs.len() - i,
{
    if 0 <= i < cs.len() && cs[i] != '\n' {
        1 + line_rest(cs, i + 1)
    } else {
        0
    }
}

/// The value of the `n` digits from position `i` on, where it fits in 32
/// bits; `u32::MAX + 1` where it does not.
pub open spec fn digits_value(cs: Seq<char>, i: int, n: nat) -> nat
    decreases n,
{
    if n == 0 {
        0
    } else {
        let v = digits_value(cs, i, (n - 1) as nat) * 10 + (cs[i + n - 1] as nat - '0' as nat);
        if v > u32::MAX {
            (u32::MAX + 1) as nat
        } else {
            v as nat
        }
    }
}

/// The token a name-like text is: a keyword, or a name.
pub open spec fn word_token(text: Seq<char>) -> TokV {
    if text == "dup"@ {
        TokV::Dup
    } else if text == "let"@ {
        TokV::Let
    } else if text == "match"@ {
        TokV::Match
    } else {
        TokV::Name(text)
    }
}

/// The token made of symbols at position `i`, and its length; `None` where
/// no token starts with the character there.
pub open spec fn symbol_token(cs: Seq<char>, i: int) -> Option<(TokV, nat)> {
    let _n = cs.len();
    let c = cs[i];
    let next = if i + 1 < cs.len() {
        Some(cs[i + 1])
    } else {
        None
    };
    if c == 'λ' || c == '@' {
        Some((TokV::Lambda, 1))
    } else if c == '$' {
        Some((TokV::Dollar, 1))
    } else if c == '#' {
        Some((TokV::Hash, 1))
    } else if c == '*' {
        Some((TokV::Asterisk, 1))
    } else if c == '+' {
        Some((TokV::Add, 1))
    } else if c == '-' {
        Some((TokV::Sub, 1))
    } else if c == '/' {
        Some((TokV::Div, 1))
    } else if c == '%' {
        Some((TokV::Mod, 1))
    } else if c == '=' {
        if next == Some('=') {
            Some((TokV::EqualsEquals, 2))
        } else {
            Some((TokV::Equals, 1))
        }
    } else if c == '!' {
        if next == Some('=') {
            Some((TokV::NotEquals, 2))
        } else {
            None
        }
    } else if c == '<' {
        if next == Some('<') {
            Some((TokV::Shl, 2))
        } else if next == Some('=') {
            Some((TokV::Lte, 2))
        } else {
            Some((TokV::Ltn, 1))
        }
    } else if c == '>' {
        if next == Some('>') {
            Some((TokV::Shr, 2))
        } else if next == Some('=') {
            Some((TokV::Gte, 2))
        } else {
            Some((TokV::Gtn, 1))
        }
    } else if c == '&' {
        Some((TokV::And, 1))
    } else if c == '|' {
        Some((TokV::Or, 1))
    } else if c == '^' {
        Some((TokV::Xor, 1))
    } else if c == '~' {
        Some((TokV::Tilde, 1))
    } else if c == '{' {
        Some((TokV::LBracket, 1))
    } else if c == '}' {
        Some((TokV::RBracket, 1))
    } else if c == '(' {
        Some((TokV::LParen, 1))
    } else if c == ')' {
        Some((TokV::RParen, 1))
    } else if c == ',' {
        Some((TokV::Comma, 1))
    } else if c == ';' {
        Some((TokV::Semicolon, 1))
    } else if c == ':' {
        Some((TokV::Colon, 1))
    } else {
        None
    }
}

/// One step of the lexer at position `i`: the token found there (none for
/// white space or a comment) and the position after it; `None` where the
/// text there is no token.
pub open spec fn step_v(cs: Seq<char>, i: int) -> Option<(Option<TokV>, int)> {
    let c = cs[i];
    if is_space(c) {
        Some((None, i + 1))
    } else if c == '/' && i + 1 < cs.len() && cs[i + 1] == '/' {
        Some((None, i + 2 + line_rest(cs, i + 2)))
    } else if is_name_start(c) {
        let l = name_run(cs, i);
        if cs.len() - (i + l) > 1 && cs[i + l] == '-' && cs[i + l + 1] == '1' {
            Some((Some(TokV::Pred(cs.subrange(i, i + l + 2))), i + l + 2))
        } else {
            Some((Some(word_token(cs.subrange(i, i + l))), i + l))
        }
    } else if is_digit(c) {
        let l = digit_run(cs, i);
        let v = digits_value(cs, i, l);
        if v > u32::MAX {
            None
        } else {
            Some((Some(TokV::Num(v as u32)), i + l))
        }
    } else {
        match symbol_token(cs, i) {
            Some((t, l)) => Some((Some(t), i + l)),
            None => None,
        }
    }
}

/// The tokens of the text from position `i` on; `None` where some part of
/// it is no token.
pub open spec fn lex_from(cs: Seq<char>, i: int) -> Option<Seq<TokV>>
    decreases cs.len() - i,
{
    if i < 0 || i >= cs.len() {
        Some(Seq::empty())
    } else {
        match step_v(cs, i) {
            None => None,
            Some((t, j)) => if j <= i || j > cs.len() {
                None
            } else {
                match lex_from(cs, j) {
                    None => None,
                    Some(rest) => Some(
                        match t {
                            Some(tok) => seq![tok] + rest,
                            None => rest,
                        },
                    ),
                }
            },
        }
    }
}

/// The characters of a text, in order.
pub fn chars_of(s: &str) -> (r: Vec<char>)
    ensures
        r@ == s@,
{
    let mut out: Vec<char> = Vec::new();
    for c in iter: s.chars()
        invariant
            out@ == iter.seq().take(iter.index() as int),
    {
        out.push(c);
    }
    out
}

fn is_space_exec(c: char) -> (r: bool)
    ensures
        r == is_space(c),
{
    c == ' ' || c == '\t' || c == '\n' || c == '\r' || c == '\x0C'
}

fn is_digit_exec(c: char) -> (r: bool)
    ensures
        r == is_digit(c),
{
    '0' <= c && c <= '9'
}

fn is_name_start_exec(c: char) -> (r: bool)
    ensures
        r == is_name_start(c),
{
    c == '_' || ('a' <= c && c <= 'z') || ('A' <= c && c <= 'Z')
}

fn is_name_char_exec(c: char) -> (r: bool)
    ensures
        r == is_name_char(c),
{
    is_name_start_exec(c) || is_digit_exec(c)
}

/// The number of name characters from position `i` on.
fn name_run_exec(cs: &Vec<char>, i: usize) -> (r: usize)
    requires
        i <= cs@.len(),
    ensures
        r == name_run(cs@, i as int),
        i + r <= cs@.len(),
{
    let mut j = i;
    while j < cs.len() && is_name_char_exec(cs[j])
        invariant
            i <= j <= cs@.len(),
            name_run(cs@, i as int) == (j - i) + name_run(cs@, j as int),
        decreases cs@.len() - j,
    {
        j = j + 1;
    }
    j - i
}

/// The number of characters from position `i` on before a line break.
fn line_rest_exec(cs: &Vec<char>, i: usize) -> (r: usize)
    requires
        i <= cs@.len(),
    ensures
        r == line_rest(cs@, i as int),
        i + r <= cs@.len(),
{
    let mut j = i;
    while j < cs.len() && cs[j] != '\n'
        invariant
            i <= j <= cs@.len(),
            line_rest(cs@, i as int) == (j - i) + line_rest(cs@, j as int),
        decreases cs@.len() - j,
    {
        j = j + 1;
    }
    j - i
}

/// The digits from position `i` on: how many, and their value as
/// `digits_value` says.
fn digits_exec(cs: &Vec<char>, i: usize) -> (r: (usize, u64))
    requires
        i <= cs@.len(),
    ensures
        r.0 == digit_run(cs@, i as int),
        r.1 == digits_value(cs@, i as int, r.0 as nat),
        i + r.0 <= cs@.len(),
{
    let mut j = i;
    let mut v: u64 = 0;
    while j < cs.len() && is_digit_exec(cs[j])
        invariant
            i <= j <= cs@.len(),
            digit_run(cs@, i as int) == (j - i) + digit_run(cs@, j as int),
            v == digits_value(cs@, i as int, (j - i) as nat),
            v <= u32::MAX + 1,
        decreases cs@.len() - j,
    {
        let d = (cs[j] as u32 - '0' as u32) as u64;
        proof {
            assert(cs@[i + ((j + 1 - i) as nat) - 1] == cs@[j as int]);
        }
        v = v * 10 + d;
        if v > 0xffff_ffff {
            v = 0x1_0000_0000;
        }
        j = j + 1;
    }
    (j - i, v)
}

/// The keyword or name token of a text.
fn word_token_exec(text: Vec<char>) -> (r: Token)
    ensures
        r@ == word_token(text@),
{
    proof {
        reveal_strlit("dup");
        reveal_strlit("let");
        reveal_strlit("match");
    }
    if text.len() == 3 && text[0] == 'd' && text[1] == 'u' && text[2] == 'p' {
        assert(text@ =~= "dup"@);
        Token::Dup
    } else if text.len() == 3 && text[0] == 'l' && text[1] == 'e' && text[2] == 't' {
        assert(text@ =~= "let"@);
        Token::Let
    } else if text.len() == 5 && text[0] == 'm' && text[1] == 'a' && text[2] == 't' && text[3] == 'c'
        && text[4] == 'h' {
        assert(text@ =~= "match"@);
        Token::Match
    } else {
        proof {
            if text@ == "dup"@ {
                assert(text@[0] == 'd' && text@[1] == 'u' && text@[2] == 'p');
            }
            if text@ == "let"@ {
                assert(text@[0] == 'l' && text@[1] == 'e' && text@[2] == 't');
            }
            if text@ == "match"@ {
                assert(text@[0] == 'm' && text@[1] == 'a' && text@[2] == 't' && text@[3] == 'c' && text@[4] == 'h');
            }
        }
        Token::Name(string_of(&text))
    }
}

/// The characters as a string.
fn string_of(cs: &Vec<char>) -> (r: String)
    ensures
        r@ == cs@,
{
    let mut s = String::new();
    let mut i: usize = 0;
    while i < cs.len()
        invariant
            i <= cs@.len(),
            s@ == cs@.subrange(0, i as int),
        decreases cs@.len() - i,
    {
        crate::term::push_char(&mut s, cs[i]);
        i = i + 1;
        assert(s@ =~= cs@.subrange(0, i as int));
    }
    assert(cs@.subrange(0, cs@.len() as int) =~= cs@);
    s
}

/// The characters from position `i` to `j`.
fn slice_chars(cs: &Vec<char>, i: usize, j: usize) -> (r: Vec<char>)
    requires
        i <= j <= cs@.len(),
    ensures
        r@ == cs@.subrange(i as int, j as int),
{
    let mut out: Vec<char> = Vec::new();
    let mut k = i;
    while k < j
        invariant
            i <= k <= j,
            j <= cs@.len(),
            out@ == cs@.subrange(i as int, k as int),
        decreases j - k,
    {
        out.push(cs[k]);
        k = k + 1;
        assert(out@ =~= cs@.subrange(i as int, k as int));
    }
    out
}

/// The token made of symbols at position `i`, as `symbol_token` says.
fn symbol_token_exec(cs: &Vec<char>, i: usize) -> (r: Option<(Token, usize)>)
    requires
        i < cs@.len(),
    ensures
        match r {
            Some((t, l)) => symbol_token(cs@, i as int) == Some((t@, l as nat)),
            None => symbol_token(cs@, i as int) is None,
        },
{
    let _n = cs.len();
    let c = cs[i];
    let next = if i + 1 < cs.len() {
        Some(cs[i + 1])
    } else {
        None
    };
    if c == 'λ' || c == '@' {
        Some((Token::Lambda, 1))
    } else if c == '$' {
        Some((Token::Dollar, 1))
    } else if c == '#' {
        Some((Token::Hash, 1))
    } else if c == '*' {
        Some((Token::Asterisk, 1))
    } else if c == '+' {
        Some((Token::Add, 1))
    } else if c == '-' {
        Some((Token::Sub, 1))
    } else if c == '/' {
        Some((Token::Div, 1))
    } else if c == '%' {
        Some((Token::Mod, 1))
    } else if c == '=' {
        if next == Some('=') {
            Some((Token::EqualsEquals, 2))
        } else {
            Some((Token::Equals, 1))
        }
    } else if c == '!' {
        if next == Some('=') {
            Some((Token::NotEquals, 2))
        } else {
            None
        }
    } else if c == '<' {
        if next == Some('<') {
            Some((Token::Shl, 2))
        } else if next == Some('=') {
            Some((Token::Lte, 2))
        } else {
            Some((Token::Ltn, 1))
        }
    } else if c == '>' {
        if next == Some('>') {
            Some((Token::Shr, 2))
        } else if next == Some('=') {
            Some((Token::Gte, 2))
        } else {
            Some((Token::Gtn, 1))
        }
    } else if c == '&' {
        Some((Token::And, 1))
    } else if c == '|' {
        Some((Token::Or, 1))
    } else if c == '^' {
        Some((Token::Xor, 1))
    } else if c == '~' {
        Some((Token::Tilde, 1))
    } else if c == '{' {
        Some((Token::LBracket, 1))
    } else if c == '}' {
        Some((Token::RBracket, 1))
    } else if c == '(' {
        Some((Token::LParen, 1))
    } else if c == ')' {
        Some((Token::RParen, 1))
    } else if c == ',' {
        Some((Token::Comma, 1))
    } else if c == ';' {
        Some((Token::Semicolon, 1))
    } else if c == ':' {
        Some((Token::Colon, 1))
    } else {
        None
    }
}

/// One step of the lexer, as `step_v` says; the position after the step
/// lies past `i` and within the text.
fn step_exec(cs: &Vec<char>, i: usize) -> (r: Option<(Option<Token>, usize)>)
    requires
        i < cs@.len(),
    ensures
        match r {
            Some((t, j)) => {
                &&& step_v(cs@, i as int) == Some((
                    match t {
                        Some(tok) => Some(tok@),
                        None => None,
                    },
                    j as int,
                ))
                &&& i < j <= cs@.len()
            },
            None => step_v(cs@, i as int) is None,
        },
{
    let _n = cs.len();
    let c = cs[i];
    if is_space_exec(c) {
        Some((None, i + 1))
    } else if c == '/' && i + 1 < cs.len() && cs[i + 1] == '/' {
        let l = line_rest_exec(cs, i + 2);
        Some((None, i + 2 + l))
    } else if is_name_start_exec(c) {
        let l = name_run_exec(cs, i);
        if cs.len() - (i + l) > 1 && cs[i + l] == '-' && cs[i + l + 1] == '1' {
            let text = slice_chars(cs, i, i + l + 2);
            Some((Some(Token::Pred(string_of(&text))), i + l + 2))
        } else {
            let text = slice_chars(cs, i, i + l);
            Some((Some(word_token_exec(text)), i + l))
        }
    } else if is_digit_exec(c) {
        let (l, v) = digits_exec(cs, i);
        if v > 0xffff_ffff {
            None
        } else {
            Some((Some(Token::Num(v as u32)), i + l))
        }
    } else {
        match symbol_token_exec(cs, i) {
            Some((t, l)) => Some((Some(t), i + l)),
            None => None,
        }
    }
}

/// The tokens of a text, as `lex_from` says from its start; `None` where
/// some part of it is no token.
pub fn token_stream(code: &str) -> (r: Option<Vec<Token>>)
    ensures
        match r {
            Some(v) => lex_from(code@, 0) == Some(toks_view(v@)),
            None => lex_from(code@, 0) is None,
        },
{
    let cs = chars_of(code);
    let mut out: Vec<Token> = Vec::new();
    let mut i: usize = 0;
    proof {
        assert(toks_view(out@) =~= Seq::<TokV>::empty());
    }
    while i < cs.len()
        invariant
            i <= cs@.len(),
            cs@ == code@,
            lex_from(code@, 0) == match lex_from(code@, i as int) {
                Some(rest) => Some(toks_view(out@) + rest),
                None => None,
            },
        decreases cs@.len() - i,
    {
        match step_exec(&cs, i) {
            None => {
                return None;
            },
            Some((t, j)) => {
                let ghost before = out@;
                let ghost tv = opt_tok(t);
                match t {
                    Some(tok) => {
                        out.push(tok);
                        proof {
                            assert(toks_view(out@) =~= toks_view(before).push(tok@));
                        }
                    },
                    None => {},
                }
                proof {
                    let rest = lex_from(code@, j as int);
                    if rest is Some {
                        match tv {
                            Some(tok) => {
                                assert(toks_view(out@) + rest->0 =~= toks_view(before) + (seq![tok]
                                    + rest->0));
                            },
                            None => {},
                        }
                    }
                }
                i = j;
            },
        }
    }
    proof {
        assert(toks_view(out@) + Seq::<TokV>::empty() =~= toks_view(out@));
    }
    Some(out)
}

} // verus!

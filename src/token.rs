//! The tokens that pass between the lexer, the resolver and the generator.
use vstd::prelude::*;

verus! {

/// One token. Numbers are carried as the 64-bit pattern the stream will hold:
/// `NumF` holds the bits of a 64-bit float.
#[derive(Debug, PartialEq)]
pub enum Token {
    OpCode(String),
    Func(String),
    NumU(u64),
    NumI(i64),
    NumF(u64),
}

/// A token as a mathematical value.
pub enum Tok {
    Op(Seq<char>),
    Label(Seq<char>),
    U(u64),
    I(i64),
    F(u64),
}

impl View for Token {
    type V = Tok;

    open spec fn view(&self) -> Tok {
        match self {
            Token::OpCode(s) => Tok::Op(s@),
            Token::Func(s) => Tok::Label(s@),
            Token::NumU(n) => Tok::U(*n),
            Token::NumI(n) => Tok::I(*n),
            Token::NumF(n) => Tok::F(*n),
        }
    }
}

/// The views of a sequence of tokens.
pub open spec fn toks(ts: Seq<Token>) -> Seq<Tok> {
    ts.map_values(|t: Token| t@)
}

/// Whether a token is a number.
pub open spec fn is_num_tok(t: Tok) -> bool {
    t is U || t is I || t is F
}

impl Token {
    /// Whether the token is the `Push` opcode.
    pub fn is_push(&self) -> (r: bool)
        ensures
            r == (self@ == Tok::Op("Push"@) || self@ == Tok::Op("PUSH"@)),
    {
        match self {
            Token::OpCode(s) => {
                let c = chars_of(s);
                crate::instruction::chars_eq(&c, "Push") || crate::instruction::chars_eq(&c, "PUSH")
            },
            _ => false,
        }
    }

    /// Whether the token is one of the conditional jumps.
    pub fn is_conditional_jmp(&self) -> (r: bool)
        ensures
            r == (self@ == Tok::Op("JE"@) || self@ == Tok::Op("JNE"@) || self@ == Tok::Op("JG"@)
                || self@ == Tok::Op("JL"@)),
    {
        match self {
            Token::OpCode(s) => {
                let c = chars_of(s);
                crate::instruction::chars_eq(&c, "JE") || crate::instruction::chars_eq(&c, "JNE")
                    || crate::instruction::chars_eq(&c, "JG") || crate::instruction::chars_eq(&c, "JL")
            },
            _ => false,
        }
    }

    /// Whether the token is a number.
    pub fn is_num(&self) -> (r: bool)
        ensures
            r == is_num_tok(self@),
    {
        match self {
            Token::NumU(_) | Token::NumI(_) | Token::NumF(_) => true,
            _ => false,
        }
    }

    /// A copy of the token.
    pub fn copy(&self) -> (r: Token)
        ensures
            r@ == self@,
    {
        match self {
            Token::OpCode(s) => Token::OpCode(s.clone()),
            Token::Func(s) => Token::Func(s.clone()),
            Token::NumU(n) => Token::NumU(*n),
            Token::NumI(n) => Token::NumI(*n),
            Token::NumF(n) => Token::NumF(*n),
        }
    }
}

/// The characters of a string slice.
pub fn chars_of_str(t: &str) -> (r: Vec<char>)
    ensures
        r@ == t@,
{
    let n = t.unicode_len();
    let mut r: Vec<char> = Vec::new();
    let mut i: usize = 0;
    while i < n
        invariant
            n == t@.len(),
            i <= n,
            r@ == t@.subrange(0, i as int),
        decreases n - i,
    {
        r.push(t.get_char(i));
        i += 1;
        assert(r@ =~= t@.subrange(0, i as int));
    }
    assert(r@ =~= t@);
    r
}

/// The characters of a string.
pub fn chars_of(s: &String) -> (r: Vec<char>)
    ensures
        r@ == s@,
{
    chars_of_str(s.as_str())
}

/// Relies on `String`'s `FromIterator<char>`: the string collected from a run of
/// characters holds exactly those characters.
#[verifier::external_body]
pub(crate) fn string_of(chars: &Vec<char>) -> (r: String)
    ensures
        r@ == chars@,
{
    chars.iter().collect()
}

} // verus!

//! Source text to tokens.
use vstd::prelude::*;
use crate::error::{CompError, Failure};
use crate::platform::Platform;
use crate::token::{chars_of_str, string_of, toks, Tok, Token};

verus! {

/// What the lexer recognises, before float literals are converted.
pub enum Lexeme {
    Word(Seq<char>),
    Label(Seq<char>),
    Unsigned(u64),
    Signed(i64),
    /// A float literal, by its text.
    Decimal(Seq<char>),
}

pub open spec fn is_letter(c: char) -> bool {
    ('a' <= c && c <= 'z') || ('A' <= c && c <= 'Z')
}

pub open spec fn is_digit(c: char) -> bool {
    '0' <= c && c <= '9'
}

pub open spec fn is_space(c: char) -> bool {
    c == ' ' || c == '\t' || c == '\n' || c == '\r'
}

/// Whether a character starts a numeric literal.
pub open spec fn starts_number(c: char) -> bool {
    is_digit(c) || c == '+' || c == '-'
}

/// Whether a character continues a numeric literal.
pub open spec fn in_number(c: char) -> bool {
    is_digit(c) || c == '.' || c == '_'
}

/// The end of the word that continues at `j`: the first whitespace or `:` from `j` on.
pub open spec fn word_end(cs: Seq<char>, j: int) -> int
    decreases cs.len() - j,
{
    if j < 0 || j >= cs.len() || is_space(cs[j]) || cs[j] == ':' { j } else { word_end(cs, j + 1) }
}

/// The end of the numeric literal that continues at `j`.
pub open spec fn number_end(cs: Seq<char>, j: int) -> int
    decreases cs.len() - j,
{
    if j < 0 || j >= cs.len() || !in_number(cs[j]) { j } else { number_end(cs, j + 1) }
}

pub open spec fn digit_value(c: char) -> int {
    c as int - '0' as int
}

/// The value of a run of decimal digits.
pub open spec fn digits_value(d: Seq<char>) -> nat
    decreases d.len(),
{
    if d.len() == 0 { 0 } else { (digits_value(d.drop_last()) * 10 + digit_value(d.last())) as nat }
}

pub open spec fn all_digits(d: Seq<char>) -> bool {
    forall|i: int| 0 <= i < d.len() ==> is_digit(#[trigger] d[i])
}

/// The text after a leading sign, if any.
pub open spec fn unsigned_part(t: Seq<char>) -> Seq<char> {
    if t.len() > 0 && (t[0] == '+' || t[0] == '-') { t.drop_first() } else { t }
}

/// The value of a literal read as an unsigned 64-bit integer: an optional `+`
/// and one or more digits, at most `u64::MAX`.
pub open spec fn unsigned_value(t: Seq<char>) -> Option<u64> {
    let d = unsigned_part(t);
    if t.len() > 0 && t[0] == '-' {
        None
    } else if d.len() > 0 && all_digits(d) && digits_value(d) <= u64::MAX {
        Some(digits_value(d) as u64)
    } else {
        None
    }
}

/// The value of a literal read as a signed 64-bit integer: an optional sign
/// and one or more digits, within the domain.
pub open spec fn signed_value(t: Seq<char>) -> Option<i64> {
    let d = unsigned_part(t);
    let neg = t.len() > 0 && t[0] == '-';
    let v = digits_value(d) as int;
    if d.len() > 0 && all_digits(d) && (if neg { v <= 0x8000_0000_0000_0000 } else { v <= i64::MAX }) {
        Some((if neg { -v } else { v }) as i64)
    } else {
        None
    }
}

/// Whether a literal reads as a float: an optional sign, then digits with at
/// most one `.`, and at least one digit.
pub open spec fn float_shaped(t: Seq<char>) -> bool {
    let d = unsigned_part(t);
    &&& forall|i: int| 0 <= i < d.len() ==> is_digit(#[trigger] d[i]) || d[i] == '.'
    &&& exists|i: int| 0 <= i < d.len() && is_digit(#[trigger] d[i])
    &&& forall|i: int, j: int| 0 <= i < d.len() && 0 <= j < d.len() && #[trigger] d[i] == '.'
        && #[trigger] d[j] == '.' ==> i == j
}

/// How a numeric literal is read: unsigned if it can be, else signed, else
/// float; `None` when it is none of them.
pub open spec fn classify(t: Seq<char>) -> Option<Lexeme> {
    if let Some(v) = unsigned_value(t) {
        Some(Lexeme::Unsigned(v))
    } else if let Some(v) = signed_value(t) {
        Some(Lexeme::Signed(v))
    } else if float_shaped(t) {
        Some(Lexeme::Decimal(t))
    } else {
        None
    }
}

pub open spec fn then_lexeme(l: Lexeme, rest: Result<Seq<Lexeme>, Failure>) -> Result<Seq<Lexeme>, Failure> {
    match rest {
        Ok(ls) => Ok(seq![l] + ls),
        Err(e) => Err(e),
    }
}

/// The lexemes of `cs` from position `i` on. A letter starts a word, which runs
/// to the next whitespace and is a label when `:` ends it; a digit or sign starts
/// a numeric literal, which runs over digits, `.` and `_`; whitespace and any
/// other character are skipped.
pub open spec fn lex_from(cs: Seq<char>, i: int) -> Result<Seq<Lexeme>, Failure>
    decreases cs.len() - i,
{
    if i < 0 || i >= cs.len() {
        Ok(seq![])
    } else if is_letter(cs[i]) {
        let j = word_end(cs, i + 1);
        if i < j < cs.len() && cs[j] == ':' {
            then_lexeme(Lexeme::Label(cs.subrange(i, j)), lex_from(cs, j + 1))
        } else if i < j <= cs.len() {
            then_lexeme(Lexeme::Word(cs.subrange(i, j)), lex_from(cs, j))
        } else {
            Err(Failure::Impossible)
        }
    } else if starts_number(cs[i]) {
        let j = number_end(cs, i + 1);
        if i < j <= cs.len() {
            match classify(cs.subrange(i, j)) {
                Some(l) => then_lexeme(l, lex_from(cs, j)),
                None => Err(Failure::Overflow),
            }
        } else {
            Err(Failure::Impossible)
        }
    } else {
        lex_from(cs, i + 1)
    }
}

/// The lexemes of a source text; an empty text is an error.
pub open spec fn lex_spec(cs: Seq<char>) -> Result<Seq<Lexeme>, Failure> {
    if cs.len() == 0 { Err(Failure::EndOfInput) } else { lex_from(cs, 0) }
}

/// The float literal texts among lexemes, in order.
pub open spec fn decimal_texts(ls: Seq<Lexeme>) -> Seq<Seq<char>>
    decreases ls.len(),
{
    if ls.len() == 0 {
        seq![]
    } else {
        decimal_texts(ls.drop_last()) + match ls.last() {
            Lexeme::Decimal(t) => seq![t],
            _ => Seq::<Seq<char>>::empty(),
        }
    }
}

/// The answer in `bits` for lexeme `i`: `bits[k]` belongs to the `k`th float
/// literal. `None` where `bits` runs short.
pub open spec fn bit_at(ls: Seq<Lexeme>, bits: Seq<Option<u64>>, i: int) -> Option<u64> {
    let k = decimal_texts(ls.subrange(0, i)).len() as int;
    if k < bits.len() { bits[k] } else { None }
}

/// Whether `bits` gives the bits of every float literal among the lexemes.
pub open spec fn bits_cover(ls: Seq<Lexeme>, bits: Seq<Option<u64>>) -> bool {
    forall|i: int| 0 <= i < ls.len() && ls[i] is Decimal ==> #[trigger] bit_at(ls, bits, i) is Some
}

/// The token a lexeme becomes; a float literal takes the bits `b`.
pub open spec fn token_with(l: Lexeme, b: Option<u64>) -> Tok {
    match l {
        Lexeme::Word(w) => Tok::Op(w),
        Lexeme::Label(w) => Tok::Label(w),
        Lexeme::Unsigned(v) => Tok::U(v),
        Lexeme::Signed(v) => Tok::I(v),
        Lexeme::Decimal(_) => Tok::F(if let Some(x) = b { x } else { 0 }),
    }
}

/// The tokens of a source text when the `k`th float literal has the bits
/// `bits[k]`: the error of `lex_spec` if there is one, else `Impossible` when
/// some float literal has no bits, else each lexeme's token.
pub open spec fn lex_with_spec(src: Seq<char>, bits: Seq<Option<u64>>) -> Result<Seq<Tok>, Failure> {
    match lex_spec(src) {
        Err(k) => Err(k),
        Ok(ls) => if bits_cover(ls, bits) {
            Ok(Seq::new(ls.len(), |i: int| token_with(ls[i], bit_at(ls, bits, i))))
        } else {
            Err(Failure::Impossible)
        },
    }
}

/// Whether `r` is what `lex_with_spec` gives.
pub open spec fn lexed_with(src: Seq<char>, bits: Seq<Option<u64>>, r: Result<Vec<Token>, CompError>) -> bool {
    match lex_with_spec(src, bits) {
        Ok(ts) => r is Ok && toks(r->Ok_0@) == ts,
        Err(k) => r is Err && r->Err_0.kind() == k,
    }
}

/// The views of a list of character runs.
pub open spec fn texts_view(v: Seq<Vec<char>>) -> Seq<Seq<char>> {
    v.map_values(|t: Vec<char>| t@)
}

proof fn lemma_push_lexeme(done: Seq<Lexeme>, l: Lexeme, bits: Seq<Option<u64>>)
    ensures
        forall|j: int| 0 <= j < done.len() ==> #[trigger] bit_at(done.push(l), bits, j) == bit_at(done, bits, j),
        done.push(l).subrange(0, done.len() as int) == done,
        bits_cover(done.push(l), bits) == (bits_cover(done, bits)
            && (l is Decimal ==> bit_at(done.push(l), bits, done.len() as int) is Some)),
        decimal_texts(done.push(l)) == decimal_texts(done) + match l {
            Lexeme::Decimal(t) => seq![t],
            _ => Seq::<Seq<char>>::empty(),
        },
{
    let d = done.push(l);
    assert(d.drop_last() =~= done);
    assert(d.subrange(0, done.len() as int) =~= done);
    assert forall|j: int| 0 <= j < done.len() implies #[trigger] bit_at(d, bits, j) == bit_at(done, bits, j) by {
        assert(d.subrange(0, j) =~= done.subrange(0, j));
    }
    if bits_cover(d, bits) {
        assert forall|i: int| 0 <= i < done.len() && done[i] is Decimal implies #[trigger] bit_at(done, bits, i) is Some by {
            assert(d[i] == done[i]);
            assert(bit_at(d, bits, i) is Some);
        }
        if l is Decimal {
            assert(d[done.len() as int] == l);
        }
    }
    if bits_cover(done, bits) && (l is Decimal ==> bit_at(d, bits, done.len() as int) is Some) {
        assert forall|i: int| 0 <= i < d.len() && d[i] is Decimal implies #[trigger] bit_at(d, bits, i) is Some by {
            if i < done.len() {
                assert(d[i] == done[i]);
                assert(bit_at(done, bits, i) is Some);
            }
        }
    }
}

pub proof fn lemma_word_end_bounds(cs: Seq<char>, j: int)
    requires
        0 <= j <= cs.len(),
    ensures
        j <= word_end(cs, j) <= cs.len(),
    decreases cs.len() - j,
{
    if j < cs.len() && !is_space(cs[j]) && cs[j] != ':' {
        lemma_word_end_bounds(cs, j + 1);
    }
}

pub proof fn lemma_number_end_bounds(cs: Seq<char>, j: int)
    requires
        0 <= j <= cs.len(),
    ensures
        j <= number_end(cs, j) <= cs.len(),
    decreases cs.len() - j,
{
    if j < cs.len() && in_number(cs[j]) {
        lemma_number_end_bounds(cs, j + 1);
    }
}

/// The value of a decimal digit.
fn digit_of(c: char) -> (r: Option<u64>)
    ensures
        is_digit(c) ==> r == Some(digit_value(c) as u64),
        !is_digit(c) ==> r is None,
{
    if '0' <= c && c <= '9' {
        Some((c as u32 - '0' as u32) as u64)
    } else {
        None
    }
}

/// The value of the digits `t[start..]`, when they are all digits, there is at
/// least one, and the value is at most `cap`.
fn digits_up_to(t: &Vec<char>, start: usize, cap: u64) -> (r: Option<u64>)
    requires
        start <= t@.len(),
    ensures
        ({
            let d = t@.subrange(start as int, t@.len() as int);
            r == (if d.len() > 0 && all_digits(d) && digits_value(d) <= cap {
                Some(digits_value(d) as u64)
            } else {
                None
            })
        }),
{
    let n = t.len();
    if start >= n {
        return None;
    }
    let mut v: u64 = 0;
    let mut big = false;
    let mut i: usize = start;
    assert(t@.subrange(start as int, start as int) =~= Seq::<char>::empty());
    while i < n
        invariant
            start <= i <= n,
            n == t@.len(),
            all_digits(t@.subrange(start as int, i as int)),
            big ==> digits_value(t@.subrange(start as int, i as int)) > cap,
            !big ==> v == digits_value(t@.subrange(start as int, i as int)) && v <= cap,
        decreases n - i,
    {
        let ghost p = t@.subrange(start as int, i as int);
        let ghost q = t@.subrange(start as int, i + 1);
        assert(q.drop_last() =~= p);
        let dv = match digit_of(t[i]) {
            Some(x) => x,
            None => {
                assert(!all_digits(t@.subrange(start as int, n as int))) by {
                    assert(t@.subrange(start as int, n as int)[i - start] == t@[i as int]);
                }
                return None;
            },
        };
        assert(digits_value(q) == digits_value(p) * 10 + dv);
        if !big {
            if dv > cap || v > (cap - dv) / 10 {
                assert(v * 10 + dv > cap) by (nonlinear_arith)
                    requires dv > cap || (dv <= cap && v > (cap - dv) / 10), v >= 0;
                big = true;
            } else {
                assert(v * 10 + dv <= cap) by (nonlinear_arith)
                    requires dv <= cap, v <= (cap - dv) / 10;
                v = v * 10 + dv;
            }
        } else {
            assert(digits_value(q) > cap) by (nonlinear_arith)
                requires digits_value(q) == digits_value(p) * 10 + dv, digits_value(p) > cap;
        }
        i += 1;
        assert(all_digits(t@.subrange(start as int, i as int))) by {
            assert forall|k: int| 0 <= k < q.len() implies is_digit(#[trigger] q[k]) by {
                if k < p.len() {
                    assert(q[k] == p[k]);
                }
            }
        }
    }
    if big { None } else { Some(v) }
}

/// Reads a literal as an unsigned 64-bit integer.
pub fn parse_unsigned(t: &Vec<char>) -> (r: Option<u64>)
    ensures
        r == unsigned_value(t@),
{
    let n = t.len();
    if n > 0 && t[0] == '-' {
        return None;
    }
    let start: usize = if n > 0 && t[0] == '+' { 1 } else { 0 };
    assert(unsigned_part(t@) =~= t@.subrange(start as int, n as int));
    digits_up_to(t, start, u64::MAX)
}

/// Reads a literal as a signed 64-bit integer.
pub fn parse_signed(t: &Vec<char>) -> (r: Option<i64>)
    ensures
        r == signed_value(t@),
{
    let n = t.len();
    let neg = n > 0 && t[0] == '-';
    let start: usize = if n > 0 && (t[0] == '+' || t[0] == '-') { 1 } else { 0 };
    assert(unsigned_part(t@) =~= t@.subrange(start as int, n as int));
    if neg {
        match digits_up_to(t, start, 0x8000_0000_0000_0000u64) {
            Some(v) => {
                if v == 0x8000_0000_0000_0000u64 {
                    Some(i64::MIN)
                } else {
                    Some(-(v as i64))
                }
            },
            None => None,
        }
    } else {
        match digits_up_to(t, start, i64::MAX as u64) {
            Some(v) => Some(v as i64),
            None => None,
        }
    }
}

/// Whether a literal reads as a float.
pub fn is_float_shaped(t: &Vec<char>) -> (r: bool)
    ensures
        r == float_shaped(t@),
{
    let n = t.len();
    let start: usize = if n > 0 && (t[0] == '+' || t[0] == '-') { 1 } else { 0 };
    let ghost d = t@.subrange(start as int, n as int);
    assert(unsigned_part(t@) =~= d);
    let mut i: usize = start;
    let mut digit_seen = false;
    let mut dot: Option<usize> = None;
    while i < n
        invariant
            start <= i <= n,
            n == t@.len(),
            d == t@.subrange(start as int, n as int),
            unsigned_part(t@) == d,
            forall|k: int| 0 <= k < i - start ==> is_digit(#[trigger] d[k]) || d[k] == '.',
            digit_seen <==> exists|k: int| 0 <= k < i - start && is_digit(#[trigger] d[k]),
            dot is None ==> forall|k: int| 0 <= k < i - start ==> #[trigger] d[k] != '.',
            dot matches Some(p) ==> p < i - start && d[p as int] == '.' && forall|k: int|
                0 <= k < i - start && k != p ==> #[trigger] d[k] != '.',
        decreases n - i,
    {
        let c = t[i];
        assert(d[i - start] == c);
        if '0' <= c && c <= '9' {
            digit_seen = true;
        } else if c == '.' {
            if let Some(p) = dot {
                assert(d[p as int] == '.' && d[i - start] == '.' && p != i - start);
                assert(!float_shaped(t@));
                return false;
            }
            dot = Some(i - start);
        } else {
            assert(!(is_digit(d[i - start]) || d[i - start] == '.'));
            assert(!float_shaped(t@));
            return false;
        }
        i += 1;
    }
    digit_seen
}

/// A scanned numeric literal: an integer token, or the text of a float literal.
pub enum Numeral {
    Integer(Token),
    Decimal(Vec<char>),
}

/// What `classify` says of a scanned literal, as `get_num` returns it.
pub open spec fn numeral_matches(r: Result<Numeral, Failure>, c: Option<Lexeme>) -> bool {
    match c {
        Some(Lexeme::Decimal(t)) => r matches Ok(Numeral::Decimal(v)) && v@ == t,
        Some(l) => r matches Ok(Numeral::Integer(tok)) && tok@ == token_with(l, None),
        None => r == Err::<Numeral, Failure>(Failure::Overflow),
    }
}

/// Reads a numeric literal: unsigned if it can be, else signed, else the text
/// of a float literal.
fn classify_literal(t: Vec<char>) -> (r: Result<Numeral, Failure>)
    ensures
        numeral_matches(r, classify(t@)),
{
    if let Some(v) = parse_unsigned(&t) {
        return Ok(Numeral::Integer(Token::NumU(v)));
    }
    if let Some(v) = parse_signed(&t) {
        return Ok(Numeral::Integer(Token::NumI(v)));
    }
    if is_float_shaped(&t) {
        Ok(Numeral::Decimal(t))
    } else {
        Err(Failure::Overflow)
    }
}

/// Puts lexemes already read in front of the result for the rest of the text.
pub open spec fn after(done: Seq<Lexeme>, rest: Result<Seq<Lexeme>, Failure>) -> Result<Seq<Lexeme>, Failure> {
    match rest {
        Ok(ls) => Ok(done + ls),
        Err(e) => Err(e),
    }
}

proof fn lemma_after_step(done: Seq<Lexeme>, l: Lexeme, rest: Result<Seq<Lexeme>, Failure>)
    ensures
        after(done, then_lexeme(l, rest)) == after(done.push(l), rest),
{
    if let Ok(ls) = rest {
        assert(done + (seq![l] + ls) =~= done.push(l) + ls);
    }
}

proof fn lemma_word_end_step(cs: Seq<char>, j: int)
    requires
        0 <= j < cs.len(),
        !is_space(cs[j]),
        cs[j] != ':',
    ensures
        word_end(cs, j) == word_end(cs, j + 1),
{
}

fn is_space_char(c: char) -> (r: bool)
    ensures
        r == is_space(c),
{
    c == ' ' || c == '\t' || c == '\n' || c == '\r'
}

fn is_letter_char(c: char) -> (r: bool)
    ensures
        r == is_letter(c),
{
    ('a' <= c && c <= 'z') || ('A' <= c && c <= 'Z')
}

fn is_number_start_char(c: char) -> (r: bool)
    ensures
        r == starts_number(c),
{
    ('0' <= c && c <= '9') || c == '+' || c == '-'
}

fn is_number_char(c: char) -> (r: bool)
    ensures
        r == in_number(c),
{
    ('0' <= c && c <= '9') || c == '.' || c == '_'
}

/// A text yields at most one lexeme per character.
pub proof fn lemma_lex_len(cs: Seq<char>, i: int)
    requires
        0 <= i,
    ensures
        lex_from(cs, i) matches Ok(ls) ==> ls.len() <= cs.len() - i || i >= cs.len(),
    decreases cs.len() - i,
{
    if i < cs.len() {
        if is_letter(cs[i]) {
            lemma_word_end_bounds(cs, i + 1);
            let j = word_end(cs, i + 1);
            if j < cs.len() && cs[j] == ':' {
                lemma_lex_len(cs, j + 1);
            } else {
                lemma_lex_len(cs, j);
            }
        } else if starts_number(cs[i]) {
            lemma_number_end_bounds(cs, i + 1);
            lemma_lex_len(cs, number_end(cs, i + 1));
        } else {
            lemma_lex_len(cs, i + 1);
        }
    }
}

proof fn lemma_number_end_all(cs: Seq<char>, j: int)
    requires
        0 <= j <= cs.len(),
        forall|i: int| j <= i < cs.len() ==> in_number(#[trigger] cs[i]),
    ensures
        number_end(cs, j) == cs.len(),
    decreases cs.len() - j,
{
    if j < cs.len() {
        lemma_number_end_all(cs, j + 1);
    }
}

/// A source that is one numeric literal lexes to that literal alone: an
/// unsigned integer of that exact value when it reads as one; otherwise a signed
/// integer when it reads as one; otherwise a float literal when it is
/// float-shaped; otherwise it is an `Overflow` error.
pub proof fn lemma_lex_literal(t: Seq<char>)
    requires
        t.len() > 0,
        starts_number(t[0]),
        forall|i: int| 1 <= i < t.len() ==> in_number(#[trigger] t[i]),
    ensures
        unsigned_value(t) matches Some(v) ==> lex_spec(t) == Ok::<Seq<Lexeme>, Failure>(seq![Lexeme::Unsigned(v)]),
        unsigned_value(t) is None ==> (signed_value(t) matches Some(v)
            ==> lex_spec(t) == Ok::<Seq<Lexeme>, Failure>(seq![Lexeme::Signed(v)])),
        unsigned_value(t) is None && signed_value(t) is None && float_shaped(t)
            ==> lex_spec(t) == Ok::<Seq<Lexeme>, Failure>(seq![Lexeme::Decimal(t)]),
        classify(t) is None ==> lex_spec(t) == Err::<Seq<Lexeme>, Failure>(Failure::Overflow),
{
    lemma_number_end_all(t, 1);
    assert(t.subrange(0, t.len() as int) =~= t);
    assert(lex_from(t, t.len() as int) == Ok::<Seq<Lexeme>, Failure>(seq![]));
    if let Some(l) = classify(t) {
        assert(seq![l] + seq![] =~= seq![l]);
    }
}

/// A cursor over the characters of a source text.
pub struct Lexer {
    pub input: Vec<char>,
    pub index: usize,
}

impl Lexer {
    /// A cursor at the start of `source`.
    pub fn new(source: &str) -> (r: Lexer)
        ensures
            r.input@ == source@,
            r.index == 0,
    {
        let input = chars_of_str(source);
        Lexer { input, index: 0 }
    }

    /// Consumes and returns the character under the cursor, if any.
    pub fn advance(&mut self) -> (r: Option<char>)
        ensures
            final(self).input == old(self).input,
            old(self).index < old(self).input@.len() ==> r == Some(old(self).input@[old(self).index as int])
                && final(self).index == old(self).index + 1,
            old(self).index >= old(self).input@.len() ==> r is None && final(self).index == old(self).index,
    {
        if self.index < self.input.len() {
            self.index += 1;
            Some(self.input[self.index - 1])
        } else {
            None
        }
    }

    /// The character under the cursor, if any.
    pub fn peek(&self) -> (r: Option<char>)
        ensures
            self.index < self.input@.len() ==> r == Some(self.input@[self.index as int]),
            self.index >= self.input@.len() ==> r is None,
    {
        if self.index < self.input.len() {
            Some(self.input[self.index])
        } else {
            None
        }
    }

    /// Scans the word under the cursor: up to the next whitespace, or up to a
    /// `:`, which makes it a label and is consumed.
    fn get_word(&mut self) -> (r: Token)
        requires
            old(self).index < old(self).input@.len(),
        ensures
            final(self).input == old(self).input,
            ({
                let cs = old(self).input@;
                let i = old(self).index as int;
                let j = word_end(cs, i + 1);
                if j < cs.len() && cs[j] == ':' {
                    r@ == Tok::Label(cs.subrange(i, j)) && final(self).index == j + 1
                } else {
                    r@ == Tok::Op(cs.subrange(i, j)) && final(self).index == j
                }
            }),
    {
        let ghost cs = self.input@;
        let i = self.index;
        let n = self.input.len();
        let mut word: Vec<char> = Vec::new();
        word.push(self.input[i]);
        let mut j: usize = i + 1;
        proof { lemma_word_end_bounds(cs, i + 1); }
        while j < n && !is_space_char(self.input[j]) && self.input[j] != ':'
            invariant
                self.input@ == cs,
                n == cs.len(),
                i < j <= n,
                word_end(cs, i + 1) == word_end(cs, j as int),
                word@ == cs.subrange(i as int, j as int),
            decreases n - j,
        {
            proof { lemma_word_end_step(cs, j as int); }
            word.push(self.input[j]);
            j += 1;
            assert(word@ =~= cs.subrange(i as int, j as int));
        }
        let name = string_of(&word);
        if j < n && self.input[j] == ':' {
            self.index = j + 1;
            Token::Func(name)
        } else {
            self.index = j;
            Token::OpCode(name)
        }
    }

    /// Scans the numeric literal under the cursor and reads it.
    pub fn get_num(&mut self) -> (r: Result<Numeral, Failure>)
        requires
            old(self).index < old(self).input@.len(),
        ensures
            final(self).input == old(self).input,
            ({
                let cs = old(self).input@;
                let i = old(self).index as int;
                let j = number_end(cs, i + 1);
                &&& final(self).index == j
                &&& numeral_matches(r, classify(cs.subrange(i, j)))
            }),
    {
        let ghost cs = self.input@;
        let i = self.index;
        let n = self.input.len();
        let mut text: Vec<char> = Vec::new();
        text.push(self.input[i]);
        let mut j: usize = i + 1;
        while j < n && is_number_char(self.input[j])
            invariant
                self.input@ == cs,
                n == cs.len(),
                i < j <= n,
                number_end(cs, i + 1) == number_end(cs, j as int),
                text@ == cs.subrange(i as int, j as int),
            decreases n - j,
        {
            text.push(self.input[j]);
            j += 1;
            assert(text@ =~= cs.subrange(i as int, j as int));
        }
        self.index = j;
        classify_literal(text)
    }

    /// Lexes `source`, giving the `k`th float literal the bits `bits[k]`; also
    /// returns the texts of the float literals, in order.
    fn scan(source: &str, bits: &Vec<Option<u64>>) -> (r: (Result<Vec<Token>, CompError>, Vec<Vec<char>>))
        ensures
            lexed_with(source@, bits@, r.0),
            lex_spec(source@) is Ok ==> texts_view(r.1@) == decimal_texts(lex_spec(source@)->Ok_0),
    {
        let mut lx = Lexer::new(source);
        let n = lx.input.len();
        let mut texts: Vec<Vec<char>> = Vec::new();
        if n == 0 {
            return (Err(CompError::of_kind(Failure::EndOfInput, "input is empty")), texts);
        }
        let ghost cs = lx.input@;
        let ghost done: Seq<Lexeme> = seq![];
        let mut out: Vec<Token> = Vec::new();
        let mut refused = false;
        assert(after(done, lex_from(cs, 0)) == lex_from(cs, 0)) by {
            if let Ok(ls) = lex_from(cs, 0) {
                assert(done + ls =~= ls);
            }
        }
        assert(texts_view(texts@) =~= decimal_texts(done));
        while lx.index < n
            invariant
                lx.input@ == cs,
                cs == source@,
                n == cs.len(),
                n > 0,
                lx.index <= n,
                lex_from(cs, 0) == after(done, lex_from(cs, lx.index as int)),
                texts_view(texts@) == decimal_texts(done),
                toks(out@).len() == done.len(),
                forall|j: int| 0 <= j < done.len() ==> #[trigger] toks(out@)[j] == token_with(done[j], bit_at(done, bits@, j)),
                refused == !bits_cover(done, bits@),
            decreases n - lx.index,
        {
            let i = lx.index;
            let c = lx.input[i];
            let ghost old_out = toks(out@);
            let ghost old_done = done;
            let mut l_tok: Option<Token> = None;
            let ghost mut l: Lexeme = Lexeme::Unsigned(0);
            if is_letter_char(c) {
                proof { lemma_word_end_bounds(cs, i + 1); }
                let t = lx.get_word();
                let ghost j = word_end(cs, i + 1);
                proof {
                    l = if j < cs.len() && cs[j] == ':' {
                        Lexeme::Label(cs.subrange(i as int, j))
                    } else {
                        Lexeme::Word(cs.subrange(i as int, j))
                    };
                }
                l_tok = Some(t);
            } else if is_number_start_char(c) {
                proof { lemma_number_end_bounds(cs, i + 1); }
                let num = lx.get_num();
                proof {
                    if let Some(x) = classify(cs.subrange(i as int, lx.index as int)) {
                        l = x;
                    }
                }
                match num {
                    Ok(Numeral::Integer(t)) => {
                        l_tok = Some(t);
                    },
                    Ok(Numeral::Decimal(text)) => {
                        proof { lemma_push_lexeme(done, l, bits@); }
                        let k = texts.len();
                        let b = if k < bits.len() { bits[k] } else { None };
                        assert(b == bit_at(done.push(l), bits@, done.len() as int)) by {
                            assert(decimal_texts(done.push(l).subrange(0, done.len() as int)) == decimal_texts(done));
                        }
                        let t = match b {
                            Some(x) => Token::NumF(x),
                            None => {
                                refused = true;
                                Token::NumF(0)
                            },
                        };
                        texts.push(text);
                        l_tok = Some(t);
                    },
                    Err(f) => {
                        return (Err(CompError::of_kind(f, "malformed numeric literal")), texts);
                    },
                }
            } else {
                lx.index = i + 1;
            }
            if let Some(t) = l_tok {
                proof {
                    lemma_after_step(done, l, lex_from(cs, lx.index as int));
                    lemma_push_lexeme(done, l, bits@);
                }
                out.push(t);
                proof {
                    done = done.push(l);
                    assert(texts_view(texts@) =~= decimal_texts(done));
                    assert forall|j: int| 0 <= j < done.len() implies #[trigger] toks(out@)[j] == token_with(done[j], bit_at(done, bits@, j)) by {
                        if j < old_done.len() {
                            assert(toks(out@)[j] == old_out[j]);
                        }
                    }
                }
            }
        }
        assert(done + seq![] =~= done);
        if refused {
            return (Err(CompError::of_kind(Failure::Impossible, "a float literal has no bits")), texts);
        }
        assert(toks(out@) =~= Seq::new(done.len(), |i: int| token_with(done[i], bit_at(done, bits@, i))));
        (Ok(out), texts)
    }

    /// Turns a source text into tokens, the `k`th float literal taking the bits
    /// `bits[k]`.
    pub fn lex_with(source: &str, bits: &Vec<Option<u64>>) -> (r: Result<Vec<Token>, CompError>)
        ensures
            lexed_with(source@, bits@, r),
    {
        Lexer::scan(source, bits).0
    }

    /// Turns a source text into tokens; the platform converts the float
    /// literals, each asked about its text once. A lexing error comes back as it
    /// is; otherwise the result is `lex_with` for the platform's answers, so a
    /// float literal the platform refuses gives `Impossible`.
    pub fn lex<P: Platform>(source: &str, platform: &P) -> (r: Result<Vec<Token>, CompError>)
        ensures
            match lex_spec(source@) {
                Err(k) => r is Err && r->Err_0.kind() == k,
                Ok(ls) => exists|bits: Seq<Option<u64>>| bits.len() == decimal_texts(ls).len()
                    && #[trigger] lexed_with(source@, bits, r),
            },
    {
        let none: Vec<Option<u64>> = Vec::new();
        let (first, texts) = Lexer::scan(source, &none);
        match &first {
            Err(CompError::Impossible(_)) => {},
            Err(_) => {
                return first;
            },
            Ok(_) => {},
        }
        let mut bits: Vec<Option<u64>> = Vec::new();
        let mut k: usize = 0;
        while k < texts.len()
            invariant
                k <= texts@.len(),
                bits@.len() == k,
            decreases texts@.len() - k,
        {
            bits.push(platform.parse_float(&texts[k]));
            k += 1;
        }
        let r = Lexer::scan(source, &bits).0;
        proof {
            if lex_spec(source@) is Ok {
                assert(bits@.len() == decimal_texts(lex_spec(source@)->Ok_0).len());
            }
        }
        r
    }
}

} // verus!

//! The instruction set: opcode bytes, mnemonics and the stream header.
use vstd::prelude::*;

verus! {

/// The length of the magic prefix that starts every executable stream.
pub const HEADER_LEN: usize = 17;

/// The bytes of the magic prefix: the ASCII text "Nariva Executable".
pub open spec fn header_spec() -> Seq<u8> {
    seq![78u8, 97, 114, 105, 118, 97, 32, 69, 120, 101, 99, 117, 116, 97, 98, 108, 101]
}

/// Builds the magic prefix.
pub fn header() -> (r: Vec<u8>)
    ensures
        r@ == header_spec(),
        r@.len() == HEADER_LEN,
{
    let r: Vec<u8> = vec![78u8, 97, 114, 105, 118, 97, 32, 69, 120, 101, 99, 117, 116, 97, 98, 108, 101];
    assert(r@ =~= header_spec());
    r
}

/// One instruction selector of the machine.
#[derive(Debug, Clone, Copy, PartialEq, Eq, Structural)]
pub enum OpCode {
    Illegal,
    Halt,
    Push,
    Pop,
    AddU,
    SubU,
    MulU,
    DivU,
    AddI,
    SubI,
    MulI,
    DivI,
    AddF,
    SubF,
    MulF,
    DivF,
    Shift,
    BitAnd,
    BitOr,
    BitXor,
    BitNot,
    CMP,
    JMP,
    JE,
    JNE,
    JG,
    JL,
    Call,
    Return,
    ModU,
    ModI,
    ModF,
    Print,
    Dupli,
    Store,
    Load,
}

/// The byte that encodes an opcode.
pub open spec fn byte_of(o: OpCode) -> u8 {
    match o {
        OpCode::Illegal => 0,
        OpCode::Halt => 1,
        OpCode::Push => 2,
        OpCode::Pop => 3,
        OpCode::AddU => 4,
        OpCode::SubU => 5,
        OpCode::MulU => 6,
        OpCode::DivU => 7,
        OpCode::AddI => 8,
        OpCode::SubI => 9,
        OpCode::MulI => 10,
        OpCode::DivI => 11,
        OpCode::AddF => 12,
        OpCode::SubF => 13,
        OpCode::MulF => 14,
        OpCode::DivF => 15,
        OpCode::Shift => 16,
        OpCode::BitAnd => 17,
        OpCode::BitOr => 18,
        OpCode::BitXor => 19,
        OpCode::BitNot => 20,
        OpCode::CMP => 21,
        OpCode::JMP => 22,
        OpCode::JE => 23,
        OpCode::JNE => 24,
        OpCode::JG => 25,
        OpCode::JL => 26,
        OpCode::Call => 27,
        OpCode::Return => 28,
        OpCode::ModU => 29,
        OpCode::ModI => 30,
        OpCode::ModF => 31,
        OpCode::Print => 32,
        OpCode::Dupli => 33,
        OpCode::Store => 34,
        OpCode::Load => 35,
    }
}

/// The opcode that a byte selects; bytes outside the table select `Illegal`.
pub open spec fn opcode_of(b: u8) -> OpCode {
    if b == 1 { OpCode::Halt }
    else if b == 2 { OpCode::Push }
    else if b == 3 { OpCode::Pop }
    else if b == 4 { OpCode::AddU }
    else if b == 5 { OpCode::SubU }
    else if b == 6 { OpCode::MulU }
    else if b == 7 { OpCode::DivU }
    else if b == 8 { OpCode::AddI }
    else if b == 9 { OpCode::SubI }
    else if b == 10 { OpCode::MulI }
    else if b == 11 { OpCode::DivI }
    else if b == 12 { OpCode::AddF }
    else if b == 13 { OpCode::SubF }
    else if b == 14 { OpCode::MulF }
    else if b == 15 { OpCode::DivF }
    else if b == 16 { OpCode::Shift }
    else if b == 17 { OpCode::BitAnd }
    else if b == 18 { OpCode::BitOr }
    else if b == 19 { OpCode::BitXor }
    else if b == 20 { OpCode::BitNot }
    else if b == 21 { OpCode::CMP }
    else if b == 22 { OpCode::JMP }
    else if b == 23 { OpCode::JE }
    else if b == 24 { OpCode::JNE }
    else if b == 25 { OpCode::JG }
    else if b == 26 { OpCode::JL }
    else if b == 27 { OpCode::Call }
    else if b == 28 { OpCode::Return }
    else if b == 29 { OpCode::ModU }
    else if b == 30 { OpCode::ModI }
    else if b == 31 { OpCode::ModF }
    else if b == 32 { OpCode::Print }
    else if b == 33 { OpCode::Dupli }
    else if b == 34 { OpCode::Store }
    else if b == 35 { OpCode::Load }
    else { OpCode::Illegal }
}

/// Decoding an encoded opcode gives it back.
pub proof fn lemma_byte_round_trip(o: OpCode)
    ensures
        opcode_of(byte_of(o)) == o,
{
}

impl OpCode {
    /// The byte that encodes this opcode.
    pub fn to_byte(self) -> (r: u8)
        ensures
            r == byte_of(self),
    {
        match self {
            OpCode::Illegal => 0,
            OpCode::Halt => 1,
            OpCode::Push => 2,
            OpCode::Pop => 3,
            OpCode::AddU => 4,
            OpCode::SubU => 5,
            OpCode::MulU => 6,
            OpCode::DivU => 7,
            OpCode::AddI => 8,
            OpCode::SubI => 9,
            OpCode::MulI => 10,
            OpCode::DivI => 11,
            OpCode::AddF => 12,
            OpCode::SubF => 13,
            OpCode::MulF => 14,
            OpCode::DivF => 15,
            OpCode::Shift => 16,
            OpCode::BitAnd => 17,
            OpCode::BitOr => 18,
            OpCode::BitXor => 19,
            OpCode::BitNot => 20,
            OpCode::CMP => 21,
            OpCode::JMP => 22,
            OpCode::JE => 23,
            OpCode::JNE => 24,
            OpCode::JG => 25,
            OpCode::JL => 26,
            OpCode::Call => 27,
            OpCode::Return => 28,
            OpCode::ModU => 29,
            OpCode::ModI => 30,
            OpCode::ModF => 31,
            OpCode::Print => 32,
            OpCode::Dupli => 33,
            OpCode::Store => 34,
            OpCode::Load => 35,
        }
    }

    /// The opcode that a byte selects.
    pub fn from_byte(b: u8) -> (r: OpCode)
        ensures
            r == opcode_of(b),
    {
        if b == 1 { OpCode::Halt }
        else if b == 2 { OpCode::Push }
        else if b == 3 { OpCode::Pop }
        else if b == 4 { OpCode::AddU }
        else if b == 5 { OpCode::SubU }
        else if b == 6 { OpCode::MulU }
        else if b == 7 { OpCode::DivU }
        else if b == 8 { OpCode::AddI }
        else if b == 9 { OpCode::SubI }
        else if b == 10 { OpCode::MulI }
        else if b == 11 { OpCode::DivI }
        else if b == 12 { OpCode::AddF }
        else if b == 13 { OpCode::SubF }
        else if b == 14 { OpCode::MulF }
        else if b == 15 { OpCode::DivF }
        else if b == 16 { OpCode::Shift }
        else if b == 17 { OpCode::BitAnd }
        else if b == 18 { OpCode::BitOr }
        else if b == 19 { OpCode::BitXor }
        else if b == 20 { OpCode::BitNot }
        else if b == 21 { OpCode::CMP }
        else if b == 22 { OpCode::JMP }
        else if b == 23 { OpCode::JE }
        else if b == 24 { OpCode::JNE }
        else if b == 25 { OpCode::JG }
        else if b == 26 { OpCode::JL }
        else if b == 27 { OpCode::Call }
        else if b == 28 { OpCode::Return }
        else if b == 29 { OpCode::ModU }
        else if b == 30 { OpCode::ModI }
        else if b == 31 { OpCode::ModF }
        else if b == 32 { OpCode::Print }
        else if b == 33 { OpCode::Dupli }
        else if b == 34 { OpCode::Store }
        else if b == 35 { OpCode::Load }
        else { OpCode::Illegal }
    }
}

impl From<OpCode> for u8 {
    fn from(o: OpCode) -> (r: u8) {
        o.to_byte()
    }
}

impl vstd::std_specs::convert::FromSpecImpl<OpCode> for u8 {
    open spec fn obeys_from_spec() -> bool {
        true
    }

    open spec fn from_spec(o: OpCode) -> u8 {
        byte_of(o)
    }
}

impl From<u8> for OpCode {
    fn from(b: u8) -> (r: OpCode) {
        OpCode::from_byte(b)
    }
}

impl vstd::std_specs::convert::FromSpecImpl<u8> for OpCode {
    open spec fn obeys_from_spec() -> bool {
        true
    }

    open spec fn from_spec(b: u8) -> OpCode {
        opcode_of(b)
    }
}

/// The opcode that a mnemonic names. Each mnemonic has a PascalCase and a
/// SCREAMING_CASE spelling (the jumps have one); any other text names `Illegal`.
pub open spec fn opcode_named(s: Seq<char>) -> OpCode {
    if s == "Halt"@ || s == "HALT"@ { OpCode::Halt }
    else     if s == "Push"@ || s == "PUSH"@ { OpCode::Push }
    else     if s == "Pop"@ || s == "POP"@ { OpCode::Pop }
    else     if s == "AddU"@ || s == "ADDU"@ { OpCode::AddU }
    else     if s == "SubU"@ || s == "SUBU"@ { OpCode::SubU }
    else     if s == "MulU"@ || s == "MULU"@ { OpCode::MulU }
    else     if s == "DivU"@ || s == "DIVU"@ { OpCode::DivU }
    else     if s == "AddI"@ || s == "ADDI"@ { OpCode::AddI }
    else     if s == "SubI"@ || s == "SUBI"@ { OpCode::SubI }
    else     if s == "MulI"@ || s == "MULI"@ { OpCode::MulI }
    else     if s == "DivI"@ || s == "DIVI"@ { OpCode::DivI }
    else     if s == "AddF"@ || s == "ADDF"@ { OpCode::AddF }
    else     if s == "SubF"@ || s == "SUBF"@ { OpCode::SubF }
    else     if s == "MulF"@ || s == "MULF"@ { OpCode::MulF }
    else     if s == "DivF"@ || s == "DIVF"@ { OpCode::DivF }
    else     if s == "Shift"@ || s == "SHIFT"@ { OpCode::Shift }
    else     if s == "BitAnd"@ || s == "BITAND"@ { OpCode::BitAnd }
    else     if s == "BitOr"@ || s == "BITOR"@ { OpCode::BitOr }
    else     if s == "BitXor"@ || s == "BITXOR"@ { OpCode::BitXor }
    else     if s == "BitNot"@ || s == "BITNOT"@ { OpCode::BitNot }
    else     if s == "Cmp"@ || s == "CMP"@ { OpCode::CMP }
    else     if s == "JMP"@ { OpCode::JMP }
    else     if s == "JE"@ { OpCode::JE }
    else     if s == "JNE"@ { OpCode::JNE }
    else     if s == "JG"@ { OpCode::JG }
    else     if s == "JL"@ { OpCode::JL }
    else     if s == "Call"@ || s == "CALL"@ { OpCode::Call }
    else     if s == "Return"@ || s == "RETURN"@ { OpCode::Return }
    else     if s == "ModU"@ || s == "MODU"@ { OpCode::ModU }
    else     if s == "ModI"@ || s == "MODI"@ { OpCode::ModI }
    else     if s == "ModF"@ || s == "MODF"@ { OpCode::ModF }
    else     if s == "Print"@ || s == "PRINT"@ { OpCode::Print }
    else     if s == "Dupli"@ || s == "DUPLI"@ { OpCode::Dupli }
    else     if s == "Store"@ || s == "STORE"@ { OpCode::Store }
    else     if s == "Load"@ || s == "LOAD"@ { OpCode::Load }
    else { OpCode::Illegal }
}

/// Whether a character sequence spells out a string.
pub fn chars_eq(name: &Vec<char>, lit: &str) -> (r: bool)
    ensures
        r == (name@ == lit@),
{
    let n = lit.unicode_len();
    if name.len() != n {
        return false;
    }
    let mut i: usize = 0;
    while i < n
        invariant
            n == lit@.len(),
            name@.len() == n,
            i <= n,
            forall|j: int| 0 <= j < i ==> name@[j] == lit@[j],
        decreases n - i,
    {
        if name[i] != lit.get_char(i) {
            return false;
        }
        i += 1;
    }
    assert(name@ =~= lit@);
    true
}

impl OpCode {
    /// Looks up a mnemonic.
    pub fn from_name(name: &Vec<char>) -> (r: OpCode)
        ensures
            r == opcode_named(name@),
    {
        if chars_eq(name, "Halt") || chars_eq(name, "HALT") { OpCode::Halt }
        else         if chars_eq(name, "Push") || chars_eq(name, "PUSH") { OpCode::Push }
        else         if chars_eq(name, "Pop") || chars_eq(name, "POP") { OpCode::Pop }
        else         if chars_eq(name, "AddU") || chars_eq(name, "ADDU") { OpCode::AddU }
        else         if chars_eq(name, "SubU") || chars_eq(name, "SUBU") { OpCode::SubU }
        else         if chars_eq(name, "MulU") || chars_eq(name, "MULU") { OpCode::MulU }
        else         if chars_eq(name, "DivU") || chars_eq(name, "DIVU") { OpCode::DivU }
        else         if chars_eq(name, "AddI") || chars_eq(name, "ADDI") { OpCode::AddI }
        else         if chars_eq(name, "SubI") || chars_eq(name, "SUBI") { OpCode::SubI }
        else         if chars_eq(name, "MulI") || chars_eq(name, "MULI") { OpCode::MulI }
        else         if chars_eq(name, "DivI") || chars_eq(name, "DIVI") { OpCode::DivI }
        else         if chars_eq(name, "AddF") || chars_eq(name, "ADDF") { OpCode::AddF }
        else         if chars_eq(name, "SubF") || chars_eq(name, "SUBF") { OpCode::SubF }
        else         if chars_eq(name, "MulF") || chars_eq(name, "MULF") { OpCode::MulF }
        else         if chars_eq(name, "DivF") || chars_eq(name, "DIVF") { OpCode::DivF }
        else         if chars_eq(name, "Shift") || chars_eq(name, "SHIFT") { OpCode::Shift }
        else         if chars_eq(name, "BitAnd") || chars_eq(name, "BITAND") { OpCode::BitAnd }
        else         if chars_eq(name, "BitOr") || chars_eq(name, "BITOR") { OpCode::BitOr }
        else         if chars_eq(name, "BitXor") || chars_eq(name, "BITXOR") { OpCode::BitXor }
        else         if chars_eq(name, "BitNot") || chars_eq(name, "BITNOT") { OpCode::BitNot }
        else         if chars_eq(name, "Cmp") || chars_eq(name, "CMP") { OpCode::CMP }
        else         if chars_eq(name, "JMP") { OpCode::JMP }
        else         if chars_eq(name, "JE") { OpCode::JE }
        else         if chars_eq(name, "JNE") { OpCode::JNE }
        else         if chars_eq(name, "JG") { OpCode::JG }
        else         if chars_eq(name, "JL") { OpCode::JL }
        else         if chars_eq(name, "Call") || chars_eq(name, "CALL") { OpCode::Call }
        else         if chars_eq(name, "Return") || chars_eq(name, "RETURN") { OpCode::Return }
        else         if chars_eq(name, "ModU") || chars_eq(name, "MODU") { OpCode::ModU }
        else         if chars_eq(name, "ModI") || chars_eq(name, "MODI") { OpCode::ModI }
        else         if chars_eq(name, "ModF") || chars_eq(name, "MODF") { OpCode::ModF }
        else         if chars_eq(name, "Print") || chars_eq(name, "PRINT") { OpCode::Print }
        else         if chars_eq(name, "Dupli") || chars_eq(name, "DUPLI") { OpCode::Dupli }
        else         if chars_eq(name, "Store") || chars_eq(name, "STORE") { OpCode::Store }
        else         if chars_eq(name, "Load") || chars_eq(name, "LOAD") { OpCode::Load }
        else { OpCode::Illegal }
    }
}

/// Splitting a word into halves and joining them back.
pub trait ByteOps: Sized {
    /// The type of half a word.
    type Smaller;

    /// The high half and the low half, each kept in place within a full word.
    fn split(&self) -> [Self; 2];

    /// The high half and the low half as half-width words.
    fn split_smaller(&self) -> [Self::Smaller; 2];

    /// The union of the bits of two words.
    fn join(halves: (Self, Self)) -> Self;

    /// The word whose high half is `halves[0]` and low half `halves[1]`.
    fn join_smaller(halves: [Self::Smaller; 2]) -> Self;
}

impl ByteOps for u16 {
    type Smaller = u8;

    fn split(&self) -> (r: [u16; 2])
        ensures
            r@ == seq![*self & 0xff00u16, *self & 0xffu16],
    {
        let r = [*self & 0xff00u16, *self & 0xffu16];
        assert(r@ =~= seq![*self & 0xff00u16, *self & 0xffu16]);
        r
    }

    fn split_smaller(&self) -> (r: [u8; 2])
        ensures
            r@ == seq![(*self >> 8u16) as u8, (*self & 0xffu16) as u8],
    {
        let r = [((*self & 0xff00u16) >> 8u16) as u8, (*self & 0xffu16) as u8];
        assert(((*self & 0xff00u16) >> 8u16) == (*self >> 8u16)) by (bit_vector);
        assert(r@ =~= seq![(*self >> 8u16) as u8, (*self & 0xffu16) as u8]);
        r
    }

    fn join(halves: (u16, u16)) -> (r: u16)
        ensures
            r == halves.0 | halves.1,
    {
        halves.0 | halves.1
    }

    fn join_smaller(halves: [u8; 2]) -> (r: u16)
        ensures
            r == ((halves@[0] as u16) << 8u16) | (halves@[1] as u16),
    {
        ((halves[0] as u16) << 8u16) | halves[1] as u16
    }
}

impl ByteOps for u32 {
    type Smaller = u16;

    fn split(&self) -> (r: [u32; 2])
        ensures
            r@ == seq![*self & 0xffff_0000u32, *self & 0xffffu32],
    {
        let r = [*self & 0xffff_0000u32, *self & 0xffffu32];
        assert(r@ =~= seq![*self & 0xffff_0000u32, *self & 0xffffu32]);
        r
    }

    fn split_smaller(&self) -> (r: [u16; 2])
        ensures
            r@ == seq![(*self >> 16u32) as u16, (*self & 0xffffu32) as u16],
    {
        let r = [((*self & 0xffff_0000u32) >> 16u32) as u16, (*self & 0xffffu32) as u16];
        assert(((*self & 0xffff_0000u32) >> 16u32) == (*self >> 16u32)) by (bit_vector);
        assert(r@ =~= seq![(*self >> 16u32) as u16, (*self & 0xffffu32) as u16]);
        r
    }

    fn join(halves: (u32, u32)) -> (r: u32)
        ensures
            r == halves.0 | halves.1,
    {
        halves.0 | halves.1
    }

    fn join_smaller(halves: [u16; 2]) -> (r: u32)
        ensures
            r == ((halves@[0] as u32) << 16u32) | (halves@[1] as u32),
    {
        ((halves[0] as u32) << 16u32) | halves[1] as u32
    }
}

impl ByteOps for u64 {
    type Smaller = u32;

    fn split(&self) -> (r: [u64; 2])
        ensures
            r@ == seq![*self & 0xffff_ffff_0000_0000u64, *self & 0xffff_ffffu64],
    {
        let r = [*self & 0xffff_ffff_0000_0000u64, *self & 0xffff_ffffu64];
        assert(r@ =~= seq![*self & 0xffff_ffff_0000_0000u64, *self & 0xffff_ffffu64]);
        r
    }

    fn split_smaller(&self) -> (r: [u32; 2])
        ensures
            r@ == seq![(*self >> 32u64) as u32, (*self & 0xffff_ffffu64) as u32],
    {
        let r = [((*self & 0xffff_ffff_0000_0000u64) >> 32u64) as u32, (*self & 0xffff_ffffu64) as u32];
        assert(((*self & 0xffff_ffff_0000_0000u64) >> 32u64) == (*self >> 32u64)) by (bit_vector);
        assert(r@ =~= seq![(*self >> 32u64) as u32, (*self & 0xffff_ffffu64) as u32]);
        r
    }

    fn join(halves: (u64, u64)) -> (r: u64)
        ensures
            r == halves.0 | halves.1,
    {
        halves.0 | halves.1
    }

    fn join_smaller(halves: [u32; 2]) -> (r: u64)
        ensures
            r == ((halves@[0] as u64) << 32u64) | (halves@[1] as u64),
    {
        ((halves[0] as u64) << 32u64) | halves[1] as u64
    }
}

/// Joining the halves of a split gives the word back, at each width.
pub proof fn lemma_split_join(a: u16, b: u32, c: u64)
    ensures
        (a & 0xff00u16) | (a & 0xffu16) == a,
        (b & 0xffff_0000u32) | (b & 0xffffu32) == b,
        (c & 0xffff_ffff_0000_0000u64) | (c & 0xffff_ffffu64) == c,
        (((a >> 8u16) as u8) as u16) << 8u16 | (((a & 0xffu16) as u8) as u16) == a,
        (((b >> 16u32) as u16) as u32) << 16u32 | (((b & 0xffffu32) as u16) as u32) == b,
        (((c >> 32u64) as u32) as u64) << 32u64 | (((c & 0xffff_ffffu64) as u32) as u64) == c,
{
    assert((a & 0xff00u16) | (a & 0xffu16) == a) by (bit_vector);
    assert((b & 0xffff_0000u32) | (b & 0xffffu32) == b) by (bit_vector);
    assert((c & 0xffff_ffff_0000_0000u64) | (c & 0xffff_ffffu64) == c) by (bit_vector);
    assert((((a >> 8u16) as u8) as u16) << 8u16 | (((a & 0xffu16) as u8) as u16) == a) by (bit_vector);
    assert((((b >> 16u32) as u16) as u32) << 16u32 | (((b & 0xffffu32) as u16) as u32) == b) by (bit_vector);
    assert((((c >> 32u64) as u32) as u64) << 32u64 | (((c & 0xffff_ffffu64) as u32) as u64) == c) by (bit_vector);
}

} // verus!

//! Resolved tokens to the byte stream.
use vstd::prelude::*;
use crate::error::{CompError, Failure};
use crate::instruction::{byte_of, header, header_spec, opcode_named, OpCode};
use crate::instruction::HEADER_LEN;
use crate::parser::{
    call_address, count_counted, count_of, counted, is_operand, jump_target, label_index,
    lemma_jump_lands, lemma_label_index_bound, lemma_offset_bound, lemma_resolve_offsets, lemma_resolve_operands, lemma_resolve_shape, offset,
    operand_after, parse_spec, resolved_at, strip, width, Operand,
};
use crate::token::{chars_of, is_num_tok, toks, Tok, Token};

verus! {

/// The eight big-endian bytes of a word.
pub open spec fn be_bytes(x: u64) -> Seq<u8> {
    seq![
        ((x >> 56u64) & 0xff) as u8, ((x >> 48u64) & 0xff) as u8, ((x >> 40u64) & 0xff) as u8,
        ((x >> 32u64) & 0xff) as u8, ((x >> 24u64) & 0xff) as u8, ((x >> 16u64) & 0xff) as u8,
        ((x >> 8u64) & 0xff) as u8, (x & 0xff) as u8,
    ]
}

/// The bytes of one token: an opcode's byte (0 for an unknown name), or the
/// eight bytes of a number's bit pattern.
pub open spec fn encode_tok(t: Tok) -> Seq<u8> {
    match t {
        Tok::Op(name) => seq![byte_of(opcode_named(name))],
        Tok::U(v) => be_bytes(v),
        Tok::I(v) => be_bytes(v as u64),
        Tok::F(v) => be_bytes(v),
        Tok::Label(_) => seq![],
    }
}

/// The bytes of a token sequence.
pub open spec fn encode(ts: Seq<Tok>) -> Seq<u8>
    decreases ts.len(),
{
    if ts.len() == 0 { seq![] } else { encode(ts.drop_last()) + encode_tok(ts.last()) }
}

pub open spec fn has_label(ts: Seq<Tok>) -> bool {
    exists|i: int| 0 <= i < ts.len() && #[trigger] ts[i] is Label
}

/// The stream for a resolved token sequence: the header, then each token's bytes.
/// An empty sequence is an error, and so is a label, which resolution removes.
pub open spec fn generate_spec(ts: Seq<Tok>) -> Result<Seq<u8>, Failure> {
    if ts.len() == 0 {
        Err(Failure::EndOfInput)
    } else if has_label(ts) {
        Err(Failure::Impossible)
    } else {
        Ok(header_spec() + encode(ts))
    }
}

/// Appends the eight big-endian bytes of a word.
fn push_word(out: &mut Vec<u8>, x: u64)
    ensures
        final(out)@ == old(out)@ + be_bytes(x),
{
    out.push(((x >> 56u64) & 0xff) as u8);
    out.push(((x >> 48u64) & 0xff) as u8);
    out.push(((x >> 40u64) & 0xff) as u8);
    out.push(((x >> 32u64) & 0xff) as u8);
    out.push(((x >> 24u64) & 0xff) as u8);
    out.push(((x >> 16u64) & 0xff) as u8);
    out.push(((x >> 8u64) & 0xff) as u8);
    out.push((x & 0xff) as u8);
    assert(final(out)@ =~= old(out)@ + be_bytes(x));
}

proof fn lemma_encode_append(a: Seq<Tok>, b: Seq<Tok>)
    ensures
        encode(a + b) == encode(a) + encode(b),
    decreases b.len(),
{
    if b.len() == 0 {
        assert(a + b =~= a);
        assert(encode(a) + encode(b) =~= encode(a));
    } else {
        assert((a + b).drop_last() =~= a + b.drop_last());
        assert((a + b).last() == b.last());
        lemma_encode_append(a, b.drop_last());
        assert(encode(a) + (encode(b.drop_last()) + encode_tok(b.last()))
            =~= (encode(a) + encode(b.drop_last())) + encode_tok(b.last()));
    }
}

/// Whether the operands of a token sequence are exactly its numbers and every
/// other token is an opcode, as after resolution.
pub open spec fn laid_out(o: Seq<Tok>) -> bool {
    forall|j: int| 0 <= j < o.len() ==> {
        &&& is_operand(o, j) ==> is_num_tok(#[trigger] o[j])
        &&& !is_operand(o, j) ==> o[j] is Op
    }
}

proof fn lemma_encode_len(o: Seq<Tok>, j: int)
    requires
        laid_out(o),
        0 <= j <= o.len(),
    ensures
        encode(o.subrange(0, j)).len() == offset(o, j),
    decreases j,
{
    if j > 0 {
        assert(o.subrange(0, j).drop_last() =~= o.subrange(0, j - 1));
        lemma_encode_len(o, j - 1);
        assert(encode_tok(o[j - 1]).len() == width(o, j - 1));
    }
}

/// In the bytes of a laid-out sequence, each instruction's opcode byte stands
/// at that instruction's position.
pub proof fn lemma_opcode_at_offset(o: Seq<Tok>, j: int)
    requires
        laid_out(o),
        0 <= j < o.len(),
        !is_operand(o, j),
    ensures
        offset(o, j) < encode(o).len(),
        encode(o)[offset(o, j)] == byte_of(opcode_named(o[j]->Op_0)),
{
    let pre = o.subrange(0, j);
    let mid = seq![o[j]];
    let post = o.subrange(j + 1, o.len() as int);
    let b = byte_of(opcode_named(o[j]->Op_0));
    lemma_encode_len(o, j);
    assert(o[j] is Op);
    assert(encode_tok(o[j]) == seq![b]);
    assert(mid.drop_last() =~= Seq::<Tok>::empty());
    assert(mid.last() == o[j]);
    assert(encode(Seq::<Tok>::empty()) == Seq::<u8>::empty());
    assert(encode(mid) == encode(mid.drop_last()) + encode_tok(mid.last()));
    assert(encode(mid) =~= seq![b]);
    lemma_encode_append(pre, mid);
    lemma_encode_append(pre + mid, post);
    assert(o =~= (pre + mid) + post);
    assert(encode(o) == (encode(pre) + seq![b]) + encode(post));
    assert((encode(pre) + seq![b])[encode(pre).len() as int] == b);
}

/// The resolved tokens of a program keep the layout of its label-free tokens.
proof fn lemma_parse_layout(ts: Seq<Tok>)
    requires
        parse_spec(ts) is Ok,
    ensures
        parse_spec(ts)->Ok_0.len() == strip(ts).len(),
        laid_out(parse_spec(ts)->Ok_0),
        forall|j: int| 0 <= j < strip(ts).len() ==> #[trigger] resolved_at(ts, strip(ts), 0, parse_spec(ts)->Ok_0, j),
        forall|i: int| 0 <= i < strip(ts).len() ==> !is_operand(strip(ts), i) ==> #[trigger] parse_spec(ts)->Ok_0[i] == strip(ts)[i],
        forall|i: int| 0 <= i < strip(ts).len() ==> is_operand(strip(ts), i) ==> is_num_tok(#[trigger] parse_spec(ts)->Ok_0[i]),
        forall|j: int| 0 <= j <= strip(ts).len() ==> #[trigger] offset(parse_spec(ts)->Ok_0, j) == offset(strip(ts), j)
            && is_operand(parse_spec(ts)->Ok_0, j) == is_operand(strip(ts), j),
{
    let s = strip(ts);
    let o = parse_spec(ts)->Ok_0;
    lemma_resolve_shape(ts, s, 0);
    assert forall|i: int| 0 <= i < s.len() implies (!is_operand(s, i) ==> #[trigger] o[i] == s[i])
        && (is_operand(s, i) ==> is_num_tok(o[i])) by {
        assert(resolved_at(ts, s, 0, o, i));
    }
    assert forall|j: int| 0 <= j <= s.len() implies #[trigger] offset(o, j) == offset(s, j)
        && is_operand(o, j) == is_operand(s, j) by {
        lemma_resolve_offsets(s, o, j);
        lemma_resolve_operands(s, o, j);
    }
    assert forall|j: int| 0 <= j < o.len() implies {
        &&& is_operand(o, j) ==> is_num_tok(#[trigger] o[j])
        &&& !is_operand(o, j) ==> o[j] is Op
    } by {
        assert(resolved_at(ts, s, 0, o, j));
        lemma_resolve_operands(s, o, j);
    }
}

/// In the stream generated for a program, each jump's rewritten displacement
/// leads from the jump's opcode byte to the opcode byte of the instruction its
/// count names (the `n`th after it, or the `-n`th before it), counting every
/// 8-byte operand in between.
pub proof fn lemma_jump_in_stream(ts: Seq<Tok>, k: int)
    requires
        parse_spec(ts) is Ok,
        strip(ts).len() < 0x1000_0000_0000_0000,
        0 <= k < strip(ts).len(),
        !is_operand(strip(ts), k),
        operand_after(strip(ts)[k]) == Operand::Count,
    ensures
        ({
            let s = strip(ts);
            let o = parse_spec(ts)->Ok_0;
            let n = count_of(s[k + 1]);
            let j = jump_target(s, k, n)->Some_0;
            &&& generate_spec(o) == Ok::<Seq<u8>, Failure>(header_spec() + encode(o))
            &&& o[k + 1] is U
            &&& jump_target(s, k, n) is Some
            &&& 0 <= j < o.len() && counted(o, j)
            &&& offset(o, k) + (o[k + 1]->U_0 as i64) == offset(o, j)
            &&& encode(o)[offset(o, k)] == byte_of(opcode_named(o[k]->Op_0))
            &&& encode(o)[offset(o, j)] == byte_of(opcode_named(o[j]->Op_0))
            &&& n > 0 ==> k < j && count_counted(s, k + 1, j + 1) == n
            &&& n < 0 ==> j < k && count_counted(s, j, k) == -n
        }),
{
    let s = strip(ts);
    let o = parse_spec(ts)->Ok_0;
    lemma_parse_layout(ts);
    assert(resolved_at(ts, s, 0, o, k));
    let n = count_of(s[k + 1]);
    lemma_jump_lands(s, k, n);
    let j = jump_target(s, k, n)->Some_0;
    assert(resolved_at(ts, s, 0, o, j));
    assert(offset(o, j) == offset(s, j) && is_operand(o, j) == is_operand(s, j));
    assert(offset(o, k) == offset(s, k) && is_operand(o, k) == is_operand(s, k));
    lemma_opcode_at_offset(o, k);
    lemma_opcode_at_offset(o, j);
    assert(!has_label(o)) by {
        assert forall|i: int| 0 <= i < o.len() implies !(#[trigger] o[i] is Label) by {
            assert(resolved_at(ts, s, 0, o, i));
        }
    }
}

/// In the stream generated for a program, a call's address is the byte before
/// the first instruction after its label, so the machine's next fetch after the
/// call is that instruction's opcode, however many labels the source defines
/// before or after.
pub proof fn lemma_call_in_stream(ts: Seq<Tok>, k: int)
    requires
        parse_spec(ts) is Ok,
        0 <= k < strip(ts).len(),
        !is_operand(strip(ts), k),
        operand_after(strip(ts)[k]) == Operand::Target,
        k + 1 < strip(ts).len(),
        strip(ts).len() < 0x1000_0000_0000_0000,
        label_index(ts, strip(ts)[k + 1]->Op_0)->Some_0 < strip(ts).len(),
        !is_operand(strip(ts), label_index(ts, strip(ts)[k + 1]->Op_0)->Some_0),
    ensures
        ({
            let s = strip(ts);
            let o = parse_spec(ts)->Ok_0;
            let t = label_index(ts, s[k + 1]->Op_0)->Some_0;
            &&& o[k + 1] == Tok::U((HEADER_LEN + offset(o, t) - 1) as u64)
            &&& encode(o)[offset(o, t)] == byte_of(opcode_named(o[t]->Op_0))
        }),
{
    let s = strip(ts);
    let o = parse_spec(ts)->Ok_0;
    lemma_parse_layout(ts);
    assert(resolved_at(ts, s, 0, o, k));
    let t = label_index(ts, s[k + 1]->Op_0)->Some_0;
    lemma_label_index_bound(ts, s[k + 1]->Op_0);
    lemma_resolve_offsets(s, o, t);
    lemma_resolve_operands(s, o, t);
    lemma_offset_bound(s, t);
    assert(call_address(s, t) == (HEADER_LEN + offset(o, t) - 1) as u64);
    lemma_opcode_at_offset(o, t);
}

/// Encodes resolved tokens.
pub struct Generator;

impl Generator {
    pub fn new() -> (r: Generator) {
        Generator
    }

    /// Emits the stream for a resolved token sequence.
    pub fn generate(input: Vec<Token>) -> (r: Result<Vec<u8>, CompError>)
        ensures
            match generate_spec(toks(input@)) {
                Ok(b) => r is Ok && r->Ok_0@ == b,
                Err(k) => r is Err && r->Err_0.kind() == k,
            },
    {
        let ghost ts = toks(input@);
        if input.len() == 0 {
            return Err(CompError::of_kind(Failure::EndOfInput, "input is empty"));
        }
        let mut output = header();
        let mut index: usize = 0;
        assert(ts.subrange(0, 0) =~= Seq::<Tok>::empty());
        assert(output@ =~= header_spec() + encode(ts.subrange(0, 0)));
        while index < input.len()
            invariant
                ts == toks(input@),
                index <= input@.len(),
                output@ == header_spec() + encode(ts.subrange(0, index as int)),
                forall|j: int| 0 <= j < index ==> !(#[trigger] ts[j] is Label),
            decreases input@.len() - index,
        {
            let ghost pre = ts.subrange(0, index as int);
            let ghost cur = ts.subrange(0, index + 1);
            assert(cur.drop_last() =~= pre);
            match &input[index] {
                Token::OpCode(word) => {
                    let c = chars_of(word);
                    output.push(OpCode::from_name(&c).to_byte());
                },
                Token::Func(_) => {
                    assert(ts[index as int] is Label);
                    return Err(CompError::of_kind(Failure::Impossible, "a label survived resolution"));
                },
                Token::NumU(num) => push_word(&mut output, *num),
                Token::NumI(num) => push_word(&mut output, *num as u64),
                Token::NumF(num) => push_word(&mut output, *num),
            }
            assert(output@ =~= header_spec() + encode(cur));
            index += 1;
        }
        assert(ts.subrange(0, input@.len() as int) =~= ts);
        Ok(output)
    }
}

} // verus!

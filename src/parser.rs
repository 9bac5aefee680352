//! Label resolution, operand checks and jump rewriting over a token sequence.
use vstd::prelude::*;
use crate::error::{CompError, Failure};
use crate::instruction::{chars_eq, opcode_named, OpCode, HEADER_LEN};
use crate::token::{chars_of, is_num_tok, toks, Tok, Token};

verus! {

/// What follows an opcode in the source.
#[derive(Debug, Clone, Copy, PartialEq, Eq, Structural)]
pub enum Operand {
    /// Nothing.
    Nothing,
    /// A number (`Push`, `Cmp`, `Print`, `Load`, `Store`, `Shift`).
    Number,
    /// A signed count of instructions to jump over (the five jumps).
    Count,
    /// The name of a label (`Call`).
    Target,
}

/// What follows an opcode.
pub open spec fn operand_of(op: OpCode) -> Operand {
    match op {
        OpCode::Push | OpCode::CMP | OpCode::Print | OpCode::Load | OpCode::Store
        | OpCode::Shift => Operand::Number,
        OpCode::JMP | OpCode::JE | OpCode::JNE | OpCode::JG | OpCode::JL => Operand::Count,
        OpCode::Call => Operand::Target,
        _ => Operand::Nothing,
    }
}

/// What follows a token, when it is an opcode.
pub open spec fn operand_after(t: Tok) -> Operand {
    match t {
        Tok::Op(name) => operand_of(opcode_named(name)),
        _ => Operand::Nothing,
    }
}

/// Whether token `i` is the operand of the instruction before it.
pub open spec fn is_operand(s: Seq<Tok>, i: int) -> bool
    decreases i,
{
    if i <= 0 || i > s.len() {
        false
    } else {
        !is_operand(s, i - 1) && operand_after(s[i - 1]) != Operand::Nothing
    }
}

/// The bytes that token `i` takes in the stream: 8 for a number or an operand
/// (a label name becomes an address), 1 for an opcode.
pub open spec fn width(s: Seq<Tok>, i: int) -> int {
    if is_operand(s, i) || is_num_tok(s[i]) { 8 } else { 1 }
}

/// The position, counted from the end of the header, at which token `i` starts.
pub open spec fn offset(s: Seq<Tok>, i: int) -> int
    decreases i,
{
    if i <= 0 { 0 } else { offset(s, i - 1) + width(s, i - 1) }
}

/// The tokens without the labels.
pub open spec fn strip(ts: Seq<Tok>) -> Seq<Tok>
    decreases ts.len(),
{
    if ts.len() == 0 {
        seq![]
    } else if ts.last() is Label {
        strip(ts.drop_last())
    } else {
        strip(ts.drop_last()).push(ts.last())
    }
}

/// Where label `name` stands among the tokens without labels: the last
/// definition of the name counts.
pub open spec fn label_index(ts: Seq<Tok>, name: Seq<char>) -> Option<int>
    decreases ts.len(),
{
    if ts.len() == 0 {
        None
    } else if ts.last() == Tok::Label(name) {
        Some(strip(ts.drop_last()).len() as int)
    } else {
        label_index(ts.drop_last(), name)
    }
}

/// Whether token `j` is an instruction's opcode, which a jump count counts.
pub open spec fn counted(s: Seq<Tok>, j: int) -> bool {
    s[j] is Op && !is_operand(s, j)
}

/// The `n`th counted token from `j` on, walking forward.
pub open spec fn walk_forward(s: Seq<Tok>, j: int, n: int) -> Option<int>
    decreases s.len() - j,
{
    if j < 0 || j >= s.len() {
        None
    } else if counted(s, j) {
        if n <= 1 { Some(j) } else { walk_forward(s, j + 1, n - 1) }
    } else {
        walk_forward(s, j + 1, n)
    }
}

/// The `n`th counted token from `j` down, walking backward.
pub open spec fn walk_backward(s: Seq<Tok>, j: int, n: int) -> Option<int>
    decreases j + 1,
{
    if j < 0 || j >= s.len() {
        None
    } else if counted(s, j) {
        if n <= 1 { Some(j) } else { walk_backward(s, j - 1, n - 1) }
    } else {
        walk_backward(s, j - 1, n)
    }
}

/// The instruction that a jump at `k` with count `n` lands on.
pub open spec fn jump_target(s: Seq<Tok>, k: int, n: int) -> Option<int> {
    if n > 0 { walk_forward(s, k + 1, n) } else { walk_backward(s, k - 1, -n) }
}

/// The displacement a jump at `k` with count `n` is rewritten to: the distance
/// in bytes from the jump's opcode to the target's, as the bits of a signed word.
pub open spec fn jump_displacement(s: Seq<Tok>, k: int, n: int) -> Result<u64, Failure> {
    if n == 0 {
        Err(Failure::UnexpectedChar)
    } else {
        match jump_target(s, k, n) {
            Some(j) => Ok(((offset(s, j) - offset(s, k)) as i64) as u64),
            None => Err(Failure::EndOfInput),
        }
    }
}

/// The count a jump operand holds.
pub open spec fn count_of(t: Tok) -> int {
    match t {
        Tok::U(v) => (v as i64) as int,
        Tok::I(v) => v as int,
        _ => 0,
    }
}

/// The address a call to the instruction at index `k` is rewritten to: the
/// byte before the target, since the machine fetches after the cursor.
pub open spec fn call_address(s: Seq<Tok>, k: int) -> u64 {
    (offset(s, k) + HEADER_LEN - 1) as u64
}

pub open spec fn then_tokens(head: Seq<Tok>, rest: Result<Seq<Tok>, Failure>) -> Result<Seq<Tok>, Failure> {
    match rest {
        Ok(r) => Ok(head + r),
        Err(e) => Err(e),
    }
}

/// Checks and rewrites the instructions of `s` (the tokens of `ts` without
/// labels) from the one at `i` on.
pub open spec fn resolve_from(ts: Seq<Tok>, s: Seq<Tok>, i: int) -> Result<Seq<Tok>, Failure>
    decreases s.len() - i,
{
    if i < 0 || i >= s.len() {
        Ok(seq![])
    } else {
        match s[i] {
            Tok::Op(name) => {
                let op = opcode_named(name);
                let more = i + 1 < s.len();
                if op == OpCode::Illegal {
                    Err(Failure::UnexpectedChar)
                } else if operand_of(op) == Operand::Nothing {
                    then_tokens(seq![s[i]], resolve_from(ts, s, i + 1))
                } else if operand_of(op) == Operand::Number {
                    if more && is_num_tok(s[i + 1]) {
                        then_tokens(seq![s[i], s[i + 1]], resolve_from(ts, s, i + 2))
                    } else {
                        Err(Failure::UnexpectedChar)
                    }
                } else if operand_of(op) == Operand::Count {
                    if more && (s[i + 1] is U || s[i + 1] is I) {
                        match jump_displacement(s, i, count_of(s[i + 1])) {
                            Ok(d) => then_tokens(seq![s[i], Tok::U(d)], resolve_from(ts, s, i + 2)),
                            Err(e) => Err(e),
                        }
                    } else {
                        Err(Failure::UnexpectedChar)
                    }
                } else if !more {
                    Err(Failure::EndOfInput)
                } else {
                    match s[i + 1] {
                        Tok::Op(target) => match label_index(ts, target) {
                            Some(k) => then_tokens(seq![s[i], Tok::U(call_address(s, k))], resolve_from(ts, s, i + 2)),
                            None => Err(Failure::UnexpectedChar),
                        },
                        _ => Err(Failure::UnexpectedChar),
                    }
                }
            },
            Tok::Label(_) => Err(Failure::Impossible),
            _ => Err(Failure::UnexpectedChar),
        }
    }
}

/// What `parse` makes of a token sequence.
pub open spec fn parse_spec(ts: Seq<Tok>) -> Result<Seq<Tok>, Failure> {
    if ts.len() == 0 { Err(Failure::EndOfInput) } else { resolve_from(ts, strip(ts), 0) }
}

/// A label and the index of the instruction it marks among the tokens
/// without labels.
pub struct Symbol {
    pub name: Vec<char>,
    pub index: usize,
}

impl Symbol {
    pub fn new(name: Vec<char>, index: usize) -> (r: Symbol)
        ensures
            r.name@ == name@,
            r.index == index,
    {
        Symbol { name, index }
    }
}

/// The index a symbol list gives a name: its last entry for the name counts.
pub open spec fn lookup(l: Seq<Symbol>, name: Seq<char>) -> Option<int>
    decreases l.len(),
{
    if l.len() == 0 {
        None
    } else if l.last().name@ == name {
        Some(l.last().index as int)
    } else {
        lookup(l.drop_last(), name)
    }
}

/// The opcode a token names, if it is an opcode token.
fn opcode_of_token(t: &Token) -> (r: Option<OpCode>)
    ensures
        match t@ {
            Tok::Op(name) => r == Some(opcode_named(name)),
            _ => r is None,
        },
{
    match t {
        Token::OpCode(s) => {
            let c = chars_of(s);
            Some(OpCode::from_name(&c))
        },
        _ => None,
    }
}

/// What follows an opcode.
fn operand_kind(op: OpCode) -> (r: Operand)
    ensures
        r == operand_of(op),
{
    match op {
        OpCode::Push | OpCode::CMP | OpCode::Print | OpCode::Load | OpCode::Store
        | OpCode::Shift => Operand::Number,
        OpCode::JMP | OpCode::JE | OpCode::JNE | OpCode::JG | OpCode::JL => Operand::Count,
        OpCode::Call => Operand::Target,
        _ => Operand::Nothing,
    }
}

/// What follows a token.
fn operand_after_token(t: &Token) -> (r: Operand)
    ensures
        r == operand_after(t@),
{
    match opcode_of_token(t) {
        Some(op) => operand_kind(op),
        None => Operand::Nothing,
    }
}

fn same_chars(a: &Vec<char>, b: &Vec<char>) -> (r: bool)
    ensures
        r == (a@ == b@),
{
    if a.len() != b.len() {
        return false;
    }
    let mut i: usize = 0;
    while i < a.len()
        invariant
            a@.len() == b@.len(),
            i <= a@.len(),
            forall|j: int| 0 <= j < i ==> a@[j] == b@[j],
        decreases a@.len() - i,
    {
        if a[i] != b[i] {
            return false;
        }
        i += 1;
    }
    assert(a@ =~= b@);
    true
}

/// Finds the index a symbol list gives a name.
fn find_symbol(l: &Vec<Symbol>, name: &Vec<char>) -> (r: Option<usize>)
    ensures
        match lookup(l@, name@) {
            Some(k) => r == Some(k as usize),
            None => r is None,
        },
{
    let mut j: usize = l.len();
    assert(l@.subrange(0, j as int) =~= l@);
    while j > 0
        invariant
            j <= l@.len(),
            lookup(l@, name@) == lookup(l@.subrange(0, j as int), name@),
        decreases j,
    {
        let ghost p = l@.subrange(0, j as int);
        assert(p.drop_last() =~= l@.subrange(0, j - 1));
        if same_chars(&l[j - 1].name, name) {
            return Some(l[j - 1].index);
        }
        j -= 1;
    }
    None
}

proof fn lemma_strip_len(ts: Seq<Tok>)
    ensures
        strip(ts).len() <= ts.len(),
    decreases ts.len(),
{
    if ts.len() > 0 {
        lemma_strip_len(ts.drop_last());
    }
}

pub proof fn lemma_offset_bound(s: Seq<Tok>, i: int)
    requires
        0 <= i,
    ensures
        i <= offset(s, i) <= 8 * i,
    decreases i,
{
    if i > 0 {
        lemma_offset_bound(s, i - 1);
    }
}

proof fn lemma_then_tokens(a: Seq<Tok>, b: Seq<Tok>, rest: Result<Seq<Tok>, Failure>)
    ensures
        then_tokens(a, then_tokens(b, rest)) == then_tokens(a + b, rest),
{
    if let Ok(r) = rest {
        assert(a + (b + r) =~= (a + b) + r);
    }
}

pub proof fn lemma_label_index_bound(ts: Seq<Tok>, name: Seq<char>)
    ensures
        label_index(ts, name) matches Some(k) ==> 0 <= k <= strip(ts).len(),
    decreases ts.len(),
{
    if ts.len() > 0 {
        lemma_label_index_bound(ts.drop_last(), name);
    }
}

/// The number of counted tokens in `s[a..b]`.
pub open spec fn count_counted(s: Seq<Tok>, a: int, b: int) -> int
    decreases b - a,
{
    if b <= a { 0 } else { count_counted(s, a, b - 1) + (if counted(s, b - 1) { 1int } else { 0int }) }
}

proof fn lemma_count_front(s: Seq<Tok>, a: int, b: int)
    requires
        a < b,
    ensures
        count_counted(s, a, b) == (if counted(s, a) { 1int } else { 0int }) + count_counted(s, a + 1, b),
    decreases b - a,
{
    assert(count_counted(s, a, b) == count_counted(s, a, b - 1) + (if counted(s, b - 1) { 1int } else { 0int }));
    if b - 1 > a {
        lemma_count_front(s, a, b - 1);
        assert(count_counted(s, a + 1, b) == count_counted(s, a + 1, b - 1) + (if counted(s, b - 1) { 1int } else { 0int }));
    } else {
        assert(count_counted(s, a, a) == 0);
        assert(count_counted(s, a + 1, a + 1) == 0);
    }
}

proof fn lemma_walk_forward(s: Seq<Tok>, j: int, n: int)
    requires
        n >= 1,
        0 <= j,
        walk_forward(s, j, n) is Some,
    ensures
        j <= walk_forward(s, j, n)->Some_0 < s.len(),
        counted(s, walk_forward(s, j, n)->Some_0),
        count_counted(s, j, walk_forward(s, j, n)->Some_0 + 1) == n,
    decreases s.len() - j,
{
    let t = walk_forward(s, j, n)->Some_0;
    if counted(s, j) {
        if n <= 1 {
            assert(count_counted(s, j, j) == 0);
        } else {
            lemma_walk_forward(s, j + 1, n - 1);
            lemma_count_front(s, j, t + 1);
        }
    } else {
        lemma_walk_forward(s, j + 1, n);
        lemma_count_front(s, j, t + 1);
    }
}

proof fn lemma_walk_backward(s: Seq<Tok>, j: int, n: int)
    requires
        n >= 1,
        j < s.len(),
        walk_backward(s, j, n) is Some,
    ensures
        0 <= walk_backward(s, j, n)->Some_0 <= j,
        counted(s, walk_backward(s, j, n)->Some_0),
        count_counted(s, walk_backward(s, j, n)->Some_0, j + 1) == n,
    decreases j + 1,
{
    let t = walk_backward(s, j, n)->Some_0;
    if counted(s, j) {
        if n <= 1 {
            lemma_count_front(s, j, j + 1);
        } else {
            lemma_walk_backward(s, j - 1, n - 1);
        }
    } else {
        lemma_walk_backward(s, j - 1, n);
    }
}

/// A jump at `k` with a count `n` that resolves lands on an instruction's
/// opcode: the `n`th one after the jump for a positive count, the `-n`th one
/// before it for a negative count. Read as a signed word, the rewritten
/// displacement added to the jump's own position gives the target's position,
/// every 8-byte operand in between included.
pub proof fn lemma_jump_lands(s: Seq<Tok>, k: int, n: int)
    requires
        0 <= k < s.len(),
        s.len() < 0x1000_0000_0000_0000,
        jump_displacement(s, k, n) is Ok,
    ensures
        jump_target(s, k, n) is Some,
        ({
            let j = jump_target(s, k, n)->Some_0;
            &&& 0 <= j < s.len()
            &&& counted(s, j)
            &&& offset(s, k) + (jump_displacement(s, k, n)->Ok_0 as i64) == offset(s, j)
            &&& n > 0 ==> k < j && count_counted(s, k + 1, j + 1) == n
            &&& n < 0 ==> j < k && count_counted(s, j, k) == -n
        }),
{
    let j = jump_target(s, k, n)->Some_0;
    if n > 0 {
        lemma_walk_forward(s, k + 1, n);
    } else {
        lemma_walk_backward(s, k - 1, -n);
    }
    lemma_offset_bound(s, j);
    lemma_offset_bound(s, k);
    let d = (offset(s, j) - offset(s, k)) as i64;
    assert(d as int == offset(s, j) - offset(s, k));
    assert(((d as u64) as i64) == d) by (bit_vector);
}

/// How token `j` of a resolved sequence `r` stands to token `i + j` of the
/// label-free tokens `s`: an operand became a number (a jump's count its
/// displacement, a call's label its address); any other token is the same opcode.
pub open spec fn resolved_at(ts: Seq<Tok>, s: Seq<Tok>, i: int, r: Seq<Tok>, j: int) -> bool {
    &&& is_operand(s, i + j) ==> is_num_tok(r[j])
    &&& !is_operand(s, i + j) ==> r[j] == s[i + j] && s[i + j] is Op
    &&& !is_operand(s, i + j) && operand_after(s[i + j]) == Operand::Count ==> j + 1 < r.len()
        && jump_displacement(s, i + j, count_of(s[i + j + 1])) is Ok
        && r[j + 1] == Tok::U(jump_displacement(s, i + j, count_of(s[i + j + 1]))->Ok_0)
    &&& !is_operand(s, i + j) && operand_after(s[i + j]) == Operand::Target ==> j + 1 < r.len()
        && s[i + j + 1] is Op && label_index(ts, s[i + j + 1]->Op_0) is Some
        && r[j + 1] == Tok::U(call_address(s, label_index(ts, s[i + j + 1]->Op_0)->Some_0))
}

/// How a resolved sequence stands to the label-free tokens from `i` on.
pub open spec fn resolved_from(ts: Seq<Tok>, s: Seq<Tok>, i: int, r: Seq<Tok>) -> bool {
    &&& r.len() == s.len() - i
    &&& forall|j: int| 0 <= j < r.len() ==> #[trigger] resolved_at(ts, s, i, r, j)
}

proof fn lemma_resolve_unfold(ts: Seq<Tok>, s: Seq<Tok>, i: int)
    requires
        0 <= i < s.len(),
        resolve_from(ts, s, i) is Ok,
    ensures
        s[i] is Op,
        operand_after(s[i]) == Operand::Nothing ==> resolve_from(ts, s, i + 1) is Ok
            && resolve_from(ts, s, i)->Ok_0 == seq![s[i]] + resolve_from(ts, s, i + 1)->Ok_0,
        operand_after(s[i]) != Operand::Nothing ==> i + 1 < s.len() && resolve_from(ts, s, i + 2) is Ok
            && resolve_from(ts, s, i)->Ok_0 == seq![s[i], resolve_from(ts, s, i)->Ok_0[1]]
                + resolve_from(ts, s, i + 2)->Ok_0
            && is_num_tok(resolve_from(ts, s, i)->Ok_0[1]),
        operand_after(s[i]) == Operand::Count ==> jump_displacement(s, i, count_of(s[i + 1])) is Ok
            && resolve_from(ts, s, i)->Ok_0[1] == Tok::U(jump_displacement(s, i, count_of(s[i + 1]))->Ok_0),
        operand_after(s[i]) == Operand::Target ==> s[i + 1] is Op && label_index(ts, s[i + 1]->Op_0) is Some
            && resolve_from(ts, s, i)->Ok_0[1] == Tok::U(call_address(s, label_index(ts, s[i + 1]->Op_0)->Some_0)),
{
    let r = resolve_from(ts, s, i)->Ok_0;
    if operand_after(s[i]) != Operand::Nothing {
        let rest = resolve_from(ts, s, i + 2)->Ok_0;
        assert(r == seq![s[i], r[1]] + rest);
    }
}

/// What resolution keeps and what it rewrites.
pub proof fn lemma_resolve_shape(ts: Seq<Tok>, s: Seq<Tok>, i: int)
    requires
        0 <= i <= s.len(),
        i < s.len() ==> !is_operand(s, i),
        resolve_from(ts, s, i) is Ok,
    ensures
        resolved_from(ts, s, i, resolve_from(ts, s, i)->Ok_0),
    decreases s.len() - i,
{
    if i < s.len() {
        let r = resolve_from(ts, s, i)->Ok_0;
        lemma_resolve_unfold(ts, s, i);
        if operand_after(s[i]) == Operand::Nothing {
            assert(!is_operand(s, i + 1));
            lemma_resolve_shape(ts, s, i + 1);
            let rest = resolve_from(ts, s, i + 1)->Ok_0;
            assert forall|j: int| 0 <= j < r.len() implies #[trigger] resolved_at(ts, s, i, r, j) by {
                if j > 0 {
                    assert(resolved_at(ts, s, i + 1, rest, j - 1));
                    assert(r[j] == rest[j - 1]);
                    assert(i + j == (i + 1) + (j - 1));
                    if j + 1 < r.len() {
                        assert(r[j + 1] == rest[j]);
                    }
                }
            }
        } else {
            assert(is_operand(s, i + 1));
            assert(!is_operand(s, i + 2));
            lemma_resolve_shape(ts, s, i + 2);
            let rest = resolve_from(ts, s, i + 2)->Ok_0;
            assert forall|j: int| 0 <= j < r.len() implies #[trigger] resolved_at(ts, s, i, r, j) by {
                if j >= 2 {
                    assert(resolved_at(ts, s, i + 2, rest, j - 2));
                    assert(r[j] == rest[j - 2]);
                    assert(i + j == (i + 2) + (j - 2));
                    if j + 1 < r.len() {
                        assert(r[j + 1] == rest[j - 1]);
                    }
                }
            }
        }
    }
}

/// Resolution keeps which tokens are operands.
pub proof fn lemma_resolve_operands(s: Seq<Tok>, o: Seq<Tok>, j: int)
    requires
        o.len() == s.len(),
        forall|i: int| 0 <= i < s.len() ==> !is_operand(s, i) ==> #[trigger] o[i] == s[i],
        0 <= j <= s.len(),
    ensures
        is_operand(o, j) == is_operand(s, j),
    decreases j,
{
    if j > 0 {
        lemma_resolve_operands(s, o, j - 1);
    }
}

/// Resolution keeps every token's position.
pub proof fn lemma_resolve_offsets(s: Seq<Tok>, o: Seq<Tok>, j: int)
    requires
        o.len() == s.len(),
        forall|i: int| 0 <= i < s.len() ==> !is_operand(s, i) ==> #[trigger] o[i] == s[i],
        forall|i: int| 0 <= i < s.len() ==> is_operand(s, i) ==> is_num_tok(#[trigger] o[i]),
        0 <= j <= s.len(),
    ensures
        offset(o, j) == offset(s, j),
    decreases j,
{
    if j > 0 {
        lemma_resolve_offsets(s, o, j - 1);
        lemma_resolve_operands(s, o, j - 1);
    }
}

/// Resolves a token sequence for code generation.
pub struct Parser;

impl Parser {
    pub fn new() -> (r: Parser) {
        Parser
    }

    /// Removes the labels, recording where each stands among the other tokens.
    fn collect_labels(program: &Vec<Token>) -> (r: (Vec<Token>, Vec<Symbol>))
        ensures
            toks(r.0@) == strip(toks(program@)),
            forall|name: Seq<char>| #[trigger] lookup(r.1@, name) == label_index(toks(program@), name),
    {
        let ghost ts = toks(program@);
        let mut stripped: Vec<Token> = Vec::new();
        let mut labels: Vec<Symbol> = Vec::new();
        let mut i: usize = 0;
        assert(ts.subrange(0, 0) =~= Seq::<Tok>::empty());
        while i < program.len()
            invariant
                ts == toks(program@),
                i <= program@.len(),
                toks(stripped@) == strip(ts.subrange(0, i as int)),
                forall|name: Seq<char>| #[trigger] lookup(labels@, name) == label_index(ts.subrange(0, i as int), name),
            decreases program@.len() - i,
        {
            let ghost pre = ts.subrange(0, i as int);
            let ghost cur = ts.subrange(0, i + 1);
            assert(cur.drop_last() =~= pre);
            assert(cur.last() == program@[i as int]@);
            let ghost old_labels = labels@;
            match &program[i] {
                Token::Func(name) => {
                    let c = chars_of(name);
                    labels.push(Symbol::new(c, stripped.len()));
                    proof {
                        assert(labels@.drop_last() =~= old_labels);
                        assert forall|n: Seq<char>| #[trigger] lookup(labels@, n) == label_index(cur, n) by {
                            assert(lookup(old_labels, n) == label_index(pre, n));
                        }
                    }
                },
                t => {
                    let ghost old_stripped = stripped@;
                    stripped.push(t.copy());
                    proof {
                        assert(toks(stripped@) =~= toks(old_stripped).push(cur.last()));
                        assert forall|n: Seq<char>| #[trigger] lookup(labels@, n) == label_index(cur, n) by {
                            assert(lookup(old_labels, n) == label_index(pre, n));
                        }
                    }
                },
            }
            i += 1;
        }
        assert(ts.subrange(0, program@.len() as int) =~= ts);
        (stripped, labels)
    }

    /// For each token, whether it is an operand; and where each token starts.
    fn layout(s: &Vec<Token>) -> (r: (Vec<bool>, Vec<u64>))
        requires
            s@.len() < 0x1000_0000_0000_0000,
        ensures
            r.0@.len() == s@.len(),
            r.1@.len() == s@.len() + 1,
            forall|j: int| 0 <= j < s@.len() ==> #[trigger] r.0@[j] == is_operand(toks(s@), j),
            forall|j: int| 0 <= j <= s@.len() ==> #[trigger] r.1@[j] == offset(toks(s@), j),
    {
        let ghost ts = toks(s@);
        let n = s.len();
        let mut ops: Vec<bool> = Vec::new();
        let mut offs: Vec<u64> = Vec::new();
        offs.push(0);
        let mut j: usize = 0;
        while j < n
            invariant
                n == s@.len(),
                n < 0x1000_0000_0000_0000,
                ts == toks(s@),
                j <= n,
                ops@.len() == j,
                offs@.len() == j + 1,
                forall|k: int| 0 <= k < j ==> #[trigger] ops@[k] == is_operand(ts, k),
                forall|k: int| 0 <= k <= j ==> #[trigger] offs@[k] == offset(ts, k),
            decreases n - j,
        {
            let is_op = j > 0 && !ops[j - 1] && operand_after_token(&s[j - 1]) != Operand::Nothing;
            assert(is_op == is_operand(ts, j as int));
            let w: u64 = if is_op || s[j].is_num() { 8 } else { 1 };
            proof { lemma_offset_bound(ts, j as int); }
            let next = offs[j] + w;
            ops.push(is_op);
            offs.push(next);
            j += 1;
            assert(offs@[j as int] == offset(ts, j as int));
        }
        (ops, offs)
    }

    /// The displacement a jump at `k` with count `n` is rewritten to.
    fn get_jump_index(s: &Vec<Token>, ops: &Vec<bool>, offs: &Vec<u64>, k: usize, n: i64) -> (r: Result<u64, Failure>)
        requires
            k < s@.len(),
            s@.len() < 0x1000_0000_0000_0000,
            ops@.len() == s@.len(),
            offs@.len() == s@.len() + 1,
            forall|j: int| 0 <= j < s@.len() ==> #[trigger] ops@[j] == is_operand(toks(s@), j),
            forall|j: int| 0 <= j <= s@.len() ==> #[trigger] offs@[j] == offset(toks(s@), j),
        ensures
            r == jump_displacement(toks(s@), k as int, n as int),
    {
        let ghost ts = toks(s@);
        let len = s.len();
        if n == 0 {
            return Err(Failure::UnexpectedChar);
        }
        if n > 0 {
            let mut j: usize = k + 1;
            let mut left: u64 = n as u64;
            while j < len
                invariant
                    ts == toks(s@),
                    len == s@.len(),
                    len < 0x1000_0000_0000_0000,
                    k < j <= len,
                    n > 0,
                    left >= 1,
                    ops@.len() == len,
                    offs@.len() == len + 1,
                    forall|i: int| 0 <= i < len ==> #[trigger] ops@[i] == is_operand(ts, i),
                    forall|i: int| 0 <= i <= len ==> #[trigger] offs@[i] == offset(ts, i),
                    walk_forward(ts, k + 1, n as int) == walk_forward(ts, j as int, left as int),
                decreases len - j,
            {
                let c = !ops[j] && match &s[j] { Token::OpCode(_) => true, _ => false };
                assert(c == counted(ts, j as int));
                if c {
                    if left <= 1 {
                        assert(walk_forward(ts, j as int, left as int) == Some(j as int));
                        return Ok(Self::displacement(offs, Ghost(ts), j, k));
                    }
                    left = left - 1;
                }
                j += 1;
            }
            Err(Failure::EndOfInput)
        } else {
            let mut j1: usize = k;
            let mut left: u64 = (-(n + 1)) as u64 + 1;
            assert(left as int == -(n as int));
            while j1 > 0
                invariant
                    ts == toks(s@),
                    len == s@.len(),
                    len < 0x1000_0000_0000_0000,
                    j1 <= k < len,
                    n < 0,
                    left >= 1,
                    ops@.len() == len,
                    offs@.len() == len + 1,
                    forall|i: int| 0 <= i < len ==> #[trigger] ops@[i] == is_operand(ts, i),
                    forall|i: int| 0 <= i <= len ==> #[trigger] offs@[i] == offset(ts, i),
                    walk_backward(ts, k - 1, -(n as int)) == walk_backward(ts, j1 - 1, left as int),
                decreases j1,
            {
                let j = j1 - 1;
                let c = !ops[j] && match &s[j] { Token::OpCode(_) => true, _ => false };
                assert(c == counted(ts, j as int));
                if c {
                    if left <= 1 {
                        assert(walk_backward(ts, j as int, left as int) == Some(j as int));
                        return Ok(Self::displacement(offs, Ghost(ts), j, k));
                    }
                    left = left - 1;
                }
                j1 = j;
            }
            Err(Failure::EndOfInput)
        }
    }

    /// The distance from token `k` to token `t`, as the bits of a signed word.
    fn displacement(offs: &Vec<u64>, ts: Ghost<Seq<Tok>>, t: usize, k: usize) -> (r: u64)
        requires
            t < ts@.len(),
            k < ts@.len(),
            ts@.len() < 0x1000_0000_0000_0000,
            offs@.len() == ts@.len() + 1,
            forall|i: int| 0 <= i <= ts@.len() ==> #[trigger] offs@[i] == offset(ts@, i),
        ensures
            r == ((offset(ts@, t as int) - offset(ts@, k as int)) as i64) as u64,
    {
        proof {
            lemma_offset_bound(ts@, t as int);
            lemma_offset_bound(ts@, k as int);
        }
        let (a, b) = (offs[t], offs[k]);
        if a >= b {
            ((a - b) as i64) as u64
        } else {
            (-((b - a) as i64)) as u64
        }
    }


    /// Checks and rewrites a token sequence: labels are removed, every opcode is
    /// checked against the mnemonic table and its operand, jump counts become
    /// byte displacements and label names after `Call` become addresses.
    pub fn parse(program: Vec<Token>) -> (r: Result<Vec<Token>, CompError>)
        requires
            program@.len() < 0x1000_0000_0000_0000,
        ensures
            match parse_spec(toks(program@)) {
                Ok(o) => r is Ok && toks(r->Ok_0@) == o,
                Err(k) => r is Err && r->Err_0.kind() == k,
            },
    {
        if program.len() == 0 {
            return Err(CompError::of_kind(Failure::EndOfInput, "input program is empty"));
        }
        let ghost ts = toks(program@);
        let (s, labels) = Self::collect_labels(&program);
        let ghost ss = toks(s@);
        proof { lemma_strip_len(ts); }
        let (ops, offs) = Self::layout(&s);
        let len = s.len();
        let mut out: Vec<Token> = Vec::new();
        let mut i: usize = 0;
        assert(then_tokens(toks(out@), resolve_from(ts, ss, 0)) == resolve_from(ts, ss, 0)) by {
            if let Ok(r) = resolve_from(ts, ss, 0) {
                assert(toks(out@) + r =~= r);
            }
        }
        while i < len
            invariant
                ts == toks(program@),
                ss == toks(s@),
                ss == strip(ts),
                len == s@.len(),
                len < 0x1000_0000_0000_0000,
                i <= len,
                ops@.len() == len,
                offs@.len() == len + 1,
                forall|j: int| 0 <= j < len ==> #[trigger] ops@[j] == is_operand(ss, j),
                forall|j: int| 0 <= j <= len ==> #[trigger] offs@[j] == offset(ss, j),
                forall|name: Seq<char>| #[trigger] lookup(labels@, name) == label_index(ts, name),
                resolve_from(ts, ss, 0) == then_tokens(toks(out@), resolve_from(ts, ss, i as int)),
            decreases len - i,
        {
            let ghost before = toks(out@);
            let op = match opcode_of_token(&s[i]) {
                Some(op) => op,
                None => {
                    let k = match &s[i] {
                        Token::Func(_) => Failure::Impossible,
                        _ => Failure::UnexpectedChar,
                    };
                    return Err(CompError::of_kind(k, "numbers must only follow words"));
                },
            };
            if op == OpCode::Illegal {
                return Err(CompError::of_kind(Failure::UnexpectedChar, "unknown opcode"));
            }
            let kind = operand_kind(op);
            let more = i + 1 < len;
            if kind == Operand::Nothing {
                out.push(s[i].copy());
                proof {
                    lemma_then_tokens(before, seq![ss[i as int]], resolve_from(ts, ss, i + 1));
                    assert(toks(out@) =~= before + seq![ss[i as int]]);
                }
                i += 1;
            } else if kind == Operand::Number {
                if !(more && s[i + 1].is_num()) {
                    return Err(CompError::of_kind(Failure::UnexpectedChar, "a number must follow this opcode"));
                }
                out.push(s[i].copy());
                out.push(s[i + 1].copy());
                proof {
                    lemma_then_tokens(before, seq![ss[i as int], ss[i + 1]], resolve_from(ts, ss, i + 2));
                    assert(toks(out@) =~= before + seq![ss[i as int], ss[i + 1]]);
                }
                i += 2;
            } else if kind == Operand::Count {
                if !more {
                    return Err(CompError::of_kind(Failure::UnexpectedChar, "a count must follow a jump"));
                }
                let count: i64 = match &s[i + 1] {
                    Token::NumU(v) => *v as i64,
                    Token::NumI(v) => *v,
                    _ => {
                        return Err(CompError::of_kind(Failure::UnexpectedChar, "a count must follow a jump"));
                    },
                };
                assert(count as int == count_of(ss[i + 1]));
                match Self::get_jump_index(&s, &ops, &offs, i, count) {
                    Ok(d) => {
                        out.push(s[i].copy());
                        out.push(Token::NumU(d));
                        proof {
                            lemma_then_tokens(before, seq![ss[i as int], Tok::U(d)], resolve_from(ts, ss, i + 2));
                            assert(toks(out@) =~= before + seq![ss[i as int], Tok::U(d)]);
                        }
                        i += 2;
                    },
                    Err(e) => {
                        return Err(CompError::of_kind(e, "jump leads nowhere"));
                    },
                }
            } else {
                if !more {
                    return Err(CompError::of_kind(Failure::EndOfInput, "a call ends the program"));
                }
                let k = match &s[i + 1] {
                    Token::OpCode(name) => {
                        let c = chars_of(name);
                        match find_symbol(&labels, &c) {
                            Some(k) => k,
                            None => {
                                return Err(CompError::of_kind(Failure::UnexpectedChar, "no such label"));
                            },
                        }
                    },
                    _ => {
                        return Err(CompError::of_kind(Failure::UnexpectedChar, "a label must follow a call"));
                    },
                };
                proof {
                    if let Tok::Op(name) = ss[i + 1] {
                        lemma_label_index_bound(ts, name);
                    }
                    lemma_offset_bound(ss, k as int);
                }
                let a = offs[k] + (HEADER_LEN as u64 - 1);
                assert(a == call_address(ss, k as int));
                out.push(s[i].copy());
                out.push(Token::NumU(a));
                proof {
                    lemma_then_tokens(before, seq![ss[i as int], Tok::U(a)], resolve_from(ts, ss, i + 2));
                    assert(toks(out@) =~= before + seq![ss[i as int], Tok::U(a)]);
                }
                i += 2;
            }
        }
        assert(toks(out@) + seq![] =~= toks(out@));
        Ok(out)
    }

}

} // verus!

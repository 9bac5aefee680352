//! The stack machine that executes an encoded program.
use vstd::prelude::*;
use crate::instruction::{header, header_spec, opcode_of, OpCode, HEADER_LEN};
use crate::platform::Platform;

verus! {

/// The magic prefix of every executable stream ("Nariva Executable").
pub const HEADER: [u8; 17] = [78, 97, 114, 105, 118, 97, 32, 69, 120, 101, 99, 117, 116, 97, 98, 108, 101];

/// A bound on the length of a stream, far past any that memory holds; it keeps
/// every cursor value, jump targets past the end included, inside a `u64`.
pub const MAX_PROGRAM_LEN: u64 = 0x8000_0000_0000_0000;

/// The number of registers.
pub const REGISTER_COUNT: usize = 4;

/// The comparison flag register.
#[derive(Debug, Clone, Copy, PartialEq, Eq, Structural)]
pub enum Flag {
    Unset,
    Equal,
    Greater,
    Less,
    Overflow,
}

/// Why execution stopped short of the end of the stream.
#[derive(Debug, Clone, Copy, PartialEq, Eq, Structural)]
pub enum Fault {
    /// The byte under the cursor selects no opcode.
    IllegalOpcode,
    /// An instruction needed more words than the operand stack held.
    EmptyStack,
    /// `Return` ran with no return address recorded.
    EmptyReturnStack,
    /// `Store` or `Load` named a register that does not exist.
    BadRegister,
    /// A comparison or print mode outside its table.
    BadMode,
    /// An operand runs past the end of the stream.
    Truncated,
    /// A jump leads before the start of the stream.
    BadJump,
}

/// The formats of `Print`: 0 unsigned, 1 signed, 2 float, 3 character.
#[derive(Debug, Clone, Copy, PartialEq, Eq, Structural)]
pub enum PrintMode {
    Unsigned,
    Signed,
    Float,
    Char,
}

/// The float operations the machine hands to its platform.
#[derive(Debug, Clone, Copy, PartialEq, Eq, Structural)]
pub enum FloatOp {
    Add,
    Sub,
    Mul,
    Div,
    Rem,
    Compare,
}

/// A float operation that the next instruction needs: `lhs` is the word below
/// the top of the stack, `rhs` the top.
#[derive(Debug, Clone, Copy, PartialEq, Eq, Structural)]
pub struct FloatRequest {
    pub op: FloatOp,
    pub lhs: u64,
    pub rhs: u64,
}

/// What the platform answered to a float request: `word` for arithmetic,
/// `flag` for a comparison. Ignored by every other instruction.
#[derive(Debug, Clone, Copy, PartialEq, Eq, Structural)]
pub struct Answer {
    pub word: u64,
    pub flag: Flag,
}

/// A word that an instruction writes out.
#[derive(Debug, Clone, Copy, PartialEq, Eq, Structural)]
pub struct Output {
    pub mode: PrintMode,
    pub value: u64,
}

/// The machine's state as a mathematical value.
pub struct MachineState {
    pub program: Seq<u8>,
    /// The last byte consumed; the next opcode is fetched at `cursor + 1`.
    pub cursor: int,
    pub stack: Seq<u64>,
    pub returns: Seq<u64>,
    pub registers: Seq<u64>,
    pub flag: Flag,
    pub fault: Option<Fault>,
}

/// The big-endian word stored at `p[i..i + 8]`.
pub open spec fn word_at(p: Seq<u8>, i: int) -> u64 {
    ((p[i] as u64) << 56u64) | ((p[i + 1] as u64) << 48u64) | ((p[i + 2] as u64) << 40u64)
        | ((p[i + 3] as u64) << 32u64) | ((p[i + 4] as u64) << 24u64) | ((p[i + 5] as u64) << 16u64)
        | ((p[i + 6] as u64) << 8u64) | (p[i + 7] as u64)
}

/// Whether a stream starts with the magic prefix.
pub open spec fn is_executable(p: Seq<u8>) -> bool {
    p.len() >= HEADER_LEN && p.subrange(0, HEADER_LEN as int) == header_spec()
}

/// A fresh machine about to execute `p`.
pub open spec fn initial(p: Seq<u8>) -> MachineState {
    MachineState {
        program: p,
        cursor: HEADER_LEN - 1,
        stack: seq![],
        returns: seq![],
        registers: seq![0u64, 0u64, 0u64, 0u64],
        flag: Flag::Unset,
        fault: None,
    }
}

/// Whether another instruction is to be executed.
pub open spec fn running(s: MachineState) -> bool {
    s.fault is None && s.cursor + 1 < s.program.len()
}

/// The opcode under the cursor.
pub open spec fn current_op(s: MachineState) -> OpCode {
    opcode_of(s.program[s.cursor + 1])
}

/// Whether the 8-byte operand after the opcode lies inside the stream.
pub open spec fn has_operand(s: MachineState) -> bool {
    s.cursor + 9 < s.program.len()
}

/// The operand after the opcode.
pub open spec fn operand(s: MachineState) -> u64 {
    word_at(s.program, s.cursor + 2)
}

/// The top of the stack.
pub open spec fn top(s: MachineState) -> u64 {
    s.stack.last()
}

/// The word below the top.
pub open spec fn second(s: MachineState) -> u64 {
    s.stack[s.stack.len() - 2]
}

pub open spec fn with_fault(s: MachineState, f: Fault) -> MachineState {
    MachineState { fault: Some(f), ..s }
}

/// Moves the cursor past `k` bytes.
pub open spec fn skip(s: MachineState, k: int) -> MachineState {
    MachineState { cursor: s.cursor + k, ..s }
}

/// Pops `n` words, pushes `w` and moves the cursor past `k` bytes.
pub open spec fn replace(s: MachineState, n: int, w: u64, k: int) -> MachineState {
    MachineState {
        stack: s.stack.subrange(0, s.stack.len() - n).push(w),
        cursor: s.cursor + k,
        ..s
    }
}

/// The signed reading of a word.
pub open spec fn signed(w: u64) -> i64 {
    w as i64
}

/// The signed extreme on the side of `positive`.
pub open spec fn signed_extreme(positive: bool) -> u64 {
    if positive { i64::MAX as u64 } else { i64::MIN as u64 }
}

/// `x op y` in the integer domains, `x` the word below the top and `y` the top.
/// The flag part tells whether the exact result left the domain (or the divisor
/// was zero): the word is then clamped to the domain's extreme on that side.
pub open spec fn int_result(op: OpCode, x: u64, y: u64) -> (u64, bool) {
    let (sx, sy) = (signed(x) as int, signed(y) as int);
    match op {
        OpCode::AddU => if x + y > u64::MAX { (u64::MAX, true) } else { ((x + y) as u64, false) },
        OpCode::SubU => if x < y { (0u64, true) } else { ((x - y) as u64, false) },
        OpCode::MulU => if x * y > u64::MAX { (u64::MAX, true) } else { ((x * y) as u64, false) },
        OpCode::DivU => if y == 0 { (u64::MAX, true) } else { ((x / y) as u64, false) },
        OpCode::ModU => if y == 0 { (u64::MAX, true) } else { ((x % y) as u64, false) },
        OpCode::AddI => match signed(x).checked_add(signed(y)) {
            Some(r) => (r as u64, false),
            None => (signed_extreme(sy > 0), true),
        },
        OpCode::SubI => match signed(x).checked_sub(signed(y)) {
            Some(r) => (r as u64, false),
            None => (signed_extreme(sy < 0), true),
        },
        OpCode::MulI => match signed(x).checked_mul(signed(y)) {
            Some(r) => (r as u64, false),
            None => (signed_extreme((sx > 0) == (sy > 0)), true),
        },
        OpCode::DivI => match signed(x).checked_div(signed(y)) {
            Some(r) => (r as u64, false),
            None => (signed_extreme(sy == -1 || sx >= 0), true),
        },
        OpCode::ModI => if sy == 0 {
            (signed_extreme(sx >= 0), true)
        } else if sy == -1 {
            (0u64, false)
        } else {
            match signed(x).checked_rem(signed(y)) {
                Some(r) => (r as u64, false),
                None => (0u64, false),
            }
        },
        OpCode::BitAnd => (x & y, false),
        OpCode::BitOr => (x | y, false),
        _ => (x ^ y, false),
    }
}

/// Whether an opcode combines the top two words in an integer domain.
pub open spec fn is_int_binary(op: OpCode) -> bool {
    match op {
        OpCode::AddU | OpCode::SubU | OpCode::MulU | OpCode::DivU | OpCode::ModU
        | OpCode::AddI | OpCode::SubI | OpCode::MulI | OpCode::DivI | OpCode::ModI
        | OpCode::BitAnd | OpCode::BitOr | OpCode::BitXor => true,
        _ => false,
    }
}

/// The float operation of an opcode, for those that have one.
pub open spec fn float_op_of(op: OpCode) -> Option<FloatOp> {
    match op {
        OpCode::AddF => Some(FloatOp::Add),
        OpCode::SubF => Some(FloatOp::Sub),
        OpCode::MulF => Some(FloatOp::Mul),
        OpCode::DivF => Some(FloatOp::Div),
        OpCode::ModF => Some(FloatOp::Rem),
        _ => None,
    }
}

/// `x` shifted by `y` bits, left when `left`; shifts of 64 or more give 0.
pub open spec fn shifted(x: u64, y: u64, left: bool) -> u64 {
    if y >= 64 { 0 } else if left { x << y } else { x >> y }
}

/// How `x` compares with `y` under comparison mode 0 (unsigned) or 1 (signed).
pub open spec fn compare_flag(x: u64, y: u64, mode: u64) -> Flag {
    let (a, b) = if mode == 0 { (x as int, y as int) } else { (signed(x) as int, signed(y) as int) };
    if a == b { Flag::Equal } else if a > b { Flag::Greater } else { Flag::Less }
}

/// Whether a jump opcode is taken under a flag.
pub open spec fn jump_taken(op: OpCode, f: Flag) -> bool {
    match op {
        OpCode::JMP => true,
        OpCode::JE => f == Flag::Equal,
        OpCode::JNE => f == Flag::Greater || f == Flag::Less,
        OpCode::JG => f == Flag::Greater,
        OpCode::JL => f == Flag::Less,
        _ => false,
    }
}

/// Whether an opcode is one of the jumps.
pub open spec fn is_jump(op: OpCode) -> bool {
    op == OpCode::JMP || op == OpCode::JE || op == OpCode::JNE || op == OpCode::JG || op == OpCode::JL
}

/// The print mode a selector names.
pub open spec fn print_mode(m: u64) -> PrintMode {
    if m == 0 { PrintMode::Unsigned } else if m == 1 { PrintMode::Signed }
    else if m == 2 { PrintMode::Float } else { PrintMode::Char }
}

/// Where a taken jump leaves the cursor: the displacement counts from the jump's
/// own opcode byte, so the next fetch lands `displacement` bytes after it. The
/// cursor takes the target as it is; one past the end stops the machine.
pub open spec fn jump_target(s: MachineState) -> int {
    s.cursor + signed(operand(s)) as int
}

/// The float operation the next instruction asks of the platform, if any.
pub open spec fn float_request_of(s: MachineState) -> Option<FloatRequest> {
    let op = current_op(s);
    if !running(s) || s.stack.len() < 2 {
        None
    } else if let Some(f) = float_op_of(op) {
        Some(FloatRequest { op: f, lhs: second(s), rhs: top(s) })
    } else if op == OpCode::CMP && has_operand(s) && operand(s) == 2 {
        Some(FloatRequest { op: FloatOp::Compare, lhs: second(s), rhs: top(s) })
    } else {
        None
    }
}

/// The word the next instruction writes out, if any.
pub open spec fn output_of(s: MachineState) -> Option<Output> {
    if running(s) && current_op(s) == OpCode::Print && has_operand(s) && operand(s) < 4
        && s.stack.len() > 0 {
        Some(Output { mode: print_mode(operand(s)), value: top(s) })
    } else {
        None
    }
}

/// The state after one instruction; `a` is what the platform answered to the
/// instruction's float request, if it made one.
pub open spec fn next(s: MachineState, a: Answer) -> MachineState {
    let op = current_op(s);
    let n = s.stack.len();
    if !running(s) {
        s
    } else if op == OpCode::Illegal {
        with_fault(s, Fault::IllegalOpcode)
    } else if op == OpCode::Halt {
        MachineState { cursor: s.program.len() as int, ..s }
    } else if op == OpCode::Return {
        if s.returns.len() == 0 {
            with_fault(s, Fault::EmptyReturnStack)
        } else {
            MachineState {
                cursor: s.returns.last() as int,
                returns: s.returns.drop_last(),
                ..s
            }
        }
    } else if op == OpCode::Pop || op == OpCode::Dupli || op == OpCode::BitNot {
        if n == 0 {
            with_fault(s, Fault::EmptyStack)
        } else if op == OpCode::Pop {
            MachineState { stack: s.stack.drop_last(), cursor: s.cursor + 1, ..s }
        } else if op == OpCode::Dupli {
            skip(MachineState { stack: s.stack.push(top(s)), ..s }, 1)
        } else {
            replace(s, 1, !top(s), 1)
        }
    } else if is_int_binary(op) {
        if n < 2 {
            with_fault(s, Fault::EmptyStack)
        } else {
            let (w, over) = int_result(op, second(s), top(s));
            let t = replace(s, 2, w, 1);
            if over { MachineState { flag: Flag::Overflow, ..t } } else { t }
        }
    } else if float_op_of(op) is Some {
        if n < 2 { with_fault(s, Fault::EmptyStack) } else { replace(s, 2, a.word, 1) }
    } else if !has_operand(s) {
        with_fault(s, Fault::Truncated)
    } else if op == OpCode::Push {
        skip(MachineState { stack: s.stack.push(operand(s)), ..s }, 9)
    } else if is_jump(op) {
        if !jump_taken(op, s.flag) {
            skip(s, 9)
        } else if jump_target(s) < 0 {
            with_fault(s, Fault::BadJump)
        } else {
            MachineState { cursor: jump_target(s), ..s }
        }
    } else if op == OpCode::Call {
        MachineState {
            returns: s.returns.push((s.cursor + 9) as u64),
            cursor: operand(s) as int,
            ..s
        }
    } else if op == OpCode::Store || op == OpCode::Load {
        if operand(s) >= REGISTER_COUNT {
            with_fault(s, Fault::BadRegister)
        } else if op == OpCode::Load {
            skip(MachineState { stack: s.stack.push(s.registers[operand(s) as int]), ..s }, 9)
        } else if n == 0 {
            with_fault(s, Fault::EmptyStack)
        } else {
            MachineState {
                registers: s.registers.update(operand(s) as int, top(s)),
                stack: s.stack.drop_last(),
                cursor: s.cursor + 9,
                ..s
            }
        }
    } else if op == OpCode::Print {
        if operand(s) >= 4 {
            with_fault(s, Fault::BadMode)
        } else if n == 0 {
            with_fault(s, Fault::EmptyStack)
        } else {
            MachineState { stack: s.stack.drop_last(), cursor: s.cursor + 9, ..s }
        }
    } else if op == OpCode::CMP {
        if operand(s) >= 3 {
            with_fault(s, Fault::BadMode)
        } else if n < 2 {
            with_fault(s, Fault::EmptyStack)
        } else {
            MachineState {
                stack: s.stack.subrange(0, n - 2),
                flag: if operand(s) == 2 { a.flag } else { compare_flag(second(s), top(s), operand(s)) },
                cursor: s.cursor + 9,
                ..s
            }
        }
    } else {
        // Shift: the operand selects the direction, 0 for left.
        if n < 2 {
            with_fault(s, Fault::EmptyStack)
        } else {
            replace(s, 2, shifted(second(s), top(s), operand(s) == 0), 9)
        }
    }
}

/// The state after executing the instructions that `answers` answer, one per step.
pub open spec fn steps(s: MachineState, answers: Seq<Answer>) -> MachineState
    decreases answers.len(),
{
    if answers.len() == 0 {
        s
    } else {
        next(steps(s, answers.drop_last()), answers.last())
    }
}

/// The value a stopped machine reports: the top of the stack, or `u64::MAX`
/// when the stack is empty or execution faulted.
pub open spec fn result_of(s: MachineState) -> u64 {
    if s.fault is Some || s.stack.len() == 0 { u64::MAX } else { s.stack.last() }
}

/// Reads the big-endian word at `p[i..i + 8]`.
fn read_word(p: &Vec<u8>, i: usize) -> (r: u64)
    requires
        i + 8 <= p@.len() <= usize::MAX,
    ensures
        r == word_at(p@, i as int),
{
    ((p[i] as u64) << 56u64) | ((p[i + 1] as u64) << 48u64) | ((p[i + 2] as u64) << 40u64)
        | ((p[i + 3] as u64) << 32u64) | ((p[i + 4] as u64) << 24u64) | ((p[i + 5] as u64) << 16u64)
        | ((p[i + 6] as u64) << 8u64) | (p[i + 7] as u64)
}

/// Computes `int_result`.
pub fn int_arith(op: OpCode, x: u64, y: u64) -> (r: (u64, bool))
    requires
        is_int_binary(op),
    ensures
        r == int_result(op, x, y),
{
    let (sx, sy) = (x as i64, y as i64);
    match op {
        OpCode::AddU => match x.checked_add(y) { Some(v) => (v, false), None => (u64::MAX, true) },
        OpCode::SubU => if x < y { (0u64, true) } else { (x - y, false) },
        OpCode::MulU => match x.checked_mul(y) { Some(v) => (v, false), None => (u64::MAX, true) },
        OpCode::DivU => if y == 0 { (u64::MAX, true) } else { (x / y, false) },
        OpCode::ModU => if y == 0 { (u64::MAX, true) } else { (x % y, false) },
        OpCode::AddI => match sx.checked_add(sy) {
            Some(v) => (v as u64, false),
            None => (extreme(sy > 0), true),
        },
        OpCode::SubI => match sx.checked_sub(sy) {
            Some(v) => (v as u64, false),
            None => (extreme(sy < 0), true),
        },
        OpCode::MulI => match sx.checked_mul(sy) {
            Some(v) => (v as u64, false),
            None => (extreme((sx > 0) == (sy > 0)), true),
        },
        OpCode::DivI => match sx.checked_div(sy) {
            Some(v) => (v as u64, false),
            None => (extreme(sy == -1 || sx >= 0), true),
        },
        OpCode::ModI => if sy == 0 {
            (extreme(sx >= 0), true)
        } else if sy == -1 {
            (0u64, false)
        } else {
            match sx.checked_rem(sy) {
                Some(v) => (v as u64, false),
                None => (0u64, false),
            }
        },
        OpCode::BitAnd => (x & y, false),
        OpCode::BitOr => (x | y, false),
        _ => (x ^ y, false),
    }
}

/// Computes `signed_extreme`.
fn extreme(positive: bool) -> (r: u64)
    ensures
        r == signed_extreme(positive),
{
    if positive { i64::MAX as u64 } else { i64::MIN as u64 }
}

/// Computes `compare_flag` for modes 0 and 1.
fn compare_words(x: u64, y: u64, mode: u64) -> (r: Flag)
    ensures
        r == compare_flag(x, y, mode),
{
    if mode == 0 {
        if x == y { Flag::Equal } else if x > y { Flag::Greater } else { Flag::Less }
    } else {
        let (a, b) = (x as i64, y as i64);
        if a == b { Flag::Equal } else if a > b { Flag::Greater } else { Flag::Less }
    }
}

/// Computes `shifted`.
fn shift_word(x: u64, y: u64, left: bool) -> (r: u64)
    ensures
        r == shifted(x, y, left),
{
    if y >= 64 { 0 } else if left { x << y } else { x >> y }
}

/// Whether a jump opcode is taken under a flag.
fn taken(op: OpCode, f: Flag) -> (r: bool)
    ensures
        r == jump_taken(op, f),
{
    match op {
        OpCode::JMP => true,
        OpCode::JE => f == Flag::Equal,
        OpCode::JNE => f == Flag::Greater || f == Flag::Less,
        OpCode::JG => f == Flag::Greater,
        OpCode::JL => f == Flag::Less,
        _ => false,
    }
}

/// Whether none of the steps that `answers` answer asked the platform for float work.
pub open spec fn asks_no_float(s: MachineState, answers: Seq<Answer>) -> bool {
    forall|k: int| 0 <= k < answers.len() ==> #[trigger] float_request_of(steps(s, answers.subrange(0, k))) is None
}

/// An instruction that makes no float request does not read the answer.
pub proof fn lemma_next_ignores_answer(s: MachineState, a: Answer, b: Answer)
    requires
        float_request_of(s) is None,
    ensures
        next(s, a) == next(s, b),
{
}

/// Execution that asks no float work is deterministic: whatever the platform
/// would have answered, the same number of steps reaches the same state.
pub proof fn lemma_steps_deterministic(s: MachineState, a1: Seq<Answer>, a2: Seq<Answer>)
    requires
        a1.len() == a2.len(),
        asks_no_float(s, a1),
    ensures
        steps(s, a1) == steps(s, a2),
    decreases a1.len(),
{
    if a1.len() > 0 {
        let (front_a, front_b) = (a1.drop_last(), a2.drop_last());
        assert forall|k: int| 0 <= k < front_a.len() implies #[trigger] float_request_of(steps(s, front_a.subrange(0, k))) is None by {
            assert(front_a.subrange(0, k) =~= a1.subrange(0, k));
            assert(float_request_of(steps(s, a1.subrange(0, k))) is None);
        }
        lemma_steps_deterministic(s, front_a, front_b);
        assert(a1.subrange(0, a1.len() - 1) =~= front_a);
        assert(float_request_of(steps(s, a1.subrange(0, a1.len() - 1))) is None);
        lemma_next_ignores_answer(steps(s, front_a), a1.last(), a2.last());
    }
}

/// A stopped machine stays as it is.
proof fn lemma_stopped_stays(s: MachineState, p: Seq<Answer>, q: Seq<Answer>)
    requires
        !running(steps(s, p)),
    ensures
        steps(s, p + q) == steps(s, p),
    decreases q.len(),
{
    if q.len() == 0 {
        assert(p + q =~= p);
    } else {
        assert((p + q).drop_last() =~= p + q.drop_last());
        lemma_stopped_stays(s, p, q.drop_last());
    }
}

proof fn lemma_shorter_run_agrees(s: MachineState, a1: Seq<Answer>, a2: Seq<Answer>)
    requires
        a1.len() <= a2.len(),
        asks_no_float(s, a2),
        !running(steps(s, a1)),
    ensures
        steps(s, a1) == steps(s, a2),
{
    let front = a2.subrange(0, a1.len() as int);
    let back = a2.subrange(a1.len() as int, a2.len() as int);
    assert forall|k: int| 0 <= k < front.len() implies #[trigger] float_request_of(steps(s, front.subrange(0, k))) is None by {
        assert(front.subrange(0, k) =~= a2.subrange(0, k));
        assert(float_request_of(steps(s, a2.subrange(0, k))) is None);
    }
    lemma_steps_deterministic(s, front, a1);
    lemma_stopped_stays(s, front, back);
    assert(front + back =~= a2);
}

/// Two executions from the same state that ask no float work and both stop end
/// in the same state, and so report the same result, however many steps each
/// was given.
pub proof fn lemma_stopped_runs_agree(s: MachineState, a1: Seq<Answer>, a2: Seq<Answer>)
    requires
        asks_no_float(s, a1),
        asks_no_float(s, a2),
        !running(steps(s, a1)),
        !running(steps(s, a2)),
    ensures
        steps(s, a1) == steps(s, a2),
        result_of(steps(s, a1)) == result_of(steps(s, a2)),
{
    if a1.len() <= a2.len() {
        lemma_shorter_run_agrees(s, a1, a2);
    } else {
        lemma_shorter_run_agrees(s, a2, a1);
    }
}

/// `Call` records the address of its operand's last byte and moves to its
/// target; a later `Return` that finds that address on top of the return stack
/// resumes with the byte right after the call's operand and drops the address.
pub proof fn lemma_call_return(s: MachineState, a: Answer, t: MachineState, b: Answer)
    requires
        0 <= s.cursor,
        s.program.len() < MAX_PROGRAM_LEN,
        running(s),
        current_op(s) == OpCode::Call,
        has_operand(s),
        running(t),
        current_op(t) == OpCode::Return,
        t.returns == next(s, a).returns,
    ensures
        next(s, a).returns == s.returns.push((s.cursor + 9) as u64),
        next(s, a).cursor == operand(s),
        next(t, b).fault is None,
        next(t, b).cursor + 1 == s.cursor + 10,
        next(t, b).returns == s.returns,
{
    assert(t.returns.drop_last() =~= s.returns);
}

/// Unsigned addition and subtraction clamp instead of wrapping: a sum past
/// `u64::MAX` leaves `u64::MAX`, a difference below zero leaves 0, and either
/// sets the flag to `Overflow`.
pub proof fn lemma_unsigned_clamps(s: MachineState, a: Answer)
    requires
        running(s),
        s.stack.len() >= 2,
    ensures
        current_op(s) == OpCode::AddU && second(s) + top(s) > u64::MAX ==> {
            &&& next(s, a).stack == s.stack.subrange(0, s.stack.len() - 2).push(u64::MAX)
            &&& next(s, a).flag == Flag::Overflow
            &&& next(s, a).fault is None
        },
        current_op(s) == OpCode::SubU && second(s) < top(s) ==> {
            &&& next(s, a).stack == s.stack.subrange(0, s.stack.len() - 2).push(0u64)
            &&& next(s, a).flag == Flag::Overflow
            &&& next(s, a).fault is None
        },
{
}

/// The stack machine.
pub struct Machine {
    /// The stream being executed.
    pub program: Vec<u8>,
    /// The last byte consumed.
    pub program_address: u64,
    /// The operand stack.
    pub stack: Vec<u64>,
    /// The addresses that `Return` resumes at.
    pub return_addresses: Vec<u64>,
    /// The register file.
    pub registers: Vec<u64>,
    /// The comparison flag.
    pub flag: Flag,
    /// Why execution stopped short, if it did.
    pub fault: Option<Fault>,
}

impl View for Machine {
    type V = MachineState;

    open spec fn view(&self) -> MachineState {
        MachineState {
            program: self.program@,
            cursor: self.program_address as int,
            stack: self.stack@,
            returns: self.return_addresses@,
            registers: self.registers@,
            flag: self.flag,
            fault: self.fault,
        }
    }
}

impl Machine {
    /// The machine's invariant: four registers, a cursor and return addresses
    /// inside the stream, and a stream short enough for cursor arithmetic.
    pub open spec fn wf(&self) -> bool {
        &&& self.registers@.len() == REGISTER_COUNT
        &&& self.program@.len() < MAX_PROGRAM_LEN
        &&& self.program@.len() <= usize::MAX
    }

    /// An idle machine with an empty stream.
    pub fn new() -> (r: Machine)
        ensures
            r.wf(),
            r@.program.len() == 0,
            r@.stack.len() == 0,
            r@.returns.len() == 0,
            r@.registers == seq![0u64, 0u64, 0u64, 0u64],
            r@.flag == Flag::Unset,
            r@.fault is None,
    {
        Machine {
            program: Vec::new(),
            program_address: 0,
            stack: Vec::new(),
            return_addresses: Vec::new(),
            registers: vec![0u64, 0u64, 0u64, 0u64],
            flag: Flag::Unset,
            fault: None,
        }
    }

    /// Whether the stream starts with the magic prefix.
    pub fn is_nariva_file(&self) -> (r: bool)
        ensures
            r == is_executable(self.program@),
    {
        let h = header();
        if self.program.len() < HEADER_LEN {
            return false;
        }
        let mut i: usize = 0;
        while i < HEADER_LEN
            invariant
                h@ == header_spec(),
                self.program@.len() >= HEADER_LEN,
                i <= HEADER_LEN,
                forall|j: int| 0 <= j < i ==> self.program@[j] == h@[j],
            decreases HEADER_LEN - i,
        {
            if self.program[i] != h[i] {
                assert(self.program@.subrange(0, HEADER_LEN as int)[i as int] != header_spec()[i as int]);
                return false;
            }
            i += 1;
        }
        assert(self.program@.subrange(0, HEADER_LEN as int) =~= header_spec());
        true
    }

    /// Consumes the next byte of the stream.
    pub fn next_8_bits(&mut self) -> (r: u8)
        requires
            old(self).wf(),
            old(self).program_address + 1 < old(self).program@.len(),
        ensures
            final(self)@ == skip(old(self)@, 1),
            final(self).wf(),
            r == old(self)@.program[old(self)@.cursor + 1],
    {
        self.program_address = self.program_address + 1;
        self.program[self.program_address as usize]
    }

    /// Consumes the next eight bytes of the stream as one big-endian word.
    pub fn next_64_bits(&mut self) -> (r: u64)
        requires
            old(self).wf(),
            old(self).program_address + 8 < old(self).program@.len(),
        ensures
            final(self)@ == skip(old(self)@, 8),
            final(self).wf(),
            r == word_at(old(self)@.program, old(self)@.cursor + 1),
    {
        let i = (self.program_address + 1) as usize;
        self.program_address = self.program_address + 8;
        read_word(&self.program, i)
    }

    /// Removes the top two words: the top first, then the one below it.
    pub fn double_pop(&mut self) -> (r: [u64; 2])
        requires
            old(self).stack@.len() >= 2,
        ensures
            r@ == seq![top(old(self)@), second(old(self)@)],
            final(self)@ == (MachineState {
                stack: old(self)@.stack.subrange(0, old(self)@.stack.len() - 2),
                ..old(self)@
            }),
    {
        let a = self.stack.pop().unwrap();
        let b = self.stack.pop().unwrap();
        proof {
            assert(self@.stack =~= old(self)@.stack.subrange(0, old(self)@.stack.len() - 2));
        }
        let r = [a, b];
        assert(r@ =~= seq![a, b]);
        r
    }

    /// The float operation that the next instruction asks of the platform, if any.
    pub fn float_request(&self) -> (r: Option<FloatRequest>)
        requires
            self.wf(),
        ensures
            r == float_request_of(self@),
    {
        let len = self.program.len() as u64;
        let c = self.program_address;
        let n = self.stack.len();
        if self.fault.is_some() || len == 0 || c >= len - 1 || n < 2 {
            return None;
        }
        let op = OpCode::from_byte(self.program[(c + 1) as usize]);
        let (lhs, rhs) = (self.stack[n - 2], self.stack[n - 1]);
        let f = match op {
            OpCode::AddF => FloatOp::Add,
            OpCode::SubF => FloatOp::Sub,
            OpCode::MulF => FloatOp::Mul,
            OpCode::DivF => FloatOp::Div,
            OpCode::ModF => FloatOp::Rem,
            OpCode::CMP => {
                if c + 9 < len && self.operand_word() == 2 {
                    FloatOp::Compare
                } else {
                    return None;
                }
            },
            _ => {
                return None;
            },
        };
        Some(FloatRequest { op: f, lhs, rhs })
    }

    /// The operand after the opcode under the cursor, without consuming it.
    fn operand_word(&self) -> (r: u64)
        requires
            self.wf(),
            has_operand(self@),
        ensures
            r == operand(self@),
    {
        read_word(&self.program, (self.program_address + 2) as usize)
    }

    /// Records a fault; the machine stops there.
    fn stop_with(&mut self, f: Fault)
        requires
            old(self).wf(),
        ensures
            final(self)@ == with_fault(old(self)@, f),
            final(self).wf(),
    {
        self.fault = Some(f);
    }

    /// Pops `n` words, pushes `w` and moves the cursor past `k` bytes.
    fn replace_top(&mut self, n: usize, w: u64, k: usize)
        requires
            old(self).wf(),
            n <= old(self).stack@.len(),
            old(self).program_address + k < old(self).program@.len(),
        ensures
            final(self)@ == replace(old(self)@, n as int, w, k as int),
            final(self).wf(),
    {
        let mut i: usize = 0;
        assert(old(self)@.stack.subrange(0, old(self)@.stack.len() - 0) =~= old(self)@.stack);
        while i < n
            invariant
                i <= n,
                n <= old(self).stack@.len(),
                self@ == (MachineState {
                    stack: old(self)@.stack.subrange(0, old(self)@.stack.len() - i),
                    ..old(self)@
                }),
                self.wf(),
            decreases n - i,
        {
            self.stack.pop();
            proof {
                assert(self.stack@ =~= old(self).stack@.subrange(0, old(self).stack@.len() - (i + 1)));
            }
            i += 1;
        }
        self.stack.push(w);
        self.program_address = self.program_address + k as u64;
    }

    /// Moves the cursor to where a taken jump leads.
    fn jump(&mut self)
        requires
            old(self).wf(),
            running(old(self)@),
            has_operand(old(self)@),
        ensures
            final(self).wf(),
            final(self)@ == (if jump_target(old(self)@) < 0 {
                with_fault(old(self)@, Fault::BadJump)
            } else {
                MachineState { cursor: jump_target(old(self)@), ..old(self)@ }
            }),
    {
        let c = self.program_address;
        let d = self.operand_word() as i64;
        if d >= 0 {
            self.program_address = c + d as u64;
        } else {
            let m = (-(d + 1)) as u64 + 1;
            if m > c {
                self.fault = Some(Fault::BadJump);
            } else {
                self.program_address = c - m;
            }
        }
    }

    /// Executes the instruction under the cursor. `answer` is what the platform
    /// answered to `float_request`, and is ignored when that was `None`. Returns
    /// the word the instruction writes out, if it is a `Print`.
    pub fn execute_instruction(&mut self, answer: Answer) -> (out: Option<Output>)
        requires
            old(self).wf(),
            running(old(self)@),
        ensures
            final(self).wf(),
            final(self)@ == next(old(self)@, answer),
            out == output_of(old(self)@),
    {
        let ghost s = self@;
        let len = self.program.len() as u64;
        let c = self.program_address;
        let n = self.stack.len();
        let op = OpCode::from_byte(self.program[(c + 1) as usize]);
        assert(op == current_op(s));
        if op == OpCode::Illegal {
            self.stop_with(Fault::IllegalOpcode);
            return None;
        }
        if op == OpCode::Halt {
            self.program_address = len;
            return None;
        }
        if op == OpCode::Return {
            match self.return_addresses.pop() {
                Some(a) => {
                    self.program_address = a;
                    assert(self.return_addresses@ =~= s.returns.drop_last());
                },
                None => {
                    self.stop_with(Fault::EmptyReturnStack);
                },
            }
            return None;
        }
        if op == OpCode::Pop || op == OpCode::Dupli || op == OpCode::BitNot {
            if n == 0 {
                self.stop_with(Fault::EmptyStack);
            } else if op == OpCode::Pop {
                self.stack.pop();
                self.program_address = c + 1;
                assert(self.stack@ =~= s.stack.drop_last());
            } else if op == OpCode::Dupli {
                let t = self.stack[n - 1];
                self.stack.push(t);
                self.program_address = c + 1;
            } else {
                let t = self.stack[n - 1];
                self.replace_top(1, !t, 1);
            }
            return None;
        }
        if op == OpCode::AddU || op == OpCode::SubU || op == OpCode::MulU || op == OpCode::DivU
            || op == OpCode::ModU || op == OpCode::AddI || op == OpCode::SubI || op == OpCode::MulI
            || op == OpCode::DivI || op == OpCode::ModI || op == OpCode::BitAnd || op == OpCode::BitOr
            || op == OpCode::BitXor {
            if n < 2 {
                self.stop_with(Fault::EmptyStack);
            } else {
                let (w, over) = int_arith(op, self.stack[n - 2], self.stack[n - 1]);
                self.replace_top(2, w, 1);
                if over {
                    self.flag = Flag::Overflow;
                }
            }
            return None;
        }
        if op == OpCode::AddF || op == OpCode::SubF || op == OpCode::MulF || op == OpCode::DivF
            || op == OpCode::ModF {
            if n < 2 {
                self.stop_with(Fault::EmptyStack);
            } else {
                self.replace_top(2, answer.word, 1);
            }
            return None;
        }
        if c + 9 >= len {
            self.stop_with(Fault::Truncated);
            return None;
        }
        let w = self.operand_word();
        if op == OpCode::Push {
            self.stack.push(w);
            self.program_address = c + 9;
            return None;
        }
        if op == OpCode::JMP || op == OpCode::JE || op == OpCode::JNE || op == OpCode::JG
            || op == OpCode::JL {
            if taken(op, self.flag) {
                self.jump();
            } else {
                self.program_address = c + 9;
            }
            return None;
        }
        if op == OpCode::Call {
            self.return_addresses.push(c + 9);
            self.program_address = w;
            return None;
        }
        if op == OpCode::Store || op == OpCode::Load {
            if w >= REGISTER_COUNT as u64 {
                self.stop_with(Fault::BadRegister);
            } else if op == OpCode::Load {
                let v = self.registers[w as usize];
                self.stack.push(v);
                self.program_address = c + 9;
            } else if n == 0 {
                self.stop_with(Fault::EmptyStack);
            } else {
                let v = self.stack.pop().unwrap();
                self.registers.set(w as usize, v);
                self.program_address = c + 9;
                assert(self.stack@ =~= s.stack.drop_last());
            }
            return None;
        }
        if op == OpCode::Print {
            if w >= 4 {
                self.stop_with(Fault::BadMode);
                return None;
            } else if n == 0 {
                self.stop_with(Fault::EmptyStack);
                return None;
            }
            let v = self.stack.pop().unwrap();
            self.program_address = c + 9;
            assert(self.stack@ =~= s.stack.drop_last());
            let mode = if w == 0 {
                PrintMode::Unsigned
            } else if w == 1 {
                PrintMode::Signed
            } else if w == 2 {
                PrintMode::Float
            } else {
                PrintMode::Char
            };
            return Some(Output { mode, value: v });
        }
        if op == OpCode::CMP {
            if w >= 3 {
                self.stop_with(Fault::BadMode);
            } else if n < 2 {
                self.stop_with(Fault::EmptyStack);
            } else {
                let f = if w == 2 {
                    answer.flag
                } else {
                    compare_words(self.stack[n - 2], self.stack[n - 1], w)
                };
                self.double_pop();
                self.flag = f;
                self.program_address = c + 9;
            }
            return None;
        }
        if n < 2 {
            self.stop_with(Fault::EmptyStack);
        } else {
            let v = shift_word(self.stack[n - 2], self.stack[n - 1], w == 0);
            self.replace_top(2, v, 9);
        }
        None
    }


    /// Loads `program` and executes it. A stream that does not start with the
    /// magic prefix returns `u64::MAX` at once, with the machine fresh.
    /// Otherwise the machine executes until the cursor leaves the stream, an
    /// instruction faults, or `u64::MAX` instructions have run, and returns the
    /// top of the stack (`u64::MAX` when it is empty or after a fault; the fault
    /// stays recorded in `fault`). The platform answers the float requests,
    /// receives what `Print` writes, and sees each state first when `show` is set.
    pub fn run<P: Platform>(&mut self, program: Vec<u8>, show: bool, platform: &mut P) -> (r: u64)
        requires
            program@.len() < MAX_PROGRAM_LEN,
        ensures
            final(self).wf(),
            final(self)@.program == program@,
            !is_executable(program@) ==> r == u64::MAX && final(self)@ == (MachineState {
                program: program@,
                cursor: 0,
                stack: seq![],
                returns: seq![],
                registers: seq![0u64, 0u64, 0u64, 0u64],
                flag: Flag::Unset,
                fault: None,
            }),
            is_executable(program@) ==> exists|answers: Seq<Answer>|
                #![trigger steps(initial(program@), answers)]
                {
                    &&& final(self)@ == steps(initial(program@), answers)
                    &&& (!running(final(self)@) || answers.len() == u64::MAX)
                },
            is_executable(program@) ==> r == result_of(final(self)@),
    {
        self.program = program;
        let _ = self.program.len();
        self.program_address = 0;
        self.stack = Vec::new();
        self.return_addresses = Vec::new();
        self.registers = vec![0u64, 0u64, 0u64, 0u64];
        self.flag = Flag::Unset;
        self.fault = None;
        assert(self.registers@ =~= seq![0u64, 0u64, 0u64, 0u64]);
        assert(self.stack@ =~= Seq::<u64>::empty());
        assert(self.return_addresses@ =~= Seq::<u64>::empty());
        if !self.is_nariva_file() {
            return u64::MAX;
        }
        self.program_address = (HEADER_LEN - 1) as u64;
        assert(self.registers@ =~= seq![0u64, 0u64, 0u64, 0u64]);
        assert(self@ == initial(self.program@));
        let ghost answers: Seq<Answer> = seq![];
        let mut fuel: u64 = u64::MAX;
        while fuel > 0 && self.fault.is_none() && self.program_address < (self.program.len() - 1) as u64
            invariant
                self.wf(),
                self.program@.len() >= HEADER_LEN,
                self@ == steps(initial(self.program@), answers),
                answers.len() == u64::MAX - fuel,
                self.program@ == program@,
            decreases fuel,
        {
            if show {
                platform.trace(self);
            }
            let answer = match self.float_request() {
                Some(req) => match req.op {
                    FloatOp::Compare => Answer {
                        word: 0,
                        flag: platform.float_compare(req.lhs, req.rhs),
                    },
                    op => Answer { word: platform.float_arith(op, req.lhs, req.rhs), flag: Flag::Unset },
                },
                None => Answer { word: 0, flag: Flag::Unset },
            };
            let out = self.execute_instruction(answer);
            proof {
                let prev = answers;
                answers = answers.push(answer);
                assert(answers.drop_last() =~= prev);
            }
            if let Some(o) = out {
                platform.print(o.mode, o.value);
            }
            fuel = fuel - 1;
        }
        let n = self.stack.len();
        if self.fault.is_some() || n == 0 {
            u64::MAX
        } else {
            self.stack[n - 1]
        }
    }

}

} // verus!

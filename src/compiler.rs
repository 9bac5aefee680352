//! The whole compile: source text to byte stream.
use vstd::prelude::*;
use crate::error::{CompError, Failure};
use crate::token::Token;
use crate::generator::{generate_spec, Generator};
use crate::lexer::{decimal_texts, lemma_lex_len, lex_spec, lex_with_spec, lexed_with, Lexer};
use crate::parser::{parse_spec, Parser};
use crate::platform::Platform;
use crate::token::{toks, Tok};
use crate::vm::{asks_no_float, initial, lemma_steps_deterministic, result_of, steps, Answer};

verus! {

/// Resolution then generation.
pub open spec fn compile_tokens(ts: Seq<Tok>) -> Result<Seq<u8>, Failure> {
    match parse_spec(ts) {
        Ok(o) => generate_spec(o),
        Err(e) => Err(e),
    }
}

/// The stream a source text compiles to when the `k`th float literal has the
/// bits `bits[k]`; a failing stage's error kind is the result's.
pub open spec fn compile_with_spec(src: Seq<char>, bits: Seq<Option<u64>>) -> Result<Seq<u8>, Failure> {
    match lex_with_spec(src, bits) {
        Ok(ts) => compile_tokens(ts),
        Err(e) => Err(e),
    }
}

/// Whether `r` is what `compile_with_spec` gives.
pub open spec fn compiled_with(src: Seq<char>, bits: Seq<Option<u64>>, r: Result<Vec<u8>, CompError>) -> bool {
    match compile_with_spec(src, bits) {
        Ok(b) => r is Ok && r->Ok_0@ == b,
        Err(k) => r is Err && r->Err_0.kind() == k,
    }
}

/// What `compile` returns for a source text: a lexing error as it is; otherwise
/// `compile_with_spec` for the bits the platform gave the float literals.
pub open spec fn compile_outcome(src: Seq<char>, r: Result<Vec<u8>, CompError>) -> bool {
    match lex_spec(src) {
        Err(k) => r is Err && r->Err_0.kind() == k,
        Ok(ls) => exists|bits: Seq<Option<u64>>| bits.len() == decimal_texts(ls).len()
            && #[trigger] compiled_with(src, bits, r),
    }
}

/// Compiling then running is repeatable: compiling is a function of the source
/// and of the float literals' bits (for a source without float literals, of
/// the source alone), and running the stream for the same number of steps
/// reaches the same state and result whatever the platform would answer, as
/// long as no step asks it for float work.
pub proof fn lemma_compile_run_repeatable(
    src: Seq<char>,
    bits: Seq<Option<u64>>,
    a1: Seq<Answer>,
    a2: Seq<Answer>,
)
    requires
        compile_with_spec(src, bits) is Ok,
        a1.len() == a2.len(),
        asks_no_float(initial(compile_with_spec(src, bits)->Ok_0), a1),
    ensures
        steps(initial(compile_with_spec(src, bits)->Ok_0), a1) == steps(initial(compile_with_spec(src, bits)->Ok_0), a2),
        result_of(steps(initial(compile_with_spec(src, bits)->Ok_0), a1))
            == result_of(steps(initial(compile_with_spec(src, bits)->Ok_0), a2)),
{
    lemma_steps_deterministic(initial(compile_with_spec(src, bits)->Ok_0), a1, a2);
}

/// Resolves and encodes lexed tokens, passing on the failing stage's error.
fn finish(tokens: Vec<Token>, src: Ghost<Seq<char>>, bits: Ghost<Seq<Option<u64>>>) -> (r: Result<Vec<u8>, CompError>)
    requires
        lex_with_spec(src@, bits@) == Ok::<Seq<Tok>, Failure>(toks(tokens@)),
        src@.len() < 0x1000_0000_0000_0000,
    ensures
        compiled_with(src@, bits@, r),
{
    proof {
        lemma_lex_len(src@, 0);
        assert(lex_spec(src@) is Ok);
        assert(toks(tokens@).len() == lex_spec(src@)->Ok_0.len());
        assert(tokens@.len() == toks(tokens@).len());
    }
    let resolved = match Parser::parse(tokens) {
        Ok(t) => t,
        Err(e) => {
            return Err(e);
        },
    };
    Generator::generate(resolved)
}

/// Compiles a source text, the `k`th float literal taking the bits `bits[k]`.
pub fn compile_with(source: &str, bits: &Vec<Option<u64>>) -> (r: Result<Vec<u8>, CompError>)
    requires
        source@.len() < 0x1000_0000_0000_0000,
    ensures
        compiled_with(source@, bits@, r),
{
    match Lexer::lex_with(source, bits) {
        Ok(tokens) => finish(tokens, Ghost(source@), Ghost(bits@)),
        Err(e) => Err(e),
    }
}

/// Compiles a source text to a byte stream; the platform converts the float
/// literals.
pub fn compile<P: Platform>(source: &str, platform: &P) -> (r: Result<Vec<u8>, CompError>)
    requires
        source@.len() < 0x1000_0000_0000_0000,
    ensures
        compile_outcome(source@, r),
{
    let lexed = Lexer::lex(source, platform);
    let ghost bits = if lex_spec(source@) is Ok {
        choose|bits: Seq<Option<u64>>| bits.len() == decimal_texts(lex_spec(source@)->Ok_0).len()
            && #[trigger] lexed_with(source@, bits, lexed)
    } else {
        Seq::<Option<u64>>::empty()
    };
    let r = match lexed {
        Ok(tokens) => finish(tokens, Ghost(source@), Ghost(bits)),
        Err(e) => Err(e),
    };
    proof {
        if lex_spec(source@) is Ok {
            assert(compiled_with(source@, bits, r));
        }
    }
    r
}

/// Compiles source text and keeps the stream; writing it out is the caller's.
pub struct Compiler {
    /// Where the caller stores the stream.
    pub file_path: String,
    /// The stream of the last successful compile.
    pub output: Vec<u8>,
}

impl Compiler {
    pub fn new(file_path: String) -> (r: Compiler)
        ensures
            r.file_path@ == file_path@,
            r.output@.len() == 0,
    {
        Compiler { file_path, output: Vec::new() }
    }

    /// Compiles `input`; on success the stream becomes the output, on failure
    /// the output stays as it was.
    pub fn compile<P: Platform>(&mut self, input: &str, platform: &P) -> (r: Result<(), CompError>)
        requires
            input@.len() < 0x1000_0000_0000_0000,
        ensures
            final(self).file_path == old(self).file_path,
            exists|out: Result<Vec<u8>, CompError>| #[trigger] compile_outcome(input@, out) && match out {
                Ok(b) => r is Ok && final(self).output@ == b@,
                Err(e) => r == Err::<(), CompError>(e) && final(self).output == old(self).output,
            },
    {
        let out = compile(input, platform);
        match out {
            Ok(b) => {
                self.output = b;
                assert(compile_outcome(input@, Ok::<Vec<u8>, CompError>(self.output)));
                Ok(())
            },
            Err(e) => Err(e),
        }
    }

    /// The stream of the last successful compile.
    pub fn get_output(&self) -> (r: &Vec<u8>)
        ensures
            r@ == self.output@,
    {
        &self.output
    }
}

} // verus!

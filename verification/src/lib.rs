//! A compiler from a textual music-notation language to Standard MIDI
//! Files: a recursive-descent parser producing a syntax tree, a lowering
//! pass producing absolute-time events, and a binary codec.

pub mod ast;
pub mod codegen;
pub mod instruments;
pub mod ir;
pub mod loader;
pub mod parser;
pub mod smf;
pub mod state;
pub mod text;
pub mod walker;

use vstd::prelude::*;

verus! {

/// Why a compile failed: the stage that rejected its input, with the
/// stage's own error.
#[derive(Debug, PartialEq, Eq, Structural, Clone, Copy)]
pub enum CompileError {
    Syntax(parser::SyntaxError),
    Lowering(walker::LoweringError),
    Encode(codegen::EncodeError),
}

impl CompileError {
    /// A short description of the error.
    pub fn message(&self) -> &'static str {
        match self {
            CompileError::Syntax(e) => e.message(),
            CompileError::Lowering(e) => e.message(),
            CompileError::Encode(e) => e.message(),
        }
    }
}

/// The compilation pipeline up to the in-memory file: parse, lower,
/// encode; each stage's error ends the compile.
pub open spec fn spec_compile_file(s: Seq<char>) -> Result<codegen::MidiFileView, CompileError> {
    match parser::spec_parse(s) {
        Err(e) => Err(CompileError::Syntax(e)),
        Ok(sv) => match walker::spec_walk(sv, walker::PPQ as int) {
            Err(e) => Err(CompileError::Lowering(e)),
            Ok(irv) => match codegen::spec_generate(irv) {
                Err(e) => Err(CompileError::Encode(e)),
                Ok(f) => Ok(f),
            },
        },
    }
}

/// Compiles source text to Standard MIDI File bytes: parse, lower,
/// encode, serialize. The stages' results are pure functions of the
/// text, so equal inputs give byte-identical output; whenever the
/// pipeline's stages succeed and `midly` can represent the file at
/// all, the bytes are owed.
pub fn compile_to_midi(source: &str) -> (r: Result<Vec<u8>, CompileError>)
    requires
        source@.len() <= 0x1000_0000,
    ensures
        (match spec_compile_file(source@) {
            Err(e) => r == Err::<Vec<u8>, CompileError>(e),
            Ok(f) => {
                &&& (r matches Ok(bytes) ==> bytes@ == smf::spec_smf_bytes(f))
                &&& (!smf::smf_unwritable(f.ppq, smf::spec_midly_tracks(f.tracks)) ==> r is Ok)
                &&& (r is Err ==> r == Err::<Vec<u8>, CompileError>(
                    CompileError::Encode(codegen::EncodeError::ValueOutOfRange),
                ))
            },
        }),
{
    let score = match parser::parse(source) {
        Ok(s) => s,
        Err(e) => {
            return Err(CompileError::Syntax(e));
        },
    };
    let ir = match walker::walk(&score) {
        Ok(ir) => ir,
        Err(e) => {
            return Err(CompileError::Lowering(e));
        },
    };
    let file = match codegen::generate(&ir) {
        Ok(f) => f,
        Err(e) => {
            return Err(CompileError::Encode(e));
        },
    };
    proof {
        codegen::lemma_generate_in_range(
            walker::spec_walk(score.deep_view(), walker::PPQ as int)->Ok_0,
        );
    }
    match smf::midi_file_to_bytes(&file) {
        Ok(bytes) => Ok(bytes),
        Err(e) => Err(CompileError::Encode(e)),
    }
}

/// Compiling the same source text twice produces byte-identical
/// output: the pipeline's result is a function of the text alone, with
/// no hidden nondeterminism.
pub proof fn lemma_compile_deterministic(s: Seq<char>, b1: Seq<u8>, b2: Seq<u8>)
    requires
        spec_compile_file(s) matches Ok(f1) && b1 == smf::spec_smf_bytes(f1),
        spec_compile_file(s) matches Ok(f2) && b2 == smf::spec_smf_bytes(f2),
    ensures
        b1 == b2,
{
}

} // verus!

//! A small ahead-of-time compiler that translates a subset of C into
//! AArch64 assembly text: a tokenizer, a recursive-descent parser that
//! builds a typed syntax tree while resolving variable storage, and a
//! stack-machine code generator.

use vstd::prelude::*;

pub mod codegen;
pub mod errors;
pub mod node;
pub mod parser;
pub mod text;
pub mod token;
pub mod token_list;
pub mod tokenizer;
pub mod ty;
pub mod var_env;

use crate::codegen::CodeGenerator;
use crate::errors::CompileError;
use crate::tokenizer::Tokenizer;

verus! {

/// Compiles one source text to AArch64 assembly text. The first lexical,
/// syntactic or semantic error abandons the compilation: no partial
/// assembly is ever produced, and any produced assembly is exactly the
/// generated text of a well-formed parsed program. The caller reports
/// the error and sets the process exit status; nothing here touches the
/// process or any file.
pub fn compile(source: &str) -> (r: Result<String, CompileError>)
    ensures
        r matches Ok(t) ==> exists|prog: Seq<crate::node::Node>|
            crate::node::wf_toplevel_seq(prog) && t@ == crate::codegen::program_text(prog, 0),
        source@.len() == 0 ==> (r matches Ok(t) && t@ == Seq::<char>::empty()),
{
    let tokenizer = Tokenizer::new(source);
    let token_list = match tokenizer.tokenize() {
        Ok(t) => t,
        Err(e) => return Err(CompileError::Tokenize(e)),
    };
    let mut lexer = parser::Lexer::new(token_list);
    let program = match lexer.program() {
        Ok(p) => p,
        Err(e) => return Err(CompileError::Parse(e)),
    };
    let code_generator = CodeGenerator::new(program);
    proof {
        assert(usize::MAX <= u64::MAX);
        assert(crate::node::n_constructs_seq(code_generator.program@) <= u64::MAX);
    }
    let text = code_generator.generate();
    proof {
        assert(crate::node::wf_toplevel_seq(code_generator.program@) && text@
            == crate::codegen::program_text(code_generator.program@, 0));
        if source@.len() == 0 {
            assert(text@ =~= Seq::<char>::empty());
        }
    }
    Ok(text)
}

} // verus!

//! The external collaborators of the pipeline, behind one narrow interface.
//!
//! The markup tokenizer, the TypeScript compiler, the transpiler, the
//! minifier and the comment-directive preprocessor are outside services.
//! Nothing is assumed about what they return: the methods carry no
//! contract, and every function of this crate that calls one states what
//! holds of its own result whatever came back. The host application
//! supplies the implementation and chooses how the services run.

use vstd::prelude::*;

use crate::compilers::{CompileOptions, MinifyOptions};
use crate::tokens::Token;

verus! {

/// The services a document transformation may call on.
pub trait Toolchain {
    /// Tokenizes markup text into a token stream, in document order.
    fn tokenize(&mut self, text: String) -> Vec<Token>;

    /// Compiles TypeScript source text; `None` reports a compile failure.
    fn compile(&mut self, text: String, options: &CompileOptions) -> Option<String>;

    /// Transpiles TypeScript source text (type erasure only); `None`
    /// reports a failure.
    fn transpile(&mut self, text: String, options: &CompileOptions) -> Option<String>;

    /// Minifies JavaScript text; `None` reports a failure.
    fn minify(&mut self, text: String, options: &MinifyOptions) -> Option<String>;

    /// Expands comment-preprocessor directives; `None` reports a failure.
    fn preprocess(
        &mut self,
        text: String,
        filename: String,
        macros: &Vec<String>,
        include_paths: &Vec<String>,
    ) -> Option<String>;
}

} // verus!

//! A markup-aware TypeScript extraction and reinjection engine.
//!
//! The crate walks a tokenized HTML document, finds script elements whose
//! `type` attribute marks them as TypeScript, hands their dedented source to
//! an external compiler, and splices the compiled result back into the
//! document while leaving every byte of non-script markup untouched. A
//! second component infers feature options from file extensions, embedded
//! subextensions or MIME types, and computes the transformed output path.

use vstd::prelude::*;

pub mod text;
pub mod tokens;
pub mod render;
pub mod indent;
pub mod features;
pub mod compilers;
pub mod toolchain;
pub mod wave;
pub mod minify;
pub mod transpile;
pub mod html;
pub mod util;

pub use crate::features::{Options, TSMode};

verus! {

use crate::toolchain::Toolchain;

/// The crate version reported by the command-line surface.
pub fn version() -> (r: &'static str)
    ensures
        r@ == "1.0.0"@,
{
    "1.0.0"
}

/// Runs one script text through the script pipeline: the preprocessor if
/// asked, then the compiler or the transpiler according to the TypeScript
/// mode. A run with nothing to do returns the text unchanged; a service
/// failure comes back as `None`.
pub fn compile_script<S: Toolchain>(text: String, options: &Options, host: &mut S) -> (r: Option<
    String,
>)
    ensures
        !options@.preprocess && options@.ts is Preserve ==> r == Option::Some(text),
{
    let mut current = text;
    if options.preprocess {
        current = match crate::wave::preprocess(current, options, host) {
            Option::Some(t) => t,
            Option::None => {
                return Option::None;
            },
        };
    }
    match options.ts {
        TSMode::Compile => {
            let copts = options.compile_options();
            host.compile(current, &copts)
        },
        TSMode::Transpile => crate::transpile::transpile(current, options, host),
        TSMode::Preserve => Option::Some(current),
    }
}

/// The whole pipeline for one input: the document transformer when HTML
/// mode is on, otherwise the script pipeline followed by the minifier if
/// asked. With every feature off the input comes back unchanged.
pub fn compile<S: Toolchain>(text: String, options: &Options, host: &mut S) -> (r: Option<String>)
    ensures
        !options@.html && !options@.preprocess && options@.ts is Preserve && !options@.minify
            ==> r == Option::Some(text),
{
    if options.html {
        return crate::html::compile_html(text, options, host);
    }
    let current = match compile_script(text, options, host) {
        Option::Some(t) => t,
        Option::None => {
            return Option::None;
        },
    };
    if options.minify {
        return crate::minify::minify(current, options, host);
    }
    Option::Some(current)
}

} // verus!

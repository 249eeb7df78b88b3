//! The boundary of the comment-directive preprocessor.
//!
//! The preprocessor itself is an outside service; this module holds what
//! belongs to the library: the diagnostic message classification its
//! callback uses, the preprocessing mode, and the argument plumbing from
//! the flag set to the service call.

use vstd::prelude::*;

use crate::features::Options;
use crate::toolchain::Toolchain;

verus! {

/// The severity of a preprocessor diagnostic.
#[allow(non_camel_case_types)]
#[derive(Debug, Clone, Copy, PartialEq, Eq, Structural)]
pub enum MessageType {
    ERROR,
    WARNING,
    EXCEPTION,
}

impl MessageType {
    /// The numeric code of the severity on the callback interface.
    pub open spec fn code_spec(self) -> int {
        match self {
            MessageType::ERROR => 1,
            MessageType::WARNING => 2,
            MessageType::EXCEPTION => 3,
        }
    }

    pub fn code(&self) -> (r: i32)
        ensures
            r as int == self.code_spec(),
    {
        match self {
            MessageType::ERROR => 1,
            MessageType::WARNING => 2,
            MessageType::EXCEPTION => 3,
        }
    }

    /// The severity carried by a numeric callback code, if any.
    pub fn from_code(code: i32) -> (r: Option<MessageType>)
        ensures
            match r {
                Option::Some(m) => m.code_spec() == code as int,
                Option::None => code != 1 && code != 2 && code != 3,
            },
    {
        if code == 1 {
            Option::Some(MessageType::ERROR)
        } else if code == 2 {
            Option::Some(MessageType::WARNING)
        } else if code == 3 {
            Option::Some(MessageType::EXCEPTION)
        } else {
            Option::None
        }
    }
}

/// How the preprocessor reads its directives.
#[allow(non_camel_case_types)]
#[derive(Debug, Clone, Copy, PartialEq, Eq, Structural)]
pub enum Mode {
    NONE,
    STANDARD,
    COMMENT,
}

impl Mode {
    /// The numeric code of the mode on the callback interface.
    pub open spec fn code_spec(self) -> int {
        match self {
            Mode::NONE => -1,
            Mode::STANDARD => 0,
            Mode::COMMENT => 1,
        }
    }

    pub fn code(&self) -> (r: i32)
        ensures
            r as int == self.code_spec(),
    {
        match self {
            Mode::NONE => -1,
            Mode::STANDARD => 0,
            Mode::COMMENT => 1,
        }
    }
}

/// The filename reported to the preprocessor when none is known.
pub open spec fn stdin_name() -> Seq<char> {
    seq!['<', 's', 't', 'd', 'i', 'n', '>']
}

/// The filename handed to the preprocessor: the given one, or `<stdin>`
/// when none is known.
pub fn preprocess_filename(filename: Option<String>) -> (r: String)
    ensures
        r@ == match crate::tokens::opt_view(filename) {
            Option::Some(n) => n,
            Option::None => stdin_name(),
        },
{
    match filename {
        Option::Some(n) => n,
        Option::None => {
            let r = String::from_str("<stdin>");
            proof {
                reveal_strlit("<stdin>");
                assert("<stdin>"@ =~= stdin_name());
            }
            r
        },
    }
}

/// Runs the preprocessor service on one source text. A missing filename is
/// reported to the service as `<stdin>`.
pub fn preprocess_text<S: Toolchain>(
    host: &mut S,
    text: String,
    filename: Option<String>,
    macros: Vec<String>,
    include_paths: Vec<String>,
) -> Option<String> {
    let name = preprocess_filename(filename);
    host.preprocess(text, name, &macros, &include_paths)
}

/// Runs the preprocessor service with the settings of the flag set.
pub fn preprocess<S: Toolchain>(text: String, options: &Options, host: &mut S) -> Option<String> {
    preprocess_text(
        host,
        text,
        crate::text::clone_opt_string(&options.filename),
        crate::text::clone_strings(&options.macros),
        crate::text::clone_strings(&options.include_paths),
    )
}

} // verus!

//! The option snapshots handed to the external compiler and minifier.

use vstd::prelude::*;

use crate::features::{Options, OptionsView};
use crate::tokens::opt_view;

verus! {

/// What one compiler invocation is configured with.
#[derive(Debug, Clone)]
pub struct CompileOptions {
    pub target: String,
    pub module: bool,
    pub use_jsx: bool,
    pub jsx_factory: Option<String>,
    pub jsx_fragment: Option<String>,
    pub use_preprocessor: bool,
    pub macros: Vec<String>,
    pub filename: Option<String>,
    pub include_paths: Vec<String>,
}

#[verifier::ext_equal]
pub struct CompileOptionsView {
    pub target: Seq<char>,
    pub module: bool,
    pub use_jsx: bool,
    pub jsx_factory: Option<Seq<char>>,
    pub jsx_fragment: Option<Seq<char>>,
    pub use_preprocessor: bool,
    pub macros: Seq<Seq<char>>,
    pub filename: Option<Seq<char>>,
    pub include_paths: Seq<Seq<char>>,
}

impl View for CompileOptions {
    type V = CompileOptionsView;

    open spec fn view(&self) -> CompileOptionsView {
        CompileOptionsView {
            target: self.target@,
            module: self.module,
            use_jsx: self.use_jsx,
            jsx_factory: opt_view(self.jsx_factory),
            jsx_fragment: opt_view(self.jsx_fragment),
            use_preprocessor: self.use_preprocessor,
            macros: self.macros.deep_view(),
            filename: opt_view(self.filename),
            include_paths: self.include_paths.deep_view(),
        }
    }
}

/// What one minifier invocation is configured with.
#[derive(Debug, Clone)]
pub struct MinifyOptions {
    pub target: String,
    pub module: bool,
}

#[verifier::ext_equal]
pub struct MinifyOptionsView {
    pub target: Seq<char>,
    pub module: bool,
}

impl View for MinifyOptions {
    type V = MinifyOptionsView;

    open spec fn view(&self) -> MinifyOptionsView {
        MinifyOptionsView { target: self.target@, module: self.module }
    }
}

impl From<CompileOptions> for MinifyOptions {
    fn from(options: CompileOptions) -> (r: MinifyOptions) {
        MinifyOptions { target: options.target, module: options.module }
    }
}

impl vstd::std_specs::convert::FromSpecImpl<CompileOptions> for MinifyOptions {
    open spec fn obeys_from_spec() -> bool {
        true
    }

    open spec fn from_spec(options: CompileOptions) -> MinifyOptions {
        MinifyOptions { target: options.target, module: options.module }
    }
}

/// The compiler settings drawn from a flag set.
pub open spec fn spec_compile_options(o: OptionsView) -> CompileOptionsView {
    CompileOptionsView {
        target: o.target,
        module: o.module,
        use_jsx: o.use_jsx,
        jsx_factory: o.jsx_factory,
        jsx_fragment: o.jsx_fragment,
        use_preprocessor: o.preprocess,
        macros: o.macros,
        filename: o.filename,
        include_paths: o.include_paths,
    }
}

/// The minifier settings drawn from a flag set.
pub open spec fn spec_minify_options(o: OptionsView) -> MinifyOptionsView {
    MinifyOptionsView { target: o.target, module: o.module }
}

impl Options {
    /// The compiler-facing snapshot of the flag set.
    pub fn compile_options(&self) -> (r: CompileOptions)
        ensures
            r@ == spec_compile_options(self@),
    {
        let r = CompileOptions {
            target: self.target.clone(),
            module: self.module,
            use_jsx: self.use_jsx,
            jsx_factory: crate::text::clone_opt_string(&self.jsx_factory),
            jsx_fragment: crate::text::clone_opt_string(&self.jsx_fragment),
            use_preprocessor: self.preprocess,
            macros: crate::text::clone_strings(&self.macros),
            filename: crate::text::clone_opt_string(&self.filename),
            include_paths: crate::text::clone_strings(&self.include_paths),
        };
        proof {
            assert(r.macros.deep_view() =~= self.macros.deep_view());
            assert(r.include_paths.deep_view() =~= self.include_paths.deep_view());
            assert(r@ =~= spec_compile_options(self@));
        }
        r
    }

    /// The minifier-facing snapshot of the flag set.
    pub fn minify_options(&self) -> (r: MinifyOptions)
        ensures
            r@ == spec_minify_options(self@),
    {
        MinifyOptions { target: self.target.clone(), module: self.module }
    }
}

} // verus!

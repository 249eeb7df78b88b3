//! The feature flag set ("Options") shared by the whole pipeline.
//!
//! Every flag defaults to its falsy value, except the language target,
//! which defaults to `es2022`. Flags are only ever raised by the option
//! resolver — never cleared — so resolving several sources merges
//! monotonically.

use vstd::prelude::*;

use crate::tokens::opt_view;

verus! {

/// How TypeScript is transformed: left as it is, transpiled (types simply
/// erased), or compiled.
#[derive(Debug, Clone, Copy, PartialEq, Eq, Structural, PartialOrd)]
pub enum TSMode {
    Preserve,
    Transpile,
    Compile,
}

impl TSMode {
    /// The strength of the transform, for the monotonic merge.
    pub open spec fn rank_spec(self) -> int {
        match self {
            TSMode::Preserve => 0,
            TSMode::Transpile => 1,
            TSMode::Compile => 2,
        }
    }

    pub fn rank(&self) -> (r: u8)
        ensures
            r as int == self.rank_spec(),
    {
        match self {
            TSMode::Preserve => 0,
            TSMode::Transpile => 1,
            TSMode::Compile => 2,
        }
    }
}

/// The feature flags and settings of one run.
#[derive(Debug, Clone)]
pub struct Options {
    pub target: String,
    pub module: bool,
    pub ts: TSMode,
    pub use_jsx: bool,
    pub jsx_factory: Option<String>,
    pub jsx_fragment: Option<String>,
    pub minify: bool,
    pub preprocess: bool,
    pub macros: Vec<String>,
    pub filename: Option<String>,
    pub include_paths: Vec<String>,
    pub html: bool,
}

#[verifier::ext_equal]
pub struct OptionsView {
    pub target: Seq<char>,
    pub module: bool,
    pub ts: TSMode,
    pub use_jsx: bool,
    pub jsx_factory: Option<Seq<char>>,
    pub jsx_fragment: Option<Seq<char>>,
    pub minify: bool,
    pub preprocess: bool,
    pub macros: Seq<Seq<char>>,
    pub filename: Option<Seq<char>>,
    pub include_paths: Seq<Seq<char>>,
    pub html: bool,
}

impl View for Options {
    type V = OptionsView;

    open spec fn view(&self) -> OptionsView {
        OptionsView {
            target: self.target@,
            module: self.module,
            ts: self.ts,
            use_jsx: self.use_jsx,
            jsx_factory: opt_view(self.jsx_factory),
            jsx_fragment: opt_view(self.jsx_fragment),
            minify: self.minify,
            preprocess: self.preprocess,
            macros: self.macros.deep_view(),
            filename: opt_view(self.filename),
            include_paths: self.include_paths.deep_view(),
            html: self.html,
        }
    }
}

/// The default flag set: everything off, target `es2022`.
pub open spec fn default_options() -> OptionsView {
    OptionsView {
        target: seq!['e', 's', '2', '0', '2', '2'],
        module: false,
        ts: TSMode::Preserve,
        use_jsx: false,
        jsx_factory: Option::None,
        jsx_fragment: Option::None,
        minify: false,
        preprocess: false,
        macros: Seq::empty(),
        filename: Option::None,
        include_paths: Seq::empty(),
        html: false,
    }
}

impl Default for Options {
    fn default() -> (r: Options)
        ensures
            r@ == default_options(),
    {
        let r = Options {
            target: String::from_str("es2022"),
            module: false,
            ts: TSMode::Preserve,
            use_jsx: false,
            jsx_factory: Option::None,
            jsx_fragment: Option::None,
            minify: false,
            preprocess: false,
            macros: Vec::new(),
            filename: Option::None,
            include_paths: Vec::new(),
            html: false,
        };
        proof {
            reveal_strlit("es2022");
            assert("es2022"@ =~= seq!['e', 's', '2', '0', '2', '2']);
            assert(r.macros.deep_view() =~= Seq::<Seq<char>>::empty());
            assert(r.include_paths.deep_view() =~= Seq::<Seq<char>>::empty());
            assert(r@ =~= default_options());
        }
        r
    }
}

impl Options {
    /// A copy of the flag set; snapshots are taken per script element so
    /// that a per-element override never leaks to the next element.
    pub fn snapshot(&self) -> (r: Options)
        ensures
            r@ == self@,
    {
        let r = Options {
            target: self.target.clone(),
            module: self.module,
            ts: self.ts,
            use_jsx: self.use_jsx,
            jsx_factory: crate::text::clone_opt_string(&self.jsx_factory),
            jsx_fragment: crate::text::clone_opt_string(&self.jsx_fragment),
            minify: self.minify,
            preprocess: self.preprocess,
            macros: crate::text::clone_strings(&self.macros),
            filename: crate::text::clone_opt_string(&self.filename),
            include_paths: crate::text::clone_strings(&self.include_paths),
            html: self.html,
        };
        proof {
            assert(r.macros.deep_view() =~= self.macros.deep_view());
            assert(r.include_paths.deep_view() =~= self.include_paths.deep_view());
            assert(r@ =~= self@);
        }
        r
    }
}

} // verus!

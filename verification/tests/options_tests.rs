use mtsc::compilers::{CompileOptions, MinifyOptions};
use mtsc::tokens::Token;
use mtsc::toolchain::Toolchain;
use mtsc::util::{all_ext_options, update_options, update_path, OptionSource};
use mtsc::wave::{MessageType, Mode};
use mtsc::Options;
use mtsc::TSMode;

struct IdentityHost;

impl Toolchain for IdentityHost {
    fn tokenize(&mut self, _text: String) -> Vec<Token> {
        Vec::new()
    }

    fn compile(&mut self, text: String, _options: &CompileOptions) -> Option<String> {
        Some(text.replace(": number", ""))
    }

    fn transpile(&mut self, text: String, _options: &CompileOptions) -> Option<String> {
        Some(text.replace(": number", ""))
    }

    fn minify(&mut self, text: String, _options: &MinifyOptions) -> Option<String> {
        Some(text.replace(" ", ""))
    }

    fn preprocess(
        &mut self,
        text: String,
        _filename: String,
        _macros: &Vec<String>,
        _include_paths: &Vec<String>,
    ) -> Option<String> {
        Some(text)
    }
}

#[test]
fn monotonic_options_across_resolutions() {
    let mask = all_ext_options();
    let mut options = Options::default();
    update_options(OptionSource::Path(String::from("a.mts")), &mut options, &mask);
    assert!(options.module);
    assert!(options.ts == TSMode::Transpile);
    update_options(OptionSource::Path(String::from("a.jsx")), &mut options, &mask);
    assert!(options.module, "a later resolution must not clear the module flag");
    assert!(options.use_jsx);
    assert!(options.ts == TSMode::Transpile);
}

#[test]
fn ts_extension_enables_the_transform() {
    let mask = all_ext_options();
    let mut options = Options::default();
    update_options(OptionSource::Name(String::from("x.ts")), &mut options, &mask);
    assert!(options.ts == TSMode::Transpile);
    assert!(!options.module);
    assert!(!options.html);
}

#[test]
fn subextensions_are_recognized() {
    let mut mask = all_ext_options();
    mask.preprocess = true;
    let mut options = Options::default();
    update_options(OptionSource::Path(String::from("x.p.ts")), &mut options, &mask);
    assert!(options.preprocess);
    assert!(options.ts == TSMode::Transpile);
    let mut options2 = Options::default();
    update_options(OptionSource::Path(String::from("x.pre.ts")), &mut options2, &mask);
    assert!(options2.preprocess);
    let mut options3 = Options::default();
    update_options(OptionSource::Path(String::from("x.d.ts")), &mut options3, &mask);
    assert!(!options3.preprocess);
}

#[test]
fn mime_types_are_recognized() {
    let mask = all_ext_options();
    let mut options = Options::default();
    update_options(OptionSource::Mime(String::from("text/html")), &mut options, &mask);
    assert!(options.html);
    update_options(
        OptionSource::Mime(String::from("text/typescript")),
        &mut options,
        &mask,
    );
    assert!(options.ts == TSMode::Transpile);
}

#[test]
fn unrecognized_sources_have_no_effect() {
    let mask = all_ext_options();
    let mut options = Options::default();
    update_options(OptionSource::Path(String::from("x.js")), &mut options, &mask);
    update_options(
        OptionSource::Mime(String::from("text/javascript")),
        &mut options,
        &mask,
    );
    update_options(OptionSource::Unspecified, &mut options, &mask);
    assert!(!options.module && !options.use_jsx && !options.html);
    assert!(options.ts == TSMode::Preserve);
}

#[test]
fn mask_gates_the_merge() {
    let mut mask = all_ext_options();
    mask.module = false;
    let mut options = Options::default();
    update_options(OptionSource::Path(String::from("a.mts")), &mut options, &mask);
    assert!(!options.module, "the mask did not allow the module flag");
    assert!(options.ts == TSMode::Transpile);
}

fn ts_options() -> Options {
    let mut options = Options::default();
    options.ts = TSMode::Transpile;
    options
}

fn resolved(path: &str, options: &Options) -> String {
    let mut p = String::from(path);
    update_path(&mut p, options);
    p
}

#[test]
fn output_path_maps_ts_to_js() {
    assert_eq!(resolved("foo.ts", &ts_options()), "foo.js");
    assert_eq!(resolved("src/foo.ts", &ts_options()), "src/foo.js");
}

#[test]
fn output_path_drops_the_subextension() {
    assert_eq!(resolved("foo.p.ts", &ts_options()), "foo.js");
    let mut o = ts_options();
    o.minify = true;
    assert_eq!(resolved("foo.min.ts", &o), "foo.min.js");
}

#[test]
fn output_path_keeps_other_subextensions() {
    assert_eq!(resolved("foo.d.ts", &ts_options()), "foo.d.js");
}

#[test]
fn output_path_for_minified_output() {
    let mut o = ts_options();
    o.minify = true;
    assert_eq!(resolved("foo.ts", &o), "foo.min.js");
}

#[test]
fn output_path_for_module_sources() {
    assert_eq!(resolved("foo.mts", &ts_options()), "foo.mjs");
    let mut o = ts_options();
    o.use_jsx = true;
    assert_eq!(resolved("foo.tsx", &o), "foo.jsx");
    o.jsx_factory = Some(String::from("h"));
    assert_eq!(resolved("foo.tsx", &o), "foo.js");
}

#[test]
fn output_path_in_html_mode() {
    let mut o = ts_options();
    o.html = true;
    assert_eq!(resolved("page.ts", &o), "page.html");
    assert_eq!(resolved("page.html", &o), "page.html");
}

#[test]
fn output_path_without_extension_is_unchanged() {
    assert_eq!(resolved("Makefile", &ts_options()), "Makefile");
    assert_eq!(resolved(".gitignore", &ts_options()), ".gitignore");
}

#[test]
fn output_path_untouched_when_nothing_is_enabled() {
    assert_eq!(resolved("foo.ts", &Options::default()), "foo.ts");
}

#[test]
fn path_resolution_is_idempotent() {
    let mut o = ts_options();
    o.minify = true;
    let once = resolved("foo.p.ts", &o);
    assert_eq!(once, "foo.min.js");
    assert_eq!(resolved(&once, &o), once);
    let plain = resolved("bar.ts", &ts_options());
    assert_eq!(resolved(&plain, &ts_options()), plain);
    let mut h = ts_options();
    h.html = true;
    let page = resolved("page.ts", &h);
    assert_eq!(resolved(&page, &h), page);
}

#[test]
fn version_string() {
    assert_eq!(mtsc::version(), "1.0.0");
}

#[test]
fn compile_is_identity_when_everything_is_off() {
    let mut host = IdentityHost;
    let out = mtsc::compile(String::from("let x = 1;"), &Options::default(), &mut host);
    assert_eq!(out, Some(String::from("let x = 1;")));
}

#[test]
fn compile_script_transpiles() {
    let mut host = IdentityHost;
    let out = mtsc::compile_script(
        String::from("let x: number = 1;"),
        &ts_options(),
        &mut host,
    );
    assert_eq!(out, Some(String::from("let x = 1;")));
}

#[test]
fn compile_minifies_after_the_transform() {
    let mut host = IdentityHost;
    let mut o = ts_options();
    o.minify = true;
    let out = mtsc::compile(String::from("let x: number = 1;"), &o, &mut host);
    assert_eq!(out, Some(String::from("letx=1;")));
}

#[test]
fn default_options_target() {
    let o = Options::default();
    assert_eq!(o.target, "es2022");
    assert!(o.ts == TSMode::Preserve);
    assert!(!o.module && !o.use_jsx && !o.minify && !o.preprocess && !o.html);
    assert!(o.jsx_factory.is_none() && o.filename.is_none());
    assert!(o.macros.is_empty() && o.include_paths.is_empty());
}

#[test]
fn tsmode_orders_by_strength() {
    assert!(TSMode::Preserve < TSMode::Transpile);
    assert!(TSMode::Transpile < TSMode::Compile);
}

#[test]
fn message_type_codes() {
    assert_eq!(MessageType::ERROR.code(), 1);
    assert_eq!(MessageType::WARNING.code(), 2);
    assert_eq!(MessageType::EXCEPTION.code(), 3);
    assert!(MessageType::from_code(1) == Some(MessageType::ERROR));
    assert!(MessageType::from_code(2) == Some(MessageType::WARNING));
    assert!(MessageType::from_code(3) == Some(MessageType::EXCEPTION));
    assert!(MessageType::from_code(0).is_none());
}

#[test]
fn preprocessor_mode_codes() {
    assert_eq!(Mode::NONE.code(), -1);
    assert_eq!(Mode::STANDARD.code(), 0);
    assert_eq!(Mode::COMMENT.code(), 1);
}

#[test]
fn minify_options_from_compile_options() {
    let c = CompileOptions {
        target: String::from("es2022"),
        module: true,
        use_jsx: false,
        jsx_factory: None,
        jsx_fragment: None,
        use_preprocessor: false,
        macros: Vec::new(),
        filename: None,
        include_paths: Vec::new(),
    };
    let m = MinifyOptions::from(c);
    assert_eq!(m.target, "es2022");
    assert!(m.module);
}

#[test]
fn compile_options_snapshot_of_the_flag_set() {
    let mut o = Options::default();
    o.module = true;
    o.use_jsx = true;
    o.preprocess = true;
    o.macros = vec![String::from("A=1")];
    let c = o.compile_options();
    assert_eq!(c.target, "es2022");
    assert!(c.module && c.use_jsx && c.use_preprocessor);
    assert_eq!(c.macros, vec![String::from("A=1")]);
}

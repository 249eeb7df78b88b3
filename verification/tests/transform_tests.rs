use html5ever::tendril::StrTendril;
use html5ever::tokenizer::{
    BufferQueue, CharacterTokens, CommentToken, DoctypeToken, EOFToken, EndTag,
    NullCharacterToken, ParseError, StartTag, TagToken, TokenSink, TokenSinkResult, Tokenizer,
    TokenizerOpts,
};

use mtsc::compilers::{CompileOptions, MinifyOptions};
use mtsc::html::{compile_html, transform_tokens, Document, Segment, TargetType, TransformError};
use mtsc::tokens::{Attribute, Tag, TagKind, Token};
use mtsc::toolchain::Toolchain;
use mtsc::Options;
use mtsc::TSMode;

struct Collector {
    tokens: Vec<Token>,
}

impl TokenSink for Collector {
    type Handle = ();

    fn process_token(
        &mut self,
        token: html5ever::tokenizer::Token,
        _line_number: u64,
    ) -> TokenSinkResult<()> {
        match token {
            CharacterTokens(t) => self.tokens.push(Token::Characters(t.to_string())),
            DoctypeToken(d) => self.tokens.push(Token::Doctype(mtsc::tokens::Doctype {
                name: d.name.map(|n| n.to_string()),
                public_id: d.public_id.map(|p| p.to_string()),
                system_id: d.system_id.map(|s| s.to_string()),
            })),
            TagToken(tag) => {
                let kind = match tag.kind {
                    StartTag => TagKind::Start,
                    EndTag => TagKind::End,
                };
                let is_script_start =
                    tag.kind == StartTag && tag.name.to_lowercase() == "script";
                self.tokens.push(Token::Tag(Tag {
                    name: tag.name.to_string(),
                    attrs: tag
                        .attrs
                        .iter()
                        .map(|a| Attribute {
                            name: a.name.local.to_string(),
                            value: a.value.to_string(),
                        })
                        .collect(),
                    kind,
                    self_closing: tag.self_closing,
                }));
                if is_script_start {
                    return TokenSinkResult::RawData(
                        html5ever::tokenizer::states::RawKind::ScriptData,
                    );
                }
            }
            CommentToken(c) => self.tokens.push(Token::Comment(c.to_string())),
            NullCharacterToken => self.tokens.push(Token::NullCharacter),
            ParseError(_) => self.tokens.push(Token::ParseError),
            EOFToken => self.tokens.push(Token::EndOfInput),
        }
        TokenSinkResult::Continue
    }
}

fn tokenize_html(text: &str) -> Vec<Token> {
    let collector = Collector { tokens: Vec::new() };
    let mut input = BufferQueue::default();
    input.push_back(StrTendril::from_slice(text));
    let mut tokenizer = Tokenizer::new(collector, TokenizerOpts::default());
    let _ = tokenizer.feed(&mut input);
    tokenizer.end();
    tokenizer.sink.tokens
}

/// A host whose compiler erases `: number` annotations and whose
/// tokenizer is the real one.
struct MockHost;

impl Toolchain for MockHost {
    fn tokenize(&mut self, text: String) -> Vec<Token> {
        tokenize_html(&text)
    }

    fn compile(&mut self, text: String, _options: &CompileOptions) -> Option<String> {
        Some(text.replace(": number", ""))
    }

    fn transpile(&mut self, text: String, _options: &CompileOptions) -> Option<String> {
        Some(text.replace(": number", ""))
    }

    fn minify(&mut self, text: String, _options: &MinifyOptions) -> Option<String> {
        Some(text.replace(" = ", "="))
    }

    fn preprocess(
        &mut self,
        text: String,
        _filename: String,
        _macros: &Vec<String>,
        _include_paths: &Vec<String>,
    ) -> Option<String> {
        Some(text)
    }
}

/// A host whose compiler always fails.
struct FailingHost;

impl Toolchain for FailingHost {
    fn tokenize(&mut self, text: String) -> Vec<Token> {
        tokenize_html(&text)
    }

    fn compile(&mut self, _text: String, _options: &CompileOptions) -> Option<String> {
        None
    }

    fn transpile(&mut self, _text: String, _options: &CompileOptions) -> Option<String> {
        None
    }

    fn minify(&mut self, _text: String, _options: &MinifyOptions) -> Option<String> {
        None
    }

    fn preprocess(
        &mut self,
        _text: String,
        _filename: String,
        _macros: &Vec<String>,
        _include_paths: &Vec<String>,
    ) -> Option<String> {
        None
    }
}

fn transpile_options() -> Options {
    let mut options = Options::default();
    options.ts = TSMode::Transpile;
    options.html = true;
    options
}

fn script_start(type_value: Option<&str>) -> Token {
    let attrs = match type_value {
        Some(v) => vec![Attribute {
            name: String::from("type"),
            value: String::from(v),
        }],
        None => Vec::new(),
    };
    Token::Tag(Tag {
        name: String::from("script"),
        attrs,
        kind: TagKind::Start,
        self_closing: false,
    })
}

fn script_end() -> Token {
    Token::Tag(Tag {
        name: String::from("script"),
        attrs: Vec::new(),
        kind: TagKind::End,
        self_closing: false,
    })
}

fn job_of(doc: &Document) -> &mtsc::html::ScriptJob {
    for seg in doc.segments.iter() {
        if let Segment::Script(job) = seg {
            return job;
        }
    }
    panic!("no script job was recorded");
}

#[test]
fn classic_mode_detection() {
    let mut doc = Document::new(transpile_options());
    doc.process_token(&script_start(Some("text/typescript")));
    assert!(doc.typescript_mode == TargetType::Classic);
    match &doc.segments[0] {
        Segment::Markup(m) => assert_eq!(m.as_str(), "<script>"),
        Segment::Script(_) => panic!("expected markup"),
    }
    doc.process_token(&Token::Characters(String::from("let x: number = 1;")));
    doc.process_token(&script_end());
    assert!(doc.typescript_mode == TargetType::Inactive);
    assert_eq!(doc.script_buffer.as_str(), "");
    let job = job_of(&doc);
    assert!(!job.options.module);
    assert_eq!(job.source.as_str(), "let x: number = 1;");
}

#[test]
fn application_typescript_is_classic() {
    let mut doc = Document::new(transpile_options());
    doc.process_token(&script_start(Some("application/typescript")));
    assert!(doc.typescript_mode == TargetType::Classic);
}

#[test]
fn module_mode_detection() {
    let mut doc = Document::new(transpile_options());
    doc.process_token(&script_start(Some("tsmodule")));
    assert!(doc.typescript_mode == TargetType::Module);
    match &doc.segments[0] {
        Segment::Markup(m) => assert_eq!(m.as_str(), "<script type=\"module\">"),
        Segment::Script(_) => panic!("expected markup"),
    }
    doc.process_token(&Token::Characters(String::from("export let x = 1;")));
    doc.process_token(&script_end());
    let job = job_of(&doc);
    assert!(job.options.module);
}

#[test]
fn module_typescript_value_selects_module_mode() {
    let mut doc = Document::new(transpile_options());
    doc.process_token(&script_start(Some("module/typescript")));
    assert!(doc.typescript_mode == TargetType::Module);
}

#[test]
fn plain_script_is_left_alone() {
    let mut doc = Document::new(transpile_options());
    doc.process_token(&script_start(Some("text/javascript")));
    assert!(doc.typescript_mode == TargetType::Inactive);
    match &doc.segments[0] {
        Segment::Markup(m) => assert_eq!(m.as_str(), "<script type=\"text/javascript\">"),
        Segment::Script(_) => panic!("expected markup"),
    }
}

#[test]
fn whitespace_fidelity_without_scripts() {
    let html = "<!DOCTYPE html><html><body class=\"x\">hello <b>world</b>\n</body></html>";
    let mut host = MockHost;
    let tokens = tokenize_html(html);
    let out = transform_tokens(&tokens, &transpile_options(), &mut host).unwrap();
    assert_eq!(out, html);
}

#[test]
fn end_to_end_scenario() {
    let html = "<html><script type=\"text/typescript\">\n  let x: number = 1;\n</script></html>";
    let mut host = MockHost;
    let mut options = Options::default();
    options.target = String::from("es2022");
    options.ts = TSMode::Transpile;
    options.html = true;
    let out = mtsc::compile(String::from(html), &options, &mut host).unwrap();
    assert_eq!(
        out,
        "<html><script>\n  let x = 1;\n</script></html>"
    );
}

#[test]
fn indentation_survives_recompilation() {
    let html =
        "<div><script type=\"text/typescript\">\n    let a: number = 1;\n    let b: number = 2;\n</script></div>";
    let mut host = MockHost;
    let out = compile_html(String::from(html), &transpile_options(), &mut host).unwrap();
    assert_eq!(
        out,
        "<div><script>\n    let a = 1;\n    let b = 2;\n</script></div>"
    );
}

#[test]
fn blank_script_lines_are_reindented_too() {
    let html = "<div><script type=\"text/typescript\">\n  a\n\n  b\n</script></div>";
    let mut host = MockHost;
    let out = compile_html(String::from(html), &transpile_options(), &mut host).unwrap();
    assert_eq!(out, "<div><script>\n  a\n  \n  b\n</script></div>");
}

#[test]
fn closing_tag_column_is_preserved() {
    let html = "<div>\n  <script type=\"text/typescript\">\n    let x: number = 1;\n  </script>\n</div>";
    let mut host = MockHost;
    let out = compile_html(String::from(html), &transpile_options(), &mut host).unwrap();
    assert_eq!(
        out,
        "<div>\n  <script>\n    let x = 1;\n  </script>\n</div>"
    );
}

#[test]
fn unterminated_script_element_is_fatal() {
    let tokens = vec![
        script_start(Some("text/typescript")),
        Token::Characters(String::from("let x = 1;")),
    ];
    let mut host = MockHost;
    let r = transform_tokens(&tokens, &transpile_options(), &mut host);
    assert!(r == Err(TransformError::UnterminatedScriptElement));
}

#[test]
fn compile_failure_aborts_the_document() {
    let tokens = vec![
        script_start(Some("text/typescript")),
        Token::Characters(String::from("let x: number = 1;")),
        script_end(),
    ];
    let mut host = FailingHost;
    let r = transform_tokens(&tokens, &transpile_options(), &mut host);
    assert!(r == Err(TransformError::CompileError));
}

#[test]
fn minify_failure_is_distinguished() {
    let tokens = vec![
        script_start(Some("text/typescript")),
        Token::Characters(String::from("let x = 1;")),
        script_end(),
    ];
    struct MinifyFails;
    impl Toolchain for MinifyFails {
        fn tokenize(&mut self, _text: String) -> Vec<Token> {
            Vec::new()
        }
        fn compile(&mut self, text: String, _o: &CompileOptions) -> Option<String> {
            Some(text)
        }
        fn transpile(&mut self, text: String, _o: &CompileOptions) -> Option<String> {
            Some(text)
        }
        fn minify(&mut self, _text: String, _o: &MinifyOptions) -> Option<String> {
            None
        }
        fn preprocess(
            &mut self,
            text: String,
            _f: String,
            _m: &Vec<String>,
            _i: &Vec<String>,
        ) -> Option<String> {
            Some(text)
        }
    }
    let mut options = transpile_options();
    options.minify = true;
    let mut host = MinifyFails;
    let r = transform_tokens(&tokens, &options, &mut host);
    assert!(r == Err(TransformError::MinifyError));
}

#[test]
fn preprocess_failure_is_distinguished() {
    let tokens = vec![
        script_start(Some("text/typescript")),
        Token::Characters(String::from("let x = 1;")),
        script_end(),
    ];
    let mut options = transpile_options();
    options.preprocess = true;
    let mut host = FailingHost;
    let r = transform_tokens(&tokens, &options, &mut host);
    assert!(r == Err(TransformError::PreprocessError));
}

#[test]
fn null_character_token_emits_a_nul_byte() {
    let mut doc = Document::new(transpile_options());
    doc.process_token(&Token::NullCharacter);
    match &doc.segments[0] {
        Segment::Markup(m) => assert_eq!(m.as_str(), "\0"),
        Segment::Script(_) => panic!("expected markup"),
    }
}

#[test]
fn doctype_and_comment_are_rendered() {
    let mut doc = Document::new(transpile_options());
    doc.process_token(&Token::Doctype(mtsc::tokens::Doctype {
        name: Some(String::from("html")),
        public_id: None,
        system_id: None,
    }));
    doc.process_token(&Token::Comment(String::from(" hi ")));
    doc.process_token(&Token::ParseError);
    doc.process_token(&Token::EndOfInput);
    assert_eq!(doc.segments.len(), 1);
    match &doc.segments[0] {
        Segment::Markup(m) => assert_eq!(m.as_str(), "<!DOCTYPE html><!-- hi -->"),
        Segment::Script(_) => panic!("expected markup"),
    }
}

#[test]
fn per_element_module_flag_does_not_leak() {
    let mut doc = Document::new(transpile_options());
    doc.process_token(&script_start(Some("tsmodule")));
    doc.process_token(&Token::Characters(String::from("a")));
    doc.process_token(&script_end());
    doc.process_token(&script_start(Some("text/typescript")));
    doc.process_token(&Token::Characters(String::from("b")));
    doc.process_token(&script_end());
    let jobs: Vec<bool> = doc
        .segments
        .iter()
        .filter_map(|s| match s {
            Segment::Script(job) => Some(job.options.module),
            Segment::Markup(_) => None,
        })
        .collect();
    assert_eq!(jobs, vec![true, false]);
    assert!(!doc.options.module);
}

use html5ever::tendril::StrTendril;
use html5ever::tokenizer::{
    BufferQueue, CharacterTokens, CommentToken, DoctypeToken, EOFToken, EndTag,
    NullCharacterToken, ParseError, StartTag, TagToken, TokenSink, TokenSinkResult, Tokenizer,
    TokenizerOpts,
};

use mtsc::render::{render_comment, render_doctype, render_tag};
use mtsc::tokens::{Attribute, Doctype, Tag, TagKind};

fn tag(name: &str, attrs: Vec<(&str, &str)>, kind: TagKind, self_closing: bool) -> Tag {
    Tag {
        name: String::from(name),
        attrs: attrs
            .into_iter()
            .map(|(n, v)| Attribute {
                name: String::from(n),
                value: String::from(v),
            })
            .collect(),
        kind,
        self_closing,
    }
}

#[test]
fn attribute_with_double_quotes_uses_single_quotes() {
    let t = tag("a", vec![("attr", "he said \"hi\"")], TagKind::Start, false);
    assert_eq!(render_tag(&t), "<a attr='he said \"hi\"'>");
}

#[test]
fn attribute_with_single_quote_uses_double_quotes() {
    let t = tag("a", vec![("attr", "it's")], TagKind::Start, false);
    assert_eq!(render_tag(&t), "<a attr=\"it's\">");
}

#[test]
fn attribute_with_both_quote_kinds_escapes_double_quotes() {
    let t = tag(
        "a",
        vec![("attr", "both \"x\" and 'y'")],
        TagKind::Start,
        false,
    );
    assert_eq!(render_tag(&t), "<a attr=\"both &quot;x&quot; and 'y'\">");
}

#[test]
fn plain_attribute_value_is_double_quoted() {
    let t = tag("div", vec![("class", "box wide")], TagKind::Start, false);
    assert_eq!(render_tag(&t), "<div class=\"box wide\">");
}

#[test]
fn empty_attribute_value_renders_bare() {
    let t = tag("input", vec![("disabled", "")], TagKind::Start, false);
    assert_eq!(render_tag(&t), "<input disabled>");
}

#[test]
fn end_tag_drops_attributes() {
    let t = tag("div", vec![("class", "x")], TagKind::End, false);
    assert_eq!(render_tag(&t), "</div>");
}

#[test]
fn self_closing_tag_renders_with_slash() {
    let t = tag("br", vec![], TagKind::Start, true);
    assert_eq!(render_tag(&t), "<br/>");
}

#[test]
fn attributes_keep_their_order() {
    let t = tag(
        "a",
        vec![("href", "x"), ("id", "y"), ("rel", "z")],
        TagKind::Start,
        false,
    );
    assert_eq!(render_tag(&t), "<a href=\"x\" id=\"y\" rel=\"z\">");
}

#[test]
fn doctype_with_all_parts() {
    let d = Doctype {
        name: Some(String::from("html")),
        public_id: Some(String::from("-//W3C//DTD HTML 4.01//EN")),
        system_id: Some(String::from("http://www.w3.org/TR/html4/strict.dtd")),
    };
    assert_eq!(
        render_doctype(&d),
        "<!DOCTYPE html PUBLIC \"-//W3C//DTD HTML 4.01//EN\" \"http://www.w3.org/TR/html4/strict.dtd\">"
    );
}

#[test]
fn doctype_with_name_only() {
    let d = Doctype {
        name: Some(String::from("html")),
        public_id: None,
        system_id: None,
    };
    assert_eq!(render_doctype(&d), "<!DOCTYPE html>");
}

#[test]
fn comment_renders_verbatim() {
    assert_eq!(render_comment(" keep  this "), "<!-- keep  this -->");
}

struct Collector {
    tags: Vec<Tag>,
}

impl TokenSink for Collector {
    type Handle = ();

    fn process_token(
        &mut self,
        token: html5ever::tokenizer::Token,
        _line_number: u64,
    ) -> TokenSinkResult<()> {
        match token {
            TagToken(t) => {
                let kind = match t.kind {
                    StartTag => TagKind::Start,
                    EndTag => TagKind::End,
                };
                self.tags.push(Tag {
                    name: t.name.to_string(),
                    attrs: t
                        .attrs
                        .iter()
                        .map(|a| Attribute {
                            name: a.name.local.to_string(),
                            value: a.value.to_string(),
                        })
                        .collect(),
                    kind,
                    self_closing: t.self_closing,
                });
            }
            CharacterTokens(_) | DoctypeToken(_) | CommentToken(_) | NullCharacterToken
            | ParseError(_) | EOFToken => {}
        }
        TokenSinkResult::Continue
    }
}

fn parse_first_tag(text: &str) -> Tag {
    let collector = Collector { tags: Vec::new() };
    let mut input = BufferQueue::default();
    input.push_back(StrTendril::from_slice(text));
    let mut tokenizer = Tokenizer::new(collector, TokenizerOpts::default());
    let _ = tokenizer.feed(&mut input);
    tokenizer.end();
    tokenizer.sink.tags.remove(0)
}

#[test]
fn render_parse_render_is_stable() {
    let cases = vec![
        tag("div", vec![("class", "a b"), ("id", "main")], TagKind::Start, false),
        tag("a", vec![("href", "it's")], TagKind::Start, false),
        tag("span", vec![("data-x", "he said \"hi\"")], TagKind::Start, false),
        tag("p", vec![], TagKind::End, false),
        tag("hr", vec![], TagKind::Start, true),
    ];
    for t in cases {
        let first = render_tag(&t);
        let reparsed = parse_first_tag(&first);
        let second = render_tag(&reparsed);
        assert_eq!(second, first);
    }
}

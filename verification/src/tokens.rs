//! The token stream consumed by the document transformer.
//!
//! Tokens come from an external markup tokenizer; the transformer never
//! reorders them. Only the variants below matter to this crate.

use vstd::prelude::*;

verus! {

/// One attribute of a tag, in source order.
#[derive(Debug, Clone)]
pub struct Attribute {
    pub name: String,
    pub value: String,
}

pub struct AttributeView {
    pub name: Seq<char>,
    pub value: Seq<char>,
}

impl View for Attribute {
    type V = AttributeView;

    open spec fn view(&self) -> AttributeView {
        AttributeView { name: self.name@, value: self.value@ }
    }
}

/// Whether a tag opens or closes an element.
#[derive(Debug, Clone, Copy, PartialEq, Eq, Structural)]
pub enum TagKind {
    Start,
    End,
}

/// A parsed tag: name, attributes in order, kind, and the self-closing slash.
#[derive(Debug, Clone)]
pub struct Tag {
    pub name: String,
    pub attrs: Vec<Attribute>,
    pub kind: TagKind,
    pub self_closing: bool,
}

pub struct TagView {
    pub name: Seq<char>,
    pub attrs: Seq<AttributeView>,
    pub kind: TagKind,
    pub self_closing: bool,
}

impl View for Tag {
    type V = TagView;

    open spec fn view(&self) -> TagView {
        TagView {
            name: self.name@,
            attrs: self.attrs@.map_values(|a: Attribute| a@),
            kind: self.kind,
            self_closing: self.self_closing,
        }
    }
}

/// A doctype declaration; each part may be absent.
#[derive(Debug, Clone)]
pub struct Doctype {
    pub name: Option<String>,
    pub public_id: Option<String>,
    pub system_id: Option<String>,
}

pub struct DoctypeView {
    pub name: Option<Seq<char>>,
    pub public_id: Option<Seq<char>>,
    pub system_id: Option<Seq<char>>,
}

/// The view of an optional string.
pub open spec fn opt_view(o: Option<String>) -> Option<Seq<char>> {
    match o {
        Option::Some(s) => Option::Some(s@),
        Option::None => Option::None,
    }
}

impl View for Doctype {
    type V = DoctypeView;

    open spec fn view(&self) -> DoctypeView {
        DoctypeView {
            name: opt_view(self.name),
            public_id: opt_view(self.public_id),
            system_id: opt_view(self.system_id),
        }
    }
}

/// One token of the document stream.
#[derive(Debug, Clone)]
pub enum Token {
    Characters(String),
    Doctype(Doctype),
    Tag(Tag),
    Comment(String),
    NullCharacter,
    ParseError,
    EndOfInput,
}

pub enum TokenView {
    Characters(Seq<char>),
    Doctype(DoctypeView),
    Tag(TagView),
    Comment(Seq<char>),
    NullCharacter,
    ParseError,
    EndOfInput,
}

impl View for Token {
    type V = TokenView;

    open spec fn view(&self) -> TokenView {
        match self {
            Token::Characters(s) => TokenView::Characters(s@),
            Token::Doctype(d) => TokenView::Doctype(d@),
            Token::Tag(t) => TokenView::Tag(t@),
            Token::Comment(s) => TokenView::Comment(s@),
            Token::NullCharacter => TokenView::NullCharacter,
            Token::ParseError => TokenView::ParseError,
            Token::EndOfInput => TokenView::EndOfInput,
        }
    }
}

} // verus!

//! The document transformer: a state machine over the token stream.
//!
//! The machine folds tokens left to right. Outside a TypeScript script
//! element it renders every token into the committed markup; inside one it
//! buffers the raw character data. At the element's end tag the buffer is
//! turned into a compile job — dedented source, the indent to restore, the
//! trailing whitespace line, and a per-element options snapshot whose
//! `module` flag records how the element was opened. The committed output
//! is kept as a sequence of segments: literal markup interleaved with
//! script jobs, so that compiled results can be spliced in without
//! touching a single byte of the surrounding markup.

use vstd::prelude::*;

use crate::features::{Options, OptionsView, TSMode};
use crate::indent::{
    common_indent, common_indent_of, dedent_script, reindent_text, script_source_of,
    script_trailer, script_trailer_of,
};
use crate::render::{
    render_comment, render_doctype, render_tag, spec_render_comment, spec_render_doctype,
    spec_render_tag,
};
use crate::text::eq_ignore_case;
use crate::toolchain::Toolchain;
use crate::tokens::{opt_view, Attribute, AttributeView, Tag, TagKind, TagView, Token, TokenView};

verus! {

/// Whether buffered text belongs to a TypeScript script element and, if
/// so, whether the element compiles as a module.
#[derive(Debug, Clone, Copy, PartialEq, Eq, Structural)]
pub enum TargetType {
    Inactive,
    Classic,
    Module,
}

/// One script element's compile job.
pub struct ScriptJob {
    /// The dedented source handed to the compiler.
    pub source: String,
    /// The common indent to put back on every compiled line.
    pub indent: String,
    /// The whitespace that preceded the closing tag on its own line.
    pub trailer: Option<String>,
    /// The per-element options snapshot, `module` already set.
    pub options: Options,
}

#[verifier::ext_equal]
pub struct ScriptJobView {
    pub source: Seq<char>,
    pub indent: Seq<char>,
    pub trailer: Option<Seq<char>>,
    pub options: OptionsView,
}

impl View for ScriptJob {
    type V = ScriptJobView;

    open spec fn view(&self) -> ScriptJobView {
        ScriptJobView {
            source: self.source@,
            indent: self.indent@,
            trailer: opt_view(self.trailer),
            options: self.options@,
        }
    }
}

/// One piece of the committed output: literal markup, or the slot of a
/// script element awaiting its compiled text.
pub enum Segment {
    Markup(String),
    Script(ScriptJob),
}

#[verifier::ext_equal]
pub enum SegmentView {
    Markup(Seq<char>),
    Script(ScriptJobView),
}

impl View for Segment {
    type V = SegmentView;

    open spec fn view(&self) -> SegmentView {
        match self {
            Segment::Markup(m) => SegmentView::Markup(m@),
            Segment::Script(j) => SegmentView::Script(j@),
        }
    }
}

/// The state of one document transformation pass.
pub struct Document {
    pub options: Options,
    pub typescript_mode: TargetType,
    pub segments: Vec<Segment>,
    pub script_buffer: String,
}

#[verifier::ext_equal]
pub struct DocumentView {
    pub options: OptionsView,
    pub typescript_mode: TargetType,
    pub segments: Seq<SegmentView>,
    pub script_buffer: Seq<char>,
}

impl View for Document {
    type V = DocumentView;

    open spec fn view(&self) -> DocumentView {
        DocumentView {
            options: self.options@,
            typescript_mode: self.typescript_mode,
            segments: self.segments@.map_values(|s: Segment| s@),
            script_buffer: self.script_buffer@,
        }
    }
}

/// The fresh state of a pass.
pub open spec fn spec_init(options: OptionsView) -> DocumentView {
    DocumentView {
        options,
        typescript_mode: TargetType::Inactive,
        segments: Seq::empty(),
        script_buffer: Seq::empty(),
    }
}

/// Text written to the active sink: committed markup when no script
/// element is open (extending the trailing markup segment), the script
/// buffer otherwise.
pub open spec fn spec_write(d: DocumentView, t: Seq<char>) -> DocumentView {
    match d.typescript_mode {
        TargetType::Inactive => {
            if d.segments.len() > 0 && (d.segments.last() matches SegmentView::Markup(_)) {
                let m = match d.segments.last() {
                    SegmentView::Markup(m) => m,
                    SegmentView::Script(_) => Seq::empty(),
                };
                DocumentView {
                    segments: d.segments.update(
                        d.segments.len() - 1,
                        SegmentView::Markup(m + t),
                    ),
                    ..d
                }
            } else {
                DocumentView { segments: d.segments.push(SegmentView::Markup(t)), ..d }
            }
        },
        _ => DocumentView { script_buffer: d.script_buffer + t, ..d },
    }
}

/// The element name that opens and closes a script element.
pub open spec fn script_name() -> Seq<char> {
    seq!['s', 'c', 'r', 'i', 'p', 't']
}

/// The attribute that carries the script's MIME type.
pub open spec fn type_attr_name() -> Seq<char> {
    seq!['t', 'y', 'p', 'e']
}

pub open spec fn mime_text_typescript() -> Seq<char> {
    seq!['t', 'e', 'x', 't', '/', 't', 'y', 'p', 'e', 's', 'c', 'r', 'i', 'p', 't']
}

pub open spec fn mime_application_typescript() -> Seq<char> {
    seq![
        'a',
        'p',
        'p',
        'l',
        'i',
        'c',
        'a',
        't',
        'i',
        'o',
        'n',
        '/',
        't',
        'y',
        'p',
        'e',
        's',
        'c',
        'r',
        'i',
        'p',
        't',
    ]
}

pub open spec fn type_tsmodule() -> Seq<char> {
    seq!['t', 's', 'm', 'o', 'd', 'u', 'l', 'e']
}

pub open spec fn type_module_typescript() -> Seq<char> {
    seq!['m', 'o', 'd', 'u', 'l', 'e', '/', 't', 'y', 'p', 'e', 's', 'c', 'r', 'i', 'p', 't']
}

/// The rewritten attribute value of a module script element.
pub open spec fn module_value() -> Seq<char> {
    seq!['m', 'o', 'd', 'u', 'l', 'e']
}

/// A `type` value that selects classic (non-module) compilation.
pub open spec fn is_classic_type(v: Seq<char>) -> bool {
    eq_ignore_case(v, mime_text_typescript()) || eq_ignore_case(v, mime_application_typescript())
}

/// A `type` value that selects module compilation.
pub open spec fn is_module_type(v: Seq<char>) -> bool {
    eq_ignore_case(v, type_tsmodule()) || eq_ignore_case(v, type_module_typescript())
}

pub open spec fn is_script_tag(t: TagView) -> bool {
    eq_ignore_case(t.name, script_name())
}

/// The position of the first `type` attribute; the attribute count if
/// there is none.
pub open spec fn type_attr_index(attrs: Seq<AttributeView>) -> int
    decreases attrs.len(),
{
    if attrs.len() == 0 {
        0
    } else if attrs[0].name == type_attr_name() {
        0
    } else {
        1 + type_attr_index(attrs.skip(1))
    }
}

pub proof fn lemma_type_attr_index_at(attrs: Seq<AttributeView>, k: int)
    requires
        0 <= k <= attrs.len(),
        forall|j: int| 0 <= j < k ==> (#[trigger] attrs[j]).name != type_attr_name(),
        k < attrs.len() ==> attrs[k].name == type_attr_name(),
    ensures
        type_attr_index(attrs) == k,
    decreases attrs.len(),
{
    if attrs.len() == 0 {
    } else if k == 0 {
    } else {
        assert(attrs[0].name != type_attr_name());
        lemma_type_attr_index_at(attrs.skip(1), k - 1);
    }
}

pub open spec fn has_type_attr(attrs: Seq<AttributeView>) -> bool {
    type_attr_index(attrs) < attrs.len()
}

pub open spec fn type_attr_value(attrs: Seq<AttributeView>) -> Seq<char> {
    attrs[type_attr_index(attrs)].value
}

/// Whether a tag opens a classic TypeScript script element.
pub open spec fn starts_classic(t: TagView) -> bool {
    is_script_tag(t) && t.kind is Start && has_type_attr(t.attrs) && is_classic_type(
        type_attr_value(t.attrs),
    )
}

/// Whether a tag opens a module TypeScript script element.
pub open spec fn starts_module(t: TagView) -> bool {
    is_script_tag(t) && t.kind is Start && has_type_attr(t.attrs) && is_module_type(
        type_attr_value(t.attrs),
    )
}

/// Whether a token opens a TypeScript script element at all.
pub open spec fn triggers_script(t: TokenView) -> bool {
    match t {
        TokenView::Tag(tag) => starts_classic(tag) || starts_module(tag),
        _ => false,
    }
}

/// The attributes with every `type` attribute removed.
pub open spec fn remove_type_attrs(attrs: Seq<AttributeView>) -> Seq<AttributeView>
    decreases attrs.len(),
{
    if attrs.len() == 0 {
        Seq::empty()
    } else if attrs[0].name == type_attr_name() {
        remove_type_attrs(attrs.skip(1))
    } else {
        seq![attrs[0]] + remove_type_attrs(attrs.skip(1))
    }
}

pub proof fn lemma_remove_type_attrs_snoc(attrs: Seq<AttributeView>, a: AttributeView)
    ensures
        remove_type_attrs(attrs.push(a)) == if a.name == type_attr_name() {
            remove_type_attrs(attrs)
        } else {
            remove_type_attrs(attrs).push(a)
        },
    decreases attrs.len(),
{
    if attrs.len() == 0 {
        assert(attrs.push(a)[0] == a);
        assert(attrs.push(a).skip(1) =~= Seq::<AttributeView>::empty());
        assert(remove_type_attrs(Seq::<AttributeView>::empty()) =~= Seq::<AttributeView>::empty());
        if a.name == type_attr_name() {
        } else {
            assert(seq![a] + Seq::<AttributeView>::empty() =~= Seq::<AttributeView>::empty().push(
                a,
            ));
        }
    } else {
        lemma_remove_type_attrs_snoc(attrs.skip(1), a);
        assert(attrs.push(a)[0] == attrs[0]);
        assert(attrs.push(a).skip(1) =~= attrs.skip(1).push(a));
        if attrs[0].name == type_attr_name() {
        } else if a.name == type_attr_name() {
        } else {
            assert(seq![attrs[0]] + remove_type_attrs(attrs.skip(1)).push(a) =~= (seq![attrs[0]]
                + remove_type_attrs(attrs.skip(1))).push(a));
        }
    }
}

/// The attributes with the first `type` attribute's value rewritten to
/// `module`.
pub open spec fn rewrite_type_attr(attrs: Seq<AttributeView>) -> Seq<AttributeView> {
    let i = type_attr_index(attrs);
    attrs.update(i, AttributeView { name: attrs[i].name, value: module_value() })
}

/// One transition of the document state machine.
///
/// Outside a script element: a tag that opens a classic TypeScript
/// element is rendered with its `type` attribute stripped; one that opens
/// a module element is rendered with the value rewritten to `module`; any
/// other token is rendered verbatim into the committed markup. Inside a
/// script element: the script end tag closes the element, turning the
/// buffer into a compile job whose options carry the element's mode;
/// every other token is rendered into the buffer.
pub open spec fn spec_step(d: DocumentView, t: TokenView) -> DocumentView {
    match t {
        TokenView::Characters(s) => spec_write(d, s),
        TokenView::Doctype(dt) => spec_write(d, spec_render_doctype(dt)),
        TokenView::Comment(c) => spec_write(d, spec_render_comment(c)),
        TokenView::NullCharacter => spec_write(d, seq!['\0']),
        TokenView::ParseError => d,
        TokenView::EndOfInput => d,
        TokenView::Tag(tag) => {
            if d.typescript_mode is Inactive {
                if starts_classic(tag) {
                    let stripped = TagView { attrs: remove_type_attrs(tag.attrs), ..tag };
                    let d2 = spec_write(d, spec_render_tag(stripped));
                    DocumentView { typescript_mode: TargetType::Classic, ..d2 }
                } else if starts_module(tag) {
                    let rewritten = TagView { attrs: rewrite_type_attr(tag.attrs), ..tag };
                    let d2 = spec_write(d, spec_render_tag(rewritten));
                    DocumentView { typescript_mode: TargetType::Module, ..d2 }
                } else {
                    spec_write(d, spec_render_tag(tag))
                }
            } else {
                if is_script_tag(tag) && tag.kind is End {
                    let job = ScriptJobView {
                        source: script_source_of(d.script_buffer),
                        indent: common_indent_of(d.script_buffer),
                        trailer: script_trailer_of(d.script_buffer),
                        options: OptionsView { module: d.typescript_mode is Module, ..d.options },
                    };
                    let d2 = DocumentView {
                        typescript_mode: TargetType::Inactive,
                        segments: d.segments.push(SegmentView::Script(job)),
                        script_buffer: Seq::empty(),
                        options: d.options,
                    };
                    spec_write(d2, spec_render_tag(tag))
                } else {
                    spec_write(d, spec_render_tag(tag))
                }
            }
        },
    }
}

fn find_type_attr(attrs: &Vec<Attribute>) -> (r: usize)
    ensures
        r as int == type_attr_index(attrs@.map_values(|a: Attribute| a@)),
        r <= attrs@.len(),
{
    let ghost views = attrs@.map_values(|a: Attribute| a@);
    proof {
        reveal_strlit("type");
        assert("type"@ =~= type_attr_name());
    }
    let mut i: usize = 0;
    while i < attrs.len()
        invariant
            i <= attrs@.len(),
            views == attrs@.map_values(|a: Attribute| a@),
            views.len() == attrs@.len(),
            "type"@ == type_attr_name(),
            forall|j: int| 0 <= j < i ==> (#[trigger] views[j]).name != type_attr_name(),
        decreases attrs@.len() - i,
    {
        assert(views[i as int] == attrs@[i as int]@);
        if crate::text::str_eq(attrs[i].name.as_str(), "type") {
            proof {
                lemma_type_attr_index_at(views, i as int);
            }
            return i;
        }
        i = i + 1;
    }
    proof {
        lemma_type_attr_index_at(views, views.len() as int);
    }
    attrs.len()
}

fn clone_attr(a: &Attribute) -> (r: Attribute)
    ensures
        r@ == a@,
{
    Attribute { name: a.name.clone(), value: a.value.clone() }
}

fn strip_type_attrs(attrs: &Vec<Attribute>) -> (r: Vec<Attribute>)
    ensures
        r@.map_values(|a: Attribute| a@) == remove_type_attrs(attrs@.map_values(|a: Attribute| a@)),
{
    let ghost views = attrs@.map_values(|a: Attribute| a@);
    proof {
        reveal_strlit("type");
        assert("type"@ =~= type_attr_name());
        assert(views.take(0) =~= Seq::<AttributeView>::empty());
        assert(remove_type_attrs(Seq::<AttributeView>::empty()) =~= Seq::<AttributeView>::empty());
    }
    let mut r: Vec<Attribute> = Vec::new();
    let mut i: usize = 0;
    proof {
        assert(r@.map_values(|a: Attribute| a@) =~= remove_type_attrs(views.take(0)));
    }
    while i < attrs.len()
        invariant
            i <= attrs@.len(),
            views == attrs@.map_values(|a: Attribute| a@),
            views.len() == attrs@.len(),
            "type"@ == type_attr_name(),
            r@.map_values(|a: Attribute| a@) == remove_type_attrs(views.take(i as int)),
        decreases attrs@.len() - i,
    {
        assert(views[i as int] == attrs@[i as int]@);
        let ghost old_r = r@.map_values(|a: Attribute| a@);
        if !crate::text::str_eq(attrs[i].name.as_str(), "type") {
            let copy = clone_attr(&attrs[i]);
            let ghost cv = copy@;
            r.push(copy);
            proof {
                assert(r@.map_values(|a: Attribute| a@) =~= old_r.push(cv));
            }
        }
        i = i + 1;
        proof {
            assert(views.take(i as int) =~= views.take(i - 1 as int).push(views[i - 1]));
            lemma_remove_type_attrs_snoc(views.take(i - 1 as int), views[i - 1]);
        }
    }
    proof {
        assert(views.take(views.len() as int) =~= views);
    }
    r
}

fn rewrite_type_attrs(attrs: &Vec<Attribute>, idx: usize) -> (r: Vec<Attribute>)
    requires
        idx < attrs@.len(),
        idx as int == type_attr_index(attrs@.map_values(|a: Attribute| a@)),
    ensures
        r@.map_values(|a: Attribute| a@) == rewrite_type_attr(attrs@.map_values(|a: Attribute| a@)),
{
    let ghost views = attrs@.map_values(|a: Attribute| a@);
    let ghost target = rewrite_type_attr(views);
    let mut r: Vec<Attribute> = Vec::new();
    let mut i: usize = 0;
    while i < attrs.len()
        invariant
            i <= attrs@.len(),
            idx < attrs@.len(),
            idx as int == type_attr_index(views),
            views == attrs@.map_values(|a: Attribute| a@),
            views.len() == attrs@.len(),
            target == rewrite_type_attr(views),
            target.len() == views.len(),
            r@.map_values(|a: Attribute| a@) == target.take(i as int),
        decreases attrs@.len() - i,
    {
        assert(views[i as int] == attrs@[i as int]@);
        let ghost old_r = r@.map_values(|a: Attribute| a@);
        if i == idx {
            let m = String::from_str("module");
            proof {
                reveal_strlit("module");
                assert("module"@ =~= module_value());
            }
            let replaced = Attribute { name: attrs[i].name.clone(), value: m };
            let ghost cv = replaced@;
            r.push(replaced);
            proof {
                assert(cv =~= target[i as int]);
                assert(r@.map_values(|a: Attribute| a@) =~= old_r.push(cv));
                assert(target.take(i + 1 as int) =~= target.take(i as int).push(target[i as int]));
            }
        } else {
            let copy = clone_attr(&attrs[i]);
            let ghost cv = copy@;
            r.push(copy);
            proof {
                assert(cv =~= target[i as int]);
                assert(r@.map_values(|a: Attribute| a@) =~= old_r.push(cv));
                assert(target.take(i + 1 as int) =~= target.take(i as int).push(target[i as int]));
            }
        }
        i = i + 1;
    }
    proof {
        assert(target.take(views.len() as int) =~= target);
    }
    r
}

impl Document {
    /// A fresh pass over one document.
    pub fn new(options: Options) -> (r: Document)
        ensures
            r@ == spec_init(options@),
    {
        let r = Document {
            options,
            typescript_mode: TargetType::Inactive,
            segments: Vec::new(),
            script_buffer: String::new(),
        };
        proof {
            assert(r.segments@.map_values(|s: Segment| s@) =~= Seq::<SegmentView>::empty());
            assert(r@ =~= spec_init(r.options@));
        }
        r
    }

    /// Writes text to the committed markup or to the script buffer,
    /// according to the mode.
    pub fn write_text(&mut self, text: &str)
        ensures
            final(self)@ == spec_write(old(self)@, text@),
    {
        let ghost d0 = self@;
        match self.typescript_mode {
            TargetType::Inactive => {
                let n = self.segments.len();
                if n > 0 {
                    let last = self.segments.pop();
                    match last {
                        Option::Some(Segment::Markup(mut m)) => {
                            m.append(text);
                            self.segments.push(Segment::Markup(m));
                            proof {
                                assert(self@.segments =~~= spec_write(d0, text@).segments);
                                assert(self@ =~= spec_write(d0, text@));
                            }
                        },
                        Option::Some(Segment::Script(j)) => {
                            self.segments.push(Segment::Script(j));
                            let mut m = String::new();
                            m.append(text);
                            self.segments.push(Segment::Markup(m));
                            proof {
                                assert(d0.segments.last() matches SegmentView::Script(_));
                                assert(self@.segments =~~= spec_write(d0, text@).segments);
                                assert(self@ =~= spec_write(d0, text@));
                            }
                        },
                        Option::None => {
                            proof {
                                assert(false);
                            }
                        },
                    }
                } else {
                    let mut m = String::new();
                    m.append(text);
                    self.segments.push(Segment::Markup(m));
                    proof {
                        assert(self@.segments =~~= spec_write(d0, text@).segments);
                        assert(self@ =~= spec_write(d0, text@));
                    }
                }
            },
            _ => {
                self.script_buffer.append(text);
                proof {
                    assert(self@ =~= spec_write(d0, text@));
                }
            },
        }
    }

    /// Feeds one token to the state machine.
    pub fn process_token(&mut self, token: &Token)
        ensures
            final(self)@ == spec_step(old(self)@, token@),
    {
        match token {
            Token::Characters(s) => {
                self.write_text(s.as_str());
            },
            Token::Doctype(d) => {
                let r = render_doctype(d);
                self.write_text(r.as_str());
            },
            Token::Comment(c) => {
                let r = render_comment(c.as_str());
                self.write_text(r.as_str());
            },
            Token::NullCharacter => {
                self.write_text("\0");
                proof {
                    reveal_strlit("\0");
                    assert("\0"@ =~= seq!['\0']);
                }
            },
            Token::ParseError => {},
            Token::EndOfInput => {},
            Token::Tag(tag) => {
                self.process_tag(tag);
            },
        }
    }

    fn process_tag(&mut self, tag: &Tag)
        ensures
            final(self)@ == spec_step(old(self)@, TokenView::Tag(tag@)),
    {
        let ghost d0 = self@;
        let ghost tv = tag@;
        proof {
            reveal_strlit("script");
            assert("script"@ =~= script_name());
        }
        let is_script = crate::text::str_eq_ci(tag.name.as_str(), "script");
        let inactive = matches!(self.typescript_mode, TargetType::Inactive);
        if inactive && is_script && matches!(tag.kind, TagKind::Start) {
            let idx = find_type_attr(&tag.attrs);
            let ghost avs = tag.attrs@.map_values(|a: Attribute| a@);
            assert(avs == tv.attrs);
            if idx < tag.attrs.len() {
                proof {
                    reveal_strlit("text/typescript");
                    reveal_strlit("application/typescript");
                    reveal_strlit("tsmodule");
                    reveal_strlit("module/typescript");
                    assert("text/typescript"@ =~= mime_text_typescript());
                    assert("application/typescript"@ =~= mime_application_typescript());
                    assert("tsmodule"@ =~= type_tsmodule());
                    assert("module/typescript"@ =~= type_module_typescript());
                    assert(avs[idx as int] == tag.attrs@[idx as int]@);
                }
                let val = &tag.attrs[idx].value;
                let classic = crate::text::str_eq_ci(val.as_str(), "text/typescript")
                    || crate::text::str_eq_ci(val.as_str(), "application/typescript");
                let module_type = crate::text::str_eq_ci(val.as_str(), "tsmodule")
                    || crate::text::str_eq_ci(val.as_str(), "module/typescript");
                if classic {
                    assert(starts_classic(tv));
                    let new_attrs = strip_type_attrs(&tag.attrs);
                    let t2 = Tag {
                        name: tag.name.clone(),
                        attrs: new_attrs,
                        kind: tag.kind,
                        self_closing: tag.self_closing,
                    };
                    assert(t2@ =~= TagView { attrs: remove_type_attrs(tv.attrs), ..tv });
                    let r = render_tag(&t2);
                    self.write_text(r.as_str());
                    self.typescript_mode = TargetType::Classic;
                    assert(self@ =~= spec_step(d0, TokenView::Tag(tv)));
                } else if module_type {
                    assert(starts_module(tv));
                    assert(!starts_classic(tv));
                    let new_attrs = rewrite_type_attrs(&tag.attrs, idx);
                    let t2 = Tag {
                        name: tag.name.clone(),
                        attrs: new_attrs,
                        kind: tag.kind,
                        self_closing: tag.self_closing,
                    };
                    assert(t2@ =~= TagView { attrs: rewrite_type_attr(tv.attrs), ..tv });
                    let r = render_tag(&t2);
                    self.write_text(r.as_str());
                    self.typescript_mode = TargetType::Module;
                    assert(self@ =~= spec_step(d0, TokenView::Tag(tv)));
                } else {
                    assert(!starts_classic(tv) && !starts_module(tv));
                    let r = render_tag(tag);
                    self.write_text(r.as_str());
                    assert(self@ =~= spec_step(d0, TokenView::Tag(tv)));
                }
            } else {
                assert(!has_type_attr(tv.attrs));
                assert(!starts_classic(tv) && !starts_module(tv));
                let r = render_tag(tag);
                self.write_text(r.as_str());
                assert(self@ =~= spec_step(d0, TokenView::Tag(tv)));
            }
        } else if !inactive && is_script && matches!(tag.kind, TagKind::End) {
            let source = dedent_script(self.script_buffer.as_str());
            let indent = common_indent(self.script_buffer.as_str());
            let trailer = script_trailer(self.script_buffer.as_str());
            let mut element_options = self.options.snapshot();
            element_options.module = matches!(self.typescript_mode, TargetType::Module);
            proof {
                assert(element_options@ =~= OptionsView {
                    module: d0.typescript_mode is Module,
                    ..d0.options
                });
            }
            let job = ScriptJob { source, indent, trailer, options: element_options };
            let ghost jv = job@;
            proof {
                assert(jv =~= ScriptJobView {
                    source: script_source_of(d0.script_buffer),
                    indent: common_indent_of(d0.script_buffer),
                    trailer: script_trailer_of(d0.script_buffer),
                    options: OptionsView { module: d0.typescript_mode is Module, ..d0.options },
                });
            }
            let ghost old_segs = self@.segments;
            self.segments.push(Segment::Script(job));
            self.script_buffer = String::new();
            self.typescript_mode = TargetType::Inactive;
            proof {
                assert(self@.segments =~~= old_segs.push(SegmentView::Script(jv)));
            }
            let ghost d2 = self@;
            let r = render_tag(tag);
            self.write_text(r.as_str());
            proof {
                assert(self@ =~= spec_step(d0, TokenView::Tag(tv)));
            }
        } else {
            let r = render_tag(tag);
            self.write_text(r.as_str());
            proof {
                if d0.typescript_mode is Inactive {
                    assert(!starts_classic(tv) && !starts_module(tv));
                } else {
                    assert(!(is_script_tag(tv) && tv.kind is End));
                }
                assert(self@ =~= spec_step(d0, TokenView::Tag(tv)));
            }
        }
    }
}

/// The failure taxonomy of one document transformation. Collaborator
/// failures are fatal for the whole document: no partial markup is
/// emitted.
#[derive(Debug, Clone, Copy, PartialEq, Eq, Structural)]
pub enum TransformError {
    /// A TypeScript script element never reached its end tag.
    UnterminatedScriptElement,
    /// The compiler rejected a script element's source.
    CompileError,
    /// The minifier failed on a script element's compiled text.
    MinifyError,
    /// The preprocessor failed on a script element's source.
    PreprocessError,
}

/// The machine run over a whole token stream, left to right.
pub open spec fn spec_run(d: DocumentView, tokens: Seq<TokenView>) -> DocumentView
    decreases tokens.len(),
{
    if tokens.len() == 0 {
        d
    } else {
        spec_run(spec_step(d, tokens[0]), tokens.skip(1))
    }
}

pub proof fn lemma_spec_run_snoc(d: DocumentView, tokens: Seq<TokenView>, t: TokenView)
    ensures
        spec_run(d, tokens.push(t)) == spec_step(spec_run(d, tokens), t),
    decreases tokens.len(),
{
    if tokens.len() == 0 {
        assert(tokens.push(t)[0] == t);
        assert(tokens.push(t).skip(1) =~= Seq::<TokenView>::empty());
        assert(spec_run(spec_step(d, t), Seq::<TokenView>::empty()) == spec_step(d, t));
        assert(spec_run(d, tokens) == d);
    } else {
        assert(tokens.push(t)[0] == tokens[0]);
        assert(tokens.push(t).skip(1) =~= tokens.skip(1).push(t));
        lemma_spec_run_snoc(spec_step(d, tokens[0]), tokens.skip(1), t);
    }
}

/// The views of a token list.
pub open spec fn token_views(ts: Seq<Token>) -> Seq<TokenView> {
    ts.map_values(|t: Token| t@)
}

/// Whether every committed segment is literal markup.
pub open spec fn all_markup(segs: Seq<SegmentView>) -> bool {
    forall|i: int| 0 <= i < segs.len() ==> segs[i] is Markup
}

/// The committed markup text, with script slots contributing nothing.
pub open spec fn concat_markup(segs: Seq<SegmentView>) -> Seq<char>
    decreases segs.len(),
{
    if segs.len() == 0 {
        Seq::empty()
    } else {
        (match segs[0] {
            SegmentView::Markup(m) => m,
            SegmentView::Script(_) => Seq::empty(),
        }) + concat_markup(segs.skip(1))
    }
}

pub proof fn lemma_concat_markup_snoc(segs: Seq<SegmentView>, s: SegmentView)
    ensures
        concat_markup(segs.push(s)) == concat_markup(segs) + (match s {
            SegmentView::Markup(m) => m,
            SegmentView::Script(_) => Seq::empty(),
        }),
    decreases segs.len(),
{
    let piece = match s {
        SegmentView::Markup(m) => m,
        SegmentView::Script(_) => Seq::<char>::empty(),
    };
    if segs.len() == 0 {
        assert(segs.push(s)[0] == s);
        assert(segs.push(s).skip(1) =~= Seq::<SegmentView>::empty());
        assert(concat_markup(Seq::<SegmentView>::empty()) =~= Seq::<char>::empty());
        assert(piece + Seq::<char>::empty() =~= piece);
        assert(Seq::<char>::empty() + piece =~= piece);
    } else {
        let head = match segs[0] {
            SegmentView::Markup(m) => m,
            SegmentView::Script(_) => Seq::<char>::empty(),
        };
        lemma_concat_markup_snoc(segs.skip(1), s);
        assert(segs.push(s)[0] == segs[0]);
        assert(segs.push(s).skip(1) =~= segs.skip(1).push(s));
        assert(concat_markup(segs.push(s)) == head + (concat_markup(segs.skip(1)) + piece));
        assert(head + (concat_markup(segs.skip(1)) + piece) =~= (head + concat_markup(
            segs.skip(1),
        )) + piece);
    }
}

/// What one token contributes to the committed markup while no script
/// element is open and no TypeScript element is being recognized.
pub open spec fn spec_render_token(t: TokenView) -> Seq<char> {
    match t {
        TokenView::Characters(s) => s,
        TokenView::Doctype(d) => spec_render_doctype(d),
        TokenView::Tag(tag) => spec_render_tag(tag),
        TokenView::Comment(c) => spec_render_comment(c),
        TokenView::NullCharacter => seq!['\0'],
        TokenView::ParseError => Seq::empty(),
        TokenView::EndOfInput => Seq::empty(),
    }
}

/// The renderings of a whole stream, concatenated.
pub open spec fn spec_render_stream(ts: Seq<TokenView>) -> Seq<char>
    decreases ts.len(),
{
    if ts.len() == 0 {
        Seq::empty()
    } else {
        spec_render_token(ts[0]) + spec_render_stream(ts.skip(1))
    }
}

/// Outside a script element, writing appends to the committed markup and
/// touches nothing else.
proof fn lemma_write_concat(d: DocumentView, t: Seq<char>)
    requires
        d.typescript_mode is Inactive,
    ensures
        spec_write(d, t).typescript_mode == d.typescript_mode,
        spec_write(d, t).options == d.options,
        spec_write(d, t).script_buffer == d.script_buffer,
        all_markup(d.segments) ==> all_markup(spec_write(d, t).segments),
        concat_markup(spec_write(d, t).segments) == concat_markup(d.segments) + t,
{
    if d.segments.len() > 0 && (d.segments.last() matches SegmentView::Markup(_)) {
        let m = match d.segments.last() {
            SegmentView::Markup(m) => m,
            SegmentView::Script(_) => Seq::empty(),
        };
        let pre = d.segments.drop_last();
        assert(d.segments =~= pre.push(d.segments.last()));
        lemma_concat_markup_snoc(pre, d.segments.last());
        let segs2 = spec_write(d, t).segments;
        assert(segs2 =~= pre.push(SegmentView::Markup(m + t)));
        lemma_concat_markup_snoc(pre, SegmentView::Markup(m + t));
        assert(concat_markup(pre) + (m + t) =~= (concat_markup(pre) + m) + t);
        if all_markup(d.segments) {
            assert forall|k: int| 0 <= k < segs2.len() implies (#[trigger] segs2[k]) is Markup by {
                if k < segs2.len() - 1 {
                    assert(segs2[k] == d.segments[k]);
                }
            }
        }
    } else {
        lemma_concat_markup_snoc(d.segments, SegmentView::Markup(t));
        let segs2 = spec_write(d, t).segments;
        if all_markup(d.segments) {
            assert forall|k: int| 0 <= k < segs2.len() implies (#[trigger] segs2[k]) is Markup by {
                if k < segs2.len() - 1 {
                    assert(segs2[k] == d.segments[k]);
                }
            }
        }
    }
}

/// Whitespace fidelity: over a stream that opens no TypeScript script
/// element, the machine stays out of script mode and commits exactly the
/// rendering of every token, byte for byte.
pub proof fn lemma_markup_fidelity(d: DocumentView, tokens: Seq<TokenView>)
    requires
        d.typescript_mode is Inactive,
        forall|i: int| 0 <= i < tokens.len() ==> !triggers_script(#[trigger] tokens[i]),
    ensures
        spec_run(d, tokens).typescript_mode is Inactive,
        spec_run(d, tokens).options == d.options,
        all_markup(d.segments) ==> all_markup(spec_run(d, tokens).segments),
        concat_markup(spec_run(d, tokens).segments) == concat_markup(d.segments)
            + spec_render_stream(tokens),
    decreases tokens.len(),
{
    if tokens.len() == 0 {
        assert(concat_markup(d.segments) + Seq::<char>::empty() =~= concat_markup(d.segments));
    } else {
        let t = tokens[0];
        assert(!triggers_script(t));
        let d1 = spec_step(d, t);
        match t {
            TokenView::ParseError => {
                assert(d1 == d);
                assert(concat_markup(d.segments) + Seq::<char>::empty() =~= concat_markup(
                    d.segments,
                ));
            },
            TokenView::EndOfInput => {
                assert(d1 == d);
                assert(concat_markup(d.segments) + Seq::<char>::empty() =~= concat_markup(
                    d.segments,
                ));
            },
            _ => {
                assert(d1 == spec_write(d, spec_render_token(t)));
                lemma_write_concat(d, spec_render_token(t));
            },
        }
        assert(forall|i: int|
            0 <= i < tokens.skip(1).len() ==> !triggers_script(#[trigger] tokens.skip(1)[i]));
        lemma_markup_fidelity(d1, tokens.skip(1));
        assert(concat_markup(spec_run(d, tokens).segments) == (concat_markup(d.segments)
            + spec_render_token(t)) + spec_render_stream(tokens.skip(1)));
        assert((concat_markup(d.segments) + spec_render_token(t)) + spec_render_stream(
            tokens.skip(1),
        ) =~= concat_markup(d.segments) + (spec_render_token(t) + spec_render_stream(
            tokens.skip(1),
        )));
    }
}

proof fn lemma_prefix_append(x: Seq<char>, y: Seq<char>)
    ensures
        x.is_prefix_of(x + y),
{
    assert((x + y).subrange(0, x.len() as int) =~= x);
}

/// The committed output is append-only: no step of the machine rewrites
/// or drops markup that was already committed.
pub proof fn lemma_committed_output_grows(d: DocumentView, t: TokenView)
    ensures
        concat_markup(d.segments).is_prefix_of(concat_markup(spec_step(d, t).segments)),
{
    let c0 = concat_markup(d.segments);
    assert(c0.is_prefix_of(c0)) by {
        assert(c0.subrange(0, c0.len() as int) =~= c0);
    }
    if d.typescript_mode is Inactive {
        match t {
            TokenView::Characters(s) => {
                lemma_write_concat(d, s);
                lemma_prefix_append(c0, s);
            },
            TokenView::Doctype(dt) => {
                lemma_write_concat(d, spec_render_doctype(dt));
                lemma_prefix_append(c0, spec_render_doctype(dt));
            },
            TokenView::Comment(c) => {
                lemma_write_concat(d, spec_render_comment(c));
                lemma_prefix_append(c0, spec_render_comment(c));
            },
            TokenView::NullCharacter => {
                lemma_write_concat(d, seq!['\0']);
                lemma_prefix_append(c0, seq!['\0']);
            },
            TokenView::ParseError => {},
            TokenView::EndOfInput => {},
            TokenView::Tag(tag) => {
                if starts_classic(tag) {
                    let x = spec_render_tag(TagView { attrs: remove_type_attrs(tag.attrs), ..tag });
                    lemma_write_concat(d, x);
                    lemma_prefix_append(c0, x);
                } else if starts_module(tag) {
                    let x = spec_render_tag(TagView { attrs: rewrite_type_attr(tag.attrs), ..tag });
                    lemma_write_concat(d, x);
                    lemma_prefix_append(c0, x);
                } else {
                    lemma_write_concat(d, spec_render_tag(tag));
                    lemma_prefix_append(c0, spec_render_tag(tag));
                }
            },
        }
    } else {
        match t {
            TokenView::Tag(tag) => {
                if is_script_tag(tag) && tag.kind is End {
                    let job = ScriptJobView {
                        source: script_source_of(d.script_buffer),
                        indent: common_indent_of(d.script_buffer),
                        trailer: script_trailer_of(d.script_buffer),
                        options: OptionsView { module: d.typescript_mode is Module, ..d.options },
                    };
                    let d2 = DocumentView {
                        typescript_mode: TargetType::Inactive,
                        segments: d.segments.push(SegmentView::Script(job)),
                        script_buffer: Seq::empty(),
                        options: d.options,
                    };
                    lemma_concat_markup_snoc(d.segments, SegmentView::Script(job));
                    assert(concat_markup(d2.segments) =~= c0);
                    lemma_write_concat(d2, spec_render_tag(tag));
                    lemma_prefix_append(c0, spec_render_tag(tag));
                }
            },
            _ => {},
        }
    }
}

/// The committed segments with each script slot filled from the list of
/// replacement texts, one entry per segment (entries at markup positions
/// are ignored).
pub open spec fn splice(segs: Seq<SegmentView>, repl: Seq<Seq<char>>) -> Seq<char>
    decreases segs.len(),
{
    if segs.len() == 0 {
        Seq::empty()
    } else {
        (match segs[0] {
            SegmentView::Markup(m) => m,
            SegmentView::Script(_) => repl[0],
        }) + splice(segs.skip(1), repl.skip(1))
    }
}

pub proof fn lemma_splice_snoc(segs: Seq<SegmentView>, repl: Seq<Seq<char>>, s: SegmentView, r: Seq<
    char,
>)
    requires
        repl.len() == segs.len(),
    ensures
        splice(segs.push(s), repl.push(r)) == splice(segs, repl) + (match s {
            SegmentView::Markup(m) => m,
            SegmentView::Script(_) => r,
        }),
    decreases segs.len(),
{
    let piece = match s {
        SegmentView::Markup(m) => m,
        SegmentView::Script(_) => r,
    };
    if segs.len() == 0 {
        assert(segs.push(s)[0] == s);
        assert(repl.push(r)[0] == r);
        assert(segs.push(s).skip(1) =~= Seq::<SegmentView>::empty());
        assert(repl.push(r).skip(1) =~= Seq::<Seq<char>>::empty());
        assert(splice(Seq::<SegmentView>::empty(), Seq::<Seq<char>>::empty()) =~= Seq::<
            char,
        >::empty());
        assert(piece + Seq::<char>::empty() =~= piece);
        assert(Seq::<char>::empty() + piece =~= piece);
    } else {
        let head = match segs[0] {
            SegmentView::Markup(m) => m,
            SegmentView::Script(_) => repl[0],
        };
        assert(segs.push(s)[0] == segs[0]);
        assert(repl.push(r)[0] == repl[0]);
        assert(segs.push(s).skip(1) =~= segs.skip(1).push(s));
        assert(repl.push(r).skip(1) =~= repl.skip(1).push(r));
        lemma_splice_snoc(segs.skip(1), repl.skip(1), s, r);
        assert(splice(segs.push(s), repl.push(r)) == head + (splice(segs.skip(1), repl.skip(1))
            + piece));
        assert(head + (splice(segs.skip(1), repl.skip(1)) + piece) =~= (head + splice(
            segs.skip(1),
            repl.skip(1),
        )) + piece);
    }
}

/// Running a stream is running its parts one after the other.
pub proof fn lemma_spec_run_concat(d: DocumentView, a: Seq<TokenView>, b: Seq<TokenView>)
    ensures
        spec_run(d, a + b) == spec_run(spec_run(d, a), b),
    decreases a.len(),
{
    if a.len() == 0 {
        assert(a + b =~= b);
        assert(spec_run(d, a) == d);
    } else {
        assert((a + b)[0] == a[0]);
        assert((a + b).skip(1) =~= a.skip(1) + b);
        lemma_spec_run_concat(spec_step(d, a[0]), a.skip(1), b);
    }
}

/// The whole run of one classic TypeScript script element, end to end:
/// from any state with no element open and an empty buffer, the opening
/// tag is committed with its `type` attribute stripped, the body becomes
/// one script job — dedented source, common indent, trailing whitespace
/// line, and a per-element snapshot with `module` off — and the closing
/// tag is committed after the job's slot. Spliced through the contract of
/// `transform_tokens`, the element's output is the stripped opening tag,
/// a newline, the compiled body reindented, the restored trailer and the
/// closing tag, with the surrounding markup untouched.
pub proof fn lemma_script_element_run(
    d: DocumentView,
    open_tag: TagView,
    body: Seq<char>,
    close_tag: TagView,
)
    requires
        d.typescript_mode is Inactive,
        d.script_buffer == Seq::<char>::empty(),
        starts_classic(open_tag),
        is_script_tag(close_tag),
        close_tag.kind is End,
    ensures
        ({
            let tokens = seq![
                TokenView::Tag(open_tag),
                TokenView::Characters(body),
                TokenView::Tag(close_tag),
            ];
            let stripped = TagView { attrs: remove_type_attrs(open_tag.attrs), ..open_tag };
            let job = ScriptJobView {
                source: script_source_of(body),
                indent: common_indent_of(body),
                trailer: script_trailer_of(body),
                options: OptionsView { module: false, ..d.options },
            };
            let fin = spec_run(d, tokens);
            &&& fin.typescript_mode is Inactive
            &&& fin.options == d.options
            &&& fin.script_buffer == Seq::<char>::empty()
            &&& fin.segments == spec_write(d, spec_render_tag(stripped)).segments.push(
                SegmentView::Script(job),
            ).push(SegmentView::Markup(spec_render_tag(close_tag)))
        }),
{
    let tokens = seq![
        TokenView::Tag(open_tag),
        TokenView::Characters(body),
        TokenView::Tag(close_tag),
    ];
    let stripped = TagView { attrs: remove_type_attrs(open_tag.attrs), ..open_tag };
    let d1 = spec_step(d, tokens[0]);
    let d2 = spec_step(d1, tokens[1]);
    let d3 = spec_step(d2, tokens[2]);
    assert(tokens.skip(1) =~= seq![TokenView::Characters(body), TokenView::Tag(close_tag)]);
    assert(tokens.skip(1).skip(1) =~= seq![TokenView::Tag(close_tag)]);
    assert(tokens.skip(1).skip(1).skip(1) =~= Seq::<TokenView>::empty());
    assert(tokens[0] == TokenView::Tag(open_tag));
    assert(tokens.skip(1)[0] == TokenView::Characters(body));
    assert(tokens.skip(1).skip(1)[0] == TokenView::Tag(close_tag));
    assert(spec_run(d, tokens) == spec_run(d1, tokens.skip(1)));
    assert(spec_run(d1, tokens.skip(1)) == spec_run(d2, tokens.skip(1).skip(1)));
    assert(spec_run(d2, tokens.skip(1).skip(1)) == spec_run(d3, tokens.skip(1).skip(1).skip(1)));
    assert(spec_run(d3, Seq::<TokenView>::empty()) == d3);
    assert(spec_run(d, tokens) == d3);
    assert(d1 == DocumentView {
        typescript_mode: TargetType::Classic,
        ..spec_write(d, spec_render_tag(stripped))
    });
    assert(d2.script_buffer == body) by {
        assert(Seq::<char>::empty() + body =~= body);
    }
    assert(d2.segments == d1.segments);
    assert(d2.options == d.options);
    let job = ScriptJobView {
        source: script_source_of(body),
        indent: common_indent_of(body),
        trailer: script_trailer_of(body),
        options: OptionsView { module: false, ..d.options },
    };
    let d3a = DocumentView {
        typescript_mode: TargetType::Inactive,
        segments: d2.segments.push(SegmentView::Script(job)),
        script_buffer: Seq::empty(),
        options: d2.options,
    };
    assert(d3 == spec_write(d3a, spec_render_tag(close_tag)));
    assert(d3a.segments.len() > 0 && d3a.segments.last() is Script);
    assert(d3.segments == d3a.segments.push(SegmentView::Markup(spec_render_tag(close_tag))));
}

/// The text that replaces a script element's body, given the compiled
/// text: a newline, the reindented compilation, and the restored trailing
/// whitespace line where there was one.
pub open spec fn replacement_of(compiled: Seq<char>, job: ScriptJobView) -> Seq<char> {
    seq!['\n'] + reindent_text(compiled, job.indent) + (match job.trailer {
        Option::Some(t) => seq!['\n'] + t,
        Option::None => Seq::empty(),
    })
}

/// Recompiles one buffered script element: preprocesses if asked,
/// compiles or transpiles per the mode, minifies if asked, then reindents
/// the result and restores the trailing whitespace line.
///
/// The compiler, transpiler, minifier and preprocessor are outside
/// services, so the compiled text itself cannot be pinned down; what is
/// promised is the shape of every successful result, and that a run with
/// nothing to do returns the source itself, reindented.
pub fn recompile<S: Toolchain>(job: &ScriptJob, host: &mut S) -> (r: Result<
    String,
    TransformError,
>)
    ensures
        r matches Ok(out) ==> exists|c: Seq<char>| out@ == replacement_of(c, job@),
        r matches Err(e) ==> e != TransformError::UnterminatedScriptElement,
        !job@.options.preprocess ==> r != Result::<String, TransformError>::Err(
            TransformError::PreprocessError,
        ),
        !job@.options.minify ==> r != Result::<String, TransformError>::Err(
            TransformError::MinifyError,
        ),
        job@.options.ts is Preserve ==> r != Result::<String, TransformError>::Err(
            TransformError::CompileError,
        ),
        job@.options.ts is Preserve && !job@.options.preprocess && !job@.options.minify ==> (
        r matches Ok(out) && out@ == replacement_of(job@.source, job@)),
{
    let mut text = job.source.clone();
    if job.options.preprocess {
        text = match crate::wave::preprocess(text, &job.options, host) {
            Option::Some(t) => t,
            Option::None => {
                return Result::Err(TransformError::PreprocessError);
            },
        };
    }
    match job.options.ts {
        TSMode::Compile => {
            let copts = job.options.compile_options();
            text = match host.compile(text, &copts) {
                Option::Some(t) => t,
                Option::None => {
                    return Result::Err(TransformError::CompileError);
                },
            };
        },
        TSMode::Transpile => {
            let copts = job.options.compile_options();
            text = match host.transpile(text, &copts) {
                Option::Some(t) => t,
                Option::None => {
                    return Result::Err(TransformError::CompileError);
                },
            };
        },
        TSMode::Preserve => {},
    }
    if job.options.minify {
        text = match crate::minify::minify(text, &job.options, host) {
            Option::Some(t) => t,
            Option::None => {
                return Result::Err(TransformError::MinifyError);
            },
        };
    }
    let reindented = crate::indent::reindent_script(text.as_str(), job.indent.as_str());
    let mut out = String::from_str("\n");
    proof {
        reveal_strlit("\n");
        assert("\n"@ =~= seq!['\n']);
    }
    out.append(reindented.as_str());
    match &job.trailer {
        Option::Some(t) => {
            out.append("\n");
            out.append(t.as_str());
        },
        Option::None => {},
    }
    proof {
        assert(out@ =~= replacement_of(text@, job@));
    }
    Result::Ok(out)
}

/// Transforms a whole token stream under the given options.
///
/// The run is the fold of the state machine over the stream. A stream
/// that leaves a script element open fails with
/// `UnterminatedScriptElement`; a stream that opened no TypeScript script
/// element at all comes back as exactly the committed markup, byte for
/// byte.
pub fn transform_tokens<S: Toolchain>(
    tokens: &Vec<Token>,
    options: &Options,
    host: &mut S,
) -> (r: Result<String, TransformError>)
    ensures
        ({
            let fin = spec_run(spec_init(options@), token_views(tokens@));
            &&& !(fin.typescript_mode is Inactive) ==> r == Result::<String, TransformError>::Err(
                TransformError::UnterminatedScriptElement,
            )
            &&& (fin.typescript_mode is Inactive && all_markup(fin.segments)) ==> (
            r matches Ok(out) && out@ == concat_markup(fin.segments))
            &&& r matches Ok(out) ==> exists|repl: Seq<Seq<char>>|
                {
                    &&& repl.len() == fin.segments.len()
                    &&& out@ == splice(fin.segments, repl)
                    &&& forall|k: int|
                        0 <= k < fin.segments.len() ==> ((#[trigger] fin.segments[k]) matches
                        SegmentView::Script(job) ==> exists|c: Seq<char>| repl[k] == replacement_of(
                            c,
                            job,
                        ))
                }
            &&& (forall|i: int|
                0 <= i < token_views(tokens@).len() ==> !triggers_script(
                    #[trigger] token_views(tokens@)[i],
                )) ==> (r matches Ok(out) && out@ == spec_render_stream(token_views(tokens@)))
        }),
{
    proof {
        let views0 = token_views(tokens@);
        if forall|i: int| 0 <= i < views0.len() ==> !triggers_script(#[trigger] views0[i]) {
            lemma_markup_fidelity(spec_init(options@), views0);
            assert(Seq::<char>::empty() + spec_render_stream(views0) =~= spec_render_stream(
                views0,
            ));
        }
    }
    let mut doc = Document::new(options.snapshot());
    let ghost views = token_views(tokens@);
    let mut i: usize = 0;
    proof {
        assert(views.take(0) =~= Seq::<TokenView>::empty());
    }
    while i < tokens.len()
        invariant
            i <= tokens@.len(),
            views == token_views(tokens@),
            views.len() == tokens@.len(),
            doc@ == spec_run(spec_init(options@), views.take(i as int)),
        decreases tokens@.len() - i,
    {
        assert(views[i as int] == tokens@[i as int]@);
        doc.process_token(&tokens[i]);
        i = i + 1;
        proof {
            assert(views.take(i as int) =~= views.take(i - 1 as int).push(views[i - 1]));
            lemma_spec_run_snoc(spec_init(options@), views.take(i - 1 as int), views[i - 1]);
        }
    }
    proof {
        assert(views.take(views.len() as int) =~= views);
    }
    let ghost fin = doc@;
    if !matches!(doc.typescript_mode, TargetType::Inactive) {
        return Result::Err(TransformError::UnterminatedScriptElement);
    }
    let mut out = String::new();
    let mut j: usize = 0;
    let ghost mut repls: Seq<Seq<char>> = Seq::empty();
    proof {
        assert(fin.segments.take(0) =~= Seq::<SegmentView>::empty());
    }
    while j < doc.segments.len()
        invariant
            j <= doc.segments@.len(),
            doc@ == fin,
            fin == spec_run(spec_init(options@), token_views(tokens@)),
            fin.typescript_mode is Inactive,
            fin.segments.len() == doc.segments@.len(),
            repls.len() == j,
            out@ == splice(fin.segments.take(j as int), repls),
            forall|k: int|
                0 <= k < j ==> ((#[trigger] fin.segments[k]) matches SegmentView::Script(job)
                    ==> exists|c: Seq<char>| repls[k] == replacement_of(c, job)),
            all_markup(fin.segments.take(j as int)) ==> out@ == concat_markup(
                fin.segments.take(j as int),
            ),
        decreases doc.segments@.len() - j,
    {
        assert(fin.segments[j as int] == doc.segments@[j as int]@);
        let ghost seg = fin.segments[j as int];
        let ghost old_repls = repls;
        match &doc.segments[j] {
            Segment::Markup(m) => {
                out.append(m.as_str());
                proof {
                    repls = repls.push(Seq::<char>::empty());
                }
            },
            Segment::Script(job) => {
                proof {
                    assert(seg is Script);
                    assert(!all_markup(fin.segments));
                    let views0 = token_views(tokens@);
                    if forall|i: int| 0 <= i < views0.len() ==> !triggers_script(
                        #[trigger] views0[i],
                    ) {
                        lemma_markup_fidelity(spec_init(options@), views0);
                    }
                }
                let repl = match recompile(job, host) {
                    Result::Ok(t) => t,
                    Result::Err(e) => {
                        return Result::Err(e);
                    },
                };
                out.append(repl.as_str());
                proof {
                    repls = repls.push(repl@);
                }
            },
        }
        j = j + 1;
        proof {
            let pre = fin.segments.take(j - 1 as int);
            let now = fin.segments.take(j as int);
            assert(now =~= pre.push(seg));
            lemma_concat_markup_snoc(pre, seg);
            lemma_splice_snoc(pre, old_repls, seg, repls[j - 1]);
            assert(repls =~= old_repls.push(repls[j - 1]));
            if seg is Script {
                assert(now[j - 1] is Script);
                assert(!all_markup(now));
            } else if all_markup(now) {
                assert forall|k: int| 0 <= k < pre.len() implies (#[trigger] pre[k]) is Markup by {
                    assert(now[k] == pre[k]);
                }
            }
        }
    }
    proof {
        assert(fin.segments.take(fin.segments.len() as int) =~= fin.segments);
    }
    Result::Ok(out)
}

/// Transforms a markup document: tokenizes it through the host's
/// tokenizer, runs the state machine, and splices the recompiled script
/// elements back in. The tokenizer is an outside service, so nothing can
/// be promised of the result here; the exact contract lives on
/// `transform_tokens`, which takes the token stream itself.
pub fn compile_html<S: Toolchain>(text: String, options: &Options, host: &mut S) -> Option<
    String,
> {
    let tokens = host.tokenize(text);
    match transform_tokens(&tokens, options, host) {
        Result::Ok(t) => Option::Some(t),
        Result::Err(_) => Option::None,
    }
}

} // verus!

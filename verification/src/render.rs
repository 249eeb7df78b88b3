//! The tag serializer: renders tags, doctypes and comments back to markup
//! text with deterministic attribute quoting.
//!
//! Quoting rule, for an attribute with a non-empty value: a value holding
//! double quotes but no single quotes is wrapped in single quotes unescaped;
//! one holding single quotes but no double quotes is wrapped in double
//! quotes unescaped; otherwise it is wrapped in double quotes with every
//! double quote written as `&quot;`. An attribute with an empty value
//! renders as its bare name. End tags carry no attributes.

use vstd::prelude::*;

use crate::tokens::{Attribute, AttributeView, Doctype, DoctypeView, Tag, TagKind, TagView};

verus! {

/// The text of the `&quot;` entity.
pub open spec fn quot_entity() -> Seq<char> {
    seq!['&', 'q', 'u', 'o', 't', ';']
}

/// The value text with every double quote escaped as `&quot;`.
pub open spec fn escape_quot(s: Seq<char>) -> Seq<char>
    decreases s.len(),
{
    if s.len() == 0 {
        Seq::empty()
    } else {
        (if s[0] == '"' {
            quot_entity()
        } else {
            seq![s[0]]
        }) + escape_quot(s.skip(1))
    }
}

pub proof fn lemma_escape_quot_snoc(s: Seq<char>, c: char)
    ensures
        escape_quot(s.push(c)) == escape_quot(s) + (if c == '"' {
            quot_entity()
        } else {
            seq![c]
        }),
    decreases s.len(),
{
    let piece = if c == '"' {
        quot_entity()
    } else {
        seq![c]
    };
    if s.len() == 0 {
        assert(s.push(c)[0] == c);
        assert(s.push(c).skip(1) =~= Seq::<char>::empty());
        assert(escape_quot(s.push(c)) == piece + escape_quot(Seq::<char>::empty()));
        assert(piece + Seq::<char>::empty() =~= piece);
        assert(Seq::<char>::empty() + piece =~= piece);
    } else {
        let head = if s[0] == '"' {
            quot_entity()
        } else {
            seq![s[0]]
        };
        assert(s.push(c)[0] == s[0]);
        assert(s.push(c).skip(1) =~= s.skip(1).push(c));
        lemma_escape_quot_snoc(s.skip(1), c);
        assert(escape_quot(s.push(c)) == head + (escape_quot(s.skip(1)) + piece));
        assert(head + (escape_quot(s.skip(1)) + piece) =~= (head + escape_quot(s.skip(1))) + piece);
    }
}

/// One rendered attribute, leading space included.
pub open spec fn spec_render_attr(a: AttributeView) -> Seq<char> {
    if a.value.len() == 0 {
        seq![' '] + a.name
    } else if a.value.contains('"') && !a.value.contains('\'') {
        seq![' '] + a.name + seq!['=', '\''] + a.value + seq!['\'']
    } else if a.value.contains('\'') && !a.value.contains('"') {
        seq![' '] + a.name + seq!['=', '"'] + a.value + seq!['"']
    } else {
        seq![' '] + a.name + seq!['=', '"'] + escape_quot(a.value) + seq!['"']
    }
}

/// All rendered attributes, in order.
pub open spec fn spec_render_attrs(attrs: Seq<AttributeView>) -> Seq<char>
    decreases attrs.len(),
{
    if attrs.len() == 0 {
        Seq::empty()
    } else {
        spec_render_attr(attrs[0]) + spec_render_attrs(attrs.skip(1))
    }
}

pub proof fn lemma_render_attrs_snoc(attrs: Seq<AttributeView>, a: AttributeView)
    ensures
        spec_render_attrs(attrs.push(a)) == spec_render_attrs(attrs) + spec_render_attr(a),
    decreases attrs.len(),
{
    if attrs.len() == 0 {
        assert(attrs.push(a)[0] == a);
        assert(attrs.push(a).skip(1) =~= Seq::<AttributeView>::empty());
        assert(spec_render_attrs(attrs.push(a)) == spec_render_attr(a) + spec_render_attrs(
            Seq::<AttributeView>::empty(),
        ));
        assert(spec_render_attr(a) + Seq::<char>::empty() =~= spec_render_attr(a));
        assert(Seq::<char>::empty() + spec_render_attr(a) =~= spec_render_attr(a));
    } else {
        assert(attrs.push(a)[0] == attrs[0]);
        assert(attrs.push(a).skip(1) =~= attrs.skip(1).push(a));
        lemma_render_attrs_snoc(attrs.skip(1), a);
        assert(spec_render_attrs(attrs.push(a)) == spec_render_attr(attrs[0]) + (spec_render_attrs(
            attrs.skip(1),
        ) + spec_render_attr(a)));
        assert(spec_render_attr(attrs[0]) + (spec_render_attrs(attrs.skip(1)) + spec_render_attr(a))
            =~= (spec_render_attr(attrs[0]) + spec_render_attrs(attrs.skip(1))) + spec_render_attr(
            a,
        ));
    }
}

/// A rendered tag. A self-closing tag renders as `<name attrs/>`, a start
/// tag as `<name attrs>`, an end tag as `</name>`.
pub open spec fn spec_render_tag(t: TagView) -> Seq<char> {
    if t.self_closing {
        seq!['<'] + t.name + spec_render_attrs(t.attrs) + seq!['/', '>']
    } else {
        match t.kind {
            TagKind::Start => seq!['<'] + t.name + spec_render_attrs(t.attrs) + seq!['>'],
            TagKind::End => seq!['<', '/'] + t.name + seq!['>'],
        }
    }
}

/// A rendered doctype: `<!DOCTYPE ` then the name if present, then
/// ` PUBLIC "publicId"` if present, then ` "systemId"` if present, then `>`.
pub open spec fn spec_render_doctype(d: DoctypeView) -> Seq<char> {
    seq!['<', '!', 'D', 'O', 'C', 'T', 'Y', 'P', 'E', ' '] + (match d.name {
        Option::Some(n) => n,
        Option::None => Seq::empty(),
    }) + (match d.public_id {
        Option::Some(p) => seq![' ', 'P', 'U', 'B', 'L', 'I', 'C', ' ', '"'] + p + seq!['"'],
        Option::None => Seq::empty(),
    }) + (match d.system_id {
        Option::Some(s) => seq![' ', '"'] + s + seq!['"'],
        Option::None => Seq::empty(),
    }) + seq!['>']
}

/// A rendered comment: the text wrapped in `<!--` and `-->`, verbatim.
pub open spec fn spec_render_comment(c: Seq<char>) -> Seq<char> {
    seq!['<', '!', '-', '-'] + c + seq!['-', '-', '>']
}

/// Appends the rendering of one attribute.
fn render_attr_into(out: &mut String, a: &Attribute)
    ensures
        final(out)@ == old(out)@ + spec_render_attr(a@),
{
    out.append(" ");
    proof {
        reveal_strlit(" ");
        assert(" "@ =~= seq![' ']);
    }
    out.append(a.name.as_str());
    if a.value.as_str().is_empty() {
        assert(out@ =~= old(out)@ + spec_render_attr(a@));
        return ;
    }
    let has_dq = crate::text::contains_char(a.value.as_str(), '"');
    let has_sq = crate::text::contains_char(a.value.as_str(), '\'');
    if has_dq && !has_sq {
        out.append("='");
        out.append(a.value.as_str());
        out.append("'");
        proof {
            reveal_strlit("='");
            reveal_strlit("'");
            assert("='"@ =~= seq!['=', '\'']);
            assert("'"@ =~= seq!['\'']);
            assert(out@ =~= old(out)@ + spec_render_attr(a@));
        }
    } else if has_sq && !has_dq {
        out.append("=\"");
        out.append(a.value.as_str());
        out.append("\"");
        proof {
            reveal_strlit("=\"");
            reveal_strlit("\"");
            assert("=\""@ =~= seq!['=', '"']);
            assert("\""@ =~= seq!['"']);
            assert(out@ =~= old(out)@ + spec_render_attr(a@));
        }
    } else {
        out.append("=\"");
        proof {
            reveal_strlit("=\"");
            assert("=\""@ =~= seq!['=', '"']);
        }
        let ghost mid = out@;
        let v = &a.value;
        let n = v.as_str().unicode_len();
        let mut i: usize = 0;
        while i < n
            invariant
                i <= n,
                n == v@.len(),
                out@ == mid + escape_quot(v@.take(i as int)),
            decreases n - i,
        {
            let c = v.as_str().get_char(i);
            if c == '"' {
                out.append("&quot;");
                proof {
                    reveal_strlit("&quot;");
                    assert("&quot;"@ =~= quot_entity());
                }
            } else {
                crate::text::push_char(out, c);
            }
            i = i + 1;
            proof {
                assert(v@.take(i as int) =~= v@.take(i - 1 as int).push(v@[i - 1]));
                lemma_escape_quot_snoc(v@.take(i - 1 as int), v@[i - 1]);
                if v@[i - 1] == '"' {
                    assert(out@ =~= mid + escape_quot(v@.take(i as int)));
                } else {
                    assert(seq![v@[i - 1]] =~= Seq::<char>::empty().push(v@[i - 1]));
                    assert(out@ =~= mid + escape_quot(v@.take(i as int)));
                }
            }
        }
        out.append("\"");
        proof {
            reveal_strlit("\"");
            assert("\""@ =~= seq!['"']);
            assert(v@.take(n as int) =~= v@);
            assert(out@ =~= old(out)@ + spec_render_attr(a@));
        }
    }
}

/// Appends the rendering of every attribute, in order.
fn render_attrs_into(out: &mut String, attrs: &Vec<Attribute>)
    ensures
        final(out)@ == old(out)@ + spec_render_attrs(attrs@.map_values(|a: Attribute| a@)),
{
    let ghost views = attrs@.map_values(|a: Attribute| a@);
    let mut i: usize = 0;
    while i < attrs.len()
        invariant
            i <= attrs@.len(),
            views == attrs@.map_values(|a: Attribute| a@),
            out@ == old(out)@ + spec_render_attrs(views.take(i as int)),
        decreases attrs@.len() - i,
    {
        render_attr_into(out, &attrs[i]);
        i = i + 1;
        proof {
            assert(views.take(i as int) =~= views.take(i - 1 as int).push(views[i - 1]));
            lemma_render_attrs_snoc(views.take(i - 1 as int), views[i - 1]);
            assert(views[i - 1] == attrs@[i - 1]@);
        }
    }
    proof {
        assert(views.take(attrs@.len() as int) =~= views);
    }
}

/// Renders one tag to markup text.
pub fn render_tag(tag: &Tag) -> (r: String)
    ensures
        r@ == spec_render_tag(tag@),
{
    let mut out = String::new();
    if tag.self_closing {
        out.append("<");
        out.append(tag.name.as_str());
        render_attrs_into(&mut out, &tag.attrs);
        out.append("/>");
        proof {
            reveal_strlit("<");
            reveal_strlit("/>");
            assert("<"@ =~= seq!['<']);
            assert("/>"@ =~= seq!['/', '>']);
            assert(out@ =~= spec_render_tag(tag@));
        }
    } else {
        match tag.kind {
            TagKind::Start => {
                out.append("<");
                out.append(tag.name.as_str());
                render_attrs_into(&mut out, &tag.attrs);
                out.append(">");
                proof {
                    reveal_strlit("<");
                    reveal_strlit(">");
                    assert("<"@ =~= seq!['<']);
                    assert(">"@ =~= seq!['>']);
                    assert(out@ =~= spec_render_tag(tag@));
                }
            },
            TagKind::End => {
                out.append("</");
                out.append(tag.name.as_str());
                out.append(">");
                proof {
                    reveal_strlit("</");
                    reveal_strlit(">");
                    assert("</"@ =~= seq!['<', '/']);
                    assert(">"@ =~= seq!['>']);
                    assert(out@ =~= spec_render_tag(tag@));
                }
            },
        }
    }
    out
}

/// Renders a doctype declaration.
pub fn render_doctype(d: &Doctype) -> (r: String)
    ensures
        r@ == spec_render_doctype(d@),
{
    let mut out = String::new();
    out.append("<!DOCTYPE ");
    proof {
        reveal_strlit("<!DOCTYPE ");
        assert("<!DOCTYPE "@ =~= seq!['<', '!', 'D', 'O', 'C', 'T', 'Y', 'P', 'E', ' ']);
    }
    match &d.name {
        Option::Some(n) => out.append(n.as_str()),
        Option::None => {},
    }
    match &d.public_id {
        Option::Some(p) => {
            out.append(" PUBLIC \"");
            out.append(p.as_str());
            out.append("\"");
            proof {
                reveal_strlit(" PUBLIC \"");
                reveal_strlit("\"");
                assert(" PUBLIC \""@ =~= seq![' ', 'P', 'U', 'B', 'L', 'I', 'C', ' ', '"']);
                assert("\""@ =~= seq!['"']);
            }
        },
        Option::None => {},
    }
    match &d.system_id {
        Option::Some(s) => {
            out.append(" \"");
            out.append(s.as_str());
            out.append("\"");
            proof {
                reveal_strlit(" \"");
                reveal_strlit("\"");
                assert(" \""@ =~= seq![' ', '"']);
                assert("\""@ =~= seq!['"']);
            }
        },
        Option::None => {},
    }
    out.append(">");
    proof {
        reveal_strlit(">");
        assert(">"@ =~= seq!['>']);
        assert(out@ =~= spec_render_doctype(d@));
    }
    out
}

/// Renders a comment.
pub fn render_comment(c: &str) -> (r: String)
    ensures
        r@ == spec_render_comment(c@),
{
    let mut out = String::new();
    out.append("<!--");
    out.append(c);
    out.append("-->");
    proof {
        reveal_strlit("<!--");
        reveal_strlit("-->");
        assert("<!--"@ =~= seq!['<', '!', '-', '-']);
        assert("-->"@ =~= seq!['-', '-', '>']);
        assert(out@ =~= spec_render_comment(c@));
    }
    out
}

} // verus!

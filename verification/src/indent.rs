//! The indentation analyzer and the dedent/reindent steps of the script
//! recompiler.
//!
//! A text is treated as the sequence of its lines, split on `'\n'`: a text
//! with n newlines has n + 1 lines, so a trailing newline yields a final
//! empty line. The common indent of a text is the longest whitespace prefix
//! shared by all its non-blank lines. Dedenting strips that prefix from the
//! code region (the lines from the first non-blank line to the last one);
//! reindenting puts it back in front of every line.

use vstd::prelude::*;

use crate::text::{blank_chars, clone_chars, extend_chars, is_blank, is_space_char, space_char};

verus! {

/// The lines of a text, split on newline; always at least one line.
pub open spec fn split_lines(s: Seq<char>) -> Seq<Seq<char>>
    decreases s.len(),
{
    if s.len() == 0 {
        seq![Seq::<char>::empty()]
    } else if s[0] == '\n' {
        seq![Seq::<char>::empty()] + split_lines(s.skip(1))
    } else {
        let rest = split_lines(s.skip(1));
        seq![seq![s[0]] + rest[0]] + rest.skip(1)
    }
}

pub proof fn lemma_split_lines_len(s: Seq<char>)
    ensures
        split_lines(s).len() >= 1,
    decreases s.len(),
{
    if s.len() > 0 {
        lemma_split_lines_len(s.skip(1));
    }
}

/// Appending one character either opens a fresh empty line (a newline) or
/// extends the last line (anything else).
pub proof fn lemma_split_lines_snoc(s: Seq<char>, c: char)
    ensures
        c == '\n' ==> split_lines(s.push(c)) == split_lines(s).push(Seq::<char>::empty()),
        c != '\n' ==> split_lines(s.push(c)) == split_lines(s).update(
            split_lines(s).len() - 1,
            split_lines(s).last().push(c),
        ),
    decreases s.len(),
{
    lemma_split_lines_len(s);
    if s.len() == 0 {
        assert(s.push(c)[0] == c);
        assert(s.push(c).skip(1) =~= Seq::<char>::empty());
        assert(split_lines(Seq::<char>::empty()) =~= seq![Seq::<char>::empty()]);
        if c == '\n' {
            assert(split_lines(s.push(c)) =~= split_lines(s).push(Seq::<char>::empty()));
        } else {
            assert(seq![c] + Seq::<char>::empty() =~= Seq::<char>::empty().push(c));
            assert(split_lines(s.push(c)) =~= split_lines(s).update(
                0,
                split_lines(s).last().push(c),
            ));
        }
    } else {
        lemma_split_lines_snoc(s.skip(1), c);
        lemma_split_lines_len(s.skip(1));
        assert(s.push(c)[0] == s[0]);
        assert(s.push(c).skip(1) =~= s.skip(1).push(c));
        let rest = split_lines(s.skip(1));
        let restp = split_lines(s.skip(1).push(c));
        if s[0] == '\n' {
            if c == '\n' {
                assert(split_lines(s.push(c)) =~= split_lines(s).push(Seq::<char>::empty()));
            } else {
                assert(split_lines(s.push(c)) =~= split_lines(s).update(
                    split_lines(s).len() - 1,
                    split_lines(s).last().push(c),
                ));
            }
        } else {
            if c == '\n' {
                assert(restp[0] == rest[0]);
                assert(split_lines(s.push(c)) =~= split_lines(s).push(Seq::<char>::empty()));
            } else {
                if rest.len() == 1 {
                    assert(restp[0] == rest[0].push(c));
                    assert(seq![s[0]] + rest[0].push(c) =~= (seq![s[0]] + rest[0]).push(c));
                    assert(split_lines(s.push(c)) =~= split_lines(s).update(
                        split_lines(s).len() - 1,
                        split_lines(s).last().push(c),
                    ));
                } else {
                    assert(restp[0] == rest[0]);
                    assert(split_lines(s).last() == rest.last());
                    assert(split_lines(s.push(c)) =~= split_lines(s).update(
                        split_lines(s).len() - 1,
                        split_lines(s).last().push(c),
                    ));
                }
            }
        }
    }
}

/// The text with the given lines, newline separated.
pub open spec fn join_lines(ls: Seq<Seq<char>>) -> Seq<char>
    decreases ls.len(),
{
    if ls.len() == 0 {
        Seq::empty()
    } else if ls.len() == 1 {
        ls[0]
    } else {
        ls[0] + seq!['\n'] + join_lines(ls.skip(1))
    }
}

pub proof fn lemma_join_lines_snoc(ls: Seq<Seq<char>>, l: Seq<char>)
    ensures
        ls.len() >= 1 ==> join_lines(ls.push(l)) == join_lines(ls) + seq!['\n'] + l,
        ls.len() == 0 ==> join_lines(ls.push(l)) == l,
    decreases ls.len(),
{
    if ls.len() == 0 {
        assert(ls.push(l)[0] == l);
    } else if ls.len() == 1 {
        assert(ls.push(l)[0] == ls[0]);
        assert(ls.push(l).skip(1) =~= seq![l]);
        assert(join_lines(seq![l]) == l);
        assert(join_lines(ls) == ls[0]);
        assert(join_lines(ls.push(l)) == ls[0] + seq!['\n'] + l);
    } else {
        lemma_join_lines_snoc(ls.skip(1), l);
        assert(ls.push(l)[0] == ls[0]);
        assert(ls.push(l).skip(1) =~= ls.skip(1).push(l));
        assert(join_lines(ls.push(l)) == ls[0] + seq!['\n'] + (join_lines(ls.skip(1)) + seq!['\n']
            + l));
        assert(ls[0] + seq!['\n'] + (join_lines(ls.skip(1)) + seq!['\n'] + l) =~= (ls[0]
            + seq!['\n'] + join_lines(ls.skip(1))) + seq!['\n'] + l);
    }
}

/// Splits a text into its lines.
pub fn split_lines_exec(v: &Vec<char>) -> (r: Vec<Vec<char>>)
    ensures
        r.deep_view() == split_lines(v@),
{
    let mut r: Vec<Vec<char>> = Vec::new();
    let mut cur: Vec<char> = Vec::new();
    let mut i: usize = 0;
    proof {
        assert(v@.take(0) =~= Seq::<char>::empty());
        assert(r.deep_view() =~~= Seq::<Seq<char>>::empty());
        assert(r.deep_view().push(cur@) =~= split_lines(v@.take(0)));
    }
    while i < v.len()
        invariant
            i <= v@.len(),
            r.deep_view().push(cur@) == split_lines(v@.take(i as int)),
        decreases v@.len() - i,
    {
        let c = v[i];
        i = i + 1;
        proof {
            assert(v@.take(i as int) =~= v@.take(i - 1 as int).push(v@[i - 1]));
            lemma_split_lines_snoc(v@.take(i - 1 as int), v@[i - 1]);
        }
        if c == '\n' {
            let ghost old_r = r.deep_view();
            let ghost old_cur = cur@;
            r.push(cur);
            cur = Vec::new();
            proof {
                assert(r.deep_view() =~~= old_r.push(old_cur));
                assert(r.deep_view().push(cur@) =~= split_lines(v@.take(i as int)));
            }
        } else {
            let ghost old_cur = cur@;
            cur.push(c);
            proof {
                let prev = split_lines(v@.take(i - 1 as int));
                assert(prev.last() == old_cur);
                assert(cur.deep_view() =~= cur@);
                assert(r.deep_view().push(cur@) =~~= prev.update(
                    prev.len() - 1,
                    prev.last().push(v@[i - 1]),
                ));
            }
        }
    }
    let ghost old_r = r.deep_view();
    r.push(cur);
    proof {
        assert(v@.take(v@.len() as int) =~= v@);
        assert(r.deep_view() =~~= old_r.push(cur@));
    }
    r
}

/// Joins lines with newlines.
pub fn join_lines_exec(ls: &Vec<Vec<char>>) -> (r: Vec<char>)
    ensures
        r@ == join_lines(ls.deep_view()),
{
    let mut out: Vec<char> = Vec::new();
    let mut i: usize = 0;
    proof {
        assert(ls.deep_view().take(0) =~= Seq::<Seq<char>>::empty());
    }
    while i < ls.len()
        invariant
            i <= ls@.len(),
            ls.deep_view().len() == ls@.len(),
            out@ == join_lines(ls.deep_view().take(i as int)),
        decreases ls@.len() - i,
    {
        if i > 0 {
            out.push('\n');
        }
        extend_chars(&mut out, &ls[i]);
        i = i + 1;
        proof {
            let dv = ls.deep_view();
            assert(dv[i - 1] == ls@[i - 1]@);
            assert(dv.take(i as int) =~= dv.take(i - 1 as int).push(dv[i - 1]));
            lemma_join_lines_snoc(dv.take(i - 1 as int), dv[i - 1]);
            if i - 1 == 0 {
                assert(out@ =~= join_lines(dv.take(i as int)));
            } else {
                assert(out@ =~= join_lines(dv.take(i as int)));
            }
        }
    }
    proof {
        assert(ls.deep_view().take(ls@.len() as int) =~= ls.deep_view());
    }
    out
}

/// The non-blank lines, in order.
pub open spec fn code_lines(ls: Seq<Seq<char>>) -> Seq<Seq<char>>
    decreases ls.len(),
{
    if ls.len() == 0 {
        Seq::empty()
    } else if is_blank(ls[0]) {
        code_lines(ls.skip(1))
    } else {
        seq![ls[0]] + code_lines(ls.skip(1))
    }
}

pub proof fn lemma_code_lines_snoc(ls: Seq<Seq<char>>, l: Seq<char>)
    ensures
        code_lines(ls.push(l)) == if is_blank(l) {
            code_lines(ls)
        } else {
            code_lines(ls).push(l)
        },
    decreases ls.len(),
{
    if ls.len() == 0 {
        assert(ls.push(l)[0] == l);
        assert(ls.push(l).skip(1) =~= Seq::<Seq<char>>::empty());
        assert(code_lines(Seq::<Seq<char>>::empty()) =~= Seq::<Seq<char>>::empty());
        if is_blank(l) {
        } else {
            assert(seq![l] + Seq::<Seq<char>>::empty() =~= Seq::<Seq<char>>::empty().push(l));
        }
    } else {
        lemma_code_lines_snoc(ls.skip(1), l);
        assert(ls.push(l)[0] == ls[0]);
        assert(ls.push(l).skip(1) =~= ls.skip(1).push(l));
        if is_blank(ls[0]) {
        } else {
            if is_blank(l) {
            } else {
                assert(seq![ls[0]] + code_lines(ls.skip(1)).push(l) =~= (seq![ls[0]] + code_lines(
                    ls.skip(1),
                )).push(l));
            }
        }
    }
}

/// Whether column `j` can still belong to the common indent: within the
/// reference line, whitespace there, and identical in every listed line.
pub open spec fn good_col(ls: Seq<Seq<char>>, r: Seq<char>, j: int) -> bool {
    &&& 0 <= j < r.len()
    &&& is_space_char(r[j])
    &&& forall|i: int| 0 <= i < ls.len() ==> j < #[trigger] ls[i].len() && ls[i][j] == r[j]
}

/// The first column from `j` on that stops the common indent.
pub open spec fn indent_from(ls: Seq<Seq<char>>, r: Seq<char>, j: int) -> int
    decreases r.len() - j,
{
    if j < 0 || j >= r.len() {
        j
    } else if !good_col(ls, r, j) {
        j
    } else {
        indent_from(ls, r, j + 1)
    }
}

pub proof fn lemma_indent_from(ls: Seq<Seq<char>>, r: Seq<char>, j0: int, k: int)
    requires
        0 <= j0 <= k <= r.len(),
        forall|j: int| j0 <= j < k ==> good_col(ls, r, j),
        k == r.len() || !good_col(ls, r, k),
    ensures
        indent_from(ls, r, j0) == k,
    decreases k - j0,
{
    if j0 < k {
        assert(good_col(ls, r, j0));
        lemma_indent_from(ls, r, j0 + 1, k);
    }
}

/// The common indent over a set of lines: the longest whitespace prefix of
/// the first non-blank line shared, character for character, by every
/// non-blank line.
pub open spec fn lines_indent(ls: Seq<Seq<char>>) -> Seq<char> {
    let code = code_lines(ls);
    if code.len() == 0 {
        Seq::empty()
    } else {
        code[0].take(indent_from(code, code[0], 0))
    }
}

/// The common indent of a text.
pub open spec fn common_indent_of(s: Seq<char>) -> Seq<char> {
    lines_indent(split_lines(s))
}

fn col_ok(code: &Vec<Vec<char>>, j: usize) -> (r: bool)
    requires
        code.deep_view().len() >= 1,
    ensures
        r == good_col(code.deep_view(), code.deep_view()[0], j as int),
{
    let ghost dv = code.deep_view();
    if j >= code[0].len() {
        return false;
    }
    let c = code[0][j];
    assert(dv[0] == code@[0]@);
    if !space_char(c) {
        return false;
    }
    let mut t: usize = 0;
    while t < code.len()
        invariant
            t <= code@.len(),
            dv == code.deep_view(),
            dv.len() == code@.len(),
            (j as int) < dv[0].len(),
            c == dv[0][j as int],
            is_space_char(c),
            forall|i: int| 0 <= i < t ==> (j as int) < #[trigger] dv[i].len() && dv[i][j as int]
                == c,
        decreases code@.len() - t,
    {
        assert(dv[t as int] == code@[t as int]@);
        if j >= code[t].len() {
            return false;
        }
        if code[t][j] != c {
            return false;
        }
        t = t + 1;
    }
    true
}

/// The common indent, over lines already split.
fn indent_of_lines(lines: &Vec<Vec<char>>) -> (r: Vec<char>)
    ensures
        r@ == lines_indent(lines.deep_view()),
{
    let ghost dv = lines.deep_view();
    let mut code: Vec<Vec<char>> = Vec::new();
    let mut i: usize = 0;
    proof {
        assert(dv.take(0) =~= Seq::<Seq<char>>::empty());
        assert(code.deep_view() =~~= code_lines(dv.take(0)));
    }
    while i < lines.len()
        invariant
            i <= lines@.len(),
            dv == lines.deep_view(),
            dv.len() == lines@.len(),
            code.deep_view() == code_lines(dv.take(i as int)),
        decreases lines@.len() - i,
    {
        assert(dv[i as int] == lines@[i as int]@);
        let ghost old_code = code.deep_view();
        if !blank_chars(&lines[i]) {
            let copy = clone_chars(&lines[i]);
            code.push(copy);
            assert(code.deep_view() =~~= old_code.push(dv[i as int]));
        }
        i = i + 1;
        proof {
            assert(dv.take(i as int) =~= dv.take(i - 1 as int).push(dv[i - 1]));
            lemma_code_lines_snoc(dv.take(i - 1 as int), dv[i - 1]);
        }
    }
    proof {
        assert(dv.take(lines@.len() as int) =~= dv);
    }
    if code.len() == 0 {
        let r: Vec<char> = Vec::new();
        return r;
    }
    let ghost cv = code.deep_view();
    let reflen = code[0].len();
    assert(cv[0] == code@[0]@);
    let mut j: usize = 0;
    while col_ok(&code, j)
        invariant
            code.deep_view() == cv,
            cv.len() >= 1,
            reflen == cv[0].len(),
            0 <= j <= reflen,
            forall|jj: int| 0 <= jj < j ==> good_col(cv, cv[0], jj),
        decreases reflen - j,
    {
        j = j + 1;
    }
    proof {
        lemma_indent_from(cv, cv[0], 0, j as int);
    }
    let r = crate::text::take_chars(&code[0], j);
    r
}

/// The longest common leading-whitespace prefix of the non-blank lines.
pub fn common_indent(text: &str) -> (r: String)
    ensures
        r@ == common_indent_of(text@),
{
    let chars = crate::text::chars_of(text);
    let lines = split_lines_exec(&chars);
    let ind = indent_of_lines(&lines);
    crate::text::string_of(&ind)
}

/// A line with the indent stripped, where it carries it.
pub open spec fn strip_indent_line(l: Seq<char>, ind: Seq<char>) -> Seq<char> {
    if ind.is_prefix_of(l) {
        l.skip(ind.len() as int)
    } else {
        l
    }
}

pub open spec fn dedent_lines(ls: Seq<Seq<char>>, ind: Seq<char>) -> Seq<Seq<char>> {
    ls.map_values(|l: Seq<char>| strip_indent_line(l, ind))
}

/// A line with the indent put back in front; every line gets it, empty
/// ones included.
pub open spec fn reindent_line(l: Seq<char>, ind: Seq<char>) -> Seq<char> {
    ind + l
}

pub open spec fn reindent_lines(ls: Seq<Seq<char>>, ind: Seq<char>) -> Seq<Seq<char>> {
    ls.map_values(|l: Seq<char>| reindent_line(l, ind))
}

/// The index of the first non-blank line; the line count if all are blank.
pub open spec fn first_code(ls: Seq<Seq<char>>) -> int
    decreases ls.len(),
{
    if ls.len() == 0 {
        0
    } else if !is_blank(ls[0]) {
        0
    } else {
        1 + first_code(ls.skip(1))
    }
}

/// The index of the last non-blank line; -1 if all are blank.
pub open spec fn last_code(ls: Seq<Seq<char>>) -> int
    decreases ls.len(),
{
    if ls.len() == 0 {
        -1
    } else if !is_blank(ls.last()) {
        ls.len() - 1
    } else {
        last_code(ls.drop_last())
    }
}

pub proof fn lemma_first_code_at(ls: Seq<Seq<char>>, k: int)
    requires
        0 <= k <= ls.len(),
        forall|j: int| 0 <= j < k ==> is_blank(#[trigger] ls[j]),
        k < ls.len() ==> !is_blank(ls[k]),
    ensures
        first_code(ls) == k,
    decreases ls.len(),
{
    if ls.len() == 0 {
    } else if k == 0 {
    } else {
        assert(is_blank(ls[0]));
        lemma_first_code_at(ls.skip(1), k - 1);
    }
}

pub proof fn lemma_last_code_at(ls: Seq<Seq<char>>, k: int)
    requires
        -1 <= k < ls.len(),
        forall|j: int| k < j < ls.len() ==> is_blank(#[trigger] ls[j]),
        k >= 0 ==> !is_blank(ls[k]),
    ensures
        last_code(ls) == k,
    decreases ls.len(),
{
    if ls.len() == 0 {
    } else if k == ls.len() - 1 {
    } else {
        assert(is_blank(ls.last()));
        assert(ls.drop_last() =~= ls.subrange(0, ls.len() - 1));
        lemma_last_code_at(ls.drop_last(), k);
    }
}

/// The code region: the lines from the first non-blank one to the last.
pub open spec fn code_region(ls: Seq<Seq<char>>) -> Seq<Seq<char>> {
    if first_code(ls) == ls.len() {
        Seq::empty()
    } else {
        ls.subrange(first_code(ls), last_code(ls) + 1)
    }
}

/// What the external compiler is given for a buffered script: the code
/// region, dedented by the common indent, rejoined with newlines.
pub open spec fn script_source_of(buffer: Seq<char>) -> Seq<char> {
    join_lines(dedent_lines(code_region(split_lines(buffer)), common_indent_of(buffer)))
}

/// The whitespace that preceded the closing tag on its own line, if the
/// buffered script ended that way.
pub open spec fn script_trailer_of(buffer: Seq<char>) -> Option<Seq<char>> {
    let ls = split_lines(buffer);
    if is_blank(ls.last()) {
        Option::Some(ls.last())
    } else {
        Option::None
    }
}

/// The compiled text with every non-empty line indented again.
pub open spec fn reindent_text(c: Seq<char>, ind: Seq<char>) -> Seq<char> {
    join_lines(reindent_lines(split_lines(c), ind))
}

fn strip_prefix_chars(l: &Vec<char>, p: &Vec<char>) -> (r: Vec<char>)
    ensures
        r@ == strip_indent_line(l@, p@),
{
    if crate::text::starts_with_chars(l, p) {
        crate::text::skip_chars(l, p.len())
    } else {
        clone_chars(l)
    }
}

/// Dedents a buffered script: blank surroundings dropped, the common
/// indent stripped from each remaining line.
pub fn dedent_script(text: &str) -> (r: String)
    ensures
        r@ == script_source_of(text@),
{
    let chars = crate::text::chars_of(text);
    let lines = split_lines_exec(&chars);
    let ghost dv = lines.deep_view();
    let ind = indent_of_lines(&lines);
    let mut f: usize = 0;
    while f < lines.len() && blank_chars(&lines[f])
        invariant
            f <= lines@.len(),
            dv == lines.deep_view(),
            dv.len() == lines@.len(),
            forall|j: int| 0 <= j < f ==> is_blank(#[trigger] dv[j]),
        decreases lines@.len() - f,
    {
        assert(dv[f as int] == lines@[f as int]@);
        f = f + 1;
    }
    if f == lines.len() {
        proof {
            lemma_first_code_at(dv, f as int);
            assert(dedent_lines(Seq::<Seq<char>>::empty(), common_indent_of(text@))
                =~= Seq::<Seq<char>>::empty());
            assert(script_source_of(text@) =~= Seq::<char>::empty());
        }
        return String::new();
    }
    assert(dv[f as int] == lines@[f as int]@);
    assert(!is_blank(dv[f as int]));
    proof {
        lemma_first_code_at(dv, f as int);
    }
    let mut l: usize = lines.len() - 1;
    while blank_chars(&lines[l])
        invariant
            f <= l < lines@.len(),
            dv == lines.deep_view(),
            dv.len() == lines@.len(),
            !is_blank(dv[f as int]),
            forall|j: int| l < j < dv.len() ==> is_blank(#[trigger] dv[j]),
        decreases l,
    {
        assert(dv[l as int] == lines@[l as int]@);
        assert(l != f);
        l = l - 1;
        assert(dv[l + 1] == lines@[l + 1 as int]@);
    }
    assert(dv[l as int] == lines@[l as int]@);
    proof {
        lemma_last_code_at(dv, l as int);
    }
    let mut region: Vec<Vec<char>> = Vec::new();
    let mut i: usize = f;
    proof {
        assert(dv.subrange(f as int, f as int) =~= Seq::<Seq<char>>::empty());
        assert(region.deep_view() =~~= dedent_lines(dv.subrange(f as int, f as int), ind@));
    }
    while i <= l
        invariant
            f <= i <= l + 1,
            l < lines@.len() <= usize::MAX,
            dv == lines.deep_view(),
            dv.len() == lines@.len(),
            region.deep_view() == dedent_lines(dv.subrange(f as int, i as int), ind@),
        decreases l + 1 - i,
    {
        assert(dv[i as int] == lines@[i as int]@);
        let ghost old_region = region.deep_view();
        let stripped = strip_prefix_chars(&lines[i], &ind);
        let ghost stripped_view = stripped@;
        region.push(stripped);
        i = i + 1;
        proof {
            assert(dv.subrange(f as int, i as int) =~= dv.subrange(f as int, i - 1 as int).push(
                dv[i - 1],
            ));
            assert(region.deep_view() =~~= old_region.push(stripped_view));
            assert(dedent_lines(dv.subrange(f as int, i as int), ind@) =~~= old_region.push(
                strip_indent_line(dv[i - 1], ind@),
            ));
        }
    }
    let joined = join_lines_exec(&region);
    proof {
        assert(code_region(dv) == dv.subrange(f as int, l + 1 as int));
    }
    crate::text::string_of(&joined)
}

/// Reindents compiled output: the indent goes in front of every line.
pub fn reindent_script(compiled: &str, ind: &str) -> (r: String)
    ensures
        r@ == reindent_text(compiled@, ind@),
{
    let chars = crate::text::chars_of(compiled);
    let lines = split_lines_exec(&chars);
    let ghost dv = lines.deep_view();
    let indv = crate::text::chars_of(ind);
    let mut out_lines: Vec<Vec<char>> = Vec::new();
    let mut i: usize = 0;
    proof {
        assert(dv.take(0) =~= Seq::<Seq<char>>::empty());
        assert(out_lines.deep_view() =~~= reindent_lines(dv.take(0), ind@));
    }
    while i < lines.len()
        invariant
            i <= lines@.len(),
            dv == lines.deep_view(),
            dv.len() == lines@.len(),
            indv@ == ind@,
            out_lines.deep_view() == reindent_lines(dv.take(i as int), ind@),
        decreases lines@.len() - i,
    {
        assert(dv[i as int] == lines@[i as int]@);
        let ghost old_out = out_lines.deep_view();
        let mut nl = clone_chars(&indv);
        crate::text::extend_chars(&mut nl, &lines[i]);
        let ghost pushed_view = nl@;
        out_lines.push(nl);
        i = i + 1;
        proof {
            assert(pushed_view == reindent_line(dv[i - 1], ind@));
            assert(dv.take(i as int) =~= dv.take(i - 1 as int).push(dv[i - 1]));
            assert(out_lines.deep_view() =~~= old_out.push(pushed_view));
            assert(reindent_lines(dv.take(i as int), ind@) =~~= old_out.push(
                reindent_line(dv[i - 1], ind@),
            ));
        }
    }
    proof {
        assert(dv.take(lines@.len() as int) =~= dv);
    }
    let joined = join_lines_exec(&out_lines);
    crate::text::string_of(&joined)
}

/// No line produced by splitting contains a newline.
pub proof fn lemma_split_lines_no_nl(s: Seq<char>)
    ensures
        forall|i: int|
            0 <= i < split_lines(s).len() ==> !(#[trigger] split_lines(s)[i]).contains('\n'),
    decreases s.len(),
{
    if s.len() == 0 {
        assert forall|i: int|
            0 <= i < split_lines(s).len() implies !(#[trigger] split_lines(s)[i]).contains(
            '\n',
        ) by {
            assert(split_lines(s)[i] =~= Seq::<char>::empty());
        }
    } else if s[0] == '\n' {
        lemma_split_lines_no_nl(s.skip(1));
        assert forall|i: int|
            0 <= i < split_lines(s).len() implies !(#[trigger] split_lines(s)[i]).contains(
            '\n',
        ) by {
            if i == 0 {
                assert(split_lines(s)[0] =~= Seq::<char>::empty());
            } else {
                assert(split_lines(s)[i] == split_lines(s.skip(1))[i - 1]);
            }
        }
    } else {
        lemma_split_lines_no_nl(s.skip(1));
        lemma_split_lines_len(s.skip(1));
        let rest = split_lines(s.skip(1));
        assert forall|i: int|
            0 <= i < split_lines(s).len() implies !(#[trigger] split_lines(s)[i]).contains(
            '\n',
        ) by {
            if i == 0 {
                let l = seq![s[0]] + rest[0];
                assert(!rest[0].contains('\n'));
                if l.contains('\n') {
                    let j = choose|j: int| 0 <= j < l.len() && l[j] == '\n';
                    if j == 0 {
                        assert(s[0] == '\n');
                    } else {
                        assert(rest[0][j - 1] == '\n');
                        assert(rest[0].contains('\n'));
                    }
                }
            } else {
                assert(split_lines(s)[i] == rest[i]);
                assert(!rest[i].contains('\n'));
            }
        }
    }
}

/// Splitting a newline-free text yields that text as its only line.
pub proof fn lemma_split_one_line(l: Seq<char>)
    requires
        !l.contains('\n'),
    ensures
        split_lines(l) == seq![l],
    decreases l.len(),
{
    if l.len() == 0 {
        assert(l =~= Seq::<char>::empty());
        assert(split_lines(l) =~~= seq![l]);
    } else {
        assert(l[0] != '\n');
        assert(!l.skip(1).contains('\n')) by {
            if l.skip(1).contains('\n') {
                let j = choose|j: int| 0 <= j < l.skip(1).len() && l.skip(1)[j] == '\n';
                assert(l[j + 1] == '\n');
            }
        }
        lemma_split_one_line(l.skip(1));
        let rest = split_lines(l.skip(1));
        assert(rest == seq![l.skip(1)]);
        assert(rest[0] == l.skip(1));
        assert(rest.skip(1) =~= Seq::<Seq<char>>::empty());
        assert(seq![l[0]] + l.skip(1) =~= l);
        assert(split_lines(l) =~~= seq![l]);
    }
}

/// Splitting `a`, a newline, then `r` yields the line `a` before the
/// lines of `r`.
pub proof fn lemma_split_prefix_line(a: Seq<char>, r: Seq<char>)
    requires
        !a.contains('\n'),
    ensures
        split_lines(a + seq!['\n'] + r) == seq![a] + split_lines(r),
    decreases a.len(),
{
    let s = a + seq!['\n'] + r;
    if a.len() == 0 {
        assert(a =~= Seq::<char>::empty());
        assert(s[0] == '\n');
        assert(s.skip(1) =~= r);
        assert(split_lines(s) =~~= seq![a] + split_lines(r));
    } else {
        assert(a[0] != '\n');
        assert(s[0] == a[0]);
        assert(!a.skip(1).contains('\n')) by {
            if a.skip(1).contains('\n') {
                let j = choose|j: int| 0 <= j < a.skip(1).len() && a.skip(1)[j] == '\n';
                assert(a[j + 1] == '\n');
            }
        }
        lemma_split_prefix_line(a.skip(1), r);
        assert(s.skip(1) =~= a.skip(1) + seq!['\n'] + r);
        let rest = split_lines(s.skip(1));
        assert(rest == seq![a.skip(1)] + split_lines(r));
        assert(rest[0] == a.skip(1));
        assert(seq![s[0]] + rest[0] =~= a);
        assert(rest.skip(1) =~= split_lines(r));
        assert(split_lines(s) == seq![seq![s[0]] + rest[0]] + rest.skip(1));
        assert(seq![seq![s[0]] + rest[0]] + rest.skip(1) =~~= seq![a] + split_lines(r));
    }
}

/// Splitting undoes joining, for at least one newline-free line.
pub proof fn lemma_split_join(ls: Seq<Seq<char>>)
    requires
        ls.len() >= 1,
        forall|i: int| 0 <= i < ls.len() ==> !(#[trigger] ls[i]).contains('\n'),
    ensures
        split_lines(join_lines(ls)) == ls,
    decreases ls.len(),
{
    if ls.len() == 1 {
        lemma_split_one_line(ls[0]);
        assert(split_lines(join_lines(ls)) =~= ls);
    } else {
        assert(forall|i: int|
            0 <= i < ls.skip(1).len() ==> !(#[trigger] ls.skip(1)[i]).contains('\n'));
        lemma_split_join(ls.skip(1));
        assert(join_lines(ls) =~= ls[0] + seq!['\n'] + join_lines(ls.skip(1)));
        lemma_split_prefix_line(ls[0], join_lines(ls.skip(1)));
        assert(split_lines(join_lines(ls)) =~= ls);
    }
}

/// Every non-blank line set is drawn from the line set itself.
pub proof fn lemma_code_lines_membership(ls: Seq<Seq<char>>)
    ensures
        forall|i: int| 0 <= i < code_lines(ls).len() ==> ls.contains(#[trigger] code_lines(ls)[i]),
    decreases ls.len(),
{
    if ls.len() == 0 {
    } else {
        lemma_code_lines_membership(ls.skip(1));
        assert forall|i: int|
            0 <= i < code_lines(ls).len() implies ls.contains(#[trigger] code_lines(ls)[i]) by {
            if is_blank(ls[0]) {
                let l = code_lines(ls)[i];
                assert(code_lines(ls) == code_lines(ls.skip(1)));
                assert(l == code_lines(ls.skip(1))[i]);
                assert(ls.skip(1).contains(l));
                let j = choose|j: int| 0 <= j < ls.skip(1).len() && ls.skip(1)[j] == l;
                assert(ls[j + 1] == l);
            } else {
                if i == 0 {
                    assert(code_lines(ls)[0] == ls[0]);
                } else {
                    let l = code_lines(ls)[i];
                    assert(l == code_lines(ls.skip(1))[i - 1]);
                    assert(ls.skip(1).contains(l));
                    let j = choose|j: int| 0 <= j < ls.skip(1).len() && ls.skip(1)[j] == l;
                    assert(ls[j + 1] == l);
                }
            }
        }
    }
}

/// Every column up to the computed indent is a good column.
pub proof fn lemma_indent_from_good(ls: Seq<Seq<char>>, r: Seq<char>, j0: int)
    requires
        0 <= j0 <= r.len(),
    ensures
        j0 <= indent_from(ls, r, j0) <= r.len(),
        forall|j: int| j0 <= j < indent_from(ls, r, j0) ==> good_col(ls, r, j),
    decreases r.len() - j0,
{
    if j0 < r.len() && good_col(ls, r, j0) {
        lemma_indent_from_good(ls, r, j0 + 1);
    }
}

/// The common indent is whitespace and holds no newline.
pub proof fn lemma_common_indent_ws(s: Seq<char>)
    ensures
        is_blank(common_indent_of(s)),
        !common_indent_of(s).contains('\n'),
{
    let ls = split_lines(s);
    let code = code_lines(ls);
    let ind = common_indent_of(s);
    if code.len() == 0 {
        assert(ind =~= Seq::<char>::empty());
        if ind.contains('\n') {
            let j = choose|j: int| 0 <= j < ind.len() && ind[j] == '\n';
        }
    } else {
        let k = indent_from(code, code[0], 0);
        lemma_indent_from_good(code, code[0], 0);
        assert forall|j: int| 0 <= j < ind.len() implies is_space_char(#[trigger] ind[j]) by {
            assert(good_col(code, code[0], j));
            assert(ind[j] == code[0][j]);
        }
        lemma_code_lines_membership(ls);
        lemma_split_lines_no_nl(s);
        assert(ls.contains(code[0]));
        let li = choose|li: int| 0 <= li < ls.len() && ls[li] == code[0];
        assert(!code[0].contains('\n'));
        if ind.contains('\n') {
            let j = choose|j: int| 0 <= j < ind.len() && ind[j] == '\n';
            assert(code[0][j] == '\n');
            assert(code[0].contains('\n'));
        }
    }
}

/// Indentation round-trip: after reindenting by a newline-free indent,
/// every output line — empty ones included — begins with exactly that
/// indent, so relative indentation inside the script is preserved.
pub proof fn lemma_reindent_keeps_indent(compiled: Seq<char>, ind: Seq<char>)
    requires
        !ind.contains('\n'),
    ensures
        ({
            let out = split_lines(reindent_text(compiled, ind));
            &&& out.len() == split_lines(compiled).len()
            &&& forall|i: int|
                0 <= i < out.len() ==> #[trigger] out[i] == ind + split_lines(compiled)[i]
            &&& forall|i: int| 0 <= i < out.len() ==> ind.is_prefix_of(#[trigger] out[i])
        }),
{
    let ls = split_lines(compiled);
    let re = reindent_lines(ls, ind);
    lemma_split_lines_no_nl(compiled);
    lemma_split_lines_len(compiled);
    assert(re.len() == ls.len());
    assert forall|i: int| 0 <= i < re.len() implies !(#[trigger] re[i]).contains('\n') by {
        assert(re[i] == reindent_line(ls[i], ind));
        assert(!ls[i].contains('\n'));
        let l = ind + ls[i];
        if l.contains('\n') {
            let j = choose|j: int| 0 <= j < l.len() && l[j] == '\n';
            if j < ind.len() {
                assert(ind[j] == '\n');
            } else {
                assert(ls[i][j - ind.len()] == '\n');
                assert(ls[i].contains('\n'));
            }
        }
    }
    lemma_split_join(re);
    let out = split_lines(reindent_text(compiled, ind));
    assert(out == re);
    assert forall|i: int| 0 <= i < out.len() implies ind.is_prefix_of(#[trigger] out[i]) by {
        assert(out[i] == reindent_line(ls[i], ind));
        assert(out[i] == ind + ls[i]);
        assert((ind + ls[i]).subrange(0, ind.len() as int) =~= ind);
    }
}

/// Indentation round-trip, end to end: whatever the compiler returns for
/// a buffered script, reindenting it by the buffer's own common indent
/// puts that indent in front of every output line.
pub proof fn lemma_indent_round_trip(buffer: Seq<char>, compiled: Seq<char>)
    ensures
        ({
            let ind = common_indent_of(buffer);
            let out = split_lines(reindent_text(compiled, ind));
            forall|i: int| 0 <= i < out.len() ==> ind.is_prefix_of(#[trigger] out[i])
        }),
{
    lemma_common_indent_ws(buffer);
    lemma_reindent_keeps_indent(compiled, common_indent_of(buffer));
}

/// The trailing whitespace line of a buffered script, if its last line is
/// blank.
pub fn script_trailer(text: &str) -> (r: Option<String>)
    ensures
        crate::tokens::opt_view(r) == script_trailer_of(text@),
{
    let chars = crate::text::chars_of(text);
    let lines = split_lines_exec(&chars);
    let ghost dv = lines.deep_view();
    proof {
        lemma_split_lines_len(text@);
    }
    let last = &lines[lines.len() - 1];
    assert(dv[dv.len() - 1] == lines@[lines@.len() - 1]@);
    if blank_chars(last) {
        Option::Some(crate::text::string_of(last))
    } else {
        Option::None
    }
}

} // verus!

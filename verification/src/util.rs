//! The option resolver.
//!
//! One half classifies a source — a MIME string, a file name or a path —
//! and merges the matching feature flags into an options value. The merge
//! is monotonic: a flag, once set, is never cleared by a later
//! resolution. The other half computes the output path for a transformed
//! file: a recognized subextension (`p`, `min`) is dropped, the primary
//! extension is mapped according to the enabled features, and `min.` is
//! put in front of the extension when minification is on.
//!
//! Paths are plain `/`-separated strings here. A file name decomposes at
//! its last dot into stem and extension; a dot in first position starts a
//! hidden file and opens no extension. The subextension of a name is the
//! extension of its stem (the `p` of `file.p.ts`).

use vstd::prelude::*;

use crate::features::{default_options, Options, OptionsView, TSMode};
use crate::text::{chars_eq, chars_of, skip_chars, string_of, take_chars};

verus! {

/// Where option inference draws from.
pub enum OptionSource {
    /// A MIME type such as `text/typescript`.
    Mime(String),
    /// A bare file name.
    Name(String),
    /// A file path.
    Path(String),
    /// Nothing to draw from.
    Unspecified,
}

pub enum OptionSourceView {
    Mime(Seq<char>),
    Name(Seq<char>),
    Path(Seq<char>),
    Unspecified,
}

impl View for OptionSource {
    type V = OptionSourceView;

    open spec fn view(&self) -> OptionSourceView {
        match self {
            OptionSource::Mime(s) => OptionSourceView::Mime(s@),
            OptionSource::Name(s) => OptionSourceView::Name(s@),
            OptionSource::Path(s) => OptionSourceView::Path(s@),
            OptionSource::Unspecified => OptionSourceView::Unspecified,
        }
    }
}

/// The position right after the last `/`; 0 when there is no slash.
pub open spec fn file_name_start(p: Seq<char>) -> int
    decreases p.len(),
{
    if p.len() == 0 {
        0
    } else if p.last() == '/' {
        p.len() as int
    } else {
        file_name_start(p.drop_last())
    }
}

pub proof fn lemma_file_name_start_at(p: Seq<char>, k: int)
    requires
        0 <= k <= p.len(),
        k > 0 ==> p[k - 1] == '/',
        forall|j: int| k <= j < p.len() ==> p[j] != '/',
    ensures
        file_name_start(p) == k,
    decreases p.len(),
{
    if p.len() == 0 {
    } else if k == p.len() {
    } else {
        assert(p.last() != '/');
        assert(p.drop_last() =~= p.subrange(0, p.len() - 1));
        lemma_file_name_start_at(p.drop_last(), k);
    }
}

/// The final path component.
pub open spec fn spec_file_name(p: Seq<char>) -> Seq<char> {
    p.skip(file_name_start(p))
}

/// Everything up to and including the last `/`.
pub open spec fn spec_dir(p: Seq<char>) -> Seq<char> {
    p.take(file_name_start(p))
}

/// The position of the last `.` in a file name; -1 when there is none.
pub open spec fn last_dot(n: Seq<char>) -> int
    decreases n.len(),
{
    if n.len() == 0 {
        -1
    } else if n.last() == '.' {
        n.len() - 1
    } else {
        last_dot(n.drop_last())
    }
}

pub proof fn lemma_last_dot_at(n: Seq<char>, k: int)
    requires
        -1 <= k < n.len(),
        k >= 0 ==> n[k] == '.',
        forall|j: int| k < j < n.len() ==> n[j] != '.',
    ensures
        last_dot(n) == k,
    decreases n.len(),
{
    if n.len() == 0 {
    } else if k == n.len() - 1 {
    } else {
        assert(n.last() != '.');
        assert(n.drop_last() =~= n.subrange(0, n.len() - 1));
        lemma_last_dot_at(n.drop_last(), k);
    }
}

/// The extension of a file name: what follows the last dot, unless that
/// dot is absent or in first position.
pub open spec fn name_ext(n: Seq<char>) -> Option<Seq<char>> {
    let d = last_dot(n);
    if d <= 0 {
        Option::None
    } else {
        Option::Some(n.skip(d + 1))
    }
}

/// The stem of a file name: what precedes its extension.
pub open spec fn name_stem(n: Seq<char>) -> Seq<char> {
    let d = last_dot(n);
    if d <= 0 {
        n
    } else {
        n.take(d)
    }
}

/// The extension of a path's file name.
pub open spec fn spec_ext(p: Seq<char>) -> Option<Seq<char>> {
    name_ext(spec_file_name(p))
}

/// The subextension of a path's file name: the extension of its stem.
pub open spec fn spec_subext(p: Seq<char>) -> Option<Seq<char>> {
    name_ext(name_stem(spec_file_name(p)))
}

/// The path with its extension replaced (or removed, for an empty
/// replacement). A path without a file name is left alone.
pub open spec fn spec_set_ext(p: Seq<char>, e: Seq<char>) -> Seq<char> {
    if spec_file_name(p).len() == 0 {
        p
    } else {
        let base = spec_dir(p) + name_stem(spec_file_name(p));
        if e.len() == 0 {
            base
        } else {
            base + seq!['.'] + e
        }
    }
}

/// The start of the final path component.
fn find_name_start(v: &Vec<char>) -> (r: usize)
    ensures
        r as int == file_name_start(v@),
        r <= v@.len(),
{
    let mut k: usize = v.len();
    while k > 0 && v[k - 1] != '/'
        invariant
            k <= v@.len(),
            forall|j: int| k <= j < v@.len() ==> v@[j] != '/',
        decreases k,
    {
        k = k - 1;
    }
    proof {
        lemma_file_name_start_at(v@, k as int);
    }
    k
}

/// The position of the last dot of a file name, if any.
fn find_last_dot(n: &Vec<char>) -> (r: Option<usize>)
    ensures
        match r {
            Option::Some(i) => last_dot(n@) == i as int && i < n@.len(),
            Option::None => last_dot(n@) == -1,
        },
{
    let mut k: usize = n.len();
    while k > 0 && n[k - 1] != '.'
        invariant
            k <= n@.len(),
            forall|j: int| k <= j < n@.len() ==> n@[j] != '.',
        decreases k,
    {
        k = k - 1;
    }
    if k == 0 {
        proof {
            lemma_last_dot_at(n@, -1);
        }
        Option::None
    } else {
        proof {
            lemma_last_dot_at(n@, k - 1 as int);
        }
        Option::Some(k - 1)
    }
}

/// The extension of a file name held as characters.
fn name_ext_exec(n: &Vec<char>) -> (r: Option<Vec<char>>)
    ensures
        match r {
            Option::Some(e) => name_ext(n@) == Option::Some(e@),
            Option::None => name_ext(n@) is None,
        },
{
    let nlen = n.len();
    match find_last_dot(n) {
        Option::Some(d) => {
            if d == 0 {
                Option::None
            } else {
                assert(d < nlen);
                Option::Some(skip_chars(n, d + 1))
            }
        },
        Option::None => Option::None,
    }
}

/// The stem of a file name held as characters.
fn name_stem_exec(n: &Vec<char>) -> (r: Vec<char>)
    ensures
        r@ == name_stem(n@),
{
    match find_last_dot(n) {
        Option::Some(d) => {
            if d == 0 {
                crate::text::clone_chars(n)
            } else {
                take_chars(n, d)
            }
        },
        Option::None => crate::text::clone_chars(n),
    }
}

/// The path with its extension replaced, as characters.
fn set_ext_chars(v: &Vec<char>, e: &Vec<char>) -> (r: Vec<char>)
    ensures
        r@ == spec_set_ext(v@, e@),
{
    let start = find_name_start(v);
    let name = skip_chars(v, start);
    if name.len() == 0 {
        return crate::text::clone_chars(v);
    }
    let mut base = take_chars(v, start);
    let stem = name_stem_exec(&name);
    crate::text::extend_chars(&mut base, &stem);
    if e.len() == 0 {
        proof {
            assert(base@ =~= spec_set_ext(v@, e@));
        }
        return base;
    }
    base.push('.');
    crate::text::extend_chars(&mut base, e);
    proof {
        assert(base@ =~= spec_set_ext(v@, e@));
    }
    base
}

pub open spec fn lit_p() -> Seq<char> {
    seq!['p']
}

pub open spec fn lit_pre() -> Seq<char> {
    seq!['p', 'r', 'e']
}

pub open spec fn lit_ts() -> Seq<char> {
    seq!['t', 's']
}

pub open spec fn lit_js() -> Seq<char> {
    seq!['j', 's']
}

pub open spec fn lit_mts() -> Seq<char> {
    seq!['m', 't', 's']
}

pub open spec fn lit_mjs() -> Seq<char> {
    seq!['m', 'j', 's']
}

pub open spec fn lit_jsx() -> Seq<char> {
    seq!['j', 's', 'x']
}

pub open spec fn lit_tsx() -> Seq<char> {
    seq!['t', 's', 'x']
}

pub open spec fn lit_html() -> Seq<char> {
    seq!['h', 't', 'm', 'l']
}

pub open spec fn lit_min() -> Seq<char> {
    seq!['m', 'i', 'n']
}

pub open spec fn lit_text_html() -> Seq<char> {
    seq!['t', 'e', 'x', 't', '/', 'h', 't', 'm', 'l']
}

pub open spec fn lit_text_typescript() -> Seq<char> {
    seq!['t', 'e', 'x', 't', '/', 't', 'y', 'p', 'e', 's', 'c', 'r', 'i', 'p', 't']
}

/// The TypeScript-transform rule: the stronger of the two modes wins, so
/// the mode can only go up.
pub open spec fn apply_ts_rule(o: OptionsView, m: OptionsView) -> OptionsView {
    if m.ts.rank_spec() > o.ts.rank_spec() {
        OptionsView { ts: m.ts, ..o }
    } else {
        o
    }
}

/// The merge rule for a subextension.
pub open spec fn apply_subext(o: OptionsView, m: OptionsView, s: Seq<char>) -> OptionsView {
    if s == lit_p() || s == lit_pre() {
        OptionsView { preprocess: o.preprocess || m.preprocess, ..o }
    } else if s == lit_ts() {
        apply_ts_rule(o, m)
    } else {
        o
    }
}

/// The merge rule for an extension.
pub open spec fn apply_ext(o: OptionsView, m: OptionsView, e: Seq<char>) -> OptionsView {
    if e == lit_html() {
        OptionsView { html: o.html || m.html, ..o }
    } else if e == lit_ts() {
        apply_ts_rule(o, m)
    } else if e == lit_mts() {
        apply_ts_rule(OptionsView { module: o.module || m.module, ..o }, m)
    } else if e == lit_mjs() {
        OptionsView { module: o.module || m.module, ..o }
    } else if e == lit_jsx() {
        OptionsView { use_jsx: o.use_jsx || m.use_jsx, ..o }
    } else if e == lit_tsx() {
        apply_ts_rule(OptionsView { use_jsx: o.use_jsx || m.use_jsx, ..o }, m)
    } else {
        o
    }
}

/// The merge rule for a MIME string.
pub open spec fn apply_mime(o: OptionsView, m: OptionsView, s: Seq<char>) -> OptionsView {
    if s == lit_text_html() {
        OptionsView { html: o.html || m.html, ..o }
    } else if s == lit_text_typescript() {
        apply_ts_rule(o, m)
    } else {
        o
    }
}

/// The merge rules of a path: the subextension first, then the extension.
pub open spec fn apply_path(o: OptionsView, m: OptionsView, p: Seq<char>) -> OptionsView {
    let o1 = match spec_subext(p) {
        Option::Some(s) => apply_subext(o, m, s),
        Option::None => o,
    };
    match spec_ext(p) {
        Option::Some(e) => apply_ext(o1, m, e),
        Option::None => o1,
    }
}

/// What one resolution does to an options value, under a mask.
pub open spec fn spec_update_options(
    src: OptionSourceView,
    o: OptionsView,
    m: OptionsView,
) -> OptionsView {
    match src {
        OptionSourceView::Mime(s) => apply_mime(o, m, s),
        OptionSourceView::Name(p) => apply_path(o, m, p),
        OptionSourceView::Path(p) => apply_path(o, m, p),
        OptionSourceView::Unspecified => o,
    }
}

/// What a merge step may do: raise flags, raise the TypeScript mode, and
/// leave every field outside the merge table alone.
pub open spec fn only_raises(o: OptionsView, r: OptionsView) -> bool {
    &&& o.module ==> r.module
    &&& o.preprocess ==> r.preprocess
    &&& o.use_jsx ==> r.use_jsx
    &&& o.html ==> r.html
    &&& o.ts.rank_spec() <= r.ts.rank_spec()
    &&& r.minify == o.minify
    &&& r.target == o.target
    &&& r.jsx_factory == o.jsx_factory
    &&& r.jsx_fragment == o.jsx_fragment
    &&& r.macros == o.macros
    &&& r.filename == o.filename
    &&& r.include_paths == o.include_paths
}

proof fn lemma_subext_only_raises(o: OptionsView, m: OptionsView, s: Seq<char>)
    ensures
        only_raises(o, apply_subext(o, m, s)),
{
}

proof fn lemma_ext_only_raises(o: OptionsView, m: OptionsView, e: Seq<char>)
    ensures
        only_raises(o, apply_ext(o, m, e)),
{
}

proof fn lemma_mime_only_raises(o: OptionsView, m: OptionsView, s: Seq<char>)
    ensures
        only_raises(o, apply_mime(o, m, s)),
{
}

/// Monotonic merge: a resolution may raise the flags of the mask, and
/// nothing else — no flag is ever cleared, the TypeScript mode never goes
/// down, and the fields outside the merge table are left alone.
pub proof fn lemma_monotonic_merge(src: OptionSourceView, o: OptionsView, m: OptionsView)
    ensures
        only_raises(o, spec_update_options(src, o, m)),
{
    match src {
        OptionSourceView::Mime(s) => {
            lemma_mime_only_raises(o, m, s);
        },
        OptionSourceView::Name(p) => {
            lemma_monotonic_path(o, m, p);
        },
        OptionSourceView::Path(p) => {
            lemma_monotonic_path(o, m, p);
        },
        OptionSourceView::Unspecified => {},
    }
}

proof fn lemma_monotonic_path(o: OptionsView, m: OptionsView, p: Seq<char>)
    ensures
        only_raises(o, apply_path(o, m, p)),
{
    let o1 = match spec_subext(p) {
        Option::Some(s) => apply_subext(o, m, s),
        Option::None => o,
    };
    match spec_subext(p) {
        Option::Some(s) => {
            lemma_subext_only_raises(o, m, s);
        },
        Option::None => {},
    }
    match spec_ext(p) {
        Option::Some(e) => {
            lemma_ext_only_raises(o1, m, e);
        },
        Option::None => {},
    }
}

fn ts_rule_exec(o: &mut Options, m: &Options)
    ensures
        final(o)@ == apply_ts_rule(old(o)@, m@),
{
    if m.ts.rank() > o.ts.rank() {
        o.ts = m.ts;
        assert(o@ =~= apply_ts_rule(old(o)@, m@));
    } else {
        assert(o@ =~= apply_ts_rule(old(o)@, m@));
    }
}

fn subext_rule_exec(o: &mut Options, m: &Options, s: &Vec<char>)
    ensures
        final(o)@ == apply_subext(old(o)@, m@, s@),
{
    let p_lit = chars_of("p");
    let pre_lit = chars_of("pre");
    let ts_lit = chars_of("ts");
    proof {
        reveal_strlit("p");
        reveal_strlit("pre");
        reveal_strlit("ts");
        assert("p"@ =~= lit_p());
        assert("pre"@ =~= lit_pre());
        assert("ts"@ =~= lit_ts());
    }
    if chars_eq(s, &p_lit) || chars_eq(s, &pre_lit) {
        o.preprocess = o.preprocess || m.preprocess;
        assert(o@ =~= apply_subext(old(o)@, m@, s@));
    } else if chars_eq(s, &ts_lit) {
        ts_rule_exec(o, m);
    } else {
        assert(o@ =~= apply_subext(old(o)@, m@, s@));
    }
}

fn ext_rule_exec(o: &mut Options, m: &Options, e: &Vec<char>)
    ensures
        final(o)@ == apply_ext(old(o)@, m@, e@),
{
    let html_lit = chars_of("html");
    let ts_lit = chars_of("ts");
    let mts_lit = chars_of("mts");
    let mjs_lit = chars_of("mjs");
    let jsx_lit = chars_of("jsx");
    let tsx_lit = chars_of("tsx");
    proof {
        reveal_strlit("html");
        reveal_strlit("ts");
        reveal_strlit("mts");
        reveal_strlit("mjs");
        reveal_strlit("jsx");
        reveal_strlit("tsx");
        assert("html"@ =~= lit_html());
        assert("ts"@ =~= lit_ts());
        assert("mts"@ =~= lit_mts());
        assert("mjs"@ =~= lit_mjs());
        assert("jsx"@ =~= lit_jsx());
        assert("tsx"@ =~= lit_tsx());
    }
    if chars_eq(e, &html_lit) {
        o.html = o.html || m.html;
        assert(o@ =~= apply_ext(old(o)@, m@, e@));
    } else if chars_eq(e, &ts_lit) {
        ts_rule_exec(o, m);
    } else if chars_eq(e, &mts_lit) {
        o.module = o.module || m.module;
        ts_rule_exec(o, m);
        assert(o@ =~= apply_ext(old(o)@, m@, e@));
    } else if chars_eq(e, &mjs_lit) {
        o.module = o.module || m.module;
        assert(o@ =~= apply_ext(old(o)@, m@, e@));
    } else if chars_eq(e, &jsx_lit) {
        o.use_jsx = o.use_jsx || m.use_jsx;
        assert(o@ =~= apply_ext(old(o)@, m@, e@));
    } else if chars_eq(e, &tsx_lit) {
        o.use_jsx = o.use_jsx || m.use_jsx;
        ts_rule_exec(o, m);
        assert(o@ =~= apply_ext(old(o)@, m@, e@));
    } else {
        assert(o@ =~= apply_ext(old(o)@, m@, e@));
    }
}

fn mime_rule_exec(o: &mut Options, m: &Options, s: &str)
    ensures
        final(o)@ == apply_mime(old(o)@, m@, s@),
{
    proof {
        reveal_strlit("text/html");
        reveal_strlit("text/typescript");
        assert("text/html"@ =~= lit_text_html());
        assert("text/typescript"@ =~= lit_text_typescript());
    }
    if crate::text::str_eq(s, "text/html") {
        o.html = o.html || m.html;
        assert(o@ =~= apply_mime(old(o)@, m@, s@));
    } else if crate::text::str_eq(s, "text/typescript") {
        ts_rule_exec(o, m);
    } else {
        assert(o@ =~= apply_mime(old(o)@, m@, s@));
    }
}

fn path_rules_exec(o: &mut Options, m: &Options, p: &str)
    ensures
        final(o)@ == apply_path(old(o)@, m@, p@),
{
    let chars = chars_of(p);
    let start = find_name_start(&chars);
    let name = skip_chars(&chars, start);
    let stem = name_stem_exec(&name);
    match name_ext_exec(&stem) {
        Option::Some(s) => {
            subext_rule_exec(o, m, &s);
        },
        Option::None => {},
    }
    match name_ext_exec(&name) {
        Option::Some(e) => {
            ext_rule_exec(o, m, &e);
        },
        Option::None => {},
    }
}

/// Resolves one source into an options value, raising the flags the mask
/// allows. Flags only ever go up: see `lemma_monotonic_merge`.
pub fn update_options(source: OptionSource, options: &mut Options, mask: &Options)
    ensures
        final(options)@ == spec_update_options(source@, old(options)@, mask@),
        old(options)@.module ==> final(options)@.module,
        old(options)@.preprocess ==> final(options)@.preprocess,
        old(options)@.use_jsx ==> final(options)@.use_jsx,
        old(options)@.html ==> final(options)@.html,
        old(options)@.ts.rank_spec() <= final(options)@.ts.rank_spec(),
        final(options)@.minify == old(options)@.minify,
{
    proof {
        lemma_monotonic_merge(source@, options@, mask@);
    }
    match source {
        OptionSource::Mime(s) => mime_rule_exec(options, mask, s.as_str()),
        OptionSource::Name(n) => path_rules_exec(options, mask, n.as_str()),
        OptionSource::Path(p) => path_rules_exec(options, mask, p.as_str()),
        OptionSource::Unspecified => {},
    }
}

/// The mask that lets a file extension enable every feature of the
/// build: transpilation, JSX, module mode and HTML mode.
pub fn all_ext_options() -> (r: Options)
    ensures
        r@ == (OptionsView {
            ts: TSMode::Transpile,
            use_jsx: true,
            module: true,
            html: true,
            ..default_options()
        }),
{
    let mut r = Options::default();
    r.ts = TSMode::Transpile;
    r.use_jsx = true;
    r.module = true;
    r.html = true;
    proof {
        assert(r@ =~= OptionsView {
            ts: TSMode::Transpile,
            use_jsx: true,
            module: true,
            html: true,
            ..default_options()
        });
    }
    r
}

/// Whether any TypeScript transform is enabled.
pub open spec fn ts_active(o: OptionsView) -> bool {
    !(o.ts is Preserve)
}

/// The output extension for a transformed file with the given input
/// extension: `html` in HTML mode; under an active TypeScript transform
/// `mts` maps to `mjs`, `tsx` to `jsx` when JSX is on with no factory
/// override, and anything else to `js`; otherwise the input extension is
/// kept.
pub open spec fn result_ext(initial_ext: Seq<char>, o: OptionsView) -> Seq<char> {
    if o.html {
        lit_html()
    } else if ts_active(o) {
        if initial_ext == lit_mts() {
            lit_mjs()
        } else if initial_ext == lit_tsx() && o.jsx_factory is None && o.use_jsx {
            lit_jsx()
        } else {
            lit_js()
        }
    } else {
        initial_ext
    }
}

/// The output path of a transformed file: a recognized subextension
/// (`p`, `min`) is dropped, the extension is mapped by `result_ext`, and
/// `min.` is put in front of it when minification is on. A path without
/// an extension is left alone.
pub open spec fn spec_update_path(p: Seq<char>, o: OptionsView) -> Seq<char> {
    let dropped = if spec_subext(p) == Option::Some(lit_p()) || spec_subext(p) == Option::Some(
        lit_min(),
    ) {
        spec_set_ext(p, Seq::empty())
    } else {
        p
    };
    match spec_ext(p) {
        Option::Some(e) => {
            let new_ext = if o.minify {
                lit_min() + seq!['.'] + result_ext(e, o)
            } else {
                result_ext(e, o)
            };
            spec_set_ext(dropped, new_ext)
        },
        Option::None => dropped,
    }
}

proof fn lemma_file_name_start_props(p: Seq<char>)
    ensures
        0 <= file_name_start(p) <= p.len(),
        file_name_start(p) > 0 ==> p[file_name_start(p) - 1] == '/',
        forall|j: int| file_name_start(p) <= j < p.len() ==> p[j] != '/',
    decreases p.len(),
{
    if p.len() == 0 {
    } else if p.last() == '/' {
    } else {
        assert(p.drop_last() =~= p.subrange(0, p.len() - 1));
        lemma_file_name_start_props(p.drop_last());
        assert forall|j: int| file_name_start(p) <= j < p.len() implies p[j] != '/' by {
            if j < p.len() - 1 {
                assert(p.drop_last()[j] != '/');
            } else {
                assert(p[j] == p.last());
            }
        }
    }
}

proof fn lemma_last_dot_props(n: Seq<char>)
    ensures
        -1 <= last_dot(n) < n.len(),
        last_dot(n) >= 0 ==> n[last_dot(n)] == '.',
        forall|j: int| last_dot(n) < j < n.len() ==> n[j] != '.',
    decreases n.len(),
{
    if n.len() == 0 {
    } else if n.last() == '.' {
    } else {
        assert(n.drop_last() =~= n.subrange(0, n.len() - 1));
        lemma_last_dot_props(n.drop_last());
        assert forall|j: int| last_dot(n) < j < n.len() implies n[j] != '.' by {
            if j < n.len() - 1 {
                assert(n.drop_last()[j] != '.');
            } else {
                assert(n[j] == n.last());
            }
        }
    }
}

proof fn lemma_path_recompose(p: Seq<char>)
    ensures
        p == spec_dir(p) + spec_file_name(p),
        spec_dir(p).len() == 0 || spec_dir(p).last() == '/',
        !spec_file_name(p).contains('/'),
{
    lemma_file_name_start_props(p);
    assert(p =~= spec_dir(p) + spec_file_name(p));
    let n = spec_file_name(p);
    if n.contains('/') {
        let j = choose|j: int| 0 <= j < n.len() && n[j] == '/';
        assert(p[file_name_start(p) + j] == '/');
    }
}

/// A path glued from a directory part and a slash-free name splits back
/// into exactly those parts.
proof fn lemma_parts_of_concat(dir: Seq<char>, n: Seq<char>)
    requires
        dir.len() == 0 || dir.last() == '/',
        !n.contains('/'),
    ensures
        spec_file_name(dir + n) == n,
        spec_dir(dir + n) == dir,
{
    let p = dir + n;
    assert forall|j: int| dir.len() <= j < p.len() implies p[j] != '/' by {
        assert(p[j] == n[j - dir.len()]);
        if n[j - dir.len()] == '/' {
            assert(n.contains('/'));
        }
    }
    lemma_file_name_start_at(p, dir.len() as int);
    assert(spec_file_name(p) =~= n);
    assert(spec_dir(p) =~= dir);
}

/// A name glued from a non-empty stem, a dot and a dot-free extension
/// splits back into exactly those parts.
proof fn lemma_ext_split(stem: Seq<char>, e: Seq<char>)
    requires
        stem.len() > 0,
        !e.contains('.'),
    ensures
        name_ext(stem + seq!['.'] + e) == Option::Some(e),
        name_stem(stem + seq!['.'] + e) == stem,
{
    let n = stem + seq!['.'] + e;
    assert(n[stem.len() as int] == '.');
    assert forall|j: int| stem.len() < j < n.len() implies n[j] != '.' by {
        assert(n[j] == e[j - stem.len() - 1]);
        if e[j - stem.len() - 1] == '.' {
            assert(e.contains('.'));
        }
    }
    lemma_last_dot_at(n, stem.len() as int);
    assert(n.skip(stem.len() as int + 1) =~= e);
    assert(n.take(stem.len() as int) =~= stem);
}

/// An extension never holds a dot.
proof fn lemma_ext_chars(n: Seq<char>)
    ensures
        match name_ext(n) {
            Option::Some(e) => !e.contains('.'),
            Option::None => true,
        },
{
    lemma_last_dot_props(n);
    match name_ext(n) {
        Option::Some(e) => {
            let d = last_dot(n);
            if e.contains('.') {
                let j = choose|j: int| 0 <= j < e.len() && e[j] == '.';
                assert(n[d + 1 + j] == '.');
            }
        },
        Option::None => {},
    }
}

/// Path resolution idempotence: resolving an already-resolved path with
/// the same options gives it back unchanged.
///
/// Three families of inputs are left out, because the extension map does
/// not fix them: an `mts` input maps to `mjs`, which a second pass would
/// map on to `js` (likewise `tsx` to `jsx` under JSX); a name whose
/// dropped subextension uncovers another `p` or `min` subextension loses
/// it on the second pass; and a name ending in a bare dot is left out of
/// scope altogether.
#[verifier::rlimit(100)]
pub proof fn lemma_update_path_idempotent(p: Seq<char>, o: OptionsView)
    requires
        match spec_ext(p) {
            Option::Some(e) => e.len() > 0,
            Option::None => true,
        },
        !(ts_active(o) && !o.html && spec_ext(p) == Option::Some(lit_mts())),
        !(ts_active(o) && !o.html && spec_ext(p) == Option::Some(lit_tsx()) && o.jsx_factory
            is None && o.use_jsx),
        ({
            let n = spec_file_name(p);
            ((spec_subext(p) == Option::Some(lit_p()) || spec_subext(p) == Option::Some(lit_min()))
                && !o.minify) ==> !(name_ext(name_stem(name_stem(n))) == Option::Some(lit_p())
                || name_ext(name_stem(name_stem(n))) == Option::Some(lit_min()))
        }),
    ensures
        spec_update_path(spec_update_path(p, o), o) == spec_update_path(p, o),
{
    let q = spec_update_path(p, o);
    let dir = spec_dir(p);
    let n = spec_file_name(p);
    lemma_path_recompose(p);
    lemma_last_dot_props(n);
    lemma_ext_chars(n);
    match spec_ext(p) {
        Option::None => {
            assert(last_dot(n) <= 0);
            assert(name_stem(n) == n);
            assert(spec_subext(p) is None);
            assert(q == p);
        },
        Option::Some(e) => {
            let d = last_dot(n);
            assert(d > 0);
            let stem = name_stem(n);
            assert(stem == n.take(d));
            assert(stem.len() == d);
            assert(e == n.skip(d + 1));
            assert(!e.contains('.'));
            assert(!e.contains('/')) by {
                if e.contains('/') {
                    let j = choose|j: int| 0 <= j < e.len() && e[j] == '/';
                    assert(n[d + 1 + j] == '/');
                    assert(n.contains('/'));
                }
            }
            assert(!stem.contains('/')) by {
                if stem.contains('/') {
                    let j = choose|j: int| 0 <= j < stem.len() && stem[j] == '/';
                    assert(n[j] == '/');
                    assert(n.contains('/'));
                }
            }
            let rx = result_ext(e, o);
            // the mapped extension is non-empty, dot-free, slash-free, and a
            // fixed point of the map
            assert(rx.len() > 0 && !rx.contains('.') && !rx.contains('/') && result_ext(rx, o)
                == rx) by {
                if o.html {
                    assert(rx == lit_html());
                    assert(forall|j: int| 0 <= j < 4 ==> lit_html()[j] != '.');
                    assert(forall|j: int| 0 <= j < 4 ==> lit_html()[j] != '/');
                } else if ts_active(o) {
                    assert(rx == lit_js());
                    assert(forall|j: int| 0 <= j < 2 ==> lit_js()[j] != '.');
                    assert(forall|j: int| 0 <= j < 2 ==> lit_js()[j] != '/');
                    assert(lit_js() != lit_mts());
                    assert(lit_js() != lit_tsx());
                } else {
                    assert(rx == e);
                }
            }
            let do_drop = spec_subext(p) == Option::Some(lit_p()) || spec_subext(p)
                == Option::Some(lit_min());
            // the path after the subextension drop
            let dropped = if do_drop {
                spec_set_ext(p, Seq::<char>::empty())
            } else {
                p
            };
            assert(n.len() > 0);
            if do_drop {
                assert(dropped == dir + stem);
                lemma_parts_of_concat(dir, stem);
            }
            let name2 = spec_file_name(dropped);
            assert(name2 == if do_drop {
                stem
            } else {
                n
            });
            assert(name2.len() > 0);
            let stem2 = name_stem(name2);
            lemma_last_dot_props(name2);
            assert(stem2.len() > 0) by {
                if last_dot(name2) > 0 {
                    assert(stem2 == name2.take(last_dot(name2)));
                } else {
                    assert(stem2 == name2);
                }
            }
            assert(!stem2.contains('/')) by {
                if stem2.contains('/') {
                    let j = choose|j: int| 0 <= j < stem2.len() && stem2[j] == '/';
                    assert(name2[j] == '/');
                    if do_drop {
                        assert(stem.contains('/'));
                    } else {
                        assert(n.contains('/'));
                    }
                }
            }
            assert(spec_dir(dropped) == dir);
            let ex = if o.minify {
                lit_min() + seq!['.'] + rx
            } else {
                rx
            };
            assert(q == spec_set_ext(dropped, ex));
            assert(q == dir + stem2 + seq!['.'] + ex);
            // second round: decompose q
            assert(!ex.contains('/')) by {
                if ex.contains('/') {
                    let j = choose|j: int| 0 <= j < ex.len() && ex[j] == '/';
                    if o.minify {
                        if j < 3 {
                            assert(lit_min()[j] == '/');
                        } else if j == 3 {
                        } else {
                            assert(rx[j - 4] == '/');
                            assert(rx.contains('/'));
                        }
                    } else {
                        assert(rx.contains('/'));
                    }
                }
            }
            let nq = stem2 + seq!['.'] + ex;
            assert(!nq.contains('/')) by {
                if nq.contains('/') {
                    let j = choose|j: int| 0 <= j < nq.len() && nq[j] == '/';
                    if j < stem2.len() {
                        assert(stem2.contains('/'));
                    } else if j == stem2.len() {
                    } else {
                        assert(ex[j - stem2.len() - 1] == '/');
                        assert(ex.contains('/'));
                    }
                }
            }
            assert(q =~= dir + nq);
            lemma_parts_of_concat(dir, nq);
            assert(spec_file_name(q) == nq);
            assert(spec_dir(q) == dir);
            if !o.minify {
                // q = dir + stem2 . rx ; its extension is rx, its
                // subextension is the extension of stem2, which the
                // preconditions keep out of {p, min}
                lemma_ext_split(stem2, rx);
                assert(spec_ext(q) == Option::Some(rx));
                assert(name_stem(nq) == stem2);
                assert(spec_subext(q) == name_ext(stem2));
                if do_drop {
                    assert(stem2 == name_stem(name_stem(n)));
                    assert(!(spec_subext(q) == Option::Some(lit_p()) || spec_subext(q)
                        == Option::Some(lit_min())));
                } else {
                    assert(stem2 == name_stem(n));
                    assert(spec_subext(q) == spec_subext(p));
                    assert(!(spec_subext(q) == Option::Some(lit_p()) || spec_subext(q)
                        == Option::Some(lit_min())));
                }
                let q2 = spec_update_path(q, o);
                assert(q2 == spec_set_ext(q, result_ext(rx, o)));
                assert(q2 == dir + name_stem(nq) + seq!['.'] + rx);
                assert(q2 =~= q);
            } else {
                // q = dir + stem2 . min . rx ; the second pass drops the
                // min subextension and puts the same tail back
                let minstem = stem2 + seq!['.'] + lit_min();
                assert(nq =~= minstem + seq!['.'] + rx);
                assert(!lit_min().contains('.')) by {
                    if lit_min().contains('.') {
                        let j = choose|j: int| 0 <= j < 3 && lit_min()[j] == '.';
                    }
                }
                lemma_ext_split(minstem, rx);
                assert(name_ext(nq) == Option::Some(rx));
                assert(name_stem(nq) == minstem);
                assert(spec_ext(q) == Option::Some(rx));
                lemma_ext_split(stem2, lit_min());
                assert(spec_subext(q) == Option::Some(lit_min()));
                let dropped2 = spec_set_ext(q, Seq::<char>::empty());
                assert(dropped2 == dir + minstem);
                lemma_parts_of_concat(dir, minstem);
                assert(!minstem.contains('/')) by {
                    if minstem.contains('/') {
                        let j = choose|j: int| 0 <= j < minstem.len() && minstem[j] == '/';
                        if j < stem2.len() {
                            assert(stem2.contains('/'));
                        } else if j == stem2.len() {
                        } else {
                            assert(lit_min()[j - stem2.len() - 1] == '/');
                        }
                    }
                }
                assert(spec_file_name(dropped2) == minstem);
                assert(name_stem(minstem) == stem2);
                let q2 = spec_update_path(q, o);
                assert(q2 == spec_set_ext(dropped2, lit_min() + seq!['.'] + result_ext(rx, o)));
                assert(q2 == dir + stem2 + seq!['.'] + (lit_min() + seq!['.'] + rx));
                assert(q2 =~= q);
            }
        },
    }
}

/// Rewrites a path in place into the output path of the transformation.
pub fn update_path(path: &mut String, options: &Options)
    ensures
        final(path)@ == spec_update_path(old(path)@, options@),
{
    let chars = chars_of(path.as_str());
    let p_lit = chars_of("p");
    let min_lit = chars_of("min");
    proof {
        reveal_strlit("p");
        reveal_strlit("min");
        assert("p"@ =~= lit_p());
        assert("min"@ =~= lit_min());
    }
    let start = find_name_start(&chars);
    let name = skip_chars(&chars, start);
    let stem = name_stem_exec(&name);
    let drop_sub = match name_ext_exec(&stem) {
        Option::Some(s) => chars_eq(&s, &p_lit) || chars_eq(&s, &min_lit),
        Option::None => false,
    };
    let empty_ext: Vec<char> = Vec::new();
    let dropped = if drop_sub {
        set_ext_chars(&chars, &empty_ext)
    } else {
        crate::text::clone_chars(&chars)
    };
    match name_ext_exec(&name) {
        Option::Some(e) => {
            let ghost target_ext = result_ext(e@, options@);
            let html_lit = chars_of("html");
            let mts_lit = chars_of("mts");
            let mjs_lit = chars_of("mjs");
            let tsx_lit = chars_of("tsx");
            let jsx_lit = chars_of("jsx");
            let js_lit = chars_of("js");
            proof {
                reveal_strlit("html");
                reveal_strlit("mts");
                reveal_strlit("mjs");
                reveal_strlit("tsx");
                reveal_strlit("jsx");
                reveal_strlit("js");
                assert("html"@ =~= lit_html());
                assert("mts"@ =~= lit_mts());
                assert("mjs"@ =~= lit_mjs());
                assert("tsx"@ =~= lit_tsx());
                assert("jsx"@ =~= lit_jsx());
                assert("js"@ =~= lit_js());
            }
            let mapped: Vec<char> = if options.html {
                html_lit
            } else if !matches!(options.ts, TSMode::Preserve) {
                if chars_eq(&e, &mts_lit) {
                    mjs_lit
                } else if chars_eq(&e, &tsx_lit) && options.jsx_factory.is_none()
                    && options.use_jsx {
                    jsx_lit
                } else {
                    js_lit
                }
            } else {
                e
            };
            assert(mapped@ == target_ext);
            let new_ext = if options.minify {
                let mut withmin = chars_of("min.");
                proof {
                    reveal_strlit("min.");
                    assert("min."@ =~= lit_min() + seq!['.']);
                }
                crate::text::extend_chars(&mut withmin, &mapped);
                withmin
            } else {
                mapped
            };
            let out = set_ext_chars(&dropped, &new_ext);
            let s = string_of(&out);
            *path = s;
        },
        Option::None => {
            let s = string_of(&dropped);
            *path = s;
        },
    }
}

} // verus!

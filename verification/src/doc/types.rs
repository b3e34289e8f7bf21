//! Types for representing extracted documentation, and the doc-comment parser.

use vstd::prelude::*;

use crate::text::{
    chars_of, contains_seq, contains_str, find_char, find_char_exec, find_char_from, has_prefix, join,
    join_chars, lemma_find_char_from, lowercase, push_range, slice_vec, starts_with, string_of,
    to_lowercase, trim, trim_range, trim_str, views, vviews,
};

verus! {

/// Documentation for a function parameter
#[derive(Debug, Clone)]
pub struct ParamDoc {
    /// Description of the parameter
    pub description: String,
}

/// Parsed documentation comment.
///
/// `params` keeps one entry per parameter name, in the order in which the
/// names first appeared; a later entry for the same name replaces the
/// description in place.
#[derive(Debug, Clone)]
pub struct DocComment {
    /// Brief summary (first paragraph)
    pub summary: String,
    /// Full description (everything after the first blank line)
    pub description: Option<String>,
    /// Parameter documentation
    pub params: Vec<(String, ParamDoc)>,
    /// Return value documentation
    pub returns: Option<String>,
    /// Example code blocks
    pub examples: Vec<String>,
    /// Thrown exceptions
    pub throws: Vec<String>,
    /// See also references
    pub see_also: Vec<String>,
}

/// The mathematical content of a [`DocComment`].
#[verifier::ext_equal]
pub struct DocModel {
    pub summary: Seq<char>,
    pub description: Option<Seq<char>>,
    pub params: Seq<(Seq<char>, Seq<char>)>,
    pub returns: Option<Seq<char>>,
    pub examples: Seq<Seq<char>>,
    pub throws: Seq<Seq<char>>,
    pub see_also: Seq<Seq<char>>,
}

/// The view of an optional string.
pub open spec fn opt_view(o: Option<String>) -> Option<Seq<char>> {
    match o {
        Some(s) => Some(s@),
        None => None,
    }
}

/// The views of a parameter list.
pub open spec fn params_view(p: Seq<(String, ParamDoc)>) -> Seq<(Seq<char>, Seq<char>)> {
    p.map_values(|e: (String, ParamDoc)| (e.0@, e.1.description@))
}

impl View for DocComment {
    type V = DocModel;

    open spec fn view(&self) -> DocModel {
        DocModel {
            summary: self.summary@,
            description: opt_view(self.description),
            params: params_view(self.params@),
            returns: opt_view(self.returns),
            examples: views(self.examples@),
            throws: views(self.throws@),
            see_also: views(self.see_also@),
        }
    }
}

/// The empty documentation model.
pub open spec fn empty_doc() -> DocModel {
    DocModel {
        summary: Seq::empty(),
        description: None,
        params: Seq::empty(),
        returns: None,
        examples: Seq::empty(),
        throws: Seq::empty(),
        see_also: Seq::empty(),
    }
}

/// Section of a doc comment being parsed
#[derive(Debug, Clone, Copy, PartialEq, Eq, Structural)]
pub enum Section {
    Summary,
    Description,
    Arguments,
    Returns,
    Example,
    Throws,
    SeeAlso,
}

// ---------------------------------------------------------------------------
// Lines
// ---------------------------------------------------------------------------

/// A line that was ended by `'\n'`, with one `'\r'` before it removed.
pub open spec fn strip_cr(s: Seq<char>) -> Seq<char> {
    if s.len() > 0 && s.last() == '\r' {
        s.drop_last()
    } else {
        s
    }
}

/// `str::lines` of `s[start..]`: pieces between `'\n'`s, `"\r\n"` counted as one line end,
/// and no empty last line after a final line end.
pub open spec fn lines_from(s: Seq<char>, start: int) -> Seq<Seq<char>>
    decreases s.len() - start,
{
    if start < 0 || start >= s.len() {
        Seq::empty()
    } else {
        let k = find_char_from(s, '\n', start);
        if k >= s.len() {
            seq![s.subrange(start, s.len() as int)]
        } else {
            proof {
                lemma_find_char_from(s, '\n', start);
            }
            seq![strip_cr(s.subrange(start, k))] + lines_from(s, k + 1)
        }
    }
}

/// `str::lines` of a whole string.
pub open spec fn lines(s: Seq<char>) -> Seq<Seq<char>> {
    lines_from(s, 0)
}

/// Splits text into lines as `str::lines` does.
pub fn split_lines(v: &Vec<char>) -> (r: Vec<Vec<char>>)
    ensures
        vviews(r@) == lines(v@),
{
    let mut out: Vec<Vec<char>> = Vec::new();
    let mut start: usize = 0;
    while start < v.len()
        invariant
            start <= v@.len(),
            vviews(out@) + lines_from(v@, start as int) == lines(v@),
        decreases v.len() - start,
    {
        let k = find_char_exec(v, '\n', start);
        proof {
            lemma_find_char_from(v@, '\n', start as int);
        }
        if k >= v.len() {
            let piece = slice_vec(v, start, v.len());
            let ghost old_out = out@;
            out.push(piece);
            assert(vviews(out@) =~= vviews(old_out).push(piece@));
            assert(lines_from(v@, v@.len() as int) =~= Seq::<Seq<char>>::empty());
            assert(vviews(out@) + lines_from(v@, v@.len() as int) =~= vviews(old_out)
                + lines_from(v@, start as int));
            start = v.len();
        } else {
            let end = if k > start && v[k - 1] == '\r' {
                k - 1
            } else {
                k
            };
            let piece = slice_vec(v, start, end);
            assert(piece@ == strip_cr(v@.subrange(start as int, k as int)));
            let ghost old_out = out@;
            out.push(piece);
            assert(vviews(out@) =~= vviews(old_out).push(piece@));
            assert(vviews(out@) + lines_from(v@, k + 1) =~= vviews(old_out) + lines_from(
                v@,
                start as int,
            ));
            start = k + 1;
        }
    }
    assert(lines_from(v@, start as int) =~= Seq::<Seq<char>>::empty());
    assert(vviews(out@) =~= vviews(out@) + lines_from(v@, start as int));
    out
}

// ---------------------------------------------------------------------------
// The doc-comment grammar
// ---------------------------------------------------------------------------

/// The section that a (lower-cased, trimmed) header line opens, if any.
pub open spec fn section_header(lower: Seq<char>) -> Option<Section> {
    if has_prefix(lower, "## arguments"@) || has_prefix(lower, "# arguments"@) {
        Some(Section::Arguments)
    } else if has_prefix(lower, "## returns"@) || has_prefix(lower, "# returns"@) {
        Some(Section::Returns)
    } else if has_prefix(lower, "## example"@) || has_prefix(lower, "# example"@) {
        Some(Section::Example)
    } else if has_prefix(lower, "## throws"@) || has_prefix(lower, "# throws"@) {
        Some(Section::Throws)
    } else if has_prefix(lower, "## see also"@) || has_prefix(lower, "# see also"@) {
        Some(Section::SeeAlso)
    } else {
        None
    }
}

/// The description part of a parameter line: `rest` without one leading `':'`, trimmed.
pub open spec fn param_description(rest: Seq<char>) -> Seq<char> {
    if rest.len() > 0 && rest[0] == ':' {
        trim(rest.skip(1))
    } else {
        trim(rest)
    }
}

/// A parameter line `- name: description` or ``- `name`: description``, if `t` is one.
pub open spec fn param_line(t: Seq<char>) -> Option<(Seq<char>, Seq<char>)> {
    if !(t.len() > 0 && t[0] == '-') {
        None
    } else {
        let l = trim(t.skip(1));
        if l.len() > 0 && l[0] == '`' {
            let k = find_char_from(l, '`', 1);
            if k >= l.len() {
                None
            } else {
                Some((l.subrange(1, k), param_description(trim(l.skip(k + 1)))))
            }
        } else {
            let c = find_char(l, ':');
            if c >= l.len() {
                None
            } else {
                Some((trim(l.take(c)), param_description(trim(l.skip(c + 1)))))
            }
        }
    }
}

/// Position of the entry named `n` in `ps` at or after `i`, or -1.
pub open spec fn param_pos_from(ps: Seq<(Seq<char>, Seq<char>)>, n: Seq<char>, i: int) -> int
    decreases ps.len() - i,
{
    if i < 0 || i >= ps.len() {
        -1
    } else if ps[i].0 == n {
        i
    } else {
        param_pos_from(ps, n, i + 1)
    }
}

/// Position of the entry named `n` in `ps`, or -1.
pub open spec fn param_pos(ps: Seq<(Seq<char>, Seq<char>)>, n: Seq<char>) -> int {
    param_pos_from(ps, n, 0)
}

/// A map insertion on a parameter list: replace the entry named `n`, or append one.
pub open spec fn insert_param(ps: Seq<(Seq<char>, Seq<char>)>, n: Seq<char>, d: Seq<char>) -> Seq<
    (Seq<char>, Seq<char>),
> {
    let i = param_pos(ps, n);
    if i >= 0 {
        ps.update(i, (n, d))
    } else {
        ps.push((n, d))
    }
}

/// The state of the line-by-line parser.
#[verifier::ext_equal]
pub struct ParseState {
    pub section: Section,
    pub in_code: bool,
    pub summary_lines: Seq<Seq<char>>,
    pub description_lines: Seq<Seq<char>>,
    pub current_example: Seq<Seq<char>>,
    pub doc: DocModel,
}

/// The state before the first line.
pub open spec fn initial_state() -> ParseState {
    ParseState {
        section: Section::Summary,
        in_code: false,
        summary_lines: Seq::empty(),
        description_lines: Seq::empty(),
        current_example: Seq::empty(),
        doc: empty_doc(),
    }
}

/// How a line outside any code block and header affects the state, by section.
pub open spec fn content_step(st: ParseState, t: Seq<char>) -> ParseState {
    let is_text = t.len() > 0 && t[0] != '#';
    match st.section {
        Section::Summary => {
            if t.len() == 0 && st.summary_lines.len() > 0 {
                ParseState { section: Section::Description, ..st }
            } else if t.len() > 0 {
                ParseState { summary_lines: st.summary_lines.push(t), ..st }
            } else {
                st
            }
        },
        Section::Description => ParseState {
            description_lines: st.description_lines.push(t),
            ..st
        },
        Section::Returns => {
            if is_text {
                let existing = match st.doc.returns {
                    Some(r) => r,
                    None => Seq::empty(),
                };
                let r = if existing.len() == 0 {
                    t
                } else {
                    existing + " "@ + t
                };
                ParseState { doc: DocModel { returns: Some(r), ..st.doc }, ..st }
            } else {
                st
            }
        },
        Section::Throws => {
            if is_text {
                ParseState { doc: DocModel { throws: st.doc.throws.push(t), ..st.doc }, ..st }
            } else {
                st
            }
        },
        Section::SeeAlso => {
            if is_text {
                ParseState { doc: DocModel { see_also: st.doc.see_also.push(t), ..st.doc }, ..st }
            } else {
                st
            }
        },
        _ => st,
    }
}

/// How one raw line affects the parser state.
pub open spec fn step(st: ParseState, line: Seq<char>) -> ParseState {
    let t = trim(line);
    if has_prefix(t, "```"@) {
        if st.in_code {
            if st.section == Section::Example {
                ParseState {
                    in_code: false,
                    current_example: Seq::empty(),
                    doc: DocModel {
                        examples: st.doc.examples.push(join(st.current_example, "\n"@)),
                        ..st.doc
                    },
                    ..st
                }
            } else {
                ParseState { in_code: false, ..st }
            }
        } else {
            let sec = if contains_seq(t, "stratum"@) || st.section == Section::Example {
                Section::Example
            } else {
                st.section
            };
            ParseState { in_code: true, section: sec, ..st }
        }
    } else if st.in_code {
        if st.section == Section::Example {
            ParseState { current_example: st.current_example.push(line), ..st }
        } else {
            st
        }
    } else if section_header(lowercase(t)) is Some {
        ParseState { section: section_header(lowercase(t))->0, ..st }
    } else if st.section == Section::Arguments && param_line(t) is Some {
        let (n, d) = param_line(t)->0;
        ParseState { doc: DocModel { params: insert_param(st.doc.params, n, d), ..st.doc }, ..st }
    } else {
        content_step(st, t)
    }
}

/// The state after reading all of `ls`, in order.
pub open spec fn run(ls: Seq<Seq<char>>) -> ParseState
    decreases ls.len(),
{
    if ls.len() == 0 {
        initial_state()
    } else {
        step(run(ls.drop_last()), ls.last())
    }
}

/// The documentation that a finished parser state stands for.
pub open spec fn finish(st: ParseState) -> DocModel {
    let desc = trim(join(st.description_lines, "\n"@));
    DocModel {
        summary: join(st.summary_lines, " "@),
        description: if desc.len() > 0 {
            Some(desc)
        } else {
            st.doc.description
        },
        ..st.doc
    }
}

/// The documentation that doc-comment text stands for.
pub open spec fn parse_model(text: Seq<char>) -> DocModel {
    finish(run(lines(text)))
}

// ---------------------------------------------------------------------------
// The parser
// ---------------------------------------------------------------------------

/// The section opened by a trimmed header line, if it is one.
fn parse_section_header(t: &Vec<char>) -> (r: Option<Section>)
    ensures
        r == section_header(lowercase(t@)),
{
    let s = string_of(t);
    let lower_s = to_lowercase(s.as_str());
    let lower = chars_of(lower_s.as_str());
    if starts_with(&lower, "## arguments") || starts_with(&lower, "# arguments") {
        Some(Section::Arguments)
    } else if starts_with(&lower, "## returns") || starts_with(&lower, "# returns") {
        Some(Section::Returns)
    } else if starts_with(&lower, "## example") || starts_with(&lower, "# example") {
        Some(Section::Example)
    } else if starts_with(&lower, "## throws") || starts_with(&lower, "# throws") {
        Some(Section::Throws)
    } else if starts_with(&lower, "## see also") || starts_with(&lower, "# see also") {
        Some(Section::SeeAlso)
    } else {
        None
    }
}

/// `param_description` on `rest` (already trimmed or not).
fn parse_param_description(rest: &Vec<char>) -> (r: Vec<char>)
    ensures
        r@ == param_description(rest@),
{
    if rest.len() > 0 && rest[0] == ':' {
        let r = trim_range(rest, 1, rest.len());
        assert(rest@.subrange(1, rest@.len() as int) == rest@.skip(1));
        r
    } else {
        let r = trim_range(rest, 0, rest.len());
        assert(rest@.subrange(0, rest@.len() as int) == rest@);
        r
    }
}

/// Parses a line like ``- `name`: description`` or `- name: description`.
fn parse_param_line(t: &Vec<char>) -> (r: Option<(Vec<char>, Vec<char>)>)
    ensures
        match r {
            Some(p) => param_line(t@) == Some((p.0@, p.1@)),
            None => param_line(t@) is None,
        },
{
    if !(t.len() > 0 && t[0] == '-') {
        return None;
    }
    let l = trim_range(t, 1, t.len());
    assert(t@.subrange(1, t@.len() as int) == t@.skip(1));
    if l.len() > 0 && l[0] == '`' {
        let k = find_char_exec(&l, '`', 1);
        proof {
            lemma_find_char_from(l@, '`', 1);
        }
        if k >= l.len() {
            None
        } else {
            let name = slice_vec(&l, 1, k);
            let rest = trim_range(&l, k + 1, l.len());
            assert(l@.subrange(k + 1, l@.len() as int) == l@.skip(k + 1));
            let desc = parse_param_description(&rest);
            Some((name, desc))
        }
    } else {
        let c = find_char_exec(&l, ':', 0);
        proof {
            lemma_find_char_from(l@, ':', 0);
        }
        if c >= l.len() {
            None
        } else {
            let name = trim_range(&l, 0, c);
            assert(l@.subrange(0, c as int) == l@.take(c as int));
            let rest = trim_range(&l, c + 1, l.len());
            assert(l@.subrange(c + 1, l@.len() as int) == l@.skip(c + 1));
            let desc = parse_param_description(&rest);
            Some((name, desc))
        }
    }
}

/// Inserts or replaces the documentation of parameter `n`.
fn insert_param_exec(ps: &mut Vec<(String, ParamDoc)>, n: String, d: String)
    ensures
        params_view(final(ps)@) == insert_param(params_view(old(ps)@), n@, d@),
{
    let ghost pv = params_view(ps@);
    let mut i: usize = 0;
    while i < ps.len()
        invariant
            i <= ps@.len(),
            pv == params_view(ps@),
            ps@ == old(ps)@,
            param_pos(pv, n@) == param_pos_from(pv, n@, i as int),
        decreases ps.len() - i,
    {
        if ps[i].0 == n {
            assert(param_pos_from(pv, n@, i as int) == i);
            let ghost old_ps = ps@;
            ps.set(i, (n, ParamDoc { description: d }));
            assert(params_view(ps@) =~= pv.update(i as int, (n@, d@)));
            return ;
        }
        i = i + 1;
    }
    let ghost old_ps = ps@;
    ps.push((n, ParamDoc { description: d }));
    assert(params_view(ps@) =~= pv.push((n@, d@)));
}

/// The executable state of the parser.
struct ParseBuf {
    section: Section,
    in_code: bool,
    summary_lines: Vec<Vec<char>>,
    description_lines: Vec<Vec<char>>,
    current_example: Vec<Vec<char>>,
    doc: DocComment,
}

impl View for ParseBuf {
    type V = ParseState;

    closed spec fn view(&self) -> ParseState {
        ParseState {
            section: self.section,
            in_code: self.in_code,
            summary_lines: vviews(self.summary_lines@),
            description_lines: vviews(self.description_lines@),
            current_example: vviews(self.current_example@),
            doc: self.doc@,
        }
    }
}

impl Default for DocComment {
    /// The documentation comment with nothing in it.
    fn default() -> (r: DocComment)
        ensures
            r@ == empty_doc(),
    {
        let r = DocComment {
            summary: String::new(),
            description: None,
            params: Vec::new(),
            returns: None,
            examples: Vec::new(),
            throws: Vec::new(),
            see_also: Vec::new(),
        };
        assert(r@ =~= empty_doc());
        r
    }
}

/// Pushes a character vector onto a vector of them.
fn push_line(ls: &mut Vec<Vec<char>>, l: Vec<char>)
    ensures
        vviews(final(ls)@) == vviews(old(ls)@).push(l@),
{
    ls.push(l);
    assert(vviews(ls@) =~= vviews(old(ls)@).push(l@));
}

/// Pushes a string onto a vector of strings.
fn push_string(ls: &mut Vec<String>, l: String)
    ensures
        views(final(ls)@) == views(old(ls)@).push(l@),
{
    ls.push(l);
    assert(views(ls@) =~= views(old(ls)@).push(l@));
}

/// `content_step` on the executable state.
fn content_step_exec(st: &mut ParseBuf, t: Vec<char>)
    ensures
        final(st)@ == content_step(old(st)@, t@),
{
    let is_text = t.len() > 0 && t[0] != '#';
    match st.section {
        Section::Summary => {
            if t.len() == 0 && st.summary_lines.len() > 0 {
                st.section = Section::Description;
            } else if t.len() > 0 {
                push_line(&mut st.summary_lines, t);
            }
        },
        Section::Description => {
            push_line(&mut st.description_lines, t);
        },
        Section::Returns => {
            if is_text {
                let existing = match &st.doc.returns {
                    Some(r) => r.clone(),
                    None => String::new(),
                };
                let mut r = existing;
                if r.as_str().is_empty() {
                    r = string_of(&t);
                } else {
                    r.append(" ");
                    push_range(&mut r, &t, 0, t.len());
                    assert(t@.subrange(0, t@.len() as int) == t@);
                }
                st.doc.returns = Some(r);
            }
        },
        Section::Throws => {
            if is_text {
                push_string(&mut st.doc.throws, string_of(&t));
            }
        },
        Section::SeeAlso => {
            if is_text {
                push_string(&mut st.doc.see_also, string_of(&t));
            }
        },
        _ => {},
    }
}

/// `step` on the executable state.
fn step_exec(st: &mut ParseBuf, line: Vec<char>)
    ensures
        final(st)@ == step(old(st)@, line@),
{
    let t = trim_range(&line, 0, line.len());
    assert(line@.subrange(0, line@.len() as int) == line@);
    if starts_with(&t, "```") {
        if st.in_code {
            st.in_code = false;
            if st.section == Section::Example {
                let ex = join_chars(&st.current_example, "\n");
                push_string(&mut st.doc.examples, ex);
                st.current_example = Vec::new();
                assert(vviews(st.current_example@) =~= Seq::<Seq<char>>::empty());
            }
        } else {
            st.in_code = true;
            if contains_str(&t, "stratum") || st.section == Section::Example {
                st.section = Section::Example;
            }
        }
        return ;
    }
    if st.in_code {
        if st.section == Section::Example {
            push_line(&mut st.current_example, line);
        }
        return ;
    }
    let header = parse_section_header(&t);
    if let Some(sec) = header {
        st.section = sec;
        return ;
    }
    if st.section == Section::Arguments {
        let p = parse_param_line(&t);
        if let Some((n, d)) = p {
            insert_param_exec(&mut st.doc.params, string_of(&n), string_of(&d));
            return ;
        }
    }
    content_step_exec(st, t);
}

impl DocComment {
    /// Parse a doc comment from raw text
    pub fn parse(text: &str) -> (doc: DocComment)
        ensures
            doc@ == parse_model(text@),
    {
        let chars = chars_of(text);
        let ls = split_lines(&chars);
        let ghost all = vviews(ls@);
        let mut st = ParseBuf {
            section: Section::Summary,
            in_code: false,
            summary_lines: Vec::new(),
            description_lines: Vec::new(),
            current_example: Vec::new(),
            doc: DocComment::default(),
        };
        assert(st@ =~= initial_state());
        let mut i: usize = 0;
        while i < ls.len()
            invariant
                i <= ls@.len(),
                all == vviews(ls@),
                all == lines(text@),
                st@ == run(all.take(i as int)),
            decreases ls.len() - i,
        {
            assert(all.take(i + 1).drop_last() =~= all.take(i as int));
            step_exec(&mut st, ls[i].clone());
            i = i + 1;
        }
        assert(all.take(ls@.len() as int) =~= all);
        let summary = join_chars(&st.summary_lines, " ");
        let desc_s = join_chars(&st.description_lines, "\n");
        let desc = trim_str(desc_s.as_str());
        let mut doc = st.doc;
        doc.summary = summary;
        if desc.len() > 0 {
            doc.description = Some(string_of(&desc));
        }
        assert(doc@ =~= finish(st@));
        doc
    }

    /// Check if the doc comment is empty
    pub fn is_empty(&self) -> (r: bool)
        ensures
            r == (self@.summary.len() == 0 && self@.description is None && self@.params.len() == 0
                && self@.returns is None && self@.examples.len() == 0),
    {
        self.summary.as_str().is_empty() && self.description.is_none() && self.params.len() == 0
            && self.returns.is_none() && self.examples.len() == 0
    }
}

// ---------------------------------------------------------------------------
// Documented items and modules
// ---------------------------------------------------------------------------

/// Kind of documented item
#[derive(Debug, Clone, Copy, PartialEq, Eq, Structural)]
pub enum ItemKind {
    Function,
    Struct,
    Field,
    Enum,
    Variant,
    Interface,
    Method,
    Impl,
    Constant,
}

/// The display name of an item kind.
pub open spec fn kind_display(k: ItemKind) -> Seq<char> {
    match k {
        ItemKind::Function => "Function"@,
        ItemKind::Struct => "Struct"@,
        ItemKind::Field => "Field"@,
        ItemKind::Enum => "Enum"@,
        ItemKind::Variant => "Variant"@,
        ItemKind::Interface => "Interface"@,
        ItemKind::Method => "Method"@,
        ItemKind::Impl => "Implementation"@,
        ItemKind::Constant => "Constant"@,
    }
}

impl ItemKind {
    /// Get the display name for the item kind
    pub fn display_name(&self) -> (r: &'static str)
        ensures
            r@ == kind_display(*self),
    {
        match self {
            ItemKind::Function => "Function",
            ItemKind::Struct => "Struct",
            ItemKind::Field => "Field",
            ItemKind::Enum => "Enum",
            ItemKind::Variant => "Variant",
            ItemKind::Interface => "Interface",
            ItemKind::Method => "Method",
            ItemKind::Impl => "Implementation",
            ItemKind::Constant => "Constant",
        }
    }
}

/// A documented item (function, struct, enum, etc.)
#[derive(Debug)]
pub struct DocumentedItem {
    /// Name of the item
    pub name: String,
    /// Kind of item
    pub kind: ItemKind,
    /// Documentation comment
    pub doc: Option<DocComment>,
    /// Signature (for display)
    pub signature: String,
    /// Child items (fields for structs, variants for enums, methods for impls)
    pub children: Vec<DocumentedItem>,
}

impl DocumentedItem {
    /// Create a new documented item
    pub fn new(name: String, kind: ItemKind, signature: String) -> (r: DocumentedItem)
        ensures
            r.name == name,
            r.kind == kind,
            r.doc is None,
            r.signature == signature,
            r.children@.len() == 0,
    {
        DocumentedItem { name, kind, doc: None, signature, children: Vec::new() }
    }

    /// Set the documentation
    pub fn with_doc(self, doc: Option<DocComment>) -> (r: DocumentedItem)
        ensures
            r == (DocumentedItem { doc, ..self }),
    {
        let mut s = self;
        s.doc = doc;
        s
    }

    /// Add a child item
    pub fn add_child(&mut self, child: DocumentedItem)
        ensures
            final(self).children@ == old(self).children@.push(child),
            final(self).name == old(self).name,
            final(self).kind == old(self).kind,
            final(self).doc == old(self).doc,
            final(self).signature == old(self).signature,
    {
        self.children.push(child);
    }
}

/// Documentation for a complete module/file
#[derive(Debug)]
pub struct DocumentedModule {
    /// Module name (usually file stem)
    pub name: String,
    /// Module-level documentation
    pub doc: Option<DocComment>,
    /// Documented items in the module
    pub items: Vec<DocumentedItem>,
}

/// The items of `items` of kind `k`, in order.
pub open spec fn of_kind(items: Seq<DocumentedItem>, k: ItemKind) -> Seq<DocumentedItem>
    decreases items.len(),
{
    if items.len() == 0 {
        Seq::empty()
    } else if items.last().kind == k {
        of_kind(items.drop_last(), k).push(items.last())
    } else {
        of_kind(items.drop_last(), k)
    }
}

/// The values behind a sequence of references.
pub open spec fn derefs<T>(v: Seq<&T>) -> Seq<T> {
    v.map_values(|r: &T| *r)
}

/// The items of kind `k`, in order.
pub fn items_of_kind(items: &Vec<DocumentedItem>, k: ItemKind) -> (r: Vec<&DocumentedItem>)
    ensures
        derefs(r@) == of_kind(items@, k),
{
    let mut out: Vec<&DocumentedItem> = Vec::new();
    let mut i: usize = 0;
    while i < items.len()
        invariant
            i <= items@.len(),
            derefs(out@) == of_kind(items@.take(i as int), k),
        decreases items.len() - i,
    {
        assert(items@.take(i + 1).drop_last() =~= items@.take(i as int));
        let ghost before = out@;
        if items[i].kind == k {
            out.push(&items[i]);
            assert(derefs(out@) =~= derefs(before).push(items@[i as int]));
        }
        i = i + 1;
    }
    assert(items@.take(items@.len() as int) =~= items@);
    out
}

impl DocumentedModule {
    /// Create a new documented module
    pub fn new(name: String) -> (r: DocumentedModule)
        ensures
            r.name == name,
            r.doc is None,
            r.items@.len() == 0,
    {
        DocumentedModule { name, doc: None, items: Vec::new() }
    }

    /// Add a documented item
    pub fn add_item(&mut self, item: DocumentedItem)
        ensures
            final(self).items@ == old(self).items@.push(item),
            final(self).name == old(self).name,
            final(self).doc == old(self).doc,
    {
        self.items.push(item);
    }

    /// Get all functions
    pub fn functions(&self) -> (r: Vec<&DocumentedItem>)
        ensures
            derefs(r@) == of_kind(self.items@, ItemKind::Function),
    {
        items_of_kind(&self.items, ItemKind::Function)
    }

    /// Get all structs
    pub fn structs(&self) -> (r: Vec<&DocumentedItem>)
        ensures
            derefs(r@) == of_kind(self.items@, ItemKind::Struct),
    {
        items_of_kind(&self.items, ItemKind::Struct)
    }

    /// Get all enums
    pub fn enums(&self) -> (r: Vec<&DocumentedItem>)
        ensures
            derefs(r@) == of_kind(self.items@, ItemKind::Enum),
    {
        items_of_kind(&self.items, ItemKind::Enum)
    }

    /// Get all interfaces
    pub fn interfaces(&self) -> (r: Vec<&DocumentedItem>)
        ensures
            derefs(r@) == of_kind(self.items@, ItemKind::Interface),
    {
        items_of_kind(&self.items, ItemKind::Interface)
    }
}

} // verus!

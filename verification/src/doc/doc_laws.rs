//! What documentation is for: the description of a doc comment is every
//! line after the first blank one, a word the project documents is linked,
//! and the pages of an item show every documented part of it.

use vstd::prelude::*;

use super::crosslink::{anchor_html, is_builtin, is_keyword_spec, render_word, resolve_word};
use super::html::{item_html, link_text, module_page};
use super::markdown::{item_md, markdown_spec};
use super::project::{link_of, ProjectDoc};
use super::types::{
    empty_doc, initial_state, lines, of_kind, parse_model, run, section_header, step, DocModel, DocumentedItem,
    DocumentedModule, ItemKind, ParseState, Section,
};
use crate::text::{contains_seq, has_prefix, join, leading_ws, lowercase, occurs_at, trailing_ws, trim};

verus! {

// ---------------------------------------------------------------------------
// Text containing text
// ---------------------------------------------------------------------------

/// `x` occurs in `a + x + b`.
pub proof fn lemma_contains_middle(a: Seq<char>, x: Seq<char>, b: Seq<char>)
    ensures
        contains_seq(a + x + b, x),
{
    let s = a + x + b;
    assert(s.subrange(a.len() as int, (a.len() + x.len()) as int) =~= x);
    assert(occurs_at(s, x, a.len() as int));
}

/// What occurs in a part of a text occurs in the text.
pub proof fn lemma_contains_within(a: Seq<char>, s: Seq<char>, b: Seq<char>, x: Seq<char>)
    requires
        contains_seq(s, x),
    ensures
        contains_seq(a + s + b, x),
{
    let i = choose|i: int| occurs_at(s, x, i);
    let t = a + s + b;
    assert(t.subrange(a.len() + i, a.len() + i + x.len()) =~= s.subrange(i, i + x.len()));
    assert(occurs_at(t, x, a.len() + i));
}

// ---------------------------------------------------------------------------
// Parsing doc comments
// ---------------------------------------------------------------------------

/// A line that, trimmed, neither opens or closes a code block nor opens a
/// section.
pub open spec fn plain_line(l: Seq<char>) -> bool {
    !has_prefix(trim(l), "```"@) && section_header(lowercase(trim(l))) is None
}

/// The description a doc comment gets from the lines after its first blank
/// line: the lines, each trimmed, joined by newlines and trimmed.
pub open spec fn description_of(ls: Seq<Seq<char>>) -> Seq<char> {
    trim(join(ls.map_values(|l: Seq<char>| trim(l)), "\n"@))
}

proof fn lemma_trim_empty()
    ensures
        trim(Seq::<char>::empty()) == Seq::<char>::empty(),
{
    let e = Seq::<char>::empty();
    assert(leading_ws(e) == 0);
    assert(e.skip(0) =~= e);
    assert(trailing_ws(e) == 0);
    assert(e.take(0) =~= e);
}

/// The parser's state after a one-line summary, a blank line and the
/// first `k` of `ls`.
proof fn lemma_run_description(s: Seq<char>, ls: Seq<Seq<char>>, k: int)
    requires
        0 <= k <= ls.len(),
        trim(s).len() > 0,
        plain_line(s),
        plain_line(Seq::empty()),
        forall|i: int| 0 <= i < ls.len() ==> plain_line(#[trigger] ls[i]),
    ensures
        run(seq![s, Seq::empty()] + ls.take(k)) == (ParseState {
            section: Section::Description,
            in_code: false,
            summary_lines: seq![trim(s)],
            description_lines: ls.take(k).map_values(|l: Seq<char>| trim(l)),
            current_example: Seq::empty(),
            doc: empty_doc(),
        }),
    decreases k,
{
    let pre = seq![s, Seq::<char>::empty()];
    if k == 0 {
        lemma_trim_empty();
        assert(pre + ls.take(0) =~= pre);
        assert(pre.drop_last() =~= seq![s]);
        assert(pre.last() == Seq::<char>::empty());
        assert(seq![s].drop_last() =~= Seq::<Seq<char>>::empty());
        assert(seq![s].last() == s);
        assert(run(Seq::<Seq<char>>::empty()) == initial_state());
        let st1 = ParseState { summary_lines: seq![trim(s)], ..initial_state() };
        assert(Seq::<Seq<char>>::empty().push(trim(s)) =~= seq![trim(s)]);
        assert(step(initial_state(), s) == st1);
        assert(run(seq![s]) == st1);
        assert(!has_prefix(trim(Seq::<char>::empty()), "```"@));
        let st2 = ParseState { section: Section::Description, ..st1 };
        assert(step(st1, Seq::<char>::empty()) == st2);
        assert(ls.take(0).map_values(|l: Seq<char>| trim(l)) =~= Seq::<Seq<char>>::empty());
    } else {
        lemma_run_description(s, ls, k - 1);
        let all = pre + ls.take(k);
        assert(all.drop_last() =~= pre + ls.take(k - 1));
        assert(all.last() == ls[k - 1]);
        assert(plain_line(ls[k - 1]));
        assert(ls.take(k).map_values(|l: Seq<char>| trim(l)) =~= ls.take(k - 1).map_values(|l: Seq<char>| trim(l)).push(
            trim(ls[k - 1]),
        ));
    }
}

/// A doc comment whose lines are a summary line, a blank line and then
/// plain lines has that summary, trimmed, and as its description every one
/// of the later lines, trimmed, joined by newlines (none if that is empty).
pub proof fn lemma_description_is_every_later_line(text: Seq<char>, s: Seq<char>, ls: Seq<Seq<char>>)
    requires
        lines(text) == seq![s, Seq::empty()] + ls,
        trim(s).len() > 0,
        plain_line(s),
        plain_line(Seq::empty()),
        forall|i: int| 0 <= i < ls.len() ==> plain_line(#[trigger] ls[i]),
    ensures
        parse_model(text).summary == trim(s),
        parse_model(text).description == if description_of(ls).len() > 0 {
            Some(description_of(ls))
        } else {
            None::<Seq<char>>
        },
        parse_model(text).params.len() == 0,
        parse_model(text).returns is None,
{
    lemma_run_description(s, ls, ls.len() as int);
    assert(ls.take(ls.len() as int) =~= ls);
    assert(join(seq![trim(s)], " "@) == trim(s));
}

/// A line of text: not blank, and not starting with `'#'`, once trimmed.
pub open spec fn text_line(l: Seq<char>) -> bool {
    trim(l).len() > 0 && trim(l)[0] != '#' && plain_line(l)
}

/// Joining parts that are not all empty gives text that is not empty.
proof fn lemma_join_nonempty(parts: Seq<Seq<char>>, sep: Seq<char>)
    requires
        parts.len() > 0,
        parts.last().len() > 0,
    ensures
        join(parts, sep).len() > 0,
{
}

/// The parser's state after a summary line, a blank line, a Returns
/// header and the first `k` of `ls`.
proof fn lemma_run_returns(s: Seq<char>, h: Seq<char>, ls: Seq<Seq<char>>, k: int)
    requires
        0 <= k <= ls.len(),
        trim(s).len() > 0,
        plain_line(s),
        plain_line(Seq::empty()),
        !has_prefix(trim(h), "```"@),
        section_header(lowercase(trim(h))) == Some(Section::Returns),
        forall|i: int| 0 <= i < ls.len() ==> text_line(#[trigger] ls[i]),
    ensures
        run(seq![s, Seq::empty(), h] + ls.take(k)) == (ParseState {
            section: Section::Returns,
            in_code: false,
            summary_lines: seq![trim(s)],
            description_lines: Seq::empty(),
            current_example: Seq::empty(),
            doc: DocModel {
                returns: if k == 0 {
                    None
                } else {
                    Some(join(ls.take(k).map_values(|l: Seq<char>| trim(l)), " "@))
                },
                ..empty_doc()
            },
        }),
    decreases k,
{
    let pre = seq![s, Seq::<char>::empty(), h];
    if k == 0 {
        lemma_run_description(s, Seq::empty(), 0);
        assert(seq![s, Seq::<char>::empty()] + Seq::<Seq<char>>::empty().take(0) =~= seq![s, Seq::<char>::empty()]);
        assert(pre + ls.take(0) =~= pre);
        assert(pre.drop_last() =~= seq![s, Seq::<char>::empty()]);
        assert(pre.last() == h);
        assert(Seq::<Seq<char>>::empty().take(0).map_values(|l: Seq<char>| trim(l)) =~= Seq::<Seq<char>>::empty());
    } else {
        lemma_run_returns(s, h, ls, k - 1);
        let all = pre + ls.take(k);
        assert(all.drop_last() =~= pre + ls.take(k - 1));
        assert(all.last() == ls[k - 1]);
        assert(text_line(ls[k - 1]));
        let t = trim(ls[k - 1]);
        let parts = ls.take(k).map_values(|l: Seq<char>| trim(l));
        let prev = ls.take(k - 1).map_values(|l: Seq<char>| trim(l));
        assert(parts =~= prev.push(t));
        if k == 1 {
            assert(parts =~= seq![t]);
            assert(join(parts, " "@) == t);
        } else {
            assert(prev.last() == trim(ls[k - 2]));
            assert(text_line(ls[k - 2]));
            lemma_join_nonempty(prev, " "@);
            assert(parts.drop_last() =~= prev);
            assert(join(parts, " "@) == join(prev, " "@) + " "@ + t);
        }
    }
}

/// A doc comment whose lines are a summary line, a blank line, a Returns
/// header and then lines of text says that it returns those lines, each
/// trimmed, joined by spaces; it has no description.
pub proof fn lemma_returns_is_every_later_line(text: Seq<char>, s: Seq<char>, h: Seq<char>, ls: Seq<Seq<char>>)
    requires
        lines(text) == seq![s, Seq::empty(), h] + ls,
        ls.len() > 0,
        trim(s).len() > 0,
        plain_line(s),
        plain_line(Seq::empty()),
        !has_prefix(trim(h), "```"@),
        section_header(lowercase(trim(h))) == Some(Section::Returns),
        forall|i: int| 0 <= i < ls.len() ==> text_line(#[trigger] ls[i]),
    ensures
        parse_model(text).summary == trim(s),
        parse_model(text).returns == Some(join(ls.map_values(|l: Seq<char>| trim(l)), " "@)),
        parse_model(text).description is None,
{
    lemma_run_returns(s, h, ls, ls.len() as int);
    assert(ls.take(ls.len() as int) =~= ls);
    assert(join(seq![trim(s)], " "@) == trim(s));
    lemma_trim_empty();
    assert(join(Seq::<Seq<char>>::empty(), "\n"@) == Seq::<char>::empty());
}

// ---------------------------------------------------------------------------
// Linking
// ---------------------------------------------------------------------------

/// A word the project documents is linked to its symbol, unless it is a
/// built-in type name or a keyword, whatever its case.
pub proof fn lemma_documented_words_linked(p: ProjectDoc, w: Seq<char>, m: Seq<char>)
    requires
        resolve_word(p, w, m) is Some,
        !is_builtin(w),
        !is_keyword_spec(w),
    ensures
        render_word(p, w, m) == anchor_html(link_of(resolve_word(p, w, m)->0@, m), w),
{
}

// ---------------------------------------------------------------------------
// The pages of an item
// ---------------------------------------------------------------------------

/// The returns part of an item's HTML page.
pub open spec fn returns_block(l: Option<(ProjectDoc, Seq<char>)>, r: Seq<char>) -> Seq<char> {
    "    <div class=\"returns\">\n      <h4>Returns</h4>\n      <p>"@ + link_text(l, r) + "</p>\n    </div>\n"@
}

/// `x` occurs at the end of `a + x`.
pub proof fn lemma_contains_end(a: Seq<char>, x: Seq<char>)
    ensures
        contains_seq(a + x, x),
{
    assert((a + x).subrange(a.len() as int, (a.len() + x.len()) as int) =~= x);
    assert(occurs_at(a + x, x, a.len() as int));
}

/// What occurs in `s` occurs in `s + b` and in `a + s`.
pub proof fn lemma_contains_extend(s: Seq<char>, x: Seq<char>, a: Seq<char>, b: Seq<char>)
    requires
        contains_seq(s, x),
    ensures
        contains_seq(s + b, x),
        contains_seq(a + s, x),
{
    let i = choose|i: int| occurs_at(s, x, i);
    assert((s + b).subrange(i, i + x.len()) =~= s.subrange(i, i + x.len()));
    assert(occurs_at(s + b, x, i));
    assert((a + s).subrange(a.len() + i, a.len() + i + x.len()) =~= s.subrange(i, i + x.len()));
    assert(occurs_at(a + s, x, a.len() + i));
}

/// What the documentation of an item shows, its HTML page shows.
proof fn lemma_item_html_shows_doc(item: DocumentedItem, l: Option<(ProjectDoc, Seq<char>)>, see: bool, x: Seq<char>)
    requires
        item.doc is Some,
        contains_seq(super::html::doc_html(item.doc->0@, l, see), x),
    ensures
        contains_seq(item_html(item, l, see), x),
{
    let dh = super::html::doc_html(item.doc->0@, l, see);
    let head = super::html::item_head_html(item, l);
    let ch = super::html::children_html(item, l);
    lemma_contains_extend(dh, x, head, ch);
    lemma_contains_extend(head + dh, x, Seq::empty(), ch);
    lemma_contains_extend(head + dh + ch, x, Seq::empty(), "  </div>\n"@);
}

/// The HTML of an item whose documentation says what it returns shows it,
/// under a "Returns" heading.
pub proof fn lemma_item_html_shows_returns(item: DocumentedItem, l: Option<(ProjectDoc, Seq<char>)>, see: bool)
    requires
        item.doc is Some,
        item.doc->0@.returns is Some,
    ensures
        contains_seq(item_html(item, l, see), returns_block(l, item.doc->0@.returns->0)),
{
    let d = item.doc->0@;
    let x = returns_block(l, d.returns->0);
    let a = super::html::item_text_html(d, l) + super::html::params_html(d, l);
    assert(super::html::returns_html(d, l) == x);
    lemma_contains_end(a, x);
    let s1 = a + x;
    let th = super::html::throws_html(d);
    lemma_contains_extend(s1, x, Seq::empty(), th);
    let sa = if see {
        super::html::see_also_html(d, l)
    } else {
        Seq::empty()
    };
    lemma_contains_extend(s1 + th, x, Seq::empty(), sa);
    lemma_contains_extend(s1 + th + sa, x, Seq::empty(), super::html::examples_html(d));
    assert(super::html::doc_html(d, l, see) == s1 + th + sa + super::html::examples_html(d));
    lemma_item_html_shows_doc(item, l, see, x);
}

/// The HTML of an item whose documentation has a summary shows it.
pub proof fn lemma_item_html_shows_summary(item: DocumentedItem, l: Option<(ProjectDoc, Seq<char>)>, see: bool)
    requires
        item.doc is Some,
        item.doc->0@.summary.len() > 0,
    ensures
        contains_seq(item_html(item, l, see), link_text(l, item.doc->0@.summary)),
{
    let d = item.doc->0@;
    let x = link_text(l, d.summary);
    let open = "    <p class=\"summary\">"@;
    let close = "</p>\n"@;
    lemma_contains_middle(open, x, close);
    let p = open + x + close;
    let desc = match d.description {
        Some(desc) => "    <div class=\"description\">"@ + link_text(l, desc) + "</div>\n"@,
        None => Seq::empty(),
    };
    lemma_contains_extend(p, x, Seq::empty(), desc);
    assert(super::html::item_text_html(d, l) == p + desc);
    let rest1 = super::html::params_html(d, l);
    lemma_contains_extend(p + desc, x, Seq::empty(), rest1);
    let s2 = p + desc + rest1;
    lemma_contains_extend(s2, x, Seq::empty(), super::html::returns_html(d, l));
    let s3 = s2 + super::html::returns_html(d, l);
    lemma_contains_extend(s3, x, Seq::empty(), super::html::throws_html(d));
    let s4 = s3 + super::html::throws_html(d);
    let sa = if see {
        super::html::see_also_html(d, l)
    } else {
        Seq::empty()
    };
    lemma_contains_extend(s4, x, Seq::empty(), sa);
    lemma_contains_extend(s4 + sa, x, Seq::empty(), super::html::examples_html(d));
    assert(super::html::doc_html(d, l, see) == s4 + sa + super::html::examples_html(d));
    lemma_item_html_shows_doc(item, l, see, x);
}

/// What the documentation of an item shows, its Markdown shows.
proof fn lemma_item_md_shows_doc(item: DocumentedItem, level: nat, x: Seq<char>)
    requires
        item.doc is Some,
        contains_seq(super::markdown::doc_md(item.doc->0@), x),
    ensures
        contains_seq(item_md(item, level), x),
{
    let dm = super::markdown::doc_md(item.doc->0@);
    let head = super::markdown::hashes(level) + " `"@ + item.name@ + "`\n\n"@ + "```stratum\n"@ + item.signature@
        + "\n```\n\n"@;
    let ch = super::markdown::children_md(item);
    assert(super::markdown::opt_doc_md(item.doc) == dm);
    lemma_contains_extend(dm, x, head, ch);
    lemma_contains_extend(head + dm, x, Seq::empty(), ch);
    lemma_contains_extend(head + dm + ch, x, Seq::empty(), "---\n\n"@);
}

/// The Markdown of an item whose documentation says what it returns shows
/// it after "**Returns:** ".
pub proof fn lemma_item_md_shows_returns(item: DocumentedItem, level: nat)
    requires
        item.doc is Some,
        item.doc->0@.returns is Some,
    ensures
        contains_seq(item_md(item, level), "**Returns:** "@ + item.doc->0@.returns->0 + "\n\n"@),
{
    let d = item.doc->0@;
    let x = "**Returns:** "@ + d.returns->0 + "\n\n"@;
    let a = super::markdown::text_block(d) + super::markdown::params_md(d);
    assert(super::markdown::returns_md(d) == x);
    lemma_contains_end(a, x);
    lemma_contains_extend(a + x, x, Seq::empty(), super::markdown::throws_md(d));
    let s2 = a + x + super::markdown::throws_md(d);
    lemma_contains_extend(s2, x, Seq::empty(), super::markdown::examples_md(d));
    assert(super::markdown::doc_md(d) == s2 + super::markdown::examples_md(d));
    lemma_item_md_shows_doc(item, level, x);
}

/// The Markdown of an item whose documentation has a description shows it.
pub proof fn lemma_item_md_shows_description(item: DocumentedItem, level: nat)
    requires
        item.doc is Some,
        item.doc->0@.description is Some,
    ensures
        contains_seq(item_md(item, level), item.doc->0@.description->0),
{
    let d = item.doc->0@;
    let x = d.description->0;
    let sm = if d.summary.len() == 0 {
        Seq::empty()
    } else {
        d.summary + "\n\n"@
    };
    lemma_contains_middle(sm, x, "\n\n"@);
    assert(super::markdown::text_block(d) == sm + x + "\n\n"@);
    let t = super::markdown::text_block(d);
    lemma_contains_extend(t, x, Seq::empty(), super::markdown::params_md(d));
    let s1 = t + super::markdown::params_md(d);
    lemma_contains_extend(s1, x, Seq::empty(), super::markdown::returns_md(d));
    let s2 = s1 + super::markdown::returns_md(d);
    lemma_contains_extend(s2, x, Seq::empty(), super::markdown::throws_md(d));
    let s3 = s2 + super::markdown::throws_md(d);
    lemma_contains_extend(s3, x, Seq::empty(), super::markdown::examples_md(d));
    assert(super::markdown::doc_md(d) == s3 + super::markdown::examples_md(d));
    lemma_item_md_shows_doc(item, level, x);
}

/// Occurring is transitive.
pub proof fn lemma_contains_trans(s: Seq<char>, y: Seq<char>, x: Seq<char>)
    requires
        contains_seq(s, y),
        contains_seq(y, x),
    ensures
        contains_seq(s, x),
{
    let i = choose|i: int| occurs_at(s, y, i);
    let j = choose|j: int| occurs_at(y, x, j);
    assert(s.subrange(i + j, i + j + x.len()) =~= y.subrange(j, j + x.len()));
    assert(occurs_at(s, x, i + j));
}

/// Every part occurs in the parts one after another.
pub proof fn lemma_concat_contains(parts: Seq<Seq<char>>, i: int)
    requires
        0 <= i < parts.len(),
    ensures
        contains_seq(crate::text::concat(parts), parts[i]),
    decreases parts.len(),
{
    let front = crate::text::concat(parts.drop_last());
    if i == parts.len() - 1 {
        lemma_contains_end(front, parts[i]);
    } else {
        lemma_concat_contains(parts.drop_last(), i);
        assert(parts.drop_last()[i] == parts[i]);
        lemma_contains_extend(front, parts[i], Seq::empty(), parts.last());
        assert(Seq::<char>::empty() + front =~= front);
    }
}

/// `x` occurs in `s` and in nothing added before or after it.
proof fn lemma_contains_around(s: Seq<char>, x: Seq<char>, a: Seq<char>, b: Seq<char>)
    requires
        contains_seq(s, x),
    ensures
        contains_seq(a + s + b, x),
{
    lemma_contains_extend(s, x, a, b);
    lemma_contains_extend(a + s, x, Seq::empty(), b);
    assert(Seq::<char>::empty() + (a + s) =~= a + s);
}

/// The HTML of an item's documentation holds each of its parts.
proof fn lemma_doc_html_parts(d: DocModel, l: Option<(ProjectDoc, Seq<char>)>, see: bool, x: Seq<char>)
    requires
        x == super::html::item_text_html(d, l) || x == super::html::params_html(d, l) || x
            == super::html::returns_html(d, l) || x == super::html::throws_html(d) || x == super::html::examples_html(d),
    ensures
        contains_seq(super::html::doc_html(d, l, see), x),
{
    let t = super::html::item_text_html(d, l);
    let pa = super::html::params_html(d, l);
    let r = super::html::returns_html(d, l);
    let th = super::html::throws_html(d);
    let sa = if see {
        super::html::see_also_html(d, l)
    } else {
        Seq::empty()
    };
    let ex = super::html::examples_html(d);
    let e = Seq::<char>::empty();
    assert(super::html::doc_html(d, l, see) == t + pa + r + th + sa + ex);
    if x == t {
        lemma_contains_middle(e, t, e);
        assert(e + t + e =~= t);
        lemma_contains_around(t, x, e, pa + r + th + sa + ex);
        assert(e + t + (pa + r + th + sa + ex) =~= t + pa + r + th + sa + ex);
    } else if x == pa {
        lemma_contains_middle(t, pa, r + th + sa + ex);
        assert(t + pa + (r + th + sa + ex) =~= t + pa + r + th + sa + ex);
    } else if x == r {
        lemma_contains_middle(t + pa, r, th + sa + ex);
        assert(t + pa + r + (th + sa + ex) =~= t + pa + r + th + sa + ex);
    } else if x == th {
        lemma_contains_middle(t + pa + r, th, sa + ex);
        assert(t + pa + r + th + (sa + ex) =~= t + pa + r + th + sa + ex);
    } else {
        lemma_contains_end(t + pa + r + th + sa, ex);
    }
}

/// The HTML of an item shows every documented argument (its name, escaped,
/// and its description, linked), every exception and every example
/// (escaped).
pub proof fn lemma_item_html_shows_parts(item: DocumentedItem, l: Option<(ProjectDoc, Seq<char>)>, see: bool, i: int)
    requires
        item.doc is Some,
    ensures
        0 <= i < item.doc->0@.params.len() ==> contains_seq(
            item_html(item, l, see),
            super::html::escape_html_spec(item.doc->0@.params[i].0),
        ) && contains_seq(item_html(item, l, see), link_text(l, item.doc->0@.params[i].1)),
        0 <= i < item.doc->0@.throws.len() ==> contains_seq(
            item_html(item, l, see),
            super::html::escape_html_spec(item.doc->0@.throws[i]),
        ),
        0 <= i < item.doc->0@.examples.len() ==> contains_seq(
            item_html(item, l, see),
            super::html::escape_html_spec(item.doc->0@.examples[i]),
        ),
{
    let d = item.doc->0@;
    if 0 <= i < d.params.len() {
        let p = d.params[i];
        let parts = d.params.map_values(|q: (Seq<char>, Seq<char>)| super::html::param_html(q, l));
        lemma_concat_contains(parts, i);
        let ph = super::html::params_html(d, l);
        lemma_contains_around(
            crate::text::concat(parts),
            parts[i],
            "    <div class=\"params\">\n      <h4>Arguments</h4>\n      <ul>\n"@,
            "      </ul>\n    </div>\n"@,
        );
        lemma_doc_html_parts(d, l, see, ph);
        lemma_item_html_shows_doc(item, l, see, ph);
        lemma_contains_trans(item_html(item, l, see), ph, parts[i]);
        let n = super::html::escape_html_spec(p.0);
        let t = link_text(l, p.1);
        lemma_contains_middle("        <li><code>"@, n, "</code>: "@ + t + "</li>\n"@);
        assert("        <li><code>"@ + n + ("</code>: "@ + t + "</li>\n"@) =~= super::html::param_html(p, l));
        lemma_contains_middle("        <li><code>"@ + n + "</code>: "@, t, "</li>\n"@);
        lemma_contains_trans(item_html(item, l, see), parts[i], n);
        lemma_contains_trans(item_html(item, l, see), parts[i], t);
    }
    if 0 <= i < d.throws.len() {
        let parts = d.throws.map_values(|t: Seq<char>| super::html::throw_html(t));
        lemma_concat_contains(parts, i);
        let th = super::html::throws_html(d);
        lemma_contains_around(
            crate::text::concat(parts),
            parts[i],
            "    <div class=\"throws\">\n      <h4>Throws</h4>\n      <ul>\n"@,
            "      </ul>\n    </div>\n"@,
        );
        lemma_doc_html_parts(d, l, see, th);
        lemma_item_html_shows_doc(item, l, see, th);
        lemma_contains_trans(item_html(item, l, see), th, parts[i]);
        let x = super::html::escape_html_spec(d.throws[i]);
        lemma_contains_middle("        <li>"@, x, "</li>\n"@);
        lemma_contains_trans(item_html(item, l, see), parts[i], x);
    }
    if 0 <= i < d.examples.len() {
        let parts = d.examples.map_values(|e: Seq<char>| super::html::example_html(e));
        lemma_concat_contains(parts, i);
        let eh = super::html::examples_html(d);
        lemma_contains_around(
            crate::text::concat(parts),
            parts[i],
            "    <div class=\"example\">\n      <h4>Example</h4>\n"@,
            "    </div>\n"@,
        );
        lemma_doc_html_parts(d, l, see, eh);
        lemma_item_html_shows_doc(item, l, see, eh);
        lemma_contains_trans(item_html(item, l, see), eh, parts[i]);
        let x = super::html::escape_html_spec(d.examples[i]);
        lemma_contains_middle("      <pre>"@, x, "</pre>\n"@);
        lemma_contains_trans(item_html(item, l, see), parts[i], x);
    }
}

/// The Markdown of an item's documentation holds each of its parts.
proof fn lemma_doc_md_parts(d: DocModel, x: Seq<char>)
    requires
        x == super::markdown::params_md(d) || x == super::markdown::throws_md(d) || x == super::markdown::examples_md(d),
    ensures
        contains_seq(super::markdown::doc_md(d), x),
{
    let t = super::markdown::text_block(d);
    let pa = super::markdown::params_md(d);
    let r = super::markdown::returns_md(d);
    let th = super::markdown::throws_md(d);
    let ex = super::markdown::examples_md(d);
    assert(super::markdown::doc_md(d) == t + pa + r + th + ex);
    if x == pa {
        lemma_contains_middle(t, pa, r + th + ex);
        assert(t + pa + (r + th + ex) =~= t + pa + r + th + ex);
    } else if x == th {
        lemma_contains_middle(t + pa + r, th, ex);
    } else {
        lemma_contains_end(t + pa + r + th, ex);
    }
}

/// The Markdown of an item shows every documented argument (its name, then
/// "`: " and its description), every exception and every example.
pub proof fn lemma_item_md_shows_parts(item: DocumentedItem, level: nat, i: int)
    requires
        item.doc is Some,
    ensures
        0 <= i < item.doc->0@.params.len() ==> contains_seq(
            item_md(item, level),
            item.doc->0@.params[i].0 + "`: "@ + item.doc->0@.params[i].1,
        ),
        0 <= i < item.doc->0@.throws.len() ==> contains_seq(item_md(item, level), item.doc->0@.throws[i]),
        0 <= i < item.doc->0@.examples.len() ==> contains_seq(item_md(item, level), item.doc->0@.examples[i]),
{
    let d = item.doc->0@;
    let h = item_md(item, level);
    if 0 <= i < d.params.len() {
        let p = d.params[i];
        let parts = d.params.map_values(|q: (Seq<char>, Seq<char>)| super::markdown::param_md(q));
        lemma_concat_contains(parts, i);
        let pm = super::markdown::params_md(d);
        lemma_contains_around(crate::text::concat(parts), parts[i], "**Arguments:**\n\n"@, "\n"@);
        lemma_doc_md_parts(d, pm);
        lemma_item_md_shows_doc(item, level, pm);
        lemma_contains_trans(h, pm, parts[i]);
        let x = p.0 + "`: "@ + p.1;
        lemma_contains_middle("- `"@, x, "\n"@);
        assert("- `"@ + x + "\n"@ =~= super::markdown::param_md(p));
        lemma_contains_trans(h, parts[i], x);
    }
    if 0 <= i < d.throws.len() {
        let parts = d.throws.map_values(|t: Seq<char>| super::markdown::throw_md(t));
        lemma_concat_contains(parts, i);
        let tm = super::markdown::throws_md(d);
        lemma_contains_around(crate::text::concat(parts), parts[i], "**Throws:**\n\n"@, "\n"@);
        lemma_doc_md_parts(d, tm);
        lemma_item_md_shows_doc(item, level, tm);
        lemma_contains_trans(h, tm, parts[i]);
        lemma_contains_middle("- "@, d.throws[i], "\n"@);
        lemma_contains_trans(h, parts[i], d.throws[i]);
    }
    if 0 <= i < d.examples.len() {
        let parts = d.examples.map_values(|e: Seq<char>| super::markdown::example_md(e));
        lemma_concat_contains(parts, i);
        let em = super::markdown::examples_md(d);
        lemma_contains_around(crate::text::concat(parts), parts[i], "**Example:**\n\n"@, Seq::empty());
        assert("**Example:**\n\n"@ + crate::text::concat(parts) + Seq::<char>::empty() =~= em);
        lemma_doc_md_parts(d, em);
        lemma_item_md_shows_doc(item, level, em);
        lemma_contains_trans(h, em, parts[i]);
        lemma_contains_middle("```stratum\n"@, d.examples[i], "\n```\n\n"@);
        lemma_contains_trans(h, parts[i], d.examples[i]);
    }
}

// ---------------------------------------------------------------------------
// Module pages
// ---------------------------------------------------------------------------

/// The kinds of item that a module page lists in a section of their own.
pub open spec fn listed_kind(k: ItemKind) -> bool {
    k is Function || k is Struct || k is Enum || k is Interface || k is Impl || k is Constant
}

/// An item of kind `k` is among the items of that kind.
proof fn lemma_of_kind_has(items: Seq<DocumentedItem>, j: int)
    requires
        0 <= j < items.len(),
    ensures
        exists|i: int|
            0 <= i < of_kind(items, items[j].kind).len() && #[trigger] of_kind(items, items[j].kind)[i] == items[j],
    decreases items.len(),
{
    let k = items[j].kind;
    if j == items.len() - 1 {
        let o = of_kind(items, k);
        assert(items.last() == items[j]);
        assert(o[o.len() - 1] == items[j]);
    } else {
        lemma_of_kind_has(items.drop_last(), j);
        assert(items.drop_last()[j] == items[j]);
        let o0 = of_kind(items.drop_last(), k);
        let i = choose|i: int| 0 <= i < o0.len() && #[trigger] o0[i] == items[j];
        let o = of_kind(items, k);
        assert(o[i] == items[j]);
    }
}

/// What occurs in one of six texts occurs in them one after another.
proof fn lemma_in_six(
    a: Seq<char>,
    b: Seq<char>,
    c: Seq<char>,
    d: Seq<char>,
    e: Seq<char>,
    f: Seq<char>,
    x: Seq<char>,
)
    requires
        contains_seq(a, x) || contains_seq(b, x) || contains_seq(c, x) || contains_seq(d, x) || contains_seq(e, x)
            || contains_seq(f, x),
    ensures
        contains_seq(a + b + c + d + e + f, x),
{
    let z = Seq::<char>::empty();
    let all = a + b + c + d + e + f;
    if contains_seq(a, x) {
        lemma_contains_around(a, x, z, b + c + d + e + f);
        assert(z + a + (b + c + d + e + f) =~= all);
    } else if contains_seq(b, x) {
        lemma_contains_around(b, x, a, c + d + e + f);
        assert(a + b + (c + d + e + f) =~= all);
    } else if contains_seq(c, x) {
        lemma_contains_around(c, x, a + b, d + e + f);
        assert(a + b + c + (d + e + f) =~= all);
    } else if contains_seq(d, x) {
        lemma_contains_around(d, x, a + b + c, e + f);
        assert(a + b + c + d + (e + f) =~= all);
    } else if contains_seq(e, x) {
        lemma_contains_around(e, x, a + b + c + d, f);
    } else {
        lemma_contains_end(a + b + c + d + e, f);
        lemma_contains_trans(all, f, x);
    }
}

/// A section of items shows each of its items.
proof fn lemma_section_html_shows(id: Seq<char>, title: Seq<char>, o: Seq<DocumentedItem>, i: int)
    requires
        0 <= i < o.len(),
    ensures
        contains_seq(super::html::section_html(id, title, o, None, false), item_html(o[i], None, false)),
{
    let parts = o.map_values(|q: DocumentedItem| item_html(q, None, false));
    lemma_concat_contains(parts, i);
    lemma_contains_around(
        crate::text::concat(parts),
        parts[i],
        "<section id=\""@ + id + "\">\n  <h2>"@ + title + "</h2>\n"@,
        "</section>\n"@,
    );
}

/// What the sections of a module show, its page shows.
proof fn lemma_page_shows_sections(m: DocumentedModule, x: Seq<char>)
    requires
        contains_seq(super::html::sections_html(m.items@, None, false), x),
    ensures
        contains_seq(module_page(m), x),
{
    let before = super::html::PAGE_HEAD@ + "  <title>"@ + m.name@ + " - Stratum Documentation</title>\n"@
        + super::html::styles_html() + super::html::SIDEBAR_OPEN@ + "    <h2>"@ + m.name@ + "</h2>\n  </div>\n"@
        + super::html::nav_html(m.items@) + "</nav>\n<main class=\"content\">\n<header>\n  <h1>"@ + m.name@
        + "</h1>\n</header>\n"@ + super::html::module_doc_html(m.doc, None);
    let sec = super::html::sections_html(m.items@, None, false);
    lemma_contains_around(sec, x, before, super::html::PAGE_FOOTER@);
    lemma_contains_extend(before + sec + super::html::PAGE_FOOTER@, x, Seq::empty(), super::html::PAGE_END@);
}

/// Every item of a listed kind has its HTML on the module's page.
pub proof fn lemma_module_page_shows_items(m: DocumentedModule, j: int)
    requires
        0 <= j < m.items@.len(),
        listed_kind(m.items@[j].kind),
    ensures
        contains_seq(module_page(m), item_html(m.items@[j], None, false)),
{
    let items = m.items@;
    let it = items[j];
    let x = item_html(it, None, false);
    lemma_of_kind_has(items, j);
    let o = of_kind(items, it.kind);
    let i = choose|i: int| 0 <= i < o.len() && #[trigger] o[i] == it;
    let f = super::html::section_html("functions"@, "Functions"@, of_kind(items, ItemKind::Function), None, false);
    let st = super::html::section_html("structs"@, "Structs"@, of_kind(items, ItemKind::Struct), None, false);
    let en = super::html::section_html("enums"@, "Enums"@, of_kind(items, ItemKind::Enum), None, false);
    let itf = super::html::section_html("interfaces"@, "Interfaces"@, of_kind(items, ItemKind::Interface), None, false);
    let im = super::html::section_html(
        "implementations"@,
        "Implementations"@,
        of_kind(items, ItemKind::Impl),
        None,
        false,
    );
    let co = super::html::section_html("constants"@, "Constants"@, of_kind(items, ItemKind::Constant), None, false);
    if it.kind is Function {
        lemma_section_html_shows("functions"@, "Functions"@, o, i);
    } else if it.kind is Struct {
        lemma_section_html_shows("structs"@, "Structs"@, o, i);
    } else if it.kind is Enum {
        lemma_section_html_shows("enums"@, "Enums"@, o, i);
    } else if it.kind is Interface {
        lemma_section_html_shows("interfaces"@, "Interfaces"@, o, i);
    } else if it.kind is Impl {
        lemma_section_html_shows("implementations"@, "Implementations"@, o, i);
    } else {
        lemma_section_html_shows("constants"@, "Constants"@, o, i);
    }
    lemma_in_six(f, st, en, itf, im, co, x);
    assert(super::html::sections_html(items, None, false) == f + st + en + itf + im + co);
    lemma_page_shows_sections(m, x);
}

/// A Markdown section of items shows each of its items.
proof fn lemma_section_md_shows(title: Seq<char>, o: Seq<DocumentedItem>, i: int)
    requires
        0 <= i < o.len(),
    ensures
        contains_seq(super::markdown::section_md(title, o), item_md(o[i], 3)),
{
    let parts = o.map_values(|q: DocumentedItem| item_md(q, 3));
    lemma_concat_contains(parts, i);
    lemma_contains_extend(crate::text::concat(parts), parts[i], "## "@ + title + "\n\n"@, Seq::empty());
}

/// Every item of a listed kind has its Markdown in the module's Markdown.
pub proof fn lemma_markdown_shows_items(m: DocumentedModule, j: int)
    requires
        0 <= j < m.items@.len(),
        listed_kind(m.items@[j].kind),
    ensures
        contains_seq(markdown_spec(m), item_md(m.items@[j], 3)),
{
    let items = m.items@;
    let it = items[j];
    let x = item_md(it, 3);
    lemma_of_kind_has(items, j);
    let o = of_kind(items, it.kind);
    let i = choose|i: int| 0 <= i < o.len() && #[trigger] o[i] == it;
    let f = super::markdown::section_md("Functions"@, of_kind(items, ItemKind::Function));
    let st = super::markdown::section_md("Structs"@, of_kind(items, ItemKind::Struct));
    let en = super::markdown::section_md("Enums"@, of_kind(items, ItemKind::Enum));
    let itf = super::markdown::section_md("Interfaces"@, of_kind(items, ItemKind::Interface));
    let im = super::markdown::section_md("Implementations"@, of_kind(items, ItemKind::Impl));
    let co = super::markdown::section_md("Constants"@, of_kind(items, ItemKind::Constant));
    if it.kind is Function {
        lemma_section_md_shows("Functions"@, o, i);
    } else if it.kind is Struct {
        lemma_section_md_shows("Structs"@, o, i);
    } else if it.kind is Enum {
        lemma_section_md_shows("Enums"@, o, i);
    } else if it.kind is Interface {
        lemma_section_md_shows("Interfaces"@, o, i);
    } else if it.kind is Impl {
        lemma_section_md_shows("Implementations"@, o, i);
    } else {
        lemma_section_md_shows("Constants"@, o, i);
    }
    lemma_in_six(f, st, en, itf, im, co, x);
    let all = super::markdown::sections_md(items);
    assert(all == f + st + en + itf + im + co);
    let before = super::markdown::module_head_md(m) + super::markdown::contents_md(items);
    lemma_contains_extend(all, x, before, Seq::empty());
}

/// The page of a module shows what each of its listed items returns, where
/// the item's documentation says it, under a "Returns" heading.
pub proof fn lemma_module_page_shows_returns(m: DocumentedModule, j: int)
    requires
        0 <= j < m.items@.len(),
        listed_kind(m.items@[j].kind),
        m.items@[j].doc is Some,
        m.items@[j].doc->0@.returns is Some,
    ensures
        contains_seq(module_page(m), returns_block(None, m.items@[j].doc->0@.returns->0)),
{
    lemma_module_page_shows_items(m, j);
    lemma_item_html_shows_returns(m.items@[j], None, false);
    lemma_contains_trans(
        module_page(m),
        item_html(m.items@[j], None, false),
        returns_block(None, m.items@[j].doc->0@.returns->0),
    );
}

/// The Markdown of a module shows what each of its listed items returns,
/// where the item's documentation says it, after "**Returns:** ".
pub proof fn lemma_markdown_shows_returns(m: DocumentedModule, j: int)
    requires
        0 <= j < m.items@.len(),
        listed_kind(m.items@[j].kind),
        m.items@[j].doc is Some,
        m.items@[j].doc->0@.returns is Some,
    ensures
        contains_seq(markdown_spec(m), "**Returns:** "@ + m.items@[j].doc->0@.returns->0 + "\n\n"@),
{
    lemma_markdown_shows_items(m, j);
    lemma_item_md_shows_returns(m.items@[j], 3);
    lemma_contains_trans(
        markdown_spec(m),
        item_md(m.items@[j], 3),
        "**Returns:** "@ + m.items@[j].doc->0@.returns->0 + "\n\n"@,
    );
}

} // verus!

//! Markdown documentation generator

use vstd::prelude::*;

use super::types::{
    derefs, items_of_kind, of_kind, DocComment, DocModel, DocumentedItem, DocumentedModule, ItemKind,
};
use crate::text::{chars_of, concat, lemma_concat_push, lowercase, push_char, to_lowercase};

verus! {

// ---------------------------------------------------------------------------
// The document, piece by piece
// ---------------------------------------------------------------------------

/// The summary paragraph and the description, each followed by a blank line
/// where present.
pub open spec fn text_block(d: DocModel) -> Seq<char> {
    (if d.summary.len() == 0 {
        Seq::empty()
    } else {
        d.summary + "\n\n"@
    }) + match d.description {
        Some(desc) => desc + "\n\n"@,
        None => Seq::empty(),
    }
}

/// One documented parameter.
pub open spec fn param_md(p: (Seq<char>, Seq<char>)) -> Seq<char> {
    "- `"@ + p.0 + "`: "@ + p.1 + "\n"@
}

/// One documented exception.
pub open spec fn throw_md(t: Seq<char>) -> Seq<char> {
    "- "@ + t + "\n"@
}

/// One example, as a fenced code block.
pub open spec fn example_md(e: Seq<char>) -> Seq<char> {
    "```stratum\n"@ + e + "\n```\n\n"@
}

/// The arguments part of an item's documentation.
pub open spec fn params_md(d: DocModel) -> Seq<char> {
    if d.params.len() == 0 {
        Seq::empty()
    } else {
        "**Arguments:**\n\n"@ + concat(d.params.map_values(|p: (Seq<char>, Seq<char>)| param_md(p)))
            + "\n"@
    }
}

/// The returns part of an item's documentation.
pub open spec fn returns_md(d: DocModel) -> Seq<char> {
    match d.returns {
        Some(r) => "**Returns:** "@ + r + "\n\n"@,
        None => Seq::empty(),
    }
}

/// The throws part of an item's documentation.
pub open spec fn throws_md(d: DocModel) -> Seq<char> {
    if d.throws.len() == 0 {
        Seq::empty()
    } else {
        "**Throws:**\n\n"@ + concat(d.throws.map_values(|t: Seq<char>| throw_md(t))) + "\n"@
    }
}

/// The examples part of an item's documentation.
pub open spec fn examples_md(d: DocModel) -> Seq<char> {
    if d.examples.len() == 0 {
        Seq::empty()
    } else {
        "**Example:**\n\n"@ + concat(d.examples.map_values(|e: Seq<char>| example_md(e)))
    }
}

/// An item's documentation comment.
pub open spec fn doc_md(d: DocModel) -> Seq<char> {
    text_block(d) + params_md(d) + returns_md(d) + throws_md(d) + examples_md(d)
}

/// What the children of an item of kind `k` are called.
pub open spec fn child_type(k: ItemKind) -> Seq<char> {
    match k {
        ItemKind::Struct => "Fields"@,
        ItemKind::Enum => "Variants"@,
        ItemKind::Interface | ItemKind::Impl => "Methods"@,
        _ => "Members"@,
    }
}

/// The summary of a child item, or nothing.
pub open spec fn child_summary_spec(c: DocumentedItem) -> Seq<char> {
    match c.doc {
        Some(d) => d.summary@,
        None => Seq::empty(),
    }
}

/// One child in the list of an item's children.
pub open spec fn child_md(c: DocumentedItem) -> Seq<char> {
    "- `"@ + c.signature@ + "` - "@ + child_summary_spec(c) + "\n"@
}

/// The list of an item's children.
pub open spec fn children_md(item: DocumentedItem) -> Seq<char> {
    if item.children@.len() == 0 {
        Seq::empty()
    } else {
        "**"@ + child_type(item.kind) + ":**\n\n"@ + concat(
            item.children@.map_values(|c: DocumentedItem| child_md(c)),
        ) + "\n"@
    }
}

/// `n` hash signs.
pub open spec fn hashes(n: nat) -> Seq<char> {
    Seq::new(n, |i: int| '#')
}

/// The optional documentation of an item.
pub open spec fn opt_doc_md(doc: Option<DocComment>) -> Seq<char> {
    match doc {
        Some(d) => doc_md(d@),
        None => Seq::empty(),
    }
}

/// One item, under a heading of `level` hash signs.
pub open spec fn item_md(item: DocumentedItem, level: nat) -> Seq<char> {
    hashes(level) + " `"@ + item.name@ + "`\n\n"@ + "```stratum\n"@ + item.signature@
        + "\n```\n\n"@ + opt_doc_md(item.doc) + children_md(item) + "---\n\n"@
}

/// Items one after another, each under a heading of `level` hash signs.
pub open spec fn items_md(items: Seq<DocumentedItem>, level: nat) -> Seq<char> {
    concat(items.map_values(|it: DocumentedItem| item_md(it, level)))
}

/// The anchor of an item in the contents: the lower-cased name with spaces
/// replaced by `'-'`.
pub open spec fn md_anchor(name: Seq<char>) -> Seq<char> {
    lowercase(name).map_values(|c: char| if c == ' ' { '-' } else { c })
}

/// One entry of the contents.
pub open spec fn toc_line(item: DocumentedItem) -> Seq<char> {
    "- [`"@ + item.name@ + "`](#"@ + md_anchor(item.name@) + ")\n"@
}

/// One category of the contents, or nothing if it has no items.
pub open spec fn toc_category(title: Seq<char>, items: Seq<DocumentedItem>) -> Seq<char> {
    if items.len() == 0 {
        Seq::empty()
    } else {
        "### "@ + title + "\n"@ + concat(items.map_values(|it: DocumentedItem| toc_line(it))) + "\n"@
    }
}

/// The contents: functions, structs, enums and interfaces.
pub open spec fn toc_md(items: Seq<DocumentedItem>) -> Seq<char> {
    toc_category("Functions"@, of_kind(items, ItemKind::Function)) + toc_category(
        "Structs"@,
        of_kind(items, ItemKind::Struct),
    ) + toc_category("Enums"@, of_kind(items, ItemKind::Enum)) + toc_category(
        "Interfaces"@,
        of_kind(items, ItemKind::Interface),
    )
}

/// A section of items under a level-two heading, or nothing if it has no items.
pub open spec fn section_md(title: Seq<char>, items: Seq<DocumentedItem>) -> Seq<char> {
    if items.len() == 0 {
        Seq::empty()
    } else {
        "## "@ + title + "\n\n"@ + items_md(items, 3)
    }
}

/// The module header with its documentation.
pub open spec fn module_head_md(m: DocumentedModule) -> Seq<char> {
    "# "@ + m.name@ + "\n\n"@ + match m.doc {
        Some(d) => text_block(d@),
        None => Seq::empty(),
    }
}

/// The contents section, present when the module has items.
pub open spec fn contents_md(items: Seq<DocumentedItem>) -> Seq<char> {
    if items.len() == 0 {
        Seq::empty()
    } else {
        "## Contents\n\n"@ + toc_md(items) + "\n"@
    }
}

/// The sections of a module's items, by kind.
pub open spec fn sections_md(items: Seq<DocumentedItem>) -> Seq<char> {
    section_md("Functions"@, of_kind(items, ItemKind::Function)) + section_md(
        "Structs"@,
        of_kind(items, ItemKind::Struct),
    ) + section_md("Enums"@, of_kind(items, ItemKind::Enum)) + section_md(
        "Interfaces"@,
        of_kind(items, ItemKind::Interface),
    ) + section_md("Implementations"@, of_kind(items, ItemKind::Impl)) + section_md(
        "Constants"@,
        of_kind(items, ItemKind::Constant),
    )
}

/// The Markdown page of a module.
pub open spec fn markdown_spec(m: DocumentedModule) -> Seq<char> {
    module_head_md(m) + contents_md(m.items@) + sections_md(m.items@)
}

// ---------------------------------------------------------------------------
// Writing
// ---------------------------------------------------------------------------

/// Appends the summary and description paragraphs.
fn write_text_block(out: &mut String, d: &DocComment)
    ensures
        final(out)@ == old(out)@ + text_block(d@),
{
    let ghost start = out@;
    if !d.summary.as_str().is_empty() {
        out.append(d.summary.as_str());
        out.append("\n\n");
    }
    let ghost mid = out@;
    match &d.description {
        Some(desc) => {
            out.append(desc.as_str());
            out.append("\n\n");
        },
        None => {},
    }
    assert(out@ =~= start + text_block(d@));
}

/// Appends the arguments part.
fn write_params(out: &mut String, d: &DocComment)
    ensures
        final(out)@ == old(out)@ + params_md(d@),
{
    if d.params.len() > 0 {
        let ghost start = out@;
        let ghost pv = d@.params;
        let ghost f = |p: (Seq<char>, Seq<char>)| param_md(p);
        out.append("**Arguments:**\n\n");
        let mut i: usize = 0;
        while i < d.params.len()
            invariant
                i <= d.params@.len(),
                pv == d@.params,
                pv.len() == d.params@.len(),
                f == (|p: (Seq<char>, Seq<char>)| param_md(p)),
                out@ == start + "**Arguments:**\n\n"@ + concat(pv.take(i as int).map_values(f)),
            decreases d.params.len() - i,
        {
            let pr = &d.params[i];
            let ghost before = out@;
            out.append("- `");
            out.append(pr.0.as_str());
            out.append("`: ");
            out.append(pr.1.description.as_str());
            out.append("\n");
            proof {
                assert(pv[i as int] == (pr.0@, pr.1.description@));
                assert(pv.take(i + 1).map_values(f) =~= pv.take(i as int).map_values(f).push(
                    f(pv[i as int]),
                ));
                lemma_concat_push(pv.take(i as int).map_values(f), f(pv[i as int]));
                assert(out@ =~= before + param_md(pv[i as int]));
            }
            i = i + 1;
        }
        assert(pv.take(pv.len() as int) =~= pv);
        out.append("\n");
    }
}

/// Appends the throws part.
fn write_throws(out: &mut String, d: &DocComment)
    ensures
        final(out)@ == old(out)@ + throws_md(d@),
{
    if d.throws.len() > 0 {
        let ghost start = out@;
        let ghost tv = d@.throws;
        let ghost f = |t: Seq<char>| throw_md(t);
        out.append("**Throws:**\n\n");
        let mut i: usize = 0;
        while i < d.throws.len()
            invariant
                i <= d.throws@.len(),
                tv == d@.throws,
                tv.len() == d.throws@.len(),
                f == (|t: Seq<char>| throw_md(t)),
                out@ == start + "**Throws:**\n\n"@ + concat(tv.take(i as int).map_values(f)),
            decreases d.throws.len() - i,
        {
            let ghost before = out@;
            out.append("- ");
            out.append(d.throws[i].as_str());
            out.append("\n");
            proof {
                assert(tv[i as int] == d.throws@[i as int]@);
                assert(tv.take(i + 1).map_values(f) =~= tv.take(i as int).map_values(f).push(
                    f(tv[i as int]),
                ));
                lemma_concat_push(tv.take(i as int).map_values(f), f(tv[i as int]));
                assert(out@ =~= before + throw_md(tv[i as int]));
            }
            i = i + 1;
        }
        assert(tv.take(tv.len() as int) =~= tv);
        out.append("\n");
    }
}

/// Appends the examples part.
fn write_examples(out: &mut String, d: &DocComment)
    ensures
        final(out)@ == old(out)@ + examples_md(d@),
{
    if d.examples.len() > 0 {
        let ghost start = out@;
        let ghost ev = d@.examples;
        let ghost f = |e: Seq<char>| example_md(e);
        out.append("**Example:**\n\n");
        let mut i: usize = 0;
        while i < d.examples.len()
            invariant
                i <= d.examples@.len(),
                ev == d@.examples,
                ev.len() == d.examples@.len(),
                f == (|e: Seq<char>| example_md(e)),
                out@ == start + "**Example:**\n\n"@ + concat(ev.take(i as int).map_values(f)),
            decreases d.examples.len() - i,
        {
            let ghost before = out@;
            out.append("```stratum\n");
            out.append(d.examples[i].as_str());
            out.append("\n```\n\n");
            proof {
                assert(ev[i as int] == d.examples@[i as int]@);
                assert(ev.take(i + 1).map_values(f) =~= ev.take(i as int).map_values(f).push(
                    f(ev[i as int]),
                ));
                lemma_concat_push(ev.take(i as int).map_values(f), f(ev[i as int]));
                assert(out@ =~= before + example_md(ev[i as int]));
            }
            i = i + 1;
        }
        assert(ev.take(ev.len() as int) =~= ev);
    }
}

/// Appends an item's documentation comment.
fn write_doc(out: &mut String, d: &DocComment)
    ensures
        final(out)@ == old(out)@ + doc_md(d@),
{
    let ghost start = out@;
    write_text_block(out, d);
    write_params(out, d);
    if let Some(ret) = &d.returns {
        out.append("**Returns:** ");
        out.append(ret.as_str());
        out.append("\n\n");
    }
    let ghost mid = out@;
    assert(mid =~= start + text_block(d@) + params_md(d@) + returns_md(d@));
    write_throws(out, d);
    write_examples(out, d);
    assert(out@ =~= start + doc_md(d@));
}

/// The word for an item's children.
fn child_type_name(kind: ItemKind) -> (r: &'static str)
    ensures
        r@ == child_type(kind),
{
    match kind {
        ItemKind::Struct => "Fields",
        ItemKind::Enum => "Variants",
        ItemKind::Interface | ItemKind::Impl => "Methods",
        _ => "Members",
    }
}

/// Appends the list of an item's children.
fn write_children(out: &mut String, item: &DocumentedItem)
    ensures
        final(out)@ == old(out)@ + children_md(*item),
{
    if item.children.len() > 0 {
        let ghost start = out@;
        let ghost cv = item.children@;
        let ghost f = |c: DocumentedItem| child_md(c);
        let ghost head = "**"@ + child_type(item.kind) + ":**\n\n"@;
        out.append("**");
        out.append(child_type_name(item.kind));
        out.append(":**\n\n");
        assert(out@ =~= start + head);
        let mut i: usize = 0;
        while i < item.children.len()
            invariant
                i <= item.children@.len(),
                cv == item.children@,
                f == (|c: DocumentedItem| child_md(c)),
                out@ == start + head + concat(cv.take(i as int).map_values(f)),
            decreases item.children.len() - i,
        {
            let child = &item.children[i];
            let ghost before = out@;
            out.append("- `");
            out.append(child.signature.as_str());
            out.append("` - ");
            let s = MarkdownGenerator::child_summary(child);
            out.append(s.as_str());
            out.append("\n");
            proof {
                assert(cv.take(i + 1).map_values(f) =~= cv.take(i as int).map_values(f).push(
                    f(cv[i as int]),
                ));
                lemma_concat_push(cv.take(i as int).map_values(f), f(cv[i as int]));
                assert(out@ =~= before + child_md(cv[i as int]));
            }
            i = i + 1;
        }
        assert(cv.take(cv.len() as int) =~= cv);
        out.append("\n");
    }
}

/// Appends `n` hash signs.
fn write_hashes(out: &mut String, n: usize)
    ensures
        final(out)@ == old(out)@ + hashes(n as nat),
{
    let ghost start = out@;
    let mut i: usize = 0;
    while i < n
        invariant
            i <= n,
            out@ == start + hashes(i as nat),
        decreases n - i,
    {
        push_char(out, '#');
        assert(hashes((i + 1) as nat) =~= hashes(i as nat).push('#'));
        i = i + 1;
    }
}

/// Appends items one after another, each under a heading of `level` hash signs.
fn write_items(out: &mut String, items: &Vec<&DocumentedItem>, level: usize)
    ensures
        final(out)@ == old(out)@ + items_md(derefs(items@), level as nat),
{
    let ghost start = out@;
    let ghost iv = derefs(items@);
    let ghost f = |it: DocumentedItem| item_md(it, level as nat);
    let mut i: usize = 0;
    while i < items.len()
        invariant
            i <= items@.len(),
            iv == derefs(items@),
            iv.len() == items@.len(),
            f == (|it: DocumentedItem| item_md(it, level as nat)),
            out@ == start + concat(iv.take(i as int).map_values(f)),
        decreases items.len() - i,
    {
        let ghost before = out@;
        MarkdownGenerator::write_item(out, items[i], level);
        proof {
            assert(iv[i as int] == *items@[i as int]);
            assert(iv.take(i + 1).map_values(f) =~= iv.take(i as int).map_values(f).push(
                f(iv[i as int]),
            ));
            lemma_concat_push(iv.take(i as int).map_values(f), f(iv[i as int]));
        }
        i = i + 1;
    }
    assert(iv.take(iv.len() as int) =~= iv);
    assert(iv.map_values(f) =~= iv.map_values(|it: DocumentedItem| item_md(it, level as nat)));
}

/// Appends a section of items under a level-two heading, if there are any.
fn write_section(out: &mut String, title: &str, items: &Vec<&DocumentedItem>)
    ensures
        final(out)@ == old(out)@ + section_md(title@, derefs(items@)),
{
    if items.len() > 0 {
        let ghost start = out@;
        out.append("## ");
        out.append(title);
        out.append("\n\n");
        write_items(out, items, 3);
        assert(out@ =~= start + section_md(title@, derefs(items@)));
    } else {
        assert(derefs(items@).len() == 0);
        assert(out@ =~= old(out)@ + section_md(title@, derefs(items@)));
    }
}

/// The anchor of an item in the contents.
fn md_anchor_of(name: &str) -> (r: String)
    ensures
        r@ == md_anchor(name@),
{
    let lower_s = to_lowercase(name);
    let lower = chars_of(lower_s.as_str());
    let mut out = String::new();
    let mut i: usize = 0;
    while i < lower.len()
        invariant
            i <= lower@.len(),
            lower@ == lowercase(name@),
            out@ == lower@.take(i as int).map_values(|c: char| if c == ' ' { '-' } else { c }),
        decreases lower.len() - i,
    {
        let c = lower[i];
        let d = if c == ' ' {
            '-'
        } else {
            c
        };
        push_char(&mut out, d);
        assert(lower@.take(i + 1) == lower@.take(i as int).push(c));
        i = i + 1;
    }
    assert(lower@.take(lower@.len() as int) =~= lower@);
    out
}

/// Appends one category of the contents, if it has items.
fn write_toc_category(out: &mut String, title: &str, items: &Vec<&DocumentedItem>)
    ensures
        final(out)@ == old(out)@ + toc_category(title@, derefs(items@)),
{
    if items.len() > 0 {
        let ghost start = out@;
        let ghost iv = derefs(items@);
        let ghost f = |it: DocumentedItem| toc_line(it);
        out.append("### ");
        out.append(title);
        out.append("\n");
        let mut i: usize = 0;
        while i < items.len()
            invariant
                i <= items@.len(),
                iv == derefs(items@),
                iv.len() == items@.len(),
                f == (|it: DocumentedItem| toc_line(it)),
                out@ == start + "### "@ + title@ + "\n"@ + concat(iv.take(i as int).map_values(f)),
            decreases items.len() - i,
        {
            let item = items[i];
            let ghost before = out@;
            out.append("- [`");
            out.append(item.name.as_str());
            out.append("`](#");
            let anchor = md_anchor_of(item.name.as_str());
            out.append(anchor.as_str());
            out.append(")\n");
            proof {
                assert(iv[i as int] == *items@[i as int]);
                assert(iv.take(i + 1).map_values(f) =~= iv.take(i as int).map_values(f).push(
                    f(iv[i as int]),
                ));
                lemma_concat_push(iv.take(i as int).map_values(f), f(iv[i as int]));
                assert(out@ =~= before + toc_line(iv[i as int]));
            }
            i = i + 1;
        }
        assert(iv.take(iv.len() as int) =~= iv);
        out.append("\n");
    } else {
        assert(derefs(items@).len() == 0);
        assert(out@ =~= old(out)@ + toc_category(title@, derefs(items@)));
    }
}

/// Appends the sections of a module's items, by kind.
fn write_sections(output: &mut String, module: &DocumentedModule)
    ensures
        final(output)@ == old(output)@ + sections_md(module.items@),
{
    let ghost start = output@;
    let functions = module.functions();
    write_section(output, "Functions", &functions);
    let structs = module.structs();
    write_section(output, "Structs", &structs);
    let enums = module.enums();
    write_section(output, "Enums", &enums);
    let interfaces = module.interfaces();
    write_section(output, "Interfaces", &interfaces);
    let impls = items_of_kind(&module.items, ItemKind::Impl);
    write_section(output, "Implementations", &impls);
    let constants = items_of_kind(&module.items, ItemKind::Constant);
    write_section(output, "Constants", &constants);
    proof {
        let items = module.items@;
        lemma_append6(
            start,
            section_md("Functions"@, of_kind(items, ItemKind::Function)),
            section_md("Structs"@, of_kind(items, ItemKind::Struct)),
            section_md("Enums"@, of_kind(items, ItemKind::Enum)),
            section_md("Interfaces"@, of_kind(items, ItemKind::Interface)),
            section_md("Implementations"@, of_kind(items, ItemKind::Impl)),
            section_md("Constants"@, of_kind(items, ItemKind::Constant)),
        );
    }
}

/// Appending six pieces one by one appends their concatenation.
proof fn lemma_append6(
    s: Seq<char>,
    a: Seq<char>,
    b: Seq<char>,
    c: Seq<char>,
    d: Seq<char>,
    e: Seq<char>,
    f: Seq<char>,
)
    ensures
        s + a + b + c + d + e + f == s + (a + b + c + d + e + f),
{
    assert(s + a + b + c + d + e + f =~= s + (a + b + c + d + e + f));
}

/// Generates Markdown documentation from extracted documentation
pub struct MarkdownGenerator;

impl MarkdownGenerator {
    /// Generate Markdown documentation for a module
    pub fn generate(module: &DocumentedModule) -> (r: String)
        ensures
            r@ == markdown_spec(*module),
    {
        let mut output = String::new();
        output.append("# ");
        output.append(module.name.as_str());
        output.append("\n\n");
        if let Some(doc) = &module.doc {
            write_text_block(&mut output, doc);
        }
        let ghost head = output@;
        assert(head =~= module_head_md(*module));
        if module.items.len() > 0 {
            output.append("## Contents\n\n");
            Self::write_toc(&mut output, module);
            output.append("\n");
        }
        let ghost with_toc = output@;
        assert(with_toc =~= head + contents_md(module.items@));
        write_sections(&mut output, module);
        assert(output@ =~= with_toc + sections_md(module.items@));
        output
    }

    /// Appends the table of contents of a module.
    fn write_toc(output: &mut String, module: &DocumentedModule)
        ensures
            final(output)@ == old(output)@ + toc_md(module.items@),
    {
        let ghost start = output@;
        let functions = module.functions();
        write_toc_category(output, "Functions", &functions);
        let structs = module.structs();
        write_toc_category(output, "Structs", &structs);
        let enums = module.enums();
        write_toc_category(output, "Enums", &enums);
        let interfaces = module.interfaces();
        write_toc_category(output, "Interfaces", &interfaces);
        assert(output@ =~= start + toc_md(module.items@));
    }

    /// Appends one item under a heading of `heading_level` hash signs.
    fn write_item(output: &mut String, item: &DocumentedItem, heading_level: usize)
        ensures
            final(output)@ == old(output)@ + item_md(*item, heading_level as nat),
    {
        let ghost start = output@;
        write_hashes(output, heading_level);
        output.append(" `");
        output.append(item.name.as_str());
        output.append("`\n\n");
        output.append("```stratum\n");
        output.append(item.signature.as_str());
        output.append("\n```\n\n");
        if let Some(doc) = &item.doc {
            write_doc(output, doc);
        }
        let ghost mid = output@;
        write_children(output, item);
        output.append("---\n\n");
        assert(mid =~= start + hashes(heading_level as nat) + " `"@ + item.name@ + "`\n\n"@
            + "```stratum\n"@ + item.signature@ + "\n```\n\n"@ + opt_doc_md(item.doc));
        assert(output@ =~= start + item_md(*item, heading_level as nat));
    }

    /// The summary of a child item, or the empty string.
    fn child_summary(item: &DocumentedItem) -> (r: String)
        ensures
            r@ == child_summary_spec(*item),
    {
        match &item.doc {
            Some(d) => d.summary.clone(),
            None => String::new(),
        }
    }
}

} // verus!

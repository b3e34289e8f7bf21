//! Project-wide documentation collection
//!
//! Collects documentation across multiple source files and builds a unified
//! symbol index for cross-referencing.

use vstd::multiset::Multiset;
use vstd::prelude::*;

use super::ast::Module;
use super::extractor::{items_are, opt_doc, top_models, trivia_doc, DocExtractor};
use super::types::{derefs, DocComment, DocumentedItem, DocumentedModule, ItemKind};
use crate::text::{
    chars_of, char_alphanumeric, copy_str, is_alphanumeric, lemma_lex_refl, lemma_lex_total, lemma_lex_trans, lex_le,
    lex_le_exec, lowercase, push_char, str_eq, string_of, to_lowercase, trim, trim_range,
};

verus! {

/// A symbol in the project documentation
#[derive(Debug, Clone)]
pub struct SymbolInfo {
    /// The symbol name
    pub name: String,
    /// The kind of symbol (function, struct, enum, etc.)
    pub kind: ItemKind,
    /// The module this symbol is defined in
    pub module: String,
    /// The anchor ID for linking
    pub anchor: String,
    /// Brief description (first sentence of summary)
    pub description: String,
    /// Full signature
    pub signature: String,
}

/// The content of a [`SymbolInfo`].
#[verifier::ext_equal]
pub struct SymbolModel {
    pub name: Seq<char>,
    pub kind: ItemKind,
    pub module: Seq<char>,
    pub anchor: Seq<char>,
    pub description: Seq<char>,
    pub signature: Seq<char>,
}

impl View for SymbolInfo {
    type V = SymbolModel;

    open spec fn view(&self) -> SymbolModel {
        SymbolModel {
            name: self.name@,
            kind: self.kind,
            module: self.module@,
            anchor: self.anchor@,
            description: self.description@,
            signature: self.signature@,
        }
    }
}

/// The views of a sequence of symbols.
pub open spec fn symbols_view(v: Seq<SymbolInfo>) -> Seq<SymbolModel> {
    v.map_values(|s: SymbolInfo| s@)
}

/// The content of a symbol index: one entry per name, holding its symbols.
pub open spec fn index_view(v: Seq<(String, Vec<SymbolInfo>)>) -> Seq<(Seq<char>, Seq<SymbolModel>)> {
    v.map_values(|e: (String, Vec<SymbolInfo>)| (e.0@, symbols_view(e.1@)))
}

/// Project-wide documentation with cross-reference support.
///
/// `symbol_index` holds, for each symbol name, the symbols with that name in
/// the order in which they were indexed; names appear in the order of first
/// indexing.
#[derive(Debug)]
pub struct ProjectDoc {
    /// Name of the project
    pub name: String,
    /// All documented modules
    pub modules: Vec<DocumentedModule>,
    /// Symbol index for cross-referencing (name -> list of symbols with that name)
    pub symbol_index: Vec<(String, Vec<SymbolInfo>)>,
}

// ---------------------------------------------------------------------------
// The index as a function of the modules
// ---------------------------------------------------------------------------

/// The anchor ID made from a name: lower-cased, with every character that is
/// not alphanumeric replaced by `'-'`.
pub open spec fn anchor_of(name: Seq<char>) -> Seq<char> {
    lowercase(name).map_values(|c: char| if char_alphanumeric(c) { c } else { '-' })
}

/// Index of the first `'.'` or `'\n'` in `s` at or after `i`, or `s.len()`.
pub open spec fn sentence_end_from(s: Seq<char>, i: int) -> int
    decreases s.len() - i,
{
    if i < 0 || i >= s.len() {
        s.len() as int
    } else if s[i] == '.' || s[i] == '\n' {
        i
    } else {
        sentence_end_from(s, i + 1)
    }
}

/// The first sentence of `s`: the text before the first `'.'` or `'\n'`, trimmed.
pub open spec fn first_sentence_of(s: Seq<char>) -> Seq<char> {
    trim(s.take(sentence_end_from(s, 0)))
}

/// The description indexed for an item with the given documentation.
pub open spec fn description_of(doc: Option<DocComment>) -> Seq<char> {
    match doc {
        Some(d) => first_sentence_of(d.summary@),
        None => Seq::empty(),
    }
}

/// The symbol indexed for a top-level item of module `m`.
pub open spec fn item_symbol(item: DocumentedItem, m: Seq<char>) -> SymbolModel {
    SymbolModel {
        name: item.name@,
        kind: item.kind,
        module: m,
        anchor: anchor_of(item.name@),
        description: description_of(item.doc),
        signature: item.signature@,
    }
}

/// The symbol indexed for a child of `parent` in module `m`.
pub open spec fn child_symbol(parent: DocumentedItem, child: DocumentedItem, m: Seq<char>) -> SymbolModel {
    SymbolModel {
        name: child.name@,
        kind: child.kind,
        module: m,
        anchor: anchor_of(parent.name@) + "-"@ + anchor_of(child.name@),
        description: description_of(child.doc),
        signature: child.signature@,
    }
}

/// Position of the entry for name `n` at or after `i`, or -1.
pub open spec fn group_pos_from(idx: Seq<(Seq<char>, Seq<SymbolModel>)>, n: Seq<char>, i: int) -> int
    decreases idx.len() - i,
{
    if i < 0 || i >= idx.len() {
        -1
    } else if idx[i].0 == n {
        i
    } else {
        group_pos_from(idx, n, i + 1)
    }
}

/// Position of the entry for name `n`, or -1.
pub open spec fn group_pos(idx: Seq<(Seq<char>, Seq<SymbolModel>)>, n: Seq<char>) -> int {
    group_pos_from(idx, n, 0)
}

/// The index with symbol `s` added under its name.
pub open spec fn index_add(idx: Seq<(Seq<char>, Seq<SymbolModel>)>, s: SymbolModel) -> Seq<
    (Seq<char>, Seq<SymbolModel>),
> {
    let p = group_pos(idx, s.name);
    if p >= 0 {
        idx.update(p, (idx[p].0, idx[p].1.push(s)))
    } else {
        idx.push((s.name, seq![s]))
    }
}

/// The index with the children of `parent` added, in order.
pub open spec fn index_children(
    idx: Seq<(Seq<char>, Seq<SymbolModel>)>,
    parent: DocumentedItem,
    children: Seq<DocumentedItem>,
    m: Seq<char>,
) -> Seq<(Seq<char>, Seq<SymbolModel>)>
    decreases children.len(),
{
    if children.len() == 0 {
        idx
    } else {
        index_add(
            index_children(idx, parent, children.drop_last(), m),
            child_symbol(parent, children.last(), m),
        )
    }
}

/// The index with an item and then its children added.
pub open spec fn index_item_spec(
    idx: Seq<(Seq<char>, Seq<SymbolModel>)>,
    item: DocumentedItem,
    m: Seq<char>,
) -> Seq<(Seq<char>, Seq<SymbolModel>)> {
    index_children(index_add(idx, item_symbol(item, m)), item, item.children@, m)
}

/// The index with all items of a module added, in order.
pub open spec fn index_items(
    idx: Seq<(Seq<char>, Seq<SymbolModel>)>,
    items: Seq<DocumentedItem>,
    m: Seq<char>,
) -> Seq<(Seq<char>, Seq<SymbolModel>)>
    decreases items.len(),
{
    if items.len() == 0 {
        idx
    } else {
        index_item_spec(index_items(idx, items.drop_last(), m), items.last(), m)
    }
}

/// The index built from a sequence of modules, in order.
pub open spec fn index_of_modules(ms: Seq<DocumentedModule>) -> Seq<(Seq<char>, Seq<SymbolModel>)>
    decreases ms.len(),
{
    if ms.len() == 0 {
        Seq::empty()
    } else {
        index_items(index_of_modules(ms.drop_last()), ms.last().items@, ms.last().name@)
    }
}

// ---------------------------------------------------------------------------
// Building the index
// ---------------------------------------------------------------------------

/// Create an anchor ID from a name
pub fn make_anchor(name: &str) -> (r: String)
    ensures
        r@ == anchor_of(name@),
{
    let lower_s = to_lowercase(name);
    let lower = chars_of(lower_s.as_str());
    let mut out = String::new();
    let mut i: usize = 0;
    while i < lower.len()
        invariant
            i <= lower@.len(),
            lower@ == lowercase(name@),
            out@ == lower@.take(i as int).map_values(
                |c: char| if char_alphanumeric(c) { c } else { '-' },
            ),
        decreases lower.len() - i,
    {
        let c = lower[i];
        let d = if is_alphanumeric(c) {
            c
        } else {
            '-'
        };
        push_char(&mut out, d);
        assert(lower@.take(i + 1) == lower@.take(i as int).push(c));
        i = i + 1;
    }
    assert(lower@.take(lower@.len() as int) == lower@);
    out
}

/// Extract first sentence from text
pub fn first_sentence(text: &str) -> (r: String)
    ensures
        r@ == first_sentence_of(text@),
{
    let v = chars_of(text);
    let mut i: usize = 0;
    while i < v.len() && v[i] != '.' && v[i] != '\n'
        invariant
            i <= v@.len(),
            sentence_end_from(v@, 0) == sentence_end_from(v@, i as int),
        decreases v.len() - i,
    {
        i = i + 1;
    }
    let t = trim_range(&v, 0, i);
    assert(v@.subrange(0, i as int) == v@.take(i as int));
    string_of(&t)
}

/// The description indexed for an item with the given documentation.
fn describe(doc: &Option<DocComment>) -> (r: String)
    ensures
        r@ == description_of(*doc),
{
    match doc {
        Some(d) => first_sentence(d.summary.as_str()),
        None => String::new(),
    }
}

/// Adds a symbol to an index under its name.
fn index_add_exec(idx: &mut Vec<(String, Vec<SymbolInfo>)>, s: SymbolInfo)
    ensures
        index_view(final(idx)@) == index_add(index_view(old(idx)@), s@),
{
    let ghost iv = index_view(idx@);
    let mut i: usize = 0;
    while i < idx.len()
        invariant
            i <= idx@.len(),
            idx@ == old(idx)@,
            iv == index_view(idx@),
            group_pos(iv, s@.name) == group_pos_from(iv, s@.name, i as int),
        decreases idx.len() - i,
    {
        if idx[i].0 == s.name {
            assert(group_pos_from(iv, s@.name, i as int) == i);
            let (k, mut g) = idx.remove(i);
            let ghost g_old = g@;
            g.push(s);
            idx.insert(i, (k, g));
            assert(symbols_view(g@) =~= symbols_view(g_old).push(s@));
            assert(index_view(idx@) =~= iv.update(i as int, (iv[i as int].0, iv[i as int].1.push(s@))));
            return ;
        }
        i = i + 1;
    }
    let name = s.name.clone();
    let mut g: Vec<SymbolInfo> = Vec::new();
    g.push(s);
    assert(symbols_view(g@) =~= seq![s@]);
    idx.push((name, g));
    assert(index_view(idx@) =~= iv.push((s@.name, seq![s@])));
}

impl ProjectDoc {
    /// Create a new project documentation
    pub fn new(name: &str) -> (r: ProjectDoc)
        ensures
            r.name@ == name@,
            r.modules@.len() == 0,
            r.symbol_index@.len() == 0,
    {
        ProjectDoc { name: copy_str(name), modules: Vec::new(), symbol_index: Vec::new() }
    }

    /// Index a single item and its children
    fn index_item(&mut self, item: &DocumentedItem, module_name: &String)
        ensures
            index_view(final(self).symbol_index@) == index_item_spec(
                index_view(old(self).symbol_index@),
                *item,
                module_name@,
            ),
            final(self).modules == old(self).modules,
            final(self).name == old(self).name,
    {
        let anchor = make_anchor(item.name.as_str());
        let info = SymbolInfo {
            name: item.name.clone(),
            kind: item.kind,
            module: module_name.clone(),
            anchor,
            description: describe(&item.doc),
            signature: item.signature.clone(),
        };
        assert(info@ =~= item_symbol(*item, module_name@));
        index_add_exec(&mut self.symbol_index, info);
        let ghost base = index_view(self.symbol_index@);
        let mut j: usize = 0;
        while j < item.children.len()
            invariant
                j <= item.children@.len(),
                index_view(self.symbol_index@) == index_children(
                    base,
                    *item,
                    item.children@.take(j as int),
                    module_name@,
                ),
                self.modules == old(self).modules,
                self.name == old(self).name,
            decreases item.children.len() - j,
        {
            let child = &item.children[j];
            let mut child_anchor = make_anchor(item.name.as_str());
            push_char(&mut child_anchor, '-');
            let ca = make_anchor(child.name.as_str());
            child_anchor.append(ca.as_str());
            let child_info = SymbolInfo {
                name: child.name.clone(),
                kind: child.kind,
                module: module_name.clone(),
                anchor: child_anchor,
                description: describe(&child.doc),
                signature: child.signature.clone(),
            };
            proof {
                reveal_strlit("-");
            }
            assert(child_info@.anchor =~= anchor_of(item.name@) + "-"@ + anchor_of(child.name@));
            assert(child_info@ =~= child_symbol(*item, *child, module_name@));
            assert(item.children@.take(j + 1).drop_last() =~= item.children@.take(j as int));
            index_add_exec(&mut self.symbol_index, child_info);
            j = j + 1;
        }
        assert(item.children@.take(item.children@.len() as int) =~= item.children@);
    }

    /// Index all symbols in a module for cross-referencing
    fn index_module(&mut self, module: &DocumentedModule)
        ensures
            index_view(final(self).symbol_index@) == index_items(
                index_view(old(self).symbol_index@),
                module.items@,
                module.name@,
            ),
            final(self).modules == old(self).modules,
            final(self).name == old(self).name,
    {
        let ghost base = index_view(self.symbol_index@);
        let mut i: usize = 0;
        while i < module.items.len()
            invariant
                i <= module.items@.len(),
                index_view(self.symbol_index@) == index_items(
                    base,
                    module.items@.take(i as int),
                    module.name@,
                ),
                self.modules == old(self).modules,
                self.name == old(self).name,
            decreases module.items.len() - i,
        {
            assert(module.items@.take(i + 1).drop_last() =~= module.items@.take(i as int));
            self.index_item(&module.items[i], &module.name);
            i = i + 1;
        }
        assert(module.items@.take(module.items@.len() as int) =~= module.items@);
    }

    /// Add a documented module and index its symbols
    pub fn add_module(&mut self, module: DocumentedModule)
        ensures
            final(self).modules@ == old(self).modules@.push(module),
            final(self).name == old(self).name,
            index_view(final(self).symbol_index@) == index_items(
                index_view(old(self).symbol_index@),
                module.items@,
                module.name@,
            ),
    {
        self.index_module(&module);
        self.modules.push(module);
    }
}

// ---------------------------------------------------------------------------
// Queries
// ---------------------------------------------------------------------------

/// All indexed symbols, entry by entry.
pub open spec fn flat_symbols(idx: Seq<(String, Vec<SymbolInfo>)>) -> Seq<SymbolInfo>
    decreases idx.len(),
{
    if idx.len() == 0 {
        Seq::empty()
    } else {
        flat_symbols(idx.drop_last()) + idx.last().1@
    }
}

/// The key by which symbols are listed: the lower-cased name.
pub open spec fn sym_key(s: SymbolInfo) -> Seq<char> {
    lowercase(s.name@)
}

/// The symbols of `v` of kind `k`, in order.
pub open spec fn symbols_of_kind(v: Seq<SymbolInfo>, k: ItemKind) -> Seq<SymbolInfo>
    decreases v.len(),
{
    if v.len() == 0 {
        Seq::empty()
    } else if v.last().kind == k {
        symbols_of_kind(v.drop_last(), k).push(v.last())
    } else {
        symbols_of_kind(v.drop_last(), k)
    }
}

/// Position of the first symbol of `group` in module `m` at or after `i`, or -1.
pub open spec fn module_pos_from(group: Seq<SymbolInfo>, m: Seq<char>, i: int) -> int
    decreases group.len() - i,
{
    if i < 0 || i >= group.len() {
        -1
    } else if group[i].module@ == m {
        i
    } else {
        module_pos_from(group, m, i + 1)
    }
}

/// The symbol that a lookup with a preferred module returns among `group`:
/// the first one in that module, or else the first one.
pub open spec fn preferred_symbol(group: Seq<SymbolInfo>, m: Seq<char>) -> Option<SymbolInfo> {
    let i = module_pos_from(group, m, 0);
    if i >= 0 {
        Some(group[i])
    } else if group.len() > 0 {
        Some(group[0])
    } else {
        None
    }
}

/// The path from one module's page to another's: empty within a module.
pub open spec fn relative_path_of(from: Seq<char>, to: Seq<char>) -> Seq<char> {
    if from == to {
        Seq::empty()
    } else {
        to + ".html"@
    }
}

/// The link to a symbol from a page: `#anchor`, or `path#anchor` across modules.
pub open spec fn link_of(s: SymbolModel, from: Seq<char>) -> Seq<char> {
    relative_path_of(from, s.module) + "#"@ + s.anchor
}

/// Flattens the index into references and their sort keys.
fn flatten_index(idx: &Vec<(String, Vec<SymbolInfo>)>) -> (r: (Vec<&SymbolInfo>, Vec<Vec<char>>))
    ensures
        derefs(r.0@) == flat_symbols(idx@),
        r.1@.len() == r.0@.len(),
        forall|i: int| 0 <= i < r.0@.len() ==> r.1@[i]@ == sym_key(*r.0@[i]),
{
    let mut out: Vec<&SymbolInfo> = Vec::new();
    let mut keys: Vec<Vec<char>> = Vec::new();
    let mut g: usize = 0;
    while g < idx.len()
        invariant
            g <= idx@.len(),
            derefs(out@) == flat_symbols(idx@.take(g as int)),
            keys@.len() == out@.len(),
            forall|i: int| 0 <= i < out@.len() ==> keys@[i]@ == sym_key(*out@[i]),
        decreases idx.len() - g,
    {
        assert(idx@.take(g + 1).drop_last() =~= idx@.take(g as int));
        let group = &idx[g].1;
        let ghost start = derefs(out@);
        let mut k: usize = 0;
        while k < group.len()
            invariant
                k <= group@.len(),
                derefs(out@) == start + group@.take(k as int),
                keys@.len() == out@.len(),
                forall|i: int| 0 <= i < out@.len() ==> keys@[i]@ == sym_key(*out@[i]),
            decreases group.len() - k,
        {
            let s = &group[k];
            let lower = to_lowercase(s.name.as_str());
            let key = chars_of(lower.as_str());
            let ghost before = derefs(out@);
            out.push(s);
            keys.push(key);
            assert(derefs(out@) =~= before.push(*s));
            assert(group@.take(k + 1) =~= group@.take(k as int).push(group@[k as int]));
            k = k + 1;
        }
        assert(group@.take(group@.len() as int) =~= group@);
        g = g + 1;
    }
    assert(idx@.take(idx@.len() as int) =~= idx@);
    (out, keys)
}

impl ProjectDoc {
    /// Look up a symbol by name
    pub fn lookup(&self, name: &str) -> (r: Option<&[SymbolInfo]>)
        ensures
            ({
                let p = group_pos(index_view(self.symbol_index@), name@);
                match r {
                    Some(v) => p >= 0 && v@ == self.symbol_index@[p].1@,
                    None => p < 0,
                }
            }),
    {
        let ghost iv = index_view(self.symbol_index@);
        let mut i: usize = 0;
        while i < self.symbol_index.len()
            invariant
                i <= self.symbol_index@.len(),
                iv == index_view(self.symbol_index@),
                group_pos(iv, name@) == group_pos_from(iv, name@, i as int),
            decreases self.symbol_index.len() - i,
        {
            if str_eq(self.symbol_index[i].0.as_str(), name) {
                return Some(self.symbol_index[i].1.as_slice());
            }
            i = i + 1;
        }
        None
    }

    /// Look up a symbol with preference for a specific module
    pub fn lookup_in_module(&self, name: &str, preferred_module: &str) -> (r: Option<&SymbolInfo>)
        ensures
            ({
                let p = group_pos(index_view(self.symbol_index@), name@);
                match r {
                    Some(s) => p >= 0 && preferred_symbol(self.symbol_index@[p].1@, preferred_module@)
                        == Some(*s),
                    None => p < 0 || self.symbol_index@[p].1@.len() == 0,
                }
            }),
    {
        match self.lookup(name) {
            None => None,
            Some(symbols) => {
                let ghost p = group_pos(index_view(self.symbol_index@), name@);
                let mut j: usize = 0;
                while j < symbols.len()
                    invariant
                        p >= 0,
                        p == group_pos(index_view(self.symbol_index@), name@),
                        symbols@ == self.symbol_index@[p].1@,
                        j <= symbols@.len(),
                        module_pos_from(symbols@, preferred_module@, 0) == module_pos_from(
                            symbols@,
                            preferred_module@,
                            j as int,
                        ),
                    decreases symbols.len() - j,
                {
                    if str_eq(symbols[j].module.as_str(), preferred_module) {
                        return Some(&symbols[j]);
                    }
                    j = j + 1;
                }
                if symbols.len() > 0 {
                    Some(&symbols[0])
                } else {
                    None
                }
            },
        }
    }

    /// Get all symbols sorted alphabetically (ignoring case)
    pub fn all_symbols(&self) -> (r: Vec<&SymbolInfo>)
        ensures
            derefs(r@).to_multiset() == flat_symbols(self.symbol_index@).to_multiset(),
            forall|i: int, j: int|
                0 <= i < j < r@.len() ==> lex_le(sym_key(*r@[i]), sym_key(*r@[j])),
    {
        broadcast use vstd::seq_lib::group_to_multiset_ensures, vstd::multiset::group_multiset_axioms;

        let (mut pool, mut keys) = flatten_index(&self.symbol_index);
        let ghost all = derefs(pool@);
        let mut out: Vec<&SymbolInfo> = Vec::new();
        assert(derefs(out@) =~= Seq::<SymbolInfo>::empty());
        assert(derefs(out@).to_multiset() =~= Multiset::empty());
        assert(derefs(out@).to_multiset().add(derefs(pool@).to_multiset()) =~= all.to_multiset());
        while pool.len() > 0
            invariant
                keys@.len() == pool@.len(),
                forall|i: int| 0 <= i < pool@.len() ==> keys@[i]@ == sym_key(*pool@[i]),
                derefs(out@).to_multiset().add(derefs(pool@).to_multiset()) == all.to_multiset(),
                forall|i: int, j: int|
                    0 <= i < j < out@.len() ==> lex_le(sym_key(*out@[i]), sym_key(*out@[j])),
                forall|i: int, j: int|
                    0 <= i < out@.len() && 0 <= j < pool@.len() ==> lex_le(
                        sym_key(*out@[i]),
                        sym_key(*pool@[j]),
                    ),
            decreases pool.len(),
        {
            let mut m: usize = 0;
            let mut j: usize = 1;
            proof {
                lemma_lex_refl(keys@[0]@);
            }
            while j < pool.len()
                invariant
                    keys@.len() == pool@.len(),
                    forall|i: int| 0 <= i < pool@.len() ==> keys@[i]@ == sym_key(*pool@[i]),
                    m < j <= pool@.len(),
                    forall|k: int| 0 <= k < j ==> lex_le(keys@[m as int]@, #[trigger] keys@[k]@),
                decreases pool.len() - j,
            {
                if !lex_le_exec(&keys[m], &keys[j]) {
                    proof {
                        lemma_lex_total(keys@[m as int]@, keys@[j as int]@);
                        assert forall|k: int| 0 <= k < j + 1 implies lex_le(
                            keys@[j as int]@,
                            #[trigger] keys@[k]@,
                        ) by {
                            if k < j {
                                lemma_lex_trans(keys@[j as int]@, keys@[m as int]@, keys@[k]@);
                            } else {
                                lemma_lex_refl(keys@[j as int]@);
                            }
                        }
                    }
                    m = j;
                }
                j = j + 1;
            }
            let ghost out_before = derefs(out@);
            let ghost pool_before = derefs(pool@);
            let ghost pool_refs = pool@;
            let x = pool.remove(m);
            let _k = keys.remove(m);
            assert(derefs(pool@) =~= pool_before.remove(m as int));
            out.push(x);
            assert(derefs(out@) =~= out_before.push(*x));
            assert(pool_before[m as int] == *x);
            proof {
                pool_before.to_multiset_ensures();
                out_before.to_multiset_ensures();
            }
            assert(pool_before.contains(*x));
            assert(pool_before.to_multiset().count(*x) > 0);
            assert(out_before.push(*x).to_multiset() =~= out_before.to_multiset().insert(*x));
            assert(pool_before.remove(m as int).to_multiset() =~= pool_before.to_multiset().remove(*x));
            assert(out_before.push(*x).to_multiset().add(pool_before.remove(m as int).to_multiset())
                =~= out_before.to_multiset().add(pool_before.to_multiset()));
            assert forall|i: int, j: int| 0 <= i < out@.len() && 0 <= j < pool@.len() implies lex_le(
                sym_key(*out@[i]),
                sym_key(*pool@[j]),
            ) by {
                let jj = if j < m { j } else { j + 1 };
                assert(pool@[j] == pool_refs[jj]);
                if i < out@.len() - 1 {
                } else {
                    assert(keys@[j]@ == sym_key(*pool@[j]));
                }
            }
        }
        assert(derefs(pool@) =~= Seq::<SymbolInfo>::empty());
        assert(derefs(pool@).to_multiset() =~= Multiset::empty());
        assert(derefs(out@).to_multiset() =~= derefs(out@).to_multiset().add(derefs(pool@).to_multiset()));
        out
    }

    /// Get symbols by kind
    pub fn symbols_by_kind(&self, kind: ItemKind) -> (r: Vec<&SymbolInfo>)
        ensures
            derefs(r@) == symbols_of_kind(flat_symbols(self.symbol_index@), kind),
    {
        let (all, _keys) = flatten_index(&self.symbol_index);
        let ghost f = derefs(all@);
        let mut out: Vec<&SymbolInfo> = Vec::new();
        let mut i: usize = 0;
        while i < all.len()
            invariant
                i <= all@.len(),
                f == derefs(all@),
                derefs(out@) == symbols_of_kind(f.take(i as int), kind),
            decreases all.len() - i,
        {
            assert(f.take(i + 1).drop_last() =~= f.take(i as int));
            let ghost before = derefs(out@);
            if all[i].kind == kind {
                out.push(all[i]);
                assert(derefs(out@) =~= before.push(f[i as int]));
            }
            i = i + 1;
        }
        assert(f.take(f.len() as int) =~= f);
        out
    }

    /// Get the relative path from one module to another
    pub fn relative_path(from_module: &str, to_module: &str) -> (r: String)
        ensures
            r@ == relative_path_of(from_module@, to_module@),
    {
        if str_eq(from_module, to_module) {
            String::new()
        } else {
            let mut s = copy_str(to_module);
            s.append(".html");
            s
        }
    }

    /// Build a link to a symbol from a given module
    pub fn link_to_symbol(&self, symbol: &SymbolInfo, from_module: &str) -> (r: String)
        ensures
            r@ == link_of(symbol@, from_module@),
    {
        let mut path = Self::relative_path(from_module, symbol.module.as_str());
        path.append("#");
        path.append(symbol.anchor.as_str());
        path
    }
}


/// The modules built from named parsed modules: each has its name, its
/// documentation and its extracted items.
pub open spec fn built_from(ms: Seq<DocumentedModule>, files: Seq<(String, Module)>) -> bool {
    &&& ms.len() == files.len()
    &&& forall|i: int|
        0 <= i < files.len() ==> {
            &&& #[trigger] ms[i].name@ == files[i].0@
            &&& opt_doc(ms[i].doc) == trivia_doc(files[i].1.trivia)
            &&& items_are(ms[i].items@, top_models(files[i].1.top_level@))
        }
}

/// Build project documentation from parsed modules, each with the name of
/// its module (the stem of its file name).
pub fn build_project_doc(project_name: &str, files: &Vec<(String, Module)>) -> (r: ProjectDoc)
    ensures
        r.name@ == project_name@,
        built_from(r.modules@, files@),
        index_view(r.symbol_index@) == index_of_modules(r.modules@),
{
    let mut project = ProjectDoc::new(project_name);
    let mut i: usize = 0;
    while i < files.len()
        invariant
            i <= files@.len(),
            project.name@ == project_name@,
            built_from(project.modules@, files@.take(i as int)),
            index_view(project.symbol_index@) == index_of_modules(project.modules@),
        decreases files.len() - i,
    {
        let entry = &files[i];
        let doc_module = DocExtractor::extract(&entry.1, entry.0.as_str());
        let ghost before = project.modules@;
        project.add_module(doc_module);
        proof {
            assert(project.modules@.drop_last() =~= before);
            let fs = files@.take(i + 1);
            assert forall|k: int| 0 <= k < fs.len() implies {
                &&& #[trigger] project.modules@[k].name@ == fs[k].0@
                &&& opt_doc(project.modules@[k].doc) == trivia_doc(fs[k].1.trivia)
                &&& items_are(project.modules@[k].items@, top_models(fs[k].1.top_level@))
            } by {
                if k < i {
                    assert(project.modules@[k] == before[k]);
                    assert(fs[k] == files@.take(i as int)[k]);
                }
            }
        }
        i = i + 1;
    }
    assert(files@.take(files@.len() as int) =~= files@);
    project
}

} // verus!

//! Documentation extractor - walks the AST and extracts documentation

use vstd::prelude::*;

use super::ast::{
    EnumDef, EnumVariant, EnumVariantData, Function, ImplDef, InterfaceDef, InterfaceMethod, Item,
    ItemKind as AstItemKind, Module, Param, Pattern, PatternKind, StructDef, StructField,
    TopLevelItem, TopLevelLet, Trivia, TypeAnnotation, TypeKind, TypeParam,
};
use super::types::{parse_model, DocComment, DocModel, DocumentedItem, DocumentedModule, ItemKind};
use crate::text::{copy_str, join, join_strings, views};

verus! {

// ---------------------------------------------------------------------------
// Signatures as text
// ---------------------------------------------------------------------------

/// A written type as text.
pub open spec fn type_text(t: TypeAnnotation) -> Seq<char>
    decreases t,
{
    match t.kind {
        TypeKind::Named { name, args } => if args@.len() == 0 {
            name.name@
        } else {
            name.name@ + "<"@ + join(types_text(args@), ", "@) + ">"@
        },
        TypeKind::Nullable(inner) => type_text(*inner) + "?"@,
        TypeKind::Function { params, ret } => "("@ + join(types_text(params@), ", "@) + ") -> "@
            + type_text(*ret),
        TypeKind::Tuple(types) => "("@ + join(types_text(types@), ", "@) + ")"@,
        TypeKind::List(inner) => "["@ + type_text(*inner) + "]"@,
        TypeKind::Unit => "()"@,
        TypeKind::Never => "!"@,
        TypeKind::Inferred => "_"@,
    }
}

/// Each of a list of types as text.
pub open spec fn types_text(ts: Seq<TypeAnnotation>) -> Seq<Seq<char>>
    decreases ts,
{
    if ts.len() == 0 {
        Seq::empty()
    } else {
        types_text(ts.drop_last()).push(type_text(ts.last()))
    }
}

/// The names of type parameters.
pub open spec fn tparam_names(ps: Seq<TypeParam>) -> Seq<Seq<char>> {
    ps.map_values(|p: TypeParam| p.name.name@)
}

/// Type parameters in angle brackets, or nothing if there are none.
pub open spec fn tparams_text(ps: Seq<TypeParam>) -> Seq<char> {
    if ps.len() == 0 {
        Seq::empty()
    } else {
        "<"@ + join(tparam_names(ps), ", "@) + ">"@
    }
}

/// A parameter as text: its name, and its type where written.
pub open spec fn param_text(p: Param) -> Seq<char> {
    p.name.name@ + match p.ty {
        Some(t) => ": "@ + type_text(t),
        None => Seq::empty(),
    }
}

/// Each of a list of parameters as text.
pub open spec fn params_text(ps: Seq<Param>) -> Seq<Seq<char>> {
    ps.map_values(|p: Param| param_text(p))
}

/// A field as text.
pub open spec fn field_text(f: StructField) -> Seq<char> {
    f.name.name@ + ": "@ + type_text(f.ty)
}

/// Each of a list of fields as text.
pub open spec fn fields_text(fs: Seq<StructField>) -> Seq<Seq<char>> {
    fs.map_values(|f: StructField| field_text(f))
}

/// A return type as text, or nothing.
pub open spec fn ret_text(r: Option<TypeAnnotation>) -> Seq<char> {
    match r {
        Some(t) => " -> "@ + type_text(t),
        None => Seq::empty(),
    }
}

/// The signature of a function or method.
pub open spec fn callable_sig(
    is_async: bool,
    name: Seq<char>,
    tps: Seq<TypeParam>,
    ps: Seq<Param>,
    ret: Option<TypeAnnotation>,
) -> Seq<char> {
    (if is_async {
        "async "@
    } else {
        Seq::empty()
    }) + "fx "@ + name + tparams_text(tps) + "("@ + join(params_text(ps), ", "@) + ")"@ + ret_text(
        ret,
    )
}

/// The signature of a function.
pub open spec fn fn_sig(f: Function) -> Seq<char> {
    callable_sig(f.is_async, f.name.name@, f.type_params@, f.params@, f.return_type)
}

/// The signature of an interface method.
pub open spec fn method_sig(m: InterfaceMethod) -> Seq<char> {
    callable_sig(m.is_async, m.name.name@, m.type_params@, m.params@, m.return_type)
}

/// The signature of a struct.
pub open spec fn struct_sig(s: StructDef) -> Seq<char> {
    "struct "@ + s.name.name@ + tparams_text(s.type_params@)
}

/// The signature of an enum.
pub open spec fn enum_sig(e: EnumDef) -> Seq<char> {
    "enum "@ + e.name.name@ + tparams_text(e.type_params@)
}

/// The signature of an interface.
pub open spec fn interface_sig(i: InterfaceDef) -> Seq<char> {
    "interface "@ + i.name.name@ + tparams_text(i.type_params@)
}

/// The signature of an enum variant.
pub open spec fn variant_sig(v: EnumVariant) -> Seq<char> {
    v.name.name@ + match v.data {
        Some(EnumVariantData::Tuple(types)) => "("@ + join(types_text(types@), ", "@) + ")"@,
        Some(EnumVariantData::Struct(fields)) => " { "@ + join(fields_text(fields@), ", "@) + " }"@,
        None => Seq::empty(),
    }
}

/// The signature of an implementation block.
pub open spec fn impl_sig(i: ImplDef) -> Seq<char> {
    "impl"@ + tparams_text(i.type_params@) + match i.interface {
        Some(it) => " "@ + type_text(it) + " for "@,
        None => " "@,
    } + type_text(i.target)
}

/// The name of an implementation block.
pub open spec fn impl_name(i: ImplDef) -> Seq<char> {
    match i.interface {
        Some(it) => type_text(it) + " for "@ + type_text(i.target),
        None => type_text(i.target),
    }
}

/// The name bound by a pattern, or `<pattern>`.
pub open spec fn pattern_name(p: Pattern) -> Seq<char> {
    match p.kind {
        PatternKind::Ident(id) => id.name@,
        PatternKind::Destructure => "<pattern>"@,
    }
}

/// The signature of a top-level `let`.
pub open spec fn let_sig(l: TopLevelLet) -> Seq<char> {
    "let "@ + pattern_name(l.pattern) + match l.ty {
        Some(t) => ": "@ + type_text(t),
        None => Seq::empty(),
    }
}

// ---------------------------------------------------------------------------
// What is extracted
// ---------------------------------------------------------------------------

/// A documented item without children.
pub struct LeafModel {
    pub name: Seq<char>,
    pub kind: ItemKind,
    pub doc: Option<DocModel>,
    pub signature: Seq<char>,
}

/// A documented item with children that have none.
pub struct ItemModel {
    pub name: Seq<char>,
    pub kind: ItemKind,
    pub doc: Option<DocModel>,
    pub signature: Seq<char>,
    pub children: Seq<LeafModel>,
}

/// The documentation of a node, parsed.
pub open spec fn trivia_doc(t: Trivia) -> Option<DocModel> {
    match t.doc {
        Some(s) => Some(parse_model(s@)),
        None => None,
    }
}

/// The model of an optional documentation comment.
pub open spec fn opt_doc(o: Option<DocComment>) -> Option<DocModel> {
    match o {
        Some(d) => Some(d@),
        None => None,
    }
}

/// `r` is the documented item `m`, which has no children.
pub open spec fn leaf_is(r: DocumentedItem, m: LeafModel) -> bool {
    &&& r.name@ == m.name
    &&& r.kind == m.kind
    &&& opt_doc(r.doc) == m.doc
    &&& r.signature@ == m.signature
    &&& r.children@.len() == 0
}

/// `r` is the documented item `m`.
pub open spec fn item_is(r: DocumentedItem, m: ItemModel) -> bool {
    &&& r.name@ == m.name
    &&& r.kind == m.kind
    &&& opt_doc(r.doc) == m.doc
    &&& r.signature@ == m.signature
    &&& r.children@.len() == m.children.len()
    &&& forall|i: int| 0 <= i < m.children.len() ==> #[trigger] leaf_is(r.children@[i], m.children[i])
}

/// `rs` are the documented items `ms`, in order.
pub open spec fn items_are(rs: Seq<DocumentedItem>, ms: Seq<ItemModel>) -> bool {
    &&& rs.len() == ms.len()
    &&& forall|i: int| 0 <= i < ms.len() ==> #[trigger] item_is(rs[i], ms[i])
}

/// A function as a leaf item.
pub open spec fn function_leaf(f: Function) -> LeafModel {
    LeafModel { name: f.name.name@, kind: ItemKind::Function, doc: trivia_doc(f.trivia), signature: fn_sig(f) }
}

/// The documented item of a function.
pub open spec fn function_model(f: Function) -> ItemModel {
    ItemModel {
        name: f.name.name@,
        kind: ItemKind::Function,
        doc: trivia_doc(f.trivia),
        signature: fn_sig(f),
        children: Seq::empty(),
    }
}

/// A struct field as a child item.
pub open spec fn field_leaf(f: StructField) -> LeafModel {
    LeafModel { name: f.name.name@, kind: ItemKind::Field, doc: None, signature: field_text(f) }
}

/// The documented item of a struct, with its fields.
pub open spec fn struct_model(s: StructDef) -> ItemModel {
    ItemModel {
        name: s.name.name@,
        kind: ItemKind::Struct,
        doc: trivia_doc(s.trivia),
        signature: struct_sig(s),
        children: s.fields@.map_values(|f: StructField| field_leaf(f)),
    }
}

/// An enum variant as a child item.
pub open spec fn variant_leaf(v: EnumVariant) -> LeafModel {
    LeafModel { name: v.name.name@, kind: ItemKind::Variant, doc: None, signature: variant_sig(v) }
}

/// The documented item of an enum, with its variants.
pub open spec fn enum_model(e: EnumDef) -> ItemModel {
    ItemModel {
        name: e.name.name@,
        kind: ItemKind::Enum,
        doc: trivia_doc(e.trivia),
        signature: enum_sig(e),
        children: e.variants@.map_values(|v: EnumVariant| variant_leaf(v)),
    }
}

/// An interface method as a child item.
pub open spec fn method_leaf(m: InterfaceMethod) -> LeafModel {
    LeafModel { name: m.name.name@, kind: ItemKind::Method, doc: None, signature: method_sig(m) }
}

/// The documented item of an interface, with its methods.
pub open spec fn interface_model(i: InterfaceDef) -> ItemModel {
    ItemModel {
        name: i.name.name@,
        kind: ItemKind::Interface,
        doc: trivia_doc(i.trivia),
        signature: interface_sig(i),
        children: i.methods@.map_values(|m: InterfaceMethod| method_leaf(m)),
    }
}

/// The documented item of an implementation block, with its methods.
pub open spec fn impl_model(i: ImplDef) -> ItemModel {
    ItemModel {
        name: impl_name(i),
        kind: ItemKind::Impl,
        doc: trivia_doc(i.trivia),
        signature: impl_sig(i),
        children: i.methods@.map_values(|f: Function| function_leaf(f)),
    }
}

/// The documented item of an item; imports have none.
pub open spec fn item_model(item: Item) -> Option<ItemModel> {
    match item.kind {
        AstItemKind::Function(f) => Some(function_model(f)),
        AstItemKind::Struct(s) => Some(struct_model(s)),
        AstItemKind::Enum(e) => Some(enum_model(e)),
        AstItemKind::Interface(i) => Some(interface_model(i)),
        AstItemKind::Impl(i) => Some(impl_model(i)),
        AstItemKind::Import(_) => None,
    }
}

/// The documented items of a module's entries, in order: every item but
/// imports, and every `let` that has documentation.
pub open spec fn top_models(tops: Seq<TopLevelItem>) -> Seq<ItemModel>
    decreases tops.len(),
{
    if tops.len() == 0 {
        Seq::empty()
    } else {
        let rest = top_models(tops.drop_last());
        match tops.last() {
            TopLevelItem::Item(it) => match item_model(it) {
                Some(m) => rest.push(m),
                None => rest,
            },
            TopLevelItem::Let(l) => match l.trivia.doc {
                Some(t) => rest.push(
                    ItemModel {
                        name: pattern_name(l.pattern),
                        kind: ItemKind::Constant,
                        doc: Some(parse_model(t@)),
                        signature: let_sig(l),
                        children: Seq::empty(),
                    },
                ),
                None => rest,
            },
            TopLevelItem::Statement => rest,
        }
    }
}

// ---------------------------------------------------------------------------
// Extraction
// ---------------------------------------------------------------------------

/// Parses the documentation of a node, if it has any.
fn parse_trivia(t: &Trivia) -> (r: Option<DocComment>)
    ensures
        opt_doc(r) == trivia_doc(*t),
{
    match t.doc_text() {
        Some(text) => Some(DocComment::parse(text.as_str())),
        None => None,
    }
}

/// Extracts documentation from a parsed AST
pub struct DocExtractor;

impl DocExtractor {
    /// Extract documentation from a module AST
    pub fn extract(module: &Module, name: &str) -> (r: DocumentedModule)
        ensures
            r.name@ == name@,
            opt_doc(r.doc) == trivia_doc(module.trivia),
            items_are(r.items@, top_models(module.top_level@)),
    {
        let mut doc_module = DocumentedModule::new(copy_str(name));
        if let Some(doc_text) = module.trivia.doc_text() {
            doc_module.doc = Some(DocComment::parse(doc_text.as_str()));
        }
        let ghost tops = module.top_level@;
        let mut i: usize = 0;
        while i < module.top_level.len()
            invariant
                i <= tops.len(),
                tops == module.top_level@,
                doc_module.name@ == name@,
                opt_doc(doc_module.doc) == trivia_doc(module.trivia),
                items_are(doc_module.items@, top_models(tops.take(i as int))),
            decreases module.top_level.len() - i,
        {
            assert(tops.take(i + 1).drop_last() =~= tops.take(i as int));
            assert(tops.take(i + 1).last() == tops[i as int]);
            let ghost before = doc_module.items@;
            match &module.top_level[i] {
                TopLevelItem::Item(item) => {
                    if let Some(doc_item) = Self::extract_item(item) {
                        doc_module.add_item(doc_item);
                    }
                },
                TopLevelItem::Let(let_decl) => {
                    if let Some(doc_text) = let_decl.trivia.doc_text() {
                        let item_name = Self::pattern_to_name(&let_decl.pattern);
                        let sig = Self::format_let_signature(let_decl);
                        let mut item = DocumentedItem::new(item_name, ItemKind::Constant, sig);
                        item.doc = Some(DocComment::parse(doc_text.as_str()));
                        doc_module.add_item(item);
                    }
                },
                TopLevelItem::Statement => {},
            }
            proof {
                let ms = top_models(tops.take(i + 1));
                assert forall|k: int| 0 <= k < ms.len() implies #[trigger] item_is(
                    doc_module.items@[k],
                    ms[k],
                ) by {
                    if k < before.len() {
                        assert(doc_module.items@[k] == before[k]);
                    }
                }
            }
            i = i + 1;
        }
        assert(tops.take(tops.len() as int) =~= tops);
        doc_module
    }

    /// The documented item of an item; imports have none.
    fn extract_item(item: &Item) -> (r: Option<DocumentedItem>)
        ensures
            match item_model(*item) {
                Some(m) => r matches Some(d) && item_is(d, m),
                None => r is None,
            },
    {
        match &item.kind {
            AstItemKind::Function(f) => Some(Self::extract_function(f)),
            AstItemKind::Struct(s) => Some(Self::extract_struct(s)),
            AstItemKind::Enum(e) => Some(Self::extract_enum(e)),
            AstItemKind::Interface(i) => Some(Self::extract_interface(i)),
            AstItemKind::Impl(i) => Some(Self::extract_impl(i)),
            AstItemKind::Import(_) => None,
        }
    }

    /// The documented item of a function.
    fn extract_function(func: &Function) -> (r: DocumentedItem)
        ensures
            item_is(r, function_model(*func)),
            leaf_is(r, function_leaf(*func)),
    {
        let doc = parse_trivia(&func.trivia);
        let sig = Self::format_function_signature(func);
        DocumentedItem::new(func.name.name.clone(), ItemKind::Function, sig).with_doc(doc)
    }

    /// The documented item of a struct, with its fields as children.
    fn extract_struct(s: &StructDef) -> (r: DocumentedItem)
        ensures
            item_is(r, struct_model(*s)),
    {
        let doc = parse_trivia(&s.trivia);
        let sig = Self::format_struct_signature(s);
        let mut item = DocumentedItem::new(s.name.name.clone(), ItemKind::Struct, sig).with_doc(doc);
        let ghost fs = s.fields@;
        let ghost m = struct_model(*s);
        let mut i: usize = 0;
        while i < s.fields.len()
            invariant
                i <= fs.len(),
                fs == s.fields@,
                m == struct_model(*s),
                item.name@ == m.name,
                item.kind == m.kind,
                opt_doc(item.doc) == m.doc,
                item.signature@ == m.signature,
                item.children@.len() == i,
                forall|k: int| 0 <= k < i ==> #[trigger] leaf_is(item.children@[k], m.children[k]),
            decreases s.fields.len() - i,
        {
            let field = &s.fields[i];
            let mut field_sig = field.name.name.clone();
            field_sig.append(": ");
            let ty = Self::format_type(&field.ty);
            field_sig.append(ty.as_str());
            let field_item = DocumentedItem::new(field.name.name.clone(), ItemKind::Field, field_sig);
            let ghost before = item.children@;
            item.add_child(field_item);
            proof {
                assert forall|k: int| 0 <= k < i + 1 implies #[trigger] leaf_is(
                    item.children@[k],
                    m.children[k],
                ) by {
                    if k < i {
                        assert(item.children@[k] == before[k]);
                    }
                }
            }
            i = i + 1;
        }
        item
    }

    /// The documented item of an enum, with its variants as children.
    fn extract_enum(e: &EnumDef) -> (r: DocumentedItem)
        ensures
            item_is(r, enum_model(*e)),
    {
        let doc = parse_trivia(&e.trivia);
        let sig = Self::format_enum_signature(e);
        let mut item = DocumentedItem::new(e.name.name.clone(), ItemKind::Enum, sig).with_doc(doc);
        let ghost vs = e.variants@;
        let ghost m = enum_model(*e);
        let mut i: usize = 0;
        while i < e.variants.len()
            invariant
                i <= vs.len(),
                vs == e.variants@,
                m == enum_model(*e),
                item.name@ == m.name,
                item.kind == m.kind,
                opt_doc(item.doc) == m.doc,
                item.signature@ == m.signature,
                item.children@.len() == i,
                forall|k: int| 0 <= k < i ==> #[trigger] leaf_is(item.children@[k], m.children[k]),
            decreases e.variants.len() - i,
        {
            let variant = &e.variants[i];
            let variant_sig = Self::format_variant_signature(variant);
            let variant_item = DocumentedItem::new(variant.name.name.clone(), ItemKind::Variant, variant_sig);
            let ghost before = item.children@;
            item.add_child(variant_item);
            proof {
                assert forall|k: int| 0 <= k < i + 1 implies #[trigger] leaf_is(
                    item.children@[k],
                    m.children[k],
                ) by {
                    if k < i {
                        assert(item.children@[k] == before[k]);
                    }
                }
            }
            i = i + 1;
        }
        item
    }

    /// The documented item of an interface, with its methods as children.
    fn extract_interface(it: &InterfaceDef) -> (r: DocumentedItem)
        ensures
            item_is(r, interface_model(*it)),
    {
        let doc = parse_trivia(&it.trivia);
        let sig = Self::format_interface_signature(it);
        let mut item = DocumentedItem::new(it.name.name.clone(), ItemKind::Interface, sig).with_doc(doc);
        let ghost ms = it.methods@;
        let ghost m = interface_model(*it);
        let mut i: usize = 0;
        while i < it.methods.len()
            invariant
                i <= ms.len(),
                ms == it.methods@,
                m == interface_model(*it),
                item.name@ == m.name,
                item.kind == m.kind,
                opt_doc(item.doc) == m.doc,
                item.signature@ == m.signature,
                item.children@.len() == i,
                forall|k: int| 0 <= k < i ==> #[trigger] leaf_is(item.children@[k], m.children[k]),
            decreases it.methods.len() - i,
        {
            let method = &it.methods[i];
            let method_sig = Self::format_interface_method_signature(method);
            let method_item = DocumentedItem::new(method.name.name.clone(), ItemKind::Method, method_sig);
            let ghost before = item.children@;
            item.add_child(method_item);
            proof {
                assert forall|k: int| 0 <= k < i + 1 implies #[trigger] leaf_is(
                    item.children@[k],
                    m.children[k],
                ) by {
                    if k < i {
                        assert(item.children@[k] == before[k]);
                    }
                }
            }
            i = i + 1;
        }
        item
    }

    /// The documented item of an implementation block, with its methods as
    /// children.
    fn extract_impl(im: &ImplDef) -> (r: DocumentedItem)
        ensures
            item_is(r, impl_model(*im)),
    {
        let doc = parse_trivia(&im.trivia);
        let sig = Self::format_impl_signature(im);
        let name = Self::format_impl_name(im);
        let mut item = DocumentedItem::new(name, ItemKind::Impl, sig).with_doc(doc);
        let ghost fs = im.methods@;
        let ghost m = impl_model(*im);
        let mut i: usize = 0;
        while i < im.methods.len()
            invariant
                i <= fs.len(),
                fs == im.methods@,
                m == impl_model(*im),
                item.name@ == m.name,
                item.kind == m.kind,
                opt_doc(item.doc) == m.doc,
                item.signature@ == m.signature,
                item.children@.len() == i,
                forall|k: int| 0 <= k < i ==> #[trigger] leaf_is(item.children@[k], m.children[k]),
            decreases im.methods.len() - i,
        {
            let method_item = Self::extract_function(&im.methods[i]);
            let ghost before = item.children@;
            item.add_child(method_item);
            proof {
                assert forall|k: int| 0 <= k < i + 1 implies #[trigger] leaf_is(
                    item.children@[k],
                    m.children[k],
                ) by {
                    if k < i {
                        assert(item.children@[k] == before[k]);
                    }
                }
            }
            i = i + 1;
        }
        item
    }

    // Formatting helpers

    /// Type parameters in angle brackets, or nothing.
    fn format_type_params(tps: &Vec<TypeParam>) -> (r: String)
        ensures
            r@ == tparams_text(tps@),
    {
        let mut sig = String::new();
        if tps.len() > 0 {
            let mut names: Vec<String> = Vec::new();
            let mut i: usize = 0;
            while i < tps.len()
                invariant
                    i <= tps@.len(),
                    views(names@) == tparam_names(tps@.take(i as int)),
                decreases tps.len() - i,
            {
                let ghost before = views(names@);
                names.push(tps[i].name.name.clone());
                assert(tps@.take(i + 1) =~= tps@.take(i as int).push(tps@[i as int]));
                assert(views(names@) =~= before.push(tps@[i as int].name.name@));
                assert(views(names@) =~= tparam_names(tps@.take(i + 1)));
                i = i + 1;
            }
            assert(tps@.take(tps@.len() as int) =~= tps@);
            sig.append("<");
            let joined = join_strings(&names, ", ");
            sig.append(joined.as_str());
            sig.append(">");
        }
        sig
    }

    /// Each parameter as text.
    fn format_params(ps: &Vec<Param>) -> (r: Vec<String>)
        ensures
            views(r@) == params_text(ps@),
    {
        let mut out: Vec<String> = Vec::new();
        let mut i: usize = 0;
        while i < ps.len()
            invariant
                i <= ps@.len(),
                views(out@) == params_text(ps@.take(i as int)),
            decreases ps.len() - i,
        {
            let p = &ps[i];
            let mut s = p.name.name.clone();
            match &p.ty {
                Some(t) => {
                    s.append(": ");
                    let ty = Self::format_type(t);
                    s.append(ty.as_str());
                },
                None => {},
            }
            let ghost before = views(out@);
            assert(s@ == param_text(ps@[i as int]));
            out.push(s);
            assert(ps@.take(i + 1) =~= ps@.take(i as int).push(ps@[i as int]));
            assert(views(out@) =~= before.push(param_text(ps@[i as int])));
            assert(views(out@) =~= params_text(ps@.take(i + 1)));
            i = i + 1;
        }
        assert(ps@.take(ps@.len() as int) =~= ps@);
        out
    }

    /// The signature of a function or method.
    fn format_callable(
        is_async: bool,
        name: &String,
        tps: &Vec<TypeParam>,
        ps: &Vec<Param>,
        ret: &Option<TypeAnnotation>,
    ) -> (r: String)
        ensures
            r@ == callable_sig(is_async, name@, tps@, ps@, *ret),
    {
        let mut sig = String::new();
        if is_async {
            sig.append("async ");
        }
        sig.append("fx ");
        sig.append(name.as_str());
        let tp = Self::format_type_params(tps);
        sig.append(tp.as_str());
        sig.append("(");
        let params = Self::format_params(ps);
        let joined = join_strings(&params, ", ");
        sig.append(joined.as_str());
        sig.append(")");
        if let Some(rt) = ret {
            sig.append(" -> ");
            let t = Self::format_type(rt);
            sig.append(t.as_str());
        }
        assert(sig@ =~= callable_sig(is_async, name@, tps@, ps@, *ret));
        sig
    }

    /// The signature of a function.
    fn format_function_signature(func: &Function) -> (r: String)
        ensures
            r@ == fn_sig(*func),
    {
        Self::format_callable(func.is_async, &func.name.name, &func.type_params, &func.params, &func.return_type)
    }

    /// The signature of a struct.
    fn format_struct_signature(s: &StructDef) -> (r: String)
        ensures
            r@ == struct_sig(*s),
    {
        let mut sig = String::new();
        sig.append("struct ");
        sig.append(s.name.name.as_str());
        let tp = Self::format_type_params(&s.type_params);
        sig.append(tp.as_str());
        sig
    }

    /// The signature of an enum.
    fn format_enum_signature(e: &EnumDef) -> (r: String)
        ensures
            r@ == enum_sig(*e),
    {
        let mut sig = String::new();
        sig.append("enum ");
        sig.append(e.name.name.as_str());
        let tp = Self::format_type_params(&e.type_params);
        sig.append(tp.as_str());
        sig
    }

    /// The signature of an enum variant.
    fn format_variant_signature(variant: &EnumVariant) -> (r: String)
        ensures
            r@ == variant_sig(*variant),
    {
        let mut sig = variant.name.name.clone();
        match &variant.data {
            Some(EnumVariantData::Tuple(types)) => {
                sig.append("(");
                let ts = Self::format_types(types);
                let joined = join_strings(&ts, ", ");
                sig.append(joined.as_str());
                sig.append(")");
            },
            Some(EnumVariantData::Struct(fields)) => {
                sig.append(" { ");
                let mut fs: Vec<String> = Vec::new();
                let mut i: usize = 0;
                while i < fields.len()
                    invariant
                        i <= fields@.len(),
                        views(fs@) == fields_text(fields@.take(i as int)),
                    decreases fields.len() - i,
                {
                    let f = &fields[i];
                    let mut s = f.name.name.clone();
                    s.append(": ");
                    let ty = Self::format_type(&f.ty);
                    s.append(ty.as_str());
                    let ghost before = views(fs@);
                    assert(s@ == field_text(fields@[i as int]));
                    fs.push(s);
                    assert(fields@.take(i + 1) =~= fields@.take(i as int).push(fields@[i as int]));
                    assert(views(fs@) =~= before.push(field_text(fields@[i as int])));
                    assert(views(fs@) =~= fields_text(fields@.take(i + 1)));
                    i = i + 1;
                }
                assert(fields@.take(fields@.len() as int) =~= fields@);
                let joined = join_strings(&fs, ", ");
                sig.append(joined.as_str());
                sig.append(" }");
            },
            None => {},
        }
        sig
    }

    /// The signature of an interface.
    fn format_interface_signature(i: &InterfaceDef) -> (r: String)
        ensures
            r@ == interface_sig(*i),
    {
        let mut sig = String::new();
        sig.append("interface ");
        sig.append(i.name.name.as_str());
        let tp = Self::format_type_params(&i.type_params);
        sig.append(tp.as_str());
        sig
    }

    /// The signature of an interface method.
    fn format_interface_method_signature(method: &InterfaceMethod) -> (r: String)
        ensures
            r@ == method_sig(*method),
    {
        Self::format_callable(
            method.is_async,
            &method.name.name,
            &method.type_params,
            &method.params,
            &method.return_type,
        )
    }

    /// The signature of an implementation block.
    fn format_impl_signature(i: &ImplDef) -> (r: String)
        ensures
            r@ == impl_sig(*i),
    {
        let mut sig = String::new();
        sig.append("impl");
        let tp = Self::format_type_params(&i.type_params);
        sig.append(tp.as_str());
        if let Some(interface) = &i.interface {
            sig.append(" ");
            let t = Self::format_type(interface);
            sig.append(t.as_str());
            sig.append(" for ");
        } else {
            sig.append(" ");
        }
        let target = Self::format_type(&i.target);
        sig.append(target.as_str());
        assert(sig@ =~= impl_sig(*i));
        sig
    }

    /// The name of an implementation block.
    fn format_impl_name(i: &ImplDef) -> (r: String)
        ensures
            r@ == impl_name(*i),
    {
        if let Some(interface) = &i.interface {
            let mut s = Self::format_type(interface);
            s.append(" for ");
            let target = Self::format_type(&i.target);
            s.append(target.as_str());
            s
        } else {
            Self::format_type(&i.target)
        }
    }

    /// The signature of a top-level `let`.
    fn format_let_signature(let_decl: &TopLevelLet) -> (r: String)
        ensures
            r@ == let_sig(*let_decl),
    {
        let name = Self::pattern_to_name(&let_decl.pattern);
        let mut sig = String::new();
        sig.append("let ");
        sig.append(name.as_str());
        if let Some(ty) = &let_decl.ty {
            sig.append(": ");
            let t = Self::format_type(ty);
            sig.append(t.as_str());
        }
        assert(sig@ =~= let_sig(*let_decl));
        sig
    }

    /// The name bound by a pattern, or `<pattern>`.
    fn pattern_to_name(pattern: &Pattern) -> (r: String)
        ensures
            r@ == pattern_name(*pattern),
    {
        match &pattern.kind {
            PatternKind::Ident(ident) => ident.name.clone(),
            PatternKind::Destructure => copy_str("<pattern>"),
        }
    }

    /// Each of a list of types as text.
    fn format_types(ts: &Vec<TypeAnnotation>) -> (r: Vec<String>)
        ensures
            views(r@) == types_text(ts@),
        decreases ts@,
    {
        let mut out: Vec<String> = Vec::new();
        let mut i: usize = 0;
        while i < ts.len()
            invariant
                i <= ts@.len(),
                views(out@) == types_text(ts@.take(i as int)),
            decreases ts.len() - i,
        {
            assert(ts@.take(i + 1).drop_last() =~= ts@.take(i as int));
            assert(decreases_to!(ts@ => ts@[i as int]));
            let s = Self::format_type(&ts[i]);
            out.push(s);
            assert(views(out@) =~= types_text(ts@.take(i + 1)));
            i = i + 1;
        }
        assert(ts@.take(ts@.len() as int) =~= ts@);
        out
    }

    /// A written type as text.
    fn format_type(ty: &TypeAnnotation) -> (r: String)
        ensures
            r@ == type_text(*ty),
        decreases *ty,
    {
        match &ty.kind {
            TypeKind::Named { name, args } => {
                if args.len() == 0 {
                    name.name.clone()
                } else {
                    let mut s = name.name.clone();
                    s.append("<");
                    let parts = Self::format_types(args);
                    let joined = join_strings(&parts, ", ");
                    s.append(joined.as_str());
                    s.append(">");
                    s
                }
            },
            TypeKind::Nullable(inner) => {
                let mut s = Self::format_type(inner);
                s.append("?");
                s
            },
            TypeKind::Function { params, ret } => {
                let mut s = String::new();
                s.append("(");
                let parts = Self::format_types(params);
                let joined = join_strings(&parts, ", ");
                s.append(joined.as_str());
                s.append(") -> ");
                let r = Self::format_type(ret);
                s.append(r.as_str());
                s
            },
            TypeKind::Tuple(types) => {
                let mut s = String::new();
                s.append("(");
                let parts = Self::format_types(types);
                let joined = join_strings(&parts, ", ");
                s.append(joined.as_str());
                s.append(")");
                s
            },
            TypeKind::List(inner) => {
                let mut s = String::new();
                s.append("[");
                let t = Self::format_type(inner);
                s.append(t.as_str());
                s.append("]");
                s
            },
            TypeKind::Unit => copy_str("()"),
            TypeKind::Never => copy_str("!"),
            TypeKind::Inferred => copy_str("_"),
        }
    }
}

} // verus!

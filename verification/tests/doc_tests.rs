use stratum_core::doc::ast::{
    EnumDef, EnumVariant, EnumVariantData, Function, Ident, ImplDef, Item, ItemKind as AstItemKind,
    Module, Param, Pattern, PatternKind, StructDef, StructField, TopLevelItem, TopLevelLet, Trivia,
    TypeAnnotation, TypeKind, TypeParam,
};
use stratum_core::doc::crosslink::{extract_type_names, CrossLinkConfig, CrossLinker};
use stratum_core::doc::extractor::DocExtractor;
use stratum_core::doc::html::{HtmlGenerator, HtmlOptions};
use stratum_core::doc::markdown::MarkdownGenerator;
use stratum_core::doc::project::{build_project_doc, ProjectDoc};
use stratum_core::doc::search::{escape_json, generate_search_index};
use stratum_core::doc::types::{DocComment, DocumentedItem, DocumentedModule, ItemKind};

// ---------------------------------------------------------------------------
// Building parsed modules
// ---------------------------------------------------------------------------

fn ident(s: &str) -> Ident {
    Ident { name: s.to_string() }
}

fn named(s: &str) -> TypeAnnotation {
    TypeAnnotation { kind: TypeKind::Named { name: ident(s), args: vec![] } }
}

fn generic(s: &str, args: Vec<TypeAnnotation>) -> TypeAnnotation {
    TypeAnnotation { kind: TypeKind::Named { name: ident(s), args } }
}

fn trivia(doc: Option<&str>) -> Trivia {
    match doc {
        Some(d) => Trivia::with_doc(d.to_string()),
        None => Trivia::empty(),
    }
}

fn func(name: &str, params: Vec<(&str, &str)>, ret: Option<&str>, doc: Option<&str>) -> Function {
    Function {
        name: ident(name),
        is_async: false,
        type_params: vec![],
        params: params
            .into_iter()
            .map(|(n, t)| Param { name: ident(n), ty: Some(named(t)) })
            .collect(),
        return_type: ret.map(named),
        trivia: trivia(doc),
    }
}

fn strukt(name: &str, fields: Vec<(&str, &str)>, doc: Option<&str>) -> StructDef {
    StructDef {
        name: ident(name),
        type_params: vec![],
        fields: fields
            .into_iter()
            .map(|(n, t)| StructField { name: ident(n), ty: named(t) })
            .collect(),
        trivia: trivia(doc),
    }
}

fn fn_item(f: Function) -> TopLevelItem {
    TopLevelItem::Item(Item { kind: AstItemKind::Function(f) })
}

fn struct_item(s: StructDef) -> TopLevelItem {
    TopLevelItem::Item(Item { kind: AstItemKind::Struct(s) })
}

fn module(top_level: Vec<TopLevelItem>, doc: Option<&str>) -> Module {
    Module { top_level, trivia: trivia(doc) }
}

const GREET_DOC: &str = "Greet a user by name.\n\n## Arguments\n- `name`: The name of the user\n\n## Returns\nA greeting string";

fn greet_module() -> Module {
    module(
        vec![fn_item(func("greet", vec![("name", "String")], Some("String"), Some(GREET_DOC)))],
        None,
    )
}

fn create_test_project() -> ProjectDoc {
    let mut project = ProjectDoc::new("test");
    let mut module = DocumentedModule::new("utils".to_string());
    module.add_item(DocumentedItem::new("User".to_string(), ItemKind::Struct, "struct User".to_string()));
    module.add_item(DocumentedItem::new(
        "greet".to_string(),
        ItemKind::Function,
        "fx greet(user: User) -> String".to_string(),
    ));
    project.add_module(module);
    project
}

fn param_description<'a>(doc: &'a DocComment, name: &str) -> Option<&'a str> {
    doc.params.iter().find(|(n, _)| n == name).map(|(_, p)| p.description.as_str())
}

// ---------------------------------------------------------------------------
// Doc comments
// ---------------------------------------------------------------------------

#[test]
fn test_parse_simple_doc() {
    let text = "This is a simple function.";
    let doc = DocComment::parse(text);
    assert_eq!(doc.summary, "This is a simple function.");
    assert!(doc.description.is_none());
}

#[test]
fn test_parse_doc_with_description() {
    let text = "Brief summary.\n\nThis is the longer description\nthat spans multiple lines.";
    let doc = DocComment::parse(text);
    assert_eq!(doc.summary, "Brief summary.");
    assert!(doc.description.is_some());
    assert!(doc.description.unwrap().contains("longer description"));
}

#[test]
fn test_parse_doc_with_params() {
    let text = "Greet a user.\n\n## Arguments\n- `name`: The user's name\n- `greeting`: The greeting to use";
    let doc = DocComment::parse(text);
    assert_eq!(doc.summary, "Greet a user.");
    assert_eq!(doc.params.len(), 2);
    assert_eq!(param_description(&doc, "name"), Some("The user's name"));
}

#[test]
fn test_parse_doc_with_returns() {
    let text = "Add two numbers.\n\n## Returns\nThe sum of a and b";
    let doc = DocComment::parse(text);
    assert_eq!(doc.returns, Some("The sum of a and b".to_string()));
}

#[test]
fn test_parse_doc_with_example() {
    let text = "Greet a user.\n\n## Example\n```stratum\nlet greeting = greet(\"World\")\n```";
    let doc = DocComment::parse(text);
    assert_eq!(doc.examples.len(), 1);
    assert!(doc.examples[0].contains("greet"));
}

#[test]
fn parse_keeps_first_position_of_repeated_param() {
    let text = "S.\n\n## Arguments\n- `a`: first\n- `b`: second\n- `a`: again";
    let doc = DocComment::parse(text);
    assert_eq!(doc.params.len(), 2);
    assert_eq!(doc.params[0].0, "a");
    assert_eq!(doc.params[0].1.description, "again");
    assert_eq!(doc.params[1].0, "b");
}

#[test]
fn parse_throws_and_see_also() {
    let text = "Open a file.\n\n## Throws\nIoError\n\n## See Also\nio.close";
    let doc = DocComment::parse(text);
    assert_eq!(doc.throws, vec!["IoError".to_string()]);
    assert_eq!(doc.see_also, vec!["io.close".to_string()]);
}

#[test]
fn parse_empty_text_is_empty() {
    let doc = DocComment::parse("");
    assert!(doc.is_empty());
    assert!(!DocComment::parse("x").is_empty());
}

#[test]
fn parse_is_deterministic() {
    let a = DocComment::parse(GREET_DOC);
    let b = DocComment::parse(GREET_DOC);
    assert_eq!(a.summary, b.summary);
    assert_eq!(a.returns, b.returns);
    assert_eq!(a.params.len(), b.params.len());
}

#[test]
fn display_names_of_kinds() {
    assert_eq!(ItemKind::Impl.display_name(), "Implementation");
    assert_eq!(ItemKind::Function.display_name(), "Function");
}

#[test]
fn module_filters_by_kind_in_order() {
    let mut m = DocumentedModule::new("m".to_string());
    m.add_item(DocumentedItem::new("b".to_string(), ItemKind::Function, "fx b()".to_string()));
    m.add_item(DocumentedItem::new("S".to_string(), ItemKind::Struct, "struct S".to_string()));
    m.add_item(DocumentedItem::new("a".to_string(), ItemKind::Function, "fx a()".to_string()));
    let fns: Vec<&str> = m.functions().iter().map(|i| i.name.as_str()).collect();
    assert_eq!(fns, vec!["b", "a"]);
    assert_eq!(m.structs().len(), 1);
    assert!(m.enums().is_empty());
    assert!(m.interfaces().is_empty());
}

// ---------------------------------------------------------------------------
// Extraction
// ---------------------------------------------------------------------------

#[test]
fn test_extract_documented_function() {
    let module = greet_module();
    let doc_module = DocExtractor::extract(&module, "test");

    assert_eq!(doc_module.items.len(), 1);
    let item = &doc_module.items[0];
    assert_eq!(item.name, "greet");
    assert_eq!(item.kind, ItemKind::Function);

    let doc = item.doc.as_ref().expect("Expected doc comment");
    assert!(doc.summary.contains("Greet a user"));
    assert!(param_description(doc, "name").is_some());
    assert!(doc.returns.is_some());
}

#[test]
fn test_extract_struct() {
    let module = module(
        vec![struct_item(strukt("Point", vec![("x", "Int"), ("y", "Int")], Some("A point in 2D space.")))],
        None,
    );
    let doc_module = DocExtractor::extract(&module, "test");

    assert_eq!(doc_module.items.len(), 1);
    let item = &doc_module.items[0];
    assert_eq!(item.name, "Point");
    assert_eq!(item.kind, ItemKind::Struct);
    assert_eq!(item.children.len(), 2);
}

#[test]
fn extract_signatures() {
    let mut f = func("map", vec![("xs", "List")], Some("Int"), None);
    f.is_async = true;
    f.type_params = vec![TypeParam { name: ident("T") }];
    f.params[0].ty = Some(generic("List", vec![named("T")]));
    f.return_type = Some(TypeAnnotation {
        kind: TypeKind::Nullable(Box::new(TypeAnnotation {
            kind: TypeKind::Function {
                params: vec![named("T"), TypeAnnotation { kind: TypeKind::Unit }],
                ret: Box::new(TypeAnnotation {
                    kind: TypeKind::List(Box::new(TypeAnnotation { kind: TypeKind::Inferred })),
                }),
            },
        })),
    });
    let e = EnumDef {
        name: ident("Shape"),
        type_params: vec![],
        variants: vec![
            EnumVariant { name: ident("Empty"), data: None },
            EnumVariant {
                name: ident("Pair"),
                data: Some(EnumVariantData::Tuple(vec![named("Int"), named("Int")])),
            },
            EnumVariant {
                name: ident("Rect"),
                data: Some(EnumVariantData::Struct(vec![StructField { name: ident("w"), ty: named("Int") }])),
            },
        ],
        trivia: Trivia::empty(),
    };
    let im = ImplDef {
        type_params: vec![],
        interface: Some(named("Show")),
        target: named("Shape"),
        methods: vec![func("show", vec![], Some("String"), Some("Show it."))],
        trivia: Trivia::empty(),
    };
    let constant = TopLevelLet {
        pattern: Pattern { kind: PatternKind::Ident(ident("LIMIT")) },
        ty: Some(named("Int")),
        trivia: trivia(Some("The limit.")),
    };
    let hidden = TopLevelLet {
        pattern: Pattern { kind: PatternKind::Destructure },
        ty: None,
        trivia: Trivia::empty(),
    };
    let m = module(
        vec![
            fn_item(f),
            TopLevelItem::Item(Item { kind: AstItemKind::Enum(e) }),
            TopLevelItem::Item(Item { kind: AstItemKind::Impl(im) }),
            TopLevelItem::Item(Item { kind: AstItemKind::Import("io".to_string()) }),
            TopLevelItem::Let(constant),
            TopLevelItem::Let(hidden),
            TopLevelItem::Statement,
        ],
        Some("Shapes."),
    );
    let d = DocExtractor::extract(&m, "shapes");
    assert_eq!(d.name, "shapes");
    assert_eq!(d.doc.as_ref().unwrap().summary, "Shapes.");
    assert_eq!(d.items.len(), 4);
    assert_eq!(d.items[0].signature, "async fx map<T>(xs: List<T>) -> (T, ()) -> [_]?");
    assert_eq!(d.items[1].signature, "enum Shape");
    let variants: Vec<&str> = d.items[1].children.iter().map(|c| c.signature.as_str()).collect();
    assert_eq!(variants, vec!["Empty", "Pair(Int, Int)", "Rect { w: Int }"]);
    assert_eq!(d.items[2].name, "Show for Shape");
    assert_eq!(d.items[2].signature, "impl Show for Shape");
    assert_eq!(d.items[2].children[0].kind, ItemKind::Function);
    assert_eq!(d.items[2].children[0].signature, "fx show() -> String");
    assert_eq!(d.items[3].name, "LIMIT");
    assert_eq!(d.items[3].kind, ItemKind::Constant);
    assert_eq!(d.items[3].signature, "let LIMIT: Int");
}

// ---------------------------------------------------------------------------
// Project index
// ---------------------------------------------------------------------------

#[test]
fn test_project_doc_indexing() {
    let m = module(
        vec![
            fn_item(func("greet", vec![("name", "String")], Some("String"), Some("A greeting function."))),
            struct_item(strukt("User", vec![("name", "String"), ("age", "Int")], Some("A user struct."))),
        ],
        None,
    );
    let doc_module = DocExtractor::extract(&m, "greeting");

    let mut project = ProjectDoc::new("test");
    project.add_module(doc_module);

    assert!(project.lookup("greet").is_some());
    assert!(project.lookup("User").is_some());
    assert_eq!(project.lookup("greet").unwrap().len(), 1);

    let greet_info = &project.lookup("greet").unwrap()[0];
    assert_eq!(greet_info.kind, ItemKind::Function);
    assert_eq!(greet_info.module, "greeting");
}

#[test]
fn test_all_symbols() {
    let m = module(
        vec![
            fn_item(func("alpha", vec![], None, None)),
            fn_item(func("beta", vec![], None, None)),
            struct_item(strukt("Gamma", vec![], None)),
        ],
        None,
    );
    let doc_module = DocExtractor::extract(&m, "test");

    let mut project = ProjectDoc::new("test");
    project.add_module(doc_module);

    let symbols = project.all_symbols();
    assert_eq!(symbols.len(), 3);
    assert_eq!(symbols[0].name, "alpha");
    assert_eq!(symbols[1].name, "beta");
    assert_eq!(symbols[2].name, "Gamma");
}

#[test]
fn index_children_and_descriptions() {
    let m = module(
        vec![struct_item(strukt("User Info", vec![("name", "String")], Some("A user. With more.")))],
        None,
    );
    let mut project = ProjectDoc::new("p");
    project.add_module(DocExtractor::extract(&m, "users"));
    let user = &project.lookup("User Info").unwrap()[0];
    assert_eq!(user.anchor, "user-info");
    assert_eq!(user.description, "A user");
    let field = &project.lookup("name").unwrap()[0];
    assert_eq!(field.anchor, "user-info-name");
    assert_eq!(field.kind, ItemKind::Field);
    assert!(project.lookup("missing").is_none());
}

#[test]
fn lookup_prefers_module_and_links() {
    let mut project = ProjectDoc::new("p");
    for name in ["a", "b"] {
        let mut m = DocumentedModule::new(name.to_string());
        m.add_item(DocumentedItem::new("Thing".to_string(), ItemKind::Struct, "struct Thing".to_string()));
        project.add_module(m);
    }
    assert_eq!(project.lookup("Thing").unwrap().len(), 2);
    assert_eq!(project.lookup_in_module("Thing", "b").unwrap().module, "b");
    assert_eq!(project.lookup_in_module("Thing", "c").unwrap().module, "a");
    let sym = project.lookup_in_module("Thing", "b").unwrap();
    assert_eq!(project.link_to_symbol(sym, "b"), "#thing");
    assert_eq!(project.link_to_symbol(sym, "a"), "b.html#thing");
    assert_eq!(ProjectDoc::relative_path("a", "a"), "");
    assert_eq!(ProjectDoc::relative_path("a", "b"), "b.html");
    assert_eq!(project.symbols_by_kind(ItemKind::Struct).len(), 2);
    assert!(project.symbols_by_kind(ItemKind::Enum).is_empty());
}

#[test]
fn build_project_from_parsed_modules() {
    let files = vec![("greeting".to_string(), greet_module()), ("empty".to_string(), module(vec![], None))];
    let project = build_project_doc("proj", &files);
    assert_eq!(project.name, "proj");
    assert_eq!(project.modules.len(), 2);
    assert_eq!(project.modules[0].name, "greeting");
    assert_eq!(project.modules[1].name, "empty");
    assert_eq!(project.lookup("greet").unwrap()[0].module, "greeting");
}

// ---------------------------------------------------------------------------
// Cross-linking
// ---------------------------------------------------------------------------

#[test]
fn test_link_signature() {
    let project = create_test_project();
    let linker = CrossLinker::new(
        &project,
        CrossLinkConfig { current_module: "utils".to_string(), link_external: true },
    );

    let result = linker.link_signature("fx greet(user: User) -> String");
    assert!(result.contains("<a href=\"#user\" class=\"type-link\">User</a>"));
    assert!(!result.contains("href=\"#string\""));
}

#[test]
fn test_extract_type_names() {
    let sig = "fx process(input: DataFrame, filter: Filter<T>) -> Result<Output>";
    let types = extract_type_names(sig);

    assert!(types.contains(&"DataFrame".to_string()));
    assert!(types.contains(&"Filter".to_string()));
    assert!(types.contains(&"T".to_string()));
    assert!(types.contains(&"Result".to_string()));
    assert!(types.contains(&"Output".to_string()));
}

#[test]
fn test_builtin_not_linked() {
    let project = create_test_project();
    let linker = CrossLinker::new(
        &project,
        CrossLinkConfig { current_module: "utils".to_string(), link_external: true },
    );

    let result = linker.link_signature("Int -> Float");
    assert!(!result.contains("<a"));
    assert!(result.contains("Int"));
    assert!(result.contains("Float"));
}

#[test]
fn link_description_and_see_also() {
    let project = create_test_project();
    let linker = CrossLinker::new(
        &project,
        CrossLinkConfig { current_module: "other".to_string(), link_external: true },
    );
    assert_eq!(
        linker.link_description("Uses a User, if any."),
        "Uses a <a href=\"utils.html#user\" class=\"type-link\">User</a>, if any."
    );
    assert_eq!(
        linker.resolve_see_also("utils.User"),
        Some(("utils.User".to_string(), "utils.html#user".to_string()))
    );
    assert_eq!(linker.resolve_see_also("Nothing"), None);
    assert_eq!(extract_type_names("fx f(x: Int) -> Int"), vec!["Int".to_string(), "Int".to_string()]);
}

// ---------------------------------------------------------------------------
// Search index
// ---------------------------------------------------------------------------

#[test]
fn test_generate_search_index() {
    let mut project = ProjectDoc::new("test");
    let mut module = DocumentedModule::new("math".to_string());
    module.add_item(DocumentedItem::new(
        "add".to_string(),
        ItemKind::Function,
        "fx add(a: Int, b: Int) -> Int".to_string(),
    ));
    project.add_module(module);

    let json = generate_search_index(&project);

    assert!(json.contains("\"n\":\"add\""));
    assert!(json.contains("\"k\":\"function\""));
    assert!(json.contains("\"m\":\"math\""));
}

#[test]
fn test_escape_json() {
    assert_eq!(escape_json("hello"), "hello");
    assert_eq!(escape_json("he\"llo"), "he\\\"llo");
    assert_eq!(escape_json("line1\nline2"), "line1\\nline2");
}

#[test]
fn search_index_exact_text() {
    let mut project = ProjectDoc::new("test");
    let mut module = DocumentedModule::new("m".to_string());
    module.add_item(DocumentedItem::new("b".to_string(), ItemKind::Enum, "enum b".to_string()));
    module.add_item(DocumentedItem::new("A".to_string(), ItemKind::Struct, "struct A".to_string()));
    project.add_module(module);
    assert_eq!(
        generate_search_index(&project),
        "[\n  {\"n\":\"A\",\"k\":\"struct\",\"m\":\"m\",\"d\":\"\",\"l\":\"m.html#a\"},\n  {\"n\":\"b\",\"k\":\"enum\",\"m\":\"m\",\"d\":\"\",\"l\":\"m.html#b\"}\n]"
    );
    assert_eq!(generate_search_index(&ProjectDoc::new("e")), "[\n\n]");
    assert_eq!(escape_json("a\\b\t\r"), "a\\\\b\\t\\r");
}

// ---------------------------------------------------------------------------
// Markdown
// ---------------------------------------------------------------------------

#[test]
fn test_generate_markdown() {
    let module = greet_module();
    let doc_module = DocExtractor::extract(&module, "greeting");
    let markdown = MarkdownGenerator::generate(&doc_module);

    assert!(markdown.contains("# greeting"));
    assert!(markdown.contains("## Functions"));
    assert!(markdown.contains("`greet`"));
    assert!(markdown.contains("Greet a user"));
    assert!(markdown.contains("**Arguments:**"));
    assert!(markdown.contains("`name`"));
}

#[test]
fn markdown_exact_text() {
    let mut m = DocumentedModule::new("tiny".to_string());
    let mut s = DocumentedItem::new("My Point".to_string(), ItemKind::Struct, "struct My Point".to_string());
    s.add_child(DocumentedItem::new("x".to_string(), ItemKind::Field, "x: Int".to_string()));
    m.add_item(s);
    let md = MarkdownGenerator::generate(&m);
    assert_eq!(
        md,
        "# tiny\n\n## Contents\n\n### Structs\n- [`My Point`](#my-point)\n\n\n## Structs\n\n### `My Point`\n\n```stratum\nstruct My Point\n```\n\n**Fields:**\n\n- `x: Int` - \n\n---\n\n"
    );
    assert_eq!(MarkdownGenerator::generate(&DocumentedModule::new("e".to_string())), "# e\n\n");
}

// ---------------------------------------------------------------------------
// HTML
// ---------------------------------------------------------------------------

#[test]
fn test_generate_html() {
    let module = module(
        vec![fn_item(func("greet", vec![("name", "String")], Some("String"), Some("A simple greeting function.")))],
        None,
    );
    let doc_module = DocExtractor::extract(&module, "greeting");
    let html = HtmlGenerator::generate(&doc_module);

    assert!(html.contains("<!DOCTYPE html>"));
    assert!(html.contains("<title>greeting - Stratum Documentation</title>"));
    assert!(html.contains("greet"));
    assert!(html.contains("A simple greeting function"));
}

#[test]
fn test_generate_with_project() {
    let users = module(
        vec![
            struct_item(strukt("User", vec![("name", "String")], Some("A user type."))),
            fn_item(func("create_user", vec![("name", "String")], Some("User"), Some("Create a new user."))),
        ],
        None,
    );
    let greeting = module(
        vec![fn_item(func("greet", vec![("user", "User")], Some("String"), Some("Greet a User by name.")))],
        None,
    );

    let mut project = ProjectDoc::new("TestProject");
    project.add_module(DocExtractor::extract(&users, "users"));
    project.add_module(DocExtractor::extract(&greeting, "greeting"));

    let options = HtmlOptions { enable_search: true, enable_crosslinks: true };

    let html = HtmlGenerator::generate_with_project(&project.modules[1], &project, &options);

    assert!(html.contains("<!DOCTYPE html>"));
    assert!(html.contains("<title>greeting - TestProject Documentation</title>"));
    assert!(html.contains("type-link"));
    assert!(html.contains("users.html#user"));
    assert!(html.contains("search-input"));
    assert!(html.contains("search-results"));
    assert!(html.contains("users"));
    assert!(html.contains("greeting"));
}

#[test]
fn test_generate_index() {
    let math = module(
        vec![
            fn_item(func("add", vec![("a", "Int"), ("b", "Int")], Some("Int"), Some("Add two numbers."))),
            struct_item(strukt("Point", vec![("x", "Int"), ("y", "Int")], Some("A point in 2D space."))),
        ],
        Some("A math module."),
    );

    let mut project = ProjectDoc::new("MathLib");
    project.add_module(DocExtractor::extract(&math, "math"));

    let options = HtmlOptions { enable_search: true, enable_crosslinks: true };

    let html = HtmlGenerator::generate_index(&project, &options);

    assert!(html.contains("<!DOCTYPE html>"));
    assert!(html.contains("<title>MathLib Documentation</title>"));
    assert!(html.contains("module-grid"));
    assert!(html.contains("math.html"));
    assert!(html.contains("symbol-list"));
    assert!(html.contains("add"));
    assert!(html.contains("Point"));
    assert!(html.contains("search-input"));
}

#[test]
fn html_escapes_and_omits_search_when_disabled() {
    let m = module(
        vec![fn_item(func("lt", vec![("a", "Int")], Some("Bool"), Some("Is a < b & \"c\"?")))],
        None,
    );
    let d = DocExtractor::extract(&m, "cmp");
    let html = HtmlGenerator::generate(&d);
    assert!(html.contains("    <p class=\"summary\">Is a &lt; b &amp; &quot;c&quot;?</p>\n"));
    assert!(html.contains("  <div class=\"item\" id=\"lt\">\n"));
    assert!(html.ends_with("</body>\n</html>\n"));
    let mut project = ProjectDoc::new("P");
    project.add_module(d);
    let page = HtmlGenerator::generate_with_project(&project.modules[0], &project, &HtmlOptions::default());
    assert!(!page.contains("search-input"));
    assert!(page.contains("<li><a href=\"cmp.html\" class=\"active\">cmp</a></li>"));
    let index = HtmlGenerator::generate_index(&project, &HtmlOptions::default());
    assert!(index.contains("<span>1 functions</span>"));
    assert!(index.contains("kind-function\">Function</span>"));
    assert!(!index.contains("more symbols"));
}

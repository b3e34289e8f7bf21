//! HTML documentation generator

use vstd::prelude::*;

use super::crosslink::{last_segment, linked_from, resolve_word, CrossLinkConfig, CrossLinker};
use super::markdown::child_type;
use super::project::{anchor_of, flat_symbols, link_of, sym_key, ProjectDoc, SymbolInfo};
use super::search::{generate_search_css, generate_search_js, SEARCH_CSS, SEARCH_JS};
use super::types::{derefs, items_of_kind, kind_display, of_kind, DocComment, DocModel, DocumentedItem, DocumentedModule, ItemKind};
use crate::fmt::{dec, push_dec};
use crate::text::{chars_of, concat, lemma_concat_push, lex_le, lowercase, push_char, to_lowercase};

verus! {

/// Options for HTML generation
#[derive(Debug, Clone)]
pub struct HtmlOptions {
    /// Enable search functionality
    pub enable_search: bool,
    /// Enable cross-linking between types
    pub enable_crosslinks: bool,
}

impl Default for HtmlOptions {
    fn default() -> (r: HtmlOptions)
        ensures
            !r.enable_search,
            !r.enable_crosslinks,
    {
        HtmlOptions { enable_search: false, enable_crosslinks: false }
    }
}

/// The opening of every page, up to the title.
pub const PAGE_HEAD: &'static str = "<!DOCTYPE html>\n<html lang=\"en\">\n<head>\n  <meta charset=\"UTF-8\">\n  <meta name=\"viewport\" content=\"width=device-width, initial-scale=1.0\">\n";

/// The end of the head and the start of the sidebar.
pub const SIDEBAR_OPEN: &'static str = "</head>\n<body>\n<nav class=\"sidebar\">\n  <div class=\"sidebar-header\">\n";

/// The search box of the sidebar.
pub const SEARCH_BOX: &'static str = "  <div class=\"search-container\">\n    <span class=\"search-icon\">&#128269;</span>\n    <input type=\"text\" id=\"search-input\" placeholder=\"Search...\" autocomplete=\"off\">\n    <span class=\"search-hint\">/</span>\n    <div id=\"search-results\"></div>\n  </div>\n";

/// The start of the list of modules in the sidebar.
pub const MODULE_LIST_OPEN: &'static str = "  <div class=\"module-list\">\n    <h3>Modules</h3>\n    <ul>\n";

/// The end of the list of modules in the sidebar.
pub const MODULE_LIST_CLOSE: &'static str = "    </ul>\n  </div>\n";

/// The end of the main content and the page footer.
pub const PAGE_FOOTER: &'static str = "</main>\n<footer>\n  <p>Generated by <a href=\"https://stratum-lang.org\">Stratum</a></p>\n</footer>\n";

/// The end of every page.
pub const PAGE_END: &'static str = "</body>\n</html>\n";

/// The style sheet of every page.
pub const PAGE_CSS: &'static str = r#"
:root {
  --bg-color: #1a1a2e;
  --text-color: #eaeaea;
  --accent-color: #7b68ee;
  --code-bg: #16213e;
  --sidebar-bg: #0f0f23;
  --border-color: #333;
}

* {
  box-sizing: border-box;
  margin: 0;
  padding: 0;
}

body {
  font-family: -apple-system, BlinkMacSystemFont, 'Segoe UI', Roboto, Oxygen, Ubuntu, sans-serif;
  background-color: var(--bg-color);
  color: var(--text-color);
  line-height: 1.6;
  display: flex;
}

.sidebar {
  width: 280px;
  background-color: var(--sidebar-bg);
  height: 100vh;
  position: fixed;
  overflow-y: auto;
  border-right: 1px solid var(--border-color);
}

.sidebar-header {
  padding: 1.5rem;
  border-bottom: 1px solid var(--border-color);
}

.sidebar-header h2 {
  color: var(--accent-color);
  font-size: 1.25rem;
}

.sidebar nav {
  padding: 1rem;
}

.sidebar h3 {
  font-size: 0.875rem;
  text-transform: uppercase;
  color: #888;
  margin: 1rem 0 0.5rem;
}

.sidebar ul {
  list-style: none;
}

.sidebar a {
  display: block;
  padding: 0.25rem 0;
  color: var(--text-color);
  text-decoration: none;
  font-size: 0.9rem;
}

.sidebar a:hover {
  color: var(--accent-color);
}

.content {
  margin-left: 280px;
  padding: 2rem 3rem;
  max-width: 900px;
}

header h1 {
  font-size: 2.5rem;
  color: var(--accent-color);
  margin-bottom: 1rem;
}

section {
  margin: 2rem 0;
}

section h2 {
  font-size: 1.5rem;
  color: var(--accent-color);
  border-bottom: 2px solid var(--border-color);
  padding-bottom: 0.5rem;
  margin-bottom: 1.5rem;
}

.item {
  margin: 1.5rem 0;
  padding: 1rem;
  background: var(--code-bg);
  border-radius: 8px;
  border-left: 3px solid var(--accent-color);
}

.item h3 {
  font-size: 1.1rem;
  margin-bottom: 0.5rem;
}

.item h3 code {
  background: none;
  color: var(--accent-color);
  padding: 0;
}

.signature {
  background: #0d1117;
  padding: 0.75rem 1rem;
  border-radius: 4px;
  overflow-x: auto;
  font-family: 'Fira Code', 'Consolas', monospace;
  font-size: 0.9rem;
  margin: 0.5rem 0;
}

.summary {
  font-size: 1rem;
  margin: 0.75rem 0;
}

.description {
  color: #bbb;
  margin: 0.5rem 0;
}

.params, .returns, .throws {
  margin: 0.75rem 0;
}

.params h4, .returns h4, .throws h4 {
  font-size: 0.9rem;
  color: #888;
  margin-bottom: 0.25rem;
}

.params ul {
  list-style: none;
  padding-left: 1rem;
}

.params li {
  margin: 0.25rem 0;
}

.params code {
  color: var(--accent-color);
}

.example {
  margin: 1rem 0;
}

.example h4 {
  font-size: 0.9rem;
  color: #888;
  margin-bottom: 0.5rem;
}

.example pre {
  background: #0d1117;
  padding: 1rem;
  border-radius: 4px;
  overflow-x: auto;
  font-family: 'Fira Code', 'Consolas', monospace;
  font-size: 0.85rem;
}

.children {
  margin-top: 1rem;
  padding-top: 1rem;
  border-top: 1px solid var(--border-color);
}

.children h4 {
  font-size: 0.9rem;
  color: #888;
  margin-bottom: 0.5rem;
}

.children ul {
  list-style: none;
}

.children li {
  margin: 0.25rem 0;
  font-family: 'Fira Code', 'Consolas', monospace;
  font-size: 0.85rem;
}

code {
  background: var(--code-bg);
  padding: 0.15rem 0.3rem;
  border-radius: 3px;
  font-family: 'Fira Code', 'Consolas', monospace;
  font-size: 0.9em;
}

footer {
  position: fixed;
  bottom: 0;
  right: 0;
  padding: 0.5rem 1rem;
  font-size: 0.75rem;
  color: #666;
}

footer a {
  color: var(--accent-color);
}

/* Module list in sidebar */
.module-list {
  padding: 1rem;
  border-bottom: 1px solid var(--border-color);
}

.module-list h3 {
  font-size: 0.875rem;
  text-transform: uppercase;
  color: #888;
  margin-bottom: 0.5rem;
}

.module-list ul {
  list-style: none;
}

.module-list li {
  margin: 0.25rem 0;
}

.module-list a {
  color: var(--text-color);
  text-decoration: none;
}

.module-list a:hover, .module-list a.active {
  color: var(--accent-color);
}

/* Module grid on index page */
.module-grid {
  display: grid;
  grid-template-columns: repeat(auto-fill, minmax(280px, 1fr));
  gap: 1rem;
}

.module-card {
  display: block;
  padding: 1.25rem;
  background: var(--code-bg);
  border-radius: 8px;
  border: 1px solid var(--border-color);
  text-decoration: none;
  color: var(--text-color);
  transition: border-color 0.2s, transform 0.2s;
}

.module-card:hover {
  border-color: var(--accent-color);
  transform: translateY(-2px);
}

.module-card h3 {
  color: var(--accent-color);
  font-size: 1.2rem;
  margin-bottom: 0.5rem;
}

.module-card p {
  font-size: 0.9rem;
  color: #bbb;
  margin-bottom: 0.75rem;
}

.module-stats {
  display: flex;
  gap: 1rem;
  font-size: 0.8rem;
  color: #888;
}

/* All symbols list on index */
.symbol-list {
  display: flex;
  flex-direction: column;
  gap: 0.25rem;
}

.symbol-item {
  display: flex;
  align-items: center;
  gap: 0.75rem;
  padding: 0.5rem 0.75rem;
  text-decoration: none;
  color: var(--text-color);
  border-radius: 4px;
}

.symbol-item:hover {
  background: var(--code-bg);
}

.symbol-kind {
  display: inline-block;
  padding: 0.1rem 0.4rem;
  font-size: 0.7rem;
  font-weight: 600;
  text-transform: uppercase;
  border-radius: 3px;
  min-width: 70px;
  text-align: center;
}

.kind-function { background: #2d5a27; color: #7ec876; }
.kind-struct { background: #5a4427; color: #d4a656; }
.kind-enum { background: #27485a; color: #56b4d4; }
.kind-interface { background: #4a275a; color: #c476d4; }
.kind-method { background: #275a4a; color: #56d4b4; }
.kind-constant { background: #5a2727; color: #d47676; }
.kind-field { background: #3d3d3d; color: #999; }
.kind-variant { background: #27485a; color: #56b4d4; }
.kind-implementation { background: #3d4a5a; color: #8ab4d4; }

.symbol-name {
  font-weight: 500;
  color: var(--accent-color);
}

.symbol-module {
  font-size: 0.85rem;
  color: #888;
  margin-left: auto;
}

.more-symbols {
  padding: 0.75rem;
  text-align: center;
  color: #888;
  font-style: italic;
}

/* See also links */
.see-also {
  margin: 0.75rem 0;
}

.see-also h4 {
  font-size: 0.9rem;
  color: #888;
  margin-bottom: 0.25rem;
}

.see-also ul {
  list-style: none;
  padding-left: 1rem;
}

.see-also a {
  color: var(--accent-color);
  text-decoration: none;
}

.see-also a:hover {
  text-decoration: underline;
}

@media (max-width: 768px) {
  .sidebar {
    display: none;
  }
  .content {
    margin-left: 0;
    padding: 1rem;
  }
}
"#;

// ---------------------------------------------------------------------------
// The pages, piece by piece
// ---------------------------------------------------------------------------

/// How one character is written in HTML text.
pub open spec fn escape_html_char(c: char) -> Seq<char> {
    if c == '&' {
        "&amp;"@
    } else if c == '<' {
        "&lt;"@
    } else if c == '>' {
        "&gt;"@
    } else if c == '"' {
        "&quot;"@
    } else {
        seq![c]
    }
}

/// A string with `&`, `<`, `>` and `"` escaped for HTML.
pub open spec fn escape_html_spec(s: Seq<char>) -> Seq<char>
    decreases s.len(),
{
    if s.len() == 0 {
        Seq::empty()
    } else {
        escape_html_spec(s.drop_last()) + escape_html_char(s.last())
    }
}

/// The project and module a cross-linker links from, if there is one.
pub open spec fn linker_model(l: Option<&CrossLinker>) -> Option<(ProjectDoc, Seq<char>)> {
    match l {
        Some(x) => Some((x.project_spec(), x.module_spec())),
        None => None,
    }
}

/// Text as it appears on a page: cross-linked where a linker is given,
/// HTML-escaped otherwise.
pub open spec fn link_text(l: Option<(ProjectDoc, Seq<char>)>, s: Seq<char>) -> Seq<char> {
    match l {
        Some((p, m)) => linked_from(p, m, s, 0),
        None => escape_html_spec(s),
    }
}

/// The style element of every page.
pub open spec fn styles_html() -> Seq<char> {
    "<style>\n"@ + PAGE_CSS@ + "\n</style>\n"@
}

/// One entry of a module's navigation.
pub open spec fn nav_entry(item: DocumentedItem) -> Seq<char> {
    "      <li><a href=\"#"@ + anchor_of(item.name@) + "\">"@ + item.name@ + "</a></li>\n"@
}

/// One group of a module's navigation, or nothing if it has no items.
pub open spec fn nav_group(title: Seq<char>, items: Seq<DocumentedItem>) -> Seq<char> {
    if items.len() == 0 {
        Seq::empty()
    } else {
        "    <h3>"@ + title + "</h3>\n    <ul>\n"@ + concat(
            items.map_values(|it: DocumentedItem| nav_entry(it)),
        ) + "    </ul>\n"@
    }
}

/// The navigation of a module: functions, structs, enums and interfaces.
pub open spec fn nav_html(items: Seq<DocumentedItem>) -> Seq<char> {
    "  <nav>\n"@ + nav_group("Functions"@, of_kind(items, ItemKind::Function)) + nav_group(
        "Structs"@,
        of_kind(items, ItemKind::Struct),
    ) + nav_group("Enums"@, of_kind(items, ItemKind::Enum)) + nav_group(
        "Interfaces"@,
        of_kind(items, ItemKind::Interface),
    ) + "  </nav>\n"@
}

/// The module documentation section.
pub open spec fn module_doc_html(doc: Option<DocComment>, l: Option<(ProjectDoc, Seq<char>)>) -> Seq<char> {
    match doc {
        Some(d) => "<section class=\"module-doc\">\n"@ + (if d@.summary.len() == 0 {
            Seq::empty()
        } else {
            "  <p class=\"summary\">"@ + link_text(l, d@.summary) + "</p>\n"@
        }) + (match d@.description {
            Some(desc) => "  <div class=\"description\">"@ + link_text(l, desc) + "</div>\n"@,
            None => Seq::empty(),
        }) + "</section>\n"@,
        None => Seq::empty(),
    }
}

/// The summary and description of an item.
pub open spec fn item_text_html(d: DocModel, l: Option<(ProjectDoc, Seq<char>)>) -> Seq<char> {
    (if d.summary.len() == 0 {
        Seq::empty()
    } else {
        "    <p class=\"summary\">"@ + link_text(l, d.summary) + "</p>\n"@
    }) + match d.description {
        Some(desc) => "    <div class=\"description\">"@ + link_text(l, desc) + "</div>\n"@,
        None => Seq::empty(),
    }
}

/// One documented parameter.
pub open spec fn param_html(p: (Seq<char>, Seq<char>), l: Option<(ProjectDoc, Seq<char>)>) -> Seq<char> {
    "        <li><code>"@ + escape_html_spec(p.0) + "</code>: "@ + link_text(l, p.1) + "</li>\n"@
}

/// The arguments of an item.
pub open spec fn params_html(d: DocModel, l: Option<(ProjectDoc, Seq<char>)>) -> Seq<char> {
    if d.params.len() == 0 {
        Seq::empty()
    } else {
        "    <div class=\"params\">\n      <h4>Arguments</h4>\n      <ul>\n"@ + concat(
            d.params.map_values(|p: (Seq<char>, Seq<char>)| param_html(p, l)),
        ) + "      </ul>\n    </div>\n"@
    }
}

/// What an item returns.
pub open spec fn returns_html(d: DocModel, l: Option<(ProjectDoc, Seq<char>)>) -> Seq<char> {
    match d.returns {
        Some(r) => "    <div class=\"returns\">\n      <h4>Returns</h4>\n      <p>"@ + link_text(l, r)
            + "</p>\n    </div>\n"@,
        None => Seq::empty(),
    }
}

/// One documented exception.
pub open spec fn throw_html(t: Seq<char>) -> Seq<char> {
    "        <li>"@ + escape_html_spec(t) + "</li>\n"@
}

/// The exceptions of an item.
pub open spec fn throws_html(d: DocModel) -> Seq<char> {
    if d.throws.len() == 0 {
        Seq::empty()
    } else {
        "    <div class=\"throws\">\n      <h4>Throws</h4>\n      <ul>\n"@ + concat(
            d.throws.map_values(|t: Seq<char>| throw_html(t)),
        ) + "      </ul>\n    </div>\n"@
    }
}

/// One "see also" reference: a link where the linker resolves it, the
/// escaped reference otherwise.
pub open spec fn see_also_entry(r: Seq<char>, l: Option<(ProjectDoc, Seq<char>)>) -> Seq<char> {
    match l {
        Some((p, m)) => match resolve_word(p, last_segment(r), m) {
            Some(s) => "        <li><a href=\""@ + link_of(s@, m) + "\">"@ + r + "</a></li>\n"@,
            None => throw_html(r),
        },
        None => throw_html(r),
    }
}

/// The "see also" references of an item.
pub open spec fn see_also_html(d: DocModel, l: Option<(ProjectDoc, Seq<char>)>) -> Seq<char> {
    if d.see_also.len() == 0 {
        Seq::empty()
    } else {
        "    <div class=\"see-also\">\n      <h4>See Also</h4>\n      <ul>\n"@ + concat(
            d.see_also.map_values(|r: Seq<char>| see_also_entry(r, l)),
        ) + "      </ul>\n    </div>\n"@
    }
}

/// One example.
pub open spec fn example_html(e: Seq<char>) -> Seq<char> {
    "      <pre>"@ + escape_html_spec(e) + "</pre>\n"@
}

/// The examples of an item.
pub open spec fn examples_html(d: DocModel) -> Seq<char> {
    if d.examples.len() == 0 {
        Seq::empty()
    } else {
        "    <div class=\"example\">\n      <h4>Example</h4>\n"@ + concat(
            d.examples.map_values(|e: Seq<char>| example_html(e)),
        ) + "    </div>\n"@
    }
}

/// The documentation of an item; the "see also" part only where `see` holds.
pub open spec fn doc_html(d: DocModel, l: Option<(ProjectDoc, Seq<char>)>, see: bool) -> Seq<char> {
    item_text_html(d, l) + params_html(d, l) + returns_html(d, l) + throws_html(d) + (if see {
        see_also_html(d, l)
    } else {
        Seq::empty()
    }) + examples_html(d)
}

/// One child of an item.
pub open spec fn child_html(c: DocumentedItem, l: Option<(ProjectDoc, Seq<char>)>) -> Seq<char> {
    "        <li><code>"@ + link_text(l, c.signature@) + "</code></li>\n"@
}

/// The children of an item.
pub open spec fn children_html(item: DocumentedItem, l: Option<(ProjectDoc, Seq<char>)>) -> Seq<char> {
    if item.children@.len() == 0 {
        Seq::empty()
    } else {
        "    <div class=\"children\">\n      <h4>"@ + child_type(item.kind) + "</h4>\n      <ul>\n"@
            + concat(item.children@.map_values(|c: DocumentedItem| child_html(c, l)))
            + "      </ul>\n    </div>\n"@
    }
}

/// The heading and signature of an item.
pub open spec fn item_head_html(item: DocumentedItem, l: Option<(ProjectDoc, Seq<char>)>) -> Seq<char> {
    "  <div class=\"item\" id=\""@ + anchor_of(item.name@) + "\">\n"@ + "    <h3><code>"@
        + escape_html_spec(item.name@) + "</code></h3>\n"@ + "    <div class=\"signature\">\n      "@
        + link_text(l, item.signature@) + "\n    </div>\n"@
}

/// One item.
pub open spec fn item_html(item: DocumentedItem, l: Option<(ProjectDoc, Seq<char>)>, see: bool) -> Seq<char> {
    item_head_html(item, l) + (match item.doc {
        Some(d) => doc_html(d@, l, see),
        None => Seq::empty(),
    }) + children_html(item, l) + "  </div>\n"@
}

/// A section of items, or nothing if it has no items.
pub open spec fn section_html(
    id: Seq<char>,
    title: Seq<char>,
    items: Seq<DocumentedItem>,
    l: Option<(ProjectDoc, Seq<char>)>,
    see: bool,
) -> Seq<char> {
    if items.len() == 0 {
        Seq::empty()
    } else {
        "<section id=\""@ + id + "\">\n  <h2>"@ + title + "</h2>\n"@ + concat(
            items.map_values(|it: DocumentedItem| item_html(it, l, see)),
        ) + "</section>\n"@
    }
}

/// The sections of a module's items, by kind.
pub open spec fn sections_html(items: Seq<DocumentedItem>, l: Option<(ProjectDoc, Seq<char>)>, see: bool) -> Seq<char> {
    section_html("functions"@, "Functions"@, of_kind(items, ItemKind::Function), l, see)
        + section_html("structs"@, "Structs"@, of_kind(items, ItemKind::Struct), l, see)
        + section_html("enums"@, "Enums"@, of_kind(items, ItemKind::Enum), l, see)
        + section_html("interfaces"@, "Interfaces"@, of_kind(items, ItemKind::Interface), l, see)
        + section_html("implementations"@, "Implementations"@, of_kind(items, ItemKind::Impl), l, see)
        + section_html("constants"@, "Constants"@, of_kind(items, ItemKind::Constant), l, see)
}

/// The page of a module on its own.
pub open spec fn module_page(m: DocumentedModule) -> Seq<char> {
    PAGE_HEAD@ + "  <title>"@ + m.name@ + " - Stratum Documentation</title>\n"@ + styles_html()
        + SIDEBAR_OPEN@ + "    <h2>"@ + m.name@ + "</h2>\n  </div>\n"@ + nav_html(m.items@)
        + "</nav>\n<main class=\"content\">\n<header>\n  <h1>"@ + m.name@ + "</h1>\n</header>\n"@
        + module_doc_html(m.doc, None) + sections_html(m.items@, None, false) + PAGE_FOOTER@
        + PAGE_END@
}

/// One entry of the list of modules; the current one is marked active.
pub open spec fn module_entry(m: DocumentedModule, current: Option<Seq<char>>) -> Seq<char> {
    "      <li><a href=\""@ + m.name@ + ".html\""@ + (match current {
        Some(c) => if m.name@ == c {
            " class=\"active\""@
        } else {
            Seq::empty()
        },
        None => Seq::empty(),
    }) + ">"@ + m.name@ + "</a></li>\n"@
}

/// The list of modules of a project.
pub open spec fn module_list_html(ms: Seq<DocumentedModule>, current: Option<Seq<char>>) -> Seq<char> {
    MODULE_LIST_OPEN@ + concat(ms.map_values(|m: DocumentedModule| module_entry(m, current)))
        + MODULE_LIST_CLOSE@
}

/// The search style, where search is enabled.
pub open spec fn search_css_html(search: bool) -> Seq<char> {
    if search {
        "<style>"@ + SEARCH_CSS@ + "</style>\n"@
    } else {
        Seq::empty()
    }
}

/// The search box, where search is enabled.
pub open spec fn search_box_html(search: bool) -> Seq<char> {
    if search {
        SEARCH_BOX@
    } else {
        Seq::empty()
    }
}

/// The search script, where search is enabled.
pub open spec fn search_js_html(search: bool) -> Seq<char> {
    if search {
        "<script>"@ + SEARCH_JS@ + "</script>\n"@
    } else {
        Seq::empty()
    }
}

/// The linker of a module page within a project, where cross-links are enabled.
pub open spec fn page_linker(m: DocumentedModule, p: ProjectDoc, o: HtmlOptions) -> Option<(ProjectDoc, Seq<char>)> {
    if o.enable_crosslinks {
        Some((p, m.name@))
    } else {
        None
    }
}

/// The sidebar of a module page within a project.
pub open spec fn project_sidebar(m: DocumentedModule, p: ProjectDoc, o: HtmlOptions) -> Seq<char> {
    SIDEBAR_OPEN@ + "    <h2><a href=\"index.html\">"@ + p.name@ + "</a></h2>\n  </div>\n"@
        + search_box_html(o.enable_search) + module_list_html(p.modules@, Some(m.name@))
        + nav_html(m.items@) + "</nav>\n"@
}

/// The page of a module within a project.
pub open spec fn project_module_page(m: DocumentedModule, p: ProjectDoc, o: HtmlOptions) -> Seq<char> {
    PAGE_HEAD@ + "  <title>"@ + m.name@ + " - "@ + p.name@ + " Documentation</title>\n"@
        + styles_html() + search_css_html(o.enable_search) + project_sidebar(m, p, o)
        + "<main class=\"content\">\n<header>\n  <h1>"@ + m.name@ + "</h1>\n</header>\n"@
        + module_doc_html(m.doc, page_linker(m, p, o)) + sections_html(
        m.items@,
        page_linker(m, p, o),
        true,
    ) + PAGE_FOOTER@ + search_js_html(o.enable_search) + PAGE_END@
}

/// The summary shown on a module's card.
pub open spec fn card_summary(m: DocumentedModule) -> Seq<char> {
    match m.doc {
        Some(d) => d.summary@,
        None => Seq::empty(),
    }
}

/// A count of items on a module's card, or nothing if there are none.
pub open spec fn count_html(n: nat, what: Seq<char>) -> Seq<char> {
    if n == 0 {
        Seq::empty()
    } else {
        "        <span>"@ + dec(n) + what + "</span>\n"@
    }
}

/// The card of a module on the index page.
pub open spec fn module_card(m: DocumentedModule) -> Seq<char> {
    "    <a href=\""@ + m.name@ + ".html\" class=\"module-card\">\n      <h3>"@ + m.name@
        + "</h3>\n      <p>"@ + escape_html_spec(card_summary(m))
        + "</p>\n      <div class=\"module-stats\">\n"@ + count_html(
        of_kind(m.items@, ItemKind::Function).len(),
        " functions"@,
    ) + count_html(of_kind(m.items@, ItemKind::Struct).len(), " structs"@) + count_html(
        of_kind(m.items@, ItemKind::Enum).len(),
        " enums"@,
    ) + "      </div>\n    </a>\n"@
}

/// One symbol of the index page.
pub open spec fn symbol_entry(s: SymbolInfo) -> Seq<char> {
    "    <a href=\""@ + s.module@ + ".html#"@ + s.anchor@ + "\" class=\"symbol-item\">\n"@
        + "      <span class=\"symbol-kind kind-"@ + lowercase(kind_display(s.kind)) + "\">"@
        + kind_display(s.kind) + "</span>\n"@ + "      <span class=\"symbol-name\">"@ + s.name@
        + "</span>\n"@ + "      <span class=\"symbol-module\">"@ + s.module@ + "</span>\n"@
        + "    </a>\n"@
}

/// The number of symbols listed on the index page.
pub open spec fn listed_symbols() -> nat {
    50
}

/// The symbol section of the index page: the first symbols, and how many
/// more there are.
pub open spec fn symbols_html(syms: Seq<SymbolInfo>) -> Seq<char> {
    let shown = if syms.len() > listed_symbols() {
        syms.take(listed_symbols() as int)
    } else {
        syms
    };
    "<section class=\"all-symbols\">\n  <h2>All Symbols</h2>\n  <div class=\"symbol-list\">\n"@
        + concat(shown.map_values(|s: SymbolInfo| symbol_entry(s))) + (if syms.len()
        > listed_symbols() {
        "    <p class=\"more-symbols\">...and "@ + dec((syms.len() - listed_symbols()) as nat)
            + " more symbols</p>\n"@
    } else {
        Seq::empty()
    }) + "  </div>\n</section>\n"@
}

/// The index page of a project listing `syms`, its symbols in order.
pub open spec fn index_page(p: ProjectDoc, o: HtmlOptions, syms: Seq<SymbolInfo>) -> Seq<char> {
    PAGE_HEAD@ + "  <title>"@ + p.name@ + " Documentation</title>\n"@ + styles_html()
        + search_css_html(o.enable_search) + SIDEBAR_OPEN@ + "    <h2>"@ + p.name@
        + "</h2>\n  </div>\n"@ + search_box_html(o.enable_search) + module_list_html(
        p.modules@,
        None,
    ) + "</nav>\n"@ + "<main class=\"content\">\n<header>\n  <h1>"@ + p.name@
        + "</h1>\n</header>\n"@
        + "<section class=\"overview\">\n  <h2>Modules</h2>\n  <div class=\"module-grid\">\n"@
        + concat(p.modules@.map_values(|m: DocumentedModule| module_card(m)))
        + "  </div>\n</section>\n"@ + symbols_html(syms) + PAGE_FOOTER@ + search_js_html(
        o.enable_search,
    ) + PAGE_END@
}

/// Escaped text holds no `<`, `>` or `"`: it cannot open or close a tag or
/// end an attribute value.
pub proof fn lemma_escaped_html_has_no_markup(s: Seq<char>)
    ensures
        forall|i: int|
            0 <= i < escape_html_spec(s).len() ==> escape_html_spec(s)[i] != '<'
                && escape_html_spec(s)[i] != '>' && escape_html_spec(s)[i] != '"',
    decreases s.len(),
{
    if s.len() > 0 {
        lemma_escaped_html_has_no_markup(s.drop_last());
        let pre = escape_html_spec(s.drop_last());
        let e = escape_html_char(s.last());
        reveal_strlit("&amp;");
        reveal_strlit("&lt;");
        reveal_strlit("&gt;");
        reveal_strlit("&quot;");
        assert forall|i: int| 0 <= i < escape_html_spec(s).len() implies escape_html_spec(s)[i] != '<'
            && escape_html_spec(s)[i] != '>' && escape_html_spec(s)[i] != '"' by {
            if i >= pre.len() {
                assert(escape_html_spec(s)[i] == e[i - pre.len()]);
            } else {
                assert(escape_html_spec(s)[i] == pre[i]);
            }
        }
    }
}

// ---------------------------------------------------------------------------
// Writing
// ---------------------------------------------------------------------------

/// Appending six pieces one by one appends their concatenation.
proof fn lemma_append6(
    s: Seq<char>,
    a: Seq<char>,
    b: Seq<char>,
    c: Seq<char>,
    d: Seq<char>,
    e: Seq<char>,
    f: Seq<char>,
)
    ensures
        s + a + b + c + d + e + f == s + (a + b + c + d + e + f),
{
    assert(s + a + b + c + d + e + f =~= s + (a + b + c + d + e + f));
}

/// Text as it appears on a page: cross-linked where a linker is given,
/// HTML-escaped otherwise.
fn render_text(l: Option<&CrossLinker>, s: &str) -> (r: String)
    ensures
        r@ == link_text(linker_model(l), s@),
{
    match l {
        Some(x) => x.link_description(s),
        None => HtmlGenerator::escape_html(s),
    }
}

/// Appends one group of a module's navigation.
fn write_nav_group(output: &mut String, title: &str, items: &Vec<&DocumentedItem>)
    ensures
        final(output)@ == old(output)@ + nav_group(title@, derefs(items@)),
{
    if items.len() > 0 {
        let ghost start = output@;
        let ghost iv = derefs(items@);
        let ghost f = |it: DocumentedItem| nav_entry(it);
        output.append("    <h3>");
        output.append(title);
        output.append("</h3>\n    <ul>\n");
        let mut i: usize = 0;
        while i < items.len()
            invariant
                i <= items@.len(),
                iv == derefs(items@),
                iv.len() == items@.len(),
                f == (|it: DocumentedItem| nav_entry(it)),
                output@ == start + "    <h3>"@ + title@ + "</h3>\n    <ul>\n"@ + concat(
                    iv.take(i as int).map_values(f),
                ),
            decreases items.len() - i,
        {
            let item = items[i];
            let ghost before = output@;
            let anchor = HtmlGenerator::make_anchor(item.name.as_str());
            output.append("      <li><a href=\"#");
            output.append(anchor.as_str());
            output.append("\">");
            output.append(item.name.as_str());
            output.append("</a></li>\n");
            proof {
                assert(iv[i as int] == *items@[i as int]);
                assert(iv.take(i + 1).map_values(f) =~= iv.take(i as int).map_values(f).push(
                    f(iv[i as int]),
                ));
                lemma_concat_push(iv.take(i as int).map_values(f), f(iv[i as int]));
                assert(output@ =~= before + nav_entry(iv[i as int]));
            }
            i = i + 1;
        }
        assert(iv.take(iv.len() as int) =~= iv);
        output.append("    </ul>\n");
    } else {
        assert(derefs(items@).len() == 0);
        assert(output@ =~= old(output)@ + nav_group(title@, derefs(items@)));
    }
}

/// Appends the module documentation section.
fn write_module_doc(output: &mut String, doc: &Option<DocComment>, l: Option<&CrossLinker>)
    ensures
        final(output)@ == old(output)@ + module_doc_html(*doc, linker_model(l)),
{
    if let Some(d) = doc {
        let ghost start = output@;
        output.append("<section class=\"module-doc\">\n");
        let ghost a = output@;
        if !d.summary.as_str().is_empty() {
            let summary = render_text(l, d.summary.as_str());
            output.append("  <p class=\"summary\">");
            output.append(summary.as_str());
            output.append("</p>\n");
        }
        let ghost b = output@;
        if let Some(desc) = &d.description {
            let desc_html = render_text(l, desc.as_str());
            output.append("  <div class=\"description\">");
            output.append(desc_html.as_str());
            output.append("</div>\n");
        }
        let ghost c = output@;
        output.append("</section>\n");
        assert(output@ =~= start + module_doc_html(*doc, linker_model(l)));
    }
}

/// Appends the summary and description of an item.
fn write_item_text(output: &mut String, d: &DocComment, l: Option<&CrossLinker>)
    ensures
        final(output)@ == old(output)@ + item_text_html(d@, linker_model(l)),
{
    let ghost start = output@;
    if !d.summary.as_str().is_empty() {
        let summary = render_text(l, d.summary.as_str());
        output.append("    <p class=\"summary\">");
        output.append(summary.as_str());
        output.append("</p>\n");
    }
    let ghost a = output@;
    if let Some(desc) = &d.description {
        let desc_html = render_text(l, desc.as_str());
        output.append("    <div class=\"description\">");
        output.append(desc_html.as_str());
        output.append("</div>\n");
    }
    assert(output@ =~= start + item_text_html(d@, linker_model(l)));
}

/// Appends the arguments of an item.
fn write_params_html(output: &mut String, d: &DocComment, l: Option<&CrossLinker>)
    ensures
        final(output)@ == old(output)@ + params_html(d@, linker_model(l)),
{
    if d.params.len() > 0 {
        let ghost start = output@;
        let ghost pv = d@.params;
        let ghost lm = linker_model(l);
        let ghost f = |p: (Seq<char>, Seq<char>)| param_html(p, lm);
        let ghost head = "    <div class=\"params\">\n      <h4>Arguments</h4>\n      <ul>\n"@;
        output.append("    <div class=\"params\">\n      <h4>Arguments</h4>\n      <ul>\n");
        let mut i: usize = 0;
        while i < d.params.len()
            invariant
                i <= d.params@.len(),
                pv == d@.params,
                pv.len() == d.params@.len(),
                lm == linker_model(l),
                f == (|p: (Seq<char>, Seq<char>)| param_html(p, lm)),
                output@ == start + head + concat(pv.take(i as int).map_values(f)),
            decreases d.params.len() - i,
        {
            let pr = &d.params[i];
            let ghost before = output@;
            let name = HtmlGenerator::escape_html(pr.0.as_str());
            let desc = render_text(l, pr.1.description.as_str());
            output.append("        <li><code>");
            output.append(name.as_str());
            output.append("</code>: ");
            output.append(desc.as_str());
            output.append("</li>\n");
            proof {
                assert(pv[i as int] == (pr.0@, pr.1.description@));
                assert(pv.take(i + 1).map_values(f) =~= pv.take(i as int).map_values(f).push(
                    f(pv[i as int]),
                ));
                lemma_concat_push(pv.take(i as int).map_values(f), f(pv[i as int]));
                assert(output@ =~= before + param_html(pv[i as int], lm));
            }
            i = i + 1;
        }
        assert(pv.take(pv.len() as int) =~= pv);
        output.append("      </ul>\n    </div>\n");
        assert(pv.map_values(f) =~= pv.map_values(
            |p: (Seq<char>, Seq<char>)| param_html(p, linker_model(l)),
        ));
    }
}

/// Appends what an item returns.
fn write_returns_html(output: &mut String, d: &DocComment, l: Option<&CrossLinker>)
    ensures
        final(output)@ == old(output)@ + returns_html(d@, linker_model(l)),
{
    if let Some(ret) = &d.returns {
        let ret_html = render_text(l, ret.as_str());
        output.append("    <div class=\"returns\">\n      <h4>Returns</h4>\n      <p>");
        output.append(ret_html.as_str());
        output.append("</p>\n    </div>\n");
    }
}

/// Appends a list of escaped strings, each in the form that `entry` gives.
fn write_throws_html(output: &mut String, d: &DocComment)
    ensures
        final(output)@ == old(output)@ + throws_html(d@),
{
    if d.throws.len() > 0 {
        let ghost start = output@;
        let ghost tv = d@.throws;
        let ghost f = |t: Seq<char>| throw_html(t);
        let ghost head = "    <div class=\"throws\">\n      <h4>Throws</h4>\n      <ul>\n"@;
        output.append("    <div class=\"throws\">\n      <h4>Throws</h4>\n      <ul>\n");
        let mut i: usize = 0;
        while i < d.throws.len()
            invariant
                i <= d.throws@.len(),
                tv == d@.throws,
                tv.len() == d.throws@.len(),
                f == (|t: Seq<char>| throw_html(t)),
                output@ == start + head + concat(tv.take(i as int).map_values(f)),
            decreases d.throws.len() - i,
        {
            let ghost before = output@;
            let t = HtmlGenerator::escape_html(d.throws[i].as_str());
            output.append("        <li>");
            output.append(t.as_str());
            output.append("</li>\n");
            proof {
                assert(tv[i as int] == d.throws@[i as int]@);
                assert(tv.take(i + 1).map_values(f) =~= tv.take(i as int).map_values(f).push(
                    f(tv[i as int]),
                ));
                lemma_concat_push(tv.take(i as int).map_values(f), f(tv[i as int]));
                assert(output@ =~= before + throw_html(tv[i as int]));
            }
            i = i + 1;
        }
        assert(tv.take(tv.len() as int) =~= tv);
        output.append("      </ul>\n    </div>\n");
    }
}

/// Appends one "see also" reference.
fn write_see_also_entry(output: &mut String, reference: &String, l: Option<&CrossLinker>)
    ensures
        final(output)@ == old(output)@ + see_also_entry(reference@, linker_model(l)),
{
    let resolved = match l {
        Some(x) => x.resolve_see_also(reference.as_str()),
        None => None,
    };
    match resolved {
        Some((text, link)) => {
            output.append("        <li><a href=\"");
            output.append(link.as_str());
            output.append("\">");
            output.append(text.as_str());
            output.append("</a></li>\n");
        },
        None => {
            let r = HtmlGenerator::escape_html(reference.as_str());
            output.append("        <li>");
            output.append(r.as_str());
            output.append("</li>\n");
        },
    }
}

/// Appends the "see also" references of an item.
fn write_see_also_html(output: &mut String, d: &DocComment, l: Option<&CrossLinker>)
    ensures
        final(output)@ == old(output)@ + see_also_html(d@, linker_model(l)),
{
    if d.see_also.len() > 0 {
        let ghost start = output@;
        let ghost sv = d@.see_also;
        let ghost lm = linker_model(l);
        let ghost f = |r: Seq<char>| see_also_entry(r, lm);
        let ghost head = "    <div class=\"see-also\">\n      <h4>See Also</h4>\n      <ul>\n"@;
        output.append("    <div class=\"see-also\">\n      <h4>See Also</h4>\n      <ul>\n");
        let mut i: usize = 0;
        while i < d.see_also.len()
            invariant
                i <= d.see_also@.len(),
                sv == d@.see_also,
                sv.len() == d.see_also@.len(),
                lm == linker_model(l),
                f == (|r: Seq<char>| see_also_entry(r, lm)),
                output@ == start + head + concat(sv.take(i as int).map_values(f)),
            decreases d.see_also.len() - i,
        {
            let ghost before = output@;
            write_see_also_entry(output, &d.see_also[i], l);
            proof {
                assert(sv[i as int] == d.see_also@[i as int]@);
                assert(sv.take(i + 1).map_values(f) =~= sv.take(i as int).map_values(f).push(
                    f(sv[i as int]),
                ));
                lemma_concat_push(sv.take(i as int).map_values(f), f(sv[i as int]));
            }
            i = i + 1;
        }
        assert(sv.take(sv.len() as int) =~= sv);
        output.append("      </ul>\n    </div>\n");
        assert(sv.map_values(f) =~= sv.map_values(|r: Seq<char>| see_also_entry(r, linker_model(l))));
    }
}

/// Appends the examples of an item.
fn write_examples_html(output: &mut String, d: &DocComment)
    ensures
        final(output)@ == old(output)@ + examples_html(d@),
{
    if d.examples.len() > 0 {
        let ghost start = output@;
        let ghost ev = d@.examples;
        let ghost f = |e: Seq<char>| example_html(e);
        let ghost head = "    <div class=\"example\">\n      <h4>Example</h4>\n"@;
        output.append("    <div class=\"example\">\n      <h4>Example</h4>\n");
        let mut i: usize = 0;
        while i < d.examples.len()
            invariant
                i <= d.examples@.len(),
                ev == d@.examples,
                ev.len() == d.examples@.len(),
                f == (|e: Seq<char>| example_html(e)),
                output@ == start + head + concat(ev.take(i as int).map_values(f)),
            decreases d.examples.len() - i,
        {
            let ghost before = output@;
            let e = HtmlGenerator::escape_html(d.examples[i].as_str());
            output.append("      <pre>");
            output.append(e.as_str());
            output.append("</pre>\n");
            proof {
                assert(ev[i as int] == d.examples@[i as int]@);
                assert(ev.take(i + 1).map_values(f) =~= ev.take(i as int).map_values(f).push(
                    f(ev[i as int]),
                ));
                lemma_concat_push(ev.take(i as int).map_values(f), f(ev[i as int]));
                assert(output@ =~= before + example_html(ev[i as int]));
            }
            i = i + 1;
        }
        assert(ev.take(ev.len() as int) =~= ev);
        output.append("    </div>\n");
    }
}

/// Appends the documentation of an item.
fn write_doc_html(output: &mut String, d: &DocComment, l: Option<&CrossLinker>, see: bool)
    ensures
        final(output)@ == old(output)@ + doc_html(d@, linker_model(l), see),
{
    let ghost start = output@;
    write_item_text(output, d, l);
    write_params_html(output, d, l);
    write_returns_html(output, d, l);
    write_throws_html(output, d);
    if see {
        write_see_also_html(output, d, l);
    }
    write_examples_html(output, d);
    proof {
        let lm = linker_model(l);
        lemma_append6(
            start,
            item_text_html(d@, lm),
            params_html(d@, lm),
            returns_html(d@, lm),
            throws_html(d@),
            if see {
                see_also_html(d@, lm)
            } else {
                Seq::empty()
            },
            examples_html(d@),
        );
    }
}

/// Appends the children of an item.
fn write_children_html(output: &mut String, item: &DocumentedItem, l: Option<&CrossLinker>)
    ensures
        final(output)@ == old(output)@ + children_html(*item, linker_model(l)),
{
    if item.children.len() > 0 {
        let ghost start = output@;
        let ghost cv = item.children@;
        let ghost lm = linker_model(l);
        let ghost f = |c: DocumentedItem| child_html(c, lm);
        let ghost head = "    <div class=\"children\">\n      <h4>"@ + child_type(item.kind)
            + "</h4>\n      <ul>\n"@;
        output.append("    <div class=\"children\">\n      <h4>");
        output.append(HtmlGenerator::child_type_name(item.kind));
        output.append("</h4>\n      <ul>\n");
        assert(output@ =~= start + head);
        let mut i: usize = 0;
        while i < item.children.len()
            invariant
                i <= item.children@.len(),
                cv == item.children@,
                lm == linker_model(l),
                f == (|c: DocumentedItem| child_html(c, lm)),
                output@ == start + head + concat(cv.take(i as int).map_values(f)),
            decreases item.children.len() - i,
        {
            let child = &item.children[i];
            let ghost before = output@;
            let sig = render_text(l, child.signature.as_str());
            output.append("        <li><code>");
            output.append(sig.as_str());
            output.append("</code></li>\n");
            proof {
                assert(cv.take(i + 1).map_values(f) =~= cv.take(i as int).map_values(f).push(
                    f(cv[i as int]),
                ));
                lemma_concat_push(cv.take(i as int).map_values(f), f(cv[i as int]));
                assert(output@ =~= before + child_html(cv[i as int], lm));
            }
            i = i + 1;
        }
        assert(cv.take(cv.len() as int) =~= cv);
        output.append("      </ul>\n    </div>\n");
        assert(cv.map_values(f) =~= cv.map_values(|c: DocumentedItem| child_html(c, linker_model(l))));
    }
}

/// Appends a section of items, if there are any.
fn write_section_html(
    output: &mut String,
    id: &str,
    title: &str,
    items: &Vec<&DocumentedItem>,
    l: Option<&CrossLinker>,
    see: bool,
)
    ensures
        final(output)@ == old(output)@ + section_html(id@, title@, derefs(items@), linker_model(l), see),
{
    if items.len() > 0 {
        let ghost start = output@;
        let ghost iv = derefs(items@);
        let ghost lm = linker_model(l);
        let ghost f = |it: DocumentedItem| item_html(it, lm, see);
        output.append("<section id=\"");
        output.append(id);
        output.append("\">\n  <h2>");
        output.append(title);
        output.append("</h2>\n");
        let ghost head = output@;
        let mut i: usize = 0;
        while i < items.len()
            invariant
                i <= items@.len(),
                iv == derefs(items@),
                iv.len() == items@.len(),
                lm == linker_model(l),
                f == (|it: DocumentedItem| item_html(it, lm, see)),
                output@ == head + concat(iv.take(i as int).map_values(f)),
            decreases items.len() - i,
        {
            HtmlGenerator::write_item(output, items[i], l, see);
            proof {
                assert(iv[i as int] == *items@[i as int]);
                assert(iv.take(i + 1).map_values(f) =~= iv.take(i as int).map_values(f).push(
                    f(iv[i as int]),
                ));
                lemma_concat_push(iv.take(i as int).map_values(f), f(iv[i as int]));
            }
            i = i + 1;
        }
        assert(iv.take(iv.len() as int) =~= iv);
        output.append("</section>\n");
        assert(iv.map_values(f) =~= iv.map_values(|it: DocumentedItem| item_html(it, linker_model(l), see)));
        assert(output@ =~= start + section_html(id@, title@, iv, lm, see));
    } else {
        assert(derefs(items@).len() == 0);
        assert(output@ =~= old(output)@ + section_html(id@, title@, derefs(items@), linker_model(l), see));
    }
}

/// Appends the sections of a module's items, by kind.
fn write_sections_html(output: &mut String, module: &DocumentedModule, l: Option<&CrossLinker>, see: bool)
    ensures
        final(output)@ == old(output)@ + sections_html(module.items@, linker_model(l), see),
{
    let ghost start = output@;
    let functions = module.functions();
    write_section_html(output, "functions", "Functions", &functions, l, see);
    let structs = module.structs();
    write_section_html(output, "structs", "Structs", &structs, l, see);
    let enums = module.enums();
    write_section_html(output, "enums", "Enums", &enums, l, see);
    let interfaces = module.interfaces();
    write_section_html(output, "interfaces", "Interfaces", &interfaces, l, see);
    let impls = items_of_kind(&module.items, ItemKind::Impl);
    write_section_html(output, "implementations", "Implementations", &impls, l, see);
    let constants = items_of_kind(&module.items, ItemKind::Constant);
    write_section_html(output, "constants", "Constants", &constants, l, see);
    proof {
        let items = module.items@;
        let lm = linker_model(l);
        lemma_append6(
            start,
            section_html("functions"@, "Functions"@, of_kind(items, ItemKind::Function), lm, see),
            section_html("structs"@, "Structs"@, of_kind(items, ItemKind::Struct), lm, see),
            section_html("enums"@, "Enums"@, of_kind(items, ItemKind::Enum), lm, see),
            section_html("interfaces"@, "Interfaces"@, of_kind(items, ItemKind::Interface), lm, see),
            section_html("implementations"@, "Implementations"@, of_kind(items, ItemKind::Impl), lm, see),
            section_html("constants"@, "Constants"@, of_kind(items, ItemKind::Constant), lm, see),
        );
    }
}

/// Appends the list of a project's modules, marking `current` active.
fn write_module_list(output: &mut String, modules: &Vec<DocumentedModule>, current: Option<&str>)
    ensures
        final(output)@ == old(output)@ + module_list_html(
            modules@,
            match current {
                Some(c) => Some(c@),
                None => None,
            },
        ),
{
    let ghost start = output@;
    let ghost cur = match current {
        Some(c) => Some(c@),
        None => None::<Seq<char>>,
    };
    let ghost mv = modules@;
    let ghost f = |m: DocumentedModule| module_entry(m, cur);
    output.append(MODULE_LIST_OPEN);
    let mut i: usize = 0;
    while i < modules.len()
        invariant
            i <= modules@.len(),
            mv == modules@,
            cur == match current {
                Some(c) => Some(c@),
                None => None::<Seq<char>>,
            },
            f == (|m: DocumentedModule| module_entry(m, cur)),
            output@ == start + MODULE_LIST_OPEN@ + concat(mv.take(i as int).map_values(f)),
        decreases modules.len() - i,
    {
        let m = &modules[i];
        let ghost before = output@;
        output.append("      <li><a href=\"");
        output.append(m.name.as_str());
        output.append(".html\"");
        match current {
            Some(c) => {
                if crate::text::str_eq(m.name.as_str(), c) {
                    output.append(" class=\"active\"");
                }
            },
            None => {},
        }
        output.append(">");
        output.append(m.name.as_str());
        output.append("</a></li>\n");
        proof {
            assert(mv.take(i + 1).map_values(f) =~= mv.take(i as int).map_values(f).push(
                f(mv[i as int]),
            ));
            lemma_concat_push(mv.take(i as int).map_values(f), f(mv[i as int]));
            assert(output@ =~= before + module_entry(mv[i as int], cur));
        }
        i = i + 1;
    }
    assert(mv.take(mv.len() as int) =~= mv);
    output.append(MODULE_LIST_CLOSE);
}

/// Appends the search style, where search is enabled.
fn write_search_css(output: &mut String, search: bool)
    ensures
        final(output)@ == old(output)@ + search_css_html(search),
{
    if search {
        output.append("<style>");
        output.append(generate_search_css());
        output.append("</style>\n");
    }
}

/// Appends the search box, where search is enabled.
fn write_search_box(output: &mut String, search: bool)
    ensures
        final(output)@ == old(output)@ + search_box_html(search),
{
    if search {
        output.append(SEARCH_BOX);
    }
}

/// Appends the search script, where search is enabled.
fn write_search_js(output: &mut String, search: bool)
    ensures
        final(output)@ == old(output)@ + search_js_html(search),
{
    if search {
        output.append("<script>");
        output.append(generate_search_js());
        output.append("</script>\n");
    }
}

/// Appends a count of items on a module card, if there are any.
fn write_count(output: &mut String, n: usize, what: &str)
    ensures
        final(output)@ == old(output)@ + count_html(n as nat, what@),
{
    if n > 0 {
        output.append("        <span>");
        push_dec(output, n as u128);
        output.append(what);
        output.append("</span>\n");
    }
}

/// Appends the card of a module on the index page.
#[verifier::rlimit(40)]
#[verifier::spinoff_prover]
fn write_module_card(output: &mut String, m: &DocumentedModule)
    ensures
        final(output)@ == old(output)@ + module_card(*m),
{
    let ghost start = output@;
    let desc = match &m.doc {
        Some(d) => d.summary.clone(),
        None => String::new(),
    };
    output.append("    <a href=\"");
    output.append(m.name.as_str());
    output.append(".html\" class=\"module-card\">\n      <h3>");
    output.append(m.name.as_str());
    output.append("</h3>\n      <p>");
    let d = HtmlGenerator::escape_html(desc.as_str());
    output.append(d.as_str());
    output.append("</p>\n      <div class=\"module-stats\">\n");
    let ghost a = output@;
    let fn_count = m.functions().len();
    write_count(output, fn_count, " functions");
    let struct_count = m.structs().len();
    write_count(output, struct_count, " structs");
    let enum_count = m.enums().len();
    write_count(output, enum_count, " enums");
    output.append("      </div>\n    </a>\n");
    assert(output@ =~= start + module_card(*m));
}

/// Appends one symbol of the index page.
fn write_symbol_entry(output: &mut String, s: &SymbolInfo)
    ensures
        final(output)@ == old(output)@ + symbol_entry(*s),
{
    let ghost start = output@;
    let kind_name = s.kind.display_name();
    let kind_lower = to_lowercase(kind_name);
    output.append("    <a href=\"");
    output.append(s.module.as_str());
    output.append(".html#");
    output.append(s.anchor.as_str());
    output.append("\" class=\"symbol-item\">\n");
    output.append("      <span class=\"symbol-kind kind-");
    output.append(kind_lower.as_str());
    output.append("\">");
    output.append(kind_name);
    output.append("</span>\n");
    output.append("      <span class=\"symbol-name\">");
    output.append(s.name.as_str());
    output.append("</span>\n");
    output.append("      <span class=\"symbol-module\">");
    output.append(s.module.as_str());
    output.append("</span>\n");
    output.append("    </a>\n");
    assert(output@ =~= start + symbol_entry(*s));
}

/// Appends the symbol section of the index page.
fn write_symbols(output: &mut String, symbols: &Vec<&SymbolInfo>)
    ensures
        final(output)@ == old(output)@ + symbols_html(derefs(symbols@)),
{
    let ghost start = output@;
    let ghost sv = derefs(symbols@);
    let ghost f = |s: SymbolInfo| symbol_entry(s);
    let ghost head = "<section class=\"all-symbols\">\n  <h2>All Symbols</h2>\n  <div class=\"symbol-list\">\n"@;
    output.append("<section class=\"all-symbols\">\n  <h2>All Symbols</h2>\n  <div class=\"symbol-list\">\n");
    let shown: usize = if symbols.len() > 50 {
        50
    } else {
        symbols.len()
    };
    let mut i: usize = 0;
    while i < shown
        invariant
            i <= shown <= symbols@.len(),
            shown == (if symbols@.len() > 50 { 50 } else { symbols@.len() }),
            sv == derefs(symbols@),
            sv.len() == symbols@.len(),
            f == (|s: SymbolInfo| symbol_entry(s)),
            output@ == start + head + concat(sv.take(i as int).map_values(f)),
        decreases shown - i,
    {
        write_symbol_entry(output, symbols[i]);
        proof {
            assert(sv[i as int] == *symbols@[i as int]);
            assert(sv.take(i + 1).map_values(f) =~= sv.take(i as int).map_values(f).push(
                f(sv[i as int]),
            ));
            lemma_concat_push(sv.take(i as int).map_values(f), f(sv[i as int]));
        }
        i = i + 1;
    }
    let ghost listed = output@;
    if symbols.len() > 50 {
        output.append("    <p class=\"more-symbols\">...and ");
        push_dec(output, (symbols.len() - 50) as u128);
        output.append(" more symbols</p>\n");
    }
    output.append("  </div>\n</section>\n");
    proof {
        if sv.len() <= 50 {
            assert(sv.take(sv.len() as int) =~= sv);
        }
    }
    assert(output@ =~= start + symbols_html(sv));
}

/// Generates HTML documentation from extracted documentation
pub struct HtmlGenerator;

impl HtmlGenerator {
    /// Generate HTML documentation for a module
    pub fn generate(module: &DocumentedModule) -> (r: String)
        ensures
            r@ == module_page(*module),
    {
        let mut output = String::new();
        output.append(PAGE_HEAD);
        output.append("  <title>");
        output.append(module.name.as_str());
        output.append(" - Stratum Documentation</title>\n");
        Self::write_styles(&mut output);
        output.append(SIDEBAR_OPEN);
        output.append("    <h2>");
        output.append(module.name.as_str());
        output.append("</h2>\n  </div>\n");
        Self::write_nav(&mut output, module);
        output.append("</nav>\n<main class=\"content\">\n<header>\n  <h1>");
        output.append(module.name.as_str());
        output.append("</h1>\n</header>\n");
        let ghost a = output@;
        write_module_doc(&mut output, &module.doc, None);
        let ghost b = output@;
        write_sections_html(&mut output, module, None, false);
        let ghost c = output@;
        output.append(PAGE_FOOTER);
        output.append(PAGE_END);
        assert(output@ =~= module_page(*module));
        output
    }

    /// Generate HTML documentation for a module with cross-linking and search support
    pub fn generate_with_project(module: &DocumentedModule, project: &ProjectDoc, options: &HtmlOptions) -> (r: String)
        ensures
            r@ == project_module_page(*module, *project, *options),
    {
        let mut output = String::new();
        output.append(PAGE_HEAD);
        output.append("  <title>");
        output.append(module.name.as_str());
        output.append(" - ");
        output.append(project.name.as_str());
        output.append(" Documentation</title>\n");
        Self::write_styles(&mut output);
        write_search_css(&mut output, options.enable_search);
        let ghost a = output@;
        Self::write_project_sidebar(&mut output, module, project, options);
        let ghost b = output@;
        output.append("<main class=\"content\">\n<header>\n  <h1>");
        output.append(module.name.as_str());
        output.append("</h1>\n</header>\n");
        let linker = if options.enable_crosslinks {
            Some(CrossLinker::new(
                project,
                CrossLinkConfig { current_module: module.name.clone(), link_external: true },
            ))
        } else {
            None
        };
        let l = match &linker {
            Some(x) => Some(x),
            None => None,
        };
        assert(linker_model(l) == page_linker(*module, *project, *options));
        let ghost c = output@;
        write_module_doc(&mut output, &module.doc, l);
        write_sections_html(&mut output, module, l, true);
        let ghost d = output@;
        output.append(PAGE_FOOTER);
        write_search_js(&mut output, options.enable_search);
        output.append(PAGE_END);
        assert(output@ =~= project_module_page(*module, *project, *options));
        output
    }

    /// Appends the sidebar of a module page within a project.
    fn write_project_sidebar(output: &mut String, module: &DocumentedModule, project: &ProjectDoc, options: &HtmlOptions)
        ensures
            final(output)@ == old(output)@ + project_sidebar(*module, *project, *options),
    {
        let ghost start = output@;
        output.append(SIDEBAR_OPEN);
        output.append("    <h2><a href=\"index.html\">");
        output.append(project.name.as_str());
        output.append("</a></h2>\n  </div>\n");
        write_search_box(output, options.enable_search);
        write_module_list(output, &project.modules, Some(module.name.as_str()));
        Self::write_nav(output, module);
        output.append("</nav>\n");
        assert(output@ =~= start + project_sidebar(*module, *project, *options));
    }

    /// Generate an index page for the project
    pub fn generate_index(project: &ProjectDoc, options: &HtmlOptions) -> (r: String)
        ensures
            exists|syms: Seq<SymbolInfo>|
                syms.to_multiset() == flat_symbols(project.symbol_index@).to_multiset()
                    && (forall|i: int, j: int|
                    0 <= i < j < syms.len() ==> lex_le(sym_key(syms[i]), sym_key(syms[j])))
                    && r@ == index_page(*project, *options, syms),
    {
        let mut output = String::new();
        output.append(PAGE_HEAD);
        output.append("  <title>");
        output.append(project.name.as_str());
        output.append(" Documentation</title>\n");
        Self::write_styles(&mut output);
        write_search_css(&mut output, options.enable_search);
        output.append(SIDEBAR_OPEN);
        output.append("    <h2>");
        output.append(project.name.as_str());
        output.append("</h2>\n  </div>\n");
        write_search_box(&mut output, options.enable_search);
        write_module_list(&mut output, &project.modules, None);
        output.append("</nav>\n");
        output.append("<main class=\"content\">\n<header>\n  <h1>");
        output.append(project.name.as_str());
        output.append("</h1>\n</header>\n");
        let ghost a = output@;
        Self::write_module_grid(&mut output, &project.modules);
        let ghost b = output@;
        let symbols = project.all_symbols();
        write_symbols(&mut output, &symbols);
        let ghost c = output@;
        output.append(PAGE_FOOTER);
        write_search_js(&mut output, options.enable_search);
        output.append(PAGE_END);
        assert(output@ =~= index_page(*project, *options, derefs(symbols@)));
        output
    }

    /// Appends the grid of module cards of the index page.
    fn write_module_grid(output: &mut String, modules: &Vec<DocumentedModule>)
        ensures
            final(output)@ == old(output)@
                + "<section class=\"overview\">\n  <h2>Modules</h2>\n  <div class=\"module-grid\">\n"@
                + concat(modules@.map_values(|m: DocumentedModule| module_card(m)))
                + "  </div>\n</section>\n"@,
    {
        let ghost start = output@;
        let ghost mv = modules@;
        let ghost f = |m: DocumentedModule| module_card(m);
        let ghost head = "<section class=\"overview\">\n  <h2>Modules</h2>\n  <div class=\"module-grid\">\n"@;
        output.append("<section class=\"overview\">\n  <h2>Modules</h2>\n  <div class=\"module-grid\">\n");
        let mut i: usize = 0;
        while i < modules.len()
            invariant
                i <= modules@.len(),
                mv == modules@,
                f == (|m: DocumentedModule| module_card(m)),
                output@ == start + head + concat(mv.take(i as int).map_values(f)),
            decreases modules.len() - i,
        {
            write_module_card(output, &modules[i]);
            proof {
                assert(mv.take(i + 1).map_values(f) =~= mv.take(i as int).map_values(f).push(
                    f(mv[i as int]),
                ));
                lemma_concat_push(mv.take(i as int).map_values(f), f(mv[i as int]));
            }
            i = i + 1;
        }
        assert(mv.take(mv.len() as int) =~= mv);
        output.append("  </div>\n</section>\n");
    }

    /// Appends the style element.
    fn write_styles(output: &mut String)
        ensures
            final(output)@ == old(output)@ + styles_html(),
    {
        let ghost start = output@;
        output.append("<style>\n");
        output.append(PAGE_CSS);
        output.append("\n</style>\n");
        assert(output@ =~= start + styles_html());
    }

    /// Appends the navigation of a module.
    fn write_nav(output: &mut String, module: &DocumentedModule)
        ensures
            final(output)@ == old(output)@ + nav_html(module.items@),
    {
        let ghost start = output@;
        output.append("  <nav>\n");
        let functions = module.functions();
        write_nav_group(output, "Functions", &functions);
        let structs = module.structs();
        write_nav_group(output, "Structs", &structs);
        let enums = module.enums();
        write_nav_group(output, "Enums", &enums);
        let interfaces = module.interfaces();
        write_nav_group(output, "Interfaces", &interfaces);
        output.append("  </nav>\n");
        assert(output@ =~= start + nav_html(module.items@));
    }

    /// Appends one item: cross-linked where a linker is given, and with its
    /// "see also" references where `see` holds.
    fn write_item(output: &mut String, item: &DocumentedItem, l: Option<&CrossLinker>, see: bool)
        ensures
            final(output)@ == old(output)@ + item_html(*item, linker_model(l), see),
    {
        let ghost start = output@;
        let anchor = HtmlGenerator::make_anchor(item.name.as_str());
        output.append("  <div class=\"item\" id=\"");
        output.append(anchor.as_str());
        output.append("\">\n");
        let name = HtmlGenerator::escape_html(item.name.as_str());
        output.append("    <h3><code>");
        output.append(name.as_str());
        output.append("</code></h3>\n");
        let sig = render_text(l, item.signature.as_str());
        output.append("    <div class=\"signature\">\n      ");
        output.append(sig.as_str());
        output.append("\n    </div>\n");
        assert(output@ =~= start + item_head_html(*item, linker_model(l)));
        let ghost a = output@;
        if let Some(doc) = &item.doc {
            write_doc_html(output, doc, l, see);
        }
        let ghost b = output@;
        write_children_html(output, item, l);
        output.append("  </div>\n");
        assert(output@ =~= start + item_html(*item, linker_model(l), see));
    }

    /// The word for an item's children.
    fn child_type_name(kind: ItemKind) -> (r: &'static str)
        ensures
            r@ == child_type(kind),
    {
        match kind {
            ItemKind::Struct => "Fields",
            ItemKind::Enum => "Variants",
            ItemKind::Interface | ItemKind::Impl => "Methods",
            _ => "Members",
        }
    }

    /// The anchor ID of a name.
    fn make_anchor(name: &str) -> (r: String)
        ensures
            r@ == anchor_of(name@),
    {
        super::project::make_anchor(name)
    }

    /// Escapes `&`, `<`, `>` and `"` for HTML.
    fn escape_html(s: &str) -> (r: String)
        ensures
            r@ == escape_html_spec(s@),
    {
        let v = chars_of(s);
        let mut out = String::new();
        let mut i: usize = 0;
        while i < v.len()
            invariant
                i <= v@.len(),
                v@ == s@,
                out@ == escape_html_spec(v@.take(i as int)),
            decreases v.len() - i,
        {
            let c = v[i];
            assert(v@.take(i + 1).drop_last() =~= v@.take(i as int));
            let ghost before = out@;
            if c == '&' {
                out.append("&amp;");
            } else if c == '<' {
                out.append("&lt;");
            } else if c == '>' {
                out.append("&gt;");
            } else if c == '"' {
                out.append("&quot;");
            } else {
                push_char(&mut out, c);
            }
            assert(out@ =~= before + escape_html_char(c));
            i = i + 1;
        }
        assert(v@.take(v@.len() as int) =~= v@);
        out
    }
}

} // verus!

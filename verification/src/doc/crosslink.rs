//! Cross-linking for documentation
//!
//! Resolves type references in documentation and signatures to links.

use vstd::prelude::*;

use super::project::{group_pos, index_view, link_of, preferred_symbol, ProjectDoc};
use crate::text::{
    char_alphabetic, char_alphanumeric, char_uppercase, chars_of, copy_str, is_alphabetic,
    is_alphanumeric, is_uppercase, push_range, str_eq, string_of,
};

verus! {

/// Configuration for cross-linking
#[derive(Debug, Clone)]
pub struct CrossLinkConfig {
    /// The current module name (for relative links)
    pub current_module: String,
    /// Whether to link to external types (stdlib, etc.)
    pub link_external: bool,
}

impl Default for CrossLinkConfig {
    fn default() -> (r: CrossLinkConfig)
        ensures
            r.current_module@.len() == 0,
            r.link_external,
    {
        CrossLinkConfig { current_module: String::new(), link_external: true }
    }
}

/// Cross-linker for resolving type references to links
pub struct CrossLinker<'a> {
    project: &'a ProjectDoc,
    config: CrossLinkConfig,
}

/// The built-in type names, which are never linked.
pub open spec fn is_builtin(w: Seq<char>) -> bool {
    w == "Int"@ || w == "Float"@ || w == "String"@ || w == "Bool"@ || w == "Char"@ || w == "Byte"@
}

/// The Stratum keywords, which are never linked.
pub open spec fn is_keyword_spec(w: Seq<char>) -> bool {
    w == "fx"@ || w == "let"@ || w == "if"@ || w == "else"@ || w == "while"@ || w == "for"@ || w
        == "in"@ || w == "match"@ || w == "return"@ || w == "break"@ || w == "continue"@ || w
        == "struct"@ || w == "enum"@ || w == "interface"@ || w == "impl"@ || w == "import"@ || w
        == "as"@ || w == "true"@ || w == "false"@ || w == "nil"@ || w == "self"@ || w == "async"@
        || w == "await"@ || w == "try"@ || w == "catch"@ || w == "throw"@ || w == "pub"@ || w
        == "mut"@
}

/// Whether a word is linked: not built-in, not a keyword, and either
/// capitalised or the name of an indexed symbol.
pub open spec fn should_link_spec(p: ProjectDoc, w: Seq<char>) -> bool {
    !is_builtin(w) && !is_keyword_spec(w) && ((w.len() > 0 && char_uppercase(w[0])) || group_pos(
        index_view(p.symbol_index@),
        w,
    ) >= 0)
}

/// The symbol a word resolves to from module `m`, if any.
pub open spec fn resolve_word(p: ProjectDoc, w: Seq<char>, m: Seq<char>) -> Option<
    super::project::SymbolInfo,
> {
    let g = group_pos(index_view(p.symbol_index@), w);
    if g >= 0 {
        preferred_symbol(p.symbol_index@[g].1@, m)
    } else {
        None
    }
}

/// The HTML anchor element for a link.
pub open spec fn anchor_html(link: Seq<char>, w: Seq<char>) -> Seq<char> {
    "<a href=\""@ + link + "\" class=\"type-link\">"@ + w + "</a>"@
}

/// How a word appears in linked text.
pub open spec fn render_word(p: ProjectDoc, w: Seq<char>, m: Seq<char>) -> Seq<char> {
    if should_link_spec(p, w) {
        match resolve_word(p, w, m) {
            Some(s) => anchor_html(link_of(s@, m), w),
            None => w,
        }
    } else {
        w
    }
}

/// Built-in type names and keywords are never linked: they appear in linked
/// text as they are.
pub proof fn lemma_builtins_and_keywords_never_linked(p: ProjectDoc, w: Seq<char>, m: Seq<char>)
    requires
        is_builtin(w) || is_keyword_spec(w),
    ensures
        render_word(p, w, m) == w,
{
}

/// Whether `c` starts a word in linked text.
pub open spec fn word_start(c: char) -> bool {
    char_alphabetic(c) || c == '_'
}

/// Whether `c` continues a word in linked text.
pub open spec fn word_char(c: char) -> bool {
    char_alphanumeric(c) || c == '_'
}

/// End of the run of word characters in `s` starting at `j`.
pub open spec fn word_end(s: Seq<char>, j: int) -> int
    decreases s.len() - j,
{
    if j < 0 || j >= s.len() || !word_char(s[j]) {
        j
    } else {
        word_end(s, j + 1)
    }
}

pub proof fn lemma_word_end(s: Seq<char>, j: int)
    requires
        0 <= j <= s.len(),
    ensures
        j <= word_end(s, j) <= s.len(),
    decreases s.len() - j,
{
    if j < s.len() && word_char(s[j]) {
        lemma_word_end(s, j + 1);
    }
}

/// `s[i..]` with every word replaced by how it is rendered.
pub open spec fn linked_from(p: ProjectDoc, m: Seq<char>, s: Seq<char>, i: int) -> Seq<char>
    decreases s.len() - i,
{
    if i < 0 || i >= s.len() {
        Seq::empty()
    } else if word_start(s[i]) {
        let e = word_end(s, i + 1);
        proof {
            lemma_word_end(s, i + 1);
        }
        render_word(p, s.subrange(i, e), m) + linked_from(p, m, s, e)
    } else {
        seq![s[i]] + linked_from(p, m, s, i + 1)
    }
}

/// Check if a word is a Stratum keyword
pub fn is_keyword(word: &str) -> (r: bool)
    ensures
        r == is_keyword_spec(word@),
{
    str_eq(word, "fx") || str_eq(word, "let") || str_eq(word, "if") || str_eq(word, "else")
        || str_eq(word, "while") || str_eq(word, "for") || str_eq(word, "in") || str_eq(
        word,
        "match",
    ) || str_eq(word, "return") || str_eq(word, "break") || str_eq(word, "continue") || str_eq(
        word,
        "struct",
    ) || str_eq(word, "enum") || str_eq(word, "interface") || str_eq(word, "impl") || str_eq(
        word,
        "import",
    ) || str_eq(word, "as") || str_eq(word, "true") || str_eq(word, "false") || str_eq(
        word,
        "nil",
    ) || str_eq(word, "self") || str_eq(word, "async") || str_eq(word, "await") || str_eq(
        word,
        "try",
    ) || str_eq(word, "catch") || str_eq(word, "throw") || str_eq(word, "pub") || str_eq(
        word,
        "mut",
    )
}

/// Whether a word names a built-in type.
fn is_builtin_type(word: &str) -> (r: bool)
    ensures
        r == is_builtin(word@),
{
    str_eq(word, "Int") || str_eq(word, "Float") || str_eq(word, "String") || str_eq(word, "Bool")
        || str_eq(word, "Char") || str_eq(word, "Byte")
}

impl<'a> CrossLinker<'a> {
    /// The project whose symbols are linked.
    pub closed spec fn project_spec(&self) -> ProjectDoc {
        *self.project
    }

    /// The module from which links are made.
    pub closed spec fn module_spec(&self) -> Seq<char> {
        self.config.current_module@
    }

    /// Create a new cross-linker
    pub fn new(project: &'a ProjectDoc, config: CrossLinkConfig) -> (r: CrossLinker<'a>)
        ensures
            r.project_spec() == *project,
            r.module_spec() == config.current_module@,
    {
        CrossLinker { project, config }
    }

    /// Check if a word should be linked
    fn should_link(&self, word: &str) -> (r: bool)
        ensures
            r == should_link_spec(self.project_spec(), word@),
    {
        if is_builtin_type(word) {
            return false;
        }
        if is_keyword(word) {
            return false;
        }
        let w = chars_of(word);
        (w.len() > 0 && is_uppercase(w[0])) || self.project.lookup(word).is_some()
    }

    /// How a word appears in linked text.
    fn render(&self, w: &Vec<char>) -> (r: String)
        ensures
            r@ == render_word(self.project_spec(), w@, self.module_spec()),
    {
        let word = string_of(w);
        if self.should_link(word.as_str()) {
            match self.project.lookup_in_module(word.as_str(), self.config.current_module.as_str()) {
                Some(symbol) => {
                    let link = self.project.link_to_symbol(symbol, self.config.current_module.as_str());
                    let mut out = String::new();
                    out.append("<a href=\"");
                    out.append(link.as_str());
                    out.append("\" class=\"type-link\">");
                    out.append(word.as_str());
                    out.append("</a>");
                    out
                },
                None => word,
            }
        } else {
            word
        }
    }

    /// Add links to type names in text
    fn add_links_to_text(&self, text: &str) -> (r: String)
        ensures
            r@ == linked_from(self.project_spec(), self.module_spec(), text@, 0),
    {
        let s = chars_of(text);
        let mut out = String::new();
        let mut i: usize = 0;
        while i < s.len()
            invariant
                i <= s@.len(),
                s@ == text@,
                out@ + linked_from(self.project_spec(), self.module_spec(), s@, i as int)
                    == linked_from(self.project_spec(), self.module_spec(), s@, 0),
            decreases s.len() - i,
        {
            let c = s[i];
            if is_alphabetic(c) || c == '_' {
                let mut e = i + 1;
                while e < s.len() && (is_alphanumeric(s[e]) || s[e] == '_')
                    invariant
                        i < e <= s@.len(),
                        word_end(s@, i + 1) == word_end(s@, e as int),
                    decreases s.len() - e,
                {
                    e = e + 1;
                }
                let w = crate::text::slice_vec(&s, i, e);
                let rendered = self.render(&w);
                let ghost before = out@;
                out.append(rendered.as_str());
                assert(out@ + linked_from(self.project_spec(), self.module_spec(), s@, e as int)
                    =~= before + linked_from(self.project_spec(), self.module_spec(), s@, i as int));
                i = e;
            } else {
                let ghost before = out@;
                crate::text::push_char(&mut out, c);
                assert(out@ + linked_from(self.project_spec(), self.module_spec(), s@, i + 1)
                    =~= before + linked_from(self.project_spec(), self.module_spec(), s@, i as int));
                i = i + 1;
            }
        }
        assert(out@ =~= out@ + linked_from(self.project_spec(), self.module_spec(), s@, i as int));
        out
    }

    /// Process a signature string and add cross-links
    pub fn link_signature(&self, signature: &str) -> (r: String)
        ensures
            r@ == linked_from(self.project_spec(), self.module_spec(), signature@, 0),
    {
        self.add_links_to_text(signature)
    }

    /// Process description text and add cross-links
    pub fn link_description(&self, text: &str) -> (r: String)
        ensures
            r@ == linked_from(self.project_spec(), self.module_spec(), text@, 0),
    {
        self.add_links_to_text(text)
    }

    /// Resolve a `See Also` reference to a link
    pub fn resolve_see_also(&self, reference: &str) -> (r: Option<(String, String)>)
        ensures
            match resolve_word(
                self.project_spec(),
                last_segment(reference@),
                self.module_spec(),
            ) {
                Some(s) => match r {
                    Some((text, link)) => text@ == reference@ && link@ == link_of(
                        s@,
                        self.module_spec(),
                    ),
                    None => false,
                },
                None => r is None,
            },
    {
        let v = chars_of(reference);
        let start = last_dot_end(&v);
        let name = crate::text::substring(&v, start, v.len());
        match self.project.lookup_in_module(name.as_str(), self.config.current_module.as_str()) {
            Some(symbol) => {
                let link = self.project.link_to_symbol(symbol, self.config.current_module.as_str());
                Some((copy_str(reference), link))
            },
            None => None,
        }
    }
}

/// Position just after the last `'.'` of `s[..k]`, or 0.
pub open spec fn last_dot_end_upto(s: Seq<char>, k: int) -> int
    decreases k,
{
    if k <= 0 || k > s.len() {
        0
    } else if s[k - 1] == '.' {
        k
    } else {
        last_dot_end_upto(s, k - 1)
    }
}

/// The part of a reference after its last `'.'` (all of it when there is none).
pub open spec fn last_segment(s: Seq<char>) -> Seq<char> {
    s.subrange(last_dot_end_upto(s, s.len() as int), s.len() as int)
}

pub proof fn lemma_last_dot_end(s: Seq<char>, k: int)
    requires
        0 <= k <= s.len(),
    ensures
        0 <= last_dot_end_upto(s, k) <= k,
    decreases k,
{
    if k > 0 && s[k - 1] != '.' {
        lemma_last_dot_end(s, k - 1);
    }
}

/// Position just after the last `'.'` of `v`, or 0.
fn last_dot_end(v: &Vec<char>) -> (r: usize)
    ensures
        r == last_dot_end_upto(v@, v@.len() as int),
        r <= v@.len(),
{
    let mut k = v.len();
    while k > 0 && v[k - 1] != '.'
        invariant
            k <= v@.len(),
            last_dot_end_upto(v@, v@.len() as int) == last_dot_end_upto(v@, k as int),
        decreases k,
    {
        k = k - 1;
    }
    k
}

// ---------------------------------------------------------------------------
// Type names in signatures
// ---------------------------------------------------------------------------

/// Whether `c` continues an identifier when scanning for type names.
pub open spec fn ident_char(c: char) -> bool {
    char_alphabetic(c) || char_alphanumeric(c) || c == '_'
}

/// End of the run of identifier characters in `s` starting at `j`.
pub open spec fn ident_end(s: Seq<char>, j: int) -> int
    decreases s.len() - j,
{
    if j < 0 || j >= s.len() || !ident_char(s[j]) {
        j
    } else {
        ident_end(s, j + 1)
    }
}

pub proof fn lemma_ident_end(s: Seq<char>, j: int)
    requires
        0 <= j <= s.len(),
    ensures
        j <= ident_end(s, j) <= s.len(),
    decreases s.len() - j,
{
    if j < s.len() && ident_char(s[j]) {
        lemma_ident_end(s, j + 1);
    }
}

/// The capitalised identifiers of `s[i..]`, in order.  An identifier starts
/// with an alphabetic character.
pub open spec fn type_names_from(s: Seq<char>, i: int) -> Seq<Seq<char>>
    decreases s.len() - i,
{
    if i < 0 || i >= s.len() {
        Seq::empty()
    } else if char_alphabetic(s[i]) {
        let e = ident_end(s, i + 1);
        proof {
            lemma_ident_end(s, i + 1);
        }
        let w = s.subrange(i, e);
        (if char_uppercase(w[0]) {
            seq![w]
        } else {
            Seq::empty()
        }) + type_names_from(s, e)
    } else {
        type_names_from(s, i + 1)
    }
}

/// Parse type references from a signature.
/// Returns the capitalised identifiers found in the signature, in order.
pub fn extract_type_names(signature: &str) -> (r: Vec<String>)
    ensures
        crate::text::views(r@) == type_names_from(signature@, 0),
{
    let s = chars_of(signature);
    let mut types: Vec<String> = Vec::new();
    let mut i: usize = 0;
    while i < s.len()
        invariant
            i <= s@.len(),
            s@ == signature@,
            crate::text::views(types@) + type_names_from(s@, i as int) == type_names_from(s@, 0),
        decreases s.len() - i,
    {
        if is_alphabetic(s[i]) {
            let mut e = i + 1;
            while e < s.len() && (is_alphabetic(s[e]) || is_alphanumeric(s[e]) || s[e] == '_')
                invariant
                    i < e <= s@.len(),
                    ident_end(s@, i + 1) == ident_end(s@, e as int),
                decreases s.len() - e,
            {
                e = e + 1;
            }
            let ghost before = crate::text::views(types@);
            if is_uppercase(s[i]) {
                let w = crate::text::substring(&s, i, e);
                types.push(w);
                assert(crate::text::views(types@) =~= before.push(s@.subrange(i as int, e as int)));
            }
            assert(crate::text::views(types@) + type_names_from(s@, e as int) =~= before
                + type_names_from(s@, i as int));
            i = e;
        } else {
            i = i + 1;
        }
    }
    assert(crate::text::views(types@) =~= crate::text::views(types@) + type_names_from(
        s@,
        i as int,
    ));
    types
}

} // verus!

//! Search index generation for documentation
//!
//! Generates a JSON search index and the JavaScript and CSS for client-side
//! documentation search.

use vstd::multiset::Multiset;
use vstd::prelude::*;

use super::project::{flat_symbols, sym_key, ProjectDoc, SymbolInfo};
use super::types::{derefs, ItemKind};
use crate::text::{chars_of, join, lex_le, push_char};

verus! {

/// A single entry in the search index
#[derive(Debug, Clone)]
pub struct SearchEntry {
    /// Symbol name
    pub name: String,
    /// Item type (function, struct, enum, etc.)
    pub kind: &'static str,
    /// Module path
    pub module: String,
    /// Brief description
    pub description: String,
    /// Link to the item
    pub link: String,
}

/// The name of a kind in the search index.
pub open spec fn kind_str(kind: ItemKind) -> Seq<char> {
    match kind {
        ItemKind::Function => "function"@,
        ItemKind::Struct => "struct"@,
        ItemKind::Field => "field"@,
        ItemKind::Enum => "enum"@,
        ItemKind::Variant => "variant"@,
        ItemKind::Interface => "interface"@,
        ItemKind::Method => "method"@,
        ItemKind::Impl => "impl"@,
        ItemKind::Constant => "constant"@,
    }
}

/// The name of a kind in the search index.
pub fn kind_to_str(kind: ItemKind) -> (r: &'static str)
    ensures
        r@ == kind_str(kind),
{
    match kind {
        ItemKind::Function => "function",
        ItemKind::Struct => "struct",
        ItemKind::Field => "field",
        ItemKind::Enum => "enum",
        ItemKind::Variant => "variant",
        ItemKind::Interface => "interface",
        ItemKind::Method => "method",
        ItemKind::Impl => "impl",
        ItemKind::Constant => "constant",
    }
}

/// How one character is written inside a JSON string.
pub open spec fn escape_json_char(c: char) -> Seq<char> {
    if c == '\\' {
        seq!['\\', '\\']
    } else if c == '"' {
        seq!['\\', '"']
    } else if c == '\n' {
        seq!['\\', 'n']
    } else if c == '\r' {
        seq!['\\', 'r']
    } else if c == '\t' {
        seq!['\\', 't']
    } else {
        seq![c]
    }
}

/// A string escaped for a JSON string literal, character by character.
pub open spec fn escape_json_spec(s: Seq<char>) -> Seq<char>
    decreases s.len(),
{
    if s.len() == 0 {
        Seq::empty()
    } else {
        escape_json_spec(s.drop_last()) + escape_json_char(s.last())
    }
}

/// Escapes backslashes, quotes, newlines, carriage returns and tabs for JSON.
pub fn escape_json(s: &str) -> (r: String)
    ensures
        r@ == escape_json_spec(s@),
{
    let v = chars_of(s);
    let mut out = String::new();
    let mut i: usize = 0;
    while i < v.len()
        invariant
            i <= v@.len(),
            v@ == s@,
            out@ == escape_json_spec(v@.take(i as int)),
        decreases v.len() - i,
    {
        let c = v[i];
        assert(v@.take(i + 1).drop_last() =~= v@.take(i as int));
        let ghost before = out@;
        if c == '\\' {
            push_char(&mut out, '\\');
            push_char(&mut out, '\\');
        } else if c == '"' {
            push_char(&mut out, '\\');
            push_char(&mut out, '"');
        } else if c == '\n' {
            push_char(&mut out, '\\');
            push_char(&mut out, 'n');
        } else if c == '\r' {
            push_char(&mut out, '\\');
            push_char(&mut out, 'r');
        } else if c == '\t' {
            push_char(&mut out, '\\');
            push_char(&mut out, 't');
        } else {
            push_char(&mut out, c);
        }
        assert(out@ =~= before + escape_json_char(c));
        i = i + 1;
    }
    assert(v@.take(v@.len() as int) =~= v@);
    out
}

/// The link of a symbol in the search index.
pub open spec fn entry_link(s: SymbolInfo) -> Seq<char> {
    s.module@ + ".html#"@ + s.anchor@
}

/// The JSON object for one symbol in the search index.
pub open spec fn entry_json(s: SymbolInfo) -> Seq<char> {
    "  {\"n\":\""@ + escape_json_spec(s.name@) + "\",\"k\":\""@ + kind_str(s.kind)
        + "\",\"m\":\""@ + escape_json_spec(s.module@) + "\",\"d\":\""@ + escape_json_spec(
        s.description@,
    ) + "\",\"l\":\""@ + escape_json_spec(entry_link(s)) + "\"}"@
}

/// The JSON objects for a sequence of symbols.
pub open spec fn entries_json(syms: Seq<SymbolInfo>) -> Seq<Seq<char>> {
    syms.map_values(|s: SymbolInfo| entry_json(s))
}

/// The JSON search index listing `syms` in order.
pub open spec fn index_json(syms: Seq<SymbolInfo>) -> Seq<char> {
    "[\n"@ + join(entries_json(syms), ",\n"@) + "\n]"@
}

/// The symbols are in order of their lower-cased names.
pub open spec fn sorted_by_key(syms: Seq<SymbolInfo>) -> bool {
    forall|i: int, j: int| 0 <= i < j < syms.len() ==> lex_le(sym_key(syms[i]), sym_key(syms[j]))
}

/// Builds the search entry for a symbol.
fn make_entry(symbol: &SymbolInfo) -> (e: SearchEntry)
    ensures
        e.name@ == symbol.name@,
        e.kind@ == kind_str(symbol.kind),
        e.module@ == symbol.module@,
        e.description@ == symbol.description@,
        e.link@ == entry_link(*symbol),
{
    let mut link = symbol.module.clone();
    link.append(".html#");
    link.append(symbol.anchor.as_str());
    SearchEntry {
        name: symbol.name.clone(),
        kind: kind_to_str(symbol.kind),
        module: symbol.module.clone(),
        description: symbol.description.clone(),
        link,
    }
}

/// The JSON object for one entry.
fn entry_to_json(e: &SearchEntry) -> (r: String)
    ensures
        r@ == "  {\"n\":\""@ + escape_json_spec(e.name@) + "\",\"k\":\""@ + e.kind@
            + "\",\"m\":\""@ + escape_json_spec(e.module@) + "\",\"d\":\""@ + escape_json_spec(
            e.description@,
        ) + "\",\"l\":\""@ + escape_json_spec(e.link@) + "\"}"@,
{
    let mut out = String::new();
    out.append("  {\"n\":\"");
    out.append(escape_json(e.name.as_str()).as_str());
    out.append("\",\"k\":\"");
    out.append(e.kind);
    out.append("\",\"m\":\"");
    out.append(escape_json(e.module.as_str()).as_str());
    out.append("\",\"d\":\"");
    out.append(escape_json(e.description.as_str()).as_str());
    out.append("\",\"l\":\"");
    out.append(escape_json(e.link.as_str()).as_str());
    out.append("\"}");
    out
}

/// Generate a JSON search index from project documentation.
///
/// The index lists every indexed symbol once, ordered by lower-cased name.
pub fn generate_search_index(project: &ProjectDoc) -> (r: String)
    ensures
        exists|syms: Seq<SymbolInfo>|
            syms.to_multiset() == flat_symbols(project.symbol_index@).to_multiset()
                && sorted_by_key(syms) && r@ == index_json(syms),
{
    let symbols = project.all_symbols();
    let ghost syms = derefs(symbols@);
    let mut json = String::new();
    json.append("[\n");
    let mut i: usize = 0;
    while i < symbols.len()
        invariant
            i <= symbols@.len(),
            syms == derefs(symbols@),
            json@ == "[\n"@ + join(entries_json(syms.take(i as int)), ",\n"@),
        decreases symbols.len() - i,
    {
        let entry = make_entry(symbols[i]);
        assert(entries_json(syms.take(i + 1)).drop_last() =~= entries_json(syms.take(i as int)));
        if i > 0 {
            json.append(",\n");
        }
        let piece = entry_to_json(&entry);
        assert(piece@ == entry_json(syms[i as int]));
        json.append(piece.as_str());
        assert(entries_json(syms.take(i + 1)).last() == entry_json(syms[i as int]));
        i = i + 1;
    }
    json.append("\n]");
    assert(syms.take(syms.len() as int) =~= syms);
    assert(json@ =~= index_json(syms));
    assert(sorted_by_key(syms));
    assert(syms.to_multiset() == flat_symbols(project.symbol_index@).to_multiset());
    json
}

/// The JavaScript that implements documentation search.
pub const SEARCH_JS: &'static str = r#"// Stratum Documentation Search
(function() {
    'use strict';

    let searchIndex = [];
    let searchInput = null;
    let searchResults = null;

    // Load search index
    function loadSearchIndex() {
        fetch('search-index.json')
            .then(r => r.json())
            .then(data => { searchIndex = data; })
            .catch(e => console.warn('Search index not available:', e));
    }

    // Fuzzy match score (lower is better, -1 means no match)
    function fuzzyMatch(query, text) {
        query = query.toLowerCase();
        text = text.toLowerCase();

        // Exact match is best
        if (text === query) return 0;

        // Starts with is very good
        if (text.startsWith(query)) return 1;

        // Contains is good
        if (text.includes(query)) return 2;

        // Fuzzy match: all query chars must appear in order
        let qi = 0;
        let score = 0;
        let lastMatch = -1;

        for (let i = 0; i < text.length && qi < query.length; i++) {
            if (text[i] === query[qi]) {
                // Penalize gaps
                if (lastMatch >= 0) {
                    score += (i - lastMatch - 1) * 0.1;
                }
                lastMatch = i;
                qi++;
            }
        }

        // All query chars must be found
        if (qi < query.length) return -1;

        // Add base score for fuzzy matches
        return 3 + score;
    }

    // Search and display results
    function search(query) {
        if (!searchResults) return;

        query = query.trim();
        if (query.length < 2) {
            searchResults.innerHTML = '';
            searchResults.classList.remove('visible');
            return;
        }

        const results = [];
        for (const entry of searchIndex) {
            // Search in name (primary) and description (secondary)
            const nameScore = fuzzyMatch(query, entry.n);
            const descScore = fuzzyMatch(query, entry.d);

            // Take best score, prefer name matches
            let score = nameScore;
            if (score < 0 && descScore >= 0) {
                score = descScore + 10; // Penalize description-only matches
            }

            if (score >= 0) {
                results.push({ entry, score });
            }
        }

        // Sort by score (ascending - lower is better)
        results.sort((a, b) => a.score - b.score);

        // Display top 15 results
        const topResults = results.slice(0, 15);

        if (topResults.length === 0) {
            searchResults.innerHTML = '<div class="search-no-results">No results found</div>';
        } else {
            searchResults.innerHTML = topResults.map(r => {
                const e = r.entry;
                const kindClass = 'kind-' + e.k.toLowerCase();
                return `<a href="${e.l}" class="search-result">
                    <span class="search-result-kind ${kindClass}">${e.k}</span>
                    <span class="search-result-name">${highlight(e.n, query)}</span>
                    <span class="search-result-module">${e.m}</span>
                    <span class="search-result-desc">${truncate(e.d, 60)}</span>
                </a>`;
            }).join('');
        }

        searchResults.classList.add('visible');
    }

    // Highlight matching text
    function highlight(text, query) {
        const lower = text.toLowerCase();
        const queryLower = query.toLowerCase();
        const idx = lower.indexOf(queryLower);
        if (idx >= 0) {
            return text.substring(0, idx) +
                   '<mark>' + text.substring(idx, idx + query.length) + '</mark>' +
                   text.substring(idx + query.length);
        }
        return text;
    }

    // Truncate text
    function truncate(text, maxLen) {
        if (text.length <= maxLen) return text;
        return text.substring(0, maxLen) + '...';
    }

    // Initialize search
    function initSearch() {
        searchInput = document.getElementById('search-input');
        searchResults = document.getElementById('search-results');

        if (!searchInput || !searchResults) return;

        loadSearchIndex();

        // Debounce search input
        let debounceTimer;
        searchInput.addEventListener('input', function() {
            clearTimeout(debounceTimer);
            debounceTimer = setTimeout(() => search(this.value), 150);
        });

        // Keyboard navigation
        searchInput.addEventListener('keydown', function(e) {
            if (e.key === 'Escape') {
                this.value = '';
                searchResults.classList.remove('visible');
            }
        });

        // Close results when clicking outside
        document.addEventListener('click', function(e) {
            if (!e.target.closest('.search-container')) {
                searchResults.classList.remove('visible');
            }
        });

        // Focus search on '/' key
        document.addEventListener('keydown', function(e) {
            if (e.key === '/' && document.activeElement !== searchInput) {
                e.preventDefault();
                searchInput.focus();
            }
        });
    }

    // Run on DOM ready
    if (document.readyState === 'loading') {
        document.addEventListener('DOMContentLoaded', initSearch);
    } else {
        initSearch();
    }
})();
"#;

/// The CSS for the search UI.
pub const SEARCH_CSS: &'static str = r#"
/* Search Styles */
.search-container {
    position: relative;
    margin: 1rem 0;
}

#search-input {
    width: 100%;
    padding: 0.75rem 1rem;
    padding-left: 2.5rem;
    font-size: 1rem;
    background: var(--code-bg);
    border: 1px solid var(--border-color);
    border-radius: 8px;
    color: var(--text-color);
    outline: none;
}

#search-input:focus {
    border-color: var(--accent-color);
    box-shadow: 0 0 0 2px rgba(123, 104, 238, 0.2);
}

#search-input::placeholder {
    color: #666;
}

.search-icon {
    position: absolute;
    left: 0.75rem;
    top: 50%;
    transform: translateY(-50%);
    color: #666;
    pointer-events: none;
}

#search-results {
    position: absolute;
    top: 100%;
    left: 0;
    right: 0;
    background: var(--sidebar-bg);
    border: 1px solid var(--border-color);
    border-radius: 8px;
    margin-top: 0.5rem;
    max-height: 400px;
    overflow-y: auto;
    z-index: 1000;
    display: none;
    box-shadow: 0 4px 12px rgba(0, 0, 0, 0.3);
}

#search-results.visible {
    display: block;
}

.search-result {
    display: block;
    padding: 0.75rem 1rem;
    text-decoration: none;
    color: var(--text-color);
    border-bottom: 1px solid var(--border-color);
}

.search-result:last-child {
    border-bottom: none;
}

.search-result:hover {
    background: var(--code-bg);
}

.search-result-kind {
    display: inline-block;
    padding: 0.15rem 0.4rem;
    font-size: 0.7rem;
    font-weight: 600;
    text-transform: uppercase;
    border-radius: 3px;
    margin-right: 0.5rem;
}

.kind-function { background: #2d5a27; color: #7ec876; }
.kind-struct { background: #5a4427; color: #d4a656; }
.kind-enum { background: #27485a; color: #56b4d4; }
.kind-interface { background: #4a275a; color: #c476d4; }
.kind-method { background: #275a4a; color: #56d4b4; }
.kind-constant { background: #5a2727; color: #d47676; }

.search-result-name {
    font-weight: 600;
    color: var(--accent-color);
}

.search-result-name mark {
    background: rgba(123, 104, 238, 0.3);
    color: inherit;
    padding: 0 2px;
    border-radius: 2px;
}

.search-result-module {
    margin-left: 0.5rem;
    font-size: 0.85rem;
    color: #888;
}

.search-result-desc {
    display: block;
    font-size: 0.85rem;
    color: #999;
    margin-top: 0.25rem;
    white-space: nowrap;
    overflow: hidden;
    text-overflow: ellipsis;
}

.search-no-results {
    padding: 1rem;
    text-align: center;
    color: #888;
}

/* Keyboard hint */
.search-hint {
    position: absolute;
    right: 0.75rem;
    top: 50%;
    transform: translateY(-50%);
    font-size: 0.75rem;
    color: #666;
    background: var(--bg-color);
    padding: 0.15rem 0.4rem;
    border-radius: 3px;
    border: 1px solid var(--border-color);
}

/* Type link styles */
.type-link {
    color: var(--accent-color);
    text-decoration: none;
    border-bottom: 1px dotted var(--accent-color);
}

.type-link:hover {
    border-bottom-style: solid;
}
"#;

/// Generate the JavaScript search implementation
pub fn generate_search_js() -> (r: &'static str)
    ensures
        r@ == SEARCH_JS@,
{
    SEARCH_JS
}

/// Generate CSS for search UI
pub fn generate_search_css() -> (r: &'static str)
    ensures
        r@ == SEARCH_CSS@,
{
    SEARCH_CSS
}

} // verus!

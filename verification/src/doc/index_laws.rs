//! Properties of the project symbol index: what indexing a module makes
//! findable, and that nothing indexed before is lost.

use vstd::prelude::*;

use super::project::{
    child_symbol, group_pos, group_pos_from, index_add, index_children, index_item_spec, index_items,
    item_symbol, SymbolModel,
};
use super::types::DocumentedItem;

verus! {

/// `s` is found in the index: its name has a group, and the group holds it.
pub open spec fn indexed(idx: Seq<(Seq<char>, Seq<SymbolModel>)>, s: SymbolModel) -> bool {
    let g = group_pos(idx, s.name);
    g >= 0 && idx[g].1.contains(s)
}

/// `group_pos_from` finds the first group with the name at or after `i`.
pub proof fn lemma_group_pos_from(idx: Seq<(Seq<char>, Seq<SymbolModel>)>, n: Seq<char>, i: int)
    requires
        0 <= i <= idx.len(),
    ensures
        -1 <= group_pos_from(idx, n, i) < idx.len(),
        group_pos_from(idx, n, i) >= 0 ==> i <= group_pos_from(idx, n, i) && idx[group_pos_from(
            idx,
            n,
            i,
        )].0 == n,
        forall|j: int|
            i <= j < idx.len() && (group_pos_from(idx, n, i) < 0 || j < group_pos_from(idx, n, i))
                ==> idx[j].0 != n,
    decreases idx.len() - i,
{
    if i < idx.len() && idx[i].0 != n {
        lemma_group_pos_from(idx, n, i + 1);
    }
}

/// Adding a symbol makes it findable and keeps every symbol found before.
pub proof fn lemma_index_add(idx: Seq<(Seq<char>, Seq<SymbolModel>)>, s: SymbolModel, x: SymbolModel)
    ensures
        indexed(index_add(idx, s), s),
        indexed(idx, x) ==> indexed(index_add(idx, s), x),
{
    let t = index_add(idx, s);
    let p = group_pos(idx, s.name);
    lemma_group_pos_from(idx, s.name, 0);
    lemma_group_pos_from(idx, x.name, 0);
    lemma_group_pos_from(t, s.name, 0);
    lemma_group_pos_from(t, x.name, 0);
    let gx = group_pos(idx, x.name);
    let tx = group_pos(t, x.name);
    let ts = group_pos(t, s.name);
    if p >= 0 {
        assert(t[p].0 == s.name);
        assert(ts == p) by {
            if ts < p {
                assert(t[ts].0 == idx[ts].0);
            }
        }
        assert(t[p].1 == idx[p].1.push(s));
        assert(t[p].1[idx[p].1.len() as int] == s);
        if indexed(idx, x) {
            assert(t[gx].0 == x.name);
            assert(tx == gx) by {
                if tx < gx {
                    assert(t[tx].0 == idx[tx].0);
                }
            }
            let k = choose|k: int| 0 <= k < idx[gx].1.len() && idx[gx].1[k] == x;
            assert(t[gx].1[k] == x);
        }
    } else {
        assert(t[idx.len() as int].0 == s.name);
        assert(ts == idx.len()) by {
            if ts < idx.len() {
                assert(t[ts].0 == idx[ts].0);
            }
        }
        assert(t[ts].1 == seq![s]);
        assert(t[ts].1[0] == s);
        if indexed(idx, x) {
            assert(t[gx].0 == x.name);
            assert(tx == gx) by {
                if tx < gx {
                    assert(t[tx].0 == idx[tx].0);
                }
            }
            let k = choose|k: int| 0 <= k < idx[gx].1.len() && idx[gx].1[k] == x;
            assert(t[gx].1[k] == x);
        }
    }
}

/// Indexing children makes each of them findable and keeps every symbol
/// found before.
pub proof fn lemma_index_children(
    idx: Seq<(Seq<char>, Seq<SymbolModel>)>,
    parent: DocumentedItem,
    children: Seq<DocumentedItem>,
    m: Seq<char>,
    x: SymbolModel,
)
    ensures
        forall|k: int|
            0 <= k < children.len() ==> indexed(
                index_children(idx, parent, children, m),
                #[trigger] child_symbol(parent, children[k], m),
            ),
        indexed(idx, x) ==> indexed(index_children(idx, parent, children, m), x),
    decreases children.len(),
{
    if children.len() > 0 {
        let before = index_children(idx, parent, children.drop_last(), m);
        let last = child_symbol(parent, children.last(), m);
        lemma_index_children(idx, parent, children.drop_last(), m, x);
        lemma_index_add(before, last, x);
        assert forall|k: int| 0 <= k < children.len() implies indexed(
            index_children(idx, parent, children, m),
            #[trigger] child_symbol(parent, children[k], m),
        ) by {
            if k < children.len() - 1 {
                assert(children[k] == children.drop_last()[k]);
                lemma_index_children(idx, parent, children.drop_last(), m, child_symbol(parent, children[k], m));
                lemma_index_add(before, last, child_symbol(parent, children[k], m));
            }
        }
    }
}

/// Indexing an item makes it and its children findable and keeps every
/// symbol found before.
pub proof fn lemma_index_item(
    idx: Seq<(Seq<char>, Seq<SymbolModel>)>,
    item: DocumentedItem,
    m: Seq<char>,
    x: SymbolModel,
)
    ensures
        indexed(index_item_spec(idx, item, m), item_symbol(item, m)),
        forall|k: int|
            0 <= k < item.children@.len() ==> indexed(
                index_item_spec(idx, item, m),
                #[trigger] child_symbol(item, item.children@[k], m),
            ),
        indexed(idx, x) ==> indexed(index_item_spec(idx, item, m), x),
{
    let a = index_add(idx, item_symbol(item, m));
    lemma_index_add(idx, item_symbol(item, m), x);
    lemma_index_add(idx, item_symbol(item, m), item_symbol(item, m));
    lemma_index_children(a, item, item.children@, m, x);
    lemma_index_children(a, item, item.children@, m, item_symbol(item, m));
}

/// Adding a module's items to the index makes every item and every child of
/// an item findable under its name, and keeps every symbol found before.
pub proof fn lemma_index_items(
    idx: Seq<(Seq<char>, Seq<SymbolModel>)>,
    items: Seq<DocumentedItem>,
    m: Seq<char>,
    x: SymbolModel,
)
    ensures
        forall|k: int|
            0 <= k < items.len() ==> indexed(index_items(idx, items, m), #[trigger] item_symbol(items[k], m)),
        forall|k: int, c: int|
            0 <= k < items.len() && 0 <= c < items[k].children@.len() ==> indexed(
                index_items(idx, items, m),
                #[trigger] child_symbol(items[k], items[k].children@[c], m),
            ),
        indexed(idx, x) ==> indexed(index_items(idx, items, m), x),
    decreases items.len(),
{
    if items.len() > 0 {
        let init = items.drop_last();
        let before = index_items(idx, init, m);
        let last = items.last();
        lemma_index_items(idx, init, m, x);
        lemma_index_item(before, last, m, x);
        assert forall|k: int| 0 <= k < items.len() implies indexed(
            index_items(idx, items, m),
            #[trigger] item_symbol(items[k], m),
        ) by {
            if k < items.len() - 1 {
                assert(items[k] == init[k]);
                lemma_index_items(idx, init, m, item_symbol(items[k], m));
                lemma_index_item(before, last, m, item_symbol(items[k], m));
            } else {
                lemma_index_item(before, last, m, x);
            }
        }
        assert forall|k: int, c: int|
            0 <= k < items.len() && 0 <= c < items[k].children@.len() implies indexed(
                index_items(idx, items, m),
                #[trigger] child_symbol(items[k], items[k].children@[c], m),
            ) by {
            let cs = child_symbol(items[k], items[k].children@[c], m);
            if k < items.len() - 1 {
                assert(items[k] == init[k]);
                lemma_index_items(idx, init, m, cs);
                lemma_index_item(before, last, m, cs);
            } else {
                lemma_index_item(before, last, m, x);
            }
        }
    }
}

} // verus!

use crate::codec::json_decode;
use crate::id::is_id_text;
use crate::collection::{item_view, item_views, child_path, documents, is_selection, Entry, Item};
use vstd::prelude::*;

verus! {

/// Successive inserts into one collection get pairwise distinct
/// identifiers: insert `k` is given the names `taken[k]` then in the
/// directory, which hold every identifier inserted before it, and it draws
/// an identifier outside them.
pub proof fn lemma_inserted_ids_distinct(ids: Seq<Seq<char>>, taken: Seq<Seq<Seq<char>>>)
    requires
        ids.len() == taken.len(),
        forall|k: int| 0 <= k < ids.len() ==> !(#[trigger] taken[k]).contains(ids[k]),
        forall|j: int, k: int| 0 <= j < k < ids.len() ==> (#[trigger] taken[k]).contains(#[trigger] ids[j]),
    ensures
        forall|j: int, k: int| 0 <= j < k < ids.len() ==> #[trigger] ids[j] != #[trigger] ids[k],
{
    assert forall|j: int, k: int| 0 <= j < k < ids.len() implies #[trigger] ids[j] != #[trigger] ids[k] by {
        assert(taken[k].contains(ids[j]));
        assert(!taken[k].contains(ids[k]));
    }
}

/// Distinct documents have distinct files: a write to the file of one
/// identifier leaves the file of every other identifier as it was.
pub proof fn lemma_paths_distinct(dir: Seq<char>, a: Seq<char>, b: Seq<char>)
    requires
        is_id_text(a),
        is_id_text(b),
        a != b,
    ensures
        child_path(dir, a) != child_path(dir, b),
{
    assert(a[0] != '/' && b[0] != '/');
    let pre = if dir.len() == 0 || dir.last() == '/' { dir } else { dir + seq!['/'] };
    assert(child_path(dir, a) =~= pre + a);
    assert(child_path(dir, b) =~= pre + b);
    assert((pre + a).subrange(pre.len() as int, (pre + a).len() as int) =~= a);
    assert((pre + b).subrange(pre.len() as int, (pre + b).len() as int) =~= b);
}

/// Each document of a listing is named after one of its entries.
pub proof fn lemma_documents_from_entries(es: Seq<Entry>)
    ensures
        forall|k: int|
            0 <= k < documents(es).len() ==> exists|i: int|
                0 <= i < es.len() && (#[trigger] documents(es)[k]).0 == es[i].name@,
    decreases es.len(),
{
    if es.len() > 0 {
        lemma_documents_from_entries(es.drop_last());
        let prev = documents(es.drop_last());
        assert forall|k: int| 0 <= k < documents(es).len() implies exists|i: int|
            0 <= i < es.len() && (#[trigger] documents(es)[k]).0 == es[i].name@ by {
            if k < prev.len() {
                assert(documents(es)[k] == prev[k]);
                let i = choose|i: int| 0 <= i < es.drop_last().len() && prev[k].0 == es.drop_last()[i].name@;
                assert(es[i] == es.drop_last()[i]);
            } else {
                assert(documents(es)[k].0 == es[es.len() - 1].name@);
            }
        }
    }
}

/// The listing once the file named `gone` is removed.
pub open spec fn without(es: Seq<Entry>, gone: Seq<char>) -> Seq<Entry> {
    es.filter(|e: Entry| e.name@ != gone)
}

/// Once the file named `gone` is removed, no document of the directory
/// has that identifier.
pub proof fn lemma_deleted_absent(es: Seq<Entry>, gone: Seq<char>)
    ensures
        forall|k: int|
            0 <= k < documents(without(es, gone)).len() ==> (#[trigger] documents(
                without(es, gone),
            )[k]).0 != gone,
{
    let rest = without(es, gone);
    broadcast use vstd::seq_lib::group_filter_ensures;
    lemma_documents_from_entries(rest);
}

/// A predicate that keeps nothing selects nothing: with it, an update of
/// many documents plans no write and every file stays as it was.
pub proof fn lemma_rejecting_predicate_selects_nothing<T, F: Fn(&Item<T>) -> bool>(
    f: F,
    all: Seq<Item<T>>,
    picked: Seq<Item<T>>,
)
    requires
        forall|x: Item<T>, b: bool| f.ensures((&x,), b) ==> !b,
        is_selection(f, all, picked),
    ensures
        picked.len() == 0,
    decreases all.len(),
{
    if all.len() > 0 {
        if f.ensures((&all.last(),), true) && picked.len() > 0 && picked.last() == all.last()
            && is_selection(f, all.drop_last(), picked.drop_last()) {
            assert(!true);
        } else {
            lemma_rejecting_predicate_selects_nothing(f, all.drop_last(), picked);
        }
    }
}

/// A predicate that decides on an item's identifier text and payload
/// alone.
pub open spec fn decides_on_view<F: Fn(&Item<serde_json::Value>) -> bool>(f: F) -> bool {
    forall|x: Item<serde_json::Value>, y: Item<serde_json::Value>, b: bool|
        item_view(x) == item_view(y) && #[trigger] f.ensures((&x,), b) ==> #[trigger] f.ensures(
            (&y,),
            b,
        )
}

/// A selection carries over between two item sequences that look alike:
/// what `f` keeps of `b` looks like what it keeps of `a`.
pub proof fn lemma_selection_carries_over<F: Fn(&Item<serde_json::Value>) -> bool>(
    f: F,
    a: Seq<Item<serde_json::Value>>,
    b: Seq<Item<serde_json::Value>>,
    found: Seq<Item<serde_json::Value>>,
) -> (picked: Seq<Item<serde_json::Value>>)
    requires
        decides_on_view(f),
        item_views(a) == item_views(b),
        is_selection(f, b, found),
    ensures
        is_selection(f, a, picked),
        item_views(picked) == item_views(found),
    decreases a.len(),
{
    assert(a.len() == item_views(a).len() && b.len() == item_views(b).len());
    if a.len() == 0 {
        assert(item_views(found) =~= item_views(seq![]));
        seq![]
    } else {
        let n = a.len() - 1;
        assert(item_views(a)[n] == item_view(a[n]) && item_views(b)[n] == item_view(b[n]));
        assert(item_view(a.last()) == item_view(b.last()));
        assert(item_views(a.drop_last()) =~= item_views(a).drop_last());
        assert(item_views(b.drop_last()) =~= item_views(b).drop_last());
        if f.ensures((&b.last(),), true) && found.len() > 0 && found.last() == b.last()
            && is_selection(f, b.drop_last(), found.drop_last()) {
            let p = lemma_selection_carries_over(f, a.drop_last(), b.drop_last(), found.drop_last());
            let picked = p.push(a.last());
            assert(f.ensures((&a.last(),), true));
            assert(picked.drop_last() =~= p);
            assert(item_views(picked) =~= item_views(p).push(item_view(a.last())));
            assert(item_views(found.drop_last()) =~= item_views(found).drop_last());
            assert(item_views(found)[found.len() - 1] == item_view(found.last()));
            assert(item_views(found) =~= item_views(found.drop_last()).push(item_view(found.last())));
            picked
        } else {
            assert(f.ensures((&a.last(),), false));
            lemma_selection_carries_over(f, a.drop_last(), b.drop_last(), found)
        }
    }
}

/// What `find_many` returns for a listing is exactly what its predicate
/// keeps of what `get_all` returns for the same listing, in the same order,
/// when the predicate decides on identifier text and payload alone.
pub proof fn lemma_find_many_filters_get_all<F: Fn(&Item<serde_json::Value>) -> bool>(
    f: F,
    es: Seq<Entry>,
    all: Seq<Item<serde_json::Value>>,
    found: Seq<Item<serde_json::Value>>,
)
    requires
        decides_on_view(f),
        item_views(all) == documents(es),
        exists|other: Seq<Item<serde_json::Value>>|
            #[trigger] item_views(other) == documents(es) && is_selection(f, other, found),
    ensures
        exists|picked: Seq<Item<serde_json::Value>>|
            is_selection(f, all, picked) && #[trigger] item_views(picked) == item_views(found),
{
    let other = choose|other: Seq<Item<serde_json::Value>>|
        #[trigger] item_views(other) == documents(es) && is_selection(f, other, found);
    let picked = lemma_selection_carries_over(f, all, other, found);
    assert(is_selection(f, all, picked) && item_views(picked) == item_views(found));
}

} // verus!

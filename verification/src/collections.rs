//! The outside collections that terms and datatypes are kept in.
use vstd::prelude::*;
use indexmap::{IndexMap, IndexSet};

verus! {

/// `indexmap::IndexMap`, an insertion-ordered hash map.
#[verifier::external_type_specification]
#[verifier::external_body]
#[verifier::reject_recursive_types(K)]
#[verifier::reject_recursive_types(V)]
#[verifier::reject_recursive_types(S)]
pub struct ExIndexMap<K, V, S>(IndexMap<K, V, S>);

/// `indexmap::IndexSet`, an insertion-ordered hash set.
#[verifier::external_type_specification]
#[verifier::external_body]
#[verifier::reject_recursive_types(T)]
#[verifier::reject_recursive_types(S)]
pub struct ExIndexSet<T, S>(IndexSet<T, S>);

/// The items of a set of strings, in the set's order.
pub uninterp spec fn index_set_items(s: IndexSet<String>) -> Seq<Seq<char>>;

/// The items after inserting `x`: unchanged if `x` is there, else `x` is
/// added last.
pub open spec fn items_insert(items: Seq<Seq<char>>, x: Seq<char>) -> Seq<Seq<char>> {
    if items.contains(x) {
        items
    } else {
        items.push(x)
    }
}

/// The items after removing `x` in the manner of `Vec::swap_remove`: the
/// last item takes the place of `x`.
pub open spec fn items_swap_remove(items: Seq<Seq<char>>, x: Seq<char>) -> Seq<Seq<char>> {
    if items.contains(x) {
        let i = items.index_of(x);
        items.update(i, items.last()).drop_last()
    } else {
        items
    }
}

/// The items after inserting each of `xs` in order.
pub open spec fn items_extend(items: Seq<Seq<char>>, xs: Seq<Seq<char>>) -> Seq<Seq<char>>
    decreases xs.len(),
{
    if xs.len() == 0 {
        items
    } else {
        items_insert(items_extend(items, xs.drop_last()), xs.last())
    }
}

/// `IndexSet::new`: an empty set.
#[verifier::external_body]
pub(crate) fn index_set_new() -> (r: IndexSet<String>)
    ensures
        index_set_items(r) == Seq::<Seq<char>>::empty(),
{
    IndexSet::new()
}

/// `IndexSet::insert`: adds the string last unless an equal string is
/// there; returns whether it added it.
#[verifier::external_body]
pub(crate) fn index_set_insert(s: &mut IndexSet<String>, value: String) -> (r: bool)
    ensures
        index_set_items(*final(s)) == items_insert(index_set_items(*old(s)), value@),
        r == !index_set_items(*old(s)).contains(value@),
{
    s.insert(value)
}

/// `IndexSet::remove`, which is `swap_remove`: the last item takes the
/// place of the removed one; returns whether the string was there.
#[verifier::external_body]
#[allow(deprecated)]
pub(crate) fn index_set_remove(s: &mut IndexSet<String>, value: &String) -> (r: bool)
    ensures
        index_set_items(*final(s)) == items_swap_remove(index_set_items(*old(s)), value@),
        r == index_set_items(*old(s)).contains(value@),
{
    s.remove(value)
}

/// `Extend::extend` of an `IndexSet` by the items of another, in their
/// order: each is inserted as by `insert`.
#[verifier::external_body]
pub(crate) fn index_set_extend(s: &mut IndexSet<String>, other: IndexSet<String>)
    ensures
        index_set_items(*final(s)) == items_extend(index_set_items(*old(s)), index_set_items(other)),
{
    s.extend(other)
}

/// `IndexSet::is_empty`.
#[verifier::external_body]
pub(crate) fn index_set_is_empty(s: &IndexSet<String>) -> (r: bool)
    ensures
        r == (index_set_items(*s).len() == 0),
{
    s.is_empty()
}

/// `IndexSet::len`: the number of items.
#[verifier::external_body]
pub(crate) fn index_set_len(s: &IndexSet<String>) -> (r: usize)
    ensures
        r == index_set_items(*s).len(),
{
    s.len()
}

/// `IndexSet::get_index`: the item at a position of the set's order, none
/// past its end.
#[verifier::external_body]
pub(crate) fn index_set_get_index(s: &IndexSet<String>, i: usize) -> (r: Option<&String>)
    ensures
        i < index_set_items(*s).len() ==> r is Some && r.unwrap()@ == index_set_items(*s)[i as int],
        i >= index_set_items(*s).len() ==> r is None,
{
    s.get_index(i)
}

/// Inserting keeps the items distinct, and adds `x` to their set.
pub proof fn lemma_items_insert(items: Seq<Seq<char>>, x: Seq<char>)
    requires
        items.no_duplicates(),
    ensures
        items_insert(items, x).no_duplicates(),
        items_insert(items, x).to_set() == items.to_set().insert(x),
        items_insert(items, x).subrange(0, items.len() as int) == items,
{
    if !items.contains(x) {
        let w = items.push(x);
        assert forall|i: int, j: int| 0 <= i < w.len() && 0 <= j < w.len() && i != j implies w[i] != w[j] by {
            if i == items.len() {
                assert(w[j] == items[j]);
            } else if j == items.len() {
                assert(w[i] == items[i]);
            }
        }
        assert(w.to_set() =~= items.to_set().insert(x)) by {
            assert forall|y: Seq<char>| w.to_set().contains(y) implies items.to_set().insert(x).contains(y) by {
                let k = choose|k: int| 0 <= k < w.len() && w[k] == y;
                if k < items.len() {
                    assert(items[k] == y);
                }
            }
            assert forall|y: Seq<char>| items.to_set().insert(x).contains(y) implies w.to_set().contains(y) by {
                if y == x {
                    assert(w[items.len() as int] == x);
                } else {
                    let k = choose|k: int| 0 <= k < items.len() && items[k] == y;
                    assert(w[k] == y);
                }
            }
        }
        assert(w.subrange(0, items.len() as int) =~= items);
    } else {
        assert(items.to_set() =~= items.to_set().insert(x));
        assert(items.subrange(0, items.len() as int) =~= items);
    }
}

/// Swap-removing keeps the items distinct, and removes `x` from their set.
pub proof fn lemma_items_swap_remove(items: Seq<Seq<char>>, x: Seq<char>)
    requires
        items.no_duplicates(),
    ensures
        items_swap_remove(items, x).no_duplicates(),
        items_swap_remove(items, x).to_set() == items.to_set().remove(x),
{
    if items.contains(x) {
        let i = items.index_of(x);
        let n = items.len();
        let w = items.update(i, items.last()).drop_last();
        assert(items[i] == x);
        assert forall|a: int, b: int| 0 <= a < w.len() && 0 <= b < w.len() && a != b implies w[a] != w[b] by {
            let a2 = if a == i { n - 1 } else { a };
            let b2 = if b == i { n - 1 } else { b };
            assert(w[a] == items[a2] && w[b] == items[b2]);
        }
        assert(w.to_set() =~= items.to_set().remove(x)) by {
            assert forall|y: Seq<char>| w.to_set().contains(y) implies items.to_set().remove(x).contains(y) by {
                let k = choose|k: int| 0 <= k < w.len() && w[k] == y;
                let k2 = if k == i { n - 1 } else { k };
                assert(w[k] == items[k2]);
                assert(k2 != i);
            }
            assert forall|y: Seq<char>| items.to_set().remove(x).contains(y) implies w.to_set().contains(y) by {
                let k = choose|k: int| 0 <= k < n && items[k] == y;
                assert(k != i);
                if k == n - 1 {
                    assert(w[i] == y);
                } else {
                    assert(w[k] == y);
                }
            }
        }
    } else {
        assert(items.to_set() =~= items.to_set().remove(x));
    }
}

/// Extending keeps the items distinct and in front, and adds the set of
/// `xs`.
pub proof fn lemma_items_extend(items: Seq<Seq<char>>, xs: Seq<Seq<char>>)
    requires
        items.no_duplicates(),
    ensures
        items_extend(items, xs).no_duplicates(),
        items_extend(items, xs).to_set() == items.to_set() + xs.to_set(),
        items_extend(items, xs).len() >= items.len(),
        items_extend(items, xs).subrange(0, items.len() as int) == items,
    decreases xs.len(),
{
    if xs.len() == 0 {
        assert(xs.to_set() =~= Set::<Seq<char>>::empty());
        assert(items.to_set() + xs.to_set() =~= items.to_set());
        assert(items.subrange(0, items.len() as int) =~= items);
    } else {
        let p = xs.drop_last();
        lemma_items_extend(items, p);
        let e = items_extend(items, p);
        lemma_items_insert(e, xs.last());
        assert(xs.to_set() =~= p.to_set().insert(xs.last())) by {
            assert(xs == p.push(xs.last()));
            assert forall|y: Seq<char>| xs.to_set().contains(y) implies p.to_set().insert(xs.last()).contains(y) by {
                let k = choose|k: int| 0 <= k < xs.len() && xs[k] == y;
                if k < p.len() {
                    assert(p[k] == y);
                }
            }
            assert forall|y: Seq<char>| p.to_set().insert(xs.last()).contains(y) implies xs.to_set().contains(y) by {
                if y == xs.last() {
                    assert(xs[xs.len() - 1] == y);
                } else {
                    let k = choose|k: int| 0 <= k < p.len() && p[k] == y;
                    assert(xs[k] == y);
                }
            }
        }
        assert(items.to_set() + xs.to_set() =~= (items.to_set() + p.to_set()).insert(xs.last()));
        let f = items_insert(e, xs.last());
        assert(f.subrange(0, e.len() as int) == e);
        assert(f.subrange(0, items.len() as int) =~= e.subrange(0, items.len() as int));
    }
}

/// The entries of a map from constructor names to field names, in the
/// map's order: each name, with its fields in order.
pub uninterp spec fn index_map_items(m: IndexMap<String, Vec<String>>) -> Seq<(Seq<char>, Seq<Seq<char>>)>;

/// The texts of a list of strings.
pub open spec fn strings_view(v: Vec<String>) -> Seq<Seq<char>> {
    v@.map_values(|s: String| s@)
}

/// `IndexMap::len`: the number of entries.
#[verifier::external_body]
pub(crate) fn index_map_len(m: &IndexMap<String, Vec<String>>) -> (r: usize)
    ensures
        r == index_map_items(*m).len(),
{
    m.len()
}

/// `IndexMap::get_index`: the entry at a position of the map's order, none
/// past its end.
#[verifier::external_body]
pub(crate) fn index_map_get_index(m: &IndexMap<String, Vec<String>>, i: usize) -> (r: Option<(&String, &Vec<String>)>)
    ensures
        i < index_map_items(*m).len() ==> r is Some && r.unwrap().0@ == index_map_items(*m)[i as int].0
            && strings_view(*r.unwrap().1) == index_map_items(*m)[i as int].1,
        i >= index_map_items(*m).len() ==> r is None,
{
    m.get_index(i)
}

/// The entries after `IndexMap::insert`: where the key is there, its
/// entry keeps its place and takes the new value; otherwise the entry is
/// added last.
pub open spec fn imap_insert(items: Seq<(Seq<char>, Seq<Seq<char>>)>, k: Seq<char>, v: Seq<Seq<char>>) -> Seq<(Seq<char>, Seq<Seq<char>>)> {
    if exists|i: int| 0 <= i < items.len() && (#[trigger] items[i]).0 == k {
        let i = choose|i: int|
            0 <= i < items.len() && (#[trigger] items[i]).0 == k && forall|j: int|
                0 <= j < i ==> (#[trigger] items[j]).0 != k;
        items.update(i, (k, v))
    } else {
        items.push((k, v))
    }
}

/// `IndexMap::new`: an empty map.
#[verifier::external_body]
pub(crate) fn index_map_new() -> (r: IndexMap<String, Vec<String>>)
    ensures
        index_map_items(r) == Seq::<(Seq<char>, Seq<Seq<char>>)>::empty(),
{
    IndexMap::new()
}

/// `IndexMap::insert`: as `imap_insert` says.
#[verifier::external_body]
pub(crate) fn index_map_insert(m: &mut IndexMap<String, Vec<String>>, k: String, v: Vec<String>)
    ensures
        index_map_items(*final(m)) == imap_insert(index_map_items(*old(m)), k@, strings_view(v)),
{
    m.insert(k, v);
}

} // verus!

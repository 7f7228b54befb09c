//! What holds of the store's operations, proved over its mathematical value.
use vstd::prelude::*;
use crate::metasources::{
    add_source, at_place, group_index, group_index_from, has_name, named_at, named_from, names_of,
    no_empty_group, not_named, position_from, remains_of, remove_names, strip_names,
    update_source, well_formed, without_names, Store,
};
use crate::source::FileSourceView;

verus! {

/// What the search for a group returns: an index at or after `from`, the
/// first there whose group carries the origin identifier.
pub proof fn lemma_group_index_from(ms: Store, id: Seq<char>, from: int)
    requires
        0 <= from <= ms.len(),
    ensures
        from <= group_index_from(ms, id, from) <= ms.len(),
        group_index_from(ms, id, from) < ms.len() ==> ms[group_index_from(ms, id, from)].len() > 0
            && ms[group_index_from(ms, id, from)][0].metasource == id,
        forall|k: int|
            from <= k < group_index_from(ms, id, from) ==> (#[trigger] ms[k]).len() == 0
                || ms[k][0].metasource != id,
    decreases ms.len() - from,
{
    if from < ms.len() && !(ms[from].len() > 0 && ms[from][0].metasource == id) {
        lemma_group_index_from(ms, id, from + 1);
    }
}

/// What the search for a source in a group returns: an index at or after
/// `from`, the first there with the identity of `s`.
pub proof fn lemma_position_from(g: Seq<FileSourceView>, s: FileSourceView, from: int)
    requires
        0 <= from <= g.len(),
    ensures
        from <= position_from(g, s, from) <= g.len(),
        position_from(g, s, from) < g.len() ==> g[position_from(g, s, from)].same_identity(s),
        forall|k: int| from <= k < position_from(g, s, from) ==> !(#[trigger] g[k]).same_identity(s),
    decreases g.len() - from,
{
    if from < g.len() && !g[from].same_identity(s) {
        lemma_position_from(g, s, from + 1);
    }
}

/// Adding a source keeps the store well formed.
pub proof fn lemma_add_well_formed(ms: Store, s: FileSourceView)
    requires
        well_formed(ms),
    ensures
        well_formed(add_source(ms, s)),
{
    lemma_group_index_from(ms, s.metasource, 0);
    let i = group_index(ms, s.metasource);
    let after = add_source(ms, s);
    if i < ms.len() {
        assert forall|a: int, b: int| 0 <= a < after.len() && 0 <= b < after[a].len() implies (
        #[trigger] after[a][b]).metasource == after[a][0].metasource by {
            if a == i && b < ms[i].len() {
                assert(after[a][b] == ms[a][b]);
            } else if a != i {
                assert(after[a][b] == ms[a][b]);
            }
        }
        assert forall|a: int, b: int|
            0 <= a < after.len() && 0 <= b < after.len() && a != b implies (
        #[trigger] after[a])[0].metasource != (#[trigger] after[b])[0].metasource by {
            assert(after[a][0] == ms[a][0]);
            assert(after[b][0] == ms[b][0]);
        }
    } else {
        assert forall|a: int, b: int|
            0 <= a < after.len() && 0 <= b < after.len() && a != b implies (
        #[trigger] after[a])[0].metasource != (#[trigger] after[b])[0].metasource by {
            if a < ms.len() {
                assert(after[a] == ms[a]);
            }
            if b < ms.len() {
                assert(after[b] == ms[b]);
            }
        }
    }
}

/// Replacing a source keeps the store well formed.
pub proof fn lemma_update_well_formed(ms: Store, s: FileSourceView)
    requires
        well_formed(ms),
        update_source(ms, s).is_some(),
    ensures
        well_formed(update_source(ms, s).unwrap()),
{
    lemma_group_index_from(ms, s.metasource, 0);
    let i = group_index(ms, s.metasource);
    lemma_position_from(ms[i], s, 0);
    let j = position_from(ms[i], s, 0);
    let after = update_source(ms, s).unwrap();
    assert(ms[i][j].metasource == ms[i][0].metasource);
    assert forall|a: int, b: int| 0 <= a < after.len() && 0 <= b < after[a].len() implies (
    #[trigger] after[a][b]).metasource == after[a][0].metasource by {
        assert(after[a][b].metasource == ms[a][b].metasource);
        assert(after[a][0].metasource == ms[a][0].metasource);
    }
    assert forall|a: int, b: int|
        0 <= a < after.len() && 0 <= b < after.len() && a != b implies (
    #[trigger] after[a])[0].metasource != (#[trigger] after[b])[0].metasource by {
        assert(after[a][0].metasource == ms[a][0].metasource);
        assert(after[b][0].metasource == ms[b][0].metasource);
    }
}

/// A source that is left when names are removed from a group was in the
/// group, and its name is not among them.
pub proof fn lemma_without_names(g: Seq<FileSourceView>, names: Seq<Seq<char>>)
    ensures
        without_names(g, names).len() <= g.len(),
        forall|k: int|
            0 <= k < without_names(g, names).len() ==> g.contains(
                #[trigger] without_names(g, names)[k],
            ) && !names.contains(without_names(g, names)[k].name),
{
    let kept = without_names(g, names);
    g.lemma_filter_len(not_named(names));
    assert forall|k: int| 0 <= k < kept.len() implies g.contains(#[trigger] kept[k])
        && !names.contains(kept[k].name) by {
        g.lemma_filter_pred(not_named(names), k);
        assert(kept.contains(kept[k]));
        g.lemma_filter_contains_rev(not_named(names), kept[k]);
    }
}

/// Removing names from the empty store leaves it empty; from a store with a
/// last group, it is the removal from the groups before it, followed by what
/// is left of the last group, if anything is.
pub proof fn lemma_remove_names_step(ms: Store, names: Seq<Seq<char>>)
    ensures
        ms.len() == 0 ==> remove_names(ms, names) == Seq::<Seq<FileSourceView>>::empty(),
        ms.len() > 0 ==> remove_names(ms, names) == if without_names(ms.last(), names).len() > 0 {
            remove_names(ms.drop_last(), names).push(without_names(ms.last(), names))
        } else {
            remove_names(ms.drop_last(), names)
        },
{
    reveal(Seq::filter);
    if ms.len() > 0 {
        assert(strip_names(ms, names).drop_last() =~= strip_names(ms.drop_last(), names));
        assert(strip_names(ms, names).last() == without_names(ms.last(), names));
    } else {
        assert(remove_names(ms, names) =~= Seq::<Seq<FileSourceView>>::empty());
    }
}

/// Each group left by a removal holds a source, and there are no more of them
/// than before.
pub proof fn lemma_remove_remains(ms: Store, names: Seq<Seq<char>>)
    ensures
        no_empty_group(remove_names(ms, names)),
        remove_names(ms, names).len() <= ms.len(),
    decreases ms.len(),
{
    lemma_remove_names_step(ms, names);
    if ms.len() > 0 {
        let before = ms.drop_last();
        lemma_remove_remains(before, names);
        let left = remove_names(ms, names);
        assert forall|a: int| 0 <= a < left.len() implies (#[trigger] left[a]).len() > 0 by {
            if a < remove_names(before, names).len() {
                assert(left[a] == remove_names(before, names)[a]);
            }
        }
    }
}

/// What is left of a group of a well-formed store, if anything, carries the
/// group's origin identifier throughout.
pub proof fn lemma_remains_uniform(ms: Store, names: Seq<Seq<char>>, i: int)
    requires
        well_formed(ms),
        0 <= i < ms.len(),
    ensures
        forall|k: int|
            0 <= k < without_names(ms[i], names).len() ==> (#[trigger] without_names(
                ms[i],
                names,
            )[k]).metasource == ms[i][0].metasource,
{
    let kept = without_names(ms[i], names);
    lemma_without_names(ms[i], names);
    assert forall|k: int| 0 <= k < kept.len() implies (#[trigger] kept[k]).metasource
        == ms[i][0].metasource by {
        assert(ms[i].contains(kept[k]));
        let j = choose|j: int| 0 <= j < ms[i].len() && ms[i][j] == kept[k];
        assert(ms[i][j].metasource == ms[i][0].metasource);
    }
}

/// Removing sources keeps the store well formed: a group that loses all its
/// sources goes with them.
pub proof fn lemma_remove_well_formed(ms: Store, names: Seq<Seq<char>>)
    requires
        well_formed(ms),
    ensures
        well_formed(remove_names(ms, names)),
{
    let left = remove_names(ms, names);
    lemma_remove_remains(ms, names);
    lemma_remove_order(ms, names);
    assert forall|a: int, b: int| 0 <= a < left.len() && 0 <= b < left[a].len() implies (
    #[trigger] left[a][b]).metasource == left[a][0].metasource by {
        let i = origin_of(ms, names, a);
        assert(remains_of(left[a], ms, names, i));
        lemma_remains_uniform(ms, names, i);
    }
    assert forall|a: int, b: int|
        0 <= a < left.len() && 0 <= b < left.len() && a != b implies (
    #[trigger] left[a])[0].metasource != (#[trigger] left[b])[0].metasource by {
        let i = origin_of(ms, names, a);
        let k = origin_of(ms, names, b);
        assert(remains_of(left[a], ms, names, i));
        assert(remains_of(left[b], ms, names, k));
        assert(i != k) by {
            if a < b {
                assert(origin_of(ms, names, a) < origin_of(ms, names, b));
            } else {
                assert(origin_of(ms, names, b) < origin_of(ms, names, a));
            }
        }
        lemma_remains_uniform(ms, names, i);
        lemma_remains_uniform(ms, names, k);
        assert(ms[i][0].metasource != ms[k][0].metasource);
    }
}

/// The index in `ms` of the group that group `a` of the removal's result
/// stems from.
pub open spec fn origin_of(ms: Store, names: Seq<Seq<char>>, a: int) -> int
    decreases ms.len(),
{
    if ms.len() == 0 {
        0
    } else if a < remove_names(ms.drop_last(), names).len() {
        origin_of(ms.drop_last(), names, a)
    } else {
        ms.len() - 1
    }
}

/// The groups left by a removal stem from groups of the store, in the
/// store's order.
pub proof fn lemma_remove_order(ms: Store, names: Seq<Seq<char>>)
    ensures
        forall|a: int|
            0 <= a < remove_names(ms, names).len() ==> remains_of(
                #[trigger] remove_names(ms, names)[a],
                ms,
                names,
                origin_of(ms, names, a),
            ),
        forall|a: int, b: int|
            0 <= a < b < remove_names(ms, names).len() ==> #[trigger] origin_of(ms, names, a)
                < #[trigger] origin_of(ms, names, b),
    decreases ms.len(),
{
    lemma_remove_names_step(ms, names);
    if ms.len() > 0 {
        let before = ms.drop_last();
        lemma_remove_order(before, names);
        lemma_remove_remains(before, names);
        let left = remove_names(ms, names);
        assert forall|a: int| 0 <= a < left.len() implies remains_of(
            #[trigger] left[a],
            ms,
            names,
            origin_of(ms, names, a),
        ) by {
            if a < remove_names(before, names).len() {
                let i = origin_of(before, names, a);
                assert(remains_of(remove_names(before, names)[a], before, names, i));
                assert(before[i] == ms[i]);
            }
        }
        assert forall|a: int, b: int| 0 <= a < b < left.len() implies #[trigger] origin_of(
            ms,
            names,
            a,
        ) < #[trigger] origin_of(ms, names, b) by {
            let shorter = remove_names(before, names).len();
            if b < shorter {
                assert(origin_of(before, names, a) < origin_of(before, names, b));
            } else {
                let i = origin_of(before, names, a);
                assert(remains_of(remove_names(before, names)[a], before, names, i));
            }
        }
    }
}

/// A source is named in the store exactly if it is named in one of the
/// groups.
pub proof fn lemma_has_name(ms: Store, name: Seq<char>)
    ensures
        has_name(ms, name) <==> exists|i: int, j: int| named_at(ms, name, i, j),
    decreases ms.len(),
{
    if ms.len() == 0 {
        assert(ms.flatten() =~= Seq::<FileSourceView>::empty());
        assert(names_of(ms.flatten()) =~= Seq::<Seq<char>>::empty());
    } else {
        let before = ms.drop_last();
        let last = ms.last();
        lemma_has_name(before, name);
        assert(ms =~= before.push(last));
        before.lemma_flatten_push(last);
        let flat = ms.flatten();
        assert(flat =~= before.flatten() + last);
        if has_name(ms, name) {
            let k = choose|k: int| 0 <= k < names_of(flat).len() && names_of(flat)[k] == name;
            if k < before.flatten().len() {
                assert(names_of(before.flatten())[k] == name);
                assert(has_name(before, name));
                let (i, j) = choose|i: int, j: int| named_at(before, name, i, j);
                assert(named_at(ms, name, i, j));
            } else {
                assert(named_at(ms, name, ms.len() - 1, k - before.flatten().len()));
            }
        }
        if exists|i: int, j: int| named_at(ms, name, i, j) {
            let (i, j) = choose|i: int, j: int| named_at(ms, name, i, j);
            if i < ms.len() - 1 {
                assert(named_at(before, name, i, j));
                assert(has_name(before, name));
                let k = choose|k: int|
                    0 <= k < names_of(before.flatten()).len() && names_of(before.flatten())[k]
                        == name;
                assert(names_of(flat)[k] == name);
            } else {
                assert(names_of(flat)[before.flatten().len() + j] == name);
            }
        }
    }
}

/// A source that was added is in the store, and so is every source that was
/// there before.
pub proof fn lemma_add_has_name(ms: Store, s: FileSourceView, name: Seq<char>)
    ensures
        has_name(add_source(ms, s), s.name),
        has_name(ms, name) ==> has_name(add_source(ms, s), name),
{
    lemma_group_index_from(ms, s.metasource, 0);
    let after = add_source(ms, s);
    let i = group_index(ms, s.metasource);
    lemma_has_name(after, s.name);
    lemma_has_name(after, name);
    lemma_has_name(ms, name);
    if i < ms.len() {
        assert(named_at(after, s.name, i, ms[i].len() as int));
    } else {
        assert(named_at(after, s.name, ms.len() as int, 0));
    }
    if has_name(ms, name) {
        let (a, b) = choose|a: int, b: int| named_at(ms, name, a, b);
        assert(named_at(after, name, a, b));
    }
}

/// After a removal no source of the store goes by a removed name.
pub proof fn law_removed_names_are_gone(ms: Store, names: Seq<Seq<char>>, name: Seq<char>)
    requires
        names.contains(name),
    ensures
        !has_name(remove_names(ms, names), name),
{
    let left = remove_names(ms, names);
    lemma_has_name(left, name);
    lemma_remove_order(ms, names);
    if exists|i: int, j: int| named_at(left, name, i, j) {
        let (i, j) = choose|i: int, j: int| named_at(left, name, i, j);
        let origin = origin_of(ms, names, i);
        assert(remains_of(left[i], ms, names, origin));
        lemma_without_names(ms[origin], names);
        assert(!names.contains(without_names(ms[origin], names)[j].name));
    }
}

/// A removal leaves the other sources in the store.
pub proof fn law_others_stay(ms: Store, names: Seq<Seq<char>>, name: Seq<char>)
    requires
        has_name(ms, name),
        !names.contains(name),
    ensures
        has_name(remove_names(ms, names), name),
    decreases ms.len(),
{
    lemma_has_name(ms, name);
    lemma_remove_names_step(ms, names);
    let (i, j) = choose|i: int, j: int| named_at(ms, name, i, j);
    let before = ms.drop_last();
    let left = remove_names(ms, names);
    lemma_has_name(left, name);
    if i < ms.len() - 1 {
        assert(named_at(before, name, i, j));
        lemma_has_name(before, name);
        law_others_stay(before, names, name);
        lemma_has_name(remove_names(before, names), name);
        let (a, b) = choose|a: int, b: int| named_at(remove_names(before, names), name, a, b);
        assert(named_at(left, name, a, b));
    } else {
        let kept = without_names(ms.last(), names);
        assert(not_named(names)(ms.last()[j]));
        ms.last().lemma_filter_contains(not_named(names), j);
        let b = choose|b: int| 0 <= b < kept.len() && kept[b] == ms.last()[j];
        assert(named_at(left, name, left.len() - 1, b));
    }
}

/// Two sources of one origin, added one after the other, stand side by side at
/// the end of one group, and the second addition makes no new group.
pub proof fn law_same_origin_same_group(ms: Store, a: FileSourceView, b: FileSourceView)
    requires
        a.metasource == b.metasource,
    ensures
        ({
            let first = add_source(ms, a);
            let both = add_source(first, b);
            let i = group_index(both, a.metasource);
            &&& both.len() == first.len()
            &&& 0 <= i < both.len()
            &&& both[i].len() >= 2
            &&& at_place(both[i], 0) == b
            &&& at_place(both[i], 1) == a
        }),
{
    let first = add_source(ms, a);
    let both = add_source(first, b);
    let id = a.metasource;
    lemma_group_index_from(ms, id, 0);
    let i = group_index(ms, id);
    lemma_group_index_from(first, id, 0);
    let k = group_index(first, id);
    assert(k == i) by {
        if k < i {
            assert(first[k] == ms[k]);
        } else if i < k {
            assert(first[i].len() > 0 && first[i][0].metasource == id);
        }
    }
    lemma_group_index_from(both, id, 0);
    let n = group_index(both, id);
    assert(n == i) by {
        if n < i {
            assert(both[n] == first[n]);
        } else if i < n {
            assert(both[i].len() > 0 && both[i][0].metasource == id);
        }
    }
}

/// When every source of a group is removed, the group goes with them: no
/// group of its origin is left, and none of its sources.
pub proof fn law_emptied_group_is_removed(ms: Store, names: Seq<Seq<char>>, i: int)
    requires
        well_formed(ms),
        0 <= i < ms.len(),
        forall|j: int| 0 <= j < ms[i].len() ==> names.contains(#[trigger] ms[i][j].name),
    ensures
        group_index(remove_names(ms, names), ms[i][0].metasource) == remove_names(ms, names).len(),
        forall|j: int| 0 <= j < ms[i].len() ==> !has_name(
            remove_names(ms, names),
            #[trigger] ms[i][j].name,
        ),
{
    let left = remove_names(ms, names);
    let id = ms[i][0].metasource;
    lemma_remove_order(ms, names);
    lemma_remove_remains(ms, names);
    lemma_group_index_from(left, id, 0);
    let found = group_index(left, id);
    if found < left.len() {
        let origin = origin_of(ms, names, found);
        assert(remains_of(left[found], ms, names, origin));
        lemma_remains_uniform(ms, names, origin);
        lemma_without_names(ms[origin], names);
        if origin == i {
            let kept = without_names(ms[i], names);
            assert(ms[i].contains(kept[0]));
            let j = choose|j: int| 0 <= j < ms[i].len() && ms[i][j] == kept[0];
            assert(names.contains(ms[i][j].name));
        } else {
            assert(ms[origin][0].metasource != ms[i][0].metasource);
        }
    }
    assert forall|j: int| 0 <= j < ms[i].len() implies !has_name(left, #[trigger] ms[i][j].name) by {
        law_removed_names_are_gone(ms, names, ms[i][j].name);
    }
}

/// A source that is added to a group takes the first place of the group's
/// search order, and each source of the group moves one place back.
pub proof fn law_newest_is_searched_first(ms: Store, s: FileSourceView, place: int)
    requires
        group_index(ms, s.metasource) < ms.len(),
        0 <= place < ms[group_index(ms, s.metasource)].len(),
    ensures
        at_place(add_source(ms, s)[group_index(ms, s.metasource)], 0) == s,
        at_place(add_source(ms, s)[group_index(ms, s.metasource)], place + 1) == at_place(
            ms[group_index(ms, s.metasource)],
            place,
        ),
{
    lemma_group_index_from(ms, s.metasource, 0);
}

/// Of two places in a group's search order, the earlier holds the source that
/// was added later.
pub proof fn law_search_order_is_newest_first(g: Seq<FileSourceView>, p: int, q: int)
    requires
        0 <= p < q < g.len(),
    ensures
        exists|i: int, k: int|
            0 <= k < i < g.len() && at_place(g, p) == #[trigger] g[i] && at_place(g, q)
                == #[trigger] g[k],
{
    assert(at_place(g, p) == g[g.len() - 1 - p]);
    assert(at_place(g, q) == g[g.len() - 1 - q]);
}

/// An update puts the new source at the place of the one that it matches, and
/// leaves every other place of the store as it was.
pub proof fn law_update_replaces(ms: Store, s: FileSourceView)
    requires
        update_source(ms, s) is Some,
    ensures
        ({
            let after = update_source(ms, s).unwrap();
            let i = group_index(ms, s.metasource);
            let j = position_from(ms[i], s, 0);
            &&& 0 <= i < ms.len()
            &&& 0 <= j < ms[i].len()
            &&& ms[i][j].same_identity(s)
            &&& after.len() == ms.len()
            &&& after[i][j] == s
            &&& forall|a: int|
                0 <= a < ms.len() ==> (#[trigger] after[a]).len() == ms[a].len()
            &&& forall|a: int, b: int|
                0 <= a < ms.len() && 0 <= b < ms[a].len() && !(a == i && b == j)
                    ==> #[trigger] after[a][b] == ms[a][b]
        }),
{
    lemma_group_index_from(ms, s.metasource, 0);
    let i = group_index(ms, s.metasource);
    lemma_position_from(ms[i], s, 0);
}

/// An update changes no name: what the store holds goes by the same names
/// after it.
pub proof fn law_update_keeps_names(ms: Store, s: FileSourceView, name: Seq<char>)
    requires
        update_source(ms, s) is Some,
    ensures
        has_name(update_source(ms, s).unwrap(), name) <==> has_name(ms, name),
{
    let after = update_source(ms, s).unwrap();
    law_update_replaces(ms, s);
    lemma_has_name(ms, name);
    lemma_has_name(after, name);
    let i = group_index(ms, s.metasource);
    let j = position_from(ms[i], s, 0);
    if exists|a: int, b: int| named_at(ms, name, a, b) {
        let (a, b) = choose|a: int, b: int| named_at(ms, name, a, b);
        assert(after[a].len() == ms[a].len());
        assert(after[a][b].name == ms[a][b].name);
        assert(named_at(after, name, a, b));
    }
    if exists|a: int, b: int| named_at(after, name, a, b) {
        let (a, b) = choose|a: int, b: int| named_at(after, name, a, b);
        assert(after[a].len() == ms[a].len());
        assert(after[a][b].name == ms[a][b].name);
        assert(named_at(ms, name, a, b));
    }
}

/// A source is added at the end of the group of its origin, where the store
/// has one: the first group that carries the origin's identifier. No group is
/// made or moved, and no other group changes.
pub proof fn law_add_appends_to_its_group(ms: Store, s: FileSourceView, g: int)
    requires
        0 <= g < ms.len(),
        ms[g].len() > 0,
        ms[g][0].metasource == s.metasource,
        forall|k: int| 0 <= k < g ==> (#[trigger] ms[k]).len() == 0 || ms[k][0].metasource
            != s.metasource,
    ensures
        add_source(ms, s) == ms.update(g, ms[g].push(s)),
        add_source(ms, s).len() == ms.len(),
        add_source(ms, s)[g].last() == s,
        forall|k: int| 0 <= k < ms.len() && k != g ==> #[trigger] add_source(ms, s)[k] == ms[k],
{
    lemma_group_index_from(ms, s.metasource, 0);
    let found = group_index(ms, s.metasource);
    if found < g {
        assert(ms[found].len() == 0 || ms[found][0].metasource != s.metasource);
    }
}

/// In a well-formed store the group of an origin is the one group that
/// carries its identifier, so a source is added at the end of that group.
pub proof fn law_add_appends_in_well_formed(ms: Store, s: FileSourceView, g: int)
    requires
        well_formed(ms),
        0 <= g < ms.len(),
        ms[g][0].metasource == s.metasource,
    ensures
        add_source(ms, s) == ms.update(g, ms[g].push(s)),
{
    assert forall|k: int| 0 <= k < g implies (#[trigger] ms[k]).len() == 0 || ms[k][0].metasource
        != s.metasource by {
        assert(ms[k][0].metasource != ms[g][0].metasource);
    }
    law_add_appends_to_its_group(ms, s, g);
}

/// The place of a source in the list of all sources, group after group.
pub open spec fn place_index(ms: Store, i: int, j: int) -> int {
    ms.take(i).flatten().len() + j
}

/// Whether place `k` of the list of all sources is place `j` of group `i`.
pub open spec fn is_place(ms: Store, k: int, i: int, j: int) -> bool {
    0 <= i < ms.len() && 0 <= j < ms[i].len() && place_index(ms, i, j) == k
}

/// The list of all sources holds each source of each group, at its place.
pub proof fn lemma_place(ms: Store, i: int, j: int)
    requires
        0 <= i < ms.len(),
        0 <= j < ms[i].len(),
    ensures
        0 <= place_index(ms, i, j) < ms.flatten().len(),
        ms.flatten()[place_index(ms, i, j)] == ms[i][j],
    decreases ms.len(),
{
    let before = ms.drop_last();
    assert(ms =~= before.push(ms.last()));
    before.lemma_flatten_push(ms.last());
    if i == ms.len() - 1 {
        assert(ms.take(i) =~= before);
    } else {
        assert(ms.take(i) =~= before.take(i));
        lemma_place(before, i, j);
    }
}

/// Each place of the list of all sources is a place of a group.
pub proof fn lemma_place_of(ms: Store, k: int)
    requires
        0 <= k < ms.flatten().len(),
    ensures
        exists|i: int, j: int| is_place(ms, k, i, j),
    decreases ms.len(),
{
    if ms.len() == 0 {
        assert(ms.flatten() =~= Seq::<FileSourceView>::empty());
    } else {
        let before = ms.drop_last();
        assert(ms =~= before.push(ms.last()));
        before.lemma_flatten_push(ms.last());
        if k < before.flatten().len() {
            lemma_place_of(before, k);
            let (i, j) = choose|i: int, j: int| is_place(before, k, i, j);
            assert(ms.take(i) =~= before.take(i));
            assert(is_place(ms, k, i, j));
        } else {
            assert(ms.take(ms.len() - 1) =~= before);
            assert(is_place(ms, k, ms.len() - 1, k - before.flatten().len()));
        }
    }
}

/// The places of a group come before the places of every later group.
pub proof fn lemma_places_in_order(ms: Store, i: int, a: int)
    requires
        0 <= i < a <= ms.len(),
    ensures
        place_index(ms, i, 0) + ms[i].len() <= place_index(ms, a, 0),
    decreases a - i,
{
    assert(ms.take(a) =~= ms.take(a - 1).push(ms[a - 1]));
    ms.take(a - 1).lemma_flatten_push(ms[a - 1]);
    if i < a - 1 {
        lemma_places_in_order(ms, i, a - 1);
    }
}

/// What the search for a name in a list returns: an index at or after `from`,
/// the first there whose source goes by the name.
pub proof fn lemma_named_from(g: Seq<FileSourceView>, name: Seq<char>, from: int)
    requires
        0 <= from <= g.len(),
    ensures
        from <= named_from(g, name, from) <= g.len(),
        named_from(g, name, from) < g.len() ==> g[named_from(g, name, from)].name == name,
        forall|k: int| from <= k < named_from(g, name, from) ==> (#[trigger] g[k]).name != name,
    decreases g.len() - from,
{
    if from < g.len() && g[from].name != name {
        lemma_named_from(g, name, from + 1);
    }
}

/// After an update the first source of the updated name, in the order of the
/// groups, is the new source, where no source before the replaced one goes
/// by that name. (Where one does, that one is the first of the name, before
/// and after.)
pub proof fn law_update_is_found_by_name(ms: Store, s: FileSourceView)
    requires
        update_source(ms, s) is Some,
        forall|a: int, b: int|
            0 <= a < ms.len() && 0 <= b < ms[a].len() && (a < group_index(ms, s.metasource) || (a
                == group_index(ms, s.metasource) && b < position_from(
                ms[group_index(ms, s.metasource)],
                s,
                0,
            ))) ==> (#[trigger] ms[a][b]).name != s.name,
    ensures
        ({
            let all = update_source(ms, s).unwrap().flatten();
            let at = named_from(all, s.name, 0);
            &&& 0 <= at < all.len()
            &&& all[at] == s
            &&& all.len() == ms.flatten().len()
            &&& at == place_index(
                ms,
                group_index(ms, s.metasource),
                position_from(ms[group_index(ms, s.metasource)], s, 0),
            )
        }),
{
    let after = update_source(ms, s).unwrap();
    law_update_replaces(ms, s);
    let i = group_index(ms, s.metasource);
    let j = position_from(ms[i], s, 0);
    let all = after.flatten();
    let at = named_from(all, s.name, 0);
    lemma_place(after, i, j);
    let p = place_index(after, i, j);
    lemma_named_from(all, s.name, 0);
    assert(at <= p) by {
        if p < at {
            assert(all[p].name != s.name);
        }
    }
    if at < p {
        lemma_place_of(after, at);
        let (a, b) = choose|a: int, b: int| is_place(after, at, a, b);
        lemma_place(after, a, b);
        assert(after[a].len() == ms[a].len());
        if a > i {
            lemma_places_in_order(after, i, a);
        }
        assert(a < i || (a == i && b < j));
        assert(after[a][b] == ms[a][b]);
        assert(ms[a][b].name != s.name);
    }
    lemma_same_lengths_same_places(ms, after, i);
    lemma_same_lengths_same_places(ms, after, ms.len() as int);
    assert(ms.take(ms.len() as int) =~= ms);
    assert(after.take(after.len() as int) =~= after);
}

/// Two stores with groups of the same lengths have their places at the same
/// indices.
pub proof fn lemma_same_lengths_same_places(one: Store, other: Store, upto: int)
    requires
        one.len() == other.len(),
        0 <= upto <= one.len(),
        forall|a: int| 0 <= a < one.len() ==> (#[trigger] one[a]).len() == other[a].len(),
    ensures
        one.take(upto).flatten().len() == other.take(upto).flatten().len(),
    decreases upto,
{
    if upto == 0 {
        assert(one.take(0) =~= Seq::<Seq<FileSourceView>>::empty());
        assert(other.take(0) =~= Seq::<Seq<FileSourceView>>::empty());
    } else {
        lemma_same_lengths_same_places(one, other, upto - 1);
        assert(one.take(upto) =~= one.take(upto - 1).push(one[upto - 1]));
        assert(other.take(upto) =~= other.take(upto - 1).push(other[upto - 1]));
        one.take(upto - 1).lemma_flatten_push(one[upto - 1]);
        other.take(upto - 1).lemma_flatten_push(other[upto - 1]);
    }
}

} // verus!

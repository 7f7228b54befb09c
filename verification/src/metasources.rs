//! The store of sources, grouped by origin and ordered by priority.
//!
//! A later group has priority over an earlier one. Inside a group a source
//! that was added later overrides one that was added earlier.
use vstd::prelude::*;
use crate::source::{FileSource, FileSourceView, ResourceId};
use crate::text::{holds_string, texts};

verus! {

/// The mathematical value of a store: its groups in order of registration,
/// each with its sources in order of registration.
pub type Store = Seq<Seq<FileSourceView>>;

/// The views of the sources of one group.
pub open spec fn group_view(g: Seq<FileSource>) -> Seq<FileSourceView> {
    g.map_values(|s: FileSource| s@)
}

/// The views of the groups of a store.
pub open spec fn store_view(v: Seq<Vec<FileSource>>) -> Store {
    v.map_values(|g: Vec<FileSource>| group_view(g@))
}

/// The views of a list of borrowed sources.
pub open spec fn ref_views(v: Seq<&FileSource>) -> Seq<FileSourceView> {
    v.map_values(|s: &FileSource| s@)
}

/// The names of a list of sources.
pub open spec fn names_of(g: Seq<FileSourceView>) -> Seq<Seq<char>> {
    g.map_values(|s: FileSourceView| s.name)
}

/// The source at a place of a group's search order: place 0 is the source
/// that was added last.
pub open spec fn at_place(g: Seq<FileSourceView>, place: int) -> FileSourceView
    recommends
        0 <= place < g.len(),
{
    g[g.len() - 1 - place]
}

/// No group of the store is empty.
pub open spec fn no_empty_group(ms: Store) -> bool {
    forall|i: int| 0 <= i < ms.len() ==> (#[trigger] ms[i]).len() > 0
}

/// All sources of a group carry the group's origin identifier.
pub open spec fn groups_uniform(ms: Store) -> bool {
    forall|i: int, j: int|
        0 <= i < ms.len() && 0 <= j < ms[i].len() ==> (#[trigger] ms[i][j]).metasource
            == ms[i][0].metasource
}

/// No two groups carry the same origin identifier.
pub open spec fn groups_distinct(ms: Store) -> bool {
    forall|i: int, k: int|
        0 <= i < ms.len() && 0 <= k < ms.len() && i != k ==> (#[trigger] ms[i])[0].metasource != (
        #[trigger] ms[k])[0].metasource
}

/// What registration keeps true of a store: each group is non-empty and holds
/// the sources of one origin, and each origin has one group.
pub open spec fn well_formed(ms: Store) -> bool {
    no_empty_group(ms) && groups_uniform(ms) && groups_distinct(ms)
}

/// The index of the first group at or after `from` whose first source carries
/// the origin identifier `id`; the number of groups where there is none. An
/// empty group belongs to no origin.
pub open spec fn group_index_from(ms: Store, id: Seq<char>, from: int) -> int
    decreases ms.len() - from,
{
    if from < 0 || from >= ms.len() {
        ms.len() as int
    } else if ms[from].len() > 0 && ms[from][0].metasource == id {
        from
    } else {
        group_index_from(ms, id, from + 1)
    }
}

/// The index of the group of origin `id`; the number of groups where there is
/// none.
pub open spec fn group_index(ms: Store, id: Seq<char>) -> int {
    group_index_from(ms, id, 0)
}

/// The index of the first source at or after `from` that has the identity of
/// `s`; the length of the group where there is none.
pub open spec fn position_from(g: Seq<FileSourceView>, s: FileSourceView, from: int) -> int
    decreases g.len() - from,
{
    if from < 0 || from >= g.len() {
        g.len() as int
    } else if g[from].same_identity(s) {
        from
    } else {
        position_from(g, s, from + 1)
    }
}

/// The index of the first source of the group named `name`; the length of the
/// group where there is none.
pub open spec fn named_from(g: Seq<FileSourceView>, name: Seq<char>, from: int) -> int
    decreases g.len() - from,
{
    if from < 0 || from >= g.len() {
        g.len() as int
    } else if g[from].name == name {
        from
    } else {
        named_from(g, name, from + 1)
    }
}

/// The store after a source was added: at the end of its origin's group, or
/// alone in a new last group.
pub open spec fn add_source(ms: Store, s: FileSourceView) -> Store {
    let i = group_index(ms, s.metasource);
    if i < ms.len() {
        ms.update(i, ms[i].push(s))
    } else {
        ms.push(seq![s])
    }
}

/// The store after the source with the identity of `s` was replaced by `s`;
/// `None` where the group of its origin holds no such source.
pub open spec fn update_source(ms: Store, s: FileSourceView) -> Option<Store> {
    let i = group_index(ms, s.metasource);
    if i < ms.len() {
        let j = position_from(ms[i], s, 0);
        if j < ms[i].len() {
            Some(ms.update(i, ms[i].update(j, s)))
        } else {
            None
        }
    } else {
        None
    }
}

/// The test that a source's name is not among `names`.
pub open spec fn not_named(names: Seq<Seq<char>>) -> spec_fn(FileSourceView) -> bool {
    |s: FileSourceView| !names.contains(s.name)
}

/// The test that a group holds a source.
pub open spec fn not_empty() -> spec_fn(Seq<FileSourceView>) -> bool {
    |g: Seq<FileSourceView>| g.len() > 0
}

/// The test that a source is not known to lack a file.
pub open spec fn may_supply(locale: Seq<char>, resource: Seq<char>) -> spec_fn(
    FileSourceView,
) -> bool {
    |s: FileSourceView| s.may_have(locale, resource)
}

/// The sources of a group whose name is not among `names`.
pub open spec fn without_names(g: Seq<FileSourceView>, names: Seq<Seq<char>>) -> Seq<
    FileSourceView,
> {
    g.filter(not_named(names))
}

/// The groups of a store that are not empty.
pub open spec fn without_empty(ms: Store) -> Store {
    ms.filter(not_empty())
}

/// Each group of a store without the sources named in `names`.
pub open spec fn strip_names(ms: Store, names: Seq<Seq<char>>) -> Store {
    ms.map_values(|g: Seq<FileSourceView>| without_names(g, names))
}

/// The store after the sources named in `names` were removed, and with them
/// the groups that they leave empty.
pub open spec fn remove_names(ms: Store, names: Seq<Seq<char>>) -> Store {
    without_empty(strip_names(ms, names))
}

/// The sources of a group that are not known to lack a file.
pub open spec fn candidates(g: Seq<FileSourceView>, locale: Seq<char>, resource: Seq<char>) -> Seq<
    FileSourceView,
> {
    g.filter(may_supply(locale, resource))
}

/// Whether the source at place `j` of group `i` goes by `name`.
pub open spec fn named_at(ms: Store, name: Seq<char>, i: int, j: int) -> bool {
    0 <= i < ms.len() && 0 <= j < ms[i].len() && ms[i][j].name == name
}

/// Whether a group is what is left of group `i` of `ms` without `names`.
pub open spec fn remains_of(g: Seq<FileSourceView>, ms: Store, names: Seq<Seq<char>>, i: int) -> bool {
    0 <= i < ms.len() && g == without_names(ms[i], names)
}

/// Whether some source of the store goes by `name`.
pub open spec fn has_name(ms: Store, name: Seq<char>) -> bool {
    names_of(ms.flatten()).contains(name)
}

/// The prioritized groups of sources.
pub struct MetaSources(Vec<Vec<FileSource>>);

impl View for MetaSources {
    type V = Store;

    closed spec fn view(&self) -> Store {
        store_view(self.0@)
    }
}

/// A copy of a list of sources.
pub fn copy_sources(sources: &Vec<FileSource>) -> (res: Vec<FileSource>)
    ensures
        group_view(res@) == group_view(sources@),
{
    let mut res: Vec<FileSource> = Vec::new();
    let mut i: usize = 0;
    while i < sources.len()
        invariant
            i <= sources.len(),
            res@.len() == i,
            forall|k: int| 0 <= k < i ==> res@[k]@ == sources@[k]@,
        decreases sources.len() - i,
    {
        res.push(sources[i].clone());
        i += 1;
    }
    assert(group_view(res@) =~= group_view(sources@));
    res
}

impl Clone for MetaSources {
    fn clone(&self) -> (res: Self)
        ensures
            res@ == self@,
    {
        let mut groups: Vec<Vec<FileSource>> = Vec::new();
        let mut i: usize = 0;
        while i < self.0.len()
            invariant
                i <= self.0.len(),
                groups@.len() == i,
                forall|k: int| 0 <= k < i ==> group_view(groups@[k]@) == group_view(self.0@[k]@),
            decreases self.0.len() - i,
        {
            groups.push(copy_sources(&self.0[i]));
            i += 1;
        }
        let res = MetaSources(groups);
        assert(res@ =~= self@);
        res
    }
}

impl Default for MetaSources {
    fn default() -> (res: Self)
        ensures
            res@ == Seq::<Seq<FileSourceView>>::empty(),
    {
        let res = MetaSources(Vec::new());
        assert(res@ =~= Seq::<Seq<FileSourceView>>::empty());
        res
    }
}

impl MetaSources {
    /// The number of metasources.
    pub fn len(&self) -> (res: usize)
        ensures
            res == self@.len(),
    {
        self.0.len()
    }

    /// If there are no metasources.
    pub fn is_empty(&self) -> (res: bool)
        ensures
            res == (self@.len() == 0),
    {
        self.0.len() == 0
    }

    /// Clears out all metasources.
    pub fn clear(&mut self)
        ensures
            final(self)@ == Seq::<Seq<FileSourceView>>::empty(),
    {
        self.0.clear();
        assert(self@ =~= Seq::<Seq<FileSourceView>>::empty());
    }

    /// The index of the group of origin `id`, or the number of groups where
    /// there is none.
    fn find_group(&self, id: &String) -> (res: usize)
        ensures
            res == group_index(self@, id@),
            res <= self@.len(),
    {
        let mut i: usize = 0;
        while i < self.0.len()
            invariant
                i <= self.0.len(),
                group_index(self@, id@) == group_index_from(self@, id@, i as int),
            decreases self.0.len() - i,
        {
            assert(self@[i as int] == group_view(self.0@[i as int]@));
            if self.0[i].len() > 0 && self.0[i][0].metasource == *id {
                return i;
            }
            i += 1;
        }
        i
    }

    /// Adds a [`FileSource`] to its appropriate metasource.
    pub fn add_filesource(&mut self, new_source: FileSource)
        ensures
            final(self)@ == add_source(old(self)@, new_source@),
    {
        let i = self.find_group(&new_source.metasource);
        if i < self.0.len() {
            self.0[i].push(new_source);
            assert(self@ =~~= add_source(old(self)@, new_source@));
        } else {
            let mut group: Vec<FileSource> = Vec::new();
            group.push(new_source);
            self.0.push(group);
            assert(self@ =~~= add_source(old(self)@, new_source@));
        }
    }

    /// Replaces the source that has the identity of `new_source` by a copy of
    /// it. Returns whether the group of its origin held such a source; where it
    /// did not, the store is unchanged.
    pub fn update_filesource(&mut self, new_source: &FileSource) -> (res: bool)
        ensures
            res == update_source(old(self)@, new_source@).is_some(),
            res ==> final(self)@ == update_source(old(self)@, new_source@).unwrap(),
            !res ==> final(self)@ == old(self)@,
    {
        let i = self.find_group(&new_source.metasource);
        if i < self.0.len() {
            let ghost group = self@[i as int];
            let mut j: usize = 0;
            while j < self.0[i].len()
                invariant
                    i < self.0.len(),
                    i == group_index(old(self)@, new_source@.metasource),
                    j <= self.0[i as int].len(),
                    *self == *old(self),
                    group == self@[i as int],
                    group == group_view(self.0@[i as int]@),
                    position_from(group, new_source@, 0) == position_from(
                        group,
                        new_source@,
                        j as int,
                    ),
                decreases self.0[i as int].len() - j,
            {
                assert(group[j as int] == self.0@[i as int]@[j as int]@);
                if self.0[i][j].same_identity(new_source) {
                    let copy = new_source.clone();
                    self.0[i][j] = copy;
                    assert(self@ =~~= update_source(old(self)@, new_source@).unwrap());
                    return true;
                }
                j += 1;
            }
        }
        false
    }

    /// Get a [`FileSource`] by name from a metasource: the first of that name.
    pub fn file_source_by_name(&self, metasource_idx: usize, name: &str) -> (res: Option<
        &FileSource,
    >)
        requires
            metasource_idx < self@.len(),
        ensures
            ({
                let group = self@[metasource_idx as int];
                let j = named_from(group, name@, 0);
                match res {
                    Some(source) => j < group.len() && source@ == group[j],
                    None => j == group.len(),
                }
            }),
    {
        let wanted = name.to_owned();
        let metasource = self.metasource(metasource_idx);
        let ghost group = self@[metasource_idx as int];
        let mut j: usize = 0;
        while j < metasource.len()
            invariant
                j <= metasource.len(),
                wanted@ == name@,
                metasource_idx < self@.len(),
                group == self@[metasource_idx as int],
                group == group_view(metasource@),
                named_from(group, name@, 0) == named_from(group, name@, j as int),
            decreases metasource.len() - j,
        {
            assert(group[j as int] == metasource@[j as int]@);
            if metasource[j].name == wanted {
                return Some(&metasource[j]);
            }
            j += 1;
        }
        None
    }

    /// All sources of all metasources, group after group.
    pub fn filesources(&self) -> (res: Vec<&FileSource>)
        ensures
            ref_views(res@) == self@.flatten(),
    {
        let mut res: Vec<&FileSource> = Vec::new();
        let mut i: usize = 0;
        assert(self@.take(0) =~= Seq::<Seq<FileSourceView>>::empty());
        assert(ref_views(res@) =~= self@.take(0).flatten());
        while i < self.0.len()
            invariant
                i <= self.0.len(),
                ref_views(res@) == self@.take(i as int).flatten(),
            decreases self.0.len() - i,
        {
            let group = &self.0[i];
            let ghost before = ref_views(res@);
            let mut j: usize = 0;
            while j < group.len()
                invariant
                    j <= group.len(),
                    i < self.0.len(),
                    group == &self.0[i as int],
                    ref_views(res@) =~= before + group_view(group@).take(j as int),
                decreases group.len() - j,
            {
                let ghost prev = res@;
                res.push(&group[j]);
                assert(ref_views(res@) =~= ref_views(prev).push(group@[j as int]@));
                assert(group_view(group@).take(j + 1) =~= group_view(group@).take(j as int).push(
                    group@[j as int]@,
                ));
                j += 1;
            }
            proof {
                assert(group_view(group@).take(j as int) =~= self@[i as int]);
                assert(self@.take(i + 1) =~= self@.take(i as int).push(self@[i as int]));
                self@.take(i as int).lemma_flatten_push(self@[i as int]);
            }
            i += 1;
        }
        assert(self@.take(i as int) =~= self@);
        res
    }

    /// Removes the groups that hold no source.
    pub fn clear_empty_metasources(&mut self)
        ensures
            final(self)@ == without_empty(old(self)@),
    {
        let mut groups: Vec<Vec<FileSource>> = Vec::new();
        std::mem::swap(&mut self.0, &mut groups);
        let ghost all = store_view(groups@);
        assert(all.take(0) =~= Seq::<Seq<FileSourceView>>::empty());
        for group in it: groups
            invariant
                all == store_view(it.seq()),
                self@ == without_empty(all.take(it.index() as int)),
        {
            let ghost k = it.index() as int;
            let ghost before = self@;
            proof {
                reveal(Seq::filter);
                assert(all.take(k + 1).drop_last() =~= all.take(k));
                assert(all.take(k + 1).last() == group_view(group@));
            }
            if group.len() > 0 {
                self.0.push(group);
                assert(self@ =~= before.push(group_view(group@)));
            }
        }
        assert(all.take(all.len() as int) =~= all);
    }

    /// The groups themselves, open to change. What is done to them is the
    /// store's new value.
    pub fn iter_mut(&mut self) -> (res: &mut Vec<Vec<FileSource>>)
        ensures
            store_view(res@) == old(self)@,
            final(self)@ == store_view(final(res)@),
    {
        &mut self.0
    }

    /// Removes the sources named in `names` from every group, and the groups
    /// that this leaves empty.
    pub fn remove_filesources(&mut self, names: &Vec<String>)
        ensures
            final(self)@ == remove_names(old(self)@, texts(names@)),
    {
        let mut groups: Vec<Vec<FileSource>> = Vec::new();
        std::mem::swap(&mut self.0, &mut groups);
        let ghost all = store_view(groups@);
        let ghost gone = texts(names@);
        let ghost stripped = strip_names(all, gone);
        assert(stripped.take(0) =~= Seq::<Seq<FileSourceView>>::empty());
        for group in it: groups
            invariant
                all == store_view(it.seq()),
                gone == texts(names@),
                stripped == strip_names(all, gone),
                self@ == without_empty(stripped.take(it.index() as int)),
        {
            let ghost k = it.index() as int;
            let ghost members = group_view(group@);
            let mut kept: Vec<FileSource> = Vec::new();
            assert(members.take(0) =~= Seq::<FileSourceView>::empty());
            assert(group_view(kept@) =~= without_names(members.take(0), gone));
            for source in inner: group
                invariant
                    members == group_view(inner.seq()),
                    gone == texts(names@),
                    group_view(kept@) == without_names(members.take(inner.index() as int), gone),
            {
                let ghost j = inner.index() as int;
                let ghost before = group_view(kept@);
                proof {
                    reveal(Seq::filter);
                    assert(members.take(j + 1).drop_last() =~= members.take(j));
                    assert(members.take(j + 1).last() == source@);
                }
                if !holds_string(names, &source.name) {
                    kept.push(source);
                    assert(group_view(kept@) =~= before.push(source@));
                }
            }
            assert(members.take(members.len() as int) =~= members);
            let ghost before = self@;
            proof {
                reveal(Seq::filter);
                assert(stripped.take(k + 1).drop_last() =~= stripped.take(k));
                assert(stripped.take(k + 1).last() == without_names(members, gone));
            }
            if kept.len() > 0 {
                self.0.push(kept);
                assert(self@ =~= before.push(without_names(members, gone)));
            }
        }
        assert(stripped.take(stripped.len() as int) =~= stripped);
    }

    /// The sources of a metasource that may supply a resource for a locale:
    /// those not known to lack it, in the order of the group.
    pub fn get_sources_for_resource(
        &self,
        metasource_idx: usize,
        langid: &String,
        resource_id: &ResourceId,
    ) -> (res: Vec<&FileSource>)
        requires
            metasource_idx < self@.len(),
        ensures
            ref_views(res@) == candidates(
                self@[metasource_idx as int],
                langid@,
                resource_id@.value,
            ),
    {
        let metasource = self.metasource(metasource_idx);
        let ghost group = self@[metasource_idx as int];
        let mut res: Vec<&FileSource> = Vec::new();
        let mut j: usize = 0;
        assert(group.take(0) =~= Seq::<FileSourceView>::empty());
        assert(ref_views(res@) =~= candidates(group.take(0), langid@, resource_id@.value));
        while j < metasource.len()
            invariant
                j <= metasource.len(),
                group == group_view(metasource@),
                ref_views(res@) == candidates(group.take(j as int), langid@, resource_id@.value),
            decreases metasource.len() - j,
        {
            let source = &metasource[j];
            let ghost before = ref_views(res@);
            proof {
                reveal(Seq::filter);
                assert(group.take(j + 1).drop_last() =~= group.take(j as int));
                assert(group.take(j + 1).last() == source@);
            }
            let known = source.has_file(langid, resource_id);
            if !matches!(known, Some(false)) {
                res.push(source);
                assert(ref_views(res@) =~= before.push(source@));
            }
            j += 1;
        }
        assert(group.take(j as int) =~= group);
        res
    }

    /// Get a metasource by index.
    pub fn metasource(&self, metasource_idx: usize) -> (res: &Vec<FileSource>)
        requires
            metasource_idx < self@.len(),
        ensures
            group_view(res@) == self@[metasource_idx as int],
    {
        &self.0[metasource_idx]
    }

    /// Get a [`FileSource`] from a metasource by its place in the search order:
    /// index 0 is the source that was added last.
    pub fn filesource(&self, metasource_idx: usize, filesource_idx: usize) -> (res: &FileSource)
        requires
            metasource_idx < self@.len(),
            filesource_idx < self@[metasource_idx as int].len(),
        ensures
            res@ == at_place(self@[metasource_idx as int], filesource_idx as int),
    {
        let metasource = self.metasource(metasource_idx);
        let reversed_idx = metasource.len() - 1 - filesource_idx;
        &metasource[reversed_idx]
    }
}

} // verus!

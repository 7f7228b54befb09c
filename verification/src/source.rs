//! Sources of localized resources and the identifiers used to request them.
use vstd::prelude::*;
use crate::text::{copy_strings, holds_string, texts};

verus! {

/// Whether a bundle can do without a resource.
#[derive(Clone, Copy, Debug, PartialEq, Eq, Structural)]
pub enum ResourceType {
    /// A bundle is not built without it.
    Required,
    /// A bundle is built without it where no source has it.
    Optional,
}

/// The logical name of one localizable resource.
#[derive(Debug, PartialEq, Eq)]
pub struct ResourceId {
    pub value: String,
    pub resource_type: ResourceType,
}

/// The mathematical value of a [`ResourceId`].
pub struct ResourceIdView {
    pub value: Seq<char>,
    pub resource_type: ResourceType,
}

impl View for ResourceId {
    type V = ResourceIdView;

    open spec fn view(&self) -> ResourceIdView {
        ResourceIdView { value: self.value@, resource_type: self.resource_type }
    }
}

impl Clone for ResourceId {
    fn clone(&self) -> (res: Self)
        ensures
            res@ == self@,
    {
        ResourceId { value: self.value.clone(), resource_type: self.resource_type }
    }
}

impl ResourceId {
    /// A resource identifier of the given kind.
    pub fn new(value: String, resource_type: ResourceType) -> (res: Self)
        ensures
            res@ == (ResourceIdView { value: value@, resource_type }),
    {
        ResourceId { value, resource_type }
    }

    /// Whether a bundle cannot do without this resource.
    pub fn is_required(&self) -> (res: bool)
        ensures
            res == (self@.resource_type == ResourceType::Required),
    {
        self.resource_type == ResourceType::Required
    }

    /// Whether a bundle can do without this resource.
    pub fn is_optional(&self) -> (res: bool)
        ensures
            res == (self@.resource_type == ResourceType::Optional),
    {
        self.resource_type == ResourceType::Optional
    }
}

/// The index of the first required resource at or after `from`; the number of
/// resources where none is required.
pub open spec fn first_required_from(ids: Seq<ResourceIdView>, from: int) -> int
    decreases ids.len() - from,
{
    if from < 0 || from >= ids.len() {
        ids.len() as int
    } else if ids[from].resource_type == ResourceType::Required {
        from
    } else {
        first_required_from(ids, from + 1)
    }
}

/// The index of the first required resource of a request; the number of
/// resources where none is required.
pub open spec fn first_required(ids: Seq<ResourceIdView>) -> int {
    first_required_from(ids, 0)
}

/// The index of the first required resource of a request; the number of
/// resources where none is required.
pub fn find_first_required(ids: &Vec<ResourceId>) -> (res: usize)
    ensures
        res == first_required(resource_views(ids@)),
        res <= ids@.len(),
        res < ids@.len() ==> ids@[res as int]@.resource_type == ResourceType::Required,
{
    let mut i: usize = 0;
    while i < ids.len()
        invariant
            i <= ids.len(),
            first_required(resource_views(ids@)) == first_required_from(
                resource_views(ids@),
                i as int,
            ),
        decreases ids.len() - i,
    {
        assert(resource_views(ids@)[i as int] == ids@[i as int]@);
        if ids[i].is_required() {
            return i;
        }
        i += 1;
    }
    i
}

/// The views of a list of resource identifiers.
pub open spec fn resource_views(v: Seq<ResourceId>) -> Seq<ResourceIdView> {
    v.map_values(|r: ResourceId| r@)
}

/// What a source is known to have, or to lack, for one locale and resource.
#[derive(Debug, PartialEq, Eq)]
pub struct FileStatus {
    pub locale: String,
    pub resource: String,
    pub present: bool,
}

/// The mathematical value of a [`FileStatus`].
pub struct FileStatusView {
    pub locale: Seq<char>,
    pub resource: Seq<char>,
    pub present: bool,
}

impl View for FileStatus {
    type V = FileStatusView;

    open spec fn view(&self) -> FileStatusView {
        FileStatusView { locale: self.locale@, resource: self.resource@, present: self.present }
    }
}

impl Clone for FileStatus {
    fn clone(&self) -> (res: Self)
        ensures
            res@ == self@,
    {
        FileStatus {
            locale: self.locale.clone(),
            resource: self.resource.clone(),
            present: self.present,
        }
    }
}

/// The views of a list of file statuses.
pub open spec fn status_views(v: Seq<FileStatus>) -> Seq<FileStatusView> {
    v.map_values(|f: FileStatus| f@)
}

/// What the first entry for a locale and resource says, if there is one.
pub open spec fn known_presence(
    files: Seq<FileStatusView>,
    locale: Seq<char>,
    resource: Seq<char>,
) -> Option<bool>
    decreases files.len(),
{
    if files.len() == 0 {
        None
    } else if files[0].locale == locale && files[0].resource == resource {
        Some(files[0].present)
    } else {
        known_presence(files.drop_first(), locale, resource)
    }
}

/// A named provider of localized resources, member of one origin group.
#[derive(Debug, PartialEq, Eq)]
pub struct FileSource {
    /// The name by which the registry finds the source.
    pub name: String,
    /// The origin group that the source belongs to.
    pub metasource: String,
    /// The locales that the source advertises.
    pub locales: Vec<String>,
    /// What has been learned of the source's files so far; a file without an
    /// entry has not been probed.
    pub files: Vec<FileStatus>,
}

/// The mathematical value of a [`FileSource`].
pub struct FileSourceView {
    pub name: Seq<char>,
    pub metasource: Seq<char>,
    pub locales: Seq<Seq<char>>,
    pub files: Seq<FileStatusView>,
}

impl View for FileSource {
    type V = FileSourceView;

    open spec fn view(&self) -> FileSourceView {
        FileSourceView {
            name: self.name@,
            metasource: self.metasource@,
            locales: texts(self.locales@),
            files: status_views(self.files@),
        }
    }
}

impl FileSourceView {
    /// Whether two sources go by the same name in the same origin group.
    pub open spec fn same_identity(self, other: FileSourceView) -> bool {
        self.name == other.name && self.metasource == other.metasource
    }

    /// What is known of a file: present, missing, or not probed yet.
    pub open spec fn has_file(self, locale: Seq<char>, resource: Seq<char>) -> Option<bool> {
        known_presence(self.files, locale, resource)
    }

    /// Whether the source may still supply a file: it is not known to lack it.
    pub open spec fn may_have(self, locale: Seq<char>, resource: Seq<char>) -> bool {
        self.has_file(locale, resource) != Some(false)
    }
}

impl Clone for FileSource {
    fn clone(&self) -> (res: Self)
        ensures
            res@ == self@,
    {
        let mut files: Vec<FileStatus> = Vec::new();
        let mut i: usize = 0;
        while i < self.files.len()
            invariant
                i <= self.files.len(),
                files.len() == i,
                forall|k: int| 0 <= k < i ==> files@[k]@ == self.files@[k]@,
            decreases self.files.len() - i,
        {
            files.push(self.files[i].clone());
            i += 1;
        }
        assert(status_views(files@) =~= status_views(self.files@));
        FileSource {
            name: self.name.clone(),
            metasource: self.metasource.clone(),
            locales: copy_strings(&self.locales),
            files,
        }
    }
}

impl FileSource {
    /// A source of which no file has been probed yet.
    pub fn new(name: String, metasource: String, locales: Vec<String>) -> (res: Self)
        ensures
            res@ == (FileSourceView {
                name: name@,
                metasource: metasource@,
                locales: texts(locales@),
                files: Seq::empty(),
            }),
    {
        let res = FileSource { name, metasource, locales, files: Vec::new() };
        assert(status_views(res.files@) =~= Seq::empty());
        res
    }

    /// Whether two sources go by the same name in the same origin group.
    pub fn same_identity(&self, other: &FileSource) -> (res: bool)
        ensures
            res == self@.same_identity(other@),
    {
        self.name == other.name && self.metasource == other.metasource
    }

    /// The locales that the source advertises.
    pub fn locales(&self) -> (res: &Vec<String>)
        ensures
            texts(res@) == self@.locales,
    {
        &self.locales
    }

    /// Whether the source advertises a locale.
    pub fn has_locale(&self, locale: &String) -> (res: bool)
        ensures
            res == self@.locales.contains(locale@),
    {
        holds_string(&self.locales, locale)
    }

    /// Notes that a file was found present or missing. A later note on the same
    /// file does not replace an earlier one.
    pub fn record(&mut self, locale: String, resource: String, present: bool)
        ensures
            final(self)@ == (FileSourceView {
                files: old(self)@.files.push(
                    FileStatusView { locale: locale@, resource: resource@, present },
                ),
                ..old(self)@
            }),
    {
        self.files.push(FileStatus { locale, resource, present });
        assert(status_views(self.files@) =~= status_views(old(self).files@).push(
            FileStatusView { locale: locale@, resource: resource@, present },
        ));
    }

    /// What is known of a file: `Some(true)` where it is present, `Some(false)`
    /// where it is missing, `None` where it has not been probed.
    pub fn has_file(&self, locale: &String, resource_id: &ResourceId) -> (res: Option<bool>)
        ensures
            res == self@.has_file(locale@, resource_id@.value),
    {
        let mut i: usize = 0;
        assert(self@.files.skip(0) =~= self@.files);
        while i < self.files.len()
            invariant
                i <= self.files.len(),
                known_presence(self@.files, locale@, resource_id@.value) == known_presence(
                    self@.files.skip(i as int),
                    locale@,
                    resource_id@.value,
                ),
            decreases self.files.len() - i,
        {
            let entry = &self.files[i];
            proof {
                let rest = self@.files.skip(i as int);
                assert(rest[0] == entry@);
                assert(rest.drop_first() =~= self@.files.skip(i + 1));
            }
            if entry.locale == *locale && entry.resource == resource_id.value {
                return Some(entry.present);
            }
            i += 1;
        }
        assert(self@.files.skip(i as int).len() == 0);
        None
    }
}

} // verus!

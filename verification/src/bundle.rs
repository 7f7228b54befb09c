//! Bundles: the resources that were chosen for one locale, put together.
use vstd::prelude::*;
use crate::source::{ResourceId, ResourceType};
use crate::text::texts;

verus! {

/// The localized content for one locale: the text of each resource that was
/// loaded for it, in the order of the request.
#[derive(Debug, PartialEq, Eq)]
pub struct Bundle {
    pub locale: String,
    pub resources: Vec<String>,
}

/// The mathematical value of a [`Bundle`].
pub struct BundleView {
    pub locale: Seq<char>,
    pub resources: Seq<Seq<char>>,
}

impl View for Bundle {
    type V = BundleView;

    open spec fn view(&self) -> BundleView {
        BundleView { locale: self.locale@, resources: texts(self.resources@) }
    }
}

/// The [`BundleAdapter`] can adapt the bundle to the environment, for example
/// by hooking up the platform's formatting functions. What an adapter may make
/// of a bundle is the adapter's own to say.
pub trait BundleAdapter {
    /// Whether the adapter may turn the bundle `before` into the bundle
    /// `after`. An adapter that does not say is free to make any bundle.
    open spec fn adapts(&self, before: BundleView, after: BundleView) -> bool {
        true
    }

    fn adapt_bundle(&self, bundle: &mut Bundle)
        ensures
            self.adapts(old(bundle)@, final(bundle)@),
    ;
}

/// What loading one resource from its chosen source gave.
#[derive(Debug, PartialEq, Eq)]
pub enum ResourceOption {
    /// The resource's text, and the errors that parsing it met. Such errors do
    /// not keep the resource out of a bundle.
    Loaded { text: String, errors: Vec<String> },
    /// The source does not have the resource, and the bundle can do without.
    MissingOptional,
    /// The source does not have the resource, and the bundle cannot do
    /// without.
    MissingRequired,
}

/// The mathematical value of a [`ResourceOption`].
pub enum ResourceOptionView {
    Loaded { text: Seq<char>, errors: Seq<Seq<char>> },
    MissingOptional,
    MissingRequired,
}

impl View for ResourceOption {
    type V = ResourceOptionView;

    open spec fn view(&self) -> ResourceOptionView {
        match self {
            ResourceOption::Loaded { text, errors } => ResourceOptionView::Loaded {
                text: text@,
                errors: texts(errors@),
            },
            ResourceOption::MissingOptional => ResourceOptionView::MissingOptional,
            ResourceOption::MissingRequired => ResourceOptionView::MissingRequired,
        }
    }
}

impl ResourceOption {
    /// Whether a required resource is missing.
    pub fn is_required_and_missing(&self) -> (res: bool)
        ensures
            res == (self@ is MissingRequired),
    {
        matches!(self, ResourceOption::MissingRequired)
    }
}

/// What the fetch of a resource gave: the text with the errors that parsing
/// it met, where the source has the resource; where it has not, a miss that
/// weighs as the resource is required or optional.
pub fn resource_option(resource: &ResourceId, text: Option<String>, errors: Vec<String>) -> (res:
    ResourceOption)
    ensures
        res@ == match text {
            Some(t) => ResourceOptionView::Loaded { text: t@, errors: texts(errors@) },
            None => if resource@.resource_type == ResourceType::Required {
                ResourceOptionView::MissingRequired
            } else {
                ResourceOptionView::MissingOptional
            },
        },
{
    match text {
        Some(text) => ResourceOption::Loaded { text, errors },
        None => if resource.is_required() {
            ResourceOption::MissingRequired
        } else {
            ResourceOption::MissingOptional
        },
    }
}

/// The views of a list of loaded resources.
pub open spec fn option_views(v: Seq<ResourceOption>) -> Seq<ResourceOptionView> {
    v.map_values(|r: ResourceOption| r@)
}

/// Whether a required resource is missing among those that were loaded.
pub open spec fn any_missing_required(loaded: Seq<ResourceOptionView>) -> bool {
    exists|i: int| 0 <= i < loaded.len() && #[trigger] loaded[i] is MissingRequired
}

/// The texts of the resources that were loaded, in their order.
pub open spec fn loaded_texts(loaded: Seq<ResourceOptionView>) -> Seq<Seq<char>>
    decreases loaded.len(),
{
    if loaded.len() == 0 {
        Seq::empty()
    } else {
        match loaded.last() {
            ResourceOptionView::Loaded { text, errors } => loaded_texts(loaded.drop_last()).push(
                text,
            ),
            _ => loaded_texts(loaded.drop_last()),
        }
    }
}

/// The errors that parsing the loaded resources met, in their order.
pub open spec fn loaded_errors(loaded: Seq<ResourceOptionView>) -> Seq<Seq<char>>
    decreases loaded.len(),
{
    if loaded.len() == 0 {
        Seq::empty()
    } else {
        match loaded.last() {
            ResourceOptionView::Loaded { text, errors } => loaded_errors(loaded.drop_last())
                + errors,
            _ => loaded_errors(loaded.drop_last()),
        }
    }
}

/// The mathematical value of a bundle that comes alone or with errors.
pub open spec fn bundle_result_view(r: Result<Bundle, (Bundle, Vec<String>)>) -> Result<
    BundleView,
    (BundleView, Seq<Seq<char>>),
> {
    match r {
        Ok(bundle) => Ok(bundle@),
        Err((bundle, errors)) => Err((bundle@, texts(errors@))),
    }
}

/// The bundle of a locale from what was loaded for it: `None` where a
/// required resource is missing; else the loaded texts, alone where no parse
/// error was met, with the errors where some were.
pub open spec fn bundle_of(locale: Seq<char>, loaded: Seq<ResourceOptionView>) -> Option<
    Result<BundleView, (BundleView, Seq<Seq<char>>)>,
> {
    if any_missing_required(loaded) {
        None
    } else {
        let bundle = BundleView { locale, resources: loaded_texts(loaded) };
        if loaded_errors(loaded).len() == 0 {
            Some(Ok(bundle))
        } else {
            Some(Err((bundle, loaded_errors(loaded))))
        }
    }
}

/// For each probed resource, whether its source can serve: it has the
/// resource, or the resource is optional.
pub fn probe_answers(results: &Vec<ResourceOption>) -> (res: Vec<bool>)
    ensures
        res@.len() == results@.len(),
        forall|i: int| 0 <= i < results@.len() ==> res@[i] == !(results@[i]@ is MissingRequired),
{
    let mut res: Vec<bool> = Vec::new();
    let mut i: usize = 0;
    while i < results.len()
        invariant
            i <= results.len(),
            res@.len() == i,
            forall|k: int| 0 <= k < i ==> res@[k] == !(results@[k]@ is MissingRequired),
        decreases results.len() - i,
    {
        res.push(!results[i].is_required_and_missing());
        i += 1;
    }
    res
}

/// Puts the bundle of a locale together from what was loaded for it. No
/// bundle is made where a required resource is missing: a partial bundle is
/// never handed out.
pub fn bundle_from_loaded(locale: String, loaded: Vec<ResourceOption>) -> (res: Option<
    Result<Bundle, (Bundle, Vec<String>)>,
>)
    ensures
        match res {
            Some(r) => bundle_of(locale@, option_views(loaded@)) == Some(bundle_result_view(r)),
            None => bundle_of(locale@, option_views(loaded@)) is None,
        },
{
    let mut resources: Vec<String> = Vec::new();
    let mut errors: Vec<String> = Vec::new();
    let ghost all = option_views(loaded@);
    assert(all.take(0) =~= Seq::<ResourceOptionView>::empty());
    for item in it: loaded
        invariant
            all == option_views(it.seq()),
            it.seq() == loaded@,
            !any_missing_required(all.take(it.index() as int)),
            texts(resources@) == loaded_texts(all.take(it.index() as int)),
            texts(errors@) == loaded_errors(all.take(it.index() as int)),
    {
        let ghost k = it.index() as int;
        let ghost texts_before = texts(resources@);
        let ghost errors_before = texts(errors@);
        proof {
            assert(all.take(k + 1).drop_last() =~= all.take(k));
            assert(all.take(k + 1).last() == item@);
        }
        match item {
            ResourceOption::Loaded { text, errors: found } => {
                resources.push(text);
                assert(texts(resources@) =~= texts_before.push(text@));
                let mut j: usize = 0;
                assert(texts(found@).take(0) =~= Seq::<Seq<char>>::empty());
                while j < found.len()
                    invariant
                        j <= found.len(),
                        texts(errors@) =~= errors_before + texts(found@).take(j as int),
                    decreases found.len() - j,
                {
                    let ghost so_far = texts(errors@);
                    errors.push(found[j].clone());
                    assert(texts(errors@) =~= so_far.push(found@[j as int]@));
                    assert(texts(found@).take(j + 1) =~= texts(found@).take(j as int).push(
                        found@[j as int]@,
                    ));
                    j += 1;
                }
                assert(texts(found@).take(j as int) =~= texts(found@));
            },
            ResourceOption::MissingOptional => {},
            ResourceOption::MissingRequired => {
                assert(all[k] is MissingRequired);
                return None;
            },
        }
        proof {
            assert forall|i: int| 0 <= i < k + 1 implies !(#[trigger] all.take(k + 1)[i]
                is MissingRequired) by {
                if i < k {
                    assert(all.take(k)[i] == all.take(k + 1)[i]);
                }
            }
        }
    }
    assert(all.take(all.len() as int) =~= all);
    let bundle = Bundle { locale, resources };
    if errors.len() == 0 {
        Some(Ok(bundle))
    } else {
        Some(Err((bundle, errors)))
    }
}

} // verus!

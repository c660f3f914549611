//! Where the speech-recognition model is looked for, and in which order.

use vstd::prelude::*;

verus! {

/// Name of the model directory.
pub const MODEL_FILENAME: &'static str = "parakeet-tdt-0.6b-v3-int8";

/// A directory from which model locations are resolved.
#[derive(Clone, Copy, Debug, PartialEq, Eq, Structural)]
pub enum ModelBase {
    /// The application's bundled resource directory.
    Resources,
    /// The application's data directory.
    AppData,
    /// The directory of the running executable.
    ExeDir,
}

/// A place where the model may be found.
#[derive(Clone, Copy, Debug, PartialEq, Eq, Structural)]
pub enum ModelLocation {
    /// `<resources>/<model>`.
    BundledResource,
    /// `<app data>/resources/<model>`.
    AppDataResources,
    /// `<exe dir>/_up_/resources/<model>`.
    ExeUpResources,
    /// `<exe dir>/../../resources/<model>` (development build of the crate).
    DevCrateResources,
    /// `<exe dir>/../../../resources/<model>` (development build of the repository).
    DevRepoResources,
}

/// The path components, in order, of a location below its base.
pub open spec fn location_components(l: ModelLocation) -> Seq<Seq<char>> {
    match l {
        ModelLocation::BundledResource => seq![MODEL_FILENAME@],
        ModelLocation::AppDataResources => seq!["resources"@, MODEL_FILENAME@],
        ModelLocation::ExeUpResources => seq!["_up_"@, "resources"@, MODEL_FILENAME@],
        ModelLocation::DevCrateResources => seq![".."@, ".."@, "resources"@, MODEL_FILENAME@],
        ModelLocation::DevRepoResources => seq![
            ".."@,
            ".."@,
            ".."@,
            "resources"@,
            MODEL_FILENAME@,
        ],
    }
}

/// The directory a location is resolved from.
pub open spec fn location_base(l: ModelLocation) -> ModelBase {
    match l {
        ModelLocation::BundledResource => ModelBase::Resources,
        ModelLocation::AppDataResources => ModelBase::AppData,
        _ => ModelBase::ExeDir,
    }
}

/// The order in which the locations are tried.
pub open spec fn search_order_spec() -> Seq<ModelLocation> {
    seq![
        ModelLocation::BundledResource,
        ModelLocation::AppDataResources,
        ModelLocation::ExeUpResources,
        ModelLocation::DevCrateResources,
        ModelLocation::DevRepoResources,
    ]
}

impl ModelLocation {
    /// The directory the location is resolved from.
    pub fn base(&self) -> (b: ModelBase)
        ensures
            b == location_base(*self),
    {
        match self {
            ModelLocation::BundledResource => ModelBase::Resources,
            ModelLocation::AppDataResources => ModelBase::AppData,
            _ => ModelBase::ExeDir,
        }
    }

    /// The path components to join onto the base directory, in order.
    pub fn components(&self) -> (c: Vec<&'static str>)
        ensures
            c@.len() == location_components(*self).len(),
            forall|k: int| 0 <= k < c@.len() ==> #[trigger] c@[k]@ == location_components(*self)[k],
    {
        let c = match self {
            ModelLocation::BundledResource => vec![MODEL_FILENAME],
            ModelLocation::AppDataResources => vec!["resources", MODEL_FILENAME],
            ModelLocation::ExeUpResources => vec!["_up_", "resources", MODEL_FILENAME],
            ModelLocation::DevCrateResources => vec!["..", "..", "resources", MODEL_FILENAME],
            ModelLocation::DevRepoResources => vec!["..", "..", "..", "resources", MODEL_FILENAME],
        };
        c
    }
}

/// The locations, in the order in which they are tried.
pub fn search_order() -> (v: Vec<ModelLocation>)
    ensures
        v@ == search_order_spec(),
{
    let v = vec![
        ModelLocation::BundledResource,
        ModelLocation::AppDataResources,
        ModelLocation::ExeUpResources,
        ModelLocation::DevCrateResources,
        ModelLocation::DevRepoResources,
    ];
    assert(v@ =~= search_order_spec());
    v
}

/// The paths tried, spelled out: `<resources>/parakeet-tdt-0.6b-v3-int8`,
/// `<app data>/resources/…`, `<exe dir>/_up_/resources/…`,
/// `<exe dir>/../../resources/…`, `<exe dir>/../../../resources/…`.
pub proof fn lemma_location_paths()
    ensures
        location_components(ModelLocation::BundledResource) == seq![
            "parakeet-tdt-0.6b-v3-int8"@,
        ],
        location_components(ModelLocation::AppDataResources) == seq![
            "resources"@,
            "parakeet-tdt-0.6b-v3-int8"@,
        ],
        location_components(ModelLocation::ExeUpResources) == seq![
            "_up_"@,
            "resources"@,
            "parakeet-tdt-0.6b-v3-int8"@,
        ],
        location_components(ModelLocation::DevCrateResources) == seq![
            ".."@,
            ".."@,
            "resources"@,
            "parakeet-tdt-0.6b-v3-int8"@,
        ],
        location_components(ModelLocation::DevRepoResources) == seq![
            ".."@,
            ".."@,
            ".."@,
            "resources"@,
            "parakeet-tdt-0.6b-v3-int8"@,
        ],
        forall|l: ModelLocation|
            location_components(l).last() == "parakeet-tdt-0.6b-v3-int8"@,
{
}

/// The search tries the bundled resources, then the application data,
/// then the three places next to the executable, each location once.
pub proof fn lemma_search_order_is_complete()
    ensures
        search_order_spec() == seq![
            ModelLocation::BundledResource,
            ModelLocation::AppDataResources,
            ModelLocation::ExeUpResources,
            ModelLocation::DevCrateResources,
            ModelLocation::DevRepoResources,
        ],
        search_order_spec().no_duplicates(),
        forall|l: ModelLocation| search_order_spec().contains(l),
        location_base(search_order_spec()[0]) == ModelBase::Resources,
        location_base(search_order_spec()[1]) == ModelBase::AppData,
        forall|k: int| 2 <= k < 5 ==> location_base(#[trigger] search_order_spec()[k]) == ModelBase::ExeDir,
{
    let s = search_order_spec();
    assert forall|l: ModelLocation| s.contains(l) by {
        match l {
            ModelLocation::BundledResource => assert(s[0] == l),
            ModelLocation::AppDataResources => assert(s[1] == l),
            ModelLocation::ExeUpResources => assert(s[2] == l),
            ModelLocation::DevCrateResources => assert(s[3] == l),
            ModelLocation::DevRepoResources => assert(s[4] == l),
        }
    }
}

/// What looking at one location gave.
#[derive(Clone, Copy, Debug, PartialEq, Eq, Structural)]
pub enum Probe {
    /// The model is there.
    Found,
    /// The model is not there.
    Missing,
    /// The location's base directory could not be determined.
    BaseUnavailable,
}

/// The outcome of a search.
#[derive(Clone, Copy, Debug, PartialEq, Eq, Structural)]
pub enum SearchOutcome {
    /// Found at the probe with this index.
    Found(usize),
    /// The application data directory, at the probe with this index, could
    /// not be determined; the search stops with that error.
    BaseError(usize),
    /// Found nowhere.
    NotFound,
}

/// Whether a probe ends the search: the model was found, or the
/// application data directory is unavailable. An unavailable bundled
/// resource or executable directory only means the model is not there.
pub open spec fn ends_search(l: ModelLocation, p: Probe) -> bool {
    p == Probe::Found || (p == Probe::BaseUnavailable && l == ModelLocation::AppDataResources)
}

/// Only finding the model or an unavailable application data directory
/// ends the search; a missing model never does, and an unavailable bundled
/// resource or executable directory counts as a missing model.
pub proof fn lemma_what_ends_search()
    ensures
        forall|l: ModelLocation| #[trigger] ends_search(l, Probe::Found),
        forall|l: ModelLocation| !#[trigger] ends_search(l, Probe::Missing),
        ends_search(ModelLocation::AppDataResources, Probe::BaseUnavailable),
        !ends_search(ModelLocation::BundledResource, Probe::BaseUnavailable),
        !ends_search(ModelLocation::ExeUpResources, Probe::BaseUnavailable),
        !ends_search(ModelLocation::DevCrateResources, Probe::BaseUnavailable),
        !ends_search(ModelLocation::DevRepoResources, Probe::BaseUnavailable),
{
}

/// Given the probes in search order, where the search ends.
pub fn search_outcome(probes: &Vec<(ModelLocation, Probe)>) -> (r: SearchOutcome)
    ensures
        match r {
            SearchOutcome::Found(i) => i < probes.len() && probes@[i as int].1 == Probe::Found
                && forall|j: int| 0 <= j < i ==> !ends_search(#[trigger] probes@[j].0, probes@[j].1),
            SearchOutcome::BaseError(i) => i < probes.len() && probes@[i as int].1
                == Probe::BaseUnavailable && probes@[i as int].0 == ModelLocation::AppDataResources
                && forall|j: int| 0 <= j < i ==> !ends_search(#[trigger] probes@[j].0, probes@[j].1),
            SearchOutcome::NotFound => forall|j: int|
                0 <= j < probes.len() ==> !ends_search(#[trigger] probes@[j].0, probes@[j].1),
        },
{
    let mut i: usize = 0;
    while i < probes.len()
        invariant
            i <= probes.len(),
            forall|j: int| 0 <= j < i ==> !ends_search(#[trigger] probes@[j].0, probes@[j].1),
        decreases probes.len() - i,
    {
        let (l, p) = probes[i];
        match p {
            Probe::Found => {
                return SearchOutcome::Found(i);
            },
            Probe::BaseUnavailable => {
                match l {
                    ModelLocation::AppDataResources => {
                        return SearchOutcome::BaseError(i);
                    },
                    _ => {},
                }
            },
            Probe::Missing => {},
        }
        i += 1;
    }
    SearchOutcome::NotFound
}

/// The error reported when the model is found nowhere.
pub fn model_not_found_message() -> (m: String)
    ensures
        m@ == "Model '"@ + MODEL_FILENAME@
            + "' not found in any expected location. Please ensure the model is in the resources folder."@,
{
    let mut m = String::new();
    m.append("Model '");
    m.append(MODEL_FILENAME);
    m.append(
        "' not found in any expected location. Please ensure the model is in the resources folder.",
    );
    assert(m@ =~= "Model '"@ + MODEL_FILENAME@
        + "' not found in any expected location. Please ensure the model is in the resources folder."@);
    m
}

} // verus!

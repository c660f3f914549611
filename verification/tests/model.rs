use murmure::model::ModelLocation::{
    AppDataResources, BundledResource, DevCrateResources, ExeUpResources,
};
use murmure::model::{
    model_not_found_message, search_order, search_outcome, ModelBase, ModelLocation, Probe,
    SearchOutcome, MODEL_FILENAME,
};

#[test]
fn search_order_starts_with_bundled_resources() {
    let order = search_order();
    assert_eq!(order.len(), 5);
    assert_eq!(order[0], ModelLocation::BundledResource);
    assert_eq!(order[1], ModelLocation::AppDataResources);
    assert_eq!(order[4], ModelLocation::DevRepoResources);
    assert_eq!(order[0].base(), ModelBase::Resources);
    assert_eq!(order[1].base(), ModelBase::AppData);
    assert_eq!(order[2].base(), ModelBase::ExeDir);
}

#[test]
fn location_components() {
    assert_eq!(ModelLocation::AppDataResources.components(), vec!["resources", MODEL_FILENAME]);
    assert_eq!(
        ModelLocation::DevCrateResources.components(),
        vec!["..", "..", "resources", "parakeet-tdt-0.6b-v3-int8"]
    );
}

#[test]
fn search_stops_at_first_found() {
    let probes = vec![
        (BundledResource, Probe::Missing),
        (AppDataResources, Probe::Found),
        (ExeUpResources, Probe::Found),
    ];
    assert_eq!(search_outcome(&probes), SearchOutcome::Found(1));
}

#[test]
fn search_stops_at_unavailable_app_data() {
    let probes = vec![
        (BundledResource, Probe::BaseUnavailable),
        (AppDataResources, Probe::BaseUnavailable),
        (ExeUpResources, Probe::Found),
    ];
    assert_eq!(search_outcome(&probes), SearchOutcome::BaseError(1));
}

#[test]
fn unavailable_exe_dir_is_skipped() {
    let probes = vec![
        (AppDataResources, Probe::Missing),
        (ExeUpResources, Probe::BaseUnavailable),
        (DevCrateResources, Probe::Missing),
    ];
    assert_eq!(search_outcome(&probes), SearchOutcome::NotFound);
    assert_eq!(search_outcome(&vec![]), SearchOutcome::NotFound);
}

#[test]
fn not_found_message() {
    assert_eq!(
        model_not_found_message(),
        "Model 'parakeet-tdt-0.6b-v3-int8' not found in any expected location. Please ensure the model is in the resources folder."
    );
}

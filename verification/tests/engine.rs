use voxtral::checkpoint::Dtype;
use voxtral::engine::{
    generation_failed, load_phase, model_dtype, select_device, total_bytes, warm_up_step,
    warm_up_tokens, Accelerator,
};
use voxtral::protocol::{Phase, Step};

const ALL: [Accelerator; 4] = [
    Accelerator::Cuda,
    Accelerator::Rocm,
    Accelerator::Vulkan,
    Accelerator::Metal,
];

#[test]
fn the_reported_accelerator_matches_the_compiled_backend() {
    for built_for in ALL {
        assert_eq!(select_device(None, built_for).name, built_for.as_str());
    }
}

#[test]
fn a_mismatched_device_request_still_uses_the_compiled_backend() {
    for built_for in ALL {
        let other = if built_for.as_str() == "cuda" { "rocm" } else { "cuda" };
        let selected = select_device(Some(other), built_for);
        assert_eq!(selected.name, built_for.as_str());
        assert_eq!(selected.mismatch.as_deref(), Some(other));
        assert_eq!(select_device(Some(""), built_for).name, built_for.as_str());
        assert_eq!(select_device(Some(""), built_for).mismatch, None);
    }
}

#[test]
fn the_own_accelerator_in_any_case_is_no_mismatch() {
    assert_eq!(select_device(Some(" VulKan\n"), Accelerator::Vulkan).mismatch, None);
    assert_eq!(select_device(Some("  "), Accelerator::Vulkan).mismatch, None);
    assert_eq!(
        select_device(Some(" met al "), Accelerator::Metal).mismatch.as_deref(),
        Some("met al")
    );
    assert_eq!(
        select_device(Some("\u{212a}uda"), Accelerator::Cuda).mismatch.as_deref(),
        Some("\u{212a}uda")
    );
}

#[test]
fn a_build_takes_the_first_of_its_accelerators() {
    assert_eq!(Accelerator::of_build(true, true, true), Accelerator::Cuda);
    assert_eq!(Accelerator::of_build(false, true, true), Accelerator::Rocm);
    assert_eq!(Accelerator::of_build(false, false, true), Accelerator::Vulkan);
    assert_eq!(Accelerator::of_build(false, false, false), Accelerator::Metal);
    assert_eq!(Accelerator::Rocm.warm_up_cache_entries(), 714);
    assert_eq!(Accelerator::Cuda.warm_up_cache_entries(), 714);
    assert_eq!(Accelerator::Vulkan.warm_up_cache_entries(), 286);
    assert_eq!(Accelerator::Metal.warm_up_cache_entries(), 286);
}

#[test]
fn the_weights_are_half_where_the_device_has_it() {
    assert_eq!(model_dtype(true), Dtype::F16);
    assert_eq!(model_dtype(false), Dtype::F32);
}

#[test]
fn a_marked_model_is_only_loaded() {
    assert_eq!(load_phase(Some(true)), Phase::Loading);
    assert_eq!(load_phase(Some(false)), Phase::InitialSetup);
    assert_eq!(load_phase(None), Phase::InitialSetup);
    assert_eq!(warm_up_step(Phase::InitialSetup), Step::BuildingKernels);
    assert_eq!(warm_up_step(Phase::Loading), Step::WarmingUp);
    assert_eq!(warm_up_tokens(), [0, 0, 0]);
}

#[test]
fn shard_sizes_are_summed() {
    assert_eq!(total_bytes(&[]), Some(0));
    assert_eq!(total_bytes(&[3, 4, 5]), Some(12));
    assert_eq!(total_bytes(&[u64::MAX, 0]), Some(u64::MAX));
    assert_eq!(total_bytes(&[u64::MAX, 1]), None);
}

#[test]
fn a_failed_generation_is_told() {
    assert_eq!(generation_failed("x"), "Failed to generate tokens: x");
}

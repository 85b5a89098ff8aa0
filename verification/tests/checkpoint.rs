use voxtral::checkpoint::{
    cast_chunk, casts_in_parallel, check_shards, remap, tell, CheckpointAdapter, Dtype,
    ShardResult,
};

fn list(names: &[&str]) -> Vec<String> {
    names.iter().map(|n| n.to_string()).collect()
}

fn shard(missing: &[&str], unused: &[&str]) -> ShardResult {
    ShardResult {
        errors: vec![],
        missing: list(missing),
        unused: list(unused),
    }
}

#[test]
fn a_parameter_some_shard_carries_is_not_missing() {
    let results = vec![shard(&["a", "b"], &[]), shard(&["c"], &[]), shard(&["a"], &[])];
    assert_eq!(check_shards(&results), Ok(()));
}

#[test]
fn what_every_shard_misses_is_missing() {
    let results = vec![shard(&["a", "b\"", "c"], &["u"]), shard(&["c", "b\""], &[])];
    assert_eq!(
        check_shards(&results).unwrap_err(),
        r#"2 parameters were not found in any shard, e.g. ["b\"", "c"]"#
    );
    let many: Vec<String> = (0..12).map(|i| format!("p{i}")).collect();
    let many: Vec<&str> = many.iter().map(String::as_str).collect();
    assert_eq!(
        check_shards(&vec![shard(&many, &[])]).unwrap_err(),
        r#"12 parameters were not found in any shard, e.g. ["p0", "p1", "p2", "p3", "p4"]"#
    );
}

#[test]
fn a_tensor_no_parameter_claims_is_an_error() {
    let results = vec![shard(&[], &["x"]), shard(&[], &["y"])];
    assert_eq!(
        check_shards(&results).unwrap_err(),
        r#"2 tensors of the checkpoint belong to no parameter, e.g. ["x", "y"]"#
    );
}

#[test]
fn what_went_wrong_comes_first() {
    let mut bad = shard(&["a"], &["x"]);
    bad.errors = list(&["one", "two"]);
    let mut worse = shard(&["a"], &[]);
    worse.errors = list(&["three"]);
    assert_eq!(check_shards(&vec![bad, worse]).unwrap_err(), "one, two, three");
    assert_eq!(
        check_shards(&vec![]).unwrap_err(),
        "the checkpoint has no shards"
    );
}

#[test]
fn a_list_is_told_by_its_first_names() {
    assert_eq!(tell(7, " things", "[..]"), "7 things, e.g. [..]");
}

#[test]
fn normalization_layers_have_their_own_names() {
    let a = CheckpointAdapter;
    for kind in ["BatchNorm", "LayerNorm", "GroupNorm", "RmsNorm"] {
        let kind = format!("Struct:{kind}");
        assert!(CheckpointAdapter::is_normalization_layer(&kind));
        assert_eq!(a.adapt("layers.0.norm.weight", Some(&kind)), "layers.0.norm.gamma");
        assert_eq!(a.adapt("bias", Some(&kind)), "beta");
        assert_eq!(a.adapt("x.weights", Some(&kind)), "x.weights");
        assert_eq!(a.adapt("weight.", Some(&kind)), "weight.");
        assert_eq!(
            a.get_alternative_param_name("gamma", &kind).as_deref(),
            Some("weight")
        );
        assert_eq!(
            a.get_alternative_param_name("beta", &kind).as_deref(),
            Some("bias")
        );
        assert_eq!(a.get_alternative_param_name("weight", &kind), None);
    }
    assert_eq!(a.adapt("x.weight", Some("Struct:Linear")), "x.weight");
    assert_eq!(a.adapt("x.weight", None), "x.weight");
    assert_eq!(a.get_alternative_param_name("gamma", "Struct:Linear"), None);
    assert!(!CheckpointAdapter::is_normalization_layer("LayerNorm"));
}

#[test]
fn the_decoder_lives_one_level_down() {
    assert_eq!(
        remap("language_model.model.layers.3.mlp.up_proj.weight"),
        "language_model.model.transformer.layers.3.mlp.up_proj.weight"
    );
    assert_eq!(
        remap("language_model.model.norm.weight"),
        "language_model.model.transformer.norm.weight"
    );
    for kept in [
        "language_model.model.embed_tokens.weight",
        "language_model.model.normal",
        "language_model.lm_head.weight",
        "audio_tower.layers.0.fc1.bias",
        "x.language_model.model.layers.0",
        "language_model.model.transformer.layers.3.mlp",
    ] {
        assert_eq!(remap(kept), kept);
    }
}

#[test]
fn only_the_checkpoints_own_type_is_cast_in_parallel() {
    assert!(casts_in_parallel(Dtype::F16, Dtype::BF16));
    assert!(!casts_in_parallel(Dtype::F32, Dtype::BF16));
    assert!(!casts_in_parallel(Dtype::F16, Dtype::F32));
    assert!(!casts_in_parallel(Dtype::F16, Dtype::F16));
}

#[test]
fn a_cast_is_split_over_what_it_is_worth() {
    assert_eq!(cast_chunk(4 * 65_536, 16), 65_536);
    assert_eq!(cast_chunk(4 * 65_536, 3), 87_382);
    assert_eq!(cast_chunk(65_536, 16), 65_536);
    assert_eq!(cast_chunk(65_537, 16), 32_769);
    assert_eq!(cast_chunk(0, 16), 1);
    assert_eq!(cast_chunk(10, 0), 10);
}

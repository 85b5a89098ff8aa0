use voxtral::files::{joined, resolve_files, shard, warm_marker};

fn entries(names: &[&str]) -> Vec<Vec<u8>> {
    names.iter().map(|n| n.as_bytes().to_vec()).collect()
}

#[test]
fn resolve_files_requires_config() {
    let err = resolve_files(b"/m", "/m", false, false, &entries(&[])).unwrap_err();
    assert!(err.contains("config.json not found"), "{err}");
}

#[test]
fn resolve_files_requires_tokenizer() {
    let err = resolve_files(b"/m", "/m", true, false, &entries(&["config.json"])).unwrap_err();
    assert!(err.contains("tekken.json not found"), "{err}");
}

#[test]
fn resolve_files_requires_safetensors() {
    let found = entries(&["config.json", "tekken.json"]);
    let err = resolve_files(b"/m", "/m", true, true, &found).unwrap_err();
    assert!(err.contains("no .safetensors"), "{err}");
}

#[test]
fn resolve_files_sorts_weight_shards() {
    let found = entries(&[
        "config.json",
        "tekken.json",
        "model-00002.safetensors",
        "model-00001.safetensors",
    ]);
    let files = resolve_files(b"/m", "/m", true, true, &found).unwrap();
    let names: Vec<String> = files
        .weights
        .iter()
        .map(|p| String::from_utf8(p[3..].to_vec()).unwrap())
        .collect();
    assert_eq!(
        names,
        ["model-00001.safetensors", "model-00002.safetensors"]
    );
    assert_eq!(files.config, b"/m/config.json");
    assert_eq!(files.tokenizer, b"/m/tekken.json");
    assert_eq!(files.weights[0], b"/m/model-00001.safetensors");
}

#[test]
fn the_order_of_the_listing_does_not_matter() {
    let a = entries(&["b.safetensors", "ab.safetensors", "a.safetensors", "x.txt"]);
    let b = entries(&["a.safetensors", "b.safetensors", "ab.safetensors"]);
    let a = resolve_files(b"", "", true, true, &a).unwrap().weights;
    let b = resolve_files(b"", "", true, true, &b).unwrap().weights;
    assert_eq!(a, b);
    assert_eq!(a, entries(&["a.safetensors", "ab.safetensors", "b.safetensors"]));
}

#[test]
fn only_the_extension_makes_a_shard() {
    assert!(shard(b"model.safetensors"));
    assert!(shard(b"\xff.safetensors"));
    assert!(!shard(b".safetensors"));
    assert!(!shard(b"safetensors"));
    assert!(!shard(b"model.safetensors.bak"));
    assert!(!shard(b"model.SAFETENSORS"));
}

#[test]
fn paths_are_joined_as_unix_has_it() {
    assert_eq!(joined(b"/a", b"b"), b"/a/b");
    assert_eq!(joined(b"/a/", b"b"), b"/a/b");
    assert_eq!(joined(b"", b"b"), b"b");
    assert_eq!(joined(b"/a", b"/b"), b"/b");
    assert_eq!(joined(b"/a", b""), b"/a/");
}

#[test]
fn a_marker_names_the_model_and_the_build() {
    assert_eq!(warm_marker(None, "m", "1.0.0", "cuda"), None);
    let a = warm_marker(Some(b"/c"), "m", "1.0.0", "cuda").unwrap();
    assert_eq!(a, b"/c/voxtral-warm/m-1.0.0-cuda");
    let b = warm_marker(Some(b"/c"), "m", "1.0.1", "cuda").unwrap();
    assert_ne!(a, b);
    assert_ne!(a, warm_marker(Some(b"/c"), "n", "1.0.0", "cuda").unwrap());
    assert_ne!(a, warm_marker(Some(b"/c"), "m", "1.0.0", "rocm").unwrap());
}

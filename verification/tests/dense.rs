use std::path::{Path, PathBuf};

use sift::dense::{
    hf_resolve_url, validate_repo_path, DenseModelSpec, RepoPathError, DEFAULT_MAX_LENGTH, DEFAULT_MODEL_ID,
    DEFAULT_MODEL_REVISION,
};

#[test]
fn local_asset_plan_is_file_based_and_complete() {
    let cache_dir = "/tmp/sift-model-cache";
    let spec = DenseModelSpec::default();
    let assets = spec.local_assets(cache_dir).expect("asset plan");

    assert!(Path::new(&assets.root).starts_with(cache_dir));
    assert!(Path::new(&assets.root).ends_with(PathBuf::from(DEFAULT_MODEL_ID).join(DEFAULT_MODEL_REVISION)));
    assert!(Path::new(&assets.config).ends_with("config.json"));
    assert!(Path::new(&assets.tokenizer_config).ends_with("tokenizer_config.json"));
    assert!(Path::new(&assets.weights).ends_with("model.safetensors"));
    assert!(Path::new(&assets.vocab).ends_with("vocab.txt"));
    assert!(Path::new(&assets.pooling).ends_with(PathBuf::from("1_Pooling").join("config.json")));
}

#[test]
fn overrides_allow_explicit_max_length() {
    let spec = DenseModelSpec::with_overrides(
        Some("sentence-transformers/all-MiniLM-L6-v2".to_string()),
        Some("refs/pr/1".to_string()),
        Some(32),
    );

    assert_eq!(spec.model_id, "sentence-transformers/all-MiniLM-L6-v2");
    assert_eq!(spec.revision, "refs/pr/1");
    assert_eq!(spec.max_length, 32);
}

#[test]
fn overrides_preserve_default_max_length_when_unspecified() {
    let spec = DenseModelSpec::with_overrides(None, None, None);

    assert_eq!(spec.max_length, DEFAULT_MAX_LENGTH);
}

#[test]
fn overrides_raise_small_windows_to_eight() {
    let spec = DenseModelSpec::with_overrides(None, None, Some(3));
    assert_eq!(spec.max_length, 8);
    assert_eq!(spec.model_id, DEFAULT_MODEL_ID);
    assert_eq!(spec.revision, DEFAULT_MODEL_REVISION);
}

#[test]
fn repo_paths_refuse_blank_absolute_and_parent_components() {
    assert_eq!(validate_repo_path("model_id", "org/model"), Ok(()));
    assert_eq!(validate_repo_path("model_id", "./org/model"), Ok(()));
    assert_eq!(validate_repo_path("model_id", "  "), Err(RepoPathError::Empty { label: "model_id".into() }));
    assert_eq!(
        validate_repo_path("revision", "/abs"),
        Err(RepoPathError::UnsupportedComponent { label: "revision".into(), value: "/abs".into() })
    );
    assert_eq!(
        validate_repo_path("revision", "a/../b"),
        Err(RepoPathError::UnsupportedComponent { label: "revision".into(), value: "a/../b".into() })
    );
}

#[test]
fn local_assets_refuse_a_bad_model_id() {
    let spec = DenseModelSpec::with_overrides(Some("../escape".into()), None, None);
    assert!(matches!(
        spec.local_assets("/tmp/cache"),
        Err(RepoPathError::UnsupportedComponent { .. })
    ));
}

#[test]
fn asset_fetch_list_names_every_file_in_order() {
    let spec = DenseModelSpec::default();
    let (assets, fetches) = spec.resolve_assets("/cache").expect("plan");
    assert_eq!(fetches.len(), 5);
    assert_eq!(fetches[0].path, assets.config);
    assert_eq!(
        fetches[0].url,
        "https://huggingface.co/sentence-transformers/all-MiniLM-L6-v2/resolve/main/config.json"
    );
    assert_eq!(fetches[4].path, assets.pooling);
    assert!(fetches[4].url.ends_with("/resolve/main/1_Pooling/config.json"));
    assert_eq!(fetches[2].label, "model weights");
    assert_eq!(assets.root, "/cache/sentence-transformers/all-MiniLM-L6-v2/main");
}

#[test]
fn hugging_face_addresses_have_the_resolve_layout() {
    assert_eq!(hf_resolve_url("org/m", "v1", "a.json"), "https://huggingface.co/org/m/resolve/v1/a.json");
}

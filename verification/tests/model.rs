use sift::model::{ModelArtifactFormat, ModelError, ModelPreparationMode, ModelRuntimeContract, ModelSource, PreparationRoute, bundle_paths, compatible_bundle_downloads, compatible_bundle_notes, compatible_bundle_root, converted_bundle_root, infer_directory_format, infer_file_format, infer_hf_source_format, preparation_route, source_cache_slug, temp_download_path};

#[test]
fn sources_parse_and_display() {
    let hf = ModelSource::parse("hf://org/model@v2").expect("hf source");
    assert_eq!(hf, ModelSource::hugging_face_revision("org/model".into(), "v2".into()));
    assert_eq!(hf.display_name(), "hf://org/model@v2");
    let plain: ModelSource = "hf://org/model".parse().expect("hf source");
    assert_eq!(plain, ModelSource::hugging_face("org/model".into()));
    assert_eq!(plain.display_name(), "hf://org/model");
    let local = ModelSource::parse("/models/x.gguf").expect("local source");
    assert_eq!(local, ModelSource::LocalPath("/models/x.gguf".into()));
    assert_eq!(local.display_name(), "/models/x.gguf");
}

#[test]
fn malformed_hugging_face_sources_are_refused() {
    for bad in ["hf://", "hf://@v1", "hf://repo@"] {
        assert_eq!(
            ModelSource::parse(bad),
            Err(ModelError::InvalidHuggingFaceSource { value: bad.to_string() })
        );
    }
}

#[test]
fn labels_name_formats_contracts_and_modes() {
    assert_eq!(ModelArtifactFormat::HfSafetensors.label(), "hf-safetensors");
    assert_eq!(ModelArtifactFormat::Mlx.label(), "mlx");
    assert_eq!(ModelRuntimeContract::CandleSafetensorsBundle.label(), "candle-safetensors-bundle");
    assert_eq!(ModelPreparationMode::ReusedConverted.label(), "reused-converted");
}

#[test]
fn formats_are_inferred_from_names() {
    assert_eq!(infer_hf_source_format("TheBloke/Model-GGUF"), Some(ModelArtifactFormat::Gguf));
    assert_eq!(infer_hf_source_format("mlx-community/x"), Some(ModelArtifactFormat::Mlx));
    assert_eq!(infer_hf_source_format("org/x-safetensors"), Some(ModelArtifactFormat::HfSafetensors));
    assert_eq!(infer_hf_source_format("org/plain"), None);
    assert_eq!(infer_file_format("/m/a.gguf"), Some(ModelArtifactFormat::Gguf));
    assert_eq!(infer_file_format("/m/a.safetensors"), Some(ModelArtifactFormat::Safetensors));
    assert_eq!(infer_file_format("/m/a.bin"), None);
    assert_eq!(infer_directory_format(true, &[]), Some(ModelArtifactFormat::HfSafetensors));
    assert_eq!(
        infer_directory_format(false, &["/m/a.safetensors".into(), "/m/b.gguf".into()]),
        Some(ModelArtifactFormat::Gguf)
    );
    assert_eq!(infer_directory_format(false, &["/m/a.safetensors".into()]), Some(ModelArtifactFormat::Safetensors));
    assert_eq!(infer_directory_format(false, &["/m/readme.md".into()]), None);
}

#[test]
fn preparation_routes() {
    let local = ModelSource::LocalPath("/m".into());
    let hf = ModelSource::hugging_face("org/m".into());
    assert_eq!(preparation_route(&local, Some(ModelArtifactFormat::HfSafetensors)), PreparationRoute::ReuseLocalBundle);
    assert_eq!(preparation_route(&local, None), PreparationRoute::Convert);
    assert_eq!(preparation_route(&hf, Some(ModelArtifactFormat::Gguf)), PreparationRoute::Convert);
    assert_eq!(preparation_route(&hf, None), PreparationRoute::CompatibleHf);
}

#[test]
fn cache_slugs_are_short_lowercase_and_dashed() {
    assert_eq!(source_cache_slug(&ModelSource::hugging_face("Org/My_Model.Q4--GGUF".into())), "my-model-q4-gguf");
    assert_eq!(source_cache_slug(&ModelSource::LocalPath("/m/__Weird File__.gguf".into())), "weird-file");
    assert_eq!(source_cache_slug(&ModelSource::LocalPath("/".into())), "local-model");
    let long = format!("org/{}", "a".repeat(60));
    assert_eq!(source_cache_slug(&ModelSource::hugging_face(long)).len(), 48);
}

#[test]
fn converted_bundles_are_keyed_by_contract_and_source() {
    let source = ModelSource::hugging_face("org/Model".into());
    let root = converted_bundle_root("/cache", &source, ModelRuntimeContract::CandleSafetensorsBundle);
    let digest = blake3::hash("candle-safetensors-bundle|hf://org/Model".as_bytes()).to_hex().to_string();
    assert_eq!(root, format!("/cache/candle-safetensors-bundle/model-{}", &digest[..16]));
}

#[test]
fn downloads_go_to_a_part_file_beside_the_target() {
    assert_eq!(temp_download_path("/m/root/config.json"), Ok("/m/root/.config.json.part".to_string()));
    assert_eq!(temp_download_path("weights.bin"), Ok(".weights.bin.part".to_string()));
    assert_eq!(temp_download_path("/"), Err(ModelError::MissingFileName { path: "/".into() }));
}

#[test]
fn compatible_bundles_live_under_repo_and_revision() {
    assert_eq!(compatible_bundle_root("/models", "org/m", None), Ok("/models/org/m/main".to_string()));
    assert_eq!(compatible_bundle_root("/models", "org/m", Some("v1")), Ok("/models/org/m/v1".to_string()));
    assert!(compatible_bundle_root("/models", "../m", None).is_err());
    let downloads = compatible_bundle_downloads("/models/org/m/main", "org/m", "main");
    assert_eq!(downloads.len(), 4);
    assert_eq!(downloads[0].0, "https://huggingface.co/org/m/resolve/main/config.json");
    assert_eq!(downloads[3].1, "/models/org/m/main/generation_config.json");
    assert!(downloads[2].2 && !downloads[3].2);
    let bundle = bundle_paths("/b", false);
    assert_eq!(bundle.weights, "/b/model.safetensors");
    assert!(bundle.generation_config.is_none());
}

#[test]
fn compatible_bundle_notes_follow_the_download() {
    assert_eq!(
        compatible_bundle_notes("/b", "main", true, false),
        vec![
            "downloaded a compatible Hugging Face bundle into `/b`".to_string(),
            "using default Hugging Face revision `main`".to_string(),
            "compatible bundle does not include `generation_config.json`; current sift runtime contract does not require it".to_string(),
        ]
    );
    assert_eq!(
        compatible_bundle_notes("/b", "v1", false, false),
        vec!["reused cached compatible Hugging Face bundle at `/b`".to_string()]
    );
}

#[test]
fn shown_sources_read_back() {
    for source in [
        ModelSource::hugging_face("org/m".into()),
        ModelSource::hugging_face_revision("org/m".into(), "v1".into()),
        ModelSource::LocalPath("/m/x.gguf".into()),
    ] {
        assert_eq!(ModelSource::parse(&source.display_name()), Ok(source.clone()));
    }
}

#[test]
fn slugs_use_only_lowercase_digits_and_dashes() {
    let slug = source_cache_slug(&ModelSource::hugging_face("Org/--Ünï Code 7B--".into()));
    assert!(slug.chars().all(|c| c.is_ascii_lowercase() || c.is_ascii_digit() || c == '-'));
    assert!(!slug.starts_with('-'));
    assert_eq!(slug, "n-code-7b");
}

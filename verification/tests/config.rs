use sift::config::{Config, PartialConfig, PartialModelConfig, PartialSearchConfig};

#[test]
fn defaults_are_hybrid_ten_and_eight() {
    let config = Config::default();
    assert_eq!(config.search.strategy, "hybrid");
    assert_eq!(config.search.limit, 10);
    assert_eq!(config.search.shortlist, 8);
    assert_eq!(config.model.model_id, None);
    assert_eq!(config.model.max_length, None);
}

#[test]
fn partial_settings_override_only_what_they_give() {
    let mut config = Config::default();
    config.merge_partial(PartialConfig {
        search: Some(PartialSearchConfig { strategy: None, limit: Some(25), shortlist: None }),
        model: Some(PartialModelConfig { model_id: Some("org/m".into()), model_revision: None, max_length: None }),
    });
    assert_eq!(config.search.strategy, "hybrid");
    assert_eq!(config.search.limit, 25);
    assert_eq!(config.search.shortlist, 8);
    assert_eq!(config.model.model_id, Some("org/m".to_string()));
    config.merge_partial(PartialConfig { search: None, model: None });
    assert_eq!(config.search.limit, 25);
    assert_eq!(config.model.model_id, Some("org/m".to_string()));
}

#[test]
fn toml_is_highlighted_line_by_line() {
    let out = Config::highlight_toml("[search]\nstrategy = \"bm25\"\nlimit = 10\nverbose = true\nname = plain\n# note");
    let expected = [
        "\x1b[36m[search]\x1b[0m\n",
        "\x1b[1;34mstrategy\x1b[0m = \x1b[32m\"bm25\"\x1b[0m\n",
        "\x1b[1;34mlimit\x1b[0m = \x1b[33m10\x1b[0m\n",
        "\x1b[1;34mverbose\x1b[0m = \x1b[33mtrue\x1b[0m\n",
        "\x1b[1;34mname\x1b[0m = plain\n",
        "# note\n",
    ]
    .concat();
    assert_eq!(out, expected);
}

#[test]
fn highlighting_empty_input_is_empty() {
    assert_eq!(Config::highlight_toml(""), "");
    assert_eq!(Config::highlight_toml("x =   \n"), "\x1b[1;34mx\x1b[0m = \n");
}

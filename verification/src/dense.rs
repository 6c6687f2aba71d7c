//! The dense reranking model's identity and the on-disk layout of its assets.
use vstd::prelude::*;
use crate::paths::{components, components_of, is_rooted, join, path_join, views};
use crate::text::{chars_eq, chars_of, trim_chars, trim_spec};
use crate::cache::{opt_str_view, opt_string_view, unix_cache_root, unix_root_spec};

verus! {

/// The sentence-embedding model used when none is named.
pub const DEFAULT_MODEL_ID: &'static str = "sentence-transformers/all-MiniLM-L6-v2";

/// The model revision used when none is named.
pub const DEFAULT_MODEL_REVISION: &'static str = "main";

/// The token window used when none is named.
pub const DEFAULT_MAX_LENGTH: usize = 40;

/// The root of the model downloads: the model cache override when set, else
/// `models` under the Unix cache root when that can be found.
pub open spec fn model_cache_root_spec(
    model_override: Option<Seq<char>>,
    xdg_cache_home: Option<Seq<char>>,
    home: Option<Seq<char>>,
) -> Option<Seq<char>> {
    match model_override {
        Some(m) => Some(m),
        None => match unix_root_spec(xdg_cache_home, home) {
            Some(u) => Some(path_join(u, "models"@)),
            None => None,
        },
    }
}

/// The root of the model downloads from the values of `SIFT_MODEL_CACHE`,
/// `XDG_CACHE_HOME` and `HOME`; `None` when none is set.
pub fn choose_model_cache_root(
    model_override: Option<&str>,
    xdg_cache_home: Option<&str>,
    home: Option<&str>,
) -> (r: Option<String>)
    ensures
        opt_string_view(r) == model_cache_root_spec(
            opt_str_view(model_override),
            opt_str_view(xdg_cache_home),
            opt_str_view(home),
        ),
{
    match model_override {
        Some(m) => Some(m.to_owned()),
        None => match unix_cache_root(xdg_cache_home, home) {
            Some(u) => Some(join(u.as_str(), "models")),
            None => None,
        },
    }
}

/// The smallest token window a model spec keeps.
pub const MIN_MAX_LENGTH: usize = 8;

/// Which dense model to load: repository, revision and token window.
#[derive(Debug, Clone, PartialEq, Eq)]
pub struct DenseModelSpec {
    pub model_id: String,
    pub revision: String,
    pub max_length: usize,
}

/// Where the files of a dense model live on disk.
#[derive(Debug, Clone, PartialEq, Eq)]
pub struct ModelAssets {
    pub root: String,
    pub config: String,
    pub tokenizer_config: String,
    pub weights: String,
    pub vocab: String,
    pub pooling: String,
}

/// A model asset that must be present, where it goes and where it is fetched
/// from when it is missing.
#[derive(Debug, Clone, PartialEq, Eq)]
pub struct AssetFetch {
    pub path: String,
    pub url: String,
    pub label: String,
}

/// Why a repository path was refused.
#[derive(Debug, Clone, PartialEq, Eq)]
pub enum RepoPathError {
    /// The value is empty or white space only.
    Empty { label: String },
    /// The value is absolute or climbs with `..`.
    UnsupportedComponent { label: String, value: String },
}

/// Whether a repository path names only plain components: it is not
/// absolute and no component is `..`.
pub open spec fn plain_repo_path(value: Seq<char>) -> bool {
    !is_rooted(value) && forall|i: int|
        0 <= i < components(value).len() ==> #[trigger] components(value)[i] != seq!['.', '.']
}

/// Whether a repository path is accepted: not blank, and plain.
pub open spec fn repo_path_ok(value: Seq<char>) -> bool {
    trim_spec(value).len() > 0 && plain_repo_path(value)
}

/// The root directory of a model's assets under `cache_root`.
pub open spec fn asset_root(cache_root: Seq<char>, model_id: Seq<char>, revision: Seq<char>) -> Seq<char> {
    path_join(path_join(cache_root, model_id), revision)
}

/// The download address of one file of a Hugging Face repository.
pub open spec fn hf_resolve_url_spec(model_id: Seq<char>, revision: Seq<char>, relative: Seq<char>) -> Seq<char> {
    "https://huggingface.co/"@ + model_id + "/resolve/"@ + revision + "/"@ + relative
}

/// The asset layout of a model rooted at `root`.
pub open spec fn assets_at(root: Seq<char>, a: ModelAssets) -> bool {
    &&& a.root@ == root
    &&& a.config@ == path_join(root, "config.json"@)
    &&& a.tokenizer_config@ == path_join(root, "tokenizer_config.json"@)
    &&& a.weights@ == path_join(root, "model.safetensors"@)
    &&& a.vocab@ == path_join(root, "vocab.txt"@)
    &&& a.pooling@ == path_join(path_join(root, "1_Pooling"@), "config.json"@)
}

impl Default for DenseModelSpec {
    fn default() -> (r: Self)
        ensures
            r.model_id@ == DEFAULT_MODEL_ID@,
            r.revision@ == DEFAULT_MODEL_REVISION@,
            r.max_length == DEFAULT_MAX_LENGTH,
    {
        DenseModelSpec {
            model_id: DEFAULT_MODEL_ID.to_owned(),
            revision: DEFAULT_MODEL_REVISION.to_owned(),
            max_length: DEFAULT_MAX_LENGTH,
        }
    }
}

/// Checks that a repository path is usable as a relative directory: not
/// blank, not absolute, and without `..`.
pub fn validate_repo_path(label: &str, value: &str) -> (r: Result<(), RepoPathError>)
    ensures
        match r {
            Ok(()) => repo_path_ok(value@),
            Err(RepoPathError::Empty { label: l }) => l@ == label@ && trim_spec(value@).len() == 0,
            Err(RepoPathError::UnsupportedComponent { label: l, value: v }) => {
                &&& l@ == label@
                &&& v@ == value@
                &&& trim_spec(value@).len() > 0
                &&& !plain_repo_path(value@)
            },
        },
{
    let chars = chars_of(value);
    let trimmed = trim_chars(chars.as_slice());
    if trimmed.len() == 0 {
        return Err(RepoPathError::Empty { label: label.to_owned() });
    }
    if chars.len() > 0 && chars[0] == '/' {
        return Err(RepoPathError::UnsupportedComponent { label: label.to_owned(), value: value.to_owned() });
    }
    let comps = components_of(chars.as_slice());
    let parent = ['.', '.'];
    assert(parent@ =~= seq!['.', '.']);
    let mut i: usize = 0;
    while i < comps.len()
        invariant
            i <= comps.len(),
            views(comps@) == components(value@),
            parent@ == seq!['.', '.'],
            trim_spec(value@).len() > 0,
            !is_rooted(value@),
            forall|k: int| 0 <= k < i ==> #[trigger] components(value@)[k] != seq!['.', '.'],
        decreases comps.len() - i,
    {
        proof {
            assert(views(comps@)[i as int] == comps@[i as int]@);
        }
        if chars_eq(comps[i].as_slice(), parent.as_slice()) {
            assert(components(value@)[i as int] == seq!['.', '.']);
            return Err(RepoPathError::UnsupportedComponent { label: label.to_owned(), value: value.to_owned() });
        }
        i += 1;
    }
    Ok(())
}

/// The download address of one file of a Hugging Face repository.
pub fn hf_resolve_url(model_id: &str, revision: &str, relative: &str) -> (r: String)
    ensures
        r@ == hf_resolve_url_spec(model_id@, revision@, relative@),
{
    let mut r = "https://huggingface.co/".to_owned();
    r.append(model_id);
    r.append("/resolve/");
    r.append(revision);
    r.append("/");
    r.append(relative);
    r
}

impl DenseModelSpec {
    /// A spec from optional settings: the defaults fill what is absent, and
    /// the token window is raised to at least eight.
    pub fn with_overrides(model_id: Option<String>, revision: Option<String>, max_length: Option<usize>) -> (r: Self)
        ensures
            r.model_id@ == (match model_id { Some(m) => m@, None => DEFAULT_MODEL_ID@ }),
            r.revision@ == (match revision { Some(v) => v@, None => DEFAULT_MODEL_REVISION@ }),
            r.max_length == (match max_length {
                Some(n) => if n < MIN_MAX_LENGTH { MIN_MAX_LENGTH } else { n },
                None => DEFAULT_MAX_LENGTH,
            }),
            r.max_length >= MIN_MAX_LENGTH,
    {
        let model_id = match model_id {
            Some(m) => m,
            None => DEFAULT_MODEL_ID.to_owned(),
        };
        let revision = match revision {
            Some(v) => v,
            None => DEFAULT_MODEL_REVISION.to_owned(),
        };
        let n = match max_length {
            Some(n) => n,
            None => DEFAULT_MAX_LENGTH,
        };
        let max_length = if n < MIN_MAX_LENGTH { MIN_MAX_LENGTH } else { n };
        DenseModelSpec { model_id, revision, max_length }
    }

    /// The asset layout of this model under `cache_root`:
    /// `<model id>/<revision>/` holding the config, tokenizer config,
    /// weights, vocabulary and pooling config. Refused when the model id or
    /// the revision is blank, absolute or climbs with `..`.
    pub fn local_assets(&self, cache_root: &str) -> (r: Result<ModelAssets, RepoPathError>)
        ensures
            match r {
                Ok(a) => {
                    &&& repo_path_ok(self.model_id@)
                    &&& repo_path_ok(self.revision@)
                    &&& assets_at(asset_root(cache_root@, self.model_id@, self.revision@), a)
                },
                Err(RepoPathError::Empty { label }) => {
                    ||| label@ == "model_id"@ && trim_spec(self.model_id@).len() == 0
                    ||| label@ == "revision"@ && repo_path_ok(self.model_id@)
                        && trim_spec(self.revision@).len() == 0
                },
                Err(RepoPathError::UnsupportedComponent { label, value }) => {
                    ||| label@ == "model_id"@ && value@ == self.model_id@
                        && trim_spec(self.model_id@).len() > 0 && !plain_repo_path(self.model_id@)
                    ||| label@ == "revision"@ && value@ == self.revision@ && repo_path_ok(self.model_id@)
                        && trim_spec(self.revision@).len() > 0 && !plain_repo_path(self.revision@)
                },
            },
            r is Err <==> !(repo_path_ok(self.model_id@) && repo_path_ok(self.revision@)),
    {
        match validate_repo_path("model_id", self.model_id.as_str()) {
            Ok(()) => {},
            Err(e) => return Err(e),
        }
        match validate_repo_path("revision", self.revision.as_str()) {
            Ok(()) => {},
            Err(e) => return Err(e),
        }
        let a = join(cache_root, self.model_id.as_str());
        let root = join(a.as_str(), self.revision.as_str());
        let config = join(root.as_str(), "config.json");
        let tokenizer_config = join(root.as_str(), "tokenizer_config.json");
        let weights = join(root.as_str(), "model.safetensors");
        let vocab = join(root.as_str(), "vocab.txt");
        let p = join(root.as_str(), "1_Pooling");
        let pooling = join(p.as_str(), "config.json");
        Ok(ModelAssets { root, config, tokenizer_config, weights, vocab, pooling })
    }

    /// The asset layout under `cache_root` together with the files that must
    /// be present, in the order they are checked, each with the address it is
    /// downloaded from when missing.
    pub fn resolve_assets(&self, cache_root: &str) -> (r: Result<(ModelAssets, Vec<AssetFetch>), RepoPathError>)
        ensures
            r is Err <==> !(repo_path_ok(self.model_id@) && repo_path_ok(self.revision@)),
            match r {
                Ok((a, fetches)) => {
                    &&& assets_at(asset_root(cache_root@, self.model_id@, self.revision@), a)
                    &&& fetches@.len() == 5
                    &&& fetches@[0].path == a.config && fetch_from(fetches@[0], self, "config.json"@)
                    &&& fetches@[1].path == a.tokenizer_config && fetch_from(fetches@[1], self, "tokenizer_config.json"@)
                    &&& fetches@[2].path == a.weights && fetch_from(fetches@[2], self, "model.safetensors"@)
                    &&& fetches@[3].path == a.vocab && fetch_from(fetches@[3], self, "vocab.txt"@)
                    &&& fetches@[4].path == a.pooling && fetch_from(fetches@[4], self, "1_Pooling/config.json"@)
                    &&& fetches@[0].label@ == "transformer model config"@
                    &&& fetches@[1].label@ == "tokenizer config"@
                    &&& fetches@[2].label@ == "model weights"@
                    &&& fetches@[3].label@ == "tokenizer vocabulary"@
                    &&& fetches@[4].label@ == "pooling config"@
                },
                Err(_) => true,
            },
    {
        let assets = match self.local_assets(cache_root) {
            Ok(a) => a,
            Err(e) => return Err(e),
        };
        let mut fetches: Vec<AssetFetch> = Vec::new();
        fetches.push(self.fetch(&assets.config, "config.json", "transformer model config"));
        fetches.push(self.fetch(&assets.tokenizer_config, "tokenizer_config.json", "tokenizer config"));
        fetches.push(self.fetch(&assets.weights, "model.safetensors", "model weights"));
        fetches.push(self.fetch(&assets.vocab, "vocab.txt", "tokenizer vocabulary"));
        fetches.push(self.fetch(&assets.pooling, "1_Pooling/config.json", "pooling config"));
        Ok((assets, fetches))
    }

    fn fetch(&self, path: &String, relative: &str, label: &str) -> (r: AssetFetch)
        ensures
            r.path == *path,
            fetch_from(r, self, relative@),
            r.label@ == label@,
    {
        AssetFetch {
            path: path.clone(),
            url: hf_resolve_url(self.model_id.as_str(), self.revision.as_str(), relative),
            label: label.to_owned(),
        }
    }
}

/// Whether `f` downloads the file `relative` of the model `spec`.
pub open spec fn fetch_from(f: AssetFetch, spec: &DenseModelSpec, relative: Seq<char>) -> bool {
    f.url@ == hf_resolve_url_spec(spec.model_id@, spec.revision@, relative)
}

} // verus!

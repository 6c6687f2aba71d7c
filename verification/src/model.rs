//! Generative model preparation: where a model comes from, how it is named
//! and cached, and which preparation path a source takes.
use vstd::prelude::*;
use crate::dense::{RepoPathError, hf_resolve_url, hf_resolve_url_spec, repo_path_ok, validate_repo_path};
use crate::extract::has_extension;
use crate::hashing::{blake3_hex, hash_text_hex};
use crate::paths::{
    components, extension_chars, file_name_chars, file_name_spec, file_stem_chars, file_stem_spec,
    join_components, join_components_of, join, path_join, views, components_of,
};
use crate::text::{
    chars_eq, chars_of, contains, first_index, find_char, is_ascii_alnum, ascii_lower, seq_ascii_lower,
    seq_contains, seq_starts_with, starts_with, string_of, to_ascii_lower, extend_chars,
};

verus! {

/// The Hugging Face revision used when none is named.
pub const DEFAULT_HF_REVISION: &'static str = "main";

/// The longest cache slug kept.
pub const SLUG_LIMIT: usize = 48;

/// A model artifact format.
#[derive(Debug, Clone, Copy, PartialEq, Eq, Structural)]
pub enum ModelArtifactFormat {
    Gguf,
    HfSafetensors,
    Safetensors,
    Mlx,
}

/// Where a model comes from: a local path, or a Hugging Face repository at an
/// optional revision.
#[derive(Debug, Clone, PartialEq, Eq)]
pub enum ModelSource {
    LocalPath(String),
    HuggingFace { repo: String, revision: Option<String> },
}

/// The runtime a prepared model must suit.
#[derive(Debug, Clone, Copy, PartialEq, Eq, Structural)]
pub enum ModelRuntimeContract {
    CandleSafetensorsBundle,
}

/// How a prepared model was obtained.
#[derive(Debug, Clone, Copy, PartialEq, Eq, Structural)]
pub enum ModelPreparationMode {
    ReusedCompatible,
    DownloadedCompatible,
    ReusedConverted,
    Converted,
}

/// A model ready for the runtime, with where its files are and how it came
/// to be.
#[derive(Debug, Clone, PartialEq, Eq)]
pub struct PreparedModel {
    pub source: ModelSource,
    pub runtime_contract: ModelRuntimeContract,
    pub root: String,
    pub config: String,
    pub tokenizer: String,
    pub weights: String,
    pub generation_config: Option<String>,
    pub source_format: Option<ModelArtifactFormat>,
    pub preparation_mode: ModelPreparationMode,
    pub lossy: bool,
    pub notes: Vec<String>,
}

/// The files of a prepared bundle.
#[derive(Debug, Clone, PartialEq, Eq)]
pub struct PreparedBundlePaths {
    pub root: String,
    pub config: String,
    pub tokenizer: String,
    pub weights: String,
    pub generation_config: Option<String>,
}

/// Why a model source was refused.
#[derive(Debug, Clone, PartialEq, Eq)]
pub enum ModelError {
    /// An `hf://` source without a repository, or with an empty side of `@`.
    InvalidHuggingFaceSource { value: String },
    /// A repository path or revision that cannot name a directory.
    RepoPath(RepoPathError),
    /// A download target without a file name.
    MissingFileName { path: String },
}

/// Which preparation a source takes.
#[derive(Debug, Clone, Copy, PartialEq, Eq, Structural)]
pub enum PreparationRoute {
    /// A local directory that already is a compatible bundle.
    ReuseLocalBundle,
    /// Conversion into a compatible bundle.
    Convert,
    /// A compatible bundle fetched from Hugging Face, with conversion as the
    /// fallback where it can run.
    CompatibleHf,
}

/// The name of a format.
pub open spec fn format_label(f: ModelArtifactFormat) -> Seq<char> {
    match f {
        ModelArtifactFormat::Gguf => "gguf"@,
        ModelArtifactFormat::HfSafetensors => "hf-safetensors"@,
        ModelArtifactFormat::Safetensors => "safetensors"@,
        ModelArtifactFormat::Mlx => "mlx"@,
    }
}

/// The name of a runtime contract.
pub open spec fn contract_label(c: ModelRuntimeContract) -> Seq<char> {
    match c {
        ModelRuntimeContract::CandleSafetensorsBundle => "candle-safetensors-bundle"@,
    }
}

/// The name of a preparation mode.
pub open spec fn mode_label(m: ModelPreparationMode) -> Seq<char> {
    match m {
        ModelPreparationMode::ReusedCompatible => "reused-compatible"@,
        ModelPreparationMode::DownloadedCompatible => "downloaded-compatible"@,
        ModelPreparationMode::ReusedConverted => "reused-converted"@,
        ModelPreparationMode::Converted => "converted"@,
    }
}

/// How a source is shown: a local path as itself, a repository as
/// `hf://repo` or `hf://repo@revision`.
pub open spec fn display_spec(s: ModelSource) -> Seq<char> {
    match s {
        ModelSource::LocalPath(p) => p@,
        ModelSource::HuggingFace { repo, revision } => match revision {
            Some(v) => "hf://"@ + repo@ + "@"@ + v@,
            None => "hf://"@ + repo@,
        },
    }
}

/// What reading the source text `value` gives: a local path for text
/// without the `hf://` scheme; for `hf://repo` or `hf://repo@revision` the
/// repository split at the first `@`; and a refusal exactly when the
/// repository part is empty or `@` has an empty side.
pub open spec fn parsed_from(value: Seq<char>, r: Result<ModelSource, ModelError>) -> bool {
    &&& r is Err <==> (seq_starts_with(value, "hf://"@) && invalid_hf_source(value))
    &&& match r {
        Ok(ModelSource::LocalPath(p)) => !seq_starts_with(value, "hf://"@) && p@ == value,
        Ok(ModelSource::HuggingFace { repo, revision }) => {
            &&& seq_starts_with(value, "hf://"@)
            &&& match revision {
                Some(v) => first_index(hf_rest(value), '@') == Some(repo@.len() as int) && hf_rest(value) == repo@
                    + seq!['@'] + v@,
                None => first_index(hf_rest(value), '@') is None && repo@ == hf_rest(value),
            }
        },
        Err(ModelError::InvalidHuggingFaceSource { value: v }) => v@ == value,
        Err(_) => false,
    }
}

/// A source as plain values: whether it is local, its path or repository,
/// and its revision.
pub open spec fn source_view(s: ModelSource) -> (bool, Seq<char>, Option<Seq<char>>) {
    match s {
        ModelSource::LocalPath(p) => (true, p@, None),
        ModelSource::HuggingFace { repo, revision } => (false, repo@, match revision {
            Some(v) => Some(v@),
            None => None,
        }),
    }
}

/// Whether a source's shown form reads back as the same source: a local path
/// that does not begin with `hf://`, or a non-empty repository without `@`
/// and with a non-empty revision when one is named.
pub open spec fn round_trips(s: ModelSource) -> bool {
    match s {
        ModelSource::LocalPath(p) => !seq_starts_with(p@, "hf://"@),
        ModelSource::HuggingFace { repo, revision } => {
            &&& repo@.len() > 0
            &&& !repo@.contains('@')
            &&& match revision {
                Some(v) => v@.len() > 0,
                None => true,
            }
        },
    }
}

/// Showing a source that was read gives back the text it was read from.
pub proof fn lemma_display_after_parse(value: Seq<char>, r: Result<ModelSource, ModelError>)
    requires
        parsed_from(value, r),
        r is Ok,
    ensures
        display_spec(r->Ok_0) == value,
{
    reveal_strlit("hf://");
    reveal_strlit("@");
    match r {
        Ok(ModelSource::HuggingFace { repo, revision }) => {
            assert(value =~= value.take(5) + value.skip(5));
            match revision {
                Some(v) => {
                    assert(display_spec(r->Ok_0) =~= "hf://"@ + repo@ + "@"@ + v@);
                    assert(value =~= "hf://"@ + (repo@ + seq!['@'] + v@));
                },
                None => {},
            }
        },
        _ => {},
    }
}

/// Reading the shown form of a source gives back the same source.
pub proof fn lemma_parse_after_display(s: ModelSource, r: Result<ModelSource, ModelError>)
    requires
        round_trips(s),
        parsed_from(display_spec(s), r),
    ensures
        r is Ok,
        source_view(r->Ok_0) == source_view(s),
{
    reveal_strlit("hf://");
    reveal_strlit("@");
    let value = display_spec(s);
    match s {
        ModelSource::LocalPath(p) => {},
        ModelSource::HuggingFace { repo, revision } => {
            assert(value.take(5) =~= "hf://"@);
            assert(seq_starts_with(value, "hf://"@));
            let rest = hf_rest(value);
            crate::text::lemma_first_index(rest, '@');
            match revision {
                Some(v) => {
                    assert(rest =~= repo@ + seq!['@'] + v@);
                    assert(rest[repo@.len() as int] == '@');
                    assert forall|j: int| 0 <= j < repo@.len() implies rest[j] != '@' by {
                        assert(rest[j] == repo@[j]);
                    }
                    assert(first_index(rest, '@') == Some(repo@.len() as int));
                    match r {
                        Ok(ModelSource::HuggingFace { repo: r2, revision: v2 }) => {
                            match v2 {
                                Some(w) => {
                                    assert(r2@ =~= rest.take(repo@.len() as int));
                                    assert(repo@ =~= rest.take(repo@.len() as int));
                                    assert(w@ =~= rest.skip(repo@.len() as int + 1));
                                    assert(v@ =~= rest.skip(repo@.len() as int + 1));
                                },
                                None => {},
                            }
                        },
                        _ => {},
                    }
                },
                None => {
                    assert(rest =~= repo@);
                    assert forall|j: int| 0 <= j < rest.len() implies rest[j] != '@' by {
                        assert(rest[j] == repo@[j]);
                    }
                    match r {
                        Ok(ModelSource::HuggingFace { repo: r2, revision: v2 }) => {
                            match v2 {
                                Some(w) => {
                                    assert(rest[r2@.len() as int] == '@');
                                },
                                None => {},
                            }
                        },
                        _ => {},
                    }
                },
            }
        },
    }
}

/// The repository part of an `hf://` source text.
pub open spec fn hf_rest(value: Seq<char>) -> Seq<char> {
    value.skip(5)
}

/// Whether an `hf://` source text is refused: nothing after the scheme, or an
/// `@` with nothing before or after it.
pub open spec fn invalid_hf_source(value: Seq<char>) -> bool {
    let rest = hf_rest(value);
    rest.len() == 0 || match first_index(rest, '@') {
        Some(k) => k == 0 || k == rest.len() - 1,
        None => false,
    }
}

/// The format a repository name suggests: `gguf`, then `mlx`, then
/// `safetensors`, matched without regard to ASCII case.
pub open spec fn hf_format_spec(repo: Seq<char>) -> Option<ModelArtifactFormat> {
    let n = seq_ascii_lower(repo);
    if seq_contains(n, "gguf"@) {
        Some(ModelArtifactFormat::Gguf)
    } else if seq_contains(n, "mlx"@) {
        Some(ModelArtifactFormat::Mlx)
    } else if seq_contains(n, "safetensors"@) {
        Some(ModelArtifactFormat::HfSafetensors)
    } else {
        None
    }
}

/// The format a single model file's extension names.
pub open spec fn file_format_spec(path: Seq<char>) -> Option<ModelArtifactFormat> {
    if has_extension(path, "gguf"@) {
        Some(ModelArtifactFormat::Gguf)
    } else if has_extension(path, "safetensors"@) {
        Some(ModelArtifactFormat::Safetensors)
    } else {
        None
    }
}

/// The format of a model directory: a compatible bundle, else GGUF when any
/// entry is `.gguf`, else plain safetensors when any entry is
/// `.safetensors`.
pub open spec fn directory_format_spec(has_bundle: bool, entries: Seq<Seq<char>>) -> Option<ModelArtifactFormat> {
    if has_bundle {
        Some(ModelArtifactFormat::HfSafetensors)
    } else if exists|i: int| 0 <= i < entries.len() && has_extension(#[trigger] entries[i], "gguf"@) {
        Some(ModelArtifactFormat::Gguf)
    } else if exists|i: int| 0 <= i < entries.len() && has_extension(#[trigger] entries[i], "safetensors"@) {
        Some(ModelArtifactFormat::Safetensors)
    } else {
        None
    }
}

/// The preparation a source takes given its inferred format.
pub open spec fn route_spec(source: ModelSource, inferred: Option<ModelArtifactFormat>) -> PreparationRoute {
    match source {
        ModelSource::LocalPath(_) => if inferred == Some(ModelArtifactFormat::HfSafetensors) {
            PreparationRoute::ReuseLocalBundle
        } else {
            PreparationRoute::Convert
        },
        ModelSource::HuggingFace { .. } => if inferred == Some(ModelArtifactFormat::Gguf) {
            PreparationRoute::Convert
        } else {
            PreparationRoute::CompatibleHf
        },
    }
}

/// The text a cache slug is made from: a local path's file stem (or
/// `local-model`), or what follows the last `/` of a repository.
pub open spec fn slug_source(source: ModelSource) -> Seq<char> {
    match source {
        ModelSource::LocalPath(p) => match file_stem_spec(p@) {
            Some(stem) => stem,
            None => "local-model"@,
        },
        ModelSource::HuggingFace { repo, .. } => after_last_slash(repo@),
    }
}

/// What follows the last `/` of `s` (all of `s` without one).
pub open spec fn after_last_slash(s: Seq<char>) -> Seq<char>
    decreases s.len(),
{
    if s.len() == 0 {
        s
    } else if s.last() == '/' {
        Seq::empty()
    } else {
        after_last_slash(s.drop_last()).push(s.last())
    }
}

/// ASCII letters and digits lowercased, and every run of other characters
/// turned into one `-`.
pub open spec fn slug_chars(raw: Seq<char>) -> Seq<char>
    decreases raw.len(),
{
    if raw.len() == 0 {
        Seq::empty()
    } else {
        let s = slug_chars(raw.drop_last());
        let c = raw.last();
        if is_ascii_alnum(c) {
            s.push(ascii_lower(c))
        } else if s.len() > 0 && s.last() == '-' {
            s
        } else {
            s.push('-')
        }
    }
}

/// `s` without leading `-`.
pub open spec fn trim_start_dashes(s: Seq<char>) -> Seq<char>
    decreases s.len(),
{
    if s.len() > 0 && s[0] == '-' {
        trim_start_dashes(s.drop_first())
    } else {
        s
    }
}

/// `s` without trailing `-`.
pub open spec fn trim_end_dashes(s: Seq<char>) -> Seq<char>
    decreases s.len(),
{
    if s.len() > 0 && s.last() == '-' {
        trim_end_dashes(s.drop_last())
    } else {
        s
    }
}

/// The cache slug of a source: its slug characters without outer `-`, at
/// most 48 characters.
pub open spec fn slug_spec(source: ModelSource) -> Seq<char> {
    let t = trim_end_dashes(trim_start_dashes(slug_chars(slug_source(source))));
    if t.len() > SLUG_LIMIT {
        t.take(SLUG_LIMIT as int)
    } else {
        t
    }
}

/// Where a converted bundle of `source` is cached under `cache_root`: a
/// directory per contract, then the slug and the first sixteen hexadecimal
/// digits of the BLAKE3 key of `contract|source`.
pub open spec fn converted_root_spec(cache_root: Seq<char>, source: ModelSource, contract: ModelRuntimeContract) -> Seq<
    char,
> {
    let descriptor = contract_label(contract) + "|"@ + display_spec(source);
    path_join(path_join(cache_root, contract_label(contract)), slug_spec(source) + "-"@ + blake3_hex(descriptor).take(16))
}

/// `path` with its last component replaced by `name`.
pub open spec fn with_file_name_spec(path: Seq<char>, name: Seq<char>) -> Seq<char> {
    let c = components(path);
    path_join(join_components(c.take(c.len() - 1)), name)
}

/// Where a download into `path` is written before it is moved into place:
/// `.<file name>.part` beside it.
pub open spec fn temp_path_spec(path: Seq<char>) -> Option<Seq<char>> {
    match file_name_spec(path) {
        Some(name) => Some(with_file_name_spec(path, "."@ + name + ".part"@)),
        None => None,
    }
}

/// The files of a bundle rooted at `root`.
pub open spec fn bundle_at(root: Seq<char>, has_generation_config: bool, b: PreparedBundlePaths) -> bool {
    &&& b.root@ == root
    &&& b.config@ == path_join(root, "config.json"@)
    &&& b.tokenizer@ == path_join(root, "tokenizer.json"@)
    &&& b.weights@ == path_join(root, "model.safetensors"@)
    &&& match b.generation_config {
        Some(g) => has_generation_config && g@ == path_join(root, "generation_config.json"@),
        None => !has_generation_config,
    }
}

impl ModelArtifactFormat {
    /// The format's name.
    pub fn label(self) -> (r: &'static str)
        ensures
            r@ == format_label(self),
    {
        match self {
            ModelArtifactFormat::Gguf => "gguf",
            ModelArtifactFormat::HfSafetensors => "hf-safetensors",
            ModelArtifactFormat::Safetensors => "safetensors",
            ModelArtifactFormat::Mlx => "mlx",
        }
    }
}

impl ModelRuntimeContract {
    /// The contract's name.
    pub fn label(self) -> (r: &'static str)
        ensures
            r@ == contract_label(self),
    {
        match self {
            ModelRuntimeContract::CandleSafetensorsBundle => "candle-safetensors-bundle",
        }
    }
}

impl ModelPreparationMode {
    /// The mode's name.
    pub fn label(self) -> (r: &'static str)
        ensures
            r@ == mode_label(self),
    {
        match self {
            ModelPreparationMode::ReusedCompatible => "reused-compatible",
            ModelPreparationMode::DownloadedCompatible => "downloaded-compatible",
            ModelPreparationMode::ReusedConverted => "reused-converted",
            ModelPreparationMode::Converted => "converted",
        }
    }
}

impl ModelSource {
    /// A Hugging Face repository at its default revision.
    pub fn hugging_face(repo: String) -> (r: Self)
        ensures
            r == (ModelSource::HuggingFace { repo, revision: None }),
    {
        ModelSource::HuggingFace { repo, revision: None }
    }

    /// A Hugging Face repository at a named revision.
    pub fn hugging_face_revision(repo: String, revision: String) -> (r: Self)
        ensures
            r == (ModelSource::HuggingFace { repo, revision: Some(revision) }),
    {
        ModelSource::HuggingFace { repo, revision: Some(revision) }
    }

    /// How the source is shown: the path, or `hf://repo[@revision]`.
    pub fn display_name(&self) -> (r: String)
        ensures
            r@ == display_spec(*self),
    {
        match self {
            ModelSource::LocalPath(p) => p.clone(),
            ModelSource::HuggingFace { repo, revision } => {
                let mut r = "hf://".to_owned();
                r.append(repo.as_str());
                match revision {
                    Some(v) => {
                        r.append("@");
                        r.append(v.as_str());
                    },
                    None => {},
                }
                r
            },
        }
    }

    /// Reads a source: `hf://repo` or `hf://repo@revision` names a Hugging
    /// Face repository, anything else a local path.
    pub fn parse(value: &str) -> (r: Result<ModelSource, ModelError>)
        ensures
            parsed_from(value@, r),
    {
        let chars = chars_of(value);
        let scheme = chars_of("hf://");
        proof {
            reveal_strlit("hf://");
        }
        if !starts_with(chars.as_slice(), scheme.as_slice()) {
            return Ok(ModelSource::LocalPath(value.to_owned()));
        }
        let mut rest: Vec<char> = Vec::new();
        let mut i: usize = 5;
        while i < chars.len()
            invariant
                5 <= i <= chars@.len(),
                chars@ == value@,
                rest@ == chars@.subrange(5, i as int),
            decreases chars.len() - i,
        {
            rest.push(chars[i]);
            assert(rest@ =~= chars@.subrange(5, i + 1));
            i += 1;
        }
        assert(rest@ =~= hf_rest(value@));
        if rest.len() == 0 {
            return Err(ModelError::InvalidHuggingFaceSource { value: value.to_owned() });
        }
        match find_char(rest.as_slice(), '@') {
            Some(k) => {
                if k == 0 || k == rest.len() - 1 {
                    return Err(ModelError::InvalidHuggingFaceSource { value: value.to_owned() });
                }
                let mut repo: Vec<char> = Vec::new();
                let mut j: usize = 0;
                while j < k
                    invariant
                        j <= k < rest@.len(),
                        repo@ == rest@.take(j as int),
                    decreases k - j,
                {
                    repo.push(rest[j]);
                    assert(repo@ =~= rest@.take(j + 1));
                    j += 1;
                }
                let mut rev: Vec<char> = Vec::new();
                let mut q: usize = k + 1;
                while q < rest.len()
                    invariant
                        k + 1 <= q <= rest@.len(),
                        rev@ == rest@.subrange(k + 1, q as int),
                    decreases rest.len() - q,
                {
                    rev.push(rest[q]);
                    assert(rev@ =~= rest@.subrange(k + 1, q + 1));
                    q += 1;
                }
                proof {
                    crate::text::lemma_first_index(rest@, '@');
                    assert(rest@ =~= repo@ + seq!['@'] + rev@);
                }
                Ok(ModelSource::HuggingFace {
                    repo: string_of(repo.as_slice()),
                    revision: Some(string_of(rev.as_slice())),
                })
            },
            None => Ok(ModelSource::HuggingFace { repo: string_of(rest.as_slice()), revision: None }),
        }
    }
}

impl std::str::FromStr for ModelSource {
    type Err = ModelError;

    fn from_str(value: &str) -> (r: Result<ModelSource, ModelError>)
        ensures
            parsed_from(value@, r),
    {
        ModelSource::parse(value)
    }
}

/// The format a repository name suggests.
pub fn infer_hf_source_format(repo: &str) -> (r: Option<ModelArtifactFormat>)
    ensures
        r == hf_format_spec(repo@),
{
    let n = to_ascii_lower(chars_of(repo).as_slice());
    if contains(n.as_slice(), chars_of("gguf").as_slice()) {
        Some(ModelArtifactFormat::Gguf)
    } else if contains(n.as_slice(), chars_of("mlx").as_slice()) {
        Some(ModelArtifactFormat::Mlx)
    } else if contains(n.as_slice(), chars_of("safetensors").as_slice()) {
        Some(ModelArtifactFormat::HfSafetensors)
    } else {
        None
    }
}

/// Whether a path's extension is `ext`.
fn path_has_extension(path: &str, ext: &str) -> (r: bool)
    ensures
        r == has_extension(path@, ext@),
{
    match extension_chars(chars_of(path).as_slice()) {
        Some(e) => chars_eq(e.as_slice(), chars_of(ext).as_slice()),
        None => false,
    }
}

/// The format a single model file's extension names: `.gguf` or
/// `.safetensors`.
pub fn infer_file_format(path: &str) -> (r: Option<ModelArtifactFormat>)
    ensures
        r == file_format_spec(path@),
{
    if path_has_extension(path, "gguf") {
        Some(ModelArtifactFormat::Gguf)
    } else if path_has_extension(path, "safetensors") {
        Some(ModelArtifactFormat::Safetensors)
    } else {
        None
    }
}

/// The format of a model directory, given whether it holds a compatible
/// bundle (config, tokenizer and weights) and the paths of its entries.
pub fn infer_directory_format(has_bundle: bool, entries: &[String]) -> (r: Option<ModelArtifactFormat>)
    ensures
        r == directory_format_spec(has_bundle, crate::search::strings(entries@)),
{
    if has_bundle {
        return Some(ModelArtifactFormat::HfSafetensors);
    }
    let ghost es = crate::search::strings(entries@);
    let mut has_gguf = false;
    let mut has_safetensors = false;
    let mut i: usize = 0;
    while i < entries.len()
        invariant
            i <= entries@.len(),
            es == crate::search::strings(entries@),
            has_gguf == exists|q: int| 0 <= q < i && has_extension(#[trigger] es[q], "gguf"@),
            has_safetensors == exists|q: int| 0 <= q < i && has_extension(#[trigger] es[q], "safetensors"@),
        decreases entries.len() - i,
    {
        proof {
            assert(es[i as int] == entries@[i as int]@);
        }
        if path_has_extension(entries[i].as_str(), "gguf") {
            has_gguf = true;
        }
        if path_has_extension(entries[i].as_str(), "safetensors") {
            has_safetensors = true;
        }
        i += 1;
    }
    if has_gguf {
        Some(ModelArtifactFormat::Gguf)
    } else if has_safetensors {
        Some(ModelArtifactFormat::Safetensors)
    } else {
        None
    }
}

/// The preparation a source takes: a local compatible bundle is reused, a
/// GGUF repository or any other local source is converted, and other
/// repositories are fetched as compatible bundles.
pub fn preparation_route(source: &ModelSource, inferred: Option<ModelArtifactFormat>) -> (r: PreparationRoute)
    ensures
        r == route_spec(*source, inferred),
{
    match source {
        ModelSource::LocalPath(_) => match inferred {
            Some(ModelArtifactFormat::HfSafetensors) => PreparationRoute::ReuseLocalBundle,
            _ => PreparationRoute::Convert,
        },
        ModelSource::HuggingFace { .. } => match inferred {
            Some(ModelArtifactFormat::Gguf) => PreparationRoute::Convert,
            _ => PreparationRoute::CompatibleHf,
        },
    }
}

/// What follows the last `/` of `s`.
fn after_last_slash_of(s: &[char]) -> (r: Vec<char>)
    ensures
        r@ == after_last_slash(s@),
{
    let mut r: Vec<char> = Vec::new();
    let mut i: usize = 0;
    assert(s@.take(0) =~= Seq::<char>::empty());
    while i < s.len()
        invariant
            i <= s@.len(),
            r@ == after_last_slash(s@.take(i as int)),
        decreases s.len() - i,
    {
        proof {
            let t = s@.take(i + 1);
            assert(t.drop_last() =~= s@.take(i as int));
            assert(t.last() == s@[i as int]);
        }
        if s[i] == '/' {
            r = Vec::new();
        } else {
            r.push(s[i]);
        }
        i += 1;
    }
    assert(s@.take(s@.len() as int) =~= s@);
    r
}

/// The cache slug of a source: lowercase ASCII letters and digits with one
/// `-` for each run of anything else, without outer `-`, at most 48
/// characters.
pub fn source_cache_slug(source: &ModelSource) -> (r: String)
    ensures
        r@ == slug_spec(*source),
{
    let raw: Vec<char> = match source {
        ModelSource::LocalPath(p) => match file_stem_chars(chars_of(p.as_str()).as_slice()) {
            Some(stem) => stem,
            None => chars_of("local-model"),
        },
        ModelSource::HuggingFace { repo, .. } => after_last_slash_of(chars_of(repo.as_str()).as_slice()),
    };
    assert(raw@ == slug_source(*source));
    let mut slug: Vec<char> = Vec::new();
    let mut i: usize = 0;
    assert(raw@.take(0) =~= Seq::<char>::empty());
    while i < raw.len()
        invariant
            i <= raw@.len(),
            slug@ == slug_chars(raw@.take(i as int)),
        decreases raw.len() - i,
    {
        proof {
            let t = raw@.take(i + 1);
            assert(t.drop_last() =~= raw@.take(i as int));
            assert(t.last() == raw@[i as int]);
        }
        let c = raw[i];
        if ('0' <= c && c <= '9') || ('a' <= c && c <= 'z') || ('A' <= c && c <= 'Z') {
            let l = if 'A' <= c && c <= 'Z' { crate::text::char_from_ascii_code(c as u32 + 32) } else { c };
            slug.push(l);
        } else if !(slug.len() > 0 && slug[slug.len() - 1] == '-') {
            slug.push('-');
        }
        i += 1;
    }
    assert(raw@.take(raw@.len() as int) =~= raw@);
    let mut start: usize = 0;
    assert(slug@.skip(0) =~= slug@);
    while start < slug.len() && slug[start] == '-'
        invariant
            start <= slug@.len(),
            trim_start_dashes(slug@.skip(start as int)) == trim_start_dashes(slug@),
        decreases slug.len() - start,
    {
        assert(slug@.skip(start as int).drop_first() =~= slug@.skip(start + 1));
        start += 1;
    }
    assert(trim_start_dashes(slug@.skip(start as int)) == slug@.skip(start as int));
    let ghost front = slug@.skip(start as int);
    let mut end: usize = slug.len();
    assert(front.take(end - start) =~= front);
    while end > start && slug[end - 1] == '-'
        invariant
            start <= end <= slug@.len(),
            front == slug@.skip(start as int),
            trim_end_dashes(front.take(end - start)) == trim_end_dashes(front),
        decreases end,
    {
        assert(front.take(end - start).drop_last() =~= front.take(end - 1 - start));
        end -= 1;
    }
    assert(trim_end_dashes(front.take(end - start)) == front.take(end - start));
    let limit: usize = if end - start > SLUG_LIMIT { start + SLUG_LIMIT } else { end };
    let mut out: Vec<char> = Vec::new();
    let mut j: usize = start;
    while j < limit
        invariant
            start <= j <= limit <= end <= slug@.len(),
            out@ == slug@.subrange(start as int, j as int),
        decreases limit - j,
    {
        out.push(slug[j]);
        assert(out@ =~= slug@.subrange(start as int, j + 1));
        j += 1;
    }
    proof {
        let t = front.take(end - start);
        if end - start > SLUG_LIMIT {
            assert(out@ =~= t.take(SLUG_LIMIT as int));
        } else {
            assert(out@ =~= t);
        }
    }
    string_of(out.as_slice())
}

/// The note attached to every converted bundle.
pub fn compatibility_tradeoff_note() -> (r: String)
    ensures
        r@ == "GGUF-to-safetensors preparation is a compatibility path and does not preserve native 1-bit runtime efficiency"@,
{
    "GGUF-to-safetensors preparation is a compatibility path and does not preserve native 1-bit runtime efficiency".to_owned()
}

/// Where a converted bundle of `source` is cached under `cache_root`.
pub fn converted_bundle_root(cache_root: &str, source: &ModelSource, contract: ModelRuntimeContract) -> (r: String)
    ensures
        r@ == converted_root_spec(cache_root@, *source, contract),
{
    let label = contract.label();
    let mut descriptor = label.to_owned();
    descriptor.append("|");
    let name = source.display_name();
    descriptor.append(name.as_str());
    let digest = chars_of(hash_text_hex(descriptor.as_str()).as_str());
    let mut leaf = source_cache_slug(source);
    leaf.append("-");
    let mut prefix: Vec<char> = Vec::new();
    let mut i: usize = 0;
    while i < 16
        invariant
            i <= 16 <= digest@.len(),
            prefix@ == digest@.take(i as int),
        decreases 16 - i,
    {
        prefix.push(digest[i]);
        assert(prefix@ =~= digest@.take(i + 1));
        i += 1;
    }
    let p = string_of(prefix.as_slice());
    leaf.append(p.as_str());
    let dir = join(cache_root, label);
    join(dir.as_str(), leaf.as_str())
}

/// Where a download into `path` is written before it is moved into place:
/// `.<file name>.part` in the same directory; nothing when the path has no
/// file name.
pub fn temp_download_path(path: &str) -> (r: Result<String, ModelError>)
    ensures
        match r {
            Ok(t) => temp_path_spec(path@) == Some(t@),
            Err(ModelError::MissingFileName { path: p }) => temp_path_spec(path@) is None && p@ == path@,
            Err(_) => false,
        },
{
    let chars = chars_of(path);
    let name = match file_name_chars(chars.as_slice()) {
        Some(n) => n,
        None => return Err(ModelError::MissingFileName { path: path.to_owned() }),
    };
    let mut leaf: Vec<char> = Vec::new();
    leaf.push('.');
    extend_chars(&mut leaf, name.as_slice());
    extend_chars(&mut leaf, chars_of(".part").as_slice());
    let mut comps = components_of(chars.as_slice());
    let ghost all = views(comps@);
    proof {
        assert(file_name_spec(path@) is Some);
        assert(crate::paths::normal_components(path@).len() > 0);
    }
    let _ = comps.pop();
    assert(views(comps@) =~= all.take(all.len() - 1));
    let parent = join_components_of(comps.as_slice());
    let t = crate::paths::join_chars(parent.as_slice(), leaf.as_slice());
    proof {
        reveal_strlit(".");
        reveal_strlit(".part");
        assert(leaf@ =~= "."@ + name@ + ".part"@);
    }
    Ok(string_of(t.as_slice()))
}

/// The files of a bundle rooted at `root`; the generation config is listed
/// only when present.
pub fn bundle_paths(root: &str, has_generation_config: bool) -> (r: PreparedBundlePaths)
    ensures
        bundle_at(root@, has_generation_config, r),
{
    PreparedBundlePaths {
        root: root.to_owned(),
        config: join(root, "config.json"),
        tokenizer: join(root, "tokenizer.json"),
        weights: join(root, "model.safetensors"),
        generation_config: if has_generation_config { Some(join(root, "generation_config.json")) } else { None },
    }
}

/// A prepared model for the Candle bundle contract.
pub fn build_prepared_model(
    source: ModelSource,
    bundle: PreparedBundlePaths,
    source_format: Option<ModelArtifactFormat>,
    preparation_mode: ModelPreparationMode,
    lossy: bool,
    notes: Vec<String>,
) -> (r: PreparedModel)
    ensures
        r == (PreparedModel {
            source,
            runtime_contract: ModelRuntimeContract::CandleSafetensorsBundle,
            root: bundle.root,
            config: bundle.config,
            tokenizer: bundle.tokenizer,
            weights: bundle.weights,
            generation_config: bundle.generation_config,
            source_format,
            preparation_mode,
            lossy,
            notes,
        }),
{
    PreparedModel {
        source,
        runtime_contract: ModelRuntimeContract::CandleSafetensorsBundle,
        root: bundle.root,
        config: bundle.config,
        tokenizer: bundle.tokenizer,
        weights: bundle.weights,
        generation_config: bundle.generation_config,
        source_format,
        preparation_mode,
        lossy,
        notes,
    }
}

/// Where a compatible Hugging Face bundle is cached under the model cache:
/// `<repo>/<revision>`, with `main` when no revision is named. Refused when
/// the repository or the revision cannot name a directory.
pub fn compatible_bundle_root(models_cache: &str, repo: &str, revision: Option<&str>) -> (r: Result<String, RepoPathError>)
    ensures
        ({
            let rev = match revision { Some(v) => v@, None => DEFAULT_HF_REVISION@ };
            &&& r is Ok <==> (repo_path_ok(repo@) && repo_path_ok(rev))
            &&& match r {
                Ok(root) => root@ == path_join(path_join(models_cache@, repo@), rev),
                Err(_) => true,
            }
        }),
{
    let rev = match revision {
        Some(v) => v,
        None => DEFAULT_HF_REVISION,
    };
    match validate_repo_path("repo", repo) {
        Ok(()) => {},
        Err(e) => return Err(e),
    }
    match validate_repo_path("revision", rev) {
        Ok(()) => {},
        Err(e) => return Err(e),
    }
    let a = join(models_cache, repo);
    Ok(join(a.as_str(), rev))
}

/// The files a compatible bundle is downloaded as, each with its address,
/// its destination under `root`, and whether it is required: config,
/// tokenizer and weights are, the generation config is not.
pub fn compatible_bundle_downloads(root: &str, repo: &str, revision: &str) -> (r: Vec<(String, String, bool)>)
    ensures
        r@.len() == 4,
        forall|i: int| 0 <= i < 4 ==> {
            let name = bundle_file_name(i);
            &&& (#[trigger] r@[i]).0@ == hf_resolve_url_spec(repo@, revision@, name)
            &&& r@[i].1@ == path_join(root@, name)
            &&& r@[i].2 == (i < 3)
        },
{
    let mut r: Vec<(String, String, bool)> = Vec::new();
    r.push((hf_resolve_url(repo, revision, "config.json"), join(root, "config.json"), true));
    r.push((hf_resolve_url(repo, revision, "tokenizer.json"), join(root, "tokenizer.json"), true));
    r.push((hf_resolve_url(repo, revision, "model.safetensors"), join(root, "model.safetensors"), true));
    r.push((hf_resolve_url(repo, revision, "generation_config.json"), join(root, "generation_config.json"), false));
    r
}

/// The files of a compatible bundle, in download order.
pub open spec fn bundle_file_name(i: int) -> Seq<char> {
    if i == 0 {
        "config.json"@
    } else if i == 1 {
        "tokenizer.json"@
    } else if i == 2 {
        "model.safetensors"@
    } else {
        "generation_config.json"@
    }
}

/// The notes of a compatible Hugging Face bundle: whether it was reused from
/// the cache or downloaded (and where it is), that the default revision was
/// used when it was, and, for a download, that the generation config is
/// absent when it is.
pub open spec fn compatible_notes_spec(root: Seq<char>, revision: Seq<char>, downloaded: bool, has_generation_config: bool) -> Seq<
    Seq<char>,
> {
    let first = if downloaded {
        "downloaded a compatible Hugging Face bundle into `"@ + root + "`"@
    } else {
        "reused cached compatible Hugging Face bundle at `"@ + root + "`"@
    };
    let with_revision = if revision == DEFAULT_HF_REVISION@ {
        seq![first, "using default Hugging Face revision `main`"@]
    } else {
        seq![first]
    };
    if downloaded && !has_generation_config {
        with_revision.push(
            "compatible bundle does not include `generation_config.json`; current sift runtime contract does not require it"@,
        )
    } else {
        with_revision
    }
}

/// The notes of a compatible Hugging Face bundle.
pub fn compatible_bundle_notes(root: &str, revision: &str, downloaded: bool, has_generation_config: bool) -> (r: Vec<
    String,
>)
    ensures
        crate::search::strings(r@) == compatible_notes_spec(root@, revision@, downloaded, has_generation_config),
{
    let mut first = if downloaded {
        "downloaded a compatible Hugging Face bundle into `".to_owned()
    } else {
        "reused cached compatible Hugging Face bundle at `".to_owned()
    };
    first.append(root);
    first.append("`");
    let mut notes: Vec<String> = Vec::new();
    notes.push(first);
    let main = DEFAULT_HF_REVISION.to_owned();
    if revision.to_owned() == main {
        notes.push("using default Hugging Face revision `main`".to_owned());
    }
    if downloaded && !has_generation_config {
        notes.push(
            "compatible bundle does not include `generation_config.json`; current sift runtime contract does not require it".to_owned(),
        );
    }
    proof {
        let spec = compatible_notes_spec(root@, revision@, downloaded, has_generation_config);
        assert(crate::search::strings(notes@) =~= spec);
    }
    notes
}

/// The notes of a converted bundle found in the cache.
pub fn reused_converted_notes(root: &str) -> (r: Vec<String>)
    ensures
        crate::search::strings(r@) == seq![
            "reused a previously converted compatible bundle at `"@ + root@ + "`"@,
            "GGUF-to-safetensors preparation is a compatibility path and does not preserve native 1-bit runtime efficiency"@,
        ],
{
    let mut first = "reused a previously converted compatible bundle at `".to_owned();
    first.append(root);
    first.append("`");
    let mut notes: Vec<String> = Vec::new();
    notes.push(first);
    notes.push(compatibility_tradeoff_note());
    proof {
        assert(crate::search::strings(notes@) =~= seq![
            "reused a previously converted compatible bundle at `"@ + root@ + "`"@,
            "GGUF-to-safetensors preparation is a compatibility path and does not preserve native 1-bit runtime efficiency"@,
        ]);
    }
    notes
}

/// Whether `c` may stand in a cache slug.
pub open spec fn slug_char(c: char) -> bool {
    ('a' <= c && c <= 'z') || ('0' <= c && c <= '9') || c == '-'
}

/// Whether every character of `s` may stand in a cache slug.
pub open spec fn slug_chars_ok(s: Seq<char>) -> bool {
    forall|i: int| 0 <= i < s.len() ==> slug_char(#[trigger] s[i])
}

proof fn lemma_slug_chars_ok(raw: Seq<char>)
    ensures
        slug_chars_ok(slug_chars(raw)),
    decreases raw.len(),
{
    if raw.len() > 0 {
        lemma_slug_chars_ok(raw.drop_last());
        let s = slug_chars(raw.drop_last());
        let c = raw.last();
        if is_ascii_alnum(c) {
            assert(slug_char(ascii_lower(c)));
            assert forall|i: int| 0 <= i < s.push(ascii_lower(c)).len() implies slug_char(
                #[trigger] s.push(ascii_lower(c))[i],
            ) by {
                if i < s.len() {
                    assert(s.push(ascii_lower(c))[i] == s[i]);
                }
            }
        } else {
            assert forall|i: int| 0 <= i < s.push('-').len() implies slug_char(#[trigger] s.push('-')[i]) by {
                if i < s.len() {
                    assert(s.push('-')[i] == s[i]);
                }
            }
        }
    }
}

proof fn lemma_trim_start_dashes(s: Seq<char>)
    ensures
        slug_chars_ok(s) ==> slug_chars_ok(trim_start_dashes(s)),
        trim_start_dashes(s).len() > 0 ==> trim_start_dashes(s)[0] != '-',
    decreases s.len(),
{
    if s.len() > 0 && s[0] == '-' {
        lemma_trim_start_dashes(s.drop_first());
        if slug_chars_ok(s) {
            assert forall|i: int| 0 <= i < s.drop_first().len() implies slug_char(#[trigger] s.drop_first()[i]) by {
                assert(s.drop_first()[i] == s[i + 1]);
            }
        }
    }
}

proof fn lemma_trim_end_dashes(s: Seq<char>)
    ensures
        slug_chars_ok(s) ==> slug_chars_ok(trim_end_dashes(s)),
        trim_end_dashes(s).len() > 0 ==> trim_end_dashes(s)[0] == s[0],
        trim_end_dashes(s).len() > 0 ==> trim_end_dashes(s).last() != '-',
    decreases s.len(),
{
    if s.len() > 0 && s.last() == '-' {
        lemma_trim_end_dashes(s.drop_last());
        if slug_chars_ok(s) {
            assert forall|i: int| 0 <= i < s.drop_last().len() implies slug_char(#[trigger] s.drop_last()[i]) by {
                assert(s.drop_last()[i] == s[i]);
            }
        }
    }
}

/// A cache slug holds only lowercase ASCII letters, digits and `-`, does not
/// begin with `-`, and has at most 48 characters.
pub proof fn lemma_slug_shape(source: ModelSource)
    ensures
        slug_chars_ok(slug_spec(source)),
        slug_spec(source).len() <= SLUG_LIMIT,
        slug_spec(source).len() > 0 ==> slug_spec(source)[0] != '-',
{
    let raw = slug_chars(slug_source(source));
    lemma_slug_chars_ok(slug_source(source));
    lemma_trim_start_dashes(raw);
    let a = trim_start_dashes(raw);
    lemma_trim_end_dashes(a);
    let t = trim_end_dashes(a);
    if t.len() > SLUG_LIMIT {
        assert forall|i: int| 0 <= i < t.take(SLUG_LIMIT as int).len() implies slug_char(
            #[trigger] t.take(SLUG_LIMIT as int)[i],
        ) by {
            assert(t.take(SLUG_LIMIT as int)[i] == t[i]);
        }
    }
}

} // verus!

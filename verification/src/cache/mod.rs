//! On-disk cache bookkeeping: corpus keys, cache locations, breadcrumbs,
//! frontier progress, sector partitions and the file manifest.
pub mod breadcrumb;
pub mod frontier;
pub mod model;
pub mod partition_laws;
pub mod sector;
pub mod store;

use vstd::prelude::*;
use crate::hashing::{blake3_hex, hash_text_hex};
use crate::paths::{components, components_of, join, join_chars, path_join, strip_prefix_chars, strip_prefix_spec, views};
use crate::text::{chars_eq, chars_of, string_of};

verus! {

/// The cache namespace of a corpus root: the BLAKE3 key of its path text.
pub open spec fn corpus_key(root: Seq<char>) -> Seq<char> {
    blake3_hex(root)
}

/// The cache namespace of a corpus root.
pub fn corpus_cache_key(root: &str) -> (key: String)
    ensures
        key@ == corpus_key(root@),
{
    hash_text_hex(root)
}

/// Where `path` would live under the other of two cache roots: a path under
/// `unix_root` moves under `project_root` and the reverse, and nothing moves
/// when the roots are the same path.
pub open spec fn counterpart_path_spec(
    path: Seq<char>,
    unix_root: Seq<char>,
    project_root: Seq<char>,
) -> Option<Seq<char>> {
    if components(unix_root) == components(project_root) {
        None
    } else {
        match strip_prefix_spec(path, unix_root) {
            Some(rel) => Some(path_join(project_root, rel)),
            None => match strip_prefix_spec(path, project_root) {
                Some(rel) => Some(path_join(unix_root, rel)),
                None => None,
            },
        }
    }
}

/// The path that a compatible cache lookup settles on, given which of the
/// candidates exist: an existing `path` stays; otherwise an existing
/// counterpart under the other root replaces it; otherwise `path` stays.
pub open spec fn resolved_cache_path(
    path: Seq<char>,
    counterpart: Option<Seq<char>>,
    path_exists: bool,
    counterpart_exists: bool,
) -> Seq<char> {
    if path_exists {
        path
    } else {
        match counterpart {
            Some(t) => if counterpart_exists { t } else { path },
            None => path,
        }
    }
}

/// Where `path` would live under the other cache root.
pub fn counterpart_cache_path(path: &str, unix_root: &str, project_root: &str) -> (r: Option<String>)
    ensures
        match r {
            Some(t) => counterpart_path_spec(path@, unix_root@, project_root@) == Some(t@),
            None => counterpart_path_spec(path@, unix_root@, project_root@) is None,
        },
{
    let p = chars_of(path);
    let u = chars_of(unix_root);
    let q = chars_of(project_root);
    let uc = components_of(u.as_slice());
    let qc = components_of(q.as_slice());
    if same_components(uc.as_slice(), qc.as_slice()) {
        return None;
    }
    match strip_prefix_chars(p.as_slice(), u.as_slice()) {
        Some(rel) => {
            let t = join_chars(q.as_slice(), rel.as_slice());
            Some(string_of(t.as_slice()))
        },
        None => match strip_prefix_chars(p.as_slice(), q.as_slice()) {
            Some(rel) => {
                let t = join_chars(u.as_slice(), rel.as_slice());
                Some(string_of(t.as_slice()))
            },
            None => None,
        },
    }
}

/// Whether two component lists are equal.
fn same_components(a: &[Vec<char>], b: &[Vec<char>]) -> (r: bool)
    ensures
        r == (views(a@) == views(b@)),
{
    if a.len() != b.len() {
        return false;
    }
    let mut i: usize = 0;
    while i < a.len()
        invariant
            a.len() == b.len(),
            i <= a.len(),
            forall|k: int| 0 <= k < i ==> views(a@)[k] == views(b@)[k],
        decreases a.len() - i,
    {
        proof {
            assert(views(a@)[i as int] == a@[i as int]@);
            assert(views(b@)[i as int] == b@[i as int]@);
        }
        if !chars_eq(a[i].as_slice(), b[i].as_slice()) {
            return false;
        }
        i += 1;
    }
    assert(views(a@) =~= views(b@));
    true
}

/// Calls `Path::exists`. Nothing is claimed of the answer: it depends on
/// what is on disk when the call is made.
#[verifier::external_body]
fn path_exists(path: &str) -> bool {
    std::path::Path::new(path).exists()
}

/// Calls `Path::is_file`. Nothing is claimed of the answer: it depends on
/// what is on disk when the call is made.
#[verifier::external_body]
pub(crate) fn path_is_file(path: &str) -> bool {
    std::path::Path::new(path).is_file()
}

/// The path a compatible cache lookup settles on, given which candidates
/// exist.
pub fn choose_cache_path(
    path: &str,
    counterpart: Option<String>,
    path_exists: bool,
    counterpart_exists: bool,
) -> (r: String)
    ensures
        r@ == resolved_cache_path(path@, opt_string_view(counterpart), path_exists, counterpart_exists),
{
    if path_exists {
        return path.to_owned();
    }
    match counterpart {
        Some(t) => if counterpart_exists { t } else { path.to_owned() },
        None => path.to_owned(),
    }
}

/// The view of an optional string.
pub open spec fn opt_string_view(o: Option<String>) -> Option<Seq<char>> {
    match o {
        Some(s) => Some(s@),
        None => None,
    }
}

/// The view of an optional string slice.
pub open spec fn opt_str_view(o: Option<&str>) -> Option<Seq<char>> {
    match o {
        Some(s) => Some(s@),
        None => None,
    }
}

/// The Unix cache root: `sift` under `XDG_CACHE_HOME` when that is set,
/// else `.cache/sift` under `HOME` when that is set.
pub open spec fn unix_root_spec(xdg_cache_home: Option<Seq<char>>, home: Option<Seq<char>>) -> Option<Seq<char>> {
    match xdg_cache_home {
        Some(x) => Some(path_join(x, "sift"@)),
        None => match home {
            Some(h) => Some(path_join(path_join(h, ".cache"@), "sift"@)),
            None => None,
        },
    }
}

/// The Unix cache root from the values of `XDG_CACHE_HOME` and `HOME`.
pub fn unix_cache_root(xdg_cache_home: Option<&str>, home: Option<&str>) -> (r: Option<String>)
    ensures
        opt_string_view(r) == unix_root_spec(opt_str_view(xdg_cache_home), opt_str_view(home)),
{
    match xdg_cache_home {
        Some(x) => Some(join(x, "sift")),
        None => match home {
            Some(h) => Some(join(join(h, ".cache").as_str(), "sift")),
            None => None,
        },
    }
}

/// The directory of one kind of cached data, by precedence: the kind's own
/// override; for `models`, the model cache override; the shared cache root
/// with the kind joined; the Unix cache root with the kind joined; the
/// platform cache root with the kind joined; else none.
pub open spec fn cache_dir_spec(
    cache_type: Seq<char>,
    type_override: Option<Seq<char>>,
    model_override: Option<Seq<char>>,
    shared_root: Option<Seq<char>>,
    unix_root: Option<Seq<char>>,
    project_root: Option<Seq<char>>,
) -> Option<Seq<char>> {
    if type_override is Some {
        type_override
    } else if cache_type == "models"@ && model_override is Some {
        model_override
    } else if shared_root is Some {
        Some(path_join(shared_root->0, cache_type))
    } else if unix_root is Some {
        Some(path_join(unix_root->0, cache_type))
    } else if project_root is Some {
        Some(path_join(project_root->0, cache_type))
    } else {
        None
    }
}

/// The directory of the cache kind `cache_type`, from the kind's override
/// (`SIFT_<KIND>_CACHE`), the model cache override (`SIFT_MODEL_CACHE`), the
/// shared root (`SIFT_CACHE`), the Unix cache root and the platform cache
/// root, each where it is set; `None` when none is.
pub fn choose_cache_dir(
    cache_type: &str,
    type_override: Option<&str>,
    model_override: Option<&str>,
    shared_root: Option<&str>,
    unix_root: Option<&str>,
    project_root: Option<&str>,
) -> (r: Option<String>)
    ensures
        opt_string_view(r) == cache_dir_spec(
            cache_type@,
            opt_str_view(type_override),
            opt_str_view(model_override),
            opt_str_view(shared_root),
            opt_str_view(unix_root),
            opt_str_view(project_root),
        ),
{
    proof {
        reveal_strlit("models");
    }
    if let Some(t) = type_override {
        return Some(t.to_owned());
    }
    let kind = chars_of(cache_type);
    let models = chars_of("models");
    if chars_eq(kind.as_slice(), models.as_slice()) {
        if let Some(m) = model_override {
            return Some(m.to_owned());
        }
    }
    match (shared_root, unix_root, project_root) {
        (Some(s), _, _) => Some(join(s, cache_type)),
        (None, Some(u), _) => Some(join(u, cache_type)),
        (None, None, Some(q)) => Some(join(q, cache_type)),
        (None, None, None) => None,
    }
}

/// The counterpart of `path` under the other cache root, when both roots are
/// known.
pub open spec fn counterpart_with_roots(path: Seq<char>, unix_root: Option<&str>, project_root: Option<&str>) -> Option<Seq<char>> {
    match (unix_root, project_root) {
        (Some(u), Some(q)) => counterpart_path_spec(path, u@, q@),
        _ => None,
    }
}

/// Settles a cache path between the Unix cache root and the platform project
/// cache root: the path itself when it exists, else its counterpart under the
/// other root when that exists, else the path itself. Which of these exist is
/// asked of the disk, and `choose_cache_path` decides on the answers; the
/// result is that choice for some answers.
pub fn resolve_compatible_cache_path(
    path: &str,
    unix_root: Option<&str>,
    project_root: Option<&str>,
) -> (r: String)
    ensures
        exists|path_found: bool, counterpart_found: bool|
            r@ == #[trigger] resolved_cache_path(
                path@,
                counterpart_with_roots(path@, unix_root, project_root),
                path_found,
                counterpart_found,
            ),
        r@ == path@ || counterpart_with_roots(path@, unix_root, project_root) == Some(r@),
{
    let found = path_exists(path);
    let counterpart = match (unix_root, project_root) {
        (Some(u), Some(q)) => counterpart_cache_path(path, u, q),
        _ => None,
    };
    let counterpart_found = if found {
        false
    } else {
        match &counterpart {
            Some(t) => path_exists(t.as_str()),
            None => false,
        }
    };
    let ghost cv = opt_string_view(counterpart);
    let r = choose_cache_path(path, counterpart, found, counterpart_found);
    proof {
        assert(cv == counterpart_with_roots(path@, unix_root, project_root));
        assert(r@ == resolved_cache_path(path@, cv, found, counterpart_found));
    }
    r
}

} // verus!

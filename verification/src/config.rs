//! Search and model settings, their defaults, the merging of partial settings
//! read from configuration files, and terminal highlighting of TOML text.
use vstd::prelude::*;
use crate::text::{
    char_is_numeric, char_seqs, find_char, first_index, chars_eq, chars_of, concat, extend_chars, extend_str, lines_of,
    lines_spec, seq_ends_with, seq_starts_with, string_of, trim_chars, trim_end_chars, trim_end_spec,
    trim_spec, unicode_numeric,
};

verus! {

/// Search settings.
#[derive(Debug, Clone, PartialEq, Eq)]
pub struct SearchConfig {
    pub strategy: String,
    pub limit: usize,
    pub shortlist: usize,
}

/// Dense model settings; absent values fall back to the built-in model.
#[derive(Debug, Clone, PartialEq, Eq)]
pub struct ModelConfig {
    pub model_id: Option<String>,
    pub model_revision: Option<String>,
    pub max_length: Option<usize>,
}

/// All settings.
#[derive(Debug, Clone, PartialEq, Eq)]
pub struct Config {
    pub search: SearchConfig,
    pub model: ModelConfig,
}

/// Search settings as one configuration file gives them.
#[derive(Debug, Clone, PartialEq, Eq)]
pub struct PartialSearchConfig {
    pub strategy: Option<String>,
    pub limit: Option<usize>,
    pub shortlist: Option<usize>,
}

/// Model settings as one configuration file gives them.
#[derive(Debug, Clone, PartialEq, Eq)]
pub struct PartialModelConfig {
    pub model_id: Option<String>,
    pub model_revision: Option<String>,
    pub max_length: Option<usize>,
}

/// Settings as one configuration file gives them.
#[derive(Debug, Clone, PartialEq, Eq)]
pub struct PartialConfig {
    pub search: Option<PartialSearchConfig>,
    pub model: Option<PartialModelConfig>,
}

/// The default search strategy.
pub fn default_strategy() -> (r: String)
    ensures
        r@ == "hybrid"@,
{
    "hybrid".to_owned()
}

/// The default result limit.
pub fn default_limit() -> (r: usize)
    ensures
        r == 10,
{
    10
}

/// The default dense shortlist.
pub fn default_shortlist() -> (r: usize)
    ensures
        r == 8,
{
    8
}

impl Default for SearchConfig {
    /// Hybrid search, ten results, a shortlist of eight.
    fn default() -> (r: Self)
        ensures
            r.strategy@ == "hybrid"@,
            r.limit == 10,
            r.shortlist == 8,
    {
        SearchConfig { strategy: default_strategy(), limit: default_limit(), shortlist: default_shortlist() }
    }
}

impl Default for ModelConfig {
    /// No model setting.
    fn default() -> (r: Self)
        ensures
            r.model_id is None,
            r.model_revision is None,
            r.max_length is None,
    {
        ModelConfig { model_id: None, model_revision: None, max_length: None }
    }
}

impl Default for Config {
    /// Default search settings and no model setting.
    fn default() -> (r: Self)
        ensures
            r.search.strategy@ == "hybrid"@,
            r.search.limit == 10,
            r.search.shortlist == 8,
            r.model.model_id is None,
            r.model.model_revision is None,
            r.model.max_length is None,
    {
        Config { search: SearchConfig::default(), model: ModelConfig::default() }
    }
}

/// The view of an optional string.
pub open spec fn opt_str(o: Option<String>) -> Option<Seq<char>> {
    match o {
        Some(s) => Some(s@),
        None => None,
    }
}

/// `new` when it is given, else `old`.
pub open spec fn or_keep<T>(new: Option<T>, old: T) -> T {
    match new {
        Some(v) => v,
        None => old,
    }
}

/// `new` when it is given, else `old`.
pub open spec fn or_keep_opt<T>(new: Option<T>, old: Option<T>) -> Option<T> {
    if new is Some { new } else { old }
}

/// The line of highlighted output for one line of TOML: a section header in
/// cyan; a key in bold blue, then ` = `, then the trimmed value in green when
/// quoted, in yellow when `true`, `false`, `null` or numeric, else plain; any
/// other line as it is.
pub open spec fn highlight_line(line: Seq<char>) -> Seq<char> {
    let t = trim_spec(line);
    if seq_starts_with(t, "["@) && seq_ends_with(t, "]"@) {
        "\x1b[36m"@ + line + "\x1b[0m\n"@
    } else {
        match first_index(line, '=') {
            Some(k) => {
                let key = trim_end_spec(line.take(k));
                let value = trim_spec(line.skip(k + 1));
                "\x1b[1;34m"@ + key + "\x1b[0m = "@ + highlight_value(value)
            },
            None => line + "\n"@,
        }
    }
}

/// The highlighted form of a trimmed TOML value, with its line break.
pub open spec fn highlight_value(v: Seq<char>) -> Seq<char> {
    if seq_starts_with(v, "\""@) {
        "\x1b[32m"@ + v + "\x1b[0m\n"@
    } else if v == "true"@ || v == "false"@ || v == "null"@ {
        "\x1b[33m"@ + v + "\x1b[0m\n"@
    } else if v.len() > 0 && is_numeric_text(v) {
        "\x1b[33m"@ + v + "\x1b[0m\n"@
    } else {
        v + "\n"@
    }
}

/// Whether every character of `v` is numeric or a `.`.
pub open spec fn is_numeric_text(v: Seq<char>) -> bool {
    forall|i: int| 0 <= i < v.len() ==> unicode_numeric(#[trigger] v[i]) || v[i] == '.'
}

/// The highlighted form of every line of `input`.
pub open spec fn highlight_spec(input: Seq<char>) -> Seq<char> {
    concat(lines_spec(input).map_values(|l: Seq<char>| highlight_line(l)))
}

/// Whether every character of `v` is numeric or a `.`.
fn numeric_text(v: &[char]) -> (r: bool)
    ensures
        r == is_numeric_text(v@),
{
    let mut i: usize = 0;
    while i < v.len()
        invariant
            i <= v.len(),
            forall|j: int| 0 <= j < i ==> unicode_numeric(#[trigger] v@[j]) || v@[j] == '.',
        decreases v.len() - i,
    {
        let c = v[i];
        if !(char_is_numeric(c) || c == '.') {
            return false;
        }
        i += 1;
    }
    true
}

/// The highlighted form of a trimmed value.
fn highlight_value_chars(out: &mut Vec<char>, v: &[char])
    ensures
        final(out)@ == old(out)@ + highlight_value(v@),
{
    let quote = chars_of("\"");
    let t = chars_of("true");
    let f = chars_of("false");
    let n = chars_of("null");
    let keyword = chars_eq(v, t.as_slice()) || chars_eq(v, f.as_slice()) || chars_eq(v, n.as_slice());
    if crate::text::starts_with(v, quote.as_slice()) {
        extend_str(out, "\x1b[32m");
        extend_chars(out, v);
        extend_str(out, "\x1b[0m\n");
    } else if keyword {
        extend_str(out, "\x1b[33m");
        extend_chars(out, v);
        extend_str(out, "\x1b[0m\n");
    } else if v.len() > 0 && numeric_text(v) {
        extend_str(out, "\x1b[33m");
        extend_chars(out, v);
        extend_str(out, "\x1b[0m\n");
    } else {
        extend_chars(out, v);
        extend_str(out, "\n");
    }
}

/// Appends the highlighted form of one line.
fn highlight_line_chars(out: &mut Vec<char>, line: &[char])
    ensures
        final(out)@ == old(out)@ + highlight_line(line@),
{
    let t = trim_chars(line);
    let open = chars_of("[");
    let close = chars_of("]");
    if crate::text::starts_with(t.as_slice(), open.as_slice()) && crate::text::ends_with(t.as_slice(), close.as_slice()) {
        extend_str(out, "\x1b[36m");
        extend_chars(out, line);
        extend_str(out, "\x1b[0m\n");
        return;
    }
    match find_char(line, '=') {
        Some(k) => {
            let mut before: Vec<char> = Vec::new();
            let mut j: usize = 0;
            while j < k
                invariant
                    k < line.len(),
                    j <= k,
                    before@ == line@.take(j as int),
                decreases k - j,
            {
                before.push(line[j]);
                j += 1;
                assert(before@ =~= line@.take(j as int));
            }
            let mut after: Vec<char> = Vec::new();
            let mut j2: usize = k + 1;
            while j2 < line.len()
                invariant
                    k < line.len(),
                    k + 1 <= j2 <= line.len(),
                    after@ == line@.subrange(k + 1, j2 as int),
                decreases line.len() - j2,
            {
                after.push(line[j2]);
                j2 += 1;
                assert(after@ =~= line@.subrange(k + 1, j2 as int));
            }
            assert(line@.subrange(k + 1, line@.len() as int) =~= line@.skip(k + 1));
            let key = trim_end_chars(before.as_slice());
            let value = trim_chars(after.as_slice());
            extend_str(out, "\x1b[1;34m");
            extend_chars(out, key.as_slice());
            extend_str(out, "\x1b[0m = ");
            highlight_value_chars(out, value.as_slice());
        },
        None => {
            extend_chars(out, line);
            extend_str(out, "\n");
        },
    }
}

impl Config {
    /// Overlays the settings that `partial` gives onto these.
    pub fn merge_partial(&mut self, partial: PartialConfig)
        ensures
            final(self).search.strategy@ == match partial.search {
                Some(s) => or_keep(opt_str(s.strategy), old(self).search.strategy@),
                None => old(self).search.strategy@,
            },
            final(self).search.limit == match partial.search {
                Some(s) => or_keep(s.limit, old(self).search.limit),
                None => old(self).search.limit,
            },
            final(self).search.shortlist == match partial.search {
                Some(s) => or_keep(s.shortlist, old(self).search.shortlist),
                None => old(self).search.shortlist,
            },
            opt_str(final(self).model.model_id) == match partial.model {
                Some(m) => or_keep_opt(opt_str(m.model_id), opt_str(old(self).model.model_id)),
                None => opt_str(old(self).model.model_id),
            },
            opt_str(final(self).model.model_revision) == match partial.model {
                Some(m) => or_keep_opt(opt_str(m.model_revision), opt_str(old(self).model.model_revision)),
                None => opt_str(old(self).model.model_revision),
            },
            final(self).model.max_length == match partial.model {
                Some(m) => or_keep_opt(m.max_length, old(self).model.max_length),
                None => old(self).model.max_length,
            },
    {
        if let Some(search) = partial.search {
            if let Some(strategy) = search.strategy {
                self.search.strategy = strategy;
            }
            if let Some(limit) = search.limit {
                self.search.limit = limit;
            }
            if let Some(shortlist) = search.shortlist {
                self.search.shortlist = shortlist;
            }
        }
        if let Some(model) = partial.model {
            if model.model_id.is_some() {
                self.model.model_id = model.model_id;
            }
            if model.model_revision.is_some() {
                self.model.model_revision = model.model_revision;
            }
            if model.max_length.is_some() {
                self.model.max_length = model.max_length;
            }
        }
    }

    /// `input` with ANSI colours: section headers, keys and values of
    /// key-value lines are coloured line by line.
    pub fn highlight_toml(input: &str) -> (r: String)
        ensures
            r@ == highlight_spec(input@),
    {
        let cs = chars_of(input);
        let lines = lines_of(cs.as_slice());
        let ghost parts = lines_spec(input@).map_values(|l: Seq<char>| highlight_line(l));
        let mut out: Vec<char> = Vec::new();
        let mut i: usize = 0;
        while i < lines.len()
            invariant
                i <= lines.len(),
                char_seqs(lines@) == lines_spec(input@),
                parts == lines_spec(input@).map_values(|l: Seq<char>| highlight_line(l)),
                out@ == concat(parts.take(i as int)),
            decreases lines.len() - i,
        {
            highlight_line_chars(&mut out, lines[i].as_slice());
            proof {
                assert(parts.take(i + 1).drop_last() =~= parts.take(i as int));
                assert(char_seqs(lines@)[i as int] == lines@[i as int]@);
            }
            i += 1;
        }
        assert(parts.take(i as int) =~= parts);
        string_of(out.as_slice())
    }
}

/// The TOML keywords `true`, `false` and `null` are all shown alike: in
/// yellow, followed by a line break.
pub proof fn lemma_keywords_are_yellow(v: Seq<char>)
    requires
        v == "true"@ || v == "false"@ || v == "null"@,
    ensures
        highlight_value(v) == "\x1b[33m"@ + v + "\x1b[0m\n"@,
{
    reveal_strlit("true");
    reveal_strlit("false");
    reveal_strlit("null");
    reveal_strlit("\"");
    assert(!seq_starts_with(v, "\""@)) by {
        let q = "\""@;
        assert(q.len() == 1 && q[0] == '"');
        assert(v[0] != '"');
        if seq_starts_with(v, q) {
            assert(v.subrange(0, 1)[0] == v[0]);
            assert(v.take(1)[0] == v[0]);
        }
    }
}

/// Keywords are highlighted as numbers are: a keyword value and a number
/// value get the same colour before them and the same reset after them.
pub proof fn lemma_keywords_colour_like_numbers(v: Seq<char>, n: Seq<char>)
    requires
        v == "true"@ || v == "false"@ || v == "null"@,
        n.len() > 0,
        is_numeric_text(n),
        !seq_starts_with(n, "\""@),
        n != "true"@ && n != "false"@ && n != "null"@,
    ensures
        highlight_value(v) == "\x1b[33m"@ + v + "\x1b[0m\n"@,
        highlight_value(n) == "\x1b[33m"@ + n + "\x1b[0m\n"@,
{
    lemma_keywords_are_yellow(v);
}

} // verus!

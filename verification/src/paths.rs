//! Paths as text, with the Unix meaning of `std::path` for the operations the
//! library needs: joining, splitting into components, stripping a prefix, and
//! reading the file name, stem and extension.
//!
//! A path is a sequence of characters separated by `/`. Its components are its
//! non-empty segments other than `.`, preceded by the root marker `/` when the
//! path starts with `/`, or by `.` when it starts with the current directory
//! (`.` alone or `./`). A remainder left by stripping a prefix is the rest of
//! the text as written, without leading or trailing separators and `.`
//! segments.
use vstd::prelude::*;
use crate::text::{chars_eq, chars_of, extend_chars, string_of};

verus! {

/// The views of a sequence of character vectors.
pub open spec fn views(s: Seq<Vec<char>>) -> Seq<Seq<char>> {
    s.map_values(|v: Vec<char>| v@)
}

/// `base` joined with `p`: an absolute `p` replaces `base`; otherwise one
/// separator is inserted unless `base` is empty or already ends with one.
pub open spec fn path_join(base: Seq<char>, p: Seq<char>) -> Seq<char> {
    if p.len() > 0 && p[0] == '/' {
        p
    } else if base.len() == 0 || base.last() == '/' {
        base + p
    } else {
        base + seq!['/'] + p
    }
}

/// The segments of `s` between `/` separators (always at least one).
pub open spec fn segments(s: Seq<char>) -> Seq<Seq<char>>
    decreases s.len(),
{
    if s.len() == 0 {
        seq![Seq::empty()]
    } else {
        let r = segments(s.drop_last());
        if s.last() == '/' {
            r.push(Seq::empty())
        } else {
            r.update(r.len() - 1, r.last().push(s.last()))
        }
    }
}

/// A segment that names something: not empty and not `.`.
pub open spec fn is_normal(seg: Seq<char>) -> bool {
    seg.len() > 0 && seg != seq!['.']
}

/// The segments of `segs` that name something, in order.
pub open spec fn keep_normal(segs: Seq<Seq<char>>) -> Seq<Seq<char>>
    decreases segs.len(),
{
    if segs.len() == 0 {
        Seq::empty()
    } else {
        let r = keep_normal(segs.drop_last());
        if is_normal(segs.last()) {
            r.push(segs.last())
        } else {
            r
        }
    }
}

/// The named components of `s` (the root marker not included).
pub open spec fn normal_components(s: Seq<char>) -> Seq<Seq<char>> {
    keep_normal(segments(s))
}

/// Whether `s` is an absolute path.
pub open spec fn is_rooted(s: Seq<char>) -> bool {
    s.len() > 0 && s[0] == '/'
}

/// Whether a relative path begins with the current-directory component:
/// it is `.` or begins with `./`.
pub open spec fn leads_with_cur_dir(s: Seq<char>) -> bool {
    s.len() > 0 && s[0] == '.' && (s.len() == 1 || s[1] == '/')
}

/// The components of `s`: the root marker `/` when rooted, or `.` when the
/// path begins with the current directory, then the named ones.
pub open spec fn components(s: Seq<char>) -> Seq<Seq<char>> {
    if is_rooted(s) {
        seq![seq!['/']] + normal_components(s)
    } else if leads_with_cur_dir(s) {
        seq![seq!['.']] + normal_components(s)
    } else {
        normal_components(s)
    }
}

/// The components `cs` rejoined with single separators.
pub open spec fn join_components(cs: Seq<Seq<char>>) -> Seq<char>
    decreases cs.len(),
{
    if cs.len() == 0 {
        Seq::empty()
    } else if cs.len() == 1 {
        cs[0]
    } else {
        path_join(join_components(cs.drop_last()), cs.last())
    }
}

/// The segments `segs` after the first `n` of them that name something.
pub open spec fn after_named(segs: Seq<Seq<char>>, n: nat) -> Seq<Seq<char>>
    decreases segs.len(),
{
    if n == 0 || segs.len() == 0 {
        segs
    } else if is_normal(segs[0]) {
        after_named(segs.drop_first(), (n - 1) as nat)
    } else {
        after_named(segs.drop_first(), n)
    }
}

/// `segs` without its leading segments that name nothing (empty or `.`).
pub open spec fn trim_front(segs: Seq<Seq<char>>) -> Seq<Seq<char>>
    decreases segs.len(),
{
    if segs.len() > 0 && !is_normal(segs[0]) {
        trim_front(segs.drop_first())
    } else {
        segs
    }
}

/// `segs` without its trailing segments that name nothing (empty or `.`).
pub open spec fn trim_back(segs: Seq<Seq<char>>) -> Seq<Seq<char>>
    decreases segs.len(),
{
    if segs.len() > 0 && !is_normal(segs.last()) {
        trim_back(segs.drop_last())
    } else {
        segs
    }
}

/// The segments `segs` joined with `/`.
pub open spec fn join_segments(segs: Seq<Seq<char>>) -> Seq<char>
    decreases segs.len(),
{
    if segs.len() == 0 {
        Seq::empty()
    } else if segs.len() == 1 {
        segs[0]
    } else {
        join_segments(segs.drop_last()) + seq!['/'] + segs.last()
    }
}

/// The text of `s` after its first `k` components, as written between
/// them, without leading or trailing separators and `.` segments. With no
/// component taken, the whole path without its trailing ones (the root and
/// a leading `.` stay).
pub open spec fn text_after(s: Seq<char>, k: nat) -> Seq<char> {
    let segs = segments(s);
    if k == 0 {
        if is_rooted(s) {
            seq!['/'] + join_segments(trim_back(segs.drop_first()))
        } else if leads_with_cur_dir(s) {
            if trim_back(segs.drop_first()).len() == 0 {
                seq!['.']
            } else {
                seq!['.', '/'] + join_segments(trim_back(segs.drop_first()))
            }
        } else {
            join_segments(trim_back(segs))
        }
    } else if is_rooted(s) || leads_with_cur_dir(s) {
        join_segments(trim_back(trim_front(after_named(segs.drop_first(), (k - 1) as nat))))
    } else {
        join_segments(trim_back(trim_front(after_named(segs, k))))
    }
}

/// What is left of `path` after its leading components `base`, if `base`'s
/// components are a prefix of `path`'s, as `Path::strip_prefix` gives it:
/// the rest of the text as written.
pub open spec fn strip_prefix_spec(path: Seq<char>, base: Seq<char>) -> Option<Seq<char>> {
    let pc = components(path);
    let bc = components(base);
    if bc.len() <= pc.len() && pc.take(bc.len() as int) == bc {
        Some(text_after(path, bc.len()))
    } else {
        None
    }
}

/// The last component of `s`, unless it is `..` or there is none.
pub open spec fn file_name_spec(s: Seq<char>) -> Option<Seq<char>> {
    let c = normal_components(s);
    if c.len() == 0 || c.last() == seq!['.', '.'] {
        None
    } else {
        Some(c.last())
    }
}

/// The position of the last `.` in `name`, if any.
pub open spec fn last_dot(name: Seq<char>) -> Option<int>
    decreases name.len(),
{
    if name.len() == 0 {
        None
    } else if name.last() == '.' {
        Some(name.len() - 1)
    } else {
        last_dot(name.drop_last())
    }
}

/// The extension of a file name: what follows its last `.`, when that `.` is
/// not the first character and the name is not `..`.
pub open spec fn name_extension(name: Seq<char>) -> Option<Seq<char>> {
    if name == seq!['.', '.'] {
        None
    } else {
        match last_dot(name) {
            Some(k) => if k > 0 { Some(name.skip(k + 1)) } else { None },
            None => None,
        }
    }
}

/// The stem of a file name: what precedes its extension's `.`, or the whole
/// name when it has no extension.
pub open spec fn name_stem(name: Seq<char>) -> Seq<char> {
    if name == seq!['.', '.'] {
        name
    } else {
        match last_dot(name) {
            Some(k) => if k > 0 { name.take(k) } else { name },
            None => name,
        }
    }
}

/// The extension of the path `s`.
pub open spec fn extension_spec(s: Seq<char>) -> Option<Seq<char>> {
    match file_name_spec(s) {
        Some(name) => name_extension(name),
        None => None,
    }
}

/// The file stem of the path `s`.
pub open spec fn file_stem_spec(s: Seq<char>) -> Option<Seq<char>> {
    match file_name_spec(s) {
        Some(name) => Some(name_stem(name)),
        None => None,
    }
}

proof fn lemma_segments_nonempty(s: Seq<char>)
    ensures
        segments(s).len() >= 1,
    decreases s.len(),
{
    if s.len() > 0 {
        lemma_segments_nonempty(s.drop_last());
    }
}

/// `base` joined with `p`.
pub fn join_chars(base: &[char], p: &[char]) -> (r: Vec<char>)
    ensures
        r@ == path_join(base@, p@),
{
    let mut r: Vec<char> = Vec::new();
    if p.len() > 0 && p[0] == '/' {
        extend_chars(&mut r, p);
        return r;
    }
    extend_chars(&mut r, base);
    if base.len() > 0 && base[base.len() - 1] != '/' {
        r.push('/');
    }
    extend_chars(&mut r, p);
    r
}

/// `base` joined with `p`, as `Path::join` on Unix.
pub fn join(base: &str, p: &str) -> (r: String)
    ensures
        r@ == path_join(base@, p@),
{
    let b = chars_of(base);
    let q = chars_of(p);
    let r = join_chars(b.as_slice(), q.as_slice());
    string_of(r.as_slice())
}

/// The named components of `s`.
pub fn normal_components_of(s: &[char]) -> (r: Vec<Vec<char>>)
    ensures
        views(r@) == normal_components(s@),
{
    let mut comps: Vec<Vec<char>> = Vec::new();
    let mut cur: Vec<char> = Vec::new();
    let mut i: usize = 0;
    proof {
        assert(s@.take(0) =~= Seq::<char>::empty());
    }
    while i < s.len()
        invariant
            i <= s.len(),
            segments(s@.take(i as int)).len() >= 1,
            views(comps@) == keep_normal(segments(s@.take(i as int)).drop_last()),
            cur@ == segments(s@.take(i as int)).last(),
        decreases s.len() - i,
    {
        let c = s[i];
        let ghost prev = s@.take(i as int);
        let ghost next = s@.take(i + 1);
        proof {
            assert(next.drop_last() =~= prev);
            lemma_segments_nonempty(prev);
        }
        if c == '/' {
            let dot = ['.'];
            let normal = cur.len() > 0 && !chars_eq(cur.as_slice(), dot.as_slice());
            proof {
                assert(dot@ =~= seq!['.']);
                assert(segments(next) == segments(prev).push(Seq::empty()));
                assert(segments(next).drop_last() =~= segments(prev));
            }
            if normal {
                let ghost before = comps@;
                comps.push(cur);
                proof {
                    assert(views(comps@) =~= views(before).push(segments(prev).last()));
                }
            }
            cur = Vec::new();
            proof {
                assert(cur@ =~= Seq::<char>::empty());
            }
        } else {
            proof {
                let r = segments(prev);
                assert(segments(next) == r.update(r.len() - 1, r.last().push(c)));
                assert(segments(next).drop_last() =~= r.drop_last());
            }
            cur.push(c);
        }
        i += 1;
    }
    proof {
        assert(s@.take(s@.len() as int) =~= s@);
        let segs = segments(s@);
        assert(keep_normal(segs) == if is_normal(segs.last()) {
            keep_normal(segs.drop_last()).push(segs.last())
        } else {
            keep_normal(segs.drop_last())
        });
    }
    let dot = ['.'];
    if cur.len() > 0 && !chars_eq(cur.as_slice(), dot.as_slice()) {
        proof {
            assert(dot@ =~= seq!['.']);
        }
        let ghost before = comps@;
        comps.push(cur);
        proof {
            assert(views(comps@) =~= views(before).push(segments(s@).last()));
        }
    } else {
        proof {
            assert(dot@ =~= seq!['.']);
        }
    }
    comps
}


/// Pushing a vector pushes its view.
pub proof fn lemma_views_push(s: Seq<Vec<char>>, v: Vec<char>)
    ensures
        views(s.push(v)) == views(s).push(v@),
{
    assert(views(s.push(v)) =~= views(s).push(v@));
}

/// The view of an optional character vector.
pub open spec fn opt_view(o: Option<Vec<char>>) -> Option<Seq<char>> {
    match o {
        Some(v) => Some(v@),
        None => None,
    }
}

/// The file name of `s`, as `Path::file_name`.
pub fn file_name_chars(s: &[char]) -> (r: Option<Vec<char>>)
    ensures
        opt_view(r) == file_name_spec(s@),
{
    let mut comps = normal_components_of(s);
    if comps.len() == 0 {
        return None;
    }
    let last = comps.pop().unwrap();
    let dots = ['.', '.'];
    proof {
        assert(dots@ =~= seq!['.', '.']);
    }
    if chars_eq(last.as_slice(), dots.as_slice()) {
        None
    } else {
        Some(last)
    }
}

/// The position of the last `.` in `name`.
pub fn last_dot_of(name: &[char]) -> (r: Option<usize>)
    ensures
        match r {
            Some(k) => last_dot(name@) == Some(k as int) && k < name.len(),
            None => last_dot(name@) is None,
        },
{
    let mut i: usize = name.len();
    assert(name@.take(i as int) =~= name@);
    while i > 0
        invariant
            i <= name.len(),
            last_dot(name@) == last_dot(name@.take(i as int)),
        decreases i,
    {
        proof {
            assert(name@.take(i as int).drop_last() =~= name@.take(i - 1));
        }
        if name[i - 1] == '.' {
            return Some(i - 1);
        }
        i -= 1;
    }
    proof {
        assert(name@.take(0) =~= Seq::<char>::empty());
    }
    None
}

/// The extension of a file name.
pub fn name_extension_of(name: &[char]) -> (r: Option<Vec<char>>)
    ensures
        opt_view(r) == name_extension(name@),
{
    let dots = ['.', '.'];
    proof {
        assert(dots@ =~= seq!['.', '.']);
    }
    if chars_eq(name, dots.as_slice()) {
        return None;
    }
    match last_dot_of(name) {
        Some(k) => {
            if k > 0 {
                let mut v: Vec<char> = Vec::new();
                let mut j: usize = k + 1;
                while j < name.len()
                    invariant
                        k + 1 <= j <= name.len(),
                        v@ == name@.subrange(k + 1, j as int),
                    decreases name.len() - j,
                {
                    v.push(name[j]);
                    j += 1;
                    assert(v@ =~= name@.subrange(k + 1, j as int));
                }
                assert(name@.subrange(k + 1, name@.len() as int) =~= name@.skip(k + 1));
                Some(v)
            } else {
                None
            }
        },
        None => None,
    }
}

/// The stem of a file name.
pub fn name_stem_of(name: &[char]) -> (r: Vec<char>)
    ensures
        r@ == name_stem(name@),
{
    let mut end: usize = name.len();
    let dots = ['.', '.'];
    proof {
        assert(dots@ =~= seq!['.', '.']);
    }
    if !chars_eq(name, dots.as_slice()) {
        match last_dot_of(name) {
            Some(k) => {
                if k > 0 {
                    end = k;
                }
            },
            None => {},
        }
    }
    let mut v: Vec<char> = Vec::new();
    let mut j: usize = 0;
    while j < end
        invariant
            end <= name.len(),
            j <= end,
            v@ == name@.take(j as int),
        decreases end - j,
    {
        v.push(name[j]);
        j += 1;
        assert(v@ =~= name@.take(j as int));
    }
    assert(name@.take(name@.len() as int) =~= name@);
    v
}

/// The extension of the path `s`, as `Path::extension`.
pub fn extension_chars(s: &[char]) -> (r: Option<Vec<char>>)
    ensures
        opt_view(r) == extension_spec(s@),
{
    match file_name_chars(s) {
        Some(name) => name_extension_of(name.as_slice()),
        None => None,
    }
}

/// The file stem of the path `s`, as `Path::file_stem`.
pub fn file_stem_chars(s: &[char]) -> (r: Option<Vec<char>>)
    ensures
        opt_view(r) == file_stem_spec(s@),
{
    match file_name_chars(s) {
        Some(name) => Some(name_stem_of(name.as_slice())),
        None => None,
    }
}

/// The components of `s`, the root marker first when `s` is absolute, or
/// `.` first when it begins with the current directory.
pub fn components_of(s: &[char]) -> (r: Vec<Vec<char>>)
    ensures
        views(r@) == components(s@),
{
    let normals = normal_components_of(s);
    let rooted = s.len() > 0 && s[0] == '/';
    let cur = !rooted && s.len() > 0 && s[0] == '.' && (s.len() == 1 || s[1] == '/');
    if rooted || cur {
        let mut r: Vec<Vec<char>> = Vec::new();
        let mut lead: Vec<char> = Vec::new();
        lead.push(if rooted { '/' } else { '.' });
        let ghost first = lead@;
        let ghost empty = r@;
        r.push(lead);
        proof {
            lemma_views_push(empty, lead);
            assert(views(r@) =~= seq![first]);
            assert(views(normals@).take(0) =~= Seq::<Seq<char>>::empty());
            assert(views(r@) =~= seq![first] + views(normals@).take(0));
        }
        let mut i: usize = 0;
        while i < normals.len()
            invariant
                i <= normals.len(),
                views(r@) == seq![first] + views(normals@).take(i as int),
            decreases normals.len() - i,
        {
            let ghost before = r@;
            let item = normals[i].clone();
            r.push(item);
            proof {
                lemma_views_push(before, item);
                assert(views(normals@)[i as int] == normals@[i as int]@);
            }
            i += 1;
            assert(views(r@) =~= seq![first] + views(normals@).take(i as int));
        }
        assert(views(normals@).take(normals@.len() as int) =~= views(normals@));
        proof {
            if rooted {
                assert(first =~= seq!['/']);
            } else {
                assert(first =~= seq!['.']);
            }
        }
        r
    } else {
        normals
    }
}

/// The components `cs` rejoined with single separators.
pub fn join_components_of(cs: &[Vec<char>]) -> (r: Vec<char>)
    ensures
        r@ == join_components(views(cs@)),
{
    if cs.len() == 0 {
        return Vec::new();
    }
    let mut r = cs[0].clone();
    let mut i: usize = 1;
    proof {
        assert(views(cs@).take(1) =~= seq![views(cs@)[0]]);
    }
    while i < cs.len()
        invariant
            1 <= i <= cs.len(),
            r@ == join_components(views(cs@).take(i as int)),
        decreases cs.len() - i,
    {
        let next = join_chars(r.as_slice(), cs[i].as_slice());
        proof {
            let t = views(cs@).take(i + 1);
            assert(t.drop_last() =~= views(cs@).take(i as int));
            assert(t.last() == cs@[i as int]@);
        }
        r = next;
        i += 1;
    }
    assert(views(cs@).take(cs@.len() as int) =~= views(cs@));
    r
}

/// The segments of `s` are its pieces between `/`.
proof fn lemma_segments_split(s: Seq<char>)
    ensures
        segments(s) == crate::text::split_on(s, '/'),
    decreases s.len(),
{
    if s.len() > 0 {
        lemma_segments_split(s.drop_last());
    }
}

/// Whether a segment names something.
fn is_normal_segment(seg: &[char]) -> (r: bool)
    ensures
        r == is_normal(seg@),
{
    let r = seg.len() > 0 && !(seg.len() == 1 && seg[0] == '.');
    proof {
        if seg.len() == 1 && seg[0] == '.' {
            assert(seg@ =~= seq!['.']);
        }
    }
    r
}

/// `segs[i..j]` joined with `/`.
fn join_range(segs: &Vec<Vec<char>>, i: usize, j: usize) -> (r: Vec<char>)
    requires
        i <= j <= segs.len(),
    ensures
        r@ == join_segments(views(segs@).subrange(i as int, j as int)),
{
    let ghost v = views(segs@);
    let mut r: Vec<char> = Vec::new();
    if i == j {
        assert(v.subrange(i as int, j as int) =~= Seq::<Seq<char>>::empty());
        return r;
    }
    extend_chars(&mut r, segs[i].as_slice());
    assert(v.subrange(i as int, i + 1) =~= seq![v[i as int]]);
    assert(r@ == segs@[i as int]@);
    let mut m: usize = i + 1;
    while m < j
        invariant
            i < m <= j <= segs.len(),
            v == views(segs@),
            r@ == join_segments(v.subrange(i as int, m as int)),
        decreases j - m,
    {
        r.push('/');
        extend_chars(&mut r, segs[m].as_slice());
        proof {
            let t = v.subrange(i as int, m + 1);
            assert(t.drop_last() =~= v.subrange(i as int, m as int));
            assert(t.last() == segs@[m as int]@);
        }
        m += 1;
    }
    r
}

/// The text of `s` after its first `k` components.
fn text_after_of(s: &[char], k: usize) -> (r: Vec<char>)
    ensures
        r@ == text_after(s@, k as nat),
{
    proof {
        lemma_segments_split(s@);
    }
    let segs = crate::text::split_chars(s, '/');
    let ghost v = views(segs@);
    assert(v =~= crate::text::char_seqs(segs@));
    assert(v == segments(s@));
    proof {
        lemma_segments_nonempty(s@);
    }
    let rooted = s.len() > 0 && s[0] == '/';
    let cur = !rooted && s.len() > 0 && s[0] == '.' && (s.len() == 1 || s[1] == '/');
    let lead: usize = if rooted || cur { 1 } else { 0 };
    let n = segs.len();
    if k == 0 {
        let mut j: usize = n;
        assert(v.subrange(lead as int, n as int) =~= if lead == 1 { v.drop_first() } else { v });
        while j > lead && !is_normal_segment(segs[j - 1].as_slice())
            invariant
                lead <= j <= n,
                n == v.len(),
                v == views(segs@),
                trim_back(v.subrange(lead as int, n as int)) == trim_back(v.subrange(lead as int, j as int)),
            decreases j,
        {
            proof {
                let t = v.subrange(lead as int, j as int);
                assert(t.last() == segs@[j - 1]@);
                assert(t.drop_last() =~= v.subrange(lead as int, j - 1));
            }
            j -= 1;
        }
        proof {
            let t = v.subrange(lead as int, j as int);
            if j > lead {
                assert(t.last() == segs@[j - 1]@);
            }
            assert(trim_back(t) == t);
        }
        let body = join_range(&segs, lead, j);
        if rooted {
            let mut r: Vec<char> = Vec::new();
            r.push('/');
            extend_chars(&mut r, body.as_slice());
            return r;
        } else if cur {
            let mut r: Vec<char> = Vec::new();
            r.push('.');
            if j > lead {
                r.push('/');
                extend_chars(&mut r, body.as_slice());
                assert(r@ =~= seq!['.', '/'] + body@);
            } else {
                assert(r@ =~= seq!['.']);
            }
            return r;
        } else {
            return body;
        }
    }
    let mut i: usize = lead;
    let mut left: usize = if lead == 1 { k - 1 } else { k };
    let ghost first_n: nat = left as nat;
    assert(v.subrange(lead as int, n as int) =~= if lead == 1 { v.drop_first() } else { v });
    while left > 0 && i < n
        invariant
            lead <= i <= n,
            n == v.len(),
            v == views(segs@),
            after_named(v.subrange(lead as int, n as int), first_n)
                == after_named(v.subrange(i as int, n as int), left as nat),
        decreases n - i,
    {
        let t = is_normal_segment(segs[i].as_slice());
        proof {
            let w = v.subrange(i as int, n as int);
            assert(w[0] == segs@[i as int]@);
            assert(w.drop_first() =~= v.subrange(i + 1, n as int));
        }
        if t {
            left -= 1;
        }
        i += 1;
    }
    proof {
        let w = v.subrange(i as int, n as int);
        assert(after_named(w, left as nat) == w);
    }
    while i < n && !is_normal_segment(segs[i].as_slice())
        invariant
            lead <= i <= n,
            n == v.len(),
            v == views(segs@),
            trim_front(after_named(v.subrange(lead as int, n as int), first_n))
                == trim_front(v.subrange(i as int, n as int)),
        decreases n - i,
    {
        proof {
            let w = v.subrange(i as int, n as int);
            assert(w[0] == segs@[i as int]@);
            assert(w.drop_first() =~= v.subrange(i + 1, n as int));
        }
        i += 1;
    }
    proof {
        let w = v.subrange(i as int, n as int);
        if i < n {
            assert(w[0] == segs@[i as int]@);
        }
        assert(trim_front(w) == w);
    }
    let mut j: usize = n;
    while j > i && !is_normal_segment(segs[j - 1].as_slice())
        invariant
            lead <= i <= j <= n,
            n == v.len(),
            v == views(segs@),
            trim_back(v.subrange(i as int, n as int)) == trim_back(v.subrange(i as int, j as int)),
        decreases j,
    {
        proof {
            let t = v.subrange(i as int, j as int);
            assert(t.last() == segs@[j - 1]@);
            assert(t.drop_last() =~= v.subrange(i as int, j - 1));
        }
        j -= 1;
    }
    proof {
        let t = v.subrange(i as int, j as int);
        if j > i {
            assert(t.last() == segs@[j - 1]@);
        }
        assert(trim_back(t) == t);
    }
    join_range(&segs, i, j)
}

/// What is left of `path` after the leading components of `base`, as
/// `Path::strip_prefix` gives it.
pub fn strip_prefix_chars(path: &[char], base: &[char]) -> (r: Option<Vec<char>>)
    ensures
        opt_view(r) == strip_prefix_spec(path@, base@),
{
    let pc = components_of(path);
    let bc = components_of(base);
    if bc.len() > pc.len() {
        return None;
    }
    let mut i: usize = 0;
    while i < bc.len()
        invariant
            bc.len() <= pc.len(),
            i <= bc.len(),
            views(pc@) == components(path@),
            views(bc@) == components(base@),
            forall|k: int| 0 <= k < i ==> views(pc@)[k] == views(bc@)[k],
        decreases bc.len() - i,
    {
        proof {
            assert(views(pc@)[i as int] == pc@[i as int]@);
            assert(views(bc@)[i as int] == bc@[i as int]@);
        }
        if !chars_eq(pc[i].as_slice(), bc[i].as_slice()) {
            proof {
                assert(views(pc@).take(bc@.len() as int)[i as int] != views(bc@)[i as int]);
                assert(views(pc@).take(bc@.len() as int) != views(bc@));
                assert(components(path@).take(components(base@).len() as int) != components(base@));
            }
            return None;
        }
        i += 1;
    }
    assert(views(pc@).take(bc@.len() as int) =~= views(bc@));
    Some(text_after_of(path, bc.len()))
}

} // verus!

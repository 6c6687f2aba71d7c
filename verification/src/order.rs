//! Lexicographic comparison of texts and of component lists, with the
//! properties that sorting relies on. A comparison is `-1`, `0` or `1`.
use vstd::prelude::*;

verus! {

/// Lexicographic comparison of two texts by character code.
pub open spec fn text_order(a: Seq<char>, b: Seq<char>) -> int
    decreases a.len(),
{
    if a.len() == 0 {
        if b.len() == 0 { 0 } else { -1 }
    } else if b.len() == 0 {
        1
    } else if a[0] < b[0] {
        -1
    } else if a[0] > b[0] {
        1
    } else {
        text_order(a.drop_first(), b.drop_first())
    }
}

/// Lexicographic comparison of two lists of texts.
pub open spec fn list_order(a: Seq<Seq<char>>, b: Seq<Seq<char>>) -> int
    decreases a.len(),
{
    if a.len() == 0 {
        if b.len() == 0 { 0 } else { -1 }
    } else if b.len() == 0 {
        1
    } else if text_order(a[0], b[0]) != 0 {
        text_order(a[0], b[0])
    } else {
        list_order(a.drop_first(), b.drop_first())
    }
}

/// A comparison is `-1`, `0` or `1`; it is `0` exactly on equal texts, and
/// swapping the sides negates it.
pub proof fn lemma_text_order_basics(a: Seq<char>, b: Seq<char>)
    ensures
        -1 <= text_order(a, b) <= 1,
        (text_order(a, b) == 0) == (a == b),
        text_order(b, a) == -text_order(a, b),
    decreases a.len(),
{
    if a.len() > 0 && b.len() > 0 {
        lemma_text_order_basics(a.drop_first(), b.drop_first());
        if a[0] == b[0] && a.drop_first() == b.drop_first() {
            assert(a =~= seq![a[0]] + a.drop_first());
            assert(b =~= seq![b[0]] + b.drop_first());
        }
        if a == b {
            assert(a.drop_first() == b.drop_first());
        }
    } else if a.len() == 0 && b.len() > 0 {
        assert(a != b);
    } else if a.len() > 0 && b.len() == 0 {
        assert(a != b);
    } else {
        assert(a =~= b);
    }
}

/// Text comparison is transitive.
pub proof fn lemma_text_order_trans(a: Seq<char>, b: Seq<char>, c: Seq<char>)
    requires
        text_order(a, b) <= 0,
        text_order(b, c) <= 0,
    ensures
        text_order(a, c) <= 0,
    decreases a.len(),
{
    if a.len() > 0 && b.len() > 0 && c.len() > 0 {
        if a[0] == b[0] && b[0] == c[0] {
            lemma_text_order_trans(a.drop_first(), b.drop_first(), c.drop_first());
        }
    }
}

/// Strict text comparison is transitive.
pub proof fn lemma_text_order_trans_strict(a: Seq<char>, b: Seq<char>, c: Seq<char>)
    requires
        text_order(a, b) <= 0,
        text_order(b, c) <= 0,
        text_order(a, b) < 0 || text_order(b, c) < 0,
    ensures
        text_order(a, c) < 0,
{
    lemma_text_order_trans(a, b, c);
    lemma_text_order_basics(a, b);
    lemma_text_order_basics(b, c);
    lemma_text_order_basics(a, c);
    if text_order(a, c) == 0 {
        assert(a == c);
        lemma_text_order_basics(b, a);
    }
}

/// List comparison is `-1`, `0` or `1`; it is `0` exactly on equal lists,
/// and swapping the sides negates it.
pub proof fn lemma_list_order_basics(a: Seq<Seq<char>>, b: Seq<Seq<char>>)
    ensures
        -1 <= list_order(a, b) <= 1,
        (list_order(a, b) == 0) == (a == b),
        list_order(b, a) == -list_order(a, b),
    decreases a.len(),
{
    if a.len() > 0 && b.len() > 0 {
        lemma_text_order_basics(a[0], b[0]);
        lemma_list_order_basics(a.drop_first(), b.drop_first());
        if a[0] == b[0] && a.drop_first() == b.drop_first() {
            assert(a =~= seq![a[0]] + a.drop_first());
            assert(b =~= seq![b[0]] + b.drop_first());
        }
        if a == b {
            assert(a.drop_first() == b.drop_first());
        }
    } else if a.len() == 0 && b.len() > 0 {
        assert(a != b);
    } else if a.len() > 0 && b.len() == 0 {
        assert(a != b);
    } else {
        assert(a =~= b);
    }
}

/// List comparison is transitive.
pub proof fn lemma_list_order_trans(a: Seq<Seq<char>>, b: Seq<Seq<char>>, c: Seq<Seq<char>>)
    requires
        list_order(a, b) <= 0,
        list_order(b, c) <= 0,
    ensures
        list_order(a, c) <= 0,
    decreases a.len(),
{
    if a.len() > 0 && b.len() > 0 && c.len() > 0 {
        lemma_text_order_basics(a[0], b[0]);
        lemma_text_order_basics(b[0], c[0]);
        lemma_text_order_basics(a[0], c[0]);
        if text_order(a[0], b[0]) == 0 && text_order(b[0], c[0]) == 0 {
            lemma_list_order_trans(a.drop_first(), b.drop_first(), c.drop_first());
        } else {
            lemma_text_order_trans(a[0], b[0], c[0]);
            lemma_text_order_trans_strict(a[0], b[0], c[0]);
        }
    }
}

/// Compares two texts.
pub fn compare_chars(a: &[char], b: &[char]) -> (r: i8)
    ensures
        r as int == text_order(a@, b@),
{
    let mut i: usize = 0;
    assert(a@.skip(0) =~= a@);
    assert(b@.skip(0) =~= b@);
    while i < a.len() && i < b.len()
        invariant
            i <= a.len(),
            i <= b.len(),
            text_order(a@, b@) == text_order(a@.skip(i as int), b@.skip(i as int)),
        decreases a.len() - i,
    {
        let ghost sa = a@.skip(i as int);
        let ghost sb = b@.skip(i as int);
        if a[i] < b[i] {
            return -1;
        }
        if a[i] > b[i] {
            return 1;
        }
        proof {
            assert(sa.drop_first() =~= a@.skip(i + 1));
            assert(sb.drop_first() =~= b@.skip(i + 1));
        }
        i += 1;
    }
    if i < a.len() {
        1
    } else if i < b.len() {
        -1
    } else {
        0
    }
}

/// The views of a list of character vectors.
pub open spec fn char_views(s: Seq<Vec<char>>) -> Seq<Seq<char>> {
    s.map_values(|v: Vec<char>| v@)
}

/// Compares two component lists.
pub fn compare_lists(a: &[Vec<char>], b: &[Vec<char>]) -> (r: i8)
    ensures
        r as int == list_order(char_views(a@), char_views(b@)),
{
    let mut i: usize = 0;
    assert(char_views(a@).skip(0) =~= char_views(a@));
    assert(char_views(b@).skip(0) =~= char_views(b@));
    while i < a.len() && i < b.len()
        invariant
            i <= a.len(),
            i <= b.len(),
            list_order(char_views(a@), char_views(b@))
                == list_order(char_views(a@).skip(i as int), char_views(b@).skip(i as int)),
        decreases a.len() - i,
    {
        let ghost sa = char_views(a@).skip(i as int);
        let ghost sb = char_views(b@).skip(i as int);
        let c = compare_chars(a[i].as_slice(), b[i].as_slice());
        proof {
            assert(sa[0] == a@[i as int]@);
            assert(sb[0] == b@[i as int]@);
        }
        if c != 0 {
            return c;
        }
        proof {
            assert(sa.drop_first() =~= char_views(a@).skip(i + 1));
            assert(sb.drop_first() =~= char_views(b@).skip(i + 1));
        }
        i += 1;
    }
    if i < a.len() {
        1
    } else if i < b.len() {
        -1
    } else {
        0
    }
}

} // verus!

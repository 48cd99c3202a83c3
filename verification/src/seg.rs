//! Grapheme-cluster segmentation: the abstract segmentation of a character
//! sequence into clusters, the trusted call into the segmentation crate,
//! and the lemmas about concatenating cluster ranges that the line and
//! buffer operations rest on.

use vstd::prelude::*;

verus! {

use vstd::seq_lib::lemma_flatten_concat;
use vstd::string::StringExecFns;
use unicode_segmentation::UnicodeSegmentation;

/// The extended grapheme clusters of a character sequence, in order.
/// What this yields on given characters is decided by the segmentation
/// crate alone; the library only relies on the facts stated where the
/// call is made: the clusters are nonempty and concatenate back to the
/// original sequence.
pub uninterp spec fn clusters_of(s: Seq<char>) -> Seq<Seq<char>>;

/// The views of a vector of cluster strings.
pub open spec fn views_of(gs: Seq<String>) -> Seq<Seq<char>> {
    gs.map_values(|g: String| g@)
}

/// The number of grapheme clusters of a character sequence.
pub open spec fn cluster_count(s: Seq<char>) -> nat {
    clusters_of(s).len()
}

/// The facts about a sequence's segmentation that every operation relies
/// on: the clusters concatenate back to the sequence, and none is empty.
/// Established wherever the segmentation call is actually made.
pub open spec fn seg_wf(s: Seq<char>) -> bool {
    &&& clusters_of(s).flatten() == s
    &&& forall|i: int| 0 <= i < clusters_of(s).len() ==> clusters_of(s)[i].len() > 0
}

/// A column index clamped into `[0, cluster_count(s)]`.
pub open spec fn clamp_col(s: Seq<char>, k: int) -> int {
    if k > cluster_count(s) {
        cluster_count(s) as int
    } else {
        k
    }
}

/// The characters of the first `k` clusters of `s` (all of `s` when `k`
/// is past the last cluster).
pub open spec fn chars_before(s: Seq<char>, k: int) -> Seq<char> {
    clusters_of(s).take(clamp_col(s, k)).flatten()
}

/// The characters of the clusters of `s` from cluster `k` on (empty when
/// `k` is past the last cluster).
pub open spec fn chars_from(s: Seq<char>, k: int) -> Seq<char> {
    clusters_of(s).skip(clamp_col(s, k)).flatten()
}

/// Relies on unicode-segmentation's `UnicodeSegmentation::graphemes` for
/// `str` (with extended clusters selected): it walks the boundaries of the
/// string in order, so the yielded clusters are nonempty substrings that
/// concatenate back to the whole string, and an empty string yields none.
#[verifier::external_body]
pub(crate) fn grapheme_clusters(s: &str) -> (r: Vec<String>)
    ensures
        views_of(r@) == clusters_of(s@),
        views_of(r@).flatten() == s@,
        forall|i: int| 0 <= i < r@.len() ==> r@[i]@.len() > 0,
        s@.len() == 0 ==> r@.len() == 0,
{
    s.graphemes(true).map(|g| g.to_string()).collect()
}

/// Relies on `String::push`: appends one character to the string.
#[verifier::external_body]
pub(crate) fn push_char(s: &mut String, c: char)
    ensures
        final(s)@ == old(s)@ + seq![c],
{
    s.push(c);
}

/// Splitting a sequence of clusters at `k` and flattening the two halves
/// gives the flattening of the whole.
pub proof fn lemma_flatten_split(css: Seq<Seq<char>>, k: int)
    requires
        0 <= k <= css.len(),
    ensures
        css.take(k).flatten() + css.skip(k).flatten() == css.flatten(),
{
    lemma_flatten_concat(css.take(k), css.skip(k));
    assert(css.take(k) + css.skip(k) =~= css);
}

/// Extending a flattened prefix range by one cluster appends that cluster.
pub proof fn lemma_flatten_range_step(css: Seq<Seq<char>>, a: int, i: int)
    requires
        0 <= a <= i < css.len(),
    ensures
        css.subrange(a, i + 1).flatten() == css.subrange(a, i).flatten() + css[i],
{
    lemma_flatten_concat(css.subrange(a, i), seq![css[i]]);
    assert(css.subrange(a, i) + seq![css[i]] =~= css.subrange(a, i + 1));
    seq![css[i]].lemma_flatten_one_element();
}

/// A character occurs in a concatenation exactly when it occurs in one of
/// the parts.
pub proof fn lemma_concat_contains(a: Seq<char>, b: Seq<char>, ch: char)
    ensures
        (a + b).contains(ch) <==> a.contains(ch) || b.contains(ch),
{
    if a.contains(ch) {
        let i = choose|i: int| 0 <= i < a.len() && a[i] == ch;
        assert((a + b)[i] == ch);
    }
    if b.contains(ch) {
        let i = choose|i: int| 0 <= i < b.len() && b[i] == ch;
        assert((a + b)[a.len() + i] == ch);
    }
    if (a + b).contains(ch) {
        let i = choose|i: int| 0 <= i < (a + b).len() && (a + b)[i] == ch;
        if i < a.len() {
            assert(a[i] == ch);
        } else {
            assert(b[i - a.len()] == ch);
        }
    }
}

/// The concatenation of the clusters of `gs` numbered `[a, b)`, built by
/// appending them in order.
pub fn concat_range(gs: &Vec<String>, a: usize, b: usize) -> (r: String)
    requires
        a <= b <= gs@.len(),
    ensures
        r@ == views_of(gs@).subrange(a as int, b as int).flatten(),
{
    let ghost css = views_of(gs@);
    let mut r = String::new();
    let mut i: usize = a;
    while i < b
        invariant
            a <= i <= b <= gs@.len(),
            css == views_of(gs@),
            r@ == css.subrange(a as int, i as int).flatten(),
        decreases b - i,
    {
        r.append(gs[i].as_str());
        proof {
            assert(css[i as int] == gs@[i as int]@);
            lemma_flatten_range_step(css, a as int, i as int);
        }
        i = i + 1;
    }
    r
}

} // verus!

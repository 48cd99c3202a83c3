//! A single editable line of text, addressed in grapheme clusters: a
//! character column never splits a multi-codepoint glyph. Every mutation
//! re-derives the cluster boundaries of the new content and refreshes the
//! cached cluster count.

use vstd::prelude::*;

verus! {

use vstd::string::StringExecFns;
use vstd::string::StrSliceExecFns;
use crate::seg::clusters_of;
use crate::seg::cluster_count;
use crate::seg::chars_before;
use crate::seg::chars_from;
use crate::seg::seg_wf;
use crate::seg::clamp_col;
use crate::seg::views_of;
use crate::seg::grapheme_clusters;
use crate::seg::push_char;
use crate::seg::concat_range;
use crate::seg::lemma_flatten_split;
use crate::seg::lemma_flatten_range_step;

/// The content a line holds after a character is inserted at column `at`:
/// the clusters before the column, the character, then the rest. A column
/// past the end degrades to appending.
pub open spec fn line_insert_spec(s: Seq<char>, at: int, c: char) -> Seq<char> {
    chars_before(s, at) + seq![c] + chars_from(s, at)
}

/// The content a line holds after the cluster at column `at` is deleted;
/// a column past the end leaves the line unchanged.
pub open spec fn line_delete_spec(s: Seq<char>, at: int) -> Seq<char> {
    if at >= cluster_count(s) {
        s
    } else {
        chars_before(s, at) + chars_from(s, at + 1)
    }
}

/// How one cluster is displayed: a tab becomes a single space.
pub open spec fn render_cluster(g: Seq<char>) -> Seq<char> {
    if g == seq!['\t'] {
        seq![' ']
    } else {
        g
    }
}

/// The display projection of a line over the cluster window `[start, end)`:
/// `end` is clamped to the cluster count and `start` to the clamped `end`.
pub open spec fn line_render_spec(s: Seq<char>, start: int, end: int) -> Seq<char> {
    let e = clamp_col(s, end);
    let st = if start > e {
        e
    } else {
        start
    };
    clusters_of(s).subrange(st, e).map_values(|g: Seq<char>| render_cluster(g)).flatten()
}

/// One editable line: its text and a cached count of its grapheme
/// clusters, recomputed after every mutation.
#[derive(Debug)]
pub struct Line {
    string: String,
    len: usize,
}

impl View for Line {
    type V = Seq<char>;

    closed spec fn view(&self) -> Seq<char> {
        self.string@
    }
}

impl Line {
    /// The cached count equals the number of clusters of the content, and
    /// the facts of the content's segmentation are at hand.
    pub closed spec fn wf(self) -> bool {
        &&& self.len == cluster_count(self.string@)
        &&& seg_wf(self.string@)
    }

    /// A well-formed line carries the segmentation facts of its content.
    pub proof fn lemma_wf_seg(l: Line)
        requires
            l.wf(),
        ensures
            seg_wf(l@),
    {
    }

    /// The number of grapheme clusters of the content.
    pub fn len(&self) -> (r: usize)
        requires
            self.wf(),
        ensures
            r == cluster_count(self@),
    {
        self.len
    }

    /// Whether the line holds no clusters at all.
    pub fn is_empty(&self) -> (r: bool)
        requires
            self.wf(),
        ensures
            r == (cluster_count(self@) == 0),
    {
        self.len == 0
    }

    /// Recomputes the cached cluster count from the current content.
    pub fn update_len(&mut self)
        ensures
            final(self)@ == old(self)@,
            final(self).wf(),
    {
        let gs = grapheme_clusters(self.string.as_str());
        proof {
            assert forall|i: int|
                0 <= i < clusters_of(self.string@).len() implies clusters_of(self.string@)[i].len()
                > 0 by {
                assert(views_of(gs@)[i] == gs@[i]@);
            }
            assert(views_of(gs@).len() == gs@.len());
        }
        self.len = gs.len();
    }

    /// A new line holding the given text.
    pub fn from(slice: &str) -> (r: Line)
        ensures
            r@ == slice@,
            r.wf(),
    {
        let mut line = Line { string: String::from_str(slice), len: 0 };
        line.update_len();
        line
    }

    /// Inserts `c` at cluster column `at`; a column at or past the end
    /// appends. Never fails.
    pub fn insert(&mut self, at: usize, c: char)
        requires
            old(self).wf(),
        ensures
            final(self)@ == line_insert_spec(old(self)@, at as int, c),
            final(self).wf(),
    {
        let ghost s0 = self.string@;
        let gs = grapheme_clusters(self.string.as_str());
        let n = gs.len();
        let k = if at < n {
            at
        } else {
            n
        };
        let mut s = concat_range(&gs, 0, k);
        push_char(&mut s, c);
        let tail = concat_range(&gs, k, n);
        s.append(tail.as_str());
        proof {
            let css = clusters_of(s0);
            assert(views_of(gs@).len() == gs@.len());
            assert(css.subrange(0, k as int) =~= css.take(clamp_col(s0, at as int)));
            assert(css.subrange(k as int, n as int) =~= css.skip(clamp_col(s0, at as int)));
        }
        self.string = s;
        self.update_len();
    }

    /// Deletes the cluster at column `at`, shifting the rest left; a
    /// column at or past the end is a no-op.
    pub fn delete(&mut self, at: usize)
        requires
            old(self).wf(),
        ensures
            final(self)@ == line_delete_spec(old(self)@, at as int),
            final(self).wf(),
    {
        if at >= self.len {
            return ;
        }
        let ghost s0 = self.string@;
        let gs = grapheme_clusters(self.string.as_str());
        let n = gs.len();
        proof {
            assert(views_of(gs@).len() == gs@.len());
        }
        let mut s = concat_range(&gs, 0, at);
        let tail = concat_range(&gs, at + 1, n);
        s.append(tail.as_str());
        proof {
            let css = clusters_of(s0);
            assert(css.subrange(0, at as int) =~= css.take(clamp_col(s0, at as int)));
            assert(css.subrange(at + 1, n as int) =~= css.skip(clamp_col(s0, at + 1)));
        }
        self.string = s;
        self.update_len();
    }

    /// Appends the other line's content onto this one; the other line is
    /// left untouched.
    pub fn append(&mut self, new: &Line)
        requires
            old(self).wf(),
        ensures
            final(self)@ == old(self)@ + new@,
            final(self).wf(),
    {
        self.string.append(new.string.as_str());
        self.update_len();
    }

    /// Truncates this line to its first `at` clusters and returns the
    /// remainder; the two contents concatenate to the original.
    pub fn split(&mut self, at: usize) -> (r: Line)
        requires
            old(self).wf(),
        ensures
            final(self)@ == chars_before(old(self)@, at as int),
            r@ == chars_from(old(self)@, at as int),
            final(self).wf(),
            r.wf(),
    {
        let ghost s0 = self.string@;
        let gs = grapheme_clusters(self.string.as_str());
        let n = gs.len();
        let k = if at < n {
            at
        } else {
            n
        };
        let beginning = concat_range(&gs, 0, k);
        let remainder = concat_range(&gs, k, n);
        proof {
            let css = clusters_of(s0);
            assert(views_of(gs@).len() == gs@.len());
            assert(css.subrange(0, k as int) =~= css.take(clamp_col(s0, at as int)));
            assert(css.subrange(k as int, n as int) =~= css.skip(clamp_col(s0, at as int)));
        }
        self.string = beginning;
        self.update_len();
        Line::from(remainder.as_str())
    }

    /// The display string for the cluster window `[start, end)`, with each
    /// tab shown as a single space. Pure: the line is not changed.
    pub fn render(&self, start: usize, end: usize) -> (r: String)
        requires
            self.wf(),
        ensures
            r@ == line_render_spec(self@, start as int, end as int),
    {
        let ghost s0 = self.string@;
        let gs = grapheme_clusters(self.string.as_str());
        let n = gs.len();
        let e = if end < n {
            end
        } else {
            n
        };
        let st = if start < e {
            start
        } else {
            e
        };
        let ghost m = clusters_of(s0).map_values(|g: Seq<char>| render_cluster(g));
        proof {
            assert(views_of(gs@).len() == gs@.len());
        }
        let mut r = String::new();
        let mut i: usize = st;
        while i < e
            invariant
                st <= i <= e <= n,
                n == gs@.len(),
                e == clamp_col(s0, end as int),
                st == (if start as int > clamp_col(s0, end as int) {
                    clamp_col(s0, end as int)
                } else {
                    start as int
                }),
                views_of(gs@) == clusters_of(s0),
                m == clusters_of(s0).map_values(|g: Seq<char>| render_cluster(g)),
                r@ == m.subrange(st as int, i as int).flatten(),
            decreases e - i,
        {
            let g = &gs[i];
            let is_tab = g.as_str().unicode_len() == 1 && g.as_str().get_char(0) == '\t';
            proof {
                assert(views_of(gs@)[i as int] == gs@[i as int]@);
                reveal_strlit(" ");
                reveal_strlit("\t");
                if is_tab {
                    assert(g@ =~= seq!['\t']);
                } else {
                    assert(g@ != seq!['\t']) by {
                        reveal_strlit("\t");
                        if g@ == seq!['\t'] {
                            assert(g@.len() == 1 && g@[0] == '\t');
                        }
                    }
                }
                assert(m[i as int] == render_cluster(clusters_of(s0)[i as int]));
                lemma_flatten_range_step(m, st as int, i as int);
            }
            if is_tab {
                r.append(" ");
            } else {
                r.append(g.as_str());
            }
            i = i + 1;
        }
        proof {
            assert(clusters_of(s0).subrange(st as int, e as int).map_values(
                |g: Seq<char>| render_cluster(g),
            ) =~= m.subrange(st as int, e as int));
        }
        r
    }

    /// The line's full text.
    pub fn text(&self) -> (r: &String)
        ensures
            r@ == self@,
    {
        &self.string
    }
}

impl Default for Line {
    /// An empty line.
    fn default() -> (r: Line)
        ensures
            r@ == Seq::<char>::empty(),
            r.wf(),
    {
        let mut line = Line { string: String::new(), len: 0 };
        line.update_len();
        line
    }
}

/// Splitting a line at any column `k` and appending the two parts in
/// order reproduces the original content exactly.
pub proof fn lemma_split_append_inverse(l: Line, k: int)
    requires
        l.wf(),
        0 <= k,
    ensures
        chars_before(l@, k) + chars_from(l@, k) == l@,
{
    lemma_flatten_split(clusters_of(l@), clamp_col(l@, k));
}

/// Inserting character `c` at column `at` and deleting at the same column
/// restores the line's content. This holds exactly when `c` stands as a
/// cluster of its own in the new segmentation, spliced in between the old
/// clusters; a character that combines with a neighbouring cluster (such
/// as a combining accent) is excluded by the premise.
pub proof fn lemma_insert_delete_inverse(l: Line, at: int, c: char)
    requires
        l.wf(),
        0 <= at <= cluster_count(l@),
        clusters_of(line_insert_spec(l@, at, c)) == clusters_of(l@).insert(at, seq![c]),
    ensures
        line_delete_spec(line_insert_spec(l@, at, c), at) == l@,
{
    let css = clusters_of(l@);
    let s1 = line_insert_spec(l@, at, c);
    let css1 = clusters_of(s1);
    assert(css1.len() == css.len() + 1);
    assert(css1.take(at) =~= css.take(at));
    assert(css1.skip(at + 1) =~= css.skip(at));
    lemma_flatten_split(css, at);
    assert(chars_before(s1, at) == css1.take(at).flatten());
    assert(chars_from(s1, at + 1) == css1.skip(at + 1).flatten());
}

} // verus!

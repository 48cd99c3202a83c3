//! The buffer: an ordered sequence of lines and the destination it saves
//! to. Position-addressed edits translate into line operations, splitting
//! a line on a newline and merging adjacent lines on a delete at a line
//! end; out-of-range positions degrade to no-ops and never fail.

use vstd::prelude::*;

verus! {

use vstd::string::StringExecFns;
use vstd::string::StrSliceExecFns;
use crate::editor::Position;
use crate::line::Line;
use crate::line::line_insert_spec;
use crate::line::line_delete_spec;
use crate::seg::clusters_of;
use crate::seg::cluster_count;
use crate::seg::chars_before;
use crate::seg::chars_from;
use crate::seg::seg_wf;
use crate::seg::views_of;
use crate::seg::clamp_col;
use crate::seg::lemma_flatten_split;
use crate::seg::lemma_flatten_range_step;
use crate::seg::lemma_concat_contains;
use crate::text::split_lines;
use crate::text::split_records;
use crate::text::strip_cr;
use crate::text::lemma_find_char_at;

/// Why a save is refused without touching anything: no destination path
/// has ever been set.
#[derive(Debug, Clone, Copy, PartialEq, Eq, Structural)]
pub enum SaveError {
    NoDestination,
}

/// The lines after a newline is inserted at `(x, y)`: past the end it is
/// ignored, at the end it appends an empty line, and inside it splits
/// line `y` at column `x` into two adjacent lines.
pub open spec fn insert_newline_spec(lines: Seq<Seq<char>>, x: int, y: int) -> Seq<Seq<char>> {
    if y > lines.len() {
        lines
    } else if y == lines.len() {
        lines.push(Seq::empty())
    } else {
        lines.subrange(0, y) + seq![chars_before(lines[y], x), chars_from(lines[y], x)]
            + lines.subrange(y + 1, lines.len() as int)
    }
}

/// The lines after character `c` is inserted at `(x, y)`: a newline
/// splits, a row past the end is ignored, a row at the end opens a new
/// line holding `c`, and otherwise line `y` takes `c` at column `x`.
pub open spec fn content_insert_spec(lines: Seq<Seq<char>>, x: int, y: int, c: char) -> Seq<
    Seq<char>,
> {
    if c == '\n' {
        insert_newline_spec(lines, x, y)
    } else if y > lines.len() {
        lines
    } else if y == lines.len() {
        lines.push(seq![c])
    } else {
        lines.update(y, line_insert_spec(lines[y], x, c))
    }
}

/// The lines after a delete at `(x, y)`: a row past the end is ignored;
/// at the end of a line that is not the last, the next line is merged
/// onto it; otherwise the cluster at column `x` of line `y` goes.
pub open spec fn content_delete_spec(lines: Seq<Seq<char>>, x: int, y: int) -> Seq<Seq<char>> {
    if y >= lines.len() {
        lines
    } else if x == cluster_count(lines[y]) && y + 1 < lines.len() {
        lines.subrange(0, y) + seq![lines[y] + lines[y + 1]] + lines.subrange(
            y + 2,
            lines.len() as int,
        )
    } else {
        lines.update(y, line_delete_spec(lines[y], x))
    }
}

/// The text a buffer persists to: each line followed by a terminator.
pub open spec fn serialize_spec(lines: Seq<Seq<char>>) -> Seq<char> {
    lines.map_values(|l: Seq<char>| l + seq!['\n']).flatten()
}

/// A line that round-trips through the persisted form: it holds no
/// terminator and no carriage return.
pub open spec fn line_clean(s: Seq<char>) -> bool {
    !s.contains('\n') && !s.contains('\r')
}

/// Every line of the buffer is clean.
pub open spec fn clean(lines: Seq<Seq<char>>) -> bool {
    forall|i: int| 0 <= i < lines.len() ==> line_clean(#[trigger] lines[i])
}

/// The buffer: the lines in visual row order, and the destination path
/// (empty meaning unsaved and unnamed).
#[derive(Debug)]
pub struct Content {
    lines: Vec<Line>,
    filename: String,
}

impl View for Content {
    type V = Seq<Seq<char>>;

    closed spec fn view(&self) -> Seq<Seq<char>> {
        self.lines@.map_values(|l: Line| l@)
    }
}

impl Content {
    /// Every line keeps its cached count and segmentation facts.
    pub closed spec fn wf(self) -> bool {
        forall|i: int| 0 <= i < self.lines@.len() ==> (#[trigger] self.lines@[i]).wf()
    }

    /// The destination path.
    pub closed spec fn spec_filename(self) -> Seq<char> {
        self.filename@
    }

    /// A well-formed buffer carries the segmentation facts of each line.
    pub proof fn lemma_wf_seg(c: Content, i: int)
        requires
            c.wf(),
            0 <= i < c@.len(),
        ensures
            seg_wf(c@[i]),
    {
        assert(c@[i] == c.lines@[i]@);
        Line::lemma_wf_seg(c.lines@[i]);
    }

    /// An empty, unnamed buffer.
    pub fn new() -> (r: Content)
        ensures
            r@ == Seq::<Seq<char>>::empty(),
            r.spec_filename() == Seq::<char>::empty(),
            r.wf(),
    {
        let r = Content { lines: Vec::new(), filename: String::new() };
        proof {
            assert(r@ =~= Seq::<Seq<char>>::empty());
        }
        r
    }

    /// A buffer built from a text read from `filename`: one line per
    /// record of the text.
    pub fn from_text(filename: &str, text: &str) -> (r: Content)
        ensures
            r@ == split_lines(text@),
            r.spec_filename() == filename@,
            r.wf(),
    {
        let recs = split_records(text);
        let mut lines: Vec<Line> = Vec::new();
        let mut i: usize = 0;
        proof {
            assert(lines@.map_values(|l: Line| l@) =~= views_of(recs@).take(0));
        }
        while i < recs.len()
            invariant
                i <= recs@.len(),
                views_of(recs@) == split_lines(text@),
                lines@.map_values(|l: Line| l@) == views_of(recs@).take(i as int),
                forall|j: int| 0 <= j < lines@.len() ==> (#[trigger] lines@[j]).wf(),
            decreases recs@.len() - i,
        {
            let ghost lines0 = lines@;
            lines.push(Line::from(recs[i].as_str()));
            proof {
                assert(views_of(recs@)[i as int] == recs@[i as int]@);
                assert(lines@.map_values(|l: Line| l@) =~= lines0.map_values(|l: Line| l@).push(
                    lines@[i as int]@,
                ));
                assert(views_of(recs@).take(i + 1) =~= views_of(recs@).take(i as int).push(
                    views_of(recs@)[i as int],
                ));
            }
            i = i + 1;
        }
        let r = Content { lines, filename: String::from_str(filename) };
        proof {
            assert(views_of(recs@).take(recs@.len() as int) =~= views_of(recs@));
        }
        r
    }

    /// The line at `index`, when there is one.
    pub fn line(&self, index: usize) -> (r: Option<&Line>)
        requires
            self.wf(),
        ensures
            index < self@.len() ==> (r matches Some(l) && l@ == self@[index as int] && l.wf()),
            index >= self@.len() ==> r is None,
    {
        if index < self.lines.len() {
            Some(&self.lines[index])
        } else {
            None
        }
    }

    /// The destination path.
    pub fn filename(&self) -> (r: &String)
        ensures
            r@ == self.spec_filename(),
    {
        &self.filename
    }

    /// How many lines the buffer holds.
    pub fn lines_count(&self) -> (r: usize)
        ensures
            r == self@.len(),
    {
        self.lines.len()
    }

    /// Whether the buffer holds no lines at all.
    pub fn is_empty(&self) -> (r: bool)
        ensures
            r == (self@.len() == 0),
    {
        self.lines.is_empty()
    }

    /// Splits line `at.y` at column `at.x` into two adjacent lines; at
    /// the end it appends an empty line, past the end it does nothing.
    pub fn insert_newline(&mut self, at: &Position)
        requires
            old(self).wf(),
        ensures
            final(self)@ == insert_newline_spec(old(self)@, at.x as int, at.y as int),
            final(self).wf(),
            final(self).spec_filename() == old(self).spec_filename(),
    {
        let len = self.lines.len();
        if at.y > len {
            return ;
        }
        if at.y == len {
            self.lines.push(Line::default());
            proof {
                assert(self@ =~= old(self)@.push(Seq::<char>::empty()));
            }
            return ;
        }
        let ghost lines0 = self.lines@;
        let mut line = self.lines.remove(at.y);
        let new_line = line.split(at.x);
        self.lines.insert(at.y, line);
        self.lines.insert(at.y + 1, new_line);
        proof {
            assert(old(self)@[at.y as int] == lines0[at.y as int]@);
            assert(self@ =~= insert_newline_spec(old(self)@, at.x as int, at.y as int));
            assert forall|j: int| 0 <= j < self.lines@.len() implies (#[trigger] self.lines@[j]).wf() by {
                if j < at.y {
                    assert(self.lines@[j] == lines0[j]);
                } else if j > at.y + 1 {
                    assert(self.lines@[j] == lines0[j - 1]);
                }
            }
        }
    }

    /// Inserts `c` at position `at` as the policy table says: a newline
    /// splits, a row at the end opens a new line, a row past the end is
    /// ignored. Never fails.
    pub fn insert(&mut self, at: &Position, c: char)
        requires
            old(self).wf(),
        ensures
            final(self)@ == content_insert_spec(old(self)@, at.x as int, at.y as int, c),
            final(self).wf(),
            final(self).spec_filename() == old(self).spec_filename(),
    {
        if c == '\n' {
            self.insert_newline(at);
            return ;
        }
        let len = self.lines.len();
        if at.y > len {
            return ;
        }
        if at.y == len {
            let mut line = Line::default();
            proof {
                Line::lemma_wf_seg(line);
                lemma_flatten_split(clusters_of(line@), 0);
                assert(chars_before(line@, 0) + chars_from(line@, 0) =~= Seq::<char>::empty());
                assert(chars_before(line@, 0) =~= Seq::<char>::empty());
                assert(chars_from(line@, 0) =~= Seq::<char>::empty());
            }
            line.insert(0, c);
            self.lines.push(line);
            proof {
                assert(line@ =~= seq![c]);
                assert(self@ =~= old(self)@.push(seq![c]));
            }
        } else {
            let ghost lines0 = self.lines@;
            let mut line = self.lines.remove(at.y);
            line.insert(at.x, c);
            self.lines.insert(at.y, line);
            proof {
                assert(old(self)@[at.y as int] == lines0[at.y as int]@);
                assert(self@ =~= old(self)@.update(
                    at.y as int,
                    line_insert_spec(old(self)@[at.y as int], at.x as int, c),
                ));
                assert forall|j: int|
                    0 <= j < self.lines@.len() implies (#[trigger] self.lines@[j]).wf() by {
                    if j != at.y {
                        assert(self.lines@[j] == lines0[j]);
                    }
                }
            }
        }
    }

    /// Deletes at position `at` as the policy table says: at the end of
    /// a line that is not the last, the next line is merged onto it;
    /// otherwise the cluster at the column goes; a row out of range is
    /// ignored. Never fails.
    pub fn delete(&mut self, at: &Position)
        requires
            old(self).wf(),
        ensures
            final(self)@ == content_delete_spec(old(self)@, at.x as int, at.y as int),
            final(self).wf(),
            final(self).spec_filename() == old(self).spec_filename(),
    {
        let len = self.lines.len();
        if at.y >= len {
            return ;
        }
        let row_len = self.lines[at.y].len();
        if at.x == row_len && at.y < len - 1 {
            let ghost lines0 = self.lines@;
            let next_line = self.lines.remove(at.y + 1);
            let mut line = self.lines.remove(at.y);
            line.append(&next_line);
            self.lines.insert(at.y, line);
            proof {
                assert(old(self)@[at.y as int] == lines0[at.y as int]@);
                assert(old(self)@[at.y + 1] == lines0[at.y + 1]@);
                assert(self@ =~= content_delete_spec(old(self)@, at.x as int, at.y as int));
                assert forall|j: int|
                    0 <= j < self.lines@.len() implies (#[trigger] self.lines@[j]).wf() by {
                    if j < at.y {
                        assert(self.lines@[j] == lines0[j]);
                    } else if j > at.y {
                        assert(self.lines@[j] == lines0[j + 1]);
                    }
                }
            }
        } else {
            let ghost lines0 = self.lines@;
            let mut row = self.lines.remove(at.y);
            row.delete(at.x);
            self.lines.insert(at.y, row);
            proof {
                assert(old(self)@[at.y as int] == lines0[at.y as int]@);
                assert(self@ =~= old(self)@.update(
                    at.y as int,
                    line_delete_spec(old(self)@[at.y as int], at.x as int),
                ));
                assert forall|j: int|
                    0 <= j < self.lines@.len() implies (#[trigger] self.lines@[j]).wf() by {
                    if j != at.y {
                        assert(self.lines@[j] == lines0[j]);
                    }
                }
            }
        }
    }

    /// The text to persist: each line followed by a terminator, in row
    /// order. Refused with `NoDestination`, and with nothing else done,
    /// exactly when no destination is set.
    pub fn save(&self) -> (r: Result<String, SaveError>)
        requires
            self.wf(),
        ensures
            r is Err <==> self.spec_filename().len() == 0,
            r matches Ok(text) ==> text@ == serialize_spec(self@),
    {
        if self.filename.as_str().is_empty() {
            Err(SaveError::NoDestination)
        } else {
            let ghost m = self@.map_values(|l: Seq<char>| l + seq!['\n']);
            let mut text = String::new();
            let mut i: usize = 0;
            proof {
                assert(text@ =~= m.subrange(0, 0).flatten());
            }
            while i < self.lines.len()
                invariant
                    i <= self.lines@.len(),
                    self.wf(),
                    m == self@.map_values(|l: Seq<char>| l + seq!['\n']),
                    text@ == m.subrange(0, i as int).flatten(),
                decreases self.lines@.len() - i,
            {
                text.append(self.lines[i].text().as_str());
                text.append("\n");
                proof {
                    reveal_strlit("\n");
                    assert("\n"@ =~= seq!['\n']);
                    assert(m[i as int] == self@[i as int] + seq!['\n']);
                    assert(self@[i as int] == self.lines@[i as int]@);
                    lemma_flatten_range_step(m, 0, i as int);
                }
                i = i + 1;
            }
            proof {
                assert(m.subrange(0, m.len() as int) =~= m);
            }
            Ok(text)
        }
    }

    /// Rebinds the destination path; nothing is written.
    pub fn set_file_name(&mut self, name: &str)
        requires
            old(self).wf(),
        ensures
            final(self)@ == old(self)@,
            final(self).spec_filename() == name@,
            final(self).wf(),
    {
        self.filename = String::from_str(name);
    }
}

/// Both parts of a line split at any column are clean when the line is.
proof fn lemma_split_parts_clean(s: Seq<char>, k: int)
    requires
        seg_wf(s),
        line_clean(s),
        0 <= k,
    ensures
        line_clean(chars_before(s, k)),
        line_clean(chars_from(s, k)),
{
    lemma_flatten_split(clusters_of(s), clamp_col(s, k));
    lemma_concat_contains(chars_before(s, k), chars_from(s, k), '\n');
    lemma_concat_contains(chars_before(s, k), chars_from(s, k), '\r');
}

proof fn lemma_roundtrip_rec(lines: Seq<Seq<char>>)
    requires
        clean(lines),
    ensures
        split_lines(serialize_spec(lines)) == lines,
    decreases lines.len(),
{
    let f = |l: Seq<char>| l + seq!['\n'];
    let m = lines.map_values(f);
    if lines.len() == 0 {
        assert(m =~= Seq::<Seq<char>>::empty());
        assert(serialize_spec(lines) =~= Seq::<char>::empty());
    } else {
        let l0 = lines[0];
        let rest = lines.skip(1);
        assert forall|j: int| 0 <= j < rest.len() implies line_clean(#[trigger] rest[j]) by {
            assert(rest[j] == lines[j + 1]);
        }
        lemma_roundtrip_rec(rest);
        let s = serialize_spec(lines);
        assert(m.drop_first() =~= rest.map_values(f));
        assert(s == m.first() + m.drop_first().flatten());
        assert(m.first() == l0 + seq!['\n']);
        assert(s == (l0 + seq!['\n']) + serialize_spec(rest));
        let i = l0.len() as int;
        assert(s[i] == (l0 + seq!['\n'])[i]);
        assert(s[i] == '\n');
        assert forall|j: int| 0 <= j < i implies s[j] != '\n' by {
            assert(s[j] == (l0 + seq!['\n'])[j]);
            assert(s[j] == l0[j]);
            if l0[j] == '\n' {
                assert(l0.contains('\n'));
            }
        }
        lemma_find_char_at(s, '\n', i);
        assert(s.take(i) =~= l0);
        assert(strip_cr(l0) == l0) by {
            if l0.len() > 0 && l0[l0.len() - 1] == '\r' {
                assert(l0.contains('\r'));
            }
        }
        assert(s.skip(i + 1) =~= serialize_spec(rest));
        assert(split_lines(s) == seq![l0] + split_lines(serialize_spec(rest)));
        assert(seq![l0] + rest =~= lines);
    }
}

/// Writing a buffer out (each line followed by a terminator) and reading
/// the text back yields the same lines, for any buffer whose lines hold
/// no terminator and no carriage return.
pub proof fn lemma_save_open_roundtrip(lines: Seq<Seq<char>>)
    requires
        clean(lines),
    ensures
        split_lines(serialize_spec(lines)) == lines,
{
    lemma_roundtrip_rec(lines);
}

/// An edit never makes a line unclean: inserting any character other
/// than a carriage return keeps every line of a clean buffer clean (a
/// newline splits a line instead of entering one).
pub proof fn lemma_insert_preserves_clean(c: Content, at: Position, ch: char)
    requires
        c.wf(),
        clean(c@),
        ch != '\r',
    ensures
        clean(content_insert_spec(c@, at.x as int, at.y as int, ch)),
{
    let lines = c@;
    let x = at.x as int;
    let y = at.y as int;
    let r = content_insert_spec(lines, x, y, ch);
    if ch == '\n' {
        if y < lines.len() {
            Content::lemma_wf_seg(c, y);
            lemma_split_parts_clean(lines[y], x);
            assert forall|i: int| 0 <= i < r.len() implies line_clean(#[trigger] r[i]) by {
                if i < y {
                    assert(r[i] == lines[i]);
                } else if i > y + 1 {
                    assert(r[i] == lines[i - 1]);
                }
            }
        } else {
            assert forall|i: int| 0 <= i < r.len() implies line_clean(#[trigger] r[i]) by {
                if i < lines.len() {
                    assert(r[i] == lines[i]);
                }
            }
        }
    } else {
        if y < lines.len() {
            Content::lemma_wf_seg(c, y);
            lemma_split_parts_clean(lines[y], x);
            let a = chars_before(lines[y], x);
            let b = chars_from(lines[y], x);
            lemma_concat_contains(a, seq![ch], '\n');
            lemma_concat_contains(a, seq![ch], '\r');
            lemma_concat_contains(a + seq![ch], b, '\n');
            lemma_concat_contains(a + seq![ch], b, '\r');
            assert(!seq![ch].contains('\n'));
            assert(!seq![ch].contains('\r'));
            assert forall|i: int| 0 <= i < r.len() implies line_clean(#[trigger] r[i]) by {
                if i != y {
                    assert(r[i] == lines[i]);
                }
            }
        } else if y == lines.len() {
            assert(!seq![ch].contains('\n'));
            assert(!seq![ch].contains('\r'));
            assert forall|i: int| 0 <= i < r.len() implies line_clean(#[trigger] r[i]) by {
                if i < lines.len() {
                    assert(r[i] == lines[i]);
                }
            }
        }
    }
}

/// A delete never makes a line unclean: both the in-line delete and the
/// merge of two adjacent clean lines yield clean lines.
pub proof fn lemma_delete_preserves_clean(c: Content, at: Position)
    requires
        c.wf(),
        clean(c@),
    ensures
        clean(content_delete_spec(c@, at.x as int, at.y as int)),
{
    let lines = c@;
    let x = at.x as int;
    let y = at.y as int;
    let r = content_delete_spec(lines, x, y);
    if y < lines.len() {
        Content::lemma_wf_seg(c, y);
        if x == cluster_count(lines[y]) && y + 1 < lines.len() {
            lemma_concat_contains(lines[y], lines[y + 1], '\n');
            lemma_concat_contains(lines[y], lines[y + 1], '\r');
            assert forall|i: int| 0 <= i < r.len() implies line_clean(#[trigger] r[i]) by {
                if i < y {
                    assert(r[i] == lines[i]);
                } else if i > y {
                    assert(r[i] == lines[i + 1]);
                }
            }
        } else {
            if x < cluster_count(lines[y]) {
                lemma_split_parts_clean(lines[y], x);
                lemma_split_parts_clean(lines[y], x + 1);
                lemma_concat_contains(
                    chars_before(lines[y], x),
                    chars_from(lines[y], x + 1),
                    '\n',
                );
                lemma_concat_contains(
                    chars_before(lines[y], x),
                    chars_from(lines[y], x + 1),
                    '\r',
                );
            }
            assert forall|i: int| 0 <= i < r.len() implies line_clean(#[trigger] r[i]) by {
                if i != y {
                    assert(r[i] == lines[i]);
                }
            }
        }
    }
}

/// Inserting a newline at the end of line `y` and deleting at the same
/// position restores the buffer: the split puts an empty line after
/// line `y`, and the delete merges it straight back.
pub proof fn lemma_newline_delete_inverse(c: Content, y: int)
    requires
        c.wf(),
        0 <= y < c@.len(),
    ensures
        content_delete_spec(
            insert_newline_spec(c@, cluster_count(c@[y]) as int, y),
            cluster_count(c@[y]) as int,
            y,
        ) == c@,
{
    let lines = c@;
    let x = cluster_count(lines[y]) as int;
    Content::lemma_wf_seg(c, y);
    lemma_flatten_split(clusters_of(lines[y]), x);
    assert(clusters_of(lines[y]).take(x) =~= clusters_of(lines[y]));
    assert(clusters_of(lines[y]).skip(x) =~= Seq::<Seq<char>>::empty());
    assert(chars_before(lines[y], x) == lines[y]);
    assert(chars_from(lines[y], x) =~= Seq::<char>::empty());
    let mid = insert_newline_spec(lines, x, y);
    assert(mid[y] == lines[y]);
    assert(mid[y + 1] =~= Seq::<char>::empty());
    assert(cluster_count(mid[y]) == x);
    assert(mid[y] + mid[y + 1] =~= lines[y]);
    assert(content_delete_spec(mid, x, y) =~~= lines);
}

/// Deleting at the end of line `y` (merging the next line onto it) and
/// inserting a newline at the same position restores the buffer. This
/// holds exactly when the merged line's segmentation splits into the
/// clusters of the two original lines at the join; a next line that
/// begins with a combining character is excluded by the premise.
pub proof fn lemma_delete_newline_inverse(c: Content, y: int)
    requires
        c.wf(),
        0 <= y,
        y + 1 < c@.len(),
        clusters_of(c@[y] + c@[y + 1]) == clusters_of(c@[y]) + clusters_of(c@[y + 1]),
    ensures
        insert_newline_spec(
            content_delete_spec(c@, cluster_count(c@[y]) as int, y),
            cluster_count(c@[y]) as int,
            y,
        ) == c@,
{
    let lines = c@;
    let a = lines[y];
    let b = lines[y + 1];
    let x = cluster_count(a) as int;
    Content::lemma_wf_seg(c, y);
    Content::lemma_wf_seg(c, y + 1);
    let mid = content_delete_spec(lines, x, y);
    assert(mid[y] == a + b);
    assert(clusters_of(a + b).take(x) =~= clusters_of(a));
    assert(clusters_of(a + b).skip(x) =~= clusters_of(b));
    assert(chars_before(a + b, x) == a);
    assert(chars_from(a + b, x) == b);
    assert(insert_newline_spec(mid, x, y) =~~= lines);
}

} // verus!

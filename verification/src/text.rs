//! Scanning of plain text: the first occurrence of a separator, the
//! records of a terminator-delimited text, and the space-separated tokens
//! of a command string, each with its executable scanner.

use vstd::prelude::*;

verus! {

use vstd::string::StringExecFns;
use vstd::string::StrSliceExecFns;
use crate::seg::views_of;

/// The index of the first occurrence of `c` in `s`, or -1 when `c` does
/// not occur.
pub open spec fn find_char(s: Seq<char>, c: char) -> int
    decreases s.len(),
{
    if s.len() == 0 {
        -1
    } else if s[0] == c {
        0
    } else {
        let r = find_char(s.skip(1), c);
        if r < 0 {
            -1
        } else {
            r + 1
        }
    }
}

/// `find_char` names the first occurrence: a position holding `c` with
/// none before it is the one found.
pub proof fn lemma_find_char_at(s: Seq<char>, c: char, i: int)
    requires
        0 <= i < s.len(),
        s[i] == c,
        forall|j: int| 0 <= j < i ==> s[j] != c,
    ensures
        find_char(s, c) == i,
    decreases i,
{
    if i > 0 {
        lemma_find_char_at(s.skip(1), c, i - 1);
    }
}

/// A sequence without `c` has no first occurrence of it.
pub proof fn lemma_find_char_none(s: Seq<char>, c: char)
    requires
        forall|j: int| 0 <= j < s.len() ==> s[j] != c,
    ensures
        find_char(s, c) == -1,
    decreases s.len(),
{
    if s.len() > 0 {
        lemma_find_char_none(s.skip(1), c);
    }
}

/// One record as the line scanner yields it: a carriage return standing
/// last (just before the terminator) is stripped.
pub open spec fn strip_cr(r: Seq<char>) -> Seq<char> {
    if r.len() > 0 && r[r.len() - 1] == '\r' {
        r.take(r.len() - 1)
    } else {
        r
    }
}

/// The lines of a text: the records between newline terminators, with
/// the final terminator optional and a carriage return before each
/// terminator stripped.
pub open spec fn split_lines(s: Seq<char>) -> Seq<Seq<char>>
    decreases s.len(),
{
    if s.len() == 0 {
        Seq::empty()
    } else {
        let i = find_char(s, '\n');
        if i < 0 {
            seq![s]
        } else {
            let j = if i + 1 > s.len() {
                s.len() as int
            } else {
                i + 1
            };
            seq![strip_cr(s.take(i))] + split_lines(s.skip(j))
        }
    }
}

/// The tokens of a command string, split on single spaces; there is
/// always at least one token, and empty tokens are kept.
pub open spec fn split_spaces(s: Seq<char>) -> Seq<Seq<char>>
    decreases s.len(),
{
    let i = find_char(s, ' ');
    if i < 0 {
        seq![s]
    } else {
        let j = if i + 1 > s.len() {
            s.len() as int
        } else {
            i + 1
        };
        seq![s.take(i)] + split_spaces(s.skip(j))
    }
}

/// Whether two strings hold the same characters.
pub fn str_eq(a: &str, b: &str) -> (r: bool)
    ensures
        r == (a@ == b@),
{
    let na = a.unicode_len();
    let nb = b.unicode_len();
    if na != nb {
        return false;
    }
    let mut i: usize = 0;
    while i < na
        invariant
            i <= na,
            na == a@.len(),
            nb == b@.len(),
            na == nb,
            forall|j: int| 0 <= j < i ==> a@[j] == b@[j],
        decreases na - i,
    {
        if a.get_char(i) != b.get_char(i) {
            return false;
        }
        i = i + 1;
    }
    proof {
        assert(a@ =~= b@);
    }
    true
}

/// The space-separated tokens of `s`, each owned.
pub fn split_on_spaces(s: &str) -> (r: Vec<String>)
    ensures
        views_of(r@) == split_spaces(s@),
{
    let n = s.unicode_len();
    let mut toks: Vec<String> = Vec::new();
    let mut pos: usize = 0;
    let mut fin = false;
    proof {
        assert(s@.skip(0) =~= s@);
        assert(views_of(toks@) =~= Seq::<Seq<char>>::empty());
        assert(views_of(toks@) + split_spaces(s@) =~= split_spaces(s@));
    }
    while !fin
        invariant
            pos <= n,
            n == s@.len(),
            !fin ==> split_spaces(s@) == views_of(toks@) + split_spaces(s@.skip(pos as int)),
            fin ==> views_of(toks@) == split_spaces(s@),
        decreases n - pos + (if fin {
            0int
        } else {
            1int
        }),
    {
        let ghost toks0 = toks@;
        let ghost rem = s@.skip(pos as int);
        let mut j: usize = pos;
        while j < n && s.get_char(j) != ' '
            invariant
                pos <= j <= n,
                n == s@.len(),
                forall|t: int| pos <= t < j ==> s@[t] != ' ',
            decreases n - j,
        {
            j = j + 1;
        }
        if j < n {
            let tok = s.substring_char(pos, j);
            toks.push(String::from_str(tok));
            proof {
                assert(rem[j - pos] == ' ');
                assert forall|t: int| 0 <= t < j - pos implies rem[t] != ' ' by {
                    assert(rem[t] == s@[pos + t]);
                }
                lemma_find_char_at(rem, ' ', j - pos);
                assert(rem.take(j - pos) =~= s@.subrange(pos as int, j as int));
                assert(rem.skip(j - pos + 1) =~= s@.skip(j + 1));
                assert(views_of(toks@) =~= views_of(toks0).push(tok@));
                assert(views_of(toks@) + split_spaces(s@.skip(j + 1)) =~= views_of(toks0) + (seq![
                    s@.subrange(pos as int, j as int),
                ] + split_spaces(s@.skip(j + 1))));
            }
            pos = j + 1;
        } else {
            let tok = s.substring_char(pos, n);
            toks.push(String::from_str(tok));
            proof {
                assert forall|t: int| 0 <= t < rem.len() implies rem[t] != ' ' by {
                    assert(rem[t] == s@[pos + t]);
                }
                lemma_find_char_none(rem, ' ');
                assert(rem =~= s@.subrange(pos as int, n as int));
                assert(views_of(toks@) =~= views_of(toks0).push(tok@));
                assert(views_of(toks@) =~= views_of(toks0) + seq![rem]);
            }
            fin = true;
        }
    }
    toks
}

/// The records of a terminator-delimited text, each owned.
pub fn split_records(s: &str) -> (r: Vec<String>)
    ensures
        views_of(r@) == split_lines(s@),
{
    let n = s.unicode_len();
    let mut recs: Vec<String> = Vec::new();
    let mut pos: usize = 0;
    let mut fin = false;
    if n == 0 {
        return recs;
    }
    proof {
        assert(s@.skip(0) =~= s@);
        assert(views_of(recs@) =~= Seq::<Seq<char>>::empty());
        assert(views_of(recs@) + split_lines(s@) =~= split_lines(s@));
    }
    while !fin
        invariant
            pos <= n,
            n == s@.len(),
            !fin ==> split_lines(s@) == views_of(recs@) + split_lines(s@.skip(pos as int)),
            fin ==> views_of(recs@) == split_lines(s@),
        decreases n - pos + (if fin {
            0int
        } else {
            1int
        }),
    {
        let ghost recs0 = recs@;
        let ghost rem = s@.skip(pos as int);
        let mut j: usize = pos;
        while j < n && s.get_char(j) != '\n'
            invariant
                pos <= j <= n,
                n == s@.len(),
                forall|t: int| pos <= t < j ==> s@[t] != '\n',
            decreases n - j,
        {
            j = j + 1;
        }
        if j < n {
            let rec_end = if j > pos && s.get_char(j - 1) == '\r' {
                j - 1
            } else {
                j
            };
            let rec = s.substring_char(pos, rec_end);
            recs.push(String::from_str(rec));
            proof {
                assert(rem[j - pos] == '\n');
                assert forall|t: int| 0 <= t < j - pos implies rem[t] != '\n' by {
                    assert(rem[t] == s@[pos + t]);
                }
                lemma_find_char_at(rem, '\n', j - pos);
                assert(rem.take(j - pos) =~= s@.subrange(pos as int, j as int));
                if j > pos && s@[j - 1] == '\r' {
                    assert(strip_cr(rem.take(j - pos)) =~= s@.subrange(
                        pos as int,
                        rec_end as int,
                    ));
                } else {
                    assert(strip_cr(rem.take(j - pos)) =~= s@.subrange(
                        pos as int,
                        rec_end as int,
                    ));
                }
                assert(rem.skip(j - pos + 1) =~= s@.skip(j + 1));
                assert(views_of(recs@) =~= views_of(recs0).push(rec@));
                assert(views_of(recs@) + split_lines(s@.skip(j + 1)) =~= views_of(recs0) + (seq![
                    strip_cr(rem.take(j - pos)),
                ] + split_lines(s@.skip(j + 1))));
            }
            pos = j + 1;
        } else {
            if pos < n {
                let rec = s.substring_char(pos, n);
                recs.push(String::from_str(rec));
                proof {
                    assert forall|t: int| 0 <= t < rem.len() implies rem[t] != '\n' by {
                        assert(rem[t] == s@[pos + t]);
                    }
                    lemma_find_char_none(rem, '\n');
                    assert(rem =~= s@.subrange(pos as int, n as int));
                    assert(views_of(recs@) =~= views_of(recs0).push(rec@));
                    assert(views_of(recs@) =~= views_of(recs0) + seq![rem]);
                }
            } else {
                proof {
                    assert(rem =~= Seq::<char>::empty());
                    assert(views_of(recs@) + split_lines(rem) =~= views_of(recs@));
                }
            }
            fin = true;
        }
    }
    recs
}

} // verus!

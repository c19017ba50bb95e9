//! Reading the maze file: its text, split into rows of cells, one row per
//! line.

use vstd::prelude::*;
use crate::scene::maze_view;

verus! {

/// A line without the carriage return that ends it, if any.
pub open spec fn strip_cr(line: Seq<char>) -> Seq<char> {
    if line.len() > 0 && line.last() == '\r' {
        line.drop_last()
    } else {
        line
    }
}

/// Reading `text` character by character: the lines finished by a `'\n'`
/// (each without a `'\r'` just before that `'\n'`), and the line being read.
pub open spec fn scan_lines(text: Seq<char>) -> (Seq<Seq<char>>, Seq<char>)
    decreases text.len(),
{
    if text.len() == 0 {
        (Seq::empty(), Seq::empty())
    } else {
        let (done, cur) = scan_lines(text.drop_last());
        if text.last() == '\n' {
            (done.push(strip_cr(cur)), Seq::empty())
        } else {
            (done, cur.push(text.last()))
        }
    }
}

/// The lines of `text`: split after each `'\n'`, each line without its
/// `'\n'` and a `'\r'` just before it; a last line without `'\n'` counts when
/// it is not empty.
pub open spec fn text_lines(text: Seq<char>) -> Seq<Seq<char>> {
    let (done, cur) = scan_lines(text);
    if cur.len() > 0 {
        done.push(cur)
    } else {
        done
    }
}

/// Splits the maze file's text into rows of cells, one per line.
pub fn parse_maze(text: &Vec<char>) -> (maze: Vec<Vec<char>>)
    ensures
        maze_view(&maze) == text_lines(text@),
{
    let mut done: Vec<Vec<char>> = Vec::new();
    let mut cur: Vec<char> = Vec::new();
    let mut i: usize = 0;
    assert(text@.take(0) =~= Seq::<char>::empty());
    while i < text.len()
        invariant
            i <= text.len(),
            maze_view(&done) == scan_lines(text@.take(i as int)).0,
            cur@ == scan_lines(text@.take(i as int)).1,
        decreases text.len() - i,
    {
        let c = text[i];
        let ghost before = text@.take(i as int);
        assert(text@.take(i + 1).drop_last() =~= before);
        assert(text@.take(i + 1).last() == c);
        if c == '\n' {
            let n = cur.len();
            if n > 0 && cur[n - 1] == '\r' {
                cur.pop();
            }
            let ghost line = cur@;
            done.push(cur);
            cur = Vec::new();
            assert(maze_view(&done) =~= scan_lines(before).0.push(line));
        } else {
            cur.push(c);
        }
        i = i + 1;
    }
    assert(text@.take(text.len() as int) =~= text@);
    if cur.len() > 0 {
        let ghost line = cur@;
        let ghost prev = maze_view(&done);
        done.push(cur);
        assert(maze_view(&done) =~= prev.push(line));
    }
    done
}

/// The lines of `ls`, each followed by `'\n'`.
pub open spec fn join_lines(ls: Seq<Seq<char>>) -> Seq<char>
    decreases ls.len(),
{
    if ls.len() == 0 {
        Seq::empty()
    } else {
        join_lines(ls.drop_last()) + ls.last().push('\n')
    }
}

/// Without carriage returns, the finished lines followed by the current one
/// spell the text read so far, and the current line holds no `'\n'`.
proof fn lemma_scan_spells_text(text: Seq<char>)
    requires
        !text.contains('\r'),
    ensures
        join_lines(scan_lines(text).0) + scan_lines(text).1 == text,
        !scan_lines(text).1.contains('\n'),
        !scan_lines(text).1.contains('\r'),
    decreases text.len(),
{
    if text.len() > 0 {
        let prev = text.drop_last();
        assert(!prev.contains('\r')) by {
            if prev.contains('\r') {
                let j = choose|j: int| 0 <= j < prev.len() && prev[j] == '\r';
                assert(text[j] == '\r');
            }
        }
        lemma_scan_spells_text(prev);
        let (done, cur) = scan_lines(prev);
        let c = text.last();
        assert(text =~= prev.push(c));
        if c == '\n' {
            assert(strip_cr(cur) == cur) by {
                if cur.len() > 0 {
                    assert(cur.contains(cur.last()));
                }
            }
            assert(done.push(cur).drop_last() =~= done);
            assert(join_lines(done.push(cur)) + Seq::<char>::empty() =~= join_lines(done) + cur.push('\n'));
        } else {
            assert(join_lines(done) + cur.push(c) =~= (join_lines(done) + cur).push(c));
            assert(!cur.push(c).contains('\n')) by {
                if cur.push(c).contains('\n') {
                    let j = choose|j: int| 0 <= j < cur.push(c).len() && cur.push(c)[j] == '\n';
                    if j < cur.len() {
                        assert(cur.contains('\n'));
                    }
                }
            }
            assert(!cur.push(c).contains('\r')) by {
                if cur.push(c).contains('\r') {
                    let j = choose|j: int| 0 <= j < cur.push(c).len() && cur.push(c)[j] == '\r';
                    if j < cur.len() {
                        assert(cur.contains('\r'));
                    } else {
                        assert(text[text.len() - 1] == '\r');
                    }
                }
            }
        }
    }
}

/// A maze file without carriage returns, empty or ending in a newline, is
/// given back by writing each of its rows followed by a newline.
pub proof fn lemma_lines_round_trip(text: Seq<char>)
    requires
        !text.contains('\r'),
        text.len() == 0 || text.last() == '\n',
    ensures
        join_lines(text_lines(text)) == text,
{
    lemma_scan_spells_text(text);
    if text.len() > 0 {
        assert(scan_lines(text).1 == Seq::<char>::empty());
    }
    assert(join_lines(scan_lines(text).0) + Seq::<char>::empty() =~= join_lines(scan_lines(text).0));
}

/// The rows of `ls`, each followed by a carriage return and a newline, as a
/// file saved with Windows line endings holds them.
pub open spec fn join_lines_crlf(ls: Seq<Seq<char>>) -> Seq<char>
    decreases ls.len(),
{
    if ls.len() == 0 {
        Seq::empty()
    } else {
        join_lines_crlf(ls.drop_last()) + ls.last() + seq!['\r', '\n']
    }
}

/// After a finished line, reading characters other than `'\n'` only extends
/// the current line.
proof fn lemma_scan_append_row(a: Seq<char>, r: Seq<char>)
    requires
        scan_lines(a).1 == Seq::<char>::empty(),
        !r.contains('\n'),
    ensures
        scan_lines(a + r) == (scan_lines(a).0, r),
    decreases r.len(),
{
    if r.len() == 0 {
        assert(a + r =~= a);
    } else {
        let r0 = r.drop_last();
        assert(!r0.contains('\n')) by {
            if r0.contains('\n') {
                let k = choose|k: int| 0 <= k < r0.len() && r0[k] == '\n';
                assert(r[k] == '\n');
            }
        }
        lemma_scan_append_row(a, r0);
        assert((a + r).drop_last() =~= a + r0);
        assert((a + r).last() == r.last());
        assert(r.contains(r.last()));
        assert(r0.push(r.last()) =~= r);
    }
}

/// Rows saved with Windows line endings are read back exactly: the `'\r'`
/// of each `"\r\n"` never becomes part of a row, whatever the rows' lengths.
pub proof fn lemma_crlf_round_trip(ls: Seq<Seq<char>>)
    requires
        forall|k: int| 0 <= k < ls.len() ==> !(#[trigger] ls[k]).contains('\n'),
    ensures
        text_lines(join_lines_crlf(ls)) == ls,
        scan_lines(join_lines_crlf(ls)) == (ls, Seq::<char>::empty()),
    decreases ls.len(),
{
    if ls.len() == 0 {
        assert(join_lines_crlf(ls) == Seq::<char>::empty());
    } else {
        let prev = ls.drop_last();
        assert forall|k: int| 0 <= k < prev.len() implies !(#[trigger] prev[k]).contains('\n') by {
            assert(prev[k] == ls[k]);
        }
        lemma_crlf_round_trip(prev);
        let a = join_lines_crlf(prev);
        let r = ls.last();
        assert(!r.contains('\n')) by {
            assert(r == ls[ls.len() - 1]);
        }
        lemma_scan_append_row(a, r);
        let t1 = (a + r).push('\r');
        assert(t1.drop_last() =~= a + r);
        assert(scan_lines(t1) == (prev, r.push('\r')));
        let t2 = t1.push('\n');
        assert(t2 =~= join_lines_crlf(ls));
        assert(t2.drop_last() =~= t1);
        assert(strip_cr(r.push('\r')) =~= r);
        assert(prev.push(r) =~= ls);
    }
}

/// A last line without a newline is a row of its own when it is not empty:
/// rows saved with Windows line endings followed by such a line are read
/// back as those rows and that line.
pub proof fn lemma_unterminated_last_row(ls: Seq<Seq<char>>, r: Seq<char>)
    requires
        forall|k: int| 0 <= k < ls.len() ==> !(#[trigger] ls[k]).contains('\n'),
        !r.contains('\n'),
        r.len() > 0,
    ensures
        text_lines(join_lines_crlf(ls) + r) == ls.push(r),
{
    lemma_crlf_round_trip(ls);
    lemma_scan_append_row(join_lines_crlf(ls), r);
}

/// Rows that hold no `'\n'` and do not end in `'\r'`, each followed by
/// `'\n'`, are read back exactly.
pub proof fn lemma_lf_rows_round_trip(ls: Seq<Seq<char>>)
    requires
        forall|k: int| 0 <= k < ls.len() ==> !(#[trigger] ls[k]).contains('\n'),
        forall|k: int| 0 <= k < ls.len() ==> (#[trigger] ls[k]).len() == 0 || ls[k].last() != '\r',
    ensures
        text_lines(join_lines(ls)) == ls,
        scan_lines(join_lines(ls)) == (ls, Seq::<char>::empty()),
    decreases ls.len(),
{
    if ls.len() == 0 {
        assert(join_lines(ls) == Seq::<char>::empty());
    } else {
        let prev = ls.drop_last();
        assert forall|k: int| 0 <= k < prev.len() implies !(#[trigger] prev[k]).contains('\n') by {
            assert(prev[k] == ls[k]);
        }
        assert forall|k: int| 0 <= k < prev.len() implies (#[trigger] prev[k]).len() == 0
            || prev[k].last() != '\r' by {
            assert(prev[k] == ls[k]);
        }
        lemma_lf_rows_round_trip(prev);
        let a = join_lines(prev);
        let r = ls.last();
        assert(r == ls[ls.len() - 1]);
        lemma_scan_append_row(a, r);
        let t = (a + r).push('\n');
        assert(t =~= join_lines(ls));
        assert(t.drop_last() =~= a + r);
        assert(strip_cr(r) == r);
        assert(prev.push(r) =~= ls);
    }
}

/// For rows that hold no `'\n'` and do not end in `'\r'`, a file with
/// Windows line endings gives the same rows as one with newlines alone.
pub proof fn lemma_crlf_same_rows_as_lf(ls: Seq<Seq<char>>)
    requires
        forall|k: int| 0 <= k < ls.len() ==> !(#[trigger] ls[k]).contains('\n'),
        forall|k: int| 0 <= k < ls.len() ==> (#[trigger] ls[k]).len() == 0 || ls[k].last() != '\r',
    ensures
        text_lines(join_lines_crlf(ls)) == text_lines(join_lines(ls)),
{
    lemma_crlf_round_trip(ls);
    lemma_lf_rows_round_trip(ls);
}

} // verus!

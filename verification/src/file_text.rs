//! Splitting file content into logical lines and joining them back with
//! the file's own line-ending convention.
//!
//! The splitting rule: content is split on linefeeds only, so blank
//! lines survive; the line-ending convention is CRLF when a
//! carriage-return+linefeed pair occurs anywhere, and LF otherwise;
//! under CRLF one carriage return is stripped from a segment's end. The
//! convention, and whether the content ended with its terminator, decide
//! how the lines are joined back.

use vstd::prelude::*;

verus! {

/// Walks `s` splitting on linefeeds, with the segment under construction
/// in `cur` and the finished segments in `acc`: the worker behind
/// [`segments`]. There is always one segment more than there are
/// linefeeds.
pub open spec fn segments_rec(s: Seq<char>, cur: Seq<char>, acc: Seq<Seq<char>>) -> Seq<Seq<char>>
    decreases s.len(),
{
    if s.len() == 0 {
        acc.push(cur)
    } else if s[0] == '\n' {
        segments_rec(s.skip(1), Seq::empty(), acc.push(cur))
    } else {
        segments_rec(s.skip(1), cur.push(s[0]), acc)
    }
}

/// The segments of `s` between its linefeeds, linefeeds not included.
pub open spec fn segments(s: Seq<char>) -> Seq<Seq<char>> {
    segments_rec(s, Seq::empty(), Seq::empty())
}

/// The raw lines of a file: its segments, except that content ending in
/// a linefeed does not open a final empty line.
pub open spec fn raw_lines(s: Seq<char>) -> Seq<Seq<char>> {
    if s.len() > 0 && s.last() == '\n' {
        segments(s).drop_last()
    } else {
        segments(s)
    }
}

/// The file uses the CRLF convention: a carriage-return+linefeed pair
/// occurs somewhere in it.
pub open spec fn has_crlf(s: Seq<char>) -> bool {
    exists|i: int| 0 <= i && i + 1 < s.len() && #[trigger] s[i] == '\r' && s[i + 1] == '\n'
}

/// One carriage return stripped from the end of a segment, if present:
/// what is left of a CRLF terminator after splitting on the linefeed.
pub open spec fn strip_cr(l: Seq<char>) -> Seq<char> {
    if l.len() > 0 && l.last() == '\r' {
        l.drop_last()
    } else {
        l
    }
}

/// The logical lines of file content: raw lines, with the carriage
/// return of a CRLF terminator stripped under the CRLF convention.
pub open spec fn logical_lines(s: Seq<char>) -> Seq<Seq<char>> {
    if has_crlf(s) {
        raw_lines(s).map_values(|l: Seq<char>| strip_cr(l))
    } else {
        raw_lines(s)
    }
}

/// The line terminator written back under each convention.
pub open spec fn terminator(crlf: bool) -> Seq<char> {
    if crlf {
        seq!['\r', '\n']
    } else {
        seq!['\n']
    }
}

/// The content ends with the terminator of its convention, so the
/// written file must too.
pub open spec fn ends_with_terminator(s: Seq<char>, crlf: bool) -> bool {
    if crlf {
        s.len() >= 2 && s[s.len() - 2] == '\r' && s[s.len() - 1] == '\n'
    } else {
        s.len() >= 1 && s[s.len() - 1] == '\n'
    }
}

/// Lines joined with `term` between neighbours and nothing at the ends.
pub open spec fn join_with(lines: Seq<Seq<char>>, term: Seq<char>) -> Seq<char>
    decreases lines.len(),
{
    if lines.len() == 0 {
        Seq::empty()
    } else if lines.len() == 1 {
        lines[0]
    } else {
        lines[0] + term + join_with(lines.skip(1), term)
    }
}

/// Joining one more line appends a terminator and the line.
pub proof fn lemma_join_with_push(lines: Seq<Seq<char>>, x: Seq<char>, term: Seq<char>)
    ensures
        join_with(lines.push(x), term) == if lines.len() == 0 {
            x
        } else {
            join_with(lines, term) + term + x
        },
    decreases lines.len(),
{
    if lines.len() == 0 {
        assert(lines.push(x).len() == 1);
        assert(lines.push(x)[0] == x);
    } else {
        assert(lines.push(x).skip(1) =~= lines.skip(1).push(x));
        lemma_join_with_push(lines.skip(1), x, term);
        if lines.len() == 1 {
            assert(join_with(lines.skip(1).push(x), term) == x);
        } else {
            let a = lines[0] + term;
            let rest = join_with(lines.skip(1), term);
            assert(a + (rest + term + x) =~= (a + rest) + term + x);
        }
    }
}

/// Decides [`has_crlf`].
pub fn detect_crlf(content: &str) -> (r: bool)
    ensures
        r == has_crlf(content@),
{
    let n = content.unicode_len();
    if n < 2 {
        return false;
    }
    let mut i: usize = 0;
    while i + 1 < n
        invariant
            n == content@.len(),
            i < n,
            forall|j: int| 0 <= j < i ==> !(#[trigger] content@[j] == '\r' && content@[j + 1] == '\n'),
        decreases n - i,
    {
        if content.get_char(i) == '\r' && content.get_char(i + 1) == '\n' {
            proof {
                assert(0 <= i as int && i as int + 1 < content@.len() && content@[i as int] == '\r'
                    && content@[i as int + 1] == '\n');
            }
            return true;
        }
        i += 1;
    }
    proof {
        assert forall|j: int| 0 <= j && j + 1 < content@.len() implies !(#[trigger] content@[j]
            == '\r' && content@[j + 1] == '\n') by {}
    }
    false
}

/// Decides [`ends_with_terminator`].
pub fn ends_terminator(content: &str, crlf: bool) -> (r: bool)
    ensures
        r == ends_with_terminator(content@, crlf),
{
    let n = content.unicode_len();
    if crlf {
        n >= 2 && content.get_char(n - 2) == '\r' && content.get_char(n - 1) == '\n'
    } else {
        n >= 1 && content.get_char(n - 1) == '\n'
    }
}

/// Splits content into its raw lines, each handed back as a slice.
fn split_raw_lines<'a>(content: &'a str) -> (lines: Vec<&'a str>)
    ensures
        lines@.map_values(|l: &str| l@) == raw_lines(content@),
{
    let n = content.unicode_len();
    let mut segs: Vec<&'a str> = Vec::new();
    let mut start: usize = 0;
    let mut i: usize = 0;
    proof {
        assert(content@.skip(0) =~= content@);
        assert(segs@.map_values(|l: &str| l@) =~= Seq::<Seq<char>>::empty());
        assert(content@.subrange(0, 0) =~= Seq::<char>::empty());
    }
    while i < n
        invariant
            n == content@.len(),
            i <= n,
            start <= i,
            segments_rec(
                content@.skip(i as int),
                content@.subrange(start as int, i as int),
                segs@.map_values(|l: &str| l@),
            ) == segments(content@),
        decreases n - i,
    {
        let ghost pre = content@.skip(i as int);
        proof {
            assert(pre[0] == content@[i as int]);
            assert(pre.skip(1) =~= content@.skip(i as int + 1));
        }
        if content.get_char(i) == '\n' {
            let seg = content.substring_char(start, i);
            let ghost old_views = segs@.map_values(|l: &str| l@);
            segs.push(seg);
            proof {
                assert(segs@.map_values(|l: &str| l@) =~= old_views.push(seg@));
            }
            start = i + 1;
            proof {
                assert(content@.subrange(i as int + 1, i as int + 1) =~= Seq::<char>::empty());
            }
        } else {
            proof {
                assert(content@.subrange(start as int, i as int + 1) =~= content@.subrange(
                    start as int,
                    i as int,
                ).push(content@[i as int]));
            }
        }
        i += 1;
    }
    let last = content.substring_char(start, n);
    let ghost old_views = segs@.map_values(|l: &str| l@);
    segs.push(last);
    proof {
        assert(content@.skip(n as int) =~= Seq::<char>::empty());
        assert(segs@.map_values(|l: &str| l@) =~= old_views.push(last@));
    }
    if n > 0 && content.get_char(n - 1) == '\n' {
        let ghost full_views = segs@.map_values(|l: &str| l@);
        let _ = segs.pop();
        proof {
            assert(segs@.map_values(|l: &str| l@) =~= full_views.drop_last());
        }
    }
    segs
}

/// Strips one carriage return from the end of a line, if present.
fn strip_line_cr<'a>(line: &'a str) -> (r: &'a str)
    ensures
        r@ == strip_cr(line@),
{
    let n = line.unicode_len();
    if n > 0 && line.get_char(n - 1) == '\r' {
        let r = line.substring_char(0, n - 1);
        proof {
            assert(line@.subrange(0, n as int - 1) =~= line@.drop_last());
        }
        r
    } else {
        line
    }
}

/// Splits content into its logical lines, following [`logical_lines`].
pub(crate) fn split_logical_lines<'a>(content: &'a str, crlf: bool) -> (lines: Vec<&'a str>)
    requires
        crlf == has_crlf(content@),
    ensures
        lines@.map_values(|l: &str| l@) == logical_lines(content@),
{
    let raw = split_raw_lines(content);
    if !crlf {
        return raw;
    }
    let ghost rv = raw@.map_values(|l: &str| l@);
    let mut out: Vec<&'a str> = Vec::new();
    let mut i: usize = 0;
    while i < raw.len()
        invariant
            rv == raw@.map_values(|l: &str| l@),
            rv == raw_lines(content@),
            i <= raw.len(),
            raw.len() == rv.len(),
            out.len() == i,
            forall|k: int| 0 <= k < i ==> (#[trigger] out@[k])@ == strip_cr(rv[k]),
        decreases raw.len() - i,
    {
        let stripped = strip_line_cr(raw[i]);
        out.push(stripped);
        i += 1;
    }
    proof {
        assert(out@.map_values(|l: &str| l@) =~= rv.map_values(|l: Seq<char>| strip_cr(l)));
    }
    out
}

/// Joins lines with the convention's terminator, and ends with one more
/// terminator exactly when `trailing` says the content did.
pub fn join_lines(lines: &Vec<String>, crlf: bool, trailing: bool) -> (out: String)
    ensures
        out@ == join_with(lines@.map_values(|l: String| l@), terminator(crlf)) + if trailing {
            terminator(crlf)
        } else {
            Seq::<char>::empty()
        },
{
    let term: &str = if crlf {
        "\r\n"
    } else {
        "\n"
    };
    proof {
        reveal_strlit("\r\n");
        reveal_strlit("\n");
        assert(term@ =~= terminator(crlf));
    }
    let ghost lv = lines@.map_values(|l: String| l@);
    let mut out = String::new();
    let mut i: usize = 0;
    proof {
        assert(lv.take(0) =~= Seq::<Seq<char>>::empty());
    }
    while i < lines.len()
        invariant
            lv == lines@.map_values(|l: String| l@),
            lines.len() == lv.len(),
            i <= lines.len(),
            term@ == terminator(crlf),
            out@ == join_with(lv.take(i as int), terminator(crlf)) + if 0 < i < lv.len() {
                terminator(crlf)
            } else {
                Seq::<char>::empty()
            },
        decreases lines.len() - i,
    {
        out.append(lines[i].as_str());
        proof {
            lemma_join_with_push(lv.take(i as int), lv[i as int], terminator(crlf));
            assert(lv.take(i as int).push(lv[i as int]) =~= lv.take(i as int + 1));
            assert(lv[i as int] == lines@[i as int]@);
        }
        if i + 1 < lines.len() {
            out.append(term);
        }
        i += 1;
        proof {
            if i < lv.len() {
                assert(out@ =~= join_with(lv.take(i as int), terminator(crlf)) + terminator(crlf));
            } else {
                assert(out@ =~= join_with(lv.take(i as int), terminator(crlf)) + Seq::<
                    char,
                >::empty());
            }
        }
    }
    proof {
        assert(lv.take(lv.len() as int) =~= lv);
    }
    if trailing {
        out.append(term);
    }
    out
}

} // verus!

//! Characters, whitespace, and splitting a line into tokens.

use vstd::prelude::*;

verus! {

/// The characters with the Unicode `White_Space` property: exactly the
/// characters on which a line is split into tokens.
pub open spec fn is_space(c: char) -> bool {
    c == ' ' || c == '\t' || c == '\n' || c == '\u{b}' || c == '\u{c}' || c == '\r'
        || c == '\u{85}' || c == '\u{a0}' || c == '\u{1680}' || c == '\u{2000}'
        || c == '\u{2001}' || c == '\u{2002}' || c == '\u{2003}' || c == '\u{2004}'
        || c == '\u{2005}' || c == '\u{2006}' || c == '\u{2007}' || c == '\u{2008}'
        || c == '\u{2009}' || c == '\u{200a}' || c == '\u{2028}' || c == '\u{2029}'
        || c == '\u{202f}' || c == '\u{205f}' || c == '\u{3000}'
}

/// Decides [`is_space`] for a single character.
pub fn space_char(c: char) -> (r: bool)
    ensures
        r == is_space(c),
{
    c == ' ' || c == '\t' || c == '\n' || c == '\u{b}' || c == '\u{c}' || c == '\r'
        || c == '\u{85}' || c == '\u{a0}' || c == '\u{1680}' || c == '\u{2000}'
        || c == '\u{2001}' || c == '\u{2002}' || c == '\u{2003}' || c == '\u{2004}'
        || c == '\u{2005}' || c == '\u{2006}' || c == '\u{2007}' || c == '\u{2008}'
        || c == '\u{2009}' || c == '\u{200a}' || c == '\u{2028}' || c == '\u{2029}'
        || c == '\u{202f}' || c == '\u{205f}' || c == '\u{3000}'
}

/// Every character of `s` satisfies [`is_space`].
pub open spec fn all_space(s: Seq<char>) -> bool {
    forall|i: int| 0 <= i < s.len() ==> is_space(#[trigger] s[i])
}

/// No character of `s` satisfies [`is_space`].
pub open spec fn no_space(s: Seq<char>) -> bool {
    forall|i: int| 0 <= i < s.len() ==> !is_space(#[trigger] s[i])
}

/// Walks `s` accumulating the token under construction in `cur` and the
/// finished tokens in `acc`: the worker behind [`tokens_of`].
pub open spec fn tokens_rec(s: Seq<char>, cur: Seq<char>, acc: Seq<Seq<char>>) -> Seq<Seq<char>>
    decreases s.len(),
{
    if s.len() == 0 {
        if cur.len() == 0 {
            acc
        } else {
            acc.push(cur)
        }
    } else if is_space(s[0]) {
        if cur.len() == 0 {
            tokens_rec(s.skip(1), cur, acc)
        } else {
            tokens_rec(s.skip(1), Seq::empty(), acc.push(cur))
        }
    } else {
        tokens_rec(s.skip(1), cur.push(s[0]), acc)
    }
}

/// The tokens of a line: the maximal runs of non-whitespace characters,
/// in order.
pub open spec fn tokens_of(s: Seq<char>) -> Seq<Seq<char>> {
    tokens_rec(s, Seq::empty(), Seq::empty())
}

/// A run of non-whitespace characters at the head of the input extends
/// the token under construction.
pub proof fn lemma_tokens_rec_word(t: Seq<char>, rest: Seq<char>, cur: Seq<char>, acc: Seq<
    Seq<char>,
>)
    requires
        no_space(t),
    ensures
        tokens_rec(t + rest, cur, acc) == tokens_rec(rest, cur + t, acc),
    decreases t.len(),
{
    if t.len() == 0 {
        assert(t + rest =~= rest);
        assert(cur + t =~= cur);
    } else {
        assert((t + rest)[0] == t[0]);
        assert(!is_space(t[0]));
        assert((t + rest).skip(1) =~= t.skip(1) + rest);
        assert(no_space(t.skip(1)));
        lemma_tokens_rec_word(t.skip(1), rest, cur.push(t[0]), acc);
        assert(cur.push(t[0]) + t.skip(1) =~= cur + t);
    }
}

/// A nonempty run of whitespace at the head of the input closes the
/// token under construction, if any.
pub proof fn lemma_tokens_rec_gap(g: Seq<char>, rest: Seq<char>, cur: Seq<char>, acc: Seq<
    Seq<char>,
>)
    requires
        all_space(g),
        g.len() > 0,
    ensures
        tokens_rec(g + rest, cur, acc) == tokens_rec(
            rest,
            Seq::empty(),
            if cur.len() == 0 {
                acc
            } else {
                acc.push(cur)
            },
        ),
    decreases g.len(),
{
    assert((g + rest)[0] == g[0]);
    assert(is_space(g[0]));
    assert((g + rest).skip(1) =~= g.skip(1) + rest);
    assert(all_space(g.skip(1)));
    let acc2 = if cur.len() == 0 {
        acc
    } else {
        acc.push(cur)
    };
    if cur.len() == 0 {
        assert(cur =~= Seq::<char>::empty());
    }
    if g.len() == 1 {
        assert(g.skip(1) + rest =~= rest);
    } else {
        lemma_tokens_rec_gap(g.skip(1), rest, Seq::empty(), acc2);
    }
}

/// A line made only of non-whitespace characters is a single token.
pub proof fn lemma_tokens_rec_word_end(t: Seq<char>, cur: Seq<char>, acc: Seq<Seq<char>>)
    requires
        no_space(t),
        cur.len() + t.len() > 0,
    ensures
        tokens_rec(t, cur, acc) == acc.push(cur + t),
{
    lemma_tokens_rec_word(t, Seq::empty(), cur, acc);
    assert(t + Seq::<char>::empty() =~= t);
    assert(tokens_rec(t, cur, acc) == tokens_rec(Seq::<char>::empty(), cur + t, acc));
}

/// Every finished token the walk can produce is nonempty and free of
/// whitespace, granted the same of the accumulator.
pub proof fn lemma_tokens_rec_items(s: Seq<char>, cur: Seq<char>, acc: Seq<Seq<char>>)
    requires
        no_space(cur),
        forall|k: int| 0 <= k < acc.len() ==> (#[trigger] acc[k]).len() > 0 && no_space(acc[k]),
    ensures
        ({
            let r = tokens_rec(s, cur, acc);
            forall|k: int| 0 <= k < r.len() ==> (#[trigger] r[k]).len() > 0 && no_space(r[k])
        }),
    decreases s.len(),
{
    let r = tokens_rec(s, cur, acc);
    if s.len() == 0 {
        if cur.len() > 0 {
            assert(r == acc.push(cur));
            assert(forall|k: int|
                0 <= k < r.len() ==> (#[trigger] r[k]).len() > 0 && no_space(r[k]));
        } else {
            assert(r == acc);
        }
    } else if is_space(s[0]) {
        if cur.len() == 0 {
            lemma_tokens_rec_items(s.skip(1), cur, acc);
            assert(r == tokens_rec(s.skip(1), cur, acc));
        } else {
            let acc2 = acc.push(cur);
            assert(forall|k: int|
                0 <= k < acc2.len() ==> (#[trigger] acc2[k]).len() > 0 && no_space(acc2[k]));
            lemma_tokens_rec_items(s.skip(1), Seq::empty(), acc2);
            assert(r == tokens_rec(s.skip(1), Seq::<char>::empty(), acc2));
        }
    } else {
        let cur2 = cur.push(s[0]);
        assert(forall|i: int| 0 <= i < cur2.len() ==> !is_space(#[trigger] cur2[i]));
        lemma_tokens_rec_items(s.skip(1), cur2, acc);
        assert(r == tokens_rec(s.skip(1), cur2, acc));
    }
}

/// Every token of a line is nonempty and free of whitespace.
pub proof fn lemma_tokens_wf(l: Seq<char>)
    ensures
        forall|k: int|
            0 <= k < tokens_of(l).len() ==> (#[trigger] tokens_of(l)[k]).len() > 0 && no_space(
                tokens_of(l)[k],
            ),
{
    lemma_tokens_rec_items(l, Seq::empty(), Seq::empty());
}

/// Splits a line into its whitespace-delimited tokens, each handed back
/// as a slice of the line.
pub fn tokenize<'a>(line: &'a str) -> (toks: Vec<&'a str>)
    ensures
        toks@.map_values(|t: &str| t@) == tokens_of(line@),
{
    let n = line.unicode_len();
    let mut toks: Vec<&'a str> = Vec::new();
    let mut i: usize = 0;
    let mut start: usize = 0;
    let mut in_token: bool = false;
    proof {
        assert(line@.skip(0) =~= line@);
        assert(toks@.map_values(|t: &str| t@) =~= Seq::<Seq<char>>::empty());
    }
    while i < n
        invariant
            n == line@.len(),
            i <= n,
            in_token ==> start < i,
            !in_token ==> tokens_rec(line@.skip(i as int), Seq::empty(), toks@.map_values(|t: &str| t@))
                == tokens_of(line@),
            in_token ==> tokens_rec(
                line@.skip(i as int),
                line@.subrange(start as int, i as int),
                toks@.map_values(|t: &str| t@),
            ) == tokens_of(line@),
        decreases n - i,
    {
        let c = line.get_char(i);
        let ghost pre = line@.skip(i as int);
        proof {
            assert(pre[0] == line@[i as int]);
            assert(pre.skip(1) =~= line@.skip(i as int + 1));
        }
        if space_char(c) {
            if in_token {
                let tok = line.substring_char(start, i);
                let ghost old_views = toks@.map_values(|t: &str| t@);
                toks.push(tok);
                proof {
                    assert(toks@.map_values(|t: &str| t@) =~= old_views.push(tok@));
                    assert(tok@ == line@.subrange(start as int, i as int));
                }
                in_token = false;
            }
        } else {
            if !in_token {
                start = i;
                in_token = true;
                proof {
                    assert(line@.subrange(start as int, i as int) =~= Seq::<char>::empty());
                }
            }
            proof {
                assert(line@.subrange(start as int, i as int + 1) =~= line@.subrange(
                    start as int,
                    i as int,
                ).push(line@[i as int]));
            }
        }
        i += 1;
    }
    proof {
        assert(line@.skip(n as int) =~= Seq::<char>::empty());
    }
    if in_token {
        let tok = line.substring_char(start, n);
        let ghost old_views = toks@.map_values(|t: &str| t@);
        toks.push(tok);
        proof {
            assert(toks@.map_values(|t: &str| t@) =~= old_views.push(tok@));
        }
    }
    toks
}

/// Character-by-character string equality, decided on the views.
pub fn str_eq(a: &str, b: &str) -> (r: bool)
    ensures
        r == (a@ == b@),
{
    let an = a.unicode_len();
    let bn = b.unicode_len();
    if an != bn {
        return false;
    }
    let mut i: usize = 0;
    while i < an
        invariant
            an == a@.len(),
            bn == b@.len(),
            an == bn,
            i <= an,
            forall|j: int| 0 <= j < i ==> a@[j] == b@[j],
        decreases an - i,
    {
        if a.get_char(i) != b.get_char(i) {
            return false;
        }
        i += 1;
    }
    proof {
        assert(a@ =~= b@);
    }
    true
}

/// Whether `p`'s characters open `line`, decided on the views.
pub fn str_starts_with(line: &str, p: &str) -> (r: bool)
    ensures
        r == p@.is_prefix_of(line@),
{
    let pn = p.unicode_len();
    let ln = line.unicode_len();
    if ln < pn {
        return false;
    }
    let mut i: usize = 0;
    while i < pn
        invariant
            pn == p@.len(),
            ln == line@.len(),
            pn <= ln,
            i <= pn,
            forall|j: int| 0 <= j < i ==> p@[j] == line@[j],
        decreases pn - i,
    {
        if p.get_char(i) != line.get_char(i) {
            proof {
                assert(line@.subrange(0, pn as int)[i as int] == line@[i as int]);
            }
            return false;
        }
        i += 1;
    }
    proof {
        assert(p@ =~= line@.subrange(0, pn as int));
    }
    true
}

} // verus!

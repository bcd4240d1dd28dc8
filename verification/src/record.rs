//! Classifying a line, rendering a measurement record, and the per-line
//! transformation.

use vstd::prelude::*;
use crate::text::{
    all_space, no_space, tokens_of, tokenize, str_starts_with, lemma_tokens_rec_word,
    lemma_tokens_rec_gap, lemma_tokens_rec_word_end, lemma_tokens_wf,
};
use crate::value::{ValueFacts, facts_wf, spec_format_value, format_value, lemma_format_value_wf};

verus! {

/// A line opening with one of the reserved header words is never
/// treated as a measurement, whatever its tokens hold.
pub open spec fn is_reserved(l: Seq<char>) -> bool {
    ||| "Sample"@.is_prefix_of(l)
    ||| "Application"@.is_prefix_of(l)
    ||| "Measurement"@.is_prefix_of(l)
    ||| "Initial"@.is_prefix_of(l)
    ||| "Final"@.is_prefix_of(l)
}

/// Decides [`is_reserved`].
pub fn reserved_line(line: &str) -> (r: bool)
    ensures
        r == is_reserved(line@),
{
    str_starts_with(line, "Sample") || str_starts_with(line, "Application") || str_starts_with(
        line,
        "Measurement",
    ) || str_starts_with(line, "Initial") || str_starts_with(line, "Final")
}

/// A measurement candidate: at least three whitespace-delimited tokens
/// and no reserved opening word. Whether the second token names a finite
/// number is not decided here; it is the caller's parse outcome.
pub open spec fn is_candidate(l: Seq<char>) -> bool {
    tokens_of(l).len() >= 3 && !is_reserved(l)
}

/// Decides [`is_candidate`].
pub fn candidate_line(line: &str) -> (r: bool)
    ensures
        r == is_candidate(line@),
{
    let toks = tokenize(line);
    toks.len() >= 3 && !reserved_line(line)
}

/// A run of `n` ASCII spaces.
pub open spec fn space_run(n: nat) -> Seq<char> {
    Seq::new(n, |i: int| ' ')
}

/// `s` padded with spaces until it is at least `w` characters long;
/// a field already past the column is left as it stands.
pub open spec fn padded(s: Seq<char>, w: int) -> Seq<char> {
    if s.len() >= w {
        s
    } else {
        s + space_run((w - s.len()) as nat)
    }
}

/// A rendered measurement line: the element at column 0, the formatted
/// value at column 17, the unit at column 33, each column a minimum.
pub open spec fn render_line(e: Seq<char>, v: Seq<char>, u: Seq<char>) -> Seq<char> {
    padded(padded(e, 17) + v, 33) + u
}

/// Appends spaces to `s` until it is at least `target` characters long.
fn pad_width(s: String, target: usize) -> (r: String)
    ensures
        r@ == padded(s@, target as int),
{
    let ghost base = s@;
    let mut out = s;
    let mut len: usize = out.as_str().unicode_len();
    proof {
        assert(base + space_run(0) =~= base);
    }
    while len < target
        invariant
            len == out@.len(),
            base.len() <= len,
            out@ == base + space_run((len - base.len()) as nat),
            base.len() < target ==> len <= target,
            base.len() >= target ==> len == base.len(),
        decreases target - len,
    {
        out.append(" ");
        proof {
            reveal_strlit(" ");
            assert(out@ =~= base + space_run((len + 1 - base.len()) as nat));
        }
        len += 1;
    }
    proof {
        assert(out@ =~= padded(base, target as int));
    }
    out
}

/// Renders a measurement record into its fixed-column line, following
/// [`render_line`].
pub fn render_measurement(element: &str, value_text: &str, unit: &str) -> (r: String)
    ensures
        r@ == render_line(element@, value_text@, unit@),
{
    let mut out = pad_width(element.to_owned(), 17);
    out.append(value_text);
    let mut out = pad_width(out, 33);
    out.append(unit);
    out
}

/// The supplied parse outcome, with the borrow dropped.
pub open spec fn fact_of(val: Option<&ValueFacts>) -> Option<ValueFacts> {
    match val {
        Option::Some(f) => Option::Some(*f),
        Option::None => Option::None,
    }
}

/// One line transformed: a candidate whose value token parsed (`val` is
/// the caller's parse outcome) is re-rendered from its first three
/// tokens; everything else — too few tokens, a reserved opening word, or
/// a value token that did not parse — passes through unchanged.
pub open spec fn spec_transform_line(l: Seq<char>, val: Option<ValueFacts>) -> Seq<char> {
    if is_candidate(l) {
        match val {
            Option::Some(f) => render_line(
                tokens_of(l)[0],
                spec_format_value(f, tokens_of(l)[2]),
                tokens_of(l)[2],
            ),
            Option::None => l,
        }
    } else {
        l
    }
}

/// How a rendered measurement line splits back into tokens: with room
/// for the padding the three fields come back as the three tokens, and
/// where a field overran its column the neighbouring fields fuse into
/// one token.
pub proof fn lemma_render_line_tokens(e: Seq<char>, v: Seq<char>, u: Seq<char>)
    requires
        e.len() > 0,
        v.len() > 0,
        u.len() > 0,
        no_space(e),
        no_space(v),
        no_space(u),
    ensures
        tokens_of(render_line(e, v, u)) == if e.len() >= 17 {
            if e.len() + v.len() >= 33 {
                seq![e + v + u]
            } else {
                seq![e + v, u]
            }
        } else {
            if 17 + v.len() >= 33 {
                seq![e, v + u]
            } else {
                seq![e, v, u]
            }
        },
{
    let out = render_line(e, v, u);
    let empty = Seq::<char>::empty();
    let none = Seq::<Seq<char>>::empty();
    if e.len() >= 17 {
        if e.len() + v.len() >= 33 {
            assert(out =~= e + v + u);
            assert(no_space(e + v + u));
            lemma_tokens_rec_word_end(e + v + u, empty, none);
            assert(empty + (e + v + u) =~= e + v + u);
            assert(none.push(e + v + u) =~= seq![e + v + u]);
        } else {
            let c = (33 - e.len() - v.len()) as nat;
            assert(out =~= (e + v) + (space_run(c) + u));
            assert(no_space(e + v));
            lemma_tokens_rec_word(e + v, space_run(c) + u, empty, none);
            assert(empty + (e + v) =~= e + v);
            assert(all_space(space_run(c)));
            lemma_tokens_rec_gap(space_run(c), u, e + v, none);
            assert(none.push(e + v) =~= seq![e + v]);
            lemma_tokens_rec_word_end(u, empty, seq![e + v]);
            assert(empty + u =~= u);
            assert(seq![e + v].push(u) =~= seq![e + v, u]);
        }
    } else {
        let a = (17 - e.len()) as nat;
        assert(all_space(space_run(a)));
        if 17 + v.len() >= 33 {
            assert(out =~= e + (space_run(a) + (v + u)));
            lemma_tokens_rec_word(e, space_run(a) + (v + u), empty, none);
            assert(empty + e =~= e);
            lemma_tokens_rec_gap(space_run(a), v + u, e, none);
            assert(none.push(e) =~= seq![e]);
            assert(no_space(v + u));
            lemma_tokens_rec_word_end(v + u, empty, seq![e]);
            assert(empty + (v + u) =~= v + u);
            assert(seq![e].push(v + u) =~= seq![e, v + u]);
        } else {
            let b = (33 - 17 - v.len()) as nat;
            assert(all_space(space_run(b)));
            assert(out =~= e + (space_run(a) + (v + (space_run(b) + u))));
            lemma_tokens_rec_word(e, space_run(a) + (v + (space_run(b) + u)), empty, none);
            assert(empty + e =~= e);
            lemma_tokens_rec_gap(space_run(a), v + (space_run(b) + u), e, none);
            assert(none.push(e) =~= seq![e]);
            lemma_tokens_rec_word(v, space_run(b) + u, empty, seq![e]);
            assert(empty + v =~= v);
            lemma_tokens_rec_gap(space_run(b), u, v, seq![e]);
            assert(seq![e].push(v) =~= seq![e, v]);
            lemma_tokens_rec_word_end(u, empty, seq![e, v]);
            assert(empty + u =~= u);
            assert(seq![e, v].push(u) =~= seq![e, v, u]);
        }
    }
}

/// Transforms one line, following [`spec_transform_line`].
pub fn transform_line(line: &str, val: Option<&ValueFacts>) -> (r: String)
    ensures
        r@ == spec_transform_line(line@, fact_of(val)),
{
    let toks = tokenize(line);
    let ghost tv = toks@.map_values(|t: &str| t@);
    if toks.len() >= 3 && !reserved_line(line) {
        match val {
            Option::Some(f) => {
                proof {
                    assert(tv[0] == toks@[0]@);
                    assert(tv[2] == toks@[2]@);
                }
                let value_text = format_value(f, toks[2]);
                render_measurement(toks[0], value_text.as_str(), toks[2])
            },
            Option::None => line.to_owned(),
        }
    } else {
        line.to_owned()
    }
}

/// A line opening with a reserved header word passes through unchanged,
/// whatever its tokens hold and whatever the caller parsed.
pub proof fn lemma_reserved_line_unchanged(l: Seq<char>, val: Option<ValueFacts>)
    requires
        is_reserved(l),
    ensures
        spec_transform_line(l, val) == l,
{
}

/// A line with exactly two whitespace-delimited tokens passes through
/// unchanged.
pub proof fn lemma_two_token_line_unchanged(l: Seq<char>, val: Option<ValueFacts>)
    requires
        tokens_of(l).len() == 2,
    ensures
        spec_transform_line(l, val) == l,
{
}

/// An empty line passes through as an empty line.
pub proof fn lemma_empty_line_unchanged(val: Option<ValueFacts>)
    ensures
        spec_transform_line(Seq::<char>::empty(), val) == Seq::<char>::empty(),
{
    assert(tokens_of(Seq::<char>::empty()).len() == 0);
}

/// Transforming a line twice gives what transforming it once gives. The
/// two premises state what only the numeric world outside this library
/// can promise of the parse outcome `val2` supplied for the second pass:
/// the same value token parses to the same outcome every time, and when
/// a rendered value token parses, formatting that outcome against the
/// same unit hands the very token back.
pub proof fn lemma_transform_line_idempotent(
    l: Seq<char>,
    val: Option<ValueFacts>,
    val2: Option<ValueFacts>,
)
    requires
        val matches Option::Some(f) ==> facts_wf(f),
        is_candidate(spec_transform_line(l, val)) && spec_transform_line(l, val) == l ==> val2
            == val,
        is_candidate(spec_transform_line(l, val)) ==> (val2 matches Option::Some(f2)
            ==> spec_format_value(f2, tokens_of(spec_transform_line(l, val))[2]) == tokens_of(
            spec_transform_line(l, val),
        )[1]),
    ensures
        spec_transform_line(spec_transform_line(l, val), val2) == spec_transform_line(l, val),
{
    let out = spec_transform_line(l, val);
    if is_candidate(out) && out != l {
        assert(is_candidate(l) && val is Some);
        let f = val->0;
        let e = tokens_of(l)[0];
        let u = tokens_of(l)[2];
        let w = spec_format_value(f, u);
        assert(out == render_line(e, w, u));
        lemma_tokens_wf(l);
        lemma_format_value_wf(f, u);
        lemma_render_line_tokens(e, w, u);
        assert(!(e.len() >= 17) && !(17 + w.len() >= 33)) by {
            if e.len() >= 17 || 17 + w.len() >= 33 {
                assert(tokens_of(out).len() <= 2);
            }
        }
        assert(tokens_of(out) == seq![e, w, u]);
        assert(tokens_of(out)[1] == w);
        assert(tokens_of(out)[2] == u);
        match val2 {
            Option::Some(f2) => {
                assert(spec_format_value(f2, u) == w);
                assert(spec_transform_line(out, val2) == render_line(
                    tokens_of(out)[0],
                    spec_format_value(f2, u),
                    u,
                ));
            },
            Option::None => {},
        }
    }
}

} // verus!

//! Transforming whole file content: one pass over the logical lines,
//! with the caller's parse outcomes consumed in candidate order.

use vstd::prelude::*;
use crate::file_text::{
    logical_lines, has_crlf, terminator, ends_with_terminator, join_with, detect_crlf,
    split_logical_lines, ends_terminator, join_lines,
};
use crate::record::{
    is_candidate, spec_transform_line, transform_line, candidate_line, fact_of, render_line,
    lemma_render_line_tokens, lemma_transform_line_idempotent,
};
use crate::text::{tokens_of, tokenize, lemma_tokens_wf};
use crate::value::{ValueFacts, facts_wf, spec_format_value, lemma_format_value_wf};

verus! {

/// Every line transformed, with `vals` consumed one outcome per
/// measurement candidate, in order; a candidate beyond the outcomes
/// counts as unparsed and passes through.
pub open spec fn transform_lines(lines: Seq<Seq<char>>, vals: Seq<Option<ValueFacts>>) -> Seq<
    Seq<char>,
>
    decreases lines.len(),
{
    if lines.len() == 0 {
        Seq::empty()
    } else {
        let eats = is_candidate(lines[0]) && vals.len() > 0;
        let val0 = if eats {
            vals[0]
        } else {
            Option::<ValueFacts>::None
        };
        let rest = if eats {
            vals.skip(1)
        } else {
            vals
        };
        seq![spec_transform_line(lines[0], val0)] + transform_lines(lines.skip(1), rest)
    }
}

/// The value tokens of the measurement candidates among `lines`, in
/// order: what a caller parses to obtain the outcomes `transform_lines`
/// consumes.
pub open spec fn spec_candidate_value_tokens(lines: Seq<Seq<char>>) -> Seq<Seq<char>>
    decreases lines.len(),
{
    if lines.len() == 0 {
        Seq::empty()
    } else if is_candidate(lines[0]) {
        seq![tokens_of(lines[0])[1]] + spec_candidate_value_tokens(lines.skip(1))
    } else {
        spec_candidate_value_tokens(lines.skip(1))
    }
}

/// Whole-file transformation: the logical lines transformed one by one
/// and joined back with the file's own terminator, the trailing
/// terminator kept exactly when the content had one.
pub open spec fn spec_transform(content: Seq<char>, vals: Seq<Option<ValueFacts>>) -> Seq<char> {
    let crlf = has_crlf(content);
    join_with(transform_lines(logical_lines(content), vals), terminator(crlf))
        + if ends_with_terminator(content, crlf) {
        terminator(crlf)
    } else {
        Seq::<char>::empty()
    }
}

/// Transformation is strictly line by line: the output has exactly one
/// line per input line, in its original position, and a line that is no
/// measurement candidate — an empty line among them — stands unchanged.
pub proof fn lemma_lines_preserved(lines: Seq<Seq<char>>, vals: Seq<Option<ValueFacts>>)
    ensures
        transform_lines(lines, vals).len() == lines.len(),
        forall|i: int|
            0 <= i < lines.len() && !is_candidate(lines[i]) ==> transform_lines(lines, vals)[i]
                == lines[i],
    decreases lines.len(),
{
    if lines.len() > 0 {
        let eats = is_candidate(lines[0]) && vals.len() > 0;
        let rest = if eats {
            vals.skip(1)
        } else {
            vals
        };
        lemma_lines_preserved(lines.skip(1), rest);
        assert forall|i: int|
            0 <= i < lines.len() && !is_candidate(lines[i]) implies transform_lines(lines, vals)[i]
            == lines[i] by {
            if i > 0 {
                assert(lines.skip(1)[i - 1] == lines[i]);
                assert(transform_lines(lines, vals)[i] == transform_lines(lines.skip(1), rest)[i
                    - 1]);
            }
        }
    }
}

/// An empty line has no tokens, so it is no candidate and passes
/// through in place.
pub proof fn lemma_empty_line_no_candidate()
    ensures
        !is_candidate(Seq::<char>::empty()),
{
    assert(tokens_of(Seq::<char>::empty()).len() == 0);
}

/// Empty input lines come out as empty lines, each in its original
/// position.
pub proof fn lemma_empty_lines_preserved(lines: Seq<Seq<char>>, vals: Seq<Option<ValueFacts>>)
    ensures
        transform_lines(lines, vals).len() == lines.len(),
        forall|i: int|
            0 <= i < lines.len() && (#[trigger] lines[i]).len() == 0 ==> transform_lines(
                lines,
                vals,
            )[i] == lines[i],
{
    lemma_lines_preserved(lines, vals);
    assert forall|i: int|
        0 <= i < lines.len() && (#[trigger] lines[i]).len() == 0 implies transform_lines(
        lines,
        vals,
    )[i] == lines[i] by {
        assert(lines[i] =~= Seq::<char>::empty());
        lemma_empty_line_no_candidate();
    }
}

/// Lines opening with a reserved header word come out unchanged, each
/// in its original position.
pub proof fn lemma_reserved_lines_preserved(lines: Seq<Seq<char>>, vals: Seq<Option<ValueFacts>>)
    ensures
        transform_lines(lines, vals).len() == lines.len(),
        forall|i: int|
            0 <= i < lines.len() && crate::record::is_reserved(#[trigger] lines[i])
                ==> transform_lines(lines, vals)[i] == lines[i],
{
    lemma_lines_preserved(lines, vals);
}

/// Transforming the lines twice gives what transforming them once
/// gives. Here `p` stands for whatever the caller's parse of a value
/// token is — each pass supplies `p` of that pass's candidate value
/// tokens — and the premises state the two things only the numeric world
/// outside this library can promise of it: a parse outcome is well
/// formed, and when a rendered value token parses, formatting the
/// outcome against the same unit hands the very token back. That `p` is
/// one function makes the parse deterministic by construction.
pub proof fn lemma_transform_lines_idempotent(
    lines: Seq<Seq<char>>,
    p: spec_fn(Seq<char>) -> Option<ValueFacts>,
)
    requires
        forall|t: Seq<char>| #[trigger] p(t) matches Option::Some(f) ==> facts_wf(f),
        forall|f: ValueFacts, u: Seq<char>|
            facts_wf(f) ==> (#[trigger] p(spec_format_value(f, u)) matches Option::Some(f2)
                ==> spec_format_value(f2, u) == spec_format_value(f, u)),
    ensures
        ({
            let out = transform_lines(lines, spec_candidate_value_tokens(lines).map_values(p));
            transform_lines(out, spec_candidate_value_tokens(out).map_values(p)) == out
        }),
    decreases lines.len(),
{
    let vals = spec_candidate_value_tokens(lines).map_values(p);
    let out = transform_lines(lines, vals);
    if lines.len() == 0 {
        assert(out =~= Seq::<Seq<char>>::empty());
        assert(spec_candidate_value_tokens(out).map_values(p) =~= Seq::<
            Option<ValueFacts>,
        >::empty());
    } else {
        let l0 = lines[0];
        let rest = lines.skip(1);
        let rvals = spec_candidate_value_tokens(rest).map_values(p);
        let tok1 = tokens_of(l0)[1];
        if is_candidate(l0) {
            assert(spec_candidate_value_tokens(lines) == seq![tok1]
                + spec_candidate_value_tokens(rest));
            assert(vals =~= seq![p(tok1)] + rvals);
            assert(vals[0] == p(tok1));
            assert(vals.skip(1) =~= rvals);
        } else {
            assert(spec_candidate_value_tokens(lines) == spec_candidate_value_tokens(rest));
            assert(vals == rvals);
        }
        let val0 = if is_candidate(l0) {
            vals[0]
        } else {
            Option::<ValueFacts>::None
        };
        let tl0 = spec_transform_line(l0, val0);
        let out_rest = transform_lines(rest, rvals);
        assert(out == seq![tl0] + out_rest);
        lemma_transform_lines_idempotent(rest, p);
        assert(out[0] == tl0);
        assert(out.skip(1) =~= out_rest);
        let vals2 = spec_candidate_value_tokens(out).map_values(p);
        if is_candidate(tl0) {
            let w = tokens_of(tl0)[1];
            assert(spec_candidate_value_tokens(out) == seq![w] + spec_candidate_value_tokens(
                out_rest,
            ));
            assert(vals2 =~= seq![p(w)] + spec_candidate_value_tokens(out_rest).map_values(p));
            assert(vals2[0] == p(w));
            assert(vals2.skip(1) =~= spec_candidate_value_tokens(out_rest).map_values(p));
            let val2 = p(w);
            if val0 is Some {
                assert(is_candidate(l0));
                let f = val0->0;
                assert(p(tok1) matches Option::Some(g) ==> facts_wf(g));
                assert(facts_wf(f));
                let e = tokens_of(l0)[0];
                let u = tokens_of(l0)[2];
                let wv = spec_format_value(f, u);
                assert(tl0 == render_line(e, wv, u));
                lemma_tokens_wf(l0);
                lemma_format_value_wf(f, u);
                lemma_render_line_tokens(e, wv, u);
                assert(!(e.len() >= 17) && !(17 + wv.len() >= 33)) by {
                    if e.len() >= 17 || 17 + wv.len() >= 33 {
                        assert(tokens_of(tl0).len() <= 2);
                    }
                }
                assert(tokens_of(tl0) == seq![e, wv, u]);
                assert(w == wv);
                assert(tokens_of(tl0)[2] == u);
                if tl0 == l0 {
                    assert(tok1 == w);
                    assert(val2 == val0);
                }
                assert(val2 matches Option::Some(f2) ==> spec_format_value(f2, u) == wv);
            } else {
                assert(is_candidate(l0));
                assert(tl0 == l0);
                assert(w == tok1);
                assert(val2 == val0);
            }
            lemma_transform_line_idempotent(l0, val0, val2);
            assert(spec_transform_line(tl0, val2) == tl0);
            assert(transform_lines(out, vals2) == seq![tl0] + transform_lines(
                out_rest,
                vals2.skip(1),
            ));
            assert(transform_lines(out, vals2) =~= out);
        } else {
            assert(spec_candidate_value_tokens(out) == spec_candidate_value_tokens(out_rest));
            assert(transform_lines(out, vals2) == seq![spec_transform_line(tl0, Option::None)]
                + transform_lines(out_rest, vals2));
            assert(spec_transform_line(tl0, Option::None) == tl0);
            assert(transform_lines(out, vals2) =~= out);
        }
    }
}

/// The value tokens of the measurement candidates among the logical
/// lines of `content`, in order, ready to be parsed.
pub fn candidate_value_tokens(content: &str) -> (toks: Vec<String>)
    ensures
        toks@.map_values(|t: String| t@) == spec_candidate_value_tokens(
            logical_lines(content@),
        ),
{
    let crlf = detect_crlf(content);
    let lines = split_logical_lines(content, crlf);
    let ghost lv = lines@.map_values(|l: &str| l@);
    let mut out: Vec<String> = Vec::new();
    let mut i: usize = 0;
    proof {
        assert(out@.map_values(|t: String| t@) =~= Seq::<Seq<char>>::empty());
        assert(lv.skip(0) =~= lv);
        assert(Seq::<Seq<char>>::empty() + spec_candidate_value_tokens(lv)
            =~= spec_candidate_value_tokens(lv));
    }
    while i < lines.len()
        invariant
            lv == lines@.map_values(|l: &str| l@),
            lines.len() == lv.len(),
            i <= lines.len(),
            out@.map_values(|t: String| t@) + spec_candidate_value_tokens(lv.skip(i as int))
                == spec_candidate_value_tokens(lv),
        decreases lines.len() - i,
    {
        let ghost pre = lv.skip(i as int);
        proof {
            assert(pre[0] == lv[i as int]);
            assert(pre.skip(1) =~= lv.skip(i as int + 1));
            assert(lv[i as int] == lines@[i as int]@);
        }
        let line_toks = tokenize(lines[i]);
        if line_toks.len() >= 3 && !crate::record::reserved_line(lines[i]) {
            let ghost old_views = out@.map_values(|t: String| t@);
            out.push(line_toks[1].to_owned());
            proof {
                assert(line_toks@.map_values(|t: &str| t@)[1] == line_toks@[1]@);
                assert(out@.map_values(|t: String| t@) =~= old_views.push(
                    tokens_of(lv[i as int])[1],
                ));
                assert(old_views.push(tokens_of(lv[i as int])[1]) + spec_candidate_value_tokens(
                    lv.skip(i as int + 1),
                ) =~= old_views + (seq![tokens_of(lv[i as int])[1]]
                    + spec_candidate_value_tokens(lv.skip(i as int + 1))));
            }
        }
        i += 1;
    }
    proof {
        assert(lv.skip(lv.len() as int) =~= Seq::<Seq<char>>::empty());
        assert(out@.map_values(|t: String| t@) + Seq::<Seq<char>>::empty() =~= out@.map_values(
            |t: String| t@,
        ));
    }
    out
}

/// Transforms every logical line, consuming `vals` in candidate order,
/// following [`transform_lines`].
fn transform_all_lines(lines: &Vec<&str>, vals: &Vec<Option<ValueFacts>>) -> (out: Vec<String>)
    ensures
        out@.map_values(|l: String| l@) == transform_lines(
            lines@.map_values(|l: &str| l@),
            vals@,
        ),
{
    let ghost lv = lines@.map_values(|l: &str| l@);
    let mut out: Vec<String> = Vec::new();
    let mut i: usize = 0;
    let mut ci: usize = 0;
    proof {
        assert(out@.map_values(|l: String| l@) =~= Seq::<Seq<char>>::empty());
        assert(lv.skip(0) =~= lv);
        assert(vals@.skip(0) =~= vals@);
        assert(Seq::<Seq<char>>::empty() + transform_lines(lv, vals@) =~= transform_lines(
            lv,
            vals@,
        ));
    }
    while i < lines.len()
        invariant
            lv == lines@.map_values(|l: &str| l@),
            lines.len() == lv.len(),
            i <= lines.len(),
            ci <= vals.len(),
            out@.map_values(|l: String| l@) + transform_lines(
                lv.skip(i as int),
                vals@.skip(ci as int),
            ) == transform_lines(lv, vals@),
        decreases lines.len() - i,
    {
        let ghost pre = lv.skip(i as int);
        let ghost vrest = vals@.skip(ci as int);
        proof {
            assert(pre[0] == lv[i as int]);
            assert(pre.skip(1) =~= lv.skip(i as int + 1));
            assert(lv[i as int] == lines@[i as int]@);
        }
        let is_cand = candidate_line(lines[i]);
        let eats = is_cand && ci < vals.len();
        let val: Option<&ValueFacts> = if eats {
            match &vals[ci] {
                Option::Some(f) => Option::Some(f),
                Option::None => Option::None,
            }
        } else {
            Option::None
        };
        proof {
            if eats {
                assert(vrest[0] == vals@[ci as int]);
                assert(fact_of(val) == vrest[0]);
                assert(vrest.skip(1) =~= vals@.skip(ci as int + 1));
            } else {
                assert(fact_of(val) is None);
            }
        }
        let tline = transform_line(lines[i], val);
        let ghost old_views = out@.map_values(|l: String| l@);
        out.push(tline);
        proof {
            assert(out@.map_values(|l: String| l@) =~= old_views.push(tline@));
            let ghost next_rest = if eats {
                vrest.skip(1)
            } else {
                vrest
            };
            assert(old_views.push(tline@) + transform_lines(lv.skip(i as int + 1), next_rest)
                =~= old_views + (seq![tline@] + transform_lines(
                lv.skip(i as int + 1),
                next_rest,
            )));
        }
        if eats {
            ci += 1;
        }
        i += 1;
    }
    proof {
        assert(lv.skip(lv.len() as int) =~= Seq::<Seq<char>>::empty());
        assert(out@.map_values(|l: String| l@) + Seq::<Seq<char>>::empty() =~= out@.map_values(
            |l: String| l@,
        ));
    }
    out
}

/// Transforms whole file content, following [`spec_transform`]: `vals`
/// are the caller's parse outcomes for the candidate value tokens, in
/// the order [`candidate_value_tokens`] hands them out.
pub fn transform(content: &str, vals: &Vec<Option<ValueFacts>>) -> (out: String)
    ensures
        out@ == spec_transform(content@, vals@),
{
    let crlf = detect_crlf(content);
    let lines = split_logical_lines(content, crlf);
    let tlines = transform_all_lines(&lines, vals);
    let trailing = ends_terminator(content, crlf);
    join_lines(&tlines, crlf, trailing)
}

} // verus!

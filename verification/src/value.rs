//! The unit-keyed display policy for a measurement value.

use vstd::prelude::*;
use crate::text::{is_space, no_space, str_eq};

verus! {

/// Everything the display policy reads of a parsed measurement value,
/// held as plain data. The double-precision number itself never enters
/// the library: whoever parses the value token supplies the outcomes of
/// the two threshold comparisons and the three renderings the policy
/// chooses between.
pub struct ValueFacts {
    /// The value is strictly below one hundredth.
    pub below_hundredth: bool,
    /// The value is strictly below two.
    pub below_two: bool,
    /// The value rendered with exactly two digits after the decimal point.
    pub fixed_two: String,
    /// The value rendered with exactly one digit after the decimal point.
    pub fixed_one: String,
    /// The value rendered in its default shortest round-trip form.
    pub shortest: String,
}

/// The three renderings of a finite number are nonempty and contain no
/// whitespace: what re-tokenizing a rendered line relies on.
pub open spec fn facts_wf(f: ValueFacts) -> bool {
    &&& f.fixed_two@.len() > 0
    &&& f.fixed_one@.len() > 0
    &&& f.shortest@.len() > 0
    &&& no_space(f.fixed_two@)
    &&& no_space(f.fixed_one@)
    &&& no_space(f.shortest@)
}

/// The display policy, keyed by the unit token: percent values below a
/// hundredth collapse to "<0.01" and otherwise show two decimals; ppm
/// values below two collapse to "<2" and otherwise show one decimal;
/// any other unit shows the shortest round-trip form.
pub open spec fn spec_format_value(f: ValueFacts, unit: Seq<char>) -> Seq<char> {
    if unit == "%"@ {
        if f.below_hundredth {
            "<0.01"@
        } else {
            f.fixed_two@
        }
    } else if unit == "ppm"@ {
        if f.below_two {
            "<2"@
        } else {
            f.fixed_one@
        }
    } else {
        f.shortest@
    }
}

/// Renders a value for display next to `unit`, following
/// [`spec_format_value`].
pub fn format_value(f: &ValueFacts, unit: &str) -> (r: String)
    ensures
        r@ == spec_format_value(*f, unit@),
{
    if str_eq(unit, "%") {
        if f.below_hundredth {
            "<0.01".to_owned()
        } else {
            f.fixed_two.clone()
        }
    } else if str_eq(unit, "ppm") {
        if f.below_two {
            "<2".to_owned()
        } else {
            f.fixed_one.clone()
        }
    } else {
        f.shortest.clone()
    }
}

/// What the policy hands out is nonempty and whitespace-free whenever
/// the facts are well formed: the literals "<0.01" and "<2" are, and the
/// three renderings are by [`facts_wf`].
pub proof fn lemma_format_value_wf(f: ValueFacts, unit: Seq<char>)
    requires
        facts_wf(f),
    ensures
        spec_format_value(f, unit).len() > 0,
        no_space(spec_format_value(f, unit)),
{
    reveal_strlit("<0.01");
    reveal_strlit("<2");
    assert(no_space("<0.01"@)) by {
        assert(forall|i: int| 0 <= i < "<0.01"@.len() ==> !is_space(#[trigger] "<0.01"@[i]));
    }
    assert(no_space("<2"@)) by {
        assert(forall|i: int| 0 <= i < "<2"@.len() ==> !is_space(#[trigger] "<2"@[i]));
    }
}

} // verus!

//! Small helpers around the message categories: the bracketed prefix that a
//! rendered message carries in front of each category.

use vstd::prelude::*;

verus! {

/// The prefix text for message category `attribute`: the category name in
/// square brackets.
pub open spec fn prefix_text(attribute: Seq<char>) -> Seq<char> {
    seq!['['] + attribute + seq![']']
}

/// Returns the prefix for the given message category. Only the `error`,
/// `reason`, and `solution` categories have a prefix.
pub fn style_prefix(attribute: &String) -> (r: String)
    requires
        attribute@ == "error"@ || attribute@ == "reason"@ || attribute@ == "solution"@,
    ensures
        r@ == prefix_text(attribute@),
{
    proof {
        reveal_strlit("[");
        reveal_strlit("]");
    }
    let mut r = String::from_str("[");
    r.append(attribute.as_str());
    r.append("]");
    proof {
        assert(r@ =~= prefix_text(attribute@));
    }
    r
}

} // verus!

//! Argument binder: pairs each extracted expression with either the pattern
//! binding of the field it names, or the raw text as a literal constant.
//!
//! The pattern binding names are produced for every field, whether or not an
//! argument references it; a caller uses the subset it needs. When `dunder`
//! is set, a binding name is the field identifier surrounded by underscores,
//! which keeps generated pattern names from colliding with reserved ones.

use vstd::prelude::*;

verus! {

/// The pattern binding name for field identifier `f`.
pub open spec fn bound_name(f: Seq<char>, dunder: bool) -> Seq<char> {
    if dunder {
        "_"@ + f + "_"@
    } else {
        f
    }
}

/// Index of the first element of `fields` equal to `t`, if any.
pub open spec fn first_match(fields: Seq<Seq<char>>, t: Seq<char>) -> Option<int>
    decreases fields.len(),
{
    if fields.len() == 0 {
        None
    } else if fields[0] == t {
        Some(0)
    } else {
        match first_match(fields.drop_first(), t) {
            None => None,
            Some(j) => Some(j + 1),
        }
    }
}

pub proof fn lemma_first_match(fields: Seq<Seq<char>>, t: Seq<char>)
    ensures
        match first_match(fields, t) {
            Some(j) => 0 <= j < fields.len() && fields[j] == t
                && (forall|k: int| 0 <= k < j ==> fields[k] != t),
            None => forall|k: int| 0 <= k < fields.len() ==> fields[k] != t,
        },
    decreases fields.len(),
{
    if fields.len() > 0 && fields[0] != t {
        let rest = fields.drop_first();
        lemma_first_match(rest, t);
        assert(forall|k: int| 1 <= k < fields.len() ==> fields[k] == rest[k - 1]);
    }
}

/// The keyword argument planned for one marker: either the pattern binding of
/// the field whose identifier the argument text equals, by field index, or
/// the raw argument text as a literal string constant.
#[derive(Debug, PartialEq, Eq)]
pub enum KeywordArg {
    Field(usize),
    Literal(String),
}

/// Whether `k` is the keyword argument that the binder owes for the argument
/// text `arg` under the field identifiers `fields`: a reference to the first
/// matching field if one exists, the raw text as a literal otherwise.
pub open spec fn keyword_arg_for(k: KeywordArg, arg: Seq<char>, fields: Seq<Seq<char>>) -> bool {
    match first_match(fields, arg) {
        Some(j) => k matches KeywordArg::Field(index) && index as int == j,
        None => k matches KeywordArg::Literal(text) && text@ == arg,
    }
}

/// Returns the index of the first element of `vec` whose text equals
/// `target`, and nothing when no element matches.
#[verifier::loop_isolation(false)]
pub fn find_target(target: &String, vec: &Vec<String>) -> (r: Option<usize>)
    ensures
        match r {
            Some(i) => first_match(vec.deep_view(), target@) == Some(i as int),
            None => first_match(vec.deep_view(), target@) is None,
        },
{
    proof {
        lemma_first_match(vec.deep_view(), target@);
    }
    let mut i: usize = 0;
    while i < vec.len()
        invariant
            i <= vec@.len(),
            forall|j: int| 0 <= j < i ==> vec.deep_view()[j] != target@,
        decreases vec@.len() - i,
    {
        if vec[i] == *target {
            proof {
                assert(vec.deep_view()[i as int] == vec@[i as int]@);
            }
            return Some(i);
        }
        proof {
            assert(vec.deep_view()[i as int] == vec@[i as int]@);
        }
        i = i + 1;
    }
    None
}

/// Returns the pattern bindings (one per field, in field order) and the
/// keyword arguments (one per extracted argument, in marker order): an
/// argument whose text exactly equals a field identifier is bound to that
/// field's pattern binding, every other argument becomes a literal constant.
pub fn map_args(args: &Vec<String>, fields: &Vec<String>, dunder: bool) -> (r: (
    Vec<String>,
    Vec<KeywordArg>,
))
    ensures
        r.0@.len() == fields@.len(),
        forall|i: int| 0 <= i < fields@.len() ==> r.0@[i]@ == bound_name(fields@[i]@, dunder),
        r.1@.len() == args@.len(),
        forall|i: int|
            0 <= i < args@.len() ==> keyword_arg_for(r.1@[i], args@[i]@, fields.deep_view()),
{
    let mut bindings: Vec<String> = Vec::new();
    let mut i: usize = 0;
    while i < fields.len()
        invariant
            i <= fields@.len(),
            bindings@.len() == i,
            forall|j: int| 0 <= j < i ==> bindings@[j]@ == bound_name(fields@[j]@, dunder),
        decreases fields@.len() - i,
    {
        let mut b = String::new();
        if dunder {
            b.append("_");
            b.append(fields[i].as_str());
            b.append("_");
            proof {
                assert(b@ =~= bound_name(fields@[i as int]@, dunder));
            }
        } else {
            b.append(fields[i].as_str());
            proof {
                assert(b@ =~= bound_name(fields@[i as int]@, dunder));
            }
        }
        bindings.push(b);
        i = i + 1;
    }
    let mut keyword_args: Vec<KeywordArg> = Vec::new();
    let mut i: usize = 0;
    while i < args.len()
        invariant
            i <= args@.len(),
            keyword_args@.len() == i,
            forall|j: int|
                0 <= j < i ==> keyword_arg_for(keyword_args@[j], args@[j]@, fields.deep_view()),
        decreases args@.len() - i,
    {
        match find_target(&args[i], fields) {
            Some(index) => {
                keyword_args.push(KeywordArg::Field(index));
            }
            None => {
                keyword_args.push(KeywordArg::Literal(args[i].clone()));
            }
        }
        i = i + 1;
    }
    (bindings, keyword_args)
}

/// Returns the pattern bindings and the keyword arguments, as `map_args`
/// does.
pub fn pattern_map(args: &Vec<String>, fields: &Vec<String>, dunder: bool) -> (r: (
    Vec<String>,
    Vec<KeywordArg>,
))
    ensures
        r.0@.len() == fields@.len(),
        forall|i: int| 0 <= i < fields@.len() ==> r.0@[i]@ == bound_name(fields@[i]@, dunder),
        r.1@.len() == args@.len(),
        forall|i: int|
            0 <= i < args@.len() ==> keyword_arg_for(r.1@[i], args@[i]@, fields.deep_view()),
{
    map_args(args, fields, dunder)
}

} // verus!

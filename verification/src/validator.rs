//! Field usage validator: cross-checks, over the group of templates sharing
//! one field set, that every field identifier is referenced verbatim by at
//! least one extracted-argument list, and reports the unused ones together.

use vstd::prelude::*;

verus! {

/// Whether `f` appears verbatim in one of the argument lists.
pub open spec fn appears(lists: Seq<Seq<Seq<char>>>, f: Seq<char>) -> bool {
    exists|i: int, j: int|
        0 <= i < lists.len() && 0 <= j < lists[i].len() && lists[i][j] == f
}

/// The field identifiers of `fields` that no argument list references, in
/// field order.
pub open spec fn unused_fields(fields: Seq<Seq<char>>, lists: Seq<Seq<Seq<char>>>) -> Seq<
    Seq<char>,
> {
    fields.filter(|f: Seq<char>| !appears(lists, f))
}

/// Whether `f`'s text equals some element of some list, as executable code.
#[verifier::loop_isolation(false)]
fn appears_in_lists(f: &String, argument_lists: &Vec<Vec<String>>) -> (r: bool)
    ensures
        r == appears(argument_lists.deep_view(), f@),
{
    let ghost lists = argument_lists.deep_view();
    let mut i: usize = 0;
    while i < argument_lists.len()
        invariant
            lists == argument_lists.deep_view(),
            i <= lists.len(),
            forall|a: int, b: int|
                0 <= a < i && 0 <= b < lists[a].len() ==> lists[a][b] != f@,
        decreases lists.len() - i,
    {
        let list = &argument_lists[i];
        let mut j: usize = 0;
        while j < list.len()
            invariant
                j <= list@.len(),
                forall|b: int| 0 <= b < j ==> lists[i as int][b] != f@,
            decreases list@.len() - j,
        {
            if list[j] == *f {
                proof {
                    assert(lists[i as int][j as int] == f@);
                    assert(appears(lists, f@));
                }
                return true;
            }
            proof {
                assert(lists[i as int][j as int] == list@[j as int]@);
            }
            j = j + 1;
        }
        proof {
            assert(forall|b: int| 0 <= b < lists[i as int].len() ==> lists[i as int][b] != f@);
        }
        i = i + 1;
    }
    false
}

/// Returns every field identifier that appears verbatim in no extracted
/// argument list across the group, in field order; the result is empty
/// exactly when every field is referenced at least once.
pub fn validate(fields: &Vec<String>, argument_lists: &Vec<Vec<String>>) -> (r: Vec<String>)
    ensures
        r.deep_view() == unused_fields(fields.deep_view(), argument_lists.deep_view()),
{
    let ghost fs = fields.deep_view();
    let ghost lists = argument_lists.deep_view();
    let ghost pred = |f: Seq<char>| !appears(lists, f);
    proof {
        reveal(Seq::filter);
        assert(fs.take(0) =~= Seq::<Seq<char>>::empty());
        assert(fs.take(0).filter(pred) =~= Seq::<Seq<char>>::empty());
    }
    let mut r: Vec<String> = Vec::new();
    let mut i: usize = 0;
    while i < fields.len()
        invariant
            fs == fields.deep_view(),
            lists == argument_lists.deep_view(),
            pred == (|f: Seq<char>| !appears(lists, f)),
            i <= fs.len(),
            r.deep_view() == fs.take(i as int).filter(pred),
        decreases fs.len() - i,
    {
        let ghost prev = r.deep_view();
        let used = appears_in_lists(&fields[i], argument_lists);
        if !used {
            r.push(fields[i].clone());
        }
        proof {
            assert(fs.take(i + 1) =~= fs.take(i as int).push(fs[i as int]));
            fs.take(i as int).lemma_filter_push(fs[i as int], pred);
            if !used {
                assert(r.deep_view() =~= prev.push(fs[i as int]));
            }
        }
        i = i + 1;
    }
    proof {
        assert(fs.take(fs.len() as int) =~= fs);
    }
    r
}

} // verus!

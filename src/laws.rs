use vstd::prelude::*;
use crate::generator::brackets;
use crate::json::{Json, Number};
use crate::model::{
    discoveries, generation, is_done, lemma_properties_weight, lemma_run_succ, lemma_step_pending,
    pending, properties, property_line, resolve, run, start, with_suffix, GenError, Item, Progress,
};

verus! {

/// Every array met on the way down through first elements has one.
pub open spec fn first_elements_present(v: Json) -> bool
    decreases v,
{
    match v {
        Json::Array(a) => {
            proof {
                assert(decreases_to!(a => a@));
            }
            a@.len() > 0 && first_elements_present(a@[0])
        },
        _ => true,
    }
}

/// How many arrays are nested around the value reached through first elements.
pub open spec fn array_depth(v: Json) -> nat
    decreases v,
{
    match v {
        Json::Array(a) => {
            proof {
                assert(decreases_to!(a => a@));
            }
            if a@.len() == 0 {
                0
            } else {
                1 + array_depth(a@[0])
            }
        },
        _ => 0,
    }
}

/// The value reached by descending through first elements of arrays.
pub open spec fn innermost(v: Json) -> Json
    decreases v,
{
    match v {
        Json::Array(a) => {
            proof {
                assert(decreases_to!(a => a@));
            }
            if a@.len() == 0 {
                v
            } else {
                innermost(a@[0])
            }
        },
        _ => v,
    }
}

proof fn lemma_brackets_front(n: nat)
    ensures
        "[]"@ + brackets(n) == brackets(n + 1),
    decreases n,
{
    if n == 0 {
        assert("[]"@ + brackets(0) =~= brackets(1));
    } else {
        lemma_brackets_front((n - 1) as nat);
        assert("[]"@ + brackets(n) =~= brackets(n + 1));
    }
}

/// An array whose first elements are present all the way down has the type
/// of the innermost value followed by one `[]` per level of nesting.
pub proof fn law_array_depth(name: Seq<char>, v: Json)
    requires
        first_elements_present(v),
    ensures
        resolve(name, v) == with_suffix(resolve(name, innermost(v)), brackets(array_depth(v))),
        !(innermost(v) is Array),
    decreases v,
{
    match v {
        Json::Array(a) => {
            assert(decreases_to!(a => a@));
            let inner = a@[0];
            law_array_depth(name, inner);
            lemma_brackets_front(array_depth(inner));
            if let Ok((t, w)) = resolve(name, innermost(inner)) {
                assert(t + brackets(array_depth(inner)) + "[]"@ =~= t + ("[]"@ + brackets(
                    array_depth(inner),
                )));
            }
        },
        _ => {
            if let Ok((t, w)) = resolve(name, v) {
                assert(t + brackets(0) =~= t);
            }
        },
    }
}

/// A number is typed `int` when it has a signed 64-bit integer value, else
/// `float` when it is a floating-point value, else `uint`.
pub proof fn law_number_classes(name: Seq<char>, n: Number)
    ensures
        n.fits_i64() ==> resolve(name, Json::Number(n)) == Ok::<(Seq<char>, Option<Item>), GenError>(
            ("int"@, None),
        ),
        n is Float ==> resolve(name, Json::Number(n)) == Ok::<(Seq<char>, Option<Item>), GenError>(
            ("float"@, None),
        ),
        n matches Number::PosInt(u) && u > i64::MAX ==> resolve(name, Json::Number(n)) == Ok::<
            (Seq<char>, Option<Item>),
            GenError,
        >(("uint"@, None)),
{
}

/// Within a class block the properties are declared in the order of the
/// object's entries: each entry's declaration directly follows those of the
/// entries before it.
pub proof fn law_properties_in_entry_order(fields: Seq<(String, Json)>, i: int)
    requires
        properties(fields) is Ok,
        0 <= i < fields.len(),
    ensures
        properties(fields.take(i)) is Ok,
        resolve(fields[i].0@, fields[i].1) is Ok,
        (properties(fields.take(i))->Ok_0.0 + property_line(
            resolve(fields[i].0@, fields[i].1)->Ok_0.0,
            fields[i].0@,
        )).is_prefix_of(properties(fields)->Ok_0.0),
    decreases fields.len(),
{
    let prev = fields.drop_last();
    if i == fields.len() - 1 {
        assert(fields.take(i) =~= prev);
    } else {
        law_properties_in_entry_order(prev, i);
        assert(prev.take(i) =~= fields.take(i));
        assert(prev[i] == fields[i]);
    }
}

/// Generating classes for an object finishes: after the `Root` block it
/// writes exactly one block per class that the object discovers, counted
/// with multiplicity, and then nothing is left to write.
pub proof fn law_one_block_per_discovery(root: Json)
    requires
        root is Object,
    ensures
        start(root) is Ok ==> pending(start(root)) == discoveries(root->Object_0@),
        is_done(run(start(root), pending(start(root)))),
        forall|k: nat|
            k < pending(start(root)) && run(start(root), pending(start(root))) is Ok ==> !is_done(
                #[trigger] run(start(root), k),
            ),
{
    let initial = start(root);
    let n = pending(initial);
    if let Json::Object(f) = root {
        lemma_properties_weight(f@);
    }
    lemma_pending_counts_down(initial, n);
    assert forall|k: nat|
        k < n && run(initial, n) is Ok implies !is_done(#[trigger] run(initial, k)) by {
        lemma_pending_counts_down(initial, k);
        if is_done(run(initial, k)) {
            if run(initial, k) is Ok {
                lemma_weight_zero_empty(run(initial, k));
            }
            lemma_run_tail(initial, k, (n - k) as nat);
        }
    };
}

proof fn lemma_weight_zero_empty(p: Progress)
    requires
        is_done(p),
        p is Ok,
    ensures
        pending(p) == 0,
{
    assert(p->Ok_0.1 =~= Seq::<Item>::empty());
}

proof fn lemma_run_tail(p: Progress, k: nat, j: nat)
    requires
        is_done(run(p, k)),
    ensures
        run(p, k + j) == run(p, k),
    decreases j,
{
    if j > 0 {
        lemma_run_tail(p, k, (j - 1) as nat);
        lemma_run_succ(p, (k + j - 1) as nat);
        assert((k + j - 1) as nat == k + (j - 1) as nat);
    }
}

/// While a run is not done, each step writes one block and leaves one
/// fewer to write.
proof fn lemma_pending_counts_down(initial: Progress, k: nat)
    ensures
        k <= pending(initial) ==> run(initial, k) is Err || k + pending(run(initial, k)) == pending(initial),
        k >= pending(initial) ==> is_done(run(initial, k)),
    decreases k,
{
    if k > 0 {
        lemma_pending_counts_down(initial, (k - 1) as nat);
        lemma_run_succ(initial, (k - 1) as nat);
        let prev = run(initial, (k - 1) as nat);
        if !is_done(prev) {
            lemma_step_pending(prev);
        } else {
            lemma_run_tail(initial, (k - 1) as nat, 1);
            if prev is Ok {
                lemma_weight_zero_empty(prev);
            }
        }
    } else {
        if pending(initial) == 0 && !is_done(initial) {
            lemma_step_pending(initial);
        }
    }
}

/// Generation depends on the document alone: two runs on the same value
/// give the same text, or the same error.
pub proof fn law_generation_repeatable(
    v: Json,
    r1: Result<Seq<char>, GenError>,
    r2: Result<Seq<char>, GenError>,
)
    requires
        r1 == generation(v),
        r2 == generation(v),
    ensures
        r1 == r2,
{
}

} // verus!

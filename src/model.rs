use vstd::prelude::*;
use crate::json::{Json, Number};
use crate::text::{lower_text, title_text};

verus! {

/// Why a document cannot be turned into classes.
#[derive(Clone, Copy, Debug, PartialEq, Eq, Structural)]
pub enum GenError {
    /// The top-level value is not an object.
    NotObject,
    /// A property holds `null`, which has no C# type here.
    NullValue,
    /// A property holds an empty array (at some nesting level), so there is
    /// no element whose type could be inspected.
    EmptyArray,
}

/// A class still to be written: its name and the entries of its object.
pub type Item = (Seq<char>, Seq<(String, Json)>);

/// What has been produced so far: the output text and the classes waiting
/// to be written, front first; or the error that stopped the run.
pub type Progress = Result<(Seq<char>, Seq<Item>), GenError>;

pub open spec fn number_text(n: Number) -> Seq<char> {
    if n.fits_i64() {
        "int"@
    } else if n.is_float() {
        "float"@
    } else {
        "uint"@
    }
}

pub open spec fn with_suffix(
    r: Result<(Seq<char>, Option<Item>), GenError>,
    suffix: Seq<char>,
) -> Result<(Seq<char>, Option<Item>), GenError> {
    match r {
        Ok((t, w)) => Ok((t + suffix, w)),
        Err(e) => Err(e),
    }
}

/// The type text of a property named `name` holding `v`, and the class it
/// discovers, if any. An array is typed by its first element, with one `[]`
/// per level of nesting.
pub open spec fn resolve(name: Seq<char>, v: Json) -> Result<(Seq<char>, Option<Item>), GenError>
    decreases v,
{
    match v {
        Json::Null => Err(GenError::NullValue),
        Json::Bool(_) => Ok(("bool"@, None)),
        Json::Number(n) => Ok((number_text(n), None)),
        Json::Str(_) => Ok(("string"@, None)),
        Json::Array(a) => {
            if a@.len() == 0 {
                Err(GenError::EmptyArray)
            } else {
                proof {
                    assert(decreases_to!(a => a@));
                }
                with_suffix(resolve(name, a@[0]), "[]"@)
            }
        },
        Json::Object(f) => Ok((title_text(name), Some((title_text(name), f@)))),
    }
}

pub open spec fn found(w: Option<Item>) -> Seq<Item> {
    match w {
        Some(i) => seq![i],
        None => Seq::empty(),
    }
}

/// The declaration of one property.
pub open spec fn property_line(t: Seq<char>, key: Seq<char>) -> Seq<char> {
    "    public "@ + t + " "@ + lower_text(key) + " { get; set; }\n"@
}

/// The property declarations of an object's entries, in order, and the
/// classes they discover, in order.
pub open spec fn properties(fields: Seq<(String, Json)>) -> Result<(Seq<char>, Seq<Item>), GenError>
    decreases fields.len(),
{
    if fields.len() == 0 {
        Ok((Seq::empty(), Seq::empty()))
    } else {
        let entry = fields.last();
        match properties(fields.drop_last()) {
            Err(e) => Err(e),
            Ok((text, items)) => match resolve(entry.0@, entry.1) {
                Err(e) => Err(e),
                Ok((t, w)) => Ok((text + property_line(t, entry.0@), items + found(w))),
            },
        }
    }
}

/// One class block, and the classes its properties discover.
pub open spec fn class_block(name: Seq<char>, fields: Seq<(String, Json)>) -> Result<(Seq<char>, Seq<Item>), GenError> {
    match properties(fields) {
        Err(e) => Err(e),
        Ok((text, items)) => Ok(("public class "@ + name + "\n{\n"@ + text + "}\n"@, items)),
    }
}

/// The state after the `Root` block has been written.
pub open spec fn start(root: Json) -> Progress {
    match root {
        Json::Object(f) => class_block("Root"@, f@),
        _ => Err(GenError::NotObject),
    }
}

/// Writes the class at the front of the queue, after a blank line, and
/// queues the classes it discovers behind the others.
pub open spec fn step(p: Progress) -> Progress {
    match p {
        Err(e) => Err(e),
        Ok((out, queue)) => {
            if queue.len() == 0 {
                p
            } else {
                match class_block(queue[0].0, queue[0].1) {
                    Err(e) => Err(e),
                    Ok((text, items)) => Ok((out + "\n"@ + text, queue.drop_first() + items)),
                }
            }
        },
    }
}

pub open spec fn run(p: Progress, k: nat) -> Progress
    decreases k,
{
    if k == 0 {
        p
    } else {
        run(step(p), (k - 1) as nat)
    }
}

pub open spec fn is_done(p: Progress) -> bool {
    p is Err || p->Ok_0.1.len() == 0
}

/// The text of a finished run, or its error.
pub open spec fn output(p: Progress) -> Result<Seq<char>, GenError> {
    match p {
        Ok((out, _)) => Ok(out),
        Err(e) => Err(e),
    }
}

/// A class found by a property leads to an object nested inside it.
pub proof fn lemma_found_is_nested(name: Seq<char>, v: Json)
    ensures
        resolve(name, v) matches Ok((_, Some(item))) ==> decreases_to!(v => item.1),
    decreases v,
{
    match v {
        Json::Array(a) => {
            if a@.len() > 0 {
                assert(decreases_to!(a => a@));
                lemma_found_is_nested(name, a@[0]);
            }
        },
        Json::Object(f) => {
            assert(decreases_to!(f => f@));
        },
        _ => {},
    }
}

/// How many classes the entries discover, directly or through the classes
/// they discover, counted with multiplicity.
pub open spec fn discoveries(fields: Seq<(String, Json)>) -> nat
    decreases fields,
{
    if fields.len() == 0 {
        0
    } else {
        let entry = fields.last();
        proof {
            assert(decreases_to!(fields => fields.drop_last()));
            assert(decreases_to!(fields => fields[fields.len() - 1]));
            lemma_found_is_nested(entry.0@, entry.1);
        }
        discoveries(fields.drop_last()) + match resolve(entry.0@, entry.1) {
            Ok((_, Some(item))) => 1 + discoveries(item.1),
            _ => 0,
        }
    }
}

/// How many blocks the queued classes still produce: each one, and every
/// class it discovers.
pub open spec fn queue_weight(q: Seq<Item>) -> nat
    decreases q.len(),
{
    if q.len() == 0 {
        0
    } else {
        queue_weight(q.drop_last()) + 1 + discoveries(q.last().1)
    }
}

/// The number of steps after which a run is done.
pub open spec fn pending(p: Progress) -> nat {
    match p {
        Ok((_, q)) => queue_weight(q),
        Err(_) => 0,
    }
}

/// The output of generating classes for a whole document.
pub open spec fn generation(root: Json) -> Result<Seq<char>, GenError> {
    output(run(start(root), pending(start(root))))
}

pub proof fn lemma_weight_concat(a: Seq<Item>, b: Seq<Item>)
    ensures
        queue_weight(a + b) == queue_weight(a) + queue_weight(b),
    decreases b.len(),
{
    if b.len() > 0 {
        assert((a + b).drop_last() =~= a + b.drop_last());
        lemma_weight_concat(a, b.drop_last());
    } else {
        assert(a + b =~= a);
    }
}

pub proof fn lemma_weight_front(q: Seq<Item>)
    requires
        q.len() > 0,
    ensures
        queue_weight(q) == 1 + discoveries(q[0].1) + queue_weight(q.drop_first()),
{
    assert(q =~= seq![q[0]] + q.drop_first());
    lemma_weight_concat(seq![q[0]], q.drop_first());
    lemma_weight_single(q[0]);
}

pub proof fn lemma_weight_single(i: Item)
    ensures
        queue_weight(seq![i]) == 1 + discoveries(i.1),
{
    assert(seq![i].drop_last() =~= Seq::<Item>::empty());
    assert(queue_weight(Seq::<Item>::empty()) == 0);
}

/// The classes that the properties of an object discover produce, between
/// them, as many blocks as the object discovers.
pub proof fn lemma_properties_weight(fields: Seq<(String, Json)>)
    ensures
        properties(fields) matches Ok((_, items)) ==> queue_weight(items) == discoveries(fields),
    decreases fields.len(),
{
    if fields.len() > 0 {
        lemma_properties_weight(fields.drop_last());
        let entry = fields.last();
        if let Ok((_, items)) = properties(fields.drop_last()) {
            if let Ok((_, w)) = resolve(entry.0@, entry.1) {
                lemma_weight_concat(items, found(w));
                if let Some(i) = w {
                    lemma_weight_single(i);
                } else {
                    assert(found(w).len() == 0);
                }
            }
        }
    }
}

/// A step that writes a block leaves one block fewer to write.
pub proof fn lemma_step_pending(p: Progress)
    requires
        !is_done(p),
    ensures
        step(p) is Ok ==> pending(step(p)) + 1 == pending(p),
        pending(p) >= 1,
{
    let q = p->Ok_0.1;
    lemma_weight_front(q);
    lemma_properties_weight(q[0].1);
    if let Ok((_, items)) = class_block(q[0].0, q[0].1) {
        lemma_weight_concat(q.drop_first(), items);
    }
}

pub proof fn lemma_run_succ(p: Progress, k: nat)
    ensures
        run(p, k + 1) == step(run(p, k)),
    decreases k,
{
    if k > 0 {
        lemma_run_succ(step(p), (k - 1) as nat);
    } else {
        assert(run(step(p), 0) == step(p));
    }
}

pub proof fn lemma_run_done(p: Progress, k: nat)
    requires
        is_done(p),
    ensures
        run(p, k) == p,
    decreases k,
{
    if k > 0 {
        lemma_run_done(step(p), (k - 1) as nat);
    }
}

pub proof fn lemma_run_add(p: Progress, a: nat, b: nat)
    ensures
        run(p, a + b) == run(run(p, a), b),
    decreases a,
{
    if a > 0 {
        lemma_run_add(step(p), (a - 1) as nat, b);
        assert((a + b - 1) as nat == ((a - 1) as nat + b) as nat);
    }
}

/// An error among the first entries is the error of the whole object.
pub proof fn lemma_properties_prefix_err(fields: Seq<(String, Json)>, j: int)
    requires
        0 <= j <= fields.len(),
        properties(fields.take(j)) is Err,
    ensures
        properties(fields) == properties(fields.take(j)),
    decreases fields.len() - j,
{
    if j < fields.len() {
        assert(fields.take(j + 1).drop_last() =~= fields.take(j));
        lemma_properties_prefix_err(fields, j + 1);
    } else {
        assert(fields.take(j) =~= fields);
    }
}

} // verus!

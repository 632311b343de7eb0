use vstd::prelude::*;
use std::collections::VecDeque;
use crate::csharp::CSharpType;
use crate::json::Json;
use crate::model::{
    class_block, found, generation, is_done, lemma_properties_prefix_err, lemma_run_add, lemma_run_done, lemma_run_succ,
    lemma_step_pending, output, pending, properties, property_line, queue_weight,
    resolve, run, start, step, with_suffix, GenError, Item,
};
use crate::text::{title_text, to_ascii_lowercase, to_ascii_uppercase};

verus! {

/// `[]` written `n` times.
pub open spec fn brackets(n: nat) -> Seq<char>
    decreases n,
{
    if n == 0 {
        Seq::empty()
    } else {
        brackets((n - 1) as nat) + "[]"@
    }
}

proof fn lemma_brackets_commute(n: nat)
    ensures
        brackets(n) + "[]"@ == "[]"@ + brackets(n),
    decreases n,
{
    if n == 0 {
        assert(brackets(0) + "[]"@ =~= "[]"@ + brackets(0));
    } else {
        lemma_brackets_commute((n - 1) as nat);
        assert(brackets(n) + "[]"@ =~= "[]"@ + brackets(n));
    }
}

proof fn lemma_suffix_twice(
    r: Result<(Seq<char>, Option<Item>), GenError>,
    a: Seq<char>,
    b: Seq<char>,
)
    ensures
        with_suffix(with_suffix(r, a), b) == with_suffix(r, a + b),
{
    if let Ok((t, w)) = r {
        assert(t + a + b =~= t + (a + b));
    }
}

/// The text of a generation result.
pub open spec fn result_text(r: Result<String, GenError>) -> Result<Seq<char>, GenError> {
    match r {
        Ok(s) => Ok(s@),
        Err(e) => Err(e),
    }
}

/// Writes C# classes for a JSON document, keeping the object shapes that
/// are still to be written in a first-in, first-out queue.
pub struct ClassGenerator<'t> {
    todos: VecDeque<(String, &'t Vec<(String, Json)>)>,
}

impl<'t> ClassGenerator<'t> {
    /// The classes waiting to be written, front first.
    pub closed spec fn queue(&self) -> Seq<Item> {
        self.todos@.map_values(|e: (String, &'t Vec<(String, Json)>)| (e.0@, e.1@))
    }

    /// Between two runs nothing is waiting.
    pub open spec fn is_idle(&self) -> bool {
        self.queue().len() == 0
    }

    pub fn new() -> (r: Self)
        ensures
            r.is_idle(),
    {
        Self { todos: VecDeque::new() }
    }

    /// Generates the classes for the document `ast`: `Root` for the
    /// top-level object, then every class it discovers, breadth-first.
    pub fn generate(&mut self, ast: &'t Json) -> (r: Result<String, GenError>)
        requires
            old(self).is_idle(),
        ensures
            result_text(r) == generation(*ast),
            final(self).is_idle(),
    {
        let ghost initial = start(*ast);
        let root = match ast {
            Json::Object(f) => f,
            _ => {
                proof {
                    lemma_run_done(initial, pending(initial));
                }
                return Err(GenError::NotObject);
            },
        };
        let mut out = String::new();
        out.append("public class ");
        out.append("Root");
        out.append("\n{\n");
        match self.generate_properties(root, &mut out) {
            Ok(()) => {},
            Err(e) => {
                proof {
                    lemma_run_done(initial, pending(initial));
                }
                self.todos.clear();
                return Err(e);
            },
        }
        out.append("}\n");
        proof {
            assert(self.queue() =~= properties(root@)->Ok_0.1);
            assert(out@ =~= class_block("Root"@, root@)->Ok_0.0);
        }
        let ghost mut k: nat = 0;
        loop
            invariant
                initial == start(*ast),
                run(initial, k) == Ok::<(Seq<char>, Seq<Item>), GenError>((out@, self.queue())),
                k + pending(run(initial, k)) == pending(initial),
            ensures
                generation(*ast) == Ok::<Seq<char>, GenError>(out@),
                self.is_idle(),
            decreases queue_weight(self.queue()),
        {
            let ghost before = run(initial, k);
            let ghost q = self.queue();
            match self.todos.pop_front() {
                None => {
                    proof {
                        assert(is_done(before));
                        lemma_run_add(initial, k, pending(before));
                        lemma_run_done(before, pending(before));
                        assert(run(initial, pending(initial)) == run(before, pending(before)));
                        assert(generation(*ast) == output(before));
                    }
                    break;
                },
                Some((class, node)) => {
                    proof {
                        assert(self.queue() =~= q.drop_first());
                        assert(q[0] == (class@, node@));
                        lemma_step_pending(before);
                        lemma_run_succ(initial, k);
                    }
                    let ghost out0 = out@;
                    out.append("\n");
                    out.append("public class ");
                    out.append(class.as_str());
                    out.append("\n{\n");
                    match self.generate_properties(node, &mut out) {
                        Ok(()) => {},
                        Err(e) => {
                            proof {
                                let rest = (pending(initial) - k - 1) as nat;
                                lemma_run_add(initial, k + 1, rest);
                                lemma_run_done(step(before), rest);
                                assert(step(before) == Err::<(Seq<char>, Seq<Item>), GenError>(e));
                                assert(run(initial, k + 1) == step(before));
                                assert(run(initial, pending(initial)) == run(step(before), rest));
                            }
                            self.todos.clear();
                            return Err(e);
                        },
                    }
                    out.append("}\n");
                    proof {
                        let block = class_block(q[0].0, q[0].1)->Ok_0;
                        assert(self.queue() =~= q.drop_first() + block.1);
                        assert(out@ =~= out0 + "\n"@ + block.0);
                        k = k + 1;
                    }
                },
            }
        }
        Ok(out)
    }

    /// Writes one declaration per entry of `root`, in order, queueing the
    /// classes that the entries discover.
    pub fn generate_properties(&mut self, root: &'t Vec<(String, Json)>, out: &mut String) -> (r:
        Result<(), GenError>)
        ensures
            match properties(root@) {
                Ok((text, items)) => {
                    &&& r is Ok
                    &&& final(out)@ == old(out)@ + text
                    &&& final(self).queue() == old(self).queue() + items
                },
                Err(e) => r == Err::<(), GenError>(e),
            },
    {
        let n = root.len();
        let mut i: usize = 0;
        while i < n
            invariant
                n == root@.len(),
                i <= n,
                properties(root@.take(i as int)) matches Ok((text, items)) && out@ == old(out)@
                    + text && self.queue() == old(self).queue() + items,
            decreases n - i,
        {
            let ghost prev = properties(root@.take(i as int))->Ok_0;
            let ghost out0 = out@;
            let ghost q0 = self.queue();
            let entry = &root[i];
            proof {
                assert(root@.take(i + 1).drop_last() =~= root@.take(i as int));
                assert(root@.take(i + 1).last() == root@[i as int]);
            }
            let class = match self.find_type((&entry.0, &entry.1)) {
                Ok(t) => t,
                Err(e) => {
                    proof {
                        lemma_properties_prefix_err(root@, i + 1);
                    }
                    return Err(e);
                },
            };
            let varname = to_ascii_lowercase(entry.0.as_str());
            out.append("    public ");
            out.append(class.as_str());
            out.append(" ");
            out.append(varname.as_str());
            out.append(" { get; set; }\n");
            proof {
                let t = resolve(entry.0@, entry.1)->Ok_0;
                assert(out@ =~= out0 + property_line(t.0, entry.0@));
                assert(self.queue() =~= q0 + found(t.1));
                assert(prev.1 + found(t.1) == properties(root@.take(i + 1))->Ok_0.1);
                assert(q0 + found(t.1) =~= old(self).queue() + (prev.1 + found(t.1)));
            }
            i = i + 1;
        }
        proof {
            assert(root@.take(n as int) =~= root@);
        }
        Ok(())
    }

    /// The C# type of the property `entry`, queueing the class it
    /// discovers, if any.
    pub fn find_type(&mut self, entry: (&String, &'t Json)) -> (r: Result<CSharpType, GenError>)
        ensures
            match resolve(entry.0@, *entry.1) {
                Ok((t, w)) => {
                    &&& r matches Ok(ty) && ty.text() == t
                    &&& final(self).queue() == old(self).queue() + found(w)
                },
                Err(e) => {
                    &&& r == Err::<CSharpType, GenError>(e)
                    &&& final(self).queue() == old(self).queue()
                },
            },
    {
        match entry.1 {
            Json::Array(_) => match self.flatten_type(entry) {
                Ok(s) => Ok(CSharpType::Custom(s)),
                Err(e) => Err(e),
            },
            _ => self.scalar_type(entry),
        }
    }

    /// The type of a value that is not an array.
    fn scalar_type(&mut self, entry: (&String, &'t Json)) -> (r: Result<CSharpType, GenError>)
        requires
            !(entry.1 is Array),
        ensures
            match resolve(entry.0@, *entry.1) {
                Ok((t, w)) => {
                    &&& r matches Ok(ty) && ty.text() == t
                    &&& final(self).queue() == old(self).queue() + found(w)
                },
                Err(e) => {
                    &&& r == Err::<CSharpType, GenError>(e)
                    &&& final(self).queue() == old(self).queue()
                },
            },
    {
        match entry.1 {
            Json::Str(_) => Ok(CSharpType::Primitive("string")),
            Json::Number(num) => {
                if num.is_i64() {
                    Ok(CSharpType::Primitive("int"))
                } else if num.is_f64() {
                    Ok(CSharpType::Primitive("float"))
                } else {
                    Ok(CSharpType::Primitive("uint"))
                }
            },
            Json::Bool(_) => Ok(CSharpType::Primitive("bool")),
            Json::Object(obj) => {
                let class_name = Self::titlecase(entry.0.as_str());
                let ghost q0 = self.queue();
                self.todos.push_back((class_name.clone(), obj));
                proof {
                    assert(self.queue() =~= q0 + found(resolve(entry.0@, *entry.1)->Ok_0.1));
                }
                Ok(CSharpType::Custom(class_name))
            },
            Json::Null => Err(GenError::NullValue),
            Json::Array(_) => Err(GenError::EmptyArray),
        }
    }

    /// The type of an array: the type of its first element, descending
    /// through nested arrays, with one `[]` per level.
    pub fn flatten_type(&mut self, entry: (&String, &'t Json)) -> (r: Result<String, GenError>)
        ensures
            match resolve(entry.0@, *entry.1) {
                Ok((t, w)) => {
                    &&& r matches Ok(s) && s@ == t
                    &&& final(self).queue() == old(self).queue() + found(w)
                },
                Err(e) => {
                    &&& r == Err::<String, GenError>(e)
                    &&& final(self).queue() == old(self).queue()
                },
            },
    {
        let mut suffix = String::new();
        let mut curr: &'t Json = entry.1;
        let ghost mut depth: nat = 0;
        proof {
            assert(with_suffix(resolve(entry.0@, *curr), suffix@) =~= resolve(entry.0@, *curr)) by {
                if let Ok((t, w)) = resolve(entry.0@, *curr) {
                    assert(t + suffix@ =~= t);
                }
            }
        }
        loop
            invariant
                with_suffix(resolve(entry.0@, *curr), suffix@) == resolve(entry.0@, *entry.1),
                suffix@ == brackets(depth),
                self.queue() == old(self).queue(),
            ensures
                with_suffix(resolve(entry.0@, *curr), suffix@) == resolve(entry.0@, *entry.1),
                self.queue() == old(self).queue(),
                !(curr is Array),
            decreases *curr,
        {
            match curr {
                Json::Array(a) => {
                    if a.len() == 0 {
                        return Err(GenError::EmptyArray);
                    }
                    let ghost old_suffix = suffix@;
                    proof {
                        assert(decreases_to!(*a => a@));
                        lemma_brackets_commute(depth);
                        lemma_suffix_twice(resolve(entry.0@, a@[0]), "[]"@, old_suffix);
                    }
                    curr = &a[0];
                    suffix.append("[]");
                    proof {
                        depth = depth + 1;
                    }
                },
                _ => break,
            }
        }
        match self.scalar_type((entry.0, curr)) {
            Ok(t) => {
                let mut s = String::from_str(t.as_str());
                s.append(suffix.as_str());
                Ok(s)
            },
            Err(e) => Err(e),
        }
    }

    /// The name with its first character in upper case.
    pub fn titlecase(name: &str) -> (r: String)
        ensures
            r@ == title_text(name@),
    {
        let n = name.unicode_len();
        if n == 0 {
            return String::from_str(name);
        }
        let mut res = to_ascii_uppercase(name.substring_char(0, 1));
        res.append(name.substring_char(1, n));
        assert(res@ =~= title_text(name@));
        res
    }
}

} // verus!

//! Environment variables for a container.
//!
//! The variables are kept as an ordered list of `(name, value)` pairs in
//! which later entries win on lookup.  Merging therefore appends: the
//! merged-in pairs come last and override earlier ones, which is how
//! per-job variables beat the agent's defaults.

use vstd::prelude::*;

verus! {

/// An ordered collection of environment variables; later entries shadow
/// earlier ones with the same name.
pub struct EnvVars(Vec<(String, String)>);

impl View for EnvVars {
    type V = Seq<(Seq<char>, Seq<char>)>;

    closed spec fn view(&self) -> Seq<(Seq<char>, Seq<char>)> {
        self.0@.map_values(|p: (String, String)| (p.0@, p.1@))
    }
}

/// The value bound to `name`, taking the latest binding when several share
/// the name.
pub open spec fn spec_env_lookup(s: Seq<(Seq<char>, Seq<char>)>, name: Seq<char>) -> Option<
    Seq<char>,
>
    decreases s.len(),
{
    if s.len() == 0 {
        None
    } else if s.last().0 == name {
        Some(s.last().1)
    } else {
        spec_env_lookup(s.drop_last(), name)
    }
}

/// The `NAME=value` rendering of each pair, in order.
pub open spec fn spec_env_strings(s: Seq<(Seq<char>, Seq<char>)>) -> Seq<Seq<char>> {
    s.map_values(|p: (Seq<char>, Seq<char>)| p.0 + "="@ + p.1)
}

fn clone_pairs(v: &Vec<(String, String)>) -> (r: Vec<(String, String)>)
    ensures
        r@ == v@,
{
    let mut r: Vec<(String, String)> = Vec::new();
    let mut i: usize = 0;
    while i < v.len()
        invariant
            i <= v.len(),
            r@ == v@.take(i as int),
        decreases v.len() - i,
    {
        r.push((v[i].0.clone(), v[i].1.clone()));
        proof {
            assert(v@.take(i + 1) =~= v@.take(i as int).push(v@[i as int]));
        }
        i = i + 1;
    }
    proof {
        assert(v@.take(v.len() as int) =~= v@);
    }
    r
}

impl Clone for EnvVars {
    /// A value copy of this collection.
    fn clone(&self) -> (r: EnvVars)
        ensures
            r@ == self@,
    {
        EnvVars(clone_pairs(&self.0))
    }
}

impl EnvVars {
    /// An empty collection.
    pub fn new() -> (r: EnvVars)
        ensures
            r@ == Seq::<(Seq<char>, Seq<char>)>::empty(),
    {
        let e = EnvVars(Vec::new());
        proof {
            assert(e@ =~= Seq::<(Seq<char>, Seq<char>)>::empty());
        }
        e
    }

    /// The underlying pairs, in order.
    pub fn inner(&self) -> (r: &Vec<(String, String)>)
        ensures
            r@.map_values(|p: (String, String)| (p.0@, p.1@)) == self@,
    {
        &self.0
    }

    /// Mutable access to the underlying pairs.
    pub fn inner_mut(&mut self) -> (r: &mut Vec<(String, String)>)
        ensures
            r@.map_values(|p: (String, String)| (p.0@, p.1@)) == old(self)@,
            final(self)@ == final(r)@.map_values(|p: (String, String)| (p.0@, p.1@)),
    {
        &mut self.0
    }

    /// Appends one variable, shadowing any earlier binding of the name.
    pub fn push(&mut self, name: String, value: String)
        ensures
            final(self)@ == old(self)@.push((name@, value@)),
    {
        self.0.push((name, value));
        proof {
            assert(self@ =~= old(self)@.push((name@, value@)));
        }
    }

    /// Merge the given EnvVars into this one, overriding any existing keys.
    pub fn merge(&mut self, other: EnvVars)
        ensures
            final(self)@ == old(self)@ + other@,
    {
        let EnvVars(mut pairs) = other;
        self.0.append(&mut pairs);
        proof {
            assert(self@ =~= old(self)@ + other@);
        }
    }

    /// Combine the given EnvVars with this one, overriding any existing keys.
    /// Returns a new EnvVars instance.
    pub fn merge_clone(&self, other: &EnvVars) -> (r: EnvVars)
        ensures
            r@ == self@ + other@,
    {
        let mut pairs = clone_pairs(&self.0);
        let mut tail = clone_pairs(&other.0);
        pairs.append(&mut tail);
        let r = EnvVars(pairs);
        proof {
            assert(r@ =~= self@ + other@);
        }
        r
    }

    /// Renders every pair as `NAME=value`, in order.
    pub fn to_strings(&self) -> (r: Vec<String>)
        ensures
            r@.map_values(|s: String| s@) == spec_env_strings(self@),
    {
        let mut r: Vec<String> = Vec::new();
        let mut i: usize = 0;
        while i < self.0.len()
            invariant
                i <= self.0.len(),
                r@.len() == i,
                forall|k: int| 0 <= k < i ==> #[trigger] r@[k]@ == spec_env_strings(self@)[k],
            decreases self.0.len() - i,
        {
            let line = self.0[i].0.clone().concat("=").concat(self.0[i].1.as_str());
            proof {
                assert(self@[i as int] == (self.0@[i as int].0@, self.0@[i as int].1@));
                assert(line@ == self@[i as int].0 + "="@ + self@[i as int].1);
                assert(spec_env_strings(self@)[i as int] == self@[i as int].0 + "="@
                    + self@[i as int].1);
            }
            r.push(line);
            i = i + 1;
        }
        proof {
            assert(r@.map_values(|s: String| s@) =~= spec_env_strings(self@));
        }
        r
    }
}

/// Lookup in an appended collection prefers the appended half: merged-in
/// variables win on collision and are otherwise added.
pub proof fn lemma_env_lookup_concat(
    a: Seq<(Seq<char>, Seq<char>)>,
    b: Seq<(Seq<char>, Seq<char>)>,
    name: Seq<char>,
)
    ensures
        spec_env_lookup(a + b, name) == if spec_env_lookup(b, name) is Some {
            spec_env_lookup(b, name)
        } else {
            spec_env_lookup(a, name)
        },
    decreases b.len(),
{
    if b.len() == 0 {
        assert(a + b =~= a);
    } else {
        let s = a + b;
        assert(s.last() == b.last());
        if b.last().0 == name {
        } else {
            assert(s.drop_last() =~= a + b.drop_last());
            lemma_env_lookup_concat(a, b.drop_last(), name);
        }
    }
}

} // verus!

//! The variables of the shell session, as names bound to values.

use vstd::prelude::*;
use crate::text::{slice_to_string, strings, to_chars};

verus! {

/// The variables that `names` and `values` bind, pair by pair; of two pairs
/// with one name the later one counts.
pub open spec fn bindings(names: Seq<Seq<char>>, values: Seq<Seq<char>>) -> Map<Seq<char>, Seq<char>>
    decreases names.len(),
{
    if names.len() == 0 || values.len() == 0 {
        Map::empty()
    } else {
        bindings(names.drop_last(), values.drop_last()).insert(names.last(), values.last())
    }
}

/// The value of the variable `name`: what it is bound to, and the empty
/// string when it is not bound.
pub open spec fn value_in(env: Map<Seq<char>, Seq<char>>, name: Seq<char>) -> Seq<char> {
    if env.contains_key(name) {
        env[name]
    } else {
        Seq::empty()
    }
}

/// The name that a reference to a variable holds behind its sigil.
pub open spec fn referred_name(reference: Seq<char>) -> Seq<char> {
    if reference.len() == 0 {
        reference
    } else {
        reference.drop_first()
    }
}

/// The variables of the session.
pub struct Environment {
    /// The names that have been bound, in the order of binding.
    pub names: Vec<String>,
    /// The value that each of `names` was bound to.
    pub values: Vec<String>,
}

impl View for Environment {
    type V = Map<Seq<char>, Seq<char>>;

    open spec fn view(&self) -> Map<Seq<char>, Seq<char>> {
        bindings(strings(self.names@), strings(self.values@))
    }
}

impl Environment {
    /// Every name has its value.
    pub open spec fn wf(&self) -> bool {
        self.names@.len() == self.values@.len()
    }

    /// A session without variables.
    pub fn new() -> (env: Environment)
        ensures
            env.wf(),
            env@ == Map::<Seq<char>, Seq<char>>::empty(),
    {
        Environment { names: Vec::new(), values: Vec::new() }
    }

    /// The value of the variable `name`, empty when it is not bound.
    pub fn get(&self, name: &str) -> (value: String)
        requires
            self.wf(),
        ensures
            value@ == value_in(self@, name@),
    {
        let wanted = name.to_owned();
        let mut i: usize = self.names.len();
        assert(strings(self.names@).take(i as int) =~= strings(self.names@));
        assert(strings(self.values@).take(i as int) =~= strings(self.values@));
        while i > 0
            invariant
                i <= self.names.len(),
                self.wf(),
                wanted@ == name@,
                value_in(self@, name@) == value_in(
                    bindings(strings(self.names@).take(i as int), strings(self.values@).take(i as int)),
                    name@,
                ),
            decreases i,
        {
            proof {
                let ns = strings(self.names@).take(i as int);
                let vs = strings(self.values@).take(i as int);
                assert(ns.drop_last() =~= strings(self.names@).take(i - 1));
                assert(vs.drop_last() =~= strings(self.values@).take(i - 1));
            }
            if self.names[i - 1] == wanted {
                return self.values[i - 1].clone();
            }
            i -= 1;
        }
        String::new()
    }

    /// Binds the variable `name` to `value`.
    pub fn set(&mut self, name: String, value: String)
        requires
            old(self).wf(),
        ensures
            final(self).wf(),
            final(self)@ == old(self)@.insert(name@, value@),
    {
        self.names.push(name);
        self.values.push(value);
        proof {
            assert(strings(self.names@).drop_last() =~= strings(old(self).names@));
            assert(strings(self.values@).drop_last() =~= strings(old(self).values@));
        }
    }

    /// The value of the variable that `reference` names behind its sigil.
    pub fn reference_value(&self, reference: &str) -> (value: String)
        requires
            self.wf(),
        ensures
            value@ == value_in(self@, referred_name(reference@)),
    {
        let chars = to_chars(reference);
        if chars.len() == 0 {
            return self.get(reference);
        }
        let name = slice_to_string(&chars, 1, chars.len());
        self.get(name.as_str())
    }
}

} // verus!

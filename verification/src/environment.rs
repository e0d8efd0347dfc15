//! The variables of a session.
use vstd::prelude::*;

use crate::expression::{Expression, Term};

verus! {

/// The variables of a session and the values bound to them.
///
/// No name is held twice.
pub struct Environment {
    names: Vec<String>,
    values: Vec<Expression>,
}

/// The position of `name` among `names`.
pub open spec fn index_of(names: Seq<String>, name: Seq<char>) -> int {
    choose|i: int| 0 <= i < names.len() && names[i]@ == name
}

impl View for Environment {
    type V = Map<Seq<char>, Term>;

    /// The map from each bound name to its value.
    closed spec fn view(&self) -> Map<Seq<char>, Term> {
        Map::new(
            |name: Seq<char>| exists|i: int| 0 <= i < self.names.len() && self.names[i]@ == name,
            |name: Seq<char>| self.values[index_of(self.names@, name)]@,
        )
    }
}

impl Environment {
    /// Every name has its value, and no name occurs twice.
    pub closed spec fn wf(&self) -> bool {
        &&& self.names.len() == self.values.len()
        &&& forall|i: int, j: int|
            0 <= i < j < self.names.len() ==> self.names[i]@ != self.names[j]@
    }

    /// An environment without variables.
    pub fn new() -> (env: Self)
        ensures
            env.wf(),
            env@ == Map::<Seq<char>, Term>::empty(),
    {
        let env = Environment { names: Vec::new(), values: Vec::new() };
        assert(env@ =~= Map::<Seq<char>, Term>::empty());
        env
    }

    /// Where `name` stands, if it is bound.
    fn find(&self, name: &String) -> (at: Option<usize>)
        requires
            self.wf(),
        ensures
            match at {
                Some(i) => i < self.names.len() && self.names[i as int]@ == name@ && index_of(
                    self.names@,
                    name@,
                ) == i && self@.dom().contains(name@),
                None => !self@.dom().contains(name@) && forall|i: int|
                    0 <= i < self.names.len() ==> self.names[i]@ != name@,
            },
    {
        let mut i: usize = 0;
        while i < self.names.len()
            invariant
                self.wf(),
                i <= self.names.len(),
                forall|k: int| 0 <= k < i ==> self.names[k]@ != name@,
            decreases self.names.len() - i,
        {
            if self.names[i] == *name {
                assert(self.names[i as int]@ == name@);
                return Some(i);
            }
            i += 1;
        }
        None
    }

    /// The value bound to `name`, if there is one.
    pub fn get(&self, name: &String) -> (value: Option<Expression>)
        requires
            self.wf(),
        ensures
            match value {
                Some(v) => self@.dom().contains(name@) && v@ == self@[name@],
                None => !self@.dom().contains(name@),
            },
    {
        match self.find(name) {
            Some(i) => Some(self.values[i].clone()),
            None => None,
        }
    }

    /// Binds `name` to `value`, in place of what it was bound to.
    pub fn insert(&mut self, name: String, value: Expression)
        requires
            old(self).wf(),
        ensures
            final(self).wf(),
            final(self)@ == old(self)@.insert(name@, value@),
    {
        match self.find(&name) {
            Some(i) => {
                self.values.set(i, value);
                assert(self@ =~= old(self)@.insert(name@, value@)) by {
                    assert forall|k: Seq<char>| #[trigger] self@.dom().contains(k) implies self@[k]
                        == old(self)@.insert(name@, value@)[k] by {
                        let j = index_of(self.names@, k);
                        assert(0 <= j < self.names.len() && self.names[j]@ == k);
                    }
                }
            },
            None => {
                self.names.push(name);
                self.values.push(value);
                assert(self@ =~= old(self)@.insert(name@, value@)) by {
                    let n = old(self).names.len() as int;
                    assert(self.names[n]@ == name@);
                    assert forall|k: Seq<char>| #[trigger] self@.dom().contains(k) implies self@[k]
                        == old(self)@.insert(name@, value@)[k] by {
                        let j = index_of(self.names@, k);
                        assert(0 <= j < self.names.len() && self.names[j]@ == k);
                        if k != name@ {
                            assert(j < n);
                            assert(old(self).names[j]@ == k);
                            let j0 = index_of(old(self).names@, k);
                            assert(0 <= j0 < n && old(self).names[j0]@ == k);
                            assert(self.names[j0]@ == k);
                        }
                    }
                    assert forall|k: Seq<char>|
                        old(self)@.insert(name@, value@).dom().contains(k) implies #[trigger] self@.dom().contains(
                        k,
                    ) by {
                        if k != name@ {
                            let j0 = index_of(old(self).names@, k);
                            assert(0 <= j0 < n && old(self).names[j0]@ == k);
                            assert(self.names[j0]@ == k);
                        }
                    }
                }
            },
        }
    }

    /// The number of variables.
    pub fn len(&self) -> (n: usize)
        requires
            self.wf(),
        ensures
            n == self@.dom().len(),
            self@.dom().finite(),
    {
        proof {
            self.lemma_dom_len(self.names.len() as int);
            assert(self.dom_upto(self.names.len() as int) =~= self@.dom());
        }
        self.names.len()
    }

    /// The names among the first `n`.
    spec fn dom_upto(&self, n: int) -> Set<Seq<char>> {
        Set::new(|name: Seq<char>| exists|i: int| 0 <= i < n && self.names[i]@ == name)
    }

    /// The first `n` names are `n` different names.
    proof fn lemma_dom_len(&self, n: int)
        requires
            self.wf(),
            0 <= n <= self.names.len(),
        ensures
            self.dom_upto(n).finite(),
            self.dom_upto(n).len() == n,
        decreases n,
    {
        if n == 0 {
            assert(self.dom_upto(0) =~= Set::<Seq<char>>::empty());
        } else {
            self.lemma_dom_len(n - 1);
            let last = self.names[n - 1]@;
            assert(self.dom_upto(n) =~= self.dom_upto(n - 1).insert(last));
            assert(!self.dom_upto(n - 1).contains(last));
        }
    }
}

impl Clone for Environment {
    fn clone(&self) -> (copy: Self)
        ensures
            self.wf() ==> copy.wf() && copy@ == self@,
    {
        let mut names: Vec<String> = Vec::new();
        let mut values: Vec<Expression> = Vec::new();
        let mut i: usize = 0;
        while i < self.names.len() && i < self.values.len()
            invariant
                i <= self.names.len(),
                i <= self.values.len(),
                names.len() == i,
                values.len() == i,
                forall|k: int| 0 <= k < i ==> names[k]@ == self.names[k]@,
                forall|k: int| 0 <= k < i ==> values[k]@ == self.values[k]@,
            decreases self.names.len() - i,
        {
            names.push(self.names[i].clone());
            values.push(self.values[i].clone());
            i += 1;
        }
        let copy = Environment { names, values };
        proof {
            if self.wf() {
                assert forall|k: Seq<char>| #[trigger]
                    copy@.dom().contains(k) == self@.dom().contains(k) by {
                    if copy@.dom().contains(k) {
                        let j = index_of(copy.names@, k);
                        assert(self.names[j]@ == k);
                    }
                    if self@.dom().contains(k) {
                        let j = index_of(self.names@, k);
                        assert(copy.names[j]@ == k);
                    }
                }
                assert forall|k: Seq<char>| #[trigger] copy@.dom().contains(k) implies copy@[k]
                    == self@[k] by {
                    let j = index_of(copy.names@, k);
                    assert(self.names[j]@ == k);
                    let j0 = index_of(self.names@, k);
                    assert(0 <= j0 < self.names.len() && self.names[j0]@ == k);
                }
                assert(copy@ =~= self@);
            }
        }
        copy
    }
}

} // verus!

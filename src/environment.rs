use vstd::prelude::*;
use crate::types::{EnvValue, Val, val_of};

verus! {

/// The bindings of one session: each name bound to one value.
pub struct Environment {
    entries: Vec<(String, EnvValue)>,
}

/// The map that a list of bindings stands for: a later binding of a name wins.
pub open spec fn map_of(s: Seq<(String, EnvValue)>) -> Map<Seq<char>, Val>
    decreases s.len(),
{
    if s.len() == 0 {
        Map::empty()
    } else {
        map_of(s.drop_last()).insert(s.last().0@, val_of(s.last().1))
    }
}

proof fn lemma_map_of_absent(s: Seq<(String, EnvValue)>, k: Seq<char>)
    requires
        forall|j: int| 0 <= j < s.len() ==> #[trigger] s[j].0@ != k,
    ensures
        !map_of(s).contains_key(k),
    decreases s.len(),
{
    if s.len() > 0 {
        assert forall|j: int| 0 <= j < s.drop_last().len() implies #[trigger] s.drop_last()[j].0@ != k by {
            assert(s.drop_last()[j] == s[j]);
        }
        lemma_map_of_absent(s.drop_last(), k);
    }
}

proof fn lemma_map_of_found(s: Seq<(String, EnvValue)>, k: Seq<char>, i: int)
    requires
        0 <= i < s.len(),
        s[i].0@ == k,
        forall|j: int| i < j < s.len() ==> #[trigger] s[j].0@ != k,
    ensures
        map_of(s).contains_key(k),
        map_of(s)[k] == val_of(s[i].1),
    decreases s.len(),
{
    if i < s.len() - 1 {
        let t = s.drop_last();
        assert forall|j: int| i < j < t.len() implies #[trigger] t[j].0@ != k by {
            assert(t[j] == s[j]);
        }
        assert(t[i] == s[i]);
        lemma_map_of_found(t, k, i);
    }
}

proof fn lemma_map_of_update(s: Seq<(String, EnvValue)>, i: int, e: (String, EnvValue))
    requires
        0 <= i < s.len(),
        s[i].0@ == e.0@,
        forall|j: int| i < j < s.len() ==> #[trigger] s[j].0@ != e.0@,
    ensures
        map_of(s.update(i, e)) == map_of(s).insert(e.0@, val_of(e.1)),
    decreases s.len(),
{
    let u = s.update(i, e);
    if i == s.len() - 1 {
        assert(u.drop_last() =~= s.drop_last());
        assert(map_of(u) =~= map_of(s).insert(e.0@, val_of(e.1)));
    } else {
        let t = s.drop_last();
        assert forall|j: int| i < j < t.len() implies #[trigger] t[j].0@ != e.0@ by {
            assert(t[j] == s[j]);
        }
        lemma_map_of_update(t, i, e);
        assert(u.drop_last() =~= t.update(i, e));
        assert(u.last() == s.last());
        assert(map_of(u) =~= map_of(s).insert(e.0@, val_of(e.1)));
    }
}

proof fn lemma_map_of_same(a: Seq<(String, EnvValue)>, b: Seq<(String, EnvValue)>)
    requires
        a.len() == b.len(),
        forall|j: int|
            0 <= j < a.len() ==> #[trigger] a[j].0@ == b[j].0@ && val_of(a[j].1) == val_of(b[j].1),
    ensures
        map_of(a) == map_of(b),
    decreases a.len(),
{
    if a.len() > 0 {
        assert forall|j: int| 0 <= j < a.drop_last().len() implies #[trigger] a.drop_last()[j].0@
            == b.drop_last()[j].0@ && val_of(a.drop_last()[j].1) == val_of(b.drop_last()[j].1) by {
            assert(a.drop_last()[j] == a[j]);
            assert(b.drop_last()[j] == b[j]);
        }
        lemma_map_of_same(a.drop_last(), b.drop_last());
        assert(a.last() == a[a.len() - 1]);
    }
}

impl View for Environment {
    type V = Map<Seq<char>, Val>;

    closed spec fn view(&self) -> Map<Seq<char>, Val> {
        map_of(self.entries@)
    }
}

impl Environment {
    /// A fresh environment, with the native square root bound to `sqrt`.
    pub fn new() -> (r: Environment)
        ensures
            r@ == Map::<Seq<char>, Val>::empty().insert("sqrt"@, Val::Native("sqrt"@)),
    {
        let mut env = Environment { entries: Vec::new() };
        let name = String::from_str("sqrt");
        env.add(name.clone(), EnvValue::NativeFn(name));
        env
    }

    /// Position of the binding of `name`, scanning from the latest.
    fn position(&self, name: &String) -> (r: Option<usize>)
        ensures
            match r {
                None => forall|j: int| 0 <= j < self.entries@.len() ==> #[trigger] self.entries@[j].0@ != name@,
                Some(i) => i < self.entries@.len() && self.entries@[i as int].0@ == name@
                    && forall|j: int| i < j < self.entries@.len() ==> #[trigger] self.entries@[j].0@ != name@,
            },
    {
        let mut i: usize = self.entries.len();
        while i > 0
            invariant
                i <= self.entries@.len(),
                forall|j: int| i <= j < self.entries@.len() ==> #[trigger] self.entries@[j].0@ != name@,
            decreases i,
        {
            i -= 1;
            if self.entries[i].0 == *name {
                return Some(i);
            }
        }
        None
    }

    /// The value bound to `name`, if any.
    pub fn lookup(&self, name: &String) -> (r: Option<&EnvValue>)
        ensures
            match r {
                None => !self@.contains_key(name@),
                Some(v) => self@.contains_key(name@) && self@[name@] == val_of(*v),
            },
    {
        match self.position(name) {
            None => {
                proof {
                    lemma_map_of_absent(self.entries@, name@);
                }
                None
            },
            Some(i) => {
                proof {
                    lemma_map_of_found(self.entries@, name@, i as int);
                }
                Some(&self.entries[i].1)
            },
        }
    }

    /// A copy of the value bound to `var_name`, if any.
    pub fn get(&self, var_name: String) -> (r: Option<EnvValue>)
        ensures
            match r {
                None => !self@.contains_key(var_name@),
                Some(v) => self@.contains_key(var_name@) && self@[var_name@] == val_of(v),
            },
    {
        match self.lookup(&var_name) {
            None => None,
            Some(v) => Some(v.duplicate()),
        }
    }

    /// Binds `var_name` to `result`, replacing any earlier binding of the name; hands the
    /// environment back, so that bindings can be chained.
    pub fn add(&mut self, var_name: String, result: EnvValue) -> (r: &mut Environment)
        ensures
            r@ == old(self)@.insert(var_name@, val_of(result)),
            final(self)@ == final(r)@,
    {
        match self.position(&var_name) {
            None => {
                self.entries.push((var_name, result));
                proof {
                    assert(self.entries@.drop_last() =~= old(self).entries@);
                }
            },
            Some(i) => {
                proof {
                    lemma_map_of_update(self.entries@, i as int, (var_name, result));
                }
                self.entries.set(i, (var_name, result));
            },
        }
        self
    }

    /// An independent copy: changes to either never reach the other.
    pub fn fork(&self) -> (r: Environment)
        ensures
            r@ == self@,
    {
        let mut entries: Vec<(String, EnvValue)> = Vec::new();
        let mut i: usize = 0;
        while i < self.entries.len()
            invariant
                i <= self.entries@.len(),
                entries@.len() == i,
                forall|j: int|
                    0 <= j < i ==> #[trigger] entries@[j].0@ == self.entries@[j].0@ && val_of(
                        entries@[j].1,
                    ) == val_of(self.entries@[j].1),
            decreases self.entries@.len() - i,
        {
            let name = self.entries[i].0.clone();
            let value = self.entries[i].1.duplicate();
            entries.push((name, value));
            i += 1;
        }
        proof {
            lemma_map_of_same(entries@, self.entries@);
        }
        Environment { entries }
    }
}

impl Clone for Environment {
    fn clone(&self) -> Self {
        self.fork()
    }
}

} // verus!

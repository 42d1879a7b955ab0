//! A table keyed by name. The latest binding of a name is the one found.
use vstd::prelude::*;

verus! {

/// A table from names to values.
pub struct NameMap<V> {
    entries: Vec<(String, V)>,
}

/// The table a list of bindings stands for: later bindings shadow earlier
/// ones of the same name.
pub open spec fn bindings<V>(es: Seq<(String, V)>) -> Map<Seq<char>, V>
    decreases es.len(),
{
    if es.len() == 0 {
        Map::empty()
    } else {
        bindings(es.drop_last()).insert(es.last().0@, es.last().1)
    }
}

impl<V> View for NameMap<V> {
    type V = Map<Seq<char>, V>;

    closed spec fn view(&self) -> Map<Seq<char>, V> {
        bindings(self.entries@)
    }
}

impl<V> NameMap<V> {
    /// A table without entries.
    pub fn new() -> (m: NameMap<V>)
        ensures
            m@ == Map::<Seq<char>, V>::empty(),
    {
        NameMap { entries: Vec::new() }
    }

    /// Binds `name` to `value`, shadowing what it was bound to.
    pub fn insert(&mut self, name: String, value: V)
        ensures
            final(self)@ == old(self)@.insert(name@, value),
    {
        self.entries.push((name, value));
        assert(self.entries@.drop_last() =~= old(self).entries@);
    }

    /// The value that `name` was bound to last, if it was bound.
    pub fn get(&self, name: &String) -> (r: Option<&V>)
        ensures
            match r {
                Some(v) => self@.contains_key(name@) && self@[name@] == *v,
                None => !self@.contains_key(name@),
            },
    {
        let mut i: usize = self.entries.len();
        assert(self.entries@.take(i as int) =~= self.entries@);
        while i > 0
            invariant
                i <= self.entries@.len(),
                bindings(self.entries@.take(i as int)).contains_key(name@) == self@.contains_key(name@),
                self@.contains_key(name@) ==> bindings(self.entries@.take(i as int))[name@]
                    == self@[name@],
            decreases i,
        {
            i -= 1;
            assert(self.entries@.take(i + 1).drop_last() =~= self.entries@.take(i as int));
            if self.entries[i].0 == *name {
                return Some(&self.entries[i].1);
            }
        }
        None
    }
}

} // verus!

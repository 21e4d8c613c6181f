use crate::text::{names, same_text};
use vstd::prelude::*;

verus! {

/// A set of names of targets. It holds each name once and hands the names out in the order in
/// which they came.
#[derive(Debug)]
pub struct NameSet<'a> {
    list: Vec<&'a str>,
}

impl<'a> View for NameSet<'a> {
    type V = Set<Seq<char>>;

    closed spec fn view(&self) -> Set<Seq<char>> {
        names(self.list@).to_set()
    }
}

impl<'a> NameSet<'a> {
    /// The names in the order in which they came.
    pub closed spec fn in_order(&self) -> Seq<Seq<char>> {
        names(self.list@)
    }

    /// No name is held twice.
    pub closed spec fn wf(&self) -> bool {
        names(self.list@).no_duplicates()
    }

    /// The list holds each name of the set once, and no other.
    pub proof fn lemma_in_order(&self)
        requires
            self.wf(),
        ensures
            self.in_order().no_duplicates(),
            self.in_order().to_set() == self@,
    {
    }

    /// The empty set.
    pub fn new() -> (set: NameSet<'a>)
        ensures
            set.wf(),
            set@ == Set::<Seq<char>>::empty(),
            set.in_order() == Seq::<Seq<char>>::empty(),
    {
        let set = NameSet { list: Vec::new() };
        proof {
            assert(set.in_order() == Seq::<Seq<char>>::empty());
            assert(set@ == Set::<Seq<char>>::empty());
        }
        set
    }

    /// The position of a name.
    fn position(&self, name: &str) -> (position: Option<usize>)
        ensures
            match position {
                Some(i) => i < self.list@.len() && self.list@[i as int]@ == name@,
                None => forall|i: int|
                    0 <= i < self.list@.len() ==> #[trigger] self.list@[i]@ != name@,
            },
    {
        for i in 0..self.list.len()
            invariant
                forall|j: int| 0 <= j < i ==> #[trigger] self.list@[j]@ != name@,
        {
            if same_text(self.list[i], name) {
                return Some(i);
            }
        }
        None
    }

    /// Whether the set holds no name.
    pub fn is_empty(&self) -> (empty: bool)
        ensures
            empty == (self@ == Set::<Seq<char>>::empty()),
    {
        proof {
            let list = names(self.list@);
            if list.len() == 0 {
                assert(list.to_set() == Set::<Seq<char>>::empty());
            } else {
                assert(list.contains(list[0]));
                assert(list.to_set().contains(list[0]));
            }
        }
        self.list.len() == 0
    }

    /// Whether the set holds `name`.
    pub fn contains(&self, name: &str) -> (contained: bool)
        ensures
            contained == self@.contains(name@),
    {
        match self.position(name) {
            Some(i) => {
                proof {
                    assert(names(self.list@)[i as int] == name@);
                    assert(names(self.list@).contains(name@));
                }
                true
            },
            None => {
                proof {
                    assert forall|i: int| 0 <= i < names(self.list@).len() implies names(
                        self.list@,
                    )[i] != name@ by {
                        assert(self.list@[i]@ != name@);
                    }
                }
                false
            },
        }
    }

    /// Adds `name`.
    pub fn insert(&mut self, name: &'a str)
        requires
            old(self).wf(),
        ensures
            final(self).wf(),
            final(self)@ == old(self)@.insert(name@),
            final(self).in_order() == if old(self)@.contains(name@) {
                old(self).in_order()
            } else {
                old(self).in_order().push(name@)
            },
    {
        let ghost before = names(self.list@);
        if !self.contains(name) {
            self.list.push(name);
            proof {
                let after = names(self.list@);
                assert(after == before.push(name@));
                assert(!before.contains(name@));
                assert forall|n: Seq<char>| after.contains(n) == (before.contains(n) || n
                    == name@) by {
                    if before.contains(n) {
                        let i = before.index_of(n);
                        assert(after[i] == n);
                    }
                    if n == name@ {
                        assert(after[before.len() as int] == n);
                    }
                    if after.contains(n) {
                        let i = after.index_of(n);
                        assert(i < before.len() ==> before[i] == n);
                    }
                }
            }
        } else {
            assert(before.to_set().insert(name@) == before.to_set());
        }
    }

    /// Takes `name` out.
    pub fn remove(&mut self, name: &str)
        requires
            old(self).wf(),
        ensures
            final(self).wf(),
            final(self)@ == old(self)@.remove(name@),
            final(self).in_order() == old(self).in_order().remove_value(name@),
    {
        let ghost before = names(self.list@);
        proof {
            before.index_of_first_ensures(name@);
        }
        match self.position(name) {
            Some(i) => {
                self.list.remove(i);
                proof {
                    let after = names(self.list@);
                    assert(after == before.remove(i as int));
                    assert(before[i as int] == name@);
                    assert forall|n: Seq<char>| after.contains(n) == (before.contains(n) && n
                        != name@) by {
                        if before.contains(n) && n != name@ {
                            let j = before.index_of(n);
                            if j < i {
                                assert(after[j] == n);
                            } else {
                                assert(after[j - 1] == n);
                            }
                        }
                        if after.contains(n) {
                            let j = after.index_of(n);
                            if j < i {
                                assert(before[j] == n);
                            } else {
                                assert(before[j + 1] == n);
                            }
                        }
                    }
                }
            },
            None => {
                proof {
                    assert forall|j: int| 0 <= j < before.len() implies before[j] != name@ by {
                        assert(self.list@[j]@ != name@);
                    }
                    assert(before.to_set().remove(name@) == before.to_set());
                }
            },
        }
    }

    /// Takes all names out.
    pub fn clear(&mut self)
        ensures
            final(self).wf(),
            final(self)@ == Set::<Seq<char>>::empty(),
            final(self).in_order() == Seq::<Seq<char>>::empty(),
    {
        self.list.clear();
        proof {
            assert(self.in_order() == Seq::<Seq<char>>::empty());
            assert(self@ == Set::<Seq<char>>::empty());
        }
    }

    /// The names of the set, in the order in which they came.
    pub fn to_vec(&self) -> (list: Vec<&'a str>)
        ensures
            names(list@) == self.in_order(),
    {
        let mut list: Vec<&'a str> = Vec::new();
        for i in 0..self.list.len()
            invariant
                list@ == self.list@.take(i as int),
        {
            list.push(self.list[i]);
            assert(list@ == self.list@.take(i + 1));
        }
        assert(list@ == self.list@);
        list
    }
}

} // verus!

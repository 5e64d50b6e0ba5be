//! A set of path strings in which nothing occurs twice, kept in the order
//! in which its members arrived.

use vstd::prelude::*;

verus! {

/// A finite set of path strings.
pub struct PathSet {
    items: Vec<String>,
}

impl View for PathSet {
    type V = Set<Seq<char>>;

    /// The members, as a set of texts.
    closed spec fn view(&self) -> Set<Seq<char>> {
        self.listing().to_set()
    }
}

impl PathSet {
    /// The members in the order in which they are listed.
    pub closed spec fn listing(&self) -> Seq<Seq<char>> {
        self.items.deep_view()
    }

    #[verifier::type_invariant]
    spec fn nothing_twice(&self) -> bool {
        self.items.deep_view().no_duplicates()
    }

    /// The empty set.
    pub fn new() -> (out: PathSet)
        ensures
            out@ == Set::<Seq<char>>::empty(),
            out.listing() == Seq::<Seq<char>>::empty(),
    {
        let out = PathSet { items: Vec::new() };
        assert(out.items.deep_view() =~= Seq::<Seq<char>>::empty());
        assert(out.items.deep_view().to_set() =~= Set::<Seq<char>>::empty());
        out
    }

    /// The number of members.
    pub fn len(&self) -> (n: usize)
        ensures
            n == self@.len(),
            n == self.listing().len(),
    {
        proof {
            use_type_invariant(self);
            self.listing().unique_seq_to_set();
        }
        self.items.len()
    }

    fn position(&self, path: &String) -> (at: Option<usize>)
        ensures
            match at {
                Some(i) => i < self.listing().len() && self.listing()[i as int] == path@,
                None => !self.listing().contains(path@),
            },
    {
        let mut i: usize = 0;
        while i < self.items.len()
            invariant
                i <= self.items.len(),
                forall|j: int| 0 <= j < i ==> self.items.deep_view()[j] != path@,
            decreases self.items.len() - i,
        {
            if self.items[i] == *path {
                return Some(i);
            }
            i += 1;
        }
        None
    }

    /// Tells whether `path` is a member.
    pub fn contains(&self, path: &str) -> (found: bool)
        ensures
            found == self@.contains(path@),
    {
        let wanted = String::from_str(path);
        self.position(&wanted).is_some()
    }

    /// Makes `path` a member. Tells whether it was new.
    pub fn insert(&mut self, path: String) -> (added: bool)
        ensures
            final(self)@ == old(self)@.insert(path@),
            added == !old(self)@.contains(path@),
            final(self).listing() == if added {
                old(self).listing().push(path@)
            } else {
                old(self).listing()
            },
    {
        proof {
            use_type_invariant(&*self);
        }
        match self.position(&path) {
            Some(_) => {
                assert(self@.insert(path@) =~= self@);
                false
            },
            None => {
                let ghost before = self.items.deep_view();
                let mut items: Vec<String> = Vec::new();
                assert(items.deep_view() =~= Seq::<Seq<char>>::empty());
                core::mem::swap(&mut self.items, &mut items);
                items.push(path);
                assert(items.deep_view() =~= before.push(path@));
                core::mem::swap(&mut self.items, &mut items);
                proof {
                    before.lemma_push_to_set_commute(path@);
                }
                true
            },
        }
    }

    /// Takes `path` out. Tells whether it was a member.
    pub fn remove(&mut self, path: &str) -> (removed: bool)
        ensures
            final(self)@ == old(self)@.remove(path@),
            removed == old(self)@.contains(path@),
            removed ==> final(self).listing() == old(self).listing().remove(
                old(self).listing().index_of(path@),
            ),
            !removed ==> final(self).listing() == old(self).listing(),
    {
        proof {
            use_type_invariant(&*self);
        }
        let wanted = String::from_str(path);
        match self.position(&wanted) {
            Some(i) => {
                let ghost before = self.items.deep_view();
                let mut items: Vec<String> = Vec::new();
                assert(items.deep_view() =~= Seq::<Seq<char>>::empty());
                core::mem::swap(&mut self.items, &mut items);
                items.remove(i);
                assert(items.deep_view() =~= before.remove(i as int));
                core::mem::swap(&mut self.items, &mut items);
                proof {
                    let after = self.items.deep_view();
                    assert(before.index_of(path@) == i);
                    assert(after.to_set() =~= before.to_set().remove(path@)) by {
                        assert forall|t: Seq<char>| after.to_set().contains(t) implies before.to_set().remove(
                            path@,
                        ).contains(t) by {
                            let j = choose|j: int| 0 <= j < after.len() && after[j] == t;
                            if j < i {
                                assert(before[j] == t);
                            } else {
                                assert(before[j + 1] == t);
                            }
                        }
                        assert forall|t: Seq<char>| before.to_set().remove(path@).contains(
                            t,
                        ) implies after.to_set().contains(t) by {
                            let j = choose|j: int| 0 <= j < before.len() && before[j] == t;
                            if j < i {
                                assert(after[j] == t);
                            } else {
                                assert(after[j - 1] == t);
                            }
                        }
                    }
                }
                true
            },
            None => {
                assert(self@.remove(path@) =~= self@);
                false
            },
        }
    }

    /// Takes every member out.
    pub fn clear(&mut self)
        ensures
            final(self)@ == Set::<Seq<char>>::empty(),
            final(self).listing() == Seq::<Seq<char>>::empty(),
    {
        let mut items: Vec<String> = Vec::new();
        assert(items.deep_view() =~= Seq::<Seq<char>>::empty());
        core::mem::swap(&mut self.items, &mut items);
        assert(self.items.deep_view().to_set() =~= Set::<Seq<char>>::empty());
    }

    /// A copy of the members, each once, in listing order.
    pub fn to_vec(&self) -> (out: Vec<String>)
        ensures
            out.deep_view() == self.listing(),
            out.deep_view().no_duplicates(),
            out.deep_view().to_set() == self@,
    {
        proof {
            use_type_invariant(self);
        }
        let mut out: Vec<String> = Vec::new();
        let mut i: usize = 0;
        while i < self.items.len()
            invariant
                i <= self.items.len(),
                out.deep_view() == self.items.deep_view().take(i as int),
            decreases self.items.len() - i,
        {
            let ghost before = out.deep_view();
            out.push(self.items[i].clone());
            assert(out.deep_view() =~= before.push(self.items.deep_view()[i as int]));
            assert(self.items.deep_view().take(i + 1) =~= self.items.deep_view().take(i as int).push(
                self.items.deep_view()[i as int],
            ));
            i += 1;
        }
        assert(self.items.deep_view().take(self.items.len() as int) =~= self.items.deep_view());
        out
    }
}

} // verus!

//! Sets of identifiers.

use vstd::prelude::*;

verus! {

/// The views of a list of names.
pub open spec fn names_of(names: Seq<String>) -> Seq<Seq<char>> {
    names.map_values(|s: String| s@)
}

/// A name stands in a list with one more name exactly where it stood in the
/// list before or is the new name.
pub proof fn lemma_push_contains(names: Seq<Seq<char>>, added: Seq<char>)
    ensures
        forall|x: Seq<char>| #[trigger]
            names.push(added).contains(x) <==> (names.contains(x) || x == added),
{
    assert forall|x: Seq<char>| #[trigger]
        names.push(added).contains(x) <==> (names.contains(x) || x == added) by {
        if names.contains(x) {
            let j = choose|j: int| 0 <= j < names.len() && names[j] == x;
            assert(names.push(added)[j] == x);
        }
        if x == added {
            assert(names.push(added)[names.len() as int] == x);
        }
    }
}

/// A list without repetitions stays one when a name that is not in it is
/// put at its end, and then holds that name beside the others.
pub proof fn lemma_push_distinct(names: Seq<Seq<char>>, added: Seq<char>)
    requires
        names.no_duplicates(),
        !names.contains(added),
    ensures
        names.push(added).no_duplicates(),
        names.push(added).to_set() == names.to_set().insert(added),
{
    lemma_push_contains(names, added);
}

/// Whether `name` stands in `names`.
pub fn holds(names: &Vec<String>, name: &String) -> (b: bool)
    ensures
        b == names_of(names@).contains(name@),
{
    let mut i: usize = 0;
    while i < names.len()
        invariant
            i <= names.len(),
            forall|j: int| 0 <= j < i ==> names[j]@ != name@,
        decreases names.len() - i,
    {
        if names[i] == *name {
            assert(names_of(names@)[i as int] == name@);
            return true;
        }
        i = i + 1;
    }
    false
}

/// A finite set of names: no name stands in it twice, and the order in
/// which the names were put in says nothing.
#[derive(Debug)]
pub struct NameSet {
    names: Vec<String>,
}

impl View for NameSet {
    type V = Set<Seq<char>>;

    closed spec fn view(&self) -> Set<Seq<char>> {
        names_of(self.names@).to_set()
    }
}

impl NameSet {
    #[verifier::type_invariant]
    spec fn distinct(self) -> bool {
        names_of(self.names@).no_duplicates()
    }

    /// The empty set.
    pub fn new() -> (set: NameSet)
        ensures
            set@ == Set::<Seq<char>>::empty(),
    {
        let set = NameSet { names: Vec::new() };
        set
    }

    /// The set of the names of a list.
    pub fn from(names: Vec<String>) -> (set: NameSet)
        ensures
            set@ == names_of(names@).to_set(),
    {
        let ghost all = names_of(names@);
        let mut distinct: Vec<String> = Vec::new();
        let mut i: usize = 0;
        while i < names.len()
            invariant
                i <= names.len(),
                all == names_of(names@),
                names_of(distinct@).no_duplicates(),
                names_of(distinct@).to_set() == all.take(i as int).to_set(),
            decreases names.len() - i,
        {
            let ghost before = names_of(distinct@);
            proof {
                assert(all.take(i as int + 1) == all.take(i as int).push(names[i as int]@));
                lemma_push_contains(all.take(i as int), names[i as int]@);
                assert(all.take(i as int + 1).to_set() =~= all.take(i as int).to_set().insert(
                    names[i as int]@,
                ));
            }
            if !holds(&distinct, &names[i]) {
                distinct.push(names[i].clone());
                proof {
                    lemma_push_distinct(before, names[i as int]@);
                    assert(names_of(distinct@) == before.push(names[i as int]@));
                }
            }
            i = i + 1;
        }
        assert(all.take(i as int) == all);
        NameSet { names: distinct }
    }

    /// Whether `name` is in the set.
    pub fn contains(&self, name: &String) -> (b: bool)
        ensures
            b == self@.contains(name@),
    {
        holds(&self.names, name)
    }

    /// The set with `name` in it.
    pub fn with(self, name: String) -> (set: NameSet)
        ensures
            set@ == self@.insert(name@),
    {
        proof {
            use_type_invariant(&self);
        }
        let ghost before = names_of(self.names@);
        let mut names = self.names;
        if !holds(&names, &name) {
            names.push(name);
            proof {
                lemma_push_distinct(before, name@);
                assert(names_of(names@) == before.push(name@));
            }
        }
        NameSet { names }
    }

    /// The number of names in the set.
    pub fn len(&self) -> (n: usize)
        ensures
            n == self@.len(),
    {
        proof {
            use_type_invariant(self);
            names_of(self.names@).unique_seq_to_set();
        }
        self.names.len()
    }

    /// The names of the set, each once.
    pub fn names(&self) -> (names: &Vec<String>)
        ensures
            names_of(names@).no_duplicates(),
            names_of(names@).to_set() == self@,
    {
        proof {
            use_type_invariant(self);
        }
        &self.names
    }
}

impl Default for NameSet {
    /// The empty set.
    fn default() -> (set: NameSet)
        ensures
            set@ == Set::<Seq<char>>::empty(),
    {
        NameSet::new()
    }
}

} // verus!

use vstd::prelude::*;
use crate::text::str_eq;

verus! {

/// The mapping that a list of (name, value) pairs stands for: a later pair
/// replaces an earlier one with the same name.
pub open spec fn pairs_to_map(pairs: Seq<(Seq<char>, Seq<char>)>) -> Map<Seq<char>, Seq<char>>
    decreases pairs.len(),
{
    if pairs.len() == 0 {
        Map::empty()
    } else {
        pairs_to_map(pairs.drop_last()).insert(pairs.last().0, pairs.last().1)
    }
}

/// No name occurs twice in the list.
pub open spec fn distinct_names(pairs: Seq<(Seq<char>, Seq<char>)>) -> bool {
    forall|i: int, j: int| 0 <= i < j < pairs.len() ==> (#[trigger] pairs[i]).0 != (#[trigger] pairs[j]).0
}

/// A name is in the mapping exactly when some pair of the list carries it.
pub proof fn lemma_pairs_to_map_dom(pairs: Seq<(Seq<char>, Seq<char>)>, name: Seq<char>)
    ensures
        pairs_to_map(pairs).contains_key(name) <==> exists|i: int|
            0 <= i < pairs.len() && (#[trigger] pairs[i]).0 == name,
    decreases pairs.len(),
{
    if pairs.len() > 0 {
        let front = pairs.drop_last();
        lemma_pairs_to_map_dom(front, name);
        if pairs_to_map(pairs).contains_key(name) {
            if pairs.last().0 == name {
                assert(pairs[pairs.len() - 1].0 == name);
            } else {
                let i = choose|i: int| 0 <= i < front.len() && (#[trigger] front[i]).0 == name;
                assert(pairs[i].0 == name);
            }
        }
        if exists|i: int| 0 <= i < pairs.len() && (#[trigger] pairs[i]).0 == name {
            let i = choose|i: int| 0 <= i < pairs.len() && (#[trigger] pairs[i]).0 == name;
            if i < pairs.len() - 1 {
                assert(front[i].0 == name);
            }
        }
    }
}

/// With distinct names, each pair's value is what the mapping holds for its name.
pub proof fn lemma_pairs_to_map_value(pairs: Seq<(Seq<char>, Seq<char>)>, i: int)
    requires
        distinct_names(pairs),
        0 <= i < pairs.len(),
    ensures
        pairs_to_map(pairs).contains_key(pairs[i].0),
        pairs_to_map(pairs)[pairs[i].0] == pairs[i].1,
    decreases pairs.len(),
{
    let front = pairs.drop_last();
    if i < pairs.len() - 1 {
        assert(distinct_names(front)) by {
            assert forall|a: int, b: int| 0 <= a < b < front.len() implies (#[trigger] front[a]).0
                != (#[trigger] front[b]).0 by {
                assert(pairs[a].0 != pairs[b].0);
            }
        }
        lemma_pairs_to_map_value(front, i);
        assert(front[i] == pairs[i]);
        assert(pairs[i].0 != pairs[pairs.len() - 1].0);
    }
}

/// With distinct names the mapping has as many names as the list has pairs.
pub proof fn lemma_pairs_to_map_len(pairs: Seq<(Seq<char>, Seq<char>)>)
    requires
        distinct_names(pairs),
    ensures
        pairs_to_map(pairs).dom().finite(),
        pairs_to_map(pairs).len() == pairs.len(),
    decreases pairs.len(),
{
    if pairs.len() > 0 {
        let front = pairs.drop_last();
        assert(distinct_names(front)) by {
            assert forall|a: int, b: int| 0 <= a < b < front.len() implies (#[trigger] front[a]).0
                != (#[trigger] front[b]).0 by {
                assert(pairs[a].0 != pairs[b].0);
            }
        }
        lemma_pairs_to_map_len(front);
        lemma_pairs_to_map_dom(front, pairs.last().0);
        if pairs_to_map(front).contains_key(pairs.last().0) {
            let i = choose|i: int| 0 <= i < front.len() && (#[trigger] front[i]).0 == pairs.last().0;
            assert(pairs[i].0 != pairs[pairs.len() - 1].0);
        }
    }
}

/// The place of a name in the list, if it is there.
pub open spec fn find_name(pairs: Seq<(Seq<char>, Seq<char>)>, name: Seq<char>) -> Option<int> {
    if exists|i: int| 0 <= i < pairs.len() && (#[trigger] pairs[i]).0 == name {
        Some(choose|i: int| 0 <= i < pairs.len() && (#[trigger] pairs[i]).0 == name)
    } else {
        None
    }
}

/// The list after a name was given a value: in place where the name was
/// there, at the end where it was not.
pub open spec fn insert_pair(pairs: Seq<(Seq<char>, Seq<char>)>, name: Seq<char>, value: Seq<char>) -> Seq<(Seq<char>, Seq<char>)> {
    match find_name(pairs, name) {
        Some(i) => pairs.update(i, (name, value)),
        None => pairs.push((name, value)),
    }
}

/// Giving a name a value keeps the names distinct and inserts into the mapping.
pub proof fn lemma_insert_pair(pairs: Seq<(Seq<char>, Seq<char>)>, name: Seq<char>, value: Seq<char>)
    requires
        distinct_names(pairs),
    ensures
        distinct_names(insert_pair(pairs, name, value)),
        pairs_to_map(insert_pair(pairs, name, value)) == pairs_to_map(pairs).insert(name, value),
{
    let after = insert_pair(pairs, name, value);
    match find_name(pairs, name) {
        Some(i) => {
            assert forall|a: int, b: int| 0 <= a < b < after.len() implies (#[trigger] after[a]).0
                != (#[trigger] after[b]).0 by {
                assert(pairs[a].0 != pairs[b].0);
                assert(pairs[i].0 == name);
            }
            assert forall|k: Seq<char>| #[trigger] pairs_to_map(after).contains_key(k) <==> pairs_to_map(pairs).insert(name, value).contains_key(k) by {
                lemma_pairs_to_map_dom(after, k);
                lemma_pairs_to_map_dom(pairs, k);
                if exists|j: int| 0 <= j < after.len() && (#[trigger] after[j]).0 == k {
                    let j = choose|j: int| 0 <= j < after.len() && (#[trigger] after[j]).0 == k;
                    if j != i {
                        assert(pairs[j].0 == k);
                    }
                }
                if pairs_to_map(pairs).insert(name, value).contains_key(k) {
                    if k == name {
                        assert(after[i].0 == k);
                    } else {
                        let j = choose|j: int| 0 <= j < pairs.len() && (#[trigger] pairs[j]).0 == k;
                        assert(after[j].0 == k);
                    }
                }
            }
            assert forall|k: Seq<char>| #[trigger] pairs_to_map(after).contains_key(k) implies pairs_to_map(after)[k] == pairs_to_map(pairs).insert(name, value)[k] by {
                lemma_pairs_to_map_dom(after, k);
                let j = choose|j: int| 0 <= j < after.len() && (#[trigger] after[j]).0 == k;
                lemma_pairs_to_map_value(after, j);
                if j != i {
                    assert(pairs[j].0 == k);
                    lemma_pairs_to_map_value(pairs, j);
                }
            }
            assert(pairs_to_map(after) =~= pairs_to_map(pairs).insert(name, value));
        },
        None => {
            assert(after.drop_last() =~= pairs);
            assert forall|a: int, b: int| 0 <= a < b < after.len() implies (#[trigger] after[a]).0
                != (#[trigger] after[b]).0 by {
                if b < pairs.len() {
                    assert(pairs[a].0 != pairs[b].0);
                } else {
                    assert(pairs[a].0 != name);
                }
            }
        },
    }
}

/// The options of a request or of an option acknowledgment: names with their
/// values, no name twice.
#[derive(Debug)]
pub struct Options {
    entries: Vec<(String, String)>,
}

impl Options {
    /// The (name, value) pairs in the order in which they are written out.
    pub closed spec fn pairs(&self) -> Seq<(Seq<char>, Seq<char>)> {
        self.entries@.map_values(|e: (String, String)| (e.0@, e.1@))
    }

    /// No name occurs twice.
    #[verifier::type_invariant]
    pub closed spec fn wf(&self) -> bool {
        distinct_names(self.pairs())
    }

    /// No options.
    pub fn new() -> (r: Options)
        ensures
            r.pairs() == Seq::<(Seq<char>, Seq<char>)>::empty(),
            r@ == Map::<Seq<char>, Seq<char>>::empty(),
    {
        let r = Options { entries: Vec::new() };
        assert(r.pairs() =~= Seq::<(Seq<char>, Seq<char>)>::empty());
        r
    }

    /// The number of options.
    pub fn len(&self) -> (n: usize)
        ensures
            n == self.pairs().len(),
            n == self@.len(),
    {
        proof {
            use_type_invariant(self);
            lemma_pairs_to_map_len(self.pairs());
        }
        self.entries.len()
    }

    /// Whether there is no option.
    pub fn is_empty(&self) -> (b: bool)
        ensures
            b == (self.pairs().len() == 0),
            b == (self@.len() == 0),
    {
        proof {
            use_type_invariant(self);
            lemma_pairs_to_map_len(self.pairs());
        }
        self.entries.len() == 0
    }

    /// The value held for a name, if the name is there.
    pub fn get(&self, name: &str) -> (r: Option<&String>)
        ensures
            r is Some <==> self@.contains_key(name@),
            r is Some ==> r->0@ == self@[name@],
    {
        proof {
            use_type_invariant(self);
            lemma_pairs_to_map_dom(self.pairs(), name@);
        }
        match self.position(name) {
            Some(i) => {
                proof {
                    lemma_pairs_to_map_value(self.pairs(), i as int);
                }
                Some(&self.entries[i].1)
            },
            None => None,
        }
    }

    /// Whether the name is there.
    pub fn contains_key(&self, name: &str) -> (b: bool)
        ensures
            b == self@.contains_key(name@),
    {
        proof {
            lemma_pairs_to_map_dom(self.pairs(), name@);
        }
        self.position(name).is_some()
    }

    /// Sets the value of a name: a name that is there keeps its place and gets
    /// the new value, a new name goes to the end.
    pub fn insert(&mut self, name: String, value: String)
        ensures
            final(self)@ == old(self)@.insert(name@, value@),
            final(self).pairs() == insert_pair(old(self).pairs(), name@, value@),
    {
        proof {
            use_type_invariant(&*self);
            lemma_insert_pair(self.pairs(), name@, value@);
        }
        let ghost before = self.pairs();
        let place = self.position(name.as_str());
        let mut taken = Options { entries: Vec::new() };
        core::mem::swap(self, &mut taken);
        let mut entries = taken.entries;
        match place {
            Some(i) => {
                entries.set(i, (name, value));
            },
            None => {
                entries.push((name, value));
            },
        }
        let ghost after = entries@.map_values(|e: (String, String)| (e.0@, e.1@));
        assert(after =~= insert_pair(before, name@, value@));
        *self = Options { entries };
    }

    /// The name of the pair at a place.
    pub fn name_at(&self, i: usize) -> (r: &String)
        requires
            i < self.pairs().len(),
        ensures
            r@ == self.pairs()[i as int].0,
    {
        &self.entries[i].0
    }

    /// The value of the pair at a place.
    pub fn value_at(&self, i: usize) -> (r: &String)
        requires
            i < self.pairs().len(),
        ensures
            r@ == self.pairs()[i as int].1,
    {
        &self.entries[i].1
    }

    fn position(&self, name: &str) -> (r: Option<usize>)
        ensures
            match r {
                Some(i) => i < self.pairs().len() && self.pairs()[i as int].0 == name@,
                None => forall|j: int| 0 <= j < self.pairs().len() ==> (#[trigger] self.pairs()[j]).0 != name@,
            },
    {
        let mut i: usize = 0;
        while i < self.entries.len()
            invariant
                i <= self.entries.len(),
                forall|j: int| 0 <= j < i ==> (#[trigger] self.pairs()[j]).0 != name@,
            decreases self.entries.len() - i,
        {
            if str_eq(self.entries[i].0.as_str(), name) {
                return Some(i);
            }
            i += 1;
        }
        None
    }
}

impl Clone for Options {
    fn clone(&self) -> (r: Options)
        ensures
            r.pairs() == self.pairs(),
    {
        proof {
            use_type_invariant(self);
        }
        let mut entries: Vec<(String, String)> = Vec::new();
        let mut i: usize = 0;
        while i < self.entries.len()
            invariant
                i <= self.entries@.len(),
                entries@.len() == i,
                forall|j: int|
                    0 <= j < i ==> (#[trigger] entries@[j]).0@ == self.entries@[j].0@
                        && entries@[j].1@ == self.entries@[j].1@,
            decreases self.entries@.len() - i,
        {
            entries.push((self.entries[i].0.clone(), self.entries[i].1.clone()));
            i += 1;
        }
        assert(entries@.map_values(|e: (String, String)| (e.0@, e.1@)) =~= self.pairs());
        Options { entries }
    }
}

impl View for Options {
    type V = Map<Seq<char>, Seq<char>>;

    open spec fn view(&self) -> Map<Seq<char>, Seq<char>> {
        pairs_to_map(self.pairs())
    }
}

} // verus!

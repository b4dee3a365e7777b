//! Metadata attributes of a file: a map from attribute names to their values.

use vstd::prelude::*;

verus! {

/// The map that a list of name and value pairs stands for. Where a name
/// occurs twice, the later pair counts.
pub open spec fn map_of(pairs: Seq<(String, String)>) -> Map<Seq<char>, Seq<char>>
    decreases pairs.len(),
{
    if pairs.len() == 0 {
        Map::empty()
    } else {
        map_of(pairs.drop_last()).insert(pairs.last().0@, pairs.last().1@)
    }
}

/// The names of a list of pairs, in order.
pub open spec fn names_of(pairs: Seq<(String, String)>) -> Seq<Seq<char>> {
    Seq::new(pairs.len(), |i: int| pairs[i].0@)
}

/// No name occurs twice in `pairs`.
pub open spec fn distinct_names(pairs: Seq<(String, String)>) -> bool {
    forall|i: int, j: int|
        0 <= i < j < pairs.len() ==> (#[trigger] pairs[i]).0@ != (#[trigger] pairs[j]).0@
}

/// The names in the map are the names in the list.
pub proof fn lemma_map_of_names(pairs: Seq<(String, String)>, name: Seq<char>)
    ensures
        map_of(pairs).contains_key(name) <==> exists|i: int|
            0 <= i < pairs.len() && (#[trigger] pairs[i]).0@ == name,
    decreases pairs.len(),
{
    if pairs.len() > 0 {
        let front = pairs.drop_last();
        lemma_map_of_names(front, name);
        if map_of(pairs).contains_key(name) {
            if pairs.last().0@ == name {
                assert(pairs[pairs.len() - 1].0@ == name);
            } else {
                let i = choose|i: int| 0 <= i < front.len() && (#[trigger] front[i]).0@ == name;
                assert(pairs[i].0@ == name);
            }
        }
        if exists|i: int| 0 <= i < pairs.len() && (#[trigger] pairs[i]).0@ == name {
            let i = choose|i: int| 0 <= i < pairs.len() && (#[trigger] pairs[i]).0@ == name;
            if i < front.len() {
                assert(front[i].0@ == name);
            }
        }
    }
}

/// Where no name occurs twice, the map gives each name the value beside it.
pub proof fn lemma_map_of_values(pairs: Seq<(String, String)>, i: int)
    requires
        distinct_names(pairs),
        0 <= i < pairs.len(),
    ensures
        map_of(pairs).contains_key(pairs[i].0@),
        map_of(pairs)[pairs[i].0@] == pairs[i].1@,
    decreases pairs.len(),
{
    let front = pairs.drop_last();
    if i < pairs.len() - 1 {
        assert(distinct_names(front)) by {
            assert forall|a: int, b: int| 0 <= a < b < front.len() implies (#[trigger] front[a]).0@
                != (#[trigger] front[b]).0@ by {
                assert(front[a] == pairs[a]);
                assert(front[b] == pairs[b]);
            }
        }
        lemma_map_of_values(front, i);
        assert(front[i] == pairs[i]);
        assert(pairs[i].0@ != pairs[pairs.len() - 1].0@);
    }
}

/// Where no name occurs twice, the map has as many entries as the list.
pub proof fn lemma_map_of_len(pairs: Seq<(String, String)>)
    requires
        distinct_names(pairs),
    ensures
        map_of(pairs).dom().finite(),
        map_of(pairs).len() == pairs.len(),
    decreases pairs.len(),
{
    if pairs.len() > 0 {
        let front = pairs.drop_last();
        assert(distinct_names(front)) by {
            assert forall|a: int, b: int| 0 <= a < b < front.len() implies (#[trigger] front[a]).0@
                != (#[trigger] front[b]).0@ by {
                assert(front[a] == pairs[a]);
                assert(front[b] == pairs[b]);
            }
        }
        lemma_map_of_len(front);
        lemma_map_of_names(front, pairs.last().0@);
        if map_of(front).contains_key(pairs.last().0@) {
            let i = choose|i: int|
                0 <= i < front.len() && (#[trigger] front[i]).0@ == pairs.last().0@;
            assert(front[i] == pairs[i]);
            assert(pairs[i].0@ != pairs[pairs.len() - 1].0@);
        }
    } else {
        assert(map_of(pairs).dom() =~= Set::<Seq<char>>::empty());
    }
}

/// Replacing the value beside a name changes the map at that name only.
pub proof fn lemma_map_of_update(pairs: Seq<(String, String)>, i: int, pair: (String, String))
    requires
        distinct_names(pairs),
        0 <= i < pairs.len(),
        pair.0@ == pairs[i].0@,
    ensures
        distinct_names(pairs.update(i, pair)),
        names_of(pairs.update(i, pair)) == names_of(pairs),
        map_of(pairs.update(i, pair)) == map_of(pairs).insert(pair.0@, pair.1@),
{
    let updated = pairs.update(i, pair);
    assert(names_of(updated) =~= names_of(pairs));
    assert forall|a: int, b: int| 0 <= a < b < updated.len() implies (#[trigger] updated[a]).0@ != (
    #[trigger] updated[b]).0@ by {
        assert(updated[a].0@ == pairs[a].0@);
        assert(updated[b].0@ == pairs[b].0@);
    }
    let expected = map_of(pairs).insert(pair.0@, pair.1@);
    assert forall|name: Seq<char>| map_of(updated).contains_key(name) <==> expected.contains_key(
        name,
    ) by {
        lemma_map_of_names(updated, name);
        lemma_map_of_names(pairs, name);
        if map_of(updated).contains_key(name) {
            let k = choose|k: int| 0 <= k < updated.len() && (#[trigger] updated[k]).0@ == name;
            assert(pairs[k].0@ == name);
        }
        if expected.contains_key(name) {
            if name == pair.0@ {
                assert(updated[i].0@ == name);
            } else {
                let k = choose|k: int| 0 <= k < pairs.len() && (#[trigger] pairs[k]).0@ == name;
                assert(updated[k].0@ == name);
            }
        }
    }
    assert forall|name: Seq<char>| map_of(updated).contains_key(name) implies map_of(
        updated,
    )[name] == expected[name] by {
        lemma_map_of_names(updated, name);
        let k = choose|k: int| 0 <= k < updated.len() && (#[trigger] updated[k]).0@ == name;
        lemma_map_of_values(updated, k);
        lemma_map_of_values(pairs, k);
        if k != i {
            assert(updated[k] == pairs[k]);
            assert(pairs[k].0@ != pairs[i].0@);
        }
    }
    assert(map_of(updated) =~= expected);
}

/// Adding a pair with a new name keeps the names distinct.
pub proof fn lemma_map_of_push(pairs: Seq<(String, String)>, pair: (String, String))
    requires
        distinct_names(pairs),
        !map_of(pairs).contains_key(pair.0@),
    ensures
        distinct_names(pairs.push(pair)),
        names_of(pairs.push(pair)) == names_of(pairs).push(pair.0@),
        map_of(pairs.push(pair)) == map_of(pairs).insert(pair.0@, pair.1@),
{
    let pushed = pairs.push(pair);
    assert(pushed.drop_last() == pairs);
    assert(names_of(pushed) =~= names_of(pairs).push(pair.0@));
    assert forall|a: int, b: int| 0 <= a < b < pushed.len() implies (#[trigger] pushed[a]).0@ != (
    #[trigger] pushed[b]).0@ by {
        assert(pushed[a] == pairs[a]);
        if b < pairs.len() {
            assert(pushed[b] == pairs[b]);
        } else {
            lemma_map_of_names(pairs, pair.0@);
        }
    }
}

/// Two lists whose pairs read the same stand for the same map.
pub proof fn lemma_same_pairs(a: Seq<(String, String)>, b: Seq<(String, String)>)
    requires
        a.len() == b.len(),
        forall|i: int|
            0 <= i < a.len() ==> (#[trigger] a[i]).0@ == b[i].0@ && a[i].1@ == b[i].1@,
    ensures
        map_of(a) == map_of(b),
        distinct_names(a) == distinct_names(b),
        names_of(a) == names_of(b),
    decreases a.len(),
{
    assert(names_of(a) =~= names_of(b));
    if a.len() > 0 {
        assert(a.last().0@ == b.last().0@ && a.last().1@ == b.last().1@) by {
            assert(a[a.len() - 1].0@ == b[a.len() - 1].0@);
        }
        assert forall|i: int| 0 <= i < a.drop_last().len() implies (#[trigger] a.drop_last()[i]).0@
            == b.drop_last()[i].0@ && a.drop_last()[i].1@ == b.drop_last()[i].1@ by {
            assert(a.drop_last()[i] == a[i]);
            assert(b.drop_last()[i] == b[i]);
        }
        lemma_same_pairs(a.drop_last(), b.drop_last());
    }
    if distinct_names(a) {
        assert forall|i: int, j: int| 0 <= i < j < b.len() implies (#[trigger] b[i]).0@ != (
        #[trigger] b[j]).0@ by {
            assert(a[i].0@ != a[j].0@);
        }
    }
    if distinct_names(b) {
        assert forall|i: int, j: int| 0 <= i < j < a.len() implies (#[trigger] a[i]).0@ != (
        #[trigger] a[j]).0@ by {
            assert(b[i].0@ != b[j].0@);
        }
    }
}

/// The metadata attributes of one file: attribute names with their values,
/// each name at most once.
pub struct ExifData {
    entries: Vec<(String, String)>,
}

impl View for ExifData {
    type V = Map<Seq<char>, Seq<char>>;

    /// The attributes as a map from name to value.
    closed spec fn view(&self) -> Map<Seq<char>, Seq<char>> {
        map_of(self.entries@)
    }
}

impl ExifData {
    #[verifier::type_invariant]
    spec fn well_formed(&self) -> bool {
        distinct_names(self.entries@)
    }

    /// The attribute names in the order in which they were first inserted.
    pub closed spec fn names(&self) -> Seq<Seq<char>> {
        names_of(self.entries@)
    }

    /// A map without attributes.
    pub fn new() -> (exif: Self)
        ensures
            exif@ == Map::<Seq<char>, Seq<char>>::empty(),
            exif.names() == Seq::<Seq<char>>::empty(),
    {
        ExifData { entries: Vec::new() }
    }

    /// The number of attributes.
    pub fn len(&self) -> (n: usize)
        ensures
            n == self@.len(),
            n == self.names().len(),
    {
        proof {
            use_type_invariant(self);
            lemma_map_of_len(self.entries@);
        }
        self.entries.len()
    }

    /// The place of `name` among the entries, where it is there.
    fn position(&self, name: &String) -> (at: Option<usize>)
        ensures
            match at {
                Some(i) => i < self.entries@.len() && self.entries@[i as int].0@ == name@,
                None => !self@.contains_key(name@),
            },
    {
        let mut i: usize = 0;
        while i < self.entries.len()
            invariant
                i <= self.entries@.len(),
                forall|j: int| 0 <= j < i ==> (#[trigger] self.entries@[j]).0@ != name@,
            decreases self.entries@.len() - i,
        {
            if self.entries[i].0 == *name {
                return Some(i);
            }
            i += 1;
        }
        proof {
            lemma_map_of_names(self.entries@, name@);
        }
        None
    }

    /// Whether the attribute `name` is present.
    pub fn contains_key(&self, name: &str) -> (present: bool)
        ensures
            present == self@.contains_key(name@),
    {
        let owned = name.to_owned();
        match self.position(&owned) {
            Some(i) => {
                proof {
                    lemma_map_of_names(self.entries@, name@);
                }
                true
            },
            None => false,
        }
    }

    /// The value of the attribute `name`, where it is present.
    pub fn get(&self, name: &str) -> (value: Option<&String>)
        ensures
            match value {
                Some(v) => self@.contains_key(name@) && v@ == self@[name@],
                None => !self@.contains_key(name@),
            },
    {
        let owned = name.to_owned();
        match self.position(&owned) {
            Some(i) => {
                proof {
                    use_type_invariant(self);
                    lemma_map_of_values(self.entries@, i as int);
                }
                Some(&self.entries[i].1)
            },
            None => None,
        }
    }

    /// Sets the attribute `name` to `value`, replacing the value it had.
    pub fn insert(&mut self, name: String, value: String)
        ensures
            final(self)@ == old(self)@.insert(name@, value@),
            final(self).names() == if old(self)@.contains_key(name@) {
                old(self).names()
            } else {
                old(self).names().push(name@)
            },
    {
        proof {
            use_type_invariant(&*self);
        }
        let at = self.position(&name);
        let mut entries: Vec<(String, String)> = Vec::new();
        std::mem::swap(&mut entries, &mut self.entries);
        let ghost before = entries@;
        match at {
            Some(i) => {
                proof {
                    lemma_map_of_names(before, name@);
                    lemma_map_of_update(before, i as int, (name, value));
                }
                entries.set(i, (name, value));
            },
            None => {
                proof {
                    lemma_map_of_push(before, (name, value));
                }
                entries.push((name, value));
            },
        }
        self.entries = entries;
    }

    /// The attributes as a list of name and value pairs, in the order of
    /// `names`.
    pub fn pairs(&self) -> (list: Vec<(String, String)>)
        ensures
            list@.len() == self.names().len(),
            forall|i: int|
                0 <= i < list@.len() ==> (#[trigger] list@[i]).0@ == self.names()[i]
                    && self@.contains_key(list@[i].0@) && list@[i].1@ == self@[list@[i].0@],
            distinct_names(list@),
            map_of(list@) == self@,
    {
        proof {
            use_type_invariant(self);
        }
        let mut list: Vec<(String, String)> = Vec::new();
        let mut i: usize = 0;
        while i < self.entries.len()
            invariant
                i <= self.entries@.len(),
                list@.len() == i,
                forall|j: int|
                    0 <= j < i ==> (#[trigger] list@[j]).0@ == self.entries@[j].0@ && list@[j].1@
                        == self.entries@[j].1@,
            decreases self.entries@.len() - i,
        {
            let name = self.entries[i].0.clone();
            let value = self.entries[i].1.clone();
            list.push((name, value));
            i += 1;
        }
        proof {
            lemma_same_pairs(list@, self.entries@);
            assert forall|j: int| 0 <= j < list@.len() implies (#[trigger] list@[j]).0@
                == self.names()[j] && self@.contains_key(list@[j].0@) && list@[j].1@
                == self@[list@[j].0@] by {
                lemma_map_of_values(self.entries@, j);
            }
        }
        list
    }

    /// The map that a list of name and value pairs stands for. Where a name
    /// occurs twice, the later pair counts.
    pub fn from_pairs(list: Vec<(String, String)>) -> (exif: Self)
        ensures
            exif@ == map_of(list@),
    {
        let ghost all = list@;
        let mut exif = ExifData::new();
        assert(all.subrange(0, 0) == Seq::<(String, String)>::empty());
        for pair in it: list
            invariant
                it.seq() == all,
                exif@ == map_of(all.subrange(0, it.index() as int)),
        {
            let ghost i = it.index() as int;
            proof {
                assert(all.subrange(0, i + 1).drop_last() == all.subrange(0, i));
                assert(all.subrange(0, i + 1).last() == pair);
            }
            exif.insert(pair.0, pair.1);
        }
        assert(all.subrange(0, all.len() as int) == all);
        exif
    }
}

} // verus!

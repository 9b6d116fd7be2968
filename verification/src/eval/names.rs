//! Sets of names, and counts and grades by name.
use vstd::prelude::*;

use crate::text;

verus! {

/// A set of names.
pub struct FileSet {
    names: Vec<String>,
}

impl View for FileSet {
    type V = Set<Seq<char>>;

    closed spec fn view(&self) -> Set<Seq<char>> {
        text::views(self.names@).to_set()
    }
}

impl FileSet {
    /// No name stands twice.
    #[verifier::type_invariant]
    spec fn is_distinct(self) -> bool {
        text::views(self.names@).no_duplicates()
    }

    /// A set without names.
    pub fn new() -> (r: FileSet)
        ensures
            r@ == Set::<Seq<char>>::empty(),
    {
        let names: Vec<String> = Vec::new();
        assert(text::views(names@) =~= Seq::<Seq<char>>::empty());
        assert(text::views(names@).to_set() =~= Set::<Seq<char>>::empty());
        FileSet { names }
    }

    /// Adds a name.
    pub fn insert(&mut self, name: &str)
        ensures
            final(self)@ == old(self)@.insert(name@),
    {
        proof {
            use_type_invariant(&*self);
        }
        let ghost before = text::views(self.names@);
        if text::holds(&self.names, name) {
            assert(self@ =~= old(self)@.insert(name@));
            return;
        }
        let mut names: Vec<String> = Vec::new();
        assert(text::views(names@) =~= Seq::<Seq<char>>::empty());
        std::mem::swap(&mut names, &mut self.names);
        names.push(name.to_string());
        proof {
            assert(text::views(names@) =~= before.push(name@));
            before.lemma_push_to_set_commute(name@);
        }
        self.names = names;
    }

    /// Whether the set has a name.
    pub fn contains(&self, name: &str) -> (r: bool)
        ensures
            r == self@.contains(name@),
    {
        text::holds(&self.names, name)
    }

    /// How many names the set has.
    pub fn len(&self) -> (r: usize)
        ensures
            r == self@.len(),
            self@.finite(),
    {
        proof {
            use_type_invariant(self);
            text::views(self.names@).unique_seq_to_set();
            vstd::seq_lib::seq_to_set_is_finite(text::views(self.names@));
            assert(text::views(self.names@).len() == self.names@.len());
        }
        self.names.len()
    }

    /// The names, each once.
    pub fn names(&self) -> (r: &Vec<String>)
        ensures
            text::views(r@).no_duplicates(),
            text::views(r@).to_set() == self@,
    {
        proof {
            use_type_invariant(self);
        }
        &self.names
    }

    /// The set of some names.
    pub fn of(list: &Vec<String>) -> (r: FileSet)
        ensures
            r@ == text::views(list@).to_set(),
    {
        let ghost all = text::views(list@);
        let mut out = FileSet::new();
        assert(all.take(0).to_set() =~= Set::<Seq<char>>::empty());
        for i in 0..list.len()
            invariant
                all == text::views(list@),
                out@ == all.take(i as int).to_set(),
        {
            proof {
                assert(all.take(i + 1) =~= all.take(i as int).push(all[i as int]));
                all.take(i as int).lemma_push_to_set_commute(all[i as int]);
            }
            out.insert(list[i].as_str());
        }
        assert(all.take(all.len() as int) =~= all);
        out
    }

    /// The names of the set that the text mentions, each once.
    pub fn mentioned_in(&self, s: &str) -> (r: Vec<String>)
        ensures
            text::views(r@).no_duplicates(),
            text::views(r@).to_set() == mentions(self@, s@),
    {
        proof {
            use_type_invariant(self);
        }
        let ghost all = text::views(self.names@);
        let mut out: Vec<String> = Vec::new();
        proof {
            assert(text::views(out@) =~= Seq::<Seq<char>>::empty());
            assert(all.take(0).to_set() =~= Set::<Seq<char>>::empty());
            assert(text::views(out@).to_set() =~= mentions(all.take(0).to_set(), s@));
        }
        for i in 0..self.names.len()
            invariant
                all == text::views(self.names@),
                all.no_duplicates(),
                text::views(out@).no_duplicates(),
                text::views(out@).to_set() == mentions(all.take(i as int).to_set(), s@),
        {
            let ghost before = text::views(out@);
            let ghost name = all[i as int];
            proof {
                assert(all.take(i + 1) =~= all.take(i as int).push(name));
                all.take(i as int).lemma_push_to_set_commute(name);
                assert(!all.take(i as int).contains(name));
            }
            if text::has_text(s, self.names[i].as_str()) {
                out.push(self.names[i].clone());
                proof {
                    assert(text::views(out@) =~= before.push(name));
                    before.lemma_push_to_set_commute(name);
                    assert(!before.to_set().contains(name));
                    assert(text::views(out@).to_set() =~= mentions(all.take(i + 1).to_set(), s@));
                }
            } else {
                assert(text::views(out@).to_set() =~= mentions(all.take(i + 1).to_set(), s@));
            }
        }
        assert(all.take(all.len() as int) =~= all);
        out
    }

    /// Adds some names.
    pub fn insert_all(&mut self, list: &Vec<String>)
        ensures
            final(self)@ == old(self)@.union(text::views(list@).to_set()),
    {
        let ghost all = text::views(list@);
        let ghost start = self@;
        assert(start.union(all.take(0).to_set()) =~= start);
        for i in 0..list.len()
            invariant
                all == text::views(list@),
                self@ == start.union(all.take(i as int).to_set()),
        {
            proof {
                assert(all.take(i + 1) =~= all.take(i as int).push(all[i as int]));
                all.take(i as int).lemma_push_to_set_commute(all[i as int]);
            }
            let ghost before = self@;
            self.insert(list[i].as_str());
            assert(self@ =~= start.union(all.take(i + 1).to_set()));
        }
        assert(all.take(all.len() as int) =~= all);
    }

    /// How many names stand in both sets.
    pub fn common(&self, other: &FileSet) -> (r: usize)
        ensures
            r == self@.intersect(other@).len(),
    {
        proof {
            use_type_invariant(self);
        }
        let ghost all = text::views(self.names@);
        let mut n: usize = 0;
        assert(all.take(0).to_set().intersect(other@) =~= Set::<Seq<char>>::empty());
        for i in 0..self.names.len()
            invariant
                all == text::views(self.names@),
                all.no_duplicates(),
                n <= i,
                n == all.take(i as int).to_set().intersect(other@).len(),
        {
            let ghost name = all[i as int];
            let ghost before = all.take(i as int).to_set().intersect(other@);
            let ghost after = all.take(i + 1).to_set().intersect(other@);
            proof {
                assert(all.take(i + 1) =~= all.take(i as int).push(name));
                all.take(i as int).lemma_push_to_set_commute(name);
                assert(!all.take(i as int).contains(name));
                vstd::seq_lib::seq_to_set_is_finite(all.take(i as int));
            }
            if other.contains(self.names[i].as_str()) {
                assert(after =~= before.insert(name));
                n += 1;
            } else {
                assert(after =~= before);
            }
        }
        assert(all.take(all.len() as int) =~= all);
        n
    }

    /// A copy of the set.
    pub fn copy(&self) -> (r: FileSet)
        ensures
            r@ == self@,
    {
        proof {
            use_type_invariant(self);
        }
        FileSet { names: text::copy_all(&self.names) }
    }

    /// Whether a name stands in both sets.
    pub fn meets(&self, list: &Vec<String>) -> (r: bool)
        ensures
            r == exists|name: Seq<char>| #[trigger]
                self@.contains(name) && text::views(list@).to_set().contains(name),
    {
        let ghost all = text::views(list@);
        for i in 0..list.len()
            invariant
                all == text::views(list@),
                forall|k: int| 0 <= k < i ==> !self@.contains(#[trigger] all[k]),
        {
            if self.contains(list[i].as_str()) {
                assert(all.contains(all[i as int]));
                return true;
            }
        }
        false
    }
}

/// The names of a set that a text mentions.
pub open spec fn mentions(names: Set<Seq<char>>, s: Seq<char>) -> Set<Seq<char>> {
    names.filter(|name: Seq<char>| text::contains(s, name))
}

// ---------------------------------------------------------------------------------------------
// Values by name
// ---------------------------------------------------------------------------------------------

/// A value for each of some names.
pub struct NameMap<V> {
    entries: Vec<(String, V)>,
}

/// The names and values of some entries.
pub open spec fn map_of<V>(entries: Seq<(String, V)>) -> Map<Seq<char>, V>
    decreases entries.len(),
{
    if entries.len() == 0 {
        Map::empty()
    } else {
        map_of(entries.drop_last()).insert(entries.last().0@, entries.last().1)
    }
}

/// The names of some entries.
pub open spec fn entry_names<V>(entries: Seq<(String, V)>) -> Seq<Seq<char>> {
    entries.map_values(|e: (String, V)| e.0@)
}

/// The values of some entries.
pub open spec fn entry_values<V>(entries: Seq<(String, V)>) -> Seq<V> {
    entries.map_values(|e: (String, V)| e.1)
}

impl<V> View for NameMap<V> {
    type V = Map<Seq<char>, V>;

    closed spec fn view(&self) -> Map<Seq<char>, V> {
        map_of(self.entries@)
    }
}

/// Whether some values are those of a map, each name's once.
pub open spec fn lists_values<V>(values: Seq<V>, m: Map<Seq<char>, V>) -> bool {
    exists|names: Seq<Seq<char>>| #[trigger]
        names.no_duplicates() && names.to_set() == m.dom() && values.len() == names.len()
            && forall|i: int| 0 <= i < names.len() ==> #[trigger] values[i] == m[names[i]]
}

/// Of entries with distinct names, each holds the value of its name.
proof fn lemma_map_of<V>(entries: Seq<(String, V)>, name: Seq<char>)
    requires
        entry_names(entries).no_duplicates(),
    ensures
        map_of(entries).dom().contains(name) == entry_names(entries).contains(name),
        forall|i: int|
            0 <= i < entries.len() && (#[trigger] entries[i]).0@ == name ==> map_of(entries)[name]
                == entries[i].1,
    decreases entries.len(),
{
    if entries.len() > 0 {
        let rest = entries.drop_last();
        assert(entry_names(rest) =~= entry_names(entries).drop_last());
        lemma_map_of(rest, name);
        let n = entries.len() - 1;
        if entry_names(entries).contains(name) {
            let k = choose|k: int|
                0 <= k < entry_names(entries).len() && entry_names(entries)[k] == name;
            if k < n {
                assert(entry_names(rest)[k] == name);
            }
        }
        if entry_names(rest).contains(name) {
            let k = choose|k: int| 0 <= k < entry_names(rest).len() && entry_names(rest)[k] == name;
            assert(entry_names(entries)[k] == name);
        }
        assert(entry_names(entries)[n] == entries[n].0@);
        assert forall|i: int|
            0 <= i < entries.len() && (#[trigger] entries[i]).0@ == name implies map_of(
            entries,
        )[name] == entries[i].1 by {
            assert(entry_names(entries)[i] == name);
            if i < n {
                assert(rest[i] == entries[i]);
                assert(entries.last().0@ != name);
            }
        }
    }
}

/// Another value in one entry is another value of its name.
proof fn lemma_one_value<V>(after: Seq<(String, V)>, before: Seq<(String, V)>, at: int)
    requires
        entry_names(before).no_duplicates(),
        entry_names(after) == entry_names(before),
        0 <= at < before.len(),
        after.len() == before.len(),
        forall|k: int| 0 <= k < before.len() && k != at ==> after[k] == before[k],
    ensures
        map_of(after) == map_of(before).insert(before[at].0@, after[at].1),
{
    let name = before[at].0@;
    let want = map_of(before).insert(name, after[at].1);
    assert forall|other: Seq<char>| #[trigger]
        map_of(after).dom().contains(other) == want.dom().contains(other) by {
        lemma_map_of(after, other);
        lemma_map_of(before, other);
        if other == name {
            assert(entry_names(before)[at] == name);
        }
    }
    assert forall|other: Seq<char>| map_of(after).dom().contains(other) implies #[trigger] map_of(
        after,
    )[other] == want[other] by {
        lemma_map_of(after, other);
        lemma_map_of(before, other);
        let k = choose|k: int| 0 <= k < entry_names(after).len() && entry_names(after)[k] == other;
        assert(after[k].0@ == other);
        assert(entry_names(before)[k] == before[k].0@);
        assert(entry_names(before)[at] == name);
    }
    assert(map_of(after) =~= want);
}

impl<V> NameMap<V> {
    /// No name has two entries.
    #[verifier::type_invariant]
    spec fn is_distinct(self) -> bool {
        entry_names(self.entries@).no_duplicates()
    }
}

impl<V: Copy> NameMap<V> {
    /// A map without names.
    pub fn new() -> (r: NameMap<V>)
        ensures
            r@ == Map::<Seq<char>, V>::empty(),
    {
        let entries: Vec<(String, V)> = Vec::new();
        assert(entry_names(entries@) =~= Seq::<Seq<char>>::empty());
        NameMap { entries }
    }

    /// The position of the entry of a name.
    fn find(&self, name: &str) -> (r: Option<usize>)
        ensures
            match r {
                Some(i) => i < self.entries@.len() && self.entries@[i as int].0@ == name@,
                None => !entry_names(self.entries@).contains(name@),
            },
    {
        for i in 0..self.entries.len()
            invariant
                forall|k: int| 0 <= k < i ==> (#[trigger] entry_names(self.entries@)[k]) != name@,
        {
            if text::same(self.entries[i].0.as_str(), name) {
                return Some(i);
            }
        }
        None
    }

    /// The value of a name.
    pub fn get(&self, name: &str) -> (r: Option<V>)
        ensures
            r == (if self@.dom().contains(name@) {
                Some(self@[name@])
            } else {
                None
            }),
    {
        proof {
            use_type_invariant(self);
            lemma_map_of(self.entries@, name@);
        }
        match self.find(name) {
            Some(i) => {
                assert(entry_names(self.entries@)[i as int] == name@);
                Some(self.entries[i].1)
            },
            None => None,
        }
    }

    /// Gives a value to a name, in place of the one that it has.
    pub fn set(&mut self, name: &str, value: V)
        ensures
            final(self)@ == old(self)@.insert(name@, value),
    {
        proof {
            use_type_invariant(&*self);
            lemma_map_of(self.entries@, name@);
        }
        let ghost before = self.entries@;
        let at = self.find(name);
        let mut entries: Vec<(String, V)> = Vec::new();
        assert(entry_names(entries@) =~= Seq::<Seq<char>>::empty());
        std::mem::swap(&mut entries, &mut self.entries);
        match at {
            Some(i) => {
                entries.set(i, (name.to_string(), value));
                proof {
                    assert(entry_names(before)[i as int] == name@);
                    assert(entry_names(entries@) =~= entry_names(before));
                    lemma_one_value(entries@, before, i as int);
                }
            },
            None => {
                entries.push((name.to_string(), value));
                proof {
                    assert(entry_names(entries@) =~= entry_names(before).push(name@));
                    assert(entries@.drop_last() =~= before);
                }
            },
        }
        self.entries = entries;
    }

    /// The set of the names.
    pub fn keys(&self) -> (r: FileSet)
        ensures
            r@ == self@.dom(),
    {
        proof {
            use_type_invariant(self);
        }
        let ghost all = entry_names(self.entries@);
        let mut out = FileSet::new();
        assert(all.take(0).to_set() =~= Set::<Seq<char>>::empty());
        for i in 0..self.entries.len()
            invariant
                all == entry_names(self.entries@),
                out@ == all.take(i as int).to_set(),
        {
            proof {
                assert(all.take(i + 1) =~= all.take(i as int).push(all[i as int]));
                all.take(i as int).lemma_push_to_set_commute(all[i as int]);
            }
            out.insert(self.entries[i].0.as_str());
        }
        proof {
            assert(all.take(all.len() as int) =~= all);
            assert forall|name: Seq<char>| #[trigger]
                all.to_set().contains(name) == self@.dom().contains(name) by {
                lemma_map_of(self.entries@, name);
            }
            assert(all.to_set() =~= self@.dom());
        }
        out
    }

    /// The values, each name's once.
    pub fn values(&self) -> (r: Vec<V>)
        ensures
            lists_values(r@, self@),
    {
        proof {
            use_type_invariant(self);
        }
        let ghost names = entry_names(self.entries@);
        let mut out: Vec<V> = Vec::new();
        for i in 0..self.entries.len()
            invariant
                out@ == entry_values(self.entries@).take(i as int),
        {
            out.push(self.entries[i].1);
            assert(out@ =~= entry_values(self.entries@).take(i + 1));
        }
        proof {
            assert(out@ =~= entry_values(self.entries@));
            assert forall|name: Seq<char>| #[trigger]
                names.to_set().contains(name) == self@.dom().contains(name) by {
                lemma_map_of(self.entries@, name);
            }
            assert(names.to_set() =~= self@.dom());
            assert forall|i: int| 0 <= i < names.len() implies #[trigger] out@[i]
                == self@[names[i]] by {
                lemma_map_of(self.entries@, names[i]);
            }
        }
        out
    }
}

// ---------------------------------------------------------------------------------------------
// Counts
// ---------------------------------------------------------------------------------------------

/// One more, or the largest number that can be held.
pub open spec fn one_more(n: usize) -> usize {
    if n < usize::MAX {
        (n + 1) as usize
    } else {
        n
    }
}

/// The counts after a name was counted once more.
pub open spec fn counted(counts: Map<Seq<char>, usize>, name: Seq<char>) -> Map<Seq<char>, usize> {
    let n: usize = if counts.dom().contains(name) {
        counts[name]
    } else {
        0
    };
    counts.insert(name, one_more(n))
}

/// Counts a name.
pub fn count(counts: &mut NameMap<usize>, name: &str)
    ensures
        final(counts)@ == counted(old(counts)@, name@),
{
    let n: usize = match counts.get(name) {
        Some(n) => n,
        None => 0,
    };
    counts.set(name, n.saturating_add(1));
}

/// All counts together.
pub open spec fn total(counts: Map<Seq<char>, usize>) -> nat
    decreases counts.dom().len(),
    when counts.dom().finite()
{
    if counts.dom().len() == 0 {
        0
    } else {
        let name = counts.dom().choose();
        counts[name] as nat + total(counts.remove(name))
    }
}

/// All counts together are one of them and all others together.
pub proof fn lemma_total(counts: Map<Seq<char>, usize>, name: Seq<char>)
    requires
        counts.dom().finite(),
        counts.dom().contains(name),
    ensures
        total(counts) == counts[name] + total(counts.remove(name)),
    decreases counts.dom().len(),
{
    let other = counts.dom().choose();
    assert(counts.dom().contains(other));
    if other != name {
        let rest = counts.remove(other);
        assert(rest.dom() =~= counts.dom().remove(other));
        lemma_total(rest, name);
        let less = counts.remove(name);
        assert(less.dom() =~= counts.dom().remove(name));
        lemma_total(less, other);
        assert(rest.remove(name) =~= less.remove(other));
    }
}

/// Counting a name once more makes all counts together one more, where the count of the name is not
/// yet the largest number that can be held.
pub proof fn lemma_total_counted(counts: Map<Seq<char>, usize>, name: Seq<char>)
    requires
        counts.dom().finite(),
        total(counts) < usize::MAX,
    ensures
        counted(counts, name).dom().finite(),
        total(counted(counts, name)) == total(counts) + 1,
{
    let after = counted(counts, name);
    assert(after.dom() =~= counts.dom().insert(name));
    lemma_total(after, name);
    if counts.dom().contains(name) {
        lemma_total(counts, name);
        assert(after.remove(name) =~= counts.remove(name));
    } else {
        assert(after.remove(name) =~= counts);
    }
}

/// Counting a name adds one to its count and leaves all others.
pub proof fn law_counted(counts: Map<Seq<char>, usize>, name: Seq<char>, other: Seq<char>)
    requires
        other != name,
    ensures
        counted(counts, name).dom() == counts.dom().insert(name),
        !counts.dom().contains(name) ==> counted(counts, name)[name] == 1,
        counts.dom().contains(name) && counts[name] < usize::MAX ==> counted(counts, name)[name]
            == counts[name] + 1,
        counts.dom().contains(other) ==> counted(counts, name)[other] == counts[other],
{
    assert(counted(counts, name).dom() =~= counts.dom().insert(name));
}

}

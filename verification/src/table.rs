//! A map from texts to values, walked in the order of its keys.

use vstd::prelude::*;

use crate::text::{holds_text, not_after, same, text_le, text_order, texts};

verus! {

/// A map kept as rows in strictly rising order of their keys.
#[derive(Debug)]
pub struct Table<V> {
    entries: Vec<(String, V)>,
}

/// Keys rise from row to row, so none occurs twice.
pub open spec fn rising<V>(rows: Seq<(Seq<char>, V)>) -> bool {
    forall|i: int, j: int|
        #![trigger rows[i], rows[j]]
        0 <= i < j < rows.len() ==> text_le(rows[i].0, rows[j].0) && rows[i].0 != rows[j].0
}

/// The map that a list of rows spells out; a later row wins.
pub open spec fn map_of<V>(rows: Seq<(Seq<char>, V)>) -> Map<Seq<char>, V>
    decreases rows.len(),
{
    if rows.len() == 0 {
        Map::empty()
    } else {
        map_of(rows.drop_last()).insert(rows.last().0, rows.last().1)
    }
}

/// A map holds exactly what its rows do.
pub proof fn map_holds_its_rows<V>(rows: Seq<(Seq<char>, V)>)
    requires
        rising(rows),
    ensures
        forall|i: int|
            0 <= i < rows.len() ==> map_of(rows).contains_key(#[trigger] rows[i].0) && map_of(
                rows,
            )[rows[i].0] == rows[i].1,
        forall|k: Seq<char>|
            map_of(rows).contains_key(k) ==> exists|i: int|
                0 <= i < rows.len() && #[trigger] rows[i].0 == k,
    decreases rows.len(),
{
    if rows.len() > 0 {
        let front = rows.drop_last();
        assert(rising(front)) by {
            assert forall|i: int, j: int| 0 <= i < j < front.len() implies text_le(
                front[i].0,
                front[j].0,
            ) && front[i].0 != front[j].0 by {
                assert(front[i] == rows[i] && front[j] == rows[j]);
            }
        }
        map_holds_its_rows(front);
        assert forall|i: int| 0 <= i < rows.len() implies map_of(rows).contains_key(
            #[trigger] rows[i].0,
        ) && map_of(rows)[rows[i].0] == rows[i].1 by {
            if i < front.len() {
                assert(front[i] == rows[i]);
                assert(rows[i].0 != rows[rows.len() - 1].0);
            }
        }
        assert forall|k: Seq<char>| map_of(rows).contains_key(k) implies exists|i: int|
            0 <= i < rows.len() && #[trigger] rows[i].0 == k by {
            if k == rows.last().0 {
                assert(rows[rows.len() - 1].0 == k);
            } else {
                assert(map_of(front).contains_key(k));
                let i = choose|i: int| 0 <= i < front.len() && #[trigger] front[i].0 == k;
                assert(front[i] == rows[i]);
                assert(rows[i].0 == k);
            }
        }
    }
}

/// Two rising lists of rows that hold the same map are the same list.
pub proof fn rows_follow_from_the_map<V>(
    first: Seq<(Seq<char>, V)>,
    second: Seq<(Seq<char>, V)>,
)
    requires
        rising(first),
        rising(second),
        map_of(first) == map_of(second),
    ensures
        first == second,
    decreases first.len() + second.len(),
{
    map_holds_its_rows(first);
    map_holds_its_rows(second);
    if first.len() == 0 {
        if second.len() > 0 {
            assert(map_of(first).contains_key(second[0].0));
        }
    } else if second.len() == 0 {
        assert(map_of(second).contains_key(first[0].0));
    } else {
        let a = first.last();
        let b = second.last();
        assert(first[first.len() - 1] == a && second[second.len() - 1] == b);
        // Each list's last key is the largest key of the map.
        let i = choose|i: int| 0 <= i < second.len() && #[trigger] second[i].0 == a.0;
        let j = choose|j: int| 0 <= j < first.len() && #[trigger] first[j].0 == b.0;
        text_order(a.0, b.0, a.0);
        if i < second.len() - 1 {
            assert(text_le(second[i].0, second[second.len() - 1].0));
            if j < first.len() - 1 {
                assert(text_le(first[j].0, first[first.len() - 1].0));
            }
        }
        assert(a.0 == b.0);
        assert(a.1 == map_of(first)[a.0]);
        assert(b.1 == map_of(second)[b.0]);
        let f = first.drop_last();
        let s = second.drop_last();
        assert(rising(f)) by {
            assert forall|x: int, y: int| 0 <= x < y < f.len() implies text_le(f[x].0, f[y].0)
                && f[x].0 != f[y].0 by {
                assert(f[x] == first[x] && f[y] == first[y]);
            }
        }
        assert(rising(s)) by {
            assert forall|x: int, y: int| 0 <= x < y < s.len() implies text_le(s[x].0, s[y].0)
                && s[x].0 != s[y].0 by {
                assert(s[x] == second[x] && s[y] == second[y]);
            }
        }
        map_holds_its_rows(f);
        map_holds_its_rows(s);
        assert(!map_of(f).contains_key(a.0)) by {
            if map_of(f).contains_key(a.0) {
                let x = choose|x: int| 0 <= x < f.len() && #[trigger] f[x].0 == a.0;
                assert(f[x] == first[x]);
            }
        }
        assert(!map_of(s).contains_key(a.0)) by {
            if map_of(s).contains_key(a.0) {
                let x = choose|x: int| 0 <= x < s.len() && #[trigger] s[x].0 == a.0;
                assert(s[x] == second[x]);
            }
        }
        assert(map_of(f) =~= map_of(first).remove(a.0));
        assert(map_of(s) =~= map_of(second).remove(a.0));
        rows_follow_from_the_map(f, s);
        assert(first =~= f.push(a));
        assert(second =~= s.push(b));
    }
    assert(first =~= second);
}

/// The rows of a map, in rising order of their keys.
pub open spec fn rows_of<V>(map: Map<Seq<char>, V>) -> Seq<(Seq<char>, V)> {
    choose|rows: Seq<(Seq<char>, V)>| rising(rows) && map_of(rows) == map
}

/// Rising rows are the rows of the map that they spell out.
pub proof fn rows_are_those_of_the_map<V>(rows: Seq<(Seq<char>, V)>)
    requires
        rising(rows),
    ensures
        rows_of(map_of(rows)) == rows,
{
    let map = map_of(rows);
    assert(rising(rows) && map_of(rows) == map);
    rows_follow_from_the_map(rows_of(map), rows);
}

impl<V> View for Table<V> {
    type V = Map<Seq<char>, V>;

    open spec fn view(&self) -> Map<Seq<char>, V> {
        map_of(self.rows())
    }
}

impl<V> Table<V> {
    /// The rows, in rising order of their keys.
    pub closed spec fn rows(self) -> Seq<(Seq<char>, V)> {
        self.entries@.map_values(|row: (String, V)| (row.0@, row.1))
    }

    #[verifier::type_invariant]
    spec fn sound(self) -> bool {
        rising(self.rows())
    }

    /// An empty table.
    pub fn new() -> (table: Self)
        ensures
            table@ == Map::<Seq<char>, V>::empty(),
            table.rows() == Seq::<(Seq<char>, V)>::empty(),
    {
        let table = Table { entries: Vec::new() };
        assert(table.rows() =~= Seq::<(Seq<char>, V)>::empty());
        table
    }

    /// How many rows there are.
    pub fn len(&self) -> (res: usize)
        ensures
            res == self.rows().len(),
            rising(self.rows()),
            self.rows() == rows_of(self@),
    {
        proof {
            use_type_invariant(self);
            rows_are_those_of_the_map(self.rows());
        }
        self.entries.len()
    }

    /// The key of one row.
    pub fn key(&self, at: usize) -> (res: &String)
        requires
            at < self.rows().len(),
        ensures
            res@ == self.rows()[at as int].0,
    {
        &self.entries[at].0
    }

    /// The value of one row.
    pub fn value(&self, at: usize) -> (res: &V)
        requires
            at < self.rows().len(),
        ensures
            *res == self.rows()[at as int].1,
    {
        &self.entries[at].1
    }

    /// The first row whose key is not before `key`.
    fn place_of(&self, key: &str) -> (at: usize)
        ensures
            at <= self.rows().len(),
            forall|i: int|
                0 <= i < at ==> text_le(#[trigger] self.rows()[i].0, key@) && self.rows()[i].0
                    != key@,
            forall|i: int| at <= i < self.rows().len() ==> text_le(key@, #[trigger] self.rows()[i].0),
    {
        proof {
            use_type_invariant(self);
        }
        let mut low: usize = 0;
        let mut high: usize = self.entries.len();
        while low < high
            invariant
                low <= high <= self.entries@.len(),
                self.rows().len() == self.entries@.len(),
                rising(self.rows()),
                forall|i: int|
                    0 <= i < low ==> text_le(#[trigger] self.rows()[i].0, key@) && self.rows()[i].0
                        != key@,
                forall|i: int|
                    high <= i < self.rows().len() ==> text_le(key@, #[trigger] self.rows()[i].0),
            decreases high - low,
        {
            let middle: usize = low + (high - low) / 2;
            let ghost found = self.rows()[middle as int].0;
            if not_after(key, self.entries[middle].0.as_str()) {
                proof {
                    assert forall|i: int| middle <= i < self.rows().len() implies text_le(
                        key@,
                        #[trigger] self.rows()[i].0,
                    ) by {
                        if i > middle {
                            assert(text_le(self.rows()[middle as int].0, self.rows()[i].0));
                            text_order(key@, found, self.rows()[i].0);
                        }
                    }
                }
                high = middle;
            } else {
                proof {
                    text_order(key@, found, key@);
                    assert forall|i: int| 0 <= i <= middle implies text_le(
                        #[trigger] self.rows()[i].0,
                        key@,
                    ) && self.rows()[i].0 != key@ by {
                        if i < middle {
                            assert(text_le(self.rows()[i].0, self.rows()[middle as int].0));
                            text_order(self.rows()[i].0, found, key@);
                            text_order(found, self.rows()[i].0, found);
                        }
                    }
                }
                low = middle + 1;
            }
        }
        low
    }

    /// The value kept under a key.
    pub fn get(&self, key: &str) -> (res: Option<&V>)
        ensures
            match res {
                Some(value) => self@.contains_key(key@) && *value == self@[key@],
                None => !self@.contains_key(key@),
            },
    {
        proof {
            use_type_invariant(self);
            map_holds_its_rows(self.rows());
        }
        let at = self.place_of(key);
        if at < self.entries.len() && same(self.entries[at].0.as_str(), key) {
            assert(self.rows()[at as int].0 == key@);
            Some(&self.entries[at].1)
        } else {
            proof {
                if self@.contains_key(key@) {
                    let i = choose|i: int|
                        0 <= i < self.rows().len() && #[trigger] self.rows()[i].0 == key@;
                    if i > at {
                        let first = self.rows()[at as int].0;
                        assert(text_le(first, self.rows()[i].0));
                        text_order(key@, first, key@);
                    }
                }
            }
            None
        }
    }

    /// Keep a value under a key, in place of what was there.
    pub fn insert(&mut self, key: String, value: V)
        ensures
            final(self)@ == old(self)@.insert(key@, value),
    {
        proof {
            use_type_invariant(&*self);
        }
        let at = self.place_of(key.as_str());
        let ghost before = self.rows();
        let mut entries: Vec<(String, V)> = Vec::new();
        std::mem::swap(&mut entries, &mut self.entries);
        let ghost text = key@;
        if at < entries.len() && same(entries[at].0.as_str(), key.as_str()) {
            entries.remove(at);
            entries.insert(at, (key, value));
            proof {
                let rows = entries@.map_values(|row: (String, V)| (row.0@, row.1));
                assert(rows =~= before.update(at as int, (text, value)));
                assert(before[at as int].0 == text);
                row_replaced(before, at as int, text, value);
            }
        } else {
            entries.insert(at, (key, value));
            proof {
                let rows = entries@.map_values(|row: (String, V)| (row.0@, row.1));
                assert(rows =~= before.insert(at as int, (text, value)));
                if at < before.len() {
                    assert(before[at as int].0 != text);
                }
                row_added(before, at as int, text, value);
            }
        }
        self.entries = entries;
    }

    /// Keep the rows under some keys, and no others.
    pub fn keep_only(&mut self, keys: &Vec<String>)
        ensures
            final(self)@ == old(self)@.restrict(texts(keys@).to_set()),
    {
        let mut taken: Table<V> = Table::new();
        std::mem::swap(&mut taken, self);
        let ghost rows = taken.rows();
        let ghost wanted = texts(keys@).to_set();
        let entries = taken.entries;
        let ghost all = entries@;
        proof {
            assert(rows.take(0) =~= Seq::<(Seq<char>, V)>::empty());
            assert(self@ =~= map_of(rows.take(0)).restrict(wanted));
        }
        for row in it: entries
            invariant
                it.seq() == all,
                rows == all.map_values(|row: (String, V)| (row.0@, row.1)),
                wanted == texts(keys@).to_set(),
                self@ == map_of(rows.take(it.index() as int)).restrict(wanted),
        {
            proof {
                assert(rows.take(it.index() + 1).drop_last() =~= rows.take(it.index() as int));
                assert(rows.take(it.index() + 1).last() == (row.0@, row.1));
            }
            if holds_text(keys, row.0.as_str()) {
                self.insert(row.0, row.1);
            }
            assert(self@ =~= map_of(rows.take(it.index() + 1)).restrict(wanted));
        }
        assert(rows.take(all.len() as int) =~= rows);
    }

    /// Put the rows of another table over those that are there.
    pub fn absorb(&mut self, other: Table<V>)
        ensures
            final(self)@ == old(self)@.union_prefer_right(other@),
    {
        let ghost before = self@;
        let ghost rows = other.rows();
        let entries = other.entries;
        let ghost all = entries@;
        proof {
            assert(rows.take(0) =~= Seq::<(Seq<char>, V)>::empty());
            assert(self@ =~= before.union_prefer_right(map_of(rows.take(0))));
        }
        for row in it: entries
            invariant
                it.seq() == all,
                rows == all.map_values(|row: (String, V)| (row.0@, row.1)),
                self@ == before.union_prefer_right(map_of(rows.take(it.index() as int))),
        {
            proof {
                assert(rows.take(it.index() + 1).drop_last() =~= rows.take(it.index() as int));
                assert(rows.take(it.index() + 1).last() == (row.0@, row.1));
            }
            self.insert(row.0, row.1);
            assert(self@ =~= before.union_prefer_right(map_of(rows.take(it.index() + 1))));
        }
        assert(rows.take(all.len() as int) =~= rows);
    }
}

impl<T> Table<Vec<T>> {
    /// Add an item to the list under a key, which begins empty.
    pub fn push_under(&mut self, key: &str, item: T)
        ensures
            final(self)@.contains_key(key@),
            final(self)@[key@]@ == if old(self)@.contains_key(key@) {
                old(self)@[key@]@.push(item)
            } else {
                seq![item]
            },
            final(self)@ == old(self)@.insert(key@, final(self)@[key@]),
    {
        proof {
            use_type_invariant(&*self);
            map_holds_its_rows(self.rows());
        }
        let at = self.place_of(key);
        let ghost before = self.rows();
        let known = self.get(key).is_some();
        let mut entries: Vec<(String, Vec<T>)> = Vec::new();
        std::mem::swap(&mut entries, &mut self.entries);
        if known {
            proof {
                let i = choose|i: int| 0 <= i < before.len() && #[trigger] before[i].0 == key@;
                assert(i >= at);
                if i > at {
                    assert(text_le(before[at as int].0, before[i].0));
                    text_order(key@, before[at as int].0, key@);
                }
                assert(before[at as int].0 == key@);
            }
            let (held, mut list) = entries.remove(at);
            list.push(item);
            let ghost new = list;
            entries.insert(at, (held, list));
            proof {
                let rows = entries@.map_values(|row: (String, Vec<T>)| (row.0@, row.1));
                assert(rows =~= before.update(at as int, (key@, new)));
                row_replaced(before, at as int, key@, new);
            }
        } else {
            let mut list: Vec<T> = Vec::new();
            list.push(item);
            let ghost new = list;
            entries.insert(at, (key.to_owned(), list));
            proof {
                let rows = entries@.map_values(|row: (String, Vec<T>)| (row.0@, row.1));
                assert(rows =~= before.insert(at as int, (key@, new)));
                if at < before.len() && before[at as int].0 == key@ {
                    assert(map_of(before).contains_key(key@));
                }
                row_added(before, at as int, key@, new);
                assert(new@ =~= seq![item]);
            }
        }
        self.entries = entries;
    }
}

proof fn row_replaced<V>(rows: Seq<(Seq<char>, V)>, at: int, key: Seq<char>, value: V)
    requires
        rising(rows),
        0 <= at < rows.len(),
        rows[at].0 == key,
    ensures
        rising(rows.update(at, (key, value))),
        map_of(rows.update(at, (key, value))) == map_of(rows).insert(key, value),
{
    let new = rows.update(at, (key, value));
    assert forall|i: int, j: int| 0 <= i < j < new.len() implies text_le(new[i].0, new[j].0)
        && new[i].0 != new[j].0 by {
        assert(new[i].0 == rows[i].0 && new[j].0 == rows[j].0);
    }
    map_holds_its_rows(rows);
    map_holds_its_rows(new);
    assert forall|k: Seq<char>| map_of(new).contains_key(k) <==> map_of(rows).insert(
        key,
        value,
    ).contains_key(k) by {
        if map_of(new).contains_key(k) {
            let i = choose|i: int| 0 <= i < new.len() && #[trigger] new[i].0 == k;
            assert(rows[i].0 == k);
        }
        if map_of(rows).contains_key(k) {
            let i = choose|i: int| 0 <= i < rows.len() && #[trigger] rows[i].0 == k;
            assert(new[i].0 == k);
        }
        assert(new[at].0 == key);
    }
    assert forall|k: Seq<char>| map_of(new).contains_key(k) implies map_of(new)[k] == map_of(
        rows,
    ).insert(key, value)[k] by {
        let i = choose|i: int| 0 <= i < new.len() && #[trigger] new[i].0 == k;
        if i != at {
            assert(rows[i].0 == k);
            assert(new[i].0 != new[at].0) by {
                if i < at {
                    assert(new[i].0 != new[at].0);
                } else {
                    assert(new[at].0 != new[i].0);
                }
            }
            assert(new[i] == rows[i]);
        } else {
            assert(new[at] == (key, value));
        }
    }
    assert(map_of(new) =~= map_of(rows).insert(key, value));
}

proof fn row_added<V>(rows: Seq<(Seq<char>, V)>, at: int, key: Seq<char>, value: V)
    requires
        rising(rows),
        0 <= at <= rows.len(),
        forall|i: int| 0 <= i < at ==> text_le(#[trigger] rows[i].0, key) && rows[i].0 != key,
        forall|i: int| at <= i < rows.len() ==> text_le(key, #[trigger] rows[i].0),
        at < rows.len() ==> rows[at].0 != key,
    ensures
        rising(rows.insert(at, (key, value))),
        map_of(rows.insert(at, (key, value))) == map_of(rows).insert(key, value),
{
    let new = rows.insert(at, (key, value));
    assert forall|i: int| at <= i < rows.len() implies #[trigger] rows[i].0 != key by {
        if i > at {
            assert(text_le(rows[at].0, rows[i].0));
            text_order(key, rows[at].0, key);
        }
    }
    assert forall|i: int, j: int| 0 <= i < j < new.len() implies text_le(new[i].0, new[j].0)
        && new[i].0 != new[j].0 by {
        let a = if i < at {
            rows[i].0
        } else if i == at {
            key
        } else {
            rows[i - 1].0
        };
        let b = if j < at {
            rows[j].0
        } else if j == at {
            key
        } else {
            rows[j - 1].0
        };
        assert(new[i].0 == a && new[j].0 == b);
    }
    map_holds_its_rows(rows);
    map_holds_its_rows(new);
    assert forall|k: Seq<char>| map_of(new).contains_key(k) <==> map_of(rows).insert(
        key,
        value,
    ).contains_key(k) by {
        if map_of(new).contains_key(k) {
            let i = choose|i: int| 0 <= i < new.len() && #[trigger] new[i].0 == k;
            if i < at {
                assert(rows[i].0 == k);
            } else if i > at {
                assert(rows[i - 1].0 == k);
            }
        }
        if map_of(rows).contains_key(k) {
            let i = choose|i: int| 0 <= i < rows.len() && #[trigger] rows[i].0 == k;
            if i < at {
                assert(new[i].0 == k);
            } else {
                assert(new[i + 1].0 == k);
            }
        }
        assert(new[at].0 == key);
    }
    assert forall|k: Seq<char>| map_of(new).contains_key(k) implies map_of(new)[k] == map_of(
        rows,
    ).insert(key, value)[k] by {
        let i = choose|i: int| 0 <= i < new.len() && #[trigger] new[i].0 == k;
        if i < at {
            assert(rows[i].0 == k);
            assert(new[i] == rows[i]);
        } else if i > at {
            assert(rows[i - 1].0 == k);
            assert(new[i] == rows[i - 1]);
        } else {
            assert(new[at] == (key, value));
        }
    }
    assert(map_of(new) =~= map_of(rows).insert(key, value));
}

} // verus!

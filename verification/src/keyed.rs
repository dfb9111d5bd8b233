//! A map from names to values that keeps one entry per name, the last value
//! stored under it winning, and lists its entries in ascending order of name:
//! the behaviour of `BTreeMap<String, V>`.
use crate::text::{
    lemma_seq_lt_irreflexive, lemma_seq_lt_total, lemma_seq_lt_transitive, seq_lt, str_equal,
    str_less,
};
use vstd::prelude::*;
use vstd::string::*;

verus! {

/// The map that a list of `(name, value)` insertions builds, later ones
/// overwriting earlier ones.
pub open spec fn map_of<V>(entries: Seq<(String, V)>) -> Map<Seq<char>, V>
    decreases entries.len(),
{
    if entries.len() == 0 {
        Map::empty()
    } else {
        map_of(entries.drop_last()).insert(entries.last().0@, entries.last().1)
    }
}

/// No name occurs twice among the entries.
pub open spec fn names_unique<V>(entries: Seq<(String, V)>) -> bool {
    forall|i: int, j: int|
        0 <= i < entries.len() && 0 <= j < entries.len() && i != j ==> #[trigger] entries[i].0@
            != #[trigger] entries[j].0@
}

/// Each name comes strictly before the next one.
pub open spec fn names_ascending<V>(entries: Seq<(String, V)>) -> bool {
    forall|i: int, j: int|
        0 <= i < j < entries.len() ==> seq_lt(#[trigger] entries[i].0@, #[trigger] entries[j].0@)
}

/// Names mapped to values, one entry per name, kept in ascending order of name.
pub struct KeyedList<V> {
    entries: Vec<(String, V)>,
}

impl<V> KeyedList<V> {
    /// The entries in the order in which the list hands them out.
    pub closed spec fn listing(self) -> Seq<(String, V)> {
        self.entries@
    }

    #[verifier::type_invariant]
    spec fn ascending(self) -> bool {
        names_ascending(self.entries@)
    }
}

impl<V> View for KeyedList<V> {
    type V = Map<Seq<char>, V>;

    open spec fn view(&self) -> Map<Seq<char>, V> {
        map_of(self.listing())
    }
}

/// Names in strictly ascending order are all different.
proof fn lemma_ascending_unique<V>(entries: Seq<(String, V)>)
    requires
        names_ascending(entries),
    ensures
        names_unique(entries),
{
    assert forall|i: int, j: int|
        0 <= i < entries.len() && 0 <= j < entries.len() && i != j implies #[trigger] entries[i].0@
        != #[trigger] entries[j].0@ by {
        if i < j {
            assert(seq_lt(entries[i].0@, entries[j].0@));
            lemma_seq_lt_irreflexive(entries[i].0@);
        } else {
            assert(seq_lt(entries[j].0@, entries[i].0@));
            lemma_seq_lt_irreflexive(entries[j].0@);
        }
    }
}

/// With unique names, the map has exactly the entries' names, each with its value.
proof fn lemma_map_of_unique<V>(entries: Seq<(String, V)>)
    requires
        names_unique(entries),
    ensures
        forall|k: Seq<char>|
            #[trigger] map_of(entries).dom().contains(k) <==> exists|i: int|
                0 <= i < entries.len() && entries[i].0@ == k,
        forall|i: int|
            0 <= i < entries.len() ==> #[trigger] map_of(entries)[entries[i].0@] == entries[i].1,
        map_of(entries).dom().finite(),
        map_of(entries).dom().len() == entries.len(),
    decreases entries.len(),
{
    if entries.len() > 0 {
        let init = entries.drop_last();
        assert(names_unique(init)) by {
            assert forall|i: int, j: int|
                0 <= i < init.len() && 0 <= j < init.len() && i != j implies #[trigger] init[i].0@
                != #[trigger] init[j].0@ by {
                assert(init[i] == entries[i]);
                assert(init[j] == entries[j]);
            }
        }
        lemma_map_of_unique(init);
        let last = entries.last();
        assert forall|k: Seq<char>|
            #[trigger] map_of(entries).dom().contains(k) <==> exists|i: int|
                0 <= i < entries.len() && entries[i].0@ == k by {
            if map_of(entries).dom().contains(k) && k != last.0@ {
                let i = choose|i: int| 0 <= i < init.len() && init[i].0@ == k;
                assert(entries[i] == init[i]);
            }
            if exists|i: int| 0 <= i < entries.len() && entries[i].0@ == k {
                let i = choose|i: int| 0 <= i < entries.len() && entries[i].0@ == k;
                if i < entries.len() - 1 {
                    assert(init[i] == entries[i]);
                }
            }
        }
        assert forall|i: int| 0 <= i < entries.len() implies #[trigger] map_of(entries)[entries[
            i
        ].0@] == entries[i].1 by {
            if i < entries.len() - 1 {
                assert(init[i] == entries[i]);
                assert(entries[i].0@ != last.0@);
            }
        }
        assert(!map_of(init).dom().contains(last.0@)) by {
            if map_of(init).dom().contains(last.0@) {
                let i = choose|i: int| 0 <= i < init.len() && init[i].0@ == last.0@;
                assert(init[i] == entries[i]);
                assert(entries[i].0@ != entries[entries.len() - 1].0@);
            }
        }
    }
}

/// Storing a new value at a position that holds the name `k` stores it under `k`.
proof fn lemma_map_of_update<V>(entries: Seq<(String, V)>, i: int, k: String, v: V)
    requires
        names_unique(entries),
        0 <= i < entries.len(),
        entries[i].0@ == k@,
    ensures
        map_of(entries.update(i, (k, v))) == map_of(entries).insert(k@, v),
        names_unique(entries.update(i, (k, v))),
    decreases entries.len(),
{
    let updated = entries.update(i, (k, v));
    assert(names_unique(updated)) by {
        assert forall|a: int, b: int|
            0 <= a < updated.len() && 0 <= b < updated.len() && a != b implies #[trigger] updated[a].0@
            != #[trigger] updated[b].0@ by {
            assert(entries[a].0@ != entries[b].0@);
        }
    }
    lemma_map_of_unique(entries);
    lemma_map_of_unique(updated);
    assert forall|key: Seq<char>| #[trigger]
        map_of(updated).dom().contains(key) <==> map_of(entries).insert(k@, v).dom().contains(key) by {
        if map_of(updated).dom().contains(key) {
            let j = choose|j: int| 0 <= j < updated.len() && updated[j].0@ == key;
            if j != i {
                assert(entries[j].0@ == key);
            }
        }
        if map_of(entries).dom().contains(key) {
            let j = choose|j: int| 0 <= j < entries.len() && entries[j].0@ == key;
            assert(updated[j].0@ == key);
        }
        if key == k@ {
            assert(updated[i].0@ == key);
        }
    }
    assert forall|key: Seq<char>| #[trigger] map_of(updated).dom().contains(key) implies map_of(
        updated,
    )[key] == map_of(entries).insert(k@, v)[key] by {
        let j = choose|j: int| 0 <= j < updated.len() && updated[j].0@ == key;
        assert(map_of(updated)[updated[j].0@] == updated[j].1);
        if j != i {
            assert(entries[j] == updated[j]);
            assert(map_of(entries)[entries[j].0@] == entries[j].1);
        }
    }
    assert(map_of(updated) =~= map_of(entries).insert(k@, v));
}

/// Placing an entry under a name that is not yet present, anywhere in the
/// list, adds that name with its value.
proof fn lemma_map_of_insert_new<V>(entries: Seq<(String, V)>, i: int, k: String, v: V)
    requires
        names_unique(entries),
        0 <= i <= entries.len(),
        forall|j: int| 0 <= j < entries.len() ==> #[trigger] entries[j].0@ != k@,
    ensures
        map_of(entries.insert(i, (k, v))) == map_of(entries).insert(k@, v),
        names_unique(entries.insert(i, (k, v))),
{
    let grown = entries.insert(i, (k, v));
    assert(names_unique(grown)) by {
        assert forall|a: int, b: int|
            0 <= a < grown.len() && 0 <= b < grown.len() && a != b implies #[trigger] grown[a].0@
            != #[trigger] grown[b].0@ by {
            if a != i && b != i {
                let ea = if a < i { a } else { a - 1 };
                let eb = if b < i { b } else { b - 1 };
                assert(grown[a] == entries[ea]);
                assert(grown[b] == entries[eb]);
            } else if a == i {
                let eb = if b < i { b } else { b - 1 };
                assert(grown[b] == entries[eb]);
            } else {
                let ea = if a < i { a } else { a - 1 };
                assert(grown[a] == entries[ea]);
            }
        }
    }
    lemma_map_of_unique(entries);
    lemma_map_of_unique(grown);
    assert forall|key: Seq<char>| #[trigger]
        map_of(grown).dom().contains(key) <==> map_of(entries).insert(k@, v).dom().contains(key) by {
        if map_of(grown).dom().contains(key) {
            let j = choose|j: int| 0 <= j < grown.len() && grown[j].0@ == key;
            if j < i {
                assert(entries[j] == grown[j]);
            } else if j > i {
                assert(entries[j - 1] == grown[j]);
            }
        }
        if map_of(entries).dom().contains(key) {
            let j = choose|j: int| 0 <= j < entries.len() && entries[j].0@ == key;
            if j < i {
                assert(grown[j] == entries[j]);
            } else {
                assert(grown[j + 1] == entries[j]);
            }
        }
        if key == k@ {
            assert(grown[i].0@ == key);
        }
    }
    assert forall|key: Seq<char>| #[trigger] map_of(grown).dom().contains(key) implies map_of(
        grown,
    )[key] == map_of(entries).insert(k@, v)[key] by {
        let j = choose|j: int| 0 <= j < grown.len() && grown[j].0@ == key;
        assert(map_of(grown)[grown[j].0@] == grown[j].1);
        if j < i {
            assert(entries[j] == grown[j]);
            assert(map_of(entries)[entries[j].0@] == entries[j].1);
        } else if j > i {
            assert(entries[j - 1] == grown[j]);
            assert(map_of(entries)[entries[j - 1].0@] == entries[j - 1].1);
        }
    }
    assert(map_of(grown) =~= map_of(entries).insert(k@, v));
}

impl<V> KeyedList<V> {
    /// An empty list.
    pub fn new() -> (r: Self)
        ensures
            r@ == Map::<Seq<char>, V>::empty(),
            r.listing() == Seq::<(String, V)>::empty(),
    {
        KeyedList { entries: Vec::new() }
    }

    /// Stores `value` under `key`, replacing what was stored under it.
    pub fn insert(&mut self, key: String, value: V)
        ensures
            final(self)@ == old(self)@.insert(key@, value),
            names_ascending(final(self).listing()),
    {
        proof {
            use_type_invariant(&*self);
        }
        let mut entries: Vec<(String, V)> = Vec::new();
        std::mem::swap(&mut entries, &mut self.entries);
        let ghost start = entries@;
        let n = entries.len();
        let mut i: usize = 0;
        while i < n && str_less(entries[i].0.as_str(), key.as_str())
            invariant
                n == entries.len(),
                entries@ == start,
                i <= n,
                forall|j: int| 0 <= j < i ==> seq_lt(#[trigger] start[j].0@, key@),
            decreases n - i,
        {
            i = i + 1;
        }
        proof {
            lemma_ascending_unique(start);
        }
        if i < n && str_equal(entries[i].0.as_str(), key.as_str()) {
            proof {
                lemma_map_of_update(start, i as int, key, value);
                let updated = start.update(i as int, (key, value));
                assert forall|a: int, b: int| 0 <= a < b < updated.len() implies seq_lt(
                    #[trigger] updated[a].0@,
                    #[trigger] updated[b].0@,
                ) by {
                    assert(seq_lt(start[a].0@, start[b].0@));
                }
            }
            entries.set(i, (key, value));
        } else {
            proof {
                let grown = start.insert(i as int, (key, value));
                if i < n {
                    assert(start[i as int].0@ != key@);
                    assert(!seq_lt(start[i as int].0@, key@));
                    lemma_seq_lt_total(start[i as int].0@, key@);
                    assert(seq_lt(key@, start[i as int].0@));
                }
                assert forall|j: int| 0 <= j < start.len() implies #[trigger] start[j].0@ != key@ by {
                    if j > i {
                        assert(seq_lt(start[i as int].0@, start[j].0@));
                        lemma_seq_lt_transitive(key@, start[i as int].0@, start[j].0@);
                    } else if j < i {
                        assert(seq_lt(start[j].0@, key@));
                    }
                    lemma_seq_lt_irreflexive(key@);
                }
                lemma_map_of_insert_new(start, i as int, key, value);
                assert forall|a: int, b: int| 0 <= a < b < grown.len() implies seq_lt(
                    #[trigger] grown[a].0@,
                    #[trigger] grown[b].0@,
                ) by {
                    if b < i {
                        assert(grown[a] == start[a] && grown[b] == start[b]);
                    } else if b == i {
                        assert(grown[a] == start[a]);
                    } else if a == i {
                        assert(grown[b] == start[b - 1]);
                        if b - 1 > i {
                            assert(seq_lt(start[i as int].0@, start[b - 1].0@));
                            lemma_seq_lt_transitive(key@, start[i as int].0@, start[b - 1].0@);
                        }
                    } else if a < i {
                        assert(grown[a] == start[a] && grown[b] == start[b - 1]);
                        assert(seq_lt(start[a].0@, start[b - 1].0@));
                    } else {
                        assert(grown[a] == start[a - 1] && grown[b] == start[b - 1]);
                    }
                }
            }
            entries.insert(i, (key, value));
        }
        self.entries = entries;
    }

    /// The value stored under `key`, if any.
    pub fn get(&self, key: &str) -> (r: Option<&V>)
        ensures
            r matches Some(v) ==> self@.dom().contains(key@) && *v == self@[key@],
            r is None ==> !self@.dom().contains(key@),
    {
        proof {
            use_type_invariant(self);
            lemma_ascending_unique(self.entries@);
            lemma_map_of_unique(self.entries@);
        }
        let n = self.entries.len();
        let mut i: usize = 0;
        while i < n
            invariant
                n == self.entries.len(),
                i <= n,
                forall|j: int| 0 <= j < i ==> self.entries@[j].0@ != key@,
            decreases n - i,
        {
            if str_equal(self.entries[i].0.as_str(), key) {
                proof {
                    use_type_invariant(self);
                    lemma_ascending_unique(self.entries@);
                    lemma_map_of_unique(self.entries@);
                }
                return Some(&self.entries[i].1);
            }
            i = i + 1;
        }
        None
    }

    /// The number of names stored.
    pub fn len(&self) -> (r: usize)
        ensures
            r == self@.dom().len(),
    {
        proof {
            use_type_invariant(self);
            lemma_ascending_unique(self.entries@);
            lemma_map_of_unique(self.entries@);
        }
        self.entries.len()
    }

    /// The entries, in ascending order of name.
    pub fn entries(&self) -> (r: &Vec<(String, V)>)
        ensures
            r@ == self.listing(),
            names_ascending(r@),
    {
        proof {
            use_type_invariant(self);
        }
        &self.entries
    }

    /// The entries, in ascending order of name, taken out of the list.
    pub fn into_entries(self) -> (r: Vec<(String, V)>)
        ensures
            r@ == self.listing(),
            names_ascending(r@),
    {
        proof {
            use_type_invariant(&self);
        }
        self.entries
    }
}

/// Two listings in ascending order of name that describe the same map are the
/// same listing: the order in which a `KeyedList` hands out its entries is
/// fixed by what it holds.
pub proof fn law_listing_fixed_by_contents<V>(a: Seq<(String, V)>, b: Seq<(String, V)>)
    requires
        names_ascending(a),
        names_ascending(b),
        map_of(a) == map_of(b),
    ensures
        a.len() == b.len(),
        forall|i: int| 0 <= i < a.len() ==> #[trigger] a[i].0@ == b[i].0@ && a[i].1 == b[i].1,
    decreases a.len(),
{
    lemma_ascending_unique(a);
    lemma_ascending_unique(b);
    lemma_map_of_unique(a);
    lemma_map_of_unique(b);
    if a.len() > 0 && b.len() > 0 {
        let la = a.last().0@;
        let lb = b.last().0@;
        // The last name of each is the greatest name of the shared map.
        let ia = choose|j: int| 0 <= j < b.len() && b[j].0@ == la;
        let ib = choose|j: int| 0 <= j < a.len() && a[j].0@ == lb;
        assert(map_of(b).dom().contains(la));
        assert(map_of(a).dom().contains(lb));
        if la != lb {
            if ia < b.len() - 1 {
                assert(seq_lt(b[ia].0@, b[b.len() - 1].0@));
            }
            if ib < a.len() - 1 {
                assert(seq_lt(a[ib].0@, a[a.len() - 1].0@));
            }
            lemma_seq_lt_transitive(la, lb, la);
            lemma_seq_lt_irreflexive(la);
        }
        let ra = a.drop_last();
        let rb = b.drop_last();
        assert(names_ascending(ra));
        assert(names_ascending(rb));
        assert(map_of(a) == map_of(ra).insert(la, a.last().1));
        assert(map_of(b) == map_of(rb).insert(lb, b.last().1));
        lemma_ascending_unique(ra);
        lemma_ascending_unique(rb);
        lemma_map_of_unique(ra);
        lemma_map_of_unique(rb);
        assert(!map_of(ra).dom().contains(la)) by {
            if map_of(ra).dom().contains(la) {
                let j = choose|j: int| 0 <= j < ra.len() && ra[j].0@ == la;
                assert(a[j] == ra[j]);
            }
        }
        assert(!map_of(rb).dom().contains(lb)) by {
            if map_of(rb).dom().contains(lb) {
                let j = choose|j: int| 0 <= j < rb.len() && rb[j].0@ == lb;
                assert(b[j] == rb[j]);
            }
        }
        assert(map_of(ra) =~= map_of(a).remove(la));
        assert(map_of(rb) =~= map_of(b).remove(lb));
        law_listing_fixed_by_contents(ra, rb);
        assert forall|i: int| 0 <= i < a.len() implies #[trigger] a[i].0@ == b[i].0@ && a[i].1
            == b[i].1 by {
            if i < a.len() - 1 {
                assert(a[i] == ra[i] && b[i] == rb[i]);
            } else {
                assert(map_of(a)[la] == a.last().1);
                assert(map_of(b)[lb] == b.last().1);
            }
        }
    } else if a.len() > 0 {
        assert(map_of(a).dom().contains(a[0].0@));
    } else if b.len() > 0 {
        assert(map_of(b).dom().contains(b[0].0@));
    }
}

} // verus!

use vstd::prelude::*;

verus! {

/// A named pair of counters, or of rates, as the logic sees it.
pub type Row = (Seq<char>, u64, u64);

/// Abstract view of a list of named pairs.
pub open spec fn rows_view(v: Seq<(String, u64, u64)>) -> Seq<Row> {
    v.map_values(|e: (String, u64, u64)| (e.0@, e.1, e.2))
}

/// No two rows carry the same name.
pub open spec fn names_unique(s: Seq<Row>) -> bool {
    forall|i: int, j: int| 0 <= i < s.len() && 0 <= j < s.len() && i != j ==> s[i].0 != s[j].0
}

/// The rows as a map from name to pair (a later row wins over an earlier one).
pub open spec fn to_map(s: Seq<Row>) -> Map<Seq<char>, (u64, u64)>
    decreases s.len(),
{
    if s.len() == 0 {
        Map::empty()
    } else {
        to_map(s.drop_last()).insert(s.last().0, (s.last().1, s.last().2))
    }
}

pub proof fn lemma_to_map_dom(s: Seq<Row>, k: Seq<char>)
    ensures
        to_map(s).contains_key(k) <==> exists|i: int| 0 <= i < s.len() && s[i].0 == k,
    decreases s.len(),
{
    if s.len() > 0 {
        let d = s.drop_last();
        lemma_to_map_dom(d, k);
        if to_map(s).contains_key(k) && k != s.last().0 {
            let i = choose|i: int| 0 <= i < d.len() && d[i].0 == k;
            assert(s[i].0 == k);
        }
        if exists|i: int| 0 <= i < s.len() && s[i].0 == k {
            let i = choose|i: int| 0 <= i < s.len() && s[i].0 == k;
            if i < d.len() {
                assert(d[i].0 == k);
            }
        }
    }
}

pub proof fn lemma_to_map_value(s: Seq<Row>, i: int)
    requires
        names_unique(s),
        0 <= i < s.len(),
    ensures
        to_map(s).contains_key(s[i].0),
        to_map(s)[s[i].0] == (s[i].1, s[i].2),
    decreases s.len(),
{
    let d = s.drop_last();
    if i < s.len() - 1 {
        assert(s[i].0 != s[s.len() - 1].0);
        assert(d[i] == s[i]);
        lemma_to_map_value(d, i);
    }
}

/// One reading of cumulative counters per device: a map from a device name
/// to a pair of counters, kept in the order the names were first inserted.
///
/// Held as a list with unique names rather than a `HashMap<String, _>`:
/// vstd gives `String` keys no hashing model, so nothing could be proved
/// of such a map's lookups.
pub struct CounterSnapshot {
    entries: Vec<(String, u64, u64)>,
}

impl View for CounterSnapshot {
    type V = Seq<Row>;

    closed spec fn view(&self) -> Seq<Row> {
        rows_view(self.entries@)
    }
}

impl CounterSnapshot {
    /// Names are unique.
    pub open spec fn wf(&self) -> bool {
        names_unique(self@)
    }

    /// The snapshot as a map from name to counters.
    pub open spec fn counters(&self) -> Map<Seq<char>, (u64, u64)> {
        to_map(self@)
    }

    pub fn new() -> (r: Self)
        ensures
            r.wf(),
            r@ == Seq::<Row>::empty(),
    {
        let r = CounterSnapshot { entries: Vec::new() };
        assert(r@ =~= Seq::<Row>::empty());
        r
    }

    pub fn len(&self) -> (r: usize)
        ensures
            r == self@.len(),
    {
        self.entries.len()
    }

    /// The entry at position `i`.
    pub fn entry(&self, i: usize) -> (r: (String, u64, u64))
        requires
            i < self@.len(),
        ensures
            (r.0@, r.1, r.2) == self@[i as int],
    {
        let e = &self.entries[i];
        (e.0.clone(), e.1, e.2)
    }

    /// A copy of this snapshot.
    pub fn duplicate(&self) -> (r: Self)
        ensures
            r@ == self@,
    {
        let mut entries: Vec<(String, u64, u64)> = Vec::new();
        let mut i: usize = 0;
        while i < self.entries.len()
            invariant
                0 <= i <= self.entries@.len(),
                entries@.len() == i,
                rows_view(entries@) == rows_view(self.entries@).subrange(0, i as int),
            decreases self.entries@.len() - i,
        {
            let e = self.entry(i);
            let ghost before = entries@;
            entries.push(e);
            assert forall|j: int| 0 <= j < i implies rows_view(entries@)[j] == rows_view(before)[j] by {
                assert(entries@[j] == before[j]);
            }
            assert(rows_view(entries@) =~= rows_view(self.entries@).subrange(0, i + 1));
            i = i + 1;
        }
        assert(rows_view(self.entries@).subrange(0, i as int) =~= rows_view(self.entries@));
        CounterSnapshot { entries }
    }

    /// Index of the entry named `name`, if any.
    fn position(&self, name: &String) -> (r: Option<usize>)
        ensures
            match r {
                Some(i) => i < self@.len() && self@[i as int].0 == name@,
                None => forall|i: int| 0 <= i < self@.len() ==> self@[i].0 != name@,
            },
    {
        let mut i: usize = 0;
        while i < self.entries.len()
            invariant
                0 <= i <= self@.len(),
                self@.len() == self.entries@.len(),
                forall|j: int| 0 <= j < i ==> self@[j].0 != name@,
            decreases self@.len() - i,
        {
            if self.entries[i].0 == *name {
                return Some(i);
            }
            i = i + 1;
        }
        None
    }

    /// The counters stored under `name`.
    pub fn get(&self, name: &String) -> (r: Option<(u64, u64)>)
        requires
            self.wf(),
        ensures
            r == self.counters().get(name@),
    {
        proof {
            lemma_to_map_dom(self@, name@);
        }
        match self.position(name) {
            Some(i) => {
                proof {
                    lemma_to_map_value(self@, i as int);
                }
                Some((self.entries[i].1, self.entries[i].2))
            },
            None => None,
        }
    }

    /// Sets the counters of `name`, replacing earlier ones of that name in
    /// place, or appending a new entry.
    pub fn insert(&mut self, name: String, first: u64, second: u64)
        requires
            old(self).wf(),
        ensures
            final(self).wf(),
            final(self).counters() == old(self).counters().insert(name@, (first, second)),
            old(self).counters().contains_key(name@) ==> final(self)@.len() == old(self)@.len(),
            !old(self).counters().contains_key(name@) ==> final(self)@ == old(self)@.push(
                (name@, first, second),
            ),
    {
        let ghost s = self@;
        let ghost k = name@;
        proof {
            lemma_to_map_dom(s, k);
        }
        match self.position(&name) {
            Some(i) => {
                self.entries.set(i, (name, first, second));
                let ghost t = self@;
                assert(t =~= s.update(i as int, (k, first, second)));
                assert forall|a: int, b: int|
                    0 <= a < t.len() && 0 <= b < t.len() && a != b implies t[a].0 != t[b].0 by {
                    assert(t[a].0 == s[a].0);
                    assert(t[b].0 == s[b].0);
                }
                assert forall|q: Seq<char>|
                    #[trigger] to_map(t).contains_key(q) == to_map(s).insert(k, (first, second)).contains_key(q)
                by {
                    lemma_to_map_dom(t, q);
                    lemma_to_map_dom(s, q);
                    if exists|j: int| 0 <= j < s.len() && s[j].0 == q {
                        let j = choose|j: int| 0 <= j < s.len() && s[j].0 == q;
                        assert(t[j].0 == q);
                    }
                    if exists|j: int| 0 <= j < t.len() && t[j].0 == q {
                        let j = choose|j: int| 0 <= j < t.len() && t[j].0 == q;
                        assert(s[j].0 == q);
                    }
                }
                assert forall|q: Seq<char>| #[trigger] to_map(t).contains_key(q) implies to_map(t)[q]
                    == to_map(s).insert(k, (first, second))[q] by {
                    lemma_to_map_dom(t, q);
                    let j = choose|j: int| 0 <= j < t.len() && t[j].0 == q;
                    lemma_to_map_value(t, j);
                    if j != i {
                        assert(s[j] == t[j]);
                        lemma_to_map_value(s, j);
                    }
                }
                assert(to_map(t) =~= to_map(s).insert(k, (first, second)));
            },
            None => {
                self.entries.push((name, first, second));
                let ghost t = self@;
                assert(t =~= s.push((k, first, second)));
                assert(t.drop_last() =~= s);
            },
        }
    }
}

} // verus!

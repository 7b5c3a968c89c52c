//! Scrape statistics by info hash, in the order of the info hashes.

use vstd::prelude::*;

use crate::protocol::InfoHash;

verus! {

/// What a scrape tells of one torrent.
#[derive(Clone, Copy, Debug, PartialEq, Eq, Structural)]
pub struct ScrapeStatistics {
    pub complete: usize,
    pub incomplete: usize,
    pub downloaded: usize,
}

/// Whether `a` comes before `b` in lexicographic order.
pub open spec fn precedes(a: Seq<u8>, b: Seq<u8>) -> bool {
    exists|i: int| first_difference(a, b, i) && a[i] < b[i]
}

/// Whether `a` and `b` first differ at `i`.
pub open spec fn first_difference(a: Seq<u8>, b: Seq<u8>, i: int) -> bool {
    &&& 0 <= i < a.len()
    &&& i < b.len()
    &&& a[i] != b[i]
    &&& forall|j: int| 0 <= j < i ==> a[j] == b[j]
}

proof fn lemma_order_is_strict(a: Seq<u8>, b: Seq<u8>)
    requires
        precedes(a, b),
    ensures
        !precedes(b, a),
        a != b,
{
    let i = choose|i: int| first_difference(a, b, i) && a[i] < b[i];
    if precedes(b, a) {
        let j = choose|j: int| first_difference(b, a, j) && b[j] < a[j];
        assert(i == j) by {
            if i < j {
                assert(b[i] == a[i]);
            } else if j < i {
                assert(a[j] == b[j]);
            }
        }
    }
}

proof fn lemma_order_is_transitive(a: Seq<u8>, b: Seq<u8>, c: Seq<u8>)
    requires
        precedes(a, b),
        precedes(b, c),
    ensures
        precedes(a, c),
{
    let i = choose|i: int| first_difference(a, b, i) && a[i] < b[i];
    let j = choose|j: int| first_difference(b, c, j) && b[j] < c[j];
    let k = if i < j {
        i
    } else {
        j
    };
    assert(forall|m: int| 0 <= m < k ==> a[m] == b[m] && b[m] == c[m]);
    assert(first_difference(a, c, k) && a[k] < c[k]);
}

/// Whether the info hashes of `entries` ascend.
pub open spec fn ascending(entries: Seq<(Seq<u8>, ScrapeStatistics)>) -> bool {
    forall|i: int, j: int|
        0 <= i < j < entries.len() ==> precedes((#[trigger] entries[i]).0, (#[trigger] entries[j]).0)
}

/// Whether `entries` hold statistics at `hash`.
pub open spec fn lists(entries: Seq<(Seq<u8>, ScrapeStatistics)>, hash: Seq<u8>) -> bool {
    exists|i: int| 0 <= i < entries.len() && (#[trigger] entries[i]).0 == hash
}

/// The statistics of `entries` by info hash.
pub open spec fn by_hash(entries: Seq<(Seq<u8>, ScrapeStatistics)>) -> Map<
    Seq<u8>,
    ScrapeStatistics,
> {
    Map::new(
        |hash: Seq<u8>| lists(entries, hash),
        |hash: Seq<u8>|
            entries[choose|i: int| 0 <= i < entries.len() && (#[trigger] entries[i]).0 == hash].1,
    )
}

proof fn lemma_entry_is_listed(entries: Seq<(Seq<u8>, ScrapeStatistics)>, i: int)
    requires
        ascending(entries),
        0 <= i < entries.len(),
    ensures
        by_hash(entries).dom().contains(entries[i].0),
        by_hash(entries)[entries[i].0] == entries[i].1,
{
    let hash = entries[i].0;
    let k = choose|k: int| 0 <= k < entries.len() && (#[trigger] entries[k]).0 == hash;
    assert(lists(entries, hash));
    if k < i {
        lemma_order_is_strict(entries[k].0, entries[i].0);
    } else if i < k {
        lemma_order_is_strict(entries[i].0, entries[k].0);
    }
}

/// Scrape statistics by info hash.
#[derive(Debug, PartialEq, Eq)]
pub struct ScrapeFiles {
    entries: Vec<(InfoHash, ScrapeStatistics)>,
}

/// What a list of entries stands for.
pub open spec fn entry_views(entries: Seq<(InfoHash, ScrapeStatistics)>) -> Seq<
    (Seq<u8>, ScrapeStatistics),
> {
    entries.map_values(|entry: (InfoHash, ScrapeStatistics)| (entry.0@, entry.1))
}

impl View for ScrapeFiles {
    type V = Seq<(Seq<u8>, ScrapeStatistics)>;

    /// The entries, in the order of their info hashes.
    closed spec fn view(&self) -> Seq<(Seq<u8>, ScrapeStatistics)> {
        entry_views(self.entries@)
    }
}

enum Position {
    Before,
    Same,
    After,
}

/// Where `a` stands relative to `b`.
fn position_of(a: &InfoHash, b: &InfoHash) -> (result: Position)
    ensures
        match result {
            Position::Before => precedes(a@, b@),
            Position::Same => a@ == b@,
            Position::After => precedes(b@, a@),
        },
{
    let mut i: usize = 0;
    while i < 20
        invariant
            i <= 20,
            forall|j: int| 0 <= j < i ==> a@[j] == b@[j],
        decreases 20 - i,
    {
        if a.0[i] != b.0[i] {
            assert(first_difference(a@, b@, i as int));
            assert(first_difference(b@, a@, i as int));
            return if a.0[i] < b.0[i] {
                Position::Before
            } else {
                Position::After
            };
        }
        i = i + 1;
    }
    assert(a@ == b@);
    Position::Same
}

proof fn lemma_replacing_keeps_order(
    before: Seq<(Seq<u8>, ScrapeStatistics)>,
    i: int,
    statistics: ScrapeStatistics,
)
    requires
        ascending(before),
        0 <= i < before.len(),
    ensures
        ascending(before.update(i, (before[i].0, statistics))),
        by_hash(before.update(i, (before[i].0, statistics))) == by_hash(before).insert(
            before[i].0,
            statistics,
        ),
{
    let hash = before[i].0;
    let after = before.update(i, (hash, statistics));
    assert forall|j: int, k: int| 0 <= j < k < after.len() implies precedes(
        (#[trigger] after[j]).0,
        (#[trigger] after[k]).0,
    ) by {
        assert(after[j].0 == before[j].0 && after[k].0 == before[k].0);
    }
    lemma_entry_is_listed(after, i);
    assert forall|key: Seq<u8>| #[trigger] by_hash(after).dom().contains(key) == by_hash(
        before,
    ).insert(hash, statistics).dom().contains(key) && (by_hash(after).dom().contains(key)
        ==> by_hash(after)[key] == by_hash(before).insert(hash, statistics)[key]) by {
        if lists(after, key) {
            let j = choose|j: int| 0 <= j < after.len() && (#[trigger] after[j]).0 == key;
            lemma_entry_is_listed(after, j);
            lemma_entry_is_listed(before, j);
            assert(after[j].0 == before[j].0);
        }
        if lists(before, key) {
            let j = choose|j: int| 0 <= j < before.len() && (#[trigger] before[j]).0 == key;
            assert(after[j].0 == key);
        }
    }
    assert(by_hash(after) =~= by_hash(before).insert(hash, statistics));
}

proof fn lemma_inserting_keeps_order(
    before: Seq<(Seq<u8>, ScrapeStatistics)>,
    i: int,
    hash: Seq<u8>,
    statistics: ScrapeStatistics,
)
    requires
        ascending(before),
        0 <= i <= before.len(),
        forall|j: int| 0 <= j < i ==> precedes((#[trigger] before[j]).0, hash),
        i < before.len() ==> precedes(hash, before[i].0),
    ensures
        ascending(before.insert(i, (hash, statistics))),
        by_hash(before.insert(i, (hash, statistics))) == by_hash(before).insert(hash, statistics),
{
    let after = before.insert(i, (hash, statistics));
    assert forall|j: int| i <= j < before.len() implies precedes(
        hash,
        (#[trigger] before[j]).0,
    ) by {
        if i < j {
            lemma_order_is_transitive(hash, before[i].0, before[j].0);
        }
    }
    assert forall|j: int, k: int| 0 <= j < k < after.len() implies precedes(
        (#[trigger] after[j]).0,
        (#[trigger] after[k]).0,
    ) by {
        if k < i {
            assert(after[j] == before[j] && after[k] == before[k]);
        } else if k == i {
            assert(after[j] == before[j]);
        } else if j < i {
            assert(after[j] == before[j] && after[k] == before[k - 1]);
        } else if j == i {
            assert(after[k] == before[k - 1]);
        } else {
            assert(after[j] == before[j - 1] && after[k] == before[k - 1]);
        }
    }
    lemma_entry_is_listed(after, i);
    assert forall|key: Seq<u8>| #[trigger] by_hash(after).dom().contains(key) == by_hash(
        before,
    ).insert(hash, statistics).dom().contains(key) && (by_hash(after).dom().contains(key)
        ==> by_hash(after)[key] == by_hash(before).insert(hash, statistics)[key]) by {
        if lists(after, key) {
            let j = choose|j: int| 0 <= j < after.len() && (#[trigger] after[j]).0 == key;
            lemma_entry_is_listed(after, j);
            if j < i {
                assert(after[j] == before[j]);
                lemma_entry_is_listed(before, j);
                lemma_order_is_strict(before[j].0, hash);
            } else if j > i {
                assert(after[j] == before[j - 1]);
                lemma_entry_is_listed(before, j - 1);
                lemma_order_is_strict(hash, before[j - 1].0);
            }
        }
        if lists(before, key) {
            let j = choose|j: int| 0 <= j < before.len() && (#[trigger] before[j]).0 == key;
            if j < i {
                assert(after[j].0 == key);
            } else {
                assert(after[j + 1].0 == key);
            }
        }
    }
    assert(by_hash(after) =~= by_hash(before).insert(hash, statistics));
}

fn insert_entry(
    entries: &mut Vec<(InfoHash, ScrapeStatistics)>,
    hash: InfoHash,
    statistics: ScrapeStatistics,
)
    requires
        ascending(entry_views(old(entries)@)),
    ensures
        ascending(entry_views(final(entries)@)),
        by_hash(entry_views(final(entries)@)) == by_hash(entry_views(old(entries)@)).insert(
            hash@,
            statistics,
        ),
{
    let ghost before = entry_views(entries@);
    let mut i: usize = 0;
    while i < entries.len()
        invariant
            entries@ == old(entries)@,
            before == entry_views(entries@),
            ascending(before),
            i <= entries.len(),
            forall|j: int| 0 <= j < i ==> precedes((#[trigger] before[j]).0, hash@),
        ensures
            i < before.len() ==> precedes(hash@, before[i as int].0),
        decreases entries.len() - i,
    {
        let entry = entries[i];
        assert(before[i as int].0 == entry.0@);
        match position_of(&entry.0, &hash) {
            Position::Before => {
                i = i + 1;
            },
            Position::Same => {
                entries.set(i, (hash, statistics));
                proof {
                    lemma_replacing_keeps_order(before, i as int, statistics);
                    assert(entry_views(entries@) == before.update(
                        i as int,
                        (before[i as int].0, statistics),
                    ));
                }
                return;
            },
            Position::After => {
                break;
            },
        }
    }
    entries.insert(i, (hash, statistics));
    proof {
        lemma_inserting_keeps_order(before, i as int, hash@, statistics);
        assert(entry_views(entries@) == before.insert(i as int, (hash@, statistics)));
    }
}

impl ScrapeFiles {
    #[verifier::type_invariant]
    spec fn ordered(self) -> bool {
        ascending(self@)
    }

    pub fn new() -> (files: Self)
        ensures
            files@ == Seq::<(Seq<u8>, ScrapeStatistics)>::empty(),
    {
        let files = ScrapeFiles { entries: Vec::new() };
        assert(files@ == Seq::<(Seq<u8>, ScrapeStatistics)>::empty());
        files
    }

    pub fn len(&self) -> (result: usize)
        ensures
            result == self@.len(),
    {
        self.entries.len()
    }

    /// The entries, in the order of their info hashes.
    pub fn entries(&self) -> (entries: &Vec<(InfoHash, ScrapeStatistics)>)
        ensures
            entry_views(entries@) == self@,
            ascending(self@),
    {
        proof {
            use_type_invariant(self);
        }
        &self.entries
    }

    /// The entry at `index` in the order of the info hashes.
    pub fn get(&self, index: usize) -> (entry: (InfoHash, ScrapeStatistics))
        requires
            index < self@.len(),
        ensures
            (entry.0@, entry.1) == self@[index as int],
            ascending(self@),
    {
        proof {
            use_type_invariant(self);
        }
        self.entries[index]
    }

    /// Sets the statistics of one torrent.
    pub fn insert(&mut self, hash: InfoHash, statistics: ScrapeStatistics)
        ensures
            by_hash(final(self)@) == by_hash(old(self)@).insert(hash@, statistics),
            ascending(final(self)@),
    {
        proof {
            use_type_invariant(&*self);
        }
        let mut entries: Vec<(InfoHash, ScrapeStatistics)> = Vec::new();
        std::mem::swap(&mut entries, &mut self.entries);
        insert_entry(&mut entries, hash, statistics);
        self.entries = entries;
    }

    /// Sets the statistics of the torrents in `other`.
    pub fn extend(&mut self, other: &ScrapeFiles)
        ensures
            by_hash(final(self)@) == by_hash(old(self)@).union_prefer_right(by_hash(other@)),
            ascending(final(self)@),
    {
        proof {
            use_type_invariant(&*self);
            use_type_invariant(other);
        }
        let mut i: usize = 0;
        proof {
            assert(by_hash(other@.take(0)) =~= Map::<Seq<u8>, ScrapeStatistics>::empty());
            assert(by_hash(self@).union_prefer_right(by_hash(other@.take(0))) =~= by_hash(self@));
        }
        while i < other.len()
            invariant
                ascending(other@),
                ascending(self@),
                i <= other@.len(),
                by_hash(self@) == by_hash(old(self)@).union_prefer_right(
                    by_hash(other@.take(i as int)),
                ),
            decreases other@.len() - i,
        {
            let (hash, statistics) = other.get(i);
            proof {
                let before = other@.take(i as int);
                assert(ascending(before));
                lemma_inserting_keeps_order(before, i as int, hash@, statistics);
                assert(before.insert(i as int, (hash@, statistics)) == other@.take(i + 1));
                assert(by_hash(old(self)@).union_prefer_right(by_hash(before)).insert(
                    hash@,
                    statistics,
                ) =~= by_hash(old(self)@).union_prefer_right(
                    by_hash(before).insert(hash@, statistics),
                ));
            }
            self.insert(hash, statistics);
            i = i + 1;
        }
        assert(other@.take(i as int) == other@);
    }
}

proof fn lemma_dropping_the_last_entry(entries: Seq<(Seq<u8>, ScrapeStatistics)>)
    requires
        ascending(entries),
        entries.len() > 0,
    ensures
        ascending(entries.drop_last()),
        by_hash(entries.drop_last()) == by_hash(entries).remove(entries.last().0),
{
    let rest = entries.drop_last();
    let last = entries.last();
    assert(ascending(rest));
    lemma_inserting_keeps_order(rest, rest.len() as int, last.0, last.1);
    assert(rest.insert(rest.len() as int, last) == entries);
    assert(!lists(rest, last.0)) by {
        if lists(rest, last.0) {
            let i = choose|i: int| 0 <= i < rest.len() && (#[trigger] rest[i]).0 == last.0;
            assert(entries[i] == rest[i]);
            lemma_order_is_strict(entries[i].0, entries[entries.len() - 1].0);
        }
    }
    assert(by_hash(rest) =~= by_hash(entries).remove(last.0));
}

/// In no entries there are no statistics.
pub proof fn nothing_is_found_in_no_entries()
    ensures
        by_hash(Seq::empty()) == Map::<Seq<u8>, ScrapeStatistics>::empty(),
{
    assert(by_hash(Seq::empty()) =~= Map::<Seq<u8>, ScrapeStatistics>::empty());
}

/// The statistics of a torrent are those in its entry, and a torrent without an entry
/// has none.
pub proof fn statistics_are_those_of_the_entries(
    entries: Seq<(Seq<u8>, ScrapeStatistics)>,
    hash: Seq<u8>,
)
    requires
        ascending(entries),
    ensures
        forall|i: int|
            0 <= i < entries.len() ==> by_hash(entries).contains_key((#[trigger] entries[i]).0)
                && by_hash(entries)[entries[i].0] == entries[i].1,
        by_hash(entries).contains_key(hash) ==> exists|i: int|
            0 <= i < entries.len() && (#[trigger] entries[i]).0 == hash,
{
    assert forall|i: int| 0 <= i < entries.len() implies by_hash(entries).contains_key(
        (#[trigger] entries[i]).0,
    ) && by_hash(entries)[entries[i].0] == entries[i].1 by {
        lemma_entry_is_listed(entries, i);
    }
}

/// Of two info hashes the one with the lower byte at the first place where they differ
/// comes first; of two that do not differ neither does.
pub proof fn first_difference_decides_on_the_order(
    same: Seq<u8>,
    low: u8,
    high: u8,
    a: Seq<u8>,
    b: Seq<u8>,
)
    requires
        low < high,
    ensures
        precedes(same.push(low) + a, same.push(high) + b),
        !precedes(same.push(high) + b, same.push(low) + a),
        !precedes(a, a),
{
    let first = same.push(low) + a;
    let second = same.push(high) + b;
    assert(first_difference(first, second, same.len() as int));
    lemma_order_is_strict(first, second);
}

/// The statistics determine the entries: two lists in the order of their info
/// hashes that give the same statistics are the same list.
pub proof fn statistics_determine_entries(
    a: Seq<(Seq<u8>, ScrapeStatistics)>,
    b: Seq<(Seq<u8>, ScrapeStatistics)>,
)
    requires
        ascending(a),
        ascending(b),
        by_hash(a) == by_hash(b),
    ensures
        a == b,
    decreases a.len(),
{
    if a.len() == 0 {
        if b.len() > 0 {
            lemma_entry_is_listed(b, 0);
            assert(lists(a, b[0].0));
        }
        assert(a == b);
    } else {
        lemma_entry_is_listed(a, a.len() - 1);
        assert(lists(b, a.last().0));
        lemma_entry_is_listed(b, b.len() - 1);
        assert(lists(a, b.last().0));
        let j = choose|j: int| 0 <= j < b.len() && (#[trigger] b[j]).0 == a.last().0;
        let i = choose|i: int| 0 <= i < a.len() && (#[trigger] a[i]).0 == b.last().0;
        if a.last().0 != b.last().0 {
            assert(precedes(b[j].0, b[b.len() - 1].0));
            assert(precedes(a[i].0, a[a.len() - 1].0));
            lemma_order_is_strict(a.last().0, b.last().0);
        }
        lemma_dropping_the_last_entry(a);
        lemma_dropping_the_last_entry(b);
        statistics_determine_entries(a.drop_last(), b.drop_last());
        assert(a == a.drop_last().push(a.last()));
        assert(b == b.drop_last().push(b.last()));
    }
}

} // verus!

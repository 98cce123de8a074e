use vstd::prelude::*;

verus! {

/// What a player record is, mathematically.
pub struct PlayerView {
    pub name: Seq<char>,
    pub score: i16,
    pub last_attempt: i64,
}

/// The persisted state of one player in one chat.
pub struct PlayerRecord {
    /// Display name, as it was when the player first played.
    pub name: String,
    /// Current score.
    pub score: i16,
    /// Time of the last successful attempt, in seconds since the epoch.
    pub last_attempt: i64,
}

impl View for PlayerRecord {
    type V = PlayerView;

    open spec fn view(&self) -> PlayerView {
        PlayerView { name: self.name@, score: self.score, last_attempt: self.last_attempt }
    }
}

impl PlayerRecord {
    pub fn new(name: String, score: i16, last_attempt: i64) -> (r: PlayerRecord)
        ensures
            r@ == (PlayerView { name: name@, score, last_attempt }),
    {
        PlayerRecord { name, score, last_attempt }
    }
}

/// The entries of a store: user id and record, in the order users joined.
pub type Entries = Seq<(i64, PlayerView)>;

/// No user id occurs twice.
pub open spec fn ids_unique(s: Entries) -> bool {
    forall|i: int, j: int| 0 <= i < j < s.len() ==> s[i].0 != s[j].0
}

pub open spec fn has_id(s: Entries, id: i64) -> bool {
    exists|i: int| 0 <= i < s.len() && s[i].0 == id
}

/// The position of `id` in `s`, or -1.
pub open spec fn position_of(s: Entries, id: i64) -> int
    decreases s.len(),
{
    if s.len() == 0 {
        -1
    } else if s.last().0 == id {
        s.len() - 1
    } else {
        position_of(s.drop_last(), id)
    }
}

/// The record of `id` in `s`, if any.
pub open spec fn lookup(s: Entries, id: i64) -> Option<PlayerView> {
    let p = position_of(s, id);
    if p >= 0 {
        Some(s[p].1)
    } else {
        None
    }
}

/// `s` with the record of `id` replaced in place, or appended when `id` is new.
pub open spec fn upsert(s: Entries, id: i64, r: PlayerView) -> Entries {
    let p = position_of(s, id);
    if p >= 0 {
        s.update(p, (id, r))
    } else {
        s.push((id, r))
    }
}

pub proof fn lemma_position_of(s: Entries, id: i64)
    ensures
        -1 <= position_of(s, id) < s.len(),
        position_of(s, id) >= 0 ==> s[position_of(s, id)].0 == id,
        position_of(s, id) >= 0 <==> has_id(s, id),
        ids_unique(s) ==> forall|i: int| 0 <= i < s.len() && s[i].0 == id ==> position_of(s, id) == i,
    decreases s.len(),
{
    if s.len() > 0 {
        lemma_position_of(s.drop_last(), id);
        if s.last().0 != id {
            if has_id(s, id) {
                let i = choose|i: int| 0 <= i < s.len() && s[i].0 == id;
                assert(s.drop_last()[i].0 == id);
            }
        }
    }
}

pub proof fn lemma_upsert(s: Entries, id: i64, r: PlayerView)
    requires
        ids_unique(s),
    ensures
        ids_unique(upsert(s, id, r)),
        lookup(upsert(s, id, r), id) == Some(r),
        forall|other: i64| other != id ==> lookup(upsert(s, id, r), other) == lookup(s, other),
        upsert(s, id, r).len() == s.len() + if has_id(s, id) { 0int } else { 1int },
{
    lemma_position_of(s, id);
    let u = upsert(s, id, r);
    assert(ids_unique(u));
    lemma_position_of(u, id);
    assert(u[position_of(s, id)].0 == id || position_of(s, id) < 0);
    if position_of(s, id) < 0 {
        assert(u[s.len() as int].0 == id);
    }
    assert forall|other: i64| other != id implies lookup(u, other) == lookup(s, other) by {
        lemma_position_of(s, other);
        lemma_position_of(u, other);
        if position_of(s, other) >= 0 {
            assert(u[position_of(s, other)].0 == other);
        }
    }
}

/// A store flattened to rows of user id, name, score and time of last attempt,
/// the shape it has at rest.
pub type Row = (i64, String, i16, i64);

pub type RowsView = Seq<(i64, Seq<char>, i16, i64)>;

pub open spec fn rows_view(v: Seq<Row>) -> RowsView {
    v.map_values(|r: Row| (r.0, r.1@, r.2, r.3))
}

pub open spec fn rows_of(s: Entries) -> RowsView {
    s.map_values(|e: (i64, PlayerView)| (e.0, e.1.name, e.1.score, e.1.last_attempt))
}

/// The entries that inserting the rows in order gives: a later row for a user
/// replaces an earlier one.
pub open spec fn from_rows(rows: RowsView) -> Entries
    decreases rows.len(),
{
    if rows.len() == 0 {
        Seq::empty()
    } else {
        let r = rows.last();
        upsert(from_rows(rows.drop_last()), r.0, PlayerView { name: r.1, score: r.2, last_attempt: r.3 })
    }
}

pub proof fn lemma_from_rows_unique(rows: RowsView)
    ensures
        ids_unique(from_rows(rows)),
    decreases rows.len(),
{
    if rows.len() > 0 {
        let r = rows.last();
        lemma_from_rows_unique(rows.drop_last());
        lemma_upsert(from_rows(rows.drop_last()), r.0, PlayerView { name: r.1, score: r.2, last_attempt: r.3 });
    }
}

/// Flattening a store with unique ids and inserting the rows again gives the
/// same entries in the same order.
pub proof fn lemma_rows_round_trip(s: Entries)
    requires
        ids_unique(s),
    ensures
        from_rows(rows_of(s)) == s,
    decreases s.len(),
{
    if s.len() > 0 {
        let d = s.drop_last();
        assert(rows_of(s).drop_last() =~= rows_of(d));
        assert(ids_unique(d));
        lemma_rows_round_trip(d);
        lemma_position_of(d, s.last().0);
        assert(!has_id(d, s.last().0)) by {
            if has_id(d, s.last().0) {
                let i = choose|i: int| 0 <= i < d.len() && d[i].0 == s.last().0;
                assert(s[i].0 == s[s.len() - 1].0);
            }
        }
        assert(from_rows(rows_of(s)) =~= s);
    }
}

/// The records of one chat, keyed by user id.
pub struct ScopeStore {
    entries: Vec<(i64, PlayerRecord)>,
}

impl View for ScopeStore {
    type V = Entries;

    closed spec fn view(&self) -> Entries {
        self.entries@.map_values(|e: (i64, PlayerRecord)| (e.0, e.1@))
    }
}

impl ScopeStore {
    /// The store's own invariant: user ids are unique.
    pub open spec fn wf(&self) -> bool {
        ids_unique(self@)
    }

    /// An empty store.
    pub fn new() -> (s: ScopeStore)
        ensures
            s.wf(),
            s@ == Seq::<(i64, PlayerView)>::empty(),
    {
        let s = ScopeStore { entries: Vec::new() };
        assert(s@ =~= Seq::<(i64, PlayerView)>::empty());
        s
    }

    pub fn len(&self) -> (n: usize)
        ensures
            n == self@.len(),
    {
        self.entries.len()
    }

    pub fn is_empty(&self) -> (b: bool)
        ensures
            b == (self@.len() == 0),
    {
        self.entries.len() == 0
    }

    /// The user id and record at position `i`.
    pub fn entry_at(&self, i: usize) -> (r: (i64, &PlayerRecord))
        requires
            i < self@.len(),
        ensures
            r.0 == self@[i as int].0,
            r.1@ == self@[i as int].1,
    {
        let e = &self.entries[i];
        (e.0, &e.1)
    }

    /// The position of `user_id`, if it has a record.
    pub fn find(&self, user_id: i64) -> (r: Option<usize>)
        requires
            self.wf(),
        ensures
            match r {
                Some(i) => i < self@.len() && i == position_of(self@, user_id),
                None => position_of(self@, user_id) < 0,
            },
    {
        proof {
            lemma_position_of(self@, user_id);
        }
        assert(self@.len() == self.entries@.len());
        let mut i: usize = 0;
        while i < self.entries.len()
            invariant
                i <= self.entries@.len(),
                self.wf(),
                forall|k: int| 0 <= k < i ==> self@[k].0 != user_id,
                self@.len() == self.entries@.len(),
            decreases self.entries@.len() - i,
        {
            if self.entries[i].0 == user_id {
                assert(self@[i as int].0 == user_id);
                proof {
                    lemma_position_of(self@, user_id);
                }
                return Some(i);
            }
            i = i + 1;
        }
        None
    }

    /// The record of `user_id`, if any.
    pub fn get(&self, user_id: i64) -> (r: Option<&PlayerRecord>)
        requires
            self.wf(),
        ensures
            match r {
                Some(rec) => lookup(self@, user_id) == Some(rec@),
                None => lookup(self@, user_id) is None,
            },
    {
        match self.find(user_id) {
            Some(i) => Some(&self.entries[i].1),
            None => None,
        }
    }

    /// Replaces the record of `user_id` in place, or appends it when the user is new.
    pub fn upsert(&mut self, user_id: i64, record: PlayerRecord)
        requires
            old(self).wf(),
        ensures
            final(self).wf(),
            final(self)@ == upsert(old(self)@, user_id, record@),
    {
        proof {
            lemma_upsert(self@, user_id, record@);
        }
        assert(self@.len() == self.entries@.len());
        match self.find(user_id) {
            Some(i) => {
                self.entries.set(i, (user_id, record));
            },
            None => {
                self.entries.push((user_id, record));
            },
        }
        assert(self@ =~= upsert(old(self)@, user_id, record@)) by {
            lemma_position_of(old(self)@, user_id);
        }
    }

    /// The store as rows, in order.
    pub fn to_rows(&self) -> (rows: Vec<Row>)
        ensures
            rows_view(rows@) == rows_of(self@),
    {
        let n = self.entries.len();
        let mut rows: Vec<Row> = Vec::new();
        let mut i: usize = 0;
        while i < n
            invariant
                n == self.entries@.len(),
                i <= n,
                rows_view(rows@) == rows_of(self@).subrange(0, i as int),
                self@.len() == n,
            decreases n - i,
        {
            let e = &self.entries[i];
            assert(self@[i as int] == (e.0, e.1@));
            assert(rows_of(self@)[i as int] == (e.0, e.1.name@, e.1.score, e.1.last_attempt));
            let name = e.1.name.clone();
            let ghost before = rows@;
            rows.push((e.0, name, e.1.score, e.1.last_attempt));
            assert(rows_view(rows@).drop_last() =~= rows_view(before));
            assert(rows_view(rows@)[i as int] == (e.0, e.1.name@, e.1.score, e.1.last_attempt));
            assert(rows_view(rows@) =~= rows_of(self@).subrange(0, i as int + 1));
            i = i + 1;
        }
        assert(rows_of(self@).subrange(0, n as int) =~= rows_of(self@));
        rows
    }

    /// The store that inserting the rows in order gives.
    pub fn from_rows(rows: Vec<Row>) -> (s: ScopeStore)
        ensures
            s.wf(),
            s@ == from_rows(rows_view(rows@)),
    {
        let mut s = ScopeStore::new();
        let ghost all = rows_view(rows@);
        let n = rows.len();
        let mut i: usize = 0;
        while i < n
            invariant
                n == all.len() == rows@.len(),
                all == rows_view(rows@),
                i <= n,
                s.wf(),
                s@ == from_rows(all.subrange(0, i as int)),
            decreases n - i,
        {
            let r = &rows[i];
            proof {
                assert(all.subrange(0, i as int + 1).drop_last() =~= all.subrange(0, i as int));
            }
            s.upsert(r.0, PlayerRecord { name: r.1.clone(), score: r.2, last_attempt: r.3 });
            i = i + 1;
        }
        assert(all.subrange(0, n as int) =~= all);
        s
    }
}

} // verus!

use vstd::prelude::*;

verus! {

/// How many events `counts` records for `room`; a room never seen counts zero.
pub open spec fn count_in(counts: Map<Seq<char>, nat>, room: Seq<char>) -> nat {
    if counts.contains_key(room) {
        counts[room]
    } else {
        0
    }
}

/// The counts after one increment of `room`.
pub open spec fn bumped(counts: Map<Seq<char>, nat>, room: Seq<char>) -> Map<Seq<char>, nat> {
    counts.insert(room, count_in(counts, room) + 1)
}

/// The counts after incrementing each room of `rooms`, in order.
pub open spec fn bumped_all(counts: Map<Seq<char>, nat>, rooms: Seq<Seq<char>>) -> Map<
    Seq<char>,
    nat,
>
    decreases rooms.len(),
{
    if rooms.len() == 0 {
        counts
    } else {
        bumped_all(bumped(counts, rooms[0]), rooms.drop_first())
    }
}

/// How many times `room` occurs in `rooms`.
pub open spec fn occurrences(rooms: Seq<Seq<char>>, room: Seq<char>) -> nat
    decreases rooms.len(),
{
    if rooms.len() == 0 {
        0
    } else {
        (if rooms[0] == room {
            1nat
        } else {
            0nat
        }) + occurrences(rooms.drop_first(), room)
    }
}

/// An increment of one room leaves the count of every other room as it was.
pub proof fn lemma_increment_leaves_other_rooms(
    counts: Map<Seq<char>, nat>,
    room: Seq<char>,
    other: Seq<char>,
)
    requires
        room != other,
    ensures
        count_in(bumped(counts, room), other) == count_in(counts, other),
{
}

/// No increment is lost: whatever order the increments of several rooms are
/// applied in, each room ends with its count raised by exactly the number of
/// increments made on it, and a room with none keeps its count.
pub proof fn lemma_increments_are_counted(
    counts: Map<Seq<char>, nat>,
    rooms: Seq<Seq<char>>,
    room: Seq<char>,
)
    ensures
        count_in(bumped_all(counts, rooms), room) == count_in(counts, room) + occurrences(
            rooms,
            room,
        ),
    decreases rooms.len(),
{
    if rooms.len() > 0 {
        lemma_increments_are_counted(bumped(counts, rooms[0]), rooms.drop_first(), room);
    }
}

/// `n` increments of one room, starting from a store that has not seen it,
/// leave that room's count at exactly `n`.
pub proof fn lemma_repeated_increments_count_n(
    counts: Map<Seq<char>, nat>,
    rooms: Seq<Seq<char>>,
    room: Seq<char>,
)
    requires
        !counts.contains_key(room),
        forall|i: int| 0 <= i < rooms.len() ==> rooms[i] == room,
    ensures
        count_in(bumped_all(counts, rooms), room) == rooms.len(),
{
    lemma_increments_are_counted(counts, rooms, room);
    lemma_occurrences_of_repeated(rooms, room);
}

proof fn lemma_occurrences_of_repeated(rooms: Seq<Seq<char>>, room: Seq<char>)
    requires
        forall|i: int| 0 <= i < rooms.len() ==> rooms[i] == room,
    ensures
        occurrences(rooms, room) == rooms.len(),
    decreases rooms.len(),
{
    if rooms.len() > 0 {
        let rest = rooms.drop_first();
        assert forall|i: int| 0 <= i < rest.len() implies rest[i] == room by {
            assert(rest[i] == rooms[i + 1]);
        }
        lemma_occurrences_of_repeated(rest, room);
    }
}

/// A per-room counter store.
///
/// The rooms are kept in `rooms`, each at most once, and the count of
/// `rooms[i]` is `tallies[i]`. `counts` is the mapping they stand for.
pub struct CounterStore {
    rooms: Vec<String>,
    tallies: Vec<u64>,
    counts: Ghost<Map<Seq<char>, nat>>,
}

impl View for CounterStore {
    type V = Map<Seq<char>, nat>;

    closed spec fn view(&self) -> Map<Seq<char>, nat> {
        self.counts@
    }
}

impl CounterStore {
    /// The store's invariant: rooms are unique, and each room's tally is
    /// what the mapping holds for it, which holds no other room.
    pub closed spec fn wf(&self) -> bool {
        &&& self.rooms@.len() == self.tallies@.len()
        &&& forall|i: int, j: int|
            0 <= i < j < self.rooms@.len() ==> self.rooms@[i]@ != self.rooms@[j]@
        &&& forall|i: int|
            0 <= i < self.rooms@.len() ==> {
                &&& #[trigger] self.counts@.contains_key(self.rooms@[i]@)
                &&& self.counts@[self.rooms@[i]@] == self.tallies@[i] as nat
            }
        &&& forall|k: Seq<char>|
            #[trigger] self.counts@.contains_key(k) ==> exists|i: int|
                0 <= i < self.rooms@.len() && self.rooms@[i]@ == k
    }

    /// An empty store.
    pub fn new() -> (s: CounterStore)
        ensures
            s.wf(),
            s@ == Map::<Seq<char>, nat>::empty(),
    {
        CounterStore { rooms: Vec::new(), tallies: Vec::new(), counts: Ghost(Map::empty()) }
    }

    /// Where `room` stands in `rooms`, if it is there.
    fn position(&self, room: &String) -> (r: Option<usize>)
        requires
            self.wf(),
        ensures
            match r {
                Some(i) => i < self.rooms@.len() && self.rooms@[i as int]@ == room@,
                None => !self@.contains_key(room@),
            },
    {
        let mut i: usize = 0;
        while i < self.rooms.len()
            invariant
                self.wf(),
                i <= self.rooms@.len(),
                forall|j: int| 0 <= j < i ==> self.rooms@[j]@ != room@,
            decreases self.rooms@.len() - i,
        {
            if self.rooms[i] == *room {
                return Some(i);
            }
            i = i + 1;
        }
        None
    }

    /// The count for `room`: zero for a room never incremented.
    pub fn count(&self, room: &String) -> (r: u64)
        requires
            self.wf(),
        ensures
            r as nat == count_in(self@, room@),
    {
        match self.position(room) {
            Some(i) => self.tallies[i],
            None => 0,
        }
    }

    /// Adds one to the count for `room`, which starts from zero when the room
    /// is new, and returns the new count.
    pub fn increment(&mut self, room: &String) -> (r: u64)
        requires
            old(self).wf(),
            count_in(old(self)@, room@) < u64::MAX,
        ensures
            final(self).wf(),
            final(self)@ == bumped(old(self)@, room@),
            r as nat == count_in(old(self)@, room@) + 1,
            r as nat == count_in(final(self)@, room@),
            !old(self)@.contains_key(room@) ==> r == 1,
    {
        match self.position(room) {
            Some(i) => {
                let c = self.tallies[i] + 1;
                self.tallies.set(i, c);
                self.counts = Ghost(self.counts@.insert(room@, c as nat));
                assert forall|k: Seq<char>| #[trigger] self.counts@.contains_key(k) implies exists|j: int|
                    0 <= j < self.rooms@.len() && self.rooms@[j]@ == k by {
                    if k != room@ {
                        assert(old(self).counts@.contains_key(k));
                        let j = choose|j: int|
                            0 <= j < old(self).rooms@.len() && old(self).rooms@[j]@ == k;
                        assert(self.rooms@[j]@ == k);
                    } else {
                        assert(self.rooms@[i as int]@ == k);
                    }
                }
                assert forall|j: int| 0 <= j < self.rooms@.len() implies {
                    &&& #[trigger] self.counts@.contains_key(self.rooms@[j]@)
                    &&& self.counts@[self.rooms@[j]@] == self.tallies@[j] as nat
                } by {
                    if j != i {
                        assert(old(self).counts@.contains_key(old(self).rooms@[j]@));
                    }
                }
                c
            },
            None => {
                let ghost n = self.rooms@.len();
                self.rooms.push(room.clone());
                self.tallies.push(1);
                self.counts = Ghost(self.counts@.insert(room@, 1));
                assert(self.rooms@[n as int]@ == room@);
                assert forall|k: Seq<char>| #[trigger] self.counts@.contains_key(k) implies exists|j: int|
                    0 <= j < self.rooms@.len() && self.rooms@[j]@ == k by {
                    if k != room@ {
                        assert(old(self).counts@.contains_key(k));
                        let j = choose|j: int|
                            0 <= j < old(self).rooms@.len() && old(self).rooms@[j]@ == k;
                        assert(self.rooms@[j]@ == k);
                    }
                }
                1
            },
        }
    }
}

} // verus!

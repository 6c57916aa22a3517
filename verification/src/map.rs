//! Automap: the world graph of rooms the player has seen, with exits between
//! them and grid coordinates inferred from movement.
//!
//! Rooms come from GMCP `Room.Info` messages or, for servers without GMCP,
//! from lines such as `"Exits: north, east"` in the text stream.
use vstd::prelude::*;

use crate::text::{chars_of, str_eq, string_of, trim_vec, ascii_lower_vec, ascii_lower_seq, trim};

verus! {

/// One of the six directions supported by the automap.
///
/// `North` is `y - 1`, `South` is `y + 1`, `East` is `x + 1`, `West` is
/// `x - 1`, `Up` is `z + 1` and `Down` is `z - 1`.
#[derive(Debug, Clone, Copy, PartialEq, Eq, Structural, Hash)]
pub enum Direction {
    North,
    South,
    East,
    West,
    Up,
    Down,
}

/// The direction a player token or server token names, if any: a full name
/// or its first letter, in any ASCII case, surrounding white space ignored.
pub open spec fn spec_parse_direction(s: Seq<char>) -> Option<Direction> {
    let t = ascii_lower_seq(trim(s));
    if t == "n"@ || t == "north"@ {
        Some(Direction::North)
    } else if t == "s"@ || t == "south"@ {
        Some(Direction::South)
    } else if t == "e"@ || t == "east"@ {
        Some(Direction::East)
    } else if t == "w"@ || t == "west"@ {
        Some(Direction::West)
    } else if t == "u"@ || t == "up"@ {
        Some(Direction::Up)
    } else if t == "d"@ || t == "down"@ {
        Some(Direction::Down)
    } else {
        None
    }
}

/// Lower-case English name of a direction.
pub open spec fn spec_dir_name(d: Direction) -> Seq<char> {
    match d {
        Direction::North => "north"@,
        Direction::South => "south"@,
        Direction::East => "east"@,
        Direction::West => "west"@,
        Direction::Up => "up"@,
        Direction::Down => "down"@,
    }
}

/// The opposite direction.
pub open spec fn spec_opposite(d: Direction) -> Direction {
    match d {
        Direction::North => Direction::South,
        Direction::South => Direction::North,
        Direction::East => Direction::West,
        Direction::West => Direction::East,
        Direction::Up => Direction::Down,
        Direction::Down => Direction::Up,
    }
}

/// The unit step `(dx, dy, dz)` of a direction.
pub open spec fn spec_delta(d: Direction) -> (i32, i32, i32) {
    match d {
        Direction::North => (0i32, -1i32, 0i32),
        Direction::South => (0i32, 1i32, 0i32),
        Direction::East => (1i32, 0i32, 0i32),
        Direction::West => (-1i32, 0i32, 0i32),
        Direction::Up => (0i32, 0i32, 1i32),
        Direction::Down => (0i32, 0i32, -1i32),
    }
}

fn lit_eq(v: &Vec<char>, lit: &str) -> (r: bool)
    ensures
        r == (v@ == lit@),
{
    let l = chars_of(lit);
    crate::text::chars_eq(v, &l)
}

impl Direction {
    /// Parse a direction from a token sent by the player or the server.
    pub fn parse(s: &str) -> (r: Option<Direction>)
        ensures
            r == spec_parse_direction(s@),
    {
        let v = chars_of(s);
        let t0 = trim_vec(&v);
        let t = ascii_lower_vec(&t0);
        if lit_eq(&t, "n") || lit_eq(&t, "north") {
            Some(Direction::North)
        } else if lit_eq(&t, "s") || lit_eq(&t, "south") {
            Some(Direction::South)
        } else if lit_eq(&t, "e") || lit_eq(&t, "east") {
            Some(Direction::East)
        } else if lit_eq(&t, "w") || lit_eq(&t, "west") {
            Some(Direction::West)
        } else if lit_eq(&t, "u") || lit_eq(&t, "up") {
            Some(Direction::Up)
        } else if lit_eq(&t, "d") || lit_eq(&t, "down") {
            Some(Direction::Down)
        } else {
            None
        }
    }

    /// The lower-case English name of the direction (e.g. `"north"`).
    pub fn as_str(self) -> (s: &'static str)
        ensures
            s@ == spec_dir_name(self),
    {
        match self {
            Direction::North => "north",
            Direction::South => "south",
            Direction::East => "east",
            Direction::West => "west",
            Direction::Up => "up",
            Direction::Down => "down",
        }
    }

    /// The logically opposite direction (`North` ↔ `South`, etc.).
    pub fn opposite(self) -> (d: Direction)
        ensures
            d == spec_opposite(self),
    {
        match self {
            Direction::North => Direction::South,
            Direction::South => Direction::North,
            Direction::East => Direction::West,
            Direction::West => Direction::East,
            Direction::Up => Direction::Down,
            Direction::Down => Direction::Up,
        }
    }

    /// The unit vector `(dx, dy, dz)` of a step in this direction.
    pub fn delta(self) -> (r: (i32, i32, i32))
        ensures
            r == spec_delta(self),
    {
        match self {
            Direction::North => (0, -1, 0),
            Direction::South => (0, 1, 0),
            Direction::East => (1, 0, 0),
            Direction::West => (-1, 0, 0),
            Direction::Up => (0, 0, 1),
            Direction::Down => (0, 0, -1),
        }
    }
}

/// Turning around twice faces the original direction.
pub proof fn law_opposite_involutive(d: Direction)
    ensures
        spec_opposite(spec_opposite(d)) == d,
        spec_opposite(d) != d,
{
}

/// A step and a step in the opposite direction cancel out, and every step
/// moves along exactly one axis by one.
pub proof fn law_delta_opposite_cancels(d: Direction)
    ensures
        spec_delta(d).0 + spec_delta(spec_opposite(d)).0 == 0,
        spec_delta(d).1 + spec_delta(spec_opposite(d)).1 == 0,
        spec_delta(d).2 + spec_delta(spec_opposite(d)).2 == 0,
        abs(spec_delta(d).0 as int) + abs(spec_delta(d).1 as int) + abs(spec_delta(d).2 as int) == 1,
{
}

/// Absolute value.
pub open spec fn abs(x: int) -> int {
    if x < 0 { -x } else { x }
}

/// A direction's own name parses back to that direction.
pub proof fn law_parse_name(d: Direction)
    ensures
        spec_parse_direction(spec_dir_name(d)) == Some(d),
{
    reveal_strlit("north");
    reveal_strlit("south");
    reveal_strlit("east");
    reveal_strlit("west");
    reveal_strlit("up");
    reveal_strlit("down");
    reveal_strlit("n");
    reveal_strlit("s");
    reveal_strlit("e");
    reveal_strlit("w");
    reveal_strlit("u");
    reveal_strlit("d");
    let s = spec_dir_name(d);
    assert(crate::text::trim_start(s) == s);
    assert(crate::text::trim_end(s) == s);
    assert(ascii_lower_seq(s) =~= s);
}

/// The exits of a room: at most one target room id per direction.
#[derive(Debug, Clone, Default, PartialEq)]
pub struct Exits {
    pub north: Option<String>,
    pub south: Option<String>,
    pub east: Option<String>,
    pub west: Option<String>,
    pub up: Option<String>,
    pub down: Option<String>,
}

/// The six directions in the order in which exits are scanned.
pub open spec fn dir_at(i: int) -> Direction {
    if i == 0 {
        Direction::North
    } else if i == 1 {
        Direction::South
    } else if i == 2 {
        Direction::East
    } else if i == 3 {
        Direction::West
    } else if i == 4 {
        Direction::Up
    } else {
        Direction::Down
    }
}

impl Exits {
    /// The target stored for `d`.
    pub open spec fn slot(self, d: Direction) -> Option<String> {
        match d {
            Direction::North => self.north,
            Direction::South => self.south,
            Direction::East => self.east,
            Direction::West => self.west,
            Direction::Up => self.up,
            Direction::Down => self.down,
        }
    }

    /// No exits.
    pub fn new() -> (e: Exits)
        ensures
            e@ == Map::<Direction, Seq<char>>::empty(),
    {
        let e = Exits { north: None, south: None, east: None, west: None, up: None, down: None };
        assert(e@ =~= Map::<Direction, Seq<char>>::empty());
        e
    }

    /// The target of the exit in direction `d`.
    pub fn get(&self, d: &Direction) -> (r: Option<&String>)
        ensures
            match r {
                Some(s) => self@.contains_key(*d) && self@[*d] == s@,
                None => !self@.contains_key(*d),
            },
    {
        match d {
            Direction::North => self.north.as_ref(),
            Direction::South => self.south.as_ref(),
            Direction::East => self.east.as_ref(),
            Direction::West => self.west.as_ref(),
            Direction::Up => self.up.as_ref(),
            Direction::Down => self.down.as_ref(),
        }
    }

    /// Whether there is an exit in direction `d`.
    pub fn contains_key(&self, d: &Direction) -> (b: bool)
        ensures
            b == self@.contains_key(*d),
    {
        self.get(d).is_some()
    }

    /// Sets the exit in direction `d` to `target`, replacing any earlier one.
    pub fn insert(&mut self, d: Direction, target: String)
        ensures
            final(self)@ == old(self)@.insert(d, target@),
    {
        match d {
            Direction::North => self.north = Some(target),
            Direction::South => self.south = Some(target),
            Direction::East => self.east = Some(target),
            Direction::West => self.west = Some(target),
            Direction::Up => self.up = Some(target),
            Direction::Down => self.down = Some(target),
        }
        assert(final(self)@ =~= old(self)@.insert(d, target@));
    }

    /// Number of exits.
    pub fn len(&self) -> (n: usize)
        ensures
            n == self@.dom().len(),
    {
        let mut n: usize = 0;
        let ghost mut seen: Set<Direction> = Set::empty();
        let dirs = [Direction::North, Direction::South, Direction::East, Direction::West, Direction::Up, Direction::Down];
        let mut i: usize = 0;
        while i < 6
            invariant
                i <= 6,
                dirs@ == seq![Direction::North, Direction::South, Direction::East, Direction::West, Direction::Up, Direction::Down],
                seen == self@.dom().filter(|d: Direction| exists|k: int| 0 <= k < i && dir_at(k) == d),
                seen.finite(),
                n == seen.len(),
                n <= i,
            decreases 6 - i,
        {
            let d = dirs[i];
            assert(d == dir_at(i as int));
            let ghost next = self@.dom().filter(|e: Direction| exists|k: int| 0 <= k < i + 1 && dir_at(k) == e);
            if self.contains_key(&d) {
                proof {
                    assert(!seen.contains(d));
                    assert(next =~= seen.insert(d));
                    seen = next;
                }
                n += 1;
            } else {
                proof {
                    assert(next =~= seen);
                }
            }
            i += 1;
        }
        proof {
            assert forall|d: Direction| #[trigger] self@.dom().contains(d) implies seen.contains(d) by {
                let k: int = match d {
                    Direction::North => 0,
                    Direction::South => 1,
                    Direction::East => 2,
                    Direction::West => 3,
                    Direction::Up => 4,
                    Direction::Down => 5,
                };
                assert(dir_at(k) == d);
            }
            assert(seen =~= self@.dom());
        }
        n
    }
}

impl View for Exits {
    type V = Map<Direction, Seq<char>>;

    open spec fn view(&self) -> Map<Direction, Seq<char>> {
        Map::new(|d: Direction| self.slot(d) is Some, |d: Direction| self.slot(d)->0@)
    }
}

} // verus!

verus! {

/// What a room holds, as plain values.
pub struct RoomView {
    pub id: Seq<char>,
    pub name: Seq<char>,
    pub x: i32,
    pub y: i32,
    pub z: i32,
    pub exits: Map<Direction, Seq<char>>,
}

/// A single room node in the world graph.
///
/// Rooms are identified by a server-assigned `id` (from GMCP `Room.Info`)
/// or by a placeholder id when no GMCP data is available.  The coordinates
/// are assigned locally by the client.
#[derive(Debug, Clone)]
pub struct Room {
    pub id: String,
    pub name: String,
    pub x: i32,
    pub y: i32,
    pub z: i32,
    pub exits: Exits,
}

impl View for Room {
    type V = RoomView;

    open spec fn view(&self) -> RoomView {
        RoomView {
            id: self.id@,
            name: self.name@,
            x: self.x,
            y: self.y,
            z: self.z,
            exits: self.exits@,
        }
    }
}

/// No two rooms of the sequence share an id.
pub open spec fn ids_unique(s: Seq<Room>) -> bool {
    forall|i: int, j: int|
        0 <= i < s.len() && 0 <= j < s.len() && i != j ==> #[trigger] s[i].id@ != #[trigger] s[j].id@
}

/// A sequence of rooms with distinct ids, read as a map from id to room.
pub open spec fn table_view(s: Seq<Room>) -> Map<Seq<char>, RoomView> {
    Map::new(
        |k: Seq<char>| exists|i: int| 0 <= i < s.len() && s[i].id@ == k,
        |k: Seq<char>| s[choose|i: int| 0 <= i < s.len() && s[i].id@ == k]@,
    )
}

proof fn lemma_table_at(s: Seq<Room>, i: int)
    requires
        ids_unique(s),
        0 <= i < s.len(),
    ensures
        table_view(s).contains_key(s[i].id@),
        table_view(s)[s[i].id@] == s[i]@,
{
    let k = s[i].id@;
    assert(s[i].id@ == k);
    let j = choose|j: int| 0 <= j < s.len() && s[j].id@ == k;
    assert(j == i);
}

proof fn lemma_table_update(s0: Seq<Room>, i: int, r: Room)
    requires
        ids_unique(s0),
        0 <= i < s0.len(),
        s0[i].id@ == r.id@,
    ensures
        ids_unique(s0.update(i, r)),
        table_view(s0.update(i, r)) == table_view(s0).insert(r.id@, r@),
{
    let s1 = s0.update(i, r);
    assert forall|a: int, b: int| 0 <= a < s1.len() && 0 <= b < s1.len() && a != b implies #[trigger] s1[a].id@
        != #[trigger] s1[b].id@ by {
        assert(s0[a].id@ != s0[b].id@);
    }
    let m0 = table_view(s0);
    let m1 = table_view(s1);
    assert forall|kk: Seq<char>| #[trigger] m1.contains_key(kk) <==> m0.insert(r.id@, r@).contains_key(kk) by {
        if m0.contains_key(kk) {
            let j = choose|j: int| 0 <= j < s0.len() && s0[j].id@ == kk;
            assert(s1[j].id@ == kk);
        }
        if m1.contains_key(kk) {
            let j = choose|j: int| 0 <= j < s1.len() && s1[j].id@ == kk;
            assert(s0[j].id@ == kk);
        }
        if kk == r.id@ {
            assert(s1[i].id@ == kk);
        }
    }
    assert forall|kk: Seq<char>| #[trigger] m1.contains_key(kk) implies m1[kk] == m0.insert(r.id@, r@)[kk] by {
        let j = choose|j: int| 0 <= j < s1.len() && s1[j].id@ == kk;
        lemma_table_at(s1, j);
        if j != i {
            lemma_table_at(s0, j);
        }
    }
    assert(m1 =~= m0.insert(r.id@, r@));
}

proof fn lemma_table_push(s0: Seq<Room>, r: Room)
    requires
        ids_unique(s0),
        !table_view(s0).contains_key(r.id@),
    ensures
        ids_unique(s0.push(r)),
        table_view(s0.push(r)) == table_view(s0).insert(r.id@, r@),
{
    let s1 = s0.push(r);
    assert forall|a: int, b: int| 0 <= a < s1.len() && 0 <= b < s1.len() && a != b implies #[trigger] s1[a].id@
        != #[trigger] s1[b].id@ by {
        if a < s0.len() && b < s0.len() {
            assert(s0[a].id@ != s0[b].id@);
        } else if a < s0.len() {
            assert(s1[a] == s0[a]);
        } else {
            assert(s1[b] == s0[b]);
        }
    }
    let m0 = table_view(s0);
    let m1 = table_view(s1);
    assert forall|kk: Seq<char>| #[trigger] m1.contains_key(kk) <==> m0.insert(r.id@, r@).contains_key(kk) by {
        if m0.contains_key(kk) {
            let j = choose|j: int| 0 <= j < s0.len() && s0[j].id@ == kk;
            assert(s1[j].id@ == kk);
        }
        if m1.contains_key(kk) && kk != r.id@ {
            let j = choose|j: int| 0 <= j < s1.len() && s1[j].id@ == kk;
            assert(s0[j].id@ == kk);
        }
        if kk == r.id@ {
            assert(s1[s0.len() as int].id@ == kk);
        }
    }
    assert forall|kk: Seq<char>| #[trigger] m1.contains_key(kk) implies m1[kk] == m0.insert(r.id@, r@)[kk] by {
        let j = choose|j: int| 0 <= j < s1.len() && s1[j].id@ == kk;
        lemma_table_at(s1, j);
        if j < s0.len() {
            lemma_table_at(s0, j);
        }
    }
    assert(m1 =~= m0.insert(r.id@, r@));
}

proof fn lemma_table_remove(s0: Seq<Room>, i: int)
    requires
        ids_unique(s0),
        0 <= i < s0.len(),
    ensures
        ids_unique(s0.remove(i)),
        table_view(s0.remove(i)) == table_view(s0).remove(s0[i].id@),
{
    let s1 = s0.remove(i);
    let k = s0[i].id@;
    assert forall|a: int, b: int| 0 <= a < s1.len() && 0 <= b < s1.len() && a != b implies #[trigger] s1[a].id@
        != #[trigger] s1[b].id@ by {
        let a0 = if a < i { a } else { a + 1 };
        let b0 = if b < i { b } else { b + 1 };
        assert(s1[a] == s0[a0]);
        assert(s1[b] == s0[b0]);
        assert(s0[a0].id@ != s0[b0].id@);
    }
    let m0 = table_view(s0);
    let m1 = table_view(s1);
    assert forall|kk: Seq<char>| #[trigger] m1.contains_key(kk) <==> m0.remove(k).contains_key(kk) by {
        if m0.contains_key(kk) && kk != k {
            let j = choose|j: int| 0 <= j < s0.len() && s0[j].id@ == kk;
            assert(j != i);
            let j1 = if j < i { j } else { j - 1 };
            assert(s1[j1] == s0[j]);
        }
        if m1.contains_key(kk) {
            let j = choose|j: int| 0 <= j < s1.len() && s1[j].id@ == kk;
            let j0 = if j < i { j } else { j + 1 };
            assert(s1[j] == s0[j0]);
            assert(s0[j0].id@ != s0[i].id@);
        }
    }
    assert forall|kk: Seq<char>| #[trigger] m1.contains_key(kk) implies m1[kk] == m0.remove(k)[kk] by {
        let j = choose|j: int| 0 <= j < s1.len() && s1[j].id@ == kk;
        let j0 = if j < i { j } else { j + 1 };
        assert(s1[j] == s0[j0]);
        lemma_table_at(s1, j);
        lemma_table_at(s0, j0);
    }
    assert(m1 =~= m0.remove(k));
}

/// The rooms of a map, keyed by room id.
#[derive(Debug)]
pub struct RoomTable {
    rooms: Vec<Room>,
}

impl View for RoomTable {
    type V = Map<Seq<char>, RoomView>;

    closed spec fn view(&self) -> Map<Seq<char>, RoomView> {
        table_view(self.rooms@)
    }
}

impl RoomTable {
    #[verifier::type_invariant]
    spec fn inv(self) -> bool {
        ids_unique(self.rooms@)
    }

    /// Every room is stored under its own id.
    pub proof fn lemma_key_is_id(&self, k: Seq<char>)
        requires
            self@.contains_key(k),
        ensures
            self@[k].id == k,
    {
    }

    /// An empty table.
    pub fn new() -> (t: RoomTable)
        ensures
            t@ == Map::<Seq<char>, RoomView>::empty(),
    {
        let t = RoomTable { rooms: Vec::new() };
        assert(t@ =~= Map::<Seq<char>, RoomView>::empty());
        t
    }

    fn index_of(&self, id: &str) -> (r: Option<usize>)
        ensures
            match r {
                Some(i) => i < self.rooms@.len() && self.rooms@[i as int].id@ == id@ && self@.contains_key(id@)
                    && self@[id@] == self.rooms@[i as int]@,
                None => !self@.contains_key(id@),
            },
    {
        proof {
            use_type_invariant(self);
        }
        let mut i: usize = 0;
        while i < self.rooms.len()
            invariant
                i <= self.rooms@.len(),
                ids_unique(self.rooms@),
                forall|k: int| 0 <= k < i ==> (#[trigger] self.rooms@[k]).id@ != id@,
            decreases self.rooms.len() - i,
        {
            if str_eq(self.rooms[i].id.as_str(), id) {
                proof {
                    lemma_table_at(self.rooms@, i as int);
                }
                return Some(i);
            }
            i += 1;
        }
        None
    }

    proof fn lemma_len(&self)
        requires
            ids_unique(self.rooms@),
        ensures
            self@.dom().len() == self.rooms@.len(),
            self@.dom().finite(),
    {
        let ids = self.rooms@.map_values(|r: Room| r.id@);
        assert(ids.no_duplicates()) by {
            assert forall|i: int, j: int|
                0 <= i < ids.len() && 0 <= j < ids.len() && i != j implies ids[i] != ids[j] by {
                assert(self.rooms@[i].id@ != self.rooms@[j].id@);
            }
        }
        ids.unique_seq_to_set();
        assert forall|k: Seq<char>| #[trigger] self@.dom().contains(k) <==> ids.to_set().contains(k) by {
            if self@.dom().contains(k) {
                let i = choose|i: int| 0 <= i < self.rooms@.len() && self.rooms@[i].id@ == k;
                assert(ids[i] == k);
            }
            if ids.to_set().contains(k) {
                let i = choose|i: int| 0 <= i < ids.len() && ids[i] == k;
                assert(self.rooms@[i].id@ == k);
            }
        }
        assert(self@.dom() =~= ids.to_set());
        vstd::seq_lib::seq_to_set_is_finite(ids);
    }

    /// Number of rooms.
    pub fn len(&self) -> (n: usize)
        ensures
            n == self@.dom().len(),
    {
        proof {
            use_type_invariant(self);
            self.lemma_len();
        }
        self.rooms.len()
    }

    /// Whether a room with id `id` exists.
    pub fn contains_key(&self, id: &str) -> (b: bool)
        ensures
            b == self@.contains_key(id@),
    {
        self.index_of(id).is_some()
    }

    /// The room with id `id`.
    pub fn get(&self, id: &str) -> (r: Option<&Room>)
        ensures
            match r {
                Some(room) => self@.contains_key(id@) && self@[id@] == room@,
                None => !self@.contains_key(id@),
            },
    {
        match self.index_of(id) {
            Some(i) => Some(&self.rooms[i]),
            None => None,
        }
    }

    /// Stores `room` under its id, replacing any room with that id.
    pub fn insert(&mut self, room: Room)
        ensures
            final(self)@ == old(self)@.insert(room.id@, room@),
    {
        proof {
            use_type_invariant(&*self);
        }
        let idx = self.index_of(room.id.as_str());
        let ghost s0 = self.rooms@;
        let mut rooms: Vec<Room> = Vec::new();
        std::mem::swap(&mut rooms, &mut self.rooms);
        match idx {
            Some(i) => {
                proof {
                    lemma_table_update(s0, i as int, room);
                }
                rooms.set(i, room);
            },
            None => {
                proof {
                    lemma_table_push(s0, room);
                }
                rooms.push(room);
            },
        }
        self.rooms = rooms;
    }

    /// Removes and returns the room with id `id`.
    pub fn remove(&mut self, id: &str) -> (r: Option<Room>)
        ensures
            final(self)@ == old(self)@.remove(id@),
            match r {
                Some(room) => old(self)@.contains_key(id@) && old(self)@[id@] == room@,
                None => !old(self)@.contains_key(id@),
            },
    {
        proof {
            use_type_invariant(&*self);
        }
        match self.index_of(id) {
            Some(i) => {
                let ghost s0 = self.rooms@;
                let mut rooms: Vec<Room> = Vec::new();
                std::mem::swap(&mut rooms, &mut self.rooms);
                proof {
                    lemma_table_remove(s0, i as int);
                }
                let room = rooms.remove(i);
                self.rooms = rooms;
                Some(room)
            },
            None => {
                assert(old(self)@.remove(id@) =~= old(self)@);
                None
            },
        }
    }

    /// All rooms, each once, in an unspecified order.
    pub fn values(&self) -> (r: &Vec<Room>)
        ensures
            r@.len() == self@.dom().len(),
            forall|i: int| 0 <= i < r@.len() ==> self@.contains_key(#[trigger] r@[i].id@) && self@[r@[i].id@] == r@[i]@,
            forall|k: Seq<char>| #[trigger] self@.contains_key(k) ==> exists|i: int| 0 <= i < r@.len() && r@[i].id@ == k,
    {
        proof {
            use_type_invariant(self);
            self.lemma_len();
            assert forall|i: int| 0 <= i < self.rooms@.len() implies #[trigger] self@.contains_key(self.rooms@[i].id@)
                && self@[self.rooms@[i].id@] == self.rooms@[i]@ by {
                lemma_table_at(self.rooms@, i);
            }
        }
        &self.rooms
    }
}

} // verus!

verus! {

/// A new room with no exits.
pub open spec fn fresh_room(id: Seq<char>, name: Seq<char>, x: i32, y: i32, z: i32) -> RoomView {
    RoomView { id, name, x, y, z, exits: Map::empty() }
}

/// Whether room exits `e` lead from direction `d` to `t`.
pub open spec fn leads_to(e: Map<Direction, Seq<char>>, d: Direction, t: Seq<char>) -> bool {
    e.contains_key(d) && e[d] == t
}

/// The first direction, in the order north, south, east, west, up, down,
/// whose exit leads to `t`.
pub open spec fn first_dir_to(e: Map<Direction, Seq<char>>, t: Seq<char>) -> Option<Direction> {
    if leads_to(e, Direction::North, t) {
        Some(Direction::North)
    } else if leads_to(e, Direction::South, t) {
        Some(Direction::South)
    } else if leads_to(e, Direction::East, t) {
        Some(Direction::East)
    } else if leads_to(e, Direction::West, t) {
        Some(Direction::West)
    } else if leads_to(e, Direction::Up, t) {
        Some(Direction::Up)
    } else if leads_to(e, Direction::Down, t) {
        Some(Direction::Down)
    } else {
        None
    }
}

/// A room still at the grid origin, i.e. never positioned.
pub open spec fn at_origin(r: RoomView) -> bool {
    r.x == 0 && r.y == 0 && r.z == 0
}

/// `r` moved one step in direction `d` from `base` (coordinates wrap as
/// 32-bit two's-complement integers).
pub open spec fn step_from(r: RoomView, base: RoomView, d: Direction) -> RoomView {
    RoomView {
        x: base.x.wrapping_add(spec_delta(d).0),
        y: base.y.wrapping_add(spec_delta(d).1),
        z: base.z.wrapping_add(spec_delta(d).2),
        ..r
    }
}

/// Places `to` next to `from` when one of them has an exit to the other and
/// the room to be placed is still at the origin.  An exit of `from` to `to`
/// is consulted first; only when there is none is an exit of `to` back to
/// `from` used, which places `from` instead.
pub open spec fn spec_try_position(
    rooms: Map<Seq<char>, RoomView>,
    from: Seq<char>,
    to: Seq<char>,
) -> Map<Seq<char>, RoomView> {
    if !rooms.contains_key(from) {
        rooms
    } else {
        let f = rooms[from];
        match first_dir_to(f.exits, to) {
            Some(d) => if rooms.contains_key(to) && at_origin(rooms[to]) {
                rooms.insert(to, step_from(rooms[to], f, d))
            } else {
                rooms
            },
            None => if rooms.contains_key(to) {
                match first_dir_to(rooms[to].exits, from) {
                    Some(d) => if at_origin(f) {
                        rooms.insert(from, step_from(f, rooms[to], d))
                    } else {
                        rooms
                    },
                    None => rooms,
                }
            } else {
                rooms
            },
        }
    }
}

/// The map after a full room update: the room `id` gets `name` and `exits`
/// (keeping its coordinates, or at the origin if new), and it is placed
/// relative to the previous current room when that was a different room.
pub open spec fn spec_apply_room_info(
    rooms: Map<Seq<char>, RoomView>,
    current: Option<Seq<char>>,
    id: Seq<char>,
    name: Seq<char>,
    exits: Map<Direction, Seq<char>>,
) -> Map<Seq<char>, RoomView> {
    let room = if rooms.contains_key(id) {
        RoomView { name, exits, ..rooms[id] }
    } else {
        RoomView { id, name, x: 0, y: 0, z: 0, exits }
    };
    let r1 = rooms.insert(id, room);
    match current {
        Some(p) => if p != id {
            spec_try_position(r1, p, id)
        } else {
            r1
        },
        None => r1,
    }
}

/// The map with room `id` moved to `(x, y, z)`; a missing room is created,
/// named after its id, without exits.
pub open spec fn spec_set_room_position(
    rooms: Map<Seq<char>, RoomView>,
    id: Seq<char>,
    x: i32,
    y: i32,
    z: i32,
) -> Map<Seq<char>, RoomView> {
    if rooms.contains_key(id) {
        rooms.insert(id, RoomView { x, y, z, ..rooms[id] })
    } else {
        rooms.insert(id, fresh_room(id, id, x, y, z))
    }
}

/// The map with room `k` present (created at the origin, named after its id).
pub open spec fn ensure_room(rooms: Map<Seq<char>, RoomView>, k: Seq<char>) -> Map<Seq<char>, RoomView> {
    if rooms.contains_key(k) {
        rooms
    } else {
        rooms.insert(k, fresh_room(k, k, 0, 0, 0))
    }
}

/// The map with the exit `d` of room `k` set to `t`.
pub open spec fn set_exit(rooms: Map<Seq<char>, RoomView>, k: Seq<char>, d: Direction, t: Seq<char>) -> Map<
    Seq<char>,
    RoomView,
> {
    rooms.insert(k, RoomView { exits: rooms[k].exits.insert(d, t), ..rooms[k] })
}

/// The map after linking `from` to `to` in direction `dir` and back.
pub open spec fn spec_link_rooms(
    rooms: Map<Seq<char>, RoomView>,
    from: Seq<char>,
    dir: Direction,
    to: Seq<char>,
) -> Map<Seq<char>, RoomView> {
    let r1 = set_exit(ensure_room(rooms, from), from, dir, to);
    let r2 = set_exit(ensure_room(r1, to), to, spec_opposite(dir), from);
    spec_try_position(r2, from, to)
}

/// A parsed room-info update, typically from a GMCP `Room.Info` packet.
#[derive(Debug, Clone, PartialEq)]
pub struct RoomInfoUpdate {
    pub id: String,
    pub name: String,
    pub exits: Exits,
}

/// The in-memory world graph for a single server, with the room the player
/// is currently in.
#[derive(Debug)]
pub struct WorldMap {
    pub rooms: RoomTable,
    pub current_room_id: Option<String>,
}

/// The text of an optional string.
pub open spec fn opt_view(o: Option<String>) -> Option<Seq<char>> {
    match o {
        Some(s) => Some(s@),
        None => None,
    }
}

impl Default for WorldMap {
    fn default() -> (m: WorldMap)
        ensures
            m.rooms@ == Map::<Seq<char>, RoomView>::empty(),
            m.current_room_id is None,
    {
        WorldMap { rooms: RoomTable::new(), current_room_id: None }
    }
}

fn new_room(id: &str, name: &str, x: i32, y: i32, z: i32) -> (r: Room)
    ensures
        r@ == fresh_room(id@, name@, x, y, z),
{
    let a = chars_of(id);
    let b = chars_of(name);
    Room { id: string_of(&a), name: string_of(&b), x, y, z, exits: Exits::new() }
}

fn exit_leads_to(e: &Exits, d: Direction, t: &str) -> (b: bool)
    ensures
        b == leads_to(e@, d, t@),
{
    match e.get(&d) {
        Some(s) => str_eq(s.as_str(), t),
        None => false,
    }
}

/// The first direction whose exit leads to `t`.
fn first_exit_to(e: &Exits, t: &str) -> (r: Option<Direction>)
    ensures
        r == first_dir_to(e@, t@),
{
    if exit_leads_to(e, Direction::North, t) {
        Some(Direction::North)
    } else if exit_leads_to(e, Direction::South, t) {
        Some(Direction::South)
    } else if exit_leads_to(e, Direction::East, t) {
        Some(Direction::East)
    } else if exit_leads_to(e, Direction::West, t) {
        Some(Direction::West)
    } else if exit_leads_to(e, Direction::Up, t) {
        Some(Direction::Up)
    } else if exit_leads_to(e, Direction::Down, t) {
        Some(Direction::Down)
    } else {
        None
    }
}

fn copy_opt(o: &Option<String>) -> (r: Option<String>)
    ensures
        r == *o,
{
    match o {
        Some(s) => Some(s.clone()),
        None => None,
    }
}

impl WorldMap {
    /// The room the player is currently in, if known.
    pub fn current_room(&self) -> (r: Option<&Room>)
        ensures
            match self.current_room_id {
                Some(id) => match r {
                    Some(room) => self.rooms@.contains_key(id@) && self.rooms@[id@] == room@,
                    None => !self.rooms@.contains_key(id@),
                },
                None => r is None,
            },
    {
        match &self.current_room_id {
            Some(id) => self.rooms.get(id.as_str()),
            None => None,
        }
    }

    /// Place `to_id` next to `from_id` (or `from_id` next to `to_id`) by the
    /// exits between them, moving only a room still at the origin (see
    /// `spec_try_position` and `law_try_position_frame`); the current room
    /// stays as it was.
    pub fn try_position_relative(&mut self, from_id: &str, to_id: &str)
        ensures
            final(self).rooms@ == spec_try_position(old(self).rooms@, from_id@, to_id@),
            positioning_frame(old(self).rooms@, final(self).rooms@, from_id@, to_id@),
            final(self).current_room_id == old(self).current_room_id,
    {
        proof {
            law_try_position_frame(self.rooms@, from_id@, to_id@);
        }
        let ghost r0 = self.rooms@;
        let (fx, fy, fz, fd) = match self.rooms.get(from_id) {
            Some(f) => (f.x, f.y, f.z, first_exit_to(&f.exits, to_id)),
            None => {
                return;
            },
        };
        match fd {
            Some(d) => {
                match self.rooms.remove(to_id) {
                    Some(mut t) => {
                        if t.x == 0 && t.y == 0 && t.z == 0 {
                            let (dx, dy, dz) = d.delta();
                            t.x = fx.wrapping_add(dx);
                            t.y = fy.wrapping_add(dy);
                            t.z = fz.wrapping_add(dz);
                            self.rooms.insert(t);
                            assert(self.rooms@ =~= spec_try_position(r0, from_id@, to_id@));
                        } else {
                            self.rooms.insert(t);
                            assert(self.rooms@ =~= r0);
                        }
                    },
                    None => {},
                }
            },
            None => {
                let (tx, ty, tz, td) = match self.rooms.get(to_id) {
                    Some(t) => (t.x, t.y, t.z, first_exit_to(&t.exits, from_id)),
                    None => {
                        return;
                    },
                };
                match td {
                    Some(d) => {
                        match self.rooms.remove(from_id) {
                            Some(mut f) => {
                                if f.x == 0 && f.y == 0 && f.z == 0 {
                                    let (dx, dy, dz) = d.delta();
                                    f.x = tx.wrapping_add(dx);
                                    f.y = ty.wrapping_add(dy);
                                    f.z = tz.wrapping_add(dz);
                                    self.rooms.insert(f);
                                    assert(self.rooms@ =~= spec_try_position(r0, from_id@, to_id@));
                                } else {
                                    self.rooms.insert(f);
                                    assert(self.rooms@ =~= r0);
                                }
                            },
                            None => {},
                        }
                    },
                    None => {},
                }
            },
        }
    }

    /// Apply a parsed room update: the room gets the update's name and exits
    /// (a new room starts at the origin), is placed next to the previous
    /// current room when that was another room, and becomes the current room.
    pub fn apply_room_info(&mut self, update: RoomInfoUpdate)
        ensures
            final(self).rooms@ == spec_apply_room_info(
                old(self).rooms@,
                opt_view(old(self).current_room_id),
                update.id@,
                update.name@,
                update.exits@,
            ),
            final(self).current_room_id == Some(update.id),
    {
        let ghost r0 = self.rooms@;
        let ghost u = update;
        let prev = copy_opt(&self.current_room_id);
        let RoomInfoUpdate { id, name, exits } = update;
        let room = match self.rooms.remove(id.as_str()) {
            Some(r) => {
                Room { id: r.id, name, x: r.x, y: r.y, z: r.z, exits }
            },
            None => Room { id: id.clone(), name, x: 0, y: 0, z: 0, exits },
        };
        self.rooms.insert(room);
        assert(self.rooms@ =~= r0.insert(
            u.id@,
            if r0.contains_key(u.id@) {
                RoomView { name: u.name@, exits: u.exits@, ..r0[u.id@] }
            } else {
                RoomView { id: u.id@, name: u.name@, x: 0, y: 0, z: 0, exits: u.exits@ }
            },
        ));
        match prev {
            Some(p) => {
                if !str_eq(p.as_str(), id.as_str()) {
                    self.try_position_relative(p.as_str(), id.as_str());
                }
            },
            None => {},
        }
        self.current_room_id = Some(id);
    }

    /// Manually override the grid position of a room, creating it (named
    /// after its id, without exits) if it does not exist yet.
    pub fn set_room_position(&mut self, room_id: &str, x: i32, y: i32, z: i32)
        ensures
            final(self).rooms@ == spec_set_room_position(old(self).rooms@, room_id@, x, y, z),
            final(self).current_room_id == old(self).current_room_id,
    {
        let ghost r0 = self.rooms@;
        match self.rooms.remove(room_id) {
            Some(mut r) => {
                r.x = x;
                r.y = y;
                r.z = z;
                self.rooms.insert(r);
            },
            None => {
                let r = new_room(room_id, room_id, x, y, z);
                self.rooms.insert(r);
            },
        }
        assert(self.rooms@ =~= spec_set_room_position(r0, room_id@, x, y, z));
    }

    fn add_exit(&mut self, k: &str, d: Direction, t: &str)
        ensures
            final(self).rooms@ == set_exit(ensure_room(old(self).rooms@, k@), k@, d, t@),
            final(self).current_room_id == old(self).current_room_id,
    {
        let ghost r0 = self.rooms@;
        let mut r = match self.rooms.remove(k) {
            Some(r) => {
                r
            },
            None => new_room(k, k, 0, 0, 0),
        };
        let tv = chars_of(t);
        r.exits.insert(d, string_of(&tv));
        self.rooms.insert(r);
        assert(self.rooms@ =~= set_exit(ensure_room(r0, k@), k@, d, t@));
    }

    /// Create a two-way link: `from_id` gets the exit `dir` to `to_id` and
    /// `to_id` the opposite exit back; missing rooms are created; then the
    /// rooms are positioned relative to each other.
    pub fn link_rooms(&mut self, from_id: &str, dir: Direction, to_id: &str)
        ensures
            final(self).rooms@ == spec_link_rooms(old(self).rooms@, from_id@, dir, to_id@),
            final(self).current_room_id == old(self).current_room_id,
    {
        self.add_exit(from_id, dir, to_id);
        self.add_exit(to_id, dir.opposite(), from_id);
        self.try_position_relative(from_id, to_id);
    }

    /// A room whose grid coordinates are exactly `(x, y, z)`, if any.
    pub fn room_at(&self, x: i32, y: i32, z: i32) -> (r: Option<&Room>)
        ensures
            match r {
                Some(room) => room.x == x && room.y == y && room.z == z && self.rooms@.contains_key(room.id@)
                    && self.rooms@[room.id@] == room@,
                None => forall|k: Seq<char>| #[trigger] self.rooms@.contains_key(k) ==> !(self.rooms@[k].x == x
                    && self.rooms@[k].y == y && self.rooms@[k].z == z),
            },
    {
        let v = self.rooms.values();
        let mut i: usize = 0;
        while i < v.len()
            invariant
                i <= v@.len(),
                forall|j: int| 0 <= j < i ==> !(v@[j].x == x && v@[j].y == y && v@[j].z == z),
                forall|j: int| 0 <= j < v@.len() ==> self.rooms@.contains_key(#[trigger] v@[j].id@) && self.rooms@[v@[j].id@] == v@[j]@,
            decreases v.len() - i,
        {
            let r = &v[i];
            if r.x == x && r.y == y && r.z == z {
                return Some(r);
            }
            i += 1;
        }
        proof {
            assert forall|k: Seq<char>| #[trigger] self.rooms@.contains_key(k) implies !(self.rooms@[k].x == x
                && self.rooms@[k].y == y && self.rooms@[k].z == z) by {
                let j = choose|j: int| 0 <= j < v@.len() && v@[j].id@ == k;
                assert(self.rooms@[v@[j].id@] == v@[j]@);
            }
        }
        None
    }
}

} // verus!

verus! {

/// Whether `c` ends a control sequence (a final character `@` to `~`).
pub open spec fn is_csi_final(c: char) -> bool {
    '@' <= c && c <= '~'
}

/// Index of the first final character of `s`, if any.
pub open spec fn csi_final(s: Seq<char>) -> Option<int>
    decreases s.len(),
{
    if s.len() == 0 {
        None
    } else if is_csi_final(s[0]) {
        Some(0)
    } else {
        match csi_final(s.drop_first()) {
            Some(k) => Some(k + 1),
            None => None,
        }
    }
}

/// `csi_final` finds the first final character, or says there is none.
pub proof fn lemma_csi_final(s: Seq<char>)
    ensures
        csi_final(s) matches Some(k) ==> 0 <= k < s.len() && is_csi_final(s[k])
            && forall|t: int| 0 <= t < k ==> !is_csi_final(#[trigger] s[t]),
        csi_final(s) is None ==> forall|t: int| 0 <= t < s.len() ==> !is_csi_final(#[trigger] s[t]),
    decreases s.len(),
{
    if s.len() > 0 {
        lemma_csi_final(s.drop_first());
        assert forall|t: int| 1 <= t < s.len() implies s[t] == s.drop_first()[t - 1] by {}
    }
}

/// Whether `s` starts with an SGR sequence `ESC [ … m`, and where it ends.
pub open spec fn sgr_end(s: Seq<char>) -> Option<int> {
    if s.len() > 1 && s[0] == '\x1b' && s[1] == '[' {
        match csi_final(s.skip(2)) {
            Some(k) => if s[k + 2] == 'm' { Some(k + 3) } else { None },
            None => None,
        }
    } else {
        None
    }
}

/// An SGR sequence that `sgr_end` finds lies within `s` and is at least
/// three characters long.
pub proof fn lemma_sgr_end(s: Seq<char>)
    ensures
        sgr_end(s) matches Some(e) ==> 3 <= e <= s.len(),
{
    if s.len() > 1 && s[0] == '\x1b' && s[1] == '[' {
        lemma_csi_final(s.skip(2));
    }
}

/// `s` with its SGR sequences `ESC [ … m` removed; every other character,
/// other escape sequences included, passes through unchanged.
pub open spec fn spec_strip_ansi(s: Seq<char>) -> Seq<char>
    decreases s.len(),
{
    if s.len() == 0 {
        seq![]
    } else {
        match sgr_end(s) {
            Some(e) => {
                proof {
                    lemma_sgr_end(s);
                }
                spec_strip_ansi(s.skip(e))
            },
            None => seq![s[0]] + spec_strip_ansi(s.skip(1)),
        }
    }
}

/// Text without an escape character passes through unchanged.
pub proof fn law_strip_ansi_plain(s: Seq<char>)
    requires
        !s.contains('\x1b'),
    ensures
        spec_strip_ansi(s) == s,
    decreases s.len(),
{
    if s.len() > 0 {
        assert(s[0] != '\x1b');
        assert(!s.skip(1).contains('\x1b')) by {
            if s.skip(1).contains('\x1b') {
                let t = choose|t: int| 0 <= t < s.skip(1).len() && s.skip(1)[t] == '\x1b';
                assert(s[t + 1] == '\x1b');
            }
        }
        law_strip_ansi_plain(s.skip(1));
        assert(seq![s[0]] + s.skip(1) =~= s);
    }
}

/// A complete SGR sequence `ESC [ p m`, with parameters `p` holding no
/// final character, disappears and the text after it is stripped as usual.
pub proof fn law_strip_ansi_drops_sgr(p: Seq<char>, t: Seq<char>)
    requires
        forall|i: int| 0 <= i < p.len() ==> !is_csi_final(#[trigger] p[i]),
    ensures
        spec_strip_ansi(seq!['\x1b', '['] + p + seq!['m'] + t) == spec_strip_ansi(t),
{
    let s = seq!['\x1b', '['] + p + seq!['m'] + t;
    let body = s.skip(2);
    assert(body =~= p + seq!['m'] + t);
    lemma_csi_final(body);
    match csi_final(body) {
        Some(k) => {
            if k < p.len() {
                assert(body[k] == p[k]);
            } else if k > p.len() {
                assert(body[p.len() as int] == 'm');
            }
        },
        None => {
            assert(body[p.len() as int] == 'm');
        },
    }
    assert(sgr_end(s) == Some(p.len() + 3int));
    assert(s.skip(p.len() + 3int) =~= t);
}

fn find_csi_final(v: &Vec<char>, from: usize) -> (r: Option<usize>)
    requires
        from <= v@.len(),
    ensures
        match r {
            Some(j) => from <= j < v@.len() && csi_final(v@.skip(from as int)) == Some(j - from),
            None => csi_final(v@.skip(from as int)) is None,
        },
{
    let mut j = from;
    while j < v.len()
        invariant
            from <= j <= v@.len(),
            csi_final(v@.skip(from as int)) == match csi_final(v@.skip(j as int)) {
                Some(k) => Some(k + (j - from)),
                None => None,
            },
        decreases v.len() - j,
    {
        assert(v@.skip(j as int).drop_first() =~= v@.skip(j + 1));
        if '@' <= v[j] && v[j] <= '~' {
            return Some(j);
        }
        j += 1;
    }
    None
}

/// Strip the SGR sequences `ESC [ … m` from a string.
pub fn strip_ansi(s: &str) -> (r: String)
    ensures
        r@ == spec_strip_ansi(s@),
{
    let v = chars_of(s);
    let mut out: Vec<char> = Vec::new();
    let mut i: usize = 0;
    assert(v@.skip(0) =~= v@);
    while i < v.len()
        invariant
            i <= v@.len(),
            spec_strip_ansi(v@) == out@ + spec_strip_ansi(v@.skip(i as int)),
        decreases v.len() - i,
    {
        let ghost rest = v@.skip(i as int);
        let mut skip_to: Option<usize> = None;
        if v[i] == '\x1b' && i + 1 < v.len() && v[i + 1] == '[' {
            assert(rest.skip(2) =~= v@.skip(i + 2));
            match find_csi_final(&v, i + 2) {
                Some(j) => {
                    if v[j] == 'm' {
                        skip_to = Some(j + 1);
                    }
                },
                None => {},
            }
        }
        proof {
            lemma_sgr_end(rest);
        }
        match skip_to {
            Some(e) => {
                assert(sgr_end(rest) == Some(e - i));
                assert(rest.skip(e - i) =~= v@.skip(e as int));
                i = e;
            },
            None => {
                assert(sgr_end(rest) is None);
                let ghost before = out@;
                out.push(v[i]);
                assert(rest.skip(1) =~= v@.skip(i + 1));
                assert(before + spec_strip_ansi(rest) =~= out@ + spec_strip_ansi(v@.skip(i + 1)));
                i += 1;
            },
        }
    }
    assert(out@ + spec_strip_ansi(v@.skip(i as int)) =~= out@);
    string_of(&out)
}

} // verus!

verus! {

/// The pattern that recognises an exits announcement and captures the list
/// that follows it: `Exits: north, east`, `Exit - south/west`, `exit = up`.
pub const EXITS_PATTERN: &'static str = "(?i)\\bexits?\\b\\s*[:=-]\\s*(.+)$";

/// Separator characters of an exits list, read as white space.
pub open spec fn exit_separator(c: char) -> bool {
    c == ',' || c == ';' || c == '/' || c == '(' || c == ')'
}

/// The exits list with its separators replaced by spaces.
pub open spec fn normalize_exits(s: Seq<char>) -> Seq<char> {
    s.map_values(|c: char| if exit_separator(c) { ' ' } else { c })
}

/// The directions the tokens name, first occurrences only, in order.
pub open spec fn dedup_dirs(toks: Seq<Seq<char>>) -> Seq<Direction>
    decreases toks.len(),
{
    if toks.len() == 0 {
        seq![]
    } else {
        let prev = dedup_dirs(toks.drop_last());
        match spec_parse_direction(toks.last()) {
            Some(d) => if prev.contains(d) {
                prev
            } else {
                prev.push(d)
            },
            None => prev,
        }
    }
}

/// The directions of an exits list, or `None` when it names none.
pub open spec fn spec_parse_exits_tail(tail: Seq<char>) -> Option<Seq<Direction>> {
    let ds = dedup_dirs(crate::text::words(normalize_exits(tail)));
    if ds.len() == 0 {
        None
    } else {
        Some(ds)
    }
}

/// The directions an output line announces as exits.
pub open spec fn spec_parse_exits_line(line: Seq<char>) -> Option<Seq<Direction>> {
    match crate::matching::regex_group1(EXITS_PATTERN@, line) {
        Some(tail) => spec_parse_exits_tail(tail),
        None => None,
    }
}

proof fn lemma_dedup_no_duplicates(toks: Seq<Seq<char>>)
    ensures
        dedup_dirs(toks).no_duplicates(),
    decreases toks.len(),
{
    if toks.len() > 0 {
        lemma_dedup_no_duplicates(toks.drop_last());
        let prev = dedup_dirs(toks.drop_last());
        if let Some(d) = spec_parse_direction(toks.last()) {
            if !prev.contains(d) {
                let n = prev.push(d);
                assert forall|i: int, j: int| 0 <= i < n.len() && 0 <= j < n.len() && i != j implies n[i] != n[j] by {
                    if i < prev.len() && j < prev.len() {
                    } else if i < prev.len() {
                        assert(prev.contains(prev[i]));
                    } else {
                        assert(prev.contains(prev[j]));
                    }
                }
            }
        }
    }
}

/// Parse the list that follows an exits keyword: separators `, ; / ( )`
/// count as white space, each word naming a direction contributes it once,
/// in order of first appearance; `None` when no word names a direction.
pub fn parse_exits_tail(tail: &str) -> (r: Option<Vec<Direction>>)
    ensures
        match r {
            Some(v) => spec_parse_exits_tail(tail@) == Some(v@) && v@.len() > 0 && v@.no_duplicates(),
            None => spec_parse_exits_tail(tail@) is None,
        },
{
    let t = chars_of(tail);
    let mut norm: Vec<char> = Vec::new();
    let mut i: usize = 0;
    while i < t.len()
        invariant
            i <= t@.len(),
            norm@ == normalize_exits(t@.take(i as int)),
        decreases t.len() - i,
    {
        let c = t[i];
        let c2 = if c == ',' || c == ';' || c == '/' || c == '(' || c == ')' { ' ' } else { c };
        norm.push(c2);
        assert(normalize_exits(t@.take(i + 1)) =~= normalize_exits(t@.take(i as int)).push(c2));
        i += 1;
    }
    assert(t@.take(t.len() as int) =~= t@);
    let toks = crate::text::split_words(&norm);
    let mut dirs: Vec<Direction> = Vec::new();
    let mut k: usize = 0;
    while k < toks.len()
        invariant
            k <= toks@.len(),
            crate::text::views(toks@) == crate::text::words(norm@),
            dirs@ == dedup_dirs(crate::text::views(toks@).take(k as int)),
        decreases toks.len() - k,
    {
        let ghost ts = crate::text::views(toks@);
        assert(ts.take(k + 1).drop_last() =~= ts.take(k as int));
        assert(ts.take(k + 1).last() == toks@[k as int]@);
        let w = string_of(&toks[k]);
        match Direction::parse(w.as_str()) {
            Some(d) => {
                let mut seen = false;
                let mut j: usize = 0;
                while j < dirs.len()
                    invariant
                        j <= dirs@.len(),
                        seen == (exists|m: int| 0 <= m < j && dirs@[m] == d),
                    decreases dirs.len() - j,
                {
                    if dirs[j] == d {
                        seen = true;
                    }
                    j += 1;
                }
                if !seen {
                    dirs.push(d);
                }
            },
            None => {},
        }
        k += 1;
    }
    assert(crate::text::views(toks@).take(toks.len() as int) =~= crate::text::views(toks@));
    proof {
        lemma_dedup_no_duplicates(crate::text::words(normalize_exits(t@)));
    }
    if dirs.len() == 0 {
        None
    } else {
        Some(dirs)
    }
}

/// Parse a (ANSI-stripped) server line for an exits listing such as
/// `Exits: north, east`; `None` when the line is no exits announcement or
/// names no direction.
pub fn parse_exits_line(line: &str) -> (r: Option<Vec<Direction>>)
    ensures
        match r {
            Some(v) => spec_parse_exits_line(line@) == Some(v@) && v@.len() > 0 && v@.no_duplicates(),
            None => spec_parse_exits_line(line@) is None,
        },
{
    match crate::matching::regex_first_group(EXITS_PATTERN, line) {
        Some(tail) => parse_exits_tail(tail.as_str()),
        None => None,
    }
}

} // verus!

verus! {

use crate::json::{Json, json_get, json_parse};

/// The text of a JSON string or number.
pub open spec fn json_id_text(j: Json) -> Option<Seq<char>> {
    match j {
        Json::Str(s) => Some(s@),
        Json::Number(n) => Some(n@),
        _ => None,
    }
}

/// The room id of a `Room.Info` document: member `num`, or `id` when there
/// is no `num`, as text; `None` when missing or neither string nor number.
pub open spec fn spec_room_id(j: Json) -> Option<Seq<char>> {
    let v = match json_get(j, "num"@) {
        Some(v) => Some(v),
        None => json_get(j, "id"@),
    };
    match v {
        Some(v) => json_id_text(v),
        None => None,
    }
}

/// The room name of a `Room.Info` document, `"(unknown)"` when absent.
pub open spec fn spec_room_name(j: Json) -> Seq<char> {
    match json_get(j, "name"@) {
        Some(Json::Str(s)) => s@,
        _ => "(unknown)"@,
    }
}

/// Exits of a `Room.Info` `exits` object: each member named by a direction
/// with a string or number value; a later member overrides an earlier one.
pub open spec fn exits_fold(members: Seq<(String, Json)>) -> Map<Direction, Seq<char>>
    decreases members.len(),
{
    if members.len() == 0 {
        Map::empty()
    } else {
        let m = exits_fold(members.drop_last());
        match spec_parse_direction(members.last().0@) {
            Some(d) => match json_id_text(members.last().1) {
                Some(t) => m.insert(d, t),
                None => m,
            },
            None => m,
        }
    }
}

/// The exits of a `Room.Info` document.
pub open spec fn spec_room_exits(j: Json) -> Map<Direction, Seq<char>> {
    match json_get(j, "exits"@) {
        Some(Json::Object(ms)) => exits_fold(ms@),
        _ => Map::empty(),
    }
}

/// The `(id, name, exits)` a `Room.Info` document describes.
pub open spec fn spec_room_info_from_json(j: Json) -> Option<(Seq<char>, Seq<char>, Map<Direction, Seq<char>>)> {
    match spec_room_id(j) {
        Some(id) => Some((id, spec_room_name(j), spec_room_exits(j))),
        None => None,
    }
}

/// Topic and payload of a GMCP message: split at the first space.
pub open spec fn split_topic(g: Seq<char>) -> (Seq<char>, Seq<char>) {
    match crate::text::split_once(g, ' ') {
        Some((a, b)) => (a, b),
        None => (g, Seq::empty()),
    }
}

/// The room update a GMCP message carries: only a `Room.Info` topic with a
/// JSON payload that has a room id.
pub open spec fn spec_parse_room_info_from_gmcp(g: Seq<char>) -> Option<
    (Seq<char>, Seq<char>, Map<Direction, Seq<char>>),
> {
    let (topic, payload) = split_topic(g);
    if trim(topic) != "Room.Info"@ {
        None
    } else {
        match json_parse(trim(payload)) {
            Some(j) => spec_room_info_from_json(j),
            None => None,
        }
    }
}

fn id_text(j: &Json) -> (r: Option<String>)
    ensures
        match r {
            Some(s) => json_id_text(*j) == Some(s@),
            None => json_id_text(*j) is None,
        },
{
    match j {
        Json::Str(s) => Some(s.clone()),
        Json::Number(n) => Some(n.clone()),
        _ => None,
    }
}

/// Build the room update a parsed `Room.Info` document describes: the id
/// from `num` (or `id`), the name (default `"(unknown)"`) and the exits.
pub fn room_info_from_json(j: &Json) -> (r: Option<RoomInfoUpdate>)
    ensures
        match r {
            Some(u) => spec_room_info_from_json(*j) == Some((u.id@, u.name@, u.exits@)),
            None => spec_room_info_from_json(*j) is None,
        },
{
    let idv = match j.get("num") {
        Some(v) => Some(v),
        None => j.get("id"),
    };
    let id = match idv {
        Some(v) => match id_text(v) {
            Some(s) => s,
            None => {
                return None;
            },
        },
        None => {
            return None;
        },
    };
    let name = match j.get("name") {
        Some(Json::Str(s)) => s.clone(),
        _ => {
            let u = chars_of("(unknown)");
            string_of(&u)
        },
    };
    let mut exits = Exits::new();
    match j.get("exits") {
        Some(Json::Object(ms)) => {
            let mut i: usize = 0;
            while i < ms.len()
                invariant
                    i <= ms@.len(),
                    exits@ == exits_fold(ms@.take(i as int)),
                decreases ms.len() - i,
            {
                assert(ms@.take(i + 1).drop_last() =~= ms@.take(i as int));
                assert(ms@.take(i + 1).last() == ms@[i as int]);
                match Direction::parse(ms[i].0.as_str()) {
                    Some(d) => match id_text(&ms[i].1) {
                        Some(t) => {
                            exits.insert(d, t);
                        },
                        None => {},
                    },
                    None => {},
                }
                i += 1;
            }
            assert(ms@.take(ms.len() as int) =~= ms@);
        },
        _ => {},
    }
    Some(RoomInfoUpdate { id, name, exits })
}

/// Parse a GMCP `Room.Info` message (`"Room.Info {\"num\":123, ...}"`) into
/// a room update; `None` for another topic, a payload that is not JSON, or
/// one without a room id.
pub fn parse_room_info_from_gmcp(gmcp: &str) -> (r: Option<RoomInfoUpdate>)
    ensures
        match r {
            Some(u) => spec_parse_room_info_from_gmcp(gmcp@) == Some((u.id@, u.name@, u.exits@)),
            None => spec_parse_room_info_from_gmcp(gmcp@) is None,
        },
{
    let g = chars_of(gmcp);
    let (topic, payload) = match crate::text::split_once_vec(&g, ' ') {
        Some((a, b)) => (a, b),
        None => (g, Vec::new()),
    };
    assert(split_topic(gmcp@) == (topic@, payload@));
    let t = trim_vec(&topic);
    if !lit_eq(&t, "Room.Info") {
        return None;
    }
    let p = trim_vec(&payload);
    let ps = string_of(&p);
    match crate::json::parse_json(ps.as_str()) {
        Some(j) => room_info_from_json(&j),
        None => None,
    }
}

impl WorldMap {
    /// Apply a GMCP message when it is a `Room.Info` update; returns whether
    /// the map was updated.
    pub fn apply_gmcp_message(&mut self, gmcp: &str) -> (b: bool)
        ensures
            b == spec_parse_room_info_from_gmcp(gmcp@) is Some,
            match spec_parse_room_info_from_gmcp(gmcp@) {
                Some((id, name, exits)) => final(self).rooms@ == spec_apply_room_info(
                    old(self).rooms@,
                    opt_view(old(self).current_room_id),
                    id,
                    name,
                    exits,
                ) && opt_view(final(self).current_room_id) == Some(id),
                None => final(self).rooms@ == old(self).rooms@ && final(self).current_room_id == old(self).current_room_id,
            },
    {
        match parse_room_info_from_gmcp(gmcp) {
            Some(u) => {
                self.apply_room_info(u);
                true
            },
            None => false,
        }
    }
}

} // verus!

verus! {

/// Id of the placeholder room the heuristic creates beyond exit `d` of
/// room `cur`: `"heur:<cur>:<direction>"`.
pub open spec fn heur_neighbor_id(cur: Seq<char>, d: Direction) -> Seq<char> {
    "heur:"@ + cur + ":"@ + spec_dir_name(d)
}

/// One exit of the heuristic: the current room gets exit `d` to the
/// placeholder neighbour unless it already has one; the neighbour is created
/// one step from `c` if missing, and gets the opposite exit back unless it
/// already has one.
pub open spec fn heur_step(
    rooms: Map<Seq<char>, RoomView>,
    room: RoomView,
    cur: Seq<char>,
    c: (i32, i32, i32),
    d: Direction,
) -> (Map<Seq<char>, RoomView>, RoomView) {
    let nid = heur_neighbor_id(cur, d);
    let room2 = if room.exits.contains_key(d) {
        room
    } else {
        RoomView { exits: room.exits.insert(d, nid), ..room }
    };
    let rooms1 = if rooms.contains_key(nid) {
        rooms
    } else {
        rooms.insert(
            nid,
            fresh_room(
                nid,
                "(unseen)"@,
                c.0.wrapping_add(spec_delta(d).0),
                c.1.wrapping_add(spec_delta(d).1),
                c.2.wrapping_add(spec_delta(d).2),
            ),
        )
    };
    let nr = rooms1[nid];
    let back = spec_opposite(d);
    let nr2 = if nr.exits.contains_key(back) {
        nr
    } else {
        RoomView { exits: nr.exits.insert(back, cur), ..nr }
    };
    (rooms1.insert(nid, nr2), room2)
}

/// The heuristic applied to each exit in turn.
pub open spec fn heur_fold(
    rooms: Map<Seq<char>, RoomView>,
    room: RoomView,
    cur: Seq<char>,
    c: (i32, i32, i32),
    dirs: Seq<Direction>,
) -> (Map<Seq<char>, RoomView>, RoomView)
    decreases dirs.len(),
{
    if dirs.len() == 0 {
        (rooms, room)
    } else {
        let (r1, m1) = heur_fold(rooms, room, cur, c, dirs.drop_last());
        heur_step(r1, m1, cur, c, dirs.last())
    }
}

/// Rooms and current room after the exits heuristic reads `line`
/// (already stripped of ANSI escapes): when the line announces exits, the
/// current room (a `"heuristic:start"` room named `"(unknown)"` when there is
/// none yet) gets stub exits and neighbours, as `heur_step` describes.
pub open spec fn spec_apply_exits_heuristic(
    rooms: Map<Seq<char>, RoomView>,
    current: Option<Seq<char>>,
    line: Seq<char>,
) -> (Map<Seq<char>, RoomView>, Option<Seq<char>>) {
    match spec_parse_exits_line(line) {
        None => (rooms, current),
        Some(dirs) => {
            let (rooms1, cur) = match current {
                Some(c) => (rooms, c),
                None => (
                    if rooms.contains_key("heuristic:start"@) {
                        rooms
                    } else {
                        rooms.insert(
                            "heuristic:start"@,
                            fresh_room("heuristic:start"@, "(unknown)"@, 0, 0, 0),
                        )
                    },
                    "heuristic:start"@,
                ),
            };
            let coords = if rooms1.contains_key(cur) {
                (rooms1[cur].x, rooms1[cur].y, rooms1[cur].z)
            } else {
                (0i32, 0i32, 0i32)
            };
            let room0 = if rooms1.contains_key(cur) {
                rooms1[cur]
            } else {
                fresh_room(cur, "(unknown)"@, coords.0, coords.1, coords.2)
            };
            let (rooms2, room2) = heur_fold(rooms1.remove(cur), room0, cur, coords, dirs);
            (rooms2.insert(cur, room2), Some(cur))
        },
    }
}

fn lit_string(s: &str) -> (r: String)
    ensures
        r@ == s@,
{
    let v = chars_of(s);
    string_of(&v)
}

impl WorldMap {
    /// Heuristic exit detection from raw server output: a line such as
    /// `"Exits: north, east"` (ANSI escapes ignored) gives the current room
    /// stub exits to placeholder rooms `"heur:<room>:<direction>"`, each
    /// linked back.  This is the fallback for servers without GMCP.
    pub fn apply_exits_heuristic_from_output(&mut self, raw_line: &str)
        ensures
            (final(self).rooms@, opt_view(final(self).current_room_id)) == spec_apply_exits_heuristic(
                old(self).rooms@,
                opt_view(old(self).current_room_id),
                spec_strip_ansi(raw_line@),
            ),
    {
        let clean = strip_ansi(raw_line);
        let exits = match parse_exits_line(clean.as_str()) {
            Some(e) => e,
            None => {
                return;
            },
        };
        let ghost r0 = self.rooms@;
        let cur_id: String = match &self.current_room_id {
            Some(c) => c.clone(),
            None => {
                let id = lit_string("heuristic:start");
                if !self.rooms.contains_key(id.as_str()) {
                    let r = new_room(id.as_str(), "(unknown)", 0, 0, 0);
                    self.rooms.insert(r);
                }
                self.current_room_id = Some(id.clone());
                id
            },
        };
        let ghost r1 = self.rooms@;
        let (cx, cy, cz) = match self.rooms.get(cur_id.as_str()) {
            Some(r) => (r.x, r.y, r.z),
            None => (0i32, 0i32, 0i32),
        };
        let mut room = match self.rooms.remove(cur_id.as_str()) {
            Some(r) => r,
            None => new_room(cur_id.as_str(), "(unknown)", cx, cy, cz),
        };
        let ghost room0 = room@;
        assert(room0 == (if r1.contains_key(cur_id@) {
            r1[cur_id@]
        } else {
            fresh_room(cur_id@, "(unknown)"@, cx, cy, cz)
        }));
        assert((cx, cy, cz) == (if r1.contains_key(cur_id@) {
            (r1[cur_id@].x, r1[cur_id@].y, r1[cur_id@].z)
        } else {
            (0i32, 0i32, 0i32)
        }));
        assert(opt_view(self.current_room_id) == Some(cur_id@));
        assert(match opt_view(old(self).current_room_id) {
            Some(c) => r1 == r0 && c == cur_id@,
            None => cur_id@ == "heuristic:start"@ && r1 == (if r0.contains_key("heuristic:start"@) {
                r0
            } else {
                r0.insert("heuristic:start"@, fresh_room("heuristic:start"@, "(unknown)"@, 0, 0, 0))
            }),
        });
        let mut i: usize = 0;
        while i < exits.len()
            invariant
                i <= exits@.len(),
                (self.rooms@, room@) == heur_fold(r1.remove(cur_id@), room0, cur_id@, (cx, cy, cz), exits@.take(i as int)),
                room.id@ == cur_id@,
                opt_view(self.current_room_id) == Some(cur_id@),
            decreases exits.len() - i,
        {
            let d = exits[i];
            assert(exits@.take(i + 1).drop_last() =~= exits@.take(i as int));
            assert(exits@.take(i + 1).last() == d);
            let mut nv = chars_of("heur:");
            let cv = chars_of(cur_id.as_str());
            nv = crate::text::concat_vec(&nv, &cv);
            nv.push(':');
            let dv = chars_of(d.as_str());
            nv = crate::text::concat_vec(&nv, &dv);
            let nid = string_of(&nv);
            proof {
                reveal_strlit(":");
                assert(nid@ =~= heur_neighbor_id(cur_id@, d));
            }
            if !room.exits.contains_key(&d) {
                room.exits.insert(d, nid.clone());
            }
            let (dx, dy, dz) = d.delta();
            if !self.rooms.contains_key(nid.as_str()) {
                let r = new_room(nid.as_str(), "(unseen)", cx.wrapping_add(dx), cy.wrapping_add(dy), cz.wrapping_add(dz));
                self.rooms.insert(r);
            }
            let ghost rooms1 = self.rooms@;
            match self.rooms.remove(nid.as_str()) {
                Some(mut nr) => {
                    let back = d.opposite();
                    if !nr.exits.contains_key(&back) {
                        nr.exits.insert(back, cur_id.clone());
                    }
                    self.rooms.insert(nr);
                    assert(self.rooms@ =~= rooms1.insert(nid@, rooms1[nid@]).insert(nid@, self.rooms@[nid@]));
                },
                None => {},
            }
            i += 1;
        }
        assert(exits@.take(exits.len() as int) =~= exits@);
        let ghost folded = heur_fold(r1.remove(cur_id@), room0, cur_id@, (cx, cy, cz), exits@);
        assert(self.rooms@ == folded.0 && room@ == folded.1);
        self.rooms.insert(room);
        assert(self.rooms@ == folded.0.insert(cur_id@, folded.1));
        assert(spec_apply_exits_heuristic(r0, opt_view(old(self).current_room_id), clean@) == (
            folded.0.insert(cur_id@, folded.1),
            Some(cur_id@),
        ));
    }
}

} // verus!

verus! {

/// A character kept in a map file name: ASCII letters and digits, `_` and `-`.
pub open spec fn is_file_name_char(c: char) -> bool {
    ('a' <= c <= 'z') || ('A' <= c <= 'Z') || ('0' <= c <= '9') || c == '_' || c == '-'
}

/// The file name under which the map of a server is stored: the server id
/// with every other character replaced by `_`, then `.map.json`.
pub open spec fn spec_map_file_name(server_id: Seq<char>) -> Seq<char> {
    server_id.map_values(|c: char| if is_file_name_char(c) { c } else { '_' }) + ".map.json"@
}

/// The file name under which the map of `server_id` is stored.
pub fn map_file_name(server_id: &str) -> (r: String)
    ensures
        r@ == spec_map_file_name(server_id@),
{
    let v = chars_of(server_id);
    let mut out: Vec<char> = Vec::new();
    let mut i: usize = 0;
    while i < v.len()
        invariant
            i <= v@.len(),
            out@ == v@.take(i as int).map_values(|c: char| if is_file_name_char(c) { c } else { '_' }),
        decreases v.len() - i,
    {
        let c = v[i];
        let ok = ('a' <= c && c <= 'z') || ('A' <= c && c <= 'Z') || ('0' <= c && c <= '9') || c == '_' || c == '-';
        out.push(if ok { c } else { '_' });
        proof {
            assert(out@ =~= v@.take(i + 1).map_values(|c: char| if is_file_name_char(c) { c } else { '_' }));
        }
        i += 1;
    }
    assert(v@.take(v@.len() as int) =~= v@);
    let suffix = chars_of(".map.json");
    let all = crate::text::concat_vec(&out, &suffix);
    string_of(&all)
}

proof fn lemma_try_position_keeps(rooms: Map<Seq<char>, RoomView>, from: Seq<char>, to: Seq<char>, k: Seq<char>)
    requires
        rooms.contains_key(k),
    ensures
        spec_try_position(rooms, from, to).contains_key(k),
        spec_try_position(rooms, from, to)[k].id == rooms[k].id,
        spec_try_position(rooms, from, to)[k].name == rooms[k].name,
        spec_try_position(rooms, from, to)[k].exits == rooms[k].exits,
        spec_try_position(rooms, from, to).dom() == rooms.dom(),
{
}

/// `b` is `a` with at most its coordinates changed.
pub open spec fn only_coordinates(a: RoomView, b: RoomView) -> bool {
    b == RoomView { x: b.x, y: b.y, z: b.z, ..a }
}

/// What positioning `to` relative to `from` may do to the rooms: the set of
/// rooms and every room's id, name and exits stay; every room other than
/// `from` and `to` stays as it was; and either nothing changes, or exactly
/// one of `to` and `from`, still at the origin before, gets new coordinates
/// and nothing else.
pub open spec fn positioning_frame(
    rooms: Map<Seq<char>, RoomView>,
    r: Map<Seq<char>, RoomView>,
    from: Seq<char>,
    to: Seq<char>,
) -> bool {
    &&& r.dom() == rooms.dom()
    &&& forall|k: Seq<char>| #[trigger] rooms.contains_key(k) ==>
            r[k].id == rooms[k].id && r[k].name == rooms[k].name && r[k].exits == rooms[k].exits
    &&& forall|k: Seq<char>| #[trigger] rooms.contains_key(k) && k != from && k != to ==> r[k] == rooms[k]
    &&& forall|k: Seq<char>| #[trigger] rooms.contains_key(k) && r[k] != rooms[k] ==> at_origin(rooms[k])
    &&& forall|k1: Seq<char>, k2: Seq<char>|
            #[trigger] rooms.contains_key(k1) && #[trigger] rooms.contains_key(k2)
            && r[k1] != rooms[k1] && r[k2] != rooms[k2] ==> k1 == k2
    &&& {
        ||| r == rooms
        ||| rooms.contains_key(to) && at_origin(rooms[to]) && only_coordinates(rooms[to], r[to])
                && r == rooms.insert(to, r[to])
        ||| rooms.contains_key(from) && at_origin(rooms[from]) && only_coordinates(rooms[from], r[from])
                && r == rooms.insert(from, r[from])
    }
}

/// Placing rooms by their exits (`try_position_relative`) keeps the set of
/// rooms and every room's id, name and exits, leaves every room other than
/// `from` and `to` as it was, and moves at most one room, one that was still
/// at the origin.
pub proof fn law_try_position_frame(rooms: Map<Seq<char>, RoomView>, from: Seq<char>, to: Seq<char>)
    ensures
        positioning_frame(rooms, spec_try_position(rooms, from, to), from, to),
{
    let r = spec_try_position(rooms, from, to);
    if rooms.contains_key(from) {
        let f = rooms[from];
        match first_dir_to(f.exits, to) {
            Some(d) => {
                if rooms.contains_key(to) && at_origin(rooms[to]) {
                    let t = step_from(rooms[to], f, d);
                    assert(r == rooms.insert(to, t));
                    assert(r[to] == t);
                    assert(only_coordinates(rooms[to], t));
                    assert(r.dom() =~= rooms.dom());
                }
            },
            None => {
                if rooms.contains_key(to) {
                    match first_dir_to(rooms[to].exits, from) {
                        Some(d) => {
                            if at_origin(f) {
                                let t = step_from(f, rooms[to], d);
                                assert(r == rooms.insert(from, t));
                                assert(r[from] == t);
                                assert(only_coordinates(f, t));
                                assert(r.dom() =~= rooms.dom());
                            }
                        },
                        None => {},
                    }
                }
            },
        }
    }
}

/// Whether two rooms stand at the same coordinates.
pub open spec fn same_place(a: RoomView, b: RoomView) -> bool {
    a.x == b.x && a.y == b.y && a.z == b.z
}

/// A room update never overwrites coordinates: afterwards the map holds the
/// same rooms plus the updated one; every room keeps its coordinates, except
/// that a room still at the origin may be placed next to the other when the
/// update moves from one room to a different one (only the previous room and
/// the updated one can be placed that way); a room new to the map starts at
/// the origin; rooms other than these two are untouched.
pub proof fn law_room_info_keeps_coordinates(
    rooms: Map<Seq<char>, RoomView>,
    current: Option<Seq<char>>,
    id: Seq<char>,
    name: Seq<char>,
    exits: Map<Direction, Seq<char>>,
)
    ensures
        ({
            let r = spec_apply_room_info(rooms, current, id, name, exits);
            let moving = match current {
                Some(p) => p != id,
                None => false,
            };
            &&& r.dom() == rooms.dom().insert(id)
            &&& forall|k: Seq<char>| #[trigger] rooms.contains_key(k) && !at_origin(rooms[k]) ==> same_place(r[k], rooms[k])
            &&& forall|k: Seq<char>| #[trigger] rooms.contains_key(k) && !moving ==> same_place(r[k], rooms[k])
            &&& forall|k: Seq<char>| #[trigger] rooms.contains_key(k) && k != id && current != Some(k) ==> r[k] == rooms[k]
            &&& !rooms.contains_key(id) && !moving ==> at_origin(r[id])
        }),
{
    let room = if rooms.contains_key(id) {
        RoomView { name, exits, ..rooms[id] }
    } else {
        RoomView { id, name, x: 0, y: 0, z: 0, exits }
    };
    let r1 = rooms.insert(id, room);
    assert(r1.dom() =~= rooms.dom().insert(id));
    match current {
        Some(p) => if p != id {
            law_try_position_frame(r1, p, id);
            let r = spec_try_position(r1, p, id);
            assert forall|k: Seq<char>| #[trigger] rooms.contains_key(k) && !at_origin(rooms[k]) implies same_place(r[k], rooms[k]) by {
                assert(r1.contains_key(k));
                assert(same_place(r1[k], rooms[k]));
                if r[k] != r1[k] {
                    assert(at_origin(r1[k]));
                }
            }
            assert forall|k: Seq<char>| #[trigger] rooms.contains_key(k) && k != id && current != Some(k) implies r[k] == rooms[k] by {
                assert(r1.contains_key(k));
            }
        },
        None => {},
    }
}

/// Linking rooms gives both of them an exit: `from` leads to `to` in
/// direction `dir`, and `to` leads back to `from` the opposite way.
pub proof fn law_link_rooms_bidirectional(rooms: Map<Seq<char>, RoomView>, from: Seq<char>, dir: Direction, to: Seq<char>)
    ensures
        ({
            let r = spec_link_rooms(rooms, from, dir, to);
            &&& r.contains_key(from) && r.contains_key(to)
            &&& r[from].exits.contains_key(dir) && r[from].exits[dir] == to
            &&& r[to].exits.contains_key(spec_opposite(dir)) && r[to].exits[spec_opposite(dir)] == from
        }),
{
    let r1 = set_exit(ensure_room(rooms, from), from, dir, to);
    let r2 = set_exit(ensure_room(r1, to), to, spec_opposite(dir), from);
    assert(spec_opposite(dir) != dir);
    lemma_try_position_keeps(r2, from, to, from);
    lemma_try_position_keeps(r2, from, to, to);
}

/// Placing a room puts it at the given position, keeping its name and
/// exits, and moves no other room.
pub proof fn law_set_position_places(rooms: Map<Seq<char>, RoomView>, id: Seq<char>, x: i32, y: i32, z: i32, other: Seq<char>)
    ensures
        ({
            let r = spec_set_room_position(rooms, id, x, y, z);
            &&& r.contains_key(id) && r[id].x == x && r[id].y == y && r[id].z == z
            &&& rooms.contains_key(id) ==> r[id].name == rooms[id].name && r[id].exits == rooms[id].exits
            &&& other != id ==> (r.contains_key(other) == rooms.contains_key(other))
            &&& other != id && rooms.contains_key(other) ==> r[other] == rooms[other]
        }),
{
}

/// A room update names the room and sets its exits as received, whether
/// the room was known before or not.
pub proof fn law_room_info_names_room(
    rooms: Map<Seq<char>, RoomView>,
    current: Option<Seq<char>>,
    id: Seq<char>,
    name: Seq<char>,
    exits: Map<Direction, Seq<char>>,
)
    ensures
        ({
            let r = spec_apply_room_info(rooms, current, id, name, exits);
            r.contains_key(id) && r[id].name == name && r[id].exits == exits
        }),
{
    let room = if rooms.contains_key(id) {
        RoomView { name, exits, ..rooms[id] }
    } else {
        RoomView { id, name, x: 0, y: 0, z: 0, exits }
    };
    let r1 = rooms.insert(id, room);
    match current {
        Some(p) => if p != id {
            lemma_try_position_keeps(r1, p, id, id);
        },
        None => {},
    }
}

proof fn lemma_heur_fold_exits(rooms: Map<Seq<char>, RoomView>, room: RoomView, cur: Seq<char>, c: (i32, i32, i32), dirs: Seq<Direction>)
    ensures
        forall|d: Direction| #[trigger] room.exits.contains_key(d) ==> heur_fold(rooms, room, cur, c, dirs).1.exits.contains_key(d),
        forall|i: int| 0 <= i < dirs.len() ==> heur_fold(rooms, room, cur, c, dirs).1.exits.contains_key(#[trigger] dirs[i]),
    decreases dirs.len(),
{
    if dirs.len() > 0 {
        lemma_heur_fold_exits(rooms, room, cur, c, dirs.drop_last());
        assert forall|i: int| 0 <= i < dirs.len() implies heur_fold(rooms, room, cur, c, dirs).1.exits.contains_key(#[trigger] dirs[i]) by {
            if i < dirs.len() - 1 {
                assert(dirs.drop_last()[i] == dirs[i]);
            }
        }
    }
}

/// An exits line gives the current room (a new one when there was none)
/// an exit in every direction it lists.
pub proof fn law_heuristic_adds_listed_exits(rooms: Map<Seq<char>, RoomView>, current: Option<Seq<char>>, line: Seq<char>)
    requires
        spec_parse_exits_line(line) is Some,
    ensures
        ({
            let dirs = spec_parse_exits_line(line)->0;
            let (r, c) = spec_apply_exits_heuristic(rooms, current, line);
            &&& c is Some
            &&& r.contains_key(c->0)
            &&& forall|i: int| 0 <= i < dirs.len() ==> r[c->0].exits.contains_key(#[trigger] dirs[i])
        }),
{
    let dirs = spec_parse_exits_line(line)->0;
    let (rooms1, cur) = match current {
        Some(c) => (rooms, c),
        None => (
            if rooms.contains_key("heuristic:start"@) {
                rooms
            } else {
                rooms.insert("heuristic:start"@, fresh_room("heuristic:start"@, "(unknown)"@, 0, 0, 0))
            },
            "heuristic:start"@,
        ),
    };
    let coords = if rooms1.contains_key(cur) {
        (rooms1[cur].x, rooms1[cur].y, rooms1[cur].z)
    } else {
        (0i32, 0i32, 0i32)
    };
    let room0 = if rooms1.contains_key(cur) {
        rooms1[cur]
    } else {
        fresh_room(cur, "(unknown)"@, coords.0, coords.1, coords.2)
    };
    lemma_heur_fold_exits(rooms1.remove(cur), room0, cur, coords, dirs);
}

proof fn lemma_heur_step_grows(rooms: Map<Seq<char>, RoomView>, room: RoomView, cur: Seq<char>, c: (i32, i32, i32), d: Direction)
    ensures
        forall|k: Seq<char>, e: Direction| #[trigger] rooms.contains_key(k) && rooms[k].exits.contains_key(e)
            ==> heur_step(rooms, room, cur, c, d).0.contains_key(k) && #[trigger] heur_step(rooms, room, cur, c, d).0[k].exits.contains_key(e),
        heur_step(rooms, room, cur, c, d).0.contains_key(heur_neighbor_id(cur, d)),
        heur_step(rooms, room, cur, c, d).0[heur_neighbor_id(cur, d)].exits.contains_key(spec_opposite(d)),
{
}

proof fn lemma_heur_fold_back(rooms: Map<Seq<char>, RoomView>, room: RoomView, cur: Seq<char>, c: (i32, i32, i32), dirs: Seq<Direction>)
    ensures
        forall|i: int| 0 <= i < dirs.len() ==> heur_fold(rooms, room, cur, c, dirs).0.contains_key(heur_neighbor_id(cur, #[trigger] dirs[i]))
            && heur_fold(rooms, room, cur, c, dirs).0[heur_neighbor_id(cur, dirs[i])].exits.contains_key(spec_opposite(dirs[i])),
    decreases dirs.len(),
{
    if dirs.len() > 0 {
        let d0 = dirs.drop_last();
        lemma_heur_fold_back(rooms, room, cur, c, d0);
        let (r1, m1) = heur_fold(rooms, room, cur, c, d0);
        lemma_heur_step_grows(r1, m1, cur, c, dirs.last());
        assert forall|i: int| 0 <= i < dirs.len() implies heur_fold(rooms, room, cur, c, dirs).0.contains_key(heur_neighbor_id(cur, #[trigger] dirs[i]))
            && heur_fold(rooms, room, cur, c, dirs).0[heur_neighbor_id(cur, dirs[i])].exits.contains_key(spec_opposite(dirs[i])) by {
            if i < dirs.len() - 1 {
                assert(d0[i] == dirs[i]);
                let k = heur_neighbor_id(cur, dirs[i]);
                assert(r1.contains_key(k) && r1[k].exits.contains_key(spec_opposite(dirs[i])));
            }
        }
    }
}

/// An exits line leaves, for every direction it lists, a placeholder
/// neighbour `heur:<current>:<direction>` with an exit back the opposite way.
pub proof fn law_heuristic_links_back(rooms: Map<Seq<char>, RoomView>, current: Option<Seq<char>>, line: Seq<char>)
    requires
        spec_parse_exits_line(line) is Some,
    ensures
        ({
            let dirs = spec_parse_exits_line(line)->0;
            let (r, c) = spec_apply_exits_heuristic(rooms, current, line);
            forall|i: int| 0 <= i < dirs.len() ==> r.contains_key(heur_neighbor_id(c->0, #[trigger] dirs[i]))
                && r[heur_neighbor_id(c->0, dirs[i])].exits.contains_key(spec_opposite(dirs[i]))
        }),
{
    let dirs = spec_parse_exits_line(line)->0;
    let (rooms1, cur) = match current {
        Some(c) => (rooms, c),
        None => (
            if rooms.contains_key("heuristic:start"@) {
                rooms
            } else {
                rooms.insert("heuristic:start"@, fresh_room("heuristic:start"@, "(unknown)"@, 0, 0, 0))
            },
            "heuristic:start"@,
        ),
    };
    let coords = if rooms1.contains_key(cur) {
        (rooms1[cur].x, rooms1[cur].y, rooms1[cur].z)
    } else {
        (0i32, 0i32, 0i32)
    };
    let room0 = if rooms1.contains_key(cur) {
        rooms1[cur]
    } else {
        fresh_room(cur, "(unknown)"@, coords.0, coords.1, coords.2)
    };
    lemma_heur_fold_back(rooms1.remove(cur), room0, cur, coords, dirs);
    assert forall|i: int| 0 <= i < dirs.len() implies heur_neighbor_id(cur, #[trigger] dirs[i]) != cur by {
        reveal_strlit("heur:");
        assert(heur_neighbor_id(cur, dirs[i]).len() > cur.len());
    }
}

} // verus!

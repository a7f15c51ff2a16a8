//! The player's own board: a ten-by-ten grid of tiles, the fleet of ships,
//! parsing of coordinate ranges such as `a1-a3`, and the placement rules —
//! a ship needs every tile of its segment, and its whole neighbourhood,
//! free.  Prompting the player again after a bad input is the caller's
//! loop; here each attempt is one call.

use vstd::prelude::*;
use crate::error::{PlacingShipsError, UserInputError};
use crate::text::{digit_of, split_first_at};

verus! {

/// The classes of ship in the fleet.
#[derive(PartialEq, Eq, Structural, Debug, Clone, Copy)]
pub enum ShipType {
    Carrier,
    Battleship,
    Cruiser,
    Submarine,
    Destroyer,
}

/// How many tiles a ship of this class covers.
pub open spec fn spec_ship_size(t: ShipType) -> u8 {
    match t {
        ShipType::Carrier => 5,
        ShipType::Battleship => 4,
        ShipType::Cruiser => 3,
        ShipType::Submarine => 3,
        ShipType::Destroyer => 2,
    }
}

/// The display name of a ship of this class.
pub open spec fn spec_ship_name(t: ShipType) -> Seq<char> {
    match t {
        ShipType::Carrier => "carrier"@,
        ShipType::Battleship => "battleship"@,
        ShipType::Cruiser => "cruiser"@,
        ShipType::Submarine => "submarine"@,
        ShipType::Destroyer => "destroyer"@,
    }
}

/// One ship of the fleet.
#[derive(Debug)]
pub struct Ship {
    ship_type: ShipType,
    size: u8,
    name: &'static str,
    destroyed: bool,
}

impl View for Ship {
    type V = ShipType;

    closed spec fn view(&self) -> ShipType {
        self.ship_type
    }
}

impl Ship {
    /// The stored size, as the specification sees it.
    pub closed spec fn size_spec(&self) -> u8 {
        self.size
    }

    /// The stored name, as the text it spells.
    pub closed spec fn name_spec(&self) -> Seq<char> {
        self.name@
    }

    /// A ship carries the size and name its class dictates.
    pub open spec fn wf(&self) -> bool {
        self.size_spec() == spec_ship_size(self@) && self.name_spec() == spec_ship_name(self@)
    }

    fn get_ship_size(ship_type: &ShipType) -> (r: u8)
        ensures
            r == spec_ship_size(*ship_type),
    {
        match ship_type {
            ShipType::Carrier => 5,
            ShipType::Battleship => 4,
            ShipType::Cruiser => 3,
            ShipType::Submarine => 3,
            ShipType::Destroyer => 2,
        }
    }

    fn get_ship_name(ship_type: &ShipType) -> (r: &'static str)
        ensures
            r@ == spec_ship_name(*ship_type),
    {
        match ship_type {
            ShipType::Carrier => "carrier",
            ShipType::Battleship => "battleship",
            ShipType::Cruiser => "cruiser",
            ShipType::Submarine => "submarine",
            ShipType::Destroyer => "destroyer",
        }
    }

    pub fn new(ship_type: ShipType) -> (r: Self)
        ensures
            r@ == ship_type,
            r.wf(),
    {
        let size = Ship::get_ship_size(&ship_type);
        let name = Ship::get_ship_name(&ship_type);
        Ship { ship_type, size, name, destroyed: false }
    }

    /// How many tiles this ship covers.
    pub fn size(&self) -> (r: u8)
        ensures
            r == self.size_spec(),
    {
        self.size
    }

    /// The ship's display name.
    pub fn name(&self) -> (r: &str)
        ensures
            r@ == self.name_spec(),
    {
        self.name
    }
}

// ---------------------------------------------------------------------------
// Coordinates
// ---------------------------------------------------------------------------

/// The row a coordinate letter names, `a` through `j`.
pub open spec fn letter_index(c: char) -> Option<usize> {
    if c == 'a' {
        Some(0usize)
    } else if c == 'b' {
        Some(1usize)
    } else if c == 'c' {
        Some(2usize)
    } else if c == 'd' {
        Some(3usize)
    } else if c == 'e' {
        Some(4usize)
    } else if c == 'f' {
        Some(5usize)
    } else if c == 'g' {
        Some(6usize)
    } else if c == 'h' {
        Some(7usize)
    } else if c == 'i' {
        Some(8usize)
    } else if c == 'j' {
        Some(9usize)
    } else {
        None
    }
}

/// What one coordinate such as `a1` or `j10` means: its row and column
/// indices.  A letter outside `a`..`j` or a number outside 1..=10 means
/// nothing.
pub open spec fn spec_decode_indexes(s: Seq<char>) -> Option<(usize, usize)> {
    if s.len() < 2 || s.len() > 3 {
        None
    } else {
        match (letter_index(s[0]), digit_of(s[1])) {
            (Some(li), Some(d1)) => {
                if s.len() == 2 {
                    if d1 >= 1 {
                        Some((li, (d1 - 1) as usize))
                    } else {
                        None
                    }
                } else {
                    match digit_of(s[2]) {
                        Some(d2) => {
                            if 1 <= d1 * 10 + d2 <= 10 {
                                Some((li, (d1 * 10 + d2 - 1) as usize))
                            } else {
                                None
                            }
                        },
                        None => None,
                    }
                }
            },
            _ => None,
        }
    }
}

fn letter_index_exec(c: char) -> (r: Option<usize>)
    ensures
        r == letter_index(c),
{
    match c {
        'a' => Some(0),
        'b' => Some(1),
        'c' => Some(2),
        'd' => Some(3),
        'e' => Some(4),
        'f' => Some(5),
        'g' => Some(6),
        'h' => Some(7),
        'i' => Some(8),
        'j' => Some(9),
        _ => None,
    }
}

fn decode_indexes_chars(v: &[char]) -> (r: Result<(usize, usize), UserInputError>)
    ensures
        match spec_decode_indexes(v@) {
            Some(c) => r matches Ok(p) && p == c && p.0 < 10 && p.1 < 10,
            None => r is Err,
        },
{
    let n = v.len();
    if n < 2 || n > 3 {
        return Err(UserInputError::new("Wrong format".to_owned()));
    }
    let li = match letter_index_exec(*vstd::slice::slice_index_get(v, 0)) {
        Some(li) => li,
        None => {
            return Err(
                UserInputError::new("Such letters are not allowed in coordinates".to_owned()),
            );
        },
    };
    let d1 = match crate::text::char_to_digit(*vstd::slice::slice_index_get(v, 1)) {
        Some(d) => d,
        None => {
            return Err(UserInputError::new("Wrong format".to_owned()));
        },
    };
    if n == 2 {
        if d1 >= 1 {
            Ok((li, (d1 - 1) as usize))
        } else {
            Err(UserInputError::new("Wrong format".to_owned()))
        }
    } else {
        let d2 = match crate::text::char_to_digit(*vstd::slice::slice_index_get(v, 2)) {
            Some(d) => d,
            None => {
                return Err(UserInputError::new("Wrong format".to_owned()));
            },
        };
        let value = d1 * 10 + d2;
        if 1 <= value && value <= 10 {
            Ok((li, (value - 1) as usize))
        } else {
            Err(UserInputError::new("Wrong format".to_owned()))
        }
    }
}

/// What one written coordinate means, if anything.
pub fn decode_indexes(indexes: &str) -> (r: Result<(usize, usize), UserInputError>)
    ensures
        match spec_decode_indexes(indexes@) {
            Some(c) => r matches Ok(p) && p == c && p.0 < 10 && p.1 < 10,
            None => r is Err,
        },
{
    let v = crate::text::str_to_chars(indexes);
    decode_indexes_chars(v.as_slice())
}

/// What a placement input such as `a1-a3` means for a ship of the given
/// size: the tiles of the segment between the two coordinates, in order
/// from the lesser end, when the ends line up and span exactly the ship's
/// length.
pub open spec fn spec_decode_placing(s: Seq<char>, size: int) -> Option<Seq<(usize, usize)>> {
    match split_first_at(s, '-') {
        None => None,
        Some(f) => {
            if f.1.contains('-') {
                None
            } else {
                match (spec_decode_indexes(f.0), spec_decode_indexes(f.1)) {
                    (Some(c1), Some(c2)) => {
                        if c1.0 == c2.0 {
                            let lesser = if c1.1 <= c2.1 {
                                c1.1
                            } else {
                                c2.1
                            };
                            let greater = if c1.1 <= c2.1 {
                                c2.1
                            } else {
                                c1.1
                            };
                            if greater - lesser == size - 1 {
                                Some(Seq::new(size as nat, |k: int| (c1.0, (lesser + k) as usize)))
                            } else {
                                None
                            }
                        } else if c1.1 == c2.1 {
                            let lesser = if c1.0 <= c2.0 {
                                c1.0
                            } else {
                                c2.0
                            };
                            let greater = if c1.0 <= c2.0 {
                                c2.0
                            } else {
                                c1.0
                            };
                            if greater - lesser == size - 1 {
                                Some(Seq::new(size as nat, |k: int| ((lesser + k) as usize, c1.1)))
                            } else {
                                None
                            }
                        } else {
                            None
                        }
                    },
                    _ => None,
                }
            }
        },
    }
}

/// What a written placement input means for this ship, if anything.
#[verifier::loop_isolation(false)]
pub fn decode_ship_placing_input(input: &str, ship: &Ship) -> (r: Result<
    Vec<(usize, usize)>,
    UserInputError,
>)
    requires
        ship.wf(),
    ensures
        match spec_decode_placing(input@, spec_ship_size(ship@) as int) {
            Some(cs) => {
                &&& r matches Ok(v)
                &&& v@ == cs
                &&& forall|k: int|
                    0 <= k < v@.len() ==> (#[trigger] v@[k]).0 < 10 && v@[k].1 < 10
            },
            None => r is Err,
        },
{
    let chars = crate::text::str_to_chars(input);
    let v = chars.as_slice();
    let n = v.len();
    let ghost s = v@;
    // Find the hyphen, and refuse a second one.
    let mut h: usize = 0;
    while h < n && *vstd::slice::slice_index_get(v, h) != '-'
        invariant
            h <= n,
            n == s.len(),
            s == v@,
            forall|j: int| 0 <= j < h ==> s[j] != '-',
        decreases n - h,
    {
        h = h + 1;
    }
    if h == n {
        proof {
            assert(!s.contains('-')) by {
                if s.contains('-') {
                    let j = choose|j: int| 0 <= j < s.len() && s[j] == '-';
                }
            }
            crate::text::lemma_split_at_none(s, '-');
        }
        return Err(UserInputError::new("Missing hyphen".to_owned()));
    }
    proof {
        assert(s[h as int] == '-');
        assert(s =~= s.take(h as int) + seq!['-'] + s.skip(h as int + 1));
        assert(!s.take(h as int).contains('-')) by {
            if s.take(h as int).contains('-') {
                let j = choose|j: int| 0 <= j < h && s.take(h as int)[j] == '-';
            }
        }
        crate::text::lemma_split_at_concat(s.take(h as int), '-', s.skip(h as int + 1));
    }
    let f1 = vstd::slice::slice_subrange(v, 0, h);
    let f2 = vstd::slice::slice_subrange(v, h + 1, n);
    // The remainder must hold no further hyphen.
    let mut t: usize = 0;
    let m = f2.len();
    while t < m
        invariant
            t <= m,
            m == f2@.len(),
            f2@ == s.skip(h as int + 1),
            forall|j: int| 0 <= j < t ==> f2@[j] != '-',
        decreases m - t,
    {
        if *vstd::slice::slice_index_get(f2, t) == '-' {
            proof {
                assert(f2@.contains('-'));
            }
            return Err(UserInputError::new("Wrong format".to_owned()));
        }
        t = t + 1;
    }
    proof {
        assert(!f2@.contains('-')) by {
            if f2@.contains('-') {
                let j = choose|j: int| 0 <= j < f2@.len() && f2@[j] == '-';
            }
        }
    }
    let c1 = match decode_indexes_chars(f1) {
        Ok(c) => c,
        Err(e) => {
            return Err(e);
        },
    };
    let c2 = match decode_indexes_chars(f2) {
        Ok(c) => c,
        Err(e) => {
            return Err(e);
        },
    };
    let size = ship.size();
    let (fixed_row, lesser, greater, vertical) = if c1.0 == c2.0 {
        let lesser = if c1.1 <= c2.1 {
            c1.1
        } else {
            c2.1
        };
        let greater = if c1.1 <= c2.1 {
            c2.1
        } else {
            c1.1
        };
        (c1.0, lesser, greater, false)
    } else if c1.1 == c2.1 {
        let lesser = if c1.0 <= c2.0 {
            c1.0
        } else {
            c2.0
        };
        let greater = if c1.0 <= c2.0 {
            c2.0
        } else {
            c1.0
        };
        (c1.1, lesser, greater, true)
    } else {
        return Err(UserInputError::new("Coordinates are not in line".to_owned()));
    };
    if greater - lesser != (size - 1) as usize {
        return Err(
            UserInputError::new(
                "This range is either too long or too short for this ship".to_owned(),
            ),
        );
    }
    let mut out: Vec<(usize, usize)> = Vec::new();
    let mut k: usize = 0;
    let count = size as usize;
    while k < count
        invariant
            k <= count,
            count == spec_ship_size(ship@),
            lesser + count - 1 == greater <= 9,
            fixed_row < 10,
            out@.len() == k,
            forall|j: int|
                0 <= j < k ==> #[trigger] out@[j] == if vertical {
                    (((lesser + j) as usize), fixed_row)
                } else {
                    (fixed_row, ((lesser + j) as usize))
                },
        decreases count - k,
    {
        if vertical {
            out.push((lesser + k, fixed_row));
        } else {
            out.push((fixed_row, lesser + k));
        }
        k = k + 1;
    }
    proof {
        let cs = spec_decode_placing(s, spec_ship_size(ship@) as int).unwrap();
        assert(out@ =~= cs);
    }
    Ok(out)
}

// ---------------------------------------------------------------------------
// The board
// ---------------------------------------------------------------------------

/// One tile: whether it was shot at, and the class of ship on it, if any.
#[derive(Debug, Clone, Copy)]
struct OwnTile {
    shot: bool,
    ship: Option<ShipType>,
}

impl OwnTile {
    fn new() -> (r: Self)
        ensures
            r.ship is None,
            !r.shot,
    {
        OwnTile { shot: false, ship: None }
    }
}

/// The mathematical content of a board: what ship, if any, each of the
/// hundred tiles carries (row-major), and whether placement has finished.
pub struct BoardView {
    pub ships: Seq<Option<ShipType>>,
    pub placed: bool,
}

/// The player's own board.
#[derive(Debug)]
pub struct OwnBoard {
    tiles: Vec<OwnTile>,
    ships_placed: bool,
}

impl View for OwnBoard {
    type V = BoardView;

    closed spec fn view(&self) -> BoardView {
        BoardView {
            ships: self.tiles@.map_values(|t: OwnTile| t.ship),
            placed: self.ships_placed,
        }
    }
}

/// A board has exactly its hundred tiles.
pub open spec fn board_wf(b: BoardView) -> bool {
    b.ships.len() == 100
}

/// The tiles a placement covers, as positions in the row-major grid.
pub open spec fn covers(coords: Seq<(usize, usize)>, n: int) -> bool {
    exists|k: int| 0 <= k < coords.len() && n == (#[trigger] coords[k]).0 * 10 + coords[k].1
}

/// The whole neighbourhood of the tile `(i, j)` — the tile itself and every
/// adjacent one — is free of ships.
pub open spec fn clear_around(ships: Seq<Option<ShipType>>, i: int, j: int) -> bool {
    forall|k: int, l: int|
        0 <= k < 10 && 0 <= l < 10 && i - 1 <= k <= i + 1 && j - 1 <= l <= j + 1 ==> (
        #[trigger] ships[k * 10 + l]) is None
}

/// Every tile of the placement has a free neighbourhood.
pub open spec fn all_clear(ships: Seq<Option<ShipType>>, coords: Seq<(usize, usize)>) -> bool {
    forall|k: int|
        0 <= k < coords.len() ==> clear_around(
            ships,
            (#[trigger] coords[k]).0 as int,
            coords[k].1 as int,
        )
}

/// The board after the placement: the covered tiles carry the ship, the
/// rest are as before.
pub open spec fn place_coords(
    ships: Seq<Option<ShipType>>,
    coords: Seq<(usize, usize)>,
    st: ShipType,
) -> Seq<Option<ShipType>> {
    Seq::new(
        ships.len(),
        |n: int|
            if covers(coords, n) {
                Some(st)
            } else {
                ships[n]
            },
    )
}

/// One placement attempt on the board's tiles: what it leaves, if the input
/// names a segment and its neighbourhood is free.
pub open spec fn spec_place_step(
    ships: Seq<Option<ShipType>>,
    st: ShipType,
    input: Seq<char>,
) -> Option<Seq<Option<ShipType>>> {
    match spec_decode_placing(input, spec_ship_size(st) as int) {
        None => None,
        Some(coords) => if all_clear(ships, coords) {
            Some(place_coords(ships, coords, st))
        } else {
            None
        },
    }
}

/// A whole fleet placed in order, one input per ship.
pub open spec fn spec_place_all(
    ships: Seq<Option<ShipType>>,
    types: Seq<ShipType>,
    inputs: Seq<Seq<char>>,
) -> Option<Seq<Option<ShipType>>>
    decreases types.len(),
{
    if types.len() == 0 {
        Some(ships)
    } else {
        match spec_place_step(ships, types[0], inputs[0]) {
            None => None,
            Some(s2) => spec_place_all(s2, types.drop_first(), inputs.drop_first()),
        }
    }
}

impl OwnBoard {
    /// An empty board: no ships, nothing shot, placement not finished.
    #[verifier::loop_isolation(false)]
    pub fn new() -> (r: Self)
        ensures
            board_wf(r@),
            !r@.placed,
            forall|n: int| 0 <= n < 100 ==> (#[trigger] r@.ships[n]) is None,
    {
        let mut tiles: Vec<OwnTile> = Vec::new();
        let mut i: usize = 0;
        while i < 100
            invariant
                i <= 100,
                tiles@.len() == i,
                forall|n: int| 0 <= n < i ==> (#[trigger] tiles@[n]).ship is None,
            decreases 100 - i,
        {
            tiles.push(OwnTile::new());
            i = i + 1;
        }
        let r = OwnBoard { tiles, ships_placed: false };
        proof {
            assert(forall|n: int| 0 <= n < 100 ==> (#[trigger] r@.ships[n]) is None);
        }
        r
    }

    /// Whether placement has finished.
    pub fn ships_placed(&self) -> (r: bool)
        ensures
            r == self@.placed,
    {
        self.ships_placed
    }

    /// The ship, if any, on the given tile.
    pub fn ship_at(&self, i: usize, j: usize) -> (r: Option<ShipType>)
        requires
            board_wf(self@),
            i < 10,
            j < 10,
        ensures
            r == self@.ships[i * 10 + j],
    {
        self.tiles[i * 10 + j].ship
    }

    /// Put the ship on the given tiles, if every one of them and its whole
    /// neighbourhood is free; otherwise leave the board unchanged.
    #[verifier::loop_isolation(false)]
    fn place_on_tiles(&mut self, coordinates: &Vec<(usize, usize)>, ship: &Ship) -> (r: Result<
        (),
        PlacingShipsError,
    >)
        requires
            board_wf(old(self)@),
            forall|k: int|
                0 <= k < coordinates@.len() ==> (#[trigger] coordinates@[k]).0 < 10
                    && coordinates@[k].1 < 10,
        ensures
            board_wf(final(self)@),
            final(self)@.placed == old(self)@.placed,
            all_clear(old(self)@.ships, coordinates@) ==> r is Ok && final(self)@.ships
                == place_coords(old(self)@.ships, coordinates@, ship@),
            !all_clear(old(self)@.ships, coordinates@) ==> r is Err && *final(self) == *old(self),
    {
        let n = coordinates.len();
        // First pass: every tile of the segment, and its neighbourhood,
        // must be free.
        let mut m: usize = 0;
        while m < n
            invariant
                m <= n,
                n == coordinates@.len(),
                *self == *old(self),
                board_wf(self@),
                forall|k: int|
                    0 <= k < coordinates@.len() ==> (#[trigger] coordinates@[k]).0 < 10
                        && coordinates@[k].1 < 10,
                forall|k: int|
                    0 <= k < m ==> clear_around(
                        self@.ships,
                        (#[trigger] coordinates@[k]).0 as int,
                        coordinates@[k].1 as int,
                    ),
            decreases n - m,
        {
            let (i, j) = coordinates[m];
            if self.tiles[i * 10 + j].ship.is_some() {
                proof {
                    assert(self@.ships[i * 10 + j] == self.tiles@[i * 10 + j].ship);
                    assert(!clear_around(self@.ships, i as int, j as int));
                    assert(!all_clear(self@.ships, coordinates@));
                }
                return Err(PlacingShipsError::new("Tile is not empty".to_owned()));
            }
            let top = if i > 0 {
                i - 1
            } else {
                0
            };
            let down = if i < 9 {
                i + 1
            } else {
                9
            };
            let left = if j > 0 {
                j - 1
            } else {
                0
            };
            let right = if j < 9 {
                j + 1
            } else {
                9
            };
            let mut k = top;
            while k < down + 1
                invariant
                    top <= k <= down + 1,
                    down <= 9,
                    right <= 9,
                    i < 10,
                    j < 10,
                    top == if i > 0 { (i - 1) as int } else { 0int },
                    down == if i < 9 { (i + 1) as int } else { 9int },
                    left == if j > 0 { (j - 1) as int } else { 0int },
                    right == if j < 9 { (j + 1) as int } else { 9int },
                    *self == *old(self),
                    board_wf(self@),
                    forall|a: int, b: int|
                        top <= a < k && left <= b <= right ==> (#[trigger] self@.ships[a * 10
                            + b]) is None,
                decreases down + 1 - k,
            {
                let mut l = left;
                while l < right + 1
                    invariant
                        top <= k <= down,
                        left <= l <= right + 1,
                        down <= 9,
                        right <= 9,
                        i < 10,
                        j < 10,
                        top == if i > 0 { (i - 1) as int } else { 0int },
                        down == if i < 9 { (i + 1) as int } else { 9int },
                        left == if j > 0 { (j - 1) as int } else { 0int },
                        right == if j < 9 { (j + 1) as int } else { 9int },
                        *self == *old(self),
                        board_wf(self@),
                        forall|a: int, b: int|
                            top <= a < k && left <= b <= right ==> (#[trigger] self@.ships[a * 10
                                + b]) is None,
                        forall|b: int|
                            left <= b < l ==> (#[trigger] self@.ships[k * 10 + b]) is None,
                    decreases right + 1 - l,
                {
                    if self.tiles[k * 10 + l].ship.is_some() {
                        proof {
                            assert(self@.ships[k * 10 + l] == self.tiles@[k * 10 + l].ship);
                            assert(self@.ships[k * 10 + l] is Some);
                            assert(!clear_around(self@.ships, i as int, j as int));
                            assert(!all_clear(self@.ships, coordinates@));
                        }
                        return Err(
                            PlacingShipsError::new("The tile is next to another ship".to_owned()),
                        );
                    }
                    l = l + 1;
                }
                k = k + 1;
            }
            proof {
                assert(clear_around(self@.ships, i as int, j as int)) by {
                    assert forall|a: int, b: int|
                        0 <= a < 10 && 0 <= b < 10 && i - 1 <= a <= i + 1 && j - 1 <= b <= j
                            + 1 implies (#[trigger] self@.ships[a * 10 + b]) is None by {
                        assert(top <= a <= down);
                        assert(left <= b <= right);
                    }
                }
            }
            m = m + 1;
        }
        // Second pass: put the ship down.
        let st = ship.ship_type;
        let ghost start = self@.ships;
        let mut m2: usize = 0;
        while m2 < n
            invariant
                m2 <= n,
                n == coordinates@.len(),
                board_wf(self@),
                self@.placed == old(self)@.placed,
                start == old(self)@.ships,
                forall|k: int|
                    0 <= k < coordinates@.len() ==> (#[trigger] coordinates@[k]).0 < 10
                        && coordinates@[k].1 < 10,
                forall|p: int|
                    0 <= p < 100 ==> #[trigger] self@.ships[p] == if covers(
                        coordinates@.take(m2 as int),
                        p,
                    ) {
                        Some(st)
                    } else {
                        start[p]
                    },
            decreases n - m2,
        {
            let (i, j) = coordinates[m2];
            let idx = i * 10 + j;
            let ghost before = self.tiles@;
            let ghost head_ships = self@.ships;
            let mut tile = self.tiles.remove(idx);
            tile.ship = Some(st);
            self.tiles.insert(idx, tile);
            proof {
                assert(self.tiles@ =~= before.update(idx as int, tile));
                assert forall|p: int|
                    0 <= p < 100 implies #[trigger] self@.ships[p] == if covers(
                        coordinates@.take(m2 + 1),
                        p,
                    ) {
                        Some(st)
                    } else {
                        start[p]
                    } by {
                    assert(self@.ships[p] == self.tiles@[p].ship);
                    assert(head_ships[p] == before[p].ship);
                    if p == idx {
                        assert(self.tiles@[p] == tile);
                        assert(coordinates@.take(m2 + 1)[m2 as int] == (i, j));
                        assert(covers(coordinates@.take(m2 + 1), p));
                    } else {
                        assert(self.tiles@[p] == before[p]);
                        assert(self@.ships[p] == head_ships[p]);
                        if covers(coordinates@.take(m2 + 1), p) {
                            let k = choose|k: int|
                                0 <= k < coordinates@.take(m2 + 1).len() && p == (
                                #[trigger] coordinates@.take(m2 + 1)[k]).0 * 10 + coordinates@.take(
                                    m2 + 1,
                                )[k].1;
                            assert(k < m2);
                            assert(covers(coordinates@.take(m2 as int), p));
                        }
                        if covers(coordinates@.take(m2 as int), p) {
                            let k = choose|k: int|
                                0 <= k < coordinates@.take(m2 as int).len() && p == (
                                #[trigger] coordinates@.take(m2 as int)[k]).0 * 10
                                    + coordinates@.take(m2 as int)[k].1;
                            assert(coordinates@.take(m2 + 1)[k] == coordinates@[k]);
                            assert(covers(coordinates@.take(m2 + 1), p));
                        }
                    }
                }
            }
            m2 = m2 + 1;
        }
        proof {
            assert(coordinates@.take(n as int) =~= coordinates@);
            assert(self@.ships =~= place_coords(start, coordinates@, st));
        }
        Ok(())
    }

    /// One placement attempt from one written input: parse the segment and
    /// put the ship there, or report why not and leave the board unchanged.
    pub fn place_from_input(&mut self, ship: &Ship, input: &str) -> (r: Result<
        (),
        PlacingShipsError,
    >)
        requires
            board_wf(old(self)@),
            ship.wf(),
        ensures
            board_wf(final(self)@),
            final(self)@.placed == old(self)@.placed,
            match spec_place_step(old(self)@.ships, ship@, input@) {
                Some(s2) => r is Ok && final(self)@.ships == s2,
                None => r is Err && *final(self) == *old(self),
            },
    {
        let coordinates = match decode_ship_placing_input(input, ship) {
            Ok(c) => c,
            Err(e) => {
                let mut msg = String::new();
                msg.append(e.message());
                return Err(PlacingShipsError::new(msg));
            },
        };
        self.place_on_tiles(&coordinates, ship)
    }

    /// Mark placement finished, once: a board whose ships were already
    /// placed refuses.
    pub fn finish_placing(&mut self) -> (r: Result<(), PlacingShipsError>)
        ensures
            board_wf(final(self)@) == board_wf(old(self)@),
            final(self)@.ships == old(self)@.ships,
            old(self)@.placed ==> r is Err && *final(self) == *old(self),
            !old(self)@.placed ==> r is Ok && final(self)@.placed,
    {
        if self.ships_placed {
            return Err(PlacingShipsError::new("Ships were already placed".to_owned()));
        }
        self.ships_placed = true;
        Ok(())
    }

    /// Place the whole fleet, one written input per ship, in order.  Fails
    /// if the ships were already placed, or any input does not name a free
    /// segment of the right length; on success the board is marked placed.
    #[verifier::loop_isolation(false)]
    pub fn place_ships(&mut self, ships: &Vec<Ship>, inputs: &Vec<String>) -> (r: Result<
        (),
        PlacingShipsError,
    >)
        requires
            board_wf(old(self)@),
            inputs@.len() == ships@.len(),
            forall|k: int| 0 <= k < ships@.len() ==> (#[trigger] ships@[k]).wf(),
        ensures
            board_wf(final(self)@),
            old(self)@.placed ==> r is Err && *final(self) == *old(self),
            !old(self)@.placed ==> match spec_place_all(
                old(self)@.ships,
                ships@.map_values(|s: Ship| s@),
                inputs@.map_values(|s: String| s@),
            ) {
                Some(s2) => r is Ok && final(self)@.ships == s2 && final(self)@.placed,
                None => r is Err && !final(self)@.placed,
            },
    {
        if self.ships_placed {
            return Err(PlacingShipsError::new("Ships were already placed".to_owned()));
        }
        let ghost types = ships@.map_values(|s: Ship| s@);
        let ghost ivs = inputs@.map_values(|s: String| s@);
        proof {
            assert(types.skip(0) =~= types);
            assert(ivs.skip(0) =~= ivs);
        }
        let n = ships.len();
        let mut i: usize = 0;
        while i < n
            invariant
                i <= n,
                n == ships@.len(),
                inputs@.len() == n,
                types == ships@.map_values(|s: Ship| s@),
                ivs == inputs@.map_values(|s: String| s@),
                forall|k: int| 0 <= k < ships@.len() ==> (#[trigger] ships@[k]).wf(),
                board_wf(self@),
                !self@.placed,
                spec_place_all(old(self)@.ships, types, ivs) == spec_place_all(
                    self@.ships,
                    types.skip(i as int),
                    ivs.skip(i as int),
                ),
            decreases n - i,
        {
            let ship = &ships[i];
            let input = &inputs[i];
            proof {
                assert(types.skip(i as int)[0] == ships@[i as int]@);
                assert(ivs.skip(i as int)[0] == inputs@[i as int]@);
                assert(types.skip(i as int).drop_first() =~= types.skip(i + 1));
                assert(ivs.skip(i as int).drop_first() =~= ivs.skip(i + 1));
            }
            match self.place_from_input(ship, input.as_str()) {
                Ok(()) => {
                },
                Err(e) => {
                    proof {
                        assert(spec_place_all(old(self)@.ships, types, ivs) is None);
                    }
                    return Err(e);
                },
            }
            i = i + 1;
        }
        proof {
            assert(types.skip(n as int).len() == 0);
            assert(spec_place_all(old(self)@.ships, types, ivs) == Some(self@.ships));
        }
        self.ships_placed = true;
        Ok(())
    }
}

} // verus!

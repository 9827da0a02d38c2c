use vstd::prelude::*;

use crate::location::Denormalized;
use crate::notation::PositionRef;
use crate::player::Player;

verus! {

/// The number of points on the board.
pub const BOARD_SIZE: usize = 24;

/// The last point of the home quadrant of `Black`, counted from its ace point.
pub const HOME_BOARD_INDEX: usize = 5;

/// One space of the board: where it lies, how many pieces stand on it and whose
/// they are.
#[derive(Clone, Copy, Debug, PartialEq, Eq, Structural)]
pub struct Position {
    pub location: Denormalized,
    pub count: u8,
    pub player: Player,
}

/// The distance between two absolute locations.
pub open spec fn location_distance(a: int, b: int) -> int {
    if a >= b {
        a - b
    } else {
        b - a
    }
}

impl Position {
    /// A space at `location` with `count` pieces of `player`.
    pub fn new(location: Denormalized, count: u8, player: Player) -> (r: Position)
        ensures
            r == (Position { location, count, player }),
    {
        Position { location, count, player }
    }

    /// The number of pips between this space and `to`.
    pub fn distance(&self, to: &Position) -> (r: usize)
        ensures
            r == location_distance(self.location.0 as int, to.location.0 as int),
    {
        if self.location.0 >= to.location.0 {
            self.location.0 - to.location.0
        } else {
            to.location.0 - self.location.0
        }
    }

    /// Puts `count` pieces of `player` on this space, whatever stood there.
    pub fn set(&mut self, count: u8, player: Player)
        ensures
            *final(self) == old(self).put(count, player),
    {
        self.count = count;
        self.player = player;
    }

    /// This space with `count` pieces of `player`.
    pub open spec fn put(self, count: u8, player: Player) -> Position {
        Position { location: self.location, count, player }
    }

    /// The pieces of `player` on this space.
    pub open spec fn owned(self, player: Player) -> nat {
        if self.player == player {
            self.count as nat
        } else {
            0
        }
    }
}

/// The location of the bar of `player`: 25 for `Black`, 0 for `White`.
pub open spec fn bar_location(player: Player) -> int {
    if player == Player::White {
        0
    } else {
        25
    }
}

/// The location of the rail of `player`: 0 for `Black`, 25 for `White`.
pub open spec fn rail_location(player: Player) -> int {
    if player == Player::White {
        25
    } else {
        0
    }
}

/// The side whose bar and rail stand in slot `slot` of the board's tables.
pub open spec fn side_of_slot(slot: int) -> Player {
    if slot == 0 {
        Player::Black
    } else {
        Player::White
    }
}

/// The pieces of `player` on the first `n` of `points`.
pub open spec fn points_total(points: Seq<Position>, player: Player, n: int) -> nat
    decreases n,
{
    if n <= 0 {
        0
    } else {
        points_total(points, player, n - 1) + points[n - 1].owned(player)
    }
}

/// The 24 points, and a bar and a rail for each side.
#[derive(Clone, Copy, Debug, PartialEq, Eq)]
pub struct Board {
    pub points: [Position; 24],
    pub bar: [Position; 2],
    pub rail: [Position; 2],
}

/// A board as contracts see it: the three tables of a [`Board`] as sequences.
pub struct BoardView {
    pub points: Seq<Position>,
    pub bar: Seq<Position>,
    pub rail: Seq<Position>,
}

impl View for Board {
    type V = BoardView;

    open spec fn view(&self) -> BoardView {
        BoardView { points: self.points@, bar: self.bar@, rail: self.rail@ }
    }
}

impl BoardView {
    /// The tables have their sizes and every space lies where the layout of the
    /// board puts it.
    pub open spec fn wf(self) -> bool {
        &&& self.points.len() == 24
        &&& self.bar.len() == 2
        &&& self.rail.len() == 2
        &&& forall|i: int| 0 <= i < 24 ==> (#[trigger] self.points[i]).location.0 == i + 1
        &&& forall|k: int|
            0 <= k < 2 ==> (#[trigger] self.bar[k]).location.0 == bar_location(side_of_slot(k))
        &&& forall|k: int|
            0 <= k < 2 ==> (#[trigger] self.rail[k]).location.0 == rail_location(side_of_slot(k))
    }

    /// A point holds pieces exactly if it has an owner, and each bar and rail
    /// belongs to its side.
    pub open spec fn owners_consistent(self) -> bool {
        &&& forall|i: int|
            0 <= i < 24 ==> ((#[trigger] self.points[i]).count == 0 <==> self.points[i].player
                == Player::Nobody)
        &&& forall|k: int| 0 <= k < 2 ==> (#[trigger] self.bar[k]).player == side_of_slot(k)
        &&& forall|k: int| 0 <= k < 2 ==> (#[trigger] self.rail[k]).player == side_of_slot(k)
    }

    /// The space that `space` names.
    pub open spec fn at(self, space: PositionRef) -> Position {
        match space {
            PositionRef::Bar(player) => self.bar[player.ordinal()],
            PositionRef::Rail(player) => self.rail[player.ordinal()],
            PositionRef::Point(index) => self.points[index.0 as int],
        }
    }

    /// The board with `position` in the place that `space` names.
    pub open spec fn with(self, space: PositionRef, position: Position) -> BoardView {
        match space {
            PositionRef::Bar(player) => BoardView {
                bar: self.bar.update(player.ordinal(), position),
                ..self
            },
            PositionRef::Rail(player) => BoardView {
                rail: self.rail.update(player.ordinal(), position),
                ..self
            },
            PositionRef::Point(index) => BoardView {
                points: self.points.update(index.0 as int, position),
                ..self
            },
        }
    }

    /// All pieces of `player`: on the points, on its bar and on its rail.
    pub open spec fn total(self, player: Player) -> nat {
        points_total(self.points, player, 24) + self.bar[player.ordinal()].count as nat
            + self.rail[player.ordinal()].count as nat
    }

    /// True if `player` has a piece further from its home than point `index`: on a
    /// higher point for `Black`, on a lower one for `White`.
    pub open spec fn has_piece_behind(self, index: int, player: Player) -> bool {
        exists|j: int|
            0 <= j < 24 && (if player == Player::White {
                j < index
            } else {
                j > index
            }) && (#[trigger] self.points[j]).player == player && self.points[j].count > 0
    }

    /// True if no piece of `player` is left in play: none on a point, none on its
    /// bar.
    pub open spec fn borne_off(self, player: Player) -> bool {
        self.bar[player.ordinal()].count == 0 && forall|j: int|
            0 <= j < 24 ==> !((#[trigger] self.points[j]).player == player && self.points[j].count
                > 0)
    }

    /// True if no piece of `player` stands on a point outside its home quadrant.
    pub open spec fn home_only(self, player: Player) -> bool {
        !self.has_piece_behind(
            if player == Player::White {
                18
            } else {
                5
            },
            player,
        )
    }
}

impl PositionRef {
    /// A name that a board has a space for: a bar or rail of one of the two sides, or
    /// a point below 24.
    pub open spec fn wf(self) -> bool {
        match self {
            PositionRef::Bar(player) => player != Player::Nobody,
            PositionRef::Rail(player) => player != Player::Nobody,
            PositionRef::Point(index) => index.wf(),
        }
    }
}

impl Board {
    /// A board without pieces: no point has an owner, each bar and rail has its side.
    pub open spec fn empty_view() -> BoardView {
        BoardView {
            points: Seq::new(
                24,
                |i: int|
                    Position {
                        location: Denormalized((i + 1) as usize),
                        count: 0,
                        player: Player::Nobody,
                    },
            ),
            bar: seq![
                Position { location: Denormalized(25), count: 0, player: Player::Black },
                Position { location: Denormalized(0), count: 0, player: Player::White },
            ],
            rail: seq![
                Position { location: Denormalized(0), count: 0, player: Player::Black },
                Position { location: Denormalized(25), count: 0, player: Player::White },
            ],
        }
    }

    /// The opening layout: for each side two pieces on its 24 point, five on its 13
    /// point, three on its 8 point and five on its 6 point.
    pub open spec fn start_view() -> BoardView {
        let e = Board::empty_view();
        BoardView {
            points: e.points.update(23, e.points[23].put(2, Player::Black)).update(
                12,
                e.points[12].put(5, Player::Black),
            ).update(7, e.points[7].put(3, Player::Black)).update(
                5,
                e.points[5].put(5, Player::Black),
            ).update(0, e.points[0].put(2, Player::White)).update(
                11,
                e.points[11].put(5, Player::White),
            ).update(16, e.points[16].put(3, Player::White)).update(
                18,
                e.points[18].put(5, Player::White),
            ),
            ..e
        }
    }

    /// A board without pieces.
    pub fn empty() -> (r: Board)
        ensures
            r@ == Board::empty_view(),
            r@.wf(),
            r@.owners_consistent(),
    {
        let blank = Position::new(Denormalized(0), 0, Player::Nobody);
        let mut points = [blank;24];
        let mut i: usize = 0;
        while i < BOARD_SIZE
            invariant
                i <= 24,
                forall|j: int|
                    0 <= j < i ==> #[trigger] points@[j] == (Position {
                        location: Denormalized((j + 1) as usize),
                        count: 0,
                        player: Player::Nobody,
                    }),
            decreases 24 - i,
        {
            points[i] = Position::new(Denormalized(i + 1), 0, Player::Nobody);
            i += 1;
        }
        let bar = [
            Position::new(Denormalized(BOARD_SIZE + 1), 0, Player::Black),
            Position::new(Denormalized(0), 0, Player::White),
        ];
        let rail = [
            Position::new(Denormalized(0), 0, Player::Black),
            Position::new(Denormalized(BOARD_SIZE + 1), 0, Player::White),
        ];
        let board = Board { points, bar, rail };
        assert(board@.points =~= Board::empty_view().points);
        assert(board@.bar =~= Board::empty_view().bar);
        assert(board@.rail =~= Board::empty_view().rail);
        board
    }

    /// The board at the start of a game.
    pub fn new() -> (r: Board)
        ensures
            r@ == Board::start_view(),
            r@.wf(),
            r@.owners_consistent(),
            r@.total(Player::Black) == 15,
            r@.total(Player::White) == 15,
    {
        let mut board = Board::empty();
        board.point_mut(23).set(2, Player::Black);
        board.point_mut(12).set(5, Player::Black);
        board.point_mut(7).set(3, Player::Black);
        board.point_mut(5).set(5, Player::Black);
        let offset = BOARD_SIZE - 1;
        board.point_mut(offset - 23).set(2, Player::White);
        board.point_mut(offset - 12).set(5, Player::White);
        board.point_mut(offset - 7).set(3, Player::White);
        board.point_mut(offset - 5).set(5, Player::White);
        assert(board@.points =~= Board::start_view().points);
        proof {
            lemma_start_totals();
        }
        board
    }

    /// The bar of `player`.
    pub fn bar(&self, player: Player) -> (r: &Position)
        requires
            player != Player::Nobody,
        ensures
            *r == self@.bar[player.ordinal()],
            *r == self@.at(PositionRef::Bar(player)),
    {
        &self.bar[player.index()]
    }

    /// The rail of `player`.
    pub fn rail(&self, player: Player) -> (r: &Position)
        requires
            player != Player::Nobody,
        ensures
            *r == self@.rail[player.ordinal()],
            *r == self@.at(PositionRef::Rail(player)),
    {
        &self.rail[player.index()]
    }

    /// The point in slot `index`.
    pub fn point(&self, index: usize) -> (r: &Position)
        requires
            index < 24,
        ensures
            *r == self@.points[index as int],
    {
        &self.points[index]
    }

    /// The bar of `player`, to be changed in place.
    pub fn bar_mut(&mut self, player: Player) -> (r: &mut Position)
        requires
            player != Player::Nobody,
        ensures
            *r == old(self)@.bar[player.ordinal()],
            final(self)@ == old(self)@.with(PositionRef::Bar(player), *final(r)),
    {
        &mut self.bar[player.index()]
    }

    /// The rail of `player`, to be changed in place.
    pub fn rail_mut(&mut self, player: Player) -> (r: &mut Position)
        requires
            player != Player::Nobody,
        ensures
            *r == old(self)@.rail[player.ordinal()],
            final(self)@ == old(self)@.with(PositionRef::Rail(player), *final(r)),
    {
        &mut self.rail[player.index()]
    }

    /// The point in slot `index`, to be changed in place.
    pub fn point_mut(&mut self, index: usize) -> (r: &mut Position)
        requires
            index < 24,
        ensures
            *r == old(self)@.points[index as int],
            final(self)@ == (BoardView {
                points: old(self)@.points.update(index as int, *final(r)),
                ..old(self)@
            }),
    {
        &mut self.points[index]
    }

    /// The space that `space` names.
    pub fn get(&self, space: &PositionRef) -> (r: &Position)
        requires
            space.wf(),
        ensures
            *r == self@.at(*space),
    {
        match *space {
            PositionRef::Bar(player) => self.bar(player),
            PositionRef::Rail(player) => self.rail(player),
            PositionRef::Point(index) => self.point(index.value()),
        }
    }

    /// The space that `space` names, to be changed in place.
    pub fn get_mut(&mut self, space: &PositionRef) -> (r: &mut Position)
        requires
            space.wf(),
        ensures
            *r == old(self)@.at(*space),
            final(self)@ == old(self)@.with(*space, *final(r)),
    {
        match *space {
            PositionRef::Bar(player) => self.bar_mut(player),
            PositionRef::Rail(player) => self.rail_mut(player),
            PositionRef::Point(index) => self.point_mut(index.value()),
        }
    }

    /// True if `player` has a piece further from its home than point `index`.
    pub fn any_behind(&self, index: usize, player: Player) -> (r: bool)
        requires
            index < 24,
            player != Player::Nobody,
        ensures
            r == self@.has_piece_behind(index as int, player),
    {
        let (start, end) = match player {
            Player::White => (0, index),
            _ => (index + 1, BOARD_SIZE),
        };
        let mut j: usize = start;
        while j < end
            invariant
                start <= j,
                end <= 24,
                player != Player::Nobody,
                start == (if player == Player::White { 0 } else { index as int + 1 }),
                end == (if player == Player::White { index as int } else { 24 }),
                forall|k: int|
                    start <= k < j ==> !((#[trigger] self@.points[k]).player == player
                        && self@.points[k].count > 0),
            decreases end - j,
        {
            let p = &self.points[j];
            if p.player == player && p.count > 0 {
                return true;
            }
            j += 1;
        }
        false
    }

    /// True if every piece of `player` has been borne off: none is left on a
    /// point or on its bar.
    pub fn all_in_rail(&self, player: Player) -> (r: bool)
        requires
            player != Player::Nobody,
        ensures
            r == self@.borne_off(player),
    {
        if self.bar(player).count > 0 {
            return false;
        }
        let mut j: usize = 0;
        while j < BOARD_SIZE
            invariant
                j <= 24,
                forall|k: int|
                    0 <= k < j ==> !((#[trigger] self@.points[k]).player == player
                        && self@.points[k].count > 0),
            decreases 24 - j,
        {
            let p = &self.points[j];
            if p.player == player && p.count > 0 {
                return false;
            }
            j += 1;
        }
        true
    }

    /// True if every space lies where the layout puts it and has the owner that
    /// its pieces give it.
    pub fn in_order(&self) -> (r: bool)
        ensures
            r == (self@.wf() && self@.owners_consistent()),
    {
        if self.bar[0].location.0 != 25 || self.bar[1].location.0 != 0 || self.rail[0].location.0
            != 0 || self.rail[1].location.0 != 25 {
            assert(side_of_slot(0) == Player::Black && side_of_slot(1) == Player::White);
            return false;
        }
        if self.bar[0].player != Player::Black || self.bar[1].player != Player::White
            || self.rail[0].player != Player::Black || self.rail[1].player != Player::White {
            assert(side_of_slot(0) == Player::Black && side_of_slot(1) == Player::White);
            return false;
        }
        let mut j: usize = 0;
        while j < BOARD_SIZE
            invariant
                j <= 24,
                forall|k: int| 0 <= k < j ==> (#[trigger] self@.points[k]).location.0 == k + 1,
                forall|k: int|
                    0 <= k < j ==> ((#[trigger] self@.points[k]).count == 0 <==> self@.points[k].player
                        == Player::Nobody),
            decreases 24 - j,
        {
            let p = &self.points[j];
            if p.location.0 != j + 1 {
                return false;
            }
            if (p.count == 0) != (p.player == Player::Nobody) {
                return false;
            }
            j += 1;
        }
        assert forall|k: int| 0 <= k < 2 implies (#[trigger] self@.bar[k]).location.0
            == bar_location(side_of_slot(k)) && self@.bar[k].player == side_of_slot(k) by {}
        assert forall|k: int| 0 <= k < 2 implies (#[trigger] self@.rail[k]).location.0
            == rail_location(side_of_slot(k)) && self@.rail[k].player == side_of_slot(k) by {}
        true
    }

    /// The pieces of `player` on the board: on the points, on its bar and on its
    /// rail.
    pub fn pieces(&self, player: Player) -> (r: u32)
        requires
            player != Player::Nobody,
        ensures
            r == self@.total(player),
    {
        let mut sum: u32 = self.bar(player).count as u32 + self.rail(player).count as u32;
        let mut j: usize = 0;
        while j < BOARD_SIZE
            invariant
                j <= 24,
                player != Player::Nobody,
                sum == points_total(self@.points, player, j as int) + self@.bar[player.ordinal()].count
                    + self@.rail[player.ordinal()].count,
                sum <= 255 * (j + 2),
            decreases 24 - j,
        {
            let p = &self.points[j];
            if p.player == player {
                sum = sum + p.count as u32;
            }
            j += 1;
        }
        sum
    }

    /// True if no piece of `player` stands on a point outside its home quadrant.
    pub fn all_in_home(&self, player: Player) -> (r: bool)
        requires
            player != Player::Nobody,
        ensures
            r == self@.home_only(player),
    {
        let index = match player {
            Player::White => BOARD_SIZE - 1 - HOME_BOARD_INDEX,
            _ => HOME_BOARD_INDEX,
        };
        !self.any_behind(index, player)
    }
}

/// Replacing the space in slot `i` changes the pieces of `player` on the first `n`
/// points by what the new space holds more than the old one, if `i` is among them.
pub proof fn lemma_points_total_update(
    points: Seq<Position>,
    player: Player,
    n: int,
    i: int,
    x: Position,
)
    requires
        0 <= i < points.len(),
        0 <= n <= points.len(),
    ensures
        points_total(points.update(i, x), player, n) == (if i < n {
            points_total(points, player, n) - points[i].owned(player) + x.owned(player)
        } else {
            points_total(points, player, n) as int
        }),
    decreases n,
{
    if n > 0 {
        lemma_points_total_update(points, player, n - 1, i, x);
    }
}

/// The pieces of `player` on any two different points among the first `n` are at
/// most its pieces on all of them.
pub proof fn lemma_points_total_bound(points: Seq<Position>, player: Player, n: int, i: int, j: int)
    requires
        0 <= n <= points.len(),
        0 <= i < n,
        0 <= j < n,
    ensures
        points[i].owned(player) <= points_total(points, player, n),
        i != j ==> points[i].owned(player) + points[j].owned(player) <= points_total(
            points,
            player,
            n,
        ),
    decreases n,
{
    if i < n - 1 && j < n - 1 {
        lemma_points_total_bound(points, player, n - 1, i, j);
    } else if i < n - 1 {
        lemma_points_total_bound(points, player, n - 1, i, i);
    } else if j < n - 1 {
        lemma_points_total_bound(points, player, n - 1, j, j);
    }
}

impl PositionRef {
    /// The pieces of `player` that `x` holds when it stands at this space: those
    /// that `player` owns on a point, and all of them on its own bar or rail.
    pub open spec fn share(self, x: Position, player: Player) -> nat {
        match self {
            PositionRef::Point(_) => x.owned(player),
            PositionRef::Bar(side) => if side == player {
                x.count as nat
            } else {
                0
            },
            PositionRef::Rail(side) => if side == player {
                x.count as nat
            } else {
                0
            },
        }
    }

    /// True if `x` has the owner that this space asks for: a point has one exactly
    /// if it holds pieces, a bar or rail always its side.
    pub open spec fn fits(self, x: Position) -> bool {
        match self {
            PositionRef::Point(_) => (x.count == 0) == (x.player == Player::Nobody),
            PositionRef::Bar(side) => x.player == side,
            PositionRef::Rail(side) => x.player == side,
        }
    }
}

/// Putting `x` in the place of one space changes that space and no other, keeps
/// the layout, changes each side's pieces by what `x` holds more than the space
/// did, and keeps the owners in order if `x` has the owner that its space asks for.
pub proof fn lemma_with(b: BoardView, space: PositionRef, x: Position)
    requires
        b.wf(),
        space.wf(),
        x.location == b.at(space).location,
    ensures
        b.with(space, x).wf(),
        b.with(space, x).at(space) == x,
        forall|other: PositionRef|
            other.wf() && other != space ==> #[trigger] b.with(space, x).at(other) == b.at(other),
        b.with(space, x).total(Player::Black) == b.total(Player::Black) - space.share(
            b.at(space),
            Player::Black,
        ) + space.share(x, Player::Black),
        b.with(space, x).total(Player::White) == b.total(Player::White) - space.share(
            b.at(space),
            Player::White,
        ) + space.share(x, Player::White),
        b.owners_consistent() && space.fits(x) ==> b.with(space, x).owners_consistent(),
{
    let c = b.with(space, x);
    match space {
        PositionRef::Point(index) => {
            lemma_points_total_update(b.points, Player::Black, 24, index.0 as int, x);
            lemma_points_total_update(b.points, Player::White, 24, index.0 as int, x);
        },
        _ => {},
    }
    assert forall|other: PositionRef| other.wf() && other != space implies #[trigger] c.at(other)
        == b.at(other) by {
        match (space, other) {
            (PositionRef::Point(i), PositionRef::Point(j)) => {
                assert(i.0 != j.0);
            },
            (PositionRef::Bar(q), PositionRef::Bar(r)) => {
                assert(q.ordinal() != r.ordinal());
            },
            (PositionRef::Rail(q), PositionRef::Rail(r)) => {
                assert(q.ordinal() != r.ordinal());
            },
            _ => {},
        }
    }
}

/// Both sides start with fifteen pieces.
proof fn lemma_start_totals()
    ensures
        Board::start_view().total(Player::Black) == 15,
        Board::start_view().total(Player::White) == 15,
{
    reveal_with_fuel(points_total, 25);
}

} // verus!

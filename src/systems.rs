//! Players, ships and systems, with the reachability and colour rules.
use crate::pieces::{Color, ColorSet, Piece, PieceType, Size, SizeSet};
use vstd::prelude::*;

verus! {

#[derive(PartialEq, Eq, Structural, Clone, Copy, Debug)]
pub enum Player {
    First,
    Second,
}

impl Player {
    pub open spec fn spec_other(self) -> Player {
        match self {
            Player::First => Player::Second,
            Player::Second => Player::First,
        }
    }

    pub open spec fn spec_index(self) -> int {
        match self {
            Player::First => 0,
            Player::Second => 1,
        }
    }

    pub fn other(&self) -> (r: Player)
        ensures
            r == self.spec_other(),
    {
        match self {
            Player::First => Player::Second,
            Player::Second => Player::First,
        }
    }

    pub fn index(&self) -> (r: usize)
        ensures
            r == self.spec_index(),
    {
        match self {
            Player::First => 0,
            Player::Second => 1,
        }
    }
}

/// A ship: a piece and the player who controls it.
#[derive(PartialEq, Eq, Structural, Clone, Copy, Debug)]
pub struct OwnedPiece {
    pub piece: Piece,
    pub owner: Player,
}

impl OwnedPiece {
    pub fn first(piece: Piece) -> (r: Self)
        ensures
            r == (OwnedPiece { piece, owner: Player::First }),
    {
        OwnedPiece { piece, owner: Player::First }
    }

    pub fn second(piece: Piece) -> (r: Self)
        ensures
            r == (OwnedPiece { piece, owner: Player::Second }),
    {
        OwnedPiece { piece, owner: Player::Second }
    }
}

/// Whether a ship of type `t` controlled by `p` is among `ships`.
pub open spec fn owns(ships: Seq<OwnedPiece>, p: Player, t: PieceType) -> bool {
    exists|i: int| 0 <= i < ships.len() && #[trigger] ships[i].owner == p && ships[i].piece.type_ == t
}

/// The sizes of a system's stars.
pub open spec fn star_sizes(stars: Seq<Piece>) -> Set<Size> {
    Set::new(|z: Size| exists|i: int| 0 <= i < stars.len() && #[trigger] stars[i].type_.size == z)
}

/// The colours of a system's stars.
pub open spec fn star_colors(stars: Seq<Piece>) -> Set<Color> {
    Set::new(|c: Color| exists|i: int| 0 <= i < stars.len() && #[trigger] stars[i].type_.color == c)
}

/// The colours of the ships that `p` controls.
pub open spec fn ship_colors(ships: Seq<OwnedPiece>, p: Player) -> Set<Color> {
    Set::new(
        |c: Color|
            exists|i: int|
                0 <= i < ships.len() && #[trigger] ships[i].owner == p && ships[i].piece.type_.color
                    == c,
    )
}

/// The colours `p` may act with at a system: its stars' and `p`'s own ships'.
pub open spec fn system_colors(stars: Seq<Piece>, ships: Seq<OwnedPiece>, p: Player) -> Set<Color> {
    star_colors(stars).union(ship_colors(ships, p))
}

/// Two systems are reachable from one another when their star sizes are disjoint.
pub open spec fn reachable(a: Seq<Piece>, b: Seq<Piece>) -> bool {
    star_sizes(a).intersect(star_sizes(b)) == Set::<Size>::empty()
}

/// Holds of the ships that `p` controls.
pub open spec fn controlled_by(p: Player) -> spec_fn(OwnedPiece) -> bool {
    |s: OwnedPiece| s.owner == p
}

/// The ships of `ships` that `player` controls, in their order.
pub fn owned_by(ships: &Vec<OwnedPiece>, player: &Player) -> (r: Vec<OwnedPiece>)
    ensures
        r@ == ships@.filter(controlled_by(*player)),
        forall|k: int| 0 <= k < r@.len() ==> (#[trigger] r@[k]).owner == *player,
        forall|k: int| 0 <= k < r@.len() ==> ships@.contains(#[trigger] r@[k]),
        forall|i: int|
            0 <= i < ships@.len() && (#[trigger] ships@[i]).owner == *player ==> r@.contains(
                ships@[i],
            ),
{
    let mut r: Vec<OwnedPiece> = Vec::new();
    let mut i: usize = 0;
    while i < ships.len()
        invariant
            i <= ships@.len(),
            r@ == ships@.subrange(0, i as int).filter(controlled_by(*player)),
            forall|k: int| 0 <= k < r@.len() ==> (#[trigger] r@[k]).owner == *player,
            forall|k: int| 0 <= k < r@.len() ==> ships@.contains(#[trigger] r@[k]),
            forall|j: int|
                0 <= j < i && (#[trigger] ships@[j]).owner == *player ==> r@.contains(ships@[j]),
        decreases ships@.len() - i,
    {
        let ghost prev = r@;
        let ghost post = ships@.subrange(0, i + 1);
        proof {
            reveal(Seq::filter);
            assert(post.drop_last() == ships@.subrange(0, i as int));
            assert(post.last() == ships@[i as int]);
            assert(post.filter(controlled_by(*player)) == if controlled_by(*player)(post.last()) {
                prev.push(post.last())
            } else {
                prev
            });
        }
        if ships[i].owner == *player {
            r.push(ships[i]);
            assert(r@[r@.len() - 1] == ships@[i as int]);
            assert forall|j: int|
                0 <= j < i + 1 && (#[trigger] ships@[j]).owner == *player implies r@.contains(
                ships@[j],
            ) by {
                if j < i {
                    let k = choose|k: int| 0 <= k < prev.len() && prev[k] == ships@[j];
                    assert(r@[k] == ships@[j]);
                }
            }
            assert(r@ == post.filter(controlled_by(*player)));
        } else {
            assert(r@ == post.filter(controlled_by(*player)));
        }
        i = i + 1;
    }
    assert(ships@.subrange(0, ships@.len() as int) == ships@);
    r
}

/// The colours of the ships in `ships` that `player` controls.
pub fn owned_colors(ships: &Vec<OwnedPiece>, player: &Player) -> (r: ColorSet)
    ensures
        r@ == ship_colors(ships@, *player),
{
    let mut r = ColorSet::empty();
    let mut i: usize = 0;
    while i < ships.len()
        invariant
            i <= ships@.len(),
            r@ == ship_colors(ships@.subrange(0, i as int), *player),
        decreases ships@.len() - i,
    {
        if ships[i].owner == *player {
            r.insert(ships[i].piece.type_.color);
        }
        let ghost pre = ships@.subrange(0, i as int);
        let ghost post = ships@.subrange(0, i + 1);
        assert forall|c: Color| r@.contains(c) == ship_colors(post, *player).contains(c) by {
            if ship_colors(pre, *player).contains(c) {
                let k = choose|k: int|
                    0 <= k < pre.len() && #[trigger] pre[k].owner == *player
                        && pre[k].piece.type_.color == c;
                assert(post[k] == pre[k]);
            }
            if ship_colors(post, *player).contains(c) {
                let k = choose|k: int|
                    0 <= k < post.len() && #[trigger] post[k].owner == *player
                        && post[k].piece.type_.color == c;
                if k < i {
                    assert(pre[k] == post[k]);
                }
            }
            if r@.contains(c) && !ship_colors(pre, *player).contains(c) {
                assert(post[i as int] == ships@[i as int]);
            }
        }
        assert(r@ =~= ship_colors(post, *player));
        i = i + 1;
    }
    assert(ships@.subrange(0, ships@.len() as int) == ships@);
    r
}

/// The sizes of `stars`.
fn sizes_of_stars(stars: &Vec<Piece>) -> (r: SizeSet)
    ensures
        r@ == star_sizes(stars@),
{
    let mut r = SizeSet::empty();
    let mut i: usize = 0;
    while i < stars.len()
        invariant
            i <= stars@.len(),
            r@ == star_sizes(stars@.subrange(0, i as int)),
        decreases stars@.len() - i,
    {
        r.insert(stars[i].type_.size);
        let ghost pre = stars@.subrange(0, i as int);
        let ghost post = stars@.subrange(0, i + 1);
        assert forall|z: Size| r@.contains(z) == star_sizes(post).contains(z) by {
            if star_sizes(pre).contains(z) {
                let k = choose|k: int| 0 <= k < pre.len() && #[trigger] pre[k].type_.size == z;
                assert(post[k] == pre[k]);
            }
            if star_sizes(post).contains(z) {
                let k = choose|k: int| 0 <= k < post.len() && #[trigger] post[k].type_.size == z;
                if k < i {
                    assert(pre[k] == post[k]);
                }
            }
            if r@.contains(z) && !star_sizes(pre).contains(z) {
                assert(post[i as int] == stars@[i as int]);
            }
        }
        assert(r@ =~= star_sizes(post));
        i = i + 1;
    }
    assert(stars@.subrange(0, stars@.len() as int) == stars@);
    r
}

/// The colours of `stars`.
fn colors_of_stars(stars: &Vec<Piece>) -> (r: ColorSet)
    ensures
        r@ == star_colors(stars@),
{
    let mut r = ColorSet::empty();
    let mut i: usize = 0;
    while i < stars.len()
        invariant
            i <= stars@.len(),
            r@ == star_colors(stars@.subrange(0, i as int)),
        decreases stars@.len() - i,
    {
        r.insert(stars[i].type_.color);
        let ghost pre = stars@.subrange(0, i as int);
        let ghost post = stars@.subrange(0, i + 1);
        assert forall|c: Color| r@.contains(c) == star_colors(post).contains(c) by {
            if star_colors(pre).contains(c) {
                let k = choose|k: int| 0 <= k < pre.len() && #[trigger] pre[k].type_.color == c;
                assert(post[k] == pre[k]);
            }
            if star_colors(post).contains(c) {
                let k = choose|k: int| 0 <= k < post.len() && #[trigger] post[k].type_.color == c;
                if k < i {
                    assert(pre[k] == post[k]);
                }
            }
            if r@.contains(c) && !star_colors(pre).contains(c) {
                assert(post[i as int] == stars@[i as int]);
            }
        }
        assert(r@ =~= star_colors(post));
        i = i + 1;
    }
    assert(stars@.subrange(0, stars@.len() as int) == stars@);
    r
}

/// Whether some ship that `p` controls in `ships` is at least as large as `z`
/// (and red, when `red_only`).
pub open spec fn has_ship_at_least(ships: Seq<OwnedPiece>, p: Player, z: Size, red_only: bool) -> bool {
    exists|i: int|
        0 <= i < ships.len() && #[trigger] ships[i].owner == p && ships[i].piece.type_.size.spec_index()
            >= z.spec_index() && (!red_only || ships[i].piece.type_.color == Color::Red)
}

/// Number of stars of colour `c`.
pub open spec fn stars_of_color(stars: Seq<Piece>, c: Color) -> nat
    decreases stars.len(),
{
    if stars.len() == 0 {
        0
    } else {
        stars_of_color(stars.drop_last(), c) + if stars.last().type_.color == c {
            1nat
        } else {
            0nat
        }
    }
}

/// Number of ships of colour `c`, whoever controls them.
pub open spec fn ships_of_color(ships: Seq<OwnedPiece>, c: Color) -> nat
    decreases ships.len(),
{
    if ships.len() == 0 {
        0
    } else {
        ships_of_color(ships.drop_last(), c) + if ships.last().piece.type_.color == c {
            1nat
        } else {
            0nat
        }
    }
}

/// Number of pieces at which a colour overpopulates a system.
pub const CATASTROPHE_THRESHOLD: usize = 4;

/// Whether `ships` holds a ship of type `t` that `player` controls.
pub(crate) fn owns_ship(ships: &Vec<OwnedPiece>, player: Player, t: PieceType) -> (r: bool)
    ensures
        r == owns(ships@, player, t),
{
    let mut i: usize = 0;
    while i < ships.len()
        invariant
            i <= ships@.len(),
            forall|j: int| 0 <= j < i ==> !(#[trigger] ships@[j].owner == player && ships@[j].piece.type_ == t),
        decreases ships@.len() - i,
    {
        if ships[i].owner == player && ships[i].piece.type_ == t {
            return true;
        }
        i = i + 1;
    }
    false
}

/// Whether `ships` holds a ship that `player` controls, at least as large as `z`
/// (and red, when `red_only`).
pub(crate) fn ship_at_least(ships: &Vec<OwnedPiece>, player: Player, z: Size, red_only: bool) -> (r: bool)
    ensures
        r == has_ship_at_least(ships@, player, z, red_only),
{
    let mut i: usize = 0;
    while i < ships.len()
        invariant
            i <= ships@.len(),
            forall|j: int|
                0 <= j < i ==> !(#[trigger] ships@[j].owner == player
                    && ships@[j].piece.type_.size.spec_index() >= z.spec_index() && (!red_only
                    || ships@[j].piece.type_.color == Color::Red)),
        decreases ships@.len() - i,
    {
        let t = ships[i].piece.type_;
        if ships[i].owner == player && t.size.index() >= z.index() && (!red_only || t.color
            == Color::Red) {
            return true;
        }
        i = i + 1;
    }
    false
}

/// Number of stars of colour `c`.
fn count_stars_of_color(stars: &Vec<Piece>, c: Color) -> (r: usize)
    ensures
        r == stars_of_color(stars@, c),
{
    let mut n: usize = 0;
    let mut i: usize = 0;
    while i < stars.len()
        invariant
            i <= stars@.len(),
            n == stars_of_color(stars@.subrange(0, i as int), c),
            n <= i,
        decreases stars@.len() - i,
    {
        assert(stars@.subrange(0, i + 1).drop_last() == stars@.subrange(0, i as int));
        if stars[i].type_.color == c {
            n = n + 1;
        }
        i = i + 1;
    }
    assert(stars@.subrange(0, stars@.len() as int) == stars@);
    n
}

/// Number of ships of colour `c`.
fn count_ships_of_color(ships: &Vec<OwnedPiece>, c: Color) -> (r: usize)
    ensures
        r == ships_of_color(ships@, c),
{
    let mut n: usize = 0;
    let mut i: usize = 0;
    while i < ships.len()
        invariant
            i <= ships@.len(),
            n == ships_of_color(ships@.subrange(0, i as int), c),
            n <= i,
        decreases ships@.len() - i,
    {
        assert(ships@.subrange(0, i + 1).drop_last() == ships@.subrange(0, i as int));
        if ships[i].piece.type_.color == c {
            n = n + 1;
        }
        i = i + 1;
    }
    assert(ships@.subrange(0, ships@.len() as int) == ships@);
    n
}

/// A player's home system: up to two stars and the ships there.
#[derive(Debug)]
pub struct Homeworld {
    pub stars: Vec<Piece>,
    pub ships: Vec<OwnedPiece>,
    pub player: Player,
}

impl Homeworld {
    pub fn remaining_stars(&self) -> (r: &Vec<Piece>)
        ensures
            r@ == self.stars@,
    {
        &self.stars
    }

    pub fn sizes(&self) -> (r: SizeSet)
        ensures
            r@ == star_sizes(self.stars@),
    {
        sizes_of_stars(&self.stars)
    }

    pub fn colors(&self) -> (r: ColorSet)
        ensures
            r@ == star_colors(self.stars@),
    {
        colors_of_stars(&self.stars)
    }
}

/// A system founded during play: one star, its ships, and an id never reused.
#[derive(Debug)]
pub struct Colony {
    pub star: Piece,
    pub ships: Vec<OwnedPiece>,
    pub id: u64,
}

/// Names a system: a player's homeworld, or a colony by its id.
#[derive(PartialEq, Eq, Structural, Clone, Copy, Debug)]
pub enum SystemId {
    Homeworld(Player),
    Colony(u64),
}

/// Where a move goes: an existing system, or a new colony around a star of the given type.
#[derive(PartialEq, Eq, Structural, Clone, Copy, Debug)]
pub enum DestId {
    Sys(SystemId),
    NewColony(PieceType),
}

/// A system seen uniformly, whichever kind it is.
#[derive(Debug)]
pub enum System<'a> {
    Homeworld(&'a Homeworld),
    Colony(&'a Colony),
}

impl<'a> System<'a> {
    pub open spec fn spec_id(self) -> SystemId {
        match self {
            System::Homeworld(h) => SystemId::Homeworld(h.player),
            System::Colony(c) => SystemId::Colony(c.id),
        }
    }

    pub open spec fn spec_stars(self) -> Seq<Piece> {
        match self {
            System::Homeworld(h) => h.stars@,
            System::Colony(c) => seq![c.star],
        }
    }

    pub open spec fn spec_ships(self) -> Seq<OwnedPiece> {
        match self {
            System::Homeworld(h) => h.ships@,
            System::Colony(c) => c.ships@,
        }
    }

    pub fn sizes(&self) -> (r: SizeSet)
        ensures
            r@ == star_sizes(self.spec_stars()),
    {
        match self {
            System::Colony(colony) => {
                let mut r = SizeSet::empty();
                r.insert(colony.star.type_.size);
                assert(r@ =~= star_sizes(self.spec_stars())) by {
                    assert(self.spec_stars()[0] == colony.star);
                }
                r
            },
            System::Homeworld(homeworld) => homeworld.sizes(),
        }
    }

    pub fn can_reach(&self, other: &System) -> (r: bool)
        ensures
            r == reachable(self.spec_stars(), other.spec_stars()),
    {
        self.sizes().intersect(&other.sizes()).is_empty()
    }

    pub fn ships(&self) -> (r: &Vec<OwnedPiece>)
        ensures
            r@ == self.spec_ships(),
    {
        match self {
            System::Homeworld(homeworld) => &homeworld.ships,
            System::Colony(colony) => &colony.ships,
        }
    }

    pub fn id(&self) -> (r: SystemId)
        ensures
            r == self.spec_id(),
    {
        match self {
            System::Homeworld(homeworld) => SystemId::Homeworld(homeworld.player),
            System::Colony(colony) => SystemId::Colony(colony.id),
        }
    }

    /// Number of pieces of colour `c` here, stars and ships alike.
    pub fn color_count(&self, c: Color) -> (r: usize)
        ensures
            r == if stars_of_color(self.spec_stars(), c) + ships_of_color(self.spec_ships(), c)
                >= CATASTROPHE_THRESHOLD {
                CATASTROPHE_THRESHOLD as nat
            } else {
                stars_of_color(self.spec_stars(), c) + ships_of_color(self.spec_ships(), c)
            },
    {
        let from_stars = match self {
            System::Homeworld(homeworld) => count_stars_of_color(&homeworld.stars, c),
            System::Colony(colony) => {
                proof {
                    let stars = seq![colony.star];
                    assert(stars.drop_last() == Seq::<Piece>::empty());
                    reveal_with_fuel(stars_of_color, 2);
                }
                if colony.star.type_.color == c {
                    1
                } else {
                    0
                }
            },
        };
        let from_ships = count_ships_of_color(self.ships(), c);
        if from_stars >= CATASTROPHE_THRESHOLD || from_ships >= CATASTROPHE_THRESHOLD - from_stars {
            CATASTROPHE_THRESHOLD
        } else {
            from_stars + from_ships
        }
    }

    pub fn colors(&self, player: &Player) -> (r: ColorSet)
        ensures
            r@ == system_colors(self.spec_stars(), self.spec_ships(), *player),
    {
        match self {
            System::Colony(colony) => {
                let mut stars = ColorSet::empty();
                stars.insert(colony.star.type_.color);
                assert(stars@ =~= star_colors(self.spec_stars())) by {
                    assert(self.spec_stars()[0] == colony.star);
                }
                stars.union(&owned_colors(&colony.ships, player))
            },
            System::Homeworld(homeworld) => homeworld.colors().union(
                &owned_colors(&homeworld.ships, player),
            ),
        }
    }
}

} // verus!

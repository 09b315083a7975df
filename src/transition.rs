//! Applying actions: what each kind does to the pieces, the turn's budget, and
//! the opening turns.
use crate::pieces::{COPIES_PER_TYPE, Color, Piece, PieceBank, PieceType, Size};
use crate::systems::{Colony, DestId, Homeworld, OwnedPiece, Player, SystemId, owns};
use crate::actions::{
    Action, ActionKind, AvailableStdAction, BuildAction, CaptureAction, CatastropheAction,
    IllegalAction, MoveAction, SacrificeAction, TradeAction,
};
use crate::conservation::{
    conserved, lemma_apply_conserves, lemma_initial_conserved, lemma_setup_conserves,
};
use crate::game_state::GameState;
use vstd::prelude::*;

verus! {

/// How many entries of `s` are `t`.
pub open spec fn occurrences(s: Seq<PieceType>, t: PieceType) -> nat
    decreases s.len(),
{
    if s.len() == 0 {
        0
    } else {
        occurrences(s.drop_last(), t) + if s.last() == t {
            1nat
        } else {
            0nat
        }
    }
}

/// The types of the stars of colour `c`, in order.
pub open spec fn star_types_of_color(stars: Seq<Piece>, c: Color) -> Seq<PieceType>
    decreases stars.len(),
{
    if stars.len() == 0 {
        Seq::empty()
    } else if stars.last().type_.color == c {
        star_types_of_color(stars.drop_last(), c).push(stars.last().type_)
    } else {
        star_types_of_color(stars.drop_last(), c)
    }
}

/// The types of the ships of colour `c` (of any colour when `c` is `None`), in order.
pub open spec fn ship_types_of_color(ships: Seq<OwnedPiece>, c: Option<Color>) -> Seq<PieceType>
    decreases ships.len(),
{
    if ships.len() == 0 {
        Seq::empty()
    } else if c is None || ships.last().piece.type_.color == c->Some_0 {
        ship_types_of_color(ships.drop_last(), c).push(ships.last().piece.type_)
    } else {
        ship_types_of_color(ships.drop_last(), c)
    }
}

/// Holds of the stars not of colour `c`.
pub open spec fn star_not_of(c: Color) -> spec_fn(Piece) -> bool {
    |p: Piece| p.type_.color != c
}

/// Holds of the ships not of colour `c` (of none, when `c` is `None`).
pub open spec fn ship_not_of(c: Option<Color>) -> spec_fn(OwnedPiece) -> bool {
    |s: OwnedPiece| c is Some && s.piece.type_.color != c->Some_0
}

/// Occurrences in a concatenation add up.
pub proof fn lemma_occurrences_concat(a: Seq<PieceType>, b: Seq<PieceType>, t: PieceType)
    ensures
        occurrences(a + b, t) == occurrences(a, t) + occurrences(b, t),
    decreases b.len(),
{
    if b.len() == 0 {
        assert(a + b == a);
    } else {
        lemma_occurrences_concat(a, b.drop_last(), t);
        assert((a + b).drop_last() == a + b.drop_last());
        assert((a + b).last() == b.last());
    }
}

/// Index of a ship of type `t` that `player` controls, given that there is one.
pub(crate) fn find_ship(ships: &Vec<OwnedPiece>, player: Player, t: PieceType) -> (i: usize)
    requires
        owns(ships@, player, t),
    ensures
        i < ships@.len(),
        ships@[i as int].owner == player,
        ships@[i as int].piece.type_ == t,
{
    let mut i: usize = 0;
    while i < ships.len()
        invariant
            i <= ships@.len(),
            owns(ships@, player, t),
            forall|j: int| 0 <= j < i ==> !(#[trigger] ships@[j].owner == player && ships@[j].piece.type_ == t),
        decreases ships@.len() - i,
    {
        if ships[i].owner == player && ships[i].piece.type_ == t {
            return i;
        }
        i = i + 1;
    }
    proof {
        let j = choose|j: int| 0 <= j < ships@.len() && #[trigger] ships@[j].owner == player && ships@[j].piece.type_ == t;
    }
    0
}

/// Keeps the ships not of colour `c` (none, when `c` is `None`) and returns the
/// others to `bank`.
fn sweep_ships(bank: &mut PieceBank, ships: &Vec<OwnedPiece>, c: Option<Color>) -> (kept: Vec<OwnedPiece>)
    requires
        old(bank).wf(),
    ensures
        final(bank).wf(),
        kept@ == ships@.filter(ship_not_of(c)),
        forall|t: PieceType|
            #[trigger] final(bank).count(t) == old(bank).count(t) + occurrences(
                ship_types_of_color(ships@, c),
                t,
            ),
{
    let mut kept: Vec<OwnedPiece> = Vec::new();
    let mut i: usize = 0;
    while i < ships.len()
        invariant
            bank.wf(),
            i <= ships@.len(),
            kept@ == ships@.subrange(0, i as int).filter(ship_not_of(c)),
            forall|t: PieceType|
                #[trigger] bank.count(t) == old(bank).count(t) + occurrences(
                    ship_types_of_color(ships@.subrange(0, i as int), c),
                    t,
                ),
        decreases ships@.len() - i,
    {
        let ghost post = ships@.subrange(0, i + 1);
        proof {
            reveal(Seq::filter);
            assert(post.drop_last() == ships@.subrange(0, i as int));
            assert(post.last() == ships@[i as int]);
        }
        let ship = ships[i];
        let remove = match c {
            Some(color) => ship.piece.type_.color == color,
            None => true,
        };
        let ghost before = ship_types_of_color(ships@.subrange(0, i as int), c);
        if remove {
            bank.return_piece(ship.piece);
            assert(ship_types_of_color(post, c) == before.push(ship.piece.type_));
            assert(before.push(ship.piece.type_).drop_last() == before);
        } else {
            kept.push(ship);
            assert(ship_types_of_color(post, c) == before);
        }
        i = i + 1;
    }
    assert(ships@.subrange(0, ships@.len() as int) == ships@);
    kept
}

/// Keeps the stars not of colour `c` and returns the others to `bank`.
fn sweep_stars(bank: &mut PieceBank, stars: &Vec<Piece>, c: Color) -> (kept: Vec<Piece>)
    requires
        old(bank).wf(),
    ensures
        final(bank).wf(),
        kept@ == stars@.filter(star_not_of(c)),
        forall|t: PieceType|
            #[trigger] final(bank).count(t) == old(bank).count(t) + occurrences(
                star_types_of_color(stars@, c),
                t,
            ),
{
    let mut kept: Vec<Piece> = Vec::new();
    let mut i: usize = 0;
    while i < stars.len()
        invariant
            bank.wf(),
            i <= stars@.len(),
            kept@ == stars@.subrange(0, i as int).filter(star_not_of(c)),
            forall|t: PieceType|
                #[trigger] bank.count(t) == old(bank).count(t) + occurrences(
                    star_types_of_color(stars@.subrange(0, i as int), c),
                    t,
                ),
        decreases stars@.len() - i,
    {
        let ghost post = stars@.subrange(0, i + 1);
        proof {
            reveal(Seq::filter);
            assert(post.drop_last() == stars@.subrange(0, i as int));
            assert(post.last() == stars@[i as int]);
        }
        let star = stars[i];
        let ghost before = star_types_of_color(stars@.subrange(0, i as int), c);
        if star.type_.color == c {
            bank.return_piece(star);
            assert(star_types_of_color(post, c) == before.push(star.type_));
            assert(before.push(star.type_).drop_last() == before);
        } else {
            kept.push(star);
            assert(star_types_of_color(post, c) == before);
        }
        i = i + 1;
    }
    assert(stars@.subrange(0, stars@.len() as int) == stars@);
    kept
}

/// The budget after one action of it is spent: the front entry loses one action,
/// and goes once it has none left.
pub open spec fn spent(b: Seq<(AvailableStdAction, u8)>) -> Seq<(AvailableStdAction, u8)> {
    if b[0].1 <= 1 {
        b.drop_first()
    } else {
        b.update(0, (b[0].0, (b[0].1 - 1) as u8))
    }
}

/// The kind of action that sacrificing a piece of colour `c` grants.
pub open spec fn granted_kind(c: Color) -> AvailableStdAction {
    match c {
        Color::Red => AvailableStdAction::Capture,
        Color::Green => AvailableStdAction::Build,
        Color::Blue => AvailableStdAction::Trade,
        Color::Yellow => AvailableStdAction::Move,
    }
}

/// The kind of action that sacrificing a piece of colour `c` grants.
pub fn grant_for(c: Color) -> (r: AvailableStdAction)
    ensures
        r == granted_kind(c),
{
    match c {
        Color::Red => AvailableStdAction::Capture,
        Color::Green => AvailableStdAction::Build,
        Color::Blue => AvailableStdAction::Trade,
        Color::Yellow => AvailableStdAction::Move,
    }
}

/// Ship `i` of `ships` is one of `p`'s, of type `t`.
pub open spec fn ship_is(ships: Seq<OwnedPiece>, i: int, p: Player, t: PieceType) -> bool {
    0 <= i < ships.len() && ships[i].owner == p && ships[i].piece.type_ == t
}

impl GameState {
    /// `next` holds every system of `self` outside `ids`, unchanged, and no other.
    pub open spec fn keeps_systems_except(self, next: GameState, ids: Set<SystemId>) -> bool {
        forall|id: SystemId|
            !ids.contains(id) ==> (#[trigger] next.sys_exists(id) == self.sys_exists(id)) && (
            self.sys_exists(id) ==> next.stars_of(id) == self.stars_of(id) && next.ships_of(id)
                == self.ships_of(id))
    }

    /// `next`'s bank holds as many pieces of each type as `self`'s.
    pub open spec fn keeps_bank(self, next: GameState) -> bool {
        forall|t: PieceType| #[trigger] next.bank.count(t) == self.bank.count(t)
    }

    /// `next`'s bank is `self`'s with the types of `added` put in and those of
    /// `taken` taken out.
    pub open spec fn bank_moved(self, next: GameState, added: Seq<PieceType>, taken: Seq<PieceType>) -> bool {
        forall|t: PieceType|
            #[trigger] next.bank.count(t) + occurrences(taken, t) == self.bank.count(t) + occurrences(
                added,
                t,
            )
    }

    /// `next` has `self`'s player to move, turn count, budget and colony slots.
    pub open spec fn keeps_turn(self, next: GameState) -> bool {
        &&& next.current_player == self.current_player
        &&& next.turn_count == self.turn_count
        &&& next.avail_std_actions@ == self.avail_std_actions@
        &&& next.colonies@.len() == self.colonies@.len()
    }

    /// An independent copy of the state.
    pub fn copy(&self) -> (r: GameState)
        requires
            self.wf(),
        ensures
            r.wf(),
            self.keeps_systems_except(r, Set::empty()),
            self.keeps_bank(r),
            self.keeps_turn(r),
            r.colony_id_counter == self.colony_id_counter,
    {
        let mut colonies: Vec<Option<Colony>> = Vec::new();
        let mut i: usize = 0;
        while i < self.colonies.len()
            invariant
                self.wf(),
                i <= self.colonies@.len(),
                colonies@.len() == i,
                forall|j: int|
                    0 <= j < i ==> (#[trigger] colonies@[j] is Some) == self.colonies@[j] is Some,
                forall|j: int|
                    0 <= j < i && colonies@[j] is Some ==> (#[trigger] colonies@[j])->Some_0.star
                        == self.colonies@[j]->Some_0.star && colonies@[j]->Some_0.ships@
                        == self.colonies@[j]->Some_0.ships@ && colonies@[j]->Some_0.id
                        == self.colonies@[j]->Some_0.id,
            decreases self.colonies@.len() - i,
        {
            match &self.colonies[i] {
                Some(colony) => {
                    let ships = colony.ships.clone();
                    assert(ships@ =~= colony.ships@);
                    colonies.push(Some(Colony { star: colony.star, ships, id: colony.id }));
                },
                None => {
                    colonies.push(None);
                },
            }
            i = i + 1;
        }
        let first_ships = self.homeworlds[0].ships.clone();
        assert(first_ships@ =~= self.homeworlds[0].ships@);
        let first_stars = self.homeworlds[0].stars.clone();
        assert(first_stars@ =~= self.homeworlds[0].stars@);
        let second_ships = self.homeworlds[1].ships.clone();
        assert(second_ships@ =~= self.homeworlds[1].ships@);
        let second_stars = self.homeworlds[1].stars.clone();
        assert(second_stars@ =~= self.homeworlds[1].stars@);
        let mut avail: Vec<(AvailableStdAction, u8)> = Vec::new();
        let mut j: usize = 0;
        while j < self.avail_std_actions.len()
            invariant
                j <= self.avail_std_actions@.len(),
                avail@ == self.avail_std_actions@.subrange(0, j as int),
            decreases self.avail_std_actions@.len() - j,
        {
            avail.push(self.avail_std_actions[j]);
            assert(avail@ =~= self.avail_std_actions@.subrange(0, j + 1));
            j = j + 1;
        }
        assert(avail@ =~= self.avail_std_actions@);
        let r = GameState {
            bank: self.bank.copy(),
            homeworlds: [
                Homeworld { stars: first_stars, ships: first_ships, player: Player::First },
                Homeworld { stars: second_stars, ships: second_ships, player: Player::Second },
            ],
            colonies,
            current_player: self.current_player,
            turn_count: self.turn_count,
            colony_id_counter: self.colony_id_counter,
            avail_std_actions: avail,
        };
        assert forall|id: SystemId| #[trigger] r.sys_exists(id) == self.sys_exists(id) && (
        self.sys_exists(id) ==> r.stars_of(id) == self.stars_of(id) && r.ships_of(id)
            == self.ships_of(id)) by {
            match id {
                SystemId::Homeworld(p) => {},
                SystemId::Colony(c) => {
                    if c < self.colonies@.len() {
                        assert(r.colonies@[c as int] is Some == self.colonies@[c as int] is Some);
                    }
                },
            }
        }
        r
    }

    /// Takes out ship `i` of system `id`.
    fn take_ship(&mut self, id: SystemId, i: usize) -> (r: OwnedPiece)
        requires
            old(self).wf(),
            old(self).sys_exists(id),
            i < old(self).ships_of(id).len(),
        ensures
            final(self).wf(),
            r == old(self).ships_of(id)[i as int],
            final(self).sys_exists(id),
            final(self).ships_of(id) == old(self).ships_of(id).remove(i as int),
            final(self).stars_of(id) == old(self).stars_of(id),
            old(self).keeps_systems_except(*final(self), set![id]),
            old(self).keeps_bank(*final(self)),
            old(self).keeps_turn(*final(self)),
            final(self).colony_id_counter == old(self).colony_id_counter,
    {
        match id {
            SystemId::Homeworld(p) => {
                let k = p.index();
                self.homeworlds[k].ships.remove(i)
            },
            SystemId::Colony(c) => {
                let n = self.colonies.len();
                let k = c as usize;
                assert(k as int == c as int && k < n);
                match &mut self.colonies[k] {
                    Some(colony) => colony.ships.remove(i),
                    None => {
                        proof {
                            assert(false);
                        }
                        OwnedPiece::first(Piece::new(PieceType::new(Size::Small, Color::Red), 0))
                    },
                }
            },
        }
    }

    /// Adds `ship` to system `id`.
    fn put_ship(&mut self, id: SystemId, ship: OwnedPiece)
        requires
            old(self).wf(),
            old(self).sys_exists(id),
        ensures
            final(self).wf(),
            final(self).sys_exists(id),
            final(self).ships_of(id) == old(self).ships_of(id).push(ship),
            final(self).stars_of(id) == old(self).stars_of(id),
            old(self).keeps_systems_except(*final(self), set![id]),
            old(self).keeps_bank(*final(self)),
            old(self).keeps_turn(*final(self)),
            final(self).colony_id_counter == old(self).colony_id_counter,
    {
        match id {
            SystemId::Homeworld(p) => {
                let k = p.index();
                self.homeworlds[k].ships.push(ship);
            },
            SystemId::Colony(c) => {
                let n = self.colonies.len();
                let k = c as usize;
                assert(k as int == c as int && k < n);
                match &mut self.colonies[k] {
                    Some(colony) => colony.ships.push(ship),
                    None => {},
                }
            },
        }
    }

    /// Replaces ship `i` of system `id` by `ship`.
    fn set_ship(&mut self, id: SystemId, i: usize, ship: OwnedPiece)
        requires
            old(self).wf(),
            old(self).sys_exists(id),
            i < old(self).ships_of(id).len(),
        ensures
            final(self).wf(),
            final(self).sys_exists(id),
            final(self).ships_of(id) == old(self).ships_of(id).update(i as int, ship),
            final(self).stars_of(id) == old(self).stars_of(id),
            old(self).keeps_systems_except(*final(self), set![id]),
            old(self).keeps_bank(*final(self)),
            old(self).keeps_turn(*final(self)),
            final(self).colony_id_counter == old(self).colony_id_counter,
    {
        match id {
            SystemId::Homeworld(p) => {
                let k = p.index();
                self.homeworlds[k].ships[i] = ship;
            },
            SystemId::Colony(c) => {
                let n = self.colonies.len();
                let k = c as usize;
                assert(k as int == c as int && k < n);
                match &mut self.colonies[k] {
                    Some(colony) => {
                        colony.ships[i] = ship;
                    },
                    None => {},
                }
            },
        }
    }

    /// Founds a new colony around `star` with `ship` as its only ship.
    fn found_colony(&mut self, star: Piece, ship: OwnedPiece) -> (id: SystemId)
        requires
            old(self).wf(),
            old(self).colony_id_counter < u64::MAX,
        ensures
            final(self).wf(),
            id == SystemId::Colony(old(self).colony_id_counter),
            !old(self).sys_exists(id),
            final(self).sys_exists(id),
            final(self).stars_of(id) == seq![star],
            final(self).ships_of(id) == seq![ship],
            old(self).keeps_systems_except(*final(self), set![id]),
            old(self).keeps_bank(*final(self)),
            final(self).current_player == old(self).current_player,
            final(self).turn_count == old(self).turn_count,
            final(self).avail_std_actions@ == old(self).avail_std_actions@,
            final(self).colonies@.len() == old(self).colonies@.len() + 1,
            final(self).colony_id_counter == old(self).colony_id_counter + 1,
    {
        let new_id = self.colony_id_counter;
        let colony = Colony { star, ships: vec![ship], id: new_id };
        assert(colony.ships@ == seq![ship]);
        self.colonies.push(Some(colony));
        self.colony_id_counter = new_id + 1;
        let id = SystemId::Colony(new_id);
        assert forall|other: SystemId| !set![id].contains(other) implies (
        #[trigger] self.sys_exists(other) == old(self).sys_exists(other)) && (old(
            self,
        ).sys_exists(other) ==> self.stars_of(other) == old(self).stars_of(other) && self.ships_of(
            other,
        ) == old(self).ships_of(other)) by {
            match other {
                SystemId::Colony(c) => {
                    if c < old(self).colonies@.len() {
                        assert(self.colonies@[c as int] == old(self).colonies@[c as int]);
                    }
                },
                _ => {},
            }
        }
        id
    }

    /// Whether system `id` is a colony that its last ship has left.
    pub open spec fn deserted(self, id: SystemId) -> bool {
        id is Colony && self.ships_of(id).len() == 0
    }

    /// A colony without ships is removed and its star goes back to the bank; any
    /// other system stays as it is.
    fn abandon_if_deserted(&mut self, id: SystemId)
        requires
            old(self).wf(),
            old(self).sys_exists(id),
        ensures
            final(self).wf(),
            old(self).deserted(id) ==> !final(self).sys_exists(id) && old(self).bank_moved(
                *final(self),
                seq![old(self).stars_of(id)[0].type_],
                seq![],
            ),
            !old(self).deserted(id) ==> final(self).sys_exists(id) && final(self).stars_of(id)
                == old(self).stars_of(id) && final(self).ships_of(id) == old(self).ships_of(id)
                && old(self).keeps_bank(*final(self)),
            old(self).keeps_systems_except(*final(self), set![id]),
            old(self).keeps_turn(*final(self)),
            final(self).colony_id_counter == old(self).colony_id_counter,
    {
        match id {
            SystemId::Colony(c) => {
                let n = self.colonies.len();
                let k = c as usize;
                assert(k as int == c as int && k < n);
                let star = match &self.colonies[k] {
                    Some(colony) => if colony.ships.len() == 0 {
                        Some(colony.star)
                    } else {
                        None
                    },
                    None => None,
                };
                match star {
                    Some(star) => {
                        self.colonies.set(k, None);
                        self.bank.return_piece(star);
                        proof {
                            reveal_with_fuel(occurrences, 2);
                            assert forall|other: SystemId| !set![id].contains(other) implies (
                            #[trigger] self.sys_exists(other) == old(self).sys_exists(other)) && (old(
                                self,
                            ).sys_exists(other) ==> self.stars_of(other) == old(self).stars_of(other)
                                && self.ships_of(other) == old(self).ships_of(other)) by {
                                match other {
                                    SystemId::Colony(d) => {
                                        if d < old(self).colonies@.len() {
                                            assert(self.colonies@[d as int] == old(
                                                self,
                                            ).colonies@[d as int]);
                                        }
                                    },
                                    _ => {},
                                }
                            }
                        }
                    },
                    None => {},
                }
            },
            SystemId::Homeworld(_) => {},
        }
    }

    /// Removes every piece of colour `color` at system `id`, returning each to the
    /// bank; a colony whose star goes loses its ships to the bank too and is removed.
    fn strike(&mut self, id: SystemId, color: Color)
        requires
            old(self).wf(),
            old(self).sys_exists(id),
        ensures
            final(self).wf(),
            old(self).keeps_systems_except(*final(self), set![id]),
            old(self).keeps_turn(*final(self)),
            final(self).colony_id_counter == old(self).colony_id_counter,
            id is Homeworld ==> final(self).sys_exists(id) && final(self).stars_of(id) == old(
                self,
            ).stars_of(id).filter(star_not_of(color)) && final(self).ships_of(id) == old(
                self,
            ).ships_of(id).filter(ship_not_of(Some(color))) && old(self).bank_moved(
                *final(self),
                star_types_of_color(old(self).stars_of(id), color) + ship_types_of_color(
                    old(self).ships_of(id),
                    Some(color),
                ),
                seq![],
            ),
            id is Colony && old(self).stars_of(id)[0].type_.color == color ==> !final(self).sys_exists(
                id,
            ) && old(self).bank_moved(
                *final(self),
                seq![old(self).stars_of(id)[0].type_] + ship_types_of_color(
                    old(self).ships_of(id),
                    None,
                ),
                seq![],
            ),
            id is Colony && old(self).stars_of(id)[0].type_.color != color ==> final(self).sys_exists(
                id,
            ) && final(self).stars_of(id) == old(self).stars_of(id) && final(self).ships_of(id)
                == old(self).ships_of(id).filter(ship_not_of(Some(color))) && old(self).bank_moved(
                *final(self),
                ship_types_of_color(old(self).ships_of(id), Some(color)),
                seq![],
            ),
    {
        match id {
            SystemId::Homeworld(p) => {
                let k = p.index();
                let stars = sweep_stars(&mut self.bank, &self.homeworlds[k].stars, color);
                let ships = sweep_ships(&mut self.bank, &self.homeworlds[k].ships, Some(color));
                self.homeworlds[k].stars = stars;
                self.homeworlds[k].ships = ships;
                proof {
                    assert forall|t: PieceType| #[trigger] self.bank.count(t) + occurrences(seq![], t)
                        == old(self).bank.count(t) + occurrences(
                        star_types_of_color(old(self).stars_of(id), color) + ship_types_of_color(
                            old(self).ships_of(id),
                            Some(color),
                        ),
                        t,
                    ) by {
                        lemma_occurrences_concat(
                            star_types_of_color(old(self).stars_of(id), color),
                            ship_types_of_color(old(self).ships_of(id), Some(color)),
                            t,
                        );
                    }
                }
            },
            SystemId::Colony(c) => {
                let n = self.colonies.len();
                let k = c as usize;
                assert(k as int == c as int && k < n);
                let star_gone = match &self.colonies[k] {
                    Some(colony) => colony.star.type_.color == color,
                    None => false,
                };
                if star_gone {
                    match &self.colonies[k] {
                        Some(colony) => {
                            let star = colony.star;
                            let kept = sweep_ships(&mut self.bank, &colony.ships, None);
                            self.bank.return_piece(star);
                        },
                        None => {},
                    }
                    self.colonies.set(k, None);
                    proof {
                        reveal_with_fuel(occurrences, 2);
                        let st = seq![old(self).stars_of(id)[0].type_];
                        let sh = ship_types_of_color(old(self).ships_of(id), None);
                        assert forall|t: PieceType| #[trigger] self.bank.count(t) + occurrences(
                            seq![],
                            t,
                        ) == old(self).bank.count(t) + occurrences(st + sh, t) by {
                            lemma_occurrences_concat(st, sh, t);
                        }
                    }
                } else {
                    match &mut self.colonies[k] {
                        Some(colony) => {
                            let kept = sweep_ships(&mut self.bank, &colony.ships, Some(color));
                            colony.ships = kept;
                        },
                        None => {},
                    }
                    proof {
                        reveal_with_fuel(occurrences, 1);
                    }
                }
                proof {
                    assert forall|other: SystemId| !set![id].contains(other) implies (
                    #[trigger] self.sys_exists(other) == old(self).sys_exists(other)) && (old(
                        self,
                    ).sys_exists(other) ==> self.stars_of(other) == old(self).stars_of(other)
                        && self.ships_of(other) == old(self).ships_of(other)) by {
                        match other {
                            SystemId::Colony(d) => {
                                if d < old(self).colonies@.len() {
                                    assert(self.colonies@[d as int] == old(
                                        self,
                                    ).colonies@[d as int]);
                                }
                            },
                            _ => {},
                        }
                    }
                }
            },
        }
    }

    /// The budget once `a` is taken: a catastrophe is free; a sacrifice spends one
    /// action and queues as many actions of its colour's kind as its size's rank;
    /// any other action spends one.
    pub open spec fn budget_after(self, a: Action) -> Seq<(AvailableStdAction, u8)> {
        match a {
            Action::Catastrophe(_) => self.avail_std_actions@,
            Action::Sacrifice(s) => spent(self.avail_std_actions@).push(
                (granted_kind(s.piece_type.color), s.piece_type.size.spec_rank() as u8),
            ),
            _ => spent(self.avail_std_actions@),
        }
    }

    /// Some catastrophe may be triggered.
    pub open spec fn catastrophe_pending(self) -> bool {
        exists|a: Action| a.kind() == ActionKind::Catastrophe && #[trigger] self.rule_ok(a)
    }

    /// After `self`, system `id` holds the ships `ships_after`, and the bank has gained
    /// `added` and lost `taken`; a colony left without ships is gone instead, its star
    /// back in the bank.
    pub open spec fn leaves(
        self,
        next: GameState,
        id: SystemId,
        ships_after: Seq<OwnedPiece>,
        added: Seq<PieceType>,
        taken: Seq<PieceType>,
    ) -> bool {
        if id is Colony && ships_after.len() == 0 {
            &&& !next.sys_exists(id)
            &&& self.bank_moved(next, added.push(self.stars_of(id)[0].type_), taken)
        } else {
            &&& next.sys_exists(id)
            &&& next.ships_of(id) == ships_after
            &&& next.stars_of(id) == self.stars_of(id)
            &&& self.bank_moved(next, added, taken)
        }
    }

    /// Ship `i` of the source moves as `m` says, from `self` to `next`.
    pub open spec fn moved_at(self, m: MoveAction, next: GameState, i: int) -> bool {
        let loc = m.src_id;
        let ships = self.ships_of(loc);
        &&& ship_is(ships, i, self.current_player, m.piece_type)
        &&& match m.dest_id {
            DestId::Sys(d) => {
                &&& next.sys_exists(d)
                &&& next.stars_of(d) == self.stars_of(d)
                &&& next.ships_of(d) == self.ships_of(d).push(ships[i])
                &&& self.leaves(next, loc, ships.remove(i), seq![], seq![])
                &&& self.keeps_systems_except(next, set![loc, d])
            },
            DestId::NewColony(t) => {
                let nid = SystemId::Colony(self.colony_id_counter);
                &&& next.sys_exists(nid)
                &&& next.stars_of(nid).len() == 1
                &&& next.stars_of(nid)[0].type_ == t
                &&& next.ships_of(nid) == seq![ships[i]]
                &&& self.leaves(next, loc, ships.remove(i), seq![], seq![t])
                &&& self.keeps_systems_except(next, set![loc, nid])
            },
        }
    }

    /// Ship `i` at the trade's system is traded as `tr` says, from `self` to `next`.
    pub open spec fn traded_at(self, tr: TradeAction, next: GameState, i: int) -> bool {
        let loc = tr.location;
        let ships = self.ships_of(loc);
        let after = next.ships_of(loc);
        &&& ship_is(ships, i, self.current_player, tr.old_type)
        &&& next.sys_exists(loc)
        &&& next.stars_of(loc) == self.stars_of(loc)
        &&& after.len() == ships.len()
        &&& after == ships.update(i, after[i])
        &&& after[i].owner == self.current_player
        &&& after[i].piece.type_ == tr.new_type
        &&& self.bank_moved(next, seq![tr.old_type], seq![tr.new_type])
        &&& self.keeps_systems_except(next, set![loc])
    }

    /// Ship `i` at the capture's system changes hands, from `self` to `next`.
    pub open spec fn captured_at(self, c: CaptureAction, next: GameState, i: int) -> bool {
        let loc = c.location;
        let ships = self.ships_of(loc);
        &&& ship_is(ships, i, self.current_player.spec_other(), c.piece_type)
        &&& next.sys_exists(loc)
        &&& next.stars_of(loc) == self.stars_of(loc)
        &&& next.ships_of(loc) == ships.update(
            i,
            OwnedPiece { piece: ships[i].piece, owner: self.current_player },
        )
        &&& self.keeps_bank(next)
        &&& self.keeps_systems_except(next, set![loc])
    }

    /// Ship `i` at the sacrifice's system goes back to the bank, from `self` to `next`.
    pub open spec fn sacrificed_at(self, sac: SacrificeAction, next: GameState, i: int) -> bool {
        let loc = sac.location;
        let ships = self.ships_of(loc);
        &&& ship_is(ships, i, self.current_player, sac.piece_type)
        &&& self.leaves(next, loc, ships.remove(i), seq![sac.piece_type], seq![])
        &&& self.keeps_systems_except(next, set![loc])
    }

    /// What action `a` does to the pieces, from `self` to `next`.
    pub open spec fn effect(self, a: Action, next: GameState) -> bool {
        let p = self.current_player;
        let loc = a.location();
        let ships = self.ships_of(loc);
        let after = next.ships_of(loc);
        match a {
            Action::Move(m) => exists|i: int| #[trigger] self.moved_at(m, next, i),
            Action::Build(b) => {
                &&& next.sys_exists(loc)
                &&& next.stars_of(loc) == self.stars_of(loc)
                &&& after.len() == ships.len() + 1
                &&& after.drop_last() == ships
                &&& after.last().owner == p
                &&& after.last().piece.type_ == b.piece_type
                &&& self.bank_moved(next, seq![], seq![b.piece_type])
                &&& self.keeps_systems_except(next, set![loc])
            },
            Action::Trade(tr) => exists|i: int| #[trigger] self.traded_at(tr, next, i),
            Action::Capture(c) => exists|i: int| #[trigger] self.captured_at(c, next, i),
            Action::Sacrifice(sac) => exists|i: int| #[trigger] self.sacrificed_at(sac, next, i),
            Action::Catastrophe(c) => {
                let stars = self.stars_of(loc);
                &&& self.keeps_systems_except(next, set![loc])
                &&& match loc {
                    SystemId::Homeworld(_) => {
                        &&& next.sys_exists(loc)
                        &&& next.stars_of(loc) == stars.filter(star_not_of(c.color))
                        &&& after == ships.filter(ship_not_of(Some(c.color)))
                        &&& self.bank_moved(
                            next,
                            star_types_of_color(stars, c.color) + ship_types_of_color(
                                ships,
                                Some(c.color),
                            ),
                            seq![],
                        )
                    },
                    SystemId::Colony(_) => if stars[0].type_.color == c.color {
                        &&& !next.sys_exists(loc)
                        &&& self.bank_moved(
                            next,
                            seq![stars[0].type_] + ship_types_of_color(ships, None),
                            seq![],
                        )
                    } else {
                        self.leaves(
                            next,
                            loc,
                            ships.filter(ship_not_of(Some(c.color))),
                            ship_types_of_color(ships, Some(c.color)),
                            seq![],
                        )
                    },
                }
            },
        }
    }

    /// `next` is the state after the player to move takes `a` in `self`: the pieces
    /// change as `effect` says, and the budget as `budget_after` says; once the
    /// budget is spent and no catastrophe is pending, the other player's turn starts
    /// with one action of any kind.
    pub open spec fn successor(self, a: Action, next: GameState) -> bool {
        &&& next.wf()
        &&& self.effect(a, next)
        &&& next.colony_id_counter == self.colony_id_counter + if a is Move
            && a->Move_0.dest_id is NewColony {
            1int
        } else {
            0int
        }
        &&& if self.budget_after(a).len() == 0 && !next.catastrophe_pending() {
            &&& next.current_player == self.current_player.spec_other()
            &&& next.turn_count == if self.turn_count < u64::MAX {
                (self.turn_count + 1) as u64
            } else {
                self.turn_count
            }
            &&& next.avail_std_actions@ == seq![(AvailableStdAction::Any, 1u8)]
        } else {
            &&& next.current_player == self.current_player
            &&& next.turn_count == self.turn_count
            &&& next.avail_std_actions@ == self.budget_after(a)
        }
    }

    /// A system outside `ids` is as `keeps_systems_except` leaves it.
    pub proof fn lemma_kept(self, next: GameState, ids: Set<SystemId>, id: SystemId)
        requires
            self.keeps_systems_except(next, ids),
            !ids.contains(id),
        ensures
            next.sys_exists(id) == self.sys_exists(id),
            self.sys_exists(id) ==> next.stars_of(id) == self.stars_of(id) && next.ships_of(id)
                == self.ships_of(id),
    {
        assert(next.sys_exists(id) == self.sys_exists(id));
    }

    /// Two steps that each keep the systems outside a set keep those outside any
    /// set holding both.
    pub proof fn lemma_keeps_chain(
        self,
        mid: GameState,
        next: GameState,
        ids1: Set<SystemId>,
        ids2: Set<SystemId>,
        ids: Set<SystemId>,
    )
        requires
            self.keeps_systems_except(mid, ids1),
            mid.keeps_systems_except(next, ids2),
            ids1.subset_of(ids),
            ids2.subset_of(ids),
        ensures
            self.keeps_systems_except(next, ids),
    {
        assert forall|id: SystemId| !ids.contains(id) implies (#[trigger] next.sys_exists(id)
            == self.sys_exists(id)) && (self.sys_exists(id) ==> next.stars_of(id)
            == self.stars_of(id) && next.ships_of(id) == self.ships_of(id)) by {
            self.lemma_kept(mid, ids1, id);
            mid.lemma_kept(next, ids2, id);
        }
    }

    /// Two states with the same pieces agree on every system and on the bank.
    proof fn lemma_same_board(self, other: GameState)
        requires
            self.bank == other.bank,
            self.homeworlds == other.homeworlds,
            self.colonies == other.colonies,
        ensures
            forall|id: SystemId|
                #[trigger] other.sys_exists(id) == self.sys_exists(id) && other.stars_of(id)
                    == self.stars_of(id) && other.ships_of(id) == self.ships_of(id),
            forall|t: PieceType| #[trigger] other.bank.count(t) == self.bank.count(t),
            self.keeps_systems_except(other, Set::empty()),
            self.keeps_bank(other),
    {
    }

    /// What `effect` says of a state depends on its pieces only.
    proof fn lemma_effect_same_board(self, a: Action, n1: GameState, n2: GameState)
        requires
            self.effect(a, n1),
            n1.bank == n2.bank,
            n1.homeworlds == n2.homeworlds,
            n1.colonies == n2.colonies,
        ensures
            self.effect(a, n2),
    {
        n1.lemma_same_board(n2);
        let loc = a.location();
        assert(n2.sys_exists(loc) == n1.sys_exists(loc));
        match a {
            Action::Move(m) => {
                let i = choose|i: int| #[trigger] self.moved_at(m, n1, i);
                match m.dest_id {
                    DestId::Sys(d) => {
                        assert(n2.sys_exists(d) == n1.sys_exists(d));
                        self.lemma_keeps_chain(n1, n2, set![loc, d], Set::empty(), set![loc, d]);
                    },
                    DestId::NewColony(t) => {
                        let nid = SystemId::Colony(self.colony_id_counter);
                        assert(n2.sys_exists(nid) == n1.sys_exists(nid));
                        self.lemma_keeps_chain(n1, n2, set![loc, nid], Set::empty(), set![loc, nid]);
                    },
                }
                assert(self.moved_at(m, n2, i));
            },
            Action::Trade(tr) => {
                let i = choose|i: int| #[trigger] self.traded_at(tr, n1, i);
                self.lemma_keeps_chain(n1, n2, set![loc], Set::empty(), set![loc]);
                assert(self.traded_at(tr, n2, i));
            },
            Action::Capture(c) => {
                let i = choose|i: int| #[trigger] self.captured_at(c, n1, i);
                self.lemma_keeps_chain(n1, n2, set![loc], Set::empty(), set![loc]);
                assert(self.captured_at(c, n2, i));
            },
            Action::Sacrifice(sac) => {
                let i = choose|i: int| #[trigger] self.sacrificed_at(sac, n1, i);
                self.lemma_keeps_chain(n1, n2, set![loc], Set::empty(), set![loc]);
                assert(self.sacrificed_at(sac, n2, i));
            },
            _ => {
                self.lemma_keeps_chain(n1, n2, set![loc], Set::empty(), set![loc]);
            },
        }
    }

    /// The ships of system `id`.
    fn ships_at(&self, id: SystemId) -> (r: &Vec<OwnedPiece>)
        requires
            self.wf(),
            self.sys_exists(id),
        ensures
            r@ == self.ships_of(id),
    {
        match id {
            SystemId::Homeworld(p) => &self.homeworlds[p.index()].ships,
            SystemId::Colony(c) => {
                let n = self.colonies.len();
                let k = c as usize;
                assert(k as int == c as int && k < n);
                match &self.colonies[k] {
                    Some(colony) => &colony.ships,
                    None => {
                        proof {
                            assert(false);
                        }
                        &self.homeworlds[0].ships
                    },
                }
            },
        }
    }

    /// `next` has `self`'s player to move, turn count and budget.
    pub open spec fn same_turn(self, next: GameState) -> bool {
        &&& next.current_player == self.current_player
        &&& next.turn_count == self.turn_count
        &&& next.avail_std_actions@ == self.avail_std_actions@
    }

    /// The pieces after a legal move: the ship leaves its system for the destination,
    /// founding a colony around a star from the bank when the destination is new.
    fn perform_move(&self, m: MoveAction) -> (next: GameState)
        requires
            self.wf(),
            self.rule_ok(Action::Move(m)),
        ensures
            next.wf(),
            self.effect(Action::Move(m), next),
            self.same_turn(next),
            next.colony_id_counter == self.colony_id_counter + if m.dest_id is NewColony {
                1int
            } else {
                0int
            },
    {
        let src = m.src_id;
        let player = self.current_player;
        let i = find_ship(self.ships_at(src), player, m.piece_type);
        let ghost ships = self.ships_of(src);
        let mut next = self.copy();
        let ghost c0 = next;
        proof {
            self.lemma_kept(c0, Set::empty(), src);
        }
        let ship = next.take_ship(src, i);
        let ghost t0 = next;
        proof {
            assert(ship_is(ships, i as int, player, m.piece_type));
            self.lemma_keeps_chain(c0, t0, Set::empty(), set![src], set![src]);
        }
        match m.dest_id {
            DestId::Sys(d) => {
                proof {
                    self.lemma_kept(t0, set![src], d);
                }
                next.put_ship(d, ship);
                let ghost placed = next;
                proof {
                    t0.lemma_kept(placed, set![d], src);
                    self.lemma_keeps_chain(t0, placed, set![src], set![d], set![src, d]);
                }
                next.abandon_if_deserted(src);
                proof {
                    reveal_with_fuel(occurrences, 2);
                    placed.lemma_kept(next, set![src], d);
                    self.lemma_keeps_chain(placed, next, set![src, d], set![src], set![src, d]);
                    assert forall|t: PieceType| #[trigger] placed.bank.count(t) == self.bank.count(t) by {
                        assert(c0.bank.count(t) == self.bank.count(t));
                        assert(t0.bank.count(t) == c0.bank.count(t));
                    }
                    assert(self.leaves(next, src, ships.remove(i as int), seq![], seq![]));
                    assert(self.moved_at(m, next, i as int));
                }
            },
            DestId::NewColony(t) => {
                let ghost before_pop = next;
                let star = next.bank.pop_piece(t);
                let ghost b0 = next;
                proof {
                    assert(before_pop.keeps_systems_except(b0, Set::empty()));
                    self.lemma_keeps_chain(t0, b0, set![src], Set::empty(), set![src]);
                }
                match star {
                    Some(star) => {
                        let nid = next.found_colony(star, ship);
                        let ghost f0 = next;
                        proof {
                            b0.lemma_kept(f0, set![nid], src);
                            self.lemma_keeps_chain(b0, f0, set![src], set![nid], set![src, nid]);
                        }
                        next.abandon_if_deserted(src);
                        proof {
                            reveal_with_fuel(occurrences, 2);
                            f0.lemma_kept(next, set![src], nid);
                            self.lemma_keeps_chain(f0, next, set![src, nid], set![src], set![src, nid]);
                            assert forall|u: PieceType| #[trigger] f0.bank.count(u) + occurrences(
                                seq![t],
                                u,
                            ) == self.bank.count(u) by {
                                assert(c0.bank.count(u) == self.bank.count(u));
                                assert(t0.bank.count(u) == c0.bank.count(u));
                                assert(b0.bank.count(u) == f0.bank.count(u));
                            }
                            assert(self.leaves(next, src, ships.remove(i as int), seq![], seq![t]));
                            assert(self.moved_at(m, next, i as int));
                        }
                    },
                    None => {
                        proof {
                            assert(c0.bank.count(t) == self.bank.count(t));
                            assert(t0.bank.count(t) == c0.bank.count(t));
                        }
                    },
                }
            },
        }
        next
    }

    /// The pieces after a legal build: a new ship of the type, from the bank.
    fn perform_build(&self, b: BuildAction) -> (next: GameState)
        requires
            self.wf(),
            self.rule_ok(Action::Build(b)),
        ensures
            next.wf(),
            self.effect(Action::Build(b), next),
            self.same_turn(next),
            next.colony_id_counter == self.colony_id_counter,
    {
        let loc = b.location;
        let mut next = self.copy();
        let ghost c0 = next;
        proof {
            self.lemma_kept(c0, Set::empty(), loc);
            assert(c0.bank.count(b.piece_type) == self.bank.count(b.piece_type));
        }
        let piece = next.bank.pop_piece(b.piece_type);
        let ghost b0 = next;
        proof {
            assert(c0.keeps_systems_except(b0, Set::empty()));
            self.lemma_keeps_chain(c0, b0, Set::empty(), Set::empty(), Set::empty());
            self.lemma_kept(b0, Set::empty(), loc);
        }
        match piece {
            Some(piece) => {
                next.put_ship(loc, OwnedPiece { piece, owner: self.current_player });
                proof {
                    reveal_with_fuel(occurrences, 2);
                    self.lemma_keeps_chain(b0, next, Set::empty(), set![loc], set![loc]);
                    assert(next.ships_of(loc).drop_last() == self.ships_of(loc));
                    assert forall|u: PieceType| #[trigger] next.bank.count(u) + occurrences(
                        seq![b.piece_type],
                        u,
                    ) == self.bank.count(u) + occurrences(seq![], u) by {
                        assert(c0.bank.count(u) == self.bank.count(u));
                        assert(b0.bank.count(u) == next.bank.count(u));
                    }
                }
            },
            None => {},
        }
        next
    }

    /// The pieces after a legal trade: the ship becomes one of the new type, and the
    /// old piece goes back to the bank.
    fn perform_trade(&self, t: TradeAction) -> (next: GameState)
        requires
            self.wf(),
            self.rule_ok(Action::Trade(t)),
        ensures
            next.wf(),
            self.effect(Action::Trade(t), next),
            self.same_turn(next),
            next.colony_id_counter == self.colony_id_counter,
    {
        let loc = t.location;
        let player = self.current_player;
        let ships = self.ships_at(loc);
        let i = find_ship(ships, player, t.old_type);
        let old_ship = ships[i];
        let mut next = self.copy();
        let ghost c0 = next;
        proof {
            self.lemma_kept(c0, Set::empty(), loc);
            assert(c0.bank.count(t.new_type) == self.bank.count(t.new_type));
        }
        let piece = next.bank.pop_piece(t.new_type);
        let ghost b0 = next;
        proof {
            assert(c0.keeps_systems_except(b0, Set::empty()));
            self.lemma_keeps_chain(c0, b0, Set::empty(), Set::empty(), Set::empty());
            self.lemma_kept(b0, Set::empty(), loc);
        }
        match piece {
            Some(piece) => {
                next.set_ship(loc, i, OwnedPiece { piece, owner: player });
                let ghost s0 = next;
                next.bank.return_piece(old_ship.piece);
                proof {
                    reveal_with_fuel(occurrences, 2);
                    assert(s0.keeps_systems_except(next, Set::empty()));
                    self.lemma_keeps_chain(b0, s0, Set::empty(), set![loc], set![loc]);
                    self.lemma_keeps_chain(s0, next, set![loc], Set::empty(), set![loc]);
                    s0.lemma_kept(next, Set::empty(), loc);
                    assert(ship_is(self.ships_of(loc), i as int, player, t.old_type));
                    assert forall|u: PieceType| #[trigger] next.bank.count(u) + occurrences(
                        seq![t.new_type],
                        u,
                    ) == self.bank.count(u) + occurrences(seq![t.old_type], u) by {
                        assert(c0.bank.count(u) == self.bank.count(u));
                        assert(b0.bank.count(u) == s0.bank.count(u));
                    }
                    assert(next.ships_of(loc) == self.ships_of(loc).update(
                        i as int,
                        next.ships_of(loc)[i as int],
                    ));
                    assert(self.traded_at(t, next, i as int));
                }
            },
            None => {},
        }
        next
    }

    /// The pieces after a legal capture: the opposing ship changes hands in place.
    fn perform_capture(&self, c: CaptureAction) -> (next: GameState)
        requires
            self.wf(),
            self.rule_ok(Action::Capture(c)),
        ensures
            next.wf(),
            self.effect(Action::Capture(c), next),
            self.same_turn(next),
            next.colony_id_counter == self.colony_id_counter,
    {
        let loc = c.location;
        let player = self.current_player;
        let ships = self.ships_at(loc);
        let i = find_ship(ships, player.other(), c.piece_type);
        let captured = ships[i];
        let mut next = self.copy();
        let ghost c0 = next;
        proof {
            self.lemma_kept(c0, Set::empty(), loc);
        }
        next.set_ship(loc, i, OwnedPiece { piece: captured.piece, owner: player });
        proof {
            self.lemma_keeps_chain(c0, next, Set::empty(), set![loc], set![loc]);
            assert(ship_is(self.ships_of(loc), i as int, player.spec_other(), c.piece_type));
            assert forall|u: PieceType| #[trigger] next.bank.count(u) == self.bank.count(u) by {
                assert(c0.bank.count(u) == self.bank.count(u));
            }
            assert(self.captured_at(c, next, i as int));
        }
        next
    }

    /// The pieces after a legal sacrifice: the ship goes back to the bank.
    fn perform_sacrifice(&self, sac: SacrificeAction) -> (next: GameState)
        requires
            self.wf(),
            self.rule_ok(Action::Sacrifice(sac)),
        ensures
            next.wf(),
            self.effect(Action::Sacrifice(sac), next),
            self.same_turn(next),
            next.colony_id_counter == self.colony_id_counter,
    {
        let loc = sac.location;
        let player = self.current_player;
        let i = find_ship(self.ships_at(loc), player, sac.piece_type);
        let ghost ships = self.ships_of(loc);
        let mut next = self.copy();
        let ghost c0 = next;
        proof {
            self.lemma_kept(c0, Set::empty(), loc);
        }
        let ship = next.take_ship(loc, i);
        let ghost t0 = next;
        next.bank.return_piece(ship.piece);
        let ghost r0 = next;
        proof {
            assert(t0.keeps_systems_except(r0, Set::empty()));
            t0.lemma_kept(r0, Set::empty(), loc);
            self.lemma_keeps_chain(c0, t0, Set::empty(), set![loc], set![loc]);
            self.lemma_keeps_chain(t0, r0, set![loc], Set::empty(), set![loc]);
        }
        next.abandon_if_deserted(loc);
        proof {
            reveal_with_fuel(occurrences, 3);
            self.lemma_keeps_chain(r0, next, set![loc], set![loc], set![loc]);
            assert(ship_is(ships, i as int, player, sac.piece_type));
            assert forall|u: PieceType| #[trigger] r0.bank.count(u) == self.bank.count(u) + occurrences(
                seq![sac.piece_type],
                u,
            ) by {
                assert(c0.bank.count(u) == self.bank.count(u));
                assert(t0.bank.count(u) == c0.bank.count(u));
            }
            let added = seq![sac.piece_type];
            if self.deserted_after(loc, ships.remove(i as int)) {
                let st = self.stars_of(loc)[0].type_;
                assert(added.push(st).drop_last() == added);
            }
            assert(self.leaves(next, loc, ships.remove(i as int), seq![sac.piece_type], seq![]));
            assert(self.sacrificed_at(sac, next, i as int));
        }
        next
    }

    /// Whether `id` is a colony that `ships_after` would leave without ships.
    pub open spec fn deserted_after(self, id: SystemId, ships_after: Seq<OwnedPiece>) -> bool {
        id is Colony && ships_after.len() == 0
    }

    /// The pieces after a legal catastrophe: every piece of the colour there goes back
    /// to the bank.
    fn perform_catastrophe(&self, c: CatastropheAction) -> (next: GameState)
        requires
            self.wf(),
            self.rule_ok(Action::Catastrophe(c)),
        ensures
            next.wf(),
            self.effect(Action::Catastrophe(c), next),
            self.same_turn(next),
            next.colony_id_counter == self.colony_id_counter,
    {
        let loc = c.location;
        let mut next = self.copy();
        let ghost c0 = next;
        proof {
            self.lemma_kept(c0, Set::empty(), loc);
        }
        next.strike(loc, c.color);
        let ghost s0 = next;
        proof {
            self.lemma_keeps_chain(c0, s0, Set::empty(), set![loc], set![loc]);
            assert forall|u: PieceType| #[trigger] c0.bank.count(u) == self.bank.count(u) by {}
        }
        match loc {
            SystemId::Colony(_) => {
                if next.sys_exists_exec(loc) {
                    next.abandon_if_deserted(loc);
                    proof {
                        reveal_with_fuel(occurrences, 2);
                        self.lemma_keeps_chain(s0, next, set![loc], set![loc], set![loc]);
                        let added = ship_types_of_color(self.ships_of(loc), Some(c.color));
                        if s0.deserted(loc) {
                            let st = self.stars_of(loc)[0].type_;
                            assert(added.push(st).drop_last() == added);
                        }
                    }
                }
            },
            SystemId::Homeworld(_) => {},
        }
        next
    }

    /// Whether system `id` exists.
    fn sys_exists_exec(&self, id: SystemId) -> (r: bool)
        ensures
            r == self.sys_exists(id),
    {
        match id {
            SystemId::Homeworld(_) => true,
            SystemId::Colony(c) => {
                let n = self.colonies.len();
                if c < n as u64 {
                    let k = c as usize;
                    self.colonies[k].is_some()
                } else {
                    false
                }
            },
        }
    }

    /// Whether `action` may be taken now.
    pub fn is_legal(&self, action: &Action) -> (r: bool)
        requires
            self.wf(),
        ensures
            r == self.legal(*action),
    {
        let actions = self.legal_actions();
        let mut i: usize = 0;
        while i < actions.len()
            invariant
                i <= actions@.len(),
                forall|a: Action| #[trigger] actions@.contains(a) <==> self.legal(a),
                forall|j: int| 0 <= j < i ==> actions@[j] != *action,
            decreases actions@.len() - i,
        {
            if actions[i] == *action {
                assert(actions@.contains(actions@[i as int]));
                return true;
            }
            i = i + 1;
        }
        proof {
            if self.legal(*action) {
                assert(actions@.contains(*action));
            }
        }
        false
    }

    /// The budget with one action of its front entry spent.
    fn spent_budget(&self) -> (r: Vec<(AvailableStdAction, u8)>)
        requires
            self.avail_std_actions@.len() > 0,
        ensures
            r@ == spent(self.avail_std_actions@),
    {
        let mut r: Vec<(AvailableStdAction, u8)> = Vec::new();
        let (kind, count) = self.avail_std_actions[0];
        if count > 1 {
            r.push((kind, count - 1));
        }
        let mut j: usize = 1;
        while j < self.avail_std_actions.len()
            invariant
                1 <= j <= self.avail_std_actions@.len(),
                (kind, count) == self.avail_std_actions@[0],
                count > 1 ==> r@ == seq![(kind, (count - 1) as u8)] + self.avail_std_actions@.subrange(
                    1,
                    j as int,
                ),
                count <= 1 ==> r@ == self.avail_std_actions@.subrange(1, j as int),
            decreases self.avail_std_actions@.len() - j,
        {
            r.push(self.avail_std_actions[j]);
            assert(self.avail_std_actions@.subrange(1, j + 1) == self.avail_std_actions@.subrange(
                1,
                j as int,
            ).push(self.avail_std_actions@[j as int]));
            j = j + 1;
        }
        assert(r@ =~= spent(self.avail_std_actions@));
        r
    }

    /// The budget once `action` is taken.
    fn next_budget(&self, action: &Action) -> (r: Vec<(AvailableStdAction, u8)>)
        requires
            self.wf(),
            self.legal(*action),
        ensures
            r@ == self.budget_after(*action),
    {
        match action {
            Action::Catastrophe(_) => {
                let mut r: Vec<(AvailableStdAction, u8)> = Vec::new();
                let mut j: usize = 0;
                while j < self.avail_std_actions.len()
                    invariant
                        j <= self.avail_std_actions@.len(),
                        r@ == self.avail_std_actions@.subrange(0, j as int),
                    decreases self.avail_std_actions@.len() - j,
                {
                    r.push(self.avail_std_actions[j]);
                    assert(r@ =~= self.avail_std_actions@.subrange(0, j + 1));
                    j = j + 1;
                }
                assert(r@ =~= self.avail_std_actions@);
                r
            },
            Action::Sacrifice(s) => {
                let mut r = self.spent_budget();
                r.push((grant_for(s.piece_type.color), s.piece_type.size.rank()));
                r
            },
            _ => self.spent_budget(),
        }
    }

    /// Applies `action` for the player to move, returning the new state; the state
    /// itself is left as it was.
    pub fn apply(&self, action: &Action) -> (r: Result<GameState, IllegalAction>)
        requires
            self.wf(),
        ensures
            r is Err <==> !self.legal(*action),
            r is Ok ==> self.successor(*action, r->Ok_0),
            r is Ok && conserved(*self) ==> conserved(r->Ok_0),
    {
        if !self.is_legal(action) {
            return Err(IllegalAction);
        }
        let mut next = match *action {
            Action::Move(m) => self.perform_move(m),
            Action::Build(b) => self.perform_build(b),
            Action::Trade(t) => self.perform_trade(t),
            Action::Capture(c) => self.perform_capture(c),
            Action::Sacrifice(s) => self.perform_sacrifice(s),
            Action::Catastrophe(c) => self.perform_catastrophe(c),
        };
        let ghost performed = next;
        next.avail_std_actions = self.next_budget(action);
        if next.avail_std_actions.len() == 0 {
            let mut catastrophes: Vec<Action> = Vec::new();
            next.add_catastrophe_actions(&mut catastrophes);
            if catastrophes.len() == 0 {
                let ghost ended = next;
                next.current_player = self.current_player.other();
                next.turn_count = self.turn_count.saturating_add(1);
                next.avail_std_actions = vec![(AvailableStdAction::Any, 1)];
                proof {
                    ended.lemma_same_board(next);
                    assert forall|a: Action|
                        a.kind() == ActionKind::Catastrophe implies !(#[trigger] next.rule_ok(a)) by {
                        assert(!catastrophes@.contains(a));
                        assert(ended.sys_exists(a.location()) == next.sys_exists(a.location()));
                        assert(ended.rule_ok(a) == next.rule_ok(a));
                    }
                    assert(!next.catastrophe_pending());
                }
            } else {
                proof {
                    let a = catastrophes@[0];
                    assert(catastrophes@.contains(a));
                    assert(next.rule_ok(a));
                    assert(next.catastrophe_pending());
                }
            }
        }
        proof {
            self.lemma_effect_same_board(*action, performed, next);
            assert(next.wf());
            assert(self.effect(*action, next));
            assert(next.colony_id_counter == self.colony_id_counter + if action is Move
                && action->Move_0.dest_id is NewColony {
                1int
            } else {
                0int
            });
            if self.budget_after(*action).len() == 0 && !next.catastrophe_pending() {
                assert(next.current_player == self.current_player.spec_other());
                assert(next.turn_count == if self.turn_count < u64::MAX {
                    (self.turn_count + 1) as u64
                } else {
                    self.turn_count
                });
                assert(next.avail_std_actions@ == seq![(AvailableStdAction::Any, 1u8)]);
            } else {
                assert(next.current_player == self.current_player);
                assert(next.turn_count == self.turn_count);
                assert(next.avail_std_actions@ == self.budget_after(*action));
            }
            if conserved(*self) {
                lemma_apply_conserves(*self, *action, next);
            }
        }
        Ok(next)
    }

    /// Some legal action leads from `self` to `next`.
    pub open spec fn leads_to(self, next: GameState) -> bool {
        exists|a: Action| #[trigger] self.reached_by(a, next)
    }

    /// `a` is legal in `self` and leads to `next`.
    #[verifier::opaque]
    pub open spec fn reached_by(self, a: Action, next: GameState) -> bool {
        self.legal(a) && self.successor(a, next)
    }

    /// What `reached_by` says.
    pub proof fn lemma_reached_by(self, a: Action, next: GameState)
        ensures
            self.reached_by(a, next) <==> self.legal(a) && self.successor(a, next),
    {
        reveal(GameState::reached_by);
    }

    /// An action that reaches a state is legal.
    pub proof fn lemma_reached_by_legal(self, a: Action, next: GameState)
        requires
            self.reached_by(a, next),
        ensures
            self.legal(a),
    {
        reveal(GameState::reached_by);
    }

    /// The states that the legal actions lead to.
    pub fn valid_moves(&self) -> (r: Vec<GameState>)
        requires
            self.wf(),
        ensures
            forall|j: int| 0 <= j < r@.len() ==> self.leads_to(#[trigger] r@[j]),
            forall|a: Action|
                self.legal(a) ==> exists|j: int|
                    0 <= j < r@.len() && self.reached_by(a, #[trigger] r@[j]),
    {
        reveal(GameState::reached_by);
        let actions = self.legal_actions();
        let mut result: Vec<GameState> = Vec::new();
        let mut i: usize = 0;
        while i < actions.len()
            invariant
                self.wf(),
                i <= actions@.len(),
                result@.len() == i,
                forall|a: Action| #[trigger] actions@.contains(a) <==> self.legal(a),
                forall|j: int| 0 <= j < i ==> self.successor(actions@[j], #[trigger] result@[j]),
            decreases actions@.len() - i,
        {
            assert(actions@.contains(actions@[i as int]));
            match self.apply(&actions[i]) {
                Ok(next) => result.push(next),
                Err(_) => {
                    proof {
                        assert(false);
                    }
                },
            }
            i = i + 1;
        }
        assert forall|j: int| 0 <= j < result@.len() implies self.leads_to(#[trigger] result@[j]) by {
            assert(actions@.contains(actions@[j]));
            assert(self.legal(actions@[j]) && self.successor(actions@[j], result@[j]));
            assert(self.reached_by(actions@[j], result@[j]));
        }
        assert forall|a: Action| self.legal(a) implies exists|j: int|
            0 <= j < result@.len() && self.reached_by(a, #[trigger] result@[j]) by {
            assert(actions@.contains(a));
            let j = choose|j: int| 0 <= j < actions@.len() && actions@[j] == a;
            assert(self.successor(actions@[j], result@[j]));
            assert(self.reached_by(a, result@[j]));
        }
        result
    }

    /// Both players have taken their opening turn.
    pub open spec fn opening_done(self) -> bool {
        self.turn_count >= 2
    }

    /// The winner, once the opening is over: the player whose opponent's homeworld
    /// has no star left while their own still has one.
    pub open spec fn spec_winner(self) -> Option<Player> {
        let first_out = self.homeworlds[0].stars@.len() == 0;
        let second_out = self.homeworlds[1].stars@.len() == 0;
        if !self.opening_done() || first_out == second_out {
            None
        } else if first_out {
            Some(Player::Second)
        } else {
            Some(Player::First)
        }
    }

    pub fn winner(&self) -> (r: Option<Player>)
        ensures
            r == self.spec_winner(),
    {
        let first_out = self.homeworlds[0].stars.len() == 0;
        let second_out = self.homeworlds[1].stars.len() == 0;
        if self.turn_count < 2 || first_out == second_out {
            None
        } else if first_out {
            Some(Player::Second)
        } else {
            Some(Player::First)
        }
    }

    /// The homeworld of `player`.
    pub fn homeworld_for(&self, player: &Player) -> (r: &Homeworld)
        requires
            self.wf(),
        ensures
            *r == self.homeworlds[player.spec_index()],
            r.player == *player,
    {
        &self.homeworlds[player.index()]
    }

    /// The start of a game: a full bank, two empty homeworlds, no colonies, and the
    /// first player to move with one action of any kind.
    pub fn initial_state() -> (r: GameState)
        ensures
            r.wf(),
            forall|t: PieceType| #[trigger] r.bank.count(t) == COPIES_PER_TYPE,
            r.bank.total() == 36,
            r.homeworlds[0].stars@.len() == 0 && r.homeworlds[0].ships@.len() == 0,
            r.homeworlds[1].stars@.len() == 0 && r.homeworlds[1].ships@.len() == 0,
            r.colonies@.len() == 0,
            r.current_player == Player::First,
            r.turn_count == 0,
            r.avail_std_actions@ == seq![(AvailableStdAction::Any, 1u8)],
            conserved(r),
    {
        let r = GameState {
            bank: PieceBank::new(),
            homeworlds: [
                Homeworld { stars: Vec::new(), ships: Vec::new(), player: Player::First },
                Homeworld { stars: Vec::new(), ships: Vec::new(), player: Player::Second },
            ],
            colonies: Vec::new(),
            current_player: Player::First,
            turn_count: 0,
            colony_id_counter: 0,
            avail_std_actions: vec![(AvailableStdAction::Any, 1)],
        };
        proof {
            lemma_initial_conserved(r);
        }
        r
    }

    /// The player to move may set up their homeworld: it is the opening, their
    /// homeworld is still empty, and the bank holds the two stars and the ship.
    pub open spec fn can_set_up(self, stars: (PieceType, PieceType), ship: PieceType) -> bool {
        let hw = self.homeworlds[self.current_player.spec_index()];
        &&& self.turn_count < 2
        &&& hw.stars@.len() == 0
        &&& hw.ships@.len() == 0
        &&& forall|t: PieceType|
            #[trigger] self.bank.count(t) >= occurrences(seq![stars.0, stars.1, ship], t)
    }

    /// The opening turn of the player to move: draws two stars and a ship from the
    /// bank into their homeworld, then passes the turn.
    pub fn setup_homeworld(&self, stars: (PieceType, PieceType), ship: PieceType) -> (r: Result<
        GameState,
        IllegalAction,
    >)
        requires
            self.wf(),
        ensures
            r is Ok <==> self.can_set_up(stars, ship),
            r is Ok ==> {
                let n = r->Ok_0;
                let id = SystemId::Homeworld(self.current_player);
                &&& n.wf()
                &&& n.stars_of(id).len() == 2
                &&& n.stars_of(id)[0].type_ == stars.0
                &&& n.stars_of(id)[1].type_ == stars.1
                &&& n.ships_of(id).len() == 1
                &&& n.ships_of(id)[0].owner == self.current_player
                &&& n.ships_of(id)[0].piece.type_ == ship
                &&& self.keeps_systems_except(n, set![id])
                &&& self.bank_moved(n, seq![], seq![stars.0, stars.1, ship])
                &&& n.current_player == self.current_player.spec_other()
                &&& n.turn_count == self.turn_count + 1
                &&& n.avail_std_actions@ == seq![(AvailableStdAction::Any, 1u8)]
            },
            r is Ok && conserved(*self) ==> conserved(r->Ok_0),
    {
        let player = self.current_player;
        let k = player.index();
        proof {
            reveal_with_fuel(occurrences, 4);
        }
        if self.turn_count >= 2 || self.homeworlds[k].stars.len() != 0
            || self.homeworlds[k].ships.len() != 0 {
            return Err(IllegalAction);
        }
        let mut next = self.copy();
        let ghost c0 = next;
        let first = next.bank.pop_piece(stars.0);
        let second = next.bank.pop_piece(stars.1);
        let third = next.bank.pop_piece(ship);
        match (first, second, third) {
            (Some(first), Some(second), Some(third)) => {
                next.homeworlds[k].stars = vec![first, second];
                next.homeworlds[k].ships = vec![OwnedPiece { piece: third, owner: player }];
                next.current_player = player.other();
                next.turn_count = self.turn_count + 1;
                next.avail_std_actions = vec![(AvailableStdAction::Any, 1)];
                proof {
                    let id = SystemId::Homeworld(player);
                    assert forall|t: PieceType| #[trigger] next.bank.count(t) + occurrences(
                        seq![stars.0, stars.1, ship],
                        t,
                    ) == self.bank.count(t) + occurrences(seq![], t) by {
                        assert(c0.bank.count(t) == self.bank.count(t));
                    }
                    assert forall|t: PieceType| #[trigger] self.bank.count(t) >= occurrences(
                        seq![stars.0, stars.1, ship],
                        t,
                    ) by {
                        assert(c0.bank.count(t) == self.bank.count(t));
                    }
                    assert forall|other: SystemId| !set![id].contains(other) implies (
                    #[trigger] next.sys_exists(other) == self.sys_exists(other)) && (
                    self.sys_exists(other) ==> next.stars_of(other) == self.stars_of(other)
                        && next.ships_of(other) == self.ships_of(other)) by {
                        self.lemma_kept(c0, Set::empty(), other);
                    }
                    if conserved(*self) {
                        lemma_setup_conserves(*self, stars, ship, next);
                    }
                }
                Ok(next)
            },
            _ => {
                proof {
                    assert(c0.bank.count(stars.0) == self.bank.count(stars.0));
                    assert(c0.bank.count(stars.1) == self.bank.count(stars.1));
                    assert(c0.bank.count(ship) == self.bank.count(ship));
                    if first is None {
                        assert(self.bank.count(stars.0) < occurrences(seq![stars.0, stars.1, ship], stars.0));
                    } else if second is None {
                        assert(self.bank.count(stars.1) < occurrences(seq![stars.0, stars.1, ship], stars.1));
                    } else {
                        assert(self.bank.count(ship) < occurrences(seq![stars.0, stars.1, ship], ship));
                    }
                }
                Err(IllegalAction)
            },
        }
    }

}

} // verus!

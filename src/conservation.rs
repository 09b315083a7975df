//! Piece conservation: every piece is either in the bank or in play, so each type
//! keeps its three copies through every action.
use crate::pieces::{COPIES_PER_TYPE, Color, Piece, PieceType};
use crate::systems::{DestId, OwnedPiece, Player, SystemId};
use crate::actions::{
    Action, BuildAction, CaptureAction, CatastropheAction, MoveAction, SacrificeAction, TradeAction,
};
use crate::game_state::GameState;
use crate::transition::{
    lemma_occurrences_concat, occurrences, ship_not_of, ship_types_of_color, star_not_of,
    star_types_of_color,
};
use vstd::prelude::*;

verus! {

/// Number of stars of type `t`.
pub open spec fn stars_of_type(stars: Seq<Piece>, t: PieceType) -> nat
    decreases stars.len(),
{
    if stars.len() == 0 {
        0
    } else {
        stars_of_type(stars.drop_last(), t) + if stars.last().type_ == t {
            1nat
        } else {
            0nat
        }
    }
}

/// Number of ships of type `t`, whoever controls them.
pub open spec fn ships_of_type(ships: Seq<OwnedPiece>, t: PieceType) -> nat
    decreases ships.len(),
{
    if ships.len() == 0 {
        0
    } else {
        ships_of_type(ships.drop_last(), t) + if ships.last().piece.type_ == t {
            1nat
        } else {
            0nat
        }
    }
}

/// Number of pieces of type `t` at system `id` (none, if it does not exist).
pub open spec fn system_count(s: GameState, id: SystemId, t: PieceType) -> nat {
    if s.sys_exists(id) {
        stars_of_type(s.stars_of(id), t) + ships_of_type(s.ships_of(id), t)
    } else {
        0
    }
}

/// Number of pieces of type `t` at the colonies of the first `m` slots.
pub open spec fn colonies_count(s: GameState, m: nat, t: PieceType) -> nat
    decreases m,
{
    if m == 0 {
        0
    } else {
        colonies_count(s, (m - 1) as nat, t) + system_count(s, SystemId::Colony((m - 1) as u64), t)
    }
}

/// Number of pieces of type `t` in play.
pub open spec fn in_play(s: GameState, t: PieceType) -> nat {
    system_count(s, SystemId::Homeworld(Player::First), t) + system_count(
        s,
        SystemId::Homeworld(Player::Second),
        t,
    ) + colonies_count(s, s.colonies@.len(), t)
}

/// Each type's copies are all either in the bank or in play.
pub open spec fn conserved(s: GameState) -> bool {
    forall|t: PieceType| #[trigger] s.bank.count(t) + in_play(s, t) == COPIES_PER_TYPE
}

/// Pieces of type `t` at systems `id1` and `id2` (counted once when they are one).
pub open spec fn pair_count(s: GameState, id1: SystemId, id2: SystemId, t: PieceType) -> nat {
    system_count(s, id1, t) + if id2 != id1 {
        system_count(s, id2, t)
    } else {
        0
    }
}

/// The part of `pair_count` that lies among the first `m` colony slots.
pub open spec fn pair_in_slots(
    s: GameState,
    id1: SystemId,
    id2: SystemId,
    m: nat,
    t: PieceType,
) -> nat {
    (if id1 is Colony && id1->Colony_0 < m {
        system_count(s, id1, t)
    } else {
        0
    }) + if id2 != id1 && id2 is Colony && id2->Colony_0 < m {
        system_count(s, id2, t)
    } else {
        0
    }
}

proof fn lemma_colonies_frame(
    s: GameState,
    n: GameState,
    id1: SystemId,
    id2: SystemId,
    m: nat,
    t: PieceType,
)
    requires
        s.keeps_systems_except(n, set![id1, id2]),
        m <= u64::MAX,
    ensures
        colonies_count(n, m, t) + pair_in_slots(s, id1, id2, m, t) == colonies_count(s, m, t)
            + pair_in_slots(n, id1, id2, m, t),
    decreases m,
{
    if m > 0 {
        lemma_colonies_frame(s, n, id1, id2, (m - 1) as nat, t);
        let c = SystemId::Colony((m - 1) as u64);
        if c != id1 && c != id2 {
            s.lemma_kept(n, set![id1, id2], c);
        }
    }
}

proof fn lemma_colonies_beyond(s: GameState, m: nat, t: PieceType)
    requires
        s.colonies@.len() <= m <= u64::MAX,
    ensures
        colonies_count(s, m, t) == colonies_count(s, s.colonies@.len(), t),
    decreases m,
{
    if m > s.colonies@.len() {
        lemma_colonies_beyond(s, (m - 1) as nat, t);
    }
}

/// Outside two systems, two states that keep the other systems have the same pieces
/// in play.
proof fn lemma_in_play_frame(s: GameState, n: GameState, id1: SystemId, id2: SystemId, t: PieceType)
    requires
        s.wf(),
        n.wf(),
        s.keeps_systems_except(n, set![id1, id2]),
        s.colonies@.len() <= n.colonies@.len(),
        id1 is Colony ==> id1->Colony_0 < n.colonies@.len(),
        id2 is Colony ==> id2->Colony_0 < n.colonies@.len(),
    ensures
        in_play(n, t) + pair_count(s, id1, id2, t) == in_play(s, t) + pair_count(n, id1, id2, t),
{
    let m = n.colonies@.len();
    lemma_colonies_frame(s, n, id1, id2, m, t);
    lemma_colonies_beyond(s, m, t);
    let h1 = SystemId::Homeworld(Player::First);
    let h2 = SystemId::Homeworld(Player::Second);
    if h1 != id1 && h1 != id2 {
        s.lemma_kept(n, set![id1, id2], h1);
    }
    if h2 != id1 && h2 != id2 {
        s.lemma_kept(n, set![id1, id2], h2);
    }
}

proof fn lemma_ships_remove(ships: Seq<OwnedPiece>, i: int, t: PieceType)
    requires
        0 <= i < ships.len(),
    ensures
        ships_of_type(ships.remove(i), t) + (if ships[i].piece.type_ == t {
            1nat
        } else {
            0nat
        }) == ships_of_type(ships, t),
    decreases ships.len(),
{
    if i == ships.len() - 1 {
        assert(ships.remove(i) == ships.drop_last());
    } else {
        lemma_ships_remove(ships.drop_last(), i, t);
        assert(ships.remove(i).drop_last() == ships.drop_last().remove(i));
        assert(ships.remove(i).last() == ships.last());
    }
}

proof fn lemma_ships_update(ships: Seq<OwnedPiece>, i: int, x: OwnedPiece, t: PieceType)
    requires
        0 <= i < ships.len(),
    ensures
        ships_of_type(ships.update(i, x), t) + (if ships[i].piece.type_ == t {
            1nat
        } else {
            0nat
        }) == ships_of_type(ships, t) + (if x.piece.type_ == t {
            1nat
        } else {
            0nat
        }),
    decreases ships.len(),
{
    if i == ships.len() - 1 {
        assert(ships.update(i, x).drop_last() == ships.drop_last());
    } else {
        lemma_ships_update(ships.drop_last(), i, x, t);
        assert(ships.update(i, x).drop_last() == ships.drop_last().update(i, x));
    }
}

proof fn lemma_ships_push(ships: Seq<OwnedPiece>, x: OwnedPiece, t: PieceType)
    ensures
        ships_of_type(ships.push(x), t) == ships_of_type(ships, t) + if x.piece.type_ == t {
            1nat
        } else {
            0nat
        },
{
    assert(ships.push(x).drop_last() == ships);
}

proof fn lemma_single_star(star: Piece, t: PieceType)
    ensures
        stars_of_type(seq![star], t) == if star.type_ == t {
            1nat
        } else {
            0nat
        },
{
    reveal_with_fuel(stars_of_type, 2);
    assert(seq![star].drop_last() == Seq::<Piece>::empty());
    assert(seq![star].last() == star);
}

proof fn lemma_single_ship(ship: OwnedPiece, t: PieceType)
    ensures
        ships_of_type(seq![ship], t) == if ship.piece.type_ == t {
            1nat
        } else {
            0nat
        },
{
    reveal_with_fuel(ships_of_type, 2);
    assert(seq![ship].drop_last() == Seq::<OwnedPiece>::empty());
    assert(seq![ship].last() == ship);
}

proof fn lemma_one_more(added: Seq<PieceType>, x: PieceType, t: PieceType)
    ensures
        occurrences(added.push(x), t) == occurrences(added, t) + if x == t {
            1nat
        } else {
            0nat
        },
{
    assert(added.push(x).drop_last() == added);
}

proof fn lemma_stars_split(stars: Seq<Piece>, c: Color, t: PieceType)
    ensures
        stars_of_type(stars, t) == stars_of_type(stars.filter(star_not_of(c)), t) + occurrences(
            star_types_of_color(stars, c),
            t,
        ),
    decreases stars.len(),
{
    reveal(Seq::filter);
    if stars.len() > 0 {
        lemma_stars_split(stars.drop_last(), c, t);
        let f = stars.drop_last().filter(star_not_of(c));
        let k = star_types_of_color(stars.drop_last(), c);
        if star_not_of(c)(stars.last()) {
            assert(f.push(stars.last()).drop_last() == f);
        } else {
            lemma_one_more(k, stars.last().type_, t);
        }
    }
}

proof fn lemma_ships_split(ships: Seq<OwnedPiece>, c: Color, t: PieceType)
    ensures
        ships_of_type(ships, t) == ships_of_type(ships.filter(ship_not_of(Some(c))), t)
            + occurrences(ship_types_of_color(ships, Some(c)), t),
    decreases ships.len(),
{
    reveal(Seq::filter);
    if ships.len() > 0 {
        lemma_ships_split(ships.drop_last(), c, t);
        let f = ships.drop_last().filter(ship_not_of(Some(c)));
        let k = ship_types_of_color(ships.drop_last(), Some(c));
        if ship_not_of(Some(c))(ships.last()) {
            assert(f.push(ships.last()).drop_last() == f);
        } else {
            lemma_one_more(k, ships.last().piece.type_, t);
        }
    }
}

proof fn lemma_ships_all(ships: Seq<OwnedPiece>, t: PieceType)
    ensures
        ships_of_type(ships, t) == occurrences(ship_types_of_color(ships, None), t),
    decreases ships.len(),
{
    if ships.len() > 0 {
        lemma_ships_all(ships.drop_last(), t);
        lemma_one_more(ship_types_of_color(ships.drop_last(), None), ships.last().piece.type_, t);
    }
}

/// The pieces of type `t` at `id` when its stars are `stars` and ships `ships`.
proof fn lemma_count_at(s: GameState, id: SystemId, t: PieceType)
    requires
        s.sys_exists(id),
    ensures
        system_count(s, id, t) == stars_of_type(s.stars_of(id), t) + ships_of_type(
            s.ships_of(id),
            t,
        ),
{
}

/// What `leaves` says of a system, counted: its pieces of type `t` and the bank's
/// together change only by `added` and `taken`, against the ships that remain.
proof fn lemma_leaves_count(
    s: GameState,
    n: GameState,
    id: SystemId,
    ships_after: Seq<OwnedPiece>,
    added: Seq<PieceType>,
    taken: Seq<PieceType>,
    t: PieceType,
)
    requires
        s.wf(),
        s.sys_exists(id),
        s.leaves(n, id, ships_after, added, taken),
    ensures
        n.bank.count(t) + system_count(n, id, t) + occurrences(taken, t) == s.bank.count(t)
            + occurrences(added, t) + stars_of_type(s.stars_of(id), t) + ships_of_type(
            ships_after,
            t,
        ),
{
    if id is Colony && ships_after.len() == 0 {
        lemma_one_more(added, s.stars_of(id)[0].type_, t);
        lemma_single_star(s.stars_of(id)[0], t);
        assert(s.stars_of(id) == seq![s.stars_of(id)[0]]);
    }
}

/// A move keeps the count of type `t`.
proof fn lemma_move_count(s: GameState, m: MoveAction, n: GameState, t: PieceType)
    requires
        s.wf(),
        n.wf(),
        s.rule_ok(Action::Move(m)),
        s.effect(Action::Move(m), n),
        n.colony_id_counter == s.colony_id_counter + if m.dest_id is NewColony {
            1int
        } else {
            0int
        },
    ensures
        n.bank.count(t) + in_play(n, t) == s.bank.count(t) + in_play(s, t),
{
    reveal_with_fuel(occurrences, 2);
    let loc = m.src_id;
    let ships = s.ships_of(loc);
    let i = choose|i: int| #[trigger] s.moved_at(m, n, i);
    let ship = ships[i];
    lemma_ships_remove(ships, i, t);
    match m.dest_id {
        DestId::Sys(d) => {
            lemma_leaves_count(s, n, loc, ships.remove(i), seq![], seq![], t);
            lemma_in_play_frame(s, n, loc, d, t);
            lemma_ships_push(s.ships_of(d), ship, t);
        },
        DestId::NewColony(st) => {
            let nid = SystemId::Colony(s.colony_id_counter);
            lemma_leaves_count(s, n, loc, ships.remove(i), seq![], seq![st], t);
            lemma_in_play_frame(s, n, loc, nid, t);
            lemma_single_ship(ship, t);
            lemma_single_star(n.stars_of(nid)[0], t);
            assert(n.stars_of(nid) == seq![n.stars_of(nid)[0]]);
        },
    }
}

/// A build keeps the count of type `t`.
proof fn lemma_build_count(s: GameState, b: BuildAction, n: GameState, t: PieceType)
    requires
        s.wf(),
        n.wf(),
        s.rule_ok(Action::Build(b)),
        s.effect(Action::Build(b), n),
        n.colony_id_counter == s.colony_id_counter,
    ensures
        n.bank.count(t) + in_play(n, t) == s.bank.count(t) + in_play(s, t),
{
    reveal_with_fuel(occurrences, 2);
    let loc = b.location;
    assert(set![loc] =~= set![loc, loc]);
    lemma_in_play_frame(s, n, loc, loc, t);
}

/// A trade keeps the count of type `t`.
proof fn lemma_trade_count(s: GameState, tr: TradeAction, n: GameState, t: PieceType)
    requires
        s.wf(),
        n.wf(),
        s.rule_ok(Action::Trade(tr)),
        s.effect(Action::Trade(tr), n),
        n.colony_id_counter == s.colony_id_counter,
    ensures
        n.bank.count(t) + in_play(n, t) == s.bank.count(t) + in_play(s, t),
{
    reveal_with_fuel(occurrences, 2);
    let loc = tr.location;
    let ships = s.ships_of(loc);
    let i = choose|i: int| #[trigger] s.traded_at(tr, n, i);
    assert(set![loc] =~= set![loc, loc]);
    lemma_in_play_frame(s, n, loc, loc, t);
    lemma_ships_update(ships, i, n.ships_of(loc)[i], t);
}

/// A capture keeps the count of type `t`.
proof fn lemma_capture_count(s: GameState, c: CaptureAction, n: GameState, t: PieceType)
    requires
        s.wf(),
        n.wf(),
        s.rule_ok(Action::Capture(c)),
        s.effect(Action::Capture(c), n),
        n.colony_id_counter == s.colony_id_counter,
    ensures
        n.bank.count(t) + in_play(n, t) == s.bank.count(t) + in_play(s, t),
{
    let loc = c.location;
    let ships = s.ships_of(loc);
    let i = choose|i: int| #[trigger] s.captured_at(c, n, i);
    assert(set![loc] =~= set![loc, loc]);
    lemma_in_play_frame(s, n, loc, loc, t);
    lemma_ships_update(ships, i, n.ships_of(loc)[i], t);
}

/// A sacrifice keeps the count of type `t`.
proof fn lemma_sacrifice_count(s: GameState, sac: SacrificeAction, n: GameState, t: PieceType)
    requires
        s.wf(),
        n.wf(),
        s.rule_ok(Action::Sacrifice(sac)),
        s.effect(Action::Sacrifice(sac), n),
        n.colony_id_counter == s.colony_id_counter,
    ensures
        n.bank.count(t) + in_play(n, t) == s.bank.count(t) + in_play(s, t),
{
    reveal_with_fuel(occurrences, 2);
    let loc = sac.location;
    let ships = s.ships_of(loc);
    let i = choose|i: int| #[trigger] s.sacrificed_at(sac, n, i);
    assert(set![loc] =~= set![loc, loc]);
    lemma_in_play_frame(s, n, loc, loc, t);
    lemma_ships_remove(ships, i, t);
    lemma_leaves_count(s, n, loc, ships.remove(i), seq![sac.piece_type], seq![], t);
}

/// A catastrophe keeps the count of type `t`.
proof fn lemma_catastrophe_count(s: GameState, c: CatastropheAction, n: GameState, t: PieceType)
    requires
        s.wf(),
        n.wf(),
        s.rule_ok(Action::Catastrophe(c)),
        s.effect(Action::Catastrophe(c), n),
        n.colony_id_counter == s.colony_id_counter,
    ensures
        n.bank.count(t) + in_play(n, t) == s.bank.count(t) + in_play(s, t),
{
    reveal_with_fuel(occurrences, 1);
    let loc = c.location;
    let ships = s.ships_of(loc);
    let stars = s.stars_of(loc);
    assert(set![loc] =~= set![loc, loc]);
    lemma_in_play_frame(s, n, loc, loc, t);
    lemma_ships_split(ships, c.color, t);
    match loc {
        SystemId::Homeworld(_) => {
            lemma_stars_split(stars, c.color, t);
            lemma_occurrences_concat(
                star_types_of_color(stars, c.color),
                ship_types_of_color(ships, Some(c.color)),
                t,
            );
        },
        SystemId::Colony(_) => {
            if stars[0].type_.color == c.color {
                lemma_ships_all(ships, t);
                lemma_occurrences_concat(seq![stars[0].type_], ship_types_of_color(ships, None), t);
                lemma_single_star(stars[0], t);
                assert(stars == seq![stars[0]]);
                reveal_with_fuel(occurrences, 2);
            } else {
                lemma_leaves_count(
                    s,
                    n,
                    loc,
                    ships.filter(ship_not_of(Some(c.color))),
                    ship_types_of_color(ships, Some(c.color)),
                    seq![],
                    t,
                );
            }
        },
    }
}

/// One legal action keeps, for each type, the bank and the pieces in play summing
/// as before.
pub proof fn lemma_step_keeps_count(s: GameState, a: Action, n: GameState, t: PieceType)
    requires
        s.wf(),
        s.legal(a),
        s.successor(a, n),
    ensures
        n.bank.count(t) + in_play(n, t) == s.bank.count(t) + in_play(s, t),
{
    match a {
        Action::Move(m) => lemma_move_count(s, m, n, t),
        Action::Build(b) => lemma_build_count(s, b, n, t),
        Action::Trade(tr) => lemma_trade_count(s, tr, n, t),
        Action::Capture(c) => lemma_capture_count(s, c, n, t),
        Action::Sacrifice(sac) => lemma_sacrifice_count(s, sac, n, t),
        Action::Catastrophe(c) => lemma_catastrophe_count(s, c, n, t),
    }
}

/// Every action keeps each type's three copies between the bank and the board.
pub proof fn lemma_apply_conserves(s: GameState, a: Action, n: GameState)
    requires
        s.wf(),
        conserved(s),
        s.legal(a),
        s.successor(a, n),
    ensures
        conserved(n),
{
    assert forall|t: PieceType| #[trigger] n.bank.count(t) + in_play(n, t) == COPIES_PER_TYPE by {
        lemma_step_keeps_count(s, a, n, t);
    }
}

/// The initial state has every piece in the bank and none in play.
pub proof fn lemma_initial_conserved(s: GameState)
    requires
        s.wf(),
        forall|t: PieceType| #[trigger] s.bank.count(t) == COPIES_PER_TYPE,
        s.homeworlds[0].stars@.len() == 0 && s.homeworlds[0].ships@.len() == 0,
        s.homeworlds[1].stars@.len() == 0 && s.homeworlds[1].ships@.len() == 0,
        s.colonies@.len() == 0,
    ensures
        conserved(s),
{
    assert forall|t: PieceType| #[trigger] s.bank.count(t) + in_play(s, t) == COPIES_PER_TYPE by {
        assert(in_play(s, t) == 0);
    }
}

/// Setting up a homeworld moves two stars and a ship from the bank into play.
pub proof fn lemma_setup_conserves(
    s: GameState,
    stars: (PieceType, PieceType),
    ship: PieceType,
    n: GameState,
)
    requires
        s.wf(),
        n.wf(),
        conserved(s),
        s.can_set_up(stars, ship),
        n.colonies@.len() == s.colonies@.len(),
        ({
            let id = SystemId::Homeworld(s.current_player);
            &&& n.stars_of(id).len() == 2
            &&& n.stars_of(id)[0].type_ == stars.0
            &&& n.stars_of(id)[1].type_ == stars.1
            &&& n.ships_of(id).len() == 1
            &&& n.ships_of(id)[0].piece.type_ == ship
            &&& s.keeps_systems_except(n, set![id])
            &&& s.bank_moved(n, seq![], seq![stars.0, stars.1, ship])
        }),
    ensures
        conserved(n),
{
    let id = SystemId::Homeworld(s.current_player);
    assert(set![id] =~= set![id, id]);
    assert forall|t: PieceType| #[trigger] n.bank.count(t) + in_play(n, t) == COPIES_PER_TYPE by {
        reveal_with_fuel(occurrences, 4);
        reveal_with_fuel(stars_of_type, 3);
        reveal_with_fuel(ships_of_type, 2);
        lemma_in_play_frame(s, n, id, id, t);
        let st = n.stars_of(id);
        assert(st.drop_last().drop_last() == Seq::<Piece>::empty());
        assert(st.drop_last().last() == st[0]);
        assert(n.ships_of(id).drop_last() == Seq::<OwnedPiece>::empty());
        assert(s.homeworlds[s.current_player.spec_index()].stars@.len() == 0);
    }
}

/// Pieces of the types in the first `k` slots, bank and board together.
pub open spec fn pieces_up_to(s: GameState, k: nat) -> nat
    decreases k,
{
    if k == 0 {
        0
    } else {
        pieces_up_to(s, (k - 1) as nat) + s.bank.count(PieceType::spec_from_index((k - 1) as nat))
            + in_play(s, PieceType::spec_from_index((k - 1) as nat))
    }
}

/// A conserved state holds the whole set: 36 pieces, bank and board together.
pub proof fn lemma_conserved_total(s: GameState)
    requires
        conserved(s),
    ensures
        pieces_up_to(s, 12) == 36,
{
    assert forall|k: nat| k <= 12 implies #[trigger] pieces_up_to(s, k) == 3 * k by {
        lemma_pieces_up_to(s, k);
    }
}

proof fn lemma_pieces_up_to(s: GameState, k: nat)
    requires
        conserved(s),
    ensures
        pieces_up_to(s, k) == 3 * k,
    decreases k,
{
    if k > 0 {
        lemma_pieces_up_to(s, (k - 1) as nat);
        let t = PieceType::spec_from_index((k - 1) as nat);
        assert(s.bank.count(t) + in_play(s, t) == COPIES_PER_TYPE);
    }
}

} // verus!

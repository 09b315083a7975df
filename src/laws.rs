//! Properties of the rules that hold across states and calls.
use crate::pieces::{Color, Piece, Size};
use crate::systems::{
    CATASTROPHE_THRESHOLD, OwnedPiece, SystemId, reachable, ships_of_color, star_sizes,
    stars_of_color,
};
use crate::actions::{Action, ActionKind, AvailableStdAction, CatastropheAction, SacrificeAction};
use crate::game_state::GameState;
use crate::transition::{granted_kind, occurrences, ship_not_of, star_not_of};
use vstd::prelude::*;

verus! {

/// Reachability is symmetric.
pub proof fn lemma_reachable_symmetric(a: Seq<Piece>, b: Seq<Piece>)
    ensures
        reachable(a, b) == reachable(b, a),
{
    assert(star_sizes(a).intersect(star_sizes(b)) =~= star_sizes(b).intersect(star_sizes(a)));
}

/// A system is reachable from itself only when it has no star left.
pub proof fn lemma_reachable_self(a: Seq<Piece>)
    ensures
        reachable(a, a) <==> a.len() == 0,
{
    if a.len() > 0 {
        let z = a[0].type_.size;
        assert(star_sizes(a).contains(z));
        assert(star_sizes(a).intersect(star_sizes(a)).contains(z));
    } else {
        assert(star_sizes(a) =~= Set::<Size>::empty());
        assert(star_sizes(a).intersect(star_sizes(a)) =~= Set::<Size>::empty());
    }
}

/// No star of colour `c` is left once those of colour `c` are filtered out.
proof fn lemma_stars_cleared(stars: Seq<Piece>, c: Color)
    ensures
        stars_of_color(stars.filter(star_not_of(c)), c) == 0,
    decreases stars.len(),
{
    reveal(Seq::filter);
    if stars.len() > 0 {
        lemma_stars_cleared(stars.drop_last(), c);
        let f = stars.drop_last().filter(star_not_of(c));
        if star_not_of(c)(stars.last()) {
            assert(f.push(stars.last()).drop_last() == f);
        }
    }
}

/// No ship of colour `c` is left once those of colour `c` are filtered out.
proof fn lemma_ships_cleared(ships: Seq<OwnedPiece>, c: Color)
    ensures
        ships_of_color(ships.filter(ship_not_of(Some(c))), c) == 0,
    decreases ships.len(),
{
    reveal(Seq::filter);
    if ships.len() > 0 {
        lemma_ships_cleared(ships.drop_last(), c);
        let f = ships.drop_last().filter(ship_not_of(Some(c)));
        if ship_not_of(Some(c))(ships.last()) {
            assert(f.push(ships.last()).drop_last() == f);
        }
    }
}

/// Stars all of colour `c` leave nothing once that colour is filtered out.
proof fn lemma_all_stars_cleared(stars: Seq<Piece>, c: Color)
    requires
        forall|i: int| 0 <= i < stars.len() ==> (#[trigger] stars[i]).type_.color == c,
    ensures
        stars.filter(star_not_of(c)).len() == 0,
    decreases stars.len(),
{
    reveal(Seq::filter);
    if stars.len() > 0 {
        assert(stars.drop_last().len() < stars.len());
        assert forall|i: int| 0 <= i < stars.drop_last().len() implies (
        #[trigger] stars.drop_last()[i]).type_.color == c by {
            assert(stars.drop_last()[i] == stars[i]);
        }
        lemma_all_stars_cleared(stars.drop_last(), c);
        assert(stars.last() == stars[stars.len() - 1]);
    }
}

/// A catastrophe may be triggered wherever a colour reaches the threshold, whoever
/// is to move and whatever budget is left.
pub proof fn lemma_catastrophe_eligible(s: GameState, loc: SystemId, color: Color)
    requires
        s.sys_exists(loc),
        stars_of_color(s.stars_of(loc), color) + ships_of_color(s.ships_of(loc), color)
            >= CATASTROPHE_THRESHOLD,
    ensures
        s.legal(Action::Catastrophe(CatastropheAction { location: loc, color })),
        (GameState { current_player: s.current_player.spec_other(), ..s }).legal(
            Action::Catastrophe(CatastropheAction { location: loc, color }),
        ),
{
}

/// A catastrophe removes every piece of its colour from its system; a colony whose
/// star goes is removed, and a homeworld whose stars all had that colour is left
/// without stars.
pub proof fn lemma_catastrophe_clears(s: GameState, c: CatastropheAction, n: GameState)
    requires
        s.wf(),
        s.legal(Action::Catastrophe(c)),
        s.successor(Action::Catastrophe(c), n),
    ensures
        n.sys_exists(c.location) ==> stars_of_color(n.stars_of(c.location), c.color) == 0
            && ships_of_color(n.ships_of(c.location), c.color) == 0,
        c.location is Colony && s.stars_of(c.location)[0].type_.color == c.color ==> !n.sys_exists(
            c.location,
        ),
        c.location is Homeworld ==> n.sys_exists(c.location),
        c.location is Homeworld && (forall|i: int|
            0 <= i < s.stars_of(c.location).len() ==> (#[trigger] s.stars_of(
                c.location,
            )[i]).type_.color == c.color) ==> n.stars_of(c.location).len() == 0,
{
    let loc = c.location;
    lemma_stars_cleared(s.stars_of(loc), c.color);
    lemma_ships_cleared(s.ships_of(loc), c.color);
    match loc {
        SystemId::Homeworld(_) => {
            if forall|i: int|
                0 <= i < s.stars_of(loc).len() ==> (#[trigger] s.stars_of(loc)[i]).type_.color
                    == c.color {
                lemma_all_stars_cleared(s.stars_of(loc), c.color);
            }
        },
        SystemId::Colony(_) => {
            if s.stars_of(loc)[0].type_.color != c.color && n.sys_exists(loc) {
                let st = s.stars_of(loc);
                assert(st.drop_last() == Seq::<Piece>::empty());
                reveal_with_fuel(stars_of_color, 2);
            }
        },
    }
}

/// Sacrificing a ship at the start of a turn returns it to the bank and leaves a
/// budget of as many actions of its colour's kind as its size's rank, for the same
/// player. Its system keeps its other ships; a colony that loses its last ship is
/// gone and its star goes back to the bank too. No other system changes.
pub proof fn lemma_sacrifice_grants(s: GameState, sac: SacrificeAction, n: GameState)
    requires
        s.wf(),
        s.avail_std_actions@ == seq![(AvailableStdAction::Any, 1u8)],
        s.legal(Action::Sacrifice(sac)),
        s.successor(Action::Sacrifice(sac), n),
    ensures
        n.current_player == s.current_player,
        n.avail_std_actions@ == seq![
            (granted_kind(sac.piece_type.color), sac.piece_type.size.spec_rank() as u8),
        ],
        n.bank.count(sac.piece_type) == s.bank.count(sac.piece_type) + 1 + if sac.location is Colony
            && s.ships_of(sac.location).len() == 1 && s.stars_of(sac.location)[0].type_
            == sac.piece_type {
            1int
        } else {
            0int
        },
        sac.location is Colony && s.ships_of(sac.location).len() == 1 ==> !n.sys_exists(
            sac.location,
        ),
        !(sac.location is Colony && s.ships_of(sac.location).len() == 1) ==> n.sys_exists(
            sac.location,
        ) && n.stars_of(sac.location) == s.stars_of(sac.location) && exists|i: int|
            0 <= i < s.ships_of(sac.location).len() && (#[trigger] s.ships_of(sac.location)[i]).owner
                == s.current_player && s.ships_of(sac.location)[i].piece.type_ == sac.piece_type
                && n.ships_of(sac.location) == s.ships_of(sac.location).remove(i),
        s.keeps_systems_except(n, set![sac.location]),
{
    reveal_with_fuel(occurrences, 3);
    let a = Action::Sacrifice(sac);
    assert(s.budget_after(a) =~= seq![
        (granted_kind(sac.piece_type.color), sac.piece_type.size.spec_rank() as u8),
    ]);
    let loc = sac.location;
    let ships = s.ships_of(loc);
    let i = choose|i: int| #[trigger] s.sacrificed_at(sac, n, i);
    assert(n.bank.count(sac.piece_type) + occurrences(seq![], sac.piece_type)
        == s.bank.count(sac.piece_type) + if loc is Colony && ships.remove(i).len() == 0 {
        occurrences(
            seq![sac.piece_type].push(s.stars_of(loc)[0].type_),
            sac.piece_type,
        )
    } else {
        occurrences(seq![sac.piece_type], sac.piece_type)
    });
    if !(loc is Colony && ships.len() == 1) {
        assert(ships[i].owner == s.current_player);
    }
}

/// Whether `a` is an action that spends the budget: not a sacrifice, which queues
/// more, and not a catastrophe, which is free.
pub open spec fn spends_budget(a: Action) -> bool {
    a.kind() != ActionKind::Sacrifice && a.kind() != ActionKind::Catastrophe
}

/// An action taken from a budget of several actions of one kind leaves one fewer,
/// for the same player.
pub proof fn lemma_granted_action_spent(
    s: GameState,
    kind: AvailableStdAction,
    count: u8,
    a: Action,
    n: GameState,
)
    requires
        s.avail_std_actions@ == seq![(kind, count)],
        count > 1,
        spends_budget(a),
        s.successor(a, n),
    ensures
        n.current_player == s.current_player,
        n.avail_std_actions@ == seq![(kind, (count - 1) as u8)],
{
    assert(s.budget_after(a) =~= seq![(kind, (count - 1) as u8)]);
}

/// The last action of a budget ends the turn, unless a catastrophe is pending: the
/// other player moves next, with one action of any kind.
pub proof fn lemma_last_action_ends_turn(
    s: GameState,
    kind: AvailableStdAction,
    a: Action,
    n: GameState,
)
    requires
        s.avail_std_actions@ == seq![(kind, 1u8)],
        spends_budget(a),
        s.successor(a, n),
        !n.catastrophe_pending(),
    ensures
        n.current_player == s.current_player.spec_other(),
        n.avail_std_actions@ == seq![(AvailableStdAction::Any, 1u8)],
        s.turn_count < u64::MAX ==> n.turn_count == s.turn_count + 1,
{
    assert(s.budget_after(a) =~= Seq::<(AvailableStdAction, u8)>::empty());
}

/// A catastrophe is free: with budget left, the same player keeps the same budget;
/// with none left and no further catastrophe pending, the turn passes.
pub proof fn lemma_catastrophe_is_free(s: GameState, c: CatastropheAction, n: GameState)
    requires
        s.successor(Action::Catastrophe(c), n),
    ensures
        s.avail_std_actions@.len() > 0 ==> n.current_player == s.current_player
            && n.avail_std_actions@ == s.avail_std_actions@ && n.turn_count == s.turn_count,
        s.avail_std_actions@.len() == 0 && !n.catastrophe_pending() ==> n.current_player
            == s.current_player.spec_other() && n.avail_std_actions@ == seq![
            (AvailableStdAction::Any, 1u8),
        ],
{
}

/// `x` is reached from `s` by a legal action that also reaches some state of
/// `others`.
pub open spec fn shares_action(s: GameState, x: GameState, others: Seq<GameState>) -> bool {
    exists|a: Action, k: int|
        #![trigger s.reached_by(a, others[k])]
        0 <= k < others.len() && s.reached_by(a, x) && s.reached_by(a, others[k])
}

/// Any two lists that `valid_moves` may return for one state reach the same
/// actions: each state of one is reached by a legal action that also reaches some
/// state of the other.
pub proof fn lemma_valid_moves_same_actions(s: GameState, r1: Seq<GameState>, r2: Seq<GameState>)
    requires
        forall|j: int| 0 <= j < r1.len() ==> s.leads_to(#[trigger] r1[j]),
        forall|a: Action|
            s.legal(a) ==> exists|j: int| 0 <= j < r1.len() && s.reached_by(a, #[trigger] r1[j]),
        forall|j: int| 0 <= j < r2.len() ==> s.leads_to(#[trigger] r2[j]),
        forall|a: Action|
            s.legal(a) ==> exists|j: int| 0 <= j < r2.len() && s.reached_by(a, #[trigger] r2[j]),
    ensures
        forall|j: int| 0 <= j < r1.len() ==> shares_action(s, #[trigger] r1[j], r2),
        forall|k: int| 0 <= k < r2.len() ==> shares_action(s, #[trigger] r2[k], r1),
{
    assert forall|j: int| 0 <= j < r1.len() implies shares_action(s, #[trigger] r1[j], r2) by {
        assert(s.leads_to(r1[j]));
        let a = choose|a: Action| #[trigger] s.reached_by(a, r1[j]);
        s.lemma_reached_by_legal(a, r1[j]);
        let k = choose|k: int| 0 <= k < r2.len() && s.reached_by(a, #[trigger] r2[k]);
        assert(s.reached_by(a, r2[k]));
    }
    assert forall|k: int| 0 <= k < r2.len() implies shares_action(s, #[trigger] r2[k], r1) by {
        assert(s.leads_to(r2[k]));
        let a = choose|a: Action| #[trigger] s.reached_by(a, r2[k]);
        s.lemma_reached_by_legal(a, r2[k]);
        let j = choose|j: int| 0 <= j < r1.len() && s.reached_by(a, #[trigger] r1[j]);
        assert(s.reached_by(a, r1[j]));
    }
}

/// Any two lists that `legal_actions` may return for one state hold the same
/// actions.
pub proof fn lemma_legal_actions_same_set(s: GameState, r1: Seq<Action>, r2: Seq<Action>)
    requires
        forall|a: Action| #[trigger] r1.contains(a) <==> s.legal(a),
        forall|a: Action| #[trigger] r2.contains(a) <==> s.legal(a),
    ensures
        r1.to_set() == r2.to_set(),
{
    assert(r1.to_set() =~= r2.to_set());
}

} // verus!

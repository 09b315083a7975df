use homeworlds::actions::{
    Action, AvailableStdAction, BuildAction, CaptureAction, CatastropheAction, IllegalAction,
    MoveAction, SacrificeAction, TradeAction,
};
use homeworlds::game_state::GameState;
use homeworlds::systems::{Colony, DestId, Homeworld, OwnedPiece, Player, System, SystemId};
use homeworlds::pieces::{Color, Piece, PieceBank, PieceType, Size};

fn pop_option(bank: &mut PieceBank, type_: PieceType) -> Option<Piece> {
    Some(bank.pop_piece(type_).unwrap())
}

fn pop(bank: &mut PieceBank, type_: PieceType) -> Piece {
    bank.pop_piece(type_).unwrap()
}

fn pt(size: Size, color: Color) -> PieceType {
    PieceType::new(size, color)
}

fn homeworld_move(dest: DestId, piece_type: PieceType) -> Action {
    Action::Move(MoveAction {
        src_id: SystemId::Homeworld(Player::First),
        dest_id: dest,
        piece_type,
    })
}

/// Homeworlds {small red, small yellow} with a large green ship of the first player,
/// and {medium blue, large red} with a large green ship of the second.
fn opening_position() -> GameState {
    let mut bank = PieceBank::new();
    let hw1_stars = vec![
        pop_option(&mut bank, pt(Size::Small, Color::Red)).unwrap(),
        pop_option(&mut bank, pt(Size::Small, Color::Yellow)).unwrap(),
    ];
    let hw1_ship = OwnedPiece::first(pop(&mut bank, pt(Size::Large, Color::Green)));
    let hw2_stars = vec![
        pop(&mut bank, pt(Size::Medium, Color::Blue)),
        pop(&mut bank, pt(Size::Large, Color::Red)),
    ];
    let hw2_ship = OwnedPiece::second(pop(&mut bank, pt(Size::Large, Color::Green)));
    GameState {
        bank,
        homeworlds: [
            Homeworld { stars: hw1_stars, ships: vec![hw1_ship], player: Player::First },
            Homeworld { stars: hw2_stars, ships: vec![hw2_ship], player: Player::Second },
        ],
        colonies: Vec::new(),
        current_player: Player::First,
        turn_count: 0,
        colony_id_counter: 0,
        avail_std_actions: vec![(AvailableStdAction::Any, 1)],
    }
}

#[test]
fn do_a_thing() {
    let game_state = opening_position();

    let mut move_actions = vec![];
    game_state.add_move_actions(&mut move_actions);
    let large_green = pt(Size::Large, Color::Green);
    let expected_actions = vec![
        homeworld_move(DestId::Sys(SystemId::Homeworld(Player::Second)), large_green),
        homeworld_move(DestId::NewColony(pt(Size::Medium, Color::Red)), large_green),
        homeworld_move(DestId::NewColony(pt(Size::Medium, Color::Green)), large_green),
        homeworld_move(DestId::NewColony(pt(Size::Medium, Color::Blue)), large_green),
        homeworld_move(DestId::NewColony(pt(Size::Medium, Color::Yellow)), large_green),
        homeworld_move(DestId::NewColony(pt(Size::Large, Color::Red)), large_green),
        homeworld_move(DestId::NewColony(pt(Size::Large, Color::Green)), large_green),
        homeworld_move(DestId::NewColony(pt(Size::Large, Color::Blue)), large_green),
        homeworld_move(DestId::NewColony(pt(Size::Large, Color::Yellow)), large_green),
    ];
    assert_eq!(expected_actions, move_actions);
}

#[test]
fn new_colony_moves_need_stock() {
    let mut game_state = opening_position();
    let medium_red = pt(Size::Medium, Color::Red);
    while game_state.bank.pop_piece(medium_red).is_some() {}
    let mut move_actions = vec![];
    game_state.add_move_actions(&mut move_actions);
    assert_eq!(move_actions.len(), 8);
    assert!(!move_actions
        .contains(&homeworld_move(DestId::NewColony(medium_red), pt(Size::Large, Color::Green))));
}

#[test]
fn legal_actions_of_the_opening_position() {
    let game_state = opening_position();
    let actions = game_state.legal_actions();
    let large_green = pt(Size::Large, Color::Green);
    let here = SystemId::Homeworld(Player::First);
    // nine moves, one sacrifice, and builds of every stocked type up to large
    let builds = actions.iter().filter(|a| matches!(a, Action::Build(_))).count();
    assert_eq!(builds, 12);
    assert!(actions.contains(&Action::Sacrifice(SacrificeAction { piece_type: large_green, location: here })));
    assert!(actions.contains(&Action::Build(BuildAction { location: here, piece_type: large_green })));
    // red is a star there, but the first player has no red ship to capture with
    assert!(!actions.iter().any(|a| matches!(a, Action::Capture(_))));
    assert!(!actions.iter().any(|a| matches!(a, Action::Trade(_))));
    assert_eq!(actions.len(), 9 + 1 + 12);
    let moves = actions.iter().filter(|a| matches!(a, Action::Move(_))).count();
    assert_eq!(moves, 9);
}

fn pieces_in_all(state: &GameState) -> usize {
    let mut total = 0;
    for size in [Size::Small, Size::Medium, Size::Large] {
        for color in [Color::Red, Color::Green, Color::Blue, Color::Yellow] {
            total += state.bank.stock(pt(size, color));
        }
    }
    for hw in &state.homeworlds {
        total += hw.stars.len() + hw.ships.len();
    }
    for colony in state.colonies.iter().flatten() {
        total += 1 + colony.ships.len();
    }
    total
}

#[test]
fn every_piece_stays_accounted_for() {
    let mut state = GameState::initial_state()
        .setup_homeworld((pt(Size::Small, Color::Red), pt(Size::Small, Color::Yellow)), pt(Size::Large, Color::Green))
        .unwrap()
        .setup_homeworld((pt(Size::Medium, Color::Blue), pt(Size::Large, Color::Red)), pt(Size::Large, Color::Green))
        .unwrap();
    assert_eq!(pieces_in_all(&state), 36);
    // play the first legal action a dozen times
    for _ in 0..12 {
        let actions = state.legal_actions();
        if actions.is_empty() {
            break;
        }
        state = state.apply(&actions[0]).unwrap();
        assert_eq!(pieces_in_all(&state), 36);
    }
    assert!(state.turn_count > 2);
}

#[test]
fn legal_actions_twice_agree() {
    let game_state = opening_position();
    assert_eq!(game_state.legal_actions(), game_state.legal_actions());
    assert_eq!(game_state.valid_moves().len(), game_state.legal_actions().len());
}

#[test]
fn apply_leaves_its_input_unchanged() {
    let game_state = opening_position();
    let before = game_state.legal_actions();
    let action = homeworld_move(
        DestId::Sys(SystemId::Homeworld(Player::Second)),
        pt(Size::Large, Color::Green),
    );
    let next = game_state.apply(&action).unwrap();
    assert_eq!(game_state.legal_actions(), before);
    assert_eq!(game_state.homeworlds[0].ships.len(), 1);
    assert_eq!(next.homeworlds[0].ships.len(), 0);
    assert_eq!(next.homeworlds[1].ships.len(), 2);
    assert_eq!(next.current_player, Player::Second);
    assert_eq!(next.turn_count, 1);
}

#[test]
fn move_to_new_colony_founds_it() {
    let game_state = opening_position();
    let medium_yellow = pt(Size::Medium, Color::Yellow);
    let before = game_state.bank.stock(medium_yellow);
    let action = homeworld_move(DestId::NewColony(medium_yellow), pt(Size::Large, Color::Green));
    let next = game_state.apply(&action).unwrap();
    assert_eq!(next.colonies.len(), 1);
    assert_eq!(next.colony_id_counter, 1);
    let colony = next.colonies[0].as_ref().unwrap();
    assert_eq!(colony.id, 0);
    assert_eq!(colony.star.type_, medium_yellow);
    assert_eq!(colony.ships.len(), 1);
    assert_eq!(next.bank.stock(medium_yellow), before - 1);
}

#[test]
fn illegal_action_is_refused() {
    let game_state = opening_position();
    // the first player has no ship at the second homeworld
    let action = Action::Move(MoveAction {
        src_id: SystemId::Homeworld(Player::Second),
        dest_id: DestId::Sys(SystemId::Homeworld(Player::First)),
        piece_type: pt(Size::Large, Color::Green),
    });
    assert_eq!(game_state.apply(&action).err(), Some(IllegalAction));
    let same_sizes = homeworld_move(
        DestId::NewColony(pt(Size::Small, Color::Blue)),
        pt(Size::Large, Color::Green),
    );
    assert_eq!(game_state.apply(&same_sizes).err(), Some(IllegalAction));
}

#[test]
fn sacrifice_round_trip() {
    let mut game_state = opening_position();
    let large_yellow = pt(Size::Large, Color::Yellow);
    let ship = OwnedPiece::first(pop(&mut game_state.bank, large_yellow));
    game_state.homeworlds[0].ships.push(ship);
    let before = game_state.bank.stock(large_yellow);
    let here = SystemId::Homeworld(Player::First);
    let sacrifice = Action::Sacrifice(SacrificeAction { piece_type: large_yellow, location: here });
    let mut state = game_state.apply(&sacrifice).unwrap();
    assert_eq!(state.bank.stock(large_yellow), before + 1);
    assert_eq!(state.avail_std_actions, vec![(AvailableStdAction::Move, 3)]);
    assert_eq!(state.current_player, Player::First);
    // only moves, or a further sacrifice, are legal now
    assert!(state
        .legal_actions()
        .iter()
        .all(|a| matches!(a, Action::Move(_) | Action::Sacrifice(_))));
    assert!(state.legal_actions().iter().any(|a| matches!(a, Action::Move(_))));
    let there = homeworld_move(
        DestId::Sys(SystemId::Homeworld(Player::Second)),
        pt(Size::Large, Color::Green),
    );
    state = state.apply(&there).unwrap();
    assert_eq!(state.avail_std_actions, vec![(AvailableStdAction::Move, 2)]);
    let back = Action::Move(MoveAction {
        src_id: SystemId::Homeworld(Player::Second),
        dest_id: DestId::Sys(SystemId::Homeworld(Player::First)),
        piece_type: pt(Size::Large, Color::Green),
    });
    // the first player has no yellow at the second homeworld
    assert_eq!(state.apply(&back).err(), Some(IllegalAction));
    let colony = homeworld_move(DestId::NewColony(pt(Size::Medium, Color::Yellow)), large_yellow);
    assert_eq!(state.apply(&colony).err(), Some(IllegalAction));
    assert_eq!(state.current_player, Player::First);
}

#[test]
fn granted_moves_pass_the_turn_when_spent() {
    let mut game_state = opening_position();
    let large_yellow = pt(Size::Large, Color::Yellow);
    let small_blue = pt(Size::Small, Color::Blue);
    let sacrificed = OwnedPiece::first(pop(&mut game_state.bank, large_yellow));
    let mover = OwnedPiece::first(pop(&mut game_state.bank, small_blue));
    game_state.homeworlds[0].ships.push(sacrificed);
    game_state.homeworlds[0].ships.push(mover);
    let here = SystemId::Homeworld(Player::First);
    let sacrifice = Action::Sacrifice(SacrificeAction { piece_type: large_yellow, location: here });
    let mut state = game_state.apply(&sacrifice).unwrap();
    assert_eq!(state.avail_std_actions, vec![(AvailableStdAction::Move, 3)]);
    // out to a new colony, back home, and out again
    let out = homeworld_move(DestId::NewColony(pt(Size::Medium, Color::Yellow)), small_blue);
    state = state.apply(&out).unwrap();
    assert_eq!(state.current_player, Player::First);
    let back = Action::Move(MoveAction {
        src_id: SystemId::Colony(0),
        dest_id: DestId::Sys(here),
        piece_type: small_blue,
    });
    state = state.apply(&back).unwrap();
    // the colony lost its last ship: it is gone and its star is back in the bank
    assert!(state.colonies[0].is_none());
    assert_eq!(state.current_player, Player::First);
    assert_eq!(state.avail_std_actions, vec![(AvailableStdAction::Move, 1)]);
    let again = homeworld_move(DestId::NewColony(pt(Size::Large, Color::Blue)), small_blue);
    state = state.apply(&again).unwrap();
    assert_eq!(state.current_player, Player::Second);
    assert_eq!(state.turn_count, 1);
    assert_eq!(state.avail_std_actions, vec![(AvailableStdAction::Any, 1)]);
    assert_eq!(state.colonies.len(), 2);
}

#[test]
fn build_trade_and_capture() {
    let mut game_state = opening_position();
    let here = SystemId::Homeworld(Player::First);
    let small_green = pt(Size::Small, Color::Green);
    let before = game_state.bank.stock(small_green);
    let build = Action::Build(BuildAction { location: here, piece_type: small_green });
    let built = game_state.apply(&build).unwrap();
    assert_eq!(built.bank.stock(small_green), before - 1);
    assert_eq!(built.homeworlds[0].ships.len(), 2);
    assert_eq!(built.homeworlds[0].ships[1].piece.type_, small_green);
    assert_eq!(built.homeworlds[0].ships[1].owner, Player::First);

    // a blue ship of the first player lets them trade at home
    let medium_blue = pt(Size::Medium, Color::Blue);
    let trader = OwnedPiece::first(pop(&mut game_state.bank, medium_blue));
    game_state.homeworlds[0].ships.push(trader);
    let medium_red = pt(Size::Medium, Color::Red);
    let trade = Action::Trade(TradeAction { location: here, old_type: medium_blue, new_type: medium_red });
    let blue_before = game_state.bank.stock(medium_blue);
    let red_before = game_state.bank.stock(medium_red);
    let traded = game_state.apply(&trade).unwrap();
    assert_eq!(traded.bank.stock(medium_blue), blue_before + 1);
    assert_eq!(traded.bank.stock(medium_red), red_before - 1);
    assert_eq!(traded.homeworlds[0].ships[1].piece.type_, medium_red);
    let cross_size = Action::Trade(TradeAction {
        location: here,
        old_type: medium_blue,
        new_type: pt(Size::Large, Color::Red),
    });
    assert_eq!(game_state.apply(&cross_size).err(), Some(IllegalAction));

    // a large red ship of the first player captures the second player's ship there
    let mut raid = opening_position();
    let large_red = pt(Size::Large, Color::Red);
    let raider = OwnedPiece::first(pop(&mut raid.bank, large_red));
    raid.homeworlds[1].ships.push(raider);
    let there = SystemId::Homeworld(Player::Second);
    let large_green = pt(Size::Large, Color::Green);
    let capture = Action::Capture(CaptureAction { location: there, piece_type: large_green });
    let captured = raid.apply(&capture).unwrap();
    assert_eq!(captured.homeworlds[1].ships[0].owner, Player::First);
    assert_eq!(captured.homeworlds[1].ships[0].piece, raid.homeworlds[1].ships[0].piece);
    assert_eq!(captured.bank.stock(large_green), raid.bank.stock(large_green));
}

#[test]
fn capture_needs_a_large_enough_red_ship() {
    let mut raid = opening_position();
    let small_red = pt(Size::Small, Color::Red);
    let raider = OwnedPiece::first(pop(&mut raid.bank, small_red));
    raid.homeworlds[1].ships.push(raider);
    let there = SystemId::Homeworld(Player::Second);
    let capture = Action::Capture(CaptureAction {
        location: there,
        piece_type: pt(Size::Large, Color::Green),
    });
    assert_eq!(raid.apply(&capture).err(), Some(IllegalAction));
}

#[test]
fn catastrophe_removes_a_colony() {
    let mut game_state = opening_position();
    let small_green = pt(Size::Small, Color::Green);
    let medium_green = pt(Size::Medium, Color::Green);
    let star = pop(&mut game_state.bank, small_green);
    let ships = vec![
        OwnedPiece::first(pop(&mut game_state.bank, small_green)),
        OwnedPiece::second(pop(&mut game_state.bank, medium_green)),
    ];
    game_state.colonies.push(Some(Colony { star, ships, id: 0 }));
    game_state.colony_id_counter = 1;
    let colony = SystemId::Colony(0);
    let catastrophe = Action::Catastrophe(CatastropheAction { location: colony, color: Color::Green });
    // three green pieces: not yet
    assert!(!game_state.legal_actions().contains(&catastrophe));
    assert_eq!(game_state.apply(&catastrophe).err(), Some(IllegalAction));
    // a fourth green piece arrives
    let fourth = OwnedPiece::second(pop(&mut game_state.bank, medium_green));
    if let Some(c) = game_state.colonies[0].as_mut() {
        c.ships.push(fourth);
    }
    assert!(game_state.legal_actions().contains(&catastrophe));
    // either player may trigger it
    let mut other_side = opening_position();
    other_side.current_player = Player::Second;
    other_side.bank = game_state.bank.copy();
    other_side.colonies = vec![Some(Colony {
        star: game_state.colonies[0].as_ref().unwrap().star,
        ships: game_state.colonies[0].as_ref().unwrap().ships.clone(),
        id: 0,
    })];
    other_side.colony_id_counter = 1;
    assert!(other_side.legal_actions().contains(&catastrophe));

    let next = game_state.apply(&catastrophe).unwrap();
    assert!(next.colonies[0].is_none());
    assert_eq!(next.bank.stock(small_green), 3);
    assert_eq!(next.bank.stock(medium_green), 3);
    // a catastrophe is free: the first player still has their action
    assert_eq!(next.current_player, Player::First);
    assert_eq!(next.avail_std_actions, vec![(AvailableStdAction::Any, 1)]);
}

#[test]
fn catastrophe_at_a_homeworld_leaves_it_starless() {
    let mut game_state = opening_position();
    let red_ships = [pt(Size::Small, Color::Red), pt(Size::Medium, Color::Red), pt(Size::Large, Color::Red)];
    for t in red_ships {
        let ship = OwnedPiece::second(pop(&mut game_state.bank, t));
        game_state.homeworlds[0].ships.push(ship);
    }
    game_state.homeworlds[0].stars = vec![pop(&mut game_state.bank, pt(Size::Medium, Color::Red))];
    let here = SystemId::Homeworld(Player::First);
    let catastrophe = Action::Catastrophe(CatastropheAction { location: here, color: Color::Red });
    let next = game_state.apply(&catastrophe).unwrap();
    assert!(next.homeworlds[0].stars.is_empty());
    assert_eq!(next.homeworlds[0].ships.len(), 1);
    assert_eq!(next.homeworlds[0].ships[0].piece.type_, pt(Size::Large, Color::Green));
}

#[test]
fn reachability_is_symmetric() {
    let state = opening_position();
    let systems = state.systems();
    assert_eq!(systems.len(), 2);
    assert_eq!(systems[0].can_reach(&systems[1]), systems[1].can_reach(&systems[0]));
    assert!(systems[0].can_reach(&systems[1]));
    let mixed = Homeworld {
        stars: vec![
            Piece::new(pt(Size::Small, Color::Red), 0),
            Piece::new(pt(Size::Large, Color::Yellow), 0),
        ],
        ships: Vec::new(),
        player: Player::First,
    };
    assert!(!System::Homeworld(&mixed).can_reach(&System::Homeworld(&mixed)));
    let bare = Homeworld { stars: Vec::new(), ships: Vec::new(), player: Player::Second };
    assert!(System::Homeworld(&bare).can_reach(&System::Homeworld(&bare)));
    assert!(System::Homeworld(&bare).can_reach(&System::Homeworld(&mixed)));
}

#[test]
fn system_colors_for_a_player() {
    let state = opening_position();
    let systems = state.systems();
    let colors = systems[0].colors(&Player::First);
    assert!(colors.contains(Color::Red) && colors.contains(Color::Yellow) && colors.contains(Color::Green));
    assert!(!colors.contains(Color::Blue));
    let theirs = systems[0].colors(&Player::Second);
    assert!(!theirs.contains(Color::Green));
    assert_eq!(systems[0].color_count(Color::Red), 1);
    assert_eq!(systems[0].id(), SystemId::Homeworld(Player::First));
}

#[test]
fn opening_setup_and_winner() {
    let start = GameState::initial_state();
    assert_eq!(start.winner(), None);
    let first = start
        .setup_homeworld((pt(Size::Small, Color::Red), pt(Size::Large, Color::Yellow)), pt(Size::Large, Color::Green))
        .unwrap();
    assert_eq!(first.current_player, Player::Second);
    assert_eq!(first.homeworlds[0].stars.len(), 2);
    assert_eq!(first.bank.stock(pt(Size::Large, Color::Green)), 2);
    // the first player may not set up twice, and the bank cannot give four of a type
    let greedy = (pt(Size::Small, Color::Blue), pt(Size::Small, Color::Blue));
    let mut drained = first.bank.copy();
    drained.pop_piece(pt(Size::Small, Color::Blue));
    let mut short = GameState::initial_state();
    short.current_player = Player::Second;
    short.bank = drained;
    assert_eq!(short.setup_homeworld(greedy, pt(Size::Small, Color::Blue)).err(), Some(IllegalAction));
    let second = first
        .setup_homeworld((pt(Size::Medium, Color::Blue), pt(Size::Large, Color::Red)), pt(Size::Large, Color::Green))
        .unwrap();
    assert_eq!(second.current_player, Player::First);
    assert_eq!(second.turn_count, 2);
    assert_eq!(second.setup_homeworld(greedy, pt(Size::Small, Color::Green)).err(), Some(IllegalAction));
    assert_eq!(second.winner(), None);
    let mut lost = second;
    lost.homeworlds[0].stars.clear();
    assert_eq!(lost.winner(), Some(Player::Second));
}

#[test]
fn systems_lists_each_system_once() {
    let mut state = opening_position();
    let star = pop(&mut state.bank, pt(Size::Medium, Color::Yellow));
    state.colonies.push(None);
    state.colonies.push(Some(Colony { star, ships: Vec::new(), id: 1 }));
    state.colony_id_counter = 2;
    let ids: Vec<SystemId> = state.systems().iter().map(|s| s.id()).collect();
    assert_eq!(
        ids,
        vec![SystemId::Homeworld(Player::First), SystemId::Homeworld(Player::Second), SystemId::Colony(1)]
    );
}

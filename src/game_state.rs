//! The game state, the legality rules of each action kind, and the action generator.
use crate::pieces::{Color, PIECE_TYPE_COUNT, Piece, PieceBank, PieceType, Size};
use crate::systems::{
    CATASTROPHE_THRESHOLD, Colony, DestId, Homeworld, OwnedPiece, Player, System, SystemId,
    has_ship_at_least, owned_by, owns, owns_ship, reachable, ship_at_least, ships_of_color,
    star_sizes, stars_of_color, system_colors,
};
use crate::actions::{
    Action, ActionKind, AvailableStdAction, BuildAction, CaptureAction, CatastropheAction,
    MoveAction, SacrificeAction, TradeAction,
};
use vstd::prelude::*;

verus! {

/// The whole position: bank, homeworlds, colonies (slot `i` holds colony `i`, or
/// nothing once it is gone), the player to move, and the turn's remaining budget
/// (a queue whose front entry is spent first).
#[derive(Debug)]
pub struct GameState {
    pub bank: PieceBank,
    pub homeworlds: [Homeworld; 2],
    pub colonies: Vec<Option<Colony>>,
    pub current_player: Player,
    pub turn_count: u64,
    pub colony_id_counter: u64,
    pub avail_std_actions: Vec<(AvailableStdAction, u8)>,
}

/// Whether `a` moves a ship that `p` controls out of `src` (stars `stars`, ships
/// `ships`) to `dest`, whatever the destination is.
pub open spec fn ship_move(a: Action, src: SystemId, dest: DestId, ships: Seq<OwnedPiece>, p: Player) -> bool {
    match a {
        Action::Move(m) => m.src_id == src && m.dest_id == dest && owns(ships, p, m.piece_type),
        _ => false,
    }
}

impl GameState {
    /// Slot invariants: a well-formed bank, each homeworld in its owner's slot with
    /// at most two stars, and each colony in the slot of its id.
    pub open spec fn wf(self) -> bool {
        &&& self.bank.wf()
        &&& self.homeworlds[0].player == Player::First
        &&& self.homeworlds[1].player == Player::Second
        &&& self.homeworlds[0].stars@.len() <= 2
        &&& self.homeworlds[1].stars@.len() <= 2
        &&& self.colony_id_counter == self.colonies@.len()
        &&& forall|i: int|
            0 <= i < self.colonies@.len() && self.colonies@[i] is Some ==> (
            #[trigger] self.colonies@[i])->Some_0.id == i
    }

    pub open spec fn sys_exists(self, id: SystemId) -> bool {
        match id {
            SystemId::Homeworld(_) => true,
            SystemId::Colony(i) => i < self.colonies@.len() && self.colonies@[i as int] is Some,
        }
    }

    pub open spec fn stars_of(self, id: SystemId) -> Seq<Piece> {
        match id {
            SystemId::Homeworld(p) => self.homeworlds[p.spec_index()].stars@,
            SystemId::Colony(i) => seq![self.colonies@[i as int]->Some_0.star],
        }
    }

    pub open spec fn ships_of(self, id: SystemId) -> Seq<OwnedPiece> {
        match id {
            SystemId::Homeworld(p) => self.homeworlds[p.spec_index()].ships@,
            SystemId::Colony(i) => self.colonies@[i as int]->Some_0.ships@,
        }
    }

    /// The colours the player to move may act with at system `id`.
    pub open spec fn colors_at(self, id: SystemId) -> Set<Color> {
        system_colors(self.stars_of(id), self.ships_of(id), self.current_player)
    }

    /// Whether `s` is an exact picture of the system that it names.
    pub open spec fn shows(self, s: System) -> bool {
        &&& self.sys_exists(s.spec_id())
        &&& s.spec_stars() == self.stars_of(s.spec_id())
        &&& s.spec_ships() == self.ships_of(s.spec_id())
    }

    /// `a` moves a ship of the player to move from `src` to another existing
    /// system reachable from it.
    pub open spec fn move_to_existing(self, a: Action, src: SystemId) -> bool {
        match a {
            Action::Move(m) => match m.dest_id {
                DestId::Sys(d) => {
                    &&& self.sys_exists(d)
                    &&& d != src
                    &&& reachable(self.stars_of(src), self.stars_of(d))
                    &&& ship_move(a, src, m.dest_id, self.ships_of(src), self.current_player)
                },
                DestId::NewColony(_) => false,
            },
            _ => false,
        }
    }

    /// `a` moves a ship of the player to move from `src` to a new colony whose star,
    /// still in the bank, has a size that no star of `src` has.
    pub open spec fn move_to_new(self, a: Action, src: SystemId) -> bool {
        match a {
            Action::Move(m) => match m.dest_id {
                DestId::NewColony(t) => {
                    &&& self.bank.count(t) > 0
                    &&& !star_sizes(self.stars_of(src)).contains(t.size)
                    &&& self.colony_id_counter < u64::MAX
                    &&& ship_move(a, src, m.dest_id, self.ships_of(src), self.current_player)
                },
                DestId::Sys(_) => false,
            },
            _ => false,
        }
    }

    /// `a` is a move the player to move may make, budget aside: from a system where
    /// they have yellow, to a reachable existing system or a new colony.
    pub open spec fn move_ok(self, a: Action) -> bool {
        a.kind() == ActionKind::Move && self.rule_ok(a)
    }

    /// `a`, taken at system `id`, obeys its kind's rule there (budget aside).
    pub open spec fn allowed_at(self, a: Action, id: SystemId) -> bool {
        let p = self.current_player;
        let ships = self.ships_of(id);
        &&& a.location() == id
        &&& match a {
            Action::Move(_) => self.colors_at(id).contains(Color::Yellow) && (self.move_to_existing(
                a,
                id,
            ) || self.move_to_new(a, id)),
            Action::Build(b) => {
                &&& self.colors_at(id).contains(Color::Green)
                &&& self.bank.count(b.piece_type) > 0
                &&& has_ship_at_least(ships, p, b.piece_type.size, false)
            },
            Action::Trade(t) => {
                &&& self.colors_at(id).contains(Color::Blue)
                &&& owns(ships, p, t.old_type)
                &&& t.new_type.size == t.old_type.size
                &&& t.new_type.color != t.old_type.color
                &&& self.bank.count(t.new_type) > 0
            },
            Action::Capture(c) => {
                &&& self.colors_at(id).contains(Color::Red)
                &&& owns(ships, p.spec_other(), c.piece_type)
                &&& has_ship_at_least(ships, p, c.piece_type.size, true)
            },
            Action::Sacrifice(s) => owns(ships, p, s.piece_type),
            Action::Catastrophe(c) => stars_of_color(self.stars_of(id), c.color) + ships_of_color(
                ships,
                c.color,
            ) >= CATASTROPHE_THRESHOLD,
        }
    }

    /// `a` obeys its kind's rule at an existing system (budget aside).
    pub open spec fn rule_ok(self, a: Action) -> bool {
        self.sys_exists(a.location()) && self.allowed_at(a, a.location())
    }

    /// The budget's front entry allows an action of kind `kind`.
    pub open spec fn budget_allows(self, kind: AvailableStdAction) -> bool {
        &&& self.avail_std_actions@.len() > 0
        &&& (self.avail_std_actions@[0].0 == AvailableStdAction::Any
            || self.avail_std_actions@[0].0 == kind)
    }

    /// `a` may be taken now: it obeys its rule, and the budget allows its kind; a
    /// sacrifice needs any budget left, a catastrophe none.
    pub open spec fn legal(self, a: Action) -> bool {
        &&& self.rule_ok(a)
        &&& match a {
            Action::Move(_) => self.budget_allows(AvailableStdAction::Move),
            Action::Build(_) => self.budget_allows(AvailableStdAction::Build),
            Action::Trade(_) => self.budget_allows(AvailableStdAction::Trade),
            Action::Capture(_) => self.budget_allows(AvailableStdAction::Capture),
            Action::Sacrifice(_) => self.avail_std_actions@.len() > 0,
            Action::Catastrophe(_) => true,
        }
    }

    /// Every system in play: both homeworlds, then the colonies by id.
    pub fn systems(&self) -> (r: Vec<System<'_>>)
        requires
            self.wf(),
        ensures
            r@.len() >= 2,
            r@[0].spec_id() == SystemId::Homeworld(Player::First),
            r@[1].spec_id() == SystemId::Homeworld(Player::Second),
            r@.len() <= 2 + self.colonies@.len(),
            forall|j: int| 0 <= j < r@.len() ==> self.shows(#[trigger] r@[j]),
            forall|id: SystemId|
                self.sys_exists(id) ==> exists|j: int|
                    0 <= j < r@.len() && (#[trigger] r@[j]).spec_id() == id,
            forall|i: int, j: int|
                0 <= i < j < r@.len() ==> (#[trigger] r@[i]).spec_id() != (#[trigger] r@[j]).spec_id(),
    {
        let mut r: Vec<System<'_>> = Vec::new();
        r.push(System::Homeworld(&self.homeworlds[0]));
        r.push(System::Homeworld(&self.homeworlds[1]));
        assert(r@[0].spec_id() == SystemId::Homeworld(Player::First));
        assert(r@[1].spec_id() == SystemId::Homeworld(Player::Second));
        let mut i: usize = 0;
        while i < self.colonies.len()
            invariant
                self.wf(),
                i <= self.colonies@.len(),
                r@.len() >= 2,
                r@[0].spec_id() == SystemId::Homeworld(Player::First),
                r@[1].spec_id() == SystemId::Homeworld(Player::Second),
                r@.len() <= 2 + i,
                forall|j: int|
                    2 <= j < r@.len() ==> (#[trigger] r@[j]).spec_id() is Colony && r@[j].spec_id()->Colony_0
                        < i,
                forall|a: int, b: int|
                    0 <= a < b < r@.len() ==> (#[trigger] r@[a]).spec_id() != (#[trigger] r@[b]).spec_id(),
                forall|j: int| 0 <= j < r@.len() ==> self.shows(#[trigger] r@[j]),
                forall|k: int|
                    0 <= k < i && self.colonies@[k] is Some ==> exists|j: int|
                        0 <= j < r@.len() && (#[trigger] r@[j]).spec_id() == SystemId::Colony(
                            k as u64,
                        ),
            decreases self.colonies@.len() - i,
        {
            match &self.colonies[i] {
                Some(colony) => {
                    let ghost prev = r@;
                    r.push(System::Colony(colony));
                    assert(r@[r@.len() - 1].spec_id() == SystemId::Colony(i as u64));
                    assert forall|a: int, b: int|
                        0 <= a < b < r@.len() implies (#[trigger] r@[a]).spec_id() != (
                        #[trigger] r@[b]).spec_id() by {
                        if b == r@.len() - 1 {
                            if a >= 2 {
                                assert(prev[a] == r@[a]);
                            }
                        } else {
                            assert(prev[a] == r@[a] && prev[b] == r@[b]);
                        }
                    }
                    assert forall|j: int| 2 <= j < r@.len() implies (#[trigger] r@[j]).spec_id() is Colony
                        && r@[j].spec_id()->Colony_0 < i + 1 by {
                        if j < r@.len() - 1 {
                            assert(prev[j] == r@[j]);
                        }
                    }
                    assert forall|k: int|
                        0 <= k < i + 1 && self.colonies@[k] is Some implies exists|j: int|
                            0 <= j < r@.len() && (#[trigger] r@[j]).spec_id() == SystemId::Colony(
                                k as u64,
                            ) by {
                        if k < i {
                            let j = choose|j: int|
                                0 <= j < prev.len() && (#[trigger] prev[j]).spec_id()
                                    == SystemId::Colony(k as u64);
                            assert(r@[j] == prev[j]);
                        } else {
                            assert(r@[r@.len() - 1].spec_id() == SystemId::Colony(k as u64));
                        }
                    }
                },
                None => {},
            }
            i = i + 1;
        }
        assert forall|id: SystemId| self.sys_exists(id) implies exists|j: int|
            0 <= j < r@.len() && (#[trigger] r@[j]).spec_id() == id by {
            match id {
                SystemId::Homeworld(p) => {
                    if p == Player::First {
                        assert(r@[0].spec_id() == id);
                    } else {
                        assert(r@[1].spec_id() == id);
                    }
                },
                SystemId::Colony(k) => {
                    assert(self.colonies@[k as int] is Some);
                },
            }
        }
        r
    }

    /// Appends the moves of the player to move from `src_location` to each other
    /// existing system reachable from it.
    pub fn add_move_curr_cols(&self, actions: &mut Vec<Action>, src_location: &System)
        requires
            self.wf(),
            self.shows(*src_location),
        ensures
            forall|a: Action|
                #[trigger] final(actions)@.contains(a) <==> (old(actions)@.contains(a)
                    || self.move_to_existing(a, src_location.spec_id())),
    {
        let src_id = src_location.id();
        let systems = self.systems();
        let ghost start = actions@;
        let mut d: usize = 0;
        while d < systems.len()
            invariant
                self.wf(),
                self.shows(*src_location),
                src_id == src_location.spec_id(),
                d <= systems@.len(),
                forall|j: int| 0 <= j < systems@.len() ==> self.shows(#[trigger] systems@[j]),
                forall|id: SystemId|
                    self.sys_exists(id) ==> exists|j: int|
                        0 <= j < systems@.len() && (#[trigger] systems@[j]).spec_id() == id,
                forall|a: Action|
                    #[trigger] actions@.contains(a) <==> (start.contains(a) || (
                    self.move_to_existing(a, src_id) && exists|j: int|
                        0 <= j < d && a->Move_0.dest_id == DestId::Sys(
                            (#[trigger] systems@[j]).spec_id(),
                        ))),
            decreases systems@.len() - d,
        {
            let dest_location = &systems[d];
            let dest_id = dest_location.id();
            if src_location.can_reach(dest_location) && dest_id != src_id {
                self.push_ship_moves(actions, src_location.ships(), src_id, DestId::Sys(dest_id));
            }
            assert forall|a: Action| #[trigger] actions@.contains(a) <==> (start.contains(a) || (
                self.move_to_existing(a, src_id) && exists|j: int|
                    0 <= j < d + 1 && a->Move_0.dest_id == DestId::Sys(
                        (#[trigger] systems@[j]).spec_id(),
                    ))) by {
                if self.move_to_existing(a, src_id) && a->Move_0.dest_id == DestId::Sys(dest_id) {
                    assert(systems@[d as int].spec_id() == dest_id);
                }
            }
            d = d + 1;
        }
        assert forall|a: Action| #[trigger] actions@.contains(a) <==> (start.contains(a)
            || self.move_to_existing(a, src_id)) by {
            if self.move_to_existing(a, src_id) {
                let dest = a->Move_0.dest_id->Sys_0;
                let j = choose|j: int|
                    0 <= j < systems@.len() && (#[trigger] systems@[j]).spec_id() == dest;
                assert(a->Move_0.dest_id == DestId::Sys(systems@[j].spec_id()));
            }
        }
    }

    /// Appends the moves of the player to move from `src_location` to a new colony
    /// around each star type the bank stocks whose size `src_location` lacks.
    pub fn add_move_new_cols(&self, actions: &mut Vec<Action>, src_location: &System)
        requires
            self.wf(),
            self.shows(*src_location),
        ensures
            forall|a: Action|
                #[trigger] final(actions)@.contains(a) <==> (old(actions)@.contains(a)
                    || self.move_to_new(a, src_location.spec_id())),
    {
        let src_id = src_location.id();
        let avail_dest_sizes = Size::all_sizes().difference(&src_location.sizes());
        let ghost start = actions@;
        let mut k: usize = 0;
        while k < PIECE_TYPE_COUNT
            invariant
                self.wf(),
                self.shows(*src_location),
                src_id == src_location.spec_id(),
                avail_dest_sizes@ == Set::<Size>::full().difference(star_sizes(src_location.spec_stars())),
                k <= PIECE_TYPE_COUNT,
                forall|a: Action|
                    #[trigger] actions@.contains(a) <==> (start.contains(a) || (self.move_to_new(
                        a,
                        src_id,
                    ) && a->Move_0.dest_id->NewColony_0.spec_index() < k)),
            decreases PIECE_TYPE_COUNT - k,
        {
            let destination_piece = PieceType::new(Size::from_index(k / 4), Color::from_index(k % 4));
            assert(destination_piece.spec_index() == k);
            if avail_dest_sizes.contains(destination_piece.size) && self.bank.contains(
                destination_piece,
            ) && self.colony_id_counter < u64::MAX {
                self.push_ship_moves(
                    actions,
                    src_location.ships(),
                    src_id,
                    DestId::NewColony(destination_piece),
                );
            }
            assert forall|a: Action| #[trigger] actions@.contains(a) <==> (start.contains(a) || (
            self.move_to_new(a, src_id) && a->Move_0.dest_id->NewColony_0.spec_index() < k + 1)) by {
                if self.move_to_new(a, src_id) && a->Move_0.dest_id->NewColony_0.spec_index() == k {
                    crate::pieces::lemma_type_index(a->Move_0.dest_id->NewColony_0);
                    crate::pieces::lemma_type_index(destination_piece);
                }
            }
            k = k + 1;
        }
        assert forall|a: Action| #[trigger] actions@.contains(a) <==> (start.contains(a)
            || self.move_to_new(a, src_id)) by {
            if self.move_to_new(a, src_id) {
                crate::pieces::lemma_type_index(a->Move_0.dest_id->NewColony_0);
            }
        }
    }

    /// Appends every move the player to move may make, budget aside.
    pub fn add_move_actions(&self, actions: &mut Vec<Action>)
        requires
            self.wf(),
        ensures
            forall|a: Action|
                #[trigger] final(actions)@.contains(a) <==> (old(actions)@.contains(a)
                    || self.move_ok(a)),
    {
        let systems = self.systems();
        let ghost start = actions@;
        let mut s: usize = 0;
        while s < systems.len()
            invariant
                self.wf(),
                s <= systems@.len(),
                forall|j: int| 0 <= j < systems@.len() ==> self.shows(#[trigger] systems@[j]),
                forall|id: SystemId|
                    self.sys_exists(id) ==> exists|j: int|
                        0 <= j < systems@.len() && (#[trigger] systems@[j]).spec_id() == id,
                forall|a: Action|
                    #[trigger] actions@.contains(a) <==> (start.contains(a) || (self.move_ok(a)
                        && exists|j: int|
                        0 <= j < s && a->Move_0.src_id == (#[trigger] systems@[j]).spec_id())),
            decreases systems@.len() - s,
        {
            let src_location = &systems[s];
            let ghost src_id = src_location.spec_id();
            assert(self.shows(systems@[s as int]));
            let can_move = src_location.colors(&self.current_player).contains(Color::Yellow);
            if can_move {
                self.add_move_curr_cols(actions, src_location);
                self.add_move_new_cols(actions, src_location);
            }
            assert forall|a: Action| #[trigger] actions@.contains(a) <==> (start.contains(a) || (
            self.move_ok(a) && exists|j: int|
                0 <= j < s + 1 && a->Move_0.src_id == (#[trigger] systems@[j]).spec_id())) by {
                if self.move_ok(a) && a->Move_0.src_id == src_id {
                    assert(systems@[s as int].spec_id() == src_id);
                }
                if can_move && (self.move_to_existing(a, src_id) || self.move_to_new(a, src_id)) {
                    assert(a->Move_0.src_id == src_id);
                    assert(systems@[s as int].spec_id() == src_id);
                }
            }
            s = s + 1;
        }
        assert forall|a: Action| #[trigger] actions@.contains(a) <==> (start.contains(a)
            || self.move_ok(a)) by {
            if self.move_ok(a) {
                let j = choose|j: int|
                    0 <= j < systems@.len() && (#[trigger] systems@[j]).spec_id() == a->Move_0.src_id;
            }
        }
    }

    /// Appends the actions of kind `kind` (other than a move) that obey their rule at
    /// `location`.
    fn add_kind_at(&self, actions: &mut Vec<Action>, location: &System, kind: ActionKind)
        requires
            self.wf(),
            self.shows(*location),
            kind != ActionKind::Move,
        ensures
            forall|a: Action|
                #[trigger] final(actions)@.contains(a) <==> (old(actions)@.contains(a) || (a.kind()
                    == kind && self.allowed_at(a, location.spec_id()))),
    {
        let id = location.id();
        let ghost start = actions@;
        let n: usize = match kind {
            ActionKind::Trade => PIECE_TYPE_COUNT * PIECE_TYPE_COUNT,
            ActionKind::Catastrophe => 4,
            _ => PIECE_TYPE_COUNT,
        };
        let mut k: usize = 0;
        while k < n
            invariant
                self.wf(),
                self.shows(*location),
                id == location.spec_id(),
                kind != ActionKind::Move,
                n == Self::rank_bound(kind),
                k <= n,
                forall|a: Action|
                    #[trigger] actions@.contains(a) <==> (start.contains(a) || (a.kind() == kind
                        && self.allowed_at(a, id) && Self::rank_of(a) < k)),
            decreases n - k,
        {
            let ghost prev = actions@;
            let pushed = match kind {
                ActionKind::Build => self.build_candidate(location, k),
                ActionKind::Trade => self.trade_candidate(location, k),
                ActionKind::Capture => self.capture_candidate(location, k),
                ActionKind::Sacrifice => self.sacrifice_candidate(location, k),
                _ => self.catastrophe_candidate(location, k),
            };
            assert(forall|a: Action|
                self.is_candidate(a, id, kind, k as nat) <==> pushed == Some(a));
            match pushed {
                Some(a) => {
                    actions.push(a);
                },
                None => {},
            }
            assert forall|a: Action| #[trigger] actions@.contains(a) <==> (start.contains(a) || (
            a.kind() == kind && self.allowed_at(a, id) && Self::rank_of(a) < k + 1)) by {
                Self::lemma_rank_of(a);
                assert(self.is_candidate(a, id, kind, k as nat) <==> pushed == Some(a));
                match pushed {
                    Some(b) => {
                        assert(self.is_candidate(b, id, kind, k as nat));
                        if actions@.contains(a) && !prev.contains(a) {
                            let j = choose|j: int| 0 <= j < actions@.len() && actions@[j] == a;
                            assert(j == prev.len());
                        }
                        if prev.contains(a) {
                            let j = choose|j: int| 0 <= j < prev.len() && prev[j] == a;
                            assert(actions@[j] == a);
                        }
                        if a == b {
                            assert(actions@[prev.len() as int] == a);
                        }
                    },
                    None => {},
                }
            }
            k = k + 1;
        }
        assert forall|a: Action| #[trigger] actions@.contains(a) <==> (start.contains(a) || (a.kind()
            == kind && self.allowed_at(a, id))) by {
            Self::lemma_rank_of(a);
        }
    }

    /// How many candidates a kind's generator tries at one system.
    pub open spec fn rank_bound(kind: ActionKind) -> nat {
        match kind {
            ActionKind::Trade => 144,
            ActionKind::Catastrophe => 4,
            _ => 12,
        }
    }

    /// `a` is the candidate of kind `kind` and rank `k` at `id`, and obeys its rule.
    pub open spec fn is_candidate(self, a: Action, id: SystemId, kind: ActionKind, k: nat) -> bool {
        a.kind() == kind && self.allowed_at(a, id) && Self::rank_of(a) == k
    }

    /// The build of the type in slot `k` at `location`, if it obeys the build rule.
    fn build_candidate(&self, location: &System, k: usize) -> (r: Option<Action>)
        requires
            self.wf(),
            self.shows(*location),
            k < 12,
        ensures
            forall|a: Action|
                self.is_candidate(a, location.spec_id(), ActionKind::Build, k as nat) <==> r
                    == Some(a),
    {
        let id = location.id();
        let t = PieceType::new(Size::from_index(k / 4), Color::from_index(k % 4));
        proof {
            assert forall|a: Action|
                self.is_candidate(a, id, ActionKind::Build, k as nat) implies a == Action::Build(
                BuildAction { location: id, piece_type: t },
            ) by {
                crate::pieces::lemma_type_index(a->Build_0.piece_type);
            }
        }
        if location.colors(&self.current_player).contains(Color::Green) && self.bank.contains(t)
            && ship_at_least(location.ships(), self.current_player, t.size, false) {
            Some(Action::Build(BuildAction { location: id, piece_type: t }))
        } else {
            None
        }
    }

    /// The trade of slot `k / 12` for slot `k % 12` at `location`, if it obeys the
    /// trade rule.
    fn trade_candidate(&self, location: &System, k: usize) -> (r: Option<Action>)
        requires
            self.wf(),
            self.shows(*location),
            k < 144,
        ensures
            forall|a: Action|
                self.is_candidate(a, location.spec_id(), ActionKind::Trade, k as nat) <==> r
                    == Some(a),
    {
        let id = location.id();
        let o = k / 12;
        let m = k % 12;
        let old_type = PieceType::new(Size::from_index(o / 4), Color::from_index(o % 4));
        let new_type = PieceType::new(Size::from_index(m / 4), Color::from_index(m % 4));
        proof {
            assert forall|a: Action|
                self.is_candidate(a, id, ActionKind::Trade, k as nat) implies a == Action::Trade(
                TradeAction { location: id, old_type, new_type },
            ) by {
                crate::pieces::lemma_type_index(a->Trade_0.old_type);
                crate::pieces::lemma_type_index(a->Trade_0.new_type);
            }
        }
        if location.colors(&self.current_player).contains(Color::Blue) && new_type.size
            == old_type.size && new_type.color != old_type.color && self.bank.contains(new_type)
            && owns_ship(location.ships(), self.current_player, old_type) {
            Some(Action::Trade(TradeAction { location: id, old_type, new_type }))
        } else {
            None
        }
    }

    /// The capture of an opposing ship of the type in slot `k` at `location`, if it
    /// obeys the capture rule.
    fn capture_candidate(&self, location: &System, k: usize) -> (r: Option<Action>)
        requires
            self.wf(),
            self.shows(*location),
            k < 12,
        ensures
            forall|a: Action|
                self.is_candidate(a, location.spec_id(), ActionKind::Capture, k as nat) <==> r
                    == Some(a),
    {
        let id = location.id();
        let t = PieceType::new(Size::from_index(k / 4), Color::from_index(k % 4));
        proof {
            assert forall|a: Action|
                self.is_candidate(a, id, ActionKind::Capture, k as nat) implies a
                == Action::Capture(CaptureAction { location: id, piece_type: t }) by {
                crate::pieces::lemma_type_index(a->Capture_0.piece_type);
            }
        }
        if location.colors(&self.current_player).contains(Color::Red) && owns_ship(
            location.ships(),
            self.current_player.other(),
            t,
        ) && ship_at_least(location.ships(), self.current_player, t.size, true) {
            Some(Action::Capture(CaptureAction { location: id, piece_type: t }))
        } else {
            None
        }
    }

    /// The sacrifice of an own ship of the type in slot `k` at `location`, if there is
    /// one.
    fn sacrifice_candidate(&self, location: &System, k: usize) -> (r: Option<Action>)
        requires
            self.wf(),
            self.shows(*location),
            k < 12,
        ensures
            forall|a: Action|
                self.is_candidate(a, location.spec_id(), ActionKind::Sacrifice, k as nat) <==> r
                    == Some(a),
    {
        let id = location.id();
        let t = PieceType::new(Size::from_index(k / 4), Color::from_index(k % 4));
        proof {
            assert forall|a: Action|
                self.is_candidate(a, id, ActionKind::Sacrifice, k as nat) implies a
                == Action::Sacrifice(SacrificeAction { piece_type: t, location: id }) by {
                crate::pieces::lemma_type_index(a->Sacrifice_0.piece_type);
            }
        }
        if owns_ship(location.ships(), self.current_player, t) {
            Some(Action::Sacrifice(SacrificeAction { piece_type: t, location: id }))
        } else {
            None
        }
    }

    /// The catastrophe of the colour at position `k` at `location`, if that colour
    /// overpopulates it.
    fn catastrophe_candidate(&self, location: &System, k: usize) -> (r: Option<Action>)
        requires
            self.wf(),
            self.shows(*location),
            k < 4,
        ensures
            forall|a: Action|
                self.is_candidate(a, location.spec_id(), ActionKind::Catastrophe, k as nat) <==> r
                    == Some(a),
    {
        let id = location.id();
        let color = Color::from_index(k);
        if location.color_count(color) >= CATASTROPHE_THRESHOLD {
            Some(Action::Catastrophe(CatastropheAction { location: id, color }))
        } else {
            None
        }
    }

    /// Position of an action among the candidates its kind's generator tries at one
    /// system: a type's slot, a trade's pair of slots, a colour's position.
    pub open spec fn rank_of(a: Action) -> nat {
        match a {
            Action::Build(b) => b.piece_type.spec_index(),
            Action::Trade(t) => t.old_type.spec_index() * 12 + t.new_type.spec_index(),
            Action::Capture(c) => c.piece_type.spec_index(),
            Action::Sacrifice(s) => s.piece_type.spec_index(),
            Action::Catastrophe(c) => c.color.spec_index(),
            Action::Move(_) => 0,
        }
    }

    proof fn lemma_rank_of(a: Action)
        ensures
            Self::rank_of(a) < Self::rank_bound(a.kind()),
    {
        match a {
            Action::Trade(t) => {
                crate::pieces::lemma_type_index(t.old_type);
                crate::pieces::lemma_type_index(t.new_type);
            },
            Action::Build(b) => crate::pieces::lemma_type_index(b.piece_type),
            Action::Capture(c) => crate::pieces::lemma_type_index(c.piece_type),
            Action::Sacrifice(s) => crate::pieces::lemma_type_index(s.piece_type),
            _ => {},
        }
    }

    /// Appends every action of kind `kind` (other than a move) that obeys its rule at
    /// some system, budget aside.
    fn add_kind_actions(&self, actions: &mut Vec<Action>, kind: ActionKind)
        requires
            self.wf(),
            kind != ActionKind::Move,
        ensures
            forall|a: Action|
                #[trigger] final(actions)@.contains(a) <==> (old(actions)@.contains(a) || (a.kind()
                    == kind && self.rule_ok(a))),
    {
        let systems = self.systems();
        let ghost start = actions@;
        let mut s: usize = 0;
        while s < systems.len()
            invariant
                self.wf(),
                kind != ActionKind::Move,
                s <= systems@.len(),
                forall|j: int| 0 <= j < systems@.len() ==> self.shows(#[trigger] systems@[j]),
                forall|id: SystemId|
                    self.sys_exists(id) ==> exists|j: int|
                        0 <= j < systems@.len() && (#[trigger] systems@[j]).spec_id() == id,
                forall|a: Action|
                    #[trigger] actions@.contains(a) <==> (start.contains(a) || (a.kind() == kind
                        && self.rule_ok(a) && exists|j: int|
                        0 <= j < s && a.location() == (#[trigger] systems@[j]).spec_id())),
            decreases systems@.len() - s,
        {
            let location = &systems[s];
            assert(self.shows(systems@[s as int]));
            self.add_kind_at(actions, location, kind);
            assert forall|a: Action| #[trigger] actions@.contains(a) <==> (start.contains(a) || (
            a.kind() == kind && self.rule_ok(a) && exists|j: int|
                0 <= j < s + 1 && a.location() == (#[trigger] systems@[j]).spec_id())) by {
                if a.location() == location.spec_id() {
                    assert(systems@[s as int].spec_id() == a.location());
                }
            }
            s = s + 1;
        }
        assert forall|a: Action| #[trigger] actions@.contains(a) <==> (start.contains(a) || (a.kind()
            == kind && self.rule_ok(a))) by {
            if a.kind() == kind && self.rule_ok(a) {
                let j = choose|j: int|
                    0 <= j < systems@.len() && (#[trigger] systems@[j]).spec_id() == a.location();
            }
        }
    }

    /// Appends every capture the player to move may make, budget aside.
    pub fn add_capture_actions(&self, actions: &mut Vec<Action>)
        requires
            self.wf(),
        ensures
            forall|a: Action|
                #[trigger] final(actions)@.contains(a) <==> (old(actions)@.contains(a) || (a.kind()
                    == ActionKind::Capture && self.rule_ok(a))),
    {
        self.add_kind_actions(actions, ActionKind::Capture)
    }

    /// Appends every trade the player to move may make, budget aside.
    pub fn add_trade_actions(&self, actions: &mut Vec<Action>)
        requires
            self.wf(),
        ensures
            forall|a: Action|
                #[trigger] final(actions)@.contains(a) <==> (old(actions)@.contains(a) || (a.kind()
                    == ActionKind::Trade && self.rule_ok(a))),
    {
        self.add_kind_actions(actions, ActionKind::Trade)
    }

    /// Appends every build the player to move may make, budget aside.
    pub fn add_build_actions(&self, actions: &mut Vec<Action>)
        requires
            self.wf(),
        ensures
            forall|a: Action|
                #[trigger] final(actions)@.contains(a) <==> (old(actions)@.contains(a) || (a.kind()
                    == ActionKind::Build && self.rule_ok(a))),
    {
        self.add_kind_actions(actions, ActionKind::Build)
    }

    /// Appends every sacrifice the player to move may make, budget aside.
    pub fn add_sacrifice_actions(&self, actions: &mut Vec<Action>)
        requires
            self.wf(),
        ensures
            forall|a: Action|
                #[trigger] final(actions)@.contains(a) <==> (old(actions)@.contains(a) || (a.kind()
                    == ActionKind::Sacrifice && self.rule_ok(a))),
    {
        self.add_kind_actions(actions, ActionKind::Sacrifice)
    }

    /// Appends every catastrophe that may be triggered now.
    pub fn add_catastrophe_actions(&self, actions: &mut Vec<Action>)
        requires
            self.wf(),
        ensures
            forall|a: Action|
                #[trigger] final(actions)@.contains(a) <==> (old(actions)@.contains(a) || (a.kind()
                    == ActionKind::Catastrophe && self.rule_ok(a))),
    {
        self.add_kind_actions(actions, ActionKind::Catastrophe)
    }

    /// Whether the budget's front entry allows an action of kind `kind`.
    pub fn allows(&self, kind: AvailableStdAction) -> (r: bool)
        ensures
            r == self.budget_allows(kind),
    {
        self.avail_std_actions.len() > 0 && (self.avail_std_actions[0].0 == AvailableStdAction::Any
            || self.avail_std_actions[0].0 == kind)
    }

    /// Every action the player to move may take now.
    pub fn legal_actions(&self) -> (r: Vec<Action>)
        requires
            self.wf(),
        ensures
            forall|a: Action| #[trigger] r@.contains(a) <==> self.legal(a),
    {
        let mut r: Vec<Action> = Vec::new();
        if self.allows(AvailableStdAction::Move) {
            self.add_move_actions(&mut r);
        }
        if self.allows(AvailableStdAction::Build) {
            self.add_build_actions(&mut r);
        }
        if self.allows(AvailableStdAction::Trade) {
            self.add_trade_actions(&mut r);
        }
        if self.allows(AvailableStdAction::Capture) {
            self.add_capture_actions(&mut r);
        }
        if self.avail_std_actions.len() > 0 {
            self.add_sacrifice_actions(&mut r);
        }
        self.add_catastrophe_actions(&mut r);
        assert forall|a: Action| #[trigger] r@.contains(a) <==> self.legal(a) by {
            if a.kind() == ActionKind::Move {
                assert(self.move_ok(a) == self.rule_ok(a));
            }
        }
        r
    }

    /// Appends a move of each ship that the player to move controls in `ships`
    /// (one per ship), from `src_id` to `dest_id`.
    fn push_ship_moves(
        &self,
        actions: &mut Vec<Action>,
        ships: &Vec<OwnedPiece>,
        src_id: SystemId,
        dest_id: DestId,
    )
        ensures
            forall|a: Action|
                #[trigger] final(actions)@.contains(a) <==> (old(actions)@.contains(a) || ship_move(
                    a,
                    src_id,
                    dest_id,
                    ships@,
                    self.current_player,
                )),
    {
        let ships_to_move = owned_by(ships, &self.current_player);
        let ghost start = actions@;
        let mut k: usize = 0;
        while k < ships_to_move.len()
            invariant
                k <= ships_to_move@.len(),
                forall|i: int|
                    0 <= i < ships_to_move@.len() ==> (#[trigger] ships_to_move@[i]).owner
                        == self.current_player,
                forall|i: int| 0 <= i < ships_to_move@.len() ==> ships@.contains(#[trigger] ships_to_move@[i]),
                forall|i: int|
                    0 <= i < ships@.len() && (#[trigger] ships@[i]).owner == self.current_player
                        ==> ships_to_move@.contains(ships@[i]),
                forall|a: Action|
                    #[trigger] actions@.contains(a) <==> (start.contains(a) || match a {
                        Action::Move(m) => m.src_id == src_id && m.dest_id == dest_id && exists|i: int|
                            0 <= i < k && (#[trigger] ships_to_move@[i]).piece.type_ == m.piece_type,
                        _ => false,
                    }),
            decreases ships_to_move@.len() - k,
        {
            let ship = ships_to_move[k];
            let action = MoveAction { src_id, dest_id, piece_type: ship.piece.type_ };
            let ghost prev = actions@;
            actions.push(Action::Move(action));
            assert forall|a: Action| #[trigger] actions@.contains(a) <==> (start.contains(a) || match a {
                Action::Move(m) => m.src_id == src_id && m.dest_id == dest_id && exists|i: int|
                    0 <= i < k + 1 && (#[trigger] ships_to_move@[i]).piece.type_ == m.piece_type,
                _ => false,
            }) by {
                if actions@.contains(a) && !prev.contains(a) {
                    let j = choose|j: int| 0 <= j < actions@.len() && actions@[j] == a;
                    assert(j == prev.len());
                }
                if prev.contains(a) {
                    let j = choose|j: int| 0 <= j < prev.len() && prev[j] == a;
                    assert(actions@[j] == a);
                }
                if a == Action::Move(action) {
                    assert(actions@[prev.len() as int] == a);
                }
            }
            k = k + 1;
        }
        assert forall|a: Action| #[trigger] actions@.contains(a) <==> (start.contains(a) || ship_move(
            a,
            src_id,
            dest_id,
            ships@,
            self.current_player,
        )) by {
            match a {
                Action::Move(m) => {
                    if ship_move(a, src_id, dest_id, ships@, self.current_player) {
                        let i = choose|i: int|
                            0 <= i < ships@.len() && #[trigger] ships@[i].owner == self.current_player
                                && ships@[i].piece.type_ == m.piece_type;
                        assert(ships_to_move@.contains(ships@[i]));
                    }
                    if m.src_id == src_id && m.dest_id == dest_id && exists|i: int|
                        0 <= i < k && (#[trigger] ships_to_move@[i]).piece.type_ == m.piece_type {
                        let i = choose|i: int|
                            0 <= i < k && (#[trigger] ships_to_move@[i]).piece.type_ == m.piece_type;
                        assert(ships@.contains(ships_to_move@[i]));
                    }
                },
                _ => {},
            }
        }
    }
}

} // verus!

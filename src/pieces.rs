use itertools::Itertools;
use vstd::prelude::*;

verus! {

/// The three piece sizes, ordered Small < Medium < Large.
#[derive(PartialEq, Eq, Structural, Clone, Copy, Debug, Hash)]
pub enum Size {
    Small,
    Medium,
    Large,
}

/// The four piece colours; each unlocks one kind of action.
#[derive(PartialEq, Eq, Structural, Clone, Copy, Debug, Hash)]
pub enum Color {
    Red,
    Green,
    Blue,
    Yellow,
}

impl Size {
    /// Position of the size in the order Small, Medium, Large (0, 1, 2).
    pub open spec fn spec_index(self) -> nat {
        match self {
            Size::Small => 0,
            Size::Medium => 1,
            Size::Large => 2,
        }
    }

    /// The size's rank: the number of actions its sacrifice grants (1, 2, 3).
    pub open spec fn spec_rank(self) -> nat {
        self.spec_index() + 1
    }

    pub fn index(&self) -> (r: usize)
        ensures
            r == self.spec_index(),
    {
        match self {
            Size::Small => 0,
            Size::Medium => 1,
            Size::Large => 2,
        }
    }

    pub fn rank(&self) -> (r: u8)
        ensures
            r == self.spec_rank(),
    {
        match self {
            Size::Small => 1,
            Size::Medium => 2,
            Size::Large => 3,
        }
    }

    /// The size at a position of the order Small, Medium, Large.
    pub open spec fn spec_from_index(i: nat) -> Size {
        if i == 0 {
            Size::Small
        } else if i == 1 {
            Size::Medium
        } else {
            Size::Large
        }
    }

    pub fn from_index(i: usize) -> (r: Size)
        requires
            i < 3,
        ensures
            r == Size::spec_from_index(i as nat),
            r.spec_index() == i,
    {
        if i == 0 {
            Size::Small
        } else if i == 1 {
            Size::Medium
        } else {
            Size::Large
        }
    }

    /// Every size.
    pub fn all_sizes() -> (r: SizeSet)
        ensures
            r@ == Set::<Size>::full(),
    {
        let r = SizeSet { small: true, medium: true, large: true };
        assert(r@ =~= Set::<Size>::full());
        r
    }

    /// Lower-case name of the size.
    pub fn name(&self) -> (r: &'static str)
        ensures
            r@ == match self {
                Size::Small => "small"@,
                Size::Medium => "medium"@,
                Size::Large => "large"@,
            },
    {
        match self {
            Size::Small => "small",
            Size::Medium => "medium",
            Size::Large => "large",
        }
    }
}

/// Sizes are ordered Small < Medium < Large.
impl PartialOrd for Size {
    fn partial_cmp(&self, other: &Size) -> (r: Option<core::cmp::Ordering>) {
        let a = self.index();
        let b = other.index();
        if a < b {
            Some(core::cmp::Ordering::Less)
        } else if a == b {
            Some(core::cmp::Ordering::Equal)
        } else {
            Some(core::cmp::Ordering::Greater)
        }
    }
}

impl vstd::std_specs::cmp::PartialOrdSpecImpl for Size {
    open spec fn obeys_partial_cmp_spec() -> bool {
        true
    }

    open spec fn partial_cmp_spec(&self, other: &Size) -> Option<core::cmp::Ordering> {
        if self.spec_index() < other.spec_index() {
            Some(core::cmp::Ordering::Less)
        } else if self.spec_index() == other.spec_index() {
            Some(core::cmp::Ordering::Equal)
        } else {
            Some(core::cmp::Ordering::Greater)
        }
    }
}

impl Color {
    /// Position of the colour in the order Red, Green, Blue, Yellow (0 to 3).
    pub open spec fn spec_index(self) -> nat {
        match self {
            Color::Red => 0,
            Color::Green => 1,
            Color::Blue => 2,
            Color::Yellow => 3,
        }
    }

    pub fn index(&self) -> (r: usize)
        ensures
            r == self.spec_index(),
    {
        match self {
            Color::Red => 0,
            Color::Green => 1,
            Color::Blue => 2,
            Color::Yellow => 3,
        }
    }

    /// The colour at a position of the order Red, Green, Blue, Yellow.
    pub open spec fn spec_from_index(i: nat) -> Color {
        if i == 0 {
            Color::Red
        } else if i == 1 {
            Color::Green
        } else if i == 2 {
            Color::Blue
        } else {
            Color::Yellow
        }
    }

    pub fn from_index(i: usize) -> (r: Color)
        requires
            i < 4,
        ensures
            r == Color::spec_from_index(i as nat),
            r.spec_index() == i,
    {
        if i == 0 {
            Color::Red
        } else if i == 1 {
            Color::Green
        } else if i == 2 {
            Color::Blue
        } else {
            Color::Yellow
        }
    }

    /// Lower-case name of the colour.
    pub fn name(&self) -> (r: &'static str)
        ensures
            r@ == match self {
                Color::Red => "red"@,
                Color::Green => "green"@,
                Color::Blue => "blue"@,
                Color::Yellow => "yellow"@,
            },
    {
        match self {
            Color::Red => "red",
            Color::Green => "green",
            Color::Blue => "blue",
            Color::Yellow => "yellow",
        }
    }
}

/// Number of distinct piece types: three sizes times four colours.
pub const PIECE_TYPE_COUNT: usize = 12;

/// Number of physical copies of each piece type.
pub const COPIES_PER_TYPE: usize = 3;

/// A (size, colour) combination.
#[derive(PartialEq, Eq, Structural, Clone, Copy, Debug, Hash)]
pub struct PieceType {
    pub size: Size,
    pub color: Color,
}

impl PieceType {
    /// Slot of the type in size-major order: `4 * size + colour`.
    pub open spec fn spec_index(self) -> nat {
        self.size.spec_index() * 4 + self.color.spec_index()
    }

    /// The type whose slot is `k` (for `k < 12`).
    pub open spec fn spec_from_index(k: nat) -> PieceType {
        PieceType { size: Size::spec_from_index(k / 4), color: Color::spec_from_index(k % 4) }
    }

    pub fn new(size: Size, color: Color) -> (r: PieceType)
        ensures
            r.size == size,
            r.color == color,
    {
        PieceType { size, color }
    }

    pub fn color(&self) -> (r: &Color)
        ensures
            *r == self.color,
    {
        &self.color
    }

    pub fn size(&self) -> (r: &Size)
        ensures
            *r == self.size,
    {
        &self.size
    }

    pub fn index(&self) -> (r: usize)
        ensures
            r == self.spec_index(),
            r < PIECE_TYPE_COUNT,
    {
        self.size.index() * 4 + self.color.index()
    }
}

/// Every type's slot is below 12, and the slot determines the type.
pub proof fn lemma_type_index(t: PieceType)
    ensures
        t.spec_index() < 12,
        PieceType::spec_from_index(t.spec_index()) == t,
{
}

/// The type built from slot `k` has slot `k`.
pub proof fn lemma_index_type(k: nat)
    requires
        k < 12,
    ensures
        PieceType::spec_from_index(k).spec_index() == k,
{
}

/// One physical piece: a type and which of its copies this is.
#[derive(PartialEq, Eq, Structural, Clone, Copy, Debug, Hash)]
pub struct Piece {
    pub type_: PieceType,
    pub id: u8,
}

impl Piece {
    pub fn new(type_: PieceType, id: u8) -> (r: Piece)
        ensures
            r.type_ == type_,
            r.id == id,
    {
        Piece { type_, id }
    }

    pub fn type_(&self) -> (r: &PieceType)
        ensures
            *r == self.type_,
    {
        &self.type_
    }
}

/// A set of sizes.
#[derive(PartialEq, Eq, Structural, Clone, Copy, Debug)]
pub struct SizeSet {
    pub small: bool,
    pub medium: bool,
    pub large: bool,
}

impl View for SizeSet {
    type V = Set<Size>;

    open spec fn view(&self) -> Set<Size> {
        Set::new(
            |z: Size|
                match z {
                    Size::Small => self.small,
                    Size::Medium => self.medium,
                    Size::Large => self.large,
                },
        )
    }
}

impl SizeSet {
    pub fn empty() -> (r: SizeSet)
        ensures
            r@ == Set::<Size>::empty(),
    {
        let r = SizeSet { small: false, medium: false, large: false };
        assert(r@ =~= Set::<Size>::empty());
        r
    }

    pub fn contains(&self, z: Size) -> (r: bool)
        ensures
            r == self@.contains(z),
    {
        match z {
            Size::Small => self.small,
            Size::Medium => self.medium,
            Size::Large => self.large,
        }
    }

    pub fn insert(&mut self, z: Size)
        ensures
            final(self)@ == old(self)@.insert(z),
    {
        match z {
            Size::Small => self.small = true,
            Size::Medium => self.medium = true,
            Size::Large => self.large = true,
        }
        assert(final(self)@ =~= old(self)@.insert(z));
    }

    pub fn intersect(&self, other: &SizeSet) -> (r: SizeSet)
        ensures
            r@ == self@.intersect(other@),
    {
        let r = SizeSet {
            small: self.small && other.small,
            medium: self.medium && other.medium,
            large: self.large && other.large,
        };
        assert(r@ =~= self@.intersect(other@));
        r
    }

    pub fn difference(&self, other: &SizeSet) -> (r: SizeSet)
        ensures
            r@ == self@.difference(other@),
    {
        let r = SizeSet {
            small: self.small && !other.small,
            medium: self.medium && !other.medium,
            large: self.large && !other.large,
        };
        assert(r@ =~= self@.difference(other@));
        r
    }

    pub fn is_empty(&self) -> (r: bool)
        ensures
            r == (self@ == Set::<Size>::empty()),
    {
        let r = !self.small && !self.medium && !self.large;
        if !r {
            if self.small {
                assert(self@.contains(Size::Small));
            } else if self.medium {
                assert(self@.contains(Size::Medium));
            } else {
                assert(self@.contains(Size::Large));
            }
        } else {
            assert(self@ =~= Set::<Size>::empty());
        }
        r
    }
}

/// A set of colours.
#[derive(PartialEq, Eq, Structural, Clone, Copy, Debug)]
pub struct ColorSet {
    pub red: bool,
    pub green: bool,
    pub blue: bool,
    pub yellow: bool,
}

impl View for ColorSet {
    type V = Set<Color>;

    open spec fn view(&self) -> Set<Color> {
        Set::new(
            |c: Color|
                match c {
                    Color::Red => self.red,
                    Color::Green => self.green,
                    Color::Blue => self.blue,
                    Color::Yellow => self.yellow,
                },
        )
    }
}

impl ColorSet {
    pub fn empty() -> (r: ColorSet)
        ensures
            r@ == Set::<Color>::empty(),
    {
        let r = ColorSet { red: false, green: false, blue: false, yellow: false };
        assert(r@ =~= Set::<Color>::empty());
        r
    }

    pub fn contains(&self, c: Color) -> (r: bool)
        ensures
            r == self@.contains(c),
    {
        match c {
            Color::Red => self.red,
            Color::Green => self.green,
            Color::Blue => self.blue,
            Color::Yellow => self.yellow,
        }
    }

    pub fn insert(&mut self, c: Color)
        ensures
            final(self)@ == old(self)@.insert(c),
    {
        match c {
            Color::Red => self.red = true,
            Color::Green => self.green = true,
            Color::Blue => self.blue = true,
            Color::Yellow => self.yellow = true,
        }
        assert(final(self)@ =~= old(self)@.insert(c));
    }

    pub fn union(&self, other: &ColorSet) -> (r: ColorSet)
        ensures
            r@ == self@.union(other@),
    {
        let r = ColorSet {
            red: self.red || other.red,
            green: self.green || other.green,
            blue: self.blue || other.blue,
            yellow: self.yellow || other.yellow,
        };
        assert(r@ =~= self@.union(other@));
        r
    }
}

/// Relies on itertools' `Itertools::cartesian_product`: every pair `(a[i], b[j])`,
/// the first component varying slowest.
#[verifier::external_body]
fn cartesian_product<A: Copy, B: Copy>(a: &Vec<A>, b: &Vec<B>) -> (r: Vec<(A, B)>)
    requires
        a@.len() * b@.len() <= usize::MAX,
    ensures
        r@.len() == a@.len() * b@.len(),
        forall|k: int|
            0 <= k < r@.len() ==> #[trigger] r@[k] == (a@[k / b@.len() as int], b@[k % b@.len() as int]),
{
    a.iter().copied().cartesian_product(b.iter().copied()).collect()
}

/// The unplayed pieces, one slot of pieces per piece type.
#[derive(Clone, Debug)]
pub struct PieceBank {
    pieces: Vec<Vec<Piece>>,
}

/// Number of pieces in the first `n` slots of a bank.
pub open spec fn sum_counts(b: PieceBank, n: nat) -> nat
    decreases n,
{
    if n == 0 {
        0
    } else {
        sum_counts(b, (n - 1) as nat) + b.count(PieceType::spec_from_index((n - 1) as nat))
    }
}

impl PieceBank {
    /// Twelve slots, each holding pieces of its own type only.
    pub closed spec fn wf(self) -> bool {
        &&& self.pieces@.len() == PIECE_TYPE_COUNT
        &&& forall|k: int, i: int|
            0 <= k < PIECE_TYPE_COUNT && 0 <= i < self.pieces@[k]@.len() ==> (
            #[trigger] self.pieces@[k]@[i]).type_.spec_index() == k
    }

    /// How many pieces of type `t` the bank holds.
    /// The pieces of type `t` that the bank holds, the last one first to come out.
    pub closed spec fn held(self, t: PieceType) -> Seq<Piece> {
        self.pieces@[t.spec_index() as int]@
    }

    /// How many pieces of type `t` the bank holds.
    pub open spec fn count(self, t: PieceType) -> nat {
        self.held(t).len()
    }

    /// How many pieces the bank holds in all.
    pub open spec fn total(self) -> nat {
        sum_counts(self, PIECE_TYPE_COUNT as nat)
    }

    /// A full bank: three copies (ids 0, 1, 2) of each of the twelve types.
    pub fn new() -> (r: PieceBank)
        ensures
            r.wf(),
            forall|t: PieceType| #[trigger] r.count(t) == COPIES_PER_TYPE,
            forall|t: PieceType|
                #[trigger] r.held(t) == seq![
                    Piece { type_: t, id: 0 },
                    Piece { type_: t, id: 1 },
                    Piece { type_: t, id: 2 },
                ],
            r.total() == 36,
    {
        let sizes: Vec<Size> = vec![Size::Small, Size::Medium, Size::Large];
        let colors: Vec<Color> = vec![Color::Red, Color::Green, Color::Blue, Color::Yellow];
        let ids: Vec<u8> = vec![0, 1, 2];
        assert(sizes@ == seq![Size::Small, Size::Medium, Size::Large]);
        assert(colors@ == seq![Color::Red, Color::Green, Color::Blue, Color::Yellow]);
        assert(ids@ == seq![0u8, 1u8, 2u8]);
        assert(sizes@.len() == 3 && colors@.len() == 4 && ids@.len() == 3);
        assert(sizes@.len() * colors@.len() == 12);
        let types = cartesian_product(&sizes, &colors);
        assert(types@.len() * ids@.len() == 36);
        let all = cartesian_product(&types, &ids);
        let mut pieces: Vec<Vec<Piece>> = Vec::new();
        let mut k: usize = 0;
        while k < PIECE_TYPE_COUNT
            invariant
                k <= PIECE_TYPE_COUNT,
                pieces@.len() == k,
                forall|j: int| 0 <= j < k ==> (#[trigger] pieces@[j])@.len() == 0,
            decreases PIECE_TYPE_COUNT - k,
        {
            pieces.push(Vec::new());
            k = k + 1;
        }
        let mut i: usize = 0;
        while i < all.len()
            invariant
                types@.len() == 12,
                all@.len() == 36,
                forall|k: int|
                    0 <= k < 36 ==> #[trigger] all@[k] == (types@[k / 3], ids@[k % 3]),
                forall|k: int|
                    0 <= k < 12 ==> #[trigger] types@[k] == (sizes@[k / 4], colors@[k % 4]),
                sizes@ == seq![Size::Small, Size::Medium, Size::Large],
                colors@ == seq![Color::Red, Color::Green, Color::Blue, Color::Yellow],
                ids@ == seq![0u8, 1u8, 2u8],
                i <= 36,
                pieces@.len() == 12,
                forall|k: int|
                    0 <= k < 12 ==> (#[trigger] pieces@[k])@.len() == (if i >= 3 * k + 3 {
                        3
                    } else if i >= 3 * k {
                        i - 3 * k
                    } else {
                        0
                    }),
                forall|k: int, m: int|
                    0 <= k < 12 && 0 <= m < pieces@[k]@.len() ==> #[trigger] pieces@[k]@[m]
                        == (Piece { type_: PieceType::spec_from_index(k as nat), id: m as u8 }),
            decreases 36 - i,
        {
            let ((size, color), id) = all[i];
            let type_ = PieceType { size, color };
            let slot = type_.index();
            proof {
                let q: int = i as int / 3;
                assert(all@[i as int] == (types@[q], ids@[i as int % 3]));
                assert(types@[q] == (sizes@[q / 4], colors@[q % 4]));
                assert(slot == q);
                assert(id == i as int % 3);
            }
            pieces[slot].push(Piece { type_, id });
            i = i + 1;
        }
        let r = PieceBank { pieces };
        assert forall|k: int, m: int|
            0 <= k < PIECE_TYPE_COUNT && 0 <= m < r.pieces@[k]@.len() implies (
            #[trigger] r.pieces@[k]@[m]).type_.spec_index() == k by {
            lemma_index_type(k as nat);
        }
        assert forall|t: PieceType| #[trigger] r.held(t) == seq![
            Piece { type_: t, id: 0 },
            Piece { type_: t, id: 1 },
            Piece { type_: t, id: 2 },
        ] by {
            lemma_type_index(t);
            let k = t.spec_index() as int;
            assert(r.pieces@[k]@.len() == 3);
            assert(r.held(t) =~= seq![
                Piece { type_: t, id: 0 },
                Piece { type_: t, id: 1 },
                Piece { type_: t, id: 2 },
            ]);
        }
        assert forall|t: PieceType| #[trigger] r.count(t) == COPIES_PER_TYPE by {
            lemma_type_index(t);
        }
        assert(r.total() == 36) by {
            reveal_with_fuel(sum_counts, 13);
        }
        r
    }

    /// An independent copy of the bank.
    pub fn copy(&self) -> (r: PieceBank)
        requires
            self.wf(),
        ensures
            r.wf(),
            forall|t: PieceType| #[trigger] r.held(t) == self.held(t),
            forall|t: PieceType| #[trigger] r.count(t) == self.count(t),
    {
        let mut pieces: Vec<Vec<Piece>> = Vec::new();
        let mut k: usize = 0;
        while k < self.pieces.len()
            invariant
                self.wf(),
                k <= PIECE_TYPE_COUNT,
                pieces@.len() == k,
                forall|j: int| 0 <= j < k ==> (#[trigger] pieces@[j])@ == self.pieces@[j]@,
            decreases PIECE_TYPE_COUNT - k,
        {
            let slot = self.pieces[k].clone();
            assert(slot@ =~= self.pieces@[k as int]@);
            pieces.push(slot);
            k = k + 1;
        }
        PieceBank { pieces }
    }

    /// Takes one piece of type `t` out of the bank, or `None` when it has none.
    pub fn pop_piece(&mut self, piece_type: PieceType) -> (r: Option<Piece>)
        requires
            old(self).wf(),
        ensures
            final(self).wf(),
            old(self).count(piece_type) == 0 ==> r is None,
            old(self).count(piece_type) > 0 ==> r is Some && r->0.type_ == piece_type,
            old(self).count(piece_type) > 0 ==> r == Some(old(self).held(piece_type).last())
                && final(self).held(piece_type) == old(self).held(piece_type).drop_last(),
            forall|t: PieceType|
                t != piece_type || old(self).count(t) == 0 ==> #[trigger] final(self).held(t) == old(
                    self,
                ).held(t),
            forall|t: PieceType|
                #[trigger] final(self).count(t) == if t == piece_type && old(self).count(t) > 0 {
                    (old(self).count(t) - 1) as nat
                } else {
                    old(self).count(t)
                },
    {
        let slot = piece_type.index();
        let r = self.pieces[slot].pop();
        proof {
            assert forall|t: PieceType| t != piece_type implies t.spec_index() != slot by {
                lemma_type_index(t);
                lemma_type_index(piece_type);
            }
        }
        r
    }

    /// Whether the bank holds at least one piece of type `t`.
    pub fn contains(&self, piece_type: PieceType) -> (r: bool)
        requires
            self.wf(),
        ensures
            r == (self.count(piece_type) > 0),
    {
        self.pieces[piece_type.index()].len() > 0
    }

    /// How many pieces of type `t` the bank holds.
    pub fn stock(&self, piece_type: PieceType) -> (r: usize)
        requires
            self.wf(),
        ensures
            r == self.count(piece_type),
    {
        self.pieces[piece_type.index()].len()
    }

    /// Puts a piece back into the bank.
    pub fn return_piece(&mut self, piece: Piece)
        requires
            old(self).wf(),
        ensures
            final(self).wf(),
            final(self).held(piece.type_) == old(self).held(piece.type_).push(piece),
            forall|t: PieceType|
                t != piece.type_ ==> #[trigger] final(self).held(t) == old(self).held(t),
            forall|t: PieceType|
                #[trigger] final(self).count(t) == if t == piece.type_ {
                    old(self).count(t) + 1
                } else {
                    old(self).count(t)
                },
    {
        let slot = piece.type_.index();
        self.pieces[slot].push(piece);
        proof {
            assert forall|t: PieceType| t != piece.type_ implies t.spec_index() != slot by {
                lemma_type_index(t);
                lemma_type_index(piece.type_);
            }
        }
    }
}

} // verus!

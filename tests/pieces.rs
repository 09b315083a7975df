use homeworlds::piece_types;
use homeworlds::pieces::{Color, Piece, PieceBank, PieceType, Size, SizeSet};

#[test]
fn bank_starts_with_three_of_each_type() {
    let mut bank = PieceBank::new();
    let sizes = [Size::Small, Size::Medium, Size::Large];
    let colors = [Color::Red, Color::Green, Color::Blue, Color::Yellow];
    let mut total = 0;
    for size in sizes {
        for color in colors {
            let t = PieceType::new(size, color);
            assert!(bank.contains(t));
            assert_eq!(bank.stock(t), 3);
            total += bank.stock(t);
            // the copies come out newest first, each of its own type
            for id in [2u8, 1, 0] {
                let piece = bank.pop_piece(t).unwrap();
                assert_eq!(piece, Piece::new(t, id));
                assert_eq!(*piece.type_(), t);
            }
            assert!(!bank.contains(t));
            assert_eq!(bank.pop_piece(t), None);
        }
    }
    assert_eq!(total, 36);
}

#[test]
fn returned_piece_is_back_in_stock() {
    let mut bank = PieceBank::new();
    let t = PieceType::new(Size::Large, Color::Yellow);
    let piece = bank.pop_piece(t).unwrap();
    assert_eq!(bank.stock(t), 2);
    bank.return_piece(piece);
    assert_eq!(bank.stock(t), 3);
    assert_eq!(bank.stock(PieceType::new(Size::Large, Color::Blue)), 3);
}

#[test]
fn size_order_and_rank() {
    assert_eq!(Size::Small.rank(), 1);
    assert_eq!(Size::Medium.rank(), 2);
    assert_eq!(Size::Large.rank(), 3);
    assert!(Size::Large.index() > Size::Small.index());
    assert!(Size::Large > Size::Small && Size::Small < Size::Medium);
    assert!(Size::Medium <= Size::Medium && !(Size::Medium < Size::Medium));
    assert_eq!(Size::Medium.name(), "medium");
    assert_eq!(Color::Yellow.name(), "yellow");
    let t = PieceType::new(Size::Small, Color::Blue);
    assert_eq!(*t.size(), Size::Small);
    assert_eq!(*t.color(), Color::Blue);
    assert_eq!(t.index(), 2);
    assert_eq!(PieceType::new(Size::Large, Color::Yellow).index(), 11);
}

#[test]
fn size_sets() {
    let mut some = SizeSet::empty();
    assert!(some.is_empty());
    some.insert(Size::Medium);
    let rest = Size::all_sizes().difference(&some);
    assert!(rest.contains(Size::Small) && rest.contains(Size::Large) && !rest.contains(Size::Medium));
    assert!(rest.intersect(&some).is_empty());
}

#[test]
fn catalog_pieces() {
    let t = piece_types::PieceType::new(piece_types::Color::Blue, piece_types::Size::Small);
    assert_eq!(*t.color(), piece_types::Color::Blue);
    assert_eq!(*t.size(), piece_types::Size::Small);
    let piece = piece_types::Piece::new(t, 0);
    assert_eq!(*piece.type_(), t);
}

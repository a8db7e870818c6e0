use bitchess::ffi::struct_reprs::{FFIMove, SimplePieceRepr};
use bitchess::moving::{Move, MoveType};
use bitchess::piece::{Piece, PieceType};
use bitchess::position::Position;
use bitchess::uci::command::{UciCommand, UciPosition};

#[test]
fn simple_commands_are_read() {
    assert!(matches!(UciCommand::parse("uci"), Some(UciCommand::Uci)));
    assert!(matches!(UciCommand::parse("  isready \n"), Some(UciCommand::IsReady)));
    assert!(matches!(UciCommand::parse("ucinewgame"), Some(UciCommand::UciNewGame)));
    assert!(matches!(UciCommand::parse("quit"), Some(UciCommand::Quit)));
    assert!(matches!(UciCommand::parse("debug on"), Some(UciCommand::Debug(true))));
    assert!(matches!(UciCommand::parse("debug off"), Some(UciCommand::Debug(false))));
    assert!(UciCommand::parse("bestmove e2e4").is_none());
    assert!(UciCommand::parse("position startpos").is_none());
    assert!(UciCommand::parse("hello").is_none());
}

#[test]
fn go_depth_is_read() {
    assert!(matches!(UciCommand::parse("go depth 12"), Some(UciCommand::GoDepth(12))));
    assert!(matches!(UciCommand::parse("go depth +7"), Some(UciCommand::GoDepth(7))));
    assert!(matches!(UciCommand::parse("go depth 4294967295"), Some(UciCommand::GoDepth(4294967295))));
    assert!(UciCommand::parse("go depth 4294967296").is_none());
    assert!(UciCommand::parse("go depth x1").is_none());
    assert!(UciCommand::parse("go movetime 100").is_none());
}

#[test]
fn setoption_is_read() {
    match UciCommand::parse("setoption name Hash value 64") {
        Some(UciCommand::SetOption { name, value }) => {
            assert_eq!(name, "Hash");
            assert_eq!(value, Some("64".to_string()));
        }
        _ => panic!("setoption not read"),
    }
    match UciCommand::parse("setoption name Ponder value") {
        Some(UciCommand::SetOption { name, value }) => {
            assert_eq!(name, "Ponder");
            assert_eq!(value, None);
        }
        _ => panic!("setoption not read"),
    }
    assert!(UciCommand::parse("setoption nom Hash value 64").is_none());
    assert!(UciCommand::parse("setoption name Hash val 64").is_none());
}

#[test]
fn commands_are_written() {
    assert_eq!(UciCommand::UciOk.to_string(), "uciok\n");
    assert_eq!(UciCommand::Debug(false).to_string(), "debug off\n");
    assert_eq!(UciCommand::GoDepth(305).to_string(), "go depth 305\n");
    assert_eq!(
        UciCommand::Id { name: "bitchess".to_string(), author: "someone".to_string() }.to_string(),
        "id name bitchess\nid author someone\n"
    );
    assert_eq!(
        UciCommand::SetOption { name: "Hash".to_string(), value: Some("64".to_string()) }.to_string(),
        "setoption name Hashvalue 64\n"
    );
    assert_eq!(
        UciCommand::Position { position: UciPosition::StartPos, moves: vec!["e2e4".to_string(), "e7e5".to_string()] }
            .to_string(),
        "position startpos\nmoves e2e4 e7e5\n"
    );
    assert_eq!(
        UciCommand::Position { position: UciPosition::Fen("8/8/8/8/8/8/8/8 w - - 0 1".to_string()), moves: vec![] }
            .to_string(),
        "position fen 8/8/8/8/8/8/8/8 w - - 0 1\n"
    );
}

#[test]
fn written_commands_read_back() {
    for c in [UciCommand::Uci, UciCommand::ReadyOk, UciCommand::Stop, UciCommand::Debug(true), UciCommand::GoDepth(0)] {
        let text = c.to_string();
        let back = UciCommand::parse(&text).unwrap();
        assert_eq!(format!("{:?}", back), format!("{:?}", c));
    }
}

#[test]
fn moves_in_plain_form() {
    let m = Move::new(
        Position::from_index(52),
        Position::from_index(60),
        MoveType::Promotion(PieceType::Queen),
        Some(Piece::black(PieceType::Bishop)),
    );
    let plain = FFIMove::from(m);
    assert_eq!(plain.take, SimplePieceRepr::BlackBishop);
    let back: Move = plain.into();
    assert_eq!(back, m);
    assert_eq!(SimplePieceRepr::from(None), SimplePieceRepr::Nothing);
    assert_eq!(Option::<Piece>::from(SimplePieceRepr::WhiteKing), Some(Piece::white(PieceType::King)));
}

#[test]
fn positions_are_written() {
    assert_eq!(UciPosition::StartPos.to_string(), "startpos");
    assert_eq!(UciPosition::Fen("8/8/8/8/8/8/8/8 w - - 0 1".to_string()).to_string(), "fen 8/8/8/8/8/8/8/8 w - - 0 1");
}

use aster::board::Board;
use aster::bot::Bot;

#[test]
fn bot_answers_uci_and_isready() {
    let mut bot = Bot::new();
    assert!(bot.command_ready("uci"));
    assert_eq!(bot.exec_command("uci"), Some("id name aster 0.1.0\nid author \n\nuciok".to_string()));
    assert_eq!(bot.exec_command("isready"), Some("readyok".to_string()));
    assert_eq!(bot.exec_command("stop"), None);
}

#[test]
fn bot_position_then_go() {
    let mut bot = Bot::new();
    assert!(bot.command_ready("position startpos moves e2e4 e7e5"));
    assert_eq!(bot.exec_command("position startpos moves e2e4 e7e5"), None);
    assert!(bot.command_ready("go"));
    let answer = bot.exec_command("go").unwrap();
    assert!(answer.starts_with("bestmove "));

    let mut board = Board::STARTING_POSITION();
    let e2e4 = board.get_move_from_algebraic("e2e4").unwrap();
    board.make_move(&e2e4);
    let e7e5 = board.get_move_from_algebraic("e7e5").unwrap();
    board.make_move(&e7e5);
    let legal = board.legal_moves();
    assert!(legal.iter().any(|m| answer == format!("bestmove {}", m.display())));
}

#[test]
fn bot_refuses_what_it_cannot_answer() {
    let bot = Bot::new();
    assert!(!bot.command_ready(""));
    assert!(!bot.command_ready("   "));
    assert!(!bot.command_ready("position startpos moves e2"));
    assert!(!bot.command_ready("position startpos moves e7e8x"));
    assert!(bot.command_ready("position startpos"));
    assert!(bot.command_ready("go wtime 100"));
}

#[test]
fn bot_plays_the_sequence_with_one_square_steps() {
    let line = "position startpos moves e2e4 d7d5 e4d5 h7h6 f1b5 c7c6 d5c6 d8d5 b1c3 c8f5 c3d5 g7g5 c6b7";
    let mut bot = Bot::new();
    assert!(bot.command_ready(line));
    assert_eq!(bot.exec_command(line), None);

    let mut board = Board::STARTING_POSITION();
    for text in ["e2e4", "d7d5", "e4d5", "h7h6", "f1b5", "c7c6", "d5c6", "d8d5", "b1c3", "c8f5", "c3d5", "g7g5", "c6b7"] {
        let m = board.get_move_from_algebraic(text).unwrap();
        assert!(board.clone().legal_moves().contains(&m), "{} is not legal", text);
        board.make_move(&m);
    }
    assert!(bot.command_ready("go"));
    let answer = bot.exec_command("go").unwrap();
    let legal = board.legal_moves();
    assert!(legal.iter().any(|m| answer == format!("bestmove {}", m.display())));
}

use chesskom::session::{help_text, opening_text, parse_command, Command, Session};
use chesskom::Color;

fn cmd(line: &str) -> Command {
    parse_command(line)
}

fn run(s: &mut Session, line: &str) -> (Vec<String>, bool) {
    let c = parse_command(line);
    assert!(s.can_step(&c));
    s.step(&c)
}

#[test]
fn typed_lines_name_the_commands_of_the_table() {
    for (line, c) in [
        ("quit", Command::Quit),
        ("q", Command::Quit),
        ("exit\n", Command::Quit),
        ("help", Command::Help),
        ("h", Command::Help),
        ("  ?  ", Command::Help),
        ("new", Command::NewGame),
        ("flip", Command::Flip),
        ("back", Command::Back),
        ("b", Command::Back),
        ("forward", Command::Forward),
        ("f", Command::Forward),
        ("start", Command::Start),
        ("end", Command::End),
        ("moves", Command::Moves),
        ("", Command::Blank),
        (" \t\n", Command::Blank),
    ] {
        assert_eq!(cmd(line), c, "{line:?}");
    }
    assert_eq!(cmd("moves  e2 \n"), Command::MovesFrom("e2".to_string()));
    assert_eq!(cmd(" e2e4\r\n"), Command::Play("e2e4".to_string()));
    assert_eq!(cmd("Quit"), Command::Play("Quit".to_string()));
    assert_eq!(cmd("movese2"), Command::Play("movese2".to_string()));
}

#[test]
fn commands_answer_and_change_the_game() {
    let mut s = Session::new();
    assert!(s.auto_flip);
    assert_eq!(run(&mut s, ""), (vec![], true));
    assert_eq!(run(&mut s, "back"), (vec!["Already at the start.".to_string()], true));
    assert_eq!(run(&mut s, "forward"), (vec!["Already at the live position.".to_string()], true));
    assert_eq!(run(&mut s, "e2e4"), (vec![], true));
    assert_eq!(s.game.ply(), 1);
    assert_eq!(run(&mut s, "e2e4"), (vec!["Illegal move: e2e4".to_string()], true));
    assert_eq!(
        run(&mut s, "zz"),
        (vec!["Enter a move like 'e2e4' (or 'e7e8q' to promote). Got: zz".to_string()], true)
    );
    assert_eq!(run(&mut s, "back"), (vec![], true));
    assert_eq!(s.game.viewed_ply(), 0);
    assert_eq!(
        run(&mut s, "e7e5"),
        (vec!["(resuming from the live position)".to_string()], true)
    );
    assert_eq!(s.game.ply(), 2);
    assert!(s.game.is_at_live());
    assert_eq!(run(&mut s, "start"), (vec![], true));
    assert_eq!(s.game.viewed_ply(), 0);
    assert_eq!(run(&mut s, "end"), (vec![], true));
    assert!(s.game.is_at_live());
    assert_eq!(run(&mut s, "flip"), (vec!["Auto-flip off (white at bottom).".to_string()], true));
    assert!(!s.auto_flip);
    assert_eq!(run(&mut s, "flip"), (vec!["Auto-flip on (board faces mover).".to_string()], true));
    assert_eq!(run(&mut s, "moves g1"), (vec!["from g1: h3 e2 f3".to_string()], true));
    assert_eq!(run(&mut s, "moves e9"), (vec!["Not a square: e9".to_string()], true));
    let (lines, on) = run(&mut s, "moves");
    assert!(on);
    assert_eq!(lines.len(), 1);
    assert!(lines[0].starts_with("legal moves (29): "));
    assert_eq!(run(&mut s, "help"), (vec![help_text()], true));
    assert_eq!(run(&mut s, "new"), (vec!["New game started.".to_string()], true));
    assert_eq!(s.game.ply(), 0);
    assert_eq!(run(&mut s, "quit"), (vec![], false));
}

#[test]
fn the_screen_shows_board_status_moves_and_prompt() {
    let mut s = Session::new();
    let first = s.screen_text();
    assert!(first.starts_with("\n"));
    assert!(first.contains("\nWhite to move\n"));
    assert!(!first.contains("moves: "));
    assert!(first.ends_with("\n> "));
    run(&mut s, "e2e4");
    let after = s.screen_text();
    assert!(after.contains("\nBlack to move\n"));
    assert!(after.contains("moves: "));
    run(&mut s, "back");
    let viewing = s.screen_text();
    assert!(viewing.contains("\n[viewing ply 0/1] \u{2014} 'end' to return to the live game\n"));
    assert!(!viewing.contains("to move"));
    // Fool's mate: the game-over note shows at the live position.
    let mut m = Session::new();
    for mv in ["f2f3", "e7e5", "g2g4", "d8h4"] {
        run(&mut m, mv);
    }
    assert!(m.screen_text().contains("\nGame over. You can still 'back'/'forward' to review, or 'new' to restart.\n"));
    assert_eq!(m.game.current().side_to_move, Color::White);
}

#[test]
fn the_opening_names_the_game_and_lists_the_commands() {
    let o = opening_text();
    assert!(o.starts_with("chesskom \u{2014} local two-player chess\n\nCommands:\n"));
    assert!(o.ends_with("  quit / q      exit\n"));
    assert!(help_text().contains("  moves <sq>    list legal moves from a square, e.g. 'moves e2'\n"));
}

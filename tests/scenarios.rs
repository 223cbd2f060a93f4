use my_wordle::CellState;
use my_wordle::CellState::{Absent, Confirmed, Possible};
use my_wordle::{CheckError, FeedbackKind, LetterInfo, Violation, WordleGame};

fn cells(game: &WordleGame, c: char) -> Vec<CellState> {
    match game.letter_info(c) {
        Some(LetterInfo::Present(v)) => v.clone(),
        other => panic!("expected a present record for {c}, found {other:?}"),
    }
}

fn snapshot(game: &WordleGame, c: char) -> String {
    format!("{:?}", game.letter_info(c))
}

fn fixed(game: &WordleGame) -> Vec<Option<char>> {
    (0..game.word_length()).map(|p| game.fixed_letter(p)).collect()
}

#[test]
fn soda_with_two_hits() {
    let mut game = WordleGame::init(4);
    game.update("soda", "nnyy");
    assert_eq!(game.letter_info('s'), Some(&LetterInfo::Absent));
    assert_eq!(game.letter_info('o'), Some(&LetterInfo::Absent));
    assert_eq!(cells(&game, 'd'), vec![Possible, Possible, Confirmed, Absent]);
    assert_eq!(cells(&game, 'a'), vec![Possible, Possible, Absent, Confirmed]);
    assert_eq!(fixed(&game), vec![None, None, Some('d'), Some('a')]);
}

#[test]
fn sand_after_soda_reports_all_violations() {
    let mut game = WordleGame::init(4);
    game.update("soda", "nnyy");
    let r = game.check("sand");
    assert_eq!(
        r,
        Err(CheckError::Violations(vec![
            Violation::FixedMismatch { position: 2, expected: 'd', found: 'n' },
            Violation::FixedMismatch { position: 3, expected: 'a', found: 'd' },
            Violation::MustBeAbsent { position: 0, letter: 's' },
            Violation::RuledOut { position: 3, letter: 'd' },
        ]))
    );
}

#[test]
fn present_rules_out_its_own_position() {
    let mut game = WordleGame::init(5);
    game.update("abcde", "mnnnn");
    assert_eq!(cells(&game, 'a'), vec![Absent, Possible, Possible, Possible, Possible]);
    let r = game.check("aabbc");
    assert_eq!(
        r,
        Err(CheckError::Violations(vec![
            Violation::RuledOut { position: 0, letter: 'a' },
            Violation::MustBeAbsent { position: 2, letter: 'b' },
            Violation::MustBeAbsent { position: 3, letter: 'b' },
            Violation::MustBeAbsent { position: 4, letter: 'c' },
        ]))
    );
}

#[test]
fn repeated_letter_miss_then_hit_is_promoted() {
    let mut game = WordleGame::init(4);
    game.update("ttle", "nyyy");
    assert_eq!(cells(&game, 't'), vec![Absent, Confirmed, Absent, Absent]);
    assert_eq!(cells(&game, 'l'), vec![Possible, Absent, Confirmed, Absent]);
    assert_eq!(cells(&game, 'e'), vec![Possible, Absent, Absent, Confirmed]);
    assert_eq!(fixed(&game), vec![None, Some('t'), Some('l'), Some('e')]);
}

#[test]
fn repeated_letter_missed_twice_stays_absent() {
    let mut game = WordleGame::init(4);
    game.update("ttbb", "nnyy");
    assert_eq!(game.letter_info('t'), Some(&LetterInfo::Absent));
    assert_eq!(cells(&game, 'b'), vec![Possible, Possible, Confirmed, Confirmed]);
    assert_eq!(fixed(&game), vec![None, None, Some('b'), Some('b')]);
}

#[test]
fn absent_letter_reported_present_becomes_present_nowhere_known() {
    let mut game = WordleGame::init(3);
    game.update("aax", "nmn");
    assert_eq!(cells(&game, 'a'), vec![Absent, Absent, Absent]);
}

#[test]
fn check_before_any_update_has_no_information() {
    let game = WordleGame::init(4);
    assert_eq!(game.check("abcd"), Err(CheckError::NoInformationYet));
    assert_eq!(game.check(""), Err(CheckError::NoInformationYet));
    assert_eq!(game.check("toolong"), Err(CheckError::NoInformationYet));
}

#[test]
fn wrong_length_candidate_is_reported_alone() {
    let mut game = WordleGame::init(4);
    game.update("soda", "nnyy");
    assert_eq!(game.check("ab"), Err(CheckError::LengthMismatch { expected: 4 }));
    assert_eq!(game.check("sssss"), Err(CheckError::LengthMismatch { expected: 4 }));
}

#[test]
fn consistent_candidate_passes() {
    let mut game = WordleGame::init(4);
    game.update("soda", "nnyy");
    assert_eq!(game.check("prda"), Ok(()));
}

#[test]
fn repeated_miss_leaves_letter_unchanged() {
    let mut game = WordleGame::init(4);
    game.update("mint", "nmyn");
    game.update("taco", "mnnn");
    let before_t = snapshot(&game, 't');
    let before_m = snapshot(&game, 'm');
    game.update("mint", "nmyn");
    assert_eq!(snapshot(&game, 't'), before_t);
    assert_eq!(snapshot(&game, 'm'), before_m);
    game.update("mint", "nmyn");
    assert_eq!(snapshot(&game, 't'), before_t);
}

#[test]
fn hit_rules_out_other_letters_at_its_position() {
    let mut game = WordleGame::init(4);
    game.update("abcd", "mmmm");
    game.update("wxyb", "nnny");
    assert_eq!(game.fixed_letter(3), Some('b'));
    assert_eq!(cells(&game, 'a')[3], Absent);
    assert_eq!(cells(&game, 'c')[3], Absent);
    assert_eq!(cells(&game, 'd')[3], Absent);
    assert_eq!(cells(&game, 'b')[3], Confirmed);
}

#[test]
fn agreeing_feedback_only_narrows() {
    let mut game = WordleGame::init(4);
    game.update("rate", "mnyn");
    let first = cells(&game, 'r');
    game.update("pier", "nnmy");
    let second = cells(&game, 'r');
    for (a, b) in first.iter().zip(second.iter()) {
        if *a == Absent {
            assert_eq!(*b, Absent);
        }
        if *a == Confirmed {
            assert_eq!(*b, Confirmed);
        }
    }
    assert_eq!(second, vec![Absent, Possible, Absent, Confirmed]);
}

#[test]
fn miss_on_present_letter_rules_out_unknown_cells() {
    let mut game = WordleGame::init(4);
    game.update("eabc", "ynnn");
    game.update("beex", "nnmn");
    assert_eq!(cells(&game, 'e'), vec![Confirmed, Absent, Absent, Absent]);
}

#[test]
fn three_broken_constraints_give_three_violations() {
    let mut game = WordleGame::init(4);
    game.update("crow", "ymnn");
    let r = game.check("wrxy");
    assert_eq!(
        r,
        Err(CheckError::Violations(vec![
            Violation::FixedMismatch { position: 0, expected: 'c', found: 'w' },
            Violation::MustBeAbsent { position: 0, letter: 'w' },
            Violation::RuledOut { position: 1, letter: 'r' },
        ]))
    );
}

#[test]
fn feedback_characters_map_to_symbols() {
    assert_eq!(
        my_wordle::word_to_result("ymnx"),
        vec![FeedbackKind::Hit, FeedbackKind::Present, FeedbackKind::Miss, FeedbackKind::Miss]
    );
    assert_eq!(my_wordle::word_to_result(""), vec![]);
}

#[test]
fn fresh_cell_vectors() {
    assert_eq!(
        my_wordle::generate_new_vec(4, 2, &FeedbackKind::Present),
        vec![Possible, Possible, Absent, Possible]
    );
    assert_eq!(
        my_wordle::generate_new_vec(3, 0, &FeedbackKind::Hit),
        vec![Confirmed, Possible, Possible]
    );
}

#[test]
fn cell_rows_render_as_digits() {
    assert_eq!(
        my_wordle::show_vec_present_types(&vec![Absent, Confirmed, Possible, Absent]),
        "0120"
    );
    assert_eq!(my_wordle::show_vec_present_types(&vec![]), "");
}

#[test]
fn debug_dump_lists_everything() {
    let mut game = WordleGame::init(4);
    game.update("soda", "nnyy");
    let text = game.render_debug();
    assert!(text.starts_with("Necessary letters: **da\nAdditional Info:Absentees"));
    assert!(text.contains(",s"));
    assert!(text.contains(",o"));
    assert!(text.contains("\nd->2210"));
    assert!(text.contains("\na->2201"));
    assert_eq!(text.len(), "Necessary letters: **da\nAdditional Info:Absentees,s,o\n\nd->2210\na->2201".len());
}

#[test]
fn zero_length_game() {
    let mut game = WordleGame::init(0);
    assert_eq!(game.word_length(), 0);
    assert_eq!(game.check(""), Err(CheckError::NoInformationYet));
    game.update("", "");
    assert_eq!(game.check(""), Err(CheckError::NoInformationYet));
}

use cli_wordle::resolver::{Attempt, CharMatch};

#[test]
fn test_attempt() {
    let mut test_text_pass = String::from("START");
    let mut test_text_fail_length = String::from("STARTS");

    let mut a = Attempt::new(5);

    assert!(a.attempt(&mut test_text_fail_length).is_none());
    assert!(a.attempt(&mut test_text_pass).is_some());
}

#[test]
fn test_attempt_resolution() {
    let target_text = String::from("FIERY");
    let mut test_text_pass = String::from("FEAST");

    let mut a = Attempt::new(5);

    a.attempt(&mut test_text_pass);

    a.resolve(&target_text);

    let match_vec = vec![
        CharMatch::ExistsHere('F'),
        CharMatch::ExistsSomewhereElse('E'),
        CharMatch::DoesNotExist('A'),
        CharMatch::DoesNotExist('S'),
        CharMatch::DoesNotExist('T'),
    ];

    assert!(*a.match_vector() == match_vec);
}

#[test]
fn feast_against_fiery_is_no_win() {
    let mut a = Attempt::new(5);
    let mut guess = String::from("FEAST");
    assert!(a.attempt(&mut guess).is_some());
    a.resolve(&String::from("FIERY"));
    assert!(!a.is_win());
    assert_eq!(a.attempt_text(), "FEAST");
}

#[test]
fn exact_guess_wins() {
    let mut a = Attempt::new(5);
    let mut guess = String::from("FIERY");
    assert!(a.attempt(&mut guess).is_some());
    a.resolve(&String::from("FIERY"));
    assert_eq!(
        *a.match_vector(),
        vec![
            CharMatch::ExistsHere('F'),
            CharMatch::ExistsHere('I'),
            CharMatch::ExistsHere('E'),
            CharMatch::ExistsHere('R'),
            CharMatch::ExistsHere('Y'),
        ]
    );
    assert!(a.is_win());
}

#[test]
fn failed_attempt_keeps_previous_text() {
    let mut a = Attempt::new(5);
    let mut good = String::from("START");
    let mut long = String::from("STARTS");
    let mut short = String::from("STAR");
    assert!(a.attempt(&mut good).is_some());
    assert!(a.attempt(&mut long).is_none());
    assert!(a.attempt(&mut short).is_none());
    assert_eq!(a.attempt_text(), "START");
    assert_eq!(long, "STARTS");
    assert_eq!(a.length(), 5);
}

#[test]
fn length_counts_characters() {
    let mut a = Attempt::new(3);
    let mut accented = String::from("été");
    assert!(a.attempt(&mut accented).is_some());
}

#[test]
fn resolving_twice_gives_same_verdicts() {
    let target = String::from("FIERY");
    let mut a = Attempt::new(5);
    let mut guess = String::from("REFIT");
    assert!(a.attempt(&mut guess).is_some());
    a.resolve(&target);
    let first = a.match_vector().clone();
    let first_win = a.is_win();
    a.resolve(&target);
    assert_eq!(*a.match_vector(), first);
    assert_eq!(a.is_win(), first_win);
}

#[test]
fn repeated_letters_are_each_marked_present() {
    let mut a = Attempt::new(5);
    let mut guess = String::from("EERIE");
    assert!(a.attempt(&mut guess).is_some());
    a.resolve(&String::from("FIERY"));
    assert_eq!(
        *a.match_vector(),
        vec![
            CharMatch::ExistsSomewhereElse('E'),
            CharMatch::ExistsSomewhereElse('E'),
            CharMatch::ExistsSomewhereElse('R'),
            CharMatch::ExistsSomewhereElse('I'),
            CharMatch::ExistsSomewhereElse('E'),
        ]
    );
    assert!(!a.is_win());
}

#[test]
fn verdicts_carry_guessed_characters() {
    let mut a = Attempt::new(5);
    let mut guess = String::from("crane");
    assert!(a.attempt(&mut guess).is_some());
    a.resolve(&String::from("trace"));
    let chars: Vec<char> = a.match_vector().iter().map(|m| m.character()).collect();
    assert_eq!(chars, vec!['c', 'r', 'a', 'n', 'e']);
    assert_eq!(a.match_vector()[3], CharMatch::DoesNotExist('n'));
    assert_eq!(a.match_vector()[0], CharMatch::ExistsSomewhereElse('c'));
    assert_eq!(a.match_vector()[4], CharMatch::ExistsHere('e'));
}

#[test]
fn render_shows_every_character() {
    let mut a = Attempt::new(5);
    let mut guess = String::from("FEAST");
    assert!(a.attempt(&mut guess).is_some());
    a.resolve(&String::from("FIERY"));
    let line = a.render();
    for c in ['F', 'E', 'A', 'S', 'T'] {
        assert!(line.contains(c));
    }
    assert!(line.find('F').unwrap() < line.find('T').unwrap());
}

#[test]
fn new_attempt_is_empty() {
    let a = Attempt::new(5);
    assert_eq!(a.attempt_text(), "");
    assert!(a.match_vector().is_empty());
    assert!(!a.is_win());
    assert_eq!(a.render(), "");
}

#[test]
fn render_pads_each_cell() {
    let mut a = Attempt::new(2);
    let mut guess = String::from("ab");
    assert!(a.attempt(&mut guess).is_some());
    a.resolve(&String::from("ax"));
    let line = a.render();
    let visible: String = {
        let mut out = String::new();
        let mut in_escape = false;
        for c in line.chars() {
            if c == '\u{1b}' {
                in_escape = true;
            } else if in_escape {
                if c == 'm' {
                    in_escape = false;
                }
            } else {
                out.push(c);
            }
        }
        out
    };
    assert_eq!(visible, " a  b ");
}

use helix_term::commands::{Command, Registry, RegistryError};

#[test]
fn registered_names_look_up_their_commands() {
    let mut r = Registry::new();
    r.register(b"enter_insert".to_vec(), Command::EnterInsert).unwrap();
    r.register(b"move_down".to_vec(), Command::MoveDown).unwrap();
    assert_eq!(r.find(&b"move_down".to_vec()), Some(Command::MoveDown));
    assert_eq!(r.find(&b"enter_insert".to_vec()), Some(Command::EnterInsert));
}

#[test]
fn unknown_names_find_nothing() {
    let mut r = Registry::new();
    r.register(b"quit".to_vec(), Command::Quit).unwrap();
    assert_eq!(r.find(&b"qui".to_vec()), None);
    assert_eq!(r.find(&b"quit2".to_vec()), None);
}

#[test]
fn duplicate_names_are_refused() {
    let mut r = Registry::new();
    r.register(b"quit".to_vec(), Command::Quit).unwrap();
    assert_eq!(
        r.register(b"quit".to_vec(), Command::MoveUp),
        Err(RegistryError::DuplicateName)
    );
    // the original registration still stands
    assert_eq!(r.find(&b"quit".to_vec()), Some(Command::Quit));
}

#[test]
fn empty_names_are_refused() {
    let mut r = Registry::new();
    assert_eq!(r.register(Vec::new(), Command::Quit), Err(RegistryError::EmptyName));
}

#[test]
fn commands_report_whether_they_take_a_count() {
    assert!(Command::MoveDown.takes_count());
    assert!(Command::MoveUp.takes_count());
    assert!(!Command::Quit.takes_count());
    assert!(!Command::EnterInsert.takes_count());
}

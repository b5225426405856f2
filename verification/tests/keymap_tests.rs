use helix_term::commands::Command;
use helix_term::keymap::{BindError, FeedResult, Key, KeymapEngine, Mode};

fn engine_with_normal(bindings: Vec<(Vec<Key>, Command)>) -> KeymapEngine {
    let mut e = KeymapEngine::new();
    for (keys, cmd) in bindings {
        e.normal.bind(keys, cmd).unwrap();
    }
    e
}

#[test]
fn unique_sequence_resolves_once_with_count_one() {
    let mut e = engine_with_normal(vec![(
        vec![Key::Char(b'g'), Key::Char(b'd')],
        Command::MoveDown,
    )]);
    assert_eq!(e.feed(Key::Char(b'g')), FeedResult::Pending);
    assert_eq!(e.feed(Key::Char(b'd')), FeedResult::Resolved(Command::MoveDown, 1));
    assert_eq!(e.pending.len(), 0);
    assert_eq!(e.count, 0);
}

#[test]
fn single_key_binding_resolves() {
    let mut e = engine_with_normal(vec![(vec![Key::Char(b'j')], Command::MoveDown)]);
    assert_eq!(e.feed(Key::Char(b'j')), FeedResult::Resolved(Command::MoveDown, 1));
}

#[test]
fn numeral_prefix_forty_two() {
    let mut e = engine_with_normal(vec![(vec![Key::Char(b'j')], Command::MoveDown)]);
    assert_eq!(e.feed(Key::Char(b'4')), FeedResult::Pending);
    assert_eq!(e.count, 4);
    assert_eq!(e.feed(Key::Char(b'2')), FeedResult::Pending);
    assert_eq!(e.count, 42);
    assert_eq!(e.feed(Key::Char(b'j')), FeedResult::Resolved(Command::MoveDown, 42));
    // the count resets to its default afterward
    assert_eq!(e.count, 0);
    assert_eq!(e.feed(Key::Char(b'j')), FeedResult::Resolved(Command::MoveDown, 1));
}

#[test]
fn count_saturates_instead_of_overflowing() {
    let mut e = engine_with_normal(vec![(vec![Key::Char(b'j')], Command::MoveDown)]);
    for _ in 0..10 {
        assert_eq!(e.feed(Key::Char(b'9')), FeedResult::Pending);
    }
    assert_eq!(e.feed(Key::Char(b'j')), FeedResult::Resolved(Command::MoveDown, u32::MAX));
}

#[test]
fn ambiguous_prefix_waits_for_disambiguation() {
    let mut e = engine_with_normal(vec![
        (vec![Key::Char(b'a'), Key::Char(b'b')], Command::MoveUp),
        (
            vec![Key::Char(b'a'), Key::Char(b'b'), Key::Char(b'c')],
            Command::MoveDown,
        ),
    ]);
    assert_eq!(e.feed(Key::Char(b'a')), FeedResult::Pending);
    // "ab" is bound, but "abc" is still reachable: nothing may fire yet
    assert_eq!(e.feed(Key::Char(b'b')), FeedResult::Pending);
    // the third key disambiguates to the longer binding
    assert_eq!(e.feed(Key::Char(b'c')), FeedResult::Resolved(Command::MoveDown, 1));
}

#[test]
fn timeout_resolves_shortest_viable_match() {
    let mut e = engine_with_normal(vec![
        (vec![Key::Char(b'a'), Key::Char(b'b')], Command::MoveUp),
        (
            vec![Key::Char(b'a'), Key::Char(b'b'), Key::Char(b'c')],
            Command::MoveDown,
        ),
    ]);
    assert_eq!(e.feed(Key::Char(b'a')), FeedResult::Pending);
    assert_eq!(e.feed(Key::Char(b'b')), FeedResult::Pending);
    assert_eq!(e.timeout(), FeedResult::Resolved(Command::MoveUp, 1));
    assert_eq!(e.pending.len(), 0);
}

#[test]
fn timeout_with_no_match_discards_pending() {
    let mut e = engine_with_normal(vec![(
        vec![Key::Char(b'a'), Key::Char(b'b'), Key::Char(b'c')],
        Command::MoveDown,
    )]);
    assert_eq!(e.feed(Key::Char(b'a')), FeedResult::Pending);
    assert_eq!(e.feed(Key::Char(b'b')), FeedResult::Pending);
    assert_eq!(e.timeout(), FeedResult::Unmapped);
    assert_eq!(e.pending.len(), 0);
}

#[test]
fn timeout_on_empty_pending_is_a_no_op() {
    let mut e = engine_with_normal(vec![(vec![Key::Char(b'j')], Command::MoveDown)]);
    assert_eq!(e.timeout(), FeedResult::Pending);
}

#[test]
fn mode_switch_clears_pending_and_count() {
    let mut e = engine_with_normal(vec![
        (vec![Key::Char(b'g'), Key::Char(b'd')], Command::MoveUp),
        (vec![Key::Char(b'j')], Command::MoveDown),
    ]);
    assert_eq!(e.feed(Key::Char(b'g')), FeedResult::Pending);
    e.set_mode(Mode::Insert);
    assert_eq!(e.pending.len(), 0);
    assert_eq!(e.count, 0);
    // the pending prefix from the old mode never resolves after the switch
    e.set_mode(Mode::Normal);
    assert_eq!(e.feed(Key::Char(b'd')), FeedResult::Unmapped);
    // an accumulated count is discarded by a switch too
    assert_eq!(e.feed(Key::Char(b'4')), FeedResult::Pending);
    e.set_mode(Mode::Normal);
    assert_eq!(e.feed(Key::Char(b'j')), FeedResult::Resolved(Command::MoveDown, 1));
}

#[test]
fn unmapped_key_drops_whole_failed_sequence() {
    let mut e = engine_with_normal(vec![(
        vec![Key::Char(b'a'), Key::Char(b'b')],
        Command::MoveUp,
    )]);
    assert_eq!(e.feed(Key::Char(b'a')), FeedResult::Pending);
    assert_eq!(e.feed(Key::Char(b'x')), FeedResult::Unmapped);
    // 'b' alone matches nothing: the failed sequence was dropped whole
    assert_eq!(e.feed(Key::Char(b'b')), FeedResult::Unmapped);
}

#[test]
fn bound_digit_resolves_instead_of_counting() {
    let mut e = engine_with_normal(vec![(vec![Key::Char(b'0')], Command::EnterNormal)]);
    assert_eq!(e.feed(Key::Char(b'0')), FeedResult::Resolved(Command::EnterNormal, 1));
    assert_eq!(e.count, 0);
}

#[test]
fn modes_have_independent_tables() {
    let mut e = KeymapEngine::new();
    e.normal.bind(vec![Key::Char(b'i')], Command::EnterInsert).unwrap();
    e.insert.bind(vec![Key::Esc], Command::EnterNormal).unwrap();
    assert_eq!(e.feed(Key::Esc), FeedResult::Unmapped);
    assert_eq!(e.feed(Key::Char(b'i')), FeedResult::Resolved(Command::EnterInsert, 1));
    e.set_mode(Mode::Insert);
    assert_eq!(e.feed(Key::Char(b'i')), FeedResult::Unmapped);
    assert_eq!(e.feed(Key::Esc), FeedResult::Resolved(Command::EnterNormal, 1));
}

#[test]
fn binding_an_empty_sequence_is_refused() {
    let mut e = KeymapEngine::new();
    assert_eq!(
        e.normal.bind(vec![], Command::MoveDown),
        Err(BindError::EmptySequence)
    );
}

#[test]
fn binding_a_duplicate_sequence_is_refused() {
    let mut e = KeymapEngine::new();
    e.normal.bind(vec![Key::Char(b'j')], Command::MoveDown).unwrap();
    assert_eq!(
        e.normal.bind(vec![Key::Char(b'j')], Command::MoveUp),
        Err(BindError::DuplicateSequence)
    );
    // a prefix of an existing binding is fine: ambiguity is resolved at
    // dispatch time, only exact duplicates are configuration errors
    assert!(e
        .normal
        .bind(vec![Key::Char(b'j'), Key::Char(b'k')], Command::MoveUp)
        .is_ok());
}

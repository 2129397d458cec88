use brdgme_game::bot::{FuzzStep, FuzzTally};
use brdgme_game::command::{Spec, SpecStore};
use brdgme_game::error::{player_range_output, GameError, ParseError};
use brdgme_game::game::Phase;
use brdgme_game::schema::{Kind, Spec as NamedSpec, Specs};

#[test]
fn example_acquire_command_specs_works() {
    let mut specs = Specs::new("command");
    specs.register(
        "command",
        Kind::OneOf(vec![
            Kind::Chain(vec![
                Kind::token("play").spec().desc("play a tile to the board"),
                Kind::Enum(vec![]).spec().desc("the tile to play"),
            ])
            .into(),
            Kind::Chain(vec![
                Kind::token("buy").spec().desc("buy shares"),
                Kind::integer().spec().desc("the number of shares to buy"),
                Kind::Enum(vec![]).spec().desc("the corporation to buy shares in"),
            ])
            .into(),
        ])
        .into(),
    );
}

#[test]
fn game_it_works() {}

#[test]
fn named_spec_defaults() {
    let s: NamedSpec = Kind::Str.into();
    assert_eq!(s, NamedSpec::default());
    let s = Kind::integer().spec().desc("n");
    assert_eq!(s.min, 1);
    assert_eq!(s.max, Some(1));
    assert_eq!(s.description, Some("n".to_string()));
}

#[test]
fn spec_ids_follow_content() {
    let a = Spec::Chain(vec![Spec::Token("play".to_string()), Spec::Int { min: Some(1), max: None }]);
    let b = Spec::Chain(vec![Spec::Token("play".to_string()), Spec::Int { min: Some(1), max: None }]);
    let c = Spec::Chain(vec![Spec::Token("play".to_string()), Spec::Int { min: Some(2), max: None }]);
    assert_eq!(a.id(), b.id());
    assert_ne!(a.id(), c.id());
    let mut enc = String::new();
    a.encode_into(&mut enc);
    assert_eq!(enc, "C2;T4:playI+1;-");
}

#[test]
fn error_messages() {
    assert_eq!(player_range_output(2, 2), "2");
    assert_eq!(player_range_output(2, 4), "2 to 4");
    assert_eq!(GameError::PlayerCount(2, 4, 5).message(), "not for 5 players, expected 2 to 4");
    assert_eq!(GameError::Internal("x".to_string()).message(), "internal error: x");
    assert_eq!(GameError::NotYourTurn.message(), "not your turn");
    assert_eq!(GameError::Finished.description(), "game is already finished");
    let e = ParseError {
        message: Some("9 is too high".to_string()),
        expected: vec!["a".to_string(), "b".to_string()],
        offset: 3,
    };
    assert_eq!(e.to_message(), "9 is too high, expected a or b");
    assert_eq!(GameError::Parse(e).description(), "parse error");
    let e = ParseError { message: None, expected: vec!["a".to_string()], offset: 0 };
    assert_eq!(e.to_message(), "expected a");
}

#[test]
fn turn_guards() {
    let p = Phase::Active { whose_turn: vec![1, 3], eliminated: vec![2] };
    assert!(!p.is_finished());
    assert_eq!(p.whose_turn(), vec![1, 3]);
    assert_eq!(p.eliminated(), vec![2]);
    assert_eq!(p.winners(), Vec::<usize>::new());
    assert_eq!(p.assert_not_finished(), Ok(()));
    assert_eq!(p.assert_player_turn(3), Ok(()));
    assert_eq!(p.assert_player_turn(2), Err(GameError::NotYourTurn));
    let f = Phase::Finished { winners: vec![0] };
    assert!(f.is_finished());
    assert_eq!(f.winners(), vec![0]);
    assert_eq!(f.whose_turn(), Vec::<usize>::new());
    assert_eq!(f.assert_not_finished(), Err(GameError::Finished));
    assert_eq!(f.assert_player_turn(0), Err(GameError::NotYourTurn));
}

#[test]
fn fuzz_steps_and_tally() {
    let mut t = FuzzTally::new(3);
    assert_eq!(t.next_step(false, &vec![2, 3, 4], &vec![], 4), Ok(FuzzStep::NewGame { player_count: 3 }));
    assert_eq!(t.next_step(true, &vec![2, 3, 4], &vec![0, 1], 5), Ok(FuzzStep::Command { player: 1 }));
    assert!(t.record(&Ok(())));
    assert!(t.record(&Err(GameError::InvalidInput("no".to_string()))));
    assert!(!t.record(&Err(GameError::NotYourTurn)));
    assert!(matches!(t.next_step(true, &vec![2], &vec![], 0), Err(GameError::Internal(_))));
    assert_eq!(t.next_step(true, &vec![2], &vec![0], 0), Ok(FuzzStep::Done));
    assert_eq!(t.status(), "Games: 1\tCommands: 3\tInvalid inputs: 1");
}

#[test]
fn spec_store_merges_by_id() {
    let a = Spec::Token("a".to_string());
    let a_id = a.id();
    let mut store = SpecStore::from_spec(a);
    assert_eq!(store.entry, a_id);
    assert_eq!(store.specs.len(), 1);
    let b = Spec::Token("b".to_string());
    let b_id = b.id();
    store.extend(SpecStore::from_spec(b));
    store.extend(SpecStore::from_spec(Spec::Token("a".to_string())));
    assert_eq!(store.entry, a_id);
    assert_eq!(store.specs.len(), 2);
    assert_eq!(store.specs.get(&b_id), Some(&Spec::Token("b".to_string())));
}

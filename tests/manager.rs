use bingo::config::{GameMode, GameSettings};
use bingo::errors::Error;
use bingo::manager::GameManager;

#[test]
fn manager_it_can_create_game() {
    let mut manager = GameManager::default();
    let game = manager
        .create_game(0, GameMode::NORMAL, GameSettings::default())
        .unwrap();

    assert_eq!(manager.get_game(&game.id()).unwrap().id(), game.id());
}

#[test]
fn it_cannot_create_game() {
    let mut manager = GameManager::default();
    let user = 0u64;

    let game = manager
        .create_game(user, GameMode::NORMAL, GameSettings::default())
        .unwrap();
    let err = manager
        .create_game(user, GameMode::NORMAL, GameSettings::default())
        .unwrap_err();

    assert_eq!(
        Error::OngoingGame {
            game_id: game.id(),
            host: user
        },
        err
    );
}

#[test]
fn manager_it_can_join_game() {
    let mut manager = GameManager::default();
    let user = 0u64;

    let game = manager
        .create_game(0, GameMode::NORMAL, GameSettings::default())
        .unwrap();

    let board = manager.join_game(&game.id(), user).unwrap();

    assert_eq!(user + u64::from(game.id()), board.id);
    assert_eq!(board, manager.join_game(&game.id(), user).unwrap());
}

#[test]
fn it_cannot_join_unknown_game() {
    let mut manager = GameManager::default();

    let err = manager.join_game(&1, 0).unwrap_err();

    assert_eq!(Error::NotFound { game_id: 1 }, err);
}

#[test]
fn another_host_can_still_create() {
    let mut manager = GameManager::new();
    let first = manager
        .create_game(10, GameMode::NORMAL, GameSettings::default())
        .unwrap();
    assert_eq!(
        manager.create_game(10, GameMode::SLOT, GameSettings::default()),
        Err(Error::OngoingGame {
            host: 10,
            game_id: first.id()
        })
    );
    let second = manager
        .create_game(11, GameMode::NORMAL, GameSettings::default())
        .unwrap();
    assert_ne!(first.id(), second.id());
    assert_eq!(second.host(), 11);
    assert!(manager.has_free_id());
}

#[test]
fn join_game_passes_on_capacity_errors() {
    let mut manager = GameManager::new();
    let settings = GameSettings {
        multiple_bingo: false,
        auto_open: false,
        max_player: Some(1),
    };
    let game = manager.create_game(1, GameMode::NORMAL, settings).unwrap();
    let board = manager.join_game(&game.id(), 1).unwrap();
    assert_eq!(manager.join_game(&game.id(), 2), Err(Error::MaxPlayers));
    assert_eq!(manager.join_game(&game.id(), 1).unwrap(), board);
    assert_eq!(manager.get_game(&game.id()).unwrap().participant_count(), 1);
}

#[test]
fn get_game_of_an_unknown_id() {
    let manager = GameManager::new();
    assert!(manager.get_game(&5).is_none());
}

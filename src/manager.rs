//! The registry of all sessions: one running session per host.
use crate::board::{Board, BoardView};
use crate::config::{GameMode, GameSettings};
use crate::errors::Error;
use crate::game::{join_outcome, result_view, Game, GameView};
use std::collections::HashMap;
use vstd::prelude::*;

verus! {

#[derive(Clone, Debug)]
pub struct GameManager {
    games: HashMap<u32, Game>,
    /// The id of the session each host runs.
    hosts: HashMap<u64, u32>,
    /// The id the next session gets.
    next_id: u32,
}

pub struct ManagerView {
    pub games: Map<u32, GameView>,
    pub next_id: u32,
}

impl View for GameManager {
    type V = ManagerView;

    closed spec fn view(&self) -> ManagerView {
        ManagerView { games: self.games@.map_values(|g: Game| g@), next_id: self.next_id }
    }
}

/// Session `id` exists and is run by `host`.
pub open spec fn runs(m: ManagerView, host: u64, id: u32) -> bool {
    m.games.contains_key(id) && m.games[id].host == host
}

/// A session just made: no participants yet.
pub open spec fn new_game_view(id: u32, host: u64, mode: GameMode, settings: GameSettings) -> GameView {
    GameView { id, host, mode, settings, participants: Map::empty() }
}

impl ManagerView {
    /// Each session is well formed and stored under its own id, below `next_id`,
    /// and no two sessions share a host.
    pub open spec fn is_wf(self) -> bool {
        &&& self.games.dom().finite()
        &&& forall|id: u32|
            #[trigger] self.games.contains_key(id) ==> {
                &&& self.games[id].is_wf()
                &&& self.games[id].id == id
                &&& id < self.next_id
            }
        &&& forall|a: u32, b: u32|
            self.games.contains_key(a) && self.games.contains_key(b) && #[trigger] self.games[a].host
                == #[trigger] self.games[b].host ==> a == b
    }
}

impl Default for GameManager {
    fn default() -> (r: GameManager)
        ensures
            r.is_wf(),
            r@.is_wf(),
            r@.games == Map::<u32, GameView>::empty(),
            r@.next_id == 1,
    {
        GameManager::new()
    }
}

/// `r` is what `create_game(host, mode, settings)` gives on registry `m`, `m2`
/// the registry after: a host that runs a session is refused with that
/// session's id; otherwise a session with the next id is made and stored.
pub open spec fn create_outcome(
    m: ManagerView,
    host: u64,
    mode: GameMode,
    settings: GameSettings,
    m2: ManagerView,
    r: Result<GameView, Error>,
) -> bool {
    if exists|id: u32| runs(m, host, id) {
        &&& m2 == m
        &&& r matches Err(Error::OngoingGame { host: h, game_id }) && h == host && runs(
            m,
            host,
            game_id,
        )
    } else {
        let g = new_game_view(m.next_id, host, mode, settings);
        &&& r == Ok::<GameView, Error>(g)
        &&& m2 == ManagerView { games: m.games.insert(m.next_id, g), next_id: (m.next_id + 1) as u32 }
    }
}

/// `r` is what `join_game(game_id, user)` gives on registry `m`, `m2` the
/// registry after: an unknown id is reported; otherwise the session joins the
/// user and nothing else changes.
pub open spec fn join_game_outcome(
    m: ManagerView,
    game_id: u32,
    user: u64,
    m2: ManagerView,
    r: Result<BoardView, Error>,
) -> bool {
    if !m.games.contains_key(game_id) {
        m2 == m && r == Err::<BoardView, Error>(Error::NotFound { game_id })
    } else {
        &&& m2.next_id == m.next_id
        &&& m2.games.contains_key(game_id)
        &&& m2.games == m.games.insert(game_id, m2.games[game_id])
        &&& join_outcome(m.games[game_id], user, m2.games[game_id], r)
    }
}

impl GameManager {
    pub closed spec fn is_wf(&self) -> bool {
        &&& self@.is_wf()
        &&& self.hosts@.dom().finite()
        &&& forall|h: u64|
            #[trigger] self.hosts@.contains_key(h) ==> runs(self@, h, self.hosts@[h])
        &&& forall|id: u32|
            #[trigger] self@.games.contains_key(id) ==> self.hosts@.contains_key(
                self@.games[id].host,
            )
    }

    /// A session can still be given an id of its own.
    pub open spec fn has_free_id_spec(&self) -> bool {
        self@.next_id < u32::MAX
    }

    /// A registry with no sessions.
    pub fn new() -> (r: GameManager)
        ensures
            r.is_wf(),
            r@.is_wf(),
            r@.games == Map::<u32, GameView>::empty(),
            r@.next_id == 1,
    {
        let m = GameManager { games: HashMap::new(), hosts: HashMap::new(), next_id: 1 };
        assert(m@.games =~= Map::<u32, GameView>::empty());
        m
    }

    /// Whether a session can still be given an id of its own.
    pub fn has_free_id(&self) -> (r: bool)
        ensures
            r == self.has_free_id_spec(),
    {
        self.next_id < u32::MAX
    }

    /// A copy of session `game_id`, if there is one.
    pub fn get_game(&self, game_id: &u32) -> (r: Option<Game>)
        ensures
            match r {
                Some(g) => self@.games.contains_key(*game_id) && g@ == self@.games[*game_id],
                None => !self@.games.contains_key(*game_id),
            },
    {
        match self.games.get(game_id) {
            Some(g) => Some(g.snapshot()),
            None => None,
        }
    }

    /// Makes a session for `host`, unless `host` already runs one.
    pub fn create_game(&mut self, host: u64, mode: GameMode, settings: GameSettings) -> (r: Result<
        Game,
        Error,
    >)
        requires
            old(self).is_wf(),
            old(self).has_free_id_spec(),
        ensures
            final(self).is_wf(),
            final(self)@.is_wf(),
            create_outcome(
                old(self)@,
                host,
                mode,
                settings,
                final(self)@,
                match r {
                    Ok(g) => Ok(g@),
                    Err(e) => Err(e),
                },
            ),
    {
        if let Some(game_id) = self.hosts.get(&host) {
            return Err(Error::OngoingGame { host, game_id: *game_id });
        }
        assert forall|id: u32| !runs(self@, host, id) by {
            if runs(self@, host, id) {
                assert(self@.games.contains_key(id));
            }
        }
        let id = self.next_id;
        let stored = Game::new(id, host, mode, settings);
        let game = Game::new(id, host, mode, settings);
        let ghost before = self.games@;
        self.games.insert(id, stored);
        self.hosts.insert(host, id);
        self.next_id = id + 1;
        assert(self@.games =~= before.map_values(|g: Game| g@).insert(id, game@));
        Ok(game)
    }

    /// Joins `user_id` to session `game_id`, issuing a board when the user has none.
    pub fn join_game(&mut self, game_id: &u32, user_id: u64) -> (r: Result<Board, Error>)
        requires
            old(self).is_wf(),
        ensures
            final(self).is_wf(),
            final(self)@.is_wf(),
            join_game_outcome(old(self)@, *game_id, user_id, final(self)@, result_view(r)),
    {
        let ghost before = self.games@;
        let ghost old_view = self@;
        match self.games.remove(game_id) {
            Some(mut game) => {
                assert(before.contains_key(*game_id));
                assert(old_view.games.contains_key(*game_id));
                assert(game@ == old_view.games[*game_id]);
                let r = game.join(user_id);
                self.games.insert(*game_id, game);
                assert(self.games@ =~= before.insert(*game_id, game));
                assert(self@.games =~= before.map_values(|g: Game| g@).insert(*game_id, game@));
                r
            },
            None => {
                assert(self.games@ =~= before);
                Err(Error::NotFound { game_id: *game_id })
            },
        }
    }
}

/// A host runs at most one session: creating a second one is refused with
/// the first one's id, while another host can still create one.
pub proof fn lemma_one_session_per_host(
    m0: ManagerView,
    a: u64,
    b: u64,
    mode: GameMode,
    settings: GameSettings,
    m1: ManagerView,
    r1: Result<GameView, Error>,
    m2: ManagerView,
    r2: Result<GameView, Error>,
    m3: ManagerView,
    r3: Result<GameView, Error>,
)
    requires
        m0.is_wf(),
        forall|id: u32| !runs(m0, a, id),
        forall|id: u32| !runs(m0, b, id),
        a != b,
        create_outcome(m0, a, mode, settings, m1, r1),
        create_outcome(m1, a, mode, settings, m2, r2),
        create_outcome(m2, b, mode, settings, m3, r3),
    ensures
        r1 matches Ok(g) && r2 == Err::<GameView, Error>(
            Error::OngoingGame { host: a, game_id: g.id },
        ),
        r3 is Ok,
{
    let id = m0.next_id;
    assert(runs(m1, a, id));
    assert forall|i: u32| runs(m1, a, i) implies i == id by {
        if i != id {
            assert(runs(m0, a, i));
        }
    }
    assert forall|i: u32| !runs(m2, b, i) by {
        if runs(m2, b, i) && i != id {
            assert(runs(m0, b, i));
        }
    }
}

} // verus!

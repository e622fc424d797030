//! A hosted session and the boards it has issued to its participants.
use crate::board::{is_fresh_board, Board, BoardView};
use crate::config::{GameMode, GameSettings};
use crate::errors::Error;
use std::collections::HashMap;
use vstd::prelude::*;

verus! {

/// Side length of every board a session issues.
pub const BOARD_SIZE: usize = 5;

/// The seed of a participant's board: participant id plus session id, modulo 2^64.
pub open spec fn board_seed(participant: u64, game_id: u32) -> u64 {
    ((participant + game_id) % 0x1_0000_0000_0000_0000int) as u64
}

#[derive(Clone, Debug, PartialEq)]
pub struct Game {
    id: u32,
    host: u64,
    mode: GameMode,
    settings: GameSettings,
    participants: HashMap<u64, Board>,
}

pub struct GameView {
    pub id: u32,
    pub host: u64,
    pub mode: GameMode,
    pub settings: GameSettings,
    pub participants: Map<u64, BoardView>,
}

impl View for Game {
    type V = GameView;

    closed spec fn view(&self) -> GameView {
        GameView {
            id: self.id,
            host: self.host,
            mode: self.mode,
            settings: self.settings,
            participants: self.participants@.map_values(|b: Board| b@),
        }
    }
}

impl GameView {
    /// The session holds as many participants as its settings allow.
    pub open spec fn is_full(self) -> bool {
        match self.settings.max_player {
            Some(m) => self.participants.len() >= m,
            None => false,
        }
    }

    /// Within capacity, and each participant's board is the fresh board of its seed.
    pub open spec fn is_wf(self) -> bool {
        &&& self.participants.dom().finite()
        &&& self.settings.max_player matches Some(m) ==> self.participants.len() <= m
        &&& forall|p: u64|
            self.participants.contains_key(p) ==> is_fresh_board(
                #[trigger] self.participants[p],
                board_seed(p, self.id),
                BOARD_SIZE,
            )
    }

    pub open spec fn with_participant(self, p: u64, b: BoardView) -> GameView {
        GameView { participants: self.participants.insert(p, b), ..self }
    }
}

pub open spec fn result_view(r: Result<Board, Error>) -> Result<BoardView, Error> {
    match r {
        Ok(b) => Ok(b@),
        Err(e) => Err(e),
    }
}

/// `r` is what joining participant `p` to session `g` gives, `g2` the session after:
/// an enrolled participant gets its board back with nothing changed; a full
/// session refuses a newcomer; otherwise the newcomer gets a fresh board of
/// side 5 seeded by `board_seed`, and the session stores it.
pub open spec fn join_outcome(g: GameView, p: u64, g2: GameView, r: Result<BoardView, Error>) -> bool {
    if g.participants.contains_key(p) {
        g2 == g && r == Ok::<BoardView, Error>(g.participants[p])
    } else if g.is_full() {
        g2 == g && r == Err::<BoardView, Error>(Error::MaxPlayers)
    } else {
        &&& r matches Ok(b)
        &&& is_fresh_board(b, board_seed(p, g.id), BOARD_SIZE)
        &&& g2 == g.with_participant(p, b)
    }
}

impl Game {
    pub open spec fn is_wf(&self) -> bool {
        self@.is_wf()
    }

    /// A session with no participants yet.
    pub fn new(id: u32, host: u64, mode: GameMode, settings: GameSettings) -> (r: Game)
        ensures
            r@ == (GameView { id, host, mode, settings, participants: Map::empty() }),
            r.is_wf(),
    {
        let g = Game { id, host, mode, settings, participants: HashMap::new() };
        assert(g@.participants =~= Map::<u64, BoardView>::empty());
        g
    }

    pub fn id(&self) -> (r: u32)
        ensures
            r == self@.id,
    {
        self.id
    }

    pub fn host(&self) -> (r: u64)
        ensures
            r == self@.host,
    {
        self.host
    }

    pub fn mode(&self) -> (r: GameMode)
        ensures
            r == self@.mode,
    {
        self.mode
    }

    pub fn settings(&self) -> (r: GameSettings)
        ensures
            r == self@.settings,
    {
        self.settings
    }

    /// A copy of this session, equal to it in every field.
    pub fn snapshot(&self) -> (r: Game)
        ensures
            r@ == self@,
    {
        Game {
            id: self.id,
            host: self.host,
            mode: self.mode,
            settings: self.settings,
            participants: self.participants.clone(),
        }
    }

    /// Each participant's board.
    pub fn participants(&self) -> (r: HashMap<u64, Board>)
        ensures
            r@.map_values(|b: Board| b@) == self@.participants,
    {
        self.participants.clone()
    }

    /// How many participants hold a board.
    pub fn participant_count(&self) -> (r: usize)
        ensures
            r == self@.participants.len(),
    {
        assert(self@.participants.dom() =~= self.participants@.dom());
        self.participants.len()
    }

    /// The board of participant `id`, issuing one when it has none.
    pub fn join(&mut self, id: u64) -> (r: Result<Board, Error>)
        requires
            old(self).is_wf(),
        ensures
            final(self).is_wf(),
            join_outcome(old(self)@, id, final(self)@, result_view(r)),
    {
        assert(self@.participants.dom() =~= self.participants@.dom());
        if let Some(board) = self.participants.get(&id) {
            return Ok(board.snapshot());
        }
        if let Some(max) = self.settings.max_player {
            if self.participants.len() >= max {
                return Err(Error::MaxPlayers);
            }
        }
        match Board::new(id.wrapping_add(self.id as u64), BOARD_SIZE) {
            Ok(board) => {
                let stored = board.snapshot();
                let ghost before = self.participants@;
                self.participants.insert(id, stored);
                assert(self@.participants =~= before.map_values(|b: Board| b@).insert(id, board@));
                Ok(board)
            },
            // Never taken: generation refuses only sizes other than BOARD_SIZE.
            Err(_) => Err(Error::BoardGenerationError),
        }
    }
}

/// Joining twice gives the same board both times and leaves the session as
/// the first join left it.
pub proof fn lemma_join_idempotent(
    g0: GameView,
    p: u64,
    g1: GameView,
    r1: Result<BoardView, Error>,
    g2: GameView,
    r2: Result<BoardView, Error>,
)
    requires
        g0.is_wf(),
        join_outcome(g0, p, g1, r1),
        join_outcome(g1, p, g2, r2),
        r1 is Ok,
    ensures
        r2 == r1,
        g2 == g1,
{
    if !g0.participants.contains_key(p) {
        assert(g1.participants.contains_key(p));
    }
}

/// In a session that takes one participant, the first to join is served, a
/// second participant is refused, and the first joining again gets its board back.
pub proof fn lemma_single_seat(
    g0: GameView,
    a: u64,
    g1: GameView,
    r1: Result<BoardView, Error>,
    b: u64,
    g2: GameView,
    r2: Result<BoardView, Error>,
    g3: GameView,
    r3: Result<BoardView, Error>,
)
    requires
        g0.is_wf(),
        g0.settings.max_player == Some(1usize),
        g0.participants.len() == 0,
        a != b,
        join_outcome(g0, a, g1, r1),
        join_outcome(g1, b, g2, r2),
        join_outcome(g2, a, g3, r3),
    ensures
        r1 is Ok,
        r2 == Err::<BoardView, Error>(Error::MaxPlayers),
        r3 == r1,
{
    assert(!g0.participants.contains_key(a));
    assert(g1.participants.dom() =~= g0.participants.dom().insert(a));
    assert(g1.participants.len() == 1);
    assert(!g1.participants.contains_key(b));
    assert(g1.participants.contains_key(a));
}

} // verus!

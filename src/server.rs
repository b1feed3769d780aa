use vstd::prelude::*;

use crate::action::{apply_to, Action, ActionEvent};
use crate::arena::{strike_of, Arena, ArenaView, Strike};
use crate::dictionary::Dictionary;
use crate::letters::Letter;
use crate::side::PlayerSide;
use crate::world::{
    lemma_game_unique, lemma_lobby_indices, lemma_matchmade_wf, lemma_ticked_wf,
    lemma_with_game_wf, lemma_without_player_wf, plus_one,
};
pub use crate::world::{GameView, IngestError, Player, ServerView, SpawnError};

verus! {

/// One match: its entity, its two players and its arena, with the action
/// buffered for each side until the next tick.
#[derive(Clone, Debug)]
pub struct Game {
    entity: u64,
    left: u64,
    right: u64,
    arena: Arena,
    pending_left: Option<Action>,
    pending_right: Option<Action>,
}

impl View for Game {
    type V = GameView;

    closed spec fn view(&self) -> GameView {
        GameView {
            entity: self.entity,
            left: self.left,
            right: self.right,
            arena: self.arena@,
            pending_left: self.pending_left,
            pending_right: self.pending_right,
        }
    }
}

impl Game {
    /// A match between `left` and `right` with an empty arena of
    /// `arena_size` and nothing buffered.
    pub fn new(entity: u64, left: u64, right: u64, arena_size: usize) -> (r: Game)
        ensures
            r@ == (GameView {
                entity,
                left,
                right,
                arena: ArenaView {
                    size: arena_size as nat,
                    left: Seq::<Letter>::empty(),
                    right: Seq::<Letter>::empty(),
                },
                pending_left: None,
                pending_right: None,
            }),
    {
        Game { entity, left, right, arena: Arena::new(arena_size), pending_left: None, pending_right: None }
    }

    pub fn entity(&self) -> (r: u64)
        ensures
            r == self@.entity,
    {
        self.entity
    }

    /// The player entity on the given side.
    pub fn player(&self, side: PlayerSide) -> (r: u64)
        ensures
            r == self@.member(side),
    {
        match side {
            PlayerSide::Left => self.left,
            PlayerSide::Right => self.right,
        }
    }

    pub fn arena(&self) -> (r: &Arena)
        ensures
            r@ == self@.arena,
    {
        &self.arena
    }

    /// Buffers `action` for `side` until the next tick; a later action for
    /// the same side replaces it.
    pub fn set_pending(&mut self, side: PlayerSide, action: Action)
        ensures
            final(self)@ == old(self)@.with_pending(side, action),
    {
        match side {
            PlayerSide::Left => self.pending_left = Some(action),
            PlayerSide::Right => self.pending_right = Some(action),
        }
    }

    /// One tick: when an action is buffered, resolves the buffered actions
    /// in the arena and empties the buffers; otherwise changes nothing.
    /// Returns the strike, if one happened.
    pub fn tick(&mut self) -> (r: Option<Strike>)
        ensures
            r == old(self)@.tick_strike(),
            final(self)@ == old(self)@.ticked(),
    {
        if self.pending_left.is_none() && self.pending_right.is_none() {
            return None;
        }
        let r = self.arena.resolve([self.pending_left, self.pending_right]);
        self.pending_left = None;
        self.pending_right = None;
        proof {
            assert(self@.arena =~= old(self)@.resolved().arena);
        }
        r
    }
}

/// The authoritative state of one server: connected players and live matches.
pub struct Server {
    players: Vec<Player>,
    games: Vec<Game>,
    next_entity: u64,
    arena_size: usize,
    dictionary: Option<Dictionary>,
}

impl View for Server {
    type V = ServerView;

    closed spec fn view(&self) -> ServerView {
        ServerView {
            players: self.players@,
            games: self.games@.map_values(|g: Game| g@),
            next_entity: self.next_entity,
            arena_size: self.arena_size,
            dictionary: match self.dictionary {
                Some(d) => Some(d@),
                None => None,
            },
        }
    }
}

impl Server {
    /// A server with no players, whose matches use arenas of `arena_size`.
    pub fn new(arena_size: usize) -> (r: Server)
        ensures
            r@.wf(),
            r@.players == Seq::<Player>::empty(),
            r@.games == Seq::<GameView>::empty(),
            r@.arena_size == arena_size,
            r@.dictionary is None,
    {
        let r = Server {
            players: Vec::new(),
            games: Vec::new(),
            next_entity: 0,
            arena_size,
            dictionary: None,
        };
        assert(r@.games =~= Seq::<GameView>::empty());
        r
    }

    /// A server like `new`, which also drops every `Append` whose word the
    /// dictionary does not begin.
    pub fn with_dictionary(arena_size: usize, dictionary: Dictionary) -> (r: Server)
        ensures
            r@.wf(),
            r@.players == Seq::<Player>::empty(),
            r@.games == Seq::<GameView>::empty(),
            r@.arena_size == arena_size,
            r@.dictionary == Some(dictionary@),
    {
        let r = Server {
            players: Vec::new(),
            games: Vec::new(),
            next_entity: 0,
            arena_size,
            dictionary: Some(dictionary),
        };
        assert(r@.games =~= Seq::<GameView>::empty());
        r
    }

    pub fn arena_size(&self) -> (r: usize)
        ensures
            r == self@.arena_size,
    {
        self.arena_size
    }

    /// The entity the next spawned player or match will get.
    pub fn next_entity(&self) -> (r: u64)
        ensures
            r == self@.next_entity,
    {
        self.next_entity
    }

    pub fn players(&self) -> (r: &Vec<Player>)
        ensures
            r@ == self@.players,
    {
        &self.players
    }

    pub fn games(&self) -> (r: &Vec<Game>)
        ensures
            r@.map_values(|g: Game| g@) == self@.games,
    {
        &self.games
    }

    /// Index of the player with entity `e`.
    pub fn find_player(&self, e: u64) -> (r: Option<usize>)
        ensures
            match r {
                Some(k) => k < self@.players.len() && self@.players[k as int].entity == e,
                None => !self@.has_player(e),
            },
    {
        let mut k: usize = 0;
        while k < self.players.len()
            invariant
                k <= self.players@.len(),
                forall|i: int| 0 <= i < k ==> self.players@[i].entity != e,
            decreases self.players@.len() - k,
        {
            if self.players[k].entity == e {
                return Some(k);
            }
            k = k + 1;
        }
        None
    }

    /// Checks an action that connection `sender` sent and, when it passes,
    /// buffers it for the actor's match and side. It passes only if the
    /// sender owns the claimed actor, the actor is in a match on the claimed
    /// side, and, with a dictionary, an appended letter still begins a word.
    /// A dropped action changes nothing.
    pub fn submit(&mut self, sender: u64, event: ActionEvent) -> (r: Result<(), IngestError>)
        requires
            old(self)@.wf(),
        ensures
            r == old(self)@.ingest_result(sender, event),
            final(self)@ == if r is Ok {
                old(self)@.ingested(event)
            } else {
                old(self)@
            },
            final(self)@.wf(),
    {
        let ghost s = self@;
        let k = match self.find_player(event.actor) {
            Some(k) => k,
            None => {
                return Err(IngestError::PlayerNotFound);
            },
        };
        proof {
            let c = choose|c: int| 0 <= c < s.players.len() && s.players[c].entity == event.actor;
            assert(c == k);
        }
        if self.players[k].client != sender {
            return Err(IngestError::Unauthorized);
        }
        let j = match self.find_game_of(event.actor) {
            Some(j) => j,
            None => {
                return Err(IngestError::MatchNotFound);
            },
        };
        proof {
            lemma_game_unique(s, event.actor, j as int);
        }
        let side = if self.games[j].left == event.actor {
            PlayerSide::Left
        } else {
            PlayerSide::Right
        };
        if side != event.side {
            return Err(IngestError::Unauthorized);
        }
        match (event.action, &self.dictionary) {
            (Action::Append(l), Some(d)) => {
                let mut candidate = self.games[j].arena.word(side).letters().clone();
                candidate.push(l);
                if !d.accepts(&candidate) {
                    return Err(IngestError::InvalidAppend);
                }
            },
            _ => {},
        }
        let mut g = self.games.remove(j);
        g.set_pending(side, event.action);
        self.games.insert(j, g);
        proof {
            assert(self@.games =~= s.games.update(j as int, s.games[j as int].with_pending(side, event.action)));
            let t = self@;
            assert(forall|a: int| 0 <= a < t.games.len() && a != j ==> t.games[a] == s.games[a]);
            assert(forall|a: int| 0 <= a < t.games.len() ==> (#[trigger] t.games[a]).entity == s.games[a].entity && t.games[a].left == s.games[a].left && t.games[a].right == s.games[a].right);
            assert(t.players == s.players);
            assert(t.ids_wf());
            assert forall|a: int| 0 <= a < t.games.len() implies t.has_player(
                #[trigger] t.games[a].left,
            ) && t.has_player(t.games[a].right) by {
                assert(s.has_player(s.games[a].left));
                assert(s.has_player(s.games[a].right));
            }
            assert forall|a: int, b: int|
                0 <= a < t.games.len() && 0 <= b < t.games.len() && a != b implies !t.games[b].has_member(
                t.games[a].left,
            ) && !t.games[b].has_member(t.games[a].right) by {
                assert(s.games[a].left == t.games[a].left);
                assert(s.games[b].left == t.games[b].left);
                assert(s.games[a].right == t.games[a].right);
                assert(s.games[b].right == t.games[b].right);
            }
        }
        Ok(())
    }

    /// One simulation tick: every match applies both of its buffered actions
    /// and only then evaluates its strike; on a strike both words empty, and
    /// on a point the winner's score rises by one. Returns each match's
    /// strike, in the order of the matches.
    pub fn tick(&mut self) -> (r: Vec<Option<Strike>>)
        requires
            old(self)@.wf(),
        ensures
            final(self)@ == old(self)@.ticked(),
            final(self)@.wf(),
            r@.len() == old(self)@.games.len(),
            forall|j: int| 0 <= j < r@.len() ==> r@[j] == (#[trigger] old(self)@.games[j]).tick_strike(),
    {
        let ghost s = self@;
        let mut strikes: Vec<Option<Strike>> = Vec::new();
        let mut j: usize = 0;
        while j < self.games.len()
            invariant
                s.wf(),
                self@.games.len() == s.games.len(),
                self@.players.len() == s.players.len(),
                self@.next_entity == s.next_entity,
                self@.arena_size == s.arena_size,
                self@.dictionary == s.dictionary,
                j <= s.games.len(),
                strikes@.len() == j,
                forall|a: int| 0 <= a < j ==> strikes@[a] == (#[trigger] s.games[a]).tick_strike(),
                forall|a: int| 0 <= a < j ==> self@.games[a] == (#[trigger] s.games[a]).ticked(),
                forall|a: int| j <= a < s.games.len() ==> self@.games[a] == #[trigger] s.games[a],
                forall|k: int|
                    0 <= k < s.players.len() ==> self@.players[k] == if s.wins_in_first(
                        (#[trigger] s.players[k]).entity,
                        j as int,
                    ) {
                        Player { score: plus_one(s.players[k].score), ..s.players[k] }
                    } else {
                        s.players[k]
                    },
            decreases s.games.len() - j,
        {
            let ghost before = self@;
            let mut g = self.games.remove(j);
            let strike = g.tick();
            let winner = match strike {
                Some(Strike::Point(side)) => Some(g.player(side)),
                _ => None,
            };
            self.games.insert(j, g);
            assert(self@.games =~= before.games.update(j as int, s.games[j as int].ticked()));
            let ghost gj = s.games[j as int];
            proof {
                assert forall|e: u64| #[trigger] gj.awards(e) implies winner == Some(e) by {}
                assert forall|e: u64| s.wins_in_first(e, j as int) implies !gj.has_member(e) by {
                    let a = choose|a: int| 0 <= a < j && a < s.games.len() && (#[trigger] s.games[a]).awards(e);
                    assert(s.games[a].has_member(e));
                    if gj.has_member(e) {
                        assert(!s.games[j as int].has_member(s.games[a].left));
                        assert(!s.games[j as int].has_member(s.games[a].right));
                    }
                }
                assert forall|e: u64| s.wins_in_first(e, j + 1) == (s.wins_in_first(e, j as int) || gj.awards(e)) by {
                    if s.wins_in_first(e, j + 1) && !s.wins_in_first(e, j as int) {
                        let a = choose|a: int| 0 <= a < j + 1 && a < s.games.len() && (#[trigger] s.games[a]).awards(e);
                        assert(a == j);
                    }
                    if gj.awards(e) {
                        assert(s.games[j as int].awards(e));
                    }
                }
            }
            match winner {
                Some(w) => {
                    proof {
                        assert(gj.has_member(w));
                        assert(s.has_player(gj.left));
                        assert(s.has_player(gj.right));
                    }
                    match self.find_player(w) {
                        Some(k) => {
                            let p = self.players[k];
                            let score = if p.score < usize::MAX {
                                p.score + 1
                            } else {
                                p.score
                            };
                            self.players[k] = Player { score, ..p };
                            proof {
                                assert(s.players[k as int].entity == w);
                                assert forall|c: int| 0 <= c < s.players.len() && c != k implies s.players[c].entity != w by {
                                    if c < k {
                                        assert(s.players[c].entity != s.players[k as int].entity);
                                    } else {
                                        assert(s.players[k as int].entity != s.players[c].entity);
                                    }
                                }
                            }
                        },
                        None => {
                            proof {
                                let c = choose|c: int| 0 <= c < s.players.len() && s.players[c].entity == w;
                                assert(self@.players[c].entity == w);
                            }
                        },
                    }
                },
                None => {},
            }
            strikes.push(strike);
            j = j + 1;
        }
        proof {
            lemma_ticked_wf(s);
            assert(self@.games =~= s.ticked().games);
            assert(self@.players =~= s.ticked().players);
        }
        strikes
    }

    /// Pairs the players waiting in the lobby two at a time, in connection
    /// order, each pair in a new match with a fresh arena: the first of a pair
    /// plays left, the second right. An odd one out keeps waiting. Returns the
    /// new matches' entities.
    pub fn matchmake(&mut self) -> (r: Vec<u64>)
        requires
            old(self)@.wf(),
            old(self)@.next_entity + old(self)@.players.len() <= u64::MAX,
        ensures
            final(self)@ == old(self)@.matchmade(),
            final(self)@.wf(),
            r@ == Seq::new(
                (old(self)@.lobby().len() / 2) as nat,
                |i: int| (old(self)@.next_entity + i) as u64,
            ),
    {
        let ghost s = self@;
        let mut lobby: Vec<u64> = Vec::new();
        let mut k: usize = 0;
        proof {
            lemma_lobby_indices(s, s.players.len() as int);
        }
        while k < self.players.len()
            invariant
                self@ == s,
                k <= s.players.len(),
                lobby@ == s.lobby_indices(k as int).map_values(|i: int| s.players[i].entity),
            decreases s.players.len() - k,
        {
            let e = self.players[k].entity;
            if self.find_game_of(e).is_none() {
                lobby.push(e);
            }
            k = k + 1;
            assert(lobby@ =~= s.lobby_indices(k as int).map_values(|i: int| s.players[i].entity));
        }
        let total = lobby.len();
        let pairs = total / 2;
        let mut spawned: Vec<u64> = Vec::new();
        let mut i: usize = 0;
        proof {
            lemma_lobby_indices(s, s.players.len() as int);
        }
        while i < pairs
            invariant
                pairs == s.lobby().len() / 2,
                lobby@ == s.lobby().map_values(|i: int| s.players[i].entity),
                lobby@.len() == s.lobby().len(),
                lobby@.len() == total,
                s.lobby().len() <= s.players.len(),
                s.next_entity + s.players.len() <= u64::MAX,
                i <= pairs,
                self@.players == s.players,
                self@.arena_size == s.arena_size,
                self@.dictionary == s.dictionary,
                self@.next_entity == s.next_entity + i,
                self@.games == s.games + Seq::new(i as nat, |a: int| s.paired_game(a)),
                spawned@ == Seq::new(i as nat, |a: int| (s.next_entity + a) as u64),
            decreases pairs - i,
        {
            let e = self.next_entity;
            assert(2 * (i as int) + 1 < lobby@.len()) by (nonlinear_arith)
                requires
                    i < pairs,
                    pairs == lobby@.len() / 2,
            ;
            let g = Game::new(e, lobby[2 * i], lobby[2 * i + 1], self.arena_size);
            assert(g@ == s.paired_game(i as int));
            let ghost prev = self.games@;
            self.games.push(g);
            assert(self.games@.map_values(|g: Game| g@) =~= prev.map_values(|g: Game| g@).push(
                s.paired_game(i as int),
            ));
            spawned.push(e);
            self.next_entity = e + 1;
            i = i + 1;
            assert(self@.games =~= s.games + Seq::new(i as nat, |a: int| s.paired_game(a)));
            assert(spawned@ =~= Seq::new(i as nat, |a: int| (s.next_entity + a) as u64));
        }
        proof {
            lemma_matchmade_wf(s);
            assert(self@ =~= s.matchmade());
        }
        spawned
    }

    /// Puts two lobby players into a new match, atomically: the match, its
    /// empty arena of `arena_size`, and both memberships appear together,
    /// `left` playing left. Returns the match's entity.
    pub fn spawn_game(&mut self, arena_size: usize, left: u64, right: u64) -> (r: Result<
        u64,
        SpawnError,
    >)
        requires
            old(self)@.wf(),
            old(self)@.next_entity < u64::MAX,
        ensures
            r == old(self)@.spawn_result(left, right),
            final(self)@ == if r is Ok {
                old(self)@.with_game(left, right, arena_size)
            } else {
                old(self)@
            },
            final(self)@.wf(),
    {
        if self.find_player(left).is_none() || self.find_player(right).is_none() {
            return Err(SpawnError::PlayerNotFound);
        }
        if left == right {
            return Err(SpawnError::SamePlayer);
        }
        if self.find_game_of(left).is_some() || self.find_game_of(right).is_some() {
            return Err(SpawnError::AlreadyInMatch);
        }
        let ghost s = self@;
        let e = self.next_entity;
        let g = Game::new(e, left, right, arena_size);
        let ghost prev = self.games@;
        self.games.push(g);
        self.next_entity = e + 1;
        proof {
            assert(self.games@.map_values(|g: Game| g@) =~= prev.map_values(|g: Game| g@).push(g@));
            lemma_with_game_wf(s, left, right, arena_size);
            assert(self@ =~= s.with_game(left, right, arena_size));
        }
        Ok(e)
    }

    /// The first player owned by connection `client`, with its side, when
    /// that player is in a match; `None` otherwise.
    pub fn get_my_player(&self, client: u64) -> (r: Option<(u64, PlayerSide)>)
        requires
            self@.wf(),
        ensures
            match r {
                Some((e, side)) => exists|i: int|
                    0 <= i < self@.players.len() && self@.players[i].client == client && (forall|
                        k: int,
                    | 0 <= k < i ==> self@.players[k].client != client) && self@.players[i].entity
                        == e && self@.matched(e) && side == self@.games[self@.game_index_of(
                        e,
                    )].side_of(e),
                None => forall|i: int|
                    0 <= i < self@.players.len() && self@.players[i].client == client && (forall|
                        k: int,
                    | 0 <= k < i ==> self@.players[k].client != client) ==> !self@.matched(
                        self@.players[i].entity,
                    ),
            },
    {
        let i = match self.find_client(client) {
            Some(i) => i,
            None => {
                return None;
            },
        };
        let e = self.players[i].entity;
        match self.find_game_of(e) {
            Some(j) => {
                proof {
                    lemma_game_unique(self@, e, j as int);
                }
                let side = if self.games[j].left == e {
                    PlayerSide::Left
                } else {
                    PlayerSide::Right
                };
                Some((e, side))
            },
            None => {
                proof {
                    assert forall|c: int|
                        0 <= c < self@.players.len() && self@.players[c].client == client && (forall|
                            k: int,
                        | 0 <= k < c ==> self@.players[k].client != client) implies !self@.matched(
                        self@.players[c].entity,
                    ) by {
                        if c < i {
                        } else if c > i {
                        }
                    }
                }
                None
            },
        }
    }

    /// Index of the first player owned by connection `client`.
    pub fn find_client(&self, client: u64) -> (r: Option<usize>)
        ensures
            match r {
                Some(i) => i < self@.players.len() && self@.players[i as int].client == client
                    && forall|k: int| 0 <= k < i ==> self@.players[k].client != client,
                None => forall|k: int|
                    0 <= k < self@.players.len() ==> self@.players[k].client != client,
            },
    {
        let mut k: usize = 0;
        while k < self.players.len()
            invariant
                k <= self.players@.len(),
                forall|i: int| 0 <= i < k ==> self.players@[i].client != client,
            decreases self.players@.len() - k,
        {
            if self.players[k].client == client {
                return Some(k);
            }
            k = k + 1;
        }
        None
    }

    /// Index of the match that player `e` belongs to.
    pub fn find_game_of(&self, e: u64) -> (r: Option<usize>)
        ensures
            match r {
                Some(j) => self@.in_game(e, j as int),
                None => !self@.matched(e),
            },
    {
        let mut j: usize = 0;
        while j < self.games.len()
            invariant
                j <= self.games@.len(),
                forall|i: int| 0 <= i < j ==> !self@.in_game(e, i),
            decreases self.games@.len() - j,
        {
            if self.games[j].left == e || self.games[j].right == e {
                return Some(j);
            }
            j = j + 1;
        }
        None
    }

    /// Index of the match whose entity is `e`.
    pub fn find_game(&self, e: u64) -> (r: Option<usize>)
        ensures
            match r {
                Some(j) => j < self@.games.len() && self@.games[j as int].entity == e,
                None => !self@.has_game(e),
            },
    {
        let mut j: usize = 0;
        while j < self.games.len()
            invariant
                j <= self.games@.len(),
                forall|i: int| 0 <= i < j ==> self@.games[i].entity != e,
            decreases self.games@.len() - j,
        {
            if self.games[j].entity == e {
                return Some(j);
            }
            j = j + 1;
        }
        None
    }

    /// A new connection: spawns its player in the lobby with score 0 and
    /// returns the player's entity.
    pub fn connect(&mut self, client: u64) -> (r: u64)
        requires
            old(self)@.wf(),
            old(self)@.next_entity < u64::MAX,
        ensures
            final(self)@.wf(),
            r == old(self)@.next_entity,
            final(self)@.players == old(self)@.players.push(Player { entity: r, client, score: 0 }),
            final(self)@.games == old(self)@.games,
            final(self)@.next_entity == r + 1,
            final(self)@.arena_size == old(self)@.arena_size,
    {
        let e = self.next_entity;
        self.players.push(Player { entity: e, client, score: 0 });
        self.next_entity = e + 1;
        let ghost s = self@;
        assert forall|j: int| 0 <= j < s.games.len() implies s.has_player(
            #[trigger] s.games[j].left,
        ) && s.has_player(s.games[j].right) by {
            let o = old(self)@;
            assert(o.has_player(o.games[j].left));
            assert(o.has_player(o.games[j].right));
            let a = choose|k: int| 0 <= k < o.players.len() && o.players[k].entity == o.games[j].left;
            let b = choose|k: int| 0 <= k < o.players.len() && o.players[k].entity == o.games[j].right;
            assert(s.players[a] == o.players[a]);
            assert(s.players[b] == o.players[b]);
        }
        assert(s.games == old(self)@.games);
        assert(forall|k: int|
            0 <= k < old(self)@.players.len() ==> s.players[k] == old(self)@.players[k]);
        assert(s.players[s.players.len() - 1].entity == e);
        assert(s.ids_wf());
        assert(s.membership_wf());
        e
    }

    /// A connection drops: the first player it owns is removed, and the
    /// match that player was in is torn down at once, its partner going back
    /// to the lobby. Returns the removed player's entity; `None`, with nothing
    /// changed, when the connection owns no player.
    pub fn disconnect(&mut self, client: u64) -> (r: Option<u64>)
        requires
            old(self)@.wf(),
        ensures
            final(self)@.wf(),
            match r {
                None => final(self)@ == old(self)@ && forall|k: int|
                    0 <= k < old(self)@.players.len() ==> old(self)@.players[k].client != client,
                Some(e) => exists|i: int|
                    0 <= i < old(self)@.players.len() && old(self)@.players[i].client == client
                        && (forall|k: int| 0 <= k < i ==> old(self)@.players[k].client != client)
                        && old(self)@.players[i].entity == e && final(self)@ == old(
                        self,
                    )@.without_player(i),
            },
    {
        let i = match self.find_client(client) {
            Some(i) => i,
            None => {
                return None;
            },
        };
        let ghost s = self@;
        let e = self.players[i].entity;
        proof {
            lemma_without_player_wf(s, i as int);
        }
        match self.find_game_of(e) {
            Some(j) => {
                proof {
                    lemma_game_unique(s, e, j as int);
                }
                let ghost before = self.games@;
                self.games.remove(j);
                assert(self.games@.map_values(|g: Game| g@) =~= before.map_values(|g: Game| g@).remove(
                    j as int,
                ));
            },
            None => {},
        }
        self.players.remove(i);
        assert(self@ == s.without_player(i as int));
        Some(e)
    }
}

} // verus!

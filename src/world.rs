use vstd::prelude::*;

use crate::action::{apply_to, Action, ActionEvent};
use crate::arena::{strike_of, ArenaView, Strike};
use crate::dictionary::{lower_spelling, starts_some};
use crate::letters::Letter;
use crate::side::PlayerSide;

verus! {

/// A connected player: its entity, the connection that owns it, and its score.
#[derive(Clone, Copy, Debug, PartialEq, Eq, Structural)]
pub struct Player {
    pub entity: u64,
    pub client: u64,
    pub score: usize,
}

/// A match as values.
pub ghost struct GameView {
    pub entity: u64,
    pub left: u64,
    pub right: u64,
    pub arena: ArenaView,
    pub pending_left: Option<Action>,
    pub pending_right: Option<Action>,
}

impl GameView {
    pub open spec fn has_member(self, e: u64) -> bool {
        self.left == e || self.right == e
    }

    pub open spec fn member(self, side: PlayerSide) -> u64 {
        match side {
            PlayerSide::Left => self.left,
            PlayerSide::Right => self.right,
        }
    }

    /// The side a member plays on.
    pub open spec fn side_of(self, e: u64) -> PlayerSide {
        if self.left == e {
            PlayerSide::Left
        } else {
            PlayerSide::Right
        }
    }

    pub open spec fn pending(self, side: PlayerSide) -> Option<Action> {
        match side {
            PlayerSide::Left => self.pending_left,
            PlayerSide::Right => self.pending_right,
        }
    }

    /// The strike that the next tick decides for this match, if any.
    /// A match is evaluated only on a tick that has a buffered action.
    pub open spec fn tick_strike(self) -> Option<Strike> {
        if self.pending_left is None && self.pending_right is None {
            None
        } else {
            strike_of(
                self.arena.size,
                apply_to(self.arena.left, self.pending_left),
                apply_to(self.arena.right, self.pending_right),
            )
        }
    }

    /// The match after one tick: without a buffered action nothing changes;
    /// otherwise both buffered actions are applied, the words emptied if
    /// they struck, and the buffers emptied.
    pub open spec fn ticked(self) -> GameView {
        if self.pending_left is None && self.pending_right is None {
            self
        } else {
            self.resolved()
        }
    }

    /// The match once its buffered actions are applied and evaluated.
    pub open spec fn resolved(self) -> GameView {
        let left = apply_to(self.arena.left, self.pending_left);
        let right = apply_to(self.arena.right, self.pending_right);
        GameView {
            arena: if strike_of(self.arena.size, left, right) is Some {
                ArenaView {
                    size: self.arena.size,
                    left: Seq::<Letter>::empty(),
                    right: Seq::<Letter>::empty(),
                }
            } else {
                ArenaView { size: self.arena.size, left, right }
            },
            pending_left: None,
            pending_right: None,
            ..self
        }
    }

    /// The match with `action` buffered for `side`, replacing what was there.
    pub open spec fn with_pending(self, side: PlayerSide, action: Action) -> GameView {
        match side {
            PlayerSide::Left => GameView { pending_left: Some(action), ..self },
            PlayerSide::Right => GameView { pending_right: Some(action), ..self },
        }
    }

    /// Whether the next tick gives the member `e` a point.
    pub open spec fn awards(self, e: u64) -> bool {
        self.has_member(e) && self.tick_strike() == Some(Strike::Point(self.side_of(e)))
    }
}

/// The whole server state as values.
pub ghost struct ServerView {
    pub players: Seq<Player>,
    pub games: Seq<GameView>,
    pub next_entity: u64,
    pub arena_size: usize,
    pub dictionary: Option<Seq<Seq<char>>>,
}

/// Why an incoming action was dropped.
#[derive(Clone, Copy, Debug, PartialEq, Eq, Structural)]
pub enum IngestError {
    /// No connected player has the claimed entity.
    PlayerNotFound,
    /// The sender does not own the claimed player, or the player is not on
    /// the claimed side.
    Unauthorized,
    /// The claimed player is in no live match.
    MatchNotFound,
    /// The dictionary knows no word that the appended letter would begin.
    InvalidAppend,
}

/// Why two players could not be put into a new match.
#[derive(Clone, Copy, Debug, PartialEq, Eq, Structural)]
pub enum SpawnError {
    /// One of the two entities is no connected player.
    PlayerNotFound,
    /// Both entities are the same player.
    SamePlayer,
    /// One of the two players is already in a match.
    AlreadyInMatch,
}

/// A score raised by one point, staying at the largest value once there.
pub open spec fn plus_one(score: usize) -> usize {
    if score < usize::MAX {
        (score + 1) as usize
    } else {
        score
    }
}

impl ServerView {
    pub open spec fn has_player(self, e: u64) -> bool {
        exists|k: int| 0 <= k < self.players.len() && self.players[k].entity == e
    }

    pub open spec fn has_game(self, e: u64) -> bool {
        exists|j: int| 0 <= j < self.games.len() && self.games[j].entity == e
    }

    /// Player `e` belongs to the match at index `j`.
    pub open spec fn in_game(self, e: u64, j: int) -> bool {
        0 <= j < self.games.len() && self.games[j].has_member(e)
    }

    /// Player `e` belongs to some match (otherwise it is in the lobby).
    pub open spec fn matched(self, e: u64) -> bool {
        exists|j: int| self.in_game(e, j)
    }

    /// Entity identifiers are unique and below the next one to hand out.
    pub open spec fn ids_wf(self) -> bool {
        &&& forall|a: int, b: int|
            0 <= a < b < self.players.len() ==> self.players[a].entity != self.players[b].entity
        &&& forall|a: int, b: int|
            0 <= a < b < self.games.len() ==> self.games[a].entity != self.games[b].entity
        &&& forall|k: int| 0 <= k < self.players.len() ==> self.players[k].entity < self.next_entity
        &&& forall|j: int| 0 <= j < self.games.len() ==> self.games[j].entity < self.next_entity
        &&& forall|k: int, j: int|
            0 <= k < self.players.len() && 0 <= j < self.games.len() ==> self.players[k].entity
                != self.games[j].entity
    }

    /// Every match has two distinct connected players, and no player is in
    /// two matches.
    pub open spec fn membership_wf(self) -> bool {
        &&& forall|j: int| 0 <= j < self.games.len() ==> self.games[j].left != self.games[j].right
        &&& forall|j: int|
            0 <= j < self.games.len() ==> self.has_player(#[trigger] self.games[j].left)
                && self.has_player(self.games[j].right)
        &&& forall|a: int, b: int|
            #![trigger self.games[a], self.games[b]]
            0 <= a < self.games.len() && 0 <= b < self.games.len() && a != b
                ==> !self.games[b].has_member(self.games[a].left)
                && !self.games[b].has_member(self.games[a].right)
    }

    pub open spec fn wf(self) -> bool {
        self.ids_wf() && self.membership_wf()
    }

    /// The player whose entity is `e` (meaningful when `has_player(e)`).
    pub open spec fn player(self, e: u64) -> Player {
        self.players[choose|k: int| 0 <= k < self.players.len() && self.players[k].entity == e]
    }

    /// Whether the next tick gives player `e` a point.
    pub open spec fn wins_next_tick(self, e: u64) -> bool {
        self.wins_in_first(e, self.games.len() as int)
    }

    /// Whether one of the first `n` matches gives player `e` a point next tick.
    pub open spec fn wins_in_first(self, e: u64, n: int) -> bool {
        exists|j: int| 0 <= j < n && j < self.games.len() && (#[trigger] self.games[j]).awards(e)
    }

    /// The state after one tick of every match, scores updated.
    pub open spec fn ticked(self) -> ServerView {
        ServerView {
            players: self.players.map_values(
                |p: Player|
                    if self.wins_next_tick(p.entity) {
                        Player { score: plus_one(p.score), ..p }
                    } else {
                        p
                    },
            ),
            games: self.games.map_values(|g: GameView| g.ticked()),
            ..self
        }
    }

    /// Indices, in connection order, of the first `n` players that are in
    /// no match.
    pub open spec fn lobby_indices(self, n: int) -> Seq<int>
        decreases n,
    {
        if n <= 0 {
            Seq::<int>::empty()
        } else if !self.matched(self.players[n - 1].entity) {
            self.lobby_indices(n - 1).push(n - 1)
        } else {
            self.lobby_indices(n - 1)
        }
    }

    /// Indices, in connection order, of the players waiting in the lobby.
    pub open spec fn lobby(self) -> Seq<int> {
        self.lobby_indices(self.players.len() as int)
    }

    /// The `i`-th match that matchmaking spawns: the lobby's players `2i`
    /// (left) and `2i + 1` (right), in a fresh empty arena.
    pub open spec fn paired_game(self, i: int) -> GameView {
        GameView {
            entity: (self.next_entity + i) as u64,
            left: self.players[self.lobby()[2 * i]].entity,
            right: self.players[self.lobby()[2 * i + 1]].entity,
            arena: ArenaView {
                size: self.arena_size as nat,
                left: Seq::<Letter>::empty(),
                right: Seq::<Letter>::empty(),
            },
            pending_left: None,
            pending_right: None,
        }
    }

    /// The state after matchmaking: the lobby paired two at a time in
    /// connection order, an odd one out left waiting.
    pub open spec fn matchmade(self) -> ServerView {
        let n = self.lobby().len() / 2;
        ServerView {
            games: self.games + Seq::new(n as nat, |i: int| self.paired_game(i)),
            next_entity: (self.next_entity + n) as u64,
            ..self
        }
    }

    /// The verdict on putting `left` and `right` into a new match.
    pub open spec fn spawn_result(self, left: u64, right: u64) -> Result<u64, SpawnError> {
        if !self.has_player(left) || !self.has_player(right) {
            Err(SpawnError::PlayerNotFound)
        } else if left == right {
            Err(SpawnError::SamePlayer)
        } else if self.matched(left) || self.matched(right) {
            Err(SpawnError::AlreadyInMatch)
        } else {
            Ok(self.next_entity)
        }
    }

    /// The state with a new match between `left` and `right`, in an empty
    /// arena of `arena_size`.
    pub open spec fn with_game(self, left: u64, right: u64, arena_size: usize) -> ServerView {
        ServerView {
            games: self.games.push(
                GameView {
                    entity: self.next_entity,
                    left,
                    right,
                    arena: ArenaView {
                        size: arena_size as nat,
                        left: Seq::<Letter>::empty(),
                        right: Seq::<Letter>::empty(),
                    },
                    pending_left: None,
                    pending_right: None,
                },
            ),
            next_entity: (self.next_entity + 1) as u64,
            ..self
        }
    }

    /// The verdict on an action `ev` that connection `sender` sent.
    pub open spec fn ingest_result(self, sender: u64, ev: ActionEvent) -> Result<(), IngestError> {
        if !self.has_player(ev.actor) {
            Err(IngestError::PlayerNotFound)
        } else if self.player(ev.actor).client != sender {
            Err(IngestError::Unauthorized)
        } else if !self.matched(ev.actor) {
            Err(IngestError::MatchNotFound)
        } else {
            let g = self.games[self.game_index_of(ev.actor)];
            if g.side_of(ev.actor) != ev.side {
                Err(IngestError::Unauthorized)
            } else {
                match (ev.action, self.dictionary) {
                    (Action::Append(l), Some(d)) => if starts_some(
                        d,
                        lower_spelling(g.arena.word(ev.side).push(l)),
                    ) {
                        Ok(())
                    } else {
                        Err(IngestError::InvalidAppend)
                    },
                    _ => Ok(()),
                }
            }
        }
    }

    /// The state once an accepted action is buffered for its match and side.
    pub open spec fn ingested(self, ev: ActionEvent) -> ServerView {
        let j = self.game_index_of(ev.actor);
        ServerView {
            games: self.games.update(j, self.games[j].with_pending(ev.side, ev.action)),
            ..self
        }
    }

    /// Index of the match player `e` belongs to (meaningful when `matched(e)`).
    pub open spec fn game_index_of(self, e: u64) -> int {
        choose|j: int| self.in_game(e, j)
    }

    /// The state after the player at index `i` leaves: the player is removed,
    /// and so is the match it was in, which sends its partner to the lobby.
    pub open spec fn without_player(self, i: int) -> ServerView {
        let e = self.players[i].entity;
        ServerView {
            players: self.players.remove(i),
            games: if self.matched(e) {
                self.games.remove(self.game_index_of(e))
            } else {
                self.games
            },
            ..self
        }
    }
}

/// In a well-formed state a player is in at most one match.
pub proof fn lemma_game_unique(s: ServerView, e: u64, j: int)
    requires
        s.wf(),
        s.in_game(e, j),
    ensures
        s.matched(e),
        s.game_index_of(e) == j,
        forall|b: int| s.in_game(e, b) ==> b == j,
{
    assert(s.in_game(e, j));
    let c = s.game_index_of(e);
    assert(s.in_game(e, c));
    assert forall|b: int| s.in_game(e, b) implies b == j by {
        if b != j {
            assert(!s.games[b].has_member(s.games[j].left));
            assert(!s.games[b].has_member(s.games[j].right));
        }
    }
}

/// The lobby lists, in increasing order, indices of unmatched players.
pub proof fn lemma_lobby_indices(s: ServerView, n: int)
    requires
        0 <= n <= s.players.len(),
    ensures
        s.lobby_indices(n).len() <= n,
        forall|a: int|
            0 <= a < s.lobby_indices(n).len() ==> 0 <= #[trigger] s.lobby_indices(n)[a] < n
                && !s.matched(s.players[s.lobby_indices(n)[a]].entity),
        forall|a: int, b: int|
            0 <= a < b < s.lobby_indices(n).len() ==> s.lobby_indices(n)[a] < s.lobby_indices(
                n,
            )[b],
    decreases n,
{
    if n > 0 {
        lemma_lobby_indices(s, n - 1);
    }
}

/// A new match between two distinct lobby players keeps the state well formed.
pub proof fn lemma_with_game_wf(s: ServerView, left: u64, right: u64, arena_size: usize)
    requires
        s.wf(),
        s.next_entity < u64::MAX,
        s.spawn_result(left, right) is Ok,
    ensures
        s.with_game(left, right, arena_size).wf(),
{
    let t = s.with_game(left, right, arena_size);
    let m = s.games.len() as int;
    assert(forall|a: int| 0 <= a < m ==> #[trigger] t.games[a] == s.games[a]);
    assert forall|a: int, b: int|
        0 <= a < t.games.len() && 0 <= b < t.games.len() && a != b implies !t.games[b].has_member(
        t.games[a].left,
    ) && !t.games[b].has_member(t.games[a].right) by {
        if a == m {
            assert(!s.in_game(left, b));
            assert(!s.in_game(right, b));
        } else if b == m {
            assert(s.in_game(s.games[a].left, a));
            assert(s.in_game(s.games[a].right, a));
        }
    }
    assert forall|a: int| 0 <= a < t.games.len() implies t.has_player(#[trigger] t.games[a].left)
        && t.has_player(t.games[a].right) by {
        assert(t.players == s.players);
        if a < m {
            assert(s.has_player(s.games[a].left));
            assert(s.has_player(s.games[a].right));
        } else {
            assert(t.games[a].left == left && t.games[a].right == right);
            assert(s.has_player(left) && s.has_player(right));
        }
    }
    assert forall|k: int, a: int| 0 <= k < t.players.len() && 0 <= a < t.games.len() implies t.players[k].entity != t.games[a].entity by {
        if a < m {
            assert(s.players[k].entity != s.games[a].entity);
        }
    }
}

/// Matchmaking keeps the state well formed.
pub proof fn lemma_matchmade_wf(s: ServerView)
    requires
        s.wf(),
        s.next_entity + s.players.len() <= u64::MAX,
    ensures
        s.matchmade().wf(),
{
    let t = s.matchmade();
    let l = s.lobby();
    let n = l.len() / 2;
    let m = s.games.len();
    lemma_lobby_indices(s, s.players.len() as int);
    assert(t.players == s.players);
    assert(forall|a: int| 0 <= a < m ==> #[trigger] t.games[a] == s.games[a]);
    assert(forall|a: int| m <= a < t.games.len() ==> #[trigger] t.games[a] == s.paired_game(a - m));
    // members of a new match are distinct from every other match's members
    assert forall|a: int, b: int|
        0 <= a < t.games.len() && 0 <= b < t.games.len() && a != b implies !t.games[b].has_member(
        t.games[a].left,
    ) && !t.games[b].has_member(t.games[a].right) by {
        if a < m && b < m {
            assert(s.games[a] == t.games[a]);
            assert(s.games[b] == t.games[b]);
        } else if a >= m && b < m {
            let i = a - m;
            assert(!s.matched(s.players[l[2 * i]].entity));
            assert(!s.matched(s.players[l[2 * i + 1]].entity));
            assert(!s.in_game(t.games[a].left, b));
            assert(!s.in_game(t.games[a].right, b));
        } else if a < m && b >= m {
            let i = b - m;
            assert(!s.matched(s.players[l[2 * i]].entity));
            assert(!s.matched(s.players[l[2 * i + 1]].entity));
            assert(!s.in_game(t.games[b].left, a));
            assert(!s.in_game(t.games[b].right, a));
            assert(s.in_game(t.games[a].left, a));
            assert(s.in_game(t.games[a].right, a));
        } else {
            let i = a - m;
            let i2 = b - m;
            assert forall|x: int, y: int|
                (x == 2 * i || x == 2 * i + 1) && (y == 2 * i2 || y == 2 * i2 + 1) implies s.players[l[x]].entity
                != s.players[l[y]].entity by {
                assert(x != y);
                if x < y {
                    assert(l[x] < l[y]);
                } else {
                    assert(l[y] < l[x]);
                }
            }
        }
    }
    assert forall|a: int| 0 <= a < t.games.len() implies t.games[a].left != t.games[a].right by {
        if a >= m {
            let i = a - m;
            assert(l[2 * i] < l[2 * i + 1]);
            assert(s.players[l[2 * i]].entity != s.players[l[2 * i + 1]].entity);
        }
    }
    assert forall|a: int| 0 <= a < t.games.len() implies t.has_player(#[trigger] t.games[a].left)
        && t.has_player(t.games[a].right) by {
        if a < m {
            assert(s.has_player(s.games[a].left));
            assert(s.has_player(s.games[a].right));
        } else {
            let i = a - m;
            assert(t.players[l[2 * i]].entity == t.games[a].left);
            assert(t.players[l[2 * i + 1]].entity == t.games[a].right);
        }
    }
    assert forall|a: int, b: int| 0 <= a < b < t.games.len() implies t.games[a].entity != t.games[b].entity by {
        if a < m && b < m {
        } else if a < m {
            assert(s.games[a].entity < s.next_entity);
        }
    }
    assert forall|k: int, a: int| 0 <= k < t.players.len() && 0 <= a < t.games.len() implies t.players[k].entity != t.games[a].entity by {
        if a < m {
            assert(s.players[k].entity != s.games[a].entity);
        } else {
            assert(s.players[k].entity < s.next_entity);
        }
    }
}

/// A tick keeps the state well formed: it changes words, buffers and scores,
/// never entities or membership.
pub proof fn lemma_ticked_wf(s: ServerView)
    requires
        s.wf(),
    ensures
        s.ticked().wf(),
{
    let t = s.ticked();
    assert(forall|a: int| 0 <= a < t.games.len() ==> (#[trigger] t.games[a]).entity == s.games[a].entity && t.games[a].left == s.games[a].left && t.games[a].right == s.games[a].right);
    assert(forall|k: int| 0 <= k < t.players.len() ==> (#[trigger] t.players[k]).entity == s.players[k].entity);
    assert forall|a: int| 0 <= a < t.games.len() implies t.has_player(
        #[trigger] t.games[a].left,
    ) && t.has_player(t.games[a].right) by {
        assert(s.has_player(s.games[a].left));
        assert(s.has_player(s.games[a].right));
        let kl = choose|k: int| 0 <= k < s.players.len() && s.players[k].entity == s.games[a].left;
        let kr = choose|k: int| 0 <= k < s.players.len() && s.players[k].entity == s.games[a].right;
        assert(t.players[kl].entity == s.players[kl].entity);
        assert(t.players[kr].entity == s.players[kr].entity);
    }
    assert forall|a: int, b: int|
        0 <= a < t.games.len() && 0 <= b < t.games.len() && a != b implies !t.games[b].has_member(
        t.games[a].left,
    ) && !t.games[b].has_member(t.games[a].right) by {
        assert(s.games[a].left == t.games[a].left);
        assert(s.games[b].left == t.games[b].left);
        assert(s.games[a].right == t.games[a].right);
        assert(s.games[b].right == t.games[b].right);
    }
    assert(t.ids_wf());
}

/// Over one tick a player keeps its entity and its score never drops; the
/// score rises by exactly one when the player's match awards it a point (and
/// the score is below the largest value), and otherwise stays.
pub proof fn lemma_tick_scores(s: ServerView, k: int)
    requires
        s.wf(),
        0 <= k < s.players.len(),
    ensures
        s.ticked().players.len() == s.players.len(),
        s.ticked().players[k].entity == s.players[k].entity,
        s.ticked().players[k].client == s.players[k].client,
        s.ticked().players[k].score >= s.players[k].score,
        s.ticked().players[k].score <= s.players[k].score + 1,
        s.ticked().players[k].score == s.players[k].score + 1 <==> s.wins_next_tick(
            s.players[k].entity,
        ) && s.players[k].score < usize::MAX,
{
}

/// A player wins at most one point per tick: only its own match can award
/// it one.
pub proof fn lemma_one_point_per_tick(s: ServerView, e: u64, j: int)
    requires
        s.wf(),
        0 <= j < s.games.len(),
        s.games[j].awards(e),
    ensures
        forall|b: int| 0 <= b < s.games.len() && b != j ==> !(#[trigger] s.games[b]).awards(e),
{
    lemma_game_unique(s, e, j);
}

/// Along any run of ticks, every player's score is non-decreasing: a later
/// state never shows a player a lower score than an earlier one.
pub proof fn lemma_scores_monotone(run: Seq<ServerView>, k: int, i: int, m: int)
    requires
        run.len() > 0,
        run[0].wf(),
        0 <= k < run[0].players.len(),
        0 <= i <= m < run.len(),
        forall|a: int| 0 < a < run.len() ==> #[trigger] run[a] == run[a - 1].ticked(),
    ensures
        run[i].players.len() == run[0].players.len(),
        run[m].players.len() == run[0].players.len(),
        run[m].players[k].entity == run[i].players[k].entity,
        run[m].players[k].score >= run[i].players[k].score,
    decreases m - i,
{
    lemma_run_wf(run, i);
    lemma_run_wf(run, m);
    if i < m {
        lemma_scores_monotone(run, k, i, m - 1);
        lemma_run_wf(run, m - 1);
        lemma_tick_scores(run[m - 1], k);
        assert(run[m] == run[m - 1].ticked());
    }
}

/// Every state along a run of ticks is well formed, with the same players.
pub proof fn lemma_run_wf(run: Seq<ServerView>, i: int)
    requires
        run.len() > 0,
        run[0].wf(),
        0 <= i < run.len(),
        forall|a: int| 0 < a < run.len() ==> #[trigger] run[a] == run[a - 1].ticked(),
    ensures
        run[i].wf(),
        run[i].players.len() == run[0].players.len(),
    decreases i,
{
    if i > 0 {
        lemma_run_wf(run, i - 1);
        lemma_ticked_wf(run[i - 1]);
        assert(run[i] == run[i - 1].ticked());
    }
}

/// Removing a player, together with its match, keeps the state well formed.
pub proof fn lemma_without_player_wf(s: ServerView, i: int)
    requires
        s.wf(),
        0 <= i < s.players.len(),
    ensures
        s.without_player(i).wf(),
{
    let e = s.players[i].entity;
    let t = s.without_player(i);
    assert(forall|k: int|
        0 <= k < t.players.len() ==> #[trigger] t.players[k] == s.players[if k < i {
            k
        } else {
            k + 1
        }]);
    if s.matched(e) {
        let j = s.game_index_of(e);
        lemma_game_unique(s, e, j);
        assert(forall|a: int|
            0 <= a < t.games.len() ==> #[trigger] t.games[a] == s.games[if a < j {
                a
            } else {
                a + 1
            }]);
        assert forall|a: int| 0 <= a < t.games.len() implies t.has_player(
            #[trigger] t.games[a].left,
        ) && t.has_player(t.games[a].right) by {
            let oa = if a < j {
                a
            } else {
                a + 1
            };
            assert(!s.in_game(e, oa));
            let g = s.games[oa];
            assert(s.has_player(g.left));
            assert(s.has_player(g.right));
            let kl = choose|k: int| 0 <= k < s.players.len() && s.players[k].entity == g.left;
            let kr = choose|k: int| 0 <= k < s.players.len() && s.players[k].entity == g.right;
            assert(kl != i);
            assert(kr != i);
            let nl = if kl < i {
                kl
            } else {
                kl - 1
            };
            let nr = if kr < i {
                kr
            } else {
                kr - 1
            };
            assert(t.players[nl].entity == g.left);
            assert(t.players[nr].entity == g.right);
        }
        assert forall|a: int, b: int|
            0 <= a < t.games.len() && 0 <= b < t.games.len() && a != b implies !t.games[b].has_member(
            t.games[a].left,
        ) && !t.games[b].has_member(t.games[a].right) by {
            let oa = if a < j {
                a
            } else {
                a + 1
            };
            let ob = if b < j {
                b
            } else {
                b + 1
            };
            assert(s.games[oa] == t.games[a]);
            assert(s.games[ob] == t.games[b]);
        }
    } else {
        assert forall|a: int| 0 <= a < t.games.len() implies t.has_player(
            #[trigger] t.games[a].left,
        ) && t.has_player(t.games[a].right) by {
            let g = s.games[a];
            assert(!s.in_game(e, a));
            assert(s.has_player(g.left));
            assert(s.has_player(g.right));
            let kl = choose|k: int| 0 <= k < s.players.len() && s.players[k].entity == g.left;
            let kr = choose|k: int| 0 <= k < s.players.len() && s.players[k].entity == g.right;
            let nl = if kl < i {
                kl
            } else {
                kl - 1
            };
            let nr = if kr < i {
                kr
            } else {
                kr - 1
            };
            assert(t.players[nl].entity == g.left);
            assert(t.players[nr].entity == g.right);
        }
    }
}

/// Disconnecting a member of a match removes the match at once; its partner
/// stays connected and is back in the lobby.
pub proof fn lemma_disconnect_ends_match(s: ServerView, i: int, j: int)
    requires
        s.wf(),
        0 <= i < s.players.len(),
        s.in_game(s.players[i].entity, j),
    ensures
        !s.without_player(i).has_game(s.games[j].entity),
        !s.without_player(i).has_player(s.players[i].entity),
        s.without_player(i).has_player(s.games[j].member(
            s.games[j].side_of(s.players[i].entity).other(),
        )),
        !s.without_player(i).matched(
            s.games[j].member(s.games[j].side_of(s.players[i].entity).other()),
        ),
        forall|ev: ActionEvent|
            ev.actor == s.games[j].member(s.games[j].side_of(s.players[i].entity).other())
                ==> #[trigger] s.without_player(i).ingest_result(
                s.without_player(i).player(ev.actor).client,
                ev,
            ) == Err::<(), IngestError>(IngestError::MatchNotFound),
{
    let e = s.players[i].entity;
    let t = s.without_player(i);
    let g = s.games[j];
    let p = g.member(g.side_of(e).other());
    lemma_game_unique(s, e, j);
    assert(forall|a: int|
        0 <= a < t.games.len() ==> #[trigger] t.games[a] == s.games[if a < j {
            a
        } else {
            a + 1
        }]);
    assert(forall|k: int|
        0 <= k < t.players.len() ==> #[trigger] t.players[k] == s.players[if k < i {
            k
        } else {
            k + 1
        }]);
    assert(!t.has_game(g.entity)) by {
        if t.has_game(g.entity) {
            let a = choose|a: int| 0 <= a < t.games.len() && t.games[a].entity == g.entity;
            let oa = if a < j {
                a
            } else {
                a + 1
            };
            assert(s.games[oa].entity == g.entity);
        }
    }
    assert(!t.has_player(e)) by {
        if t.has_player(e) {
            let k = choose|k: int| 0 <= k < t.players.len() && t.players[k].entity == e;
            let ok = if k < i {
                k
            } else {
                k + 1
            };
            assert(s.players[ok].entity == e);
        }
    }
    assert(p != e);
    assert(s.has_player(g.left));
    assert(s.has_player(g.right));
    let kp = choose|k: int| 0 <= k < s.players.len() && s.players[k].entity == p;
    assert(kp != i);
    let np = if kp < i {
        kp
    } else {
        kp - 1
    };
    assert(t.players[np].entity == p);
    assert(!t.matched(p)) by {
        if t.matched(p) {
            let a = choose|a: int| t.in_game(p, a);
            let oa = if a < j {
                a
            } else {
                a + 1
            };
            assert(s.in_game(p, oa));
            assert(s.in_game(p, j));
        }
    }
}

} // verus!

use vstd::prelude::*;

use crate::message::UpdateStateMessage;
use crate::server::Server;
use crate::world::{lemma_game_unique, ServerView};
use crate::word::spelling;

verus! {

/// Whether the client of player `viewer` may be sent entity `x`: its own
/// player; in a match, that match and both of its players; in the lobby,
/// the other lobby players. Nothing else.
pub open spec fn sees(s: ServerView, viewer: u64, x: u64) -> bool {
    s.has_player(viewer) && {
        ||| x == viewer
        ||| s.has_player(x) && !s.matched(viewer) && !s.matched(x)
        ||| s.has_player(x) && exists|j: int| s.in_game(viewer, j) && s.in_game(x, j)
        ||| exists|j: int| s.in_game(viewer, j) && s.games[j].entity == x
    }
}

/// What the state message for a matched `viewer` holds: its side, and the
/// words, scores and arena size of its own match.
pub open spec fn state_message_of(s: ServerView, viewer: u64, m: UpdateStateMessage) -> bool {
    let g = s.games[s.game_index_of(viewer)];
    &&& m.my_side == g.side_of(viewer)
    &&& m.left_word@ == spelling(g.arena.left)
    &&& m.right_word@ == spelling(g.arena.right)
    &&& m.left_score == s.player(g.left).score
    &&& m.right_score == s.player(g.right).score
    &&& m.arena_size == g.arena.size
}

/// A client in a match sees its match and both of its players, and nothing
/// of any other match: not the match, not its players.
pub proof fn lemma_visibility_scoped(s: ServerView, viewer: u64, j: int)
    requires
        s.wf(),
        s.has_player(viewer),
        s.in_game(viewer, j),
    ensures
        s.game_index_of(viewer) == j,
        sees(s, viewer, s.games[j].entity),
        sees(s, viewer, s.games[j].left),
        sees(s, viewer, s.games[j].right),
        forall|b: int|
            0 <= b < s.games.len() && b != j ==> !sees(s, viewer, #[trigger] s.games[b].entity)
                && !sees(s, viewer, s.games[b].left) && !sees(s, viewer, s.games[b].right),
{
    lemma_game_unique(s, viewer, j);
    assert(s.in_game(s.games[j].left, j));
    assert(s.in_game(s.games[j].right, j));
    assert forall|b: int| 0 <= b < s.games.len() && b != j implies !sees(
        s,
        viewer,
        #[trigger] s.games[b].entity,
    ) && !sees(s, viewer, s.games[b].left) && !sees(s, viewer, s.games[b].right) by {
        let g = s.games[b];
        assert(!s.games[j].has_member(g.left));
        assert(!s.games[j].has_member(g.right));
        assert(s.in_game(g.left, b));
        assert(s.in_game(g.right, b));
        lemma_game_unique(s, g.left, b);
        lemma_game_unique(s, g.right, b);
        if s.has_player(g.entity) {
            let k = choose|k: int| 0 <= k < s.players.len() && s.players[k].entity == g.entity;
            assert(s.players[k].entity != s.games[b].entity);
        }
        assert(s.games[j].entity != g.entity);
        if exists|a: int| s.in_game(viewer, a) && s.games[a].entity == g.left {
            let a = choose|a: int| s.in_game(viewer, a) && s.games[a].entity == g.left;
            assert(a == j);
            let kl = choose|k: int| 0 <= k < s.players.len() && s.players[k].entity == g.left;
            assert(s.has_player(g.left));
            assert(s.players[kl].entity != s.games[j].entity);
        }
        if exists|a: int| s.in_game(viewer, a) && s.games[a].entity == g.right {
            let a = choose|a: int| s.in_game(viewer, a) && s.games[a].entity == g.right;
            assert(a == j);
            assert(s.has_player(g.right));
            let kr = choose|k: int| 0 <= k < s.players.len() && s.players[k].entity == g.right;
            assert(s.players[kr].entity != s.games[j].entity);
        }
    }
}

/// A state message sent to a matched client is built from one match only:
/// the client's own, whose arena and both players the client sees, while it
/// sees no entity of any other match.
pub proof fn lemma_state_message_scoped(s: ServerView, viewer: u64, m: UpdateStateMessage)
    requires
        s.wf(),
        s.has_player(viewer),
        s.matched(viewer),
        state_message_of(s, viewer, m),
    ensures
        exists|j: int|
            #![trigger s.games[j]]
            {
                &&& s.in_game(viewer, j)
                &&& m.left_word@ == spelling(s.games[j].arena.left)
                &&& m.right_word@ == spelling(s.games[j].arena.right)
                &&& m.left_score == s.player(s.games[j].left).score
                &&& m.right_score == s.player(s.games[j].right).score
                &&& sees(s, viewer, s.games[j].entity)
                &&& sees(s, viewer, s.games[j].left)
                &&& sees(s, viewer, s.games[j].right)
                &&& forall|b: int|
                    0 <= b < s.games.len() && b != j ==> !sees(
                        s,
                        viewer,
                        #[trigger] s.games[b].entity,
                    ) && !sees(s, viewer, s.games[b].left) && !sees(s, viewer, s.games[b].right)
            },
{
    let j = choose|j: int| s.in_game(viewer, j);
    lemma_visibility_scoped(s, viewer, j);
    assert(s.games[j] == s.games[s.game_index_of(viewer)]);
}

/// Two lobby players see each other; a lobby player and a matched player
/// never do.
pub proof fn lemma_lobby_visibility(s: ServerView, a: u64, b: u64)
    requires
        s.wf(),
        s.has_player(a),
        s.has_player(b),
        !s.matched(a),
    ensures
        sees(s, a, b) == !s.matched(b),
        sees(s, b, a) == !s.matched(b),
{
    let ka = choose|k: int| 0 <= k < s.players.len() && s.players[k].entity == a;
    let kb = choose|k: int| 0 <= k < s.players.len() && s.players[k].entity == b;
    assert forall|j: int| 0 <= j < s.games.len() implies s.games[j].entity != a
        && s.games[j].entity != b by {
        assert(s.players[ka].entity != s.games[j].entity);
        assert(s.players[kb].entity != s.games[j].entity);
    }
    if s.matched(b) {
        let j = choose|j: int| s.in_game(b, j);
        assert(!s.in_game(a, j));
        if a == b {
            assert(s.in_game(a, j));
        }
    }
}

/// The entities that one client may be sent.
#[derive(Clone, Debug)]
pub struct ClientVisibility {
    pub client: u64,
    pub player: u64,
    pub visible: Vec<u64>,
}

impl Server {
    /// Recomputes, for every connected player's client, the entities it may
    /// be sent. Meant to run whenever match membership changes.
    pub fn handle_visibility(&self) -> (r: Vec<ClientVisibility>)
        requires
            self@.wf(),
        ensures
            r@.len() == self@.players.len(),
            forall|k: int|
                0 <= k < r@.len() ==> {
                    let v = #[trigger] r@[k];
                    let p = self@.players[k];
                    &&& v.client == p.client
                    &&& v.player == p.entity
                    &&& forall|i: int|
                        0 <= i < v.visible@.len() ==> sees(self@, p.entity, #[trigger] v.visible@[i])
                    &&& forall|x: u64| sees(self@, p.entity, x) ==> v.visible@.contains(x)
                },
    {
        let mut r: Vec<ClientVisibility> = Vec::new();
        let players = self.players();
        let mut k: usize = 0;
        while k < players.len()
            invariant
                self@.wf(),
                players@ == self@.players,
                k <= players@.len(),
                r@.len() == k,
                forall|c: int|
                    0 <= c < k ==> {
                        let v = #[trigger] r@[c];
                        let p = self@.players[c];
                        &&& v.client == p.client
                        &&& v.player == p.entity
                        &&& forall|i: int|
                            0 <= i < v.visible@.len() ==> sees(
                                self@,
                                p.entity,
                                #[trigger] v.visible@[i],
                            )
                        &&& forall|x: u64| sees(self@, p.entity, x) ==> v.visible@.contains(x)
                    },
            decreases players@.len() - k,
        {
            let p = players[k];
            let visible = self.visible_entities(p.entity);
            r.push(ClientVisibility { client: p.client, player: p.entity, visible });
            k = k + 1;
        }
        r
    }

    /// Whether the client of player `viewer` may be sent `entity`.
    pub fn is_visible(&self, viewer: u64, entity: u64) -> (r: bool)
        requires
            self@.wf(),
        ensures
            r == sees(self@, viewer, entity),
    {
        let ghost s = self@;
        if self.find_player(viewer).is_none() {
            return false;
        }
        if entity == viewer {
            return true;
        }
        let vg = self.find_game_of(viewer);
        proof {
            if let Some(a) = vg {
                lemma_game_unique(s, viewer, a as int);
            }
        }
        match self.find_player(entity) {
            Some(k) => {
                let xg = self.find_game_of(entity);
                proof {
                    if let Some(b) = xg {
                        lemma_game_unique(s, entity, b as int);
                    }
                    assert forall|j: int| 0 <= j < s.games.len() implies s.games[j].entity
                        != entity by {
                        assert(s.players[k as int].entity != s.games[j].entity);
                    }
                }
                match (vg, xg) {
                    (None, None) => true,
                    (Some(a), Some(b)) => a == b,
                    _ => false,
                }
            },
            None => match vg {
                Some(a) => self.games()[a].entity() == entity,
                None => false,
            },
        }
    }

    /// Every entity the client of player `viewer` may be sent: the players
    /// first, in connection order, then the matches.
    pub fn visible_entities(&self, viewer: u64) -> (r: Vec<u64>)
        requires
            self@.wf(),
        ensures
            forall|i: int| 0 <= i < r@.len() ==> sees(self@, viewer, #[trigger] r@[i]),
            forall|x: u64| sees(self@, viewer, x) ==> r@.contains(x),
    {
        let ghost s = self@;
        let mut r: Vec<u64> = Vec::new();
        let players = self.players();
        let mut k: usize = 0;
        while k < players.len()
            invariant
                s == self@,
                s.wf(),
                players@ == s.players,
                k <= players@.len(),
                forall|i: int| 0 <= i < r@.len() ==> sees(s, viewer, #[trigger] r@[i]),
                forall|c: int|
                    0 <= c < k && sees(s, viewer, s.players[c].entity) ==> r@.contains(
                        #[trigger] s.players[c].entity,
                    ),
            decreases players@.len() - k,
        {
            let e = players[k].entity;
            if self.is_visible(viewer, e) {
                let ghost prev = r@;
                r.push(e);
                proof {
                    assert forall|x: u64| prev.contains(x) implies r@.contains(x) by {
                        let i = choose|i: int| 0 <= i < prev.len() && prev[i] == x;
                        assert(r@[i] == x);
                    }
                    assert(r@[r@.len() - 1] == e);
                }
            }
            k = k + 1;
        }
        let games = self.games();
        let mut j: usize = 0;
        while j < games.len()
            invariant
                s == self@,
                s.wf(),
                games@.map_values(|g: crate::server::Game| g@) == s.games,
                j <= games@.len(),
                forall|i: int| 0 <= i < r@.len() ==> sees(s, viewer, #[trigger] r@[i]),
                forall|c: int|
                    0 <= c < s.players.len() && sees(s, viewer, s.players[c].entity)
                        ==> r@.contains(#[trigger] s.players[c].entity),
                forall|c: int|
                    0 <= c < j && sees(s, viewer, s.games[c].entity) ==> r@.contains(
                        #[trigger] s.games[c].entity,
                    ),
            decreases games@.len() - j,
        {
            let e = games[j].entity();
            assert(e == s.games[j as int].entity);
            if self.is_visible(viewer, e) {
                let ghost prev = r@;
                r.push(e);
                proof {
                    assert forall|x: u64| prev.contains(x) implies r@.contains(x) by {
                        let i = choose|i: int| 0 <= i < prev.len() && prev[i] == x;
                        assert(r@[i] == x);
                    }
                    assert(r@[r@.len() - 1] == e);
                }
            }
            j = j + 1;
        }
        proof {
            assert forall|x: u64| sees(s, viewer, x) implies r@.contains(x) by {
                if s.has_player(x) {
                    let c = choose|c: int| 0 <= c < s.players.len() && s.players[c].entity == x;
                    assert(r@.contains(s.players[c].entity));
                } else if x == viewer {
                } else {
                    let a = choose|a: int| s.in_game(viewer, a) && s.games[a].entity == x;
                    assert(r@.contains(s.games[a].entity));
                }
            }
        }
        r
    }

    /// The state message for the client of player `viewer`: `None` unless
    /// the player is connected and in a match; otherwise built from that
    /// match and its two players only.
    pub fn state_for(&self, viewer: u64) -> (r: Option<UpdateStateMessage>)
        requires
            self@.wf(),
        ensures
            r is Some <==> self@.has_player(viewer) && self@.matched(viewer),
            match r {
                Some(m) => state_message_of(self@, viewer, m),
                None => true,
            },
    {
        let ghost s = self@;
        if self.find_player(viewer).is_none() {
            return None;
        }
        let j = match self.find_game_of(viewer) {
            Some(j) => j,
            None => {
                return None;
            },
        };
        proof {
            lemma_game_unique(s, viewer, j as int);
        }
        let game = &self.games()[j];
        let ghost g = s.games[j as int];
        assert(game@ == g);
        let left = game.player(crate::side::PlayerSide::Left);
        let right = game.player(crate::side::PlayerSide::Right);
        proof {
            assert(s.has_player(g.left));
            assert(s.has_player(g.right));
        }
        let kl = match self.find_player(left) {
            Some(k) => k,
            None => {
                return None;
            },
        };
        let kr = match self.find_player(right) {
            Some(k) => k,
            None => {
                return None;
            },
        };
        proof {
            let cl = choose|c: int| 0 <= c < s.players.len() && s.players[c].entity == g.left;
            let cr = choose|c: int| 0 <= c < s.players.len() && s.players[c].entity == g.right;
            if cl != kl {
                if cl < kl {
                    assert(s.players[cl].entity != s.players[kl as int].entity);
                } else {
                    assert(s.players[kl as int].entity != s.players[cl].entity);
                }
            }
            if cr != kr {
                if cr < kr {
                    assert(s.players[cr].entity != s.players[kr as int].entity);
                } else {
                    assert(s.players[kr as int].entity != s.players[cr].entity);
                }
            }
        }
        let my_side = if left == viewer {
            crate::side::PlayerSide::Left
        } else {
            crate::side::PlayerSide::Right
        };
        let arena = game.arena();
        Some(
            UpdateStateMessage {
                my_side,
                left_word: arena.word(crate::side::PlayerSide::Left).to_text(),
                left_score: self.players()[kl].score,
                right_word: arena.word(crate::side::PlayerSide::Right).to_text(),
                right_score: self.players()[kr].score,
                arena_size: arena.size(),
            },
        )
    }
}

} // verus!

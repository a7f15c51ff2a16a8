//! The matchmaking registry: an ordered collection of games, each holding
//! one or two players.  A connecting player fills the first open slot, or
//! opens a new game; games are never removed and a filled game never opens
//! again.

use vstd::prelude::*;
use vstd::multiset::Multiset;

verus! {

// ---------------------------------------------------------------------------
// Players and games
// ---------------------------------------------------------------------------

/// A player as the server sees them: their nick.  The boards of the game
/// itself are outside this protocol's scope.
#[derive(Debug)]
pub struct ServerPlayer {
    nick: String,
}

impl View for ServerPlayer {
    type V = Seq<char>;

    closed spec fn view(&self) -> Seq<char> {
        self.nick@
    }
}

impl ServerPlayer {
    /// A freshly connected player: the nick is still empty.
    pub fn new() -> (r: Self)
        ensures
            r@ == Seq::<char>::empty(),
    {
        Self { nick: String::new() }
    }

    /// Set the player's nick.
    pub fn set_nick(&mut self, nick: &str)
        ensures
            final(self)@ == nick@,
    {
        self.nick = nick.to_owned();
    }

    /// The player's nick.
    pub fn get_nick(&self) -> (r: &str)
        ensures
            r@ == self@,
    {
        self.nick.as_str()
    }
}

impl Clone for ServerPlayer {
    fn clone(&self) -> (r: Self)
        ensures
            r@ == self@,
    {
        Self { nick: self.nick.clone() }
    }
}

impl Default for ServerPlayer {
    fn default() -> (r: Self)
        ensures
            r@ == Seq::<char>::empty(),
    {
        Self::new()
    }
}

/// The mathematical content of a game: its players' nicks.
pub struct GameView {
    pub p1: Seq<char>,
    pub p2: Option<Seq<char>>,
}

/// A game on the server: its first player, and its second once one joined.
#[derive(Debug)]
pub struct ServerGame {
    player1: ServerPlayer,
    player2: Option<ServerPlayer>,
}

impl View for ServerGame {
    type V = GameView;

    closed spec fn view(&self) -> GameView {
        GameView {
            p1: self.player1@,
            p2: match &self.player2 {
                Some(p) => Some(p@),
                None => None,
            },
        }
    }
}

impl ServerGame {
    /// A new game holds exactly one player and an empty second slot.
    pub fn new(player: ServerPlayer) -> (r: Self)
        ensures
            r@.p1 == player@,
            r@.p2 is None,
    {
        Self { player1: player, player2: None }
    }

    /// Whether the second slot is still free.
    pub fn has_empty_slot(&self) -> (r: bool)
        ensures
            r == (self@.p2 is None),
    {
        self.player2.is_none()
    }

    /// Put a player in the second slot.
    pub fn add_opponent(&mut self, player: ServerPlayer)
        ensures
            final(self)@.p1 == old(self)@.p1,
            final(self)@.p2 == Some(player@),
    {
        self.player2 = Some(player);
    }
}

// ---------------------------------------------------------------------------
// First-fit assignment, as mathematics
// ---------------------------------------------------------------------------

/// The first game with an open second slot, in creation order.
pub open spec fn first_open(gs: Seq<GameView>) -> Option<int>
    decreases gs.len(),
{
    if gs.len() == 0 {
        None
    } else if gs[0].p2 is None {
        Some(0)
    } else {
        match first_open(gs.drop_first()) {
            Some(i) => Some(i + 1),
            None => None,
        }
    }
}

/// What assigning a player does: the new registry, whether an opponent was
/// already present, and the joined game's identifier (its position, counted
/// from one).
pub open spec fn spec_assign(gs: Seq<GameView>, p: Seq<char>) -> (Seq<GameView>, bool, int) {
    match first_open(gs) {
        Some(i) => (gs.update(i, GameView { p1: gs[i].p1, p2: Some(p) }), true, i + 1),
        None => (gs.push(GameView { p1: p, p2: None }), false, gs.len() as int + 1),
    }
}

proof fn lemma_first_open_at(gs: Seq<GameView>, i: int)
    requires
        0 <= i <= gs.len(),
        forall|j: int| 0 <= j < i ==> (#[trigger] gs[j]).p2 is Some,
        i < gs.len() ==> gs[i].p2 is None,
    ensures
        first_open(gs) == if i < gs.len() {
            Some(i)
        } else {
            None::<int>
        },
    decreases gs.len(),
{
    if gs.len() == 0 {
    } else if gs[0].p2 is None {
        assert(i == 0);
    } else {
        assert(i >= 1);
        let tail = gs.drop_first();
        assert(forall|j: int| 0 <= j < i - 1 ==> (#[trigger] tail[j]).p2 is Some) by {
            assert(forall|j: int| 0 <= j < i - 1 ==> tail[j] == gs[j + 1]);
        }
        assert(i - 1 < tail.len() ==> tail[i - 1].p2 is None);
        lemma_first_open_at(tail, i - 1);
    }
}

// ---------------------------------------------------------------------------
// The registry
// ---------------------------------------------------------------------------

/// The shared matchmaking registry: all games, in creation order.
#[derive(Debug)]
pub struct GameManager {
    games: Vec<ServerGame>,
}

impl View for GameManager {
    type V = Seq<GameView>;

    closed spec fn view(&self) -> Seq<GameView> {
        self.games@.map_values(|g: ServerGame| g@)
    }
}

impl GameManager {
    /// An empty registry.
    pub fn new() -> (r: Self)
        ensures
            r@ == Seq::<GameView>::empty(),
    {
        let r = Self { games: Vec::new() };
        proof {
            assert(r@ =~= Seq::<GameView>::empty());
        }
        r
    }

    /// Open a new game holding only this player.
    fn create_game(&mut self, player: ServerPlayer)
        ensures
            final(self)@ =~= old(self)@.push(GameView { p1: player@, p2: None }),
    {
        let g = ServerGame::new(player);
        self.games.push(g);
        proof {
            assert(final(self)@ =~= old(self)@.push(g@));
        }
    }

    /// Assign a player: fill the first game with an open slot, or open a new
    /// game.  Returns whether an opponent was already present, and the
    /// joined game's identifier.
    pub fn assign_player(&mut self, player: ServerPlayer) -> (r: (bool, u32))
        requires
            old(self)@.len() < u32::MAX,
        ensures
            final(self)@ == spec_assign(old(self)@, player@).0,
            r.0 == spec_assign(old(self)@, player@).1,
            r.1 == spec_assign(old(self)@, player@).2,
    {
        let n = self.games.len();
        let mut i: usize = 0;
        while i < n
            invariant
                i <= n,
                n == self.games@.len(),
                n < u32::MAX,
                *self == *old(self),
                forall|j: int| 0 <= j < i ==> (#[trigger] self@[j]).p2 is Some,
            decreases n - i,
        {
            if self.games[i].has_empty_slot() {
                proof {
                    lemma_first_open_at(self@, i as int);
                }
                let mut g = self.games.remove(i);
                g.add_opponent(player);
                self.games.insert(i, g);
                proof {
                    let expect = old(self)@.update(
                        i as int,
                        GameView { p1: old(self)@[i as int].p1, p2: Some(player@) },
                    );
                    assert(self.games@ =~= old(self).games@.update(i as int, g));
                    assert(self@ =~= expect);
                }
                return (true, (i as u32) + 1);
            }
            i = i + 1;
        }
        proof {
            lemma_first_open_at(self@, n as int);
        }
        self.create_game(player);
        (false, (n as u32) + 1)
    }
}

impl GameManager {
    /// How many games the registry holds.
    pub fn games_count(&self) -> (r: usize)
        ensures
            r == self@.len(),
    {
        self.games.len()
    }

    /// The nicks in the given game: the first player's, and the second's if
    /// that slot is filled.
    pub fn game_nicks(&self, i: usize) -> (r: (String, Option<String>))
        requires
            i < self@.len(),
        ensures
            r.0@ == self@[i as int].p1,
            match r.1 {
                Some(s) => self@[i as int].p2 matches Some(p) && s@ == p,
                None => self@[i as int].p2 is None,
            },
    {
        let g = &self.games[i];
        let first = g.player1.get_nick().to_owned();
        let second = match &g.player2 {
            Some(p) => Some(p.get_nick().to_owned()),
            None => None,
        };
        (first, second)
    }
}

impl Default for GameManager {
    fn default() -> (r: Self)
        ensures
            r@ == Seq::<GameView>::empty(),
    {
        Self::new()
    }
}

// ---------------------------------------------------------------------------
// Laws of matchmaking
// ---------------------------------------------------------------------------

/// How many players a game holds.
pub open spec fn game_player_count(g: GameView) -> int {
    if g.p2 is Some {
        2
    } else {
        1
    }
}

/// How many players the registry holds in all.
pub open spec fn num_players(gs: Seq<GameView>) -> int
    decreases gs.len(),
{
    if gs.len() == 0 {
        0
    } else {
        game_player_count(gs[0]) + num_players(gs.drop_first())
    }
}

/// The players of one game, as a multiset of nicks.
pub open spec fn game_players(g: GameView) -> Multiset<Seq<char>> {
    match g.p2 {
        Some(p) => Multiset::empty().insert(g.p1).insert(p),
        None => Multiset::empty().insert(g.p1),
    }
}

/// All players in the registry, as a multiset of nicks.
pub open spec fn players_mset(gs: Seq<GameView>) -> Multiset<Seq<char>>
    decreases gs.len(),
{
    if gs.len() == 0 {
        Multiset::empty()
    } else {
        game_players(gs[0]).add(players_mset(gs.drop_first()))
    }
}

/// First-fit keeps the registry packed: only the newest game may have an
/// open slot.
pub open spec fn packed(gs: Seq<GameView>) -> bool {
    forall|i: int| 0 <= i < gs.len() && (#[trigger] gs[i]).p2 is None ==> i == gs.len() - 1
}

proof fn lemma_num_players_update(gs: Seq<GameView>, k: int, g: GameView)
    requires
        0 <= k < gs.len(),
    ensures
        num_players(gs.update(k, g)) == num_players(gs) - game_player_count(gs[k])
            + game_player_count(g),
        players_mset(gs.update(k, g)).add(game_players(gs[k])) =~= players_mset(gs).add(
            game_players(g),
        ),
    decreases gs.len(),
{
    broadcast use vstd::multiset::group_multiset_axioms;

    let u = gs.update(k, g);
    assert(u.len() == gs.len());
    if k == 0 {
        assert(u[0] == g);
        assert(u.drop_first() =~= gs.drop_first());
        assert(num_players(u) == game_player_count(g) + num_players(gs.drop_first()));
        assert(num_players(gs) == game_player_count(gs[0]) + num_players(gs.drop_first()));
        assert(players_mset(u) =~= game_players(g).add(players_mset(gs.drop_first())));
        assert(players_mset(gs) =~= game_players(gs[0]).add(players_mset(gs.drop_first())));
        assert forall|v: Seq<char>|
            players_mset(u).add(game_players(gs[k])).count(v) == players_mset(gs).add(
                game_players(g),
            ).count(v) by {
            assert(players_mset(u).count(v) == game_players(g).count(v) + players_mset(
                gs.drop_first(),
            ).count(v));
            assert(players_mset(gs).count(v) == game_players(gs[0]).count(v) + players_mset(
                gs.drop_first(),
            ).count(v));
        }
        assert(players_mset(u).add(game_players(gs[k])) =~= players_mset(gs).add(
            game_players(g),
        ));
    } else {
        assert(u[0] == gs[0]);
        assert(u.drop_first() =~= gs.drop_first().update(k - 1, g));
        lemma_num_players_update(gs.drop_first(), k - 1, g);
        assert(gs.drop_first()[k - 1] == gs[k]);
        assert(num_players(u) == game_player_count(gs[0]) + num_players(u.drop_first()));
        assert(num_players(gs) == game_player_count(gs[0]) + num_players(gs.drop_first()));
        assert(players_mset(u) =~= game_players(gs[0]).add(players_mset(u.drop_first())));
        assert(players_mset(gs) =~= game_players(gs[0]).add(players_mset(gs.drop_first())));
        assert forall|v: Seq<char>|
            players_mset(u).add(game_players(gs[k])).count(v) == players_mset(gs).add(
                game_players(g),
            ).count(v) by {
            assert(players_mset(u.drop_first()).add(game_players(gs.drop_first()[k - 1])).count(
                v,
            ) == players_mset(gs.drop_first()).add(game_players(g)).count(v));
        }
        assert(players_mset(u).add(game_players(gs[k])) =~= players_mset(gs).add(
            game_players(g),
        ));
    }
}

proof fn lemma_num_players_push(gs: Seq<GameView>, g: GameView)
    ensures
        num_players(gs.push(g)) == num_players(gs) + game_player_count(g),
        players_mset(gs.push(g)) =~= players_mset(gs).add(game_players(g)),
    decreases gs.len(),
{
    broadcast use vstd::multiset::group_multiset_axioms;

    let u = gs.push(g);
    assert(u.len() == gs.len() + 1);
    if gs.len() == 0 {
        assert(u.drop_first() =~= Seq::<GameView>::empty());
        assert(u[0] == g);
        assert(num_players(Seq::<GameView>::empty()) == 0);
        assert(players_mset(Seq::<GameView>::empty()) == Multiset::<Seq<char>>::empty());
        assert(num_players(u) == game_player_count(g) + num_players(u.drop_first()));
        assert(players_mset(u) =~= game_players(g).add(players_mset(u.drop_first())));
    } else {
        assert(u.drop_first() =~= gs.drop_first().push(g));
        lemma_num_players_push(gs.drop_first(), g);
        assert(u[0] == gs[0]);
        assert(num_players(u) == game_player_count(gs[0]) + num_players(u.drop_first()));
        assert(num_players(gs) == game_player_count(gs[0]) + num_players(gs.drop_first()));
        assert(players_mset(u) =~= game_players(gs[0]).add(players_mset(u.drop_first())));
        assert(players_mset(gs) =~= game_players(gs[0]).add(players_mset(gs.drop_first())));
    }
}

/// A packed registry pairs its players: every game but possibly the last
/// holds two, so the player count determines the number of games.
pub proof fn lemma_packed_count(gs: Seq<GameView>)
    requires
        packed(gs),
    ensures
        num_players(gs) == 2 * gs.len() - (if gs.len() > 0 && gs.last().p2 is None {
            1int
        } else {
            0int
        }),
        gs.len() == (num_players(gs) + 1) / 2,
    decreases gs.len(),
{
    if gs.len() > 0 {
        let tail = gs.drop_first();
        assert(packed(tail)) by {
            assert(forall|i: int| 0 <= i < tail.len() ==> tail[i] == gs[i + 1]);
        }
        lemma_packed_count(tail);
        assert(num_players(gs) == game_player_count(gs[0]) + num_players(tail));
        if gs.len() == 1 {
            assert(num_players(tail) == 0);
            assert(gs.last() == gs[0]);
        } else {
            assert(gs[0].p2 is Some);
            assert(tail.last() == gs.last());
        }
    }
}

/// One assignment on a packed registry: the registry stays packed, gains
/// exactly this player, and grows by a game only when every slot was full.
pub proof fn lemma_assign_step(gs: Seq<GameView>, p: Seq<char>)
    requires
        packed(gs),
    ensures
        packed(spec_assign(gs, p).0),
        num_players(spec_assign(gs, p).0) == num_players(gs) + 1,
        players_mset(spec_assign(gs, p).0) =~= players_mset(gs).insert(p),
        spec_assign(gs, p).0.len() == (num_players(gs) + 2) / 2,
{
    broadcast use vstd::multiset::group_multiset_axioms;

    let r = spec_assign(gs, p);
    lemma_packed_count(gs);
    match first_open(gs) {
        Some(i) => {
            lemma_first_open_some(gs, i);
            assert(i == gs.len() - 1);
            lemma_num_players_update(gs, i, GameView { p1: gs[i].p1, p2: Some(p) });
            assert(packed(r.0)) by {
                assert(forall|j: int| 0 <= j < gs.len() - 1 ==> r.0[j] == gs[j]);
            }
            assert(players_mset(r.0) =~= players_mset(gs).insert(p)) by {
                let old_g = gs[i];
                let new_g = GameView { p1: old_g.p1, p2: Some(p) };
                assert(game_players(new_g) =~= game_players(old_g).insert(p));
                assert(players_mset(r.0).add(game_players(old_g)) =~= players_mset(gs).add(
                    game_players(new_g),
                ));
                assert forall|v: Seq<char>|
                    players_mset(r.0).count(v) == players_mset(gs).insert(p).count(v) by {
                    assert(players_mset(r.0).add(game_players(old_g)).count(v) == players_mset(
                        gs,
                    ).add(game_players(new_g)).count(v));
                    assert(game_players(new_g).count(v) == game_players(old_g).insert(p).count(
                        v,
                    ));
                }
            }
            assert(gs.last().p2 is None);
            assert(num_players(gs) == 2 * gs.len() - 1);
            assert(r.0.len() == gs.len());
        },
        None => {
            lemma_first_open_none(gs);
            lemma_num_players_push(gs, GameView { p1: p, p2: None });
            assert(packed(r.0)) by {
                assert(forall|j: int| 0 <= j < gs.len() ==> r.0[j] == gs[j]);
            }
            assert(players_mset(r.0) =~= players_mset(gs).insert(p)) by {
                assert(game_players(GameView { p1: p, p2: None }) =~= Multiset::empty().insert(
                    p,
                ));
            }
            if gs.len() > 0 {
                assert(gs.last().p2 is Some);
            }
            assert(num_players(gs) == 2 * gs.len());
            assert(r.0.len() == gs.len() + 1);
        },
    }
}

proof fn lemma_first_open_some(gs: Seq<GameView>, i: int)
    requires
        packed(gs),
        first_open(gs) == Some(i),
    ensures
        0 <= i < gs.len(),
        gs[i].p2 is None,
        i == gs.len() - 1,
    decreases gs.len(),
{
    if gs.len() > 0 {
        if gs[0].p2 is None {
        } else {
            let tail = gs.drop_first();
            assert(packed(tail)) by {
                assert(forall|j: int| 0 <= j < tail.len() ==> tail[j] == gs[j + 1]);
            }
            lemma_first_open_some(tail, i - 1);
        }
    }
}

proof fn lemma_first_open_none(gs: Seq<GameView>)
    requires
        first_open(gs) is None,
    ensures
        forall|j: int| 0 <= j < gs.len() ==> (#[trigger] gs[j]).p2 is Some,
    decreases gs.len(),
{
    if gs.len() > 0 {
        lemma_first_open_none(gs.drop_first());
        assert(forall|j: int| 1 <= j < gs.len() ==> gs[j] == gs.drop_first()[j - 1]);
    }
}

/// Assigning a player to an empty registry opens exactly one game: it holds
/// that player alone, its second slot empty, no opponent is reported, and
/// the game's identifier is one.
pub proof fn lemma_assign_empty(p: Seq<char>)
    ensures
        spec_assign(Seq::empty(), p).0 =~= seq![GameView { p1: p, p2: None }],
        spec_assign(Seq::empty(), p).1 == false,
        spec_assign(Seq::empty(), p).2 == 1,
{
    assert(first_open(Seq::empty()) is None);
}

/// Assigning to a registry with one game holding only its first player
/// fills that game's second slot and opens no new game; a further
/// assignment then opens a second game, since the first is full.
pub proof fn lemma_assign_fill(g: GameView, p: Seq<char>, q: Seq<char>)
    requires
        g.p2 is None,
    ensures
        spec_assign(seq![g], p).0 =~= seq![GameView { p1: g.p1, p2: Some(p) }],
        spec_assign(seq![g], p).1 == true,
        spec_assign(seq![g], p).2 == 1,
        spec_assign(spec_assign(seq![g], p).0, q).0 =~= seq![
            GameView { p1: g.p1, p2: Some(p) },
            GameView { p1: q, p2: None },
        ],
        spec_assign(spec_assign(seq![g], p).0, q).1 == false,
        spec_assign(spec_assign(seq![g], p).0, q).2 == 2,
{
    let one = seq![g];
    assert(one[0].p2 is None);
    assert(first_open(one) == Some(0int));
    let filled = spec_assign(one, p).0;
    assert(filled =~= seq![GameView { p1: g.p1, p2: Some(p) }]);
    assert(filled[0].p2 is Some);
    assert(filled.drop_first() =~= Seq::<GameView>::empty());
    assert(first_open(filled.drop_first()) is None);
    assert(first_open(filled) is None);
    assert(spec_assign(filled, q).0 =~= filled.push(GameView { p1: q, p2: None }));
}

/// The registry after a whole sequence of assignments, starting from `gs`.
pub open spec fn assign_all(gs: Seq<GameView>, ps: Seq<Seq<char>>) -> Seq<GameView>
    decreases ps.len(),
{
    if ps.len() == 0 {
        gs
    } else {
        assign_all(spec_assign(gs, ps[0]).0, ps.drop_first())
    }
}

/// Assigning any players to an empty registry, in any order, pairs them:
/// the result holds one game per two players (the last game half full when
/// their number is odd), and each player stands in the games exactly as
/// often as they were assigned — no player is lost, duplicated, or put in
/// two games; no game ever holds more than its two slots.
pub proof fn lemma_assign_all(gs: Seq<GameView>, ps: Seq<Seq<char>>)
    requires
        packed(gs),
    ensures
        packed(assign_all(gs, ps)),
        num_players(assign_all(gs, ps)) == num_players(gs) + ps.len(),
        players_mset(assign_all(gs, ps)) =~= players_mset(gs).add(ps.to_multiset()),
        assign_all(gs, ps).len() == (num_players(gs) + ps.len() + 1) / 2,
    decreases ps.len(),
{
    broadcast use vstd::seq_lib::group_to_multiset_ensures;
    broadcast use vstd::multiset::group_multiset_axioms;

    if ps.len() == 0 {
        lemma_packed_count(gs);
        assert(ps.to_multiset().len() == 0);
        assert(players_mset(gs).add(ps.to_multiset()) =~= players_mset(gs));
    } else {
        lemma_assign_step(gs, ps[0]);
        let gs1 = spec_assign(gs, ps[0]).0;
        lemma_assign_all(gs1, ps.drop_first());
        assert(ps.to_multiset() =~= ps.drop_first().to_multiset().insert(ps[0])) by {
            assert(ps.remove(0) =~= ps.drop_first());
            assert(ps.remove(0).to_multiset() =~= ps.to_multiset().remove(ps[0]));
            assert(ps.contains(ps[0]));
            assert(ps.to_multiset().count(ps[0]) > 0);
        }
        assert(players_mset(gs).insert(ps[0]).add(ps.drop_first().to_multiset())
            =~= players_mset(gs).add(ps.to_multiset()));
    }
}

} // verus!

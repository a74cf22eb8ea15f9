use vstd::prelude::*;
use crate::outcome::Outcome;
use crate::speed::Speed;

verus! {

/// The most rows that one table holds.
pub const CAPACITY: usize = usize::MAX / 4;

/// A stored player. Ids start at 1; 0 stands for "no player".
pub struct Player {
    pub id: usize,
    pub name: String,
    pub game_count: usize,
}

pub struct PlayerView {
    pub id: usize,
    pub name: Seq<char>,
    pub game_count: usize,
}

impl View for Player {
    type V = PlayerView;

    open spec fn view(&self) -> PlayerView {
        PlayerView { id: self.id, name: self.name@, game_count: self.game_count }
    }
}

pub open spec fn opt_view(o: Option<String>) -> Option<Seq<char>> {
    match o {
        Some(s) => Some(s@),
        None => None,
    }
}

/// A stored game.
pub struct Game {
    pub id: usize,
    pub white: usize,
    pub black: usize,
    pub white_rating: i32,
    pub black_rating: i32,
    pub date: Option<String>,
    pub speed: Option<Speed>,
    pub site: Option<String>,
    pub fen: Option<String>,
    pub outcome: Outcome,
    pub moves: String,
}

pub struct GameView {
    pub id: usize,
    pub white: usize,
    pub black: usize,
    pub white_rating: i32,
    pub black_rating: i32,
    pub date: Option<Seq<char>>,
    pub speed: Option<Speed>,
    pub site: Option<Seq<char>>,
    pub fen: Option<Seq<char>>,
    pub outcome: Outcome,
    pub moves: Seq<char>,
}

impl View for Game {
    type V = GameView;

    open spec fn view(&self) -> GameView {
        GameView {
            id: self.id,
            white: self.white,
            black: self.black,
            white_rating: self.white_rating,
            black_rating: self.black_rating,
            date: opt_view(self.date),
            speed: self.speed,
            site: opt_view(self.site),
            fen: opt_view(self.fen),
            outcome: self.outcome,
            moves: self.moves@,
        }
    }
}

/// A game ready to be stored: a `Game` without its id.
pub struct NewGame {
    pub white: usize,
    pub black: usize,
    pub white_rating: i32,
    pub black_rating: i32,
    pub date: Option<String>,
    pub speed: Option<Speed>,
    pub site: Option<String>,
    pub fen: Option<String>,
    pub outcome: Outcome,
    pub moves: String,
}

/// The row that `g` becomes under id `id`.
pub open spec fn row_of(g: NewGame, id: usize) -> GameView {
    GameView {
        id,
        white: g.white,
        black: g.black,
        white_rating: g.white_rating,
        black_rating: g.black_rating,
        date: opt_view(g.date),
        speed: g.speed,
        site: opt_view(g.site),
        fen: opt_view(g.fen),
        outcome: g.outcome,
        moves: g.moves@,
    }
}

#[derive(Debug, Clone, Copy, PartialEq, Eq, Structural)]
pub enum StoreError {
    /// A table holds `CAPACITY` rows already.
    Full,
}

/// The tables: players, games, and the title.
pub struct Store {
    pub players: Vec<Player>,
    pub games: Vec<Game>,
    pub title: String,
}

pub struct StoreView {
    pub players: Seq<PlayerView>,
    pub games: Seq<GameView>,
    pub title: Seq<char>,
}

impl View for Store {
    type V = StoreView;

    open spec fn view(&self) -> StoreView {
        StoreView {
            players: self.players@.map_values(|p: Player| p@),
            games: self.games@.map_values(|g: Game| g@),
            title: self.title@,
        }
    }
}

/// How many sides of `games` player `id` sat on.
pub open spec fn appearances(games: Seq<GameView>, id: usize) -> nat
    decreases games.len(),
{
    if games.len() == 0 {
        0
    } else {
        appearances(games.drop_last(), id) + (if games.last().white == id { 1nat } else { 0nat })
            + (if games.last().black == id { 1nat } else { 0nat })
    }
}

/// Whether a player named `name` is stored.
pub open spec fn has_player(players: Seq<PlayerView>, name: Seq<char>) -> bool {
    exists|i: int| 0 <= i < players.len() && (#[trigger] players[i]).name == name
}

/// The id of the player named `name` (meaningful where `has_player` holds).
pub open spec fn player_id(players: Seq<PlayerView>, name: Seq<char>) -> usize {
    let i = choose|i: int| 0 <= i < players.len() && (#[trigger] players[i]).name == name;
    (i + 1) as usize
}

impl StoreView {
    /// Ids are positions plus one, names are unique, every game names stored
    /// players (or none), and each player's count is how often they played.
    pub open spec fn wf(self) -> bool {
        &&& self.players.len() <= CAPACITY
        &&& self.games.len() <= CAPACITY
        &&& forall|i: int| 0 <= i < self.players.len() ==> (#[trigger] self.players[i]).id == i + 1
        &&& forall|i: int, j: int|
            0 <= i < self.players.len() && 0 <= j < self.players.len() && i != j
                ==> (#[trigger] self.players[i]).name != (#[trigger] self.players[j]).name
        &&& forall|i: int| 0 <= i < self.games.len() ==> (#[trigger] self.games[i]).id == i + 1
        &&& forall|i: int|
            0 <= i < self.games.len() ==> (#[trigger] self.games[i]).white <= self.players.len()
                && self.games[i].black <= self.players.len()
        &&& forall|i: int|
            0 <= i < self.players.len() ==> (#[trigger] self.players[i]).game_count == appearances(
                self.games,
                (i + 1) as usize,
            )
    }
}

pub proof fn lemma_appearances_bound(games: Seq<GameView>, id: usize)
    ensures
        appearances(games, id) <= 2 * games.len(),
    decreases games.len(),
{
    if games.len() > 0 {
        lemma_appearances_bound(games.drop_last(), id);
    }
}

pub proof fn lemma_appearances_absent(games: Seq<GameView>, id: usize)
    requires
        forall|i: int| 0 <= i < games.len() ==> (#[trigger] games[i]).white != id && games[i].black != id,
    ensures
        appearances(games, id) == 0,
    decreases games.len(),
{
    if games.len() > 0 {
        let d = games.drop_last();
        assert forall|i: int| 0 <= i < d.len() implies (#[trigger] d[i]).white != id && d[i].black != id by {
            assert(d[i] == games[i]);
        }
        lemma_appearances_absent(d, id);
        assert(games.last() == games[games.len() - 1]);
    }
}

pub proof fn lemma_appearances_push(games: Seq<GameView>, g: GameView, id: usize)
    ensures
        appearances(games.push(g), id) == appearances(games, id) + (if g.white == id { 1nat } else { 0nat })
            + (if g.black == id { 1nat } else { 0nat }),
{
    assert(games.push(g).drop_last() =~= games);
}

pub(crate) fn copy_opt(o: &Option<String>) -> (r: Option<String>)
    ensures
        opt_view(r) == opt_view(*o),
{
    match o {
        Some(s) => Some(s.clone()),
        None => None,
    }
}

impl Player {
    pub fn copy(&self) -> (r: Player)
        ensures
            r@ == self@,
    {
        Player { id: self.id, name: self.name.clone(), game_count: self.game_count }
    }
}

impl Game {
    pub fn copy(&self) -> (r: Game)
        ensures
            r@ == self@,
    {
        Game {
            id: self.id,
            white: self.white,
            black: self.black,
            white_rating: self.white_rating,
            black_rating: self.black_rating,
            date: copy_opt(&self.date),
            speed: self.speed,
            site: copy_opt(&self.site),
            fen: copy_opt(&self.fen),
            outcome: self.outcome,
            moves: self.moves.clone(),
        }
    }
}

impl Store {
    /// An empty store titled "Untitled".
    pub fn new() -> (r: Store)
        ensures
            r@.wf(),
            r@.players.len() == 0,
            r@.games.len() == 0,
            r@.title == "Untitled"@,
    {
        Store { players: Vec::new(), games: Vec::new(), title: "Untitled".to_string() }
    }

    /// Finds the player named `name`.
    pub fn find_player(&self, name: &str) -> (r: Option<usize>)
        requires
            self@.wf(),
        ensures
            r.is_some() == has_player(self@.players, name@),
            r.is_some() ==> r.unwrap() == player_id(self@.players, name@),
    {
        let mut i: usize = 0;
        while i < self.players.len()
            invariant
                self@.wf(),
                i <= self.players.len(),
                forall|j: int| 0 <= j < i ==> (#[trigger] self@.players[j]).name != name@,
            decreases self.players.len() - i,
        {
            if crate::text::str_eq(self.players[i].name.as_str(), name) {
                proof {
                    assert(self@.players[i as int].name == name@);
                    let k = choose|k: int|
                        0 <= k < self@.players.len() && (#[trigger] self@.players[k]).name == name@;
                    assert(k == i);
                }
                return Some(i + 1);
            }
            proof {
                assert(self@.players[i as int].name != name@);
            }
            i = i + 1;
        }
        None
    }

    /// The id of the player named `name`, who is added with no games if new.
    pub fn get_or_create_player(&mut self, name: &str) -> (r: Result<usize, StoreError>)
        requires
            old(self)@.wf(),
        ensures
            final(self)@.wf(),
            final(self)@.games == old(self)@.games,
            final(self)@.title == old(self)@.title,
            has_player(old(self)@.players, name@) ==> r == Ok::<usize, StoreError>(
                player_id(old(self)@.players, name@),
            ) && final(self)@.players == old(self)@.players,
            !has_player(old(self)@.players, name@) && old(self)@.players.len() >= CAPACITY ==> r
                == Err::<usize, StoreError>(StoreError::Full) && final(self)@.players == old(self)@.players,
            !has_player(old(self)@.players, name@) && old(self)@.players.len() < CAPACITY ==> r
                == Ok::<usize, StoreError>((old(self)@.players.len() + 1) as usize)
                && final(self)@.players == old(self)@.players.push(
                PlayerView { id: (old(self)@.players.len() + 1) as usize, name: name@, game_count: 0 },
            ),
            r is Ok ==> has_player(final(self)@.players, name@) && r->Ok_0 == player_id(
                final(self)@.players,
                name@,
            ),
    {
        match self.find_player(name) {
            Some(id) => Ok(id),
            None => {
                if self.players.len() >= CAPACITY {
                    return Err(StoreError::Full);
                }
                let id = self.players.len() + 1;
                let ghost before = self@;
                self.players.push(Player { id, name: name.to_string(), game_count: 0 });
                proof {
                    assert(self@.players =~= before.players.push(
                        PlayerView { id, name: name@, game_count: 0 },
                    ));
                    assert(self@.games == before.games);
                    assert(self@.players[id - 1].name == name@);
                    assert(has_player(self@.players, name@));
                    let k = choose|k: int|
                        0 <= k < self@.players.len() && (#[trigger] self@.players[k]).name == name@;
                    if k != id - 1 {
                        assert(before.players[k].name == name@);
                    }
                    assert(self@.games.len() == before.games.len());
                    assert forall|i: int| 0 <= i < before.games.len() implies (#[trigger] before.games[i]).white
                        != id && before.games[i].black != id by {}
                    lemma_appearances_absent(before.games, id);
                    assert forall|i: int, j: int|
                        0 <= i < self@.players.len() && 0 <= j < self@.players.len() && i != j
                        implies (#[trigger] self@.players[i]).name != (#[trigger] self@.players[j]).name by {
                        if i < before.players.len() && j < before.players.len() {
                            assert(self@.players[i] == before.players[i]);
                            assert(self@.players[j] == before.players[j]);
                        } else if i < before.players.len() {
                            assert(self@.players[i] == before.players[i]);
                        } else {
                            assert(self@.players[j] == before.players[j]);
                        }
                    }
                }
                Ok(id)
            },
        }
    }

    /// Adds game `g` under the next id, and counts it for each side's player.
    pub fn create_game(&mut self, g: NewGame) -> (r: Result<usize, StoreError>)
        requires
            old(self)@.wf(),
            g.white <= old(self)@.players.len(),
            g.black <= old(self)@.players.len(),
        ensures
            final(self)@.wf(),
            final(self)@.title == old(self)@.title,
            old(self)@.games.len() >= CAPACITY ==> r == Err::<usize, StoreError>(StoreError::Full)
                && final(self)@ == old(self)@,
            old(self)@.games.len() < CAPACITY ==> r == Ok::<usize, StoreError>(
                (old(self)@.games.len() + 1) as usize,
            ) && final(self)@.games == old(self)@.games.push(
                row_of(g, (old(self)@.games.len() + 1) as usize),
            ) && final(self)@.players.len() == old(self)@.players.len() && (forall|i: int|
                0 <= i < old(self)@.players.len() ==> (#[trigger] final(self)@.players[i]).name
                    == old(self)@.players[i].name),
    {
        if self.games.len() >= CAPACITY {
            return Err(StoreError::Full);
        }
        let ghost before = self@;
        let id = self.games.len() + 1;
        let white = g.white;
        let black = g.black;
        let row = Game {
            id,
            white: g.white,
            black: g.black,
            white_rating: g.white_rating,
            black_rating: g.black_rating,
            date: g.date,
            speed: g.speed,
            site: g.site,
            fen: g.fen,
            outcome: g.outcome,
            moves: g.moves,
        };
        let ghost rv = row@;
        self.games.push(row);
        let ghost mid = self@;
        proof {
            assert(mid.games =~= before.games.push(rv));
            assert forall|i: int| 0 <= i < before.players.len() implies #[trigger] appearances(
                mid.games,
                (i + 1) as usize,
            ) == appearances(before.games, (i + 1) as usize) + (if white == i + 1 { 1nat } else { 0nat })
                + (if black == i + 1 { 1nat } else { 0nat }) && appearances(mid.games, (i + 1) as usize)
                <= 2 * mid.games.len() by {
                lemma_appearances_push(before.games, rv, (i + 1) as usize);
                lemma_appearances_bound(mid.games, (i + 1) as usize);
            }
        }
        let mut i: usize = 0;
        while i < self.players.len()
            invariant
                mid.players.len() == self@.players.len(),
                self@.games == mid.games,
                self@.title == mid.title,
                i <= self.players.len(),
                mid.games.len() <= CAPACITY,
                forall|j: int| 0 <= j < mid.players.len() ==> (#[trigger] self@.players[j]).name == mid.players[j].name
                    && self@.players[j].id == mid.players[j].id,
                forall|j: int| 0 <= j < i ==> (#[trigger] self@.players[j]).game_count == appearances(
                    mid.games,
                    (j + 1) as usize,
                ),
                forall|j: int| i <= j < mid.players.len() ==> (#[trigger] self@.players[j]).game_count == mid.players[j].game_count,
                forall|j: int| 0 <= j < mid.players.len() ==> mid.players[j].id == j + 1,
                forall|j: int| 0 <= j < mid.players.len() ==> (#[trigger] mid.players[j]).game_count == appearances(
                    before.games,
                    (j + 1) as usize,
                ),
                forall|j: int| 0 <= j < mid.players.len() ==> #[trigger] appearances(
                    mid.games,
                    (j + 1) as usize,
                ) == appearances(before.games, (j + 1) as usize) + (if white == j + 1 { 1nat } else { 0nat })
                    + (if black == j + 1 { 1nat } else { 0nat }) && appearances(mid.games, (j + 1) as usize)
                    <= 2 * mid.games.len(),
            decreases self.players.len() - i,
        {
            let step: usize = (if white == i + 1 { 1 } else { 0 }) + (if black == i + 1 { 1 } else { 0 });
            proof {
                let k = i as int;
                assert(self@.players[k].game_count == mid.players[k].game_count);
                assert(mid.players[k].game_count == appearances(before.games, (k + 1) as usize));
                assert(appearances(mid.games, (k + 1) as usize) <= 2 * mid.games.len());
            }
            let ghost prev = self@;
            if step > 0 {
                let p = Player {
                    id: self.players[i].id,
                    name: self.players[i].name.clone(),
                    game_count: self.players[i].game_count + step,
                };
                self.players.set(i, p);
                proof {
                    assert forall|j: int| 0 <= j < mid.players.len() && j != i implies (#[trigger] self@.players[j])
                        == prev.players[j] by {}
                }
            }
            proof {
                let k = i as int;
                assert(self@.players[k].game_count == appearances(mid.games, (k + 1) as usize));
            }
            i = i + 1;
        }
        proof {
            assert(self@.games.len() == before.games.len() + 1);
        }
        Ok(id)
    }

    /// Whether the store is well formed: checks what a store read from
    /// elsewhere must hold before it is queried.
    pub fn is_wf(&self) -> (r: bool)
        ensures
            r == self@.wf(),
    {
        let np = self.players.len();
        let ng = self.games.len();
        if np > CAPACITY || ng > CAPACITY {
            return false;
        }
        let mut i: usize = 0;
        while i < np
            invariant
                np == self@.players.len(),
                i <= np,
                forall|j: int| 0 <= j < i ==> (#[trigger] self@.players[j]).id == j + 1,
            decreases np - i,
        {
            if self.players[i].id != i + 1 {
                proof {
                    assert(self@.players[i as int].id != i + 1);
                }
                return false;
            }
            i = i + 1;
        }
        let mut i: usize = 0;
        while i < np
            invariant
                np == self@.players.len(),
                i <= np,
                forall|a: int, b: int|
                    0 <= a < i && 0 <= b < np && a != b ==> (#[trigger] self@.players[a]).name
                        != (#[trigger] self@.players[b]).name,
            decreases np - i,
        {
            let mut j: usize = 0;
            while j < np
                invariant
                    np == self@.players.len(),
                    i < np,
                    j <= np,
                    forall|a: int, b: int|
                        0 <= a < i && 0 <= b < np && a != b ==> (#[trigger] self@.players[a]).name
                            != (#[trigger] self@.players[b]).name,
                    forall|b: int| 0 <= b < j && b != i ==> self@.players[i as int].name != (#[trigger] self@.players[b]).name,
                decreases np - j,
            {
                if j != i && crate::text::str_eq(self.players[i].name.as_str(), self.players[j].name.as_str()) {
                    proof {
                        assert(self@.players[i as int].name == self@.players[j as int].name);
                    }
                    return false;
                }
                j = j + 1;
            }
            proof {
                assert forall|a: int, b: int|
                    0 <= a < i + 1 && 0 <= b < np && a != b implies (#[trigger] self@.players[a]).name
                        != (#[trigger] self@.players[b]).name by {
                    if a == i && b != i {
                        assert(self@.players[i as int].name != self@.players[b].name);
                    }
                }
            }
            i = i + 1;
        }
        let mut counts: Vec<usize> = Vec::new();
        let mut j: usize = 0;
        while j <= np
            invariant
                np <= CAPACITY,
                j <= np + 1,
                counts@.len() == j,
                forall|t: int| 0 <= t < j ==> counts@[t] == 0,
            decreases np + 1 - j,
        {
            counts.push(0);
            j = j + 1;
        }
        let ghost gs = self@.games;
        proof {
            assert(gs.subrange(0, 0) =~= seq![]);
        }
        let mut k: usize = 0;
        while k < ng
            invariant
                gs == self@.games,
                ng == gs.len(),
                np == self@.players.len(),
                ng <= CAPACITY,
                k <= ng,
                counts@.len() == np + 1,
                forall|t: int| 0 <= t < k ==> (#[trigger] gs[t]).id == t + 1 && gs[t].white <= np && gs[t].black <= np,
                forall|id: int| 0 <= id <= np ==> #[trigger] counts@[id] == appearances(gs.subrange(0, k as int), id as usize),
            decreases ng - k,
        {
            let g = &self.games[k];
            if g.id != k + 1 || g.white > np || g.black > np {
                return false;
            }
            let ghost prev = gs.subrange(0, k as int);
            let ghost next = gs.subrange(0, k + 1);
            proof {
                assert(gs[k as int] == g@);
                assert(next =~= prev.push(gs[k as int]));
                assert forall|id: int| 0 <= id <= np implies #[trigger] appearances(next, id as usize) == appearances(
                    prev,
                    id as usize,
                ) + (if gs[k as int].white == id { 1nat } else { 0nat }) + (if gs[k as int].black == id { 1nat } else { 0nat })
                    && appearances(prev, id as usize) <= 2 * prev.len() by {
                    lemma_appearances_push(prev, gs[k as int], id as usize);
                    lemma_appearances_bound(prev, id as usize);
                }
                assert(counts@[g.white as int] == appearances(prev, g.white));
                assert(counts@[g.black as int] == appearances(prev, g.black));
                lemma_appearances_bound(prev, g.white);
                lemma_appearances_bound(prev, g.black);
                assert(prev.len() == k);
            }
            let w = counts[g.white] + 1;
            counts.set(g.white, w);
            let b = counts[g.black] + 1;
            counts.set(g.black, b);
            proof {
                assert forall|id: int| 0 <= id <= np implies #[trigger] counts@[id] == appearances(next, id as usize) by {
                    assert(appearances(next, id as usize) == appearances(prev, id as usize) + (if gs[k as int].white == id {
                        1nat
                    } else {
                        0nat
                    }) + (if gs[k as int].black == id { 1nat } else { 0nat }));
                }
            }
            k = k + 1;
        }
        proof {
            assert(gs.subrange(0, ng as int) =~= gs);
        }
        let mut i: usize = 0;
        while i < np
            invariant
                gs == self@.games,
                np == self@.players.len(),
                counts@.len() == np + 1,
                i <= np,
                forall|id: int| 0 <= id <= np ==> #[trigger] counts@[id] == appearances(gs, id as usize),
                forall|j: int| 0 <= j < i ==> (#[trigger] self@.players[j]).game_count == appearances(gs, (j + 1) as usize),
            decreases np - i,
        {
            if self.players[i].game_count != counts[i + 1] {
                proof {
                    assert(counts@[i + 1] == appearances(gs, (i + 1) as usize));
                    assert(self@.players[i as int].game_count != appearances(gs, (i + 1) as usize));
                }
                return false;
            }
            proof {
                assert(counts@[i + 1] == appearances(gs, (i + 1) as usize));
            }
            i = i + 1;
        }
        true
    }

    /// Sets the title.
    pub fn rename(&mut self, title: String)
        ensures
            final(self)@.title == title@,
            final(self)@.players == old(self)@.players,
            final(self)@.games == old(self)@.games,
    {
        self.title = title;
    }
}

/// A name is held by one player at most, and that player's count is the
/// number of sides they sat on.
pub proof fn lemma_one_player_per_name(s: StoreView, i: int, j: int)
    requires
        s.wf(),
        0 <= i < s.players.len(),
        0 <= j < s.players.len(),
        s.players[i].name == s.players[j].name,
    ensures
        i == j,
        s.players[i].game_count == appearances(s.games, (i + 1) as usize),
{
}

proof fn lemma_appearances_one(gs: Seq<GameView>, id: usize, x: int)
    requires
        0 <= x < gs.len(),
        gs[x].white == id,
    ensures
        appearances(gs, id) >= 1,
    decreases gs.len(),
{
    if x < gs.len() - 1 {
        assert(gs.drop_last()[x] == gs[x]);
        lemma_appearances_one(gs.drop_last(), id, x);
    }
}

/// Two games with player `id` as white count twice.
pub proof fn lemma_appearances_two(gs: Seq<GameView>, id: usize, x: int, y: int)
    requires
        0 <= x < y < gs.len(),
        gs[x].white == id,
        gs[y].white == id,
    ensures
        appearances(gs, id) >= 2,
    decreases gs.len(),
{
    assert(gs.drop_last()[x] == gs[x]);
    if y == gs.len() - 1 {
        lemma_appearances_one(gs.drop_last(), id, x);
    } else {
        assert(gs.drop_last()[y] == gs[y]);
        lemma_appearances_two(gs.drop_last(), id, x, y);
    }
}

} // verus!

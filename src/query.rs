use vstd::prelude::*;
use crate::outcome::Outcome;
use crate::speed::Speed;
use crate::store::{opt_view, has_player, player_id, Game, GameView, Player, PlayerView, Store, StoreView};
use crate::text::{contains, str_contains};

verus! {

/// Which named player sits on which side.
#[derive(Debug, Clone, Copy, PartialEq, Eq, Structural)]
pub enum Sides {
    BlackWhite,
    WhiteBlack,
    Any,
}

/// A filtered, paginated request for games.
pub struct GameQuery {
    pub skip_count: bool,
    pub player1: Option<String>,
    pub player2: Option<String>,
    pub range1: Option<(u16, u16)>,
    pub range2: Option<(u16, u16)>,
    pub sides: Option<Sides>,
    pub speed: Option<Speed>,
    pub outcome: Option<Outcome>,
    pub limit: Option<i64>,
    pub offset: Option<i64>,
}

/// Rows of one page, and the number of rows on all pages unless skipped.
pub struct QueryResponse<T> {
    pub data: T,
    pub count: Option<i64>,
}

/// A filtered, paginated request for players.
pub struct PlayerQuery {
    pub skip_count: bool,
    pub name: Option<String>,
    pub limit: Option<u64>,
    pub offset: Option<u64>,
}

/// A player's results.
pub struct PlayerGameInfo {
    pub won: usize,
    pub lost: usize,
    pub draw: usize,
}

/// A summary of a store.
pub struct DatabaseInfo {
    pub title: String,
    pub description: String,
    pub player_count: usize,
    pub game_count: usize,
    pub storage_size: usize,
}

/// Whom a player filter admits: anyone (no name given), nobody (a name that
/// no player has), or the player with the given id.
#[derive(Debug, Clone, Copy, PartialEq, Eq, Structural)]
pub enum Who {
    Anyone,
    Nobody,
    Id(usize),
}

pub open spec fn who_of(players: Seq<PlayerView>, name: Option<Seq<char>>) -> Who {
    match name {
        None => Who::Anyone,
        Some(n) => if has_player(players, n) {
            Who::Id(player_id(players, n))
        } else {
            Who::Nobody
        },
    }
}

pub open spec fn who_admits(w: Who, id: usize) -> bool {
    match w {
        Who::Anyone => true,
        Who::Nobody => false,
        Who::Id(x) => x == id,
    }
}

pub open spec fn in_range(r: Option<(u16, u16)>, x: i32) -> bool {
    match r {
        None => true,
        Some((lo, hi)) => lo <= x <= hi,
    }
}

/// White is admitted by `w` and rated within `rw`, black by `b` within `rb`.
pub open spec fn side_clause(w: Who, b: Who, rw: Option<(u16, u16)>, rb: Option<(u16, u16)>, g: GameView) -> bool {
    who_admits(w, g.white) && who_admits(b, g.black) && in_range(rw, g.white_rating) && in_range(
        rb,
        g.black_rating,
    )
}

/// Whether game `g` passes the filters of `q`, its players resolved to `first` and `second`.
pub open spec fn game_matches(q: GameQuery, first: Who, second: Who, g: GameView) -> bool {
    let white_black = side_clause(first, second, q.range1, q.range2, g);
    let black_white = side_clause(second, first, q.range2, q.range1, g);
    &&& (q.speed.is_none() || g.speed == q.speed)
    &&& (q.outcome.is_none() || Some(g.outcome) == q.outcome)
    &&& match q.sides {
        Some(Sides::WhiteBlack) => white_black,
        Some(Sides::BlackWhite) => black_white,
        _ => white_black || black_white,
    }
}

/// The games of `gs` that `q` admits, last first.
pub open spec fn select_desc(gs: Seq<GameView>, q: GameQuery, first: Who, second: Who) -> Seq<GameView>
    decreases gs.len(),
{
    if gs.len() == 0 {
        seq![]
    } else {
        let rest = select_desc(gs.drop_first(), q, first, second);
        if game_matches(q, first, second, gs[0]) {
            rest.push(gs[0])
        } else {
            rest
        }
    }
}

/// The players of `ps` whose names hold `name`, in order.
pub open spec fn select_players(ps: Seq<PlayerView>, name: Option<Seq<char>>) -> Seq<PlayerView>
    decreases ps.len(),
{
    if ps.len() == 0 {
        seq![]
    } else {
        let rest = select_players(ps.drop_last(), name);
        if player_matches(name, ps.last()) {
            rest.push(ps.last())
        } else {
            rest
        }
    }
}

/// Where a page starts: a negative or absent offset is none.
pub open spec fn page_start(len: int, offset: Option<int>) -> int {
    match offset {
        Some(o) if o > 0 => if o < len {
            o
        } else {
            len
        },
        _ => 0,
    }
}

/// Where a page ends: a negative or absent limit is none.
pub open spec fn page_end(len: int, offset: Option<int>, limit: Option<int>) -> int {
    let start = page_start(len, offset);
    match limit {
        Some(l) if l >= 0 => if start + l < len {
            start + l
        } else {
            len
        },
        _ => len,
    }
}

pub open spec fn page<A>(s: Seq<A>, offset: Option<int>, limit: Option<int>) -> Seq<A> {
    s.subrange(page_start(s.len() as int, offset), page_end(s.len() as int, offset, limit))
}

pub open spec fn opt_int_i64(o: Option<i64>) -> Option<int> {
    match o {
        Some(x) => Some(x as int),
        None => None,
    }
}

pub open spec fn opt_int_u64(o: Option<u64>) -> Option<int> {
    match o {
        Some(x) => Some(x as int),
        None => None,
    }
}

/// All games of `s` that `q` asks for, newest first, before pagination.
pub open spec fn games_matching(s: StoreView, q: GameQuery) -> Seq<GameView> {
    let first = who_of(s.players, opt_view(q.player1));
    let second = who_of(s.players, opt_view(q.player2));
    select_desc(s.games, q, first, second)
}

/// Whether player `p` passes the name filter.
pub open spec fn player_matches(name: Option<Seq<char>>, p: PlayerView) -> bool {
    match name {
        None => true,
        Some(n) => contains(p.name, n),
    }
}

/// All players of `s` that `q` asks for, by ascending id, before pagination.
pub open spec fn players_matching(s: StoreView, q: PlayerQuery) -> Seq<PlayerView> {
    select_players(s.players, opt_view(q.name))
}

/// Player `id`'s wins, losses and draws in `gs`, each counted from the side they sat on.
pub open spec fn results_of(gs: Seq<GameView>, id: usize) -> (nat, nat, nat)
    decreases gs.len(),
{
    if gs.len() == 0 {
        (0, 0, 0)
    } else {
        let (w, l, d) = results_of(gs.drop_last(), id);
        let g = gs.last();
        if g.white != id && g.black != id {
            (w, l, d)
        } else if g.outcome == Outcome::Draw {
            (w, l, d + 1)
        } else if (g.white == id) == (g.outcome == Outcome::WhiteWin) {
            (w + 1, l, d)
        } else {
            (w, l + 1, d)
        }
    }
}

fn resolve(store: &Store, name: &Option<String>) -> (r: Who)
    requires
        store@.wf(),
    ensures
        r == who_of(store@.players, opt_view(*name)),
{
    match name {
        None => Who::Anyone,
        Some(n) => match store.find_player(n.as_str()) {
            Some(id) => Who::Id(id),
            None => Who::Nobody,
        },
    }
}

fn who_admits_exec(w: Who, id: usize) -> (r: bool)
    ensures
        r == who_admits(w, id),
{
    match w {
        Who::Anyone => true,
        Who::Nobody => false,
        Who::Id(x) => x == id,
    }
}

fn in_range_exec(r: Option<(u16, u16)>, x: i32) -> (b: bool)
    ensures
        b == in_range(r, x),
{
    match r {
        None => true,
        Some((lo, hi)) => lo as i32 <= x && x <= hi as i32,
    }
}

fn side_clause_exec(w: Who, b: Who, rw: Option<(u16, u16)>, rb: Option<(u16, u16)>, g: &Game) -> (r: bool)
    ensures
        r == side_clause(w, b, rw, rb, g@),
{
    who_admits_exec(w, g.white) && who_admits_exec(b, g.black) && in_range_exec(rw, g.white_rating)
        && in_range_exec(rb, g.black_rating)
}

/// Whether game `g` passes the filters of `q`, its players resolved to `first` and `second`.
pub fn matches_game(q: &GameQuery, first: Who, second: Who, g: &Game) -> (r: bool)
    ensures
        r == game_matches(*q, first, second, g@),
{
    let speed_ok = match q.speed {
        None => true,
        Some(s) => g.speed == Some(s),
    };
    let outcome_ok = match q.outcome {
        None => true,
        Some(o) => g.outcome == o,
    };
    let white_black = side_clause_exec(first, second, q.range1, q.range2, g);
    let black_white = side_clause_exec(second, first, q.range2, q.range1, g);
    let sides_ok = match q.sides {
        Some(Sides::WhiteBlack) => white_black,
        Some(Sides::BlackWhite) => black_white,
        _ => white_black || black_white,
    };
    speed_ok && outcome_ok && sides_ok
}

fn page_bounds(len: usize, offset: Option<i64>, limit: Option<i64>) -> (r: (usize, usize))
    ensures
        r.0 as int == page_start(len as int, opt_int_i64(offset)),
        r.1 as int == page_end(len as int, opt_int_i64(offset), opt_int_i64(limit)),
{
    let start: usize = match offset {
        Some(o) if o > 0 => if (o as u64) < (len as u64) {
            o as usize
        } else {
            len
        },
        _ => 0,
    };
    let end: usize = match limit {
        Some(l) if l >= 0 => if (l as u64) < ((len - start) as u64) {
            start + l as usize
        } else {
            len
        },
        _ => len,
    };
    (start, end)
}

fn page_bounds_u64(len: usize, offset: Option<u64>, limit: Option<u64>) -> (r: (usize, usize))
    ensures
        r.0 as int == page_start(len as int, opt_int_u64(offset)),
        r.1 as int == page_end(len as int, opt_int_u64(offset), opt_int_u64(limit)),
{
    let start: usize = match offset {
        Some(o) if o > 0 => if o < (len as u64) {
            o as usize
        } else {
            len
        },
        _ => 0,
    };
    let end: usize = match limit {
        Some(l) => if l < ((len - start) as u64) {
            start + l as usize
        } else {
            len
        },
        _ => len,
    };
    (start, end)
}

/// One page of the games that `query` asks for, newest first, and their
/// number before pagination unless `skip_count`.
pub fn get_games(store: &Store, query: &GameQuery) -> (r: QueryResponse<Vec<Game>>)
    requires
        store@.wf(),
    ensures
        r.data@.map_values(|g: Game| g@) == page(
            games_matching(store@, *query),
            opt_int_i64(query.offset),
            opt_int_i64(query.limit),
        ),
        r.count == (if query.skip_count {
            None
        } else {
            Some(games_matching(store@, *query).len() as i64)
        }),
{
    let first = resolve(store, &query.player1);
    let second = resolve(store, &query.player2);
    let ghost gs = store@.games;
    let n = store.games.len();
    let mut all: Vec<Game> = Vec::new();
    let mut i: usize = n;
    proof {
        assert(gs.subrange(n as int, n as int) =~= seq![]);
    }
    while i > 0
        invariant
            gs == store@.games,
            n == gs.len(),
            i <= n,
            all@.map_values(|g: Game| g@) == select_desc(gs.subrange(i as int, n as int), *query, first, second),
            all@.len() <= n - i,
        decreases i,
    {
        i = i - 1;
        proof {
            assert(gs.subrange(i as int, n as int).drop_first() =~= gs.subrange(i + 1, n as int));
            assert(gs.subrange(i as int, n as int)[0] == gs[i as int]);
            assert(gs[i as int] == store.games@[i as int]@);
        }
        if matches_game(query, first, second, &store.games[i]) {
            let ghost before = all@.map_values(|g: Game| g@);
            all.push(store.games[i].copy());
            proof {
                assert(all@.map_values(|g: Game| g@) =~= before.push(gs[i as int]));
            }
        }
    }
    proof {
        assert(gs.subrange(0, n as int) =~= gs);
    }
    let ghost full = all@.map_values(|g: Game| g@);
    let count = if query.skip_count {
        None
    } else {
        proof {
            assert(all@.len() <= crate::store::CAPACITY);
        }
        Some(all.len() as i64)
    };
    let (start, end) = page_bounds(all.len(), query.offset, query.limit);
    let mut data: Vec<Game> = Vec::new();
    let mut k: usize = start;
    while k < end
        invariant
            full == all@.map_values(|g: Game| g@),
            start <= k <= end <= all@.len(),
            data@.map_values(|g: Game| g@) == full.subrange(start as int, k as int),
        decreases end - k,
    {
        let ghost before = data@.map_values(|g: Game| g@);
        data.push(all[k].copy());
        proof {
            assert(data@.map_values(|g: Game| g@) =~= before.push(all@[k as int]@));
            assert(full[k as int] == all@[k as int]@);
            assert(data@.map_values(|g: Game| g@) =~= full.subrange(start as int, k + 1));
        }
        k = k + 1;
    }
    QueryResponse { data, count }
}

/// One page of the players that `query` asks for, by ascending id, and their
/// number before pagination unless `skip_count`.
pub fn get_players(store: &Store, query: &PlayerQuery) -> (r: QueryResponse<Vec<Player>>)
    requires
        store@.wf(),
    ensures
        r.data@.map_values(|p: Player| p@) == page(
            players_matching(store@, *query),
            opt_int_u64(query.offset),
            opt_int_u64(query.limit),
        ),
        r.count == (if query.skip_count {
            None
        } else {
            Some(players_matching(store@, *query).len() as i64)
        }),
{
    let ghost ps = store@.players;
    let ghost name = opt_view(query.name);
    let n = store.players.len();
    let mut all: Vec<Player> = Vec::new();
    let mut i: usize = 0;
    proof {
        assert(ps.subrange(0, 0) =~= seq![]);
    }
    while i < n
        invariant
            ps == store@.players,
            name == opt_view(query.name),
            n == ps.len(),
            i <= n,
            all@.map_values(|p: Player| p@) == select_players(ps.subrange(0, i as int), name),
            all@.len() <= i,
        decreases n - i,
    {
        proof {
            assert(ps.subrange(0, i + 1).drop_last() =~= ps.subrange(0, i as int));
            assert(ps.subrange(0, i + 1).last() == ps[i as int]);
            assert(ps[i as int] == store.players@[i as int]@);
        }
        let keep = match &query.name {
            None => true,
            Some(sub) => str_contains(store.players[i].name.as_str(), sub.as_str()),
        };
        if keep {
            let ghost before = all@.map_values(|p: Player| p@);
            all.push(store.players[i].copy());
            proof {
                assert(all@.map_values(|p: Player| p@) =~= before.push(ps[i as int]));
            }
        }
        i = i + 1;
    }
    proof {
        assert(ps.subrange(0, n as int) =~= ps);
    }
    let ghost full = all@.map_values(|p: Player| p@);
    let count = if query.skip_count {
        None
    } else {
        proof {
            assert(all@.len() <= crate::store::CAPACITY);
        }
        Some(all.len() as i64)
    };
    let (start, end) = page_bounds_u64(all.len(), query.offset, query.limit);
    let mut data: Vec<Player> = Vec::new();
    let mut k: usize = start;
    while k < end
        invariant
            full == all@.map_values(|p: Player| p@),
            start <= k <= end <= all@.len(),
            data@.map_values(|p: Player| p@) == full.subrange(start as int, k as int),
        decreases end - k,
    {
        let ghost before = data@.map_values(|p: Player| p@);
        data.push(all[k].copy());
        proof {
            assert(data@.map_values(|p: Player| p@) =~= before.push(all@[k as int]@));
            assert(full[k as int] == all@[k as int]@);
            assert(data@.map_values(|p: Player| p@) =~= full.subrange(start as int, k + 1));
        }
        k = k + 1;
    }
    QueryResponse { data, count }
}

/// Player `id`'s wins, losses and draws over all stored games.
pub fn get_players_game_info(store: &Store, id: usize) -> (r: PlayerGameInfo)
    requires
        store@.wf(),
    ensures
        (r.won as nat, r.lost as nat, r.draw as nat) == results_of(store@.games, id),
{
    let ghost gs = store@.games;
    let mut info = PlayerGameInfo { won: 0, lost: 0, draw: 0 };
    let mut i: usize = 0;
    proof {
        assert(gs.subrange(0, 0) =~= seq![]);
    }
    while i < store.games.len()
        invariant
            gs == store@.games,
            i <= gs.len(),
            (info.won as nat, info.lost as nat, info.draw as nat) == results_of(gs.subrange(0, i as int), id),
            info.won + info.lost + info.draw <= i,
        decreases gs.len() - i,
    {
        proof {
            assert(gs.subrange(0, i + 1).drop_last() =~= gs.subrange(0, i as int));
            assert(gs.subrange(0, i + 1).last() == gs[i as int]);
            assert(gs[i as int] == store.games@[i as int]@);
        }
        let g = &store.games[i];
        if g.white == id || g.black == id {
            if g.outcome == Outcome::Draw {
                info.draw = info.draw + 1;
            } else if (g.white == id) == (g.outcome == Outcome::WhiteWin) {
                info.won = info.won + 1;
            } else {
                info.lost = info.lost + 1;
            }
        }
        i = i + 1;
    }
    proof {
        assert(gs.subrange(0, gs.len() as int) =~= gs);
    }
    info
}

/// The title, the counts of players and games, and the description and size
/// that the caller read from where the store is kept.
pub fn get_db_info(store: &Store, description: String, storage_size: usize) -> (r: DatabaseInfo)
    ensures
        r.title@ == store@.title,
        r.description@ == description@,
        r.player_count == store@.players.len(),
        r.game_count == store@.games.len(),
        r.storage_size == storage_size,
{
    DatabaseInfo {
        title: store.title.clone(),
        description,
        player_count: store.players.len(),
        game_count: store.games.len(),
        storage_size,
    }
}

/// Sets the store's title.
pub fn rename_db(store: &mut Store, title: String)
    ensures
        final(store)@.title == title@,
        final(store)@.players == old(store)@.players,
        final(store)@.games == old(store)@.games,
{
    store.rename(title);
}

/// How many games are stored.
pub fn get_number_games(store: &Store) -> (r: u64)
    requires
        store@.wf(),
    ensures
        r == store@.games.len(),
{
    store.games.len() as u64
}

proof fn lemma_select_desc_sorted(gs: Seq<GameView>, q: GameQuery, first: Who, second: Who)
    requires
        forall|i: int, j: int| 0 <= i < j < gs.len() ==> (#[trigger] gs[i]).id < (#[trigger] gs[j]).id,
    ensures
        forall|a: int, b: int|
            0 <= a < b < select_desc(gs, q, first, second).len() ==> (#[trigger] select_desc(gs, q, first, second)[a]).id
                > (#[trigger] select_desc(gs, q, first, second)[b]).id,
        gs.len() > 0 ==> forall|k: int|
            0 <= k < select_desc(gs, q, first, second).len() ==> (#[trigger] select_desc(gs, q, first, second)[k]).id >= gs[0].id,
    decreases gs.len(),
{
    if gs.len() > 0 {
        let t = gs.drop_first();
        assert forall|i: int, j: int| 0 <= i < j < t.len() implies (#[trigger] t[i]).id < (#[trigger] t[j]).id by {
            assert(t[i] == gs[i + 1]);
            assert(t[j] == gs[j + 1]);
        }
        lemma_select_desc_sorted(t, q, first, second);
        if t.len() > 0 {
            assert(t[0] == gs[1]);
            assert(gs[0].id < gs[1].id);
        }
    }
}

/// Games come newest first: ids fall strictly along every result, so no game
/// appears twice.
pub proof fn lemma_games_newest_first(s: StoreView, q: GameQuery)
    requires
        s.wf(),
    ensures
        forall|a: int, b: int|
            0 <= a < b < games_matching(s, q).len() ==> (#[trigger] games_matching(s, q)[a]).id
                > (#[trigger] games_matching(s, q)[b]).id,
{
    lemma_select_desc_sorted(
        s.games,
        q,
        who_of(s.players, opt_view(q.player1)),
        who_of(s.players, opt_view(q.player2)),
    );
}

/// With both players given, either side allowed and no other filter, a game
/// matches exactly when the first is white and the second black, or the reverse.
pub proof fn lemma_any_sides_union(q: GameQuery, a: usize, b: usize, g: GameView)
    requires
        q.sides == Some(Sides::Any),
        q.range1.is_none(),
        q.range2.is_none(),
        q.speed.is_none(),
        q.outcome.is_none(),
    ensures
        game_matches(q, Who::Id(a), Who::Id(b), g) == ((g.white == a && g.black == b) || (g.white == b
            && g.black == a)),
{
}

proof fn lemma_select_same_filters(gs: Seq<GameView>, q1: GameQuery, q2: GameQuery, first: Who, second: Who)
    requires
        q1.range1 == q2.range1,
        q1.range2 == q2.range2,
        q1.sides == q2.sides,
        q1.speed == q2.speed,
        q1.outcome == q2.outcome,
    ensures
        select_desc(gs, q1, first, second) == select_desc(gs, q2, first, second),
    decreases gs.len(),
{
    if gs.len() > 0 {
        lemma_select_same_filters(gs.drop_first(), q1, q2, first, second);
    }
}

/// The count that a query returns is the number of games that the same
/// filters return without limit or offset.
pub proof fn lemma_count_unpaginated(s: StoreView, q: GameQuery, unpaged: GameQuery)
    requires
        opt_view(q.player1) == opt_view(unpaged.player1),
        opt_view(q.player2) == opt_view(unpaged.player2),
        q.range1 == unpaged.range1,
        q.range2 == unpaged.range2,
        q.sides == unpaged.sides,
        q.speed == unpaged.speed,
        q.outcome == unpaged.outcome,
        unpaged.limit.is_none(),
        unpaged.offset.is_none(),
    ensures
        games_matching(s, q).len() == page(
            games_matching(s, unpaged),
            opt_int_i64(unpaged.offset),
            opt_int_i64(unpaged.limit),
        ).len(),
{
    lemma_select_same_filters(
        s.games,
        q,
        unpaged,
        who_of(s.players, opt_view(q.player1)),
        who_of(s.players, opt_view(q.player2)),
    );
}

} // verus!

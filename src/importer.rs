use vstd::prelude::*;
use vstd::string::{StrSliceExecFns, StringExecFns};
use crate::outcome::{outcome_of, parse_outcome, Outcome};
use crate::speed::{time_control, Speed};
use crate::store::{opt_view, row_of, GameView, NewGame, Store, StoreError, StoreView, CAPACITY, copy_opt, has_player, player_id, lemma_appearances_two, appearances};
use crate::text::{after_last_index_of, find_after_last, parse_signed, signed_of, str_eq};

verus! {

/// One side of a game being read.
pub struct TempPlayer {
    pub id: usize,
    pub name: Option<String>,
    pub rating: Option<i32>,
}

/// A game being read, before it is stored.
pub struct TempGame {
    pub speed: Option<Speed>,
    pub fen: Option<String>,
    pub site: Option<String>,
    pub date: Option<String>,
    pub white: TempPlayer,
    pub black: TempPlayer,
    pub outcome: Option<Outcome>,
    pub moves: Vec<String>,
}

pub struct TempGameView {
    pub speed: Option<Speed>,
    pub fen: Option<Seq<char>>,
    pub site: Option<Seq<char>>,
    pub date: Option<Seq<char>>,
    pub white_name: Option<Seq<char>>,
    pub black_name: Option<Seq<char>>,
    pub white_rating: Option<i32>,
    pub black_rating: Option<i32>,
    pub outcome: Option<Outcome>,
    pub moves: Seq<Seq<char>>,
}

impl View for TempGame {
    type V = TempGameView;

    open spec fn view(&self) -> TempGameView {
        TempGameView {
            speed: self.speed,
            fen: opt_view(self.fen),
            site: opt_view(self.site),
            date: opt_view(self.date),
            white_name: opt_view(self.white.name),
            black_name: opt_view(self.black.name),
            white_rating: self.white.rating,
            black_rating: self.black.rating,
            outcome: self.outcome,
            moves: self.moves@.map_values(|m: String| m@),
        }
    }
}

/// A game with nothing read yet.
pub open spec fn empty_game() -> TempGameView {
    TempGameView {
        speed: None,
        fen: None,
        site: None,
        date: None,
        white_name: None,
        black_name: None,
        white_rating: None,
        black_rating: None,
        outcome: None,
        moves: seq![],
    }
}

/// The standard initial position.
pub open spec fn start_fen() -> Seq<char> {
    "rnbqkbnr/pppppppp/8/8/8/8/PPPPPPPP/RNBQKBNR w KQkq - 0 1"@
}

/// The last segment of a `/`-separated path.
pub open spec fn last_segment(v: Seq<char>) -> Seq<char> {
    v.subrange(after_last_index_of(v, '/'), v.len() as int)
}

/// What header `key: v` does to game `g` and to the exclusion flag `skip`.
/// A rating that is neither `?` nor a number, a time control that cannot be
/// read, a result that cannot be read, or a bot title excludes the game.
pub open spec fn apply_header(g: TempGameView, skip: bool, key: Seq<char>, v: Seq<char>) -> (TempGameView, bool) {
    if key == "White"@ {
        (TempGameView { white_name: Some(v), ..g }, skip)
    } else if key == "Black"@ {
        (TempGameView { black_name: Some(v), ..g }, skip)
    } else if key == "WhiteElo"@ {
        if v == "?"@ {
            (g, skip)
        } else {
            match signed_of(v) {
                Some(r) => (TempGameView { white_rating: Some(r as i32), ..g }, skip),
                None => (g, true),
            }
        }
    } else if key == "BlackElo"@ {
        if v == "?"@ {
            (g, skip)
        } else {
            match signed_of(v) {
                Some(r) => (TempGameView { black_rating: Some(r as i32), ..g }, skip),
                None => (g, true),
            }
        }
    } else if key == "TimeControl"@ {
        match time_control(v) {
            Some(s) => (TempGameView { speed: Some(s), ..g }, skip),
            None => (g, true),
        }
    } else if key == "Date"@ || key == "UTCDate"@ {
        (TempGameView { date: Some(v), ..g }, skip)
    } else if key == "WhiteTitle"@ || key == "BlackTitle"@ {
        (g, skip || v == "BOT"@)
    } else if key == "Site"@ {
        (TempGameView { site: Some(last_segment(v)), ..g }, skip)
    } else if key == "Result"@ {
        match outcome_of(v) {
            Some(o) => (TempGameView { outcome: Some(o), ..g }, skip),
            None => (g, true),
        }
    } else if key == "FEN"@ {
        if v == start_fen() {
            (TempGameView { fen: None, ..g }, skip)
        } else {
            (TempGameView { fen: Some(v), ..g }, skip)
        }
    } else {
        (g, skip)
    }
}

/// Whether a game with all its headers read is kept.
pub open spec fn admitted(g: TempGameView, skip: bool) -> bool {
    !skip && g.white_rating.is_some() && g.black_rating.is_some() && g.outcome.is_some()
}

/// The moves joined by single spaces.
pub open spec fn join_moves(ms: Seq<Seq<char>>) -> Seq<char>
    decreases ms.len(),
{
    if ms.len() == 0 {
        seq![]
    } else if ms.len() == 1 {
        ms[0]
    } else {
        join_moves(ms.drop_last()) + seq![' '] + ms.last()
    }
}

/// Row `r` stores game `g`, with its players looked up by name in `players`.
pub open spec fn stores(r: GameView, g: TempGameView, players: Seq<crate::store::PlayerView>) -> bool {
    &&& (match g.white_name {
        Some(n) => 1 <= r.white <= players.len() && players[r.white - 1].name == n,
        None => r.white == 0,
    })
    &&& (match g.black_name {
        Some(n) => 1 <= r.black <= players.len() && players[r.black - 1].name == n,
        None => r.black == 0,
    })
    &&& Some(r.white_rating) == g.white_rating
    &&& Some(r.black_rating) == g.black_rating
    &&& r.date == g.date
    &&& r.speed == g.speed
    &&& r.site == g.site
    &&& r.fen == g.fen
    &&& Some(r.outcome) == g.outcome
    &&& r.moves == join_moves(g.moves)
}

impl TempPlayer {
    pub fn empty() -> (r: TempPlayer)
        ensures
            r.id == 0,
            r.name.is_none(),
            r.rating.is_none(),
    {
        TempPlayer { id: 0, name: None, rating: None }
    }
}

impl TempGame {
    pub fn empty() -> (r: TempGame)
        ensures
            r@ == empty_game(),
    {
        let r = TempGame {
            speed: None,
            fen: None,
            site: None,
            date: None,
            white: TempPlayer::empty(),
            black: TempPlayer::empty(),
            outcome: None,
            moves: Vec::new(),
        };
        assert(r@.moves =~= seq![]);
        r
    }

    /// The moves joined by single spaces.
    pub fn joined_moves(&self) -> (r: String)
        ensures
            r@ == join_moves(self@.moves),
    {
        let mut s = String::new();
        let mut i: usize = 0;
        let ghost ms = self@.moves;
        while i < self.moves.len()
            invariant
                ms == self@.moves,
                i <= ms.len(),
                s@ == join_moves(ms.subrange(0, i as int)),
            decreases self.moves.len() - i,
        {
            proof {
                assert(ms.subrange(0, i + 1).drop_last() =~= ms.subrange(0, i as int));
                assert(ms.subrange(0, i + 1).last() == ms[i as int]);
            }
            if i > 0 {
                s.append(" ");
                proof {
                    reveal_strlit(" ");
                    assert(" "@ =~= seq![' ']);
                }
            } else {
                proof {
                    assert(s@ =~= seq![]);
                }
            }
            s.append(self.moves[i].as_str());
            proof {
                if i == 0 {
                    assert(s@ =~= ms[0]);
                }
            }
            i = i + 1;
        }
        assert(ms.subrange(0, ms.len() as int) =~= ms);
        s
    }
}

/// Reads games one event at a time and stores the admitted ones in batches.
pub struct Importer {
    pub store: Store,
    pub batch_size: usize,
    pub current: TempGame,
    pub skip: bool,
    pub batch: Vec<TempGame>,
}

/// Whether each game of `batch` is admitted.
pub open spec fn all_admitted(batch: Seq<TempGameView>) -> bool {
    forall|i: int| 0 <= i < batch.len() ==> admitted(#[trigger] batch[i], false)
}

impl Importer {
    pub open spec fn batch_view(&self) -> Seq<TempGameView> {
        self.batch@.map_values(|g: TempGame| g@)
    }

    /// The store is well formed and the batch holds admitted games only.
    pub open spec fn wf(&self) -> bool {
        self.store@.wf() && all_admitted(self.batch_view())
    }

    pub fn new(batch_size: usize, store: Store) -> (r: Importer)
        requires
            store@.wf(),
        ensures
            r.wf(),
            r.store@ == store@,
            r.batch_size == batch_size,
            r.batch@.len() == 0,
            r.current@ == empty_game(),
            !r.skip,
    {
        Importer { store, batch_size, current: TempGame::empty(), skip: false, batch: Vec::new() }
    }

    pub fn begin_game(&mut self)
        ensures
            final(self).current@ == empty_game(),
            !final(self).skip,
            final(self).store@ == old(self).store@,
            final(self).batch_view() == old(self).batch_view(),
            final(self).batch_size == old(self).batch_size,
    {
        self.skip = false;
        self.current = TempGame::empty();
    }

    /// Applies one header of the current game.
    pub fn header(&mut self, key: &str, value: &str)
        ensures
            (final(self).current@, final(self).skip) == apply_header(old(self).current@, old(self).skip, key@, value@),
            final(self).store@ == old(self).store@,
            final(self).batch_view() == old(self).batch_view(),
            final(self).batch_size == old(self).batch_size,
    {
        if str_eq(key, "White") {
            self.current.white.name = Some(value.to_string());
        } else if str_eq(key, "Black") {
            self.current.black.name = Some(value.to_string());
        } else if str_eq(key, "WhiteElo") {
            if !str_eq(value, "?") {
                match parse_signed(value) {
                    Some(r) => self.current.white.rating = Some(r),
                    None => self.skip = true,
                }
            }
        } else if str_eq(key, "BlackElo") {
            if !str_eq(value, "?") {
                match parse_signed(value) {
                    Some(r) => self.current.black.rating = Some(r),
                    None => self.skip = true,
                }
            }
        } else if str_eq(key, "TimeControl") {
            match Speed::from_bytes(value) {
                Ok(s) => self.current.speed = Some(s),
                Err(()) => self.skip = true,
            }
        } else if str_eq(key, "Date") || str_eq(key, "UTCDate") {
            self.current.date = Some(value.to_string());
        } else if str_eq(key, "WhiteTitle") || str_eq(key, "BlackTitle") {
            if str_eq(value, "BOT") {
                self.skip = true;
            }
        } else if str_eq(key, "Site") {
            let from = find_after_last(value, '/');
            proof {
                crate::text::lemma_after_last_in_range(value@, '/');
            }
            self.current.site = Some(value.substring_char(from, value.unicode_len()).to_string());
        } else if str_eq(key, "Result") {
            match parse_outcome(value) {
                Some(o) => self.current.outcome = Some(o),
                None => self.skip = true,
            }
        } else if str_eq(key, "FEN") {
            if str_eq(value, "rnbqkbnr/pppppppp/8/8/8/8/PPPPPPPP/RNBQKBNR w KQkq - 0 1") {
                self.current.fen = None;
            } else {
                self.current.fen = Some(value.to_string());
            }
        }
    }

    /// Decides, with all headers read, whether the current game is kept; the
    /// result is true where its moves are to be skipped.
    pub fn end_headers(&mut self) -> (r: bool)
        ensures
            r == final(self).skip,
            final(self).skip == !admitted(old(self).current@, old(self).skip),
            final(self).current@ == old(self).current@,
            final(self).store@ == old(self).store@,
            final(self).batch_view() == old(self).batch_view(),
            final(self).batch_size == old(self).batch_size,
    {
        self.skip = self.skip || self.current.white.rating.is_none() || self.current.black.rating.is_none()
            || self.current.outcome.is_none();
        self.skip
    }

    /// Records one mainline move.
    pub fn san(&mut self, san: String)
        ensures
            final(self).current@ == (TempGameView { moves: old(self).current@.moves.push(san@), ..old(self).current@ }),
            final(self).skip == old(self).skip,
            final(self).store@ == old(self).store@,
            final(self).batch_view() == old(self).batch_view(),
            final(self).batch_size == old(self).batch_size,
    {
        self.current.moves.push(san);
        proof {
            assert(self.current@.moves =~= old(self).current@.moves.push(san@));
        }
    }

    /// Variations are never read: only the mainline is kept.
    pub fn begin_variation(&mut self) -> (r: bool)
        ensures
            r,
            *final(self) == *old(self),
    {
        true
    }

    /// Stores every game of the batch, then empties it. Where the store has no
    /// room for the whole batch, nothing is stored and the batch is kept.
    pub fn send(&mut self) -> (r: Result<(), StoreError>)
        requires
            old(self).wf(),
        ensures
            final(self).wf(),
            final(self).batch_size == old(self).batch_size,
            final(self).current@ == old(self).current@,
            final(self).skip == old(self).skip,
            r is Ok <==> fits(old(self).store@, old(self).batch_view().len()),
            r is Err ==> r == Err::<(), StoreError>(StoreError::Full) && final(self).store@ == old(self).store@
                && final(self).batch_view() == old(self).batch_view(),
            r is Ok ==> final(self).batch@.len() == 0 && flushed_into(
                old(self).store@,
                old(self).batch_view(),
                final(self).store@,
            ),
            old(self).batch@.len() == 0 ==> final(self).store@ == old(self).store@,
    {
        let ghost s0 = self.store@;
        let ghost b = self.batch_view();
        proof {
            assert(s0.games.subrange(0, s0.games.len() as int) =~= s0.games);
        }
        let n = self.batch.len();
        if n > CAPACITY - self.store.games.len() || n > (CAPACITY - self.store.players.len()) / 2 {
            return Err(StoreError::Full);
        }
        if n == 0 {
            return Ok(());
        }
        let mut i: usize = 0;
        proof {
            assert(s0.games.subrange(0, s0.games.len() as int) =~= s0.games);
        }
        while i < self.batch.len()
            invariant
                self.store@.wf(),
                s0 == old(self).store@,
                b == old(self).batch_view(),
                b.len() == self.batch@.len(),
                b == self.batch_view(),
                all_admitted(b),
                i <= b.len(),
                partly_flushed(s0, b, i as int, self.store@),
                self.store@.players.len() <= s0.players.len() + 2 * i,
                self.batch_size == old(self).batch_size,
                self.current@ == old(self).current@,
                self.skip == old(self).skip,
                fits(s0, b.len()),
            decreases self.batch.len() - i,
        {
            let g = &self.batch[i];
            proof {
                assert(b[i as int] == g@);
                assert(admitted(g@, false));
            }
            let ghost s1 = self.store@;
            proof {
                assert(fits(s0, b.len()) ==> s1.players.len() + 2 <= CAPACITY && s1.games.len() < CAPACITY);
            }
            let white = match &g.white.name {
                Some(n) => match self.store.get_or_create_player(n.as_str()) {
                    Ok(id) => id,
                    Err(e) => {
                        self.batch = Vec::new();
                        return Err(e);
                    },
                },
                None => 0,
            };
            let ghost s2 = self.store@;
            proof {
                if s2.players != s1.players {
                    assert(s2.players.subrange(0, s1.players.len() as int) =~= s1.players);
                }
                lemma_new_player_named(s0, b, i as int, s1, s2, true);
            }
            let black = match &g.black.name {
                Some(n) => match self.store.get_or_create_player(n.as_str()) {
                    Ok(id) => id,
                    Err(e) => {
                        self.batch = Vec::new();
                        return Err(e);
                    },
                },
                None => 0,
            };
            let ghost s3 = self.store@;
            proof {
                if s3.players != s2.players {
                    assert(s3.players.subrange(0, s2.players.len() as int) =~= s2.players);
                }
                lemma_new_player_named(s0, b, i as int, s2, s3, false);
                if g.white.name.is_some() {
                    assert(s2.players[white - 1].name == s3.players[white - 1].name);
                }
            }
            let new_game = NewGame {
                white,
                black,
                white_rating: g.white.rating.unwrap(),
                black_rating: g.black.rating.unwrap(),
                date: copy_opt(&g.date),
                speed: g.speed,
                site: copy_opt(&g.site),
                fen: copy_opt(&g.fen),
                outcome: g.outcome.unwrap(),
                moves: g.joined_moves(),
            };
            let ghost row = row_of(new_game, (s3.games.len() + 1) as usize);
            match self.store.create_game(new_game) {
                Ok(_) => {},
                Err(e) => {
                    self.batch = Vec::new();
                    return Err(e);
                },
            }
            proof {
                let s4 = self.store@;
                assert(stores(row, b[i as int], s3.players));
                lemma_stores_stable(row, b[i as int], s3.players, s4.players);
                assert forall|k: int| 0 <= k < i + 1 implies stores(
                    #[trigger] s4.games[s0.games.len() + k],
                    b[k],
                    s4.players,
                ) by {
                    if k < i {
                        assert(s4.games[s0.games.len() + k] == s3.games[s0.games.len() + k]);
                        assert(s1.games == s3.games);
                        lemma_stores_stable(s1.games[s0.games.len() + k], b[k], s1.players, s3.players);
                        lemma_stores_stable(s3.games[s0.games.len() + k], b[k], s3.players, s4.players);
                    }
                }
                assert(s4.games.subrange(0, s0.games.len() as int) =~= s0.games);
            }
            i = i + 1;
        }
        self.batch = Vec::new();
        Ok(())
    }

    /// Ends the current game: keeps it if admitted, and stores the batch once
    /// it holds `batch_size` games. The result tells whether it did.
    pub fn end_game(&mut self) -> (r: Result<bool, StoreError>)
        requires
            old(self).wf(),
        ensures
            final(self).wf(),
            final(self).batch_size == old(self).batch_size,
            ({
                let kept = if admitted(old(self).current@, old(self).skip) {
                    old(self).batch_view().push(old(self).current@)
                } else {
                    old(self).batch_view()
                };
                &&& (kept.len() < old(self).batch_size ==> r == Ok::<bool, StoreError>(false)
                    && final(self).batch_view() == kept && final(self).store@ == old(self).store@)
                &&& (kept.len() >= old(self).batch_size && fits(old(self).store@, kept.len()) ==> r
                    == Ok::<bool, StoreError>(true))
                &&& (r == Ok::<bool, StoreError>(true) ==> final(self).batch@.len() == 0
                    && flushed_into(old(self).store@, kept, final(self).store@))
                &&& (r is Err ==> final(self).store@ == old(self).store@ && final(self).batch_view() == kept)
            }),
            admitted(old(self).current@, old(self).skip) ==> final(self).current@ == empty_game(),
            !admitted(old(self).current@, old(self).skip) ==> final(self).current@ == old(self).current@,
            final(self).skip == old(self).skip,
    {
        if !self.skip && self.current.white.rating.is_some() && self.current.black.rating.is_some()
            && self.current.outcome.is_some() {
            let mut taken = TempGame::empty();
            std::mem::swap(&mut self.current, &mut taken);
            let ghost before = self.batch_view();
            self.batch.push(taken);
            proof {
                assert(self.batch_view() =~= before.push(taken@));
            }
        }
        if self.batch.len() >= self.batch_size {
            match self.send() {
                Ok(()) => Ok(true),
                Err(e) => Err(e),
            }
        } else {
            Ok(false)
        }
    }
}

/// Room in `s` for `n` more games and both their players.
pub open spec fn fits(s: StoreView, n: nat) -> bool {
    s.games.len() + n <= CAPACITY && s.players.len() + 2 * n <= CAPACITY
}

/// `s` is `s0` with the first `n` games of `batch` stored after its own, and
/// with no player changed but their counts.
pub open spec fn partly_flushed(s0: StoreView, batch: Seq<TempGameView>, n: int, s: StoreView) -> bool {
    &&& s.title == s0.title
    &&& s.games.len() == s0.games.len() + n
    &&& s.games.subrange(0, s0.games.len() as int) == s0.games
    &&& s.players.len() >= s0.players.len()
    &&& forall|j: int| 0 <= j < s0.players.len() ==> (#[trigger] s.players[j]).name == s0.players[j].name
    &&& forall|k: int| 0 <= k < n ==> stores(#[trigger] s.games[s0.games.len() + k], batch[k], s.players)
    &&& forall|j: int|
        s0.players.len() <= j < s.players.len() ==> named_in(batch, (#[trigger] s.players[j]).name)
            && !has_player(s0.players, s.players[j].name)
}

/// Whether some game of `batch` has a side named `name`.
pub open spec fn named_in(batch: Seq<TempGameView>, name: Seq<char>) -> bool {
    exists|k: int|
        0 <= k < batch.len() && ((#[trigger] batch[k]).white_name == Some(name) || batch[k].black_name == Some(
            name,
        ))
}

/// One side's lookup during a flush adds a player only for a name that game
/// `i` of `b` gives that side, and that was not stored before the flush.
proof fn lemma_new_player_named(s0: StoreView, b: Seq<TempGameView>, i: int, s1: StoreView, s2: StoreView, white: bool)
    requires
        0 <= i < b.len(),
        s1.players.len() >= s0.players.len(),
        forall|j: int| 0 <= j < s0.players.len() ==> (#[trigger] s1.players[j]).name == s0.players[j].name,
        forall|j: int|
            s0.players.len() <= j < s1.players.len() ==> named_in(b, (#[trigger] s1.players[j]).name)
                && !has_player(s0.players, s1.players[j].name),
        ({
            let side = if white { b[i].white_name } else { b[i].black_name };
            ||| s2.players == s1.players
            ||| side.is_some() && !has_player(s1.players, side.unwrap()) && s2.players.len() == s1.players.len() + 1
                && s2.players.subrange(0, s1.players.len() as int) == s1.players
                && s2.players.last().name == side.unwrap()
        }),
    ensures
        s2.players.len() >= s0.players.len(),
        forall|j: int| 0 <= j < s0.players.len() ==> (#[trigger] s2.players[j]).name == s0.players[j].name,
        forall|j: int|
            s0.players.len() <= j < s2.players.len() ==> named_in(b, (#[trigger] s2.players[j]).name)
                && !has_player(s0.players, s2.players[j].name),
{
    if s2.players != s1.players {
        let side = if white { b[i].white_name } else { b[i].black_name };
        let name = side.unwrap();
        assert forall|j: int| 0 <= j < s1.players.len() implies s2.players[j] == s1.players[j] by {
            assert(s2.players[j] == s2.players.subrange(0, s1.players.len() as int)[j]);
        }
        assert(named_in(b, name)) by {
            assert(b[i].white_name == Some(name) || b[i].black_name == Some(name));
        }
        if has_player(s0.players, name) {
            let j = choose|j: int| 0 <= j < s0.players.len() && (#[trigger] s0.players[j]).name == name;
            assert(s1.players[j].name == name);
        }
        assert forall|j: int| s0.players.len() <= j < s2.players.len() implies named_in(
            b,
            (#[trigger] s2.players[j]).name,
        ) && !has_player(s0.players, s2.players[j].name) by {
            if j < s1.players.len() {
                assert(s2.players[j] == s1.players[j]);
            } else {
                assert(j == s1.players.len());
            }
        }
    }
}

/// `s` is `s0` with every game of `batch` stored, in order.
pub open spec fn flushed_into(s0: StoreView, batch: Seq<TempGameView>, s: StoreView) -> bool {
    partly_flushed(s0, batch, batch.len() as int, s)
}

proof fn lemma_stores_stable(r: GameView, g: TempGameView, before: Seq<crate::store::PlayerView>, after: Seq<crate::store::PlayerView>)
    requires
        stores(r, g, before),
        before.len() <= after.len(),
        forall|j: int| 0 <= j < before.len() ==> (#[trigger] after[j]).name == before[j].name,
    ensures
        stores(r, g, after),
{
}

/// The state of a game after its headers `hs`, in order, from a fresh start.
pub open spec fn read_headers(hs: Seq<(Seq<char>, Seq<char>)>) -> (TempGameView, bool)
    decreases hs.len(),
{
    if hs.len() == 0 {
        (empty_game(), false)
    } else {
        let (g, skip) = read_headers(hs.drop_last());
        apply_header(g, skip, hs.last().0, hs.last().1)
    }
}

/// A header that excludes its game: a rating that is neither `?` nor a number,
/// an unreadable time control or result, or a bot title.
pub open spec fn bad_header(h: (Seq<char>, Seq<char>)) -> bool {
    ||| (h.0 == "WhiteElo"@ || h.0 == "BlackElo"@) && h.1 != "?"@ && signed_of(h.1).is_none()
    ||| h.0 == "TimeControl"@ && time_control(h.1).is_none()
    ||| (h.0 == "WhiteTitle"@ || h.0 == "BlackTitle"@) && h.1 == "BOT"@
    ||| h.0 == "Result"@ && outcome_of(h.1).is_none()
}

pub open spec fn any_bad(hs: Seq<(Seq<char>, Seq<char>)>) -> bool
    decreases hs.len(),
{
    hs.len() > 0 && (any_bad(hs.drop_last()) || bad_header(hs.last()))
}

/// Whether some header of `hs` under `key` has a value other than `?`.
pub open spec fn any_known(hs: Seq<(Seq<char>, Seq<char>)>, key: Seq<char>) -> bool
    decreases hs.len(),
{
    hs.len() > 0 && (any_known(hs.drop_last(), key) || (hs.last().0 == key && hs.last().1 != "?"@))
}

/// The value of the last starting-position header of `hs`.
pub open spec fn last_fen(hs: Seq<(Seq<char>, Seq<char>)>) -> Option<Seq<char>>
    decreases hs.len(),
{
    if hs.len() == 0 {
        None
    } else if hs.last().0 == "FEN"@ {
        Some(hs.last().1)
    } else {
        last_fen(hs.drop_last())
    }
}

proof fn lemma_keys_distinct()
    ensures
        "White"@ != "WhiteElo"@,
        "White"@ != "Result"@,
        "White"@ != "FEN"@,
        "White"@ != "BlackElo"@,
        "White"@ != "TimeControl"@,
        "White"@ != "WhiteTitle"@,
        "White"@ != "BlackTitle"@,
        "Black"@ != "WhiteElo"@,
        "Black"@ != "BlackElo"@,
        "Black"@ != "Result"@,
        "Black"@ != "FEN"@,
        "Black"@ != "TimeControl"@,
        "Black"@ != "WhiteTitle"@,
        "Black"@ != "BlackTitle"@,
        "WhiteElo"@ != "BlackElo"@,
        "WhiteElo"@ != "Result"@,
        "WhiteElo"@ != "FEN"@,
        "WhiteElo"@ != "TimeControl"@,
        "WhiteElo"@ != "WhiteTitle"@,
        "WhiteElo"@ != "BlackTitle"@,
        "BlackElo"@ != "Result"@,
        "BlackElo"@ != "FEN"@,
        "BlackElo"@ != "TimeControl"@,
        "BlackElo"@ != "WhiteTitle"@,
        "BlackElo"@ != "BlackTitle"@,
        "TimeControl"@ != "Result"@,
        "TimeControl"@ != "FEN"@,
        "TimeControl"@ != "WhiteTitle"@,
        "TimeControl"@ != "BlackTitle"@,
        "Date"@ != "WhiteElo"@,
        "Date"@ != "BlackElo"@,
        "Date"@ != "Result"@,
        "Date"@ != "FEN"@,
        "Date"@ != "TimeControl"@,
        "Date"@ != "WhiteTitle"@,
        "Date"@ != "BlackTitle"@,
        "UTCDate"@ != "WhiteElo"@,
        "UTCDate"@ != "BlackElo"@,
        "UTCDate"@ != "Result"@,
        "UTCDate"@ != "FEN"@,
        "UTCDate"@ != "TimeControl"@,
        "UTCDate"@ != "WhiteTitle"@,
        "UTCDate"@ != "BlackTitle"@,
        "WhiteTitle"@ != "Result"@,
        "WhiteTitle"@ != "FEN"@,
        "BlackTitle"@ != "Result"@,
        "BlackTitle"@ != "FEN"@,
        "Site"@ != "WhiteElo"@,
        "Site"@ != "BlackElo"@,
        "Site"@ != "Result"@,
        "Site"@ != "FEN"@,
        "Site"@ != "TimeControl"@,
        "Site"@ != "WhiteTitle"@,
        "Site"@ != "BlackTitle"@,
        "Result"@ != "FEN"@,
{
    reveal_strlit("White");
    reveal_strlit("Black");
    reveal_strlit("WhiteElo");
    reveal_strlit("BlackElo");
    reveal_strlit("TimeControl");
    reveal_strlit("Date");
    reveal_strlit("UTCDate");
    reveal_strlit("WhiteTitle");
    reveal_strlit("BlackTitle");
    reveal_strlit("Site");
    reveal_strlit("Result");
    reveal_strlit("FEN");
    assert("White"@.len() == 5);
    assert("Black"@.len() == 5);
    assert("WhiteElo"@.len() == 8);
    assert("BlackElo"@.len() == 8);
    assert("TimeControl"@.len() == 11);
    assert("Date"@.len() == 4);
    assert("UTCDate"@.len() == 7);
    assert("WhiteTitle"@.len() == 10);
    assert("BlackTitle"@.len() == 10);
    assert("Site"@.len() == 4);
    assert("Result"@.len() == 6);
    assert("FEN"@.len() == 3);
    assert("WhiteElo"@[0] != "BlackElo"@[0]);
    assert("WhiteTitle"@[0] != "BlackTitle"@[0]);
    assert("Date"@[0] != "Site"@[0]);
}

proof fn lemma_read_headers(hs: Seq<(Seq<char>, Seq<char>)>)
    ensures
        read_headers(hs).1 == any_bad(hs),
        !any_bad(hs) ==> read_headers(hs).0.white_rating.is_some() == any_known(hs, "WhiteElo"@),
        !any_bad(hs) ==> read_headers(hs).0.black_rating.is_some() == any_known(hs, "BlackElo"@),
        !any_bad(hs) ==> read_headers(hs).0.outcome.is_some() == any_known(hs, "Result"@),
        read_headers(hs).0.fen == (match last_fen(hs) {
            None => None,
            Some(v) => if v == start_fen() {
                None
            } else {
                Some(v)
            },
        }),
    decreases hs.len(),
{
    lemma_keys_distinct();
    reveal_strlit("?");
    if hs.len() > 0 {
        lemma_read_headers(hs.drop_last());
        let h = hs.last();
        if h.0 == "Result"@ {
            assert(h.1 != "?"@ || outcome_of(h.1).is_none()) by {
                reveal_strlit("?");
                if h.1 == "?"@ {
                    assert(h.1.len() == 1);
                }
            }
        }
    }
}

/// A game is kept exactly when no header excludes it, both ratings are given
/// (as numbers, not `?`), and its result is given.
pub proof fn lemma_admission(hs: Seq<(Seq<char>, Seq<char>)>)
    ensures
        admitted(read_headers(hs).0, read_headers(hs).1) == (!any_bad(hs) && any_known(hs, "WhiteElo"@)
            && any_known(hs, "BlackElo"@) && any_known(hs, "Result"@)),
{
    lemma_read_headers(hs);
}

/// A game has no starting position exactly when it has no such header, or
/// the last one names the standard initial position.
pub proof fn lemma_fen_absent(hs: Seq<(Seq<char>, Seq<char>)>)
    ensures
        read_headers(hs).0.fen.is_none() == (last_fen(hs).is_none() || last_fen(hs) == Some(start_fen())),
{
    lemma_read_headers(hs);
}

/// Two flushes in a row store what one flush of both batches, in order,
/// would store: an import's flushes together keep every admitted game once,
/// in input order, and add a player only for a name that one of them gives.
pub proof fn lemma_flushes_compose(
    s0: StoreView,
    a: Seq<TempGameView>,
    s1: StoreView,
    b: Seq<TempGameView>,
    s2: StoreView,
)
    requires
        flushed_into(s0, a, s1),
        flushed_into(s1, b, s2),
    ensures
        flushed_into(s0, a + b, s2),
{
    let ab = a + b;
    let n0 = s0.games.len() as int;
    let n1 = s1.games.len() as int;
    assert(s2.games.subrange(0, n0) =~= s2.games.subrange(0, n1).subrange(0, n0));
    assert(s2.games.subrange(0, n0) == s0.games);
    assert forall|j: int| 0 <= j < s0.players.len() implies (#[trigger] s2.players[j]).name == s0.players[j].name by {
        assert(s1.players[j].name == s0.players[j].name);
    }
    assert forall|k: int| 0 <= k < ab.len() implies stores(#[trigger] s2.games[n0 + k], ab[k], s2.players) by {
        if k < a.len() {
            assert(s2.games[n0 + k] == s2.games.subrange(0, n1)[n0 + k]);
            assert(s1.games[n0 + k] == s2.games[n0 + k]);
            assert(stores(s1.games[n0 + k], a[k], s1.players));
            lemma_stores_stable(s1.games[n0 + k], a[k], s1.players, s2.players);
        } else {
            assert(n0 + k == n1 + (k - a.len()));
            assert(stores(s2.games[n1 + (k - a.len())], b[k - a.len()], s2.players));
        }
    }
    assert forall|j: int| s0.players.len() <= j < s2.players.len() implies named_in(
        ab,
        (#[trigger] s2.players[j]).name,
    ) && !has_player(s0.players, s2.players[j].name) by {
        let name = s2.players[j].name;
        if j < s1.players.len() {
            assert(named_in(a, s1.players[j].name));
            let k = choose|k: int|
                0 <= k < a.len() && ((#[trigger] a[k]).white_name == Some(s1.players[j].name) || a[k].black_name
                    == Some(s1.players[j].name));
            assert(ab[k] == a[k]);
        } else {
            assert(named_in(b, name));
            let k = choose|k: int|
                0 <= k < b.len() && ((#[trigger] b[k]).white_name == Some(name) || b[k].black_name == Some(name));
            assert(ab[k + a.len()] == b[k]);
            if has_player(s0.players, name) {
                let i = choose|i: int| 0 <= i < s0.players.len() && (#[trigger] s0.players[i]).name == name;
                assert(s1.players[i].name == name);
            }
        }
    }
}

/// Once two games of a flushed batch name the same white player, the store
/// holds exactly one player of that name, and counts at least both games.
pub proof fn lemma_one_row_for_repeated_white(
    s0: StoreView,
    batch: Seq<TempGameView>,
    s: StoreView,
    x: int,
    y: int,
    name: Seq<char>,
)
    requires
        s.wf(),
        flushed_into(s0, batch, s),
        0 <= x < y < batch.len(),
        batch[x].white_name == Some(name),
        batch[y].white_name == Some(name),
    ensures
        has_player(s.players, name),
        forall|i: int| 0 <= i < s.players.len() && (#[trigger] s.players[i]).name == name ==> i == player_id(
            s.players,
            name,
        ) - 1,
        s.players[player_id(s.players, name) - 1].game_count >= 2,
{
    let n0 = s0.games.len() as int;
    let rx = s.games[n0 + x];
    let ry = s.games[n0 + y];
    assert(stores(rx, batch[x], s.players));
    assert(stores(ry, batch[y], s.players));
    let ix = rx.white - 1;
    let iy = ry.white - 1;
    assert(s.players[ix].name == name);
    assert(s.players[iy].name == name);
    assert(ix == iy);
    assert(has_player(s.players, name));
    let k = choose|k: int| 0 <= k < s.players.len() && (#[trigger] s.players[k]).name == name;
    assert(k == ix);
    lemma_appearances_two(s.games, rx.white, n0 + x, n0 + y);
    assert(s.players[ix].game_count == appearances(s.games, (ix + 1) as usize));
}

} // verus!

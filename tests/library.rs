use chess_db::codec::{codec_for, Codec};
use chess_db::importer::{Importer, TempGame};
use chess_db::outcome::Outcome;
use chess_db::query::{
    get_db_info, get_games, get_number_games, get_players, get_players_game_info, rename_db, GameQuery,
    PlayerQuery, Sides,
};
use chess_db::speed::Speed;
use chess_db::store::{NewGame, Store};

const START: &str = "rnbqkbnr/pppppppp/8/8/8/8/PPPPPPPP/RNBQKBNR w KQkq - 0 1";

/// Feeds one game to the importer; returns whether its end flushed the batch.
fn feed(imp: &mut Importer, headers: &[(&str, &str)], moves: &[&str]) -> bool {
    imp.begin_game();
    for (k, v) in headers {
        imp.header(k, v);
    }
    let skip = imp.end_headers();
    if !skip {
        for m in moves {
            imp.san(m.to_string());
        }
    }
    imp.end_game().unwrap()
}

fn rated(white: &str, black: &str) -> Vec<(&'static str, String)> {
    vec![
        ("White", white.to_string()),
        ("Black", black.to_string()),
        ("WhiteElo", "1500".to_string()),
        ("BlackElo", "1600".to_string()),
        ("Result", "1-0".to_string()),
        ("TimeControl", "300+0".to_string()),
        ("Date", "2023.01.01".to_string()),
    ]
}

fn feed_owned(imp: &mut Importer, headers: &[(&'static str, String)], moves: &[&str]) -> bool {
    let hs: Vec<(&str, &str)> = headers.iter().map(|(k, v)| (*k, v.as_str())).collect();
    feed(imp, &hs, moves)
}

fn game_query() -> GameQuery {
    GameQuery {
        skip_count: false,
        player1: None,
        player2: None,
        range1: None,
        range2: None,
        sides: None,
        speed: None,
        outcome: None,
        limit: None,
        offset: None,
    }
}

fn add_game(store: &mut Store, white: &str, black: &str, outcome: Outcome) -> usize {
    let w = store.get_or_create_player(white).unwrap();
    let b = store.get_or_create_player(black).unwrap();
    store
        .create_game(NewGame {
            white: w,
            black: b,
            white_rating: 1500,
            black_rating: 1500,
            date: Some("2023.01.01".to_string()),
            speed: Some(Speed::Blitz),
            site: None,
            fen: None,
            outcome,
            moves: "e4 e5".to_string(),
        })
        .unwrap()
}

#[test]
fn classify_boundaries() {
    assert_eq!(Speed::from_seconds_and_increment(170, 0), Speed::Bullet);
    assert_eq!(Speed::from_seconds_and_increment(180, 0), Speed::Blitz);
    assert_eq!(Speed::from_seconds_and_increment(29, 0), Speed::UltraBullet);
    assert_eq!(Speed::from_seconds_and_increment(0, 11), Speed::Blitz);
    assert_eq!(Speed::from_seconds_and_increment(0, 12), Speed::Rapid);
    assert_eq!(Speed::from_seconds_and_increment(1499, 0), Speed::Rapid);
    assert_eq!(Speed::from_seconds_and_increment(21_599, 0), Speed::Classical);
    assert_eq!(Speed::from_seconds_and_increment(21_600, 0), Speed::Correspondence);
    assert_eq!(Speed::from_seconds_and_increment(u64::MAX, u64::MAX), Speed::Correspondence);
}

#[test]
fn time_control_descriptors() {
    assert_eq!(Speed::from_bytes("-"), Ok(Speed::Correspondence));
    assert_eq!(Speed::from_bytes("170+0"), Ok(Speed::Bullet));
    assert_eq!(Speed::from_bytes("180+0"), Ok(Speed::Blitz));
    assert_eq!(Speed::from_bytes("600+5"), Ok(Speed::Rapid));
    assert_eq!(Speed::from_bytes("1200+10"), Ok(Speed::Classical));
    assert_eq!(Speed::from_bytes("300"), Err(()));
    assert_eq!(Speed::from_bytes("a+1"), Err(()));
    assert_eq!(Speed::from_bytes("60+1+1"), Err(()));
    assert_eq!(Speed::from_bytes(""), Err(()));
}

#[test]
fn speed_and_outcome_codes() {
    for u in 0..6u8 {
        assert_eq!(Speed::from(u).code(), u);
    }
    assert_eq!(Speed::Correspondence.code(), 5);
    assert_eq!(Outcome::WhiteWin.code(), 1);
    assert_eq!(Outcome::BlackWin.code(), 2);
    assert_eq!(Outcome::Draw.code(), 3);
    assert_eq!(Outcome::from_code(3), Some(Outcome::Draw));
    assert_eq!(Outcome::from_code(0), None);
}

#[test]
fn headers_fill_the_game() {
    let mut imp = Importer::new(50, Store::new());
    imp.begin_game();
    imp.header("White", "Alice");
    imp.header("WhiteElo", "-15");
    imp.header("BlackElo", "2100");
    imp.header("Site", "https://lichess.org/abcd1234");
    imp.header("Date", "2020.01.01");
    imp.header("UTCDate", "2020.01.02");
    imp.header("Result", "1/2-1/2");
    imp.header("TimeControl", "60+0");
    assert_eq!(imp.current.white.name.as_deref(), Some("Alice"));
    assert_eq!(imp.current.white.rating, Some(-15));
    assert_eq!(imp.current.black.rating, Some(2100));
    assert_eq!(imp.current.site.as_deref(), Some("abcd1234"));
    assert_eq!(imp.current.date.as_deref(), Some("2020.01.02"));
    assert_eq!(imp.current.outcome, Some(Outcome::Draw));
    assert_eq!(imp.current.speed, Some(Speed::Bullet));
    assert!(!imp.end_headers());
}

#[test]
fn unknown_rating_excludes() {
    let mut imp = Importer::new(50, Store::new());
    imp.begin_game();
    imp.header("WhiteElo", "?");
    imp.header("BlackElo", "1500");
    imp.header("Result", "1-0");
    assert_eq!(imp.current.white.rating, None);
    assert!(imp.end_headers());
}

#[test]
fn bot_title_and_bad_result_exclude() {
    let mut imp = Importer::new(50, Store::new());
    imp.begin_game();
    imp.header("WhiteElo", "1500");
    imp.header("BlackElo", "1500");
    imp.header("Result", "1-0");
    imp.header("BlackTitle", "BOT");
    assert!(imp.end_headers());
    imp.begin_game();
    imp.header("WhiteElo", "1500");
    imp.header("BlackElo", "1500");
    imp.header("Result", "*");
    assert!(imp.end_headers());
    imp.begin_game();
    imp.header("WhiteElo", "15x0");
    imp.header("BlackElo", "1500");
    imp.header("Result", "0-1");
    assert!(imp.end_headers());
}

#[test]
fn fen_kept_only_when_not_standard() {
    let mut imp = Importer::new(50, Store::new());
    imp.begin_game();
    imp.header("FEN", START);
    assert_eq!(imp.current.fen, None);
    imp.header("FEN", "8/8/8/8/8/8/8/K6k w - - 0 1");
    assert_eq!(imp.current.fen.as_deref(), Some("8/8/8/8/8/8/8/K6k w - - 0 1"));
    imp.header("FEN", START);
    assert_eq!(imp.current.fen, None);
    imp.begin_game();
    assert_eq!(imp.current.fen, None);
}

#[test]
fn moves_joined_by_spaces() {
    let mut g = TempGame::empty();
    assert_eq!(g.joined_moves(), "");
    g.moves.push("e4".to_string());
    g.moves.push("e5".to_string());
    g.moves.push("Nf3".to_string());
    assert_eq!(g.joined_moves(), "e4 e5 Nf3");
}

#[test]
fn one_player_row_per_name() {
    let mut imp = Importer::new(50, Store::new());
    feed_owned(&mut imp, &rated("A", "B"), &["e4"]);
    feed_owned(&mut imp, &rated("A", "C"), &["d4"]);
    imp.send().unwrap();
    let named_a: Vec<_> = imp.store.players.iter().filter(|p| p.name == "A").collect();
    assert_eq!(named_a.len(), 1);
    assert!(named_a[0].game_count >= 2);
    assert_eq!(named_a[0].game_count, 2);
    assert_eq!(imp.store.players.len(), 3);
}

#[test]
fn flushes_at_threshold_and_at_end() {
    let batch_size = 3;
    let mut imp = Importer::new(batch_size, Store::new());
    let mut flushes = 0;
    for _ in 0..batch_size + 1 {
        if feed_owned(&mut imp, &rated("A", "B"), &["e4"]) {
            flushes += 1;
        }
    }
    assert_eq!(flushes, 1);
    assert_eq!(imp.store.games.len(), batch_size);
    imp.send().unwrap();
    flushes += 1;
    assert_eq!(flushes, 2);
    assert_eq!(imp.store.games.len(), batch_size + 1);
    assert!(imp.batch.is_empty());
}

#[test]
fn end_to_end_one_admitted_game() {
    let mut imp = Importer::new(50, Store::new());
    feed_owned(&mut imp, &rated("W1", "B1"), &["e4", "e5", "Nf3"]);
    let mut second = rated("W2", "B2");
    second.retain(|(k, _)| *k != "BlackElo");
    feed_owned(&mut imp, &second, &["d4"]);
    imp.send().unwrap();
    let store = &imp.store;
    assert_eq!(store.games.len(), 1);
    let g = &store.games[0];
    assert_eq!(g.id, 1);
    assert_eq!(g.white_rating, 1500);
    assert_eq!(g.black_rating, 1600);
    assert_eq!(g.outcome, Outcome::WhiteWin);
    assert_eq!(g.speed, Some(Speed::Blitz));
    assert_eq!(g.moves, "e4 e5 Nf3");
    assert_eq!(store.players.len(), 2);
    assert_eq!(store.players[g.white - 1].name, "W1");
    assert_eq!(store.players[g.black - 1].name, "B1");
    assert_eq!(store.players[0].game_count, 1);
    assert_eq!(store.players[1].game_count, 1);
}

#[test]
fn missing_name_is_no_player() {
    let mut imp = Importer::new(50, Store::new());
    let mut hs = rated("A", "B");
    hs.retain(|(k, _)| *k != "Black");
    feed_owned(&mut imp, &hs, &[]);
    imp.send().unwrap();
    assert_eq!(imp.store.games[0].black, 0);
    assert_eq!(imp.store.players.len(), 1);
}

#[test]
fn any_sides_is_the_union() {
    let mut store = Store::new();
    let g1 = add_game(&mut store, "A", "B", Outcome::WhiteWin);
    add_game(&mut store, "A", "C", Outcome::Draw);
    let g3 = add_game(&mut store, "B", "A", Outcome::BlackWin);
    add_game(&mut store, "C", "B", Outcome::Draw);
    let mut q = game_query();
    q.player1 = Some("A".to_string());
    q.player2 = Some("B".to_string());
    q.sides = Some(Sides::Any);
    let r = get_games(&store, &q);
    let ids: Vec<usize> = r.data.iter().map(|g| g.id).collect();
    assert_eq!(ids, vec![g3, g1]);
    assert_eq!(r.count, Some(2));
    q.sides = Some(Sides::WhiteBlack);
    let ids: Vec<usize> = get_games(&store, &q).data.iter().map(|g| g.id).collect();
    assert_eq!(ids, vec![g1]);
    q.sides = Some(Sides::BlackWhite);
    let ids: Vec<usize> = get_games(&store, &q).data.iter().map(|g| g.id).collect();
    assert_eq!(ids, vec![g3]);
    q.player2 = Some("Nobody".to_string());
    assert_eq!(get_games(&store, &q).count, Some(0));
}

#[test]
fn count_ignores_pagination() {
    let mut store = Store::new();
    for _ in 0..5 {
        add_game(&mut store, "A", "B", Outcome::Draw);
    }
    add_game(&mut store, "A", "B", Outcome::WhiteWin);
    let mut q = game_query();
    q.outcome = Some(Outcome::Draw);
    q.limit = Some(2);
    q.offset = Some(1);
    let r = get_games(&store, &q);
    let ids: Vec<usize> = r.data.iter().map(|g| g.id).collect();
    assert_eq!(ids, vec![4, 3]);
    assert_eq!(r.count, Some(5));
    q.limit = None;
    q.offset = None;
    assert_eq!(get_games(&store, &q).data.len(), 5);
    q.skip_count = true;
    assert_eq!(get_games(&store, &q).count, None);
    q.offset = Some(10);
    assert!(get_games(&store, &q).data.is_empty());
}

#[test]
fn repeated_queries_agree_newest_first() {
    let mut store = Store::new();
    for _ in 0..4 {
        add_game(&mut store, "A", "B", Outcome::Draw);
    }
    let mut q = game_query();
    q.range1 = Some((1400, 1600));
    q.limit = Some(3);
    let a: Vec<usize> = get_games(&store, &q).data.iter().map(|g| g.id).collect();
    let b: Vec<usize> = get_games(&store, &q).data.iter().map(|g| g.id).collect();
    assert_eq!(a, b);
    assert_eq!(a, vec![4, 3, 2]);
    q.range1 = Some((1600, 1700));
    assert_eq!(get_games(&store, &q).count, Some(0));
}

#[test]
fn players_by_substring() {
    let mut store = Store::new();
    add_game(&mut store, "Magnus", "Hikaru", Outcome::Draw);
    add_game(&mut store, "Fabiano", "Magnolia", Outcome::Draw);
    let q = PlayerQuery { skip_count: false, name: Some("agn".to_string()), limit: None, offset: None };
    let r = get_players(&store, &q);
    let names: Vec<&str> = r.data.iter().map(|p| p.name.as_str()).collect();
    assert_eq!(names, vec!["Magnus", "Magnolia"]);
    assert_eq!(r.count, Some(2));
    let q = PlayerQuery { skip_count: true, name: None, limit: Some(2), offset: Some(1) };
    let r = get_players(&store, &q);
    let names: Vec<&str> = r.data.iter().map(|p| p.name.as_str()).collect();
    assert_eq!(names, vec!["Hikaru", "Fabiano"]);
    assert_eq!(r.count, None);
}

#[test]
fn stats_count_from_each_side() {
    let mut store = Store::new();
    add_game(&mut store, "A", "B", Outcome::WhiteWin);
    add_game(&mut store, "B", "A", Outcome::WhiteWin);
    add_game(&mut store, "B", "A", Outcome::BlackWin);
    add_game(&mut store, "A", "B", Outcome::Draw);
    add_game(&mut store, "B", "C", Outcome::Draw);
    let a = store.find_player("A").unwrap();
    let info = get_players_game_info(&store, a);
    assert_eq!((info.won, info.lost, info.draw), (2, 1, 1));
}

#[test]
fn info_and_rename() {
    let mut store = Store::new();
    add_game(&mut store, "A", "B", Outcome::WhiteWin);
    let info = get_db_info(&store, "games.sqlite".to_string(), 4096);
    assert_eq!(info.title, "Untitled");
    assert_eq!(info.description, "games.sqlite");
    assert_eq!((info.player_count, info.game_count, info.storage_size), (2, 1, 4096));
    rename_db(&mut store, "Masters".to_string());
    assert_eq!(store.title, "Masters");
    assert_eq!(get_number_games(&store), 1);
}

#[test]
fn codec_by_extension() {
    assert_eq!(codec_for("bz2"), Codec::Bzip2);
    assert_eq!(codec_for("zst"), Codec::Zstd);
    assert_eq!(codec_for("pgn"), Codec::Plain);
    assert_eq!(codec_for(""), Codec::Plain);
    assert_eq!(codec_for("BZ2"), Codec::Plain);
}

#[test]
fn excluded_names_create_no_player() {
    let mut imp = Importer::new(50, Store::new());
    feed_owned(&mut imp, &rated("W", "B"), &["e4"]);
    let mut second = rated("Ghost", "Shadow");
    second.retain(|(k, _)| *k != "WhiteElo");
    feed_owned(&mut imp, &second, &["d4"]);
    imp.send().unwrap();
    let names: Vec<&str> = imp.store.players.iter().map(|p| p.name.as_str()).collect();
    assert_eq!(names, vec!["W", "B"]);
    assert_eq!(imp.store.games.len(), 1);
}

#[test]
fn all_excluded_leaves_store_unchanged() {
    let mut imp = Importer::new(2, Store::new());
    let mut hs = rated("A", "B");
    hs.push(("WhiteTitle", "BOT".to_string()));
    for _ in 0..3 {
        assert!(!feed_owned(&mut imp, &hs, &["e4"]));
    }
    imp.send().unwrap();
    assert!(imp.store.players.is_empty());
    assert!(imp.store.games.is_empty());
    assert!(imp.store.is_wf());
}

#[test]
fn pending_game_is_fresh_after_end() {
    let mut imp = Importer::new(1, Store::new());
    feed_owned(&mut imp, &rated("A", "B"), &["e4"]);
    assert_eq!(imp.current.white.name, None);
    assert!(imp.current.moves.is_empty());
    assert!(imp.begin_variation());
    assert_eq!(imp.store.games.len(), 1);
}

#[test]
fn well_formedness_check() {
    let mut store = Store::new();
    assert!(store.is_wf());
    add_game(&mut store, "A", "B", Outcome::Draw);
    add_game(&mut store, "B", "A", Outcome::Draw);
    assert!(store.is_wf());
    store.players[0].game_count = 1;
    assert!(!store.is_wf());
    store.players[0].game_count = 2;
    store.players[1].name = "A".to_string();
    assert!(!store.is_wf());
    store.players[1].name = "B".to_string();
    store.games[1].white = 7;
    assert!(!store.is_wf());
}

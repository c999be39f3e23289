use dlsrv::organize::decide_move;
use dlsrv::organize::{
    looks_organised_movie, looks_organised_tv, normalise_title, parse_filename, pick_tmdb_result,
    sanitize_name, Parsed, TmdbCandidate,
};

fn candidate(id: i64, title: &str, date: &str) -> TmdbCandidate {
    TmdbCandidate {
        id: Some(id),
        title: Some(title.to_string()),
        date: Some(date.to_string()),
    }
}

#[test]
fn parses_chef_and_my_fridge() {
    let name =
        "Chef.and.My.Fridge.S02E77.1080p.NF.WEB-DL.x264.AAC2.0-LoveBug [DRAMADAY.me].mkv";
    assert_eq!(
        parse_filename(name),
        Some(Parsed::Tv {
            show: "Chef and My Fridge".into(),
            season: 2,
            episode: 77,
        })
    );
}

#[test]
fn parses_s1e2_and_s01e02() {
    assert_eq!(
        parse_filename("Show.Name.S1E2.mkv"),
        Some(Parsed::Tv {
            show: "Show Name".into(),
            season: 1,
            episode: 2,
        })
    );
    assert_eq!(
        parse_filename("show.name.s01e02.1080p.mkv"),
        Some(Parsed::Tv {
            show: "show name".into(),
            season: 1,
            episode: 2,
        })
    );
}

#[test]
fn parses_movie_with_quality_tags() {
    assert_eq!(
        parse_filename("Movie.Name.2020.1080p.BluRay.x264-GROUP.mkv"),
        Some(Parsed::Movie {
            title: "Movie Name".into(),
            year: 2020,
        })
    );
}

#[test]
fn parses_underscores_and_spaces() {
    assert_eq!(
        parse_filename("The_Matrix_1999.mkv"),
        Some(Parsed::Movie {
            title: "The Matrix".into(),
            year: 1999,
        })
    );
    assert_eq!(
        parse_filename("The Matrix 1999.mp4"),
        Some(Parsed::Movie {
            title: "The Matrix".into(),
            year: 1999,
        })
    );
}

#[test]
fn tv_wins_over_year() {
    assert_eq!(
        parse_filename("Show.Name.S01E01.2020.1080p.mkv"),
        Some(Parsed::Tv {
            show: "Show Name".into(),
            season: 1,
            episode: 1,
        })
    );
}

#[test]
fn skips_unparsed_garbage() {
    assert_eq!(parse_filename("random-file.mkv"), None);
    assert_eq!(parse_filename("VID_1234.mp4"), None);
    assert_eq!(parse_filename("nfo-only.txt"), None);
}

#[test]
fn dash_separated_tv() {
    assert_eq!(
        parse_filename("Show Name - S01E01 - 1080p.mkv"),
        Some(Parsed::Tv {
            show: "Show Name".into(),
            season: 1,
            episode: 1,
        })
    );
}

#[test]
fn normalise_ampersand() {
    assert_eq!(
        normalise_title("Chef & My Fridge"),
        normalise_title("Chef and My Fridge")
    );
    assert_eq!(normalise_title("Chef.and.My.Fridge"), "chef and my fridge");
}

#[test]
fn sanitise_windows_chars() {
    assert_eq!(sanitize_name("Star Wars: Episode IV"), "Star Wars_ Episode IV");
    assert_eq!(sanitize_name("What? / A *Title*"), "What_ _ A _Title_");
}

#[test]
fn looks_organised_movie_path() {
    let movies = "/media/movies";
    let organised = "/media/movies/Foo (2020)/Foo (2020).mkv";
    let flat = "/media/movies/Foo.2020.1080p.mkv";
    assert!(looks_organised_movie(organised, movies));
    assert!(!looks_organised_movie(flat, movies));
}

#[test]
fn looks_organised_tv_path() {
    let tv = "/media/tv";
    let organised = "/media/tv/Show (2019)/Season 01/Show - S01E01 - Pilot.mkv";
    let loose = "/media/tv/Show.S01E01.mkv";
    assert!(looks_organised_tv(organised, tv));
    assert!(!looks_organised_tv(loose, tv));
}

#[test]
fn pick_single_tmdb_result() {
    let results = vec![candidate(1, "Other Name", "2020-01-01")];
    let hit = pick_tmdb_result(&results, "Query", Some(2020)).unwrap();
    assert_eq!(hit.title, "Other Name");
}

#[test]
fn pick_first_when_title_and_year_match() {
    let results = vec![
        candidate(1, "Movie Name", "2020-05-01"),
        candidate(2, "Movie Name 2", "2020-01-01"),
    ];
    let hit = pick_tmdb_result(&results, "Movie Name", Some(2020)).unwrap();
    assert_eq!(hit.id, 1);
}

#[test]
fn skip_ambiguous_tmdb() {
    let results = vec![
        candidate(1, "Foo", "2020-01-01"),
        candidate(2, "Bar", "2020-01-01"),
    ];
    let err = pick_tmdb_result(&results, "Query", Some(2020)).unwrap_err();
    assert_eq!(err, "ambiguous");
}

#[test]
fn decide_move_outcomes() {
    let s = decide_move("a.mkv".to_string(), "b.mkv".to_string(), true, true, true).unwrap();
    assert_eq!(s.reason.as_deref(), Some("already_organised"));
    assert_eq!(s.action, "skipped");
    let e = decide_move("a.mkv".to_string(), "b.mkv".to_string(), false, true, true).unwrap();
    assert_eq!(e.reason.as_deref(), Some("exists"));
    let d = decide_move("a.mkv".to_string(), "b.mkv".to_string(), false, false, true).unwrap();
    assert_eq!(d.action, "moved");
    assert_eq!(d.to.as_deref(), Some("b.mkv"));
    assert!(decide_move("a.mkv".to_string(), "b.mkv".to_string(), false, false, false).is_none());
}

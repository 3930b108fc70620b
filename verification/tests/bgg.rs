use gamecrawler::bgg::{
    cap_list, dedup_items, linkeditems_url, sort_games, thing_detail_url, top_games,
    DesignerListing, Game, ImageSet, LinkedItem, RatingBand, Score, ThingDetail,
};

fn s(x: &str) -> Option<String> {
    Some(x.to_string())
}

fn item(id: &str, name: &str) -> LinkedItem {
    LinkedItem {
        objectid: id.to_string(),
        name: name.to_string(),
        href: format!("/boardgame/{id}/x"),
        yearpublished: s("1999"),
        usersrated: s("120"),
        average: s("7.1"),
        avgweight: s("2.0"),
        numowned: s("3400"),
        numwish: None,
        numwanting: None,
        rank: s("0"),
        images: ImageSet { thumb: s("t.jpg"), square200: None, previewthumb: s("p.jpg") },
    }
}

fn game(id: &str, rank: Option<u32>, users: Option<u32>, year: Option<u16>) -> Game {
    Game {
        id: id.to_string(),
        name: id.to_string(),
        href: String::new(),
        year,
        image: None,
        min_players: None,
        max_players: None,
        min_playtime: None,
        max_playtime: None,
        min_age: None,
        rating: None,
        users_rated: users,
        rank,
        owned: None,
        weight: None,
        short_description: None,
        bga_url: None,
        bga_name: None,
    }
}

#[test]
fn from_linked_builds_record() {
    let score = Score { shown: "7.10".to_string(), band: RatingBand::High };
    let g = Game::from_linked(item("42", "Lost Cities"), Some(score), None);
    assert_eq!(g.id, "42");
    assert_eq!(g.name, "Lost Cities");
    assert_eq!(g.href, "https://boardgamegeek.com/boardgame/42/x");
    assert_eq!(g.year, Some(1999));
    assert_eq!(g.image.as_deref(), Some("p.jpg"));
    assert_eq!(g.users_rated, Some(120));
    assert_eq!(g.rank, None);
    assert_eq!(g.owned, Some(3400));
    assert_eq!(g.rating.as_ref().map(|r| r.shown.as_str()), Some("7.10"));
    assert!(g.weight.is_none());
    assert!(g.min_players.is_none());
}

#[test]
fn from_linked_keeps_absolute_links_and_square_images() {
    let mut it = item("7", "X");
    it.href = "https://example.org/g".to_string();
    it.images.square200 = s("sq.jpg");
    it.rank = s("15");
    it.usersrated = s("0");
    it.numowned = s("0");
    let g = Game::from_linked(it, None, None);
    assert_eq!(g.href, "https://example.org/g");
    assert_eq!(g.image.as_deref(), Some("sq.jpg"));
    assert_eq!(g.rank, Some(15));
    assert_eq!(g.users_rated, None);
    assert_eq!(g.owned, Some(0));
}

#[test]
fn from_linked_parses_numbers_like_str_parse() {
    let mut it = item("7", "X");
    it.yearpublished = s("70000");
    it.usersrated = s("+12");
    it.numowned = s("-1");
    it.rank = s("4294967296");
    it.images = ImageSet { thumb: None, square200: None, previewthumb: None };
    let g = Game::from_linked(it, None, None);
    assert_eq!(g.year, Some((70000u32 % 65536) as u16));
    assert_eq!(g.users_rated, Some(12));
    assert_eq!(g.owned, None);
    assert_eq!(g.rank, None);
    assert_eq!(g.image, None);
}

#[test]
fn merge_detail_takes_supplement() {
    let mut g = game("1", Some(1), None, None);
    g.merge_detail(ThingDetail {
        minplayers: s("2"),
        maxplayers: s("70000"),
        minplaytime: s("30"),
        maxplaytime: s("x"),
        minage: None,
        short_description: s("A game."),
    });
    assert_eq!(g.min_players, Some(2));
    assert_eq!(g.max_players, None);
    assert_eq!(g.min_playtime, Some(30));
    assert_eq!(g.max_playtime, None);
    assert_eq!(g.min_age, None);
    assert_eq!(g.short_description.as_deref(), Some("A game."));
    assert_eq!(g.rank, Some(1));
}

#[test]
fn merge_detail_drops_blank_description() {
    let mut g = game("1", None, None, None);
    g.merge_detail(ThingDetail {
        minplayers: None,
        maxplayers: None,
        minplaytime: None,
        maxplaytime: None,
        minage: s("8"),
        short_description: s("  \n\t "),
    });
    assert_eq!(g.short_description, None);
    assert_eq!(g.min_age, Some(8));
}

#[test]
fn sort_ranked_first_then_by_raters_then_by_year() {
    let mut games = vec![
        game("unrated-old", None, None, Some(1990)),
        game("rated-few", None, Some(10), None),
        game("rank-5", Some(5), None, None),
        game("unrated-new", None, None, Some(2020)),
        game("rank-1", Some(1), Some(3), None),
        game("rated-many", None, Some(500), None),
        game("unrated-none", None, None, None),
    ];
    sort_games(&mut games);
    let ids: Vec<&str> = games.iter().map(|g| g.id.as_str()).collect();
    assert_eq!(
        ids,
        vec!["rank-1", "rank-5", "rated-many", "rated-few", "unrated-new", "unrated-old", "unrated-none"]
    );
}

#[test]
fn sort_is_stable() {
    let mut games = vec![
        game("a", None, Some(7), None),
        game("b", Some(2), None, None),
        game("c", None, Some(7), None),
        game("d", None, Some(7), None),
    ];
    sort_games(&mut games);
    let ids: Vec<&str> = games.iter().map(|g| g.id.as_str()).collect();
    assert_eq!(ids, vec!["b", "a", "c", "d"]);
    let mut empty: Vec<Game> = Vec::new();
    sort_games(&mut empty);
    assert!(empty.is_empty());
}

#[test]
fn sorting_twice_changes_nothing() {
    let mut games = vec![
        game("a", None, None, Some(1990)),
        game("b", Some(9), None, None),
        game("c", None, Some(3), None),
        game("d", None, None, Some(2001)),
        game("e", Some(4), Some(1), None),
        game("f", None, None, Some(1990)),
    ];
    sort_games(&mut games);
    let once: Vec<String> = games.iter().map(|g| g.id.clone()).collect();
    assert_eq!(once, vec!["e", "b", "c", "d", "a", "f"]);
    sort_games(&mut games);
    let twice: Vec<String> = games.iter().map(|g| g.id.clone()).collect();
    assert_eq!(once, twice);
}

#[test]
fn dedup_keeps_first_of_each_id() {
    let items = vec![item("1", "A"), item("2", "B"), item("1", "A2"), item("3", "C"), item("2", "B2")];
    let out = dedup_items(items);
    let names: Vec<&str> = out.iter().map(|i| i.name.as_str()).collect();
    assert_eq!(names, vec!["A", "B", "C"]);
}

#[test]
fn listing_pages_until_count_reached() {
    let first = vec![item("1", "A"), item("2", "B")];
    let mut l = DesignerListing::start(5, first);
    assert_eq!(l.claimed_total(), 5);
    assert_eq!(l.pending_page(), Some(2));
    l.receive_page(vec![item("3", "C"), item("2", "B")]);
    assert_eq!(l.pending_page(), Some(3));
    l.receive_page(vec![item("4", "D")]);
    assert_eq!(l.pending_page(), None);
    let all = l.finish();
    let ids: Vec<&str> = all.iter().map(|i| i.objectid.as_str()).collect();
    assert_eq!(ids, vec!["1", "2", "3", "4"]);
}

#[test]
fn listing_stops_at_empty_page() {
    let mut l = DesignerListing::start(300, vec![item("1", "A")]);
    assert_eq!(l.pending_page(), Some(2));
    l.receive_page(Vec::new());
    assert_eq!(l.pending_page(), None);
    assert_eq!(l.finish().len(), 1);
}

#[test]
fn listing_with_empty_first_page() {
    let l = DesignerListing::start(0, Vec::new());
    assert_eq!(l.pending_page(), None);
    let l = DesignerListing::start(2, Vec::new());
    assert_eq!(l.pending_page(), Some(2));
}

#[test]
fn listing_url() {
    assert_eq!(
        linkeditems_url(2, 3),
        "https://api.geekdo.com/api/geekitem/linkeditems?ajax=1&objectid=2&objecttype=person&linkdata_index=boardgamedesigner&pageid=3&showcount=100&sort=name&subtype=boardgamedesigner"
    );
}

#[test]
fn detail_url() {
    assert_eq!(
        thing_detail_url("123"),
        "https://api.geekdo.com/api/geekitems?nosession=1&objectid=123&objecttype=thing"
    );
}

#[test]
fn capping_lists() {
    let items = vec![item("1", "A"), item("2", "B"), item("3", "C")];
    assert_eq!(cap_list(items, 0).len(), 3);
    let items = vec![item("1", "A"), item("2", "B"), item("3", "C")];
    assert_eq!(cap_list(items, 2).len(), 2);
    let games = vec![game("a", None, None, None), game("b", None, None, None)];
    let top = top_games(games, 5);
    assert_eq!(top.len(), 2);
    let games = vec![game("a", None, None, None), game("b", None, None, None)];
    let top = top_games(games, 1);
    assert_eq!(top[0].id, "a");
    assert_eq!(top.len(), 1);
}

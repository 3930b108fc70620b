use gamecrawler::bga_match::{fold_lowered, gamepanel_link, normalize, BgaIndex};
use gamecrawler::bgg::Game;

fn game(name: &str) -> Game {
    Game {
        id: "1".to_string(),
        name: name.to_string(),
        href: "https://boardgamegeek.com/boardgame/1/x".to_string(),
        year: Some(2000),
        image: None,
        min_players: None,
        max_players: None,
        min_playtime: None,
        max_playtime: None,
        min_age: None,
        rating: None,
        users_rated: Some(10),
        rank: Some(3),
        owned: None,
        weight: None,
        short_description: None,
        bga_url: None,
        bga_name: None,
    }
}

const CATALOG: &str = "incangold\tIncan Gold\nsechsnimmt\t6 nimmt!\ntickettoride\tTicket to Ride\nlostcities\tLost Cities\n";

#[test]
fn normalize_lowercases_and_strips_punctuation() {
    assert_eq!(normalize("Ticket to Ride"), "tickettoride");
    assert_eq!(normalize("Take 5"), "take5");
    assert_eq!(normalize("6 nimmt!"), "6nimmt");
    assert_eq!(normalize("HELLO"), "hello");
}

#[test]
fn normalize_spells_ampersand() {
    assert_eq!(normalize("Rock & Roll"), "rockandroll");
    assert_eq!(normalize("Tigris & Euphrates"), "tigrisandeuphrates");
}

#[test]
fn normalize_drops_non_ascii_letters() {
    assert_eq!(normalize("Über Ö"), "ber");
    assert_eq!(normalize(""), "");
    assert_eq!(normalize("!!!"), "");
}

#[test]
fn normalize_is_idempotent_on_examples() {
    for s in ["Ticket to Ride: Nordic Countries", "Rock & Roll", "Die Macher"] {
        let once = normalize(s);
        assert_eq!(normalize(&once), once);
    }
}

#[test]
fn fold_lowered_keeps_only_letters_and_digits() {
    assert_eq!(fold_lowered("a&b c-d"), "aandbcd");
    assert_eq!(fold_lowered("ABC"), "ABC");
}

#[test]
fn index_counts_distinct_slugs() {
    let idx = BgaIndex::from_tsv(CATALOG);
    assert_eq!(idx.len(), 4);
    let dup = BgaIndex::from_tsv("a\tA\na\tA again\nb\tB\n");
    assert_eq!(dup.len(), 2);
}

#[test]
fn index_counts_distinct_names() {
    let idx = BgaIndex::from_tsv("a\tRa\nb\tRA!\nc\t\nd\tZooloretto\n");
    assert_eq!(idx.len(), 4);
    assert_eq!(idx.name_count(), 2);
}

#[test]
fn index_skips_lines_without_slug() {
    let idx = BgaIndex::from_tsv("\tNameless\n   \t\n\nx\tX\n");
    assert_eq!(idx.len(), 1);
    assert_eq!(idx.lookup("Nameless"), None);
    assert_eq!(idx.lookup("X"), Some(("x", "X")));
}

#[test]
fn index_trims_fields_and_handles_crlf() {
    let idx = BgaIndex::from_tsv("  carcassonne \t Carcassonne \r\nazul\tAzul\r\n");
    assert_eq!(idx.lookup("carcassonne"), Some(("carcassonne", "Carcassonne")));
    assert_eq!(idx.lookup("AZUL"), Some(("azul", "Azul")));
}

#[test]
fn lookup_by_display_name() {
    let idx = BgaIndex::from_tsv(CATALOG);
    assert_eq!(idx.lookup("Ticket to Ride"), Some(("tickettoride", "Ticket to Ride")));
    assert_eq!(idx.lookup("lost cities"), Some(("lostcities", "Lost Cities")));
}

#[test]
fn lookup_uses_alias_table() {
    let idx = BgaIndex::from_tsv(CATALOG);
    assert_eq!(idx.lookup("Diamant"), Some(("incangold", "Incan Gold")));
    assert_eq!(idx.lookup("Take 5"), Some(("sechsnimmt", "6 nimmt!")));
}

#[test]
fn alias_needs_target_in_catalog() {
    let idx = BgaIndex::from_tsv("tickettoride\tTicket to Ride\n");
    assert_eq!(idx.lookup("Diamant"), None);
}

#[test]
fn lookup_falls_back_to_slug() {
    let idx = BgaIndex::from_tsv(CATALOG);
    assert_eq!(idx.lookup("sechsnimmt"), Some(("sechsnimmt", "6 nimmt!")));
}

#[test]
fn variants_do_not_match_base_game() {
    let idx = BgaIndex::from_tsv(CATALOG);
    assert_eq!(idx.lookup("Ticket to Ride: Nordic Countries"), None);
    assert_eq!(idx.lookup("Ticket to Ride Europe"), None);
}

#[test]
fn later_lines_take_the_place_of_earlier_ones() {
    let idx = BgaIndex::from_tsv("old\tSame Name\nnew\tSame Name\n");
    assert_eq!(idx.lookup("Same Name"), Some(("new", "Same Name")));
}

#[test]
fn every_catalog_game_is_found_by_its_name() {
    let idx = BgaIndex::from_tsv(CATALOG);
    for line in CATALOG.lines() {
        let (slug, name) = line.split_once('\t').unwrap();
        let found = idx.lookup(name).unwrap();
        assert!(found.0 == slug || found.0 == "incangold" || found.0 == "sechsnimmt");
    }
}

#[test]
fn gamepanel_link_points_at_bga() {
    assert_eq!(gamepanel_link("azul"), "https://boardgamearena.com/gamepanel?game=azul");
}

#[test]
fn tag_games_marks_games_on_bga() {
    let idx = BgaIndex::from_tsv(CATALOG);
    let games = vec![game("Diamant"), game("Lost Cities"), game("Unknown Game")];
    let (tagged, hits) = idx.tag_games(games);
    assert_eq!(hits, 2);
    assert_eq!(tagged.len(), 3);
    assert_eq!(tagged[0].bga_url.as_deref(), Some("https://boardgamearena.com/gamepanel?game=incangold"));
    assert_eq!(tagged[0].bga_name.as_deref(), Some("Incan Gold"));
    assert_eq!(tagged[1].bga_url.as_deref(), Some("https://boardgamearena.com/gamepanel?game=lostcities"));
    assert_eq!(tagged[1].bga_name, None);
    assert_eq!(tagged[2].bga_url, None);
    assert_eq!(tagged[2].name, "Unknown Game");
}

#[test]
fn playable_keeps_only_games_on_bga() {
    let idx = BgaIndex::from_tsv(CATALOG);
    let pool = vec![game("Take 5"), game("Nope"), game("Lost Cities")];
    let out = idx.playable_on_bga(pool);
    assert_eq!(out.len(), 2);
    assert_eq!(out[0].name, "Take 5 (BGA: 6 nimmt!)");
    assert_eq!(out[0].href, "https://boardgamearena.com/gamepanel?game=sechsnimmt");
    assert_eq!(out[1].name, "Lost Cities");
    assert_eq!(out[1].href, "https://boardgamearena.com/gamepanel?game=lostcities");
}

#[test]
fn playable_keeps_name_when_only_case_differs() {
    let idx = BgaIndex::from_tsv("azul\tAZUL\n");
    let out = idx.playable_on_bga(vec![game("Azul")]);
    assert_eq!(out.len(), 1);
    assert_eq!(out[0].name, "Azul");
}

#[test]
fn normalize_output_is_lower_case_letters_and_digits() {
    for s in ["Ticket to Ride: NORDIC Countries", "Ra & Ra", "6 nimmt!", "ÄÖÜ Spiel 2"] {
        let n = normalize(s);
        assert!(n.chars().all(|c| c.is_ascii_lowercase() || c.is_ascii_digit()));
    }
    assert_eq!(normalize("incangold"), "incangold");
    assert_eq!(normalize("take5"), "take5");
}

#[test]
fn normalize_ignores_ascii_case_and_joins_pieces() {
    assert_eq!(normalize("LOST CITIES"), normalize("lost cities"));
    for s in ["Take 5", "Ra & Ra", "Ticket to Ride: Nordic Countries"] {
        assert_eq!(normalize(&s.to_ascii_uppercase()), normalize(s));
    }
    let a = "Lost ";
    let b = "Cities & More";
    assert_eq!(normalize(&(a.to_owned() + b)), normalize(a) + &normalize(b));
}

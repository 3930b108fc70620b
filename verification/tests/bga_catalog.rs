use gamecrawler::bga_catalog::{catalog_entries, catalog_tsv, slug_of_link, ScrollWatch};
use gamecrawler::bga_match::BgaIndex;

#[test]
fn scrolling_stops_after_two_stable_counts() {
    let mut w = ScrollWatch::new();
    let counts = [10, 20, 20, 20, 30];
    let mut used = 0;
    for c in counts {
        if !w.keep_scrolling() {
            break;
        }
        w.observe(c);
        used += 1;
    }
    assert_eq!(used, 4);
    assert!(!w.keep_scrolling());
}

#[test]
fn scrolling_stops_after_sixty_rounds() {
    let mut w = ScrollWatch::new();
    let mut rounds = 0;
    while w.keep_scrolling() {
        w.observe(rounds);
        rounds += 1;
    }
    assert_eq!(rounds, 60);
}

#[test]
fn zero_counts_are_stable_from_the_start() {
    let mut w = ScrollWatch::new();
    for _ in 0..2 {
        assert!(w.keep_scrolling());
        w.observe(0);
    }
    assert!(!w.keep_scrolling());
}

#[test]
fn catalog_lines() {
    let entries = vec![
        ("azul".to_string(), "Azul".to_string()),
        (String::new(), "No slug".to_string()),
        ("tab".to_string(), "A\tB".to_string()),
    ];
    let (tsv, count) = catalog_tsv(&entries);
    assert_eq!(tsv, "azul\tAzul\ntab\tA B\n");
    assert_eq!(count, 2);
}

#[test]
fn catalog_reads_back() {
    let entries = vec![
        ("incangold".to_string(), "Incan Gold".to_string()),
        ("sechsnimmt".to_string(), "6 nimmt!".to_string()),
        ("odd".to_string(), "\tTabbed\t".to_string()),
    ];
    let (tsv, _) = catalog_tsv(&entries);
    let idx = BgaIndex::from_tsv(&tsv);
    assert_eq!(idx.len(), 3);
    assert_eq!(idx.lookup("Incan Gold"), Some(("incangold", "Incan Gold")));
    assert_eq!(idx.lookup("Diamant"), Some(("incangold", "Incan Gold")));
    assert_eq!(idx.lookup("6 nimmt"), Some(("sechsnimmt", "6 nimmt!")));
    assert_eq!(idx.lookup("tabbed"), Some(("odd", "Tabbed")));
}

#[test]
fn slugs_of_game_links() {
    assert_eq!(slug_of_link("/gamepanel?game=incangold").as_deref(), Some("incangold"));
    assert_eq!(slug_of_link("https://boardgamearena.com/gamepanel?game=six_nimmt2&x=1").as_deref(), Some("six_nimmt2"));
    assert_eq!(slug_of_link("/gamepanel?game=Caps").as_deref(), None);
    assert_eq!(slug_of_link("/gamepanel?game=").as_deref(), None);
    assert_eq!(slug_of_link("/a?game=&game=azul").as_deref(), Some("azul"));
    assert_eq!(slug_of_link("").as_deref(), None);
}

#[test]
fn catalog_entries_of_the_page_links() {
    let links = vec![
        ("/gamepanel?game=incangold".to_string(), "Incan Gold".to_string()),
        ("/gamepanel?game=incangold".to_string(), "".to_string()),
        ("/gamepanel?game=".to_string(), "Nothing".to_string()),
        ("/gamepanel?game=sechsnimmt".to_string(), "6 nimmt!".to_string()),
    ];
    let entries = catalog_entries(&links);
    assert_eq!(
        entries,
        vec![
            ("incangold".to_string(), "Incan Gold".to_string()),
            ("sechsnimmt".to_string(), "6 nimmt!".to_string()),
        ]
    );
    let (tsv, count) = catalog_tsv(&entries);
    assert_eq!(count, 2);
    let index = BgaIndex::from_tsv(&tsv);
    assert_eq!(index.len(), 2);
    assert_eq!(index.lookup("Diamant"), Some(("incangold", "Incan Gold")));
    assert_eq!(index.lookup("Take 5"), Some(("sechsnimmt", "6 nimmt!")));
}

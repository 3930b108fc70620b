use gamecrawler::bgg::{Game, RatingBand, Score};
use gamecrawler::render::{
    build_html, build_html_at, build_sectioned_html_at, fmt_thousands, html_attr, html_text,
    images_settled, render_card, shorten,
};

fn base_game() -> Game {
    Game {
        id: "42".to_string(),
        name: "Lost Cities".to_string(),
        href: "https://boardgamegeek.com/boardgame/50/lost-cities".to_string(),
        year: Some(1999),
        image: Some("https://cf.geekdo-images.com/x.jpg?a=1&b=2".to_string()),
        min_players: Some(2),
        max_players: Some(2),
        min_playtime: Some(30),
        max_playtime: Some(30),
        min_age: Some(10),
        rating: Some(Score { shown: "7.12".to_string(), band: RatingBand::High }),
        users_rated: Some(12345),
        rank: Some(300),
        owned: Some(45678),
        weight: None,
        short_description: None,
        bga_url: Some("https://boardgamearena.com/gamepanel?game=lostcities".to_string()),
        bga_name: None,
    }
}

#[test]
fn thousands_separators() {
    assert_eq!(fmt_thousands(0), "0");
    assert_eq!(fmt_thousands(999), "999");
    assert_eq!(fmt_thousands(1000), "1,000");
    assert_eq!(fmt_thousands(12345), "12,345");
    assert_eq!(fmt_thousands(1234567), "1,234,567");
    assert_eq!(fmt_thousands(u32::MAX), "4,294,967,295");
}

#[test]
fn thousands_digits_come_back_without_commas() {
    for n in [0u32, 7, 1000, 98765, 100000000] {
        assert_eq!(fmt_thousands(n).replace(',', ""), n.to_string());
    }
}

#[test]
fn escaping_text_and_attributes() {
    assert_eq!(html_text("a < b && c > \"d\""), "a &lt; b &amp;&amp; c &gt; \"d\"");
    assert_eq!(html_attr("a < b && c > \"d\""), "a &lt; b &amp;&amp; c &gt; &quot;d&quot;");
    assert_eq!(html_text(""), "");
    assert_eq!(html_text("&lt;"), "&amp;lt;");
}

#[test]
fn escaped_text_has_no_tags() {
    let s = html_text("<script>alert('x')</script>");
    assert!(!s.contains('<') && !s.contains('>'));
    let a = html_attr("\"><img src=x>");
    assert!(!a.contains('"') && !a.contains('<') && !a.contains('>'));
}

#[test]
fn shortening() {
    assert_eq!(shorten("abcdef", 3), "abc…");
    assert_eq!(shorten("abc", 3), "abc");
    assert_eq!(shorten("äöüß", 2), "äö…");
    assert_eq!(shorten("", 0), "");
    assert_eq!(shorten("x", 0), "…");
}

#[test]
fn images_settle_when_all_loaded() {
    assert!(images_settled(3, 3));
    assert!(!images_settled(2, 3));
    assert!(!images_settled(0, 0));
}

fn expected_card(img: &str, rank: &str, name: &str, badge: &str, year: &str, stats: &str, url: &str, short: &str) -> String {
    format!(
        "<div class=\"card\">\n  <div class=\"thumb\">{img}</div>\n  <div class=\"meta\">\n    <div class=\"row1\">\n      <span class=\"rank\">{rank}</span>\n      <span class=\"name\">{name}{badge}</span>\n      {year}\n    </div>\n    <div class=\"stats\">{stats}</div>\n    <a class=\"url\" href=\"{url}\">{short}</a>\n  </div>\n</div>\n"
    )
}

#[test]
fn card_of_a_full_record() {
    let g = base_game();
    let card = render_card(&g);
    let expected = expected_card(
        "<img src=\"https://cf.geekdo-images.com/x.jpg?a=1&amp;b=2\" alt=\"\" loading=\"eager\">",
        "#300",
        "Lost Cities",
        "<a class=\"bga\" href=\"https://boardgamearena.com/gamepanel?game=lostcities\" title=\"Play on Board Game Arena\">BGA</a>",
        "<span class=\"year\">(1999)</span>",
        "<span class=\"stat\"><b class=\"rating-hi\">★ 7.12</b> · 12,345 users</span><span class=\"stat\"><b>2</b> players</span><span class=\"stat\"><b>30′</b></span><span class=\"stat\">45,678 owned</span>",
        "https://boardgamegeek.com/boardgame/50/lost-cities",
        "https://boardgamegeek.com/boardgame/50/lost-cities",
    );
    assert_eq!(card, expected);
}

#[test]
fn card_of_a_sparse_record() {
    let mut g = base_game();
    g.name = "Rock & Roll".to_string();
    g.image = Some(String::new());
    g.rank = None;
    g.year = None;
    g.rating = None;
    g.min_players = Some(2);
    g.max_players = Some(5);
    g.min_playtime = Some(0);
    g.max_playtime = Some(0);
    g.owned = Some(0);
    g.bga_name = Some("Rock \"n\" Roll".to_string());
    g.href = "https://boardgamegeek.com/boardgame/1234567/a-very-long-slug-that-goes-on-and-on-and-on-for-ever".to_string();
    let card = render_card(&g);
    let expected = expected_card(
        "<span class=\"nope\">no image</span>",
        "—",
        "Rock &amp; Roll",
        "<a class=\"bga\" href=\"https://boardgamearena.com/gamepanel?game=lostcities\" title=\"Play on Board Game Arena (Rock &quot;n&quot; Roll)\">BGA</a>",
        "",
        "<span class=\"unrated\">unrated</span><span class=\"stat\"><b>2–5</b> players</span>",
        "https://boardgamegeek.com/boardgame/1234567/a-very-long-slug-that-goes-on-and-on-and-on-for-ever",
        "https://boardgamegeek.com/boardgame/1234567/a-very-long-slug-that-goes…",
    );
    assert_eq!(card, expected);
}

#[test]
fn card_time_ranges_and_bands() {
    let mut g = base_game();
    g.min_playtime = Some(0);
    g.max_playtime = Some(45);
    g.rating = Some(Score { shown: "6.50".to_string(), band: RatingBand::Medium });
    g.users_rated = None;
    g.bga_url = None;
    g.bga_name = Some("ignored".to_string());
    let card = render_card(&g);
    assert!(card.contains("<span class=\"stat\"><b>0–45′</b></span>"));
    assert!(card.contains("<b class=\"rating-md\">★ 6.50</b> · 0 users"));
    assert!(!card.contains("class=\"bga\""));
    g.rating = Some(Score { shown: "5.00".to_string(), band: RatingBand::Low });
    assert!(render_card(&g).contains("rating-lo"));
}

#[test]
fn catalog_page_layout() {
    let g = base_game();
    let mut unrated = base_game();
    unrated.rating = None;
    let page = build_html_at("Reiner <Knizia>", &[g, unrated], "2024-01-02 03:04 UTC");
    assert!(page.starts_with("<!doctype html>\n<html lang=\"en\">\n<head>\n<meta charset=\"utf-8\">\n<title>Reiner &lt;Knizia&gt; — Board Game Catalog</title>\n<style>\n"));
    assert!(page.contains("<h1>Reiner &lt;Knizia&gt; — Board Game Catalog</h1>\n<div class=\"sub\">2 games credited as designer · 1 ranked on BGG · generated 2024-01-02 03:04 UTC · source: api.geekdo.com</div>\n</header>\n<div class=\"grid\">\n<div class=\"card\">"));
    assert!(page.ends_with("</div>\n</div>\n</div></body></html>\n"));
    assert_eq!(page.matches("<div class=\"card\">").count(), 2);
}

#[test]
fn catalog_page_with_current_time() {
    let page = build_html("Nobody", &[]).unwrap();
    assert!(page.contains("<div class=\"sub\">0 games credited as designer · 0 ranked on BGG · generated "));
    assert!(page.ends_with(" UTC · source: api.geekdo.com</div>\n</header>\n<div class=\"grid\">\n</div></body></html>\n"));
}

#[test]
fn sectioned_page_layout() {
    let sections = vec![
        ("Alan R. Moon".to_string(), vec![base_game()]),
        ("Empty".to_string(), Vec::new()),
    ];
    let page = build_sectioned_html_at("Top & more", &sections, "T");
    assert!(page.contains("<title>Top &amp; more</title>\n<style>\n"));
    assert!(page.contains("<h1>Top &amp; more</h1>\n<div class=\"sub\">1 games across 2 designers · generated T · source: api.geekdo.com</div>\n</header>\n<section class=\"section\"><div class=\"section-head\">Alan R. Moon<span class=\"count\">— top 1</span></div><div class=\"grid\">\n<div class=\"card\">"));
    assert!(page.contains("<section class=\"section\"><div class=\"section-head\">Empty<span class=\"count\">— top 0</span></div><div class=\"grid\">\n</div></section>\n</body></html>\n"));
}

#[test]
fn card_escapes_markup_in_every_field() {
    let mut g = base_game();
    g.name = "<script>".to_string();
    g.rating = Some(Score { shown: "<div class=\"card\">".to_string(), band: RatingBand::Low });
    g.bga_name = Some("\"><b>".to_string());
    let card = render_card(&g);
    assert!(!card.contains("<script>"));
    assert!(card.contains("&lt;script&gt;"));
    assert_eq!(card.matches("<div class=\"card\">").count(), 1);
    assert!(card.contains("★ &lt;div class=\"card\"&gt;</b>"));
}

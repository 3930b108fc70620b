use gamecrawler::bgg::{RatingBand, Score};
use gamecrawler::popular::{
    browse_url, default_since, html_unescape, parse_browse_page, popular_header, since_year,
    rows_from_captures, rows_from_matches, BrowseRow, Metric, Picker,
};

const PAGE: &str = r#"<table>
<tr><td class="collection_thumbnail"></td><td><div><a href="/boardgame/174430/gloomhaven" class="primary">Gloomhaven</a></div><span class="smallerfont dull">(2017)</span></td>
<td class="collection_bggrating" align="center">
 8.312 </td>
<td class="collection_bggrating" align="center">8.6</td>
<td class="collection_bggrating" align="center">60123</td>
<td class="collection_bggrating" align="center">90001</td></tr>
<tr><td><a href="/boardgame/13/catan" class="primary">CATAN &amp; &quot;Co&quot; &#039;s</a> (1995)</td>
<td class="collection_bggrating">7.0</td><td class="collection_bggrating">N/A</td><td class="collection_bggrating">0</td></tr>
</table>"#;

fn row(id: &str, year: u16) -> BrowseRow {
    BrowseRow {
        id: id.to_string(),
        name: format!("Game {id}"),
        year,
        geek_rating: None,
        avg_rating: None,
        num_voters: Some(5),
        num_owned: Some(9),
        href: format!("https://boardgamegeek.com/boardgame/{id}/x"),
    }
}

#[test]
fn unescaping_entities() {
    assert_eq!(html_unescape("A &amp; B &quot;C&quot; D&#039;s &lt;x&gt;"), "A & B \"C\" D's <x>");
    assert_eq!(html_unescape("&amp;lt;"), "<");
    assert_eq!(html_unescape("plain"), "plain");
    assert_eq!(html_unescape("&am"), "&am");
}

#[test]
fn metric_parameters_and_labels() {
    assert_eq!(Metric::Numowned.browse_param(), "numowned");
    assert_eq!(Metric::Rank.browse_param(), "rank");
    assert_eq!(Metric::Voters.browse_param(), "numvoters");
    assert_eq!(Metric::Numowned.label(), "most owned on BGG");
    assert_eq!(Metric::Rank.label(), "highest BGG rank");
    assert_eq!(Metric::Voters.label(), "most rated on BGG");
}

#[test]
fn browse_page_url() {
    assert_eq!(
        browse_url(2, Metric::Voters),
        "https://boardgamegeek.com/browse/boardgame/page/2?sort=numvoters&sortdir=desc"
    );
}

#[test]
fn report_title() {
    assert_eq!(
        popular_header(10, Metric::Numowned, 2015, 2025),
        "Top 10 board games — most owned on BGG (2015–2025)"
    );
}

#[test]
fn year_window() {
    assert_eq!(since_year(2025), 2015);
    assert_eq!(since_year(5), 0);
    assert_eq!(since_year(10), 0);
    assert!(default_since().unwrap() >= 2015);
}

#[test]
fn browse_page_rows() {
    let rows = parse_browse_page(PAGE).ok().unwrap();
    assert_eq!(rows.len(), 2);
    let g = &rows[0];
    assert_eq!(g.id, "174430");
    assert_eq!(g.name, "Gloomhaven");
    assert_eq!(g.year, 2017);
    assert_eq!(g.href, "https://boardgamegeek.com/boardgame/174430/gloomhaven");
    assert_eq!(g.geek_rating.as_deref(), Some("8.312"));
    assert_eq!(g.avg_rating.as_deref(), Some("8.6"));
    assert_eq!(g.num_voters, Some(60123));
    assert_eq!(g.num_owned, Some(90001));
    let c = &rows[1];
    assert_eq!(c.id, "13");
    assert_eq!(c.name, "CATAN & \"Co\" 's");
    assert_eq!(c.year, 1995);
    assert_eq!(c.geek_rating.as_deref(), Some("7.0"));
    assert_eq!(c.avg_rating.as_deref(), Some("N/A"));
    assert_eq!(c.num_voters, None);
    assert_eq!(c.num_owned, None);
}

#[test]
fn browse_page_without_rows() {
    let rows = parse_browse_page("<html>nothing here</html>").ok().unwrap();
    assert!(rows.is_empty());
}

#[test]
fn row_to_game() {
    let r = row("7", 2020);
    let avg = Score { shown: "7.50".to_string(), band: RatingBand::High };
    let geek = Score { shown: "6.10".to_string(), band: RatingBand::Medium };
    let g = r.into_game(Some(avg), Some(geek));
    assert_eq!(g.id, "7");
    assert_eq!(g.year, Some(2020));
    assert_eq!(g.users_rated, Some(5));
    assert_eq!(g.owned, Some(9));
    assert_eq!(g.rating.as_ref().map(|s| s.shown.as_str()), Some("7.50"));
    let geek = Score { shown: "6.10".to_string(), band: RatingBand::Medium };
    let g = r.into_game(None, Some(geek));
    assert_eq!(g.rating.as_ref().map(|s| s.shown.as_str()), Some("6.10"));
    assert!(g.rank.is_none());
}

#[test]
fn picker_filters_years_and_duplicates() {
    let mut p = Picker::new(3, 2015, 2020);
    p.offer_page(vec![row("1", 2014), row("2", 2016), row("2", 2016), row("3", 2021), row("4", 2020)]);
    assert!(!p.is_full());
    p.offer_page(vec![row("4", 2020), row("5", 2018), row("6", 2019)]);
    assert!(p.is_full());
    let picks = p.into_picks();
    let ids: Vec<&str> = picks.iter().map(|r| r.id.as_str()).collect();
    assert_eq!(ids, vec!["2", "4", "5"]);
}

#[test]
fn picker_with_zero_wanted_takes_one() {
    let mut p = Picker::new(0, 2000, 2030);
    p.offer_page(vec![row("1", 2010), row("2", 2011)]);
    assert!(p.is_full());
    assert_eq!(p.into_picks().len(), 1);
}

fn span(h: &str, piece: &str, from: usize) -> Option<(usize, usize)> {
    let start = from + h[from..].find(piece).unwrap();
    Some((start, start + piece.len()))
}

#[test]
fn rows_from_given_matches() {
    let h = r#"<a href="/boardgame/9/el-grande" class="primary">El Grande</a> (1995)<td class="collection_bggrating">7.7</td><td class="collection_bggrating">7.8</td><td class="collection_bggrating">2500</td><td class="collection_bggrating">4000</td><a href="/boardgame/5/acquire" class="primary">Acquire &amp; Co</a> (1964)"#;
    let first_end = h.find("(1995)").unwrap() + "(1995)".len();
    let second_start = h.find("href=\"/boardgame/5").unwrap();
    let caps = vec![
        vec![
            Some((h.find("href=").unwrap(), first_end)),
            span(h, "/boardgame/9/el-grande", 0),
            span(h, "9", h.find("/boardgame/").unwrap()),
            span(h, "El Grande", 0),
            span(h, "1995", 0),
        ],
        vec![
            Some((second_start, h.len())),
            span(h, "/boardgame/5/acquire", 0),
            span(h, "5", second_start),
            span(h, "Acquire &amp; Co", 0),
            None,
        ],
    ];
    let rows = rows_from_captures(h, &caps);
    assert_eq!(rows.len(), 1);
    let r = &rows[0];
    assert_eq!(r.id, "9");
    assert_eq!(r.name, "El Grande");
    assert_eq!(r.year, 1995);
    assert_eq!(r.href, "https://boardgamegeek.com/boardgame/9/el-grande");
    assert_eq!(r.geek_rating.as_deref(), Some("7.7"));
    assert_eq!(r.avg_rating.as_deref(), Some("7.8"));
    assert_eq!(r.num_voters, Some(2500));
    assert_eq!(r.num_owned, Some(4000));
}

#[test]
fn rows_from_given_row_and_cell_matches() {
    let h = r#"<a href="/boardgame/9/el-grande" class="primary">El Grande</a> (1995)|7.7|7.8|2500|0|"#;
    let end = h.find("(1995)").unwrap() + "(1995)".len();
    let chunk = &h[end..];
    let caps = vec![vec![
        Some((h.find("href=").unwrap(), end)),
        span(h, "/boardgame/9/el-grande", 0),
        span(h, "9", h.find("/boardgame/").unwrap()),
        span(h, "El Grande", 0),
        span(h, "1995", 0),
    ]];
    let cell = |piece: &str, from: usize| {
        let s = span(chunk, piece, from).unwrap();
        vec![Some(s), Some(s)]
    };
    let cells = vec![vec![cell("7.7", 0), cell("7.8", 4), cell("2500", 0), cell("0", 13)]];
    let rows = rows_from_matches(h, &caps, &cells);
    assert_eq!(rows.len(), 1);
    let r = &rows[0];
    assert_eq!(r.id, "9");
    assert_eq!(r.geek_rating.as_deref(), Some("7.7"));
    assert_eq!(r.avg_rating.as_deref(), Some("7.8"));
    assert_eq!(r.num_voters, Some(2500));
    assert_eq!(r.num_owned, None);
}

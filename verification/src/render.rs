//! The HTML overview page: one card per game, in a two-column grid, with an
//! optional "playable on Board Game Arena" badge. Printing the page to PDF
//! is left to the caller.
use vstd::prelude::*;
use crate::bgg::{Game, RatingBand, Score, opt_view};
use crate::text::{append_chars, append_str, chars_of, decimal, decimal_chars, flat_map_chars, string_of};
use crate::clock::{is_utc_stamp, stamp_from_seconds, stamp_of_seconds};

verus! {

// ---------------------------------------------------------------------------
// Escaping and small formatters
// ---------------------------------------------------------------------------

/// How a character is written in HTML text.
pub open spec fn text_escape(c: char) -> Seq<char> {
    if c == '&' {
        "&amp;"@
    } else if c == '<' {
        "&lt;"@
    } else if c == '>' {
        "&gt;"@
    } else {
        seq![c]
    }
}

/// How a character is written in a double-quoted HTML attribute.
pub open spec fn attr_escape(c: char) -> Seq<char> {
    if c == '&' {
        "&amp;"@
    } else if c == '"' {
        "&quot;"@
    } else if c == '<' {
        "&lt;"@
    } else if c == '>' {
        "&gt;"@
    } else {
        seq![c]
    }
}

/// Text escaped for HTML content.
pub open spec fn escaped_text(s: Seq<char>) -> Seq<char> {
    flat_map_chars(s, |c: char| text_escape(c))
}

/// Text escaped for a double-quoted HTML attribute.
pub open spec fn escaped_attr(s: Seq<char>) -> Seq<char> {
    flat_map_chars(s, |c: char| attr_escape(c))
}

fn text_chars(s: &[char]) -> (r: Vec<char>)
    ensures
        r@ == escaped_text(s@),
{
    let n = s.len();
    let mut out: Vec<char> = Vec::new();
    for i in 0..n
        invariant
            n == s@.len(),
            out@ == escaped_text(s@.take(i as int)),
    {
        let c = s[i];
        assert(s@.take(i + 1).drop_last() =~= s@.take(i as int));
        assert(s@.take(i + 1).last() == c);
        if c == '&' {
            append_str(&mut out, "&amp;");
        } else if c == '<' {
            append_str(&mut out, "&lt;");
        } else if c == '>' {
            append_str(&mut out, "&gt;");
        } else {
            out.push(c);
            assert(out@ =~= escaped_text(s@.take(i as int)) + seq![c]);
        }
    }
    assert(s@.take(n as int) =~= s@);
    out
}

fn attr_chars(s: &[char]) -> (r: Vec<char>)
    ensures
        r@ == escaped_attr(s@),
{
    let n = s.len();
    let mut out: Vec<char> = Vec::new();
    for i in 0..n
        invariant
            n == s@.len(),
            out@ == escaped_attr(s@.take(i as int)),
    {
        let c = s[i];
        assert(s@.take(i + 1).drop_last() =~= s@.take(i as int));
        assert(s@.take(i + 1).last() == c);
        if c == '&' {
            append_str(&mut out, "&amp;");
        } else if c == '"' {
            append_str(&mut out, "&quot;");
        } else if c == '<' {
            append_str(&mut out, "&lt;");
        } else if c == '>' {
            append_str(&mut out, "&gt;");
        } else {
            out.push(c);
            assert(out@ =~= escaped_attr(s@.take(i as int)) + seq![c]);
        }
    }
    assert(s@.take(n as int) =~= s@);
    out
}

/// Escaped text holds no `<` or `>`: it cannot open or close a tag.
pub proof fn lemma_escaped_text_has_no_tags(s: Seq<char>)
    ensures
        !crate::text::has_char(escaped_text(s), '<'),
        !crate::text::has_char(escaped_text(s), '>'),
    decreases s.len(),
{
    reveal_strlit("&amp;");
    reveal_strlit("&lt;");
    reveal_strlit("&gt;");
    if s.len() > 0 {
        lemma_escaped_text_has_no_tags(s.drop_last());
        let p = escaped_text(s.drop_last());
        let q = text_escape(s.last());
        assert(escaped_text(s) == p + q);
        assert forall|c: char| c == '<' || c == '>' implies !crate::text::has_char(p + q, c) by {
            if crate::text::has_char(p + q, c) {
                let i = choose|i: int| 0 <= i < (p + q).len() && (p + q)[i] == c;
                if i < p.len() {
                    assert(p[i] == c);
                } else {
                    assert(q[i - p.len()] == c);
                }
            }
        }
    }
}

/// An escaped attribute value holds no `"`, `<` or `>`: it cannot end the
/// attribute or open or close a tag.
pub proof fn lemma_escaped_attr_stays_quoted(s: Seq<char>)
    ensures
        !crate::text::has_char(escaped_attr(s), '"'),
        !crate::text::has_char(escaped_attr(s), '<'),
        !crate::text::has_char(escaped_attr(s), '>'),
    decreases s.len(),
{
    reveal_strlit("&amp;");
    reveal_strlit("&quot;");
    reveal_strlit("&lt;");
    reveal_strlit("&gt;");
    if s.len() > 0 {
        lemma_escaped_attr_stays_quoted(s.drop_last());
        let p = escaped_attr(s.drop_last());
        let q = attr_escape(s.last());
        assert(escaped_attr(s) == p + q);
        assert forall|c: char| c == '"' || c == '<' || c == '>' implies !crate::text::has_char(
            p + q,
            c,
        ) by {
            if crate::text::has_char(p + q, c) {
                let i = choose|i: int| 0 <= i < (p + q).len() && (p + q)[i] == c;
                if i < p.len() {
                    assert(p[i] == c);
                } else {
                    assert(q[i - p.len()] == c);
                }
            }
        }
    }
}

/// Escapes `&`, `<` and `>` for HTML content.
pub fn html_text(s: &str) -> (r: String)
    ensures
        r@ == escaped_text(s@),
{
    let cs = chars_of(s);
    let e = text_chars(cs.as_slice());
    string_of(e.as_slice())
}

/// Escapes `&`, `"`, `<` and `>` for a double-quoted HTML attribute.
pub fn html_attr(s: &str) -> (r: String)
    ensures
        r@ == escaped_attr(s@),
{
    let cs = chars_of(s);
    let e = attr_chars(cs.as_slice());
    string_of(e.as_slice())
}

/// Text cut to at most `max` characters, with `…` appended when it was cut.
pub open spec fn shortened(s: Seq<char>, max: nat) -> Seq<char> {
    if s.len() <= max {
        s
    } else {
        s.take(max as int) + "…"@
    }
}

fn shorten_chars(s: &[char], max: usize) -> (r: Vec<char>)
    ensures
        r@ == shortened(s@, max as nat),
{
    if s.len() <= max {
        let mut r: Vec<char> = Vec::new();
        append_chars(&mut r, s);
        assert(r@ =~= s@);
        r
    } else {
        let mut r = crate::text::slice_chars(s, 0, max);
        assert(s@.subrange(0, max as int) =~= s@.take(max as int));
        append_str(&mut r, "…");
        r
    }
}

/// Cuts `s` to at most `max` characters, appending `…` when it was cut.
pub fn shorten(s: &str, max: usize) -> (r: String)
    ensures
        r@ == shortened(s@, max as nat),
{
    let cs = chars_of(s);
    let r = shorten_chars(cs.as_slice(), max);
    string_of(r.as_slice())
}

/// The first `i` digits of `d`, with a comma before each digit that starts
/// a group of three counted from the right.
pub open spec fn grouped(d: Seq<char>, i: nat) -> Seq<char>
    decreases i,
{
    if i == 0 {
        seq![]
    } else {
        let k = (i - 1) as nat;
        grouped(d, k) + (if k > 0 && (d.len() - k) % 3 == 0 {
            seq![',']
        } else {
            seq![]
        }) + seq![d[k as int]]
    }
}

/// A digit string with thousands separated by commas.
pub open spec fn thousands(d: Seq<char>) -> Seq<char> {
    grouped(d, d.len())
}

fn thousands_chars(n: u32) -> (r: Vec<char>)
    ensures
        r@ == thousands(decimal(n as nat)),
{
    let d = decimal_chars(n as u64);
    let len = d.len();
    let mut out: Vec<char> = Vec::new();
    for i in 0..len
        invariant
            len == d@.len(),
            out@ == grouped(d@, i as nat),
    {
        if i > 0 && (len - i) % 3 == 0 {
            out.push(',');
        }
        out.push(d[i]);
        assert(out@ =~= grouped(d@, (i + 1) as nat));
    }
    out
}

/// The characters of `s` other than commas.
pub open spec fn without_commas(s: Seq<char>) -> Seq<char>
    decreases s.len(),
{
    if s.len() == 0 {
        seq![]
    } else {
        without_commas(s.drop_last()) + if s.last() == ',' {
            seq![]
        } else {
            seq![s.last()]
        }
    }
}

proof fn lemma_without_commas_append(a: Seq<char>, b: Seq<char>)
    ensures
        without_commas(a + b) == without_commas(a) + without_commas(b),
    decreases b.len(),
{
    if b.len() == 0 {
        assert(a + b =~= a);
        assert(without_commas(a) + without_commas(b) =~= without_commas(a));
    } else {
        lemma_without_commas_append(a, b.drop_last());
        assert((a + b).drop_last() =~= a + b.drop_last());
        assert((a + b).last() == b.last());
    }
}

proof fn lemma_grouped_digits(d: Seq<char>, i: nat)
    requires
        i <= d.len(),
        forall|k: int| 0 <= k < d.len() ==> d[k] != ',',
    ensures
        without_commas(grouped(d, i)) == d.take(i as int),
    decreases i,
{
    if i > 0 {
        let k = (i - 1) as nat;
        lemma_grouped_digits(d, k);
        let sep: Seq<char> = if k > 0 && (d.len() - k) % 3 == 0 {
            seq![',']
        } else {
            seq![]
        };
        lemma_without_commas_append(grouped(d, k) + sep, seq![d[k as int]]);
        lemma_without_commas_append(grouped(d, k), sep);
        assert(without_commas(Seq::<char>::empty()) =~= seq![]);
        assert(without_commas(sep) =~= seq![]) by {
            if sep.len() > 0 {
                assert(sep.drop_last() =~= Seq::<char>::empty());
                assert(sep.last() == ',');
            }
        }
        assert(without_commas(seq![d[k as int]]) =~= seq![d[k as int]]) by {
            assert(seq![d[k as int]].drop_last() =~= Seq::<char>::empty());
            assert(without_commas(Seq::<char>::empty()) =~= seq![]);
        }
        assert(d.take(k as int).push(d[k as int]) =~= d.take(i as int));
    }
}

proof fn lemma_decimal_digits(n: nat)
    ensures
        forall|k: int| 0 <= k < decimal(n).len() ==> crate::text::is_ascii_digit(#[trigger] decimal(n)[k]),
    decreases n,
{
    if n >= 10 {
        lemma_decimal_digits(n / 10);
        let p = decimal(n / 10);
        assert forall|k: int| 0 <= k < decimal(n).len() implies crate::text::is_ascii_digit(
            #[trigger] decimal(n)[k],
        ) by {
            if k < p.len() {
                assert(decimal(n)[k] == p[k]);
            }
        }
    }
}

/// Removing the commas from a count written with thousands separators gives
/// back its plain decimal digits.
pub proof fn lemma_thousands_digits(n: nat)
    ensures
        without_commas(thousands(decimal(n))) == decimal(n),
{
    let d = decimal(n);
    lemma_decimal_digits(n);
    assert forall|k: int| 0 <= k < d.len() implies d[k] != ',' by {
        assert(crate::text::is_ascii_digit(d[k]));
    }
    lemma_grouped_digits(d, d.len());
    assert(d.take(d.len() as int) =~= d);
}

/// Writes a count with commas between groups of three digits
/// (`1234567` becomes `1,234,567`).
pub fn fmt_thousands(n: u32) -> (r: String)
    ensures
        r@ == thousands(decimal(n as nat)),
{
    let t = thousands_chars(n);
    string_of(t.as_slice())
}

// ---------------------------------------------------------------------------
// Cards
// ---------------------------------------------------------------------------

pub open spec fn rank_label(rank: Option<u32>) -> Seq<char> {
    match rank {
        Some(r) => "#"@ + decimal(r as nat),
        None => "—"@,
    }
}

pub open spec fn bga_badge(url: Option<Seq<char>>, name: Option<Seq<char>>) -> Seq<char> {
    match url {
        Some(u) => match name {
            Some(n) => "<a class=\"bga\" href=\""@ + escaped_attr(u)
                + "\" title=\"Play on Board Game Arena ("@ + escaped_attr(n) + ")\">BGA</a>"@,
            None => "<a class=\"bga\" href=\""@ + escaped_attr(u)
                + "\" title=\"Play on Board Game Arena\">BGA</a>"@,
        },
        None => seq![],
    }
}

pub open spec fn image_html(image: Option<Seq<char>>) -> Seq<char> {
    match image {
        Some(u) => if u.len() > 0 {
            "<img src=\""@ + escaped_attr(u) + "\" alt=\"\" loading=\"eager\">"@
        } else {
            "<span class=\"nope\">no image</span>"@
        },
        None => "<span class=\"nope\">no image</span>"@,
    }
}

pub open spec fn year_html(year: Option<u16>) -> Seq<char> {
    match year {
        Some(y) => "<span class=\"year\">("@ + decimal(y as nat) + ")</span>"@,
        None => seq![],
    }
}

pub open spec fn band_class(b: RatingBand) -> Seq<char> {
    match b {
        RatingBand::High => "rating-hi"@,
        RatingBand::Medium => "rating-md"@,
        RatingBand::Low => "rating-lo"@,
    }
}

pub open spec fn rating_html(rating: Option<Score>, users: Option<u32>) -> Seq<char> {
    match rating {
        Some(r) => "<span class=\"stat\"><b class=\""@ + band_class(r.band) + "\">★ "@ + escaped_text(r.shown@)
            + "</b> · "@ + thousands(
            decimal(
                match users {
                    Some(u) => u as nat,
                    None => 0,
                },
            ),
        ) + " users</span>"@,
        None => "<span class=\"unrated\">unrated</span>"@,
    }
}

pub open spec fn players_html(lo: Option<u16>, hi: Option<u16>) -> Seq<char> {
    match (lo, hi) {
        (Some(a), Some(b)) => if a == b {
            "<span class=\"stat\"><b>"@ + decimal(a as nat) + "</b> players</span>"@
        } else {
            "<span class=\"stat\"><b>"@ + decimal(a as nat) + "–"@ + decimal(b as nat)
                + "</b> players</span>"@
        },
        _ => seq![],
    }
}

pub open spec fn time_html(lo: Option<u16>, hi: Option<u16>) -> Seq<char> {
    match (lo, hi) {
        (Some(a), Some(b)) => if a == b && a > 0 {
            "<span class=\"stat\"><b>"@ + decimal(a as nat) + "′</b></span>"@
        } else if a > 0 || b > 0 {
            "<span class=\"stat\"><b>"@ + decimal(a as nat) + "–"@ + decimal(b as nat)
                + "′</b></span>"@
        } else {
            seq![]
        },
        _ => seq![],
    }
}

pub open spec fn owned_html(owned: Option<u32>) -> Seq<char> {
    match owned {
        Some(n) => if n > 0 {
            "<span class=\"stat\">"@ + thousands(decimal(n as nat)) + " owned</span>"@
        } else {
            seq![]
        },
        None => seq![],
    }
}

/// The card of one game.
pub open spec fn card_html(g: Game) -> Seq<char> {
    "<div class=\"card\">\n  <div class=\"thumb\">"@ + image_html(opt_view(g.image))
        + "</div>\n  <div class=\"meta\">\n    <div class=\"row1\">\n      <span class=\"rank\">"@
        + rank_label(g.rank) + "</span>\n      <span class=\"name\">"@ + escaped_text(g.name@)
        + bga_badge(opt_view(g.bga_url), opt_view(g.bga_name)) + "</span>\n      "@ + year_html(
        g.year,
    ) + "\n    </div>\n    <div class=\"stats\">"@ + rating_html(g.rating, g.users_rated)
        + players_html(g.min_players, g.max_players) + time_html(g.min_playtime, g.max_playtime)
        + owned_html(g.owned) + "</div>\n    <a class=\"url\" href=\""@ + escaped_attr(g.href@)
        + "\">"@ + escaped_text(shortened(g.href@, 70)) + "</a>\n  </div>\n</div>\n"@
}

/// The text before and after the play-time piece of a card.
spec fn card_before_time(g: Game) -> Seq<char> {
    "<div class=\"card\">\n  <div class=\"thumb\">"@ + image_html(opt_view(g.image))
        + "</div>\n  <div class=\"meta\">\n    <div class=\"row1\">\n      <span class=\"rank\">"@
        + rank_label(g.rank) + "</span>\n      <span class=\"name\">"@ + escaped_text(g.name@)
        + bga_badge(opt_view(g.bga_url), opt_view(g.bga_name)) + "</span>\n      "@ + year_html(
        g.year,
    ) + "\n    </div>\n    <div class=\"stats\">"@ + rating_html(g.rating, g.users_rated)
        + players_html(g.min_players, g.max_players)
}

spec fn card_after_time(g: Game) -> Seq<char> {
    owned_html(g.owned) + "</div>\n    <a class=\"url\" href=\""@ + escaped_attr(g.href@)
        + "\">"@ + escaped_text(shortened(g.href@, 70)) + "</a>\n  </div>\n</div>\n"@
}

spec fn card_after_players(g: Game) -> Seq<char> {
    time_html(g.min_playtime, g.max_playtime) + card_after_time(g)
}

spec fn card_before_players(g: Game) -> Seq<char> {
    "<div class=\"card\">\n  <div class=\"thumb\">"@ + image_html(opt_view(g.image))
        + "</div>\n  <div class=\"meta\">\n    <div class=\"row1\">\n      <span class=\"rank\">"@
        + rank_label(g.rank) + "</span>\n      <span class=\"name\">"@ + escaped_text(g.name@)
        + bga_badge(opt_view(g.bga_url), opt_view(g.bga_name)) + "</span>\n      "@ + year_html(
        g.year,
    ) + "\n    </div>\n    <div class=\"stats\">"@ + rating_html(g.rating, g.users_rated)
}

/// A card shows the player count: a range `a–b` when the least and the
/// most differ, a single `a` when they agree.
pub proof fn lemma_card_shows_players(g: Game, a: u16, b: u16)
    requires
        g.min_players == Some(a),
        g.max_players == Some(b),
    ensures
        a != b ==> exists|pre: Seq<char>, post: Seq<char>|
            card_html(g) == pre + "<span class=\"stat\"><b>"@ + decimal(a as nat) + "–"@
                + decimal(b as nat) + "</b> players</span>"@ + post,
        a == b ==> exists|pre: Seq<char>, post: Seq<char>|
            card_html(g) == pre + "<span class=\"stat\"><b>"@ + decimal(a as nat) + "</b> players</span>"@
                + post,
{
    let pre = card_before_players(g);
    let post = card_after_players(g);
    assert(card_html(g) =~= pre + players_html(g.min_players, g.max_players) + post);
    if a != b {
        assert(card_html(g) =~= pre + "<span class=\"stat\"><b>"@ + decimal(a as nat) + "–"@
            + decimal(b as nat) + "</b> players</span>"@ + post);
    } else {
        assert(card_html(g) =~= pre + "<span class=\"stat\"><b>"@ + decimal(a as nat)
            + "</b> players</span>"@ + post);
    }
}

/// A card shows the play time: a range `a–b′` when the least and the most
/// play time differ (and one is not zero), a single `a′` when they agree.
pub proof fn lemma_card_shows_play_time(g: Game, a: u16, b: u16)
    requires
        g.min_playtime == Some(a),
        g.max_playtime == Some(b),
    ensures
        a != b && (a > 0 || b > 0) ==> exists|pre: Seq<char>, post: Seq<char>|
            card_html(g) == pre + "<span class=\"stat\"><b>"@ + decimal(a as nat) + "–"@
                + decimal(b as nat) + "′</b></span>"@ + post,
        a == b && a > 0 ==> exists|pre: Seq<char>, post: Seq<char>|
            card_html(g) == pre + "<span class=\"stat\"><b>"@ + decimal(a as nat) + "′</b></span>"@
                + post,
{
    let pre = card_before_time(g);
    let post = card_after_time(g);
    assert(card_html(g) =~= pre + time_html(g.min_playtime, g.max_playtime) + post);
    if a != b && (a > 0 || b > 0) {
        let piece = "<span class=\"stat\"><b>"@ + decimal(a as nat) + "–"@ + decimal(b as nat)
            + "′</b></span>"@;
        assert(time_html(g.min_playtime, g.max_playtime) == piece);
        assert(card_html(g) =~= pre + "<span class=\"stat\"><b>"@ + decimal(a as nat) + "–"@
            + decimal(b as nat) + "′</b></span>"@ + post);
    }
    if a == b && a > 0 {
        assert(card_html(g) =~= pre + "<span class=\"stat\"><b>"@ + decimal(a as nat) + "′</b></span>"@
            + post);
    }
}

proof fn lemma_cards_split(games: Seq<Game>, k: int)
    requires
        0 <= k <= games.len(),
    ensures
        cards_html(games) == cards_html(games.take(k)) + cards_html(games.skip(k)),
    decreases games.len(),
{
    if k == games.len() {
        assert(games.take(k) =~= games);
        assert(games.skip(k) =~= seq![]);
        assert(cards_html(games.skip(k)) == Seq::<char>::empty());
        assert(cards_html(games) =~= cards_html(games.take(k)) + cards_html(games.skip(k)));
    } else {
        let d = games.drop_last();
        let s = games.skip(k);
        let c = card_html(games.last());
        lemma_cards_split(d, k);
        assert(d.take(k) =~= games.take(k));
        assert(s.drop_last() =~= d.skip(k));
        assert(s.last() == games.last());
        assert(cards_html(games) == cards_html(d) + c);
        assert(cards_html(s) == cards_html(d.skip(k)) + c);
        assert(cards_html(games) =~= cards_html(games.take(k)) + cards_html(games.skip(k)));
    }
}

/// The cards of a list of games are the cards of its first `k` games
/// followed by the cards of the rest; the cards of one game are its card.
pub proof fn lemma_cards_in_order(games: Seq<Game>, k: int)
    requires
        0 <= k <= games.len(),
    ensures
        cards_html(games) == cards_html(games.take(k)) + cards_html(games.skip(k)),
        games.len() == 1 ==> cards_html(games) == card_html(games[0]),
{
    lemma_cards_split(games, k);
    if games.len() == 1 {
        assert(games.drop_last() =~= seq![]);
        assert(cards_html(games.drop_last()) == Seq::<char>::empty());
        assert(cards_html(games) =~= card_html(games[0]));
    }
}

fn rank_label_chars(rank: Option<u32>) -> (r: Vec<char>)
    ensures
        r@ == rank_label(rank),
{
    match rank {
        Some(n) => {
            let mut r = chars_of("#");
            let d = decimal_chars(n as u64);
            append_chars(&mut r, d.as_slice());
            r
        },
        None => chars_of("—"),
    }
}

fn attr_of(s: &String) -> (r: Vec<char>)
    ensures
        r@ == escaped_attr(s@),
{
    let cs = chars_of(s.as_str());
    attr_chars(cs.as_slice())
}

fn bga_badge_chars(url: &Option<String>, name: &Option<String>) -> (r: Vec<char>)
    ensures
        r@ == bga_badge(opt_view(*url), opt_view(*name)),
{
    match url {
        Some(u) => match name {
            Some(n) => {
                let mut r = chars_of("<a class=\"bga\" href=\"");
                append_chars(&mut r, attr_of(u).as_slice());
                append_str(&mut r, "\" title=\"Play on Board Game Arena (");
                append_chars(&mut r, attr_of(n).as_slice());
                append_str(&mut r, ")\">BGA</a>");
                r
            },
            None => {
                let mut r = chars_of("<a class=\"bga\" href=\"");
                append_chars(&mut r, attr_of(u).as_slice());
                append_str(&mut r, "\" title=\"Play on Board Game Arena\">BGA</a>");
                r
            },
        },
        None => Vec::new(),
    }
}

fn image_chars(image: &Option<String>) -> (r: Vec<char>)
    ensures
        r@ == image_html(opt_view(*image)),
{
    match image {
        Some(u) => {
            let cs = chars_of(u.as_str());
            if cs.len() > 0 {
                let mut r = chars_of("<img src=\"");
                append_chars(&mut r, attr_chars(cs.as_slice()).as_slice());
                append_str(&mut r, "\" alt=\"\" loading=\"eager\">");
                r
            } else {
                chars_of("<span class=\"nope\">no image</span>")
            }
        },
        None => chars_of("<span class=\"nope\">no image</span>"),
    }
}

fn year_chars(year: Option<u16>) -> (r: Vec<char>)
    ensures
        r@ == year_html(year),
{
    match year {
        Some(y) => {
            let mut r = chars_of("<span class=\"year\">(");
            append_chars(&mut r, decimal_chars(y as u64).as_slice());
            append_str(&mut r, ")</span>");
            r
        },
        None => Vec::new(),
    }
}

fn band_chars(b: RatingBand) -> (r: Vec<char>)
    ensures
        r@ == band_class(b),
{
    match b {
        RatingBand::High => chars_of("rating-hi"),
        RatingBand::Medium => chars_of("rating-md"),
        RatingBand::Low => chars_of("rating-lo"),
    }
}

fn rating_chars(rating: &Option<Score>, users: Option<u32>) -> (r: Vec<char>)
    ensures
        r@ == rating_html(*rating, users),
{
    match rating {
        Some(s) => {
            let mut r = chars_of("<span class=\"stat\"><b class=\"");
            append_chars(&mut r, band_chars(s.band).as_slice());
            append_str(&mut r, "\">★ ");
            let shown = chars_of(s.shown.as_str());
            append_chars(&mut r, text_chars(shown.as_slice()).as_slice());
            append_str(&mut r, "</b> · ");
            let u: u32 = match users {
                Some(u) => u,
                None => 0,
            };
            append_chars(&mut r, thousands_chars(u).as_slice());
            append_str(&mut r, " users</span>");
            r
        },
        None => chars_of("<span class=\"unrated\">unrated</span>"),
    }
}

fn players_chars(lo: Option<u16>, hi: Option<u16>) -> (r: Vec<char>)
    ensures
        r@ == players_html(lo, hi),
{
    match (lo, hi) {
        (Some(a), Some(b)) => {
            let mut r = chars_of("<span class=\"stat\"><b>");
            append_chars(&mut r, decimal_chars(a as u64).as_slice());
            if a == b {
                append_str(&mut r, "</b> players</span>");
            } else {
                append_str(&mut r, "–");
                append_chars(&mut r, decimal_chars(b as u64).as_slice());
                append_str(&mut r, "</b> players</span>");
            }
            r
        },
        _ => Vec::new(),
    }
}

fn time_chars(lo: Option<u16>, hi: Option<u16>) -> (r: Vec<char>)
    ensures
        r@ == time_html(lo, hi),
{
    match (lo, hi) {
        (Some(a), Some(b)) => {
            if a == b && a > 0 {
                let mut r = chars_of("<span class=\"stat\"><b>");
                append_chars(&mut r, decimal_chars(a as u64).as_slice());
                append_str(&mut r, "′</b></span>");
                r
            } else if a > 0 || b > 0 {
                let mut r = chars_of("<span class=\"stat\"><b>");
                append_chars(&mut r, decimal_chars(a as u64).as_slice());
                append_str(&mut r, "–");
                append_chars(&mut r, decimal_chars(b as u64).as_slice());
                append_str(&mut r, "′</b></span>");
                r
            } else {
                Vec::new()
            }
        },
        _ => Vec::new(),
    }
}

fn owned_chars(owned: Option<u32>) -> (r: Vec<char>)
    ensures
        r@ == owned_html(owned),
{
    match owned {
        Some(n) => if n > 0 {
            let mut r = chars_of("<span class=\"stat\">");
            append_chars(&mut r, thousands_chars(n).as_slice());
            append_str(&mut r, " owned</span>");
            r
        } else {
            Vec::new()
        },
        None => Vec::new(),
    }
}

fn card_chars(g: &Game) -> (r: Vec<char>)
    ensures
        r@ == card_html(*g),
{
    let name = chars_of(g.name.as_str());
    let href = chars_of(g.href.as_str());
    let mut r = chars_of("<div class=\"card\">\n  <div class=\"thumb\">");
    append_chars(&mut r, image_chars(&g.image).as_slice());
    append_str(&mut r, "</div>\n  <div class=\"meta\">\n    <div class=\"row1\">\n      <span class=\"rank\">");
    append_chars(&mut r, rank_label_chars(g.rank).as_slice());
    append_str(&mut r, "</span>\n      <span class=\"name\">");
    append_chars(&mut r, text_chars(name.as_slice()).as_slice());
    append_chars(&mut r, bga_badge_chars(&g.bga_url, &g.bga_name).as_slice());
    append_str(&mut r, "</span>\n      ");
    append_chars(&mut r, year_chars(g.year).as_slice());
    append_str(&mut r, "\n    </div>\n    <div class=\"stats\">");
    append_chars(&mut r, rating_chars(&g.rating, g.users_rated).as_slice());
    append_chars(&mut r, players_chars(g.min_players, g.max_players).as_slice());
    append_chars(&mut r, time_chars(g.min_playtime, g.max_playtime).as_slice());
    append_chars(&mut r, owned_chars(g.owned).as_slice());
    append_str(&mut r, "</div>\n    <a class=\"url\" href=\"");
    append_chars(&mut r, attr_chars(href.as_slice()).as_slice());
    append_str(&mut r, "\">");
    let short = shorten_chars(href.as_slice(), 70);
    append_chars(&mut r, text_chars(short.as_slice()).as_slice());
    append_str(&mut r, "</a>\n  </div>\n</div>\n");
    r
}

/// The HTML card of one game.
pub fn render_card(g: &Game) -> (r: String)
    ensures
        r@ == card_html(*g),
{
    let c = card_chars(g);
    string_of(c.as_slice())
}

/// Whether every image of the page has loaded (and there is at least one),
/// given the page's counts of loaded and of all images.
pub fn images_settled(loaded: u64, total: u64) -> (r: bool)
    ensures
        r == (total > 0 && loaded == total),
{
    total > 0 && loaded == total
}

// ---------------------------------------------------------------------------
// Pages
// ---------------------------------------------------------------------------

/// The opening of a page, up to its title.
pub open spec fn page_opening() -> Seq<char> {
    "<!doctype html>\n<html lang=\"en\">\n<head>\n<meta charset=\"utf-8\">\n<title>"@
}

/// What follows the title of a single-designer page, up to `<header>`.
pub open spec fn catalog_head_rest() -> Seq<char> {
    " — Board Game Catalog</title>\n<style>\n@page { size: A4; margin: 14mm 12mm; }\n* { box-sizing: border-box; }\nbody { font-family: -apple-system, \"Helvetica Neue\", Arial, sans-serif;\n       color: #111; margin: 0; font-size: 11px; line-height: 1.3; }\nheader { margin-bottom: 14px; border-bottom: 2px solid #111; padding-bottom: 8px;\n         page-break-after: avoid; }\nh1 { margin: 0 0 4px; font-size: 22px; }\n.sub { color: #555; font-size: 10px; }\n.grid { display: grid; grid-template-columns: 1fr 1fr; gap: 8px; }\n.card { border: 1px solid #ddd; border-radius: 5px; padding: 8px;\n        display: flex; gap: 9px; break-inside: avoid; page-break-inside: avoid;\n        min-height: 100px; }\n.thumb { width: 90px; height: 90px; flex-shrink: 0; display: flex;\n         align-items: center; justify-content: center;\n         background: #f4f4f4; border-radius: 3px; overflow: hidden; }\n.thumb img { max-width: 100%; max-height: 100%; object-fit: contain; }\n.thumb .nope { color: #aaa; font-size: 9px; }\n.meta { flex: 1; min-width: 0; }\n.row1 { display: flex; align-items: baseline; gap: 6px; margin-bottom: 2px; }\n.rank { font-size: 10px; color: #888; font-variant-numeric: tabular-nums; min-width: 36px; }\n.name { font-weight: 600; font-size: 12px; line-height: 1.2;\n        overflow-wrap: anywhere; flex: 1; }\n.year { font-size: 10px; color: #777; }\n.stats { display: flex; gap: 10px; margin-top: 4px; flex-wrap: wrap; }\n.stat { font-size: 10px; color: #444; }\n.stat b { color: #111; font-weight: 600; }\n.rating-hi { color: #0a6; }\n.rating-md { color: #b80; }\n.rating-lo { color: #c33; }\n.unrated { color: #aaa; font-style: italic; font-size: 10px; }\n.tag { display: inline-block; font-size: 9px; padding: 1px 5px; margin-left: 4px;\n       border-radius: 3px; background: #eee; color: #555; vertical-align: 1px; }\n.url { font-size: 9px; color: #0366d6; word-break: break-all;\n       text-decoration: none; margin-top: 3px; display: block; }\n.bga { display: inline-block; font-size: 9px; padding: 1px 6px;\n       border-radius: 3px; background: #1a7f37; color: #fff;\n       text-decoration: none; margin-left: 4px; vertical-align: 1px;\n       font-weight: 600; letter-spacing: .2px; }\n.bga::before { content: \"▶ \"; }\n</style>\n</head>\n<body>\n<header>\n"@
}

/// What follows the title of a sectioned page, up to `<header>`.
pub open spec fn sectioned_head_rest() -> Seq<char> {
    "</title>\n<style>\n@page { size: A4; margin: 14mm 12mm; }\n* { box-sizing: border-box; }\nbody { font-family: -apple-system, \"Helvetica Neue\", Arial, sans-serif;\n       color: #111; margin: 0; font-size: 11px; line-height: 1.3; }\nheader { margin-bottom: 14px; border-bottom: 2px solid #111; padding-bottom: 8px;\n         page-break-after: avoid; }\nh1 { margin: 0 0 4px; font-size: 22px; }\n.sub { color: #555; font-size: 10px; }\n.section { margin-top: 16px; break-before: auto; }\n.section + .section { margin-top: 22px; }\n.section-head { font-size: 16px; font-weight: 600; padding: 6px 0 4px;\n                border-bottom: 1px solid #888; margin-bottom: 8px;\n                page-break-after: avoid; break-after: avoid; }\n.section-head .count { color: #666; font-weight: 400; font-size: 11px; margin-left: 6px; }\n.grid { display: grid; grid-template-columns: 1fr 1fr; gap: 8px; }\n.card { border: 1px solid #ddd; border-radius: 5px; padding: 8px;\n        display: flex; gap: 9px; break-inside: avoid; page-break-inside: avoid;\n        min-height: 100px; }\n.thumb { width: 90px; height: 90px; flex-shrink: 0; display: flex;\n         align-items: center; justify-content: center;\n         background: #f4f4f4; border-radius: 3px; overflow: hidden; }\n.thumb img { max-width: 100%; max-height: 100%; object-fit: contain; }\n.thumb .nope { color: #aaa; font-size: 9px; }\n.meta { flex: 1; min-width: 0; }\n.row1 { display: flex; align-items: baseline; gap: 6px; margin-bottom: 2px; }\n.rank { font-size: 10px; color: #888; font-variant-numeric: tabular-nums; min-width: 36px; }\n.name { font-weight: 600; font-size: 12px; line-height: 1.2;\n        overflow-wrap: anywhere; flex: 1; }\n.year { font-size: 10px; color: #777; }\n.stats { display: flex; gap: 10px; margin-top: 4px; flex-wrap: wrap; }\n.stat { font-size: 10px; color: #444; }\n.stat b { color: #111; font-weight: 600; }\n.rating-hi { color: #0a6; }\n.rating-md { color: #b80; }\n.rating-lo { color: #c33; }\n.unrated { color: #aaa; font-style: italic; font-size: 10px; }\n.url { font-size: 9px; color: #0366d6; word-break: break-all;\n       text-decoration: none; margin-top: 3px; display: block; }\n.bga { display: inline-block; font-size: 9px; padding: 1px 6px;\n       border-radius: 3px; background: #1a7f37; color: #fff;\n       text-decoration: none; margin-left: 4px; vertical-align: 1px;\n       font-weight: 600; letter-spacing: .2px; }\n.bga::before { content: \"▶ \"; }\n</style>\n</head>\n<body>\n<header>\n"@
}

fn page_opening_chars() -> (r: Vec<char>)
    ensures
        r@ == page_opening(),
{
    chars_of("<!doctype html>\n<html lang=\"en\">\n<head>\n<meta charset=\"utf-8\">\n<title>")
}

/// The number of games that have a rating.
pub open spec fn count_rated(games: Seq<Game>) -> nat
    decreases games.len(),
{
    if games.len() == 0 {
        0
    } else {
        count_rated(games.drop_last()) + if games.last().rating is Some {
            1nat
        } else {
            0nat
        }
    }
}

/// The cards of the games, in order.
pub open spec fn cards_html(games: Seq<Game>) -> Seq<char>
    decreases games.len(),
{
    if games.len() == 0 {
        seq![]
    } else {
        cards_html(games.drop_last()) + card_html(games.last())
    }
}

/// The catalog page of one designer's games, generated at the given time.
pub open spec fn catalog_page(designer: Seq<char>, games: Seq<Game>, generated: Seq<char>) -> Seq<
    char,
> {
    page_opening() + escaped_text(designer) + catalog_head_rest() + "<h1>"@ + escaped_text(designer)
        + " — Board Game Catalog</h1>\n<div class=\"sub\">"@ + decimal(games.len())
        + " games credited as designer · "@ + decimal(count_rated(games)) + " ranked on BGG · generated "@
        + generated + " · source: api.geekdo.com</div>\n"@ + "</header>\n<div class=\"grid\">\n"@
        + cards_html(games) + "</div></body></html>\n"@
}

fn append_cards(out: &mut Vec<char>, games: &[Game])
    ensures
        final(out)@ == old(out)@ + cards_html(games@),
{
    let n = games.len();
    for i in 0..n
        invariant
            n == games@.len(),
            out@ == old(out)@ + cards_html(games@.take(i as int)),
    {
        let c = card_chars(&games[i]);
        append_chars(out, c.as_slice());
        proof {
            let t1 = games@.take(i + 1);
            assert(t1.drop_last() =~= games@.take(i as int));
            assert(t1.last() == games@[i as int]);
            assert(cards_html(t1) == cards_html(games@.take(i as int)) + card_html(games@[i as int]));
            assert(out@ =~= old(out)@ + cards_html(t1));
        }
    }
    assert(games@.take(n as int) =~= games@);
}

fn count_rated_of(games: &[Game]) -> (r: usize)
    ensures
        r == count_rated(games@),
{
    let n = games.len();
    let mut k: usize = 0;
    for i in 0..n
        invariant
            n == games@.len(),
            k == count_rated(games@.take(i as int)),
            k <= i,
    {
        assert(games@.take(i + 1).drop_last() =~= games@.take(i as int));
        assert(games@.take(i + 1).last() == games@[i as int]);
        if games[i].rating.is_some() {
            k = k + 1;
        }
    }
    assert(games@.take(n as int) =~= games@);
    k
}

/// The current UTC time as the pages show it (`%Y-%m-%d %H:%M UTC`);
/// `None` if the clock reads before the Unix epoch. Which time it is
/// depends on the clock; the text always has the stamp's shape.
pub fn generated_stamp() -> (r: Option<String>)
    ensures
        r matches Some(s) ==> is_utc_stamp(s@) && exists|secs: u64| stamp_from_seconds(secs) == Some(s@),
{
    match crate::clock::now_seconds() {
        Some(secs) => stamp_of_seconds(secs),
        None => None,
    }
}

/// The catalog page of one designer's games, stamped with `generated`.
pub fn build_html_at(designer: &str, games: &[Game], generated: &str) -> (r: String)
    ensures
        r@ == catalog_page(designer@, games@, generated@),
{
    let d = chars_of(designer);
    let esc = text_chars(d.as_slice());
    let mut out = page_opening_chars();
    append_chars(&mut out, esc.as_slice());
    append_str(&mut out, " — Board Game Catalog</title>\n<style>\n@page { size: A4; margin: 14mm 12mm; }\n* { box-sizing: border-box; }\nbody { font-family: -apple-system, \"Helvetica Neue\", Arial, sans-serif;\n       color: #111; margin: 0; font-size: 11px; line-height: 1.3; }\nheader { margin-bottom: 14px; border-bottom: 2px solid #111; padding-bottom: 8px;\n         page-break-after: avoid; }\nh1 { margin: 0 0 4px; font-size: 22px; }\n.sub { color: #555; font-size: 10px; }\n.grid { display: grid; grid-template-columns: 1fr 1fr; gap: 8px; }\n.card { border: 1px solid #ddd; border-radius: 5px; padding: 8px;\n        display: flex; gap: 9px; break-inside: avoid; page-break-inside: avoid;\n        min-height: 100px; }\n.thumb { width: 90px; height: 90px; flex-shrink: 0; display: flex;\n         align-items: center; justify-content: center;\n         background: #f4f4f4; border-radius: 3px; overflow: hidden; }\n.thumb img { max-width: 100%; max-height: 100%; object-fit: contain; }\n.thumb .nope { color: #aaa; font-size: 9px; }\n.meta { flex: 1; min-width: 0; }\n.row1 { display: flex; align-items: baseline; gap: 6px; margin-bottom: 2px; }\n.rank { font-size: 10px; color: #888; font-variant-numeric: tabular-nums; min-width: 36px; }\n.name { font-weight: 600; font-size: 12px; line-height: 1.2;\n        overflow-wrap: anywhere; flex: 1; }\n.year { font-size: 10px; color: #777; }\n.stats { display: flex; gap: 10px; margin-top: 4px; flex-wrap: wrap; }\n.stat { font-size: 10px; color: #444; }\n.stat b { color: #111; font-weight: 600; }\n.rating-hi { color: #0a6; }\n.rating-md { color: #b80; }\n.rating-lo { color: #c33; }\n.unrated { color: #aaa; font-style: italic; font-size: 10px; }\n.tag { display: inline-block; font-size: 9px; padding: 1px 5px; margin-left: 4px;\n       border-radius: 3px; background: #eee; color: #555; vertical-align: 1px; }\n.url { font-size: 9px; color: #0366d6; word-break: break-all;\n       text-decoration: none; margin-top: 3px; display: block; }\n.bga { display: inline-block; font-size: 9px; padding: 1px 6px;\n       border-radius: 3px; background: #1a7f37; color: #fff;\n       text-decoration: none; margin-left: 4px; vertical-align: 1px;\n       font-weight: 600; letter-spacing: .2px; }\n.bga::before { content: \"▶ \"; }\n</style>\n</head>\n<body>\n<header>\n");
    append_str(&mut out, "<h1>");
    append_chars(&mut out, esc.as_slice());
    append_str(&mut out, " — Board Game Catalog</h1>\n<div class=\"sub\">");
    append_chars(&mut out, decimal_chars(games.len() as u64).as_slice());
    append_str(&mut out, " games credited as designer · ");
    append_chars(&mut out, decimal_chars(count_rated_of(games) as u64).as_slice());
    append_str(&mut out, " ranked on BGG · generated ");
    append_str(&mut out, generated);
    append_str(&mut out, " · source: api.geekdo.com</div>\n");
    append_str(&mut out, "</header>\n<div class=\"grid\">\n");
    append_cards(&mut out, games);
    append_str(&mut out, "</div></body></html>\n");
    string_of(out.as_slice())
}

/// The catalog page of one designer's games, stamped with the current
/// time; `None` if the clock gives no time to stamp it with.
pub fn build_html(designer: &str, games: &[Game]) -> (r: Option<String>)
    ensures
        r matches Some(page) ==> exists|secs: u64, generated: Seq<char>|
            stamp_from_seconds(secs) == Some(generated) && is_utc_stamp(generated)
                && page@ == catalog_page(designer@, games@, generated),
{
    match generated_stamp() {
        Some(stamp) => Some(build_html_at(designer, games, stamp.as_str())),
        None => None,
    }
}

/// The total number of games over all sections.
pub open spec fn section_total(sections: Seq<(String, Vec<Game>)>) -> nat
    decreases sections.len(),
{
    if sections.len() == 0 {
        0
    } else {
        section_total(sections.drop_last()) + sections.last().1@.len()
    }
}

/// One section: its heading, the number of games, and their cards.
pub open spec fn section_html(head: Seq<char>, games: Seq<Game>) -> Seq<char> {
    "<section class=\"section\"><div class=\"section-head\">"@ + escaped_text(head)
        + "<span class=\"count\">— top "@ + decimal(games.len())
        + "</span></div><div class=\"grid\">\n"@ + cards_html(games) + "</div></section>\n"@
}

/// The sections in order.
pub open spec fn sections_html(sections: Seq<(String, Vec<Game>)>) -> Seq<char>
    decreases sections.len(),
{
    if sections.len() == 0 {
        seq![]
    } else {
        sections_html(sections.drop_last()) + section_html(sections.last().0@, sections.last().1@)
    }
}

/// A multi-section catalog page (several designers in one page), generated
/// at the given time.
pub open spec fn sectioned_page(
    title: Seq<char>,
    sections: Seq<(String, Vec<Game>)>,
    generated: Seq<char>,
) -> Seq<char> {
    page_opening() + escaped_text(title) + sectioned_head_rest() + "<h1>"@ + escaped_text(title)
        + "</h1>\n<div class=\"sub\">"@ + decimal(section_total(sections)) + " games across "@
        + decimal(sections.len()) + " designers · generated "@ + generated
        + " · source: api.geekdo.com</div>\n"@ + "</header>\n"@ + sections_html(sections)
        + "</body></html>\n"@
}

fn total_of(sections: &[(String, Vec<Game>)]) -> (r: usize)
    requires
        section_total(sections@) <= usize::MAX,
    ensures
        r == section_total(sections@),
{
    let n = sections.len();
    let mut t: usize = 0;
    for i in 0..n
        invariant
            n == sections@.len(),
            section_total(sections@) <= usize::MAX,
            t == section_total(sections@.take(i as int)),
    {
        assert(sections@.take(i + 1).drop_last() =~= sections@.take(i as int));
        assert(sections@.take(i + 1).last() == sections@[i as int]);
        proof {
            lemma_section_total_prefix(sections@, i + 1);
        }
        t = t + sections[i].1.len();
    }
    assert(sections@.take(n as int) =~= sections@);
    t
}

proof fn lemma_section_total_prefix(s: Seq<(String, Vec<Game>)>, k: int)
    requires
        0 <= k <= s.len(),
    ensures
        section_total(s.take(k)) <= section_total(s),
    decreases s.len() - k,
{
    if k < s.len() {
        assert(s.drop_last().take(k) =~= s.take(k));
        lemma_section_total_prefix(s.drop_last(), k);
    } else {
        assert(s.take(k) =~= s);
    }
}

fn section_chars(head: &str, games: &[Game]) -> (r: Vec<char>)
    ensures
        r@ == section_html(head@, games@),
{
    let h = chars_of(head);
    let mut out = chars_of("<section class=\"section\"><div class=\"section-head\">");
    append_chars(&mut out, text_chars(h.as_slice()).as_slice());
    append_str(&mut out, "<span class=\"count\">— top ");
    append_chars(&mut out, decimal_chars(games.len() as u64).as_slice());
    append_str(&mut out, "</span></div><div class=\"grid\">\n");
    append_cards(&mut out, games);
    append_str(&mut out, "</div></section>\n");
    out
}

/// A multi-section catalog page, stamped with `generated`.
pub fn build_sectioned_html_at(title: &str, sections: &[(String, Vec<Game>)], generated: &str) -> (r:
    String)
    requires
        section_total(sections@) <= usize::MAX,
    ensures
        r@ == sectioned_page(title@, sections@, generated@),
{
    let t = chars_of(title);
    let esc = text_chars(t.as_slice());
    let mut out = page_opening_chars();
    append_chars(&mut out, esc.as_slice());
    append_str(&mut out, "</title>\n<style>\n@page { size: A4; margin: 14mm 12mm; }\n* { box-sizing: border-box; }\nbody { font-family: -apple-system, \"Helvetica Neue\", Arial, sans-serif;\n       color: #111; margin: 0; font-size: 11px; line-height: 1.3; }\nheader { margin-bottom: 14px; border-bottom: 2px solid #111; padding-bottom: 8px;\n         page-break-after: avoid; }\nh1 { margin: 0 0 4px; font-size: 22px; }\n.sub { color: #555; font-size: 10px; }\n.section { margin-top: 16px; break-before: auto; }\n.section + .section { margin-top: 22px; }\n.section-head { font-size: 16px; font-weight: 600; padding: 6px 0 4px;\n                border-bottom: 1px solid #888; margin-bottom: 8px;\n                page-break-after: avoid; break-after: avoid; }\n.section-head .count { color: #666; font-weight: 400; font-size: 11px; margin-left: 6px; }\n.grid { display: grid; grid-template-columns: 1fr 1fr; gap: 8px; }\n.card { border: 1px solid #ddd; border-radius: 5px; padding: 8px;\n        display: flex; gap: 9px; break-inside: avoid; page-break-inside: avoid;\n        min-height: 100px; }\n.thumb { width: 90px; height: 90px; flex-shrink: 0; display: flex;\n         align-items: center; justify-content: center;\n         background: #f4f4f4; border-radius: 3px; overflow: hidden; }\n.thumb img { max-width: 100%; max-height: 100%; object-fit: contain; }\n.thumb .nope { color: #aaa; font-size: 9px; }\n.meta { flex: 1; min-width: 0; }\n.row1 { display: flex; align-items: baseline; gap: 6px; margin-bottom: 2px; }\n.rank { font-size: 10px; color: #888; font-variant-numeric: tabular-nums; min-width: 36px; }\n.name { font-weight: 600; font-size: 12px; line-height: 1.2;\n        overflow-wrap: anywhere; flex: 1; }\n.year { font-size: 10px; color: #777; }\n.stats { display: flex; gap: 10px; margin-top: 4px; flex-wrap: wrap; }\n.stat { font-size: 10px; color: #444; }\n.stat b { color: #111; font-weight: 600; }\n.rating-hi { color: #0a6; }\n.rating-md { color: #b80; }\n.rating-lo { color: #c33; }\n.unrated { color: #aaa; font-style: italic; font-size: 10px; }\n.url { font-size: 9px; color: #0366d6; word-break: break-all;\n       text-decoration: none; margin-top: 3px; display: block; }\n.bga { display: inline-block; font-size: 9px; padding: 1px 6px;\n       border-radius: 3px; background: #1a7f37; color: #fff;\n       text-decoration: none; margin-left: 4px; vertical-align: 1px;\n       font-weight: 600; letter-spacing: .2px; }\n.bga::before { content: \"▶ \"; }\n</style>\n</head>\n<body>\n<header>\n");
    append_str(&mut out, "<h1>");
    append_chars(&mut out, esc.as_slice());
    append_str(&mut out, "</h1>\n<div class=\"sub\">");
    append_chars(&mut out, decimal_chars(total_of(sections) as u64).as_slice());
    append_str(&mut out, " games across ");
    append_chars(&mut out, decimal_chars(sections.len() as u64).as_slice());
    append_str(&mut out, " designers · generated ");
    append_str(&mut out, generated);
    append_str(&mut out, " · source: api.geekdo.com</div>\n");
    append_str(&mut out, "</header>\n");
    let ghost before = out@;
    let n = sections.len();
    for i in 0..n
        invariant
            n == sections@.len(),
            out@ == before + sections_html(sections@.take(i as int)),
    {
        let sec = section_chars(sections[i].0.as_str(), sections[i].1.as_slice());
        append_chars(&mut out, sec.as_slice());
        assert(sections@.take(i + 1).drop_last() =~= sections@.take(i as int));
        assert(sections@.take(i + 1).last() == sections@[i as int]);
        assert(out@ =~= before + sections_html(sections@.take(i + 1)));
    }
    assert(sections@.take(n as int) =~= sections@);
    append_str(&mut out, "</body></html>\n");
    string_of(out.as_slice())
}

/// A multi-section catalog page, stamped with the current time.
pub fn build_sectioned_html(title: &str, sections: &[(String, Vec<Game>)]) -> (r: Option<String>)
    requires
        section_total(sections@) <= usize::MAX,
    ensures
        r matches Some(page) ==> exists|secs: u64, generated: Seq<char>|
            stamp_from_seconds(secs) == Some(generated) && is_utc_stamp(generated)
                && page@ == sectioned_page(title@, sections@, generated),
{
    match generated_stamp() {
        Some(stamp) => Some(build_sectioned_html_at(title, sections, stamp.as_str())),
        None => None,
    }
}

} // verus!

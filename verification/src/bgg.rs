//! The BoardGameGeek data model: the records that the geekdo JSON endpoints
//! return, the combined per-game record the renderer takes, the order in
//! which games are listed, and the paging of a designer's credit list.
use vstd::prelude::*;
use crate::text::{
    append_chars, append_str, chars_of, decimal, decimal_chars, has_prefix, is_blank, blank,
    parse_unsigned, parse_unsigned_chars, prefix_at, string_of,
};

verus! {

/// The part of a `linkeditems` list entry that the catalog uses. All values
/// arrive as text.
pub struct LinkedItem {
    pub objectid: String,
    pub name: String,
    pub href: String,
    pub yearpublished: Option<String>,
    pub usersrated: Option<String>,
    pub average: Option<String>,
    pub avgweight: Option<String>,
    pub numowned: Option<String>,
    pub numwish: Option<String>,
    pub numwanting: Option<String>,
    pub rank: Option<String>,
    pub images: ImageSet,
}

/// The image URLs of a list entry.
pub struct ImageSet {
    pub thumb: Option<String>,
    pub square200: Option<String>,
    pub previewthumb: Option<String>,
}

/// The per-game supplement: player counts, play time, age, description.
pub struct ThingDetail {
    pub minplayers: Option<String>,
    pub maxplayers: Option<String>,
    pub minplaytime: Option<String>,
    pub maxplaytime: Option<String>,
    pub minage: Option<String>,
    pub short_description: Option<String>,
}

/// How a rating is banded when shown: 7 and above, 6 and above, below 6.
#[derive(PartialEq, Eq, Structural, Clone, Copy, Debug)]
pub enum RatingBand {
    High,
    Medium,
    Low,
}

/// A positive decimal score (a rating or a weight) as the catalog shows it:
/// the value printed with two decimals, and its band.
pub struct Score {
    pub shown: String,
    pub band: RatingBand,
}

/// The combined per-game record that the renderer takes.
pub struct Game {
    pub id: String,
    pub name: String,
    pub href: String,
    pub year: Option<u16>,
    pub image: Option<String>,
    pub min_players: Option<u16>,
    pub max_players: Option<u16>,
    pub min_playtime: Option<u16>,
    pub max_playtime: Option<u16>,
    pub min_age: Option<u16>,
    pub rating: Option<Score>,
    pub users_rated: Option<u32>,
    pub rank: Option<u32>,
    pub owned: Option<u32>,
    pub weight: Option<Score>,
    pub short_description: Option<String>,
    /// If the game is on Board Game Arena, the gamepanel URL.
    pub bga_url: Option<String>,
    /// Board Game Arena's display name when it differs from BGG's.
    pub bga_name: Option<String>,
}

/// The view of an optional string.
pub open spec fn opt_view(o: Option<String>) -> Option<Seq<char>> {
    match o {
        Some(s) => Some(s@),
        None => None,
    }
}

/// An optional text parsed as a `u32` (`s.parse::<u32>().ok()`).
pub open spec fn parse_u32_of(o: Option<Seq<char>>) -> Option<u32> {
    match o {
        Some(s) => match parse_unsigned(s, u32::MAX as nat) {
            Some(v) => Some(v as u32),
            None => None,
        },
        None => None,
    }
}

/// An optional text parsed as a `u16` (`s.parse::<u16>().ok()`).
pub open spec fn parse_u16_of(o: Option<Seq<char>>) -> Option<u16> {
    match o {
        Some(s) => match parse_unsigned(s, u16::MAX as nat) {
            Some(v) => Some(v as u16),
            None => None,
        },
        None => None,
    }
}

/// BGG reports 0 for unranked and unrated games: treat it as missing.
pub open spec fn nonzero(o: Option<u32>) -> Option<u32> {
    match o {
        Some(n) => if n > 0 {
            Some(n)
        } else {
            None
        },
        None => None,
    }
}

/// A parsed year, cut to 16 bits as `y as u16` does.
pub open spec fn year_of(o: Option<u32>) -> Option<u16> {
    match o {
        Some(y) => Some((y % 65536) as u16),
        None => None,
    }
}

pub open spec fn bgg_site() -> Seq<char> {
    seq!['h', 't', 't', 'p', 's', ':', '/', '/', 'b', 'o', 'a', 'r', 'd', 'g', 'a', 'm', 'e', 'g', 'e', 'e', 'k', '.', 'c', 'o', 'm']
}

/// A link as given, if it starts with `http`, else one relative to the BGG
/// site.
pub open spec fn full_href(href: Seq<char>) -> Seq<char> {
    if has_prefix(href, seq!['h', 't', 't', 'p']) {
        href
    } else {
        bgg_site() + href
    }
}

/// The preferred image of a list entry: the 200px square, else the preview
/// thumbnail, else the thumbnail.
pub open spec fn preferred_image(images: ImageSet) -> Option<Seq<char>> {
    match images.square200 {
        Some(s) => Some(s@),
        None => match images.previewthumb {
            Some(s) => Some(s@),
            None => opt_view(images.thumb),
        },
    }
}

fn parse_u32_opt(o: &Option<String>) -> (r: Option<u32>)
    ensures
        r == parse_u32_of(opt_view(*o)),
{
    match o {
        Some(s) => {
            let cs = chars_of(s.as_str());
            match parse_unsigned_chars(cs.as_slice(), 4294967295) {
                Some(v) => Some(v as u32),
                None => None,
            }
        },
        None => None,
    }
}

fn parse_u16_opt(o: &Option<String>) -> (r: Option<u16>)
    ensures
        r == parse_u16_of(opt_view(*o)),
{
    match o {
        Some(s) => {
            let cs = chars_of(s.as_str());
            match parse_unsigned_chars(cs.as_slice(), 65535) {
                Some(v) => Some(v as u16),
                None => None,
            }
        },
        None => None,
    }
}

fn nonzero_of(o: Option<u32>) -> (r: Option<u32>)
    ensures
        r == nonzero(o),
{
    match o {
        Some(n) => if n > 0 {
            Some(n)
        } else {
            None
        },
        None => None,
    }
}

impl Game {
    /// Builds a game record from a credit-list entry. The rating and the
    /// weight are the entry's `average` and `avgweight` as scores, missing
    /// where the text is not a positive number.
    pub fn from_linked(it: LinkedItem, rating: Option<Score>, weight: Option<Score>) -> (g: Game)
        ensures
            g.id@ == it.objectid@,
            g.name@ == it.name@,
            g.href@ == full_href(it.href@),
            g.year == year_of(parse_u32_of(opt_view(it.yearpublished))),
            opt_view(g.image) == preferred_image(it.images),
            g.min_players is None,
            g.max_players is None,
            g.min_playtime is None,
            g.max_playtime is None,
            g.min_age is None,
            g.rating == rating,
            g.users_rated == nonzero(parse_u32_of(opt_view(it.usersrated))),
            g.rank == nonzero(parse_u32_of(opt_view(it.rank))),
            g.owned == parse_u32_of(opt_view(it.numowned)),
            g.weight == weight,
            g.short_description is None,
            g.bga_url is None,
            g.bga_name is None,
    {
        let year = match parse_u32_opt(&it.yearpublished) {
            Some(y) => Some((y % 65536) as u16),
            None => None,
        };
        let users_rated = nonzero_of(parse_u32_opt(&it.usersrated));
        let rank = nonzero_of(parse_u32_opt(&it.rank));
        let owned = parse_u32_opt(&it.numowned);
        let href_chars = chars_of(it.href.as_str());
        let http = vec!['h', 't', 't', 'p'];
        let href = if prefix_at(href_chars.as_slice(), 0, http.as_slice()) {
            proof {
                assert(href_chars@.skip(0) =~= href_chars@);
                assert(http@ =~= seq!['h', 't', 't', 'p']);
            }
            it.href
        } else {
            proof {
                assert(href_chars@.skip(0) =~= href_chars@);
                assert(http@ =~= seq!['h', 't', 't', 'p']);
            }
            let mut full: Vec<char> = vec![
                'h', 't', 't', 'p', 's', ':', '/', '/', 'b', 'o', 'a', 'r', 'd', 'g', 'a', 'm', 'e', 'g', 'e', 'e', 'k', '.', 'c', 'o', 'm',
            ];
            assert(full@ =~= bgg_site());
            append_chars(&mut full, href_chars.as_slice());
            string_of(full.as_slice())
        };
        let images = it.images;
        let image = match images.square200 {
            Some(s) => Some(s),
            None => match images.previewthumb {
                Some(s) => Some(s),
                None => images.thumb,
            },
        };
        Game {
            id: it.objectid,
            name: it.name,
            href,
            year,
            image,
            min_players: None,
            max_players: None,
            min_playtime: None,
            max_playtime: None,
            min_age: None,
            rating,
            users_rated,
            rank,
            owned,
            weight,
            short_description: None,
            bga_url: None,
            bga_name: None,
        }
    }

    /// Takes player counts, play time and age from the per-game supplement,
    /// and its description unless that is blank.
    pub fn merge_detail(&mut self, d: ThingDetail)
        ensures
            final(self).min_players == parse_u16_of(opt_view(d.minplayers)),
            final(self).max_players == parse_u16_of(opt_view(d.maxplayers)),
            final(self).min_playtime == parse_u16_of(opt_view(d.minplaytime)),
            final(self).max_playtime == parse_u16_of(opt_view(d.maxplaytime)),
            final(self).min_age == parse_u16_of(opt_view(d.minage)),
            final(self).short_description == match d.short_description {
                Some(s) => if is_blank(s@) {
                    None
                } else {
                    Some(s)
                },
                None => None,
            },
            final(self).id == old(self).id,
            final(self).name == old(self).name,
            final(self).href == old(self).href,
            final(self).year == old(self).year,
            final(self).image == old(self).image,
            final(self).rating == old(self).rating,
            final(self).users_rated == old(self).users_rated,
            final(self).rank == old(self).rank,
            final(self).owned == old(self).owned,
            final(self).weight == old(self).weight,
            final(self).bga_url == old(self).bga_url,
            final(self).bga_name == old(self).bga_name,
    {
        self.min_players = parse_u16_opt(&d.minplayers);
        self.max_players = parse_u16_opt(&d.maxplayers);
        self.min_playtime = parse_u16_opt(&d.minplaytime);
        self.max_playtime = parse_u16_opt(&d.maxplaytime);
        self.min_age = parse_u16_opt(&d.minage);
        self.short_description = match d.short_description {
            Some(s) => {
                let cs = chars_of(s.as_str());
                if blank(cs.as_slice()) {
                    None
                } else {
                    Some(s)
                }
            },
            None => None,
        };
    }
}


// ---------------------------------------------------------------------------
// Listing order
// ---------------------------------------------------------------------------

/// The sort key of a game: ranked games first by rank, then games with
/// ratings by number of raters (most first), then the rest by year (latest
/// first).
pub open spec fn sort_key(g: Game) -> (int, int, int) {
    match (g.rank, g.users_rated) {
        (Some(r), _) => (0, r as int, 0),
        (None, Some(u)) => (1, -(u as int), 0),
        (None, None) => (2, 0, -(match g.year {
            Some(y) => y as int,
            None => 0,
        })),
    }
}

/// Lexicographic order on sort keys.
pub open spec fn key_less(a: (int, int, int), b: (int, int, int)) -> bool {
    ||| a.0 < b.0
    ||| (a.0 == b.0 && a.1 < b.1)
    ||| (a.0 == b.0 && a.1 == b.1 && a.2 < b.2)
}

/// `new` is `old` rearranged by `perm` (`new[p] == old[perm[p]]`, each
/// position of `old` used once), ordered by sort key, and games with equal
/// keys keep their relative order.
pub open spec fn is_stable_order(old: Seq<Game>, new: Seq<Game>, perm: Seq<int>) -> bool {
    &&& new.len() == old.len()
    &&& perm.len() == old.len()
    &&& forall|p: int| 0 <= p < perm.len() ==> 0 <= #[trigger] perm[p] < old.len()
    &&& forall|p: int| 0 <= p < new.len() ==> #[trigger] new[p] == old[perm[p]]
    &&& forall|p: int, q: int| 0 <= p < q < perm.len() ==> perm[p] != perm[q]
    &&& forall|p: int, q: int|
        0 <= p < q < new.len() ==> key_less(sort_key(#[trigger] new[p]), sort_key(#[trigger] new[q]))
            || (sort_key(new[p]) == sort_key(new[q]) && perm[p] < perm[q])
}

#[derive(Clone, Copy)]
struct SortEntry {
    class: u8,
    primary: i64,
    secondary: i64,
    index: usize,
}

spec fn entry_key(e: SortEntry) -> (int, int, int) {
    (e.class as int, e.primary as int, e.secondary as int)
}

spec fn entry_less(a: SortEntry, b: SortEntry) -> bool {
    key_less(entry_key(a), entry_key(b)) || (entry_key(a) == entry_key(b) && a.index < b.index)
}

fn entry_before(a: SortEntry, b: SortEntry) -> (r: bool)
    ensures
        r == entry_less(a, b),
{
    if a.class != b.class {
        a.class < b.class
    } else if a.primary != b.primary {
        a.primary < b.primary
    } else if a.secondary != b.secondary {
        a.secondary < b.secondary
    } else {
        a.index < b.index
    }
}

fn entry_of(g: &Game, index: usize) -> (e: SortEntry)
    ensures
        entry_key(e) == sort_key(*g),
        e.index == index,
{
    match (g.rank, g.users_rated) {
        (Some(r), _) => SortEntry { class: 0, primary: r as i64, secondary: 0, index },
        (None, Some(u)) => SortEntry { class: 1, primary: -(u as i64), secondary: 0, index },
        (None, None) => {
            let y: i64 = match g.year {
                Some(y) => y as i64,
                None => 0,
            };
            SortEntry { class: 2, primary: 0, secondary: -y, index }
        },
    }
}

spec fn sorted_between(e: Seq<SortEntry>, lo: int, hi: int) -> bool {
    forall|p: int, q: int| lo <= p < q < hi ==> entry_less(#[trigger] e[p], #[trigger] e[q])
}

spec fn entries_ok(e: Seq<SortEntry>, games: Seq<Game>) -> bool {
    &&& e.len() == games.len()
    &&& forall|p: int| 0 <= p < e.len() ==> (#[trigger] e[p]).index < games.len()
    &&& forall|p: int| 0 <= p < e.len() ==> entry_key(#[trigger] e[p]) == sort_key(games[e[p].index as int])
    &&& forall|p: int, q: int| 0 <= p < q < e.len() ==> (#[trigger] e[p]).index != (#[trigger] e[q]).index
}

/// Sorts the entries by `entry_less` (insertion sort).
fn sort_entries(e: &mut Vec<SortEntry>, Ghost(games): Ghost<Seq<Game>>)
    requires
        entries_ok(old(e)@, games),
    ensures
        entries_ok(final(e)@, games),
        sorted_between(final(e)@, 0, final(e)@.len() as int),
{
    let n = e.len();
    if n == 0 {
        return ;
    }
    let mut i: usize = 1;
    while i < n
        invariant
            1 <= i <= n,
            n == e@.len(),
            entries_ok(e@, games),
            sorted_between(e@, 0, i as int),
        decreases n - i,
    {
        let mut j: usize = i;
        while j > 0 && entry_before(e[j], e[j - 1])
            invariant
                0 <= j <= i < n,
                n == e@.len(),
                entries_ok(e@, games),
                sorted_between(e@, 0, j as int),
                sorted_between(e@, j as int, i + 1),
                forall|p: int, q: int|
                    0 <= p < j && j < q <= i ==> entry_less(#[trigger] e@[p], #[trigger] e@[q]),
            decreases j,
        {
            let a = e[j - 1];
            let b = e[j];
            let ghost prev = e@;
            e.set(j - 1, b);
            e.set(j, a);
            assert(e@ =~= prev.update(j - 1, b).update(j as int, a));
            proof {
                assert forall|p: int, q: int| 0 <= p < q < e@.len() implies (#[trigger] e@[p]).index
                    != (#[trigger] e@[q]).index by {
                    let pp = if p == j - 1 { j as int } else if p == j { j - 1 } else { p };
                    let qq = if q == j - 1 { j as int } else if q == j { j - 1 } else { q };
                    assert(e@[p] == prev[pp]);
                    assert(e@[q] == prev[qq]);
                    if pp < qq {
                        assert(prev[pp].index != prev[qq].index);
                    } else {
                        assert(prev[qq].index != prev[pp].index);
                    }
                }
                assert forall|p: int| 0 <= p < e@.len() implies entry_key(#[trigger] e@[p]) == sort_key(
                    games[e@[p].index as int],
                ) by {
                    if p == j - 1 {
                        assert(e@[p] == prev[j as int]);
                    } else if p == j {
                        assert(e@[p] == prev[j - 1]);
                    } else {
                        assert(e@[p] == prev[p]);
                    }
                }
                assert forall|p: int| 0 <= p < e@.len() implies (#[trigger] e@[p]).index < games.len() by {
                    if p == j - 1 {
                        assert(e@[p] == prev[j as int]);
                    } else if p == j {
                        assert(e@[p] == prev[j - 1]);
                    } else {
                        assert(e@[p] == prev[p]);
                    }
                }
                assert(sorted_between(e@, 0, j - 1)) by {
                    assert forall|p: int, q: int| 0 <= p < q < j - 1 implies entry_less(
                        #[trigger] e@[p],
                        #[trigger] e@[q],
                    ) by {
                        assert(e@[p] == prev[p]);
                        assert(e@[q] == prev[q]);
                    }
                }
                assert(sorted_between(e@, j - 1, i + 1)) by {
                    assert forall|p: int, q: int| j - 1 <= p < q < i + 1 implies entry_less(
                        #[trigger] e@[p],
                        #[trigger] e@[q],
                    ) by {
                        if p == j - 1 {
                            assert(e@[p] == b);
                            if q == j {
                                assert(e@[q] == a);
                            } else {
                                assert(e@[q] == prev[q]);
                                assert(entry_less(prev[j as int], prev[q]));
                            }
                        } else if p == j {
                            assert(e@[p] == a);
                            assert(e@[q] == prev[q]);
                            assert(entry_less(prev[j - 1], prev[q]));
                        } else {
                            assert(e@[p] == prev[p]);
                            assert(e@[q] == prev[q]);
                        }
                    }
                }
                assert forall|p: int, q: int| 0 <= p < j - 1 && j - 1 < q <= i implies entry_less(
                    #[trigger] e@[p],
                    #[trigger] e@[q],
                ) by {
                    assert(e@[p] == prev[p]);
                    if q == j {
                        assert(e@[q] == a);
                        assert(entry_less(prev[p], prev[j - 1]));
                    } else {
                        assert(e@[q] == prev[q]);
                    }
                }
            }
            j = j - 1;
        }
        proof {
            if j > 0 {
                let x = e@[j - 1];
                let y = e@[j as int];
                assert(x.index != y.index);
                assert(entry_less(x, y));
                assert forall|p: int, q: int| 0 <= p < q < i + 1 implies entry_less(
                    #[trigger] e@[p],
                    #[trigger] e@[q],
                ) by {
                    if q < j {
                    } else if p >= j {
                    } else if q == j {
                        if p < j - 1 {
                            assert(entry_less(e@[p], x));
                        }
                    } else {
                    }
                }
            }
        }
        i = i + 1;
    }
}

/// Sorts the games: ranked games first (by rank ascending), then everything
/// else by users-rated descending; unrated games tail-end, latest first.
/// Games that compare equal keep their order.
pub fn sort_games(games: &mut Vec<Game>)
    ensures
        exists|perm: Seq<int>| is_stable_order(old(games)@, final(games)@, perm),
{
    let ghost orig = games@;
    let n = games.len();
    let mut entries: Vec<SortEntry> = Vec::new();
    for i in 0..n
        invariant
            n == games@.len(),
            games@ == orig,
            entries@.len() == i,
            forall|p: int| 0 <= p < i ==> (#[trigger] entries@[p]).index == p,
            forall|p: int| 0 <= p < i ==> entry_key(#[trigger] entries@[p]) == sort_key(orig[p]),
    {
        let e = entry_of(&games[i], i);
        entries.push(e);
    }
    sort_entries(&mut entries, Ghost(orig));
    // Move the games out into slots, last game first.
    let mut slots: Vec<Option<Game>> = Vec::new();
    let mut k: usize = n;
    while k > 0
        invariant
            k <= n,
            n == orig.len(),
            games@ == orig.take(k as int),
            slots@.len() == n - k,
            forall|p: int| 0 <= p < n - k ==> #[trigger] slots@[p] == Some(orig[n - 1 - p]),
        decreases k,
    {
        let g = games.pop().unwrap();
        assert(orig.take(k as int).last() == orig[k - 1]);
        slots.push(Some(g));
        k = k - 1;
        assert(games@ =~= orig.take(k as int));
    }
    let ghost perm: Seq<int> = entries@.map_values(|e: SortEntry| e.index as int);
    for p in 0..n
        invariant
            n == orig.len(),
            n == entries@.len(),
            n == slots@.len(),
            games@.len() == p,
            entries_ok(entries@, orig),
            sorted_between(entries@, 0, n as int),
            perm == entries@.map_values(|e: SortEntry| e.index as int),
            forall|q: int| 0 <= q < p ==> #[trigger] games@[q] == orig[perm[q]],
            forall|s: int|
                0 <= s < n ==> (#[trigger] slots@[s] is None <==> exists|q: int|
                    0 <= q < p && perm[q] == n - 1 - s),
            forall|s: int| 0 <= s < n && slots@[s] is Some ==> #[trigger] slots@[s] == Some(orig[n - 1 - s]),
    {
        let idx = entries[p].index;
        let s = n - 1 - idx;
        let mut taken: Option<Game> = None;
        proof {
            if slots@[s as int] is None {
                let q = choose|q: int| 0 <= q < p && perm[q] == n - 1 - s;
                assert(entries@[q].index != entries@[p as int].index);
            }
        }
        let ghost prev = slots@;
        slots.set_and_swap(s, &mut taken);
        let g = taken.unwrap();
        games.push(g);
        proof {
            assert forall|t: int| 0 <= t < n implies (#[trigger] slots@[t] is None <==> exists|q: int|
                0 <= q < p + 1 && perm[q] == n - 1 - t) by {
                if t == s {
                    assert(perm[p as int] == idx);
                } else {
                    if exists|q: int| 0 <= q < p + 1 && perm[q] == n - 1 - t {
                        let q = choose|q: int| 0 <= q < p + 1 && perm[q] == n - 1 - t;
                        assert(q != p);
                    }
                }
            }
        }
    }
    proof {
        assert(is_stable_order(orig, games@, perm)) by {
            assert forall|p: int, q: int| 0 <= p < q < games@.len() implies key_less(
                sort_key(#[trigger] games@[p]),
                sort_key(#[trigger] games@[q]),
            ) || (sort_key(games@[p]) == sort_key(games@[q]) && perm[p] < perm[q]) by {
                assert(entry_less(entries@[p], entries@[q]));
            }
            assert forall|p: int, q: int| 0 <= p < q < perm.len() implies perm[p] != perm[q] by {
                assert(entries@[p].index != entries@[q].index);
            }
        }
    }
}


/// The year an unrated game sorts by (0 when unknown).
pub open spec fn year_or_zero(g: Game) -> int {
    match g.year {
        Some(y) => y as int,
        None => 0,
    }
}

/// What a sorted list looks like: ranked games come first, in rank order
/// (smallest rank first); then unranked games with raters, most raters
/// first; then the rest, latest year first.
pub proof fn lemma_sorted_listing(old: Seq<Game>, new: Seq<Game>, perm: Seq<int>)
    requires
        is_stable_order(old, new, perm),
    ensures
        forall|p: int, q: int|
            0 <= p < q < new.len() && (#[trigger] new[q]).rank is Some ==> (#[trigger] new[p]).rank is Some
                && new[p].rank->0 <= new[q].rank->0,
        forall|p: int, q: int|
            0 <= p < q < new.len() && (#[trigger] new[p]).rank is None ==> (#[trigger] new[q]).rank is None,
        forall|p: int, q: int|
            0 <= p < q < new.len() && (#[trigger] new[p]).rank is None && (#[trigger] new[q]).rank is None
                && new[q].users_rated is Some ==> new[p].users_rated is Some && new[p].users_rated->0
                >= new[q].users_rated->0,
        forall|p: int, q: int|
            0 <= p < q < new.len() && (#[trigger] new[p]).rank is None && new[p].users_rated
                is None && (#[trigger] new[q]).rank is None ==> new[q].users_rated is None && year_or_zero(new[p])
                >= year_or_zero(new[q]),
{
    assert forall|p: int, q: int| #![trigger new[p], new[q]] 0 <= p < q < new.len() implies key_less(
        sort_key(new[p]),
        sort_key(new[q]),
    ) || sort_key(new[p]) == sort_key(new[q]) by {}
}

proof fn lemma_increasing_at_least(s: Seq<int>, p: int)
    requires
        0 <= p < s.len(),
        forall|i: int| 0 <= i < s.len() ==> 0 <= #[trigger] s[i],
        forall|i: int, j: int| 0 <= i < j < s.len() ==> #[trigger] s[i] < #[trigger] s[j],
    ensures
        s[p] >= p,
    decreases p,
{
    if p > 0 {
        lemma_increasing_at_least(s, p - 1);
        assert(s[p - 1] < s[p]);
    } else {
        assert(0 <= s[0]);
    }
}

proof fn lemma_increasing_at_most(s: Seq<int>, p: int)
    requires
        0 <= p < s.len(),
        forall|i: int| 0 <= i < s.len() ==> #[trigger] s[i] < s.len(),
        forall|i: int, j: int| 0 <= i < j < s.len() ==> #[trigger] s[i] < #[trigger] s[j],
    ensures
        s[p] <= p,
    decreases s.len() - p,
{
    if p < s.len() - 1 {
        lemma_increasing_at_most(s, p + 1);
        assert(s[p] < s[p + 1]);
    } else {
        assert(s[p] < s.len());
    }
}

/// Sorting twice changes nothing: a list that came out of a sort sorts to
/// itself.
pub proof fn lemma_sort_twice(
    g0: Seq<Game>,
    g1: Seq<Game>,
    g2: Seq<Game>,
    perm1: Seq<int>,
    perm2: Seq<int>,
)
    requires
        is_stable_order(g0, g1, perm1),
        is_stable_order(g1, g2, perm2),
    ensures
        g2 == g1,
{
    let n = g1.len() as int;
    assert forall|p: int, q: int| 0 <= p < q < n implies #[trigger] perm2[p] < #[trigger] perm2[q] by {
        let a = perm2[p];
        let b = perm2[q];
        assert(g2[p] == g1[a]);
        assert(g2[q] == g1[b]);
        assert(key_less(sort_key(g2[p]), sort_key(g2[q])) || (sort_key(g2[p]) == sort_key(g2[q])
            && a < b));
        if b < a {
            assert(key_less(sort_key(g1[b]), sort_key(g1[a])) || sort_key(g1[b]) == sort_key(g1[a]));
        }
        assert(a != b);
    }
    assert forall|p: int| 0 <= p < n implies #[trigger] perm2[p] == p by {
        lemma_increasing_at_least(perm2, p);
        lemma_increasing_at_most(perm2, p);
    }
    assert forall|p: int| 0 <= p < n implies #[trigger] g2[p] == g1[p] by {
        assert(g2[p] == g1[perm2[p]]);
    }
    assert(g2 =~= g1);
}

// ---------------------------------------------------------------------------
// A designer's credit list
// ---------------------------------------------------------------------------

/// Whether some entry has the given object id.
pub open spec fn has_id(s: Seq<LinkedItem>, id: Seq<char>) -> bool {
    exists|j: int| 0 <= j < s.len() && (#[trigger] s[j]).objectid@ == id
}

/// The entries with the first occurrence of each object id kept, in order.
pub open spec fn dedup_by_id(s: Seq<LinkedItem>) -> Seq<LinkedItem>
    decreases s.len(),
{
    if s.len() == 0 {
        seq![]
    } else {
        let p = dedup_by_id(s.drop_last());
        if has_id(s.drop_last(), s.last().objectid@) {
            p
        } else {
            p.push(s.last())
        }
    }
}

/// De-duplicating keeps exactly the object ids of the input, each once.
pub proof fn lemma_dedup_by_id(s: Seq<LinkedItem>)
    ensures
        forall|id: Seq<char>|
            #![trigger has_id(dedup_by_id(s), id)]
            #![trigger has_id(s, id)]
            has_id(dedup_by_id(s), id) <==> has_id(s, id),
        forall|i: int, j: int|
            0 <= i < j < dedup_by_id(s).len() ==> (#[trigger] dedup_by_id(s)[i]).objectid@
                != (#[trigger] dedup_by_id(s)[j]).objectid@,
    decreases s.len(),
{
    if s.len() > 0 {
        let q = s.drop_last();
        lemma_dedup_by_id(q);
        let p = dedup_by_id(q);
        assert forall|id: Seq<char>| has_id(dedup_by_id(s), id) <==> has_id(s, id) by {
            if has_id(s, id) {
                let j = choose|j: int| 0 <= j < s.len() && (#[trigger] s[j]).objectid@ == id;
                if j < s.len() - 1 {
                    assert(q[j] == s[j]);
                    assert(has_id(q, id));
                    if !has_id(q, s.last().objectid@) {
                        let k = choose|k: int| 0 <= k < p.len() && (#[trigger] p[k]).objectid@ == id;
                        assert(dedup_by_id(s)[k] == p[k]);
                    }
                } else if !has_id(q, s.last().objectid@) {
                    assert(dedup_by_id(s)[p.len() as int] == s.last());
                }
            }
            if has_id(dedup_by_id(s), id) {
                let k = choose|k: int|
                    0 <= k < dedup_by_id(s).len() && (#[trigger] dedup_by_id(s)[k]).objectid@ == id;
                if k < p.len() {
                    assert(dedup_by_id(s)[k] == p[k]);
                    assert(has_id(p, id));
                    let j = choose|j: int| 0 <= j < q.len() && (#[trigger] q[j]).objectid@ == id;
                    assert(s[j] == q[j]);
                } else {
                    assert(s[s.len() - 1].objectid@ == id);
                }
            }
        }
        if !has_id(q, s.last().objectid@) {
            assert forall|i: int, j: int|
                0 <= i < j < dedup_by_id(s).len() implies (#[trigger] dedup_by_id(s)[i]).objectid@
                != (#[trigger] dedup_by_id(s)[j]).objectid@ by {
                if j == p.len() {
                    assert(dedup_by_id(s)[i] == p[i]);
                    if p[i].objectid@ == s.last().objectid@ {
                        assert(has_id(p, s.last().objectid@));
                    }
                } else {
                    assert(dedup_by_id(s)[i] == p[i]);
                    assert(dedup_by_id(s)[j] == p[j]);
                }
            }
        }
    }
}

fn contains_id(items: &Vec<LinkedItem>, id: &[char]) -> (r: bool)
    ensures
        r == has_id(items@, id@),
{
    let n = items.len();
    for i in 0..n
        invariant
            n == items@.len(),
            forall|j: int| 0 <= j < i ==> (#[trigger] items@[j]).objectid@ != id@,
    {
        let cs = chars_of(items[i].objectid.as_str());
        if crate::text::chars_eq(cs.as_slice(), id) {
            return true;
        }
    }
    false
}

/// Keeps the first entry of each object id, in order.
pub fn dedup_items(items: Vec<LinkedItem>) -> (r: Vec<LinkedItem>)
    ensures
        r@ == dedup_by_id(items@),
{
    let ghost orig = items@;
    let mut rest = items;
    let mut out: Vec<LinkedItem> = Vec::new();
    let mut k: usize = 0;
    let n = rest.len();
    assert(orig.skip(0) =~= orig);
    while rest.len() > 0
        invariant
            n == orig.len(),
            k + rest@.len() == n,
            rest@ == orig.skip(k as int),
            out@ == dedup_by_id(orig.take(k as int)),
            forall|id: Seq<char>|
                #![trigger has_id(out@, id)]
                #![trigger has_id(orig.take(k as int), id)]
                has_id(out@, id) <==> has_id(orig.take(k as int), id),
        decreases rest@.len(),
    {
        let it = rest.remove(0);
        assert(it == orig[k as int]);
        assert(rest@ =~= orig.skip(k + 1));
        let id = chars_of(it.objectid.as_str());
        let seen = contains_id(&out, id.as_slice());
        let ghost before = orig.take(k as int);
        assert(orig.take(k + 1).drop_last() =~= before);
        assert(orig.take(k + 1).last() == it);
        let ghost po = out@;
        if !seen {
            out.push(it);
            assert(out@.drop_last() =~= po);
            assert forall|x: Seq<char>| has_id(out@, x) <==> has_id(orig.take(k + 1), x) by {
                let t = orig.take(k + 1);
                if has_id(t, x) {
                    let j = choose|j: int| 0 <= j < t.len() && (#[trigger] t[j]).objectid@ == x;
                    if j < k {
                        assert(before[j] == t[j]);
                        assert(has_id(before, x));
                        assert(has_id(po, x));
                        let m = choose|m: int| 0 <= m < po.len() && (#[trigger] po[m]).objectid@ == x;
                        assert(out@[m] == po[m]);
                    } else {
                        assert(out@[out@.len() - 1] == it);
                    }
                }
                if has_id(out@, x) {
                    let m = choose|m: int| 0 <= m < out@.len() && (#[trigger] out@[m]).objectid@ == x;
                    if m < out@.len() - 1 {
                        assert(po[m] == out@[m]);
                        assert(has_id(po, x));
                        let j = choose|j: int| 0 <= j < before.len() && (#[trigger] before[j]).objectid@ == x;
                        assert(t[j] == before[j]);
                    } else {
                        assert(t[k as int] == it);
                    }
                }
            }
        } else {
            assert forall|x: Seq<char>| has_id(out@, x) <==> has_id(orig.take(k + 1), x) by {
                let t = orig.take(k + 1);
                if has_id(t, x) {
                    let j = choose|j: int| 0 <= j < t.len() && (#[trigger] t[j]).objectid@ == x;
                    if j < k {
                        assert(before[j] == t[j]);
                    }
                }
                if has_id(before, x) {
                    let j = choose|j: int| 0 <= j < before.len() && (#[trigger] before[j]).objectid@ == x;
                    assert(t[j] == before[j]);
                }
            }
        }
        k = k + 1;
    }
    assert(orig.take(n as int) =~= orig);
    out
}

/// Paging through a designer's credit list: after the first page has come
/// in, the pages `2..=pages` are fetched in turn until one comes back empty;
/// the entries are then de-duplicated by object id.
pub struct DesignerListing {
    items: Vec<LinkedItem>,
    total: u32,
    pages: u64,
    next: u64,
    stopped: bool,
}

/// `total.div_ceil(per_page)` for a positive page size.
pub open spec fn page_count(total: nat, per_page: nat) -> nat {
    if total % per_page == 0 {
        total / per_page
    } else {
        total / per_page + 1
    }
}

/// The page count is the least number of pages of `per_page` entries that
/// holds `total` entries: they fit, and one page fewer would not.
pub proof fn lemma_page_count(total: nat, per_page: nat)
    requires
        per_page > 0,
    ensures
        page_count(total, per_page) * per_page >= total,
        total > 0 ==> (page_count(total, per_page) - 1) * per_page < total,
        total == 0 ==> page_count(total, per_page) == 0,
{
    let q = total / per_page;
    let r = total % per_page;
    assert(total == q * per_page + r && 0 <= r < per_page) by (nonlinear_arith)
        requires
            per_page > 0,
            q == total / per_page,
            r == total % per_page,
    ;
    if r == 0 {
        assert(page_count(total, per_page) == q);
        assert(q * per_page == total);
        if total > 0 {
            assert((q - 1) * per_page == q * per_page - per_page) by (nonlinear_arith);
        }
        if total == 0 {
            assert(q == 0) by (nonlinear_arith)
                requires
                    q * per_page == 0,
                    per_page > 0,
            ;
        }
    } else {
        assert(page_count(total, per_page) == q + 1);
        assert((q + 1) * per_page == q * per_page + per_page) by (nonlinear_arith);
    }
}

impl DesignerListing {
    /// The entries gathered so far.
    pub closed spec fn gathered(&self) -> Seq<LinkedItem> {
        self.items@
    }

    /// The number of pages the listing has.
    pub closed spec fn page_total(&self) -> nat {
        self.pages as nat
    }

    /// The page to fetch next, while the listing goes on.
    pub closed spec fn next_page(&self) -> nat {
        self.next as nat
    }

    /// Whether an empty page has stopped the listing.
    pub closed spec fn has_stopped(&self) -> bool {
        self.stopped
    }

    /// The number of credits the designer's first page claims.
    pub closed spec fn claimed(&self) -> u32 {
        self.total
    }

    pub closed spec fn wf(&self) -> bool {
        2 <= self.next <= self.pages + 2 && self.pages <= u32::MAX
    }

    /// Starts the listing from the first page: the number of credits it
    /// claims and the entries it holds.
    pub fn start(numitems: u32, first: Vec<LinkedItem>) -> (r: DesignerListing)
        ensures
            r.wf(),
            r.gathered() == first@,
            r.page_total() == page_count(
                numitems as nat,
                if first@.len() > 0 {
                    first@.len()
                } else {
                    1
                },
            ),
            r.next_page() == 2,
            !r.has_stopped(),
            r.claimed() == numitems,
    {
        let per_page: u64 = if first.len() > 0 {
            first.len() as u64
        } else {
            1
        };
        let total = numitems as u64;
        let q = total / per_page;
        let pages = if total % per_page == 0 {
            q
        } else {
            q + 1
        };
        assert(pages <= total) by (nonlinear_arith)
            requires
                per_page >= 1,
                q == total / per_page,
                total % per_page == 0 ==> pages == q,
                total % per_page != 0 ==> pages == q + 1,
        ;
        DesignerListing { items: first, total: numitems, pages, next: 2, stopped: false }
    }

    /// The page to fetch next: the next page number while it is within the
    /// page count and no empty page has come back.
    pub fn pending_page(&self) -> (r: Option<u32>)
        requires
            self.wf(),
        ensures
            match r {
                Some(p) => !self.has_stopped() && self.next_page() <= self.page_total() && p
                    == self.next_page(),
                None => self.has_stopped() || self.next_page() > self.page_total(),
            },
    {
        if !self.stopped && self.next <= self.pages {
            Some(self.next as u32)
        } else {
            None
        }
    }

    /// Takes the entries of the page just fetched: an empty page stops the
    /// listing; otherwise its entries are added and the next page is due.
    pub fn receive_page(&mut self, items: Vec<LinkedItem>)
        requires
            old(self).wf(),
            !old(self).has_stopped(),
            old(self).next_page() <= old(self).page_total(),
        ensures
            final(self).wf(),
            final(self).claimed() == old(self).claimed(),
            final(self).page_total() == old(self).page_total(),
            items@.len() == 0 ==> final(self).has_stopped() && final(self).gathered() == old(
                self,
            ).gathered() && final(self).next_page() == old(self).next_page(),
            items@.len() > 0 ==> !final(self).has_stopped() && final(self).gathered() == old(
                self,
            ).gathered() + items@ && final(self).next_page() == old(self).next_page() + 1,
    {
        if items.len() == 0 {
            self.stopped = true;
        } else {
            let mut more = items;
            self.items.append(&mut more);
            self.next = self.next + 1;
        }
    }

    /// The number of credits the designer's first page claims.
    pub fn claimed_total(&self) -> (r: u32)
        ensures
            r == self.claimed(),
    {
        self.total
    }

    /// The gathered entries, the first of each object id kept.
    pub fn finish(self) -> (r: Vec<LinkedItem>)
        ensures
            r@ == dedup_by_id(self.gathered()),
    {
        dedup_items(self.items)
    }
}

/// The first `n` entries (all of them if there are fewer).
pub open spec fn first_n<T>(s: Seq<T>, n: nat) -> Seq<T> {
    if n < s.len() {
        s.take(n as int)
    } else {
        s
    }
}

/// Keeps the first `n` games (`Vec::truncate`).
pub fn top_games(games: Vec<Game>, n: usize) -> (r: Vec<Game>)
    ensures
        r@ == first_n(games@, n as nat),
{
    let mut g = games;
    g.truncate(n);
    g
}

/// Caps a credit list to its first `limit` entries; a limit of 0 keeps all.
pub fn cap_list(items: Vec<LinkedItem>, limit: usize) -> (r: Vec<LinkedItem>)
    ensures
        r@ == if limit > 0 {
            first_n(items@, limit as nat)
        } else {
            items@
        },
{
    let mut v = items;
    if limit > 0 {
        v.truncate(limit);
    }
    v
}

// ---------------------------------------------------------------------------
// Endpoints
// ---------------------------------------------------------------------------

/// The URL of one page of a designer's credit list.
pub fn linkeditems_url(designer_id: u32, page: u32) -> (r: String)
    ensures
        r@ == "https://api.geekdo.com/api/geekitem/linkeditems?ajax=1&objectid="@ + decimal(
            designer_id as nat,
        ) + "&objecttype=person&linkdata_index=boardgamedesigner&pageid="@ + decimal(page as nat)
            + "&showcount=100&sort=name&subtype=boardgamedesigner"@,
{
    let mut out: Vec<char> = Vec::new();
    append_str(&mut out, "https://api.geekdo.com/api/geekitem/linkeditems?ajax=1&objectid=");
    let d = decimal_chars(designer_id as u64);
    append_chars(&mut out, d.as_slice());
    append_str(&mut out, "&objecttype=person&linkdata_index=boardgamedesigner&pageid=");
    let p = decimal_chars(page as u64);
    append_chars(&mut out, p.as_slice());
    append_str(&mut out, "&showcount=100&sort=name&subtype=boardgamedesigner");
    string_of(out.as_slice())
}

/// The URL of a game's per-thing record (which also carries its image URL).
pub fn thing_detail_url(id: &str) -> (r: String)
    ensures
        r@ == "https://api.geekdo.com/api/geekitems?nosession=1&objectid="@ + id@
            + "&objecttype=thing"@,
{
    let mut out: Vec<char> = Vec::new();
    append_str(&mut out, "https://api.geekdo.com/api/geekitems?nosession=1&objectid=");
    append_str(&mut out, id);
    append_str(&mut out, "&objecttype=thing");
    string_of(out.as_slice())
}

} // verus!

//! The "popular games" report: BGG's browse table (fetched through
//! FlareSolverr) read into rows, filtered to a year window, and the top-N
//! picked.
use vstd::prelude::*;
use vstd::utf8::{decode_utf8, encode_utf8, is_char_boundary};
use vstd::string::StringSliceAdditionalSpecFns;
use crate::bgg::{bgg_site, nonzero, parse_u32_of, Game, Score};
use crate::clock::year_from_seconds;
use crate::text::{
    append_chars, append_str, chars_of, decimal, decimal_chars, parse_unsigned, parse_unsigned_chars,
    replace_all, replace_chars, string_of,
};

verus! {

// ---------------------------------------------------------------------------
// Text by byte offsets
// ---------------------------------------------------------------------------

/// The text between two byte offsets of the UTF-8 encoding of `h`.
pub open spec fn span_text(h: Seq<char>, lo: int, hi: int) -> Seq<char> {
    decode_utf8(encode_utf8(h).subrange(lo, hi))
}

/// Whether `lo..hi` is a slice of `h`'s UTF-8 encoding that starts and ends
/// on character boundaries.
pub open spec fn is_char_span(h: Seq<char>, lo: int, hi: int) -> bool {
    &&& 0 <= lo <= hi <= encode_utf8(h).len()
    &&& is_char_boundary(encode_utf8(h), lo)
    &&& is_char_boundary(encode_utf8(h), hi)
}

/// `&s[lo..hi]` for byte offsets on character boundaries.
fn byte_span(s: &str, lo: usize, hi: usize) -> (r: &str)
    requires
        is_char_span(s@, lo as int, hi as int),
    ensures
        r@ == span_text(s@, lo as int, hi as int),
{
    broadcast use vstd::utf8::group_utf8_lib;

    let ghost bytes = s.spec_bytes();
    assert(bytes == encode_utf8(s@));
    let (head, _) = s.split_at(hi);
    let ghost hb = head.spec_bytes();
    assert(hb =~= bytes.subrange(0, hi as int));
    assert(vstd::utf8::valid_utf8(hb));
    if lo < hi {
        assert(hb[lo as int] == bytes[lo as int]);
        proof {
            vstd::utf8::is_char_boundary_iff_not_is_continuation_byte(bytes, lo as int);
            vstd::utf8::is_char_boundary_iff_not_is_continuation_byte(hb, lo as int);
        }
        assert(is_char_boundary(hb, lo as int));
    } else {
        assert(hb.len() == lo);
    }
    let (_, piece) = head.split_at(lo);
    assert(piece.spec_bytes() =~= bytes.subrange(lo as int, hi as int));
    assert(piece@ == decode_utf8(piece.spec_bytes()));
    piece
}

// ---------------------------------------------------------------------------
// Regular expressions
// ---------------------------------------------------------------------------

#[verifier::external_type_specification]
#[verifier::external_body]
pub struct ExRegexError(regex::Error);

/// What `Regex::new(pattern)` and `captures_iter(haystack)` give: `None`
/// if the pattern does not compile, else, for each successive match, the
/// byte spans of its capture groups (group 0 is the whole match; `None`
/// for a group that took no part).
pub uninterp spec fn regex_captures(pattern: Seq<char>, haystack: Seq<char>) -> Option<
    Seq<Seq<Option<(usize, usize)>>>,
>;

/// The start of a span (0 for a missing one).
pub open spec fn span_lo(o: Option<(usize, usize)>) -> int {
    match o {
        Some(p) => p.0 as int,
        None => 0,
    }
}

/// The end of a span (0 for a missing one).
pub open spec fn span_hi(o: Option<(usize, usize)>) -> int {
    match o {
        Some(p) => p.1 as int,
        None => 0,
    }
}

/// The spans of a list of matches lie as the regex crate documents them:
/// every match has its overall span (group 0), every span runs between two
/// character boundaries of the haystack, and successive matches do not
/// overlap.
pub open spec fn captures_well_placed(h: Seq<char>, caps: Seq<Seq<Option<(usize, usize)>>>) -> bool {
    &&& forall|i: int| 0 <= i < caps.len() ==> (#[trigger] caps[i]).len() > 0 && caps[i][0] is Some
    &&& forall|i: int, j: int|
        0 <= i < caps.len() && 0 <= j < caps[i].len() && (#[trigger] caps[i][j]) is Some
            ==> is_char_span(h, span_lo(caps[i][j]), span_hi(caps[i][j]))
    &&& forall|i: int|
        0 <= i < caps.len() - 1 ==> span_hi((#[trigger] caps[i])[0]) <= span_lo(caps[i + 1][0])
}

pub open spec fn caps_view(caps: Seq<Vec<Option<(usize, usize)>>>) -> Seq<Seq<Option<(usize, usize)>>> {
    caps.map_values(|c: Vec<Option<(usize, usize)>>| c@)
}

/// `Regex::new(pattern)` followed by `captures_iter(haystack)`, each match
/// given as the byte spans of its groups. The spans are the named result;
/// what is stated besides is what the regex crate documents of them:
/// group 0 is always present, offsets fall on character boundaries with
/// `start <= end`, and successive matches do not overlap.
#[verifier::external_body]
fn captures_all(pattern: &str, haystack: &str) -> (r: Result<
    Vec<Vec<Option<(usize, usize)>>>,
    regex::Error,
>)
    ensures
        match r {
            Ok(caps) => regex_captures(pattern@, haystack@) == Some(caps_view(caps@))
                && captures_well_placed(haystack@, caps_view(caps@)),
            Err(_) => regex_captures(pattern@, haystack@) is None,
        },
{
    let re = regex::Regex::new(pattern)?;
    Ok(re.captures_iter(haystack).map(|c| c.iter().map(|m| m.map(|m| (m.start(), m.end()))).collect()).collect())
}

// ---------------------------------------------------------------------------
// The browse table
// ---------------------------------------------------------------------------

/// A row anchor of the browse table: the game link, its id, its name, and
/// the publication year that follows within 300 characters.
pub open spec fn row_pattern() -> Seq<char> {
    "href=\"(/boardgame/(\\d+)/[^\"]+)\" class=\"primary\">([^<]+)</a>[\\s\\S]{0,300}?\\((\\d{4})\\)"@
}

/// A `collection_bggrating` cell of the browse table and its content.
pub open spec fn stat_pattern() -> Seq<char> {
    "<td[^>]*class=\"collection_bggrating\"[^>]*>\\s*([^<\\s][^<]*?)\\s*</td>"@
}

/// `s` with the HTML entities that BGG writes in names decoded, in the
/// order `&amp;`, `&quot;`, `&#039;`, `&lt;`, `&gt;`.
pub open spec fn unescaped(s: Seq<char>) -> Seq<char> {
    replace_all(
        replace_all(
            replace_all(
                replace_all(
                    replace_all(s, seq!['&', 'a', 'm', 'p', ';'], seq!['&']),
                    seq!['&', 'q', 'u', 'o', 't', ';'],
                    seq!['"'],
                ),
                seq!['&', '#', '0', '3', '9', ';'],
                seq!['\''],
            ),
            seq!['&', 'l', 't', ';'],
            seq!['<'],
        ),
        seq!['&', 'g', 't', ';'],
        seq!['>'],
    )
}

fn unescape_chars(s: &[char]) -> (r: Vec<char>)
    ensures
        r@ == unescaped(s@),
{
    let amp = vec!['&', 'a', 'm', 'p', ';'];
    let quot = vec!['&', 'q', 'u', 'o', 't', ';'];
    let apos = vec!['&', '#', '0', '3', '9', ';'];
    let lt = vec!['&', 'l', 't', ';'];
    let gt = vec!['&', 'g', 't', ';'];
    assert(amp@ =~= seq!['&', 'a', 'm', 'p', ';']);
    assert(quot@ =~= seq!['&', 'q', 'u', 'o', 't', ';']);
    assert(apos@ =~= seq!['&', '#', '0', '3', '9', ';']);
    assert(lt@ =~= seq!['&', 'l', 't', ';']);
    assert(gt@ =~= seq!['&', 'g', 't', ';']);
    let r_amp = vec!['&'];
    let r_quot = vec!['"'];
    let r_apos = vec!['\''];
    let r_lt = vec!['<'];
    let r_gt = vec!['>'];
    assert(r_amp@ =~= seq!['&']);
    assert(r_quot@ =~= seq!['"']);
    assert(r_apos@ =~= seq!['\'']);
    assert(r_lt@ =~= seq!['<']);
    assert(r_gt@ =~= seq!['>']);
    let a = replace_chars(s, amp.as_slice(), r_amp.as_slice());
    let b = replace_chars(a.as_slice(), quot.as_slice(), r_quot.as_slice());
    let c = replace_chars(b.as_slice(), apos.as_slice(), r_apos.as_slice());
    let d = replace_chars(c.as_slice(), lt.as_slice(), r_lt.as_slice());
    let e = replace_chars(d.as_slice(), gt.as_slice(), r_gt.as_slice());
    e
}

/// Decodes the HTML entities `&amp;`, `&quot;`, `&#039;`, `&lt;` and
/// `&gt;`, in that order.
pub fn html_unescape(s: &str) -> (r: String)
    ensures
        r@ == unescaped(s@),
{
    let cs = chars_of(s);
    let u = unescape_chars(cs.as_slice());
    string_of(u.as_slice())
}

/// One row of the browse table. The two ratings are the cell texts as
/// they stand (the caller reads them as decimals).
pub struct BrowseRow {
    pub id: String,
    pub name: String,
    pub year: u16,
    pub geek_rating: Option<String>,
    pub avg_rating: Option<String>,
    pub num_voters: Option<u32>,
    pub num_owned: Option<u32>,
    pub href: String,
}

/// The view of a browse row.
pub struct RowView {
    pub id: Seq<char>,
    pub name: Seq<char>,
    pub year: u16,
    pub geek_rating: Option<Seq<char>>,
    pub avg_rating: Option<Seq<char>>,
    pub num_voters: Option<u32>,
    pub num_owned: Option<u32>,
    pub href: Seq<char>,
}

impl View for BrowseRow {
    type V = RowView;

    open spec fn view(&self) -> RowView {
        RowView {
            id: self.id@,
            name: self.name@,
            year: self.year,
            geek_rating: crate::bgg::opt_view(self.geek_rating),
            avg_rating: crate::bgg::opt_view(self.avg_rating),
            num_voters: self.num_voters,
            num_owned: self.num_owned,
            href: self.href@,
        }
    }
}

/// The text of group `g` of a match, if the group took part.
pub open spec fn group_text(h: Seq<char>, cap: Seq<Option<(usize, usize)>>, g: int) -> Option<Seq<char>> {
    if 0 <= g < cap.len() && cap[g] is Some {
        Some(span_text(h, span_lo(cap[g]), span_hi(cap[g])))
    } else {
        None
    }
}

/// The contents (group 1) of the rating cells found in a stretch of the
/// table, in order.
pub open spec fn cell_texts(h: Seq<char>, caps: Seq<Seq<Option<(usize, usize)>>>) -> Seq<Seq<char>>
    decreases caps.len(),
{
    if caps.len() == 0 {
        seq![]
    } else {
        cell_texts(h, caps.drop_last()) + match group_text(h, caps.last(), 1) {
            Some(t) => seq![t],
            None => seq![],
        }
    }
}

/// The rating cells of a stretch of the table.
pub open spec fn stat_cells(chunk: Seq<char>) -> Seq<Seq<char>> {
    match regex_captures(stat_pattern(), chunk) {
        Some(caps) => cell_texts(chunk, caps),
        None => seq![],
    }
}

pub open spec fn nth_text(cells: Seq<Seq<char>>, k: int) -> Option<Seq<char>> {
    if 0 <= k < cells.len() {
        Some(cells[k])
    } else {
        None
    }
}

/// The stretch of the page between the end of match `i` and the start of
/// the next match (or the end of the page), where the rating cells of
/// match `i`'s row stand.
pub open spec fn chunk_after(h: Seq<char>, caps: Seq<Seq<Option<(usize, usize)>>>, i: int) -> Seq<char> {
    let end = span_hi(caps[i][0]);
    let next = if i + 1 < caps.len() {
        span_lo(caps[i + 1][0])
    } else {
        encode_utf8(h).len() as int
    };
    span_text(h, end, next)
}

/// The row that a match `c` of the row pattern gives with the rating cells
/// `cells` of its stretch: the four groups (link, id, name, year) and the
/// cells geek rating, average rating, voters, owners. A match missing a
/// group gives no row.
pub open spec fn row_of(h: Seq<char>, c: Seq<Option<(usize, usize)>>, cells: Seq<Seq<char>>) -> Option<RowView> {
    match (group_text(h, c, 1), group_text(h, c, 2), group_text(h, c, 3), group_text(h, c, 4)) {
        (Some(href), Some(id), Some(name), Some(year)) => Some(
            RowView {
                id,
                name: unescaped(name),
                year: match parse_unsigned(year, u16::MAX as nat) {
                    Some(v) => v as u16,
                    None => 0,
                },
                geek_rating: nth_text(cells, 0),
                avg_rating: nth_text(cells, 1),
                num_voters: nonzero(parse_u32_of(nth_text(cells, 2))),
                num_owned: nonzero(parse_u32_of(nth_text(cells, 3))),
                href: bgg_site() + href,
            },
        ),
        _ => None,
    }
}

/// The row that match `i` of the row pattern gives, with the rating cells
/// that the cell pattern finds in its stretch.
pub open spec fn row_at(h: Seq<char>, caps: Seq<Seq<Option<(usize, usize)>>>, i: int) -> Option<RowView> {
    row_of(h, caps[i], stat_cells(chunk_after(h, caps, i)))
}

/// The rows of the first `n` matches of the row pattern, given for each
/// match the matches of the cell pattern in its stretch.
pub open spec fn rows_given(
    h: Seq<char>,
    caps: Seq<Seq<Option<(usize, usize)>>>,
    cell_caps: Seq<Seq<Seq<Option<(usize, usize)>>>>,
    n: int,
) -> Seq<RowView>
    decreases n,
{
    if n <= 0 {
        seq![]
    } else {
        rows_given(h, caps, cell_caps, n - 1) + match row_of(
            h,
            caps[n - 1],
            cell_texts(chunk_after(h, caps, n - 1), cell_caps[n - 1]),
        ) {
            Some(r) => seq![r],
            None => seq![],
        }
    }
}

/// The rows of the first `n` matches.
pub open spec fn rows_upto(h: Seq<char>, caps: Seq<Seq<Option<(usize, usize)>>>, n: int) -> Seq<RowView>
    decreases n,
{
    if n <= 0 {
        seq![]
    } else {
        rows_upto(h, caps, n - 1) + match row_at(h, caps, n - 1) {
            Some(r) => seq![r],
            None => seq![],
        }
    }
}

/// The rows of a browse page, or `None` if one of the two patterns does not
/// compile.
pub open spec fn browse_rows(h: Seq<char>) -> Option<Seq<RowView>> {
    match (regex_captures(row_pattern(), h), regex_captures(stat_pattern(), seq![])) {
        (Some(caps), Some(_)) => Some(rows_upto(h, caps, caps.len() as int)),
        _ => None,
    }
}

/// A pattern of the browse table did not compile.
pub struct PatternError {
    pub error: regex::Error,
}

fn group_chars(h: &str, cap: &Vec<Option<(usize, usize)>>, g: usize) -> (r: Option<Vec<char>>)
    requires
        forall|j: int|
            0 <= j < cap@.len() && (#[trigger] cap@[j]) is Some ==> is_char_span(
                h@,
                span_lo(cap@[j]),
                span_hi(cap@[j]),
            ),
    ensures
        match r {
            Some(t) => group_text(h@, cap@, g as int) == Some(t@),
            None => group_text(h@, cap@, g as int) is None,
        },
{
    if g < cap.len() {
        match cap[g] {
            Some((lo, hi)) => Some(chars_of(byte_span(h, lo, hi))),
            None => None,
        }
    } else {
        None
    }
}

fn parse_count(t: &Option<Vec<char>>) -> (r: Option<u32>)
    ensures
        r == nonzero(
            parse_u32_of(
                match t {
                    Some(v) => Some(v@),
                    None => None,
                },
            ),
        ),
{
    match t {
        Some(v) => match parse_unsigned_chars(v.as_slice(), 4294967295) {
            Some(n) => if n > 0 {
                Some(n as u32)
            } else {
                None
            },
            None => None,
        },
        None => None,
    }
}

/// The rating cells (group 1 of each cell match) of a stretch of the table.
fn cells_from(chunk: &str, cc: &Vec<Vec<Option<(usize, usize)>>>) -> (r: Vec<Vec<char>>)
    requires
        captures_well_placed(chunk@, caps_view(cc@)),
    ensures
        r@.map_values(|v: Vec<char>| v@) == cell_texts(chunk@, caps_view(cc@)),
{
    let ghost cv = caps_view(cc@);
    let n = cc.len();
    let mut out: Vec<Vec<char>> = Vec::new();
    for i in 0..n
        invariant
            n == cc@.len(),
            cv == caps_view(cc@),
            captures_well_placed(chunk@, cv),
            out@.map_values(|v: Vec<char>| v@) == cell_texts(chunk@, cv.take(i as int)),
    {
        assert(cv[i as int] == cc@[i as int]@);
        assert(cv.take(i + 1).drop_last() =~= cv.take(i as int));
        assert(cv.take(i + 1).last() == cv[i as int]);
        let ghost prev = out@;
        match group_chars(chunk, &cc[i], 1) {
            Some(t) => {
                out.push(t);
                assert(out@.map_values(|v: Vec<char>| v@) =~= prev.map_values(|v: Vec<char>| v@).push(t@));
            },
            None => {},
        }
    }
    assert(cv.take(n as int) =~= cv);
    out
}

/// The matches of the cell pattern in a stretch of the table (none if the
/// pattern does not compile).
fn stat_matches(chunk: &str) -> (r: Vec<Vec<Option<(usize, usize)>>>)
    ensures
        captures_well_placed(chunk@, caps_view(r@)),
        cell_texts(chunk@, caps_view(r@)) == stat_cells(chunk@),
{
    match captures_all("<td[^>]*class=\"collection_bggrating\"[^>]*>\\s*([^<\\s][^<]*?)\\s*</td>", chunk) {
        Ok(caps) => caps,
        Err(_) => {
            let none: Vec<Vec<Option<(usize, usize)>>> = Vec::new();
            assert(caps_view(none@) =~= seq![]);
            none
        },
    }
}

fn nth_cell(cells: &Vec<Vec<char>>, k: usize) -> (r: Option<Vec<char>>)
    ensures
        match r {
            Some(t) => nth_text(cells@.map_values(|v: Vec<char>| v@), k as int) == Some(t@),
            None => nth_text(cells@.map_values(|v: Vec<char>| v@), k as int) is None,
        },
{
    if k < cells.len() {
        let mut t: Vec<char> = Vec::new();
        append_chars(&mut t, cells[k].as_slice());
        assert(t@ =~= cells@[k as int]@);
        Some(t)
    } else {
        None
    }
}

fn opt_string(t: Option<Vec<char>>) -> (r: Option<String>)
    ensures
        crate::bgg::opt_view(r) == match t {
            Some(v) => Some(v@),
            None => None,
        },
{
    match t {
        Some(v) => Some(string_of(v.as_slice())),
        None => None,
    }
}

/// The stretch of the page after match `i`.
fn chunk_of<'a>(h: &'a str, caps: &Vec<Vec<Option<(usize, usize)>>>, i: usize) -> (r: &'a str)
    requires
        i < caps@.len(),
        captures_well_placed(h@, caps_view(caps@)),
    ensures
        r@ == chunk_after(h@, caps_view(caps@), i as int),
{
    let ghost cv = caps_view(caps@);
    assert(cv[i as int] == caps@[i as int]@);
    let c = &caps[i];
    assert(c@ == cv[i as int]);
    assert(c@[0] is Some);
    let end = match c[0] {
        Some((_, e)) => e,
        None => 0,
    };
    let next = if i < caps.len() - 1 {
        assert(cv[i + 1] == caps@[i + 1]@);
        assert(caps@[i + 1]@[0] is Some);
        match caps[i + 1][0] {
            Some((s, _)) => s,
            None => 0,
        }
    } else {
        h.as_bytes().len()
    };
    proof {
        assert(is_char_span(h@, span_lo(cv[i as int][0]), span_hi(cv[i as int][0])));
        assert(end == span_hi(cv[i as int][0]));
        if i < caps.len() - 1 {
            assert(is_char_span(h@, span_lo(cv[i + 1][0]), span_hi(cv[i + 1][0])));
            assert(next == span_lo(cv[i + 1][0]));
            assert(span_hi(cv[i as int][0]) <= span_lo(cv[i + 1][0]));
        } else {
            assert(next == encode_utf8(h@).len());
            vstd::utf8::encode_utf8_valid_utf8(h@);
            vstd::utf8::is_char_boundary_start_end_of_seq(encode_utf8(h@));
        }
    }
    byte_span(h, end, next)
}

/// The row of one match of the row pattern, with the rating cells of its
/// stretch.
fn row_of_cells(h: &str, c: &Vec<Option<(usize, usize)>>, cells: &Vec<Vec<char>>) -> (r: Option<BrowseRow>)
    requires
        forall|j: int|
            0 <= j < c@.len() && (#[trigger] c@[j]) is Some ==> is_char_span(
                h@,
                span_lo(c@[j]),
                span_hi(c@[j]),
            ),
    ensures
        match r {
            Some(row) => row_of(h@, c@, cells@.map_values(|v: Vec<char>| v@)) == Some(row.view()),
            None => row_of(h@, c@, cells@.map_values(|v: Vec<char>| v@)) is None,
        },
{
    let href = group_chars(h, c, 1);
    let id = group_chars(h, c, 2);
    let name = group_chars(h, c, 3);
    let year = group_chars(h, c, 4);
    match (href, id, name, year) {
        (Some(href), Some(id), Some(name), Some(year)) => {
            let year_value: u16 = match parse_unsigned_chars(year.as_slice(), 65535) {
                Some(v) => v as u16,
                None => 0,
            };
            let mut link = vec![
                'h', 't', 't', 'p', 's', ':', '/', '/', 'b', 'o', 'a', 'r', 'd', 'g', 'a', 'm', 'e', 'g', 'e', 'e', 'k', '.', 'c', 'o', 'm',
            ];
            assert(link@ =~= bgg_site());
            append_chars(&mut link, href.as_slice());
            let voters = nth_cell(cells, 2);
            let owned = nth_cell(cells, 3);
            let row = BrowseRow {
                id: string_of(id.as_slice()),
                name: string_of(unescape_chars(name.as_slice()).as_slice()),
                year: year_value,
                geek_rating: opt_string(nth_cell(cells, 0)),
                avg_rating: opt_string(nth_cell(cells, 1)),
                num_voters: parse_count(&voters),
                num_owned: parse_count(&owned),
                href: string_of(link.as_slice()),
            };
            Some(row)
        },
        _ => None,
    }
}

/// Reads the rows of a BGG browse page: each row anchor (link, id, name,
/// year) with the four `collection_bggrating` cells that follow it before
/// the next anchor.
pub fn parse_browse_page(html: &str) -> (r: Result<Vec<BrowseRow>, PatternError>)
    ensures
        match r {
            Ok(rows) => browse_rows(html@) == Some(rows@.map_values(|x: BrowseRow| x.view())),
            Err(_) => browse_rows(html@) is None,
        },
{
    let caps = match captures_all("href=\"(/boardgame/(\\d+)/[^\"]+)\" class=\"primary\">([^<]+)</a>[\\s\\S]{0,300}?\\((\\d{4})\\)", html) {
        Ok(c) => c,
        Err(error) => {
            return Err(PatternError { error });
        },
    };
    let nothing = String::new();
    match captures_all("<td[^>]*class=\"collection_bggrating\"[^>]*>\\s*([^<\\s][^<]*?)\\s*</td>", nothing.as_str()) {
        Ok(_) => {
            assert(nothing@ =~= seq![]);
        },
        Err(error) => {
            assert(nothing@ =~= seq![]);
            return Err(PatternError { error });
        },
    }
    Ok(rows_from_captures(html, &caps))
}

/// The rows of a browse page, given the matches of the row pattern (each
/// as the byte spans of its groups) and, for each of them, the matches of
/// the cell pattern in the stretch after it (spans within that stretch).
pub fn rows_from_matches(
    html: &str,
    caps: &Vec<Vec<Option<(usize, usize)>>>,
    cell_caps: &Vec<Vec<Vec<Option<(usize, usize)>>>>,
) -> (r: Vec<BrowseRow>)
    requires
        captures_well_placed(html@, caps_view(caps@)),
        cell_caps@.len() == caps@.len(),
        forall|i: int|
            0 <= i < caps@.len() ==> captures_well_placed(
                chunk_after(html@, caps_view(caps@), i),
                caps_view((#[trigger] cell_caps@[i])@),
            ),
    ensures
        r@.map_values(|x: BrowseRow| x.view()) == rows_given(
            html@,
            caps_view(caps@),
            cell_caps@.map_values(|c: Vec<Vec<Option<(usize, usize)>>>| caps_view(c@)),
            caps@.len() as int,
        ),
{
    let ghost cv = caps_view(caps@);
    let ghost ccv = cell_caps@.map_values(|c: Vec<Vec<Option<(usize, usize)>>>| caps_view(c@));
    let n = caps.len();
    let mut rows: Vec<BrowseRow> = Vec::new();
    for i in 0..n
        invariant
            n == caps@.len(),
            n == cell_caps@.len(),
            cv == caps_view(caps@),
            ccv == cell_caps@.map_values(|c: Vec<Vec<Option<(usize, usize)>>>| caps_view(c@)),
            captures_well_placed(html@, cv),
            forall|k: int|
                0 <= k < n ==> captures_well_placed(
                    chunk_after(html@, cv, k),
                    caps_view((#[trigger] cell_caps@[k])@),
                ),
            rows@.map_values(|x: BrowseRow| x.view()) == rows_given(html@, cv, ccv, i as int),
    {
        let ghost prev = rows@;
        let chunk = chunk_of(html, caps, i);
        assert(ccv[i as int] == caps_view(cell_caps@[i as int]@));
        let cells = cells_from(chunk, &cell_caps[i]);
        assert(cv[i as int] == caps@[i as int]@);
        let c = &caps[i];
        assert forall|j: int| 0 <= j < c@.len() && (#[trigger] c@[j]) is Some implies is_char_span(
            html@,
            span_lo(c@[j]),
            span_hi(c@[j]),
        ) by {
            assert(c@[j] == cv[i as int][j]);
        }
        match row_of_cells(html, c, &cells) {
            Some(row) => {
                rows.push(row);
                assert(rows@.map_values(|x: BrowseRow| x.view()) =~= prev.map_values(
                    |x: BrowseRow| x.view(),
                ).push(row.view()));
            },
            None => {},
        }
    }
    rows
}

proof fn lemma_rows_given_upto(
    h: Seq<char>,
    caps: Seq<Seq<Option<(usize, usize)>>>,
    cell_caps: Seq<Seq<Seq<Option<(usize, usize)>>>>,
    n: int,
)
    requires
        forall|j: int|
            0 <= j < n ==> cell_texts(chunk_after(h, caps, j), #[trigger] cell_caps[j]) == stat_cells(
                chunk_after(h, caps, j),
            ),
    ensures
        rows_given(h, caps, cell_caps, n) == rows_upto(h, caps, n),
    decreases n,
{
    if n > 0 {
        lemma_rows_given_upto(h, caps, cell_caps, n - 1);
        assert(cell_texts(chunk_after(h, caps, n - 1), cell_caps[n - 1]) == stat_cells(
            chunk_after(h, caps, n - 1),
        ));
    }
}

/// The rows that the matches of the row pattern on a browse page give,
/// given those matches (each as the byte spans of its groups); the cell
/// pattern is run on the stretch after each.
pub fn rows_from_captures(html: &str, caps: &Vec<Vec<Option<(usize, usize)>>>) -> (r: Vec<BrowseRow>)
    requires
        captures_well_placed(html@, caps_view(caps@)),
    ensures
        r@.map_values(|x: BrowseRow| x.view()) == rows_upto(html@, caps_view(caps@), caps@.len() as int),
{
    let ghost cv = caps_view(caps@);
    let n = caps.len();
    let mut cell_caps: Vec<Vec<Vec<Option<(usize, usize)>>>> = Vec::new();
    for i in 0..n
        invariant
            n == caps@.len(),
            cv == caps_view(caps@),
            captures_well_placed(html@, cv),
            cell_caps@.len() == i,
            forall|k: int|
                0 <= k < i ==> captures_well_placed(
                    chunk_after(html@, cv, k),
                    caps_view((#[trigger] cell_caps@[k])@),
                ),
            forall|k: int|
                0 <= k < i ==> cell_texts(chunk_after(html@, cv, k), caps_view((#[trigger] cell_caps@[k])@))
                    == stat_cells(chunk_after(html@, cv, k)),
    {
        let chunk = chunk_of(html, caps, i);
        let m = stat_matches(chunk);
        cell_caps.push(m);
    }
    let ghost ccv = cell_caps@.map_values(|c: Vec<Vec<Option<(usize, usize)>>>| caps_view(c@));
    proof {
        assert forall|j: int| 0 <= j < n implies cell_texts(chunk_after(html@, cv, j), #[trigger] ccv[j])
            == stat_cells(chunk_after(html@, cv, j)) by {
            assert(ccv[j] == caps_view(cell_caps@[j]@));
        }
        lemma_rows_given_upto(html@, cv, ccv, n as int);
    }
    rows_from_matches(html, caps, &cell_caps)
}

impl BrowseRow {
    /// The game record of a row; its rating is the average rating, else the
    /// geek rating, each as a score where its cell reads as a positive
    /// number.
    pub fn into_game(&self, avg_rating: Option<Score>, geek_rating: Option<Score>) -> (g: Game)
        ensures
            g.id@ == self.id@,
            g.name@ == self.name@,
            g.href@ == self.href@,
            g.year == Some(self.year),
            g.image is None,
            g.min_players is None,
            g.max_players is None,
            g.min_playtime is None,
            g.max_playtime is None,
            g.min_age is None,
            g.rating == match avg_rating {
                Some(a) => Some(a),
                None => geek_rating,
            },
            g.users_rated == self.num_voters,
            g.rank is None,
            g.owned == self.num_owned,
            g.weight is None,
            g.short_description is None,
            g.bga_url is None,
            g.bga_name is None,
    {
        Game {
            id: string_of(chars_of(self.id.as_str()).as_slice()),
            name: string_of(chars_of(self.name.as_str()).as_slice()),
            href: string_of(chars_of(self.href.as_str()).as_slice()),
            year: Some(self.year),
            image: None,
            min_players: None,
            max_players: None,
            min_playtime: None,
            max_playtime: None,
            min_age: None,
            rating: match avg_rating {
                Some(a) => Some(a),
                None => geek_rating,
            },
            users_rated: self.num_voters,
            rank: None,
            owned: self.num_owned,
            weight: None,
            short_description: None,
            bga_url: None,
            bga_name: None,
        }
    }
}

// ---------------------------------------------------------------------------
// The report's settings
// ---------------------------------------------------------------------------

/// What "popular" means for the report.
#[derive(PartialEq, Eq, Structural, Clone, Copy, Debug)]
pub enum Metric {
    /// Most-owned on BGG.
    Numowned,
    /// BGG overall rank (lower is better; ranked games only).
    Rank,
    /// Most user ratings.
    Voters,
}

impl Metric {
    pub open spec fn param(self) -> Seq<char> {
        match self {
            Metric::Numowned => "numowned"@,
            Metric::Rank => "rank"@,
            Metric::Voters => "numvoters"@,
        }
    }

    pub open spec fn describe(self) -> Seq<char> {
        match self {
            Metric::Numowned => "most owned on BGG"@,
            Metric::Rank => "highest BGG rank"@,
            Metric::Voters => "most rated on BGG"@,
        }
    }

    /// The browse page's `sort` parameter for this metric.
    pub fn browse_param(self) -> (r: &'static str)
        ensures
            r@ == self.param(),
    {
        match self {
            Metric::Numowned => "numowned",
            Metric::Rank => "rank",
            Metric::Voters => "numvoters",
        }
    }

    /// How the report's title describes this metric.
    pub fn label(self) -> (r: &'static str)
        ensures
            r@ == self.describe(),
    {
        match self {
            Metric::Numowned => "most owned on BGG",
            Metric::Rank => "highest BGG rank",
            Metric::Voters => "most rated on BGG",
        }
    }
}

/// The URL of a browse page sorted by a metric, most first.
pub fn browse_url(page: u32, metric: Metric) -> (r: String)
    ensures
        r@ == "https://boardgamegeek.com/browse/boardgame/page/"@ + decimal(page as nat) + "?sort="@
            + metric.param() + "&sortdir=desc"@,
{
    let mut out = chars_of("https://boardgamegeek.com/browse/boardgame/page/");
    append_chars(&mut out, decimal_chars(page as u64).as_slice());
    append_str(&mut out, "?sort=");
    append_str(&mut out, metric.browse_param());
    append_str(&mut out, "&sortdir=desc");
    string_of(out.as_slice())
}

/// The report's title.
pub fn popular_header(count: usize, metric: Metric, since: u16, until: u16) -> (r: String)
    ensures
        r@ == "Top "@ + decimal(count as nat) + " board games — "@ + metric.describe() + " ("@
            + decimal(since as nat) + "–"@ + decimal(until as nat) + ")"@,
{
    let mut out = chars_of("Top ");
    append_chars(&mut out, decimal_chars(count as u64).as_slice());
    append_str(&mut out, " board games — ");
    append_str(&mut out, metric.label());
    append_str(&mut out, " (");
    append_chars(&mut out, decimal_chars(since as u64).as_slice());
    append_str(&mut out, "–");
    append_chars(&mut out, decimal_chars(until as u64).as_slice());
    append_str(&mut out, ")");
    string_of(out.as_slice())
}

/// The current year in UTC, cut to 16 bits as `as u16` does: the year of
/// the clock's reading in seconds since the Unix epoch; `None` if the clock
/// reads before the epoch.
pub fn current_year() -> (r: Option<u16>)
    ensures
        r matches Some(y) ==> exists|secs: u64| year_from_seconds(secs) == Some(y),
{
    match crate::clock::now_seconds() {
        Some(secs) => crate::clock::year_of_seconds(secs),
        None => None,
    }
}

/// Ten calendar years before `year` (0 if `year` is below 10).
pub open spec fn ten_years_before(year: u16) -> u16 {
    if year >= 10 {
        (year - 10) as u16
    } else {
        0
    }
}

/// The first year of a window of ten years back from `year`.
pub fn since_year(year: u16) -> (r: u16)
    ensures
        r == ten_years_before(year),
{
    if year >= 10 {
        year - 10
    } else {
        0
    }
}

/// The default first year: ten calendar years before the current one;
/// `None` if the clock reads before the Unix epoch.
pub fn default_since() -> (r: Option<u16>)
    ensures
        r matches Some(v) ==> exists|secs: u64, year: u16|
            year_from_seconds(secs) == Some(year) && v == ten_years_before(year),
{
    match current_year() {
        Some(y) => Some(since_year(y)),
        None => None,
    }
}

// ---------------------------------------------------------------------------
// Picking the top games
// ---------------------------------------------------------------------------

pub open spec fn has_pick(picks: Seq<RowView>, id: Seq<char>) -> bool {
    exists|j: int| 0 <= j < picks.len() && (#[trigger] picks[j]).id == id
}

/// The picks after going through a page's rows in order: rows outside the
/// year window and games already picked are passed over; a new game is
/// picked, and the page is left as soon as `top` games are picked.
pub open spec fn offer_rows(picks: Seq<RowView>, rows: Seq<RowView>, top: nat, since: u16, until: u16) -> Seq<
    RowView,
>
    decreases rows.len(),
{
    if rows.len() == 0 {
        picks
    } else {
        let r = rows[0];
        if r.year < since || r.year > until || has_pick(picks, r.id) {
            offer_rows(picks, rows.drop_first(), top, since, until)
        } else if picks.len() + 1 >= top {
            picks.push(r)
        } else {
            offer_rows(picks.push(r), rows.drop_first(), top, since, until)
        }
    }
}

/// Every pick lies in the year window, and no game is picked twice.
pub open spec fn picks_ok(picks: Seq<RowView>, since: u16, until: u16) -> bool {
    &&& forall|j: int| 0 <= j < picks.len() ==> since <= (#[trigger] picks[j]).year <= until
    &&& forall|i: int, j: int| 0 <= i < j < picks.len() ==> (#[trigger] picks[i]).id != (#[trigger] picks[j]).id
}

/// Going through a page keeps the earlier picks in front, keeps every pick
/// inside the year window, and never picks a game twice.
pub proof fn lemma_offer_rows_picks_ok(picks: Seq<RowView>, rows: Seq<RowView>, top: nat, since: u16, until: u16)
    requires
        picks_ok(picks, since, until),
    ensures
        picks_ok(offer_rows(picks, rows, top, since, until), since, until),
        offer_rows(picks, rows, top, since, until).len() >= picks.len(),
        offer_rows(picks, rows, top, since, until).take(picks.len() as int) == picks,
    decreases rows.len(),
{
    let out = offer_rows(picks, rows, top, since, until);
    if rows.len() == 0 {
        assert(out.take(picks.len() as int) =~= picks);
    } else {
        let r = rows[0];
        if r.year < since || r.year > until || has_pick(picks, r.id) {
            lemma_offer_rows_picks_ok(picks, rows.drop_first(), top, since, until);
        } else {
            let p2 = picks.push(r);
            assert(picks_ok(p2, since, until)) by {
                assert forall|i: int, j: int| 0 <= i < j < p2.len() implies (#[trigger] p2[i]).id
                    != (#[trigger] p2[j]).id by {
                    if j == picks.len() {
                        if p2[i].id == r.id {
                            assert(picks[i] == p2[i]);
                        }
                    } else {
                        assert(p2[i] == picks[i]);
                        assert(p2[j] == picks[j]);
                    }
                }
                assert forall|j: int| 0 <= j < p2.len() implies since <= (#[trigger] p2[j]).year <= until by {
                    if j < picks.len() {
                        assert(p2[j] == picks[j]);
                    }
                }
            }
            if picks.len() + 1 >= top {
                assert(out.take(picks.len() as int) =~= picks);
            } else {
                lemma_offer_rows_picks_ok(p2, rows.drop_first(), top, since, until);
                assert(out.take(p2.len() as int).take(picks.len() as int) =~= out.take(picks.len() as int));
                assert(p2.take(picks.len() as int) =~= picks);
            }
        }
    }
}

proof fn lemma_offer_rows_prefix(picks: Seq<RowView>, rows: Seq<RowView>, top: nat, since: u16, until: u16)
    ensures
        offer_rows(picks, rows, top, since, until).len() >= picks.len(),
        offer_rows(picks, rows, top, since, until).take(picks.len() as int) == picks,
        forall|j: int|
            picks.len() <= j < offer_rows(picks, rows, top, since, until).len() ==> exists|i: int|
                0 <= i < rows.len() && rows[i] == #[trigger] offer_rows(picks, rows, top, since, until)[j],
    decreases rows.len(),
{
    let out = offer_rows(picks, rows, top, since, until);
    if rows.len() == 0 {
        assert(out.take(picks.len() as int) =~= picks);
    } else {
        let r = rows[0];
        let rest = rows.drop_first();
        if r.year < since || r.year > until || has_pick(picks, r.id) {
            lemma_offer_rows_prefix(picks, rest, top, since, until);
            assert forall|j: int| picks.len() <= j < out.len() implies exists|i: int|
                0 <= i < rows.len() && rows[i] == #[trigger] out[j] by {
                let i = choose|i: int| 0 <= i < rest.len() && rest[i] == out[j];
                assert(rows[i + 1] == rest[i]);
            }
        } else {
            let p2 = picks.push(r);
            if picks.len() + 1 >= top {
                assert(out.take(picks.len() as int) =~= picks);
                assert forall|j: int| picks.len() <= j < out.len() implies exists|i: int|
                    0 <= i < rows.len() && rows[i] == #[trigger] out[j] by {
                    assert(rows[0] == out[j]);
                }
            } else {
                lemma_offer_rows_prefix(p2, rest, top, since, until);
                assert(out.take(p2.len() as int).take(picks.len() as int) =~= out.take(picks.len() as int));
                assert(p2.take(picks.len() as int) =~= picks);
                assert forall|j: int| picks.len() <= j < out.len() implies exists|i: int|
                    0 <= i < rows.len() && rows[i] == #[trigger] out[j] by {
                    if j == picks.len() {
                        assert(out.take(p2.len() as int)[j] == p2[j]);
                        assert(rows[0] == out[j]);
                    } else {
                        let i = choose|i: int| 0 <= i < rest.len() && rest[i] == out[j];
                        assert(rows[i + 1] == rest[i]);
                    }
                }
            }
        }
    }
}

/// One row offered: it is picked exactly when it lies in the year window
/// (both ends included) and its game is not picked yet.
pub proof fn lemma_offer_one_row(picks: Seq<RowView>, r: RowView, top: nat, since: u16, until: u16)
    ensures
        since <= r.year <= until && !has_pick(picks, r.id) ==> offer_rows(picks, seq![r], top, since, until)
            == picks.push(r),
        !(since <= r.year <= until && !has_pick(picks, r.id)) ==> offer_rows(
            picks,
            seq![r],
            top,
            since,
            until,
        ) == picks,
{
    let one = seq![r];
    assert(one.drop_first() =~= Seq::<RowView>::empty());
    assert(one[0] == r);
    assert(offer_rows(picks, one.drop_first(), top, since, until) == picks);
    assert(offer_rows(picks.push(r), one.drop_first(), top, since, until) == picks.push(r));
}

/// Nothing in the window is passed over while there is room: if fewer than
/// `top` games are picked after a page, every row of the page that lies in
/// the year window (both ends included) has its game picked; and every new
/// pick is a row of the page.
pub proof fn lemma_offer_rows_complete(
    picks: Seq<RowView>,
    rows: Seq<RowView>,
    top: nat,
    since: u16,
    until: u16,
)
    ensures
        offer_rows(picks, rows, top, since, until).len() < top ==> forall|i: int|
            0 <= i < rows.len() && since <= (#[trigger] rows[i]).year <= until ==> has_pick(
                offer_rows(picks, rows, top, since, until),
                rows[i].id,
            ),
        forall|j: int|
            picks.len() <= j < offer_rows(picks, rows, top, since, until).len() ==> exists|i: int|
                0 <= i < rows.len() && rows[i] == #[trigger] offer_rows(picks, rows, top, since, until)[j],
    decreases rows.len(),
{
    lemma_offer_rows_prefix(picks, rows, top, since, until);
    let out = offer_rows(picks, rows, top, since, until);
    if rows.len() > 0 {
        let r = rows[0];
        let rest = rows.drop_first();
        if r.year < since || r.year > until || has_pick(picks, r.id) {
            lemma_offer_rows_complete(picks, rest, top, since, until);
            if out.len() < top {
                assert forall|i: int| 0 <= i < rows.len() && since <= (#[trigger] rows[i]).year <= until
                    implies has_pick(out, rows[i].id) by {
                    if i == 0 {
                        let j = choose|j: int| 0 <= j < picks.len() && (#[trigger] picks[j]).id == r.id;
                        assert(out.take(picks.len() as int)[j] == picks[j]);
                        assert(out[j] == picks[j]);
                    } else {
                        assert(rows[i] == rest[i - 1]);
                    }
                }
            }
        } else if picks.len() + 1 >= top {
        } else {
            let p2 = picks.push(r);
            lemma_offer_rows_complete(p2, rest, top, since, until);
            lemma_offer_rows_prefix(p2, rest, top, since, until);
            if out.len() < top {
                assert forall|i: int| 0 <= i < rows.len() && since <= (#[trigger] rows[i]).year <= until
                    implies has_pick(out, rows[i].id) by {
                    if i == 0 {
                        let k = picks.len() as int;
                        assert(out.take(p2.len() as int)[k] == p2[k]);
                        assert(out[k] == r);
                    } else {
                        assert(rows[i] == rest[i - 1]);
                    }
                }
            }
        }
    }
}

/// A page never takes the picks past `top` when there was room.
pub proof fn lemma_offer_rows_bounded(picks: Seq<RowView>, rows: Seq<RowView>, top: nat, since: u16, until: u16)
    requires
        picks.len() < top,
    ensures
        offer_rows(picks, rows, top, since, until).len() <= top,
    decreases rows.len(),
{
    if rows.len() > 0 {
        let r = rows[0];
        if r.year < since || r.year > until || has_pick(picks, r.id) {
            lemma_offer_rows_bounded(picks, rows.drop_first(), top, since, until);
        } else if picks.len() + 1 >= top {
        } else {
            lemma_offer_rows_bounded(picks.push(r), rows.drop_first(), top, since, until);
        }
    }
}

/// The games picked so far for the report.
pub struct Picker {
    picks: Vec<BrowseRow>,
    top: usize,
    since: u16,
    until: u16,
}

impl Picker {
    pub closed spec fn picked(&self) -> Seq<RowView> {
        self.picks@.map_values(|x: BrowseRow| x.view())
    }

    pub closed spec fn wanted(&self) -> nat {
        self.top as nat
    }

    pub closed spec fn window(&self) -> (u16, u16) {
        (self.since, self.until)
    }

    /// No picks yet; `top` games wanted from the years `since..=until`.
    pub fn new(top: usize, since: u16, until: u16) -> (r: Picker)
        ensures
            r.picked() == Seq::<RowView>::empty(),
            r.wanted() == top,
            r.window() == (since, until),
    {
        let p = Picker { picks: Vec::new(), top, since, until };
        assert(p.picked() =~= Seq::<RowView>::empty());
        p
    }

    fn picked_id(&self, id: &str) -> (r: bool)
        ensures
            r == has_pick(self.picked(), id@),
    {
        let n = self.picks.len();
        let want = chars_of(id);
        for i in 0..n
            invariant
                n == self.picks@.len(),
                want@ == id@,
                forall|j: int| 0 <= j < i ==> (#[trigger] self.picked()[j]).id != want@,
        {
            let have = chars_of(self.picks[i].id.as_str());
            if crate::text::chars_eq(have.as_slice(), want.as_slice()) {
                assert(self.picked()[i as int].id == want@);
                return true;
            }
        }
        false
    }

    /// Goes through the rows of one browse page.
    pub fn offer_page(&mut self, rows: Vec<BrowseRow>)
        ensures
            final(self).wanted() == old(self).wanted(),
            final(self).window() == old(self).window(),
            final(self).picked() == offer_rows(
                old(self).picked(),
                rows@.map_values(|x: BrowseRow| x.view()),
                old(self).wanted(),
                old(self).window().0,
                old(self).window().1,
            ),
    {
        let ghost all = rows@.map_values(|x: BrowseRow| x.view());
        let ghost start = self.picked();
        let mut rest = rows;
        let mut k: usize = 0;
        let n = rest.len();
        assert(all.skip(0) =~= all);
        while rest.len() > 0
            invariant
                n == all.len(),
                all == rows@.map_values(|x: BrowseRow| x.view()),
                start == old(self).picked(),
                k + rest@.len() == n,
                rest@.map_values(|x: BrowseRow| x.view()) == all.skip(k as int),
                self.wanted() == old(self).wanted(),
                self.window() == old(self).window(),
                offer_rows(self.picked(), all.skip(k as int), self.wanted(), self.since, self.until)
                    == offer_rows(start, all, self.wanted(), self.since, self.until),
            decreases rest@.len(),
        {
            let r = rest.remove(0);
            let ghost rv = r.view();
            let ghost cur = all.skip(k as int);
            assert(all.skip(k as int)[0] == rv);
            assert(all.skip(k as int).drop_first() =~= all.skip(k + 1));
            assert(rest@.map_values(|x: BrowseRow| x.view()) =~= all.skip(k + 1));
            k = k + 1;
            if r.year < self.since || r.year > self.until {
                continue;
            }
            if self.picked_id(r.id.as_str()) {
                continue;
            }
            let ghost before = self.picked();
            self.picks.push(r);
            assert(self.picked() =~= before.push(rv));
            if self.picks.len() >= self.top {
                assert(offer_rows(before, cur, self.wanted(), self.since, self.until) == before.push(rv));
                return ;
            }
        }
    }

    /// The number of games picked so far.
    pub fn len(&self) -> (r: usize)
        ensures
            r == self.picked().len(),
    {
        self.picks.len()
    }

    /// Whether the wanted number of games has been picked.
    pub fn is_full(&self) -> (r: bool)
        ensures
            r == (self.picked().len() >= self.wanted()),
    {
        self.picks.len() >= self.top
    }

    /// The picked rows, in the order they were picked.
    pub fn into_picks(self) -> (r: Vec<BrowseRow>)
        ensures
            r@.map_values(|x: BrowseRow| x.view()) == self.picked(),
    {
        self.picks
    }
}

} // verus!

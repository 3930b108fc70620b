//! Match a game against the Board Game Arena catalog.
//!
//! The catalog is a TSV text, one `slug<TAB>display_name` row per line (as
//! written by the catalog scraper). Names are compared after normalisation
//! (lower case, `&` spelt `and`, everything but ASCII letters and digits
//! dropped), with a small alias table for known German/English title pairs.
use vstd::prelude::*;
use crate::bgg::Game;
use crate::text::{append_str, chars_eq, chars_of, is_alnum_char, is_ascii_alnum, is_ascii_digit, slice_chars, string_of, trim, trimmed};

verus! {

// ---------------------------------------------------------------------------
// Name normalisation
// ---------------------------------------------------------------------------

/// What `str::to_lowercase` returns for a string: its Unicode lower case.
pub uninterp spec fn lowercase(s: Seq<char>) -> Seq<char>;

/// `'A'..='Z'`
pub open spec fn is_ascii_upper(c: char) -> bool {
    'A' <= c && c <= 'Z'
}

/// `'a'..='z'` or `'0'..='9'`.
pub open spec fn is_lower_alnum(c: char) -> bool {
    ('a' <= c && c <= 'z') || is_ascii_digit(c)
}

/// An ASCII character (below 128).
pub open spec fn is_ascii_char(c: char) -> bool {
    (c as u32) < 128
}

/// A text made only of ASCII characters.
pub open spec fn is_ascii_text(s: Seq<char>) -> bool {
    forall|i: int| 0 <= i < s.len() ==> is_ascii_char(#[trigger] s[i])
}

/// An ASCII capital turned into its small letter; any other character as
/// it is.
pub open spec fn ascii_lower_char(c: char) -> char {
    if is_ascii_upper(c) {
        ((c as u32) + 32) as char
    } else {
        c
    }
}

/// An ASCII small letter turned into its capital; any other character as
/// it is.
pub open spec fn ascii_upper_char(c: char) -> char {
    if 'a' <= c && c <= 'z' {
        ((c as u32) - 32) as char
    } else {
        c
    }
}

/// `s.to_ascii_lowercase()`
pub open spec fn ascii_lowered(s: Seq<char>) -> Seq<char> {
    s.map_values(|c: char| ascii_lower_char(c))
}

/// `s.to_ascii_uppercase()`
pub open spec fn ascii_uppered(s: Seq<char>) -> Seq<char> {
    s.map_values(|c: char| ascii_upper_char(c))
}

/// `str::to_lowercase`: the lower case of `s` ("the lowercase equivalent of
/// this string slice", per Unicode's `Lowercase` property), a function of
/// `s` alone. Stated of it besides: the result holds no ASCII capital
/// letter, and on a text made only of ASCII characters it maps each capital
/// to its small letter and keeps every other character. Unicode's mapping
/// of the other characters is not stated.
#[verifier::external_body]
fn to_lowercase(s: &str) -> (r: String)
    ensures
        r@ == lowercase(s@),
        forall|i: int| 0 <= i < r@.len() ==> !is_ascii_upper(#[trigger] r@[i]),
        is_ascii_text(s@) ==> r@ == ascii_lowered(s@),
{
    s.to_lowercase()
}

/// What one character of an already lower-cased name turns into.
pub open spec fn fold_char(c: char) -> Seq<char> {
    if c == '&' {
        seq!['a', 'n', 'd']
    } else if is_ascii_alnum(c) {
        seq![c]
    } else {
        seq![]
    }
}

/// An already lower-cased name with `&` spelt `and` and all but ASCII
/// letters and digits removed.
pub open spec fn fold_name(s: Seq<char>) -> Seq<char>
    decreases s.len(),
{
    if s.len() == 0 {
        seq![]
    } else {
        fold_name(s.drop_last()) + fold_char(s.last())
    }
}

/// The normalised form of a game name.
pub open spec fn normalized(s: Seq<char>) -> Seq<char> {
    fold_name(lowercase(s))
}

/// Every character of a folded name is an ASCII letter or digit.
pub proof fn lemma_fold_name_alnum(s: Seq<char>)
    ensures
        forall|i: int| 0 <= i < fold_name(s).len() ==> is_ascii_alnum(#[trigger] fold_name(s)[i]),
    decreases s.len(),
{
    if s.len() > 0 {
        lemma_fold_name_alnum(s.drop_last());
        let p = fold_name(s.drop_last());
        let q = fold_char(s.last());
        assert forall|i: int| 0 <= i < fold_name(s).len() implies is_ascii_alnum(
            #[trigger] fold_name(s)[i],
        ) by {
            if i >= p.len() {
                assert(fold_name(s)[i] == q[i - p.len()]);
            } else {
                assert(fold_name(s)[i] == p[i]);
            }
        }
    }
}

/// Folding a name without ASCII capitals gives only ASCII small letters
/// and digits.
pub proof fn lemma_fold_name_lower(s: Seq<char>)
    requires
        forall|i: int| 0 <= i < s.len() ==> !is_ascii_upper(#[trigger] s[i]),
    ensures
        forall|i: int| 0 <= i < fold_name(s).len() ==> is_lower_alnum(#[trigger] fold_name(s)[i]),
    decreases s.len(),
{
    if s.len() > 0 {
        let d = s.drop_last();
        assert forall|i: int| 0 <= i < d.len() implies !is_ascii_upper(#[trigger] d[i]) by {
            assert(d[i] == s[i]);
        }
        lemma_fold_name_lower(d);
        let p = fold_name(d);
        let q = fold_char(s.last());
        assert(!is_ascii_upper(s[s.len() - 1]));
        assert forall|i: int| 0 <= i < fold_name(s).len() implies is_lower_alnum(
            #[trigger] fold_name(s)[i],
        ) by {
            if i >= p.len() {
                assert(fold_name(s)[i] == q[i - p.len()]);
            } else {
                assert(fold_name(s)[i] == p[i]);
            }
        }
    }
}

/// Folding a name made of ASCII letters and digits leaves it unchanged.
pub proof fn lemma_fold_name_alnum_fixed(s: Seq<char>)
    requires
        forall|i: int| 0 <= i < s.len() ==> is_ascii_alnum(#[trigger] s[i]),
    ensures
        fold_name(s) == s,
    decreases s.len(),
{
    if s.len() > 0 {
        lemma_fold_name_alnum_fixed(s.drop_last());
        assert(is_ascii_alnum(s[s.len() - 1]));
        assert(s.drop_last().push(s.last()) =~= s);
    }
}

/// Folding is idempotent: a folded name folds to itself.
pub proof fn lemma_fold_name_idempotent(s: Seq<char>)
    ensures
        fold_name(fold_name(s)) == fold_name(s),
{
    lemma_fold_name_alnum(s);
    lemma_fold_name_alnum_fixed(fold_name(s));
}

/// Folding works piece by piece: the fold of two texts joined is the two
/// folds joined.
pub proof fn lemma_fold_name_concat(a: Seq<char>, b: Seq<char>)
    ensures
        fold_name(a + b) == fold_name(a) + fold_name(b),
    decreases b.len(),
{
    if b.len() == 0 {
        assert(a + b =~= a);
    } else {
        lemma_fold_name_concat(a, b.drop_last());
        assert((a + b).drop_last() =~= a + b.drop_last());
        assert((a + b).last() == b.last());
    }
}

/// A normalised name holds only ASCII small letters and digits.
pub proof fn lemma_normalized_lower(s: Seq<char>, lowered: Seq<char>)
    requires
        lowered == lowercase(s),
        forall|i: int| 0 <= i < lowered.len() ==> !is_ascii_upper(#[trigger] lowered[i]),
    ensures
        forall|i: int| 0 <= i < normalized(s).len() ==> is_lower_alnum(#[trigger] normalized(s)[i]),
{
    lemma_fold_name_lower(lowered);
}

fn fold_chars(s: &[char]) -> (r: Vec<char>)
    ensures
        r@ == fold_name(s@),
{
    let n = s.len();
    let mut r: Vec<char> = Vec::new();
    for i in 0..n
        invariant
            n == s@.len(),
            r@ == fold_name(s@.take(i as int)),
    {
        let c = s[i];
        assert(s@.take(i + 1).drop_last() =~= s@.take(i as int));
        if c == '&' {
            r.push('a');
            r.push('n');
            r.push('d');
            assert(r@ =~= fold_name(s@.take(i + 1)));
        } else if is_alnum_char(c) {
            r.push(c);
            assert(r@ =~= fold_name(s@.take(i + 1)));
        } else {
            assert(r@ =~= fold_name(s@.take(i + 1)));
        }
    }
    assert(s@.take(n as int) =~= s@);
    r
}

/// The second stage of `normalize`: takes a name that was already lower
/// cased, spells `&` as `and` and keeps only ASCII letters and digits.
pub fn fold_lowered(lowered: &str) -> (r: String)
    ensures
        r@ == fold_name(lowered@),
{
    let cs = chars_of(lowered);
    let f = fold_chars(cs.as_slice());
    string_of(f.as_slice())
}

/// Normalises a game name: lower case, `&` spelt `and`, and only ASCII
/// small letters and digits kept. On an ASCII name the lower case is the
/// ASCII one; a name that is already made only of small letters and digits
/// comes back as it is, so normalising twice gives what normalising once
/// gave.
pub fn normalize(s: &str) -> (r: String)
    ensures
        r@ == normalized(s@),
        forall|i: int| 0 <= i < r@.len() ==> is_lower_alnum(#[trigger] r@[i]),
        is_ascii_text(s@) ==> r@ == fold_name(ascii_lowered(s@)),
        (forall|i: int| 0 <= i < s@.len() ==> is_lower_alnum(#[trigger] s@[i])) ==> r@ == s@,
{
    let low = to_lowercase(s);
    proof {
        lemma_normalized_lower(s@, low@);
        if forall|i: int| 0 <= i < s@.len() ==> is_lower_alnum(#[trigger] s@[i]) {
            assert forall|i: int| 0 <= i < s@.len() implies is_ascii_char(#[trigger] s@[i]) by {
                assert(is_lower_alnum(s@[i]));
            }
            assert(low@ =~= s@) by {
                assert forall|i: int| 0 <= i < s@.len() implies low@[i] == s@[i] by {
                    assert(is_lower_alnum(s@[i]));
                    assert(ascii_lowered(s@)[i] == ascii_lower_char(s@[i]));
                }
            }
            assert forall|i: int| 0 <= i < low@.len() implies is_ascii_alnum(#[trigger] low@[i]) by {
                assert(is_lower_alnum(s@[i]));
            }
            lemma_fold_name_alnum_fixed(low@);
        }
    }
    fold_lowered(low.as_str())
}

/// On ASCII text, normalising works piece by piece: the normalised form of
/// two texts joined is the two normalised forms joined.
pub proof fn lemma_ascii_normalized_concat(a: Seq<char>, b: Seq<char>)
    ensures
        is_ascii_text(a) && is_ascii_text(b) ==> is_ascii_text(a + b),
        fold_name(ascii_lowered(a + b)) == fold_name(ascii_lowered(a)) + fold_name(ascii_lowered(b)),
{
    if is_ascii_text(a) && is_ascii_text(b) {
        assert forall|i: int| 0 <= i < (a + b).len() implies is_ascii_char(#[trigger] (a + b)[i]) by {
            if i < a.len() {
                assert((a + b)[i] == a[i]);
            } else {
                assert((a + b)[i] == b[i - a.len()]);
            }
        }
    }
    assert(ascii_lowered(a + b) =~= ascii_lowered(a) + ascii_lowered(b));
    lemma_fold_name_concat(ascii_lowered(a), ascii_lowered(b));
}

/// On ASCII text, normalising ignores case: upper-casing the ASCII letters
/// first leaves the text ASCII and changes nothing of its normalised form.
pub proof fn lemma_ascii_normalized_case(s: Seq<char>)
    ensures
        is_ascii_text(s) ==> is_ascii_text(ascii_uppered(s)),
        fold_name(ascii_lowered(ascii_uppered(s))) == fold_name(ascii_lowered(s)),
{
    if is_ascii_text(s) {
        assert forall|i: int| 0 <= i < ascii_uppered(s).len() implies is_ascii_char(
            #[trigger] ascii_uppered(s)[i],
        ) by {
            assert(is_ascii_char(s[i]));
        }
    }
    assert(ascii_lowered(ascii_uppered(s)) =~= ascii_lowered(s)) by {
        assert forall|i: int| 0 <= i < s.len() implies ascii_lowered(ascii_uppered(s))[i]
            == ascii_lowered(s)[i] by {
            let c = s[i];
            assert(ascii_uppered(s)[i] == ascii_upper_char(c));
        }
    }
}

fn normalized_chars(s: &str) -> (r: Vec<char>)
    ensures
        r@ == normalized(s@),
{
    let n = normalize(s);
    chars_of(n.as_str())
}

// ---------------------------------------------------------------------------
// Keyed tables
// ---------------------------------------------------------------------------

/// One entry of a lookup table: a key and the catalog row it leads to.
struct Row {
    key: Vec<char>,
    slug: String,
    name: String,
}

spec fn row_val(r: Row) -> (Seq<char>, Seq<char>) {
    (r.slug@, r.name@)
}

/// The map that inserting the rows one after another into an empty map gives.
spec fn rows_map(rows: Seq<Row>) -> Map<Seq<char>, (Seq<char>, Seq<char>)>
    decreases rows.len(),
{
    if rows.len() == 0 {
        Map::empty()
    } else {
        rows_map(rows.drop_last()).insert(rows.last().key@, row_val(rows.last()))
    }
}

spec fn distinct_keys(rows: Seq<Row>) -> bool {
    forall|i: int, j: int| 0 <= i < j < rows.len() ==> rows[i].key@ != rows[j].key@
}

proof fn lemma_rows_map_contains(rows: Seq<Row>, k: Seq<char>)
    ensures
        rows_map(rows).dom().contains(k) <==> exists|i: int|
            0 <= i < rows.len() && #[trigger] rows[i].key@ == k,
    decreases rows.len(),
{
    if rows.len() > 0 {
        lemma_rows_map_contains(rows.drop_last(), k);
        if rows_map(rows).dom().contains(k) {
            if k != rows.last().key@ {
                let i = choose|i: int| 0 <= i < rows.len() - 1 && #[trigger] rows.drop_last()[i].key@ == k;
                assert(rows[i].key@ == k);
            } else {
                assert(rows[rows.len() - 1].key@ == k);
            }
        }
        if exists|i: int| 0 <= i < rows.len() && #[trigger] rows[i].key@ == k {
            let i = choose|i: int| 0 <= i < rows.len() && #[trigger] rows[i].key@ == k;
            if i < rows.len() - 1 {
                assert(rows.drop_last()[i].key@ == k);
            }
        }
    }
}

proof fn lemma_rows_map_value(rows: Seq<Row>, j: int)
    requires
        distinct_keys(rows),
        0 <= j < rows.len(),
    ensures
        rows_map(rows).dom().contains(rows[j].key@),
        rows_map(rows)[rows[j].key@] == row_val(rows[j]),
    decreases rows.len(),
{
    if j < rows.len() - 1 {
        assert(rows.drop_last()[j] == rows[j]);
        lemma_rows_map_value(rows.drop_last(), j);
        assert(rows[j].key@ != rows[rows.len() - 1].key@);
    }
}

proof fn lemma_rows_map_update(rows: Seq<Row>, j: int, r: Row)
    requires
        distinct_keys(rows),
        0 <= j < rows.len(),
        r.key@ == rows[j].key@,
    ensures
        rows_map(rows.update(j, r)) == rows_map(rows).insert(r.key@, row_val(r)),
    decreases rows.len(),
{
    let n = rows.len();
    if j == n - 1 {
        assert(rows.update(j, r).drop_last() =~= rows.drop_last());
        assert(rows_map(rows.update(j, r)) =~= rows_map(rows).insert(r.key@, row_val(r)));
    } else {
        assert(rows.update(j, r).drop_last() =~= rows.drop_last().update(j, r));
        assert(rows.drop_last()[j] == rows[j]);
        lemma_rows_map_update(rows.drop_last(), j, r);
        assert(rows[j].key@ != rows[n - 1].key@);
        assert(rows.update(j, r).last() == rows.last());
        assert(rows_map(rows.update(j, r)) =~= rows_map(rows).insert(r.key@, row_val(r)));
    }
}

proof fn lemma_rows_map_len(rows: Seq<Row>)
    requires
        distinct_keys(rows),
    ensures
        rows_map(rows).dom().finite(),
        rows_map(rows).len() == rows.len(),
    decreases rows.len(),
{
    if rows.len() > 0 {
        let n = rows.len();
        lemma_rows_map_len(rows.drop_last());
        lemma_rows_map_contains(rows.drop_last(), rows.last().key@);
        if rows_map(rows.drop_last()).dom().contains(rows.last().key@) {
            let i = choose|i: int| 0 <= i < n - 1 && #[trigger] rows.drop_last()[i].key@ == rows.last().key@;
            assert(rows[i].key@ == rows[n - 1].key@);
        }
    }
}

fn find_row(rows: &Vec<Row>, key: &[char]) -> (r: Option<usize>)
    ensures
        match r {
            Some(j) => j < rows@.len() && rows@[j as int].key@ == key@,
            None => forall|i: int| 0 <= i < rows@.len() ==> #[trigger] rows@[i].key@ != key@,
        },
{
    let n = rows.len();
    for i in 0..n
        invariant
            n == rows@.len(),
            forall|k: int| 0 <= k < i ==> #[trigger] rows@[k].key@ != key@,
    {
        if chars_eq(rows[i].key.as_slice(), key) {
            return Some(i);
        }
    }
    None
}

/// Inserts a row, replacing the row with the same key if there is one
/// (`HashMap::insert`).
fn insert_row(rows: &mut Vec<Row>, row: Row)
    requires
        distinct_keys(old(rows)@),
    ensures
        distinct_keys(final(rows)@),
        rows_map(final(rows)@) == rows_map(old(rows)@).insert(row.key@, row_val(row)),
{
    match find_row(rows, row.key.as_slice()) {
        Some(j) => {
            proof {
                lemma_rows_map_update(rows@, j as int, row);
            }
            let ghost prev = rows@;
            rows.set(j, row);
            assert(rows@ == prev.update(j as int, row));
        },
        None => {
            let ghost prev = rows@;
            rows.push(row);
            assert(rows@.drop_last() =~= prev);
        },
    }
}

/// Looks a key up in a table.
fn get_row(rows: &Vec<Row>, key: &[char]) -> (r: Option<usize>)
    requires
        distinct_keys(rows@),
    ensures
        match r {
            Some(j) => j < rows@.len() && rows_map(rows@).dom().contains(key@) && rows_map(rows@)[key@]
                == row_val(rows@[j as int]),
            None => !rows_map(rows@).dom().contains(key@),
        },
{
    let r = find_row(rows, key);
    proof {
        lemma_rows_map_contains(rows@, key@);
        if let Some(j) = r {
            lemma_rows_map_value(rows@, j as int);
        }
    }
    r
}

// ---------------------------------------------------------------------------
// The catalog text
// ---------------------------------------------------------------------------

/// A text cut at each `'\n'` (the pieces between line breaks, the last one
/// possibly empty).
pub open spec fn split_lines(s: Seq<char>) -> Seq<Seq<char>>
    decreases s.len(),
{
    if s.len() == 0 {
        seq![seq![]]
    } else {
        let p = split_lines(s.drop_last());
        if s.last() == '\n' {
            p.push(seq![])
        } else {
            p.drop_last().push(p.last().push(s.last()))
        }
    }
}

/// A line cut at its first tab, as `line.splitn(2, '\t')`: what comes before
/// the tab (the whole line if there is none), and what follows it (empty if
/// there is no tab).
pub open spec fn tab_split(line: Seq<char>) -> (Seq<char>, Seq<char>)
    decreases line.len(),
{
    if line.len() == 0 {
        (seq![], seq![])
    } else if line[0] == '\t' {
        (seq![], line.drop_first())
    } else {
        let p = tab_split(line.drop_first());
        (seq![line[0]] + p.0, p.1)
    }
}

/// The slug and display name of a catalog line, trimmed.
pub open spec fn line_fields(line: Seq<char>) -> (Seq<char>, Seq<char>) {
    (trimmed(tab_split(line).0), trimmed(tab_split(line).1))
}

/// The two lookup maps of a catalog, keyed by normalised display name and
/// by slug; each leads to `(slug, display_name)`.
pub struct CatalogMaps {
    pub by_norm: Map<Seq<char>, (Seq<char>, Seq<char>)>,
    pub by_slug: Map<Seq<char>, (Seq<char>, Seq<char>)>,
}

/// The maps after reading one more catalog line: a line with an empty slug
/// is skipped; otherwise the slug maps to the row, and so does the
/// normalised display name if the name is not empty.
pub open spec fn add_line(maps: CatalogMaps, line: Seq<char>) -> CatalogMaps {
    let slug = line_fields(line).0;
    let name = line_fields(line).1;
    if slug.len() == 0 {
        maps
    } else {
        CatalogMaps {
            by_norm: if name.len() > 0 {
                maps.by_norm.insert(normalized(name), (slug, name))
            } else {
                maps.by_norm
            },
            by_slug: maps.by_slug.insert(slug, (slug, name)),
        }
    }
}

/// The maps that reading the lines in order gives.
pub open spec fn catalog_of_lines(lines: Seq<Seq<char>>) -> CatalogMaps
    decreases lines.len(),
{
    if lines.len() == 0 {
        CatalogMaps { by_norm: Map::empty(), by_slug: Map::empty() }
    } else {
        add_line(catalog_of_lines(lines.drop_last()), lines.last())
    }
}

/// The maps of a catalog text.
pub open spec fn catalog_of(raw: Seq<char>) -> CatalogMaps {
    catalog_of_lines(split_lines(raw))
}

/// Where the first tab of a line is, the line splits.
pub proof fn lemma_tab_split(line: Seq<char>, t: int)
    requires
        0 <= t <= line.len(),
        forall|j: int| 0 <= j < t ==> line[j] != '\t',
        t < line.len() ==> line[t] == '\t',
    ensures
        tab_split(line).0 == line.take(t),
        tab_split(line).1 == if t < line.len() {
            line.skip(t + 1)
        } else {
            seq![]
        },
    decreases t,
{
    if line.len() == 0 {
        assert(line.take(t) =~= seq![]);
    } else if t == 0 {
        assert(line.take(t) =~= seq![]);
        assert(line.skip(1) =~= line.drop_first());
    } else {
        let rest = line.drop_first();
        lemma_tab_split(rest, t - 1);
        assert(seq![line[0]] + rest.take(t - 1) =~= line.take(t));
        if t < line.len() {
            assert(rest.skip(t) =~= line.skip(t + 1));
        }
    }
}

/// The trimmed slug and display name of one catalog line.
fn read_line_fields(line: &[char]) -> (r: (Vec<char>, Vec<char>))
    ensures
        r.0@ == line_fields(line@).0,
        r.1@ == line_fields(line@).1,
{
    let n = line.len();
    let mut t: usize = 0;
    while t < n && line[t] != '\t'
        invariant
            t <= n,
            n == line@.len(),
            forall|j: int| 0 <= j < t ==> line@[j] != '\t',
        decreases n - t,
    {
        t = t + 1;
    }
    proof {
        lemma_tab_split(line@, t as int);
    }
    let first = slice_chars(line, 0, t);
    let second = if t < n {
        slice_chars(line, t + 1, n)
    } else {
        Vec::new()
    };
    assert(line@.subrange(0, t as int) =~= line@.take(t as int));
    if t < n {
        assert(line@.subrange(t + 1, n as int) =~= line@.skip(t + 1));
    }
    assert(second@ == tab_split(line@).1);
    (trim(first.as_slice()), trim(second.as_slice()))
}

/// Whether a value of a catalog map is the row of one of the lines.
pub open spec fn is_row_of(lines: Seq<Seq<char>>, v: (Seq<char>, Seq<char>)) -> bool {
    exists|i: int| 0 <= i < lines.len() && line_fields(#[trigger] lines[i]) == v
}

/// Whether the catalog maps are consistent: slugs lead to rows with that
/// slug, normalised names lead to rows whose display name normalises to
/// them, and every value is the (non-empty) slug and name of a line.
pub open spec fn maps_consistent(maps: CatalogMaps, lines: Seq<Seq<char>>) -> bool {
    &&& forall|k: Seq<char>| #[trigger]
        maps.by_slug.dom().contains(k) ==> maps.by_slug[k].0 == k && k.len() > 0 && is_row_of(
            lines,
            maps.by_slug[k],
        )
    &&& forall|k: Seq<char>| #[trigger]
        maps.by_norm.dom().contains(k) ==> k == normalized(maps.by_norm[k].1)
            && maps.by_norm[k].0.len() > 0 && maps.by_norm[k].1.len() > 0 && is_row_of(
            lines,
            maps.by_norm[k],
        )
}

proof fn lemma_catalog_lines_consistent(lines: Seq<Seq<char>>)
    ensures
        maps_consistent(catalog_of_lines(lines), lines),
    decreases lines.len(),
{
    if lines.len() > 0 {
        let prev = lines.drop_last();
        lemma_catalog_lines_consistent(prev);
        let m0 = catalog_of_lines(prev);
        let m = catalog_of_lines(lines);
        let last = lines.last();
        assert(line_fields(lines[lines.len() - 1]) == line_fields(last));
        assert forall|v: (Seq<char>, Seq<char>)| is_row_of(prev, v) implies is_row_of(lines, v) by {
            let i = choose|i: int| 0 <= i < prev.len() && line_fields(#[trigger] prev[i]) == v;
            assert(lines[i] == prev[i]);
        }
    }
}

proof fn lemma_catalog_lines_keep_names(lines: Seq<Seq<char>>, i: int)
    requires
        0 <= i < lines.len(),
        line_fields(lines[i]).0.len() > 0,
        line_fields(lines[i]).1.len() > 0,
    ensures
        catalog_of_lines(lines).by_norm.dom().contains(normalized(line_fields(lines[i]).1)),
    decreases lines.len(),
{
    if i < lines.len() - 1 {
        assert(lines.drop_last()[i] == lines[i]);
        lemma_catalog_lines_keep_names(lines.drop_last(), i);
    }
}

/// Of any catalog text: every slug leads to a row with that slug, every
/// normalised name leads to a row whose display name normalises to it, and
/// every row that the maps hold is the trimmed slug and display name of a
/// line of the text, both non-empty for the name map.
pub proof fn lemma_catalog_consistent(raw: Seq<char>)
    ensures
        maps_consistent(catalog_of(raw), split_lines(raw)),
{
    lemma_catalog_lines_consistent(split_lines(raw));
}

/// A lookup only ever answers with a row of the catalog text.
pub proof fn lemma_lookup_answers_catalog_rows(raw: Seq<char>, name: Seq<char>)
    ensures
        lookup_in(catalog_of(raw), name) matches Some(p) ==> is_row_of(split_lines(raw), p)
            && p.0.len() > 0,
{
    lemma_catalog_consistent(raw);
}

/// Every game of the catalog whose line has a slug and a display name is
/// found when looked up by that display name.
pub proof fn lemma_catalog_games_found(raw: Seq<char>, i: int)
    requires
        0 <= i < split_lines(raw).len(),
        line_fields(split_lines(raw)[i]).0.len() > 0,
        line_fields(split_lines(raw)[i]).1.len() > 0,
    ensures
        lookup_in(catalog_of(raw), line_fields(split_lines(raw)[i]).1) is Some,
{
    lemma_catalog_lines_keep_names(split_lines(raw), i);
}

// ---------------------------------------------------------------------------
// The index
// ---------------------------------------------------------------------------

/// The alias table: normalised names of games that Board Game Arena lists
/// under another title, and the slug they are listed under.
pub open spec fn alias_of(n: Seq<char>) -> Option<Seq<char>> {
    if n == seq!['d', 'i', 'a', 'm', 'a', 'n', 't'] {
        Some(seq!['i', 'n', 'c', 'a', 'n', 'g', 'o', 'l', 'd'])
    } else if n == seq!['t', 'a', 'k', 'e', '5'] {
        Some(seq!['s', 'e', 'c', 'h', 's', 'n', 'i', 'm', 'm', 't'])
    } else {
        None
    }
}

fn alias_target(n: &[char]) -> (r: Option<Vec<char>>)
    ensures
        match r {
            Some(t) => alias_of(n@) == Some(t@),
            None => alias_of(n@) is None,
        },
{
    let diamant = vec!['d', 'i', 'a', 'm', 'a', 'n', 't'];
    let take5 = vec!['t', 'a', 'k', 'e', '5'];
    if chars_eq(n, diamant.as_slice()) {
        let t = vec!['i', 'n', 'c', 'a', 'n', 'g', 'o', 'l', 'd'];
        assert(t@ =~= seq!['i', 'n', 'c', 'a', 'n', 'g', 'o', 'l', 'd']);
        Some(t)
    } else if chars_eq(n, take5.as_slice()) {
        let t = vec!['s', 'e', 'c', 'h', 's', 'n', 'i', 'm', 'm', 't'];
        assert(t@ =~= seq!['s', 'e', 'c', 'h', 's', 'n', 'i', 'm', 'm', 't']);
        Some(t)
    } else {
        assert(diamant@ =~= seq!['d', 'i', 'a', 'm', 'a', 'n', 't']);
        assert(take5@ =~= seq!['t', 'a', 'k', 'e', '5']);
        None
    }
}

/// What looking a game name up in the catalog maps gives: the alias target
/// if the normalised name has an alias listed by slug, else the entry with
/// that normalised display name, else the entry whose slug is the
/// normalised name, else nothing.
pub open spec fn lookup_in(maps: CatalogMaps, name: Seq<char>) -> Option<(Seq<char>, Seq<char>)> {
    let n = normalized(name);
    if alias_of(n) is Some && maps.by_slug.dom().contains(alias_of(n)->0) {
        Some(maps.by_slug[alias_of(n)->0])
    } else if maps.by_norm.dom().contains(n) {
        Some(maps.by_norm[n])
    } else if maps.by_slug.dom().contains(n) {
        Some(maps.by_slug[n])
    } else {
        None
    }
}

/// The Board Game Arena catalog, indexed for name lookup.
pub struct BgaIndex {
    by_norm: Vec<Row>,
    by_slug: Vec<Row>,
}

impl BgaIndex {
    #[verifier::type_invariant]
    spec fn tables_distinct(self) -> bool {
        &&& distinct_keys(self.by_norm@)
        &&& distinct_keys(self.by_slug@)
    }

    /// The index's two maps.
    pub closed spec fn maps(self) -> CatalogMaps {
        CatalogMaps { by_norm: rows_map(self.by_norm@), by_slug: rows_map(self.by_slug@) }
    }

    /// Builds the index from the catalog text (`slug<TAB>display_name` per
    /// line).
    pub fn from_tsv(raw: &str) -> (r: BgaIndex)
        ensures
            r.maps() == catalog_of(raw@),
    {
        let cs = chars_of(raw);
        let n = cs.len();
        let mut by_norm: Vec<Row> = Vec::new();
        let mut by_slug: Vec<Row> = Vec::new();
        let mut cur: Vec<char> = Vec::new();
        let ghost mut done: Seq<Seq<char>> = seq![];
        assert(cs@.take(0) =~= seq![]);
        for i in 0..n
            invariant
                n == cs@.len(),
                cs@ == raw@,
                split_lines(cs@.take(i as int)) == done.push(cur@),
                distinct_keys(by_norm@),
                distinct_keys(by_slug@),
                (CatalogMaps { by_norm: rows_map(by_norm@), by_slug: rows_map(by_slug@) })
                    == catalog_of_lines(done),
        {
            let c = cs[i];
            assert(cs@.take(i + 1).drop_last() =~= cs@.take(i as int));
            if c == '\n' {
                Self::add_row(&mut by_norm, &mut by_slug, cur.as_slice());
                proof {
                    assert(done.push(cur@).drop_last() =~= done);
                    done = done.push(cur@);
                    assert(split_lines(cs@.take(i + 1)) =~= done.push(seq![]));
                }
                cur = Vec::new();
            } else {
                cur.push(c);
                assert(split_lines(cs@.take(i + 1)) =~= done.push(cur@));
            }
        }
        Self::add_row(&mut by_norm, &mut by_slug, cur.as_slice());
        proof {
            assert(cs@.take(n as int) =~= cs@);
            assert(done.push(cur@).drop_last() =~= done);
        }
        BgaIndex { by_norm, by_slug }
    }

    /// Reads one catalog line into the two tables.
    fn add_row(by_norm: &mut Vec<Row>, by_slug: &mut Vec<Row>, line: &[char])
        requires
            distinct_keys(old(by_norm)@),
            distinct_keys(old(by_slug)@),
        ensures
            distinct_keys(final(by_norm)@),
            distinct_keys(final(by_slug)@),
            (CatalogMaps { by_norm: rows_map(final(by_norm)@), by_slug: rows_map(final(by_slug)@) })
                == add_line(
                CatalogMaps { by_norm: rows_map(old(by_norm)@), by_slug: rows_map(old(by_slug)@) },
                line@,
            ),
    {
        let (slug, name) = read_line_fields(line);
        if slug.len() == 0 {
            return ;
        }
        let slug_s = string_of(slug.as_slice());
        let name_s = string_of(name.as_slice());
        if name.len() > 0 {
            let key = normalized_chars(name_s.as_str());
            let row = Row { key, slug: string_of(slug.as_slice()), name: string_of(name.as_slice()) };
            insert_row(by_norm, row);
        }
        let row = Row { key: slug, slug: slug_s, name: name_s };
        insert_row(by_slug, row);
    }

    /// The number of distinct slugs in the catalog.
    pub fn len(&self) -> (r: usize)
        ensures
            r == self.maps().by_slug.len(),
    {
        proof {
            use_type_invariant(self);
            lemma_rows_map_len(self.by_slug@);
        }
        self.by_slug.len()
    }

    /// The number of distinct normalised display names in the catalog.
    pub fn name_count(&self) -> (r: usize)
        ensures
            r == self.maps().by_norm.len(),
    {
        proof {
            use_type_invariant(self);
            lemma_rows_map_len(self.by_norm@);
        }
        self.by_norm.len()
    }

    /// Returns `(slug, display_name)` if the game is on Board Game Arena.
    pub fn lookup(&self, name: &str) -> (r: Option<(&str, &str)>)
        ensures
            match r {
                Some(p) => lookup_in(self.maps(), name@) == Some((p.0@, p.1@)),
                None => lookup_in(self.maps(), name@) is None,
            },
    {
        proof {
            use_type_invariant(self);
        }
        let n = normalized_chars(name);
        if let Some(target) = alias_target(n.as_slice()) {
            if let Some(j) = get_row(&self.by_slug, target.as_slice()) {
                return Some((self.by_slug[j].slug.as_str(), self.by_slug[j].name.as_str()));
            }
        }
        if let Some(j) = get_row(&self.by_norm, n.as_slice()) {
            return Some((self.by_norm[j].slug.as_str(), self.by_norm[j].name.as_str()));
        }
        if let Some(j) = get_row(&self.by_slug, n.as_slice()) {
            return Some((self.by_slug[j].slug.as_str(), self.by_slug[j].name.as_str()));
        }
        None
    }
}

// ---------------------------------------------------------------------------
// Tagging games
// ---------------------------------------------------------------------------

/// The Board Game Arena page of a game.
pub open spec fn gamepanel_url(slug: Seq<char>) -> Seq<char> {
    "https://boardgamearena.com/gamepanel?game="@ + slug
}

pub fn gamepanel_link(slug: &str) -> (r: String)
    ensures
        r@ == gamepanel_url(slug@),
{
    let mut out = chars_of("https://boardgamearena.com/gamepanel?game=");
    append_str(&mut out, slug);
    string_of(out.as_slice())
}

/// `b` is `a` with possibly other Board Game Arena fields, link and name.
pub open spec fn same_record(a: Game, b: Game) -> bool {
    &&& b.id == a.id
    &&& b.year == a.year
    &&& b.image == a.image
    &&& b.min_players == a.min_players
    &&& b.max_players == a.max_players
    &&& b.min_playtime == a.min_playtime
    &&& b.max_playtime == a.max_playtime
    &&& b.min_age == a.min_age
    &&& b.rating == a.rating
    &&& b.users_rated == a.users_rated
    &&& b.rank == a.rank
    &&& b.owned == a.owned
    &&& b.weight == a.weight
    &&& b.short_description == a.short_description
}

/// `h` is `g` tagged from the catalog: if the game is found, it gets the
/// gamepanel link, and Board Game Arena's name when that differs from the
/// game's own; otherwise it is unchanged.
pub open spec fn tagged(maps: CatalogMaps, g: Game, h: Game) -> bool {
    &&& same_record(g, h)
    &&& h.name == g.name
    &&& h.href == g.href
    &&& match lookup_in(maps, g.name@) {
        Some(p) => {
            &&& crate::bgg::opt_view(h.bga_url) == Some(gamepanel_url(p.0))
            &&& crate::bgg::opt_view(h.bga_name) == if p.1 != g.name@ {
                Some(p.1)
            } else {
                crate::bgg::opt_view(g.bga_name)
            }
        },
        None => h.bga_url == g.bga_url && h.bga_name == g.bga_name,
    }
}

/// The number of games the catalog lists.
pub open spec fn count_found(maps: CatalogMaps, games: Seq<Game>) -> nat
    decreases games.len(),
{
    if games.len() == 0 {
        0
    } else {
        count_found(maps, games.drop_last()) + if lookup_in(maps, games.last().name@) is Some {
            1nat
        } else {
            0nat
        }
    }
}

/// `out` is `pool` kept to the games that the catalog lists, each pointed at
/// its Board Game Arena page, its name followed by ` (BGA: <name>)` when
/// Board Game Arena's name normalises differently.
pub open spec fn playable(maps: CatalogMaps, pool: Seq<Game>, out: Seq<Game>) -> bool
    decreases pool.len(),
{
    if pool.len() == 0 {
        out.len() == 0
    } else {
        let g = pool.last();
        match lookup_in(maps, g.name@) {
            Some(p) => {
                &&& out.len() > 0
                &&& playable(maps, pool.drop_last(), out.drop_last())
                &&& same_record(g, out.last())
                &&& out.last().bga_url == g.bga_url
                &&& out.last().bga_name == g.bga_name
                &&& out.last().href@ == gamepanel_url(p.0)
                &&& out.last().name@ == if normalized(p.1) != normalized(g.name@) {
                    g.name@ + " (BGA: "@ + p.1 + ")"@
                } else {
                    g.name@
                }
            },
            None => playable(maps, pool.drop_last(), out),
        }
    }
}

impl BgaIndex {
    /// Tags each game that the catalog lists with its gamepanel link (and
    /// Board Game Arena's name where it differs); returns the games and how
    /// many were found.
    pub fn tag_games(&self, games: Vec<Game>) -> (r: (Vec<Game>, usize))
        ensures
            r.0@.len() == games@.len(),
            forall|p: int| 0 <= p < games@.len() ==> tagged(self.maps(), games@[p], #[trigger] r.0@[p]),
            r.1 == count_found(self.maps(), games@),
    {
        let ghost orig = games@;
        let n = games.len();
        let mut rest = games;
        let mut out: Vec<Game> = Vec::new();
        let mut hits: usize = 0;
        let mut k: usize = 0;
        assert(orig.skip(0) =~= orig);
        while rest.len() > 0
            invariant
                n == orig.len(),
                k + rest@.len() == n,
                rest@ == orig.skip(k as int),
                out@.len() == k,
                forall|p: int| 0 <= p < k ==> tagged(self.maps(), orig[p], #[trigger] out@[p]),
                hits == count_found(self.maps(), orig.take(k as int)),
                hits <= k,
            decreases rest@.len(),
        {
            let mut g = rest.remove(0);
            assert(g == orig[k as int]);
            assert(rest@ =~= orig.skip(k + 1));
            assert(orig.take(k + 1).drop_last() =~= orig.take(k as int));
            assert(orig.take(k + 1).last() == g);
            let ghost g0 = g;
            match self.lookup(g.name.as_str()) {
                Some((slug, dname)) => {
                    g.bga_url = Some(gamepanel_link(slug));
                    let dn = chars_of(dname);
                    let gn = chars_of(g.name.as_str());
                    if !chars_eq(dn.as_slice(), gn.as_slice()) {
                        g.bga_name = Some(string_of(dn.as_slice()));
                    }
                    hits = hits + 1;
                },
                None => {},
            }
            assert(tagged(self.maps(), g0, g));
            out.push(g);
            k = k + 1;
        }
        assert(orig.take(n as int) =~= orig);
        (out, hits)
    }

    /// Keeps the games that the catalog lists, each pointed at its Board
    /// Game Arena page and, where Board Game Arena's name normalises
    /// differently, renamed to `<name> (BGA: <bga name>)`.
    pub fn playable_on_bga(&self, pool: Vec<Game>) -> (r: Vec<Game>)
        ensures
            playable(self.maps(), pool@, r@),
    {
        let ghost orig = pool@;
        let n = pool.len();
        let mut rest = pool;
        let mut out: Vec<Game> = Vec::new();
        let mut k: usize = 0;
        assert(orig.skip(0) =~= orig);
        while rest.len() > 0
            invariant
                n == orig.len(),
                k + rest@.len() == n,
                rest@ == orig.skip(k as int),
                playable(self.maps(), orig.take(k as int), out@),
            decreases rest@.len(),
        {
            let mut g = rest.remove(0);
            assert(g == orig[k as int]);
            assert(rest@ =~= orig.skip(k + 1));
            assert(orig.take(k + 1).drop_last() =~= orig.take(k as int));
            assert(orig.take(k + 1).last() == g);
            let ghost g0 = g;
            let ghost prev = out@;
            match self.lookup(g.name.as_str()) {
                Some((slug, dname)) => {
                    g.href = gamepanel_link(slug);
                    let n_game = normalized_chars(g.name.as_str());
                    let n_bga = normalized_chars(dname);
                    if !chars_eq(n_bga.as_slice(), n_game.as_slice()) {
                        let mut nm = chars_of(g.name.as_str());
                        append_str(&mut nm, " (BGA: ");
                        append_str(&mut nm, dname);
                        append_str(&mut nm, ")");
                        g.name = string_of(nm.as_slice());
                    }
                    out.push(g);
                    assert(out@.drop_last() =~= prev);
                },
                None => {},
            }
            k = k + 1;
        }
        assert(orig.take(n as int) =~= orig);
        out
    }
}

} // verus!

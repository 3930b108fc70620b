//! Building the Board Game Arena catalog file from the game list scraped
//! off boardgamearena.com/gamelist: when to stop scrolling the lazily loaded
//! list, the `(slug, name)` entries its game links give, and the TSV text
//! (`slug<TAB>display_name` per line) they are saved as.
use vstd::prelude::*;
use crate::bga_match::{
    catalog_of, catalog_of_lines, lemma_tab_split, line_fields, normalized, split_lines,
    tab_split, CatalogMaps,
};
use crate::text::{
    append_chars, chars_eq, chars_of, has_char, prefix_at, lemma_replace_all_without, replace_all, replace_chars,
    string_of, trim_end, trim_start, trimmed, is_white_space,
};

verus! {

/// How many scrolls at most.
pub open spec fn max_rounds() -> nat {
    60
}

/// Watches the number of game links while the list is scrolled: the list is
/// taken as complete once the count has stayed the same over two
/// successive scrolls, or after sixty scrolls.
pub struct ScrollWatch {
    last_count: usize,
    stable_rounds: u32,
    round: u32,
    settled: bool,
}

impl ScrollWatch {
    pub closed spec fn last(&self) -> usize {
        self.last_count
    }

    pub closed spec fn stable(&self) -> nat {
        self.stable_rounds as nat
    }

    pub closed spec fn rounds(&self) -> nat {
        self.round as nat
    }

    pub closed spec fn has_settled(&self) -> bool {
        self.settled
    }

    pub closed spec fn wf(&self) -> bool {
        self.round <= 60 && self.stable_rounds <= self.round
    }

    /// Nothing seen yet (a count of 0 before the first scroll).
    pub fn new() -> (r: ScrollWatch)
        ensures
            r.wf(),
            r.last() == 0,
            r.stable() == 0,
            r.rounds() == 0,
            !r.has_settled(),
    {
        ScrollWatch { last_count: 0, stable_rounds: 0, round: 0, settled: false }
    }

    /// Whether to scroll again.
    pub fn keep_scrolling(&self) -> (r: bool)
        ensures
            r == (!self.has_settled() && self.rounds() < max_rounds()),
    {
        !self.settled && self.round < 60
    }

    /// Takes the count of game links after a scroll.
    pub fn observe(&mut self, count: usize)
        requires
            old(self).wf(),
            !old(self).has_settled(),
            old(self).rounds() < max_rounds(),
        ensures
            final(self).wf(),
            final(self).rounds() == old(self).rounds() + 1,
            count == old(self).last() ==> final(self).stable() == old(self).stable() + 1
                && final(self).has_settled() == (old(self).stable() + 1 >= 2) && final(self).last()
                == old(self).last(),
            count != old(self).last() ==> final(self).stable() == 0 && !final(self).has_settled()
                && final(self).last() == count,
    {
        self.round = self.round + 1;
        if count == self.last_count {
            self.stable_rounds = self.stable_rounds + 1;
            if self.stable_rounds >= 2 {
                self.settled = true;
            }
        } else {
            self.stable_rounds = 0;
            self.last_count = count;
        }
    }
}

/// A display name with its tabs turned into spaces, so it stays in its
/// column.
pub open spec fn tsv_name(name: Seq<char>) -> Seq<char> {
    replace_all(name, seq!['\t'], seq![' '])
}

/// The line of one scraped entry: none when the slug is empty.
pub open spec fn entry_line(slug: Seq<char>, name: Seq<char>) -> Seq<char> {
    if slug.len() > 0 {
        slug + seq!['\t'] + tsv_name(name) + seq!['\n']
    } else {
        seq![]
    }
}

/// The catalog text of the scraped entries `(slug, display_name)`.
pub open spec fn catalog_text(entries: Seq<(String, String)>) -> Seq<char>
    decreases entries.len(),
{
    if entries.len() == 0 {
        seq![]
    } else {
        catalog_text(entries.drop_last()) + entry_line(entries.last().0@, entries.last().1@)
    }
}

/// The number of entries with a slug.
pub open spec fn catalog_count(entries: Seq<(String, String)>) -> nat
    decreases entries.len(),
{
    if entries.len() == 0 {
        0
    } else {
        catalog_count(entries.drop_last()) + if entries.last().0@.len() > 0 {
            1nat
        } else {
            0nat
        }
    }
}

/// The catalog text of the scraped entries, and how many lines it has.
pub fn catalog_tsv(entries: &[(String, String)]) -> (r: (String, usize))
    ensures
        r.0@ == catalog_text(entries@),
        r.1 == catalog_count(entries@),
{
    let n = entries.len();
    let mut out: Vec<char> = Vec::new();
    let mut count: usize = 0;
    let tab = vec!['\t'];
    let space = vec![' '];
    assert(tab@ =~= seq!['\t']);
    assert(space@ =~= seq![' ']);
    for i in 0..n
        invariant
            n == entries@.len(),
            tab@ == seq!['\t'],
            space@ == seq![' '],
            out@ == catalog_text(entries@.take(i as int)),
            count == catalog_count(entries@.take(i as int)),
            count <= i,
    {
        assert(entries@.take(i + 1).drop_last() =~= entries@.take(i as int));
        assert(entries@.take(i + 1).last() == entries@[i as int]);
        let slug = chars_of(entries[i].0.as_str());
        if slug.len() > 0 {
            let name = chars_of(entries[i].1.as_str());
            let clean = replace_chars(name.as_slice(), tab.as_slice(), space.as_slice());
            let ghost prev = out@;
            append_chars(&mut out, slug.as_slice());
            out.push('\t');
            append_chars(&mut out, clean.as_slice());
            out.push('\n');
            assert(out@ =~= prev + entry_line(slug@, name@));
            count = count + 1;
        } else {
            assert(entry_line(slug@, entries@[i as int].1@) =~= seq![]);
            assert(out@ =~= out@ + entry_line(slug@, entries@[i as int].1@));
        }
    }
    assert(entries@.take(n as int) =~= entries@);
    (string_of(out.as_slice()), count)
}

// ---------------------------------------------------------------------------
// Reading the catalog back
// ---------------------------------------------------------------------------

/// A slug that reads back as written: not empty, no tab or line break, no
/// surrounding white space.
pub open spec fn clean_slug(s: Seq<char>) -> bool {
    &&& s.len() > 0
    &&& !has_char(s, '\t')
    &&& !has_char(s, '\n')
    &&& trimmed(s) == s
}

/// The maps after one more catalog entry.
pub open spec fn add_entry(maps: CatalogMaps, slug: Seq<char>, name: Seq<char>) -> CatalogMaps {
    CatalogMaps {
        by_norm: if name.len() > 0 {
            maps.by_norm.insert(normalized(name), (slug, name))
        } else {
            maps.by_norm
        },
        by_slug: maps.by_slug.insert(slug, (slug, name)),
    }
}

/// The maps that the entries give when each slug is kept and each name is
/// trimmed after its tabs became spaces.
pub open spec fn entries_catalog(entries: Seq<(String, String)>) -> CatalogMaps
    decreases entries.len(),
{
    if entries.len() == 0 {
        CatalogMaps { by_norm: Map::empty(), by_slug: Map::empty() }
    } else {
        add_entry(
            entries_catalog(entries.drop_last()),
            entries.last().0@,
            trimmed(tsv_name(entries.last().1@)),
        )
    }
}

/// The line contents of the entries (without the line breaks).
pub open spec fn entry_rows(entries: Seq<(String, String)>) -> Seq<Seq<char>>
    decreases entries.len(),
{
    if entries.len() == 0 {
        seq![]
    } else {
        entry_rows(entries.drop_last()).push(
            entries.last().0@ + seq!['\t'] + tsv_name(entries.last().1@),
        )
    }
}

proof fn lemma_split_lines_no_break(s: Seq<char>, t: Seq<char>)
    requires
        !has_char(t, '\n'),
    ensures
        split_lines(s + t) == split_lines(s).drop_last().push(split_lines(s).last() + t),
        split_lines(s).len() > 0,
    decreases t.len(),
{
    lemma_split_lines_nonempty(s);
    if t.len() == 0 {
        assert(s + t =~= s);
        assert(split_lines(s).last() + t =~= split_lines(s).last());
        assert(split_lines(s).drop_last().push(split_lines(s).last()) =~= split_lines(s));
    } else {
        let u = t.drop_last();
        assert(!has_char(u, '\n')) by {
            if has_char(u, '\n') {
                let i = choose|i: int| 0 <= i < u.len() && u[i] == '\n';
                assert(t[i] == '\n');
            }
        }
        lemma_split_lines_no_break(s, u);
        assert((s + t).drop_last() =~= s + u);
        assert((s + t).last() == t.last());
        assert(t.last() != '\n') by {
            assert(t[t.len() - 1] == t.last());
        }
        let p = split_lines(s + u);
        assert(p.drop_last() =~= split_lines(s).drop_last());
        assert(p.last() + seq![t.last()] =~= split_lines(s).last() + t);
        assert(p.last().push(t.last()) =~= p.last() + seq![t.last()]);
    }
}

proof fn lemma_split_lines_nonempty(s: Seq<char>)
    ensures
        split_lines(s).len() > 0,
    decreases s.len(),
{
    if s.len() > 0 {
        lemma_split_lines_nonempty(s.drop_last());
    }
}

proof fn lemma_line_has_no_break(slug: Seq<char>, name: Seq<char>)
    requires
        !has_char(slug, '\n'),
        !has_char(name, '\n'),
    ensures
        !has_char(slug + seq!['\t'] + tsv_name(name), '\n'),
{
    lemma_replace_all_without(name, seq!['\t'], seq![' '], '\n');
    assert(!has_char(seq![' '], '\n')) by {
        if has_char(seq![' '], '\n') {
            let i = choose|i: int| 0 <= i < 1 && seq![' '][i] == '\n';
        }
    }
    let line = slug + seq!['\t'] + tsv_name(name);
    if has_char(line, '\n') {
        let i = choose|i: int| 0 <= i < line.len() && line[i] == '\n';
        if i < slug.len() {
            assert(slug[i] == '\n');
        } else if i == slug.len() {
        } else {
            assert(tsv_name(name)[i - slug.len() - 1] == '\n');
        }
    }
}

proof fn lemma_catalog_text_lines(entries: Seq<(String, String)>)
    requires
        forall|i: int| 0 <= i < entries.len() ==> clean_slug((#[trigger] entries[i]).0@),
        forall|i: int| 0 <= i < entries.len() ==> !has_char((#[trigger] entries[i]).1@, '\n'),
    ensures
        split_lines(catalog_text(entries)) == entry_rows(entries).push(seq![]),
    decreases entries.len(),
{
    if entries.len() > 0 {
        let prev = entries.drop_last();
        assert forall|i: int| 0 <= i < prev.len() implies clean_slug((#[trigger] prev[i]).0@) by {
            assert(prev[i] == entries[i]);
        }
        assert forall|i: int| 0 <= i < prev.len() implies !has_char((#[trigger] prev[i]).1@, '\n') by {
            assert(prev[i] == entries[i]);
        }
        lemma_catalog_text_lines(prev);
        let e = entries.last();
        assert(e == entries[entries.len() - 1]);
        let line = e.0@ + seq!['\t'] + tsv_name(e.1@);
        lemma_line_has_no_break(e.0@, e.1@);
        let x = catalog_text(prev);
        lemma_split_lines_no_break(x, line);
        assert(split_lines(x).last() + line =~= line);
        assert(split_lines(x).drop_last() =~= entry_rows(prev));
        assert(catalog_text(entries) =~= (x + line).push('\n'));
        assert((x + line).push('\n').drop_last() =~= x + line);
    }
}

proof fn lemma_rows_catalog(entries: Seq<(String, String)>)
    requires
        forall|i: int| 0 <= i < entries.len() ==> clean_slug((#[trigger] entries[i]).0@),
    ensures
        catalog_of_lines(entry_rows(entries)) == entries_catalog(entries),
    decreases entries.len(),
{
    if entries.len() > 0 {
        let prev = entries.drop_last();
        assert forall|i: int| 0 <= i < prev.len() implies clean_slug((#[trigger] prev[i]).0@) by {
            assert(prev[i] == entries[i]);
        }
        lemma_rows_catalog(prev);
        let e = entries.last();
        assert(e == entries[entries.len() - 1]);
        let line = e.0@ + seq!['\t'] + tsv_name(e.1@);
        assert(entry_rows(entries).drop_last() =~= entry_rows(prev));
        let slug = e.0@;
        lemma_tab_split(line, slug.len() as int);
        assert(line.take(slug.len() as int) =~= slug);
        assert(line.skip(slug.len() as int + 1) =~= tsv_name(e.1@));
        assert(line_fields(line) == (slug, trimmed(tsv_name(e.1@))));
    }
}

/// The catalog text that the scraper writes reads back into the index maps
/// of its entries: every slug leads to its entry, and every display name
/// (tabs turned into spaces, trimmed) leads there by its normalised form,
/// later entries taking the place of earlier ones. This holds for entries
/// whose slugs are non-empty, free of tabs and line breaks and of
/// surrounding white space, and whose names hold no line break.
pub proof fn lemma_catalog_round_trip(entries: Seq<(String, String)>)
    requires
        forall|i: int| 0 <= i < entries.len() ==> clean_slug((#[trigger] entries[i]).0@),
        forall|i: int| 0 <= i < entries.len() ==> !has_char((#[trigger] entries[i]).1@, '\n'),
    ensures
        catalog_of(catalog_text(entries)) == entries_catalog(entries),
{
    lemma_catalog_text_lines(entries);
    lemma_rows_catalog(entries);
    let rows = entry_rows(entries);
    assert(rows.push(seq![]).drop_last() =~= rows);
    assert(trimmed(seq![]) =~= seq![]);
    assert(tab_split(seq![]) == (Seq::<char>::empty(), Seq::<char>::empty()));
}


// ---------------------------------------------------------------------------
// The game links of the page
// ---------------------------------------------------------------------------

/// A character that a slug is made of: `[a-z0-9_]`.
pub open spec fn is_slug_char(c: char) -> bool {
    ('a' <= c && c <= 'z') || ('0' <= c && c <= '9') || c == '_'
}

/// The run of slug characters that `s` starts with.
pub open spec fn slug_run(s: Seq<char>) -> Seq<char>
    decreases s.len(),
{
    if s.len() > 0 && is_slug_char(s[0]) {
        seq![s[0]] + slug_run(s.drop_first())
    } else {
        seq![]
    }
}

/// `game=`
pub open spec fn game_key() -> Seq<char> {
    seq!['g', 'a', 'm', 'e', '=']
}

/// The slug of a link from position `i` on: at the first `game=` that a
/// slug character follows, the run of slug characters after it.
pub open spec fn slug_from(href: Seq<char>, i: nat) -> Option<Seq<char>>
    decreases href.len() - i,
{
    if i + 5 >= href.len() {
        None
    } else if href.subrange(i as int, i + 5 as int) == game_key() && is_slug_char(href[i + 5 as int]) {
        Some(slug_run(href.skip(i + 5 as int)))
    } else {
        slug_from(href, i + 1)
    }
}

/// The slug in a game link (what `href.match(/game=([a-z0-9_]+)/)` picks
/// out), if there is one.
pub open spec fn link_slug(href: Seq<char>) -> Option<Seq<char>> {
    slug_from(href, 0)
}

/// Whether some entry has the slug `s`.
pub open spec fn has_slug(entries: Seq<(Seq<char>, Seq<char>)>, s: Seq<char>) -> bool {
    exists|j: int| 0 <= j < entries.len() && (#[trigger] entries[j]).0 == s
}

/// The catalog entries of the game links `(href, name)` of the page, in
/// order: links without a slug are passed over, and of the links with the
/// same slug the first is kept (each card is wrapped in two links).
pub open spec fn entries_of_links(links: Seq<(Seq<char>, Seq<char>)>) -> Seq<(Seq<char>, Seq<char>)>
    decreases links.len(),
{
    if links.len() == 0 {
        seq![]
    } else {
        let p = entries_of_links(links.drop_last());
        match link_slug(links.last().0) {
            Some(s) => if has_slug(p, s) {
                p
            } else {
                p.push((s, links.last().1))
            },
            None => p,
        }
    }
}

/// The view of a list of string pairs.
pub open spec fn pairs_view(v: Seq<(String, String)>) -> Seq<(Seq<char>, Seq<char>)> {
    v.map_values(|p: (String, String)| (p.0@, p.1@))
}

fn is_slug_char_exec(c: char) -> (b: bool)
    ensures
        b == is_slug_char(c),
{
    ('a' <= c && c <= 'z') || ('0' <= c && c <= '9') || c == '_'
}

/// The run of slug characters of `h` from `at` on.
fn slug_run_at(h: &[char], at: usize) -> (r: Vec<char>)
    requires
        at <= h@.len(),
    ensures
        r@ == slug_run(h@.skip(at as int)),
{
    let n = h.len();
    let mut out: Vec<char> = Vec::new();
    let mut j = at;
    while j < n && is_slug_char_exec(h[j])
        invariant
            at <= j <= n,
            n == h@.len(),
            slug_run(h@.skip(at as int)) == out@ + slug_run(h@.skip(j as int)),
        decreases n - j,
    {
        proof {
            let s = h@.skip(j as int);
            assert(s.drop_first() =~= h@.skip(j + 1));
            assert(s[0] == h@[j as int]);
            assert(slug_run(s) == seq![h@[j as int]] + slug_run(h@.skip(j + 1)));
            assert(out@ + slug_run(s) =~= out@.push(h@[j as int]) + slug_run(h@.skip(j + 1)));
        }
        out.push(h[j]);
        j = j + 1;
    }
    proof {
        let s = h@.skip(j as int);
        if j < n {
            assert(s[0] == h@[j as int]);
        }
        assert(slug_run(s) =~= seq![]);
        assert(out@ + slug_run(s) =~= out@);
    }
    out
}

/// The slug in a game link, if there is one.
pub fn slug_of_link(href: &str) -> (r: Option<String>)
    ensures
        match r {
            Some(s) => link_slug(href@) == Some(s@),
            None => link_slug(href@) is None,
        },
{
    let h = chars_of(href);
    let key = vec!['g', 'a', 'm', 'e', '='];
    assert(key@ =~= game_key());
    let n = h.len();
    let mut i: usize = 0;
    while i < n && n - i > 5
        invariant
            n == h@.len(),
            h@ == href@,
            key@ == game_key(),
            i <= n,
            slug_from(h@, 0) == slug_from(h@, i as nat),
        decreases n - i,
    {
        if prefix_at(h.as_slice(), i, key.as_slice()) && is_slug_char_exec(h[i + 5]) {
            assert(h@.skip(i as int).take(5) =~= h@.subrange(i as int, i + 5));
            let run = slug_run_at(h.as_slice(), i + 5);
            return Some(string_of(run.as_slice()));
        }
        proof {
            if h@.subrange(i as int, i + 5) == game_key() {
                assert(h@.skip(i as int).take(5) =~= h@.subrange(i as int, i + 5));
            }
        }
        i = i + 1;
    }
    None
}

fn has_slug_exec(entries: &Vec<(String, String)>, s: &[char]) -> (r: bool)
    ensures
        r == has_slug(pairs_view(entries@), s@),
{
    let n = entries.len();
    for j in 0..n
        invariant
            n == entries@.len(),
            forall|k: int| 0 <= k < j ==> (#[trigger] entries@[k]).0@ != s@,
    {
        let e = chars_of(entries[j].0.as_str());
        if chars_eq(e.as_slice(), s) {
            assert(pairs_view(entries@)[j as int].0 == s@);
            return true;
        }
    }
    proof {
        if has_slug(pairs_view(entries@), s@) {
            let k = choose|k: int| 0 <= k < n && (#[trigger] pairs_view(entries@)[k]).0 == s@;
            assert(entries@[k].0@ == s@);
        }
    }
    false
}

/// The catalog entries `(slug, name)` of the game links `(href, name)`
/// found on the page, in order: links without a slug are passed over, and
/// of several links with one slug the first is kept.
pub fn catalog_entries(links: &[(String, String)]) -> (r: Vec<(String, String)>)
    ensures
        pairs_view(r@) == entries_of_links(pairs_view(links@)),
{
    let n = links.len();
    let ghost lv = pairs_view(links@);
    let mut out: Vec<(String, String)> = Vec::new();
    for i in 0..n
        invariant
            n == links@.len(),
            lv == pairs_view(links@),
            pairs_view(out@) == entries_of_links(lv.take(i as int)),
    {
        assert(lv.take(i + 1).drop_last() =~= lv.take(i as int));
        assert(lv.take(i + 1).last() == lv[i as int]);
        assert(lv[i as int] == (links@[i as int].0@, links@[i as int].1@));
        match slug_of_link(links[i].0.as_str()) {
            Some(slug) => {
                let sc = chars_of(slug.as_str());
                if !has_slug_exec(&out, sc.as_slice()) {
                    let name = string_of(chars_of(links[i].1.as_str()).as_slice());
                    let ghost prev = out@;
                    out.push((slug, name));
                    assert(pairs_view(out@) =~= pairs_view(prev).push((sc@, links@[i as int].1@)));
                }
            },
            None => {},
        }
    }
    assert(lv.take(n as int) =~= lv);
    out
}


proof fn lemma_slug_run_chars(s: Seq<char>)
    ensures
        forall|i: int| 0 <= i < slug_run(s).len() ==> is_slug_char(#[trigger] slug_run(s)[i]),
    decreases s.len(),
{
    if s.len() > 0 && is_slug_char(s[0]) {
        lemma_slug_run_chars(s.drop_first());
        let r = slug_run(s.drop_first());
        assert forall|i: int| 0 <= i < slug_run(s).len() implies is_slug_char(#[trigger] slug_run(s)[i]) by {
            if i > 0 {
                assert(slug_run(s)[i] == r[i - 1]);
            }
        }
    }
}

proof fn lemma_slug_from_clean(href: Seq<char>, i: nat)
    ensures
        slug_from(href, i) matches Some(s) ==> clean_slug(s),
    decreases href.len() - i,
{
    if i + 5 >= href.len() {
    } else if href.subrange(i as int, i + 5 as int) == game_key() && is_slug_char(href[i + 5 as int]) {
        let rest = href.skip(i + 5 as int);
        let s = slug_run(rest);
        lemma_slug_run_chars(rest);
        assert(rest[0] == href[i + 5 as int]);
        assert(s.len() > 0);
        assert(!has_char(s, '\t'));
        assert(!has_char(s, '\n'));
        assert(!is_white_space(s[0]));
        assert(!is_white_space(s.last()));
        assert(trim_start(s) == s);
        assert(trim_end(s) == s);
    } else {
        lemma_slug_from_clean(href, i + 1);
    }
}

/// The entries read off the game links have clean slugs (non-empty, made
/// of `[a-z0-9_]`, so free of tabs, line breaks and white space), and no
/// two of them share a slug; so their catalog text reads back into their
/// index (`lemma_catalog_round_trip`).
pub proof fn lemma_link_entries_clean(links: Seq<(Seq<char>, Seq<char>)>)
    ensures
        forall|j: int|
            0 <= j < entries_of_links(links).len() ==> clean_slug(
                (#[trigger] entries_of_links(links)[j]).0,
            ),
        forall|j: int, k: int|
            0 <= j < k < entries_of_links(links).len() ==> (#[trigger] entries_of_links(links)[j]).0
                != (#[trigger] entries_of_links(links)[k]).0,
    decreases links.len(),
{
    if links.len() > 0 {
        let p = entries_of_links(links.drop_last());
        lemma_link_entries_clean(links.drop_last());
        lemma_slug_from_clean(links.last().0, 0);
        match link_slug(links.last().0) {
            Some(s) => {
                if !has_slug(p, s) {
                    let e = entries_of_links(links);
                    assert(e == p.push((s, links.last().1)));
                    assert forall|j: int| 0 <= j < e.len() implies clean_slug((#[trigger] e[j]).0) by {
                        if j < p.len() {
                            assert(e[j] == p[j]);
                        }
                    }
                    assert forall|j: int, k: int| 0 <= j < k < e.len() implies (#[trigger] e[j]).0
                        != (#[trigger] e[k]).0 by {
                        assert(e[j] == p[j]);
                        if k == p.len() {
                            if p[j].0 == s {
                                assert(has_slug(p, s));
                            }
                        } else {
                            assert(e[k] == p[k]);
                        }
                    }
                }
            },
            None => {},
        }
    }
}

} // verus!

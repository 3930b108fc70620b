//! Where the on-disk cache keeps each fetched response, so reruns are free.
//!
//! Layout under the cache root:
//!   list.json           — designer credit list
//!   items/{id}.json     — per-game geekitems response
//!   dynamic/{id}.json   — per-game dynamicinfo response
//!   browse/page-{n}.html — browse pages
//!   images/{id}.txt     — image URLs
//!
//! Paths are joined as `PathBuf::push` joins them on Unix: a part that
//! starts with `/` replaces the path; otherwise it is appended, with a `/`
//! between unless the path is empty or already ends in one.
use vstd::prelude::*;
use crate::text::{append_chars, append_str, chars_of, decimal, decimal_chars, string_of};

verus! {

/// `base.join(part)` on Unix.
pub open spec fn join(base: Seq<char>, part: Seq<char>) -> Seq<char> {
    if part.len() > 0 && part[0] == '/' {
        part
    } else if base.len() == 0 || base.last() == '/' {
        base + part
    } else {
        base + seq!['/'] + part
    }
}

fn join_chars(base: &[char], part: &[char]) -> (r: Vec<char>)
    ensures
        r@ == join(base@, part@),
{
    if part.len() > 0 && part[0] == '/' {
        let mut r: Vec<char> = Vec::new();
        append_chars(&mut r, part);
        assert(r@ =~= part@);
        r
    } else if base.len() == 0 || base[base.len() - 1] == '/' {
        let mut r: Vec<char> = Vec::new();
        append_chars(&mut r, base);
        append_chars(&mut r, part);
        assert(r@ =~= base@ + part@);
        r
    } else {
        let mut r: Vec<char> = Vec::new();
        append_chars(&mut r, base);
        r.push('/');
        append_chars(&mut r, part);
        assert(r@ =~= base@ + seq!['/'] + part@);
        r
    }
}

/// The file name `<id>.json`.
pub open spec fn json_name(id: Seq<char>) -> Seq<char> {
    id + ".json"@
}

/// What a root is followed by before a relative part is joined to it.
pub open spec fn joined_prefix(base: Seq<char>) -> Seq<char> {
    if base.len() == 0 || base.last() == '/' {
        base
    } else {
        base + seq!['/']
    }
}

proof fn lemma_join_relative(base: Seq<char>, part: Seq<char>)
    requires
        !(part.len() > 0 && part[0] == '/'),
    ensures
        join(base, part) == joined_prefix(base) + part,
{
}

/// Dynamic-record paths of ids that do not start with `/` are distinct for
/// distinct ids, and none of them is an item path or the list path of the
/// same cache.
pub proof fn lemma_dynamic_paths_distinct(root: Seq<char>, a: Seq<char>, b: Seq<char>)
    requires
        !(a.len() > 0 && a[0] == '/'),
        !(b.len() > 0 && b[0] == '/'),
    ensures
        (join(join(root, "dynamic"@), json_name(a)) == join(join(root, "dynamic"@), json_name(b)))
            <==> a == b,
        join(join(root, "dynamic"@), json_name(a)) != join(join(root, "items"@), json_name(b)),
        join(join(root, "dynamic"@), json_name(a)) != join(root, "list.json"@),
{
    reveal_strlit("dynamic");
    reveal_strlit("items");
    reveal_strlit("list.json");
    reveal_strlit(".json");
    let p = joined_prefix(root);
    let dy = "dynamic"@;
    let it = "items"@;
    let ls = "list.json"@;
    let ja = json_name(a);
    let jb = json_name(b);
    lemma_join_relative(root, dy);
    lemma_join_relative(root, it);
    lemma_join_relative(root, ls);
    assert(ja[a.len() as int] == '.');
    assert(jb[b.len() as int] == '.');
    assert(!(ja.len() > 0 && ja[0] == '/')) by {
        if a.len() == 0 {
            assert(ja[0] == '.');
        } else {
            assert(ja[0] == a[0]);
        }
    }
    assert(!(jb.len() > 0 && jb[0] == '/')) by {
        if b.len() == 0 {
            assert(jb[0] == '.');
        } else {
            assert(jb[0] == b[0]);
        }
    }
    let d = p + dy;
    let i = p + it;
    assert(d.last() == 'c');
    assert(i.last() == 's');
    lemma_join_relative(d, ja);
    lemma_join_relative(d, jb);
    lemma_join_relative(i, jb);
    let da = joined_prefix(d) + ja;
    let db = joined_prefix(d) + jb;
    let ib = joined_prefix(i) + jb;
    let l = p + ls;
    assert(da[p.len() as int] == 'd');
    assert(ib[p.len() as int] == 'i');
    assert(l[p.len() as int] == 'l');
    if da == db {
        let k = joined_prefix(d).len() as int;
        assert(da.len() == db.len());
        assert(ja.len() == jb.len());
        assert(a.len() == b.len());
        assert forall|j: int| 0 <= j < a.len() implies a[j] == b[j] by {
            assert(da[k + j] == a[j]);
            assert(db[k + j] == b[j]);
        }
        assert(a =~= b);
    }
}

/// The cache rooted at a directory.
pub struct Cache {
    root: String,
}

impl Cache {
    pub closed spec fn root_path(&self) -> Seq<char> {
        self.root@
    }

    /// The cache rooted at `root`. (Creating its directories is the
    /// caller's part.)
    pub fn new(root: String) -> (r: Cache)
        ensures
            r.root_path() == root@,
    {
        Cache { root }
    }

    pub fn root(&self) -> (r: &str)
        ensures
            r@ == self.root_path(),
    {
        self.root.as_str()
    }

    fn path_of(&self, dir: &str, file: &[char]) -> (r: String)
        ensures
            r@ == join(join(self.root_path(), dir@), file@),
    {
        let root = chars_of(self.root.as_str());
        let d = chars_of(dir);
        let p = join_chars(root.as_slice(), d.as_slice());
        let full = join_chars(p.as_slice(), file);
        string_of(full.as_slice())
    }

    fn dir_of(&self, dir: &str) -> (r: String)
        ensures
            r@ == join(self.root_path(), dir@),
    {
        let root = chars_of(self.root.as_str());
        let d = chars_of(dir);
        let p = join_chars(root.as_slice(), d.as_slice());
        string_of(p.as_slice())
    }

    /// `<root>/items`
    pub fn items_dir(&self) -> (r: String)
        ensures
            r@ == join(self.root_path(), "items"@),
    {
        self.dir_of("items")
    }

    /// `<root>/dynamic`
    pub fn dynamic_dir(&self) -> (r: String)
        ensures
            r@ == join(self.root_path(), "dynamic"@),
    {
        self.dir_of("dynamic")
    }

    /// `<root>/list.json`
    pub fn list_path(&self) -> (r: String)
        ensures
            r@ == join(self.root_path(), "list.json"@),
    {
        let name = chars_of("list.json");
        let root = chars_of(self.root.as_str());
        let p = join_chars(root.as_slice(), name.as_slice());
        string_of(p.as_slice())
    }

    /// `<root>/items/<id>.json`
    pub fn item_path(&self, id: &str) -> (r: String)
        ensures
            r@ == join(join(self.root_path(), "items"@), json_name(id@)),
    {
        let mut f = chars_of(id);
        append_str(&mut f, ".json");
        self.path_of("items", f.as_slice())
    }

    /// `<root>/dynamic/<id>.json`
    pub fn dynamic_path(&self, id: &str) -> (r: String)
        ensures
            r@ == join(join(self.root_path(), "dynamic"@), json_name(id@)),
    {
        let mut f = chars_of(id);
        append_str(&mut f, ".json");
        self.path_of("dynamic", f.as_slice())
    }

    /// `<root>/browse/page-<page>.html`
    pub fn browse_page_path(&self, page: u32) -> (r: String)
        ensures
            r@ == join(join(self.root_path(), "browse"@), "page-"@ + decimal(page as nat) + ".html"@),
    {
        let mut f = chars_of("page-");
        append_chars(&mut f, decimal_chars(page as u64).as_slice());
        append_str(&mut f, ".html");
        self.path_of("browse", f.as_slice())
    }

    /// `<root>/images/<id>.txt`
    pub fn image_path(&self, id: &str) -> (r: String)
        ensures
            r@ == join(join(self.root_path(), "images"@), id@ + ".txt"@),
    {
        let mut f = chars_of(id);
        append_str(&mut f, ".txt");
        self.path_of("images", f.as_slice())
    }
}

/// Whether a cached text holds a value: a blank file counts as missing.
pub fn holds_value(raw: &str) -> (r: bool)
    ensures
        r == !crate::text::is_blank(raw@),
{
    let cs = chars_of(raw);
    !crate::text::blank(cs.as_slice())
}

/// A cached image URL: none when the text is empty.
pub fn cached_image(raw: String) -> (r: Option<String>)
    ensures
        match r {
            Some(s) => s@ == raw@ && raw@.len() > 0,
            None => raw@.len() == 0,
        },
{
    let cs = chars_of(raw.as_str());
    if cs.len() > 0 {
        Some(raw)
    } else {
        None
    }
}

/// A `Name:cache-dir` designer argument cut at its first `:`.
pub open spec fn designer_arg(entry: Seq<char>) -> Option<(Seq<char>, Seq<char>)>
    decreases entry.len(),
{
    if entry.len() == 0 {
        None
    } else if entry[0] == ':' {
        Some((seq![], entry.drop_first()))
    } else {
        match designer_arg(entry.drop_first()) {
            Some(p) => Some((seq![entry[0]] + p.0, p.1)),
            None => None,
        }
    }
}

proof fn lemma_designer_arg(entry: Seq<char>, k: int)
    requires
        0 <= k <= entry.len(),
        forall|j: int| 0 <= j < k ==> entry[j] != ':',
    ensures
        k < entry.len() && entry[k] == ':' ==> designer_arg(entry) == Some(
            (entry.take(k), entry.skip(k + 1)),
        ),
        k == entry.len() ==> designer_arg(entry) is None,
    decreases k,
{
    if k > 0 {
        let rest = entry.drop_first();
        lemma_designer_arg(rest, k - 1);
        assert(seq![entry[0]] + rest.take(k - 1) =~= entry.take(k));
        if k < entry.len() {
            assert(rest.skip(k) =~= entry.skip(k + 1));
        }
    } else {
        assert(entry.take(0) =~= seq![]);
        if entry.len() > 0 {
            assert(entry.skip(1) =~= entry.drop_first());
        }
    }
}

/// Splits a `Name:cache-dir` designer argument at its first `:`.
pub fn split_designer_arg(entry: &str) -> (r: Option<(String, String)>)
    ensures
        match r {
            Some(p) => designer_arg(entry@) == Some((p.0@, p.1@)),
            None => designer_arg(entry@) is None,
        },
{
    let cs = chars_of(entry);
    let n = cs.len();
    let mut k: usize = 0;
    while k < n && cs[k] != ':'
        invariant
            k <= n,
            n == cs@.len(),
            cs@ == entry@,
            forall|j: int| 0 <= j < k ==> cs@[j] != ':',
        decreases n - k,
    {
        k = k + 1;
    }
    proof {
        lemma_designer_arg(cs@, k as int);
    }
    if k == n {
        return None;
    }
    let name = crate::text::slice_chars(cs.as_slice(), 0, k);
    let dir = crate::text::slice_chars(cs.as_slice(), k + 1, n);
    assert(cs@.subrange(0, k as int) =~= cs@.take(k as int));
    assert(cs@.subrange(k + 1, n as int) =~= cs@.skip(k + 1));
    Some((string_of(name.as_slice()), string_of(dir.as_slice())))
}

} // verus!

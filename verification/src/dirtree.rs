//! Shaping a directory listing for the file tree: dropping ignored
//! entries and ordering directories before files, each group sorted
//! case-insensitively by name.
//!
//! Reading the directory and asking git which entries are ignored happen
//! outside the library; the entries and the ignored paths are handed in
//! as values.
use vstd::prelude::*;

use crate::text::string_eq_str;

verus! {

/// One entry of a directory listing: its name, its path relative to the
/// project root, its full path, and whether it is a directory.
#[derive(Debug, PartialEq, Eq)]
pub struct FileTreeEntry {
    pub name: String,
    pub path: String,
    pub full_path: String,
    pub is_dir: bool,
}

pub ghost struct FileTreeEntryModel {
    pub name: Seq<char>,
    pub path: Seq<char>,
    pub full_path: Seq<char>,
    pub is_dir: bool,
}

impl View for FileTreeEntry {
    type V = FileTreeEntryModel;

    open spec fn view(&self) -> FileTreeEntryModel {
        FileTreeEntryModel {
            name: self.name@,
            path: self.path@,
            full_path: self.full_path@,
            is_dir: self.is_dir,
        }
    }
}

impl DeepView for FileTreeEntry {
    type V = FileTreeEntryModel;

    open spec fn deep_view(&self) -> FileTreeEntryModel {
        self.view()
    }
}

impl Clone for FileTreeEntry {
    fn clone(&self) -> (r: Self)
        ensures
            r@ == self@,
    {
        FileTreeEntry {
            name: self.name.clone(),
            path: self.path.clone(),
            full_path: self.full_path.clone(),
            is_dir: self.is_dir,
        }
    }
}

/// A memo file, read or written at a fixed per-project location.
#[derive(Debug, PartialEq, Eq)]
pub struct ClaudeMdFile {
    pub path: String,
    pub content: String,
}

/// Names always left out of the tree, whether or not git ignores them:
/// version control internals, dependency and build directories, caches,
/// and OS metadata files.
pub open spec fn spec_hardcoded_skip(name: Seq<char>) -> bool {
    ||| name == ".git"@
    ||| name == "node_modules"@
    ||| name == "target"@
    ||| name == ".next"@
    ||| name == ".nuxt"@
    ||| name == "dist"@
    ||| name == "__pycache__"@
    ||| name == ".pytest_cache"@
    ||| name == ".mypy_cache"@
    ||| name == "venv"@
    ||| name == ".venv"@
    ||| name == ".tox"@
    ||| name == "build"@
    ||| name == ".DS_Store"@
    ||| name == "Thumbs.db"@
}

/// Whether a name is on the always-skipped list.
pub fn is_hardcoded_skip(name: &String) -> (r: bool)
    ensures
        r == spec_hardcoded_skip(name@),
{
    string_eq_str(name, ".git") || string_eq_str(name, "node_modules") || string_eq_str(
        name,
        "target",
    ) || string_eq_str(name, ".next") || string_eq_str(name, ".nuxt") || string_eq_str(
        name,
        "dist",
    ) || string_eq_str(name, "__pycache__") || string_eq_str(name, ".pytest_cache")
        || string_eq_str(name, ".mypy_cache") || string_eq_str(name, "venv") || string_eq_str(
        name,
        ".venv",
    ) || string_eq_str(name, ".tox") || string_eq_str(name, "build") || string_eq_str(
        name,
        ".DS_Store",
    ) || string_eq_str(name, "Thumbs.db")
}

pub open spec fn spec_contains_string(set: Seq<Seq<char>>, s: Seq<char>) -> bool {
    exists|k: int| 0 <= k < set.len() && set[k] == s
}

fn contains_string(set: &Vec<String>, s: &String) -> (r: bool)
    ensures
        r == spec_contains_string(set.deep_view(), s@),
{
    let ghost sv = set.deep_view();
    let mut k: usize = 0;
    proof {
        assert(set@.len() == sv.len());
    }
    while k < set.len()
        invariant
            k <= set@.len(),
            set@.len() == sv.len(),
            sv == set.deep_view(),
            forall|j: int| 0 <= j < k ==> sv[j] != s@,
        decreases set@.len() - k,
    {
        proof {
            assert(set@[k as int]@ == sv[k as int]);
        }
        if set[k] == *s {
            return true;
        }
        k += 1;
    }
    false
}

/// An entry is kept when its name is neither git's own directory nor on
/// the skip list, and — inside a git repository — when git does not
/// ignore its path.
pub open spec fn spec_keep_entry(
    e: FileTreeEntryModel,
    is_git_repo: bool,
    ignored: Seq<Seq<char>>,
) -> bool {
    &&& !spec_hardcoded_skip(e.name)
    &&& (is_git_repo ==> !spec_contains_string(ignored, e.path))
}

/// What case folding a name gives, as `str::to_lowercase` computes it: a
/// function of the characters alone.
pub uninterp spec fn lower_of(s: Seq<char>) -> Seq<char>;

/// Relies on `str::to_lowercase`: the Unicode lowercase mapping of the
/// text, a function of its characters alone.
#[verifier::external_body]
fn to_lowercase(s: &str) -> (r: String)
    ensures
        r@ == lower_of(s@),
{
    s.to_lowercase()
}

/// Code-point-wise lexicographic order, the order `str`'s comparison
/// gives (UTF-8 byte order coincides with code point order).
pub open spec fn lex_le(a: Seq<char>, b: Seq<char>) -> bool
    decreases a.len(),
{
    if a.len() == 0 {
        true
    } else if b.len() == 0 {
        false
    } else if a[0] != b[0] {
        a[0] < b[0]
    } else {
        lex_le(a.drop_first(), b.drop_first())
    }
}

pub proof fn lemma_lex_le_total(a: Seq<char>, b: Seq<char>)
    ensures
        lex_le(a, b) || lex_le(b, a),
    decreases a.len(),
{
    if a.len() > 0 && b.len() > 0 && a[0] == b[0] {
        lemma_lex_le_total(a.drop_first(), b.drop_first());
    }
}

pub proof fn lemma_lex_le_trans(a: Seq<char>, b: Seq<char>, c: Seq<char>)
    requires
        lex_le(a, b),
        lex_le(b, c),
    ensures
        lex_le(a, c),
    decreases a.len(),
{
    if a.len() > 0 && b.len() > 0 && c.len() > 0 && a[0] == b[0] && b[0] == c[0] {
        lemma_lex_le_trans(a.drop_first(), b.drop_first(), c.drop_first());
    }
}

fn lex_le_chars(a: &Vec<char>, b: &Vec<char>) -> (r: bool)
    ensures
        r == lex_le(a@, b@),
{
    let mut i: usize = 0;
    proof {
        assert(a@.skip(0) =~= a@);
        assert(b@.skip(0) =~= b@);
    }
    while i < a.len() && i < b.len()
        invariant
            i <= a@.len(),
            i <= b@.len(),
            lex_le(a@, b@) == lex_le(a@.skip(i as int), b@.skip(i as int)),
        decreases a@.len() - i,
    {
        proof {
            assert(a@.skip(i as int)[0] == a@[i as int]);
            assert(b@.skip(i as int)[0] == b@[i as int]);
            assert(a@.skip(i as int).drop_first() =~= a@.skip(i as int + 1));
            assert(b@.skip(i as int).drop_first() =~= b@.skip(i as int + 1));
        }
        if a[i] != b[i] {
            return a[i] < b[i];
        }
        i += 1;
    }
    proof {
        if i >= a@.len() {
            assert(a@.skip(i as int).len() == 0);
        } else {
            assert(b@.skip(i as int).len() == 0);
            assert(a@.skip(i as int).len() > 0);
        }
    }
    a.len() <= b.len()
}

/// The case-folded sort key of an entry.
pub open spec fn entry_key(e: FileTreeEntryModel) -> Seq<char> {
    lower_of(e.name)
}

fn entries_le(a: &FileTreeEntry, b: &FileTreeEntry) -> (r: bool)
    ensures
        r == lex_le(entry_key(a@), entry_key(b@)),
{
    let la = to_lowercase(a.name.as_str());
    let lb = to_lowercase(b.name.as_str());
    let ca = crate::text::str_chars(la.as_str());
    let cb = crate::text::str_chars(lb.as_str());
    lex_le_chars(&ca, &cb)
}

pub open spec fn sorted_by_key(s: Seq<FileTreeEntryModel>) -> bool {
    forall|i: int, j: int|
        0 <= i < j < s.len() ==> lex_le(entry_key(s[i]), entry_key(s[j]))
}

/// Sort entries case-insensitively by name: the result is ordered and
/// holds exactly the given entries.
fn sort_entries(v: Vec<FileTreeEntry>) -> (r: Vec<FileTreeEntry>)
    ensures
        sorted_by_key(r.deep_view()),
        r.deep_view().to_multiset() == v.deep_view().to_multiset(),
        r@.len() == v@.len(),
    {
    broadcast use vstd::seq_lib::group_to_multiset_ensures;

    let ghost vs = v.deep_view();
    let mut out: Vec<FileTreeEntry> = Vec::new();
    let mut i: usize = 0;
    proof {
        assert(vs.take(0) =~= Seq::<FileTreeEntryModel>::empty());
        assert(out.deep_view() =~= vs.take(0));
        assert(out.deep_view().to_multiset() =~= vs.take(0).to_multiset());
        assert(v@.len() == vs.len());
    }
    while i < v.len()
        invariant
            i <= v@.len(),
            v@.len() == vs.len(),
            vs == v.deep_view(),
            out@.len() == i,
            sorted_by_key(out.deep_view()),
            out.deep_view().to_multiset() == vs.take(i as int).to_multiset(),
        decreases v@.len() - i,
    {
        broadcast use vstd::seq_lib::group_to_multiset_ensures;

        proof {
            assert(v@[i as int].deep_view() == vs[i as int]);
            assert(vs.take(i as int + 1).drop_last() =~= vs.take(i as int));
            assert(vs.take(i as int + 1) =~= vs.take(i as int).push(vs[i as int]));
        }
        let x = v[i].clone();
        let ghost xv = x@;
        let ghost out0 = out.deep_view();
        // Find the first position whose key is strictly greater than x's:
        // inserting there keeps the order.
        let mut idx: usize = 0;
        while idx < out.len() && entries_le(&out[idx], &x)
            invariant
                idx <= out@.len(),
                out0 == out.deep_view(),
                xv == x@,
                forall|j: int| 0 <= j < idx ==> lex_le(entry_key(out0[j]), entry_key(xv)),
            decreases out@.len() - idx,
        {
            proof {
                assert(out@[idx as int].deep_view() == out0[idx as int]);
            }
            idx += 1;
        }
        proof {
            assert(out@.len() == out0.len());
            if idx < out@.len() {
                assert(out@[idx as int].deep_view() == out0[idx as int]);
                assert(!lex_le(entry_key(out0[idx as int]), entry_key(xv)));
            }
        }
        out.insert(idx, x);
        proof {
            let t = out.deep_view();
            assert(t =~~= out0.insert(idx as int, xv));
            // multiset: inserting is pushing, up to permutation
            assert(t.remove(idx as int) =~= out0);
            assert(t[idx as int] == xv);
            assert(t.remove(idx as int).to_multiset() =~= t.to_multiset().remove(xv));
            assert(t.contains(xv));
            assert(t.to_multiset().count(xv) > 0);
            assert(t.to_multiset() =~= out0.to_multiset().insert(xv));
            assert(t.to_multiset() =~= vs.take(i as int + 1).to_multiset());
            // order: everything before idx is at most x, everything at or
            // after idx (previously) is strictly above x
            assert forall|p: int, q: int| 0 <= p < q < t.len() implies lex_le(
                entry_key(t[p]),
                entry_key(t[q]),
            ) by {
                lemma_lex_le_total(entry_key(out0[idx as int - 0]), entry_key(xv));
                if p < idx && q == idx {
                    assert(t[p] == out0[p]);
                    assert(lex_le(entry_key(out0[p]), entry_key(xv)));
                } else if p == idx && q > idx {
                    assert(t[q] == out0[q - 1]);
                    assert(q - 1 >= idx);
                    lemma_lex_le_total(entry_key(xv), entry_key(out0[q - 1]));
                    if !lex_le(entry_key(xv), entry_key(out0[q - 1])) {
                        assert(lex_le(entry_key(out0[q - 1]), entry_key(xv)));
                        assert(idx < out0.len());
                        if q - 1 > idx {
                            assert(lex_le(entry_key(out0[idx as int]), entry_key(out0[q - 1])));
                            lemma_lex_le_trans(
                                entry_key(out0[idx as int]),
                                entry_key(out0[q - 1]),
                                entry_key(xv),
                            );
                        }
                        assert(lex_le(entry_key(out0[idx as int]), entry_key(xv)));
                        assert(false);
                    }
                } else if p < idx && q > idx {
                    assert(t[p] == out0[p]);
                    assert(t[q] == out0[q - 1]);
                    if q - 1 == p {
                        assert(false);
                    }
                    assert(lex_le(entry_key(out0[p]), entry_key(out0[q - 1])));
                } else if q < idx {
                    assert(t[p] == out0[p]);
                    assert(t[q] == out0[q]);
                } else if p > idx {
                    assert(t[p] == out0[p - 1]);
                    assert(t[q] == out0[q - 1]);
                }
            }
        }
        i += 1;
    }
    proof {
        assert(vs.take(vs.len() as int) =~= vs);
    }
    out
}

/// Shape a raw directory listing: drop the always-skipped names and — in
/// a git repository — the git-ignored paths, then order directories
/// before files, each group sorted case-insensitively by name. The
/// result holds exactly the kept entries.
pub fn organize_directory_entries(
    entries: &Vec<FileTreeEntry>,
    is_git_repo: bool,
    ignored: &Vec<String>,
) -> (r: Vec<FileTreeEntry>)
    ensures
        r.deep_view().to_multiset() == entries.deep_view().filter(
            |e: FileTreeEntryModel| spec_keep_entry(e, is_git_repo, ignored.deep_view()),
        ).to_multiset(),
        forall|i: int, j: int|
            0 <= i < j < r.deep_view().len() && r.deep_view()[j].is_dir ==> r.deep_view()[
                i
            ].is_dir,
        forall|i: int, j: int|
            0 <= i < j < r.deep_view().len() && r.deep_view()[i].is_dir == r.deep_view()[j].is_dir
                ==> lex_le(entry_key(r.deep_view()[i]), entry_key(r.deep_view()[j])),
{
    broadcast use vstd::seq_lib::group_to_multiset_ensures;

    let ghost es = entries.deep_view();
    let ghost keep = |e: FileTreeEntryModel| spec_keep_entry(e, is_git_repo, ignored.deep_view());
    let ghost keep_dir = |e: FileTreeEntryModel|
        spec_keep_entry(e, is_git_repo, ignored.deep_view()) && e.is_dir;
    let ghost keep_file = |e: FileTreeEntryModel|
        spec_keep_entry(e, is_git_repo, ignored.deep_view()) && !e.is_dir;
    let mut dirs: Vec<FileTreeEntry> = Vec::new();
    let mut files: Vec<FileTreeEntry> = Vec::new();
    let mut i: usize = 0;
    proof {
        reveal(Seq::filter);
        assert(es.take(0) =~= Seq::<FileTreeEntryModel>::empty());
        assert(dirs.deep_view() =~= es.take(0).filter(keep_dir));
        assert(files.deep_view() =~= es.take(0).filter(keep_file));
        assert(entries@.len() == es.len());
    }
    while i < entries.len()
        invariant
            i <= entries@.len(),
            entries@.len() == es.len(),
            es == entries.deep_view(),
            keep_dir == (|e: FileTreeEntryModel|
                spec_keep_entry(e, is_git_repo, ignored.deep_view()) && e.is_dir),
            keep_file == (|e: FileTreeEntryModel|
                spec_keep_entry(e, is_git_repo, ignored.deep_view()) && !e.is_dir),
            dirs.deep_view() == es.take(i as int).filter(keep_dir),
            files.deep_view() == es.take(i as int).filter(keep_file),
        decreases entries@.len() - i,
    {
        proof {
            reveal(Seq::filter);
            assert(entries@[i as int].deep_view() == es[i as int]);
            assert(es.take(i as int + 1).drop_last() =~= es.take(i as int));
            assert(es.take(i as int + 1).last() == es[i as int]);
        }
        let e = &entries[i];
        let kept = !is_hardcoded_skip(&e.name) && (!is_git_repo || !contains_string(
            ignored,
            &e.path,
        ));
        if kept {
            if e.is_dir {
                let ghost d0 = dirs.deep_view();
                dirs.push(e.clone());
                proof {
                    reveal(Seq::filter);
                    assert(dirs.deep_view() =~~= d0.push(es[i as int]));
                    assert(dirs.deep_view() =~= es.take(i as int + 1).filter(keep_dir));
                    assert(files.deep_view() =~= es.take(i as int + 1).filter(keep_file));
                }
            } else {
                let ghost f0 = files.deep_view();
                files.push(e.clone());
                proof {
                    reveal(Seq::filter);
                    assert(files.deep_view() =~~= f0.push(es[i as int]));
                    assert(dirs.deep_view() =~= es.take(i as int + 1).filter(keep_dir));
                    assert(files.deep_view() =~= es.take(i as int + 1).filter(keep_file));
                }
            }
        } else {
            proof {
                reveal(Seq::filter);
                assert(dirs.deep_view() =~= es.take(i as int + 1).filter(keep_dir));
                assert(files.deep_view() =~= es.take(i as int + 1).filter(keep_file));
            }
        }
        i += 1;
    }
    proof {
        assert(es.take(es.len() as int) =~= es);
    }
    let sorted_dirs = sort_entries(dirs);
    let sorted_files = sort_entries(files);
    proof {
        assert forall|k: int|
            0 <= k < sorted_dirs.deep_view().len() implies #[trigger] sorted_dirs.deep_view()[
            k].is_dir by {
            let sd = sorted_dirs.deep_view();
            assert(sd.to_multiset().contains(sd[k]));
            assert(es.filter(keep_dir).to_multiset().contains(sd[k]));
            assert(es.filter(keep_dir).contains(sd[k]));
            let j = choose|j: int| 0 <= j < es.filter(keep_dir).len() && es.filter(keep_dir)[j]
                == sd[k];
            es.lemma_filter_pred(keep_dir, j);
        }
        assert forall|k: int|
            0 <= k < sorted_files.deep_view().len() implies !(#[trigger] sorted_files.deep_view()[
        k].is_dir) by {
            let sf = sorted_files.deep_view();
            assert(sf.to_multiset().contains(sf[k]));
            assert(es.filter(keep_file).to_multiset().contains(sf[k]));
            assert(es.filter(keep_file).contains(sf[k]));
            let j = choose|j: int| 0 <= j < es.filter(keep_file).len() && es.filter(keep_file)[j]
                == sf[k];
            es.lemma_filter_pred(keep_file, j);
        }
    }
    let mut r = sorted_dirs;
    let ghost rd = r.deep_view();
    let ghost sf = sorted_files.deep_view();
    let mut k: usize = 0;
    proof {
        assert(sorted_files@.len() == sf.len());
        assert(r.deep_view() =~= rd + sf.take(0));
    }
    while k < sorted_files.len()
        invariant
            k <= sorted_files@.len(),
            sorted_files@.len() == sf.len(),
            sf == sorted_files.deep_view(),
            r.deep_view() == rd + sf.take(k as int),
        decreases sorted_files@.len() - k,
    {
        proof {
            assert(sorted_files@[k as int].deep_view() == sf[k as int]);
        }
        let ghost r0 = r.deep_view();
        r.push(sorted_files[k].clone());
        proof {
            assert(r.deep_view() =~~= r0.push(sf[k as int]));
            assert(r.deep_view() =~= rd + sf.take(k as int + 1));
        }
        k += 1;
    }
    proof {
        assert(sf.take(sf.len() as int) =~= sf);
        assert(r.deep_view() == rd + sf);
        let rv = r.deep_view();
        // the two groups together are exactly the kept entries
        lemma_filter_split(es, keep, keep_dir, keep_file, is_git_repo, ignored.deep_view());
        vstd::seq_lib::lemma_multiset_commutative(rd, sf);
        vstd::seq_lib::lemma_multiset_commutative(es.filter(keep_dir), es.filter(keep_file));
        assert(rv.to_multiset() =~= es.filter(keep).to_multiset());
        // directories stand first
        assert forall|i2: int, j2: int|
            0 <= i2 < j2 < rv.len() && rv[j2].is_dir implies rv[i2].is_dir by {
            if j2 >= rd.len() {
                assert(rv[j2] == sf[j2 - rd.len()]);
                assert(!rv[j2].is_dir);
            }
            if i2 < rd.len() {
                assert(rv[i2] == rd[i2]);
            }
        }
        // each group is sorted
        assert forall|i2: int, j2: int|
            0 <= i2 < j2 < rv.len() && rv[i2].is_dir == rv[j2].is_dir implies lex_le(
            entry_key(rv[i2]),
            entry_key(rv[j2]),
        ) by {
            if j2 < rd.len() {
                assert(rv[i2] == rd[i2] && rv[j2] == rd[j2]);
            } else if i2 >= rd.len() {
                assert(rv[i2] == sf[i2 - rd.len()] && rv[j2] == sf[j2 - rd.len()]);
            } else {
                assert(rv[i2] == rd[i2] && rv[j2] == sf[j2 - rd.len()]);
                assert(rv[i2].is_dir && !rv[j2].is_dir);
            }
        }
    }
    r
}

/// Filtering into directories and files and re-joining loses nothing:
/// together the two groups hold exactly the kept entries.
proof fn lemma_filter_split(
    es: Seq<FileTreeEntryModel>,
    keep: spec_fn(FileTreeEntryModel) -> bool,
    keep_dir: spec_fn(FileTreeEntryModel) -> bool,
    keep_file: spec_fn(FileTreeEntryModel) -> bool,
    is_git_repo: bool,
    ignored: Seq<Seq<char>>,
)
    requires
        keep == (|e: FileTreeEntryModel| spec_keep_entry(e, is_git_repo, ignored)),
        keep_dir == (|e: FileTreeEntryModel| spec_keep_entry(e, is_git_repo, ignored) && e.is_dir),
        keep_file == (|e: FileTreeEntryModel| spec_keep_entry(e, is_git_repo, ignored)
            && !e.is_dir),
    ensures
        (es.filter(keep_dir) + es.filter(keep_file)).to_multiset() == es.filter(
            keep,
        ).to_multiset(),
    decreases es.len(),
{
    broadcast use vstd::seq_lib::group_to_multiset_ensures;

    reveal(Seq::filter);
    if es.len() == 0 {
        assert(es.filter(keep_dir) + es.filter(keep_file) =~= es.filter(keep));
    } else {
        lemma_filter_split(es.drop_last(), keep, keep_dir, keep_file, is_git_repo, ignored);
        let e = es.last();
        let d0 = es.drop_last().filter(keep_dir);
        let f0 = es.drop_last().filter(keep_file);
        vstd::seq_lib::lemma_multiset_commutative(d0, f0);
        if keep(e) {
            if e.is_dir {
                assert(es.filter(keep_dir) == d0.push(e));
                assert(es.filter(keep_file) == f0);
                assert(d0.push(e) + f0 =~= (d0 + f0).insert((d0 + f0).len() as int - f0.len(), e));
                lemma_insert_multiset(d0 + f0, (d0 + f0).len() as int - f0.len() as int, e);
            } else {
                assert(es.filter(keep_file) == f0.push(e));
                assert(es.filter(keep_dir) == d0);
                assert(d0 + f0.push(e) =~= (d0 + f0).push(e));
            }
        } else {
            assert(es.filter(keep_dir) == d0);
            assert(es.filter(keep_file) == f0);
            assert(es.filter(keep) == es.drop_last().filter(keep));
        }
        vstd::seq_lib::lemma_multiset_commutative(es.filter(keep_dir), es.filter(keep_file));
    }
}

/// Inserting anywhere adds one occurrence, as pushing does.
proof fn lemma_insert_multiset(s: Seq<FileTreeEntryModel>, idx: int, e: FileTreeEntryModel)
    requires
        0 <= idx <= s.len(),
    ensures
        s.insert(idx, e).to_multiset() == s.to_multiset().insert(e),
{
    broadcast use vstd::seq_lib::group_to_multiset_ensures;

    let t = s.insert(idx, e);
    assert(t.remove(idx) =~= s);
    assert(t[idx] == e);
    assert(t.remove(idx).to_multiset() =~= t.to_multiset().remove(e));
    assert(t.contains(e));
    assert(t.to_multiset().count(e) > 0);
    assert(t.to_multiset() =~= s.to_multiset().insert(e));
}

} // verus!

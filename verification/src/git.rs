//! Parsing and shaping of git's machine-readable output.
//!
//! The git commands themselves run outside the library; what they print
//! is handed in as text and parsed here: `status --porcelain=v1` into file
//! entries, `diff --numstat` into per-file counts. The synthetic diff for
//! an untracked file and the partition of entries that drives `restore`,
//! `clean` and the stat queries are computed here as well.
use vstd::prelude::*;

use crate::json::spec_dec_str;
use crate::json::push_dec;
use crate::text::char_string;
use crate::text::chars_to_string;
use crate::text::find_sub;
use crate::text::lemma_spec_find_sub;
use crate::text::occurs_at;
use crate::text::parse_u32_or_zero;
use crate::text::push_str_chars;
use crate::text::slice_chars;
use crate::text::spec_contains_sub;
use crate::text::spec_find_sub;
use crate::text::spec_lines;
use crate::text::spec_parse_u32_or_zero;
use crate::text::spec_split;
use crate::text::split_char;
use crate::text::split_lines;
use crate::text::str_chars;
use crate::text::string_eq_str;

verus! {

/// One changed file as `git status --porcelain=v1` reports it: its path,
/// its one-character status code, and whether the change is staged.
#[derive(Debug, PartialEq, Eq)]
pub struct GitFileEntry {
    pub path: String,
    pub status: String,
    pub staged: bool,
}

pub ghost struct GitFileEntryModel {
    pub path: Seq<char>,
    pub status: Seq<char>,
    pub staged: bool,
}

impl View for GitFileEntry {
    type V = GitFileEntryModel;

    open spec fn view(&self) -> GitFileEntryModel {
        GitFileEntryModel { path: self.path@, status: self.status@, staged: self.staged }
    }
}

impl DeepView for GitFileEntry {
    type V = GitFileEntryModel;

    open spec fn deep_view(&self) -> GitFileEntryModel {
        self.view()
    }
}

impl Clone for GitFileEntry {
    fn clone(&self) -> (r: Self)
        ensures
            r@ == self@,
    {
        GitFileEntry {
            path: self.path.clone(),
            status: self.status.clone(),
            staged: self.staged,
        }
    }
}

/// The working tree's state: whether the directory is a repository, the
/// current branch, and the changed files.
#[derive(Debug)]
pub struct GitStatus {
    pub is_repo: bool,
    pub branch: String,
    pub files: Vec<GitFileEntry>,
}

pub ghost struct GitStatusModel {
    pub is_repo: bool,
    pub branch: Seq<char>,
    pub files: Seq<GitFileEntryModel>,
}

impl View for GitStatus {
    type V = GitStatusModel;

    open spec fn view(&self) -> GitStatusModel {
        GitStatusModel {
            is_repo: self.is_repo,
            branch: self.branch@,
            files: self.files.deep_view(),
        }
    }
}

/// Insertions and deletions for one file, as `git diff --numstat` prints
/// them; binary files count as zero.
#[derive(Debug, PartialEq, Eq)]
pub struct DiffStat {
    pub path: String,
    pub insertions: u32,
    pub deletions: u32,
}

pub ghost struct DiffStatModel {
    pub path: Seq<char>,
    pub insertions: u32,
    pub deletions: u32,
}

impl View for DiffStat {
    type V = DiffStatModel;

    open spec fn view(&self) -> DiffStatModel {
        DiffStatModel { path: self.path@, insertions: self.insertions, deletions: self.deletions }
    }
}

impl DeepView for DiffStat {
    type V = DiffStatModel;

    open spec fn deep_view(&self) -> DiffStatModel {
        self.view()
    }
}

// ---------------------------------------------------------------------------
// numstat
// ---------------------------------------------------------------------------

/// The entry for one numstat line: tab-separated insertions, deletions
/// and path; lines with fewer than three fields yield nothing, and a
/// non-numeric count (binary files print `-`) reads as zero.
pub open spec fn spec_numstat_line(line: Seq<char>) -> Seq<DiffStatModel> {
    let parts = spec_split(line, '\t');
    if parts.len() >= 3 {
        seq![
            DiffStatModel {
                insertions: spec_parse_u32_or_zero(parts[0]),
                deletions: spec_parse_u32_or_zero(parts[1]),
                path: parts[2],
            },
        ]
    } else {
        Seq::empty()
    }
}

pub open spec fn spec_numstat_lines(lines: Seq<Seq<char>>) -> Seq<DiffStatModel>
    decreases lines.len(),
{
    if lines.len() == 0 {
        Seq::empty()
    } else {
        spec_numstat_lines(lines.drop_last()) + spec_numstat_line(lines.last())
    }
}

/// What `git diff --numstat` output means, line by line.
pub open spec fn spec_parse_numstat(s: Seq<char>) -> Seq<DiffStatModel> {
    spec_numstat_lines(spec_lines(s))
}

/// Parse `git diff --numstat` output.
pub fn parse_numstat(output: &str) -> (r: Vec<DiffStat>)
    ensures
        r.deep_view() == spec_parse_numstat(output@),
{
    let chars = str_chars(output);
    let lines = split_lines(&chars);
    let ghost ls = lines.deep_view();
    let mut r: Vec<DiffStat> = Vec::new();
    let mut i: usize = 0;
    proof {
        assert(ls.take(0) =~= Seq::<Seq<char>>::empty());
        assert(r.deep_view() =~= spec_numstat_lines(ls.take(0)));
        assert(lines@.len() == ls.len());
    }
    while i < lines.len()
        invariant
            i <= lines@.len(),
            lines@.len() == ls.len(),
            ls == lines.deep_view(),
            ls == spec_lines(chars@),
            chars@ == output@,
            r.deep_view() == spec_numstat_lines(ls.take(i as int)),
        decreases lines@.len() - i,
    {
        proof {
            assert(lines@[i as int]@ == ls[i as int]);
            assert(ls.take(i as int + 1).drop_last() =~= ls.take(i as int));
            assert(ls.take(i as int + 1).last() == ls[i as int]);
        }
        let parts = split_char(&lines[i], '\t');
        let ghost ps = parts.deep_view();
        proof {
            assert(ps == spec_split(ls[i as int], '\t'));
            assert(parts@.len() == ps.len());
        }
        if parts.len() >= 3 {
            proof {
                assert(parts@[0]@ == ps[0]);
                assert(parts@[1]@ == ps[1]);
                assert(parts@[2]@ == ps[2]);
            }
            let insertions = parse_u32_or_zero(&parts[0]);
            let deletions = parse_u32_or_zero(&parts[1]);
            let path = chars_to_string(&parts[2]);
            let ghost r0 = r.deep_view();
            r.push(DiffStat { path, insertions, deletions });
            proof {
                assert(r.deep_view() =~~= r0.push(
                    DiffStatModel {
                        path: ps[2],
                        insertions: spec_parse_u32_or_zero(ps[0]),
                        deletions: spec_parse_u32_or_zero(ps[1]),
                    },
                ));
                assert(r.deep_view() =~= spec_numstat_lines(ls.take(i as int + 1)));
            }
        } else {
            proof {
                assert(spec_numstat_line(ls[i as int]) =~= Seq::<DiffStatModel>::empty());
                assert(spec_numstat_lines(ls.take(i as int + 1)) =~= spec_numstat_lines(
                    ls.take(i as int),
                ));
            }
        }
        i += 1;
    }
    proof {
        assert(ls.take(ls.len() as int) =~= ls);
    }
    r
}

// ---------------------------------------------------------------------------
// porcelain
// ---------------------------------------------------------------------------

/// A rename line reads `R  old -> new`: the path kept is what follows the
/// first ` -> `.
pub open spec fn spec_rename_target(path: Seq<char>) -> Seq<char> {
    if spec_contains_sub(path, " -> "@) {
        path.skip(spec_find_sub(path, " -> "@) + 4)
    } else {
        path
    }
}

/// The entries for one porcelain line: two status characters and the
/// path. A non-blank index status other than `?` yields a staged entry; a
/// non-blank worktree status yields an unstaged entry, untracked files
/// keeping the `?` code. Short lines yield nothing.
pub open spec fn spec_porcelain_line(line: Seq<char>) -> Seq<GitFileEntryModel> {
    if line.len() < 4 {
        Seq::empty()
    } else {
        let index_status = line[0];
        let worktree_status = line[1];
        let path = spec_rename_target(line.skip(3));
        let staged_part: Seq<GitFileEntryModel> = if index_status != ' ' && index_status != '?' {
            seq![GitFileEntryModel { path: path, status: seq![index_status], staged: true }]
        } else {
            Seq::empty()
        };
        let worktree_part: Seq<GitFileEntryModel> = if worktree_status != ' ' {
            seq![
                GitFileEntryModel {
                    path: path,
                    status: if index_status == '?' {
                        seq!['?']
                    } else {
                        seq![worktree_status]
                    },
                    staged: false,
                },
            ]
        } else {
            Seq::empty()
        };
        staged_part + worktree_part
    }
}

pub open spec fn spec_porcelain_lines(lines: Seq<Seq<char>>) -> Seq<GitFileEntryModel>
    decreases lines.len(),
{
    if lines.len() == 0 {
        Seq::empty()
    } else {
        spec_porcelain_lines(lines.drop_last()) + spec_porcelain_line(lines.last())
    }
}

/// What `git status --porcelain=v1` output means, line by line.
pub open spec fn spec_parse_porcelain(s: Seq<char>) -> Seq<GitFileEntryModel> {
    spec_porcelain_lines(spec_lines(s))
}

/// Parse `git status --porcelain=v1` output.
pub fn parse_porcelain(output: &str) -> (r: Vec<GitFileEntry>)
    ensures
        r.deep_view() == spec_parse_porcelain(output@),
{
    let chars = str_chars(output);
    let lines = split_lines(&chars);
    let ghost ls = lines.deep_view();
    let arrow = str_chars(" -> ");
    let mut r: Vec<GitFileEntry> = Vec::new();
    let mut i: usize = 0;
    proof {
        assert(ls.take(0) =~= Seq::<Seq<char>>::empty());
        assert(r.deep_view() =~= spec_porcelain_lines(ls.take(0)));
        assert(lines@.len() == ls.len());
    }
    while i < lines.len()
        invariant
            i <= lines@.len(),
            lines@.len() == ls.len(),
            ls == lines.deep_view(),
            ls == spec_lines(chars@),
            chars@ == output@,
            arrow@ == " -> "@,
            r.deep_view() == spec_porcelain_lines(ls.take(i as int)),
        decreases lines@.len() - i,
    {
        proof {
            assert(lines@[i as int]@ == ls[i as int]);
            assert(ls.take(i as int + 1).drop_last() =~= ls.take(i as int));
            assert(ls.take(i as int + 1).last() == ls[i as int]);
        }
        let line = &lines[i];
        let ghost lv = ls[i as int];
        if line.len() < 4 {
            proof {
                assert(spec_porcelain_line(lv) =~= Seq::<GitFileEntryModel>::empty());
                assert(spec_porcelain_lines(ls.take(i as int + 1)) =~= spec_porcelain_lines(
                    ls.take(i as int),
                ));
            }
        } else {
            let index_status = line[0];
            let worktree_status = line[1];
            let rawpath = slice_chars(line, 3, line.len());
            proof {
                assert(rawpath@ =~= lv.skip(3));
            }
            let path_chars = match find_sub(&rawpath, &arrow) {
                Some(k) => {
                    proof {
                        lemma_spec_find_sub(rawpath@, " -> "@);
                        assert(spec_contains_sub(rawpath@, " -> "@));
                        let sf = spec_find_sub(rawpath@, " -> "@);
                        if sf < k {
                            assert(occurs_at(rawpath@, " -> "@, sf));
                        }
                        if k < sf {
                            assert(!occurs_at(rawpath@, " -> "@, k as int));
                        }
                        assert(k as int == sf);
                        reveal_strlit(" -> ");
                    }
                    slice_chars(&rawpath, k + 4, rawpath.len())
                },
                None => {
                    proof {
                        assert(!spec_contains_sub(rawpath@, " -> "@));
                    }
                    rawpath
                },
            };
            proof {
                assert(path_chars@ == spec_rename_target(lv.skip(3)));
            }
            let mut produced: usize = 0;
            let ghost before = r.deep_view();
            if index_status != ' ' && index_status != '?' {
                let path = chars_to_string(&path_chars);
                let status = char_string(index_status);
                let ghost r0 = r.deep_view();
                r.push(GitFileEntry { path, status, staged: true });
                proof {
                    assert(r.deep_view() =~~= r0.push(
                        GitFileEntryModel {
                            path: spec_rename_target(lv.skip(3)),
                            status: seq![lv[0]],
                            staged: true,
                        },
                    ));
                }
            }
            if worktree_status != ' ' {
                let path = chars_to_string(&path_chars);
                let status = if index_status == '?' {
                    char_string('?')
                } else {
                    char_string(worktree_status)
                };
                let ghost r0 = r.deep_view();
                r.push(GitFileEntry { path, status, staged: false });
                proof {
                    assert(r.deep_view() =~~= r0.push(
                        GitFileEntryModel {
                            path: spec_rename_target(lv.skip(3)),
                            status: if lv[0] == '?' {
                                seq!['?']
                            } else {
                                seq![lv[1]]
                            },
                            staged: false,
                        },
                    ));
                }
            }
            proof {
                assert(r.deep_view() =~= before + spec_porcelain_line(lv));
                assert(r.deep_view() =~= spec_porcelain_lines(ls.take(i as int + 1)));
            }
        }
        i += 1;
    }
    proof {
        assert(ls.take(ls.len() as int) =~= ls);
    }
    r
}

// ---------------------------------------------------------------------------
// Partitioning changed files
// ---------------------------------------------------------------------------

pub open spec fn spec_is_untracked(e: GitFileEntryModel) -> bool {
    e.status == seq!['?']
}

/// Partition changed files the way revert and the stat queries group
/// them: untracked files, staged files, and unstaged files, each in their
/// original order.
pub fn partition_file_entries(files: &Vec<GitFileEntry>) -> (r: (
    Vec<GitFileEntry>,
    Vec<GitFileEntry>,
    Vec<GitFileEntry>,
))
    ensures
        r.0.deep_view() == files.deep_view().filter(|e: GitFileEntryModel| spec_is_untracked(e)),
        r.1.deep_view() == files.deep_view().filter(
            |e: GitFileEntryModel| !spec_is_untracked(e) && e.staged,
        ),
        r.2.deep_view() == files.deep_view().filter(
            |e: GitFileEntryModel| !spec_is_untracked(e) && !e.staged,
        ),
{
    let ghost fs = files.deep_view();
    let ghost p_un = |e: GitFileEntryModel| spec_is_untracked(e);
    let ghost p_st = |e: GitFileEntryModel| !spec_is_untracked(e) && e.staged;
    let ghost p_wt = |e: GitFileEntryModel| !spec_is_untracked(e) && !e.staged;
    let mut untracked: Vec<GitFileEntry> = Vec::new();
    let mut staged: Vec<GitFileEntry> = Vec::new();
    let mut unstaged: Vec<GitFileEntry> = Vec::new();
    let mut i: usize = 0;
    proof {
        reveal(Seq::filter);
        assert(fs.take(0) =~= Seq::<GitFileEntryModel>::empty());
        assert(untracked.deep_view() =~= fs.take(0).filter(p_un));
        assert(staged.deep_view() =~= fs.take(0).filter(p_st));
        assert(unstaged.deep_view() =~= fs.take(0).filter(p_wt));
        assert(files@.len() == fs.len());
    }
    while i < files.len()
        invariant
            i <= files@.len(),
            files@.len() == fs.len(),
            fs == files.deep_view(),
            p_un == (|e: GitFileEntryModel| spec_is_untracked(e)),
            p_st == (|e: GitFileEntryModel| !spec_is_untracked(e) && e.staged),
            p_wt == (|e: GitFileEntryModel| !spec_is_untracked(e) && !e.staged),
            untracked.deep_view() == fs.take(i as int).filter(p_un),
            staged.deep_view() == fs.take(i as int).filter(p_st),
            unstaged.deep_view() == fs.take(i as int).filter(p_wt),
        decreases files@.len() - i,
    {
        proof {
            reveal(Seq::filter);
            assert(files@[i as int].deep_view() == fs[i as int]);
            assert(fs.take(i as int + 1).drop_last() =~= fs.take(i as int));
            assert(fs.take(i as int + 1).last() == fs[i as int]);
            reveal_strlit("?");
            assert("?"@ =~= seq!['?']);
        }
        let f = files[i].clone();
        let is_untracked = string_eq_str(&f.status, "?");
        if is_untracked {
            let ghost r0 = untracked.deep_view();
            untracked.push(f);
            proof {
                reveal(Seq::filter);
                assert(untracked.deep_view() =~~= r0.push(fs[i as int]));
                assert(untracked.deep_view() =~= fs.take(i as int + 1).filter(p_un));
                assert(staged.deep_view() =~= fs.take(i as int + 1).filter(p_st));
                assert(unstaged.deep_view() =~= fs.take(i as int + 1).filter(p_wt));
            }
        } else if f.staged {
            let ghost r0 = staged.deep_view();
            staged.push(f);
            proof {
                reveal(Seq::filter);
                assert(staged.deep_view() =~~= r0.push(fs[i as int]));
                assert(untracked.deep_view() =~= fs.take(i as int + 1).filter(p_un));
                assert(staged.deep_view() =~= fs.take(i as int + 1).filter(p_st));
                assert(unstaged.deep_view() =~= fs.take(i as int + 1).filter(p_wt));
            }
        } else {
            let ghost r0 = unstaged.deep_view();
            unstaged.push(f);
            proof {
                reveal(Seq::filter);
                assert(unstaged.deep_view() =~~= r0.push(fs[i as int]));
                assert(untracked.deep_view() =~= fs.take(i as int + 1).filter(p_un));
                assert(staged.deep_view() =~= fs.take(i as int + 1).filter(p_st));
                assert(unstaged.deep_view() =~= fs.take(i as int + 1).filter(p_wt));
            }
        }
        i += 1;
    }
    proof {
        assert(fs.take(fs.len() as int) =~= fs);
    }
    (untracked, staged, unstaged)
}

// ---------------------------------------------------------------------------
// Synthetic diffs for untracked files
// ---------------------------------------------------------------------------

pub open spec fn spec_plus_lines(lines: Seq<Seq<char>>) -> Seq<char>
    decreases lines.len(),
{
    if lines.len() == 0 {
        Seq::empty()
    } else {
        spec_plus_lines(lines.drop_last()) + seq!['+'] + lines.last() + seq!['\n']
    }
}

/// The synthetic diff shown for an untracked file: a unified-diff header
/// against `/dev/null` and every line of the file as an insertion.
pub open spec fn spec_synthetic_diff(path: Seq<char>, contents: Seq<char>) -> Seq<char> {
    "--- /dev/null\n+++ b/"@ + path + "\n@@ -0,0 +1,"@ + spec_dec_str(
        spec_lines(contents).len(),
    ) + " @@\n"@ + spec_plus_lines(spec_lines(contents))
}

/// Build the synthetic diff for an untracked file from its contents.
pub fn synthetic_diff(file_path: &str, contents: &str) -> (r: String)
    ensures
        r@ == spec_synthetic_diff(file_path@, contents@),
{
    let chars = str_chars(contents);
    let lines = split_lines(&chars);
    let ghost ls = lines.deep_view();
    let mut out: Vec<char> = Vec::new();
    push_str_chars("--- /dev/null\n+++ b/", &mut out);
    push_str_chars(file_path, &mut out);
    push_str_chars("\n@@ -0,0 +1,", &mut out);
    proof {
        assert(lines@.len() == ls.len());
    }
    let n: u64 = lines.len() as u64;
    push_dec(n, &mut out);
    push_str_chars(" @@\n", &mut out);
    let ghost base = out@;
    let mut i: usize = 0;
    proof {
        assert(ls.take(0) =~= Seq::<Seq<char>>::empty());
        assert(base + spec_plus_lines(ls.take(0)) =~= base);
    }
    while i < lines.len()
        invariant
            i <= lines@.len(),
            lines@.len() == ls.len(),
            ls == lines.deep_view(),
            out@ == base + spec_plus_lines(ls.take(i as int)),
        decreases lines@.len() - i,
    {
        proof {
            assert(lines@[i as int]@ == ls[i as int]);
            assert(ls.take(i as int + 1).drop_last() =~= ls.take(i as int));
            assert(ls.take(i as int + 1).last() == ls[i as int]);
        }
        out.push('+');
        let ghost mid = out@;
        let line = &lines[i];
        let mut k: usize = 0;
        proof {
            assert(mid + line@.take(0) =~= mid);
        }
        while k < line.len()
            invariant
                k <= line@.len(),
                out@ == mid + line@.take(k as int),
            decreases line@.len() - k,
        {
            out.push(line[k]);
            assert(out@ =~= mid + line@.take(k + 1));
            k += 1;
        }
        out.push('\n');
        proof {
            assert(line@.take(line@.len() as int) =~= line@);
            assert(out@ =~= base + spec_plus_lines(ls.take(i as int + 1)));
        }
        i += 1;
    }
    proof {
        assert(ls.take(ls.len() as int) =~= ls);
        assert(out@ =~= spec_synthetic_diff(file_path@, contents@));
    }
    chars_to_string(&out)
}

/// The number of lines in a file's contents, as the untracked-file stat
/// counts insertions; files beyond four billion lines wrap.
pub fn count_lines(contents: &str) -> (r: u32)
    ensures
        r == spec_lines(contents@).len() as u32,
{
    let chars = str_chars(contents);
    let lines = split_lines(&chars);
    proof {
        assert(lines@.len() == lines.deep_view().len());
    }
    #[verifier::truncate] (lines.len() as u32)
}

} // verus!

//! Recognising loose-object files and grouping duplicates.
//!
//! Paths are plain `/`-separated strings.  A loose object lives two
//! levels below an object-store directory: a fan-out directory named by
//! two hexadecimal digits, then a file named by the remaining
//! thirty-eight digits of the content hash.

use std::collections::HashMap;

use vstd::prelude::*;
use vstd::string::StrSliceExecFns;
use vstd::string::StringExecFns;

use crate::text::{
    ends_with, lemma_lex_le_antisym, lemma_lex_le_refl, lemma_lex_le_total, lemma_lex_le_trans,
    lex_lt, str_ends_with, str_eq, str_le,
};

verus! {

/// One loose object file found on disk, together with the filesystem
/// identity metadata needed to plan hardlink sharing.
#[derive(Debug)]
pub struct GitObjectInfo {
    /// Path of the file.
    pub path: String,
    /// Content hash: fan-out directory name concatenated with the file name.
    pub hash: String,
    /// Last-modified timestamp, as an opaque monotone value.
    pub created: u64,
    /// File size in bytes.
    pub size: u64,
    /// Inode number.
    pub inode: u64,
    /// Device identifier.
    pub device: u64,
}

impl Clone for GitObjectInfo {
    fn clone(&self) -> (r: Self)
        ensures
            r == *self,
    {
        GitObjectInfo {
            path: self.path.clone(),
            hash: self.hash.clone(),
            created: self.created,
            size: self.size,
            inode: self.inode,
            device: self.device,
        }
    }
}

/// A hexadecimal digit, in either case.
pub open spec fn is_hex_char(c: char) -> bool {
    ('0' <= c && c <= '9') || ('a' <= c && c <= 'f') || ('A' <= c && c <= 'F')
}

/// Every character of `s` is a hexadecimal digit.
pub open spec fn all_hex(s: Seq<char>) -> bool {
    forall|i: int| 0 <= i < s.len() ==> is_hex_char(#[trigger] s[i])
}

/// The fan-out directory name and file name of a loose object: two and
/// thirty-eight hexadecimal digits respectively.
pub open spec fn valid_object_names(dir: Seq<char>, file: Seq<char>) -> bool {
    dir.len() == 2 && file.len() == 38 && all_hex(dir) && all_hex(file)
}

/// Whether `c` is a hexadecimal digit.
fn is_hex_digit(c: char) -> (r: bool)
    ensures
        r == is_hex_char(c),
{
    ('0' <= c && c <= '9') || ('a' <= c && c <= 'f') || ('A' <= c && c <= 'F')
}

/// Whether every character of `s` is a hexadecimal digit.
fn all_hex_digits(s: &str) -> (r: bool)
    ensures
        r == all_hex(s@),
{
    let n = s.unicode_len();
    let mut i: usize = 0;
    while i < n
        invariant
            0 <= i <= n,
            n == s@.len(),
            forall|j: int| 0 <= j < i ==> is_hex_char(#[trigger] s@[j]),
        decreases n - i,
    {
        if !is_hex_digit(s.get_char(i)) {
            return false;
        }
        i = i + 1;
    }
    true
}

/// Index of the last `/` in `s`, or `-1` if there is none.
pub open spec fn last_slash(s: Seq<char>) -> int
    decreases s.len(),
{
    if s.len() == 0 {
        -1
    } else if s[s.len() - 1] == '/' {
        s.len() - 1
    } else {
        last_slash(s.drop_last())
    }
}

/// The characters after the last `/`, or all of `p` if there is none.
pub open spec fn file_name_of(p: Seq<char>) -> Seq<char> {
    p.subrange(last_slash(p) + 1, p.len() as int)
}

/// The characters before the last `/`, or empty if there is none.
pub open spec fn parent_of(p: Seq<char>) -> Seq<char> {
    if last_slash(p) >= 0 {
        p.subrange(0, last_slash(p))
    } else {
        Seq::empty()
    }
}

/// The name of the directory that directly holds `p`.
pub open spec fn dir_name_of(p: Seq<char>) -> Seq<char> {
    file_name_of(parent_of(p))
}

proof fn lemma_last_slash_bounds(s: Seq<char>)
    ensures
        -1 <= last_slash(s) < s.len(),
        last_slash(s) >= 0 ==> s[last_slash(s)] == '/',
        forall|j: int| last_slash(s) < j < s.len() ==> s[j] != '/',
    decreases s.len(),
{
    if s.len() != 0 && s[s.len() - 1] != '/' {
        lemma_last_slash_bounds(s.drop_last());
        assert forall|j: int| last_slash(s) < j < s.len() implies s[j] != '/' by {
            if j < s.len() - 1 {
                assert(s.drop_last()[j] == s[j]);
            }
        }
        if last_slash(s) >= 0 {
            assert(s.drop_last()[last_slash(s)] == s[last_slash(s)]);
        }
    }
}

proof fn lemma_last_slash_at(s: Seq<char>, k: int)
    requires
        0 <= k < s.len(),
        s[k] == '/',
        forall|j: int| k < j < s.len() ==> s[j] != '/',
    ensures
        last_slash(s) == k,
    decreases s.len(),
{
    if k < s.len() - 1 {
        assert(s[s.len() - 1] != '/');
        assert(s.drop_last()[k] == s[k]);
        assert forall|j: int| k < j < s.drop_last().len() implies s.drop_last()[j] != '/' by {
            assert(s.drop_last()[j] == s[j]);
        }
        lemma_last_slash_at(s.drop_last(), k);
    }
}

/// Position of the last `/` in `s`, if any.
fn find_last_slash(s: &str) -> (r: Option<usize>)
    ensures
        match r {
            Some(i) => i == last_slash(s@),
            None => last_slash(s@) == -1,
        },
{
    proof {
        lemma_last_slash_bounds(s@);
    }
    let n = s.unicode_len();
    let mut i: usize = n;
    while i > 0
        invariant
            0 <= i <= n,
            n == s@.len(),
            forall|j: int| i <= j < n ==> s@[j] != '/',
        decreases i,
    {
        if s.get_char(i - 1) == '/' {
            proof {
                lemma_last_slash_at(s@, i - 1);
            }
            return Some(i - 1);
        }
        i = i - 1;
    }
    None
}

impl GitObjectInfo {
    /// Builds the record for one candidate loose-object file.
    ///
    /// Succeeds exactly when the name of the directory holding `path`
    /// is two hexadecimal digits and the file name is thirty-eight;
    /// the hash of the record is their concatenation.  The caller
    /// supplies the filesystem metadata of the file as plain values.
    pub fn from_path(path: &str, created: u64, size: u64, inode: u64, device: u64) -> (r: Option<
        GitObjectInfo,
    >)
        ensures
            match r {
                Some(o) => {
                    &&& valid_object_names(dir_name_of(path@), file_name_of(path@))
                    &&& o.path@ == path@
                    &&& o.hash@ == dir_name_of(path@) + file_name_of(path@)
                    &&& o.created == created
                    &&& o.size == size
                    &&& o.inode == inode
                    &&& o.device == device
                },
                None => !valid_object_names(dir_name_of(path@), file_name_of(path@)),
            },
    {
        proof {
            lemma_last_slash_bounds(path@);
        }
        let n = path.unicode_len();
        let j = match find_last_slash(path) {
            None => {
                proof {
                    assert(parent_of(path@) =~= Seq::<char>::empty());
                    assert(dir_name_of(path@) =~= Seq::<char>::empty());
                }
                return None;
            },
            Some(j) => j,
        };
        let parent = path.substring_char(0, j);
        let file_s = path.substring_char(j + 1, n);
        assert(file_s@ == file_name_of(path@));
        assert(parent@ == parent_of(path@));
        proof {
            lemma_last_slash_bounds(parent@);
        }
        let dir_s = match find_last_slash(parent) {
            None => {
                assert(parent@.subrange(0, parent@.len() as int) =~= parent@);
                parent
            },
            Some(k) => parent.substring_char(k + 1, j),
        };
        assert(dir_s@ == dir_name_of(path@));
        if dir_s.unicode_len() != 2 || file_s.unicode_len() != 38 {
            return None;
        }
        if !all_hex_digits(dir_s) || !all_hex_digits(file_s) {
            return None;
        }
        let hash = String::from_str(dir_s).concat(file_s);
        Some(
            GitObjectInfo {
                path: path.to_owned(),
                hash,
                created,
                size,
                inode,
                device,
            },
        )
    }
}

/// Filesystem metadata of one file, as plain values.
#[derive(Debug, Clone, Copy)]
pub struct FileMeta {
    /// Last-modified timestamp, as an opaque monotone value.
    pub created: u64,
    /// File size in bytes.
    pub size: u64,
    /// Inode number.
    pub inode: u64,
    /// Device identifier.
    pub device: u64,
}

/// One entry of a recursive directory listing, handed in by the caller.
/// `meta` is `None` when the file's metadata could not be read; such an
/// entry is skipped rather than failing the scan.
#[derive(Debug)]
pub struct FsEntry {
    /// Path of the entry.
    pub path: String,
    /// Whether the entry is a directory.
    pub is_dir: bool,
    /// Whether the entry is a regular file.
    pub is_file: bool,
    /// Metadata, for file entries whose metadata could be read.
    pub meta: Option<FileMeta>,
}

/// Whether the last two segments of `p` are `.git` then `objects`.
pub open spec fn is_objects_dir_path(p: Seq<char>) -> bool {
    p == ".git/objects"@ || ends_with(p, "/.git/objects"@)
}

/// The repository root that an object-store path belongs to: the path
/// with its trailing `/.git/objects` removed.
pub open spec fn repo_root_of(p: Seq<char>) -> Seq<char> {
    if p == ".git/objects"@ {
        Seq::empty()
    } else {
        p.subrange(0, p.len() - "/.git/objects"@.len())
    }
}

/// Whether the listing holds a directory entry at path `q` that is an
/// object-store root.
pub open spec fn listed_objects_dir(entries: Seq<FsEntry>, q: Seq<char>) -> bool {
    exists|i: int|
        0 <= i < entries.len() && (#[trigger] entries[i]).is_dir && entries[i].path@ == q
            && is_objects_dir_path(q)
}

/// Whether `e` is a loose-object file of the listing: a readable file
/// two levels below a listed object-store root, its directory name two
/// hexadecimal digits and its file name thirty-eight.  The `pack` and
/// `info` directories can never match the two-digit pattern, so they
/// are excluded by the name check itself.
pub open spec fn loose_object_entry(entries: Seq<FsEntry>, e: FsEntry) -> bool {
    &&& e.is_file
    &&& e.meta is Some
    &&& valid_object_names(dir_name_of(e.path@), file_name_of(e.path@))
    &&& listed_objects_dir(entries, parent_of(parent_of(e.path@)))
}

/// The predicate of `loose_object_entry`, as a function value.
pub open spec fn loose_pred(entries: Seq<FsEntry>) -> spec_fn(FsEntry) -> bool {
    |e: FsEntry| loose_object_entry(entries, e)
}

/// The sub-listing of loose-object files, in listing order.
pub open spec fn loose_candidates(entries: Seq<FsEntry>) -> Seq<FsEntry> {
    entries.filter(loose_pred(entries))
}

/// Whether record `o` describes the file of entry `e`.
pub open spec fn record_matches(o: GitObjectInfo, e: FsEntry) -> bool {
    &&& o.path@ == e.path@
    &&& o.hash@ == dir_name_of(e.path@) + file_name_of(e.path@)
    &&& e.meta matches Some(m) && o.created == m.created && o.size == m.size && o.inode
        == m.inode && o.device == m.device
}

/// Whether the string slice names an object-store root.
pub fn is_objects_dir(s: &str) -> (r: bool)
    ensures
        r == is_objects_dir_path(s@),
{
    str_eq(s, ".git/objects") || str_ends_with(s, "/.git/objects")
}

/// The characters of `s` before its last `/`, or the empty slice.
fn parent_str<'a>(s: &'a str) -> (r: &'a str)
    ensures
        r@ == parent_of(s@),
{
    proof {
        lemma_last_slash_bounds(s@);
    }
    match find_last_slash(s) {
        None => {
            let r = s.substring_char(0, 0);
            proof {
                assert(r@ =~= parent_of(s@));
            }
            r
        },
        Some(j) => s.substring_char(0, j),
    }
}

/// Whether the listing holds a directory entry at path `q` that is an
/// object-store root.
fn is_listed_objects_dir(entries: &Vec<FsEntry>, q: &str) -> (r: bool)
    ensures
        r == listed_objects_dir(entries@, q@),
{
    let mut i: usize = 0;
    while i < entries.len()
        invariant
            0 <= i <= entries@.len(),
            forall|k: int|
                0 <= k < i ==> !((#[trigger] entries@[k]).is_dir && entries@[k].path@ == q@
                    && is_objects_dir_path(q@)),
        decreases entries@.len() - i,
    {
        let e = &entries[i];
        if e.is_dir && is_objects_dir(e.path.as_str()) && str_eq(e.path.as_str(), q) {
            return true;
        }
        i = i + 1;
    }
    false
}

/// Walks the listing and returns one record per loose-object file, in
/// listing order.
pub fn scan_git_objects(entries: &Vec<FsEntry>) -> (r: Vec<GitObjectInfo>)
    ensures
        r@.len() == loose_candidates(entries@).len(),
        forall|i: int|
            0 <= i < r@.len() ==> record_matches(#[trigger] r@[i], loose_candidates(entries@)[i]),
{
    let ghost pred = loose_pred(entries@);
    let mut out: Vec<GitObjectInfo> = Vec::new();
    let mut i: usize = 0;
    while i < entries.len()
        invariant
            0 <= i <= entries@.len(),
            pred == loose_pred(entries@),
            out@.len() == entries@.take(i as int).filter(pred).len(),
            forall|k: int|
                0 <= k < out@.len() ==> record_matches(
                    #[trigger] out@[k],
                    entries@.take(i as int).filter(pred)[k],
                ),
        decreases entries@.len() - i,
    {
        let ghost prev = entries@.take(i as int);
        let e = &entries[i];
        let mut accepted = false;
        if e.is_file {
            if let Some(m) = e.meta {
                if let Some(rec) = GitObjectInfo::from_path(
                    e.path.as_str(),
                    m.created,
                    m.size,
                    m.inode,
                    m.device,
                )
                {
                    let gp = parent_str(parent_str(e.path.as_str()));
                    if is_listed_objects_dir(entries, gp) {
                        out.push(rec);
                        accepted = true;
                    }
                }
            }
        }
        proof {
            assert(accepted == pred(entries@[i as int]));
            assert(entries@.take(i as int + 1) =~= prev.push(entries@[i as int]));
            prev.lemma_filter_push(entries@[i as int], pred);
        }
        i = i + 1;
    }
    proof {
        assert(entries@.take(entries@.len() as int) =~= entries@);
    }
    out
}

/// The sequence of strings is strictly increasing in lexicographic
/// order; in particular it holds no string twice.
pub open spec fn strictly_sorted(v: Seq<String>) -> bool {
    forall|i: int, j: int| 0 <= i < j < v.len() ==> lex_lt(#[trigger] v[i]@, #[trigger] v[j]@)
}

/// The repository root of a listed object-store path.
fn repo_root_string(s: &str) -> (r: String)
    requires
        is_objects_dir_path(s@),
    ensures
        r@ == repo_root_of(s@),
{
    if str_eq(s, ".git/objects") {
        String::new()
    } else {
        let n = s.unicode_len();
        let m = "/.git/objects".unicode_len();
        String::from_str(s.substring_char(0, n - m))
    }
}

/// Whether some string of `v` has exactly the characters `x`.
pub open spec fn view_in(v: Seq<String>, x: Seq<char>) -> bool {
    exists|k: int| 0 <= k < v.len() && (#[trigger] v[k])@ == x
}

/// Whether an entry is a listed object-store directory.
pub open spec fn objects_dir_entry(e: FsEntry) -> bool {
    e.is_dir && is_objects_dir_path(e.path@)
}

/// Whether `x` is the repository root of one of the first `n` entries.
pub open spec fn repo_root_upto(entries: Seq<FsEntry>, n: int, x: Seq<char>) -> bool {
    exists|idx: int|
        0 <= idx < n && objects_dir_entry(#[trigger] entries[idx]) && x == repo_root_of(
            entries[idx].path@,
        )
}

/// Whether `x` is the repository root of a listed object-store
/// directory.
pub open spec fn is_repo_root(entries: Seq<FsEntry>, x: Seq<char>) -> bool {
    repo_root_upto(entries, entries.len() as int, x)
}

/// Inserts `s` into a strictly sorted vector, keeping it strictly
/// sorted; a string already present is not inserted twice.
fn insert_sorted_unique(v: &mut Vec<String>, s: String)
    requires
        strictly_sorted(old(v)@),
    ensures
        strictly_sorted(final(v)@),
        forall|x: Seq<char>|
            #![trigger view_in(final(v)@, x)]
            #![trigger view_in(old(v)@, x)]
            view_in(final(v)@, x) <==> (view_in(old(v)@, x) || x == s@),
{
    let ghost sview = s@;
    let mut i: usize = 0;
    while i < v.len() && !str_le(s.as_str(), v[i].as_str())
        invariant
            0 <= i <= v@.len(),
            strictly_sorted(v@),
            v@ == old(v)@,
            sview == s@,
            forall|j: int| 0 <= j < i ==> lex_lt((#[trigger] v@[j])@, sview),
        decreases v@.len() - i,
    {
        proof {
            lemma_lex_le_total(sview, v@[i as int]@);
            if v@[i as int]@ == sview {
                lemma_lex_le_refl(sview);
                assert(false);
            }
        }
        i = i + 1;
    }
    if i < v.len() && str_eq(v[i].as_str(), s.as_str()) {
        proof {
            assert forall|x: Seq<char>| view_in(v@, x) <==> (view_in(v@, x) || x == sview) by {
                if x == sview {
                    assert(v@[i as int]@ == x);
                    assert(view_in(v@, x));
                }
            }
        }
        return ;
    }
    proof {
        if i < v@.len() {
            assert(lex_lt(sview, v@[i as int]@));
        }
    }
    let ghost prev = v@;
    v.insert(i, s);
    proof {
        let ii = i as int;
        assert forall|a: int, b: int| 0 <= a < b < v@.len() implies lex_lt(
            (#[trigger] v@[a])@,
            (#[trigger] v@[b])@,
        ) by {
            if a < ii && b == ii {
                assert(v@[a]@ == prev[a]@);
            } else if b > ii {
                assert(v@[b]@ == prev[b - 1]@);
                if a < ii {
                    assert(v@[a]@ == prev[a]@);
                } else if a > ii {
                    assert(v@[a]@ == prev[a - 1]@);
                }
                if a == ii && ii < b - 1 {
                    assert(lex_lt(prev[ii]@, prev[b - 1]@));
                    lemma_lex_le_trans(sview, prev[ii]@, prev[b - 1]@);
                    if sview == prev[b - 1]@ {
                        lemma_lex_le_antisym(prev[ii]@, prev[b - 1]@);
                        assert(false);
                    }
                }
            } else {
                assert(v@[a]@ == prev[a]@);
                assert(v@[b]@ == prev[b]@);
            }
        }
        assert forall|x: Seq<char>| #![trigger view_in(v@, x)] #![trigger view_in(prev, x)]
            view_in(v@, x) <==> (view_in(prev, x) || x == sview) by {
            if view_in(v@, x) {
                let k = choose|k: int| 0 <= k < v@.len() && (#[trigger] v@[k])@ == x;
                if k < ii {
                    assert(prev[k]@ == x);
                    assert(view_in(prev, x));
                } else if k > ii {
                    assert(prev[k - 1]@ == x);
                    assert(view_in(prev, x));
                }
            }
            if x == sview {
                assert(v@[ii]@ == x);
                assert(view_in(v@, x));
            }
            if view_in(prev, x) {
                let k = choose|k: int| 0 <= k < prev.len() && (#[trigger] prev[k])@ == x;
                if k < ii {
                    assert(v@[k]@ == x);
                } else {
                    assert(v@[k + 1]@ == x);
                }
                assert(view_in(v@, x));
            }
        }
    }
}

/// Collects the repository roots found in the listing: for every listed
/// object-store directory, the path above its `/.git/objects` suffix.
/// The result is deduplicated and strictly sorted.
pub fn find_git_repositories(entries: &Vec<FsEntry>) -> (r: Vec<String>)
    ensures
        strictly_sorted(r@),
        forall|x: Seq<char>| #[trigger] view_in(r@, x) <==> is_repo_root(entries@, x),
{
    let mut repos: Vec<String> = Vec::new();
    let mut i: usize = 0;
    while i < entries.len()
        invariant
            0 <= i <= entries@.len(),
            strictly_sorted(repos@),
            forall|x: Seq<char>| #[trigger] view_in(repos@, x) <==> repo_root_upto(
                entries@,
                i as int,
                x,
            ),
        decreases entries@.len() - i,
    {
        let ghost prev = repos@;
        let e = &entries[i];
        let ghost ii = i as int;
        if e.is_dir && is_objects_dir(e.path.as_str()) {
            let root = repo_root_string(e.path.as_str());
            let ghost rootview = root@;
            insert_sorted_unique(&mut repos, root);
            proof {
                assert forall|x: Seq<char>| #[trigger] view_in(repos@, x) <==> repo_root_upto(
                    entries@,
                    ii + 1,
                    x,
                ) by {
                    if view_in(repos@, x) {
                        if x == rootview {
                            assert(objects_dir_entry(entries@[ii]));
                            assert(repo_root_upto(entries@, ii + 1, x));
                        } else {
                            assert(view_in(prev, x));
                            assert(repo_root_upto(entries@, ii, x));
                            let idx = choose|idx: int|
                                0 <= idx < ii && objects_dir_entry(#[trigger] entries@[idx]) && x
                                    == repo_root_of(entries@[idx].path@);
                            assert(repo_root_upto(entries@, ii + 1, x));
                        }
                    }
                    if repo_root_upto(entries@, ii + 1, x) {
                        let idx = choose|idx: int|
                            0 <= idx < ii + 1 && objects_dir_entry(#[trigger] entries@[idx]) && x
                                == repo_root_of(entries@[idx].path@);
                        if idx == ii {
                            assert(x == rootview);
                            assert(view_in(repos@, x));
                        } else {
                            assert(repo_root_upto(entries@, ii, x));
                            assert(view_in(prev, x));
                            assert(view_in(repos@, x));
                        }
                    }
                }
            }
        } else {
            proof {
                assert forall|x: Seq<char>| #[trigger] view_in(repos@, x) <==> repo_root_upto(
                    entries@,
                    ii + 1,
                    x,
                ) by {
                    assert(!objects_dir_entry(entries@[ii]));
                    if view_in(repos@, x) {
                        assert(repo_root_upto(entries@, ii, x));
                        let idx = choose|idx: int|
                            0 <= idx < ii && objects_dir_entry(#[trigger] entries@[idx]) && x
                                == repo_root_of(entries@[idx].path@);
                        assert(repo_root_upto(entries@, ii + 1, x));
                    }
                    if repo_root_upto(entries@, ii + 1, x) {
                        let idx = choose|idx: int|
                            0 <= idx < ii + 1 && objects_dir_entry(#[trigger] entries@[idx]) && x
                                == repo_root_of(entries@[idx].path@);
                        assert(idx < ii);
                        assert(repo_root_upto(entries@, ii, x));
                    }
                }
            }
        }
        i = i + 1;
    }
    repos
}

/// Records with equal device identifier and inode number are the same
/// physical file: a pre-existing hardlink cluster.
pub open spec fn same_identity(a: GitObjectInfo, b: GitObjectInfo) -> bool {
    a.device == b.device && a.inode == b.inode
}

/// The predicate selecting records on device `d`.
pub open spec fn device_pred(d: u64) -> spec_fn(GitObjectInfo) -> bool {
    |o: GitObjectInfo| o.device == d
}

/// Whether the vector holds `x`.
fn contains_u64(v: &Vec<u64>, x: u64) -> (r: bool)
    ensures
        r == v@.contains(x),
{
    let mut i: usize = 0;
    while i < v.len()
        invariant
            0 <= i <= v@.len(),
            forall|j: int| 0 <= j < i ==> v@[j] != x,
        decreases v@.len() - i,
    {
        if v[i] == x {
            assert(v@.contains(x));
            return true;
        }
        i = i + 1;
    }
    false
}

/// Partitions the records by device identifier.  Hardlinks cannot span
/// filesystems, so later stages work on one device at a time.
pub fn group_by_device(objects: Vec<GitObjectInfo>) -> (m: HashMap<u64, Vec<GitObjectInfo>>)
    ensures
        forall|d: u64|
            #[trigger] m@.contains_key(d) <==> exists|i: int|
                0 <= i < objects@.len() && (#[trigger] objects@[i]).device == d,
        forall|d: u64| #[trigger] m@.contains_key(d) ==> (m@[d])@ == objects@.filter(device_pred(d)),
{
    broadcast use vstd::std_specs::hash::group_hash_axioms;

    let mut devices: Vec<u64> = Vec::new();
    let mut i: usize = 0;
    while i < objects.len()
        invariant
            0 <= i <= objects@.len(),
            forall|d: u64|
                #[trigger] devices@.contains(d) <==> exists|t: int|
                    0 <= t < i && (#[trigger] objects@[t]).device == d,
        decreases objects@.len() - i,
    {
        let ghost prev = devices@;
        let d = objects[i].device;
        if !contains_u64(&devices, d) {
            devices.push(d);
        }
        proof {
            assert(devices@.contains(d)) by {
                if prev.contains(d) {
                    let t = choose|t: int| 0 <= t < prev.len() && prev[t] == d;
                    assert(devices@[t] == d);
                } else {
                    assert(devices@[devices@.len() - 1] == d);
                }
            }
            assert forall|d2: u64| #[trigger] devices@.contains(d2) implies exists|t: int|
                0 <= t < i + 1 && (#[trigger] objects@[t]).device == d2 by {
                if d2 == d {
                    assert(objects@[i as int].device == d2);
                } else {
                    let k = choose|k: int| 0 <= k < devices@.len() && devices@[k] == d2;
                    assert(prev[k] == d2);
                    assert(prev.contains(d2));
                }
            }
            assert forall|d2: u64|
                exists|t: int| 0 <= t < i + 1 && (#[trigger] objects@[t]).device == d2
                implies #[trigger] devices@.contains(d2) by {
                let t = choose|t: int| 0 <= t < i + 1 && (#[trigger] objects@[t]).device == d2;
                if t < i {
                    assert(prev.contains(d2));
                    let k = choose|k: int| 0 <= k < prev.len() && prev[k] == d2;
                    assert(devices@[k] == d2);
                }
            }
        }
        i = i + 1;
    }
    let mut m: HashMap<u64, Vec<GitObjectInfo>> = HashMap::new();
    let mut k: usize = 0;
    while k < devices.len()
        invariant
            0 <= k <= devices@.len(),
            forall|d: u64|
                #[trigger] m@.contains_key(d) <==> exists|t: int|
                    0 <= t < k && devices@[t] == d,
            forall|d: u64|
                #[trigger] m@.contains_key(d) ==> (m@[d])@ == objects@.filter(device_pred(d)),
            forall|d: u64|
                #[trigger] devices@.contains(d) <==> exists|t: int|
                    0 <= t < objects@.len() && (#[trigger] objects@[t]).device == d,
        decreases devices@.len() - k,
    {
        let d = devices[k];
        let ghost pred = device_pred(d);
        let mut group: Vec<GitObjectInfo> = Vec::new();
        let mut j: usize = 0;
        while j < objects.len()
            invariant
                0 <= j <= objects@.len(),
                pred == device_pred(d),
                group@ == objects@.take(j as int).filter(pred),
            decreases objects@.len() - j,
        {
            let ghost prefix = objects@.take(j as int);
            if objects[j].device == d {
                group.push(objects[j].clone());
            }
            proof {
                assert(objects@.take(j as int + 1) =~= prefix.push(objects@[j as int]));
                prefix.lemma_filter_push(objects@[j as int], pred);
            }
            j = j + 1;
        }
        proof {
            assert(objects@.take(objects@.len() as int) =~= objects@);
        }
        let ghost prevmap = m@;
        let ghost gval = group;
        m.insert(d, group);
        proof {
            assert(gval@ == objects@.filter(device_pred(d)));
            assert(m@ == prevmap.insert(d, gval));
            assert forall|d2: u64| #[trigger] m@.contains_key(d2) <==> exists|t: int|
                0 <= t < k + 1 && devices@[t] == d2 by {
                if d2 == d {
                    assert(devices@[k as int] == d2);
                } else {
                    assert(m@.contains_key(d2) == prevmap.contains_key(d2));
                }
            }
        }
        k = k + 1;
    }
    proof {
        assert forall|d: u64| #[trigger] m@.contains_key(d) <==> exists|i2: int|
            0 <= i2 < objects@.len() && (#[trigger] objects@[i2]).device == d by {
            if m@.contains_key(d) {
                let t = choose|t: int| 0 <= t < devices@.len() && devices@[t] == d;
                assert(devices@.contains(d));
            }
            if exists|i2: int| 0 <= i2 < objects@.len() && (#[trigger] objects@[i2]).device == d {
                assert(devices@.contains(d));
                let t = choose|t: int| 0 <= t < devices@.len() && devices@[t] == d;
                assert(0 <= t < devices@.len() && devices@[t] == d);
            }
        }
    }
    m
}

/// One content hash with at least one replaceable copy: the chosen
/// canonical source and the records to be replaced by hardlinks to it.
#[derive(Debug)]
pub struct DuplicateGroup {
    /// The record whose file survives as the canonical copy.
    pub source: GitObjectInfo,
    /// The records to replace; never empty, and never the same physical
    /// file as `source`.
    pub duplicates: Vec<GitObjectInfo>,
}

/// The predicate selecting records whose hash is `h`.
pub open spec fn hash_pred(h: Seq<char>) -> spec_fn(GitObjectInfo) -> bool {
    |o: GitObjectInfo| o.hash@ == h
}

/// The predicate selecting records that are the physical file
/// `(d, ino)`.
pub open spec fn identity_pred(d: u64, ino: u64) -> spec_fn(GitObjectInfo) -> bool {
    |o: GitObjectInfo| o.device == d && o.inode == ino
}

/// The predicate selecting records that are not the same physical file
/// as `src`.
pub open spec fn not_linked_pred(src: GitObjectInfo) -> spec_fn(GitObjectInfo) -> bool {
    |o: GitObjectInfo| !same_identity(o, src)
}

/// How many records of `s` are the physical file `(d, ino)`.
pub open spec fn cluster_count(s: Seq<GitObjectInfo>, d: u64, ino: u64) -> nat {
    s.filter(identity_pred(d, ino)).len()
}

/// Whether two records of `s` are distinct physical files, so that a
/// replacement could share them.
pub open spec fn has_replaceable(s: Seq<GitObjectInfo>) -> bool {
    exists|i: int, j: int|
        0 <= i < s.len() && 0 <= j < s.len() && !same_identity(#[trigger] s[i], #[trigger] s[j])
}

/// What the group chosen from `files` satisfies: the source is one of
/// the records, drawn from a largest hardlink cluster (ties broken
/// towards the cluster with the earliest member, then towards the
/// cluster met first), earliest within its cluster; the duplicates are
/// exactly the records outside the source's cluster, in input order.
pub open spec fn group_selected(files: Seq<GitObjectInfo>, g: DuplicateGroup) -> bool {
    &&& files.contains(g.source)
    &&& g.duplicates@ == files.filter(not_linked_pred(g.source))
    &&& g.duplicates@.len() >= 1
    &&& forall|i: int|
        0 <= i < files.len() ==> cluster_count(
            files,
            (#[trigger] files[i]).device,
            files[i].inode,
        ) <= cluster_count(files, g.source.device, g.source.inode)
    &&& forall|i: int|
        0 <= i < files.len() && cluster_count(
            files,
            (#[trigger] files[i]).device,
            files[i].inode,
        ) == cluster_count(files, g.source.device, g.source.inode) ==> g.source.created
            <= files[i].created
}

/// One pre-existing hardlink cluster: the records of `files` that are
/// the physical file `(device, inode)`.
struct Cluster {
    device: u64,
    inode: u64,
    members: Vec<GitObjectInfo>,
}

/// Whether some cluster carries the physical identity of record `o`.
spec fn has_cluster_for(clusters: Seq<Cluster>, o: GitObjectInfo) -> bool {
    exists|k: int|
        0 <= k < clusters.len() && (#[trigger] clusters[k]).device == o.device
            && clusters[k].inode == o.inode
}

/// Position of the cluster with the given identity, if any.
fn find_cluster(clusters: &Vec<Cluster>, d: u64, ino: u64) -> (r: Option<usize>)
    ensures
        match r {
            Some(k) => 0 <= k < clusters@.len() && clusters@[k as int].device == d
                && clusters@[k as int].inode == ino,
            None => forall|k: int|
                0 <= k < clusters@.len() ==> !((#[trigger] clusters@[k]).device == d
                    && clusters@[k].inode == ino),
        },
{
    let mut k: usize = 0;
    while k < clusters.len()
        invariant
            0 <= k <= clusters@.len(),
            forall|t: int|
                0 <= t < k ==> !((#[trigger] clusters@[t]).device == d && clusters@[t].inode
                    == ino),
        decreases clusters@.len() - k,
    {
        if clusters[k].device == d && clusters[k].inode == ino {
            return Some(k);
        }
        k = k + 1;
    }
    None
}

/// The member of the cluster with the least timestamp; among equal
/// timestamps, the one met first.
fn earliest_member(members: &Vec<GitObjectInfo>) -> (r: GitObjectInfo)
    requires
        members@.len() >= 1,
    ensures
        members@.contains(r),
        forall|i: int| 0 <= i < members@.len() ==> r.created <= (#[trigger] members@[i]).created,
{
    let mut best = members[0].clone();
    assert(members@.contains(best));
    let mut i: usize = 1;
    while i < members.len()
        invariant
            1 <= i <= members@.len(),
            members@.contains(best),
            forall|j: int| 0 <= j < i ==> best.created <= (#[trigger] members@[j]).created,
        decreases members@.len() - i,
    {
        if members[i].created < best.created {
            best = members[i].clone();
            assert(members@.contains(best));
        }
        i = i + 1;
    }
    best
}

/// Splits the records into pre-existing hardlink clusters, one per
/// physical identity, members in input order.
fn build_clusters(files: &Vec<GitObjectInfo>) -> (clusters: Vec<Cluster>)
    ensures
        forall|k: int|
            0 <= k < clusters@.len() ==> (#[trigger] clusters@[k]).members@ == files@.filter(
                identity_pred(clusters@[k].device, clusters@[k].inode),
            ),
        forall|k: int| 0 <= k < clusters@.len() ==> (#[trigger] clusters@[k]).members@.len() >= 1,
        forall|k1: int, k2: int|
            0 <= k1 < k2 < clusters@.len() ==> !((#[trigger] clusters@[k1]).device == (
            #[trigger] clusters@[k2]).device && clusters@[k1].inode == clusters@[k2].inode),
        forall|t: int| 0 <= t < files@.len() ==> has_cluster_for(clusters@, #[trigger] files@[t]),
{
    let mut clusters: Vec<Cluster> = Vec::new();
    let mut i: usize = 0;
    while i < files.len()
        invariant
            0 <= i <= files@.len(),
            forall|k: int|
                0 <= k < clusters@.len() ==> (#[trigger] clusters@[k]).members@ == files@.take(
                    i as int,
                ).filter(identity_pred(clusters@[k].device, clusters@[k].inode)),
            forall|k: int|
                0 <= k < clusters@.len() ==> (#[trigger] clusters@[k]).members@.len() >= 1,
            forall|k1: int, k2: int|
                0 <= k1 < k2 < clusters@.len() ==> !((#[trigger] clusters@[k1]).device == (
                #[trigger] clusters@[k2]).device && clusters@[k1].inode == clusters@[k2].inode),
            forall|t: int| 0 <= t < i ==> has_cluster_for(clusters@, #[trigger] files@[t]),
        decreases files@.len() - i,
    {
        let ghost prefix = files@.take(i as int);
        let ghost fval = files@[i as int];
        let f = files[i].clone();
        let ghost prevclusters = clusters@;
        match find_cluster(&clusters, f.device, f.inode) {
            Some(k) => {
                let mut c = clusters.remove(k);
                c.members.push(f);
                clusters.insert(k, c);
                proof {
                    assert(clusters@.len() == prevclusters.len());
                    assert forall|k2: int| 0 <= k2 < clusters@.len() implies (
                    #[trigger] clusters@[k2]).members@ == files@.take(i as int + 1).filter(
                        identity_pred(clusters@[k2].device, clusters@[k2].inode),
                    ) by {
                        assert(files@.take(i as int + 1) =~= prefix.push(fval));
                        let pred = identity_pred(clusters@[k2].device, clusters@[k2].inode);
                        prefix.lemma_filter_push(fval, pred);
                        if k2 != k as int {
                            assert(clusters@[k2] == prevclusters[k2]);
                            assert(!pred(fval));
                        } else {
                            assert(clusters@[k2].device == fval.device && clusters@[k2].inode
                                == fval.inode);
                            assert(pred(fval));
                            assert(clusters@[k2].members@ == prevclusters[k2].members@.push(fval));
                        }
                    }
                    assert forall|t: int| 0 <= t < i + 1 implies has_cluster_for(
                        clusters@,
                        #[trigger] files@[t],
                    ) by {
                        if t == i as int {
                            assert(0 <= k < clusters@.len() && clusters@[k as int].device
                                == files@[t].device && clusters@[k as int].inode
                                == files@[t].inode);
                        } else {
                            assert(has_cluster_for(prevclusters, files@[t]));
                            let k2 = choose|k2: int|
                                0 <= k2 < prevclusters.len() && (
                                #[trigger] prevclusters[k2]).device == files@[t].device
                                    && prevclusters[k2].inode == files@[t].inode;
                            assert(0 <= k2 < clusters@.len() && clusters@[k2].device
                                == files@[t].device && clusters@[k2].inode == files@[t].inode);
                        }
                    }
                }
            },
            None => {
                let ghost fd = f.device;
                let ghost fi = f.inode;
                let newc = Cluster { device: f.device, inode: f.inode, members: vec![f] };
                clusters.push(newc);
                proof {
                    let last = clusters@.len() - 1;
                    assert(prefix.filter(identity_pred(fd, fi)) =~= Seq::<
                        GitObjectInfo,
                    >::empty()) by {
                        let fl = prefix.filter(identity_pred(fd, fi));
                        if fl.len() > 0 {
                            prefix.lemma_filter_pred(identity_pred(fd, fi), 0);
                            prefix.lemma_filter_contains_rev(identity_pred(fd, fi), fl[0]);
                            let t = choose|t: int| 0 <= t < prefix.len() && prefix[t] == fl[0];
                            assert(files@[t] == prefix[t]);
                            assert(has_cluster_for(prevclusters, files@[t]));
                            let k2 = choose|k2: int|
                                0 <= k2 < prevclusters.len() && (
                                #[trigger] prevclusters[k2]).device == files@[t].device
                                    && prevclusters[k2].inode == files@[t].inode;
                            assert(false);
                        }
                    }
                    assert forall|k2: int| 0 <= k2 < clusters@.len() implies (
                    #[trigger] clusters@[k2]).members@ == files@.take(i as int + 1).filter(
                        identity_pred(clusters@[k2].device, clusters@[k2].inode),
                    ) by {
                        assert(files@.take(i as int + 1) =~= prefix.push(fval));
                        let pred = identity_pred(clusters@[k2].device, clusters@[k2].inode);
                        prefix.lemma_filter_push(fval, pred);
                        if k2 < last {
                            assert(clusters@[k2] == prevclusters[k2]);
                            assert(!pred(fval));
                        } else {
                            assert(clusters@[k2].device == fd && clusters@[k2].inode == fi);
                            assert(pred(fval));
                            assert(clusters@[k2].members@ =~= Seq::<GitObjectInfo>::empty().push(
                                fval,
                            ));
                        }
                    }
                    assert forall|t: int| 0 <= t < i + 1 implies has_cluster_for(
                        clusters@,
                        #[trigger] files@[t],
                    ) by {
                        if t == i as int {
                            assert(0 <= last < clusters@.len() && clusters@[last].device
                                == files@[t].device && clusters@[last].inode == files@[t].inode);
                        } else {
                            assert(has_cluster_for(prevclusters, files@[t]));
                            let k2 = choose|k2: int|
                                0 <= k2 < prevclusters.len() && (
                                #[trigger] prevclusters[k2]).device == files@[t].device
                                    && prevclusters[k2].inode == files@[t].inode;
                            assert(0 <= k2 < clusters@.len() && clusters@[k2].device
                                == files@[t].device && clusters@[k2].inode == files@[t].inode);
                        }
                    }
                }
            },
        }
        i = i + 1;
    }
    proof {
        assert(files@.take(files@.len() as int) =~= files@);
    }
    clusters
}

/// Chooses the canonical source and the replaceable duplicates among
/// records believed to hold identical content.
///
/// Returns `None` exactly when all records are already one physical
/// file (nothing to replace, or no records at all).  Otherwise the
/// source comes from a largest cluster, ties broken towards the
/// cluster holding the earliest record, and the duplicates are every
/// record outside the source's cluster.
pub fn select_source_and_duplicates(files: &Vec<GitObjectInfo>) -> (r: Option<DuplicateGroup>)
    ensures
        match r {
            Some(g) => group_selected(files@, g),
            None => !has_replaceable(files@),
        },
{
    if files.len() == 0 {
        return None;
    }
    let clusters = build_clusters(files);
    assert(has_cluster_for(clusters@, files@[0]));
    assert(clusters@.len() >= 1) by {
        let k = choose|k: int|
            0 <= k < clusters@.len() && (#[trigger] clusters@[k]).device == files@[0].device
                && clusters@[k].inode == files@[0].inode;
    }
    let mut best_idx: usize = 0;
    let mut best_rep: GitObjectInfo = earliest_member(&clusters[0].members);
    let mut best_len: usize = clusters[0].members.len();
    let mut k: usize = 1;
    while k < clusters.len()
        invariant
            1 <= k <= clusters@.len(),
            clusters@.len() >= 1,
            forall|t: int|
                0 <= t < clusters@.len() ==> (#[trigger] clusters@[t]).members@.len() >= 1,
            0 <= best_idx < k,
            best_len == clusters@[best_idx as int].members@.len(),
            clusters@[best_idx as int].members@.contains(best_rep),
            forall|m: int|
                0 <= m < clusters@[best_idx as int].members@.len() ==> best_rep.created <= (
                #[trigger] clusters@[best_idx as int].members@[m]).created,
            forall|t: int| 0 <= t < k ==> (#[trigger] clusters@[t]).members@.len() <= best_len,
            forall|t: int, m: int|
                0 <= t < k && clusters@[t].members@.len() == best_len && 0 <= m
                    < clusters@[t].members@.len() ==> best_rep.created <= (
                #[trigger] clusters@[t].members@[m]).created,
        decreases clusters@.len() - k,
    {
        assert(clusters@[k as int].members@.len() >= 1);
        let rep = earliest_member(&clusters[k].members);
        let l = clusters[k].members.len();
        if l > best_len || (l == best_len && rep.created < best_rep.created) {
            let ghost old_rep = best_rep;
            let ghost old_len = best_len as int;
            best_idx = k;
            best_rep = rep;
            best_len = l;
            proof {
                assert forall|t: int, m: int|
                    0 <= t < k + 1 && clusters@[t].members@.len() == best_len && 0 <= m
                        < clusters@[t].members@.len() implies best_rep.created <= (
                    #[trigger] clusters@[t].members@[m]).created by {
                    if t < k {
                        assert(clusters@[t].members@.len() <= old_len);
                        assert(old_len == best_len);
                        assert(old_rep.created <= clusters@[t].members@[m].created);
                        assert(best_rep.created < old_rep.created);
                    }
                }
            }
        } else {
            proof {
                assert forall|t: int, m: int|
                    0 <= t < k + 1 && clusters@[t].members@.len() == best_len && 0 <= m
                        < clusters@[t].members@.len() implies best_rep.created <= (
                    #[trigger] clusters@[t].members@[m]).created by {
                    if t == k as int {
                        assert(best_rep.created <= rep.created);
                        assert(rep.created <= clusters@[t].members@[m].created);
                    }
                }
            }
        }
        k = k + 1;
    }
    let ghost bd = clusters@[best_idx as int].device;
    let ghost bi = clusters@[best_idx as int].inode;
    proof {
        assert(clusters@[best_idx as int].members@ == files@.filter(identity_pred(bd, bi)));
        let m = choose|m: int|
            0 <= m < clusters@[best_idx as int].members@.len()
                && clusters@[best_idx as int].members@[m] == best_rep;
        files@.lemma_filter_pred(identity_pred(bd, bi), m);
        assert(best_rep.device == bd && best_rep.inode == bi);
    }
    let ghost src = best_rep;
    let ghost npred = not_linked_pred(src);
    let mut dups: Vec<GitObjectInfo> = Vec::new();
    let mut j: usize = 0;
    while j < files.len()
        invariant
            0 <= j <= files@.len(),
            npred == not_linked_pred(src),
            src == best_rep,
            dups@ == files@.take(j as int).filter(npred),
        decreases files@.len() - j,
    {
        let ghost prefix = files@.take(j as int);
        if !(files[j].device == best_rep.device && files[j].inode == best_rep.inode) {
            dups.push(files[j].clone());
        }
        proof {
            assert(files@.take(j as int + 1) =~= prefix.push(files@[j as int]));
            prefix.lemma_filter_push(files@[j as int], npred);
        }
        j = j + 1;
    }
    proof {
        assert(files@.take(files@.len() as int) =~= files@);
    }
    if dups.len() == 0 {
        proof {
            assert forall|a: int, b: int|
                0 <= a < files@.len() && 0 <= b < files@.len() implies same_identity(
                #[trigger] files@[a],
                #[trigger] files@[b],
            ) by {
                assert forall|t: int| 0 <= t < files@.len() implies same_identity(
                    #[trigger] files@[t],
                    src,
                ) by {
                    if !same_identity(files@[t], src) {
                        files@.lemma_filter_contains(npred, t);
                        assert(files@.filter(npred).len() > 0);
                    }
                }
            }
        }
        return None;
    }
    proof {
        assert(files@.filter(identity_pred(bd, bi)).contains(src));
        files@.lemma_filter_contains_rev(identity_pred(bd, bi), src);
        assert forall|i: int| 0 <= i < files@.len() implies cluster_count(
            files@,
            (#[trigger] files@[i]).device,
            files@[i].inode,
        ) <= cluster_count(files@, src.device, src.inode) by {
            assert(has_cluster_for(clusters@, files@[i]));
            let t = choose|t: int|
                0 <= t < clusters@.len() && (#[trigger] clusters@[t]).device == files@[i].device
                    && clusters@[t].inode == files@[i].inode;
            assert(clusters@[t].members@ == files@.filter(
                identity_pred(files@[i].device, files@[i].inode),
            ));
            assert(clusters@[t].members@.len() <= best_len);
        }
        assert forall|i: int|
            0 <= i < files@.len() && cluster_count(
                files@,
                (#[trigger] files@[i]).device,
                files@[i].inode,
            ) == cluster_count(files@, src.device, src.inode) implies src.created
            <= files@[i].created by {
            assert(has_cluster_for(clusters@, files@[i]));
            let t = choose|t: int|
                0 <= t < clusters@.len() && (#[trigger] clusters@[t]).device == files@[i].device
                    && clusters@[t].inode == files@[i].inode;
            assert(clusters@[t].members@ == files@.filter(
                identity_pred(files@[i].device, files@[i].inode),
            ));
            assert(clusters@[t].members@.len() == best_len);
            files@.lemma_filter_contains(identity_pred(files@[i].device, files@[i].inode), i);
            let m = choose|m: int|
                0 <= m < clusters@[t].members@.len() && clusters@[t].members@[m] == files@[i];
            assert(src.created <= clusters@[t].members@[m].created);
        }
    }
    Some(DuplicateGroup { source: best_rep, duplicates: dups })
}

/// Whether some part carries the hash of record `o`.
spec fn has_part_for(parts: Seq<Vec<GitObjectInfo>>, o: GitObjectInfo) -> bool {
    exists|k: int| 0 <= k < parts.len() && (#[trigger] parts[k])@[0].hash@ == o.hash@
}

/// Position of the part holding records of hash `h`, if any.
fn find_part(parts: &Vec<Vec<GitObjectInfo>>, h: &String) -> (r: Option<usize>)
    requires
        forall|k: int| 0 <= k < parts@.len() ==> (#[trigger] parts@[k])@.len() >= 1,
    ensures
        match r {
            Some(k) => 0 <= k < parts@.len() && parts@[k as int]@[0].hash@ == h@,
            None => forall|k: int|
                0 <= k < parts@.len() ==> (#[trigger] parts@[k])@[0].hash@ != h@,
        },
{
    let mut k: usize = 0;
    while k < parts.len()
        invariant
            0 <= k <= parts@.len(),
            forall|t: int| 0 <= t < parts@.len() ==> (#[trigger] parts@[t])@.len() >= 1,
            forall|t: int| 0 <= t < k ==> (#[trigger] parts@[t])@[0].hash@ != h@,
        decreases parts@.len() - k,
    {
        if parts[k][0].hash == *h {
            return Some(k);
        }
        k = k + 1;
    }
    None
}

/// Splits the records into parts of equal hash, members in input
/// order, one part per hash.
fn build_hash_parts(objects: &Vec<GitObjectInfo>) -> (parts: Vec<Vec<GitObjectInfo>>)
    ensures
        forall|k: int| 0 <= k < parts@.len() ==> (#[trigger] parts@[k])@.len() >= 1,
        forall|k: int|
            0 <= k < parts@.len() ==> (#[trigger] parts@[k])@ == objects@.filter(
                hash_pred(parts@[k]@[0].hash@),
            ),
        forall|k1: int, k2: int|
            0 <= k1 < k2 < parts@.len() ==> (#[trigger] parts@[k1])@[0].hash@ != (
            #[trigger] parts@[k2])@[0].hash@,
        forall|t: int| 0 <= t < objects@.len() ==> has_part_for(parts@, #[trigger] objects@[t]),
{
    let mut parts: Vec<Vec<GitObjectInfo>> = Vec::new();
    let mut i: usize = 0;
    while i < objects.len()
        invariant
            0 <= i <= objects@.len(),
            forall|k: int| 0 <= k < parts@.len() ==> (#[trigger] parts@[k])@.len() >= 1,
            forall|k: int|
                0 <= k < parts@.len() ==> (#[trigger] parts@[k])@ == objects@.take(
                    i as int,
                ).filter(hash_pred(parts@[k]@[0].hash@)),
            forall|k1: int, k2: int|
                0 <= k1 < k2 < parts@.len() ==> (#[trigger] parts@[k1])@[0].hash@ != (
                #[trigger] parts@[k2])@[0].hash@,
            forall|t: int| 0 <= t < i ==> has_part_for(parts@, #[trigger] objects@[t]),
        decreases objects@.len() - i,
    {
        let ghost prefix = objects@.take(i as int);
        let ghost fval = objects@[i as int];
        let f = objects[i].clone();
        let ghost prevparts = parts@;
        match find_part(&parts, &f.hash) {
            Some(k) => {
                let mut p = parts.remove(k);
                p.push(f);
                parts.insert(k, p);
                proof {
                    assert(parts@.len() == prevparts.len());
                    assert(parts@[k as int]@[0] == prevparts[k as int]@[0]);
                    assert forall|k2: int| 0 <= k2 < parts@.len() implies (
                    #[trigger] parts@[k2])@ == objects@.take(i as int + 1).filter(
                        hash_pred(parts@[k2]@[0].hash@),
                    ) by {
                        assert(objects@.take(i as int + 1) =~= prefix.push(fval));
                        let pred = hash_pred(parts@[k2]@[0].hash@);
                        prefix.lemma_filter_push(fval, pred);
                        if k2 != k as int {
                            assert(parts@[k2] == prevparts[k2]);
                            assert(!pred(fval));
                        } else {
                            assert(parts@[k2]@[0].hash@ == fval.hash@);
                            assert(pred(fval));
                            assert(parts@[k2]@ == prevparts[k2]@.push(fval));
                        }
                    }
                    assert forall|t: int| 0 <= t < i + 1 implies has_part_for(
                        parts@,
                        #[trigger] objects@[t],
                    ) by {
                        if t == i as int {
                            assert(0 <= k < parts@.len() && parts@[k as int]@[0].hash@
                                == objects@[t].hash@);
                        } else {
                            assert(has_part_for(prevparts, objects@[t]));
                            let k2 = choose|k2: int|
                                0 <= k2 < prevparts.len() && (#[trigger] prevparts[k2])@[0].hash@
                                    == objects@[t].hash@;
                            assert(0 <= k2 < parts@.len() && parts@[k2]@[0].hash@
                                == objects@[t].hash@);
                        }
                    }
                }
            },
            None => {
                let ghost fh = f.hash@;
                let newp = vec![f];
                parts.push(newp);
                proof {
                    let last = parts@.len() - 1;
                    assert(parts@[last]@[0].hash@ == fh);
                    assert(prefix.filter(hash_pred(fh)) =~= Seq::<GitObjectInfo>::empty()) by {
                        let fl = prefix.filter(hash_pred(fh));
                        if fl.len() > 0 {
                            prefix.lemma_filter_pred(hash_pred(fh), 0);
                            prefix.lemma_filter_contains_rev(hash_pred(fh), fl[0]);
                            let t = choose|t: int| 0 <= t < prefix.len() && prefix[t] == fl[0];
                            assert(objects@[t] == prefix[t]);
                            assert(has_part_for(prevparts, objects@[t]));
                            let k2 = choose|k2: int|
                                0 <= k2 < prevparts.len() && (#[trigger] prevparts[k2])@[0].hash@
                                    == objects@[t].hash@;
                            assert(false);
                        }
                    }
                    assert forall|k2: int| 0 <= k2 < parts@.len() implies (
                    #[trigger] parts@[k2])@ == objects@.take(i as int + 1).filter(
                        hash_pred(parts@[k2]@[0].hash@),
                    ) by {
                        assert(objects@.take(i as int + 1) =~= prefix.push(fval));
                        let pred = hash_pred(parts@[k2]@[0].hash@);
                        prefix.lemma_filter_push(fval, pred);
                        if k2 < last {
                            assert(parts@[k2] == prevparts[k2]);
                            assert(!pred(fval));
                        } else {
                            assert(pred(fval));
                            assert(parts@[k2]@ =~= Seq::<GitObjectInfo>::empty().push(fval));
                        }
                    }
                    assert forall|t: int| 0 <= t < i + 1 implies has_part_for(
                        parts@,
                        #[trigger] objects@[t],
                    ) by {
                        if t == i as int {
                            assert(0 <= last < parts@.len() && parts@[last]@[0].hash@
                                == objects@[t].hash@);
                        } else {
                            assert(has_part_for(prevparts, objects@[t]));
                            let k2 = choose|k2: int|
                                0 <= k2 < prevparts.len() && (#[trigger] prevparts[k2])@[0].hash@
                                    == objects@[t].hash@;
                            assert(0 <= k2 < parts@.len() && parts@[k2]@[0].hash@
                                == objects@[t].hash@);
                        }
                    }
                }
            },
        }
        i = i + 1;
    }
    proof {
        assert(i == objects@.len());
        assert(objects@.take(objects@.len() as int) =~= objects@);
        assert forall|t: int| 0 <= t < objects@.len() implies has_part_for(
            parts@,
            #[trigger] objects@[t],
        ) by {
            assert(0 <= t < i);
        }
    }
    parts
}

/// What one returned group says about the whole record set: it is the
/// selection that `group_selected` describes, made within the records
/// of its own hash.
pub open spec fn group_ok(objects: Seq<GitObjectInfo>, g: DuplicateGroup) -> bool {
    group_selected(objects.filter(hash_pred(g.source.hash@)), g)
}

/// What `find_duplicates` promises: every group is a valid selection
/// within its hash, no two groups share a hash, and a hash has a group
/// exactly when two of its records are distinct physical files.
pub open spec fn duplicates_found(objects: Seq<GitObjectInfo>, groups: Seq<DuplicateGroup>) -> bool {
    &&& forall|k: int| 0 <= k < groups.len() ==> group_ok(objects, #[trigger] groups[k])
    &&& forall|k1: int, k2: int|
        0 <= k1 < k2 < groups.len() ==> (#[trigger] groups[k1]).source.hash@ != (
        #[trigger] groups[k2]).source.hash@
    &&& forall|i: int|
        0 <= i < objects.len() ==> (has_replaceable(
            objects.filter(hash_pred((#[trigger] objects[i]).hash@)),
        ) <==> exists|k: int|
            0 <= k < groups.len() && (#[trigger] groups[k]).source.hash@ == objects[i].hash@)
}

/// The members of a group all come from the record set, hold the hash
/// of the source, sit on the source's device, and no duplicate is the
/// source's physical file.
pub open spec fn group_members_consistent(objects: Seq<GitObjectInfo>, g: DuplicateGroup) -> bool {
    &&& objects.contains(g.source)
    &&& forall|j: int|
        0 <= j < g.duplicates@.len() ==> {
            &&& objects.contains(#[trigger] g.duplicates@[j])
            &&& g.duplicates@[j].hash@ == g.source.hash@
            &&& g.duplicates@[j].device == g.source.device
            &&& !same_identity(g.duplicates@[j], g.source)
        }
}

/// Groups the records of one device by content hash and selects, for
/// every hash held by two or more distinct physical files, the
/// canonical source and the replaceable duplicates.
///
/// The caller partitions the records by device first: hardlinks cannot
/// span filesystems, so comparing across devices is never valid.
pub fn find_duplicates(objects: Vec<GitObjectInfo>) -> (r: Vec<DuplicateGroup>)
    requires
        forall|i: int, j: int|
            0 <= i < objects@.len() && 0 <= j < objects@.len() ==> (
            #[trigger] objects@[i]).device == (#[trigger] objects@[j]).device,
    ensures
        duplicates_found(objects@, r@),
        forall|k: int|
            0 <= k < r@.len() ==> group_members_consistent(objects@, #[trigger] r@[k]),
{
    let parts = build_hash_parts(&objects);
    let mut groups: Vec<DuplicateGroup> = Vec::new();
    let mut t: usize = 0;
    while t < parts.len()
        invariant
            0 <= t <= parts@.len(),
            forall|k: int| 0 <= k < parts@.len() ==> (#[trigger] parts@[k])@.len() >= 1,
            forall|k: int|
                0 <= k < parts@.len() ==> (#[trigger] parts@[k])@ == objects@.filter(
                    hash_pred(parts@[k]@[0].hash@),
                ),
            forall|k1: int, k2: int|
                0 <= k1 < k2 < parts@.len() ==> (#[trigger] parts@[k1])@[0].hash@ != (
                #[trigger] parts@[k2])@[0].hash@,
            forall|g: int| 0 <= g < groups@.len() ==> group_ok(objects@, #[trigger] groups@[g]),
            forall|g1: int, g2: int|
                0 <= g1 < g2 < groups@.len() ==> (#[trigger] groups@[g1]).source.hash@ != (
                #[trigger] groups@[g2]).source.hash@,
            forall|g: int|
                0 <= g < groups@.len() ==> exists|t2: int|
                    0 <= t2 < t && (#[trigger] parts@[t2])@[0].hash@ == (
                    #[trigger] groups@[g]).source.hash@,
            forall|t2: int|
                0 <= t2 < t ==> (has_replaceable((#[trigger] parts@[t2])@) <==> exists|g: int|
                    0 <= g < groups@.len() && (#[trigger] groups@[g]).source.hash@
                        == parts@[t2]@[0].hash@),
        decreases parts@.len() - t,
    {
        let ghost prevgroups = groups@;
        let ghost tt = t as int;
        let ghost key = parts@[tt]@[0].hash@;
        match select_source_and_duplicates(&parts[t]) {
            Some(g) => {
                proof {
                    assert(group_selected(parts@[tt]@, g));
                    assert(parts@[tt]@.contains(g.source));
                    let m = choose|m: int|
                        0 <= m < parts@[tt]@.len() && parts@[tt]@[m] == g.source;
                    objects@.lemma_filter_pred(hash_pred(key), m);
                    assert(g.source.hash@ == key);
                    assert(group_ok(objects@, g));
                    assert(has_replaceable(parts@[tt]@)) by {
                        assert(g.duplicates@.len() >= 1);
                        assert(parts@[tt]@.filter(not_linked_pred(g.source)).len() >= 1);
                        parts@[tt]@.lemma_filter_pred(not_linked_pred(g.source), 0);
                        parts@[tt]@.lemma_filter_contains_rev(
                            not_linked_pred(g.source),
                            parts@[tt]@.filter(not_linked_pred(g.source))[0],
                        );
                        let a = choose|a: int|
                            0 <= a < parts@[tt]@.len() && parts@[tt]@[a] == parts@[tt]@.filter(
                                not_linked_pred(g.source),
                            )[0];
                        assert(!same_identity(parts@[tt]@[a], g.source));
                        assert(0 <= m < parts@[tt]@.len() && parts@[tt]@[m] == g.source);
                        assert(!same_identity(parts@[tt]@[a], parts@[tt]@[m]));
                    }
                }
                groups.push(g);
                proof {
                    assert forall|g2: int| 0 <= g2 < groups@.len() implies exists|t2: int|
                        0 <= t2 < tt + 1 && (#[trigger] parts@[t2])@[0].hash@ == (
                        #[trigger] groups@[g2]).source.hash@ by {
                        if g2 == groups@.len() - 1 {
                            assert(parts@[tt]@[0].hash@ == groups@[g2].source.hash@);
                        } else {
                            assert(groups@[g2] == prevgroups[g2]);
                            let t2 = choose|t2: int|
                                0 <= t2 < tt && (#[trigger] parts@[t2])@[0].hash@
                                    == prevgroups[g2].source.hash@;
                            assert(parts@[t2]@[0].hash@ == groups@[g2].source.hash@);
                        }
                    }
                    assert forall|g1: int, g2: int| 0 <= g1 < g2 < groups@.len() implies (
                    #[trigger] groups@[g1]).source.hash@ != (
                    #[trigger] groups@[g2]).source.hash@ by {
                        if g2 == groups@.len() - 1 {
                            assert(groups@[g1] == prevgroups[g1]);
                            let t2 = choose|t2: int|
                                0 <= t2 < tt && (#[trigger] parts@[t2])@[0].hash@
                                    == prevgroups[g1].source.hash@;
                            assert(parts@[t2]@[0].hash@ != key);
                        } else {
                            assert(groups@[g1] == prevgroups[g1]);
                            assert(groups@[g2] == prevgroups[g2]);
                        }
                    }
                    assert forall|t2: int| 0 <= t2 < tt + 1 implies (has_replaceable(
                        (#[trigger] parts@[t2])@,
                    ) <==> exists|g2: int|
                        0 <= g2 < groups@.len() && (#[trigger] groups@[g2]).source.hash@
                            == parts@[t2]@[0].hash@) by {
                        let last = groups@.len() - 1;
                        if t2 == tt {
                            assert(groups@[last].source.hash@ == parts@[t2]@[0].hash@);
                            assert(has_replaceable(parts@[t2]@));
                        } else {
                            if has_replaceable(parts@[t2]@) {
                                let g2 = choose|g2: int|
                                    0 <= g2 < prevgroups.len() && (
                                    #[trigger] prevgroups[g2]).source.hash@
                                        == parts@[t2]@[0].hash@;
                                assert(groups@[g2].source.hash@ == parts@[t2]@[0].hash@);
                            }
                            if exists|g2: int|
                                0 <= g2 < groups@.len() && (#[trigger] groups@[g2]).source.hash@
                                    == parts@[t2]@[0].hash@ {
                                let g2 = choose|g2: int|
                                    0 <= g2 < groups@.len() && (
                                    #[trigger] groups@[g2]).source.hash@ == parts@[t2]@[0].hash@;
                                if g2 == last {
                                    assert(parts@[t2]@[0].hash@ != key);
                                    assert(false);
                                } else {
                                    assert(prevgroups[g2].source.hash@ == parts@[t2]@[0].hash@);
                                }
                            }
                        }
                    }
                }
            },
            None => {
                proof {
                    assert(!has_replaceable(parts@[tt]@));
                    assert forall|t2: int| 0 <= t2 < tt + 1 implies (has_replaceable(
                        (#[trigger] parts@[t2])@,
                    ) <==> exists|g2: int|
                        0 <= g2 < groups@.len() && (#[trigger] groups@[g2]).source.hash@
                            == parts@[t2]@[0].hash@) by {
                        if t2 == tt {
                            if exists|g2: int|
                                0 <= g2 < groups@.len() && (#[trigger] groups@[g2]).source.hash@
                                    == parts@[t2]@[0].hash@ {
                                let g2 = choose|g2: int|
                                    0 <= g2 < groups@.len() && (
                                    #[trigger] groups@[g2]).source.hash@ == parts@[t2]@[0].hash@;
                                let t3 = choose|t3: int|
                                    0 <= t3 < tt && (#[trigger] parts@[t3])@[0].hash@
                                        == groups@[g2].source.hash@;
                                assert(parts@[t3]@[0].hash@ == parts@[tt]@[0].hash@);
                                assert(false);
                            }
                        }
                    }
                }
            },
        }
        t = t + 1;
    }
    proof {
        assert(t == parts@.len());
        assert forall|i: int| 0 <= i < objects@.len() implies (has_replaceable(
            objects@.filter(hash_pred((#[trigger] objects@[i]).hash@)),
        ) <==> exists|k: int|
            0 <= k < groups@.len() && (#[trigger] groups@[k]).source.hash@
                == objects@[i].hash@) by {
            assert(has_part_for(parts@, objects@[i]));
            let k2 = choose|k2: int|
                0 <= k2 < parts@.len() && (#[trigger] parts@[k2])@[0].hash@ == objects@[i].hash@;
            assert(parts@[k2]@ == objects@.filter(hash_pred(objects@[i].hash@)));
            assert(has_replaceable(parts@[k2]@) <==> exists|g: int|
                0 <= g < groups@.len() && (#[trigger] groups@[g]).source.hash@
                    == parts@[k2]@[0].hash@);
        }
        assert forall|k: int| 0 <= k < groups@.len() implies group_members_consistent(
            objects@,
            #[trigger] groups@[k],
        ) by {
            let g = groups@[k];
            let fl = objects@.filter(hash_pred(g.source.hash@));
            assert(group_selected(fl, g));
            objects@.lemma_filter_contains_rev(hash_pred(g.source.hash@), g.source);
            assert(objects@.contains(g.source));
            let si = choose|si: int| 0 <= si < objects@.len() && objects@[si] == g.source;
            assert forall|j: int| 0 <= j < g.duplicates@.len() implies {
                &&& objects@.contains(#[trigger] g.duplicates@[j])
                &&& g.duplicates@[j].hash@ == g.source.hash@
                &&& g.duplicates@[j].device == g.source.device
                &&& !same_identity(g.duplicates@[j], g.source)
            } by {
                fl.lemma_filter_pred(not_linked_pred(g.source), j);
                assert(!same_identity(g.duplicates@[j], g.source));
                fl.lemma_filter_contains_rev(not_linked_pred(g.source), g.duplicates@[j]);
                assert(fl.contains(g.duplicates@[j]));
                let m = choose|m: int| 0 <= m < fl.len() && fl[m] == g.duplicates@[j];
                objects@.lemma_filter_pred(hash_pred(g.source.hash@), m);
                assert(g.duplicates@[j].hash@ == g.source.hash@);
                objects@.lemma_filter_contains_rev(hash_pred(g.source.hash@), g.duplicates@[j]);
                assert(objects@.contains(g.duplicates@[j]));
                let di = choose|di: int|
                    0 <= di < objects@.len() && objects@[di] == g.duplicates@[j];
                assert(objects@[di].device == objects@[si].device);
            }
        }
    }
    groups
}

proof fn lemma_filter_all_true<A>(s: Seq<A>, p: spec_fn(A) -> bool)
    requires
        forall|i: int| 0 <= i < s.len() ==> p(#[trigger] s[i]),
    ensures
        s.filter(p) == s,
    decreases s.len(),
{
    reveal(Seq::filter);
    if s.len() > 0 {
        assert forall|i: int| 0 <= i < s.drop_last().len() implies p(
            #[trigger] s.drop_last()[i],
        ) by {
            assert(s.drop_last()[i] == s[i]);
        }
        lemma_filter_all_true(s.drop_last(), p);
        assert(p(s.last()));
        assert(s.filter(p) =~= s);
    } else {
        assert(s.filter(p) =~= s);
    }
}

proof fn lemma_filter_none<A>(s: Seq<A>, p: spec_fn(A) -> bool)
    requires
        forall|i: int| 0 <= i < s.len() ==> !p(#[trigger] s[i]),
    ensures
        s.filter(p) == Seq::<A>::empty(),
    decreases s.len(),
{
    reveal(Seq::filter);
    if s.len() > 0 {
        assert forall|i: int| 0 <= i < s.drop_last().len() implies !p(
            #[trigger] s.drop_last()[i],
        ) by {
            assert(s.drop_last()[i] == s[i]);
        }
        lemma_filter_none(s.drop_last(), p);
        assert(!p(s.last()));
    }
}

proof fn lemma_filter_unique<A>(s: Seq<A>, p: spec_fn(A) -> bool, si: int)
    requires
        0 <= si < s.len(),
        p(s[si]),
        forall|j: int| 0 <= j < s.len() && j != si ==> !p(#[trigger] s[j]),
    ensures
        s.filter(p).len() == 1,
    decreases s.len(),
{
    reveal(Seq::filter);
    if si == s.len() - 1 {
        assert forall|i: int| 0 <= i < s.drop_last().len() implies !p(
            #[trigger] s.drop_last()[i],
        ) by {
            assert(s.drop_last()[i] == s[i]);
        }
        lemma_filter_none(s.drop_last(), p);
        assert(p(s.last()));
    } else {
        assert(s.drop_last()[si] == s[si]);
        assert forall|j: int| 0 <= j < s.drop_last().len() && j != si implies !p(
            #[trigger] s.drop_last()[j],
        ) by {
            assert(s.drop_last()[j] == s[j]);
        }
        lemma_filter_unique(s.drop_last(), p, si);
        assert(!p(s.last()));
    }
}

proof fn lemma_filter_complement<A>(s: Seq<A>, p: spec_fn(A) -> bool, q: spec_fn(A) -> bool)
    requires
        forall|i: int| 0 <= i < s.len() ==> q(#[trigger] s[i]) == !p(s[i]),
    ensures
        s.filter(p).len() + s.filter(q).len() == s.len(),
    decreases s.len(),
{
    reveal(Seq::filter);
    if s.len() > 0 {
        assert forall|i: int| 0 <= i < s.drop_last().len() implies q(
            #[trigger] s.drop_last()[i],
        ) == !p(s.drop_last()[i]) by {
            assert(s.drop_last()[i] == s[i]);
        }
        lemma_filter_complement(s.drop_last(), p, q);
        assert(q(s.last()) == !p(s.last()));
    }
}

/// A valid group means its hash really had two distinct physical
/// files: the source and any duplicate.
pub proof fn lemma_group_ok_has_replaceable(objects: Seq<GitObjectInfo>, g: DuplicateGroup)
    requires
        group_ok(objects, g),
    ensures
        has_replaceable(objects.filter(hash_pred(g.source.hash@))),
{
    let fl = objects.filter(hash_pred(g.source.hash@));
    assert(fl.contains(g.source));
    let m = choose|m: int| 0 <= m < fl.len() && fl[m] == g.source;
    assert(g.duplicates@.len() >= 1);
    fl.lemma_filter_pred(not_linked_pred(g.source), 0);
    fl.lemma_filter_contains_rev(not_linked_pred(g.source), fl.filter(not_linked_pred(g.source))[0]);
    let a = choose|a: int|
        0 <= a < fl.len() && fl[a] == fl.filter(not_linked_pred(g.source))[0];
    assert(!same_identity(fl[a], fl[m]));
}

/// Fresh duplicates collapse to one group.  When two or more records
/// hold one hash on one device and no two of them are already the same
/// physical file, grouping yields exactly one group, whose source is a
/// record with the earliest timestamp and whose duplicates are all the
/// other records.
pub proof fn lemma_fresh_records_one_group(objects: Seq<GitObjectInfo>, groups: Seq<DuplicateGroup>)
    requires
        duplicates_found(objects, groups),
        objects.len() >= 2,
        forall|i: int, j: int|
            0 <= i < objects.len() && 0 <= j < objects.len() ==> (#[trigger] objects[i]).hash@ == (
            #[trigger] objects[j]).hash@,
        forall|i: int, j: int|
            0 <= i < j < objects.len() ==> !same_identity(
                #[trigger] objects[i],
                #[trigger] objects[j],
            ),
    ensures
        groups.len() == 1,
        objects.contains(groups[0].source),
        groups[0].duplicates@.len() == objects.len() - 1,
        forall|i: int|
            0 <= i < objects.len() ==> groups[0].source.created <= (#[trigger] objects[i]).created,
{
    let h = objects[0].hash@;
    let hp = hash_pred(h);
    lemma_filter_all_true(objects, hp);
    assert(objects.filter(hp) == objects);
    assert(!same_identity(objects[0], objects[1]));
    assert(has_replaceable(objects));
    assert(exists|k: int|
        0 <= k < groups.len() && (#[trigger] groups[k]).source.hash@ == objects[0].hash@);
    assert forall|k: int| 0 <= k < groups.len() implies (#[trigger] groups[k]).source.hash@
        == h by {
        assert(group_ok(objects, groups[k]));
        let fl = objects.filter(hash_pred(groups[k].source.hash@));
        assert(fl.contains(groups[k].source));
        objects.lemma_filter_contains_rev(hash_pred(groups[k].source.hash@), groups[k].source);
        let i = choose|i: int| 0 <= i < objects.len() && objects[i] == groups[k].source;
        assert(objects[i].hash@ == h);
    }
    assert(groups.len() >= 1);
    if groups.len() >= 2 {
        assert(groups[0].source.hash@ != groups[1].source.hash@);
        assert(false);
    }
    let g = groups[0];
    assert(group_ok(objects, g));
    assert(hash_pred(g.source.hash@) == hp);
    assert(group_selected(objects, g));
    assert(objects.contains(g.source));
    let si = choose|si: int| 0 <= si < objects.len() && objects[si] == g.source;
    let ip = identity_pred(g.source.device, g.source.inode);
    let np = not_linked_pred(g.source);
    assert(ip(objects[si]));
    assert forall|j: int| 0 <= j < objects.len() && j != si implies !ip(#[trigger] objects[j]) by {
        if j < si {
            assert(!same_identity(objects[j], objects[si]));
        } else {
            assert(!same_identity(objects[si], objects[j]));
        }
    }
    lemma_filter_unique(objects, ip, si);
    assert forall|i: int| 0 <= i < objects.len() implies (#[trigger] np(objects[i])) == !ip(
        objects[i],
    ) by {}
    lemma_filter_complement(objects, ip, np);
    assert(g.duplicates@.len() == objects.len() - 1);
    assert forall|i: int| 0 <= i < objects.len() implies g.source.created <= (
    #[trigger] objects[i]).created by {
        let ipi = identity_pred(objects[i].device, objects[i].inode);
        assert(ipi(objects[i]));
        assert forall|j: int| 0 <= j < objects.len() && j != i implies !ipi(
            #[trigger] objects[j],
        ) by {
            if j < i {
                assert(!same_identity(objects[j], objects[i]));
            } else {
                assert(!same_identity(objects[i], objects[j]));
            }
        }
        lemma_filter_unique(objects, ipi, i);
        assert(cluster_count(objects, objects[i].device, objects[i].inode) == 1);
        assert(cluster_count(objects, g.source.device, g.source.inode) == 1);
    }
}

/// A pre-existing hardlink cluster is preserved.  Given a cluster of
/// two records and one later, independent record of the same hash on
/// the same device, the source is drawn from the cluster and the
/// independent record is the only duplicate.
pub proof fn lemma_existing_cluster_preferred(
    objects: Seq<GitObjectInfo>,
    groups: Seq<DuplicateGroup>,
    f1: GitObjectInfo,
    f2: GitObjectInfo,
    f3: GitObjectInfo,
)
    requires
        duplicates_found(objects, groups),
        objects == seq![f1, f2, f3],
        f1.hash@ == f2.hash@ && f2.hash@ == f3.hash@,
        f1.device == f2.device && f2.device == f3.device,
        same_identity(f1, f2),
        !same_identity(f3, f1),
        f1.created < f3.created,
        f2.created < f3.created,
    ensures
        groups.len() == 1,
        same_identity(groups[0].source, f1),
        groups[0].duplicates@ == seq![f3],
{
    let h = f1.hash@;
    let hp = hash_pred(h);
    assert(objects[0] == f1 && objects[1] == f2 && objects[2] == f3);
    assert forall|i: int| 0 <= i < objects.len() implies hp(#[trigger] objects[i]) by {}
    lemma_filter_all_true(objects, hp);
    assert(!same_identity(objects[2], objects[0]));
    assert(has_replaceable(objects));
    assert(exists|k: int|
        0 <= k < groups.len() && (#[trigger] groups[k]).source.hash@ == objects[0].hash@);
    assert forall|k: int| 0 <= k < groups.len() implies (#[trigger] groups[k]).source.hash@
        == h by {
        assert(group_ok(objects, groups[k]));
        let fl = objects.filter(hash_pred(groups[k].source.hash@));
        assert(fl.contains(groups[k].source));
        objects.lemma_filter_contains_rev(hash_pred(groups[k].source.hash@), groups[k].source);
        let i = choose|i: int| 0 <= i < objects.len() && objects[i] == groups[k].source;
        assert(objects[i].hash@ == h);
    }
    assert(groups.len() >= 1);
    if groups.len() >= 2 {
        assert(groups[0].source.hash@ != groups[1].source.hash@);
        assert(false);
    }
    let g = groups[0];
    assert(hash_pred(g.source.hash@) == hp);
    assert(group_selected(objects, g));
    assert(objects.contains(g.source));
    let si = choose|si: int| 0 <= si < objects.len() && objects[si] == g.source;
    let ip1 = identity_pred(f1.device, f1.inode);
    assert(ip1(objects[0]) && ip1(objects[1]) && !ip1(objects[2]));
    lemma_filter_unique(objects, identity_pred(f3.device, f3.inode), 2);
    assert(cluster_count(objects, f3.device, f3.inode) == 1);
    assert(objects.filter(ip1) =~= seq![f1, f2]) by {
        reveal(Seq::filter);
        let s2 = seq![f1, f2];
        let s1 = seq![f1];
        let s0 = Seq::<GitObjectInfo>::empty();
        assert(objects.drop_last() =~= s2);
        assert(s2.drop_last() =~= s1);
        assert(s1.drop_last() =~= s0);
        assert(objects.last() == f3);
        assert(s2.last() == f2);
        assert(s1.last() == f1);
        assert(s0.filter(ip1) =~= s0);
        assert(s1.filter(ip1) =~= seq![f1]);
        assert(s2.filter(ip1) =~= seq![f1, f2]);
    }
    assert(cluster_count(objects, f1.device, f1.inode) == 2);
    if si == 2 {
        assert(cluster_count(objects, objects[0].device, objects[0].inode) <= cluster_count(
            objects,
            g.source.device,
            g.source.inode,
        ));
        assert(cluster_count(objects, g.source.device, g.source.inode) == 1);
        assert(false);
    }
    assert(same_identity(g.source, f1));
    let np = not_linked_pred(g.source);
    assert(g.duplicates@ == objects.filter(np));
    assert(objects.filter(np) =~= seq![f3]) by {
        reveal(Seq::filter);
        let s2 = seq![f1, f2];
        let s1 = seq![f1];
        let s0 = Seq::<GitObjectInfo>::empty();
        assert(objects.drop_last() =~= s2);
        assert(s2.drop_last() =~= s1);
        assert(s1.drop_last() =~= s0);
        assert(!np(f1) && !np(f2) && np(f3));
        assert(s0.filter(np) =~= s0);
        assert(s1.filter(np) =~= s0);
        assert(s2.filter(np) =~= s0);
    }
}

/// Groups never span devices.  When grouping runs on the records of
/// one device, as `group_by_device` hands them out, every source and
/// every duplicate of every group sits on that device.
pub proof fn lemma_groups_stay_on_one_device(
    dev_records: Seq<GitObjectInfo>,
    d: u64,
    groups: Seq<DuplicateGroup>,
)
    requires
        forall|i: int| 0 <= i < dev_records.len() ==> (#[trigger] dev_records[i]).device == d,
        forall|k: int|
            0 <= k < groups.len() ==> group_members_consistent(dev_records, #[trigger] groups[k]),
    ensures
        forall|k: int| 0 <= k < groups.len() ==> (#[trigger] groups[k]).source.device == d,
        forall|k: int, j: int|
            0 <= k < groups.len() && 0 <= j < groups[k].duplicates@.len() ==> (
            #[trigger] groups[k].duplicates@[j]).device == d,
{
    assert forall|k: int| 0 <= k < groups.len() implies (#[trigger] groups[k]).source.device
        == d by {
        assert(dev_records.contains(groups[k].source));
        let i = choose|i: int| 0 <= i < dev_records.len() && dev_records[i] == groups[k].source;
        assert(dev_records[i].device == d);
    }
    assert forall|k: int, j: int|
        0 <= k < groups.len() && 0 <= j < groups[k].duplicates@.len() implies (
    #[trigger] groups[k].duplicates@[j]).device == d by {
        assert(dev_records.contains(groups[k].duplicates@[j]));
        let i = choose|i: int|
            0 <= i < dev_records.len() && dev_records[i] == groups[k].duplicates@[j];
        assert(dev_records[i].device == d);
    }
}

/// The record `o` after its file was replaced by a hardlink to the
/// source of its group: a record of the source's hash that was not yet
/// the source's physical file takes on that physical identity; every
/// other record is unchanged.
pub open spec fn relinked(o: GitObjectInfo, src: GitObjectInfo) -> GitObjectInfo {
    if o.hash@ == src.hash@ && !same_identity(o, src) {
        GitObjectInfo { device: src.device, inode: src.inode, ..o }
    } else {
        o
    }
}

/// Replacement is idempotent.  After every duplicate of a group has
/// been successfully replaced by a hardlink to the group's source,
/// re-scanning and re-grouping the same records yields no group for
/// that hash.
pub proof fn lemma_regroup_after_replace(
    objects: Seq<GitObjectInfo>,
    g: DuplicateGroup,
    objects2: Seq<GitObjectInfo>,
    groups2: Seq<DuplicateGroup>,
)
    requires
        group_ok(objects, g),
        objects2 == objects.map_values(|o: GitObjectInfo| relinked(o, g.source)),
        duplicates_found(objects2, groups2),
    ensures
        forall|k: int| 0 <= k < groups2.len() ==> (#[trigger] groups2[k]).source.hash@
            != g.source.hash@,
{
    let src = g.source;
    let h = src.hash@;
    assert forall|i: int| 0 <= i < objects2.len() && (#[trigger] objects2[i]).hash@
        == h implies same_identity(objects2[i], src) by {
        assert(objects2[i] == relinked(objects[i], src));
    }
    assert forall|k: int| 0 <= k < groups2.len() implies (#[trigger] groups2[k]).source.hash@
        != h by {
        if groups2[k].source.hash@ == h {
            assert(group_ok(objects2, groups2[k]));
            lemma_group_ok_has_replaceable(objects2, groups2[k]);
            let fl = objects2.filter(hash_pred(h));
            assert(has_replaceable(fl));
            let (a, b) = choose|a: int, b: int|
                0 <= a < fl.len() && 0 <= b < fl.len() && !same_identity(
                    #[trigger] fl[a],
                    #[trigger] fl[b],
                );
            objects2.lemma_filter_pred(hash_pred(h), a);
            objects2.lemma_filter_pred(hash_pred(h), b);
            objects2.lemma_filter_contains_rev(hash_pred(h), fl[a]);
            objects2.lemma_filter_contains_rev(hash_pred(h), fl[b]);
            let ia = choose|ia: int| 0 <= ia < objects2.len() && objects2[ia] == fl[a];
            let ib = choose|ib: int| 0 <= ib < objects2.len() && objects2[ib] == fl[b];
            assert(same_identity(fl[a], src) && same_identity(fl[b], src));
            assert(false);
        }
    }
}

} // verus!

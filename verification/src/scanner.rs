//! Discovery of git repositories below a root directory.
//!
//! The walk is a small state machine: the caller takes the next directory
//! to look at, reads it (whether it holds `.git`, and its entries), and hands
//! that back; the scan decides what is a repository and where to descend.
//! The root itself is never reported, nothing deeper than the maximum depth
//! is looked at, and hidden, excluded and symbolically linked directories are
//! skipped.

use vstd::prelude::*;
use crate::dir_picker::is_hidden;
use crate::text::{chars_eq, chars_lt, chars_of, lex_lt, lemma_lex_total, lemma_lex_transitive};

verus! {

/// What `glob` answers for `name` against the pattern `pattern`: `None`
/// when the pattern does not compile, else whether the name matches.
pub uninterp spec fn spec_glob_match(pattern: Seq<char>, name: Seq<char>) -> Option<bool>;

/// Compiles `pattern` with `glob::Pattern::new` and matches `name` against
/// it with `Pattern::matches`.
///
/// Trusted: the contract only names the answer; glob's matching depends on
/// the two strings alone.
#[verifier::external_body]
fn glob_match(pattern: &str, name: &str) -> (r: Option<bool>)
    ensures
        r == spec_glob_match(pattern@, name@),
{
    match glob::Pattern::new(pattern) {
        Ok(p) => Some(p.matches(name)),
        Err(_) => None,
    }
}

/// One entry of a directory being scanned, as read from the file system.
pub struct ScanEntry {
    pub name: String,
    pub path: String,
    /// The entry is (or, through a link, leads to) a directory.
    pub is_dir: bool,
    /// Whether the entry itself is a symbolic link; `None` when its file
    /// type could not be read.
    pub is_symlink: Option<bool>,
}

/// A directory still to be looked at, with its depth below the root.
pub struct PendingDir {
    pub path: String,
    pub depth: usize,
}

/// The state of a scan.
pub struct RepoScan {
    pub max_depth: usize,
    /// Glob patterns of directory names not to descend into; patterns that
    /// do not compile are ignored.
    pub excluded: Vec<String>,
    /// Directories still to look at.
    pub pending: Vec<PendingDir>,
    /// Repositories found so far, in the order they were found.
    pub found: Vec<String>,
}

/// Some pattern of `excluded` compiles and matches `name`.
pub open spec fn excluded_name(excluded: Seq<String>, name: Seq<char>) -> bool {
    exists|i: int| 0 <= i < excluded.len() && spec_glob_match((#[trigger] excluded[i])@, name) == Some(true)
}

/// The scan descends into the entry: a directory, not hidden, not excluded,
/// and not known to be a symbolic link.
pub open spec fn descends(e: ScanEntry, excluded: Seq<String>) -> bool {
    e.is_dir && !is_hidden(e.name@) && !excluded_name(excluded, e.name@) && e.is_symlink != Some(true)
}

/// The directories to look at below the entries `entries` of a directory
/// at depth `depth`, in the order of the entries.
pub open spec fn children(entries: Seq<ScanEntry>, excluded: Seq<String>, depth: usize) -> Seq<PendingDir>
    decreases entries.len(),
{
    if entries.len() == 0 {
        seq![]
    } else {
        let rest = children(entries.drop_last(), excluded, depth);
        let e = entries.last();
        if descends(e, excluded) {
            rest.push(PendingDir { path: e.path, depth: (depth + 1) as usize })
        } else {
            rest
        }
    }
}

/// The repositories found after looking at `dir`: it is one when it lies
/// below the root, within the depth, and holds `.git`.
pub open spec fn found_after(found: Seq<String>, max_depth: usize, dir: PendingDir, has_git: bool) -> Seq<String> {
    if 0 < dir.depth <= max_depth && has_git {
        found.push(dir.path)
    } else {
        found
    }
}

/// The directories to look at after looking at `dir`, whose entries are
/// `entries` (`None` when it could not be read): its children are added
/// when they are within the depth.
pub open spec fn pending_after(
    pending: Seq<PendingDir>,
    max_depth: usize,
    excluded: Seq<String>,
    dir: PendingDir,
    entries: Option<Seq<ScanEntry>>,
) -> Seq<PendingDir> {
    match entries {
        Some(es) => if dir.depth < max_depth {
            pending + children(es, excluded, dir.depth)
        } else {
            pending
        },
        None => pending,
    }
}

impl RepoScan {
    /// Every pending directory lies within the depth.
    pub open spec fn wf(self) -> bool {
        forall|i: int| 0 <= i < self.pending@.len() ==> (#[trigger] self.pending@[i]).depth <= self.max_depth
    }

    /// A scan of `root` down to `max_depth` levels, skipping directory names
    /// that match a pattern of `excluded`.
    pub fn new(root: String, max_depth: usize, excluded: Vec<String>) -> (s: Self)
        ensures
            s.wf(),
            s.max_depth == max_depth,
            s.excluded@ == excluded@,
            s.pending@ == seq![PendingDir { path: root, depth: 0 }],
            s.found@.len() == 0,
    {
        let mut pending: Vec<PendingDir> = Vec::new();
        pending.push(PendingDir { path: root, depth: 0 });
        RepoScan { max_depth, excluded, pending, found: Vec::new() }
    }

    /// Takes the next directory to look at, if any is left.
    pub fn next_dir(&mut self) -> (r: Option<PendingDir>)
        requires
            old(self).wf(),
        ensures
            final(self).wf(),
            final(self).max_depth == old(self).max_depth,
            final(self).excluded@ == old(self).excluded@,
            final(self).found@ == old(self).found@,
            match r {
                Some(d) => old(self).pending@.len() > 0 && d == old(self).pending@.last()
                    && final(self).pending@ == old(self).pending@.drop_last()
                    && d.depth <= old(self).max_depth,
                None => old(self).pending@.len() == 0 && final(self).pending@.len() == 0,
            },
    {
        self.pending.pop()
    }

    /// Records what was read of `dir`: whether it holds `.git`, and its
    /// entries (`None` when it could not be read).
    pub fn visit(&mut self, dir: PendingDir, has_git: bool, entries: Option<Vec<ScanEntry>>)
        requires
            old(self).wf(),
        ensures
            final(self).wf(),
            final(self).max_depth == old(self).max_depth,
            final(self).excluded@ == old(self).excluded@,
            final(self).found@ == found_after(old(self).found@, old(self).max_depth, dir, has_git),
            final(self).pending@ == pending_after(
                old(self).pending@,
                old(self).max_depth,
                old(self).excluded@,
                dir,
                match entries {
                    Some(es) => Some(es@),
                    None => None,
                },
            ),
    {
        if dir.depth > self.max_depth {
            return;
        }
        let depth = dir.depth;
        if depth > 0 && has_git {
            self.found.push(dir.path);
        }
        if let Some(es) = entries {
            if depth < self.max_depth {
                self.push_children(&es, depth);
            }
        }
    }

    fn push_children(&mut self, entries: &Vec<ScanEntry>, depth: usize)
        requires
            old(self).wf(),
            depth < old(self).max_depth,
        ensures
            final(self).wf(),
            final(self).max_depth == old(self).max_depth,
            final(self).excluded@ == old(self).excluded@,
            final(self).found@ == old(self).found@,
            final(self).pending@ == old(self).pending@ + children(entries@, old(self).excluded@, depth),
    {
        let ghost start = self.pending@;
        let mut i: usize = 0;
        while i < entries.len()
            invariant
                i <= entries.len(),
                depth < self.max_depth,
                self.max_depth == old(self).max_depth,
                self.excluded@ == old(self).excluded@,
                self.found@ == old(self).found@,
                start == old(self).pending@,
                self.pending@ == start + children(entries@.take(i as int), self.excluded@, depth),
                self.wf(),
            decreases entries.len() - i,
        {
            assert(entries@.take(i + 1).drop_last() =~= entries@.take(i as int));
            assert(entries@.take(i + 1).last() == entries@[i as int]);
            let e = &entries[i];
            if descends_now(e, &self.excluded) {
                self.pending.push(PendingDir { path: e.path.clone(), depth: depth + 1 });
            }
            i = i + 1;
        }
        assert(entries@.take(entries.len() as int) =~= entries@);
    }

    /// The repositories found, in path order.
    pub fn finish(self) -> (r: Vec<String>)
        ensures
            in_path_order(self.found@, r@),
    {
        sorted_paths(&self.found)
    }
}

/// The root is never reported, and a directory is reported only when it
/// holds `.git` and lies within the maximum depth.
pub proof fn law_found_below_root_within_depth(found: Seq<String>, max_depth: usize, dir: PendingDir, has_git: bool)
    ensures
        dir.depth == 0 ==> found_after(found, max_depth, dir, has_git) == found,
        found_after(found, max_depth, dir, has_git).len() > found.len() ==> 1 <= dir.depth <= max_depth
            && has_git,
        found_after(found, max_depth, dir, has_git).len() <= found.len() + 1,
{
}

fn is_excluded(excluded: &Vec<String>, name: &str) -> (r: bool)
    ensures
        r == excluded_name(excluded@, name@),
{
    let mut i: usize = 0;
    while i < excluded.len()
        invariant
            i <= excluded.len(),
            forall|k: int| 0 <= k < i ==> spec_glob_match((#[trigger] excluded@[k])@, name@) != Some(true),
        decreases excluded.len() - i,
    {
        if glob_match(excluded[i].as_str(), name) == Some(true) {
            return true;
        }
        i = i + 1;
    }
    false
}

fn descends_now(e: &ScanEntry, excluded: &Vec<String>) -> (r: bool)
    ensures
        r == descends(*e, excluded@),
{
    if !e.is_dir {
        return false;
    }
    let cs = chars_of(e.name.as_str());
    if cs.len() > 0 && cs[0] == '.' {
        return false;
    }
    if is_excluded(excluded, e.name.as_str()) {
        return false;
    }
    match e.is_symlink {
        Some(true) => false,
        _ => true,
    }
}

// --- Path order ---

/// The path's text with each separator replaced by a character that sorts
/// before every other: comparing these compares paths component by
/// component, as `Path`'s order does.
pub open spec fn path_key(p: Seq<char>) -> Seq<char> {
    p.map_values(|c: char| if c == '/' { '\0' } else { c })
}

/// Path `a` (at position `ia`) sorts before path `b` (at position `ib`);
/// equal paths keep their order.
pub open spec fn path_before(a: Seq<char>, ia: int, b: Seq<char>, ib: int) -> bool {
    lex_lt(path_key(a), path_key(b)) || (path_key(a) == path_key(b) && ia < ib)
}

/// `order` lists every position of `paths` once, in path order.
pub open spec fn is_path_order(paths: Seq<Seq<char>>, order: Seq<usize>) -> bool {
    &&& order.len() == paths.len()
    &&& order.no_duplicates()
    &&& forall|k: int| 0 <= k < order.len() ==> #[trigger] order[k] < paths.len()
    &&& forall|a: int, b: int|
        0 <= a < b < order.len() ==> path_before(
            paths[#[trigger] order[a] as int],
            order[a] as int,
            paths[#[trigger] order[b] as int],
            order[b] as int,
        )
}

/// The text of each path.
pub open spec fn texts(paths: Seq<String>) -> Seq<Seq<char>> {
    paths.map_values(|p: String| p@)
}

/// `sorted` holds the paths of `paths` in path order.
pub open spec fn in_path_order(paths: Seq<String>, sorted: Seq<String>) -> bool {
    exists|order: Seq<usize>|
        #[trigger] is_path_order(texts(paths), order) && texts(sorted) == picked(paths, order)
}

/// The texts of the paths at the positions `order`, in that order.
pub open spec fn picked(paths: Seq<String>, order: Seq<usize>) -> Seq<Seq<char>> {
    order.map_values(|i: usize| paths[i as int]@)
}

proof fn lemma_path_before_total(a: Seq<char>, ia: int, b: Seq<char>, ib: int)
    requires
        ia != ib,
    ensures
        path_before(a, ia, b, ib) || path_before(b, ib, a, ia),
        !(path_before(a, ia, b, ib) && path_before(b, ib, a, ia)),
{
    lemma_lex_total(path_key(a), path_key(b));
}

proof fn lemma_path_before_transitive(a: Seq<char>, ia: int, b: Seq<char>, ib: int, c: Seq<char>, ic: int)
    requires
        path_before(a, ia, b, ib),
        path_before(b, ib, c, ic),
    ensures
        path_before(a, ia, c, ic),
{
    if lex_lt(path_key(a), path_key(b)) && lex_lt(path_key(b), path_key(c)) {
        lemma_lex_transitive(path_key(a), path_key(b), path_key(c));
    }
}

fn key_of(p: &String) -> (k: Vec<char>)
    ensures
        k@ == path_key(p@),
{
    let cs = chars_of(p.as_str());
    let mut k: Vec<char> = Vec::new();
    let mut i: usize = 0;
    while i < cs.len()
        invariant
            i <= cs.len(),
            cs@ == p@,
            k@ == path_key(cs@.take(i as int)),
        decreases cs.len() - i,
    {
        k.push(if cs[i] == '/' { '\0' } else { cs[i] });
        assert(path_key(cs@.take(i + 1)) =~= path_key(cs@.take(i as int)).push(
            if cs@[i as int] == '/' { '\0' } else { cs@[i as int] },
        ));
        i = i + 1;
    }
    assert(cs@.take(cs.len() as int) =~= cs@);
    k
}

proof fn lemma_insert_path(paths: Seq<Seq<char>>, s: Seq<usize>, k: int, x: usize)
    requires
        forall|a: int, b: int|
            0 <= a < b < s.len() ==> path_before(
                paths[#[trigger] s[a] as int],
                s[a] as int,
                paths[#[trigger] s[b] as int],
                s[b] as int,
            ),
        0 <= k <= s.len(),
        forall|m: int|
            0 <= m < k ==> path_before(paths[#[trigger] s[m] as int], s[m] as int, paths[x as int], x as int),
        k < s.len() ==> path_before(paths[x as int], x as int, paths[s[k] as int], s[k] as int),
    ensures
        forall|a: int, b: int|
            0 <= a < b < s.insert(k, x).len() ==> path_before(
                paths[#[trigger] s.insert(k, x)[a] as int],
                s.insert(k, x)[a] as int,
                paths[#[trigger] s.insert(k, x)[b] as int],
                s.insert(k, x)[b] as int,
            ),
{
    s.insert_ensures(k, x);
    let t = s.insert(k, x);
    assert forall|a: int, b: int| 0 <= a < b < t.len() implies path_before(
        paths[#[trigger] t[a] as int],
        t[a] as int,
        paths[#[trigger] t[b] as int],
        t[b] as int,
    ) by {
        if b < k {
            assert(t[a] == s[a] && t[b] == s[b]);
        } else if b == k {
            assert(t[a] == s[a]);
        } else if a < k {
            assert(t[a] == s[a] && t[b] == s[b - 1]);
        } else if a == k {
            assert(t[b] == s[b - 1]);
            if b - 1 > k {
                lemma_path_before_transitive(
                    paths[x as int],
                    x as int,
                    paths[s[k] as int],
                    s[k] as int,
                    paths[s[b - 1] as int],
                    s[b - 1] as int,
                );
            }
        } else {
            assert(t[a] == s[a - 1] && t[b] == s[b - 1]);
        }
    }
}

fn before_now(keys: &Vec<Vec<char>>, i: usize, j: usize, Ghost(paths): Ghost<Seq<Seq<char>>>) -> (r: bool)
    requires
        i < keys.len(),
        j < keys.len(),
        keys.len() == paths.len(),
        forall|k: int| 0 <= k < keys.len() ==> (#[trigger] keys[k])@ == path_key(paths[k]),
    ensures
        r == path_before(paths[i as int], i as int, paths[j as int], j as int),
{
    chars_lt(&keys[i], &keys[j]) || (chars_eq(&keys[i], &keys[j]) && i < j)
}

/// The paths in path order.
fn sorted_paths(paths: &Vec<String>) -> (r: Vec<String>)
    ensures
        in_path_order(paths@, r@),
{
    let ghost ps = texts(paths@);
    let n = paths.len();
    let mut keys: Vec<Vec<char>> = Vec::new();
    let mut i: usize = 0;
    while i < n
        invariant
            n == paths.len(),
            ps == texts(paths@),
            i <= n,
            keys.len() == i,
            forall|k: int| 0 <= k < i ==> (#[trigger] keys[k])@ == path_key(ps[k]),
        decreases n - i,
    {
        keys.push(key_of(&paths[i]));
        i = i + 1;
    }
    let mut sorted: Vec<usize> = Vec::new();
    let mut i: usize = 0;
    while i < n
        invariant
            n == paths.len(),
            n == ps.len(),
            keys.len() == n,
            forall|k: int| 0 <= k < n ==> (#[trigger] keys[k])@ == path_key(ps[k]),
            i <= n,
            sorted@.len() == i,
            sorted@.no_duplicates(),
            forall|k: int| 0 <= k < sorted@.len() ==> #[trigger] sorted@[k] < i,
            forall|a: int, b: int|
                0 <= a < b < sorted@.len() ==> path_before(
                    ps[#[trigger] sorted@[a] as int],
                    sorted@[a] as int,
                    ps[#[trigger] sorted@[b] as int],
                    sorted@[b] as int,
                ),
        decreases n - i,
    {
        let mut k: usize = 0;
        while k < sorted.len() && before_now(&keys, sorted[k], i, Ghost(ps))
            invariant
                n == ps.len(),
                keys.len() == n,
                forall|m: int| 0 <= m < n ==> (#[trigger] keys[m])@ == path_key(ps[m]),
                i < n,
                forall|m: int| 0 <= m < sorted@.len() ==> #[trigger] sorted@[m] < i,
                k <= sorted.len(),
                forall|m: int|
                    0 <= m < k ==> path_before(
                        ps[#[trigger] sorted@[m] as int],
                        sorted@[m] as int,
                        ps[i as int],
                        i as int,
                    ),
            decreases sorted.len() - k,
        {
            k = k + 1;
        }
        let ghost s0 = sorted@;
        proof {
            if k < s0.len() {
                lemma_path_before_total(ps[s0[k as int] as int], s0[k as int] as int, ps[i as int], i as int);
            }
            lemma_insert_path(ps, s0, k as int, i);
            s0.insert_ensures(k as int, i);
        }
        sorted.insert(k, i);
        proof {
            let t = sorted@;
            assert forall|m: int| 0 <= m < t.len() implies #[trigger] t[m] < i + 1 by {
                if m > k {
                    assert(t[m] == s0[m - 1]);
                }
            }
            assert forall|a: int, b: int| 0 <= a < b < t.len() implies t[a] != t[b] by {
                if a < k && b < k {
                } else if a < k && b == k {
                    assert(t[a] == s0[a]);
                } else if a < k {
                    assert(t[a] == s0[a] && t[b] == s0[b - 1]);
                } else if a == k {
                    assert(t[b] == s0[b - 1]);
                } else {
                    assert(t[a] == s0[a - 1] && t[b] == s0[b - 1]);
                }
            }
        }
        i = i + 1;
    }
    let mut r: Vec<String> = Vec::new();
    let mut k: usize = 0;
    while k < sorted.len()
        invariant
            n == paths.len(),
            sorted@.len() == n,
            forall|m: int| 0 <= m < sorted@.len() ==> #[trigger] sorted@[m] < n,
            k <= sorted.len(),
            r@.len() == k,
            texts(r@) == picked(paths@, sorted@.take(k as int)),
        decreases sorted.len() - k,
    {
        let ghost before = r@;
        let p = paths[sorted[k]].clone();
        r.push(p);
        proof {
            let lhs = texts(r@);
            let rhs = picked(paths@, sorted@.take(k + 1));
            assert forall|m: int| 0 <= m < lhs.len() implies lhs[m] == rhs[m] by {
                if m < k {
                    assert(lhs[m] == texts(before)[m]);
                    assert(rhs[m] == picked(paths@, sorted@.take(k as int))[m]);
                }
            }
            assert(lhs =~= rhs);
        }
        k = k + 1;
    }
    assert(sorted@.take(k as int) =~= sorted@);
    assert(ps == texts(paths@));
    assert(is_path_order(texts(paths@), sorted@));
    r
}

} // verus!

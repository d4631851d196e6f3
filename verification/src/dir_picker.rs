//! The directory picker: the listing of the current directory (only
//! directories, git repositories first), the selection in it, and how the
//! path is shown.
//!
//! Reading the file system is the caller's part: it hands over what it read
//! of each entry, and the picker decides what to list and in what order.

use vstd::prelude::*;
use crate::keys::{Key, KeyCode};
use crate::text::{
    chars_eq, chars_lt, chars_of, chars_starts_with, decimal, decimal_chars, is_prefix, lex_lt,
    lemma_lex_total, lemma_lex_transitive, push_all, string_of,
};

verus! {

/// At most this many directory entries are looked at, so that huge
/// directories do not hang the picker.
pub const MAX_ENTRIES: usize = 500;

/// What was read of one entry of a directory.
pub struct RawDirEntry {
    pub name: String,
    pub path: String,
    /// The entry itself is a symbolic link.
    pub is_symlink: bool,
    /// The entry is (or leads to) a directory.
    pub is_dir: bool,
    /// The directory can be listed.
    pub readable: bool,
    /// It holds a `.git` entry.
    pub has_git: bool,
    /// How many subdirectories it has (counting at most `MAX_ENTRIES`
    /// entries), when it can be listed.
    pub item_count: Option<usize>,
}

/// What reading the current directory gave.
pub enum DirListing {
    /// Its entries, in the order the file system gave them.
    Read(Vec<RawDirEntry>),
    /// It could not be read; `parent` is its parent directory, if it has one.
    Unreadable { parent: Option<String> },
}

/// One listed directory.
pub struct DirEntry {
    pub name: String,
    pub path: String,
    pub is_git: bool,
    pub readable: bool,
    pub item_count: Option<usize>,
}

/// The picker's state.
pub struct DirPicker {
    pub current_dir: String,
    pub entries: Vec<DirEntry>,
    pub selected: usize,
    pub show_hidden: bool,
}

/// The count column of a listed directory.
pub open spec fn spec_count_text(e: DirEntry) -> Seq<char> {
    if !e.readable {
        "🔒"@
    } else {
        match e.item_count {
            Some(n) => if n == 0 {
                "empty"@
            } else if n >= MAX_ENTRIES {
                decimal(n as nat) + "+ dirs"@
            } else {
                decimal(n as nat) + " dirs"@
            },
            None => "—"@,
        }
    }
}

/// The info column of a listed directory.
pub open spec fn spec_info_text(e: DirEntry) -> Seq<char> {
    if !e.readable {
        "permission denied"@
    } else if e.is_git {
        "[git]"@
    } else {
        ""@
    }
}

impl DirEntry {
    /// How many subdirectories it has: `empty`, `N dirs`, `N+ dirs` when
    /// the count reached the cap, a dash when unknown, a lock when it
    /// cannot be read.
    pub fn count_text(&self) -> (r: String)
        ensures
            r@ == spec_count_text(*self),
    {
        if !self.readable {
            return "🔒".to_string();
        }
        match self.item_count {
            Some(n) => if n == 0 {
                "empty".to_string()
            } else {
                let mut cs = decimal_chars(n as u64);
                let tail = if n >= MAX_ENTRIES {
                    chars_of("+ dirs")
                } else {
                    chars_of(" dirs")
                };
                push_all(&mut cs, tail.as_slice());
                string_of(cs.as_slice())
            },
            None => "—".to_string(),
        }
    }

    /// `permission denied`, the `[git]` badge, or nothing.
    pub fn info_text(&self) -> (r: &'static str)
        ensures
            r@ == spec_info_text(*self),
    {
        if !self.readable {
            "permission denied"
        } else if self.is_git {
            "[git]"
        } else {
            ""
        }
    }
}

/// The name starts with a dot.
pub open spec fn is_hidden(name: Seq<char>) -> bool {
    name.len() > 0 && name[0] == '.'
}

/// A raw entry is listed: it is a directory, not a symbolic link, and not
/// hidden unless hidden entries are shown.
pub open spec fn listed(r: RawDirEntry, show_hidden: bool) -> bool {
    !r.is_symlink && r.is_dir && (show_hidden || !is_hidden(r.name@))
}

/// The listed entry made from a raw entry: a git repository when it is
/// readable and holds `.git`.
pub open spec fn entry_of(r: RawDirEntry) -> DirEntry {
    DirEntry {
        name: r.name,
        path: r.path,
        is_git: r.readable && r.has_git,
        readable: r.readable,
        item_count: r.item_count,
    }
}

/// The listed entries of `raw`, in order.
pub open spec fn listed_entries(raw: Seq<RawDirEntry>, show_hidden: bool) -> Seq<DirEntry>
    decreases raw.len(),
{
    if raw.len() == 0 {
        seq![]
    } else {
        let rest = listed_entries(raw.drop_last(), show_hidden);
        if listed(raw.last(), show_hidden) {
            rest.push(entry_of(raw.last()))
        } else {
            rest
        }
    }
}

/// The entries looked at: the first `MAX_ENTRIES`.
pub open spec fn capped(raw: Seq<RawDirEntry>) -> Seq<RawDirEntry> {
    if raw.len() > MAX_ENTRIES {
        raw.take(MAX_ENTRIES as int)
    } else {
        raw
    }
}

/// Entry `a` (at position `ia` of the unsorted list) is listed before entry
/// `b` (at `ib`): git repositories first, then by name; equal names keep
/// their order.
pub open spec fn entry_before(a: DirEntry, ia: int, b: DirEntry, ib: int) -> bool {
    (a.is_git && !b.is_git) || (a.is_git == b.is_git && (lex_lt(a.name@, b.name@) || (a.name@
        == b.name@ && ia < ib)))
}

/// The positions `order` of `kept` are in strictly increasing listing order.
pub open spec fn in_listing_order(kept: Seq<DirEntry>, order: Seq<usize>) -> bool {
    forall|a: int, b: int|
        0 <= a < b < order.len() ==> entry_before(
            kept[#[trigger] order[a] as int],
            order[a] as int,
            kept[#[trigger] order[b] as int],
            order[b] as int,
        )
}

/// `order` lists every position of `kept` once, in listing order.
pub open spec fn is_listing_order(kept: Seq<DirEntry>, order: Seq<usize>) -> bool {
    &&& order.len() == kept.len()
    &&& order.no_duplicates()
    &&& forall|k: int| 0 <= k < order.len() ==> #[trigger] order[k] < kept.len()
    &&& in_listing_order(kept, order)
}

/// The entries of `kept` in the order `order`.
pub open spec fn arranged(kept: Seq<DirEntry>, order: Seq<usize>) -> Seq<DirEntry> {
    order.map_values(|i: usize| kept[i as int])
}

proof fn lemma_entry_before_total(a: DirEntry, ia: int, b: DirEntry, ib: int)
    requires
        ia != ib,
    ensures
        entry_before(a, ia, b, ib) || entry_before(b, ib, a, ia),
        !(entry_before(a, ia, b, ib) && entry_before(b, ib, a, ia)),
{
    lemma_lex_total(a.name@, b.name@);
}

proof fn lemma_entry_before_transitive(a: DirEntry, ia: int, b: DirEntry, ib: int, c: DirEntry, ic: int)
    requires
        entry_before(a, ia, b, ib),
        entry_before(b, ib, c, ic),
    ensures
        entry_before(a, ia, c, ic),
{
    if lex_lt(a.name@, b.name@) && lex_lt(b.name@, c.name@) {
        lemma_lex_transitive(a.name@, b.name@, c.name@);
    }
}

/// The selection after a refresh: the entry with the name that was selected
/// (the first such), else the old position clamped into the list; the first
/// entry when nothing was selected.
pub open spec fn restored_selection(entries: Seq<DirEntry>, old_name: Option<Seq<char>>, selected: usize) -> usize {
    match old_name {
        Some(n) => if exists|k: int| 0 <= k < entries.len() && (#[trigger] entries[k]).name@ == n {
            (choose|k: int|
                0 <= k < entries.len() && entries[k].name@ == n && forall|j: int|
                    0 <= j < k ==> (#[trigger] entries[j]).name@ != n) as usize
        } else if entries.len() == 0 {
            0
        } else if selected < entries.len() {
            selected
        } else {
            (entries.len() - 1) as usize
        },
        None => 0,
    }
}

/// The name of the selected entry, if the selection is on one.
pub open spec fn selected_name(p: DirPicker) -> Option<Seq<char>> {
    if p.selected < p.entries@.len() {
        Some(p.entries@[p.selected as int].name@)
    } else {
        None
    }
}

proof fn lemma_insert_listing(kept: Seq<DirEntry>, s: Seq<usize>, k: int, x: usize)
    requires
        in_listing_order(kept, s),
        0 <= k <= s.len(),
        forall|m: int|
            0 <= m < k ==> entry_before(kept[#[trigger] s[m] as int], s[m] as int, kept[x as int], x as int),
        k < s.len() ==> entry_before(kept[x as int], x as int, kept[s[k] as int], s[k] as int),
    ensures
        in_listing_order(kept, s.insert(k, x)),
{
    s.insert_ensures(k, x);
    let t = s.insert(k, x);
    assert forall|a: int, b: int| 0 <= a < b < t.len() implies entry_before(
        kept[#[trigger] t[a] as int],
        t[a] as int,
        kept[#[trigger] t[b] as int],
        t[b] as int,
    ) by {
        if b < k {
            assert(t[a] == s[a] && t[b] == s[b]);
        } else if b == k {
            assert(t[a] == s[a]);
        } else if a < k {
            assert(t[a] == s[a] && t[b] == s[b - 1]);
        } else if a == k {
            assert(t[b] == s[b - 1]);
            if b - 1 > k {
                lemma_entry_before_transitive(
                    kept[x as int],
                    x as int,
                    kept[s[k] as int],
                    s[k] as int,
                    kept[s[b - 1] as int],
                    s[b - 1] as int,
                );
            }
        } else {
            assert(t[a] == s[a - 1] && t[b] == s[b - 1]);
        }
    }
}

fn listed_now(r: &RawDirEntry, show_hidden: bool) -> (b: bool)
    ensures
        b == listed(*r, show_hidden),
{
    if r.is_symlink || !r.is_dir {
        return false;
    }
    if show_hidden {
        return true;
    }
    let cs = chars_of(r.name.as_str());
    !(cs.len() > 0 && cs[0] == '.')
}

fn copy_entry(r: &RawDirEntry) -> (e: DirEntry)
    ensures
        e == entry_of(*r),
{
    DirEntry {
        name: r.name.clone(),
        path: r.path.clone(),
        is_git: r.readable && r.has_git,
        readable: r.readable,
        item_count: r.item_count,
    }
}

fn copy_dir_entry(e: &DirEntry) -> (r: DirEntry)
    ensures
        r == *e,
{
    DirEntry {
        name: e.name.clone(),
        path: e.path.clone(),
        is_git: e.is_git,
        readable: e.readable,
        item_count: e.item_count,
    }
}

fn before_now(kept: &Vec<DirEntry>, names: &Vec<Vec<char>>, i: usize, j: usize) -> (r: bool)
    requires
        i < kept.len(),
        j < kept.len(),
        names.len() == kept.len(),
        forall|k: int| 0 <= k < names.len() ==> (#[trigger] names[k])@ == kept[k].name@,
    ensures
        r == entry_before(kept@[i as int], i as int, kept@[j as int], j as int),
{
    let (a, b) = (&kept[i], &kept[j]);
    (a.is_git && !b.is_git) || (a.is_git == b.is_git && (chars_lt(&names[i], &names[j]) || (
    chars_eq(&names[i], &names[j]) && i < j)))
}

/// The positions of `kept` in listing order.
fn listing_order(kept: &Vec<DirEntry>, names: &Vec<Vec<char>>) -> (order: Vec<usize>)
    requires
        names.len() == kept.len(),
        forall|k: int| 0 <= k < names.len() ==> (#[trigger] names[k])@ == kept[k].name@,
    ensures
        is_listing_order(kept@, order@),
{
    let n = kept.len();
    let mut sorted: Vec<usize> = Vec::new();
    let mut i: usize = 0;
    while i < n
        invariant
            n == kept.len(),
            names.len() == kept.len(),
            forall|k: int| 0 <= k < names.len() ==> (#[trigger] names[k])@ == kept[k].name@,
            i <= n,
            sorted@.len() == i,
            sorted@.no_duplicates(),
            forall|k: int| 0 <= k < sorted@.len() ==> #[trigger] sorted@[k] < i,
            in_listing_order(kept@, sorted@),
        decreases n - i,
    {
        let mut k: usize = 0;
        while k < sorted.len() && before_now(kept, names, sorted[k], i)
            invariant
                n == kept.len(),
                i < n,
                names.len() == kept.len(),
                forall|m: int| 0 <= m < names.len() ==> (#[trigger] names[m])@ == kept[m].name@,
                forall|m: int| 0 <= m < sorted@.len() ==> #[trigger] sorted@[m] < i,
                k <= sorted.len(),
                forall|m: int|
                    0 <= m < k ==> entry_before(
                        kept@[#[trigger] sorted@[m] as int],
                        sorted@[m] as int,
                        kept@[i as int],
                        i as int,
                    ),
            decreases sorted.len() - k,
        {
            k = k + 1;
        }
        let ghost s0 = sorted@;
        proof {
            if k < s0.len() {
                lemma_entry_before_total(kept@[s0[k as int] as int], s0[k as int] as int, kept@[i as int], i as int);
            }
            lemma_insert_listing(kept@, s0, k as int, i);
            s0.insert_ensures(k as int, i);
        }
        sorted.insert(k, i);
        proof {
            let t = sorted@;
            assert forall|m: int| 0 <= m < t.len() implies #[trigger] t[m] < i + 1 by {
                if m > k {
                    assert(t[m] == s0[m - 1]);
                }
            }
            assert forall|a: int, b: int| 0 <= a < b < t.len() implies t[a] != t[b] by {
                if a < k && b < k {
                } else if a < k && b == k {
                    assert(t[a] == s0[a]);
                } else if a < k {
                    assert(t[a] == s0[a] && t[b] == s0[b - 1]);
                } else if a == k {
                    assert(t[b] == s0[b - 1]);
                } else {
                    assert(t[a] == s0[a - 1] && t[b] == s0[b - 1]);
                }
            }
        }
        i = i + 1;
    }
    sorted
}

/// Finds the first entry named `name`.
fn position_of(entries: &Vec<DirEntry>, name: &Vec<char>) -> (r: Option<usize>)
    ensures
        match r {
            Some(k) => k < entries@.len() && entries@[k as int].name@ == name@ && forall|j: int|
                0 <= j < k ==> (#[trigger] entries@[j]).name@ != name@,
            None => forall|j: int| 0 <= j < entries@.len() ==> (#[trigger] entries@[j]).name@ != name@,
        },
{
    let mut k: usize = 0;
    while k < entries.len()
        invariant
            k <= entries.len(),
            forall|j: int| 0 <= j < k ==> (#[trigger] entries@[j]).name@ != name@,
        decreases entries.len() - k,
    {
        if chars_eq(&chars_of(entries[k].name.as_str()), name) {
            return Some(k);
        }
        k = k + 1;
    }
    None
}

/// The picker `new` after listing the directory `dir` from `listing`, with
/// hidden entries shown or not, where the entry named `prev_name` was selected
/// at position `prev_selected`; `canonical` is `dir` with symbolic links
/// resolved, when that worked.
pub open spec fn listed_from(
    dir: Seq<char>,
    show_hidden: bool,
    prev_name: Option<Seq<char>>,
    prev_selected: usize,
    canonical: Option<String>,
    listing: DirListing,
    new: DirPicker,
) -> bool {
    let dir = match canonical {
        Some(c) => c@,
        None => dir,
    };
    &&& new.show_hidden == show_hidden
    &&& match listing {
        DirListing::Unreadable { parent } => {
            &&& new.current_dir@ == match parent {
                Some(p) => p@,
                None => dir,
            }
            &&& new.entries@.len() == 0
            &&& new.selected == prev_selected
        },
        DirListing::Read(raw) => {
            let kept = listed_entries(capped(raw@), show_hidden);
            &&& new.current_dir@ == dir
            &&& exists|order: Seq<usize>|
                is_listing_order(kept, order) && new.entries@ == arranged(kept, order)
            &&& new.selected == restored_selection(new.entries@, prev_name, prev_selected)
        },
    }
}

/// The picker after a refresh of `old` with `canonical` (the current
/// directory with symbolic links resolved, when that worked) and `listing`.
pub open spec fn refreshed(old: DirPicker, canonical: Option<String>, listing: DirListing, new: DirPicker) -> bool {
    listed_from(
        old.current_dir@,
        old.show_hidden,
        selected_name(old),
        old.selected,
        canonical,
        listing,
        new,
    )
}

/// The listed entries of `raw` (the first `MAX_ENTRIES` looked at), in
/// listing order.
fn build_entries(raw: &Vec<RawDirEntry>, show_hidden: bool) -> (entries: Vec<DirEntry>)
    ensures
        exists|order: Seq<usize>|
            is_listing_order(listed_entries(capped(raw@), show_hidden), order) && entries@ == arranged(
                listed_entries(capped(raw@), show_hidden),
                order,
            ),
{
    let cap = if raw.len() > MAX_ENTRIES {
        MAX_ENTRIES
    } else {
        raw.len()
    };
    assert(capped(raw@) =~= raw@.take(cap as int));
    let mut kept: Vec<DirEntry> = Vec::new();
    let mut names: Vec<Vec<char>> = Vec::new();
    let mut i: usize = 0;
    while i < cap
        invariant
            cap <= raw.len(),
            i <= cap,
            kept@ == listed_entries(raw@.take(i as int), show_hidden),
            names.len() == kept.len(),
            forall|k: int| 0 <= k < names.len() ==> (#[trigger] names[k])@ == kept[k].name@,
        decreases cap - i,
    {
        assert(raw@.take(i + 1).drop_last() =~= raw@.take(i as int));
        assert(raw@.take(i + 1).last() == raw@[i as int]);
        if listed_now(&raw[i], show_hidden) {
            let e = copy_entry(&raw[i]);
            names.push(chars_of(e.name.as_str()));
            kept.push(e);
        }
        i = i + 1;
    }
    let order = listing_order(&kept, &names);
    let mut entries: Vec<DirEntry> = Vec::new();
    let mut k: usize = 0;
    while k < order.len()
        invariant
            is_listing_order(kept@, order@),
            k <= order.len(),
            entries@ == arranged(kept@, order@.take(k as int)),
        decreases order.len() - k,
    {
        entries.push(copy_dir_entry(&kept[order[k]]));
        assert(arranged(kept@, order@.take(k + 1)) =~= arranged(kept@, order@.take(k as int)).push(
            kept@[order@[k as int] as int],
        ));
        k = k + 1;
    }
    assert(order@.take(k as int) =~= order@);
    entries
}

/// The selection after a refresh (see `restored_selection`).
fn restore_selection(entries: &Vec<DirEntry>, prev_name: &Option<Vec<char>>, selected: usize) -> (r: usize)
    ensures
        r == restored_selection(
            entries@,
            match prev_name {
                Some(n) => Some(n@),
                None => None,
            },
            selected,
        ),
{
    let len = entries.len();
    let r = match prev_name {
        Some(n) => match position_of(entries, n) {
            Some(pos) => pos,
            None => if len == 0 {
                0
            } else if selected < len {
                selected
            } else {
                len - 1
            },
        },
        None => 0,
    };
    proof {
        let ents = entries@;
        if let Some(n) = prev_name {
            if exists|k: int| 0 <= k < ents.len() && (#[trigger] ents[k]).name@ == n@ {
                let c = choose|c: int|
                    0 <= c < ents.len() && ents[c].name@ == n@ && forall|j: int|
                        0 <= j < c ==> (#[trigger] ents[j]).name@ != n@;
                assert(r < ents.len() && ents[r as int].name@ == n@);
                if c < r {
                    assert(ents[c].name@ == n@);
                }
                if r < c {
                    assert(ents[r as int].name@ == n@);
                }
            }
        }
    }
    r
}

impl DirPicker {
    /// Relists the current directory from `listing`; `canonical` is the
    /// current directory with symbolic links resolved, when that worked.
    /// An unreadable directory leaves the list empty and moves to its parent.
    pub fn refresh(&mut self, canonical: Option<String>, listing: DirListing)
        ensures
            refreshed(*old(self), canonical, listing, *final(self)),
    {
        let prev_name: Option<Vec<char>> = if self.selected < self.entries.len() {
            Some(chars_of(self.entries[self.selected].name.as_str()))
        } else {
            None
        };
        self.entries = Vec::new();
        if let Some(c) = canonical {
            self.current_dir = c;
        }
        match listing {
            DirListing::Unreadable { parent } => {
                if let Some(p) = parent {
                    self.current_dir = p;
                }
            },
            DirListing::Read(raw) => {
                let entries = build_entries(&raw, self.show_hidden);
                let selected = restore_selection(&entries, &prev_name, self.selected);
                self.entries = entries;
                self.selected = selected;
            },
        }
    }
}

impl DirPicker {
    /// A picker at `start`, listed from `listing` (`canonical` as for `refresh`).
    pub fn new(start: String, canonical: Option<String>, listing: DirListing) -> (r: Self)
        ensures
            listed_from(start@, false, None, 0, canonical, listing, r),
    {
        let mut picker = DirPicker {
            current_dir: start,
            entries: Vec::new(),
            selected: 0,
            show_hidden: false,
        };
        picker.refresh(canonical, listing);
        picker
    }

    /// Moves to the directory `dir` and lists it from `listing` (`canonical`
    /// as for `refresh`).
    pub fn enter(&mut self, dir: String, canonical: Option<String>, listing: DirListing)
        ensures
            refreshed(DirPicker { current_dir: dir, ..*old(self) }, canonical, listing, *final(self)),
    {
        self.current_dir = dir;
        self.refresh(canonical, listing);
    }

    /// The path of the highlighted entry, if any.
    pub fn selected_path(&self) -> (r: Option<&String>)
        ensures
            match r {
                Some(p) => self.selected < self.entries@.len() && *p == self.entries@[self.selected as int].path,
                None => self.selected >= self.entries@.len(),
            },
    {
        if self.selected < self.entries.len() {
            Some(&self.entries[self.selected].path)
        } else {
            None
        }
    }

    pub fn select_next(&mut self)
        requires
            old(self).entries@.len() == 0 || old(self).selected < usize::MAX,
        ensures
            final(self).selected == if old(self).entries@.len() == 0 {
                old(self).selected
            } else if old(self).selected + 1 < old(self).entries@.len() {
                (old(self).selected + 1) as usize
            } else {
                (old(self).entries@.len() - 1) as usize
            },
            final(self).entries == old(self).entries,
            final(self).current_dir == old(self).current_dir,
            final(self).show_hidden == old(self).show_hidden,
    {
        if !self.entries.is_empty() {
            let up = self.selected + 1;
            let last = self.entries.len() - 1;
            self.selected = if up < last {
                up
            } else {
                last
            };
        }
    }

    pub fn select_prev(&mut self)
        ensures
            final(self).selected == if old(self).selected == 0 {
                0
            } else {
                (old(self).selected - 1) as usize
            },
            final(self).entries == old(self).entries,
            final(self).current_dir == old(self).current_dir,
            final(self).show_hidden == old(self).show_hidden,
    {
        self.selected = self.selected.saturating_sub(1);
    }

    /// Shows or hides hidden directories, and relists from `listing`.
    pub fn toggle_hidden(&mut self, canonical: Option<String>, listing: DirListing)
        ensures
            refreshed(
                DirPicker { show_hidden: !old(self).show_hidden, ..*old(self) },
                canonical,
                listing,
                *final(self),
            ),
            final(self).show_hidden == !old(self).show_hidden,
    {
        self.show_hidden = !self.show_hidden;
        self.refresh(canonical, listing);
    }

    /// The current directory as shown: with the home directory `home`
    /// abbreviated to `~` when the path starts with it (as text).
    pub fn display_path(&self, home: Option<&str>) -> (r: String)
        ensures
            r@ == match home {
                Some(h) => if is_prefix(h@, self.current_dir@) {
                    seq!['~'] + self.current_dir@.skip(h@.len() as int)
                } else {
                    self.current_dir@
                },
                None => self.current_dir@,
            },
    {
        let path = chars_of(self.current_dir.as_str());
        if let Some(h) = home {
            let hc = chars_of(h);
            if chars_starts_with(&path, &hc) {
                let mut out: Vec<char> = Vec::new();
                out.push('~');
                let mut i: usize = hc.len();
                while i < path.len()
                    invariant
                        hc.len() <= i <= path.len(),
                        out@ == seq!['~'] + path@.subrange(hc.len() as int, i as int),
                    decreases path.len() - i,
                {
                    out.push(path[i]);
                    assert(path@.subrange(hc.len() as int, i + 1) =~= path@.subrange(
                        hc.len() as int,
                        i as int,
                    ).push(path@[i as int]));
                    i = i + 1;
                }
                assert(path@.subrange(hc.len() as int, path.len() as int) =~= path@.skip(
                    hc.len() as int,
                ));
                return string_of(out.as_slice());
            }
        }
        self.current_dir.clone()
    }
}

proof fn lemma_restored_in_range(entries: Seq<DirEntry>, name: Option<Seq<char>>, selected: usize)
    ensures
        entries.len() == 0 ==> restored_selection(entries, name, selected) == 0,
        entries.len() > 0 ==> restored_selection(entries, name, selected) < entries.len(),
{
    if let Some(n) = name {
        if exists|k: int| 0 <= k < entries.len() && (#[trigger] entries[k]).name@ == n {
            let w = choose|k: int| 0 <= k < entries.len() && (#[trigger] entries[k]).name@ == n;
            lemma_first_with_name(entries, n, w);
        }
    }
}

proof fn lemma_first_with_name(entries: Seq<DirEntry>, n: Seq<char>, w: int)
    requires
        0 <= w < entries.len(),
        entries[w].name@ == n,
    ensures
        exists|c: int|
            0 <= c < entries.len() && entries[c].name@ == n && forall|j: int|
                0 <= j < c ==> (#[trigger] entries[j]).name@ != n,
    decreases w,
{
    if exists|j: int| 0 <= j < w && (#[trigger] entries[j]).name@ == n {
        let j = choose|j: int| 0 <= j < w && (#[trigger] entries[j]).name@ == n;
        lemma_first_with_name(entries, n, j);
    } else {
        assert(forall|j: int| 0 <= j < w ==> (#[trigger] entries[j]).name@ != n);
    }
}

/// After the directory was read, the selection is on an entry, or it is the
/// first position of an empty list.
pub proof fn law_refresh_selection_in_range(old: DirPicker, canonical: Option<String>, listing: DirListing, new: DirPicker)
    requires
        refreshed(old, canonical, listing, new),
        listing is Read,
    ensures
        new.entries@.len() > 0 ==> new.selected < new.entries@.len(),
        new.entries@.len() == 0 ==> new.selected == 0,
{
    lemma_restored_in_range(new.entries@, selected_name(old), old.selected);
}

/// Git repositories are listed before all other directories.
pub proof fn law_git_first(old: DirPicker, canonical: Option<String>, listing: DirListing, new: DirPicker)
    requires
        refreshed(old, canonical, listing, new),
    ensures
        forall|i: int, j: int|
            0 <= i < j < new.entries@.len() && (#[trigger] new.entries@[j]).is_git ==> (#[trigger] new.entries@[i]).is_git,
{
    if let DirListing::Read(raw) = listing {
        let kept = listed_entries(capped(raw@), old.show_hidden);
        let order = choose|order: Seq<usize>|
            is_listing_order(kept, order) && new.entries@ == arranged(kept, order);
        assert forall|i: int, j: int|
            0 <= i < j < new.entries@.len() && (#[trigger] new.entries@[j]).is_git implies (#[trigger] new.entries@[i]).is_git by {
            assert(new.entries@[i] == kept[order[i] as int]);
            assert(new.entries@[j] == kept[order[j] as int]);
            assert(entry_before(kept[order[i] as int], order[i] as int, kept[order[j] as int], order[j] as int));
        }
    }
}


/// What a key does in the directory picker.
#[derive(Debug, Clone, Copy, PartialEq, Eq, Structural)]
pub enum PickerAction {
    /// Leave without choosing.
    Quit,
    /// Choose the current directory.
    Choose,
    /// Open the highlighted directory.
    Open,
    /// Go to the parent directory.
    Back,
    Down,
    Up,
    ToggleHidden,
    /// Go to the home directory.
    Home,
    Nothing,
}

/// The picker's keys: `q` or Ctrl-C quit; Enter or space choose; right,
/// `l` or Tab open; left, `h`, Backspace or Esc go back; down/`j`, up/`k`
/// move; `.` shows or hides hidden directories; `~` goes home.
pub open spec fn spec_picker_action(key: Key) -> PickerAction {
    match key.code {
        KeyCode::Char('q') => PickerAction::Quit,
        KeyCode::Char('c') => if key.ctrl {
            PickerAction::Quit
        } else {
            PickerAction::Nothing
        },
        KeyCode::Enter | KeyCode::Char(' ') => PickerAction::Choose,
        KeyCode::Right | KeyCode::Char('l') | KeyCode::Tab => PickerAction::Open,
        KeyCode::Left | KeyCode::Char('h') | KeyCode::Backspace | KeyCode::Esc => PickerAction::Back,
        KeyCode::Down | KeyCode::Char('j') => PickerAction::Down,
        KeyCode::Up | KeyCode::Char('k') => PickerAction::Up,
        KeyCode::Char('.') => PickerAction::ToggleHidden,
        KeyCode::Char('~') => PickerAction::Home,
        _ => PickerAction::Nothing,
    }
}

pub fn picker_action(key: Key) -> (r: PickerAction)
    ensures
        r == spec_picker_action(key),
{
    match key.code {
        KeyCode::Char('q') => PickerAction::Quit,
        KeyCode::Char('c') => if key.ctrl {
            PickerAction::Quit
        } else {
            PickerAction::Nothing
        },
        KeyCode::Enter | KeyCode::Char(' ') => PickerAction::Choose,
        KeyCode::Right | KeyCode::Char('l') | KeyCode::Tab => PickerAction::Open,
        KeyCode::Left | KeyCode::Char('h') | KeyCode::Backspace | KeyCode::Esc => PickerAction::Back,
        KeyCode::Down | KeyCode::Char('j') => PickerAction::Down,
        KeyCode::Up | KeyCode::Char('k') => PickerAction::Up,
        KeyCode::Char('.') => PickerAction::ToggleHidden,
        KeyCode::Char('~') => PickerAction::Home,
        _ => PickerAction::Nothing,
    }
}

} // verus!

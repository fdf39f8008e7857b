//! Remote directories: what is listed, and what deleting and changing permissions
//! does.

#![verifier::loop_isolation(false)]

use crate::error::{self, AppError, ErrorView};
use crate::models::{
    Duplicate, RemoteDirectoryEntry, RemoteDirectoryEntryView, RemoteDirectoryListing,
    RemoteDirectoryListingView, RemoteEntryKind, TransferDirection,
};
use crate::outside::{self, kind_of_mode, lowercase, permission_letters, time_text};
use crate::paths::{self, join_remote_path, parent_remote_path};
use crate::sort::{self, SortKey, items_at, order_of};
use crate::text::{
    self, cat2, cat4, clone_text, comes_before, decimal_text, parse_number, same, starts_with,
    without_trailing,
};
use vstd::prelude::*;

verus! {

/// The number of entries that a directory may have.
pub const MAX_ENTRIES: usize = 100_000;

/// The number of entries on a page.
pub const PAGE_SIZE: usize = 1000;

/// The number of directories that may lie inside each other.
pub const MAX_DEPTH: usize = 64;

/// The number of entries that may wait to be looked at.
pub const MAX_PENDING: usize = 10_000;

/// What a server says of an entry of a directory.
#[derive(Debug)]
pub struct RawEntry {
    pub name: String,
    pub path: String,
    pub size: Option<u64>,
    pub uid: Option<u32>,
    pub gid: Option<u32>,
    pub permissions: Option<u32>,
    pub mtime: Option<u32>,
}

/// What a [`RawEntry`] says.
#[verifier::ext_equal]
pub struct RawEntryView {
    pub name: Seq<char>,
    pub path: Seq<char>,
    pub size: Option<u64>,
    pub uid: Option<u32>,
    pub gid: Option<u32>,
    pub permissions: Option<u32>,
    pub mtime: Option<u32>,
}

impl View for RawEntry {
    type V = RawEntryView;

    open spec fn view(&self) -> RawEntryView {
        RawEntryView {
            name: self.name@,
            path: self.path@,
            size: self.size,
            uid: self.uid,
            gid: self.gid,
            permissions: self.permissions,
            mtime: self.mtime,
        }
    }
}

impl DeepView for RawEntry {
    type V = RawEntryView;

    open spec fn deep_view(&self) -> RawEntryView {
        self@
    }
}

impl Duplicate for RawEntry {
    fn duplicate(&self) -> (r: Self) {
        RawEntry {
            name: self.name.clone(),
            path: self.path.clone(),
            size: self.size,
            uid: self.uid,
            gid: self.gid,
            permissions: self.permissions,
            mtime: self.mtime,
        }
    }
}

impl Clone for RawEntry {
    fn clone(&self) -> (r: Self)
        ensures
            r@ == self@,
    {
        self.duplicate()
    }
}

/// The letter in front of the permissions of an entry.
pub open spec fn kind_letter(kind: RemoteEntryKind) -> Seq<char> {
    match kind {
        RemoteEntryKind::Directory => "d"@,
        RemoteEntryKind::File => "-"@,
        RemoteEntryKind::Symlink => "l"@,
        RemoteEntryKind::Other => "?"@,
    }
}

/// An entry as it is listed, where `modified_at` is the text for its time.
pub open spec fn listed_entry(
    raw: RawEntryView,
    modified_at: Option<Seq<char>>,
    link: Option<Seq<char>>,
) -> RemoteDirectoryEntryView {
    let kind = outside::mode_kind(raw.permissions);
    RemoteDirectoryEntryView {
        name: raw.name,
        path: raw.path,
        kind,
        size: match raw.size {
            Some(size) => size,
            None => 0,
        },
        modified_at,
        permissions: kind_letter(kind) + outside::mode_letters(raw.permissions),
        permission_mode: match raw.permissions {
            Some(mode) => Some(mode & 4095),
            None => None,
        },
        uid: raw.uid,
        gid: raw.gid,
        symlink_target: if kind == RemoteEntryKind::Symlink {
            link
        } else {
            None
        },
    }
}

/// The text for the time of an entry.
pub open spec fn modified_text(raw: RawEntryView) -> Option<Seq<char>> {
    match raw.mtime {
        Some(seconds) => Some(outside::time_text_of(seconds)),
        None => None,
    }
}

/// An entry as it is listed, given the text for its time and, where it is a link,
/// what it points at.
pub fn make_entry(raw: &RawEntry, modified_at: Option<String>, link: Option<String>) -> (r:
    RemoteDirectoryEntry)
    ensures
        r@ == listed_entry(raw@, modified_at.deep_view(), link.deep_view()),
{
    let kind = kind_of_mode(raw.permissions);
    let letter = match kind {
        RemoteEntryKind::Directory => "d",
        RemoteEntryKind::File => "-",
        RemoteEntryKind::Symlink => "l",
        RemoteEntryKind::Other => "?",
    };
    RemoteDirectoryEntry {
        name: raw.name.clone(),
        path: raw.path.clone(),
        kind,
        size: match raw.size {
            Some(size) => size,
            None => 0,
        },
        modified_at,
        permissions: cat2(letter, permission_letters(raw.permissions).as_str()),
        permission_mode: match raw.permissions {
            Some(mode) => Some(mode & 4095),
            None => None,
        },
        uid: raw.uid,
        gid: raw.gid,
        symlink_target: if kind == RemoteEntryKind::Symlink {
            link
        } else {
            None
        },
    }
}

/// Whether an entry is a link, whose target is then asked for.
pub fn is_symlink(raw: &RawEntry) -> (r: bool)
    ensures
        r == (outside::mode_kind(raw@.permissions) == RemoteEntryKind::Symlink),
{
    kind_of_mode(raw.permissions) == RemoteEntryKind::Symlink
}

/// An entry as it is listed, given what it points at where it is a link.
pub fn directory_entry(raw: &RawEntry, link: Option<String>) -> (r: RemoteDirectoryEntry)
    ensures
        r@ == listed_entry(raw@, modified_text(raw@), link.deep_view()),
{
    let modified_at = match raw.mtime {
        Some(seconds) => Some(time_text(seconds)),
        None => None,
    };
    make_entry(raw, modified_at, link)
}

/// Whether an entry is listed before another: directories come first, then the
/// one whose name in lower case comes first.
pub open spec fn listed_before(
    a: (RemoteDirectoryEntryView, Seq<char>),
    b: (RemoteDirectoryEntryView, Seq<char>),
) -> bool {
    let a_directory = a.0.kind == RemoteEntryKind::Directory;
    let b_directory = b.0.kind == RemoteEntryKind::Directory;
    (a_directory && !b_directory) || (a_directory == b_directory && text::text_before(a.1, b.1))
}

/// Entries, each with its name in lower case.
pub open spec fn entries_with_names(
    entries: Seq<RemoteDirectoryEntryView>,
    names: Seq<Seq<char>>,
) -> Seq<(RemoteDirectoryEntryView, Seq<char>)> {
    Seq::new(entries.len(), |i: int| (entries[i], names[i]))
}

/// Whether `sorted` holds the entries in the order in which they are listed, given
/// their names in lower case.
pub open spec fn entries_in_order(
    entries: Seq<RemoteDirectoryEntryView>,
    names: Seq<Seq<char>>,
    sorted: Seq<RemoteDirectoryEntryView>,
) -> bool {
    exists|sorted_names: Seq<Seq<char>>|
        sorted_names.len() == sorted.len() && sort::stably_sorted(
            entries_with_names(entries, names),
            #[trigger] entries_with_names(sorted, sorted_names),
            |a: (RemoteDirectoryEntryView, Seq<char>), b: (RemoteDirectoryEntryView, Seq<char>)|
                listed_before(a, b),
        )
}

/// What decides where an entry is listed.
struct EntryKey {
    directory: bool,
    name: String,
}

impl SortKey for EntryKey {
    closed spec fn less(self, other: Self) -> bool {
        (self.directory && !other.directory) || (self.directory == other.directory && text::text_before(
            self.name@,
            other.name@,
        ))
    }

    proof fn less_asymmetric(a: Self, b: Self) {
        if a.directory == b.directory {
            text::text_order_asymmetric(a.name@, b.name@);
        }
    }

    proof fn less_splits(a: Self, b: Self, c: Self) {
        if a.directory == b.directory {
            text::text_order_splits(a.name@, b.name@, c.name@);
        }
    }

    fn is_less(&self, other: &Self) -> (r: bool) {
        (self.directory && !other.directory) || (self.directory == other.directory && comes_before(
            self.name.as_str(),
            other.name.as_str(),
        ))
    }
}

/// The entries in the order in which they are listed, given their names in lower
/// case.
pub fn sort_entries(entries: &Vec<RemoteDirectoryEntry>, names: &Vec<String>) -> (r: Vec<
    RemoteDirectoryEntry,
>)
    requires
        names@.len() == entries@.len(),
    ensures
        entries_in_order(entries.deep_view(), names.deep_view(), r.deep_view()),
        r@.len() == entries@.len(),
{
    let ghost view = entries.deep_view();
    let ghost lower_names = names.deep_view();
    let mut keys: Vec<EntryKey> = Vec::new();
    let mut i: usize = 0;
    while i < entries.len()
        invariant
            i <= entries@.len(),
            keys@.len() == i,
            forall|j: int|
                0 <= j < i ==> (#[trigger] keys@[j]).directory == (view[j].kind
                    == RemoteEntryKind::Directory) && keys@[j].name@ == lower_names[j],
        decreases entries@.len() - i,
    {
        keys.push(
            EntryKey {
                directory: entries[i].kind == RemoteEntryKind::Directory,
                name: names[i].clone(),
            },
        );
        i = i + 1;
    }
    let order = order_of(&keys);
    let r = items_at(entries, &order);
    proof {
        let sorted = r.deep_view();
        let sorted_names = Seq::new(order@.len(), |j: int| lower_names[order@[j] as int]);
        let input = entries_with_names(view, lower_names);
        let output = entries_with_names(sorted, sorted_names);
        let less =
            |a: (RemoteDirectoryEntryView, Seq<char>), b: (RemoteDirectoryEntryView, Seq<char>)|
            listed_before(a, b);
        assert forall|i: int, j: int|
            #![trigger keys@[i], keys@[j]]
            0 <= i < keys@.len() && 0 <= j < keys@.len() implies keys@[i].less(keys@[j]) == less(
            input[i],
            input[j],
        ) by {}
        assert forall|i: int| 0 <= i < order@.len() implies output[i] == input[
            #[trigger] order@[i] as int] by {
            assert(sorted[i] == r.deep_view()[i]);
        }
        sort::lemma_order_sorts(keys@, order@, input, output, less);
    }
    r
}

/// The place that a cursor points at.
pub open spec fn cursor_offset(cursor: Option<Seq<char>>) -> Option<nat> {
    match cursor {
        Some(text) => text::number(text, usize::MAX as nat),
        None => Some(0),
    }
}

/// The page of a sorted directory that a cursor points at.
pub open spec fn listing_at(
    path: Seq<char>,
    sorted: Seq<RemoteDirectoryEntryView>,
    cursor: Option<Seq<char>>,
) -> Result<RemoteDirectoryListingView, ErrorView> {
    match cursor_offset(cursor) {
        None => Err(error::validation_error("目录加载游标无效"@)),
        Some(offset) => {
            let from = if offset > sorted.len() {
                sorted.len() as int
            } else {
                offset as int
            };
            let to = if from + PAGE_SIZE > sorted.len() {
                sorted.len() as int
            } else {
                from + PAGE_SIZE
            };
            let next_cursor = if to < sorted.len() {
                Some(text::decimal(to as nat))
            } else {
                None
            };
            Ok(
                RemoteDirectoryListingView {
                    path,
                    parent_path: paths::parent_path(path),
                    entries: sorted.subrange(from, to),
                    truncated: next_cursor is Some,
                    next_cursor,
                },
            )
        },
    }
}

/// The page of a sorted directory that a cursor points at.
pub fn listing_page(path: String, sorted: &Vec<RemoteDirectoryEntry>, cursor: &Option<String>) -> (r:
    Result<RemoteDirectoryListing, AppError>)
    ensures
        error::ends_as(r, listing_at(path@, sorted.deep_view(), cursor.deep_view())),
{
    let ghost view = sorted.deep_view();
    let offset: usize = match cursor {
        Some(text) => match parse_number(text.as_str(), usize::MAX as u64) {
            Some(offset) => offset as usize,
            None => {
                return Err(AppError::validation("目录加载游标无效"));
            },
        },
        None => 0,
    };
    let total: usize = sorted.len();
    let from: usize = if offset > total {
        total
    } else {
        offset
    };
    let to: usize = if total - from < PAGE_SIZE {
        total
    } else {
        from + PAGE_SIZE
    };
    let mut entries: Vec<RemoteDirectoryEntry> = Vec::new();
    let mut i: usize = from;
    assert(view.subrange(from as int, from as int) =~= Seq::empty());
    assert(entries.deep_view() =~= Seq::empty());
    while i < to
        invariant
            from <= i <= to,
            entries.deep_view() == view.subrange(from as int, i as int),
        decreases to - i,
    {
        let ghost done = entries.deep_view();
        let entry = sorted[i].duplicate();
        let ghost one = entry@;
        entries.push(entry);
        assert(entries.deep_view() =~= done.push(one));
        assert(view.subrange(from as int, i + 1) =~= view.subrange(from as int, i as int).push(
            one,
        ));
        i = i + 1;
    }
    let next_cursor = if to < total {
        Some(decimal_text(to as u64))
    } else {
        None
    };
    let parent = parent_remote_path(path.as_str());
    Ok(
        RemoteDirectoryListing {
            path,
            parent_path: parent,
            entries,
            truncated: next_cursor.is_some(),
            next_cursor,
        },
    )
}

/// The error for a directory with too many entries.
pub open spec fn too_many_entries_error() -> ErrorView {
    error::sftp_error(
        "SFTP-RECURSIVE-LIMIT"@,
        "远端目录条目超过安全上限"@,
        "directory contains more than 100000 entries"@,
    )
}

/// Checks the number of entries of a directory, before more is asked of them.
pub fn check_entry_count(count: usize) -> (r: Result<(), AppError>)
    ensures
        error::error_of(r) == (if count > MAX_ENTRIES {
            Some(too_many_entries_error())
        } else {
            None
        }),
{
    if count > MAX_ENTRIES {
        return Err(
            AppError::sftp(
                "SFTP-RECURSIVE-LIMIT",
                "远端目录条目超过安全上限",
                "directory contains more than 100000 entries",
            ),
        );
    }
    Ok(())
}

/// The entries of a directory as they are listed, before they are sorted.
pub open spec fn listed_entries(
    raw: Seq<RawEntryView>,
    links: Seq<Option<Seq<char>>>,
) -> Seq<RemoteDirectoryEntryView> {
    Seq::new(raw.len(), |i: int| listed_entry(raw[i], modified_text(raw[i]), links[i]))
}

/// The names of entries in lower case.
pub open spec fn lowercase_entry_names(raw: Seq<RawEntryView>) -> Seq<Seq<char>> {
    Seq::new(raw.len(), |i: int| outside::lowercase_text(raw[i].name))
}

/// The entries of a directory in the order in which they are listed.
pub open spec fn listing_order(
    raw: Seq<RawEntryView>,
    links: Seq<Option<Seq<char>>>,
) -> Seq<RemoteDirectoryEntryView> {
    choose|sorted: Seq<RemoteDirectoryEntryView>|
        entries_in_order(listed_entries(raw, links), lowercase_entry_names(raw), sorted)
}

/// The order in which entries are listed is one in which they may tie.
proof fn lemma_listing_may_tie()
    ensures
        sort::may_tie(
            |a: (RemoteDirectoryEntryView, Seq<char>), b: (RemoteDirectoryEntryView, Seq<char>)|
                listed_before(a, b),
        ),
{
    let less = |a: (RemoteDirectoryEntryView, Seq<char>), b: (RemoteDirectoryEntryView, Seq<char>)|
        listed_before(a, b);
    assert forall|
        a: (RemoteDirectoryEntryView, Seq<char>),
        b: (RemoteDirectoryEntryView, Seq<char>),
    | #[trigger] less(a, b) implies !less(b, a) by {
        if text::text_before(a.1, b.1) {
            text::text_order_asymmetric(a.1, b.1);
        }
    }
    assert forall|
        a: (RemoteDirectoryEntryView, Seq<char>),
        b: (RemoteDirectoryEntryView, Seq<char>),
        c: (RemoteDirectoryEntryView, Seq<char>),
    |
        #![trigger less(a, c), less(c, b)]
        less(a, b) implies less(a, c) || less(c, b) by {
        if text::text_before(a.1, b.1) {
            text::text_order_splits(a.1, b.1, c.1);
        }
    }
}

/// A directory has an order in which its entries are listed, and it holds them all.
proof fn lemma_listing_order(raw: Seq<RawEntryView>, links: Seq<Option<Seq<char>>>)
    ensures
        entries_in_order(
            listed_entries(raw, links),
            lowercase_entry_names(raw),
            listing_order(raw, links),
        ),
        listing_order(raw, links).len() == raw.len(),
        listing_order(raw, links).to_multiset() == listed_entries(raw, links).to_multiset(),
{
    let less = |a: (RemoteDirectoryEntryView, Seq<char>), b: (RemoteDirectoryEntryView, Seq<char>)|
        listed_before(a, b);
    let entries = listed_entries(raw, links);
    let names = lowercase_entry_names(raw);
    let input = entries_with_names(entries, names);
    lemma_listing_may_tie();
    sort::stable_order_exists(input, less);
    let output = choose|output: Seq<(RemoteDirectoryEntryView, Seq<char>)>| #[trigger]
        sort::stably_sorted(input, output, less);
    let sorted = Seq::new(output.len(), |i: int| output[i].0);
    let sorted_names = Seq::new(output.len(), |i: int| output[i].1);
    assert(entries_with_names(sorted, sorted_names) =~= output);
    assert(entries_in_order(entries, names, sorted));
    let found = listing_order(raw, links);
    let found_names = choose|m: Seq<Seq<char>>|
        m.len() == found.len() && sort::stably_sorted(
            input,
            #[trigger] entries_with_names(found, m),
            less,
        );
    let order = choose|order: Seq<int>| #[trigger]
        sort::sorts(input, entries_with_names(found, found_names), less, order);
    let pairs = entries_with_names(found, found_names);
    assert forall|i: int| 0 <= i < found.len() implies found[i] == entries[#[trigger] order[i]] by {
        assert(pairs[i] == input[order[i]]);
    }
    sort::permuting_keeps_items(entries, found, order);
}

/// Entries are listed in one order alone.
proof fn lemma_one_order(
    entries: Seq<RemoteDirectoryEntryView>,
    names: Seq<Seq<char>>,
    first: Seq<RemoteDirectoryEntryView>,
    second: Seq<RemoteDirectoryEntryView>,
)
    requires
        entries_in_order(entries, names, first),
        entries_in_order(entries, names, second),
    ensures
        first == second,
{
    let less = |a: (RemoteDirectoryEntryView, Seq<char>), b: (RemoteDirectoryEntryView, Seq<char>)|
        listed_before(a, b);
    let input = entries_with_names(entries, names);
    let m = choose|m: Seq<Seq<char>>|
        m.len() == first.len() && sort::stably_sorted(
            input,
            #[trigger] entries_with_names(first, m),
            less,
        );
    let n = choose|n: Seq<Seq<char>>|
        n.len() == second.len() && sort::stably_sorted(
            input,
            #[trigger] entries_with_names(second, n),
            less,
        );
    lemma_listing_may_tie();
    let (x, y) = (entries_with_names(first, m), entries_with_names(second, n));
    sort::stable_order_is_unique(input, x, y, less);
    assert forall|i: int| 0 <= i < first.len() implies first[i] == second[i] by {
        assert(x[i].0 == y[i].0);
    }
    assert(first =~= second);
}

/// A page of a directory, given what the server says of its entries and what those
/// that are links point at.
pub open spec fn browsed(
    path: Seq<char>,
    raw: Seq<RawEntryView>,
    links: Seq<Option<Seq<char>>>,
    cursor: Option<Seq<char>>,
) -> Result<RemoteDirectoryListingView, ErrorView> {
    if raw.len() > MAX_ENTRIES {
        Err(too_many_entries_error())
    } else {
        listing_at(path, listing_order(raw, links), cursor)
    }
}

/// A page of a directory, given what the server says of its entries and what those
/// that are links point at.
pub fn browse_remote_directory(
    path: String,
    raw: &Vec<RawEntry>,
    links: &Vec<Option<String>>,
    cursor: &Option<String>,
) -> (r: Result<RemoteDirectoryListing, AppError>)
    requires
        links@.len() == raw@.len(),
    ensures
        error::ends_as(
            r,
            browsed(path@, raw.deep_view(), links.deep_view(), cursor.deep_view()),
        ),
{
    match check_entry_count(raw.len()) {
        Ok(()) => {},
        Err(error) => {
            return Err(error);
        },
    }
    let ghost view = raw.deep_view();
    let mut entries: Vec<RemoteDirectoryEntry> = Vec::new();
    let mut names: Vec<String> = Vec::new();
    let mut i: usize = 0;
    while i < raw.len()
        invariant
            i <= raw@.len(),
            entries@.len() == i,
            names@.len() == i,
            forall|j: int|
                0 <= j < i ==> (#[trigger] entries@[j])@ == listed_entry(
                    view[j],
                    modified_text(view[j]),
                    links.deep_view()[j],
                ),
            forall|j: int| 0 <= j < i ==> (#[trigger] names@[j])@ == outside::lowercase_text(view[j].name),
        decreases raw@.len() - i,
    {
        entries.push(directory_entry(&raw[i], clone_text(&links[i])));
        names.push(lowercase(raw[i].name.as_str()));
        i = i + 1;
    }
    proof {
        assert(entries.deep_view() =~= listed_entries(view, links.deep_view()));
        assert(names.deep_view() =~= lowercase_entry_names(view));
    }
    let sorted = sort_entries(&entries, &names);
    proof {
        lemma_listing_order(view, links.deep_view());
        lemma_one_order(
            listed_entries(view, links.deep_view()),
            lowercase_entry_names(view),
            sorted.deep_view(),
            listing_order(view, links.deep_view()),
        );
    }
    listing_page(path, &sorted, cursor)
}

/// The error for a target that exists.
pub open spec fn target_exists_error(target: Seq<char>) -> ErrorView {
    error::sftp_error("SFTP-TARGET-EXISTS"@, "同名文件或目录已存在"@, target)
}

/// Checks that there is nothing yet at the path of a new entry.
pub fn check_target_free(target: &str, exists: bool) -> (r: Result<(), AppError>)
    ensures
        error::error_of(r) == (if exists {
            Some(target_exists_error(target@))
        } else {
            None
        }),
{
    if exists {
        return Err(
            AppError::sftp("SFTP-TARGET-EXISTS", "同名文件或目录已存在", target),
        );
    }
    Ok(())
}

/// The path of an entry once it is renamed.
pub open spec fn renamed_path(path: Seq<char>, name: Seq<char>) -> Result<Seq<char>, ErrorView> {
    match paths::parent_path(path) {
        None => Err(error::validation_error("不能重命名远端根目录"@)),
        Some(parent) => Ok(paths::joined_path(parent, name)),
    }
}

/// The path of an entry once it is renamed.
pub fn rename_target(path: &str, new_name: &str) -> (r: Result<String, AppError>)
    ensures
        error::ends_as(r, renamed_path(path@, new_name@)),
{
    match parent_remote_path(path) {
        None => Err(AppError::validation("不能重命名远端根目录")),
        Some(parent) => Ok(join_remote_path(parent.as_str(), new_name)),
    }
}

/// An entry of a tree, and how deep it lies.
#[derive(Debug)]
pub struct TreeEntry {
    pub path: String,
    pub kind: RemoteEntryKind,
    pub depth: usize,
}

/// What a [`TreeEntry`] says.
#[verifier::ext_equal]
pub struct TreeEntryView {
    pub path: Seq<char>,
    pub kind: RemoteEntryKind,
    pub depth: usize,
}

impl View for TreeEntry {
    type V = TreeEntryView;

    open spec fn view(&self) -> TreeEntryView {
        TreeEntryView {
            path: self.path@,
            kind: self.kind,
            depth: self.depth,
        }
    }
}

impl DeepView for TreeEntry {
    type V = TreeEntryView;

    open spec fn deep_view(&self) -> TreeEntryView {
        self@
    }
}

impl Duplicate for TreeEntry {
    fn duplicate(&self) -> (r: Self) {
        TreeEntry {
            path: self.path.clone(),
            kind: self.kind,
            depth: self.depth,
        }
    }
}

impl Clone for TreeEntry {
    fn clone(&self) -> (r: Self)
        ensures
            r@ == self@,
    {
        self.duplicate()
    }
}

/// An entry of a tree that waits to be looked at.
#[derive(Debug)]
pub struct PendingEntry {
    pub path: String,
    pub depth: usize,
}

/// What a [`PendingEntry`] says.
#[verifier::ext_equal]
pub struct PendingEntryView {
    pub path: Seq<char>,
    pub depth: usize,
}

impl View for PendingEntry {
    type V = PendingEntryView;

    open spec fn view(&self) -> PendingEntryView {
        PendingEntryView {
            path: self.path@,
            depth: self.depth,
        }
    }
}

impl DeepView for PendingEntry {
    type V = PendingEntryView;

    open spec fn deep_view(&self) -> PendingEntryView {
        self@
    }
}

impl Duplicate for PendingEntry {
    fn duplicate(&self) -> (r: Self) {
        PendingEntry {
            path: self.path.clone(),
            depth: self.depth,
        }
    }
}

impl Clone for PendingEntry {
    fn clone(&self) -> (r: Self)
        ensures
            r@ == self@,
    {
        self.duplicate()
    }
}

/// A tree that is being walked.
#[verifier::ext_equal]
pub struct TreeScanView {
    pub root: Seq<char>,
    pub include_symlinks: bool,
    pub pending: Seq<PendingEntryView>,
    pub found: Seq<TreeEntryView>,
}

/// What comes next while a tree is walked.
#[derive(Debug)]
pub enum TreeStep {
    /// The entry is looked at.
    Inspect(PendingEntry),
    /// The tree was walked.
    Finish,
    /// The walk is refused.
    Refuse(AppError),
}

/// What a [`TreeStep`] says.
#[verifier::ext_equal]
pub enum TreeStepView {
    Inspect(PendingEntryView),
    Finish,
    Refuse(ErrorView),
}

impl View for TreeStep {
    type V = TreeStepView;

    open spec fn view(&self) -> TreeStepView {
        match self {
            TreeStep::Inspect(entry) => TreeStepView::Inspect(entry@),
            TreeStep::Finish => TreeStepView::Finish,
            TreeStep::Refuse(error) => TreeStepView::Refuse(error@),
        }
    }
}

/// The error for a tree that is too large.
pub open spec fn tree_limit_error(root: Seq<char>, depth: nat, entries: nat) -> ErrorView {
    error::sftp_error(
        "SFTP-RECURSIVE-LIMIT"@,
        "递归操作超过安全上限"@,
        "root="@ + root + " depth="@ + text::decimal(depth) + " entries="@ + text::decimal(entries),
    )
}

/// The next entry of a tree that is looked at.
pub open spec fn tree_next(scan: TreeScanView) -> (TreeScanView, TreeStepView) {
    if scan.pending.len() == 0 {
        (scan, TreeStepView::Finish)
    } else {
        let entry = scan.pending.last();
        let after = TreeScanView { pending: scan.pending.drop_last(), ..scan };
        if entry.depth > MAX_DEPTH || scan.found.len() >= MAX_ENTRIES || after.pending.len()
            > MAX_PENDING {
            (
                after,
                TreeStepView::Refuse(
                    tree_limit_error(scan.root, entry.depth as nat, scan.found.len()),
                ),
            )
        } else {
            (after, TreeStepView::Inspect(entry))
        }
    }
}

/// Whether a path lies in a tree.
pub open spec fn in_tree(root: Seq<char>, path: Seq<char>) -> bool {
    path == root || (text::trim_end_of(root, '/') + "/"@).is_prefix_of(path)
}

/// The error for a path that does not lie in the tree.
pub open spec fn path_escape_error(root: Seq<char>, path: Seq<char>) -> ErrorView {
    error::sftp_error(
        "SFTP-PATH-ESCAPE"@,
        "远端路径越过所选根目录"@,
        "root="@ + root + " path="@ + path,
    )
}

/// The tree after an entry was looked at.
pub open spec fn tree_inspected(
    scan: TreeScanView,
    entry: PendingEntryView,
    kind: RemoteEntryKind,
) -> Result<TreeScanView, ErrorView> {
    if !in_tree(scan.root, entry.path) {
        Err(path_escape_error(scan.root, entry.path))
    } else {
        Ok(
            TreeScanView {
                found: scan.found.push(
                    TreeEntryView { path: entry.path, kind, depth: entry.depth },
                ),
                ..scan
            },
        )
    }
}

/// The entries of a directory that are walked, in their order.
pub open spec fn children_walked(
    children: Seq<RawEntryView>,
    include_symlinks: bool,
    depth: usize,
) -> Seq<PendingEntryView>
    decreases children.len(),
{
    if children.len() == 0 {
        Seq::empty()
    } else {
        let front = children_walked(children.drop_last(), include_symlinks, depth);
        let last = children.last();
        if outside::mode_kind(last.permissions) == RemoteEntryKind::Symlink && !include_symlinks {
            front
        } else {
            front.push(PendingEntryView { path: last.path, depth })
        }
    }
}

/// The tree after a directory in it was read.
pub open spec fn tree_listed(
    scan: TreeScanView,
    depth: usize,
    children: Seq<RawEntryView>,
) -> TreeScanView {
    TreeScanView {
        pending: scan.pending + children_walked(
            children,
            scan.include_symlinks,
            (depth + 1) as usize,
        ),
        ..scan
    }
}

/// A walk of a remote tree.
pub struct TreeScan {
    root: String,
    prefix: String,
    include_symlinks: bool,
    pending: Vec<PendingEntry>,
    found: Vec<TreeEntry>,
}

impl View for TreeScan {
    type V = TreeScanView;

    closed spec fn view(&self) -> TreeScanView {
        TreeScanView {
            root: self.root@,
            include_symlinks: self.include_symlinks,
            pending: self.pending.deep_view(),
            found: self.found.deep_view(),
        }
    }
}

impl TreeScan {
    /// The prefix belongs to the root.
    pub closed spec fn wf(self) -> bool {
        self.prefix@ == text::trim_end_of(self.root@, '/') + "/"@
    }

    /// Starts a walk.
    pub fn new(root: String, include_symlinks: bool) -> (r: Self)
        ensures
            r.wf(),
            r@ == (TreeScanView {
                root: root@,
                include_symlinks,
                pending: seq![PendingEntryView { path: root@, depth: 0 }],
                found: Seq::empty(),
            }),
    {
        let prefix = cat2(without_trailing(root.as_str(), '/').as_str(), "/");
        let mut pending: Vec<PendingEntry> = Vec::new();
        pending.push(PendingEntry { path: root.clone(), depth: 0 });
        let r = TreeScan { root, prefix, include_symlinks, pending, found: Vec::new() };
        assert(r@.pending =~= seq![PendingEntryView { path: root@, depth: 0 }]);
        assert(r@.found =~= Seq::empty());
        r
    }

    /// The next entry that is looked at.
    pub fn next(&mut self) -> (r: TreeStep)
        requires
            old(self).wf(),
        ensures
            final(self).wf(),
            (final(self)@, r@) == tree_next(old(self)@),
    {
        let ghost before = self@;
        let ghost all = self.pending@;
        match self.pending.pop() {
            None => TreeStep::Finish,
            Some(entry) => {
                proof {
                    assert(entry == all.last());
                    assert(self.pending.deep_view() =~= before.pending.drop_last()) by {
                        assert forall|j: int| 0 <= j < self.pending@.len() implies (
                        #[trigger] self.pending.deep_view()[j]) == before.pending.drop_last()[j] by {
                            assert(self.pending@[j] == all[j]);
                        }
                    }
                }
                if entry.depth > MAX_DEPTH || self.found.len() >= MAX_ENTRIES || self.pending.len()
                    > MAX_PENDING {
                    let mut details = cat4(
                        "root=",
                        self.root.as_str(),
                        " depth=",
                        decimal_text(entry.depth as u64).as_str(),
                    );
                    details.append(" entries=");
                    details.append(decimal_text(self.found.len() as u64).as_str());
                    return TreeStep::Refuse(
                        AppError::sftp(
                            "SFTP-RECURSIVE-LIMIT",
                            "递归操作超过安全上限",
                            details.as_str(),
                        ),
                    );
                }
                TreeStep::Inspect(entry)
            },
        }
    }

    /// Goes on after an entry was looked at. Where it is a directory, its entries
    /// are read next.
    pub fn inspected(&mut self, entry: &PendingEntry, kind: RemoteEntryKind) -> (r: Result<
        (),
        AppError,
    >)
        requires
            old(self).wf(),
        ensures
            final(self).wf(),
            match tree_inspected(old(self)@, entry@, kind) {
                Ok(after) => r is Ok && final(self)@ == after,
                Err(error) => error::error_of(r) == Some(error) && final(self)@ == old(self)@,
            },
    {
        let ghost before = self@;
        if !same(entry.path.as_str(), self.root.as_str()) && !starts_with(
            entry.path.as_str(),
            self.prefix.as_str(),
        ) {
            return Err(
                AppError::sftp(
                    "SFTP-PATH-ESCAPE",
                    "远端路径越过所选根目录",
                    cat4("root=", self.root.as_str(), " path=", entry.path.as_str()).as_str(),
                ),
            );
        }
        let item = TreeEntry { path: entry.path.clone(), kind, depth: entry.depth };
        let ghost one = item@;
        self.found.push(item);
        assert(self@.found =~= before.found.push(one));
        Ok(())
    }

    /// Goes on after a directory at this depth was read.
    pub fn listed(&mut self, depth: usize, children: &Vec<RawEntry>)
        requires
            old(self).wf(),
            depth <= MAX_DEPTH,
        ensures
            final(self).wf(),
            final(self)@ == tree_listed(old(self)@, depth, children.deep_view()),
    {
        let ghost before = self@;
        let ghost view = children.deep_view();
        let mut i: usize = 0;
        assert(view.take(0) =~= Seq::empty());
        assert(self@.pending =~= before.pending + Seq::empty());
        while i < children.len()
            invariant
                i <= children@.len(),
                self.wf(),
                self@ == (TreeScanView {
                    pending: before.pending + children_walked(
                        view.take(i as int),
                        before.include_symlinks,
                        (depth + 1) as usize,
                    ),
                    ..before
                }),
            decreases children@.len() - i,
        {
            let ghost now = self@.pending;
            proof {
                assert(view.take(i + 1).drop_last() =~= view.take(i as int));
                assert(view.take(i + 1).last() == children@[i as int]@);
            }
            let child = &children[i];
            if !(kind_of_mode(child.permissions) == RemoteEntryKind::Symlink
                && !self.include_symlinks) {
                let item = PendingEntry { path: child.path.clone(), depth: depth + 1 };
                let ghost one = item@;
                self.pending.push(item);
                assert(self@.pending =~= now.push(one));
                assert(self@.pending =~= before.pending + children_walked(
                    view.take(i + 1),
                    before.include_symlinks,
                    (depth + 1) as usize,
                ));
            }
            i = i + 1;
        }
        assert(view.take(i as int) =~= view);
    }

    /// What was found.
    pub fn finish(self) -> (r: Vec<TreeEntry>)
        ensures
            r.deep_view() == self@.found,
    {
        self.found
    }
}

/// What every walk keeps: all that was found lies in the tree, not too deep, and
/// is not too much.
pub open spec fn tree_bounded(scan: TreeScanView) -> bool {
    &&& scan.found.len() <= MAX_ENTRIES
    &&& forall|i: int|
        0 <= i < scan.found.len() ==> in_tree(scan.root, (#[trigger] scan.found[i]).path)
            && scan.found[i].depth <= MAX_DEPTH
}

/// A walk never leaves its tree: whatever the server answers, what was found lies
/// in the tree, not deeper than is allowed, and is not more than is allowed.
pub proof fn tree_stays_bounded(
    scan: TreeScanView,
    kind: RemoteEntryKind,
    children: Seq<RawEntryView>,
)
    requires
        tree_bounded(scan),
    ensures
        tree_bounded(tree_next(scan).0),
        tree_next(scan).1 matches TreeStepView::Inspect(entry) ==> {
            &&& entry.depth <= MAX_DEPTH
            &&& tree_inspected(tree_next(scan).0, entry, kind) matches Ok(after) ==> {
                &&& tree_bounded(after)
                &&& tree_bounded(tree_listed(after, entry.depth, children))
            }
        },
{
    if let TreeStepView::Inspect(entry) = tree_next(scan).1 {
        if let Ok(after) = tree_inspected(tree_next(scan).0, entry, kind) {
            assert forall|i: int| 0 <= i < after.found.len() implies in_tree(
                after.root,
                (#[trigger] after.found[i]).path,
            ) && after.found[i].depth <= MAX_DEPTH by {
                if i < scan.found.len() {
                    assert(after.found[i] == scan.found[i]);
                }
            }
        }
    }
}

/// The entries that an operation works on.
pub struct TreePlan {
    entries: Vec<TreeEntry>,
}

impl View for TreePlan {
    type V = Seq<TreeEntryView>;

    closed spec fn view(&self) -> Seq<TreeEntryView> {
        self.entries.deep_view()
    }
}

impl TreePlan {
    /// A plan without entries.
    pub fn new() -> (r: Self)
        ensures
            r@ == Seq::<TreeEntryView>::empty(),
    {
        let r = TreePlan { entries: Vec::new() };
        assert(r@ =~= Seq::empty());
        r
    }

    /// Takes in an entry of this kind that was chosen. Where its tree is to be
    /// walked, it says so and leaves the plan as it is.
    pub fn choose_entry(&mut self, path: &str, kind: RemoteEntryKind, recursive: bool) -> (r: bool)
        ensures
            r == (kind == RemoteEntryKind::Directory && recursive),
            final(self)@ == (if r {
                old(self)@
            } else {
                old(self)@.push(TreeEntryView { path: path@, kind, depth: 0 })
            }),
    {
        let ghost before = self@;
        if kind == RemoteEntryKind::Directory && recursive {
            return true;
        }
        let entry = TreeEntry { path: path.to_owned(), kind, depth: 0 };
        let ghost one = entry@;
        self.entries.push(entry);
        assert(self@ =~= before.push(one));
        false
    }

    /// Takes in what was found in a tree.
    pub fn add_tree(&mut self, found: Vec<TreeEntry>)
        ensures
            final(self)@ == old(self)@ + found.deep_view(),
    {
        let ghost before = self@;
        let ghost more = found.deep_view();
        let mut found = found;
        self.entries.append(&mut found);
        assert(self@ =~= before + more);
    }

    /// The entries, in the order in which they came in.
    pub fn into_entries(self) -> (r: Vec<TreeEntry>)
        ensures
            r.deep_view() == self@,
    {
        self.entries
    }
}

/// What removes an entry.
#[derive(Clone, Copy, Debug, PartialEq, Eq, Structural)]
pub enum Removal {
    Directory,
    File,
}

/// What removes an entry of this kind.
pub open spec fn removal_of(entry: TreeEntryView) -> Result<Removal, ErrorView> {
    match entry.kind {
        RemoteEntryKind::Directory => Ok(Removal::Directory),
        RemoteEntryKind::File => Ok(Removal::File),
        RemoteEntryKind::Symlink => Ok(Removal::File),
        RemoteEntryKind::Other => Err(
            error::sftp_error(
                "SFTP-UNSUPPORTED-ENTRY"@,
                "不支持删除此类型的远端对象"@,
                entry.path,
            ),
        ),
    }
}

/// What removes an entry.
pub fn removal(entry: &TreeEntry) -> (r: Result<Removal, AppError>)
    ensures
        match (r, removal_of(entry@)) {
            (Ok(removal), Ok(wanted)) => removal == wanted,
            (Err(error), Err(wanted)) => error@ == wanted,
            _ => false,
        },
{
    match entry.kind {
        RemoteEntryKind::Directory => Ok(Removal::Directory),
        RemoteEntryKind::File => Ok(Removal::File),
        RemoteEntryKind::Symlink => Ok(Removal::File),
        RemoteEntryKind::Other => Err(
            AppError::sftp(
                "SFTP-UNSUPPORTED-ENTRY",
                "不支持删除此类型的远端对象",
                entry.path.as_str(),
            ),
        ),
    }
}

/// How deep an entry lies; the deepest comes first.
struct DepthKey {
    depth: usize,
}

impl SortKey for DepthKey {
    closed spec fn less(self, other: Self) -> bool {
        self.depth > other.depth
    }

    proof fn less_asymmetric(a: Self, b: Self) {
    }

    proof fn less_splits(a: Self, b: Self, c: Self) {
    }

    fn is_less(&self, other: &Self) -> (r: bool) {
        self.depth > other.depth
    }
}

/// The order in which entries are deleted: the deepest first, so that a directory
/// is empty when it is deleted.
pub open spec fn deeper(a: TreeEntryView, b: TreeEntryView) -> bool {
    a.depth > b.depth
}

/// The entries in the order in which they are deleted.
pub fn delete_remote_entries(plan: &Vec<TreeEntry>) -> (r: Vec<TreeEntry>)
    ensures
        sort::stably_sorted(
            plan.deep_view(),
            r.deep_view(),
            |a: TreeEntryView, b: TreeEntryView| deeper(a, b),
        ),
{
    let ghost view = plan.deep_view();
    let mut keys: Vec<DepthKey> = Vec::new();
    let mut i: usize = 0;
    while i < plan.len()
        invariant
            i <= plan@.len(),
            keys@.len() == i,
            forall|j: int| 0 <= j < i ==> (#[trigger] keys@[j]).depth == view[j].depth,
        decreases plan@.len() - i,
    {
        keys.push(DepthKey { depth: plan[i].depth });
        i = i + 1;
    }
    let order = order_of(&keys);
    let r = items_at(plan, &order);
    proof {
        let sorted = r.deep_view();
        let less = |a: TreeEntryView, b: TreeEntryView| deeper(a, b);
        assert forall|i: int, j: int|
            #![trigger keys@[i], keys@[j]]
            0 <= i < keys@.len() && 0 <= j < keys@.len() implies keys@[i].less(keys@[j]) == less(
            view[i],
            view[j],
        ) by {}
        assert forall|i: int| 0 <= i < order@.len() implies sorted[i] == view[
            #[trigger] order@[i] as int] by {
            assert(sorted[i] == r.deep_view()[i]);
        }
        sort::lemma_order_sorts(keys@, order@, view, sorted, less);
    }
    r
}

/// Whether the permissions of an entry are changed: those of files and directories
/// are, those of links and of entries of an unknown kind are not.
pub open spec fn takes_permissions(kind: RemoteEntryKind) -> bool {
    kind == RemoteEntryKind::File || kind == RemoteEntryKind::Directory
}

/// The paths whose permissions are changed.
pub open spec fn permission_targets(found: Seq<TreeEntryView>) -> Seq<Seq<char>>
    decreases found.len(),
{
    if found.len() == 0 {
        Seq::empty()
    } else {
        let front = permission_targets(found.drop_last());
        if takes_permissions(found.last().kind) {
            front.push(found.last().path)
        } else {
            front
        }
    }
}

/// The paths whose permissions are changed.
pub fn change_remote_permissions(found: &Vec<TreeEntry>) -> (r: Vec<String>)
    ensures
        r.deep_view() == permission_targets(found.deep_view()),
{
    let ghost view = found.deep_view();
    let mut r: Vec<String> = Vec::new();
    let mut i: usize = 0;
    assert(view.take(0) =~= Seq::empty());
    assert(r.deep_view() =~= Seq::empty());
    while i < found.len()
        invariant
            i <= found@.len(),
            r.deep_view() == permission_targets(view.take(i as int)),
        decreases found@.len() - i,
    {
        let ghost done = r.deep_view();
        proof {
            assert(view.take(i + 1).drop_last() =~= view.take(i as int));
            assert(view.take(i + 1).last() == found@[i as int]@);
        }
        if found[i].kind == RemoteEntryKind::File || found[i].kind == RemoteEntryKind::Directory {
            r.push(found[i].path.clone());
            assert(r.deep_view() =~= done.push(view[i as int].path));
        }
        i = i + 1;
    }
    assert(view.take(i as int) =~= view);
    r
}

/// The error for permissions that could not be changed.
pub fn permission_change_failed(path: &str, reason: &str) -> (r: AppError)
    ensures
        r@ == error::sftp_error(
            "SFTP-PERMISSION-CHANGE-FAILED"@,
            "无法修改远端权限"@,
            "path="@ + path@ + ": "@ + reason@,
        ),
{
    AppError::sftp(
        "SFTP-PERMISSION-CHANGE-FAILED",
        "无法修改远端权限",
        cat4("path=", path, ": ", reason).as_str(),
    )
}

/// The error for a file channel that could not be opened.
pub fn sftp_channel_failed(reason: &str) -> (r: AppError)
    ensures
        r@ == error::sftp_error("SFTP-CHANNEL-FAILED"@, "无法打开 SFTP 文件通道"@, reason@),
{
    AppError::sftp("SFTP-CHANNEL-FAILED", "无法打开 SFTP 文件通道", reason)
}

/// The error for a file operation that the server refused.
pub fn sftp_failed(reason: &str) -> (r: AppError)
    ensures
        r@ == error::sftp_error("SFTP-BROWSE-FAILED"@, "无法读取远端目录"@, reason@),
{
    AppError::sftp("SFTP-BROWSE-FAILED", "无法读取远端目录", reason)
}

/// The error for a file operation while too many wait.
pub fn sftp_busy() -> (r: AppError)
    ensures
        r@ == error::sftp_error(
            "SFTP-BUSY"@,
            "文件操作请求过多，请稍后重试"@,
            "SFTP request queue is full or closed"@,
        ),
{
    AppError::sftp(
        "SFTP-BUSY",
        "文件操作请求过多，请稍后重试",
        "SFTP request queue is full or closed",
    )
}

/// Permissions are changed of files and directories alone: every path whose
/// permissions are changed is that of a file or a directory that was found, and
/// where no two entries have one path, none is that of a link or of an entry of an
/// unknown kind.
pub proof fn unknown_entries_keep_permissions(found: Seq<TreeEntryView>)
    ensures
        forall|path: Seq<char>| #[trigger]
            permission_targets(found).contains(path) <==> exists|i: int|
                0 <= i < found.len() && takes_permissions((#[trigger] found[i]).kind)
                    && found[i].path == path,
        (forall|i: int, j: int|
            0 <= i < j < found.len() ==> (#[trigger] found[i]).path != (#[trigger] found[j]).path)
            ==> forall|i: int|
            0 <= i < found.len() && ((#[trigger] found[i]).kind == RemoteEntryKind::Symlink
                || found[i].kind == RemoteEntryKind::Other) ==> !permission_targets(found).contains(
                found[i].path,
            ),
    decreases found.len(),
{
    if found.len() > 0 {
        let front = found.drop_last();
        unknown_entries_keep_permissions(front);
        let before = permission_targets(front);
        let last = found.last();
        assert forall|path: Seq<char>| #[trigger]
            permission_targets(found).contains(path) <==> exists|i: int|
                0 <= i < found.len() && takes_permissions((#[trigger] found[i]).kind)
                    && found[i].path == path by {
            if permission_targets(found).contains(path) {
                if before.contains(path) {
                    let i = choose|i: int|
                        0 <= i < front.len() && takes_permissions((#[trigger] front[i]).kind)
                            && front[i].path == path;
                    assert(found[i] == front[i]);
                } else {
                    assert(path == last.path && takes_permissions(last.kind));
                    assert(found[found.len() - 1] == last);
                }
            }
            if exists|i: int|
                0 <= i < found.len() && takes_permissions((#[trigger] found[i]).kind)
                    && found[i].path == path {
                let i = choose|i: int|
                    0 <= i < found.len() && takes_permissions((#[trigger] found[i]).kind)
                        && found[i].path == path;
                if i < front.len() {
                    assert(front[i] == found[i]);
                    assert(before.contains(path));
                    let w = choose|w: int| 0 <= w < before.len() && before[w] == path;
                    assert(permission_targets(found)[w] == path);
                } else {
                    assert(permission_targets(found)[before.len() as int] == path);
                }
            }
        }
    }
}

/// The cursor of a page points at the place behind the page, so the next page goes
/// on there, and the last page ends the directory.
proof fn lemma_next_page(
    path: Seq<char>,
    sorted: Seq<RemoteDirectoryEntryView>,
    cursor: Option<Seq<char>>,
)
    requires
        sorted.len() <= MAX_ENTRIES,
        cursor_offset(cursor) matches Some(offset) && offset <= sorted.len(),
    ensures
        listing_at(path, sorted, cursor) matches Ok(page) && {
            let offset = cursor_offset(cursor)->0;
            &&& page.entries == sorted.subrange(offset as int, offset as int + page.entries.len())
            &&& page.next_cursor matches Some(next) ==> cursor_offset(Some(next)) == Some(
                (offset + page.entries.len()) as nat,
            ) && page.entries.len() == PAGE_SIZE
            &&& page.next_cursor is None ==> offset + page.entries.len() == sorted.len()
            &&& page.entries.len() <= PAGE_SIZE
        },
{
    let offset = cursor_offset(cursor)->0;
    let page = listing_at(path, sorted, cursor)->Ok_0;
    if page.next_cursor is Some {
        text::decimal_reads_back((offset + PAGE_SIZE) as nat, usize::MAX as nat);
    }
}

/// The cursor with which a page is fetched: none for the first, then that of the
/// page before.
pub open spec fn cursor_of(pages: Seq<RemoteDirectoryListingView>, i: int) -> Option<Seq<char>> {
    if i == 0 {
        None
    } else {
        pages[i - 1].next_cursor
    }
}

/// Whether `pages` are fetched one after the other, from the first to the one that
/// has no cursor, while the directory stays as it is.
pub open spec fn fetched(
    path: Seq<char>,
    raw: Seq<RawEntryView>,
    links: Seq<Option<Seq<char>>>,
    pages: Seq<RemoteDirectoryListingView>,
) -> bool {
    &&& pages.len() > 0
    &&& forall|i: int|
        0 <= i < pages.len() ==> browsed(path, raw, links, #[trigger] cursor_of(pages, i)) == Ok::<
            RemoteDirectoryListingView,
            ErrorView,
        >(pages[i])
    &&& forall|i: int| 0 <= i < pages.len() - 1 ==> (#[trigger] pages[i]).next_cursor is Some
    &&& pages.last().next_cursor is None
}

/// The entries of pages, one page after the other.
pub open spec fn shown(pages: Seq<RemoteDirectoryListingView>) -> Seq<RemoteDirectoryEntryView>
    decreases pages.len(),
{
    if pages.len() == 0 {
        Seq::empty()
    } else {
        shown(pages.drop_last()) + pages.last().entries
    }
}

/// The first pages show the first entries.
proof fn lemma_shown(
    path: Seq<char>,
    raw: Seq<RawEntryView>,
    links: Seq<Option<Seq<char>>>,
    pages: Seq<RemoteDirectoryListingView>,
    n: int,
)
    requires
        fetched(path, raw, links, pages),
        raw.len() <= MAX_ENTRIES,
        listing_order(raw, links).len() == raw.len(),
        0 < n <= pages.len(),
    ensures
        shown(pages.take(n)) == listing_order(raw, links).take(shown(pages.take(n)).len() as int),
        shown(pages.take(n)).len() <= raw.len(),
        n < pages.len() ==> cursor_offset(pages[n - 1].next_cursor) == Some(
            shown(pages.take(n)).len(),
        ),
        n == pages.len() ==> shown(pages.take(n)).len() == raw.len(),
        pages[n - 1].entries.len() <= PAGE_SIZE,
    decreases n,
{
    let sorted = listing_order(raw, links);
    let cursor = cursor_of(pages, n - 1);
    let page = pages[n - 1];
    assert(pages.take(n).drop_last() =~= pages.take(n - 1));
    if n > 1 {
        lemma_shown(path, raw, links, pages, n - 1);
        assert(pages[n - 2].next_cursor is Some);
    } else {
        assert(pages.take(0) =~= Seq::empty());
    }
    let before = shown(pages.take(n - 1));
    assert(browsed(path, raw, links, cursor) == Ok::<RemoteDirectoryListingView, ErrorView>(page));
    lemma_next_page(path, sorted, cursor);
    if n < pages.len() {
        assert(pages[n - 1].next_cursor is Some);
    }
    assert(before =~= sorted.take(before.len() as int));
    assert(shown(pages.take(n)) =~= sorted.take((before.len() + page.entries.len()) as int));
}

/// Paging shows every entry once: where the directory stays as it is, the pages put
/// together are its entries, each as often as it is there, directories first, then
/// by the names in lower case, those that tie as the server has them. A page has at
/// most a thousand entries, and says that it is not the last where it is not.
pub proof fn pages_show_every_entry_once(
    path: Seq<char>,
    raw: Seq<RawEntryView>,
    links: Seq<Option<Seq<char>>>,
    pages: Seq<RemoteDirectoryListingView>,
)
    requires
        links.len() == raw.len(),
        raw.len() <= MAX_ENTRIES,
        fetched(path, raw, links, pages),
    ensures
        shown(pages) == listing_order(raw, links),
        shown(pages).len() == raw.len(),
        entries_in_order(listed_entries(raw, links), lowercase_entry_names(raw), shown(pages)),
        shown(pages).to_multiset() == listed_entries(raw, links).to_multiset(),
        forall|i: int|
            0 <= i < pages.len() ==> (#[trigger] pages[i]).entries.len() <= PAGE_SIZE
                && pages[i].truncated == (i < pages.len() - 1) && pages[i].truncated
                == pages[i].next_cursor is Some && pages[i].path == path && pages[i].parent_path
                == paths::parent_path(path),
{
    lemma_listing_order(raw, links);
    let sorted = listing_order(raw, links);
    let n = pages.len() as int;
    lemma_shown(path, raw, links, pages, n);
    assert(pages.take(n) =~= pages);
    assert(shown(pages) =~= sorted);
    assert forall|i: int| 0 <= i < pages.len() implies (#[trigger] pages[i]).entries.len()
        <= PAGE_SIZE && pages[i].truncated == (i < pages.len() - 1) && pages[i].truncated
        == pages[i].next_cursor is Some && pages[i].path == path && pages[i].parent_path
        == paths::parent_path(path) by {
        lemma_shown(path, raw, links, pages, i + 1);
        assert(browsed(path, raw, links, cursor_of(pages, i)) == Ok::<
            RemoteDirectoryListingView,
            ErrorView,
        >(pages[i]));
        if i < pages.len() - 1 {
            assert(pages[i].next_cursor is Some);
        }
    }
}

/// Of two entries that are deleted, the one that lies deeper comes first.
pub proof fn deeper_entries_go_first(plan: Seq<TreeEntryView>, sorted: Seq<TreeEntryView>, i: int, j: int)
    requires
        sort::stably_sorted(plan, sorted, |a: TreeEntryView, b: TreeEntryView| deeper(a, b)),
        0 <= i < j < sorted.len(),
    ensures
        sorted[i].depth >= sorted[j].depth,
{
    let less = |a: TreeEntryView, b: TreeEntryView| deeper(a, b);
    let order = choose|order: Seq<int>| #[trigger] sort::sorts(plan, sorted, less, order);
    assert(less(sorted[i], sorted[j]) || (!less(sorted[j], sorted[i]) && order[i] < order[j]));
}

/// A listed entry says what the server said: its name, path, size, owner, group and
/// time, its permissions without the kind, and, for a link alone, what it points at.
/// Its size is zero only where the server said so or said nothing.
pub open spec fn tells_of(
    entry: RemoteDirectoryEntryView,
    raw: RawEntryView,
    link: Option<Seq<char>>,
) -> bool {
    &&& entry.name == raw.name
    &&& entry.path == raw.path
    &&& entry.uid == raw.uid
    &&& entry.gid == raw.gid
    &&& match raw.size {
        Some(size) => entry.size == size,
        None => entry.size == 0,
    }
    &&& match raw.permissions {
        Some(mode) => entry.permission_mode == Some((mode % 4096) as u32),
        None => entry.permission_mode is None,
    }
    &&& match raw.mtime {
        Some(seconds) => entry.modified_at == Some(outside::time_text_of(seconds)),
        None => entry.modified_at is None,
    }
    &&& entry.permissions.len() == 10
    &&& entry.permissions[0] == 'd' <==> entry.kind == RemoteEntryKind::Directory
    &&& entry.permissions[0] == '-' <==> entry.kind == RemoteEntryKind::File
    &&& entry.permissions[0] == 'l' <==> entry.kind == RemoteEntryKind::Symlink
    &&& entry.permissions.skip(1) == outside::mode_letters(raw.permissions)
    &&& entry.kind == outside::mode_kind(raw.permissions)
    &&& entry.symlink_target == if entry.kind == RemoteEntryKind::Symlink {
        link
    } else {
        None
    }
}

/// An entry is listed with what the server said of it.
proof fn lemma_tells_of(raw: RawEntryView, link: Option<Seq<char>>)
    ensures
        tells_of(listed_entry(raw, modified_text(raw), link), raw, link),
{
    reveal_strlit("d");
    reveal_strlit("-");
    reveal_strlit("l");
    reveal_strlit("?");
    let entry = listed_entry(raw, modified_text(raw), link);
    if let Some(mode) = raw.permissions {
        assert(mode & 4095 == mode % 4096) by (bit_vector);
    }
    assert(entry.permissions.skip(1) =~= outside::mode_letters(raw.permissions));
}

/// Every entry of a page is one that the server told of, with what it said of it.
pub proof fn listed_entries_agree_with_the_server(
    path: Seq<char>,
    raw: Seq<RawEntryView>,
    links: Seq<Option<Seq<char>>>,
    cursor: Option<Seq<char>>,
    i: int,
)
    requires
        links.len() == raw.len(),
        browsed(path, raw, links, cursor) matches Ok(page) && 0 <= i < page.entries.len(),
    ensures
        exists|j: int|
            0 <= j < raw.len() && tells_of(
                browsed(path, raw, links, cursor)->Ok_0.entries[i],
                #[trigger] raw[j],
                links[j],
            ),
{
    let page = browsed(path, raw, links, cursor)->Ok_0;
    let entry = page.entries[i];
    let sorted = listing_order(raw, links);
    let entries = listed_entries(raw, links);
    lemma_listing_order(raw, links);
    let from = cursor_offset(cursor)->0;
    assert(entry == sorted[from + i]);
    assert(sorted.contains(entry));
    assert(sorted.to_multiset().count(entry) > 0) by {
        broadcast use vstd::seq_lib::group_to_multiset_ensures;

    }
    assert(entries.contains(entry)) by {
        broadcast use vstd::seq_lib::group_to_multiset_ensures;

        assert(entries.to_multiset().count(entry) > 0);
    }
    let j = choose|j: int| 0 <= j < entries.len() && entries[j] == entry;
    lemma_tells_of(raw[j], links[j]);
    assert(tells_of(entry, raw[j], links[j]));
}

/// Every entry that the server told of stands on one of the pages, with what it said of
/// it.
pub proof fn no_entry_is_left_out(
    path: Seq<char>,
    raw: Seq<RawEntryView>,
    links: Seq<Option<Seq<char>>>,
    pages: Seq<RemoteDirectoryListingView>,
    j: int,
)
    requires
        links.len() == raw.len(),
        raw.len() <= MAX_ENTRIES,
        fetched(path, raw, links, pages),
        0 <= j < raw.len(),
    ensures
        exists|i: int|
            0 <= i < shown(pages).len() && tells_of(#[trigger] shown(pages)[i], raw[j], links[j]),
{
    pages_show_every_entry_once(path, raw, links, pages);
    let entries = listed_entries(raw, links);
    let all = shown(pages);
    assert(entries.contains(entries[j]));
    assert(all.contains(entries[j])) by {
        broadcast use vstd::seq_lib::group_to_multiset_ensures;

        assert(entries.to_multiset().count(entries[j]) > 0);
        assert(all.to_multiset().count(entries[j]) > 0);
    }
    let i = choose|i: int| 0 <= i < all.len() && all[i] == entries[j];
    lemma_tells_of(raw[j], links[j]);
    assert(tells_of(all[i], raw[j], links[j]));
}

/// Directories are listed before everything else, and entries of one sort by their
/// names in lower case.
pub proof fn directories_are_listed_first(
    raw: Seq<RawEntryView>,
    links: Seq<Option<Seq<char>>>,
    i: int,
    j: int,
)
    requires
        links.len() == raw.len(),
        0 <= i < j < listing_order(raw, links).len(),
    ensures
        ({
            let first = listing_order(raw, links)[i];
            let second = listing_order(raw, links)[j];
            &&& second.kind == RemoteEntryKind::Directory ==> first.kind
                == RemoteEntryKind::Directory
            &&& (first.kind == RemoteEntryKind::Directory) == (second.kind
                == RemoteEntryKind::Directory) ==> !text::text_before(
                outside::lowercase_text(second.name),
                outside::lowercase_text(first.name),
            )
        }),
{
    lemma_listing_order(raw, links);
    let less = |a: (RemoteDirectoryEntryView, Seq<char>), b: (RemoteDirectoryEntryView, Seq<char>)|
        listed_before(a, b);
    let sorted = listing_order(raw, links);
    let input = entries_with_names(listed_entries(raw, links), lowercase_entry_names(raw));
    let names = choose|m: Seq<Seq<char>>|
        m.len() == sorted.len() && sort::stably_sorted(
            input,
            #[trigger] entries_with_names(sorted, m),
            less,
        );
    let output = entries_with_names(sorted, names);
    let order = choose|order: Seq<int>| #[trigger] sort::sorts(input, output, less, order);
    assert(output[i] == input[order[i]]);
    assert(output[j] == input[order[j]]);
    assert(names[i] == outside::lowercase_text(sorted[i].name));
    assert(names[j] == outside::lowercase_text(sorted[j].name));
    assert(less(output[i], output[j]) || (!less(output[j], output[i]) && order[i] < order[j]));
    if less(output[i], output[j]) && text::text_before(names[i], names[j]) {
        text::text_order_asymmetric(names[i], names[j]);
    }
}

/// A directory is removed as one, a file and a link as a file, whatever the link points at,
/// and anything else is refused.
pub proof fn entries_are_removed_by_their_kind(entry: TreeEntryView)
    ensures
        removal_of(entry) == Ok::<Removal, ErrorView>(Removal::Directory) <==> entry.kind
            == RemoteEntryKind::Directory,
        removal_of(entry) == Ok::<Removal, ErrorView>(Removal::File) <==> entry.kind
            == RemoteEntryKind::File || entry.kind == RemoteEntryKind::Symlink,
        match removal_of(entry) {
            Ok(_) => entry.kind != RemoteEntryKind::Other,
            Err(error) => entry.kind == RemoteEntryKind::Other && error.code
                == "SFTP-UNSUPPORTED-ENTRY"@ && error.technical_details == Some(entry.path),
        },
{
}

/// Permissions are changed for the files and directories that were found, and for nothing
/// else.
pub proof fn permissions_are_changed_for_files_and_directories(
    found: Seq<TreeEntryView>,
    path: Seq<char>,
)
    ensures
        permission_targets(found).contains(path) <==> exists|i: int|
            0 <= i < found.len() && (#[trigger] found[i]).path == path && (found[i].kind
                == RemoteEntryKind::File || found[i].kind == RemoteEntryKind::Directory),
    decreases found.len(),
{
    let paths = permission_targets(found);
    if found.len() > 0 {
        let front = found.drop_last();
        let before = permission_targets(front);
        permissions_are_changed_for_files_and_directories(front, path);
        assert(found[found.len() - 1] == found.last());
        if before.contains(path) {
            let k = choose|k: int| 0 <= k < before.len() && before[k] == path;
            assert(paths[k] == path);
            let i = choose|i: int|
                0 <= i < front.len() && (#[trigger] front[i]).path == path && (front[i].kind
                    == RemoteEntryKind::File || front[i].kind == RemoteEntryKind::Directory);
            assert(found[i] == front[i]);
        }
        if paths.contains(path) {
            let k = choose|k: int| 0 <= k < paths.len() && paths[k] == path;
            if k < before.len() {
                assert(before[k] == path);
            }
        }
        if exists|i: int|
            0 <= i < found.len() && (#[trigger] found[i]).path == path && (found[i].kind
                == RemoteEntryKind::File || found[i].kind == RemoteEntryKind::Directory) {
            let i = choose|i: int|
                0 <= i < found.len() && (#[trigger] found[i]).path == path && (found[i].kind
                    == RemoteEntryKind::File || found[i].kind == RemoteEntryKind::Directory);
            if i < front.len() {
                assert(front[i] == found[i]);
            } else {
                assert(paths[paths.len() - 1] == path);
            }
        }
    }
}

/// An entry that is renamed stays in its directory and has the new name; only a path
/// without a directory cannot be renamed.
pub proof fn renamed_entries_stay_in_their_directory(path: Seq<char>, name: Seq<char>)
    requires
        name.len() > 0,
        !name.contains('/'),
    ensures
        match (paths::parent_path(path), renamed_path(path, name)) {
            (Some(parent), Ok(renamed)) => {
                &&& paths::source_name(renamed, TransferDirection::Download) == Some(name)
                &&& "/"@.is_prefix_of(parent) ==> paths::parent_path(renamed) == Some(
                    if text::trim_end_of(parent, '/').len() == 0 {
                        "/"@
                    } else {
                        text::trim_end_of(parent, '/')
                    },
                )
            },
            (None, Err(error)) => error.code == "CONNECTION-INVALID"@,
            _ => false,
        },
{
    if let Some(parent) = paths::parent_path(path) {
        paths::name_of_joined(parent, name);
        if "/"@.is_prefix_of(parent) {
            paths::parent_of_joined(parent, name);
        }
    }
}

/// A walk is over if and only if nothing is left to look at. Otherwise the entry that was
/// put off last is taken: it is refused where it lies deeper than 64 directories, where a
/// hundred thousand were found or more than ten thousand are put off, and looked at in every
/// other case.
pub proof fn walks_look_at_everything(scan: TreeScanView)
    ensures
        ({
            let (after, step) = tree_next(scan);
            &&& after.root == scan.root
            &&& after.found == scan.found
            &&& after.include_symlinks == scan.include_symlinks
            &&& step is Finish <==> scan.pending.len() == 0
            &&& scan.pending.len() > 0 ==> {
                let entry = scan.pending.last();
                &&& after.pending == scan.pending.drop_last()
                &&& step is Refuse <==> entry.depth > 64 || scan.found.len() >= 100_000
                    || scan.pending.len() > 10_001
                &&& step matches TreeStepView::Inspect(found) ==> found == entry
                &&& step matches TreeStepView::Refuse(error) ==> error.code
                    == "SFTP-RECURSIVE-LIMIT"@
            }
        }),
        MAX_ENTRIES == 100_000,
        PAGE_SIZE == 1000,
{
}

/// An entry is found if and only if it lies in the tree that was chosen: it is the root or
/// lies below it. One that does not is refused.
pub proof fn walks_stay_in_their_tree(
    scan: TreeScanView,
    entry: PendingEntryView,
    kind: RemoteEntryKind,
)
    ensures
        match tree_inspected(scan, entry, kind) {
            Ok(after) => {
                &&& entry.path == scan.root || (text::trim_end_of(scan.root, '/')
                    + "/"@).is_prefix_of(entry.path)
                &&& after.found.len() == scan.found.len() + 1
                &&& after.found.drop_last() == scan.found
                &&& after.found.last().path == entry.path
                &&& after.found.last().kind == kind
                &&& after.found.last().depth == entry.depth
                &&& after.pending == scan.pending
                &&& after.root == scan.root
            },
            Err(error) => {
                &&& error.code == "SFTP-PATH-ESCAPE"@
                &&& entry.path != scan.root
                &&& !(text::trim_end_of(scan.root, '/') + "/"@).is_prefix_of(entry.path)
            },
        },
{
    if let Ok(after) = tree_inspected(scan, entry, kind) {
        assert(after.found.drop_last() =~= scan.found);
    }
}

/// Every entry of a directory is put off for later, one deeper than the directory, but for
/// links where they are left out.
pub proof fn entries_of_a_directory_are_walked(
    children: Seq<RawEntryView>,
    include_symlinks: bool,
    depth: usize,
    path: Seq<char>,
)
    ensures
        children_walked(children, include_symlinks, depth).contains(PendingEntryView { path, depth })
            <==> exists|i: int|
            0 <= i < children.len() && (#[trigger] children[i]).path == path && (include_symlinks
                || outside::mode_kind(children[i].permissions) != RemoteEntryKind::Symlink),
        forall|i: int|
            0 <= i < children_walked(children, include_symlinks, depth).len() ==> (
            #[trigger] children_walked(children, include_symlinks, depth)[i]).depth == depth,
    decreases children.len(),
{
    let all = children_walked(children, include_symlinks, depth);
    let wanted = PendingEntryView { path, depth };
    if children.len() > 0 {
        let front = children.drop_last();
        let before = children_walked(front, include_symlinks, depth);
        entries_of_a_directory_are_walked(front, include_symlinks, depth, path);
        assert(children[children.len() - 1] == children.last());
        if before.contains(wanted) {
            let k = choose|k: int| 0 <= k < before.len() && before[k] == wanted;
            assert(all[k] == wanted);
            let i = choose|i: int|
                0 <= i < front.len() && (#[trigger] front[i]).path == path && (include_symlinks
                    || outside::mode_kind(front[i].permissions) != RemoteEntryKind::Symlink);
            assert(children[i] == front[i]);
        }
        if all.contains(wanted) {
            let k = choose|k: int| 0 <= k < all.len() && all[k] == wanted;
            if k < before.len() {
                assert(before[k] == wanted);
            }
        }
        if exists|i: int|
            0 <= i < children.len() && (#[trigger] children[i]).path == path && (include_symlinks
                || outside::mode_kind(children[i].permissions) != RemoteEntryKind::Symlink) {
            let i = choose|i: int|
                0 <= i < children.len() && (#[trigger] children[i]).path == path && (
                include_symlinks || outside::mode_kind(children[i].permissions)
                    != RemoteEntryKind::Symlink);
            if i < front.len() {
                assert(front[i] == children[i]);
            } else {
                assert(all[all.len() - 1] == wanted);
            }
        }
        assert forall|i: int| 0 <= i < all.len() implies (#[trigger] all[i]).depth == depth by {
            if i < before.len() {
                assert(all[i] == before[i]);
            }
        }
    }
}

/// A page begins where its cursor says, or at the start without one; a cursor that is no
/// number is refused, and so is a directory with more than a hundred thousand entries.
pub proof fn cursors_are_followed(
    path: Seq<char>,
    raw: Seq<RawEntryView>,
    links: Seq<Option<Seq<char>>>,
    cursor: Option<Seq<char>>,
)
    ensures
        match browsed(path, raw, links, cursor) {
            Ok(page) => {
                let from = match cursor {
                    Some(text) => text::number(text, usize::MAX as nat),
                    None => Some(0nat),
                };
                &&& raw.len() <= 100_000
                &&& from is Some
                &&& page.path == path
                &&& page.entries.len() <= 1000
                &&& forall|i: int|
                    0 <= i < page.entries.len() ==> #[trigger] page.entries[i] == listing_order(
                        raw,
                        links,
                    )[from->0 + i]
            },
            Err(error) => {
                ||| raw.len() > 100_000 && error.code == "SFTP-RECURSIVE-LIMIT"@
                ||| raw.len() <= 100_000 && (cursor matches Some(text) && text::number(
                    text,
                    usize::MAX as nat,
                ) is None)
            },
        },
{
    lemma_listing_order(raw, links);
}

} // verus!

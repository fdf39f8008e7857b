//! Remote and local paths. In a remote path `/` stands between the names. In a
//! local path `/` and `\` both do, and a letter with a colon may stand in front.

#![verifier::loop_isolation(false)]

use crate::models::TransferDirection;
use crate::text::{
    self, cat2, cat3, cat4, cat5, chars_of, decimal_text, find_last, same, text_between, text_of,
    without_trailing,
};
use vstd::prelude::*;

verus! {

/// A name in a remote directory.
pub open spec fn joined_path(parent: Seq<char>, name: Seq<char>) -> Seq<char> {
    if parent == "/"@ {
        "/"@ + name
    } else {
        text::trim_end_of(parent, '/') + "/"@ + name
    }
}

/// A name in a remote directory.
pub fn join_remote_path(parent: &str, name: &str) -> (r: String)
    ensures
        r@ == joined_path(parent@, name@),
{
    if same(parent, "/") {
        cat2("/", name)
    } else {
        cat3(without_trailing(parent, '/').as_str(), "/", name)
    }
}

/// The directory that a remote path lies in.
pub open spec fn parent_path(path: Seq<char>) -> Option<Seq<char>> {
    let text = text::trim_end_of(path, '/');
    match text::last_position(text, '/') {
        None => None,
        Some(at) => Some(
            if at == 0 {
                "/"@
            } else {
                text.take(at)
            },
        ),
    }
}

/// The directory that a remote path lies in. The root lies in none, and neither
/// does a name without a slash.
pub fn parent_remote_path(path: &str) -> (r: Option<String>)
    ensures
        r.deep_view() == parent_path(path@),
{
    let text = without_trailing(path, '/');
    let chars = chars_of(text.as_str());
    match find_last(&chars, '/') {
        None => None,
        Some(at) => if at == 0 {
            Some("/".to_owned())
        } else {
            assert(chars@.subrange(0, at as int) =~= text@.take(at as int));
            Some(text_between(&chars, 0, at))
        },
    }
}

/// Whether a text does not end with a character.
proof fn lemma_no_trailing(s: Seq<char>, c: char)
    ensures
        text::trim_end_of(s, c).len() <= s.len(),
        text::trim_end_of(s, c).len() > 0 ==> text::trim_end_of(s, c).last() != c,
        s.len() > 0 && s.last() != c ==> text::trim_end_of(s, c) == s,
    decreases s.len(),
{
    if s.len() > 0 && s.last() == c {
        lemma_no_trailing(s.drop_last(), c);
    }
}

/// The last `c` of a text that ends with one and a text without one.
proof fn lemma_last_position(front: Seq<char>, c: char, back: Seq<char>)
    requires
        !back.contains(c),
    ensures
        text::last_position(front.push(c) + back, c) == Some(front.len() as int),
    decreases back.len(),
{
    let whole = front.push(c) + back;
    if back.len() == 0 {
        assert(whole =~= front.push(c));
    } else {
        assert(whole.last() == back.last());
        assert(back.last() != c) by {
            assert(back[back.len() - 1] == back.last());
        }
        assert(whole.drop_last() =~= front.push(c) + back.drop_last());
        assert forall|i: int| 0 <= i < back.drop_last().len() implies back.drop_last()[i] != c by {
            assert(back.drop_last()[i] == back[i]);
        }
        lemma_last_position(front, c, back.drop_last());
    }
}

/// A name in a directory lies in that directory: the parent of what was joined is
/// the directory, without the slashes at its end.
pub proof fn parent_of_joined(parent: Seq<char>, name: Seq<char>)
    requires
        name.len() > 0,
        !name.contains('/'),
        "/"@.is_prefix_of(parent),
    ensures
        parent_path(joined_path(parent, name)) == Some(
            if text::trim_end_of(parent, '/').len() == 0 {
                "/"@
            } else {
                text::trim_end_of(parent, '/')
            },
        ),
{
    reveal_strlit("/");
    let front = text::trim_end_of(parent, '/');
    let whole = joined_path(parent, name);
    assert(name.last() != '/') by {
        assert(name[name.len() - 1] == name.last());
    }
    lemma_no_trailing(whole, '/');
    lemma_no_trailing(parent, '/');
    let empty = Seq::<char>::empty();
    if parent == "/"@ {
        assert("/"@ =~= seq!['/']);
        assert(parent.drop_last() =~= empty);
        assert(text::trim_end_of(empty, '/') =~= empty);
        assert(front =~= empty);
        assert(whole =~= empty.push('/') + name);
        lemma_last_position(empty, '/', name);
    } else {
        assert(whole =~= front.push('/') + name);
        lemma_last_position(front, '/', name);
        assert(whole.take(front.len() as int) =~= front);
    }
}

/// Whether a character stands between the names of a local path.
pub open spec fn is_separator(c: char) -> bool {
    c == '/' || c == '\\'
}

/// Whether a character is a letter of ASCII.
pub open spec fn is_letter(c: char) -> bool {
    ('a' <= c && c <= 'z') || ('A' <= c && c <= 'Z')
}

/// Whether a path begins with a drive: a letter and a colon.
pub open spec fn has_drive(path: Seq<char>) -> bool {
    path.len() >= 2 && is_letter(path[0]) && path[1] == ':'
}

/// The first separator at or behind `from`, or the end of the path.
pub open spec fn next_separator(path: Seq<char>, from: int) -> int
    decreases path.len() - from,
{
    if from < 0 || from >= path.len() || is_separator(path[from]) {
        from
    } else {
        next_separator(path, from + 1)
    }
}

/// Where the names of a server and a share end that begin at `from` and that one
/// separator parts, or zero where one of them is missing.
pub open spec fn share_end(path: Seq<char>, from: int) -> int {
    let server = next_separator(path, from);
    let share = next_separator(path, server + 1);
    if from < server && server + 1 < share {
        share
    } else {
        0
    }
}

/// The number of characters in front of the names: a drive, or a network share
/// behind two separators.
pub open spec fn prefix_length(path: Seq<char>) -> int {
    if has_drive(path) {
        2
    } else if path.len() > 2 && is_separator(path[0]) && is_separator(path[1]) {
        share_end(
            path,
            if r"\\?\UNC\"@.is_prefix_of(path) {
                8
            } else {
                2
            },
        )
    } else {
        0
    }
}

/// The place behind the last separator, not before `from`.
pub open spec fn name_start(path: Seq<char>, from: int, to: int) -> int
    decreases to,
{
    if to <= from || to > path.len() || to <= 0 {
        from
    } else if is_separator(path[to - 1]) {
        to
    } else {
        name_start(path, from, to - 1)
    }
}

/// The end of the last name of a local path: separators at the end do not count,
/// and neither does a name that is a dot, unless it comes first.
pub open spec fn name_end(path: Seq<char>, from: int, to: int) -> int
    decreases to,
{
    if to <= from || to > path.len() || to <= 0 {
        from
    } else if is_separator(path[to - 1]) {
        name_end(path, from, to - 1)
    } else if path[to - 1] == '.' && to - 1 > from && is_separator(path[to - 2]) {
        name_end(path, from, to - 1)
    } else {
        to
    }
}

/// Where the last name of a local path begins and ends.
pub open spec fn name_bounds(path: Seq<char>) -> (int, int) {
    let from = prefix_length(path);
    let to = name_end(path, from, path.len() as int);
    (name_start(path, from, to), to)
}

/// The last name of a local path. A path that ends in `..`, or has no name, has
/// none.
pub open spec fn local_name(path: Seq<char>) -> Option<Seq<char>> {
    let (from, to) = name_bounds(path);
    if from >= to {
        None
    } else {
        let name = path.subrange(from, to);
        if name == "."@ || name == ".."@ {
            None
        } else {
            Some(name)
        }
    }
}

/// The number of characters in front of the names, with the separator behind the
/// prefix, where one stands there.
pub open spec fn root_length(path: Seq<char>) -> int {
    let prefix = prefix_length(path);
    if prefix < path.len() && is_separator(path[prefix]) {
        prefix + 1
    } else {
        prefix
    }
}

/// Where the directory of a local path with a name ends. Separators and dots
/// between the directory and the name do not count.
pub open spec fn directory_end(path: Seq<char>) -> int {
    let end = name_end(path, prefix_length(path), name_bounds(path).0);
    if end < root_length(path) {
        root_length(path)
    } else {
        end
    }
}

/// Whether a name can follow a local path at once: the path is empty, a drive
/// alone, or ends in a separator.
pub open spec fn takes_name(path: Seq<char>) -> bool {
    path.len() == 0 || (path.len() == 2 && has_drive(path)) || is_separator(path.last())
}

/// A local path with another last name, behind the separator that the name stood
/// behind. Where the path has no name, the new one is added at its end.
pub open spec fn with_local_name(path: Seq<char>, name: Seq<char>) -> Seq<char> {
    if local_name(path) is Some {
        let end = directory_end(path);
        if takes_name(path.take(end)) {
            path.take(end) + name
        } else {
            path.take(end + 1) + name
        }
    } else if takes_name(path) {
        path + name
    } else {
        path + "/"@ + name
    }
}

/// The path of a name in a local directory, with this separator where one is
/// missing. A name with a drive or a share stands for itself, and one that begins
/// with a separator counts from the prefix of the directory.
pub open spec fn local_child(directory: Seq<char>, name: Seq<char>, separator: char) -> Seq<char> {
    if prefix_length(name) > 0 {
        name
    } else if name.len() > 0 && is_separator(name[0]) {
        directory.take(prefix_length(directory)) + name
    } else if takes_name(directory) {
        directory + name
    } else {
        directory.push(separator) + name
    }
}

/// Whether a character stands between the names of a local path.
fn separates(c: char) -> (r: bool)
    ensures
        r == is_separator(c),
{
    c == '/' || c == '\\'
}

/// Whether a path begins with a drive.
fn starts_with_drive(path: &Vec<char>) -> (r: bool)
    ensures
        r == has_drive(path@),
{
    path.len() >= 2 && ((path[0] >= 'a' && path[0] <= 'z') || (path[0] >= 'A' && path[0] <= 'Z'))
        && path[1] == ':'
}

/// The first separator at or behind `from`, or the end of the path.
fn find_separator(path: &Vec<char>, from: usize) -> (r: usize)
    requires
        from <= path@.len(),
    ensures
        r == next_separator(path@, from as int),
        from <= r <= path@.len(),
{
    let mut at: usize = from;
    while at < path.len() && !separates(path[at])
        invariant
            from <= at <= path@.len(),
            next_separator(path@, from as int) == next_separator(path@, at as int),
        decreases path@.len() - at,
    {
        at = at + 1;
    }
    at
}

/// The number of characters in front of the names of a local path.
fn find_prefix(path: &Vec<char>) -> (r: usize)
    ensures
        r == prefix_length(path@),
        r <= path@.len(),
{
    if starts_with_drive(path) {
        return 2;
    }
    if path.len() > 2 && separates(path[0]) && separates(path[1]) {
        let marker = chars_of(r"\\?\UNC\");
        let mut from: usize = 2;
        proof {
            reveal_strlit(r"\\?\UNC\");
        }
        if path.len() >= 8 && path[0] == marker[0] && path[1] == marker[1] && path[2] == marker[2]
            && path[3] == marker[3] && path[4] == marker[4] && path[5] == marker[5] && path[6]
            == marker[6] && path[7] == marker[7] {
            from = 8;
            assert(r"\\?\UNC\"@.is_prefix_of(path@));
        } else {
            assert(!r"\\?\UNC\"@.is_prefix_of(path@));
        }
        let server = find_separator(path, from);
        if server == path.len() {
            return 0;
        }
        let share = find_separator(path, server + 1);
        if from < server && server + 1 < share {
            return share;
        }
    }
    0
}

/// Where a path ends once the separators and dots at its end do not count.
fn find_end(path: &Vec<char>, from: usize, to: usize) -> (r: usize)
    requires
        from <= to <= path@.len(),
    ensures
        r == name_end(path@, from as int, to as int),
        from <= r <= to,
{
    let mut end: usize = to;
    while end > from && (separates(path[end - 1]) || (path[end - 1] == '.' && end - 1 > from
        && separates(path[end - 2])))
        invariant
            from <= end <= to <= path@.len(),
            name_end(path@, from as int, to as int) == name_end(path@, from as int, end as int),
        decreases end,
    {
        end = end - 1;
    }
    end
}

/// Where the last name of a local path begins and ends.
fn find_name(path: &Vec<char>) -> (r: (usize, usize))
    ensures
        r.0 as int == name_bounds(path@).0,
        r.1 as int == name_bounds(path@).1,
        prefix_length(path@) <= r.0 <= r.1 <= path@.len(),
{
    let from = find_prefix(path);
    let to = find_end(path, from, path.len());
    let mut start: usize = to;
    while start > from && !separates(path[start - 1])
        invariant
            from <= start <= to <= path@.len(),
            name_start(path@, from as int, to as int) == name_start(
                path@,
                from as int,
                start as int,
            ),
        decreases start,
    {
        start = start - 1;
    }
    (start, to)
}

/// Whether a name can follow a local path at once.
fn can_take_name(path: &Vec<char>) -> (r: bool)
    ensures
        r == takes_name(path@),
{
    path.len() == 0 || (path.len() == 2 && starts_with_drive(path)) || separates(
        path[path.len() - 1],
    )
}

/// The last name of a local path.
pub fn local_file_name(path: &str) -> (r: Option<String>)
    ensures
        r.deep_view() == local_name(path@),
{
    let chars = chars_of(path);
    let (from, to) = find_name(&chars);
    if from >= to {
        return None;
    }
    let name = text_between(&chars, from, to);
    if same(name.as_str(), ".") || same(name.as_str(), "..") {
        return None;
    }
    Some(name)
}

/// A local path with another last name.
pub fn replace_local_name(path: &str, name: &str) -> (r: String)
    ensures
        r@ == with_local_name(path@, name@),
{
    let chars = chars_of(path);
    if local_file_name(path).is_some() {
        let prefix = find_prefix(&chars);
        let (start, _) = find_name(&chars);
        let mut end = find_end(&chars, prefix, start);
        let root: usize = if prefix < chars.len() && separates(chars[prefix]) {
            prefix + 1
        } else {
            prefix
        };
        if end < root {
            end = root;
        }
        proof {
            lemma_directory_end(path@);
        }
        let directory = chars_of(text_between(&chars, 0, end).as_str());
        assert(directory@ =~= path@.take(end as int));
        if !can_take_name(&directory) {
            end = end + 1;
        }
        let front = text_between(&chars, 0, end);
        assert(chars@.subrange(0, end as int) =~= path@.take(end as int));
        return cat2(front.as_str(), name);
    }
    if can_take_name(&chars) {
        cat2(path, name)
    } else {
        cat3(path, "/", name)
    }
}

/// The end of a path without the separators and dots at its end.
proof fn lemma_name_end(path: Seq<char>, from: int, to: int)
    requires
        0 <= from <= to <= path.len(),
    ensures
        from <= name_end(path, from, to) <= to,
        name_end(path, from, to) < to ==> is_separator(path[name_end(path, from, to)]),
    decreases to,
{
    if to > from {
        if is_separator(path[to - 1]) {
            lemma_name_end(path, from, to - 1);
        } else if path[to - 1] == '.' && to - 1 > from && is_separator(path[to - 2]) {
            lemma_name_end(path, from, to - 1);
            lemma_name_end(path, from, to - 2);
        }
    }
}

/// Where a name begins.
proof fn lemma_name_start(path: Seq<char>, from: int, to: int)
    requires
        0 <= from <= to <= path.len(),
    ensures
        from <= name_start(path, from, to) <= to,
        from < name_start(path, from, to) ==> is_separator(path[name_start(path, from, to) - 1]),
    decreases to,
{
    if to > from && !is_separator(path[to - 1]) {
        lemma_name_start(path, from, to - 1);
    }
}

/// A prefix lies in its path.
proof fn lemma_prefix(path: Seq<char>)
    ensures
        0 <= prefix_length(path) <= path.len(),
{
    reveal_strlit(r"\\?\UNC\");
    if path.len() > 2 {
        let from: int = if r"\\?\UNC\"@.is_prefix_of(path) {
            8
        } else {
            2
        };
        lemma_next_separator(path, from);
        let server = next_separator(path, from);
        if server < path.len() {
            lemma_next_separator(path, server + 1);
        }
    }
}

/// The next separator lies behind, and in the path or at its end.
proof fn lemma_next_separator(path: Seq<char>, from: int)
    requires
        0 <= from <= path.len(),
    ensures
        from <= next_separator(path, from) <= path.len(),
    decreases path.len() - from,
{
    if from < path.len() && !is_separator(path[from]) {
        lemma_next_separator(path, from + 1);
    }
}

/// The directory of a path with a name ends in front of the name, and where a name
/// cannot follow it at once, a separator does.
proof fn lemma_directory_end(path: Seq<char>)
    requires
        local_name(path) is Some,
    ensures
        0 <= directory_end(path) <= name_bounds(path).0 <= path.len(),
        !takes_name(path.take(directory_end(path))) ==> directory_end(path) < name_bounds(path).0
            && is_separator(path[directory_end(path)]),
{
    let prefix = prefix_length(path);
    let (start, stop) = name_bounds(path);
    lemma_prefix(path);
    lemma_name_end(path, prefix, path.len() as int);
    lemma_name_start(path, prefix, stop);
    lemma_name_end(path, prefix, start);
    lemma_name_chars(path, prefix, stop);
    let end = directory_end(path);
    let front = path.take(end);
    if start == prefix {
        assert(!is_separator(path[start]));
        if prefix > 0 && !has_drive(path) {
            lemma_share_ends_at_separator(path);
        }
    } else if end == start || end > name_end(path, prefix, start) {
        assert(front.last() == path[end - 1]);
    }
}

/// A name has no separator in it.
proof fn lemma_name_chars(path: Seq<char>, from: int, to: int)
    requires
        0 <= from <= to <= path.len(),
    ensures
        forall|i: int| name_start(path, from, to) <= i < to ==> !is_separator(#[trigger] path[i]),
    decreases to,
{
    if to > from && !is_separator(path[to - 1]) {
        lemma_name_chars(path, from, to - 1);
    }
}

/// Behind a network share stands a separator, or nothing.
proof fn lemma_share_ends_at_separator(path: Seq<char>)
    requires
        !has_drive(path),
        prefix_length(path) > 0,
    ensures
        prefix_length(path) < path.len() ==> is_separator(path[prefix_length(path)]),
{
    let from: int = if r"\\?\UNC\"@.is_prefix_of(path) {
        8
    } else {
        2
    };
    reveal_strlit(r"\\?\UNC\");
    let server = next_separator(path, from);
    lemma_next_separator(path, from);
    if server < path.len() {
        lemma_next_separator(path, server + 1);
        lemma_found_separator(path, server + 1);
    }
}

/// What is found is a separator.
proof fn lemma_found_separator(path: Seq<char>, from: int)
    requires
        0 <= from <= path.len(),
    ensures
        next_separator(path, from) < path.len() ==> is_separator(path[next_separator(path, from)]),
    decreases path.len() - from,
{
    if from < path.len() && !is_separator(path[from]) {
        lemma_found_separator(path, from + 1);
    }
}

/// The path of a name in a local directory.
pub fn join_local_path(directory: &str, name: &str, separator: char) -> (r: String)
    ensures
        r@ == local_child(directory@, name@, separator),
{
    let base = chars_of(directory);
    let chars = chars_of(name);
    if find_prefix(&chars) > 0 {
        return name.to_owned();
    }
    if chars.len() > 0 && separates(chars[0]) {
        let prefix = find_prefix(&base);
        let front = text_between(&base, 0, prefix);
        assert(base@.subrange(0, prefix as int) =~= directory@.take(prefix as int));
        return cat2(front.as_str(), name);
    }
    if can_take_name(&base) {
        return cat2(directory, name);
    }
    let mut r = directory.to_owned();
    r.push(separator);
    r.append(name);
    r
}

/// A plain name in a local directory lies in that directory: its path is that of
/// the directory, a separator where one is missing, and the name.
pub proof fn local_names_stay_in_directory(directory: Seq<char>, name: Seq<char>, separator: char)
    requires
        name.len() > 0,
        forall|i: int| 0 <= i < name.len() ==> !is_separator(#[trigger] name[i]),
        !has_drive(name),
    ensures
        directory.is_prefix_of(local_child(directory, name, separator)),
        local_child(directory, name, separator) == directory + name || local_child(
            directory,
            name,
            separator,
        ) == directory.push(separator) + name,
        directory.len() > 0 && !has_drive(directory) && is_separator(separator) ==> is_separator(
            local_child(directory, name, separator)[local_child(directory, name, separator).len()
                - name.len() - 1],
        ),
{
    assert(prefix_length(name) == 0);
}

/// The name of a source: the last name of its path.
pub open spec fn source_name(source: Seq<char>, direction: TransferDirection) -> Option<Seq<char>> {
    match direction {
        TransferDirection::Upload => local_name(source),
        TransferDirection::Download => {
            let text = text::trim_end_of(source, '/');
            let name = match text::last_position(text, '/') {
                Some(at) => text.skip(at + 1),
                None => text,
            };
            if name.len() == 0 {
                None
            } else {
                Some(name)
            }
        },
    }
}

/// The name of a source.
pub fn transfer_source_name(source: &str, direction: TransferDirection) -> (r: Option<String>)
    ensures
        r.deep_view() == source_name(source@, direction),
{
    match direction {
        TransferDirection::Upload => local_file_name(source),
        TransferDirection::Download => {
            let text = without_trailing(source, '/');
            let chars = chars_of(text.as_str());
            let total: usize = chars.len();
            let from: usize = match find_last(&chars, '/') {
                Some(at) => at + 1,
                None => 0,
            };
            proof {
                assert(chars@.subrange(from as int, total as int) =~= text@.skip(from as int));
                assert(text@.skip(0) =~= text@);
            }
            if from == total {
                None
            } else {
                Some(text_between(&chars, from, total))
            }
        },
    }
}

/// A name up to its extension: up to the last dot, unless the name begins there.
pub open spec fn stem_of(name: Seq<char>) -> Seq<char> {
    match text::last_position(name, '.') {
        Some(at) => if at == 0 {
            name
        } else {
            name.take(at)
        },
        None => name,
    }
}

/// The extension of a name: what stands behind its last dot, unless the name
/// begins there.
pub open spec fn extension_of(name: Seq<char>) -> Option<Seq<char>> {
    match text::last_position(name, '.') {
        Some(at) => if at == 0 {
            None
        } else {
            Some(name.skip(at + 1))
        },
        None => None,
    }
}

/// A text with `/` in place of every `\`.
pub open spec fn with_slashes(s: Seq<char>) -> Seq<char> {
    Seq::new(
        s.len(),
        |i: int|
            if s[i] == '\\' {
                '/'
            } else {
                s[i]
            },
    )
}

/// The name that is tried where a target exists: with a number in front of the
/// extension.
pub open spec fn numbered_name(name: Option<Seq<char>>, index: nat) -> Seq<char> {
    let number = " ("@ + text::decimal(index) + ")"@;
    match name {
        None => "file"@ + number,
        Some(name) => match extension_of(name) {
            Some(extension) => stem_of(name) + number + "."@ + extension,
            None => stem_of(name) + number,
        },
    }
}

/// The path that is tried where a target exists.
pub open spec fn conflict_path(path: Seq<char>, index: nat) -> Seq<char> {
    with_slashes(with_local_name(path, numbered_name(local_name(path), index)))
}

/// A text with `/` in place of every `\`.
fn use_slashes(text: &str) -> (r: String)
    ensures
        r@ == with_slashes(text@),
{
    let chars = chars_of(text);
    let mut out: Vec<char> = Vec::new();
    let mut i: usize = 0;
    while i < chars.len()
        invariant
            i <= chars@.len(),
            out@.len() == i,
            forall|j: int|
                0 <= j < i ==> #[trigger] out@[j] == (if chars@[j] == '\\' {
                    '/'
                } else {
                    chars@[j]
                }),
        decreases chars@.len() - i,
    {
        if chars[i] == '\\' {
            out.push('/');
        } else {
            out.push(chars[i]);
        }
        i = i + 1;
    }
    assert(out@ =~= with_slashes(text@));
    text_of(&out)
}

/// The path that is tried where a target exists.
pub fn conflict_name(path: &str, index: usize) -> (r: String)
    ensures
        r@ == conflict_path(path@, index as nat),
{
    let number = cat3(" (", decimal_text(index as u64).as_str(), ")");
    let name = match local_file_name(path) {
        None => cat2("file", number.as_str()),
        Some(name) => {
            let chars = chars_of(name.as_str());
            let total: usize = chars.len();
            match find_last(&chars, '.') {
                Some(at) => if at == 0 {
                    cat2(name.as_str(), number.as_str())
                } else {
                    let stem = text_between(&chars, 0, at);
                    let extension = text_between(&chars, at + 1, total);
                    proof {
                        assert(chars@.subrange(0, at as int) =~= name@.take(at as int));
                        assert(chars@.subrange(at + 1, total as int) =~= name@.skip(at + 1));
                    }
                    cat4(stem.as_str(), number.as_str(), ".", extension.as_str())
                },
                None => cat2(name.as_str(), number.as_str()),
            }
        },
    };
    use_slashes(replace_local_name(path, name.as_str()).as_str())
}

/// The path of a file that is being written to a remote target.
pub open spec fn remote_part(target: Seq<char>, task_id: Seq<char>) -> Seq<char> {
    target + ".terminalt-"@ + task_id + ".part"@
}

/// The path to which a remote target is moved before it is replaced.
pub open spec fn remote_backup(target: Seq<char>, task_id: Seq<char>) -> Seq<char> {
    target + ".terminalt-"@ + task_id + ".backup"@
}

/// The name of a local target, or the name that stands in for it.
pub open spec fn local_target_name(target: Seq<char>) -> Seq<char> {
    match local_name(target) {
        Some(name) => name,
        None => "download"@,
    }
}

/// The path of a file that is being written to a local target.
pub open spec fn local_part(target: Seq<char>, task_id: Seq<char>) -> Seq<char> {
    with_local_name(
        target,
        "."@ + local_target_name(target) + ".terminalt-"@ + task_id + ".part"@,
    )
}

/// The path to which a local target is moved before it is replaced.
pub open spec fn local_backup(target: Seq<char>, task_id: Seq<char>) -> Seq<char> {
    with_local_name(
        target,
        "."@ + local_target_name(target) + ".terminalt-"@ + task_id + ".backup"@,
    )
}

/// The path of a file that is being written to a remote target.
pub fn temporary_remote_path(target: &str, task_id: &str) -> (r: String)
    ensures
        r@ == remote_part(target@, task_id@),
{
    cat4(target, ".terminalt-", task_id, ".part")
}

/// The path to which a remote target is moved before it is replaced.
pub fn backup_remote_path(target: &str, task_id: &str) -> (r: String)
    ensures
        r@ == remote_backup(target@, task_id@),
{
    cat4(target, ".terminalt-", task_id, ".backup")
}

/// The path of a file that is being written to a local target.
pub fn temporary_local_path(target: &str, task_id: &str) -> (r: String)
    ensures
        r@ == local_part(target@, task_id@),
{
    let name = match local_file_name(target) {
        Some(name) => name,
        None => "download".to_owned(),
    };
    let name = cat5(".", name.as_str(), ".terminalt-", task_id, ".part");
    replace_local_name(target, name.as_str())
}

/// The path to which a local target is moved before it is replaced.
pub fn backup_local_path(target: &str, task_id: &str) -> (r: String)
    ensures
        r@ == local_backup(target@, task_id@),
{
    let name = match local_file_name(target) {
        Some(name) => name,
        None => "download".to_owned(),
    };
    let name = cat5(".", name.as_str(), ".terminalt-", task_id, ".backup");
    replace_local_name(target, name.as_str())
}

/// The files that stand in for a remote target while it is replaced are the
/// target's own: they begin with its path, and are neither the target nor each
/// other.
pub proof fn remote_artifacts_stay_next_to_target(target: Seq<char>, task_id: Seq<char>)
    ensures
        target.is_prefix_of(remote_part(target, task_id)),
        target.is_prefix_of(remote_backup(target, task_id)),
        remote_part(target, task_id) != target,
        remote_backup(target, task_id) != target,
        remote_part(target, task_id) != remote_backup(target, task_id),
{
    reveal_strlit(".part");
    reveal_strlit(".backup");
    reveal_strlit(".terminalt-");
    assert(remote_part(target, task_id).len() > target.len());
    assert(remote_part(target, task_id).len() != remote_backup(target, task_id).len());
}

/// The files that stand in for a local target with a name are in its directory:
/// they begin with the path of the directory.
pub proof fn local_artifacts_stay_next_to_target(target: Seq<char>, task_id: Seq<char>)
    requires
        local_name(target) is Some,
    ensures
        target.take(directory_end(target)).is_prefix_of(local_part(target, task_id)),
        target.take(directory_end(target)).is_prefix_of(local_backup(target, task_id)),
        local_part(target, task_id) != local_backup(target, task_id),
{
    reveal_strlit(".part");
    reveal_strlit(".backup");
    lemma_directory_end(target);
    let directory = target.take(directory_end(target));
    assert(local_part(target, task_id).len() != local_backup(target, task_id).len());
    assert(local_part(target, task_id).take(directory.len() as int) =~= directory);
    assert(local_backup(target, task_id).take(directory.len() as int) =~= directory);
}

/// What lies in a remote directory under a name has that name: joining and taking the name
/// undo each other.
pub proof fn name_of_joined(parent: Seq<char>, name: Seq<char>)
    requires
        name.len() > 0,
        !name.contains('/'),
    ensures
        source_name(joined_path(parent, name), TransferDirection::Download) == Some(name),
        name.is_suffix_of(joined_path(parent, name)),
{
    reveal_strlit("/");
    let front = text::trim_end_of(parent, '/');
    let whole = joined_path(parent, name);
    assert(name.last() != '/') by {
        assert(name[name.len() - 1] == name.last());
    }
    lemma_no_trailing(whole, '/');
    let empty = Seq::<char>::empty();
    if parent == "/"@ {
        assert("/"@ =~= seq!['/']);
        assert(whole =~= empty.push('/') + name);
        lemma_last_position(empty, '/', name);
        assert(whole.skip(1) =~= name);
    } else {
        assert(whole =~= front.push('/') + name);
        lemma_last_position(front, '/', name);
        assert(whole.skip(front.len() as int + 1) =~= name);
    }
    assert(whole.skip(whole.len() - name.len()) =~= name);
}

/// Where the last of a character is, it stands.
proof fn lemma_last_found(s: Seq<char>, c: char)
    ensures
        text::last_position(s, c) matches Some(at) ==> 0 <= at < s.len() && s[at] == c,
    decreases s.len(),
{
    if s.len() > 0 && s.last() != c {
        lemma_last_found(s.drop_last(), c);
    }
}

/// The name of a remote object is what stands behind the last slash: it is not empty and
/// holds no slash.
pub proof fn remote_names_are_plain(source: Seq<char>)
    ensures
        source_name(source, TransferDirection::Download) matches Some(name) ==> name.len() > 0
            && !name.contains('/') && name.is_suffix_of(text::trim_end_of(source, '/')),
{
    let text = text::trim_end_of(source, '/');
    lemma_behind_last(text, '/');
    lemma_last_found(text, '/');
    if let Some(name) = source_name(source, TransferDirection::Download) {
        assert(text.skip(text.len() - name.len()) =~= name);
    }
}

/// Behind the last of a character there is none.
proof fn lemma_behind_last(s: Seq<char>, c: char)
    ensures
        match text::last_position(s, c) {
            Some(at) => !s.skip(at + 1).contains(c),
            None => !s.contains(c),
        },
    decreases s.len(),
{
    lemma_last_found(s, c);
    if s.len() > 0 && s.last() != c {
        let front = s.drop_last();
        lemma_behind_last(front, c);
        lemma_last_found(front, c);
        match text::last_position(s, c) {
            Some(at) => {
                let (back, less) = (s.skip(at + 1), front.skip(at + 1));
                assert forall|i: int| 0 <= i < back.len() implies #[trigger] back[i] != c by {
                    if i < less.len() {
                        assert(less[i] == back[i]);
                        assert(less.contains(less[i]));
                    }
                }
            },
            None => {
                assert forall|i: int| 0 <= i < s.len() implies s[i] != c by {
                    if i < front.len() {
                        assert(front[i] == s[i]);
                        assert(front.contains(front[i]));
                    }
                }
            },
        }
    }
}

/// A name is its stem and its extension with a dot between them, and the extension is what
/// stands behind the last dot, unless the name begins with it.
pub proof fn names_are_stem_and_extension(name: Seq<char>)
    ensures
        match extension_of(name) {
            Some(extension) => name == stem_of(name) + "."@ + extension && !extension.contains('.')
                && stem_of(name).len() > 0,
            None => stem_of(name) == name,
        },
{
    reveal_strlit(".");
    lemma_last_found(name, '.');
    lemma_behind_last(name, '.');
    if let Some(extension) = extension_of(name) {
        assert(name =~= stem_of(name) + "."@ + extension);
    }
}

/// The names that are tried in place of one that is taken are different from each other,
/// begin with the stem and keep the extension.
pub proof fn numbered_names_differ(name: Seq<char>, first: nat, second: nat)
    requires
        first != second,
    ensures
        numbered_name(Some(name), first) != numbered_name(Some(name), second),
        stem_of(name).is_prefix_of(numbered_name(Some(name), first)),
        numbered_name(Some(name), first) != name,
        extension_of(name) matches Some(extension) ==> ("."@ + extension).is_suffix_of(
            numbered_name(Some(name), first),
        ),
{
    reveal_strlit(" (");
    reveal_strlit(")");
    reveal_strlit(".");
    names_are_stem_and_extension(name);
    text::decimal_tells_apart(first, second);
    let (a, b) = (numbered_name(Some(name), first), numbered_name(Some(name), second));
    let (x, y) = (text::decimal(first), text::decimal(second));
    let stem = stem_of(name);
    let tail = match extension_of(name) {
        Some(extension) => "."@ + extension,
        None => Seq::empty(),
    };
    let before = stem + " ("@;
    let after = ")"@ + tail;
    assert(a =~= before + x + after);
    assert(b =~= before + y + after);
    if a == b {
        let n = before.len() as int;
        assert(x.len() == y.len());
        assert(a.subrange(n, n + x.len()) =~= x);
        assert(b.subrange(n, n + y.len()) =~= y);
    }
    assert(a.take(stem.len() as int) =~= stem);
    assert(name =~= stem + tail);
    assert(a.len() > name.len());
    if let Some(extension) = extension_of(name) {
        assert(a.skip(a.len() - tail.len()) =~= tail);
    }
}

/// A name that is no path stands at the end of the path that it is put into.
pub proof fn plain_names_end_their_path(directory: Seq<char>, name: Seq<char>, separator: char)
    requires
        name.len() > 0,
        forall|i: int| 0 <= i < name.len() ==> !is_separator(#[trigger] name[i]),
        !has_drive(name),
    ensures
        local_child(directory, name, separator) == if directory.len() == 0 || (directory.len() == 2
            && has_drive(directory)) || is_separator(directory.last()) {
            directory + name
        } else {
            directory.push(separator) + name
        },
        name.is_suffix_of(local_child(directory, name, separator)),
{
    assert(!is_separator(name[0]));
    assert(prefix_length(name) == 0);
    let whole = local_child(directory, name, separator);
    assert(whole.skip(whole.len() - name.len()) =~= name);
}

/// The name of a local path is a part of it without separators that is not empty and stands
/// for no directory above or here.
pub proof fn local_names_are_plain(path: Seq<char>)
    ensures
        local_name(path) matches Some(name) ==> {
            &&& name.len() > 0
            &&& name != "."@
            &&& name != ".."@
            &&& forall|i: int| 0 <= i < name.len() ==> !is_separator(#[trigger] name[i])
            &&& exists|from: int, to: int|
                0 <= from < to <= path.len() && name == #[trigger] path.subrange(from, to) && (from
                    == prefix_length(path) || is_separator(path[from - 1])) && (to == path.len()
                    || is_separator(path[to]))
        },
{
    if let Some(name) = local_name(path) {
        let prefix = prefix_length(path);
        let (from, to) = name_bounds(path);
        lemma_prefix(path);
        lemma_name_end(path, prefix, path.len() as int);
        lemma_name_start(path, prefix, to);
        lemma_name_chars(path, prefix, to);
        assert(name == path.subrange(from, to));
        assert forall|i: int| 0 <= i < name.len() implies !is_separator(#[trigger] name[i]) by {
            assert(name[i] == path[from + i]);
        }
    }
}

/// A path has a drive if and only if it begins with a letter and a colon; the drive is no
/// part of a name.
pub proof fn drives_are_a_letter_and_a_colon(path: Seq<char>)
    ensures
        has_drive(path) <==> path.len() >= 2 && (('a' <= path[0] && path[0] <= 'z') || ('A'
            <= path[0] && path[0] <= 'Z')) && path[1] == ':',
        has_drive(path) ==> prefix_length(path) == 2,
        prefix_length(path) > 0 && !has_drive(path) ==> path.len() > 2 && is_separator(path[0])
            && is_separator(path[1]),
        is_separator('/') && is_separator('\\'),
{
}

/// A name that is tried in place of one that is taken is written with slashes alone, and is
/// otherwise as it is.
pub proof fn tried_names_have_slashes(path: Seq<char>, index: nat, i: int)
    requires
        0 <= i < conflict_path(path, index).len(),
    ensures
        ({
            let name = with_local_name(path, numbered_name(local_name(path), index));
            let tried = conflict_path(path, index);
            &&& tried.len() == name.len()
            &&& tried[i] != '\\'
            &&& name[i] == '\\' ==> tried[i] == '/'
            &&& name[i] != '\\' ==> tried[i] == name[i]
        }),
{
}

} // verus!

//! The diagnostic log: what is written of an event, what an export holds and
//! which files are deleted.

#![verifier::loop_isolation(false)]

use crate::models::Duplicate;
use crate::outside::{now, today};
use crate::sort::{self, SortKey, order_of};
use crate::text::{self, ascii_lowercase, cat3, cat5, contains, join, words_of};
use vstd::prelude::*;

verus! {

/// How long a log file is kept, in nanoseconds.
pub const RETENTION_NANOS: u128 = 604_800_000_000_000;

/// How many bytes the log files may hold together.
pub const MAX_TOTAL_BYTES: u128 = 10_485_760;

/// What stands in the log in place of a word that is hidden.
pub open spec fn hidden() -> Seq<char> {
    "[REDACTED]"@
}

/// Whether a word names something that must not be in the log.
pub open spec fn is_sensitive(word: Seq<char>) -> bool {
    let text = text::lower(word);
    ||| text::contains_text(text, "password"@)
    ||| text::contains_text(text, "passphrase"@)
    ||| text::contains_text(text, "privatekey"@)
    ||| text::contains_text(text, "secret"@)
    ||| text::contains_text(text, "credential"@)
}

/// A word as it stands in the log.
pub open spec fn shown_word(word: Seq<char>) -> Seq<char> {
    if is_sensitive(word) {
        hidden()
    } else {
        word
    }
}

/// The words of a text as they stand in the log.
pub open spec fn shown_words(value: Seq<char>) -> Seq<Seq<char>> {
    let all = text::words(value, false);
    Seq::new(all.len(), |i: int| shown_word(all[i]))
}

/// A text as it stands in the log: its words with one space between them, each
/// that is sensitive hidden.
pub open spec fn sanitized(value: Seq<char>) -> Seq<char> {
    text::joined(shown_words(value), " "@)
}

/// Whether a word names something that must not be in the log.
fn word_is_sensitive(word: &str) -> (r: bool)
    ensures
        r == is_sensitive(word@),
{
    let text = ascii_lowercase(word);
    contains(text.as_str(), "password") || contains(text.as_str(), "passphrase") || contains(
        text.as_str(),
        "privatekey",
    ) || contains(text.as_str(), "secret") || contains(text.as_str(), "credential")
}

/// A text as it stands in the log.
pub fn sanitize(value: &str) -> (r: String)
    ensures
        r@ == sanitized(value@),
{
    let all = words_of(value, false);
    let ghost view = all.deep_view();
    let mut shown: Vec<String> = Vec::new();
    let mut i: usize = 0;
    while i < all.len()
        invariant
            i <= all@.len(),
            shown@.len() == i,
            forall|j: int| 0 <= j < i ==> (#[trigger] shown@[j])@ == shown_word(view[j]),
        decreases all@.len() - i,
    {
        if word_is_sensitive(all[i].as_str()) {
            shown.push("[REDACTED]".to_owned());
        } else {
            shown.push(all[i].clone());
        }
        i = i + 1;
    }
    assert(shown.deep_view() =~= shown_words(value@));
    join(&shown, " ")
}

/// The entry for an event.
pub open spec fn log_entry(
    now: Seq<char>,
    event: Seq<char>,
    code: Option<Seq<char>>,
    details: Seq<char>,
) -> Seq<char> {
    now + " event="@ + sanitized(event) + " code="@ + (match code {
        Some(code) => code,
        None => "-"@,
    }) + " details="@ + sanitized(details) + "\n"@
}

/// The name of the log file of a day.
pub open spec fn log_file_name(day: Seq<char>) -> Seq<char> {
    "terminalt-"@ + day + ".log"@
}

/// What an export of the log did.
#[derive(Debug)]
pub struct LogExportSummary {
    pub files: usize,
    pub path: String,
}

/// What a [`LogExportSummary`] says.
#[verifier::ext_equal]
pub struct LogExportSummaryView {
    pub files: usize,
    pub path: Seq<char>,
}

impl View for LogExportSummary {
    type V = LogExportSummaryView;

    open spec fn view(&self) -> LogExportSummaryView {
        LogExportSummaryView {
            files: self.files,
            path: self.path@,
        }
    }
}

impl DeepView for LogExportSummary {
    type V = LogExportSummaryView;

    open spec fn deep_view(&self) -> LogExportSummaryView {
        self@
    }
}

impl Duplicate for LogExportSummary {
    fn duplicate(&self) -> (r: Self) {
        LogExportSummary {
            files: self.files,
            path: self.path.clone(),
        }
    }
}

impl Clone for LogExportSummary {
    fn clone(&self) -> (r: Self)
        ensures
            r@ == self@,
    {
        self.duplicate()
    }
}

/// The texts of the log files, each as it stands in the log, one after the other.
pub open spec fn exported(files: Seq<Seq<char>>) -> Seq<char>
    decreases files.len(),
{
    if files.len() == 0 {
        Seq::empty()
    } else {
        exported(files.drop_last()) + sanitized(files.last())
    }
}

/// A log file: when it was last changed, in nanoseconds, and its size.
pub struct LogFile {
    pub modified: u128,
    pub size: u64,
}

/// The sizes of the files added up.
pub open spec fn total_size(files: Seq<LogFile>) -> nat
    decreases files.len(),
{
    if files.len() == 0 {
        0
    } else {
        total_size(files.drop_last()) + files.last().size as nat
    }
}

/// Which of the files, taken in the order `order` from place `i` on, are deleted
/// where all that are left hold `total` bytes: each that is too old, and each
/// while the files hold too much.
pub open spec fn outdated(
    files: Seq<LogFile>,
    order: Seq<usize>,
    i: int,
    now: u128,
    total: int,
) -> Seq<usize>
    decreases order.len() - i,
{
    if i < 0 || i >= order.len() {
        Seq::empty()
    } else {
        let file = files[order[i] as int];
        let age = if now > file.modified {
            now - file.modified
        } else {
            0
        };
        if age > RETENTION_NANOS || total > MAX_TOTAL_BYTES {
            let left = if total > file.size {
                total - file.size
            } else {
                0
            };
            seq![order[i]] + outdated(files, order, i + 1, now, left)
        } else {
            outdated(files, order, i + 1, now, total)
        }
    }
}

impl SortKey for u128 {
    open spec fn less(self, other: Self) -> bool {
        self < other
    }

    proof fn less_asymmetric(a: Self, b: Self) {
    }

    proof fn less_splits(a: Self, b: Self, c: Self) {
    }

    fn is_less(&self, other: &Self) -> (r: bool) {
        *self < *other
    }
}

/// The times at which the files were last changed.
pub open spec fn change_times(files: Seq<LogFile>) -> Seq<u128> {
    Seq::new(files.len(), |i: int| files[i].modified)
}

/// Which of the files are deleted, the oldest first.
pub fn cleanup(files: &Vec<LogFile>, now: u128) -> (r: Vec<usize>)
    ensures
        exists|order: Seq<usize>| #[trigger]
            sort::is_order(change_times(files@), order) && r@ == outdated(
                files@,
                order,
                0,
                now,
                total_size(files@) as int,
            ),
{
    let ghost view = files@;
    let mut times: Vec<u128> = Vec::new();
    let mut total: u128 = 0;
    let count: usize = files.len();
    let mut i: usize = 0;
    assert(view.take(0) =~= Seq::empty());
    while i < count
        invariant
            i <= count,
            count == view.len(),
            times@.len() == i,
            forall|j: int| 0 <= j < i ==> #[trigger] times@[j] == view[j].modified,
            total == total_size(view.take(i as int)),
            total <= i * 0x1_0000_0000_0000_0000,
        decreases count - i,
    {
        proof {
            assert(view.take(i + 1).drop_last() =~= view.take(i as int));
        }
        times.push(files[i].modified);
        total = total + files[i].size as u128;
        i = i + 1;
    }
    assert(view.take(i as int) =~= view);
    assert(times@ =~= change_times(view));
    let order = order_of(&times);
    let mut r: Vec<usize> = Vec::new();
    let ghost whole = outdated(view, order@, 0, now, total as int);
    let mut k: usize = 0;
    assert(r@ + whole =~= whole);
    while k < order.len()
        invariant
            k <= order@.len(),
            whole == r@ + outdated(view, order@, k as int, now, total as int),
        decreases order@.len() - k,
    {
        let at: usize = order[k];
        let file = &files[at];
        let age: u128 = if now > file.modified {
            now - file.modified
        } else {
            0
        };
        let ghost done = r@;
        if age > RETENTION_NANOS || total > MAX_TOTAL_BYTES {
            r.push(at);
            let size: u128 = file.size as u128;
            total = if total > size {
                total - size
            } else {
                0
            };
            assert(done + (seq![at] + outdated(view, order@, k + 1, now, total as int))
                =~= r@ + outdated(view, order@, k + 1, now, total as int));
        }
        k = k + 1;
    }
    assert(r@ =~= whole);
    r
}

/// The directory of the log files, and what is written there.
pub struct DiagnosticLog {
    directory: String,
}

impl DiagnosticLog {
    /// The directory.
    pub closed spec fn location(self) -> Seq<char> {
        self.directory@
    }

    /// A log in this directory.
    pub fn new(directory: String) -> (r: Self)
        ensures
            r.location() == directory@,
    {
        DiagnosticLog { directory }
    }

    /// The directory.
    pub fn directory(&self) -> (r: String)
        ensures
            r@ == self.location(),
    {
        self.directory.clone()
    }

    /// The name of the log file of a day.
    pub fn file_name(day: &str) -> (r: String)
        ensures
            r@ == log_file_name(day@),
    {
        cat3("terminalt-", day, ".log")
    }

    /// The entry for an event at a time.
    pub fn record_at(now: &str, event: &str, code: Option<&str>, details: &str) -> (r: String)
        ensures
            r@ == log_entry(
                now@,
                event@,
                code.deep_view(),
                details@,
            ),
    {
        let code = match code {
            Some(code) => code,
            None => "-",
        };
        let mut r = cat5(now, " event=", sanitize(event).as_str(), " code=", code);
        r.append(" details=");
        r.append(sanitize(details).as_str());
        r.append("\n");
        r
    }

    /// The entry for an event, and the name of the file that it goes to.
    pub fn record(&self, event: &str, code: Option<&str>, details: &str) -> (r: (String, String))
        ensures
            exists|time: Seq<char>|
                r.0@ == #[trigger] log_entry(
                    time,
                    event@,
                    code.deep_view(),
                    details@,
                ),
            exists|day: Seq<char>| r.1@ == #[trigger] log_file_name(day),
    {
        let time = now();
        let day = today();
        (
            DiagnosticLog::record_at(time.as_str(), event, code, details),
            DiagnosticLog::file_name(day.as_str()),
        )
    }

    /// What an export to `path` holds, given the texts of the log files, and its
    /// summary.
    pub fn export_filtered(&self, files: &Vec<String>, path: &str) -> (r: (
        String,
        LogExportSummary,
    ))
        ensures
            r.0@ == exported(files.deep_view()),
            r.1@ == (LogExportSummaryView { files: files@.len() as usize, path: path@ }),
    {
        let ghost view = files.deep_view();
        let mut content = "".to_owned();
        let mut i: usize = 0;
        proof {
            reveal_strlit("");
            assert(content@ =~= Seq::empty());
            assert(view.take(0) =~= Seq::empty());
        }
        while i < files.len()
            invariant
                i <= files@.len(),
                content@ == exported(view.take(i as int)),
            decreases files@.len() - i,
        {
            proof {
                assert(view.take(i + 1).drop_last() =~= view.take(i as int));
                assert(view.take(i + 1).last() == files@[i as int]@);
            }
            content.append(sanitize(files[i].as_str()).as_str());
            i = i + 1;
        }
        assert(view.take(i as int) =~= view);
        (content, LogExportSummary { files: files.len(), path: path.to_owned() })
    }
}

/// A text in the log has no line break in it.
pub proof fn sanitized_is_one_line(value: Seq<char>)
    ensures
        !sanitized(value).contains('\n'),
        !sanitized(value).contains('\r'),
{
    reveal_strlit(" ");
    reveal_strlit("[REDACTED]");
    assert forall|c: char| c == '\n' || c == '\r' implies !sanitized(value).contains(c) by {
        if sanitized(value).contains(c) {
            text::lemma_joined_char(shown_words(value), " "@, c);
            if " "@.contains(c) {
                let k = choose|k: int| 0 <= k < " "@.len() && " "@[k] == c;
                assert(false);
            }
            let i = choose|i: int|
                0 <= i < shown_words(value).len() && (#[trigger] shown_words(value)[i]).contains(c);
            let word = text::words(value, false)[i];
            text::lemma_word_at(value, false, i);
            let k = choose|k: int|
                0 <= k < shown_words(value)[i].len() && shown_words(value)[i][k] == c;
            if is_sensitive(word) {
                assert(hidden()[k] == c);
            } else {
                assert(word[k] == c);
                assert(!text::is_gap(word[k], false));
            }
        }
    }
}

/// Every word of a text in the log is a word of the text that is not sensitive,
/// or the mark that stands in for one.
pub proof fn sanitized_words_are_safe(value: Seq<char>, i: int)
    requires
        0 <= i < shown_words(value).len(),
    ensures
        shown_words(value)[i] == hidden() || (shown_words(value)[i] == text::words(value, false)[i]
            && !is_sensitive(text::words(value, false)[i])),
{
}

/// A text without the first character of another does not hold it.
proof fn lemma_not_contained(s: Seq<char>, needle: Seq<char>)
    requires
        needle.len() > 0,
        forall|i: int|
            0 <= i && i + needle.len() <= s.len() ==> #[trigger] s[i] != needle[0],
    ensures
        !text::contains_text(s, needle),
{
    if text::contains_text(s, needle) {
        let at = choose|at: int| text::occurs_at(s, needle, at);
        assert(s.subrange(at, at + needle.len())[0] == s[at]);
    }
}

/// The mark that stands in for a word is not sensitive itself.
proof fn lemma_mark_is_safe()
    ensures
        !is_sensitive(hidden()),
        text::is_word(hidden(), false),
{
    reveal_strlit("[REDACTED]");
    reveal_strlit("password");
    reveal_strlit("passphrase");
    reveal_strlit("privatekey");
    reveal_strlit("secret");
    reveal_strlit("credential");
    let s = text::lower(hidden());
    assert(s =~= seq!['[', 'r', 'e', 'd', 'a', 'c', 't', 'e', 'd', ']']);
    lemma_not_contained(s, "password"@);
    lemma_not_contained(s, "passphrase"@);
    lemma_not_contained(s, "privatekey"@);
    lemma_not_contained(s, "secret"@);
    lemma_not_contained(s, "credential"@);
}

/// The words of a text in the log are the words of the text, each that is sensitive
/// hidden: none of them is sensitive. What stands in the log stands there as it is once
/// it is cleaned again.
pub proof fn sanitizing_settles(value: Seq<char>)
    ensures
        text::words(sanitized(value), false) == shown_words(value),
        forall|i: int|
            0 <= i < text::words(sanitized(value), false).len() ==> !is_sensitive(
                #[trigger] text::words(sanitized(value), false)[i],
            ),
        sanitized(sanitized(value)) == sanitized(value),
{
    reveal_strlit(" ");
    let shown = shown_words(value);
    lemma_mark_is_safe();
    assert forall|i: int| 0 <= i < shown.len() implies text::is_word(#[trigger] shown[i], false)
        && !is_sensitive(shown[i]) by {
        text::lemma_word_at(value, false, i);
    }
    assert(" "@ =~= seq![' ']);
    text::joined_words_come_back(shown, ' ', false);
    assert(shown_words(sanitized(value)) =~= shown);
}

/// A log keeps what is at most seven days old and at most ten mebibytes in all: a file that
/// is older is deleted, one that is not is deleted only while there is too much, and what
/// is left once all were looked at is not too much.
pub proof fn logs_keep_what_is_recent(
    files: Seq<LogFile>,
    order: Seq<usize>,
    i: int,
    now: u128,
    total: int,
    k: int,
)
    requires
        0 <= i <= k < order.len(),
        forall|j: int| 0 <= j < order.len() ==> 0 <= #[trigger] order[j] < files.len(),
    ensures
        now > files[order[k] as int].modified + 7 * 24 * 60 * 60 * 1_000_000_000 ==> outdated(
            files,
            order,
            i,
            now,
            total,
        ).contains(order[k]),
        i == k && total > 10 * 1024 * 1024 ==> outdated(files, order, i, now, total).contains(
            order[k],
        ),
        total <= 10 * 1024 * 1024 && outdated(files, order, i, now, total).contains(order[k])
            && (forall|j: int|
            i <= j < order.len() && j != k ==> #[trigger] order[j] != order[k]) ==> now
            > files[order[k] as int].modified + 7 * 24 * 60 * 60 * 1_000_000_000,
    decreases order.len() - i,
{
    let file = files[order[i] as int];
    let rest = if total > file.size {
        total - file.size
    } else {
        0
    };
    let gone = outdated(files, order, i, now, total);
    let age = if now > file.modified {
        now - file.modified
    } else {
        0
    };
    let dropped = age > RETENTION_NANOS || total > MAX_TOTAL_BYTES;
    let left = if dropped {
        rest
    } else {
        total
    };
    let later = outdated(files, order, i + 1, now, left);
    if dropped {
        assert(gone =~= seq![order[i]] + later);
        assert(gone[0] == order[i]);
    }
    if i < k {
        logs_keep_what_is_recent(files, order, i + 1, now, left, k);
        if later.contains(order[k]) {
            let m = choose|m: int| 0 <= m < later.len() && later[m] == order[k];
            if dropped {
                assert(gone[m + 1] == order[k]);
            }
        }
        if gone.contains(order[k]) && order[i] != order[k] {
            let m = choose|m: int| 0 <= m < gone.len() && gone[m] == order[k];
            if dropped {
                assert(later[m - 1] == order[k]);
            }
        }
    } else if total <= 10 * 1024 * 1024 && !dropped && gone.contains(order[k]) && (forall|j: int|
        i <= j < order.len() && j != k ==> #[trigger] order[j] != order[k]) {
        lemma_deleted_later(files, order, i + 1, now, left, order[k]);
    }
}

/// What is deleted from a place on stands there.
proof fn lemma_deleted_later(
    files: Seq<LogFile>,
    order: Seq<usize>,
    i: int,
    now: u128,
    total: int,
    file: usize,
)
    requires
        0 <= i,
        outdated(files, order, i, now, total).contains(file),
    ensures
        exists|j: int| i <= j < order.len() && #[trigger] order[j] == file,
    decreases order.len() - i,
{
    let gone = outdated(files, order, i, now, total);
    if i < order.len() {
        let one = files[order[i] as int];
        let age = if now > one.modified {
            now - one.modified
        } else {
            0
        };
        let dropped = age > RETENTION_NANOS || total > MAX_TOTAL_BYTES;
        let left = if !dropped {
            total
        } else if total > one.size {
            total - one.size
        } else {
            0
        };
        let later = outdated(files, order, i + 1, now, left);
        if order[i] != file {
            let m = choose|m: int| 0 <= m < gone.len() && gone[m] == file;
            if dropped {
                assert(gone =~= seq![order[i]] + later);
                assert(later[m - 1] == file);
            }
            lemma_deleted_later(files, order, i + 1, now, left, file);
            let j = choose|j: int| i + 1 <= j < order.len() && #[trigger] order[j] == file;
            assert(order[j] == file);
        }
    }
}

/// An entry of the log is a line that begins with the time and tells the event, the code
/// and the details, without what is sensitive.
pub proof fn log_entries_tell_what_happened(
    now: Seq<char>,
    event: Seq<char>,
    code: Option<Seq<char>>,
    details: Seq<char>,
)
    ensures
        ({
            let entry = log_entry(now, event, code, details);
            &&& now.is_prefix_of(entry)
            &&& (sanitized(details) + "\n"@).is_suffix_of(entry)
            &&& entry.last() == '\n'
            &&& entry == now + " event="@ + sanitized(event) + " code="@ + match code {
                Some(code) => code,
                None => "-"@,
            } + " details="@ + sanitized(details) + "\n"@
        }),
{
    reveal_strlit("\n");
    let entry = log_entry(now, event, code, details);
    let tail = sanitized(details) + "\n"@;
    assert(entry.take(now.len() as int) =~= now);
    assert(entry.skip(entry.len() - tail.len()) =~= tail);
}

/// A word is sensitive if and only if it holds one of five names, in whatever case; a word
/// that is not is logged as it is.
pub proof fn sensitive_words_are_hidden(word: Seq<char>)
    ensures
        ({
            let plain = text::lower(word);
            let named = text::contains_text(plain, "password"@) || text::contains_text(
                plain,
                "passphrase"@,
            ) || text::contains_text(plain, "privatekey"@) || text::contains_text(plain, "secret"@)
                || text::contains_text(plain, "credential"@);
            shown_word(word) == if named {
                "[REDACTED]"@
            } else {
                word
            }
        }),
{
}

/// What is exported is each log in its order, without what is sensitive.
pub proof fn exported_logs_are_put_together(files: Seq<Seq<char>>, next: Seq<char>)
    ensures
        exported(Seq::empty()).len() == 0,
        exported(files.push(next)) == exported(files) + sanitized(next),
{
    assert(files.push(next).drop_last() =~= files);
}

/// The size of all logs is the sum of their sizes, and a log is named by its day.
pub proof fn log_sizes_add_up(files: Seq<LogFile>, next: LogFile, day: Seq<char>, other: Seq<char>)
    ensures
        total_size(Seq::empty()) == 0,
        total_size(files.push(next)) == total_size(files) + next.size,
        day != other ==> log_file_name(day) != log_file_name(other),
{
    assert(files.push(next).drop_last() =~= files);
    let (a, b) = (log_file_name(day), log_file_name(other));
    let n = "terminalt-"@.len() as int;
    if a == b {
        assert(a.len() == n + day.len() + ".log"@.len());
        assert(b.len() == n + other.len() + ".log"@.len());
        assert(a.subrange(n, n + day.len()) =~= day);
        assert(b.subrange(n, n + other.len()) =~= other);
    }
}

} // verus!

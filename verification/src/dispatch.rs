//! OperationDispatcher: the decisions of one invocation.
//!
//! A remove walks its targets one by one; for each target the caller reports
//! what it found on disk (file, directory, missing) and this module decides
//! what happens: report and continue, remove an empty directory directly,
//! delete permanently, or move into the holding area. The move into the
//! holding area itself is decided by `trash_insert`, which resolves the name
//! against the ledger and records the entry; the caller then performs the
//! filesystem move. Tidy asks for confirmation first; the acceptance rule for
//! the answer lives here too.

use vstd::prelude::*;

use crate::conflict::{candidate_spec, is_first_free, reserve, seq_views};
use crate::pathname::{file_name_of, file_name_spec};
use crate::store::{names_of, TrashEntry, TrashError, TrashStore};

verus! {

/// What a target path turned out to be on disk.
#[derive(Clone, Copy, Debug, PartialEq, Eq, Structural)]
pub enum TargetKind {
    File,
    Directory,
    Missing,
}

/// What a remove does with one target.
#[derive(Clone, Copy, Debug, PartialEq, Eq, Structural)]
pub enum RemoveAction {
    /// The target does not exist: report and continue.
    ReportMissing,
    /// The empty-directory flag is set on a directory: remove the directory
    /// itself, without the holding area.
    RemoveEmptyDir,
    /// A directory without permission to recurse: report "is a directory"
    /// and leave it untouched.
    ReportIsDirectory,
    /// A directory without permission to recurse, under force: skip without
    /// a report, still leaving it untouched.
    SkipSilently,
    /// Permanently delete the file, bypassing the holding area.
    DeleteFile,
    /// Permanently delete the directory and its contents, bypassing the
    /// holding area.
    DeleteDirRecursive,
    /// Move the target into the holding area.
    MoveToTrash,
}

/// The remove decision table. Missing targets are reported; the
/// empty-directory flag handles directories first; a directory may only be
/// removed further when recursion is permitted, and force only silences the
/// report, never overrides the skip; the permanent flag bypasses the holding
/// area; everything else is moved into the holding area.
pub open spec fn decide_remove_spec(
    kind: TargetKind,
    recursive: bool,
    force: bool,
    dir: bool,
    permanent: bool,
) -> RemoveAction {
    if kind is Missing {
        RemoveAction::ReportMissing
    } else if kind is Directory && dir {
        RemoveAction::RemoveEmptyDir
    } else if kind is Directory && !recursive {
        if force {
            RemoveAction::SkipSilently
        } else {
            RemoveAction::ReportIsDirectory
        }
    } else if kind is Directory {
        if permanent {
            RemoveAction::DeleteDirRecursive
        } else {
            RemoveAction::MoveToTrash
        }
    } else {
        if permanent {
            RemoveAction::DeleteFile
        } else {
            RemoveAction::MoveToTrash
        }
    }
}

/// Decide what a remove does with one target.
pub fn decide_remove(
    kind: TargetKind,
    recursive: bool,
    force: bool,
    dir: bool,
    permanent: bool,
) -> (a: RemoveAction)
    ensures
        a == decide_remove_spec(kind, recursive, force, dir, permanent),
{
    match kind {
        TargetKind::Missing => RemoveAction::ReportMissing,
        TargetKind::Directory => {
            if dir {
                RemoveAction::RemoveEmptyDir
            } else if !recursive {
                if force {
                    RemoveAction::SkipSilently
                } else {
                    RemoveAction::ReportIsDirectory
                }
            } else if permanent {
                RemoveAction::DeleteDirRecursive
            } else {
                RemoveAction::MoveToTrash
            }
        },
        TargetKind::File => {
            if permanent {
                RemoveAction::DeleteFile
            } else {
                RemoveAction::MoveToTrash
            }
        },
    }
}

/// Move `path` into the holding area ledger at time `now`: take its filename,
/// resolve it against the held names (`stamp` seeds the renamed form), and
/// record the entry. A path without a filename is refused and the ledger
/// stays unchanged; otherwise exactly one entry is appended, stored under the
/// resolved name — the filename itself when it is free — with the path as its
/// original location, and the resolved name is handed back. The caller then
/// performs the actual move under that name.
pub fn trash_insert(store: &mut TrashStore, path: &String, now: i64, stamp: &String) -> (r: Result<
    String,
    TrashError,
>)
    requires
        old(store).wf(),
        old(store)@.len() + 2 <= usize::MAX,
    ensures
        final(store).wf(),
        file_name_spec(path@).len() == 0 ==> r == Err::<String, TrashError>(
            TrashError::InvalidName,
        ) && final(store)@ == old(store)@,
        file_name_spec(path@).len() > 0 ==> (r matches Ok(name) && {
            &&& exists|k: nat|
                is_first_free(file_name_spec(path@), stamp@, names_of(old(store)@), k) && name@
                    == candidate_spec(file_name_spec(path@), stamp@, k)
            &&& !names_of(old(store)@).contains(name@)
            &&& (!names_of(old(store)@).contains(file_name_spec(path@)) ==> name@
                == file_name_spec(path@))
            &&& final(store)@.len() == old(store)@.len() + 1
            &&& final(store)@.subrange(0, old(store)@.len() as int) == old(store)@
            &&& final(store)@.last().name@ == name@
            &&& final(store)@.last().original_location@ == path@
            &&& final(store)@.last().deleted_at == now
        }),
{
    let desired = match file_name_of(path.as_str()) {
        None => {
            return Err(TrashError::InvalidName);
        },
        Some(n) => n,
    };
    let held = store.names_vec();
    proof {
        assert(held@.len() == seq_views(held@).len());
        assert(held@.len() == old(store)@.len());
    }
    let resolved = reserve(&desired, stamp, &held);
    let entry = TrashEntry {
        name: resolved.clone(),
        original_location: path.clone(),
        deleted_at: now,
    };
    store.insert(entry);
    proof {
        assert(final(store)@.subrange(0, old(store)@.len() as int) =~= old(store)@);
    }
    Ok(resolved)
}

/// Whether `c` is blank for the purposes of reading a confirmation answer.
pub open spec fn is_blank_char(c: char) -> bool {
    c == ' ' || c == '\t' || c == '\n' || c == '\r'
}

/// `s` without leading blanks.
pub open spec fn trim_front(s: Seq<char>) -> Seq<char>
    decreases s.len(),
{
    if s.len() == 0 {
        s
    } else if is_blank_char(s[0]) {
        trim_front(s.subrange(1, s.len() as int))
    } else {
        s
    }
}

/// `s` without trailing blanks.
pub open spec fn trim_back(s: Seq<char>) -> Seq<char>
    decreases s.len(),
{
    if s.len() == 0 {
        s
    } else if is_blank_char(s.last()) {
        trim_back(s.drop_last())
    } else {
        s
    }
}

/// `s` without surrounding blanks.
pub open spec fn trim_spec(s: Seq<char>) -> Seq<char> {
    trim_back(trim_front(s))
}

/// `c` with an ASCII capital letter turned lower-case.
pub open spec fn lower_char(c: char) -> char {
    if 65 <= c as u32 && c as u32 <= 90 {
        ((c as u32 + 32) as u8) as char
    } else {
        c
    }
}

/// Whether a confirmation answer accepts the tidy: the answer, surrounding
/// blanks ignored and ASCII capitals lowered, reads `yes`. Anything else
/// cancels.
pub open spec fn affirmative_spec(s: Seq<char>) -> bool {
    let t = trim_spec(s);
    &&& t.len() == 3
    &&& lower_char(t[0]) == 'y'
    &&& lower_char(t[1]) == 'e'
    &&& lower_char(t[2]) == 's'
}

/// When the first `a` characters are blank and the next one is not, trimming
/// the front removes exactly them.
proof fn lemma_trim_front_at(s: Seq<char>, a: int)
    requires
        0 <= a <= s.len(),
        forall|j: int| 0 <= j < a ==> is_blank_char(s[j]),
        a < s.len() ==> !is_blank_char(s[a]),
    ensures
        trim_front(s) == s.subrange(a, s.len() as int),
    decreases a,
{
    if a == 0 {
        assert(s.subrange(0, s.len() as int) =~= s);
    } else {
        let t = s.subrange(1, s.len() as int);
        lemma_trim_front_at(t, a - 1);
        assert(t.subrange(a - 1, t.len() as int) =~= s.subrange(a, s.len() as int));
    }
}

/// When the characters from `b` on are blank and the one before is not,
/// trimming the back removes exactly them.
proof fn lemma_trim_back_at(s: Seq<char>, b: int)
    requires
        0 <= b <= s.len(),
        forall|j: int| b <= j < s.len() ==> is_blank_char(s[j]),
        b > 0 ==> !is_blank_char(s[b - 1]),
    ensures
        trim_back(s) == s.subrange(0, b),
    decreases s.len(),
{
    if b == s.len() {
        assert(s.subrange(0, b) =~= s);
    } else {
        lemma_trim_back_at(s.drop_last(), b);
        assert(s.drop_last().subrange(0, b) =~= s.subrange(0, b));
    }
}

/// Whether `c` is blank.
fn is_blank(c: char) -> (r: bool)
    ensures
        r == is_blank_char(c),
{
    c == ' ' || c == '\t' || c == '\n' || c == '\r'
}

/// `c` with an ASCII capital letter turned lower-case.
fn to_lower(c: char) -> (r: char)
    ensures
        r == lower_char(c),
{
    let u = c as u32;
    if 65 <= u && u <= 90 {
        ((u + 32) as u8) as char
    } else {
        c
    }
}

/// Read a confirmation answer for the tidy: accepted exactly when it reads
/// `yes` once surrounding blanks are ignored and ASCII capitals lowered.
pub fn confirm_tidy(input: &str) -> (r: bool)
    ensures
        r == affirmative_spec(input@),
{
    let n = input.unicode_len();
    let mut a: usize = 0;
    while a < n && is_blank(input.get_char(a))
        invariant
            a <= n,
            n == input@.len(),
            forall|j: int| 0 <= j < a ==> is_blank_char(input@[j]),
        decreases n - a,
    {
        a = a + 1;
    }
    let mut b: usize = n;
    while b > a && is_blank(input.get_char(b - 1))
        invariant
            a <= b <= n,
            n == input@.len(),
            forall|j: int| b <= j < n ==> is_blank_char(input@[j]),
        decreases b,
    {
        b = b - 1;
    }
    proof {
        lemma_trim_front_at(input@, a as int);
        let f = input@.subrange(a as int, n as int);
        lemma_trim_back_at(f, b - a);
        assert(f.subrange(0, b - a) =~= input@.subrange(a as int, b as int));
        assert(trim_spec(input@) == input@.subrange(a as int, b as int));
    }
    if b - a == 3 {
        let c0 = to_lower(input.get_char(a));
        let c1 = to_lower(input.get_char(a + 1));
        let c2 = to_lower(input.get_char(a + 2));
        proof {
            assert(trim_spec(input@)[0] == input@[a as int]);
            assert(trim_spec(input@)[1] == input@[a + 1]);
            assert(trim_spec(input@)[2] == input@[a + 2]);
        }
        c0 == 'y' && c1 == 'e' && c2 == 's'
    } else {
        false
    }
}

/// One row of the listing shown for the holding area: the stored name, the
/// original location, and the deletion time already rendered as text.
pub struct List {
    pub name: String,
    pub original_location: String,
    pub deleted_at: String,
}

impl List {
    /// Build one row.
    pub fn new(name: String, original_location: String, deleted_at: String) -> (r: Self)
        ensures
            r.name == name,
            r.original_location == original_location,
            r.deleted_at == deleted_at,
    {
        Self { name, original_location, deleted_at }
    }
}

/// Build the listing rows for `entries`, one per entry in order, with
/// `times[i]` as the rendered deletion time of `entries[i]`.
pub fn build_rows(entries: &Vec<TrashEntry>, times: &Vec<String>) -> (rows: Vec<List>)
    requires
        entries@.len() == times@.len(),
    ensures
        rows@.len() == entries@.len(),
        forall|i: int| 0 <= i < rows@.len() ==> {
            &&& (#[trigger] rows@[i]).name@ == entries@[i].name@
            &&& rows@[i].original_location@ == entries@[i].original_location@
            &&& rows@[i].deleted_at@ == times@[i]@
        },
{
    let mut rows: Vec<List> = Vec::new();
    let mut i: usize = 0;
    while i < entries.len()
        invariant
            i <= entries@.len(),
            entries@.len() == times@.len(),
            rows@.len() == i,
            forall|j: int| 0 <= j < i ==> {
                &&& (#[trigger] rows@[j]).name@ == entries@[j].name@
                &&& rows@[j].original_location@ == entries@[j].original_location@
                &&& rows@[j].deleted_at@ == times@[j]@
            },
        decreases entries@.len() - i,
    {
        rows.push(
            List::new(
                entries[i].name.clone(),
                entries[i].original_location.clone(),
                times[i].clone(),
            ),
        );
        i = i + 1;
    }
    rows
}

} // verus!

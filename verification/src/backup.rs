//! Backups of the hosts file: how a backup is called, and which backups go
//! when only the newest are kept.
use crate::text::{chars_of, decimal_chars, decimal_text, extend_chars, string_of};
use vstd::prelude::*;

verus! {

/// The name of the backup taken at `stamp`.
pub open spec fn backup_name(stamp: Seq<char>) -> Seq<char> {
    "hosts_"@ + stamp + ".bak"@
}

/// The name of the backup taken at `stamp`.
pub fn backup_file_name(stamp: &str) -> (name: String)
    ensures
        name@ == backup_name(stamp@),
{
    let mut chars = chars_of("hosts_");
    extend_chars(&mut chars, &chars_of(stamp));
    extend_chars(&mut chars, &chars_of(".bak"));
    string_of(&chars)
}

/// A number in at least two digits.
pub open spec fn two_digits(n: nat) -> Seq<char> {
    if n < 10 {
        seq!['0'] + decimal_text(n)
    } else {
        decimal_text(n)
    }
}

/// A number in at least four digits.
pub open spec fn four_digits(n: nat) -> Seq<char> {
    if n < 100 {
        seq!['0', '0'] + two_digits(n)
    } else if n < 1000 {
        seq!['0'] + decimal_text(n)
    } else {
        decimal_text(n)
    }
}

/// A year in at least four digits, with a minus sign before the common era.
pub open spec fn year_text(year: int) -> Seq<char> {
    if year < 0 {
        seq!['-'] + four_digits((-year) as nat)
    } else {
        four_digits(year as nat)
    }
}

/// A moment in the machine's local time.
#[derive(Clone, Copy, Debug, PartialEq, Eq)]
pub struct Moment {
    pub year: i32,
    pub month: u32,
    pub day: u32,
    pub hour: u32,
    pub minute: u32,
    pub second: u32,
}

/// The stamp of a moment: year, month and day, an underscore, then hour,
/// minute and second, as in `20240307_090501`.
pub open spec fn stamp_text(at: Moment) -> Seq<char> {
    year_text(at.year as int) + two_digits(at.month as nat) + two_digits(at.day as nat) + seq!['_']
        + two_digits(at.hour as nat) + two_digits(at.minute as nat) + two_digits(
        at.second as nat,
    )
}

fn push_two_digits(out: &mut Vec<char>, n: u32)
    ensures
        final(out)@ == old(out)@ + two_digits(n as nat),
{
    if n < 10 {
        out.push('0');
    }
    extend_chars(out, &decimal_chars(n as u64));
    assert(out@ =~= old(out)@ + two_digits(n as nat));
}

fn push_year(out: &mut Vec<char>, year: i32)
    ensures
        final(out)@ == old(out)@ + year_text(year as int),
{
    let size: u64 = if year < 0 {
        out.push('-');
        (-(year as i64)) as u64
    } else {
        year as u64
    };
    if size < 10 {
        out.push('0');
        out.push('0');
        out.push('0');
    } else if size < 100 {
        out.push('0');
        out.push('0');
    } else if size < 1000 {
        out.push('0');
    }
    extend_chars(out, &decimal_chars(size));
    assert(out@ =~= old(out)@ + year_text(year as int));
}

/// The stamp of a moment.
pub fn backup_stamp(at: Moment) -> (stamp: String)
    ensures
        stamp@ == stamp_text(at),
{
    let mut out: Vec<char> = Vec::new();
    push_year(&mut out, at.year);
    push_two_digits(&mut out, at.month);
    push_two_digits(&mut out, at.day);
    out.push('_');
    push_two_digits(&mut out, at.hour);
    push_two_digits(&mut out, at.minute);
    push_two_digits(&mut out, at.second);
    assert(out@ =~= stamp_text(at));
    string_of(&out)
}

/// `chrono::Local::now`, with the fields that `Datelike` and `Timelike` read
/// from the date and time it gives. Nothing is claimed of them: they change
/// from call to call.
#[verifier::external_body]
fn local_now() -> (at: Moment) {
    let now = chrono::Local::now();
    Moment {
        year: chrono::Datelike::year(&now),
        month: chrono::Datelike::month(&now),
        day: chrono::Datelike::day(&now),
        hour: chrono::Timelike::hour(&now),
        minute: chrono::Timelike::minute(&now),
        second: chrono::Timelike::second(&now),
    }
}

/// The name for a backup taken now: the name of the backup at the stamp of
/// some moment.
pub fn next_backup_name() -> (name: String)
    ensures
        exists|at: Moment| name@ == backup_name(#[trigger] stamp_text(at)),
{
    let at = local_now();
    let stamp = backup_stamp(at);
    let name = backup_file_name(stamp.as_str());
    assert(name@ == backup_name(stamp_text(at)));
    name
}

/// Index of the last `.` of a file name, or -1.
pub open spec fn last_dot(name: Seq<char>, j: int) -> int
    decreases j,
{
    if 0 < j <= name.len() {
        if name[j - 1] == '.' {
            j - 1
        } else {
            last_dot(name, j - 1)
        }
    } else {
        -1
    }
}

/// The extension of a file name: what follows its last `.`, unless that is
/// the first character of the name.
pub open spec fn extension(name: Seq<char>) -> Option<Seq<char>> {
    let dot = last_dot(name, name.len() as int);
    if dot > 0 {
        Some(name.subrange(dot + 1, name.len() as int))
    } else {
        None
    }
}

/// Whether a file is a backup: its extension is `bak`.
pub open spec fn is_backup(name: Seq<char>) -> bool {
    extension(name) == Some("bak"@)
}

/// Whether a file is a backup: its extension is `bak`.
pub fn is_backup_name(name: &str) -> (b: bool)
    ensures
        b == is_backup(name@),
{
    let chars = chars_of(name);
    let mut j: usize = chars.len();
    while j > 0 && chars[j - 1] != '.'
        invariant
            j <= chars.len(),
            last_dot(chars@, j as int) == last_dot(chars@, chars@.len() as int),
        decreases j,
    {
        j -= 1;
    }
    if j <= 1 {
        return false;
    }
    let ext = crate::text::slice_of(&chars, j, chars.len());
    crate::text::same_text(&ext, &chars_of("bak"))
}

/// A file in the backup directory, with the time at which it was last
/// modified: a count of time units since a fixed moment, the finer the
/// better (0 when the time is not known).
#[derive(Debug)]
pub struct BackupFile {
    pub name: String,
    pub modified: u64,
}

/// A file in the backup directory.
pub ghost struct Backup {
    pub name: Seq<char>,
    pub modified: u64,
}

impl View for BackupFile {
    type V = Backup;

    open spec fn view(&self) -> Backup {
        Backup { name: self.name@, modified: self.modified }
    }
}

pub open spec fn backups(v: Seq<BackupFile>) -> Seq<Backup> {
    v.map_values(|f: BackupFile| f@)
}

/// `order` lists, each once, the positions of the backups among `files`.
pub open spec fn lists_backups(files: Seq<Backup>, order: Seq<usize>) -> bool {
    &&& forall|k: int|
        0 <= k < order.len() ==> (#[trigger] order[k]) < files.len() && is_backup(
            files[order[k] as int].name,
        )
    &&& forall|a: int, b: int|
        #![trigger order[a], order[b]]
        0 <= a < b < order.len() ==> order[a] != order[b]
    &&& forall|i: int|
        0 <= i < files.len() && is_backup((#[trigger] files[i]).name) ==> order.contains(i as usize)
}

/// Taken in this order the backups go from the newest to the oldest, and
/// backups of the same time keep the order in which they stand.
pub open spec fn newest_first(files: Seq<Backup>, order: Seq<usize>) -> bool {
    forall|a: int, b: int|
        #![trigger order[a], order[b]]
        0 <= a < b < order.len() ==> {
            &&& files[order[a] as int].modified >= files[order[b] as int].modified
            &&& files[order[a] as int].modified == files[order[b] as int].modified ==> order[a]
                < order[b]
        }
}

/// The positions of the backups among `files`, from the newest to the
/// oldest.
pub fn backups_newest_first(files: &Vec<BackupFile>) -> (order: Vec<usize>)
    ensures
        lists_backups(backups(files@), order@),
        newest_first(backups(files@), order@),
{
    let ghost all = backups(files@);
    let mut order: Vec<usize> = Vec::new();
    let mut k: usize = 0;
    while k < files.len()
        invariant
            k <= files.len(),
            all == backups(files@),
            newest_first(all, order@),
            forall|j: int|
                0 <= j < order@.len() ==> (#[trigger] order@[j]) < k && is_backup(
                    all[order@[j] as int].name,
                ),
            forall|a: int, b: int|
                #![trigger order@[a], order@[b]]
                0 <= a < b < order@.len() ==> order@[a] != order@[b],
            forall|i: int|
                0 <= i < k && is_backup((#[trigger] all[i]).name) ==> order@.contains(i as usize),
        decreases files.len() - k,
    {
        assert(all[k as int] == files@[k as int]@);
        if is_backup_name(files[k].name.as_str()) {
            let time = files[k].modified;
            let mut pos: usize = 0;
            while pos < order.len() && files[order[pos]].modified >= time
                invariant
                    pos <= order.len(),
                    k < files.len(),
                    all == backups(files@),
                    time == all[k as int].modified,
                    forall|j: int| 0 <= j < order@.len() ==> (#[trigger] order@[j]) < k,
                    forall|j: int|
                        0 <= j < pos ==> all[#[trigger] order@[j] as int].modified >= time,
                decreases order.len() - pos,
            {
                assert(all[order@[pos as int] as int] == files@[order@[pos as int] as int]@);
                pos += 1;
            }
            proof {
                if pos < order@.len() {
                    assert(all[order@[pos as int] as int] == files@[order@[pos as int] as int]@);
                }
            }
            let ghost before = order@;
            order.insert(pos, k);
            proof {
                let after = order@;
                assert forall|a: int, b: int|
                    #![trigger after[a], after[b]]
                    0 <= a < b < after.len() implies {
                    &&& after[a] != after[b]
                    &&& all[after[a] as int].modified >= all[after[b] as int].modified
                    &&& all[after[a] as int].modified == all[after[b] as int].modified ==> after[a]
                        < after[b]
                } by {
                    assert(after[pos as int] == k);
                    if b == pos {
                        assert(after[a] == before[a]);
                        assert(before[a] < k);
                    } else if a == pos {
                        assert(after[b] == before[b - 1]);
                        assert(before[b - 1] < k);
                        assert(all[before[pos as int] as int].modified < time);
                        if b - 1 > pos {
                            assert(all[before[pos as int] as int].modified >= all[before[b
                                - 1] as int].modified);
                        }
                    } else {
                        let a0 = if a < pos {
                            a
                        } else {
                            a - 1
                        };
                        let b0 = if b < pos {
                            b
                        } else {
                            b - 1
                        };
                        assert(after[a] == before[a0] && after[b] == before[b0]);
                    }
                }
                assert forall|j: int| 0 <= j < after.len() implies (#[trigger] after[j]) < k + 1
                    && is_backup(all[after[j] as int].name) by {
                    if j < pos {
                        assert(after[j] == before[j]);
                    } else if j > pos {
                        assert(after[j] == before[j - 1]);
                    }
                }
                assert forall|i: int|
                    0 <= i < k + 1 && is_backup((#[trigger] all[i]).name) implies after.contains(
                    i as usize,
                ) by {
                    if i < k {
                        assert(before.contains(i as usize));
                        let j = choose|j: int| 0 <= j < before.len() && before[j] == i as usize;
                        if j < pos {
                            assert(after[j] == i as usize);
                        } else {
                            assert(after[j + 1] == i as usize);
                        }
                    } else {
                        assert(after[pos as int] == i as usize);
                    }
                }
            }
        }
        k += 1;
    }
    order
}

/// The names of the backups to remove when only the `keep_count` newest
/// are kept: the backups from the newest to the oldest, without the first
/// `keep_count`.
pub fn backups_to_prune(files: &Vec<BackupFile>, keep_count: usize) -> (names: Vec<String>)
    ensures
        exists|order: Seq<usize>|
            {
                &&& lists_backups(backups(files@), order)
                &&& newest_first(backups(files@), order)
                &&& names@.len() == if order.len() > keep_count {
                    order.len() - keep_count
                } else {
                    0
                }
                &&& forall|k: int|
                    0 <= k < names@.len() ==> (#[trigger] names@[k])@ == files@[order[keep_count
                        + k] as int].name@
            },
{
    let order = backups_newest_first(files);
    let mut names: Vec<String> = Vec::new();
    if keep_count >= order.len() {
        return names;
    }
    let mut k: usize = keep_count;
    while k < order.len()
        invariant
            lists_backups(backups(files@), order@),
            keep_count <= k <= order.len(),
            names@.len() == k - keep_count,
            forall|j: int|
                0 <= j < names@.len() ==> (#[trigger] names@[j])@ == files@[order@[keep_count
                    + j] as int].name@,
        decreases order.len() - k,
    {
        let at = order[k];
        assert(at < files.len());
        let name = files[at].name.clone();
        names.push(name);
        assert(names@[k - keep_count] == name);
        k += 1;
    }
    names
}

/// Keeping the newest. Whatever is pruned is a backup that is no newer than
/// any backup that is kept, and at most `keep_count` backups are kept.
pub proof fn law_prune_keeps_newest(files: Seq<Backup>, order: Seq<usize>, keep_count: int, k: int, p: int)
    requires
        lists_backups(files, order),
        newest_first(files, order),
        0 <= k < keep_count <= p < order.len(),
    ensures
        files[order[k] as int].modified >= files[order[p] as int].modified,
        is_backup(files[order[p] as int].name),
{
}

} // verus!

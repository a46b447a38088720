//! The words around a directory listing: the window title, the line that
//! counts what the directory holds, and Russian plural forms.

use vstd::prelude::*;

use crate::fs::{Entry, Kind};
use crate::path_ops::{file_name_of, path_file_name};
use crate::text::{decimal, decimal_string};

verus! {

/// Which Russian plural form a count takes: 0 for "one" (1, 21, 101), 1 for
/// "few" (2–4, 22–24), 2 for "many" (0, 5–20, 25–30, and 11–14 in any
/// hundred).
pub open spec fn plural_form(count: nat) -> int {
    let tens = count % 100;
    if 11 <= tens && tens <= 14 {
        2
    } else if count % 10 == 1 {
        0
    } else if 2 <= count % 10 && count % 10 <= 4 {
        1
    } else {
        2
    }
}

/// The word that agrees with the count.
pub fn plural<'a>(count: usize, one: &'a str, few: &'a str, many: &'a str) -> (r: &'a str)
    ensures
        r == (if plural_form(count as nat) == 0 {
            one
        } else if plural_form(count as nat) == 1 {
            few
        } else {
            many
        }),
{
    let tens = count % 100;
    if 11 <= tens && tens <= 14 {
        return many;
    }
    let last = count % 10;
    if last == 1 {
        one
    } else if 2 <= last && last <= 4 {
        few
    } else {
        many
    }
}

/// The title of the window: the name of the directory, or the whole path for
/// the root.
pub fn window_title(path: &str) -> (r: String)
    ensures
        r@ == match path_file_name(path@) {
            Some(n) => n,
            None => path@,
        },
{
    match file_name_of(path) {
        Some(name) => name,
        None => path.to_owned(),
    }
}

/// How many of the entries are directories.
pub open spec fn dir_count(entries: Seq<Entry>) -> nat
    decreases entries.len(),
{
    if entries.len() == 0 {
        0
    } else {
        dir_count(entries.drop_last()) + if entries.last().kind == Kind::Directory { 1nat } else { 0nat }
    }
}

/// The total size of the entries that are not directories.
pub open spec fn file_bytes(entries: Seq<Entry>) -> nat
    decreases entries.len(),
{
    if entries.len() == 0 {
        0
    } else {
        file_bytes(entries.drop_last()) + if entries.last().kind == Kind::Directory { 0nat } else {
            entries.last().size as nat
        }
    }
}

proof fn lemma_counts_bounded(entries: Seq<Entry>)
    ensures
        dir_count(entries) <= entries.len(),
        file_bytes(entries) <= entries.len() * (u64::MAX as nat),
    decreases entries.len(),
{
    if entries.len() > 0 {
        lemma_counts_bounded(entries.drop_last());
        assert((entries.len() - 1) * (u64::MAX as nat) + u64::MAX as nat == entries.len() * (u64::MAX as nat))
            by (nonlinear_arith);
    }
}

/// What a listing holds: directories, other entries, and the bytes of the
/// latter.
#[derive(Debug, Clone, Copy, PartialEq, Eq)]
pub struct ListingCounts {
    pub dirs: usize,
    pub files: usize,
    pub bytes: u128,
}

/// Counts the directories and the files of a listing and adds up the sizes
/// of the files.
pub fn count_listing(entries: &[Entry]) -> (r: ListingCounts)
    ensures
        r.dirs == dir_count(entries@),
        r.files == entries@.len() - dir_count(entries@),
        r.bytes == file_bytes(entries@),
{
    let mut dirs: usize = 0;
    let mut bytes: u128 = 0;
    let mut i: usize = 0;
    while i < entries.len()
        invariant
            i <= entries@.len(),
            dirs == dir_count(entries@.take(i as int)),
            bytes == file_bytes(entries@.take(i as int)),
        decreases entries@.len() - i,
    {
        let ghost pre = entries@.take(i + 1);
        assert(pre.drop_last() =~= entries@.take(i as int));
        assert(pre.last() == entries@[i as int]);
        proof {
            lemma_counts_bounded(pre);
            assert(i + 1 <= usize::MAX);
            assert((i + 1) * (u64::MAX as nat) <= (usize::MAX as nat) * (u64::MAX as nat)) by (nonlinear_arith)
                requires
                    i + 1 <= usize::MAX,
            ;
            assert((usize::MAX as nat) * (u64::MAX as nat) <= u128::MAX) by (nonlinear_arith)
                requires
                    usize::MAX <= u64::MAX,
            ;
        }
        if entries[i].kind == Kind::Directory {
            dirs = dirs + 1;
        } else {
            bytes = bytes + entries[i].size as u128;
        }
        i = i + 1;
    }
    assert(entries@.take(entries@.len() as int) =~= entries@);
    proof {
        lemma_counts_bounded(entries@);
    }
    ListingCounts { dirs, files: entries.len() - dirs, bytes }
}

/// The word of a count of directories.
pub open spec fn folders_word(n: nat) -> Seq<char> {
    if plural_form(n) == 0 {
        "папка"@
    } else if plural_form(n) == 1 {
        "папки"@
    } else {
        "папок"@
    }
}

/// The word of a count of files.
pub open spec fn files_word(n: nat) -> Seq<char> {
    if plural_form(n) == 0 {
        "файл"@
    } else if plural_form(n) == 1 {
        "файла"@
    } else {
        "файлов"@
    }
}

/// The line under a listing: "Пусто" for an empty directory, else the counts
/// of folders and files with the words that agree, then the size of the
/// files as `size_text` writes it.
pub open spec fn summary_spec(entries: Seq<Entry>, size_text: Seq<char>) -> Seq<char> {
    if entries.len() == 0 {
        "Пусто"@
    } else {
        let d = dir_count(entries);
        let f = (entries.len() - d) as nat;
        decimal(d) + " "@ + folders_word(d) + ", "@ + decimal(f) + " "@ + files_word(f) + " · "@ + size_text
    }
}

/// The line under a listing, with the size of its files already written out.
pub fn summary(entries: &[Entry], size_text: &str) -> (r: String)
    ensures
        r@ == summary_spec(entries@, size_text@),
{
    if entries.len() == 0 {
        return "Пусто".to_owned();
    }
    let counts = count_listing(entries);
    let mut s = decimal_string(counts.dirs as u64);
    s.append(" ");
    s.append(plural(counts.dirs, "папка", "папки", "папок"));
    s.append(", ");
    let f = decimal_string(counts.files as u64);
    s.append(f.as_str());
    s.append(" ");
    s.append(plural(counts.files, "файл", "файла", "файлов"));
    s.append(" · ");
    s.append(size_text);
    s
}

} // verus!

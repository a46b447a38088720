//! Directory entries: kinds, icons and the order in which they are shown.

use vstd::prelude::*;

use crate::path_ops::{extension_of, file_name_of, path_extension, path_file_name};
use crate::text::{bytes_less, bytes_lt, chars_of, is_digit, lemma_bytes_lt_asym, lemma_bytes_lt_total, lemma_bytes_lt_trans, lowercase, to_lowercase};

use core::cmp::Ordering;

verus! {

/// What an entry is.
#[derive(Debug, Clone, Copy, PartialEq, Eq, Structural, PartialOrd, Ord)]
pub enum Kind {
    /// Directories come first, so Directory is the smallest.
    Directory,
    File,
    /// A link that leads nowhere.
    BrokenLink,
}

/// An entry of a directory.
#[derive(Debug, Clone, PartialEq)]
pub struct Entry {
    pub name: String,
    pub path: String,
    pub kind: Kind,
    /// Size in bytes. Zero for directories: their size is costly to count.
    pub size: u64,
    /// Modification time in nanoseconds from the Unix epoch.
    pub modified: Option<i128>,
    /// The name starts with a dot.
    pub hidden: bool,
    /// The entry is a symbolic link.
    pub symlink: bool,
}

/// The lower-case extension of an entry, none for a directory.
pub open spec fn entry_extension(e: Entry) -> Option<Seq<char>> {
    if e.kind == Kind::Directory {
        None
    } else {
        match path_extension(e.path@) {
            Some(x) => Some(lowercase(x)),
            None => None,
        }
    }
}

/// The icon name of the standard icon theme for a file with that extension.
pub open spec fn icon_for_extension(x: Seq<char>) -> Seq<char> {
    if x == "png"@ || x == "jpg"@ || x == "jpeg"@ || x == "gif"@ || x == "webp"@ || x == "svg"@
        || x == "bmp"@ || x == "avif"@ || x == "heic"@ {
        "image-x-generic"@
    } else if x == "mp4"@ || x == "mkv"@ || x == "webm"@ || x == "avi"@ || x == "mov"@ || x == "m4v"@ {
        "video-x-generic"@
    } else if x == "mp3"@ || x == "flac"@ || x == "ogg"@ || x == "opus"@ || x == "wav"@ || x == "m4a"@ {
        "audio-x-generic"@
    } else if x == "zip"@ || x == "tar"@ || x == "gz"@ || x == "xz"@ || x == "zst"@ || x == "bz2"@
        || x == "7z"@ || x == "rar"@ {
        "package-x-generic"@
    } else if x == "pdf"@ {
        "x-office-document"@
    } else if x == "rs"@ || x == "py"@ || x == "sh"@ || x == "c"@ || x == "cpp"@ || x == "h"@
        || x == "go"@ || x == "js"@ || x == "ts"@ || x == "lua"@ || x == "java"@ {
        "text-x-script"@
    } else if x == "toml"@ || x == "json"@ || x == "yaml"@ || x == "yml"@ || x == "ini"@
        || x == "conf"@ || x == "cfg"@ {
        "text-x-generic-template"@
    } else if x == "desktop"@ {
        "application-x-executable"@
    } else {
        "text-x-generic"@
    }
}

/// The icon name of an entry.
pub open spec fn entry_icon(e: Entry) -> Seq<char> {
    match e.kind {
        Kind::Directory => "folder"@,
        Kind::BrokenLink => "dialog-warning"@,
        Kind::File => match entry_extension(e) {
            Some(x) => icon_for_extension(x),
            None => "text-x-generic"@,
        },
    }
}

fn one_of(x: &Vec<char>, words: &[&str]) -> (r: bool)
    ensures
        r == exists|i: int| 0 <= i < words@.len() && x@ == (#[trigger] words@[i])@,
{
    let mut i: usize = 0;
    while i < words.len()
        invariant
            i <= words@.len(),
            forall|j: int| 0 <= j < i ==> x@ != (#[trigger] words@[j])@,
        decreases words@.len() - i,
    {
        let w = chars_of(words[i]);
        if crate::text::same_chars(x, &w) {
            return true;
        }
        i = i + 1;
    }
    false
}

fn icon_for(x: &Vec<char>) -> (r: &'static str)
    ensures
        r@ == icon_for_extension(x@),
{
    let images: [&str; 9] = ["png", "jpg", "jpeg", "gif", "webp", "svg", "bmp", "avif", "heic"];
    let videos: [&str; 6] = ["mp4", "mkv", "webm", "avi", "mov", "m4v"];
    let sounds: [&str; 6] = ["mp3", "flac", "ogg", "opus", "wav", "m4a"];
    let archives: [&str; 8] = ["zip", "tar", "gz", "xz", "zst", "bz2", "7z", "rar"];
    let scripts: [&str; 11] = ["rs", "py", "sh", "c", "cpp", "h", "go", "js", "ts", "lua", "java"];
    let configs: [&str; 7] = ["toml", "json", "yaml", "yml", "ini", "conf", "cfg"];
    let singles: [&str; 2] = ["pdf", "desktop"];
    let found_image = one_of(x, &images);
    let found_video = one_of(x, &videos);
    let found_sound = one_of(x, &sounds);
    let found_archive = one_of(x, &archives);
    let found_script = one_of(x, &scripts);
    let found_config = one_of(x, &configs);
    let pdf = chars_of("pdf");
    let desktop = chars_of("desktop");
    proof {
        assert(images@ =~= seq!["png", "jpg", "jpeg", "gif", "webp", "svg", "bmp", "avif", "heic"]);
        assert(videos@ =~= seq!["mp4", "mkv", "webm", "avi", "mov", "m4v"]);
        assert(sounds@ =~= seq!["mp3", "flac", "ogg", "opus", "wav", "m4a"]);
        assert(archives@ =~= seq!["zip", "tar", "gz", "xz", "zst", "bz2", "7z", "rar"]);
        assert(scripts@ =~= seq!["rs", "py", "sh", "c", "cpp", "h", "go", "js", "ts", "lua", "java"]);
        assert(configs@ =~= seq!["toml", "json", "yaml", "yml", "ini", "conf", "cfg"]);
        if x@ == "png"@ { assert(images@[0]@ == x@); }
        if x@ == "jpg"@ { assert(images@[1]@ == x@); }
        if x@ == "jpeg"@ { assert(images@[2]@ == x@); }
        if x@ == "gif"@ { assert(images@[3]@ == x@); }
        if x@ == "webp"@ { assert(images@[4]@ == x@); }
        if x@ == "svg"@ { assert(images@[5]@ == x@); }
        if x@ == "bmp"@ { assert(images@[6]@ == x@); }
        if x@ == "avif"@ { assert(images@[7]@ == x@); }
        if x@ == "heic"@ { assert(images@[8]@ == x@); }
        if x@ == "mp4"@ { assert(videos@[0]@ == x@); }
        if x@ == "mkv"@ { assert(videos@[1]@ == x@); }
        if x@ == "webm"@ { assert(videos@[2]@ == x@); }
        if x@ == "avi"@ { assert(videos@[3]@ == x@); }
        if x@ == "mov"@ { assert(videos@[4]@ == x@); }
        if x@ == "m4v"@ { assert(videos@[5]@ == x@); }
        if x@ == "mp3"@ { assert(sounds@[0]@ == x@); }
        if x@ == "flac"@ { assert(sounds@[1]@ == x@); }
        if x@ == "ogg"@ { assert(sounds@[2]@ == x@); }
        if x@ == "opus"@ { assert(sounds@[3]@ == x@); }
        if x@ == "wav"@ { assert(sounds@[4]@ == x@); }
        if x@ == "m4a"@ { assert(sounds@[5]@ == x@); }
        if x@ == "zip"@ { assert(archives@[0]@ == x@); }
        if x@ == "tar"@ { assert(archives@[1]@ == x@); }
        if x@ == "gz"@ { assert(archives@[2]@ == x@); }
        if x@ == "xz"@ { assert(archives@[3]@ == x@); }
        if x@ == "zst"@ { assert(archives@[4]@ == x@); }
        if x@ == "bz2"@ { assert(archives@[5]@ == x@); }
        if x@ == "7z"@ { assert(archives@[6]@ == x@); }
        if x@ == "rar"@ { assert(archives@[7]@ == x@); }
        if x@ == "rs"@ { assert(scripts@[0]@ == x@); }
        if x@ == "py"@ { assert(scripts@[1]@ == x@); }
        if x@ == "sh"@ { assert(scripts@[2]@ == x@); }
        if x@ == "c"@ { assert(scripts@[3]@ == x@); }
        if x@ == "cpp"@ { assert(scripts@[4]@ == x@); }
        if x@ == "h"@ { assert(scripts@[5]@ == x@); }
        if x@ == "go"@ { assert(scripts@[6]@ == x@); }
        if x@ == "js"@ { assert(scripts@[7]@ == x@); }
        if x@ == "ts"@ { assert(scripts@[8]@ == x@); }
        if x@ == "lua"@ { assert(scripts@[9]@ == x@); }
        if x@ == "java"@ { assert(scripts@[10]@ == x@); }
        if x@ == "toml"@ { assert(configs@[0]@ == x@); }
        if x@ == "json"@ { assert(configs@[1]@ == x@); }
        if x@ == "yaml"@ { assert(configs@[2]@ == x@); }
        if x@ == "yml"@ { assert(configs@[3]@ == x@); }
        if x@ == "ini"@ { assert(configs@[4]@ == x@); }
        if x@ == "conf"@ { assert(configs@[5]@ == x@); }
        if x@ == "cfg"@ { assert(configs@[6]@ == x@); }
    }
    if found_image {
        "image-x-generic"
    } else if found_video {
        "video-x-generic"
    } else if found_sound {
        "audio-x-generic"
    } else if found_archive {
        "package-x-generic"
    } else if crate::text::same_chars(x, &pdf) {
        "x-office-document"
    } else if found_script {
        "text-x-script"
    } else if found_config {
        "text-x-generic-template"
    } else if crate::text::same_chars(x, &desktop) {
        "application-x-executable"
    } else {
        "text-x-generic"
    }
}

impl Entry {
    pub fn is_dir(&self) -> (r: bool)
        ensures
            r == (self.kind == Kind::Directory),
    {
        self.kind == Kind::Directory
    }

    /// The extension in lower case, without the dot.
    pub fn extension(&self) -> (r: Option<String>)
        ensures
            match r {
                Some(x) => entry_extension(*self) == Some(x@),
                None => entry_extension(*self) is None,
            },
    {
        if self.is_dir() {
            return None;
        }
        match extension_of(self.path.as_str()) {
            Some(x) => Some(to_lowercase(x.as_str())),
            None => None,
        }
    }

    /// The icon name from the standard icon theme.
    pub fn icon_name(&self) -> (r: &'static str)
        ensures
            r@ == entry_icon(*self),
    {
        match self.kind {
            Kind::Directory => {
                return "folder";
            },
            Kind::BrokenLink => {
                return "dialog-warning";
            },
            Kind::File => {},
        }
        match self.extension() {
            Some(x) => {
                let chars = chars_of(x.as_str());
                icon_for(&chars)
            },
            None => "text-x-generic",
        }
    }
}

/// The field to sort by.
#[derive(Debug, Clone, Copy, PartialEq, Eq, Structural)]
pub enum SortBy {
    Name,
    Size,
    Modified,
    Kind,
}

impl Default for SortBy {
    fn default() -> (r: SortBy)
        ensures
            r == SortBy::Name,
    {
        SortBy::Name
    }
}

/// The sorting rule.
#[derive(Debug, Clone, Copy, PartialEq, Eq, Structural)]
pub struct Sort {
    pub by: SortBy,
    pub descending: bool,
}

impl Default for Sort {
    fn default() -> (r: Sort)
        ensures
            r == (Sort { by: SortBy::Name, descending: false }),
    {
        Sort { by: SortBy::Name, descending: false }
    }
}

impl Sort {
    /// Sorting by one field, ascending.
    pub fn by_field(field: SortBy) -> (r: Self)
        ensures
            r == (Sort { by: field, descending: false }),
    {
        Sort { by: field, descending: false }
    }

    /// The rule after clicking a column: the same column flips the direction,
    /// another column sorts by it ascending. Column headers of every file
    /// manager behave this way.
    pub open spec fn toggled(self, by: SortBy) -> Sort {
        if self.by == by {
            Sort { by, descending: !self.descending }
        } else {
            Sort { by, descending: false }
        }
    }

    pub fn toggle(self, by: SortBy) -> (r: Self)
        ensures
            r == self.toggled(by),
    {
        if self.by == by {
            Sort { by, descending: !self.descending }
        } else {
            Sort::by_field(by)
        }
    }
}

/// Clicking the same column twice gives back the rule one started with.
pub proof fn law_toggle_twice_restores(s: Sort)
    ensures
        s.toggled(s.by).toggled(s.by) == s,
        s.toggled(s.by).by == s.by,
{
}

/// The value of decimal digits.
pub open spec fn digits_value(ds: Seq<char>) -> nat
    decreases ds.len(),
{
    if ds.len() == 0 {
        0
    } else {
        digits_value(ds.drop_last()) * 10 + digit_value(ds.last())
    }
}

/// The value of one decimal digit.
pub open spec fn digit_value(c: char) -> nat {
    ((c as u32) - ('0' as u32)) as nat
}

/// How many digits start `s`.
pub open spec fn digit_run(s: Seq<char>) -> nat
    decreases s.len(),
{
    if s.len() > 0 && is_digit(s[0]) {
        1 + digit_run(s.drop_first())
    } else {
        0
    }
}

/// The number starting `s`, saturating at the largest `u128`: absurdly
/// long digit runs in a name must not overflow the counter.
pub open spec fn leading_number(s: Seq<char>) -> nat {
    let exact = digits_value(s.take(digit_run(s) as int));
    if exact > u128::MAX { u128::MAX as nat } else { exact }
}

/// The lower-case form of a character: the first character of its
/// lower-case mapping, or the character itself.
pub open spec fn lower_key(c: char) -> char {
    match crate::text::first_lowercase(c) {
        Some(l) => l,
        None => c,
    }
}

/// What follows the digits that start `s`.
pub open spec fn after_digits(s: Seq<char>) -> Seq<char> {
    s.skip(digit_run(s) as int)
}

/// Natural comparison (-1, 0, 1): runs of digits compare by value, other
/// characters by their lower-case forms; a prefix comes first.
pub open spec fn natural_order(a: Seq<char>, b: Seq<char>) -> int
    decreases a.len() + b.len(),
{
    if a.len() == 0 && b.len() == 0 {
        0
    } else if a.len() == 0 {
        -1
    } else if b.len() == 0 {
        1
    } else if is_digit(a[0]) && is_digit(b[0]) {
        let na = leading_number(a);
        let nb = leading_number(b);
        if na < nb {
            -1
        } else if na > nb {
            1
        } else {
            proof {
                lemma_digit_run_positive(a);
                lemma_digit_run_positive(b);
            }
            natural_order(after_digits(a), after_digits(b))
        }
    } else {
        let la = lower_key(a[0]);
        let lb = lower_key(b[0]);
        if la < lb {
            -1
        } else if la > lb {
            1
        } else {
            natural_order(a.drop_first(), b.drop_first())
        }
    }
}

pub proof fn lemma_digit_run_positive(s: Seq<char>)
    ensures
        digit_run(s) <= s.len(),
        s.len() > 0 && is_digit(s[0]) ==> digit_run(s) >= 1,
    decreases s.len(),
{
    if s.len() > 0 && is_digit(s[0]) {
        lemma_digit_run_positive(s.drop_first());
    }
}

/// The comparison as an `Ordering`.
pub open spec fn ordering_of(x: int) -> Ordering {
    if x < 0 {
        Ordering::Less
    } else if x > 0 {
        Ordering::Greater
    } else {
        Ordering::Equal
    }
}

proof fn lemma_digit_run_step(s: Seq<char>, i: int)
    requires
        0 <= i < s.len(),
        forall|j: int| 0 <= j <= i ==> is_digit(#[trigger] s[j]),
    ensures
        digit_run(s) == i + 1 + digit_run(s.skip(i + 1)),
    decreases i,
{
    if i == 0 {
        assert(s.drop_first() =~= s.skip(1));
    } else {
        lemma_digit_run_step(s.drop_first(), i - 1);
        assert(s.drop_first().skip(i) =~= s.skip(i + 1));
    }
}

proof fn lemma_digit_run_stop(s: Seq<char>, i: int)
    requires
        0 <= i <= s.len(),
        forall|j: int| 0 <= j < i ==> is_digit(#[trigger] s[j]),
        i == s.len() || !is_digit(s[i]),
    ensures
        digit_run(s) == i,
    decreases i,
{
    if i == 0 {
    } else {
        lemma_digit_run_stop(s.drop_first(), i - 1);
    }
}

fn digit_of(c: char) -> (r: u128)
    requires
        is_digit(c),
    ensures
        r == digit_value(c),
{
    ((c as u32) - 48) as u128
}

/// Reads the number that starts at `from`; returns it (saturated) and the
/// place right after its digits.
pub fn take_number(chars: &Vec<char>, from: usize) -> (r: (u128, usize))
    requires
        from <= chars@.len(),
    ensures
        r.1 == from + digit_run(chars@.skip(from as int)),
        r.0 == leading_number(chars@.skip(from as int)),
{
    let ghost s = chars@.skip(from as int);
    let mut value: u128 = 0;
    let mut i = from;
    assert(s.take(0) =~= Seq::<char>::empty());
    while i < chars.len() && '0' <= chars[i] && chars[i] <= '9'
        invariant
            from <= i <= chars@.len(),
            s == chars@.skip(from as int),
            forall|j: int| 0 <= j < i - from ==> is_digit(#[trigger] s[j]),
            value == (if digits_value(s.take(i - from)) > u128::MAX { u128::MAX as nat } else {
                digits_value(s.take(i - from))
            }),
        decreases chars@.len() - i,
    {
        let d = digit_of(chars[i]);
        let ghost prev = digits_value(s.take(i - from));
        assert(s.take(i - from + 1).drop_last() =~= s.take(i - from));
        assert(s.take(i - from + 1).last() == chars@[i as int]);
        // Absurdly long digit runs in a name must not overflow the counter.
        let times_ten = match value.checked_mul(10) {
            Some(v) => v,
            None => u128::MAX,
        };
        value = match times_ten.checked_add(d) {
            Some(v) => v,
            None => u128::MAX,
        };
        proof {
            if prev > u128::MAX {
                assert(prev * 10 + digit_value(chars@[i as int]) > u128::MAX) by (nonlinear_arith)
                    requires prev > u128::MAX;
            } else if prev * 10 > u128::MAX {
            }
        }
        i = i + 1;
    }
    proof {
        lemma_digit_run_stop(s, i - from);
    }
    (value, i)
}

fn lower_of(c: char) -> (r: char)
    ensures
        r == lower_key(c),
{
    match crate::text::lowercase_first(c) {
        Some(l) => l,
        None => c,
    }
}

/// Natural comparison of two names as -1, 0 or 1.
fn natural_order_of(a: &str, b: &str) -> (r: i8)
    ensures
        r as int == natural_order(a@, b@),
{
    let av = chars_of(a);
    let bv = chars_of(b);
    let mut i: usize = 0;
    let mut j: usize = 0;
    assert(av@.skip(0) =~= av@);
    assert(bv@.skip(0) =~= bv@);
    loop
        invariant
            i <= av@.len(),
            j <= bv@.len(),
            natural_order(a@, b@) == natural_order(av@.skip(i as int), bv@.skip(j as int)),
            av@ == a@,
            bv@ == b@,
        decreases av@.len() - i + bv@.len() - j,
    {
        let ghost ra = av@.skip(i as int);
        let ghost rb = bv@.skip(j as int);
        if i == av.len() && j == bv.len() {
            return 0;
        }
        if i == av.len() {
            return -1;
        }
        if j == bv.len() {
            return 1;
        }
        let lc = av[i];
        let rc = bv[j];
        assert(ra[0] == lc && rb[0] == rc);
        if '0' <= lc && lc <= '9' && '0' <= rc && rc <= '9' {
            let (left_number, i2) = take_number(&av, i);
            let (right_number, j2) = take_number(&bv, j);
            if left_number < right_number {
                return -1;
            }
            if left_number > right_number {
                return 1;
            }
            proof {
                lemma_digit_run_positive(ra);
                lemma_digit_run_positive(rb);
                assert(after_digits(ra) =~= av@.skip(i2 as int));
                assert(after_digits(rb) =~= bv@.skip(j2 as int));
            }
            i = i2;
            j = j2;
        } else {
            let lk = lower_of(lc);
            let rk = lower_of(rc);
            if lk < rk {
                return -1;
            }
            if lk > rk {
                return 1;
            }
            assert(ra.drop_first() =~= av@.skip(i + 1));
            assert(rb.drop_first() =~= bv@.skip(j + 1));
            i = i + 1;
            j = j + 1;
        }
    }
}

/// Compares names the way a person expects: `file2` comes before `file10`.
pub fn natural_cmp(a: &str, b: &str) -> (r: Ordering)
    ensures
        r == ordering_of(natural_order(a@, b@)),
{
    let code = natural_order_of(a, b);
    if code < 0 {
        Ordering::Less
    } else if code > 0 {
        Ordering::Greater
    } else {
        Ordering::Equal
    }
}

/// Antisymmetry of the natural comparison.
pub proof fn lemma_natural_order_antisymmetric(a: Seq<char>, b: Seq<char>)
    ensures
        natural_order(a, b) == -natural_order(b, a),
    decreases a.len() + b.len(),
{
    if a.len() > 0 && b.len() > 0 {
        if is_digit(a[0]) && is_digit(b[0]) {
            if leading_number(a) == leading_number(b) {
                lemma_digit_run_positive(a);
                lemma_digit_run_positive(b);
                lemma_natural_order_antisymmetric(after_digits(a), after_digits(b));
            }
        } else if lower_key(a[0]) == lower_key(b[0]) {
            lemma_natural_order_antisymmetric(a.drop_first(), b.drop_first());
        }
    }
}

/// Lower-casing keeps each decimal digit as it is and turns no other
/// character into one. Unicode's mapping does so; nothing the library is
/// told of `char::to_lowercase` says it, so the transitivity of the natural
/// order is stated under it.
pub open spec fn lowercase_keeps_digits_apart() -> bool {
    &&& forall|c: char| is_digit(c) ==> #[trigger] lower_key(c) == c
    &&& forall|c: char| !is_digit(c) ==> !is_digit(#[trigger] lower_key(c))
}

/// Transitivity of the natural comparison: if `a` comes no later than `b`
/// and `b` no later than `c`, then `a` comes no later than `c`, and it ties
/// with `c` only where all three tie.
pub proof fn lemma_natural_order_transitive(a: Seq<char>, b: Seq<char>, c: Seq<char>)
    requires
        lowercase_keeps_digits_apart(),
        natural_order(a, b) <= 0,
        natural_order(b, c) <= 0,
    ensures
        natural_order(a, c) <= 0,
        natural_order(a, c) == 0 ==> natural_order(a, b) == 0 && natural_order(b, c) == 0,
    decreases a.len() + b.len() + c.len(),
{
    lemma_natural_order_range(a, b);
    lemma_natural_order_range(b, c);
    lemma_natural_order_range(a, c);
    if a.len() == 0 || b.len() == 0 || c.len() == 0 {
        return;
    }
    let (a0, b0, c0) = (a[0], b[0], c[0]);
    let (da, db, dc) = (is_digit(a0), is_digit(b0), is_digit(c0));
    let (ka, kb, kc) = (lower_key(a0), lower_key(b0), lower_key(c0));
    assert(da ==> ka == a0);
    assert(db ==> kb == b0);
    assert(dc ==> kc == c0);
    assert(!da ==> !is_digit(ka));
    assert(!db ==> !is_digit(kb));
    assert(!dc ==> !is_digit(kc));
    if da && db && dc {
        lemma_digit_run_positive(a);
        lemma_digit_run_positive(b);
        lemma_digit_run_positive(c);
        if leading_number(a) == leading_number(b) && leading_number(b) == leading_number(c) {
            lemma_natural_order_transitive(after_digits(a), after_digits(b), after_digits(c));
        }
    } else if !da && !db && !dc {
        if ka == kb && kb == kc {
            lemma_natural_order_transitive(a.drop_first(), b.drop_first(), c.drop_first());
        }
    }
}

pub proof fn lemma_natural_order_range(a: Seq<char>, b: Seq<char>)
    ensures
        -1 <= natural_order(a, b) <= 1,
    decreases a.len() + b.len(),
{
    if a.len() > 0 && b.len() > 0 {
        if is_digit(a[0]) && is_digit(b[0]) {
            if leading_number(a) == leading_number(b) {
                lemma_digit_run_positive(a);
                lemma_digit_run_positive(b);
                lemma_natural_order_range(after_digits(a), after_digits(b));
            }
        } else if lower_key(a[0]) == lower_key(b[0]) {
            lemma_natural_order_range(a.drop_first(), b.drop_first());
        }
    }
}

/// Directories before everything else (-1, 0, 1).
pub open spec fn dir_order(a: bool, b: bool) -> int {
    if a && !b { -1 } else if !a && b { 1 } else { 0 }
}

/// Numbers in increasing order (-1, 0, 1).
pub open spec fn int_order(x: int, y: int) -> int {
    if x < y { -1 } else if x > y { 1 } else { 0 }
}

/// Optional times: none first, then by value.
pub open spec fn time_order(a: Option<i128>, b: Option<i128>) -> int {
    match (a, b) {
        (None, None) => 0,
        (None, Some(_)) => -1,
        (Some(_), None) => 1,
        (Some(x), Some(y)) => int_order(x as int, y as int),
    }
}

/// Optional texts: none first, then in byte order of their UTF-8 encoding
/// (how `Option<String>` compares).
pub open spec fn text_order(a: Option<Seq<char>>, b: Option<Seq<char>>) -> int {
    match (a, b) {
        (None, None) => 0,
        (None, Some(_)) => -1,
        (Some(_), None) => 1,
        (Some(x), Some(y)) => {
            let bx = vstd::utf8::encode_utf8(x);
            let by_ = vstd::utf8::encode_utf8(y);
            if bytes_lt(bx, by_) { -1 } else if bx == by_ { 0 } else { 1 }
        },
    }
}

/// The order of two entries under a sorting rule (-1, 0, 1).
///
/// Directories always come first, in either direction: mixing them with
/// files is awkward and no file manager does it. Then the chosen field
/// decides (by kind: the extension, then the name naturally), reversed for a
/// descending rule.
pub open spec fn entry_order(a: Entry, b: Entry, sort: Sort) -> int {
    let k = dir_order(a.kind == Kind::Directory, b.kind == Kind::Directory);
    if k != 0 {
        k
    } else {
        let o = entry_field_order(a, b, sort.by);
        if sort.descending { -o } else { o }
    }
}

/// The order of two entries by the chosen field alone (-1, 0, 1); by kind:
/// the extension, then the name naturally.
pub open spec fn entry_field_order(a: Entry, b: Entry, by_field: SortBy) -> int {
    match by_field {
        SortBy::Name => natural_order(a.name@, b.name@),
        SortBy::Size => int_order(a.size as int, b.size as int),
        SortBy::Modified => time_order(a.modified, b.modified),
        SortBy::Kind => {
            let e = text_order(entry_extension(a), entry_extension(b));
            if e != 0 { e } else { natural_order(a.name@, b.name@) }
        },
    }
}

pub proof fn lemma_entry_order_antisymmetric(a: Entry, b: Entry, sort: Sort)
    ensures
        entry_order(a, b, sort) == -entry_order(b, a, sort),
{
    lemma_natural_order_antisymmetric(a.name@, b.name@);
    match (entry_extension(a), entry_extension(b)) {
        (Some(x), Some(y)) => {
            lemma_bytes_lt_total(vstd::utf8::encode_utf8(x), vstd::utf8::encode_utf8(y));
            lemma_bytes_lt_asym(vstd::utf8::encode_utf8(x), vstd::utf8::encode_utf8(y));
        },
        _ => {},
    }
}

proof fn lemma_text_order_transitive(a: Option<Seq<char>>, b: Option<Seq<char>>, c: Option<Seq<char>>)
    requires
        text_order(a, b) <= 0,
        text_order(b, c) <= 0,
    ensures
        text_order(a, c) <= 0,
        text_order(a, c) == 0 ==> text_order(a, b) == 0 && text_order(b, c) == 0,
{
    match (a, b, c) {
        (Some(x), Some(y), Some(z)) => {
            let (bx, by_, bz) = (vstd::utf8::encode_utf8(x), vstd::utf8::encode_utf8(y), vstd::utf8::encode_utf8(z));
            lemma_bytes_lt_asym(bx, by_);
            lemma_bytes_lt_asym(by_, bz);
            lemma_bytes_lt_asym(bx, bz);
            if bytes_lt(bx, by_) && bytes_lt(by_, bz) {
                lemma_bytes_lt_trans(bx, by_, bz);
            }
        },
        _ => {},
    }
}

proof fn lemma_entry_field_order_transitive(a: Entry, b: Entry, c: Entry, by_field: SortBy)
    requires
        lowercase_keeps_digits_apart(),
        entry_field_order(a, b, by_field) <= 0,
        entry_field_order(b, c, by_field) <= 0,
    ensures
        entry_field_order(a, c, by_field) <= 0,
{
    match by_field {
        SortBy::Name => lemma_natural_order_transitive(a.name@, b.name@, c.name@),
        SortBy::Kind => {
            let (ea, eb, ec) = (entry_extension(a), entry_extension(b), entry_extension(c));
            lemma_text_order_transitive(ea, eb, ec);
            lemma_natural_order_range(a.name@, b.name@);
            lemma_natural_order_range(b.name@, c.name@);
            if text_order(ea, eb) == 0 && text_order(eb, ec) == 0 {
                lemma_natural_order_transitive(a.name@, b.name@, c.name@);
            } else if text_order(ea, eb) == 0 {
                lemma_text_order_transitive(ea, eb, ec);
            }
        },
        _ => {},
    }
}

/// Transitivity of the order of entries under any sorting rule: with the
/// antisymmetry above it makes a sorted listing ordered between any two
/// entries, not only between neighbours.
pub proof fn lemma_entry_order_transitive(a: Entry, b: Entry, c: Entry, sort: Sort)
    requires
        lowercase_keeps_digits_apart(),
        entry_order(a, b, sort) <= 0,
        entry_order(b, c, sort) <= 0,
    ensures
        entry_order(a, c, sort) <= 0,
{
    let (ka, kb, kc) = (a.kind == Kind::Directory, b.kind == Kind::Directory, c.kind == Kind::Directory);
    if ka == kb && kb == kc {
        if sort.descending {
            lemma_entry_field_order_antisymmetric(a, b, sort.by);
            lemma_entry_field_order_antisymmetric(b, c, sort.by);
            lemma_entry_field_order_antisymmetric(a, c, sort.by);
            lemma_entry_field_order_transitive(c, b, a, sort.by);
        } else {
            lemma_entry_field_order_transitive(a, b, c, sort.by);
        }
    }
}

proof fn lemma_entry_field_order_antisymmetric(a: Entry, b: Entry, by_field: SortBy)
    ensures
        entry_field_order(a, b, by_field) == -entry_field_order(b, a, by_field),
{
    lemma_entry_order_antisymmetric(a, b, Sort { by: by_field, descending: false });
    if a.kind == Kind::Directory && b.kind != Kind::Directory {
        lemma_natural_order_antisymmetric(a.name@, b.name@);
        match (entry_extension(a), entry_extension(b)) {
            (Some(x), Some(y)) => {
                lemma_bytes_lt_total(vstd::utf8::encode_utf8(x), vstd::utf8::encode_utf8(y));
                lemma_bytes_lt_asym(vstd::utf8::encode_utf8(x), vstd::utf8::encode_utf8(y));
            },
            _ => {},
        }
    } else if a.kind != Kind::Directory && b.kind == Kind::Directory {
        lemma_natural_order_antisymmetric(a.name@, b.name@);
        match (entry_extension(a), entry_extension(b)) {
            (Some(x), Some(y)) => {
                lemma_bytes_lt_total(vstd::utf8::encode_utf8(x), vstd::utf8::encode_utf8(y));
                lemma_bytes_lt_asym(vstd::utf8::encode_utf8(x), vstd::utf8::encode_utf8(y));
            },
            _ => {},
        }
    }
}

fn text_order_of(a: &Option<String>, b: &Option<String>) -> (r: i8)
    ensures
        r as int == text_order(
            match a { Some(x) => Some(x@), None => None },
            match b { Some(x) => Some(x@), None => None },
        ),
{
    match (a, b) {
        (None, None) => 0,
        (None, Some(_)) => -1,
        (Some(_), None) => 1,
        (Some(x), Some(y)) => {
            let bx = x.as_str().as_bytes();
            let by_ = y.as_str().as_bytes();
            if bytes_less(bx, by_) {
                -1
            } else if bytes_less(by_, bx) {
                proof {
                    lemma_bytes_lt_asym(bx@, by_@);
                }
                1
            } else {
                proof {
                    lemma_bytes_lt_total(bx@, by_@);
                }
                0
            }
        },
    }
}

fn entry_order_of(a: &Entry, b: &Entry, sort: Sort) -> (r: i8)
    ensures
        r as int == entry_order(*a, *b, sort),
{
    proof {
        lemma_natural_order_range(a.name@, b.name@);
    }
    let ad = a.is_dir();
    let bd = b.is_dir();
    if ad && !bd {
        return -1;
    }
    if !ad && bd {
        return 1;
    }
    let o: i8 = match sort.by {
        SortBy::Name => natural_order_of(a.name.as_str(), b.name.as_str()),
        SortBy::Size => if a.size < b.size { -1 } else if a.size > b.size { 1 } else { 0 },
        SortBy::Modified => match (a.modified, b.modified) {
            (None, None) => 0,
            (None, Some(_)) => -1,
            (Some(_), None) => 1,
            (Some(x), Some(y)) => if x < y { -1 } else if x > y { 1 } else { 0 },
        },
        SortBy::Kind => {
            let ea = a.extension();
            let eb = b.extension();
            let e = text_order_of(&ea, &eb);
            if e != 0 { e } else { natural_order_of(a.name.as_str(), b.name.as_str()) }
        },
    };
    if sort.descending {
        if o < 0 { 1 } else if o > 0 { -1 } else { 0 }
    } else {
        o
    }
}

/// `perm` lists distinct places of `old`, and `new` holds those entries in
/// that order, each neighbour pair in order under the rule, equal neighbours
/// in the order they had in `old`.
pub open spec fn is_stable_sort_of(new: Seq<Entry>, old: Seq<Entry>, perm: Seq<int>, sort: Sort) -> bool {
    &&& perm.len() == new.len()
    &&& forall|k: int| 0 <= k < perm.len() ==> 0 <= #[trigger] perm[k] < old.len() && new[k] == old[perm[k]]
    &&& forall|k: int, m: int| 0 <= k < m < perm.len() ==> #[trigger] perm[k] != #[trigger] perm[m]
    &&& forall|k: int| 0 <= k < new.len() - 1 ==> entry_order(#[trigger] new[k], new[k + 1], sort) <= 0
    &&& forall|k: int| 0 <= k < new.len() - 1 && entry_order(#[trigger] new[k], new[k + 1], sort) == 0 ==> perm[k] < perm[k + 1]
}

/// Sorts the entries in place, keeping equal entries in their order.
pub fn sort_entries(entries: &mut Vec<Entry>, sort: Sort)
    ensures
        final(entries)@.len() == old(entries)@.len(),
        exists|perm: Seq<int>| #[trigger] is_stable_sort_of(final(entries)@, old(entries)@, perm, sort),
{
    let ghost old_entries = entries@;
    let mut rest: Vec<Entry> = Vec::new();
    std::mem::swap(&mut rest, entries);
    let n = rest.len();
    let mut sorted: Vec<Entry> = Vec::new();
    let ghost mut perm: Seq<int> = Seq::empty();
    let mut idx: usize = 0;
    assert(old_entries.skip(0) =~= old_entries);
    while idx < n
        invariant
            idx <= n,
            n == old_entries.len(),
            rest@ =~= old_entries.skip(idx as int),
            perm.len() == sorted@.len() == idx,
            forall|k: int| 0 <= k < perm.len() ==> 0 <= #[trigger] perm[k] < idx && sorted@[k] == old_entries[perm[k]],
            forall|k: int, m: int| 0 <= k < m < perm.len() ==> #[trigger] perm[k] != #[trigger] perm[m],
            forall|k: int| 0 <= k < sorted@.len() - 1 ==> entry_order(#[trigger] sorted@[k], sorted@[k + 1], sort) <= 0,
            forall|k: int| 0 <= k < sorted@.len() - 1 && entry_order(#[trigger] sorted@[k], sorted@[k + 1], sort) == 0 ==> perm[k] < perm[k + 1],
        decreases n - idx,
    {
        let x = rest.remove(0);
        assert(x == old_entries[idx as int]);
        assert(rest@ =~= old_entries.skip(idx + 1));
        // The first place whose entry must come after this one.
        let mut p: usize = 0;
        let mut placed = false;
        while !placed && p < sorted.len()
            invariant
                p <= sorted@.len(),
                placed ==> p < sorted@.len() && entry_order(x, sorted@[p as int], sort) < 0,
                forall|k: int| 0 <= k < p ==> entry_order(x, #[trigger] sorted@[k], sort) >= 0,
            decreases sorted@.len() - p, (if placed { 0int } else { 1int }),
        {
            if entry_order_of(&x, &sorted[p], sort) < 0 {
                placed = true;
            } else {
                p = p + 1;
            }
        }
        let ghost old_sorted = sorted@;
        let ghost old_perm = perm;
        sorted.insert(p, x);
        proof {
            perm = old_perm.insert(p as int, idx as int);
            assert forall|k: int| 0 <= k < sorted@.len() - 1 implies entry_order(#[trigger] sorted@[k], sorted@[k + 1], sort) <= 0
                && (entry_order(sorted@[k], sorted@[k + 1], sort) == 0 ==> perm[k] < perm[k + 1]) by {
                let pp = p as int;
                if k + 1 < pp {
                    assert(sorted@[k] == old_sorted[k] && sorted@[k + 1] == old_sorted[k + 1]);
                } else if k + 1 == pp {
                    assert(sorted@[k] == old_sorted[k]);
                    lemma_entry_order_antisymmetric(x, old_sorted[k], sort);
                } else if k == pp {
                    assert(sorted@[k + 1] == old_sorted[k]);
                } else {
                    assert(sorted@[k] == old_sorted[k - 1] && sorted@[k + 1] == old_sorted[k]);
                }
            }
        }
        idx = idx + 1;
    }
    std::mem::swap(&mut sorted, entries);
    assert(is_stable_sort_of(entries@, old_entries, perm, sort));
}

/// Whatever the rule and its direction, a sorted listing never shows a file
/// (or broken link) above a directory.
pub proof fn law_directories_come_first(new: Seq<Entry>, old: Seq<Entry>, perm: Seq<int>, sort: Sort, i: int, j: int)
    requires
        is_stable_sort_of(new, old, perm, sort),
        0 <= i <= j < new.len(),
        new[j].kind == Kind::Directory,
    ensures
        new[i].kind == Kind::Directory,
    decreases j - i,
{
    if i < j {
        law_directories_come_first(new, old, perm, sort, i + 1, j);
        assert(entry_order(new[i], new[i + 1], sort) <= 0);
    }
}

/// What the file system says of the target of a path, links followed.
#[derive(Debug, Clone, Copy, PartialEq, Eq)]
pub struct TargetFacts {
    pub is_dir: bool,
    pub size: u64,
    /// Modification time in nanoseconds from the Unix epoch, when known.
    pub modified: Option<i128>,
}

/// The entry of a path, from whether the path itself is a link and what its
/// target is. A path without a name is no entry; so is a path that is not a
/// link and whose target cannot be read. For display the target matters,
/// not the link; a link without a target is a broken link.
pub fn entry_of(path: &str, symlink: bool, target: Option<TargetFacts>) -> (r: Option<Entry>)
    ensures
        match r {
            Some(e) => {
                &&& path_file_name(path@) matches Some(n)
                &&& e.name@ == n
                &&& e.path@ == path@
                &&& e.symlink == symlink
                &&& e.hidden == (n.len() > 0 && n[0] == '.')
                &&& match target {
                    Some(t) => {
                        &&& e.kind == (if t.is_dir { Kind::Directory } else { Kind::File })
                        &&& e.size == t.size
                        &&& e.modified == t.modified
                    },
                    None => symlink && e.kind == Kind::BrokenLink && e.size == 0 && e.modified is None,
                }
            },
            None => path_file_name(path@) is None || (target is None && !symlink),
        },
{
    let name = match file_name_of(path) {
        Some(n) => n,
        None => return None,
    };
    let (kind, size, modified) = match target {
        Some(t) => (if t.is_dir { Kind::Directory } else { Kind::File }, t.size, t.modified),
        None => {
            if symlink {
                (Kind::BrokenLink, 0, None)
            } else {
                return None;
            }
        },
    };
    let chars = chars_of(name.as_str());
    let hidden = chars.len() > 0 && chars[0] == '.';
    Some(Entry { name, path: path.to_owned(), kind, size, modified, hidden, symlink })
}

/// The entries that are shown: all of them, or only those whose name does
/// not start with a dot.
pub open spec fn shown_entries(es: Seq<Entry>, show_hidden: bool) -> Seq<Entry>
    decreases es.len(),
{
    if es.len() == 0 {
        Seq::empty()
    } else {
        let rest = shown_entries(es.drop_last(), show_hidden);
        if show_hidden || !es.last().hidden {
            rest.push(es.last())
        } else {
            rest
        }
    }
}

/// The listing of a directory: hidden entries left out unless asked for,
/// then sorted by the rule.
pub fn arrange_entries(entries: Vec<Entry>, show_hidden: bool, sort: Sort) -> (r: Vec<Entry>)
    ensures
        r@.len() == shown_entries(entries@, show_hidden).len(),
        exists|perm: Seq<int>| #[trigger] is_stable_sort_of(r@, shown_entries(entries@, show_hidden), perm, sort),
{
    let ghost all = entries@;
    let n = entries.len();
    let mut rest = entries;
    let mut kept: Vec<Entry> = Vec::new();
    let mut k: usize = 0;
    assert(all.skip(0) =~= all);
    while rest.len() > 0
        invariant
            k <= all.len(),
            all.len() == n,
            rest@ == all.skip(k as int),
            kept@ == shown_entries(all.take(k as int), show_hidden),
        decreases rest@.len(),
    {
        let e = rest.remove(0);
        assert(all.take(k + 1).drop_last() =~= all.take(k as int));
        assert(all.take(k + 1).last() == e);
        if show_hidden || !e.hidden {
            kept.push(e);
        }
        assert(rest@ =~= all.skip(k + 1));
        k = k + 1;
    }
    assert(all.take(k as int) =~= all);
    sort_entries(&mut kept, sort);
    kept
}

} // verus!

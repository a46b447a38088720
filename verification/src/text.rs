//! Character-level helpers shared by the parsers of the library.
//!
//! Text is handled as a sequence of characters. Each helper states, as a
//! spec function, exactly what std's function of the same purpose does
//! (`char::is_whitespace`, `str::trim`, `str::split`, `str::lines`, ...), and
//! is proved against it.

use vstd::prelude::*;

verus! {

/// The Unicode `White_Space` property, which `char::is_whitespace` tests.
pub open spec fn is_white_space(c: char) -> bool {
    ||| c == ' '
    ||| ('\u{9}' <= c && c <= '\u{d}')
    ||| c == '\u{85}'
    ||| c == '\u{a0}'
    ||| c == '\u{1680}'
    ||| ('\u{2000}' <= c && c <= '\u{200a}')
    ||| c == '\u{2028}'
    ||| c == '\u{2029}'
    ||| c == '\u{202f}'
    ||| c == '\u{205f}'
    ||| c == '\u{3000}'
}

/// Does `c` have the Unicode `White_Space` property.
pub fn is_whitespace(c: char) -> (r: bool)
    ensures
        r == is_white_space(c),
{
    c == ' ' || ('\u{9}' <= c && c <= '\u{d}') || c == '\u{85}' || c == '\u{a0}' || c == '\u{1680}'
        || ('\u{2000}' <= c && c <= '\u{200a}') || c == '\u{2028}' || c == '\u{2029}'
        || c == '\u{202f}' || c == '\u{205f}' || c == '\u{3000}'
}

/// `c` with ASCII letters turned to lower case.
pub open spec fn ascii_lower(c: char) -> char {
    if 'A' <= c && c <= 'Z' {
        ((c as u32) + 32) as char
    } else {
        c
    }
}

/// `s` with ASCII letters turned to lower case (`str::to_ascii_lowercase`).
pub open spec fn ascii_lower_seq(s: Seq<char>) -> Seq<char> {
    Seq::new(s.len(), |i: int| ascii_lower(s[i]))
}

/// The two texts are equal when ASCII case is ignored (`str::eq_ignore_ascii_case`).
pub open spec fn eq_ignore_ascii_case(a: Seq<char>, b: Seq<char>) -> bool {
    ascii_lower_seq(a) == ascii_lower_seq(b)
}

pub fn to_ascii_lower(c: char) -> (r: char)
    ensures
        r == ascii_lower(c),
{
    if 'A' <= c && c <= 'Z' {
        let code: u32 = (c as u32) + 32;
        proof {
            assert(code == (c as u32) + 32);
        }
        char_from_ascii(code)
    } else {
        c
    }
}

fn char_from_ascii(code: u32) -> (r: char)
    requires
        ('a' as u32) <= code <= ('z' as u32),
    ensures
        r == code as char,
{
    let b: u8 = code as u8;
    b as char
}

/// Is `c` an ASCII digit.
pub open spec fn is_digit(c: char) -> bool {
    '0' <= c && c <= '9'
}

/// `s` starts with `p`.
pub open spec fn has_prefix(s: Seq<char>, p: Seq<char>) -> bool {
    p.len() <= s.len() && s.take(p.len() as int) == p
}

/// `needle` occurs somewhere in `s` (`str::contains`).
pub open spec fn has_infix(s: Seq<char>, needle: Seq<char>) -> bool {
    exists|i: int| 0 <= i && i + needle.len() <= s.len() && #[trigger] s.subrange(i, i + needle.len()) == needle
}

/// Leading white space removed.
pub open spec fn trim_start(s: Seq<char>) -> Seq<char>
    decreases s.len(),
{
    if s.len() > 0 && is_white_space(s[0]) {
        trim_start(s.drop_first())
    } else {
        s
    }
}

/// Trailing white space removed.
pub open spec fn trim_end(s: Seq<char>) -> Seq<char>
    decreases s.len(),
{
    if s.len() > 0 && is_white_space(s.last()) {
        trim_end(s.drop_last())
    } else {
        s
    }
}

/// White space removed at both ends (`str::trim`).
pub open spec fn trim(s: Seq<char>) -> Seq<char> {
    trim_end(trim_start(s))
}

/// The pieces between the separators (`str::split` with a character): always
/// at least one piece.
pub open spec fn split_on(s: Seq<char>, sep: char) -> Seq<Seq<char>>
    decreases s.len(),
{
    if s.len() == 0 {
        seq![Seq::<char>::empty()]
    } else {
        let r = split_on(s.drop_last(), sep);
        if s.last() == sep {
            r.push(Seq::<char>::empty())
        } else {
            r.update(r.len() - 1, r.last().push(s.last()))
        }
    }
}

/// A trailing carriage return removed.
pub open spec fn strip_cr(s: Seq<char>) -> Seq<char> {
    if s.len() > 0 && s.last() == '\r' {
        s.drop_last()
    } else {
        s
    }
}

/// The lines of a text (`str::lines`): split at `\n`, a final line ending is
/// optional, and a `\r` right before a `\n` belongs to the line ending.
pub open spec fn lines(s: Seq<char>) -> Seq<Seq<char>> {
    if s.len() == 0 {
        Seq::empty()
    } else {
        let pieces = split_on(s, '\n');
        let ended = s.last() == '\n';
        let kept = if ended { pieces.drop_last() } else { pieces };
        Seq::new(
            kept.len(),
            |k: int| if ended || k < kept.len() - 1 { strip_cr(kept[k]) } else { kept[k] },
        )
    }
}

/// `p` is the first place of `c` in `s`.
pub open spec fn is_first_char(s: Seq<char>, c: char, p: int) -> bool {
    &&& 0 <= p < s.len()
    &&& s[p] == c
    &&& forall|j: int| 0 <= j < p ==> s[j] != c
}

/// What `str::split_once` with a character gives.
pub open spec fn split_once(s: Seq<char>, c: char) -> Option<(Seq<char>, Seq<char>)> {
    if s.contains(c) {
        let p = choose|p: int| is_first_char(s, c, p);
        Some((s.take(p), s.skip(p + 1)))
    } else {
        None
    }
}

/// The texts held by a list of character vectors.
pub open spec fn views(v: Seq<Vec<char>>) -> Seq<Seq<char>> {
    Seq::new(v.len(), |i: int| v[i]@)
}

/// Collects the characters of a string slice.
pub fn chars_of(s: &str) -> (v: Vec<char>)
    ensures
        v@ == s@,
{
    let mut v: Vec<char> = Vec::new();
    for c in it: s.chars()
        invariant
            v@ == it.seq().take(it.index() as int),
            it.seq() == s@,
    {
        v.push(c);
    }
    v
}

/// Appends one character to a string (`String::push`).
#[verifier::external_body]
pub(crate) fn push_char(s: &mut String, c: char)
    ensures
        final(s)@ == old(s)@.push(c),
{
    s.push(c)
}


/// A string of the characters `v[from..to]`.
pub fn string_of(v: &Vec<char>, from: usize, to: usize) -> (r: String)
    requires
        from <= to <= v@.len(),
    ensures
        r@ == v@.subrange(from as int, to as int),
{
    let mut r = String::new();
    let mut i = from;
    while i < to
        invariant
            from <= i <= to,
            to <= v@.len(),
            r@ == v@.subrange(from as int, i as int),
        decreases to - i,
    {
        push_char(&mut r, v[i]);
        i = i + 1;
        assert(r@ =~= v@.subrange(from as int, i as int));
    }
    r
}

/// The characters `v[from..to]`.
pub fn slice_of(v: &Vec<char>, from: usize, to: usize) -> (r: Vec<char>)
    requires
        from <= to <= v@.len(),
    ensures
        r@ == v@.subrange(from as int, to as int),
{
    let mut r: Vec<char> = Vec::new();
    let mut i = from;
    while i < to
        invariant
            from <= i <= to,
            to <= v@.len(),
            r@ == v@.subrange(from as int, i as int),
        decreases to - i,
    {
        r.push(v[i]);
        i = i + 1;
        assert(r@ =~= v@.subrange(from as int, i as int));
    }
    r
}

/// A string holding the characters of `v`.
pub fn string_from(v: &Vec<char>) -> (r: String)
    ensures
        r@ == v@,
{
    let r = string_of(v, 0, v.len());
    assert(v@.subrange(0, v@.len() as int) =~= v@);
    r
}

/// Are the two character sequences equal.
pub fn same_chars(a: &Vec<char>, b: &Vec<char>) -> (r: bool)
    ensures
        r == (a@ == b@),
{
    if a.len() != b.len() {
        return false;
    }
    let mut i: usize = 0;
    while i < a.len()
        invariant
            a@.len() == b@.len(),
            i <= a@.len(),
            forall|j: int| 0 <= j < i ==> a@[j] == b@[j],
        decreases a@.len() - i,
    {
        if a[i] != b[i] {
            return false;
        }
        i = i + 1;
    }
    assert(a@ =~= b@);
    true
}

/// Is the string slice equal to the characters.
pub fn str_is(s: &str, expected: &Vec<char>) -> (r: bool)
    ensures
        r == (s@ == expected@),
{
    let v = chars_of(s);
    same_chars(&v, expected)
}

/// Are the two strings equal.
pub fn str_eq(a: &str, b: &str) -> (r: bool)
    ensures
        r == (a@ == b@),
{
    let va = chars_of(a);
    let vb = chars_of(b);
    same_chars(&va, &vb)
}

/// The characters with ASCII letters in lower case.
pub fn ascii_lowercase(v: &Vec<char>) -> (r: Vec<char>)
    ensures
        r@ == ascii_lower_seq(v@),
{
    let mut r: Vec<char> = Vec::new();
    let mut i: usize = 0;
    while i < v.len()
        invariant
            i <= v@.len(),
            r@ == ascii_lower_seq(v@.take(i as int)),
        decreases v@.len() - i,
    {
        r.push(to_ascii_lower(v[i]));
        i = i + 1;
        assert(r@ =~= ascii_lower_seq(v@.take(i as int)));
    }
    assert(v@.take(v@.len() as int) =~= v@);
    r
}

/// Equal when ASCII case is ignored.
pub fn eq_ascii_case_insensitive(a: &Vec<char>, b: &Vec<char>) -> (r: bool)
    ensures
        r == eq_ignore_ascii_case(a@, b@),
{
    let la = ascii_lowercase(a);
    let lb = ascii_lowercase(b);
    same_chars(&la, &lb)
}

/// Does `v[from..]` start with `p`.
pub fn starts_with_at(v: &Vec<char>, from: usize, p: &Vec<char>) -> (r: bool)
    requires
        from <= v@.len(),
    ensures
        r == has_prefix(v@.skip(from as int), p@),
{
    let vlen = v.len();
    if p.len() > vlen - from {
        return false;
    }
    let mut i: usize = 0;
    while i < p.len()
        invariant
            vlen == v@.len(),
            from <= v@.len(),
            from + p@.len() <= v@.len(),
            i <= p@.len(),
            forall|j: int| 0 <= j < i ==> v@[from + j] == p@[j],
        decreases p@.len() - i,
    {
        assert(from + i < v@.len());
        if v[from + i] != p[i] {
            assert(v@.skip(from as int).take(p@.len() as int)[i as int] != p@[i as int]);
            return false;
        }
        i = i + 1;
    }
    assert(v@.skip(from as int).take(p@.len() as int) =~= p@);
    true
}

/// Does `v` start with `p`.
pub fn starts_with(v: &Vec<char>, p: &Vec<char>) -> (r: bool)
    ensures
        r == has_prefix(v@, p@),
{
    let r = starts_with_at(v, 0, p);
    assert(v@.skip(0) =~= v@);
    r
}

/// Does `needle` occur in `v`.
pub fn contains_seq(v: &Vec<char>, needle: &Vec<char>) -> (r: bool)
    ensures
        r == has_infix(v@, needle@),
{
    if needle.len() > v.len() {
        return false;
    }
    let last = v.len() - needle.len();
    let mut i: usize = 0;
    loop
        invariant
            needle@.len() <= v@.len(),
            last == v@.len() - needle@.len(),
            i <= last,
            forall|j: int| 0 <= j < i ==> #[trigger] v@.subrange(j, j + needle@.len()) != needle@,
        decreases last - i,
    {
        if starts_with_at(v, i, needle) {
            assert(v@.skip(i as int).take(needle@.len() as int) =~= v@.subrange(i as int, i + needle@.len()));
            return true;
        }
        assert(v@.skip(i as int).take(needle@.len() as int) =~= v@.subrange(i as int, i + needle@.len()));
        if i == last {
            assert forall|j: int| 0 <= j && j + needle@.len() <= v@.len() implies #[trigger] v@.subrange(j, j + needle@.len()) != needle@ by {
                assert(j <= i);
            }
            return false;
        }
        i = i + 1;
    }
}

/// Finds the first place of `c` in `v`.
pub fn find_char(v: &Vec<char>, c: char) -> (r: Option<usize>)
    ensures
        match r {
            Some(p) => is_first_char(v@, c, p as int),
            None => !v@.contains(c),
        },
{
    let mut i: usize = 0;
    while i < v.len()
        invariant
            i <= v@.len(),
            forall|j: int| 0 <= j < i ==> v@[j] != c,
        decreases v@.len() - i,
    {
        if v[i] == c {
            return Some(i);
        }
        i = i + 1;
    }
    None
}

proof fn lemma_first_char_unique(s: Seq<char>, c: char, p: int)
    requires
        is_first_char(s, c, p),
    ensures
        (choose|q: int| is_first_char(s, c, q)) == p,
{
    let q = choose|q: int| is_first_char(s, c, q);
    assert(is_first_char(s, c, q));
    if q < p {
        assert(s[q] != c);
    }
    if p < q {
        assert(s[p] != c);
    }
}

/// Splits at the first `c` (`str::split_once`).
pub fn split_once_at(v: &Vec<char>, c: char) -> (r: Option<(Vec<char>, Vec<char>)>)
    ensures
        match r {
            Some((a, b)) => split_once(v@, c) == Some((a@, b@)),
            None => split_once(v@, c) is None,
        },
{
    match find_char(v, c) {
        Some(p) => {
            proof {
                lemma_first_char_unique(v@, c, p as int);
            }
            let vlen = v.len();
            assert(p < vlen);
            let a = slice_of(v, 0, p);
            let b = slice_of(v, p + 1, vlen);
            assert(a@ =~= v@.take(p as int));
            assert(b@ =~= v@.skip(p + 1));
            Some((a, b))
        },
        None => None,
    }
}

proof fn lemma_trim_start_step(s: Seq<char>, i: int)
    requires
        0 <= i < s.len(),
        is_white_space(s[i]),
    ensures
        trim_start(s.skip(i)) == trim_start(s.skip(i + 1)),
{
    assert(s.skip(i).drop_first() =~= s.skip(i + 1));
}

proof fn lemma_trim_end_step(s: Seq<char>, j: int)
    requires
        0 < j <= s.len(),
        is_white_space(s[j - 1]),
    ensures
        trim_end(s.take(j)) == trim_end(s.take(j - 1)),
{
    assert(s.take(j).drop_last() =~= s.take(j - 1));
}

/// The bounds of `v[from..to]` with white space removed at both ends.
pub fn trim_bounds(v: &Vec<char>, from: usize, to: usize) -> (r: (usize, usize))
    requires
        from <= to <= v@.len(),
    ensures
        from <= r.0 <= r.1 <= to,
        v@.subrange(r.0 as int, r.1 as int) == trim(v@.subrange(from as int, to as int)),
{
    let ghost s = v@.subrange(from as int, to as int);
    assert(s.skip(0) =~= s);
    let mut a = from;
    while a < to && is_whitespace(v[a])
        invariant
            from <= a <= to,
            to <= v@.len(),
            s == v@.subrange(from as int, to as int),
            trim_start(s) == trim_start(s.skip(a - from)),
        decreases to - a,
    {
        proof {
            lemma_trim_start_step(s, a - from);
        }
        a = a + 1;
    }
    let ghost t = s.skip(a - from);
    assert(trim_start(t) == t);
    assert(t =~= v@.subrange(a as int, to as int));
    assert(t.take(to - a) =~= t);
    let mut b = to;
    while b > a && is_whitespace(v[b - 1])
        invariant
            a <= b <= to,
            to <= v@.len(),
            t =~= v@.subrange(a as int, to as int),
            trim_end(t) == trim_end(t.take(b - a)),
        decreases b - a,
    {
        proof {
            lemma_trim_end_step(t, b - a);
        }
        b = b - 1;
    }
    assert(t.take(b - a) =~= v@.subrange(a as int, b as int));
    (a, b)
}

/// The characters with white space removed at both ends.
pub fn trimmed(v: &Vec<char>) -> (r: Vec<char>)
    ensures
        r@ == trim(v@),
{
    let (a, b) = trim_bounds(v, 0, v.len());
    assert(v@.subrange(0, v@.len() as int) =~= v@);
    slice_of(v, a, b)
}

pub proof fn lemma_split_on_nonempty(s: Seq<char>, sep: char)
    ensures
        split_on(s, sep).len() >= 1,
    decreases s.len(),
{
    if s.len() > 0 {
        lemma_split_on_nonempty(s.drop_last(), sep);
    }
}

/// Appending text without a separator extends the last piece.
pub proof fn lemma_split_append_plain(a: Seq<char>, b: Seq<char>, sep: char)
    requires
        !b.contains(sep),
    ensures
        split_on(a + b, sep) == split_on(a, sep).update(
            split_on(a, sep).len() - 1,
            split_on(a, sep).last() + b,
        ),
    decreases b.len(),
{
    lemma_split_on_nonempty(a, sep);
    let r = split_on(a, sep);
    if b.len() == 0 {
        assert(a + b =~= a);
        assert(r.last() + b =~= r.last());
        assert(r.update(r.len() - 1, r.last()) =~= r);
    } else {
        let b0 = b.drop_last();
        assert(!b0.contains(sep)) by {
            if b0.contains(sep) {
                let i = choose|i: int| 0 <= i < b0.len() && b0[i] == sep;
                assert(b[i] == sep);
            }
        }
        lemma_split_append_plain(a, b0, sep);
        assert((a + b).drop_last() =~= a + b0);
        assert((a + b).last() == b.last());
        assert(b.last() != sep) by {
            assert(b[b.len() - 1] == b.last());
        }
        assert((r.last() + b0).push(b.last()) =~= r.last() + b);
        let r0 = r.update(r.len() - 1, r.last() + b0);
        assert(r0.update(r0.len() - 1, r0.last().push(b.last())) =~= r.update(r.len() - 1, r.last() + b));
    }
}

/// A separator at the end starts a new, empty piece.
pub proof fn lemma_split_append_sep(a: Seq<char>, sep: char)
    ensures
        split_on(a.push(sep), sep) == split_on(a, sep).push(Seq::<char>::empty()),
{
    assert(a.push(sep).drop_last() =~= a);
}

/// No piece holds the separator.
pub proof fn lemma_split_pieces_lack_sep(s: Seq<char>, sep: char)
    ensures
        forall|i: int| 0 <= i < split_on(s, sep).len() ==> !(#[trigger] split_on(s, sep)[i]).contains(sep),
    decreases s.len(),
{
    if s.len() > 0 {
        lemma_split_pieces_lack_sep(s.drop_last(), sep);
        lemma_split_on_nonempty(s.drop_last(), sep);
        let r = split_on(s.drop_last(), sep);
        if s.last() != sep {
            let l = r.last().push(s.last());
            assert(!l.contains(sep)) by {
                if l.contains(sep) {
                    let i = choose|i: int| 0 <= i < l.len() && l[i] == sep;
                    if i < l.len() - 1 {
                        assert(r[r.len() - 1][i] == sep);
                    }
                }
            }
        }
    }
}

/// Leading white space removal drops a prefix, and what is left starts with
/// no white space.
pub proof fn lemma_trim_start_shape(s: Seq<char>) -> (k: int)
    ensures
        0 <= k <= s.len(),
        trim_start(s) == s.skip(k),
        k < s.len() ==> !is_white_space(s[k]),
    decreases s.len(),
{
    if s.len() > 0 && is_white_space(s[0]) {
        let k0 = lemma_trim_start_shape(s.drop_first());
        assert(s.drop_first().skip(k0) =~= s.skip(k0 + 1));
        k0 + 1
    } else {
        assert(s.skip(0) =~= s);
        0
    }
}

/// Trailing white space removal keeps a prefix, which ends with no white
/// space.
pub proof fn lemma_trim_end_shape(s: Seq<char>) -> (j: int)
    ensures
        0 <= j <= s.len(),
        trim_end(s) == s.take(j),
        j > 0 ==> !is_white_space(s[j - 1]),
    decreases s.len(),
{
    if s.len() > 0 && is_white_space(s.last()) {
        let j0 = lemma_trim_end_shape(s.drop_last());
        assert(s.drop_last().take(j0) =~= s.take(j0));
        j0
    } else {
        assert(s.take(s.len() as int) =~= s);
        s.len() as int
    }
}

/// Trimming keeps a stretch of the text whose ends are not white space.
pub proof fn lemma_trim_shape(s: Seq<char>) -> (bounds: (int, int))
    ensures
        0 <= bounds.0 <= bounds.1 <= s.len(),
        trim(s) == s.subrange(bounds.0, bounds.1),
        trim(s).len() > 0 ==> !is_white_space(trim(s)[0]) && !is_white_space(trim(s).last()),
{
    let k = lemma_trim_start_shape(s);
    let t = s.skip(k);
    let j = lemma_trim_end_shape(t);
    assert(t.take(j) =~= s.subrange(k, k + j));
    if j > 0 {
        assert(trim(s)[0] == t[0]);
    }
    (k, k + j)
}

/// Text that neither starts nor ends with white space is its own trim.
pub proof fn lemma_trim_fixed(s: Seq<char>)
    requires
        s.len() > 0,
        !is_white_space(s[0]),
        !is_white_space(s.last()),
    ensures
        trim(s) == s,
{
    assert(trim_start(s) == s);
    assert(trim_end(s) == s);
}

/// The pieces of `v` between the separators.
pub fn split_chars(v: &Vec<char>, sep: char) -> (r: Vec<Vec<char>>)
    ensures
        views(r@) == split_on(v@, sep),
{
    let mut done: Vec<Vec<char>> = Vec::new();
    let mut current: Vec<char> = Vec::new();
    let mut i: usize = 0;
    while i < v.len()
        invariant
            i <= v@.len(),
            split_on(v@.take(i as int), sep) =~= views(done@).push(current@),
        decreases v@.len() - i,
    {
        proof {
            assert(v@.take(i + 1).drop_last() =~= v@.take(i as int));
            lemma_split_on_nonempty(v@.take(i as int), sep);
        }
        let ghost old_done = views(done@);
        let ghost old_current = current@;
        if v[i] == sep {
            let mut piece: Vec<char> = Vec::new();
            std::mem::swap(&mut piece, &mut current);
            done.push(piece);
            assert(views(done@) =~= old_done.push(old_current));
        } else {
            current.push(v[i]);
            assert(views(done@) =~= old_done);
        }
        i = i + 1;
        assert(split_on(v@.take(i as int), sep) =~= views(done@).push(current@));
    }
    let ghost old_done = views(done@);
    let ghost old_current = current@;
    done.push(current);
    assert(views(done@) =~= old_done.push(old_current));
    assert(v@.take(v@.len() as int) =~= v@);
    done
}

/// The lines of the text.
pub fn lines_of(v: &Vec<char>) -> (r: Vec<Vec<char>>)
    ensures
        views(r@) == lines(v@),
{
    if v.len() == 0 {
        let r: Vec<Vec<char>> = Vec::new();
        assert(views(r@) =~= lines(v@));
        return r;
    }
    let pieces = split_chars(v, '\n');
    let ghost ps = views(pieces@);
    proof {
        lemma_split_on_nonempty(v@, '\n');
    }
    let ended = v[v.len() - 1] == '\n';
    let count = if ended { pieces.len() - 1 } else { pieces.len() };
    let mut r: Vec<Vec<char>> = Vec::new();
    let mut k: usize = 0;
    while k < count
        invariant
            k <= count,
            count <= pieces@.len(),
            ps == views(pieces@),
            ps == split_on(v@, '\n'),
            v@.len() > 0,
            ended == (v@.last() == '\n'),
            count == (if ended { ps.len() - 1 } else { ps.len() as int }),
            r@.len() == k,
            forall|j: int| 0 <= j < k ==> (#[trigger] r@[j])@ == lines(v@)[j],
        decreases count - k,
    {
        let piece = &pieces[k];
        let strip = (ended || k + 1 < count) && piece.len() > 0 && piece[piece.len() - 1] == '\r';
        let line = if strip { slice_of(piece, 0, piece.len() - 1) } else { slice_of(piece, 0, piece.len()) };
        proof {
            assert(piece@ == ps[k as int]);
            assert(piece@.subrange(0, piece@.len() as int) =~= piece@);
            if piece@.len() > 0 {
                assert(piece@.subrange(0, piece@.len() - 1) =~= piece@.drop_last());
            }
        }
        r.push(line);
        k = k + 1;
    }
    assert(views(r@) =~= lines(v@));
    r
}

/// The decimal digits of `n` (how `Display` writes an unsigned integer).
pub open spec fn decimal(n: nat) -> Seq<char>
    decreases n,
{
    if n < 10 {
        seq![digit_char(n)]
    } else {
        decimal(n / 10).push(digit_char(n % 10))
    }
}

/// The character of a digit below ten.
pub open spec fn digit_char(d: nat) -> char {
    (('0' as u32) + d) as char
}

/// How `Display` writes a signed integer.
pub open spec fn signed_decimal(n: int) -> Seq<char> {
    if n < 0 {
        seq!['-'] + decimal((-n) as nat)
    } else {
        decimal(n as nat)
    }
}

fn digit(d: u64) -> (r: char)
    requires
        d < 10,
    ensures
        r == digit_char(d as nat),
{
    let b: u8 = (48 + d) as u8;
    b as char
}

/// The decimal text of `n`.
pub fn decimal_string(n: u64) -> (r: String)
    ensures
        r@ == decimal(n as nat),
    decreases n,
{
    if n < 10 {
        let mut s = String::new();
        push_char(&mut s, digit(n));
        assert(s@ =~= decimal(n as nat));
        s
    } else {
        let mut s = decimal_string(n / 10);
        push_char(&mut s, digit(n % 10));
        s
    }
}

/// The decimal text of a signed `n`.
pub fn signed_decimal_string(n: i64) -> (r: String)
    ensures
        r@ == signed_decimal(n as int),
{
    if n < 0 {
        let magnitude: u64 = if n == i64::MIN { 9223372036854775808u64 } else { (-n) as u64 };
        let mut s = String::new();
        push_char(&mut s, '-');
        let digits = decimal_string(magnitude);
        s.append(digits.as_str());
        assert(s@ =~= signed_decimal(n as int));
        s
    } else {
        decimal_string(n as u64)
    }
}

/// What `<str as Debug>::fmt` writes: the text in double quotes with the
/// characters that need it escaped.
pub uninterp spec fn debug_quoted(s: Seq<char>) -> Seq<char>;

/// Formats the text with `{:?}`; the contract names the result `debug_quoted`.
#[verifier::external_body]
pub(crate) fn quoted(s: &str) -> (r: String)
    ensures
        r@ == debug_quoted(s@),
{
    format!("{s:?}")
}

/// What `<char as Debug>::fmt` writes: the character in single quotes,
/// escaped where it needs it.
pub uninterp spec fn debug_char(c: char) -> Seq<char>;

/// Formats the character with `{:?}`; the contract names the result
/// `debug_char`.
#[verifier::external_body]
pub(crate) fn quoted_char(c: char) -> (r: String)
    ensures
        r@ == debug_char(c),
{
    format!("{c:?}")
}

/// What `str::to_lowercase` gives: the full Unicode lower-case mapping.
pub uninterp spec fn lowercase(s: Seq<char>) -> Seq<char>;

/// Calls `str::to_lowercase`; the contract names the result `lowercase`.
#[verifier::external_body]
pub(crate) fn to_lowercase(s: &str) -> (r: String)
    ensures
        r@ == lowercase(s@),
{
    s.to_lowercase()
}

/// The length in bytes of the UTF-8 encoding (`str::len`).
pub open spec fn utf8_len(s: Seq<char>) -> nat {
    vstd::utf8::encode_utf8(s).len()
}

/// Byte strings in lexicographic order (how `String` and `str` compare).
pub open spec fn bytes_lt(a: Seq<u8>, b: Seq<u8>) -> bool
    decreases a.len(),
{
    if a.len() == 0 {
        b.len() > 0
    } else if b.len() == 0 {
        false
    } else if a[0] != b[0] {
        a[0] < b[0]
    } else {
        bytes_lt(a.drop_first(), b.drop_first())
    }
}

pub proof fn lemma_bytes_lt_asym(a: Seq<u8>, b: Seq<u8>)
    ensures
        !(bytes_lt(a, b) && bytes_lt(b, a)),
        !bytes_lt(a, a),
    decreases a.len(),
{
    if a.len() > 0 && b.len() > 0 && a[0] == b[0] {
        lemma_bytes_lt_asym(a.drop_first(), b.drop_first());
    }
    if a.len() > 0 {
        lemma_bytes_lt_asym(a.drop_first(), a.drop_first());
    }
}

pub proof fn lemma_bytes_lt_total(a: Seq<u8>, b: Seq<u8>)
    ensures
        a != b ==> bytes_lt(a, b) || bytes_lt(b, a),
    decreases a.len(),
{
    if a.len() > 0 && b.len() > 0 && a[0] == b[0] {
        lemma_bytes_lt_total(a.drop_first(), b.drop_first());
        if a.drop_first() == b.drop_first() {
            assert(a =~= seq![a[0]] + a.drop_first());
            assert(b =~= seq![b[0]] + b.drop_first());
        }
    }
    if a.len() == 0 && b.len() == 0 {
        assert(a =~= b);
    }
}

pub proof fn lemma_bytes_lt_trans(a: Seq<u8>, b: Seq<u8>, c: Seq<u8>)
    requires
        bytes_lt(a, b),
        bytes_lt(b, c),
    ensures
        bytes_lt(a, c),
    decreases a.len(),
{
    if a.len() > 0 && b.len() > 0 && c.len() > 0 && a[0] == b[0] && b[0] == c[0] {
        lemma_bytes_lt_trans(a.drop_first(), b.drop_first(), c.drop_first());
    }
}

/// Compares two byte strings lexicographically.
pub fn bytes_less(a: &[u8], b: &[u8]) -> (r: bool)
    ensures
        r == bytes_lt(a@, b@),
{
    let mut i: usize = 0;
    assert(a@.skip(0) =~= a@);
    assert(b@.skip(0) =~= b@);
    while i < a.len() && i < b.len()
        invariant
            i <= a@.len(),
            i <= b@.len(),
            a@.take(i as int) == b@.take(i as int),
            bytes_lt(a@, b@) == bytes_lt(a@.skip(i as int), b@.skip(i as int)),
        decreases a@.len() - i,
    {
        if a[i] != b[i] {
            return a[i] < b[i];
        }
        assert(a@.skip(i as int).drop_first() =~= a@.skip(i + 1));
        assert(b@.skip(i as int).drop_first() =~= b@.skip(i + 1));
        assert(a@.take(i + 1) =~= a@.take(i as int).push(a@[i as int]));
        assert(b@.take(i + 1) =~= b@.take(i as int).push(b@[i as int]));
        i = i + 1;
    }
    i < b.len()
}

/// The first character of the lower-case mapping of `c`
/// (`char::to_lowercase`, first item).
pub uninterp spec fn first_lowercase(c: char) -> Option<char>;

/// Calls `char::to_lowercase` and takes the first character of the mapping;
/// the contract names it `first_lowercase`.
#[verifier::external_body]
pub(crate) fn lowercase_first(c: char) -> (r: Option<char>)
    ensures
        r == first_lowercase(c),
{
    c.to_lowercase().next()
}


/// The upper-case mapping of `c` (`char::to_uppercase`): one character or
/// several (`ß` becomes `SS`).
pub uninterp spec fn uppercase_mapping(c: char) -> Seq<char>;

/// Calls `char::to_uppercase` and collects the mapping; the contract names it
/// `uppercase_mapping`.
#[verifier::external_body]
pub(crate) fn uppercase_of(c: char) -> (r: String)
    ensures
        r@ == uppercase_mapping(c),
{
    c.to_uppercase().collect()
}

} // verus!

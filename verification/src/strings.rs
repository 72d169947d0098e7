//! Character-sequence toolkit: the string operations the library is built
//! from, each proved against a specification over `Seq<char>`.
use vstd::prelude::*;
use crate::unicode::{char_alphanumeric, char_whitespace, is_alphanumeric, is_whitespace, lowercase, uppercase, to_lowercase, to_uppercase};

verus! {

// ---------------------------------------------------------------------------
// Specifications
// ---------------------------------------------------------------------------

/// The character sequences of a list of strings.
pub open spec fn strings_view(s: Seq<String>) -> Seq<Seq<char>> {
    s.map_values(|x: String| x@)
}

/// `p` occurs in `s` starting at position `i`.
pub open spec fn occurs_at(s: Seq<char>, p: Seq<char>, i: int) -> bool {
    0 <= i && i + p.len() <= s.len() && s.subrange(i, i + p.len()) == p
}

/// `p` occurs somewhere in `s` (the empty pattern occurs everywhere).
pub open spec fn contains(s: Seq<char>, p: Seq<char>) -> bool {
    exists|i: int| occurs_at(s, p, i)
}

pub open spec fn starts_with(s: Seq<char>, p: Seq<char>) -> bool {
    p.len() <= s.len() && s.take(p.len() as int) == p
}

pub open spec fn ends_with(s: Seq<char>, p: Seq<char>) -> bool {
    p.len() <= s.len() && s.skip(s.len() - p.len()) == p
}

/// Leftmost occurrence of `p` in `s` at or after `i`.
pub open spec fn find_from(s: Seq<char>, p: Seq<char>, i: int) -> Option<int>
    decreases s.len() + 1 - i,
{
    if i < 0 || i + p.len() > s.len() {
        None
    } else if occurs_at(s, p, i) {
        Some(i)
    } else {
        find_from(s, p, i + 1)
    }
}

/// Leftmost occurrence of `p` in `s`.
pub open spec fn find(s: Seq<char>, p: Seq<char>) -> Option<int> {
    find_from(s, p, 0)
}

/// Position of the last `c` in `s`.
pub open spec fn rfind_char(s: Seq<char>, c: char) -> Option<int>
    decreases s.len(),
{
    if s.len() == 0 {
        None
    } else if s.last() == c {
        Some(s.len() - 1)
    } else {
        rfind_char(s.drop_last(), c)
    }
}

/// `s` cut at every leftmost, non-overlapping occurrence of the non-empty
/// `sep` (std `str::split` with a string pattern).
pub open spec fn split_on(s: Seq<char>, sep: Seq<char>) -> Seq<Seq<char>>
    decreases s.len(),
{
    if sep.len() == 0 {
        seq![s]
    } else {
        match find(s, sep) {
            Some(i) => if 0 <= i && i + sep.len() <= s.len() {
                seq![s.take(i)] + split_on(s.skip(i + sep.len()), sep)
            } else {
                seq![s]
            },
            None => seq![s],
        }
    }
}

/// The pieces joined with `sep` between neighbours (std `join`).
pub open spec fn join(parts: Seq<Seq<char>>, sep: Seq<char>) -> Seq<char>
    decreases parts.len(),
{
    if parts.len() == 0 {
        seq![]
    } else if parts.len() == 1 {
        parts[0]
    } else {
        join(parts.drop_last(), sep) + sep + parts.last()
    }
}

/// std `str::replace`: every leftmost non-overlapping `from` becomes `to`.
pub open spec fn replace(s: Seq<char>, from: Seq<char>, to: Seq<char>) -> Seq<char> {
    join(split_on(s, from), to)
}

/// The separator classes the library splits text on.
#[derive(PartialEq, Eq, Clone, Copy, Debug)]
pub enum SepKind {
    /// Anything that is not alphanumeric.
    NonAlphanumeric,
    /// Anything that is neither alphanumeric nor `_`.
    NonWord,
    /// Whitespace.
    Whitespace,
    /// Whitespace, `?`, `.` or a backtick.
    QueryPunct,
    /// `/` or `\\`.
    PathSep,
}

pub open spec fn is_sep(kind: SepKind, c: char) -> bool {
    match kind {
        SepKind::NonAlphanumeric => !char_alphanumeric(c),
        SepKind::NonWord => !char_alphanumeric(c) && c != '_',
        SepKind::Whitespace => char_whitespace(c),
        SepKind::QueryPunct => char_whitespace(c) || c == '?' || c == '.' || c == '`',
        SepKind::PathSep => c == '/' || c == '\\',
    }
}

/// Left-to-right scan state of a split: finished pieces and the open piece.
pub open spec fn split_scan(s: Seq<char>, kind: SepKind) -> (Seq<Seq<char>>, Seq<char>)
    decreases s.len(),
{
    if s.len() == 0 {
        (seq![], seq![])
    } else {
        let (done, cur) = split_scan(s.drop_last(), kind);
        let c = s.last();
        if is_sep(kind, c) {
            (done.push(cur), seq![])
        } else {
            (done, cur.push(c))
        }
    }
}

/// std `str::split(pred)`: the pieces between separator characters,
/// empty pieces included.
pub open spec fn split_chars(s: Seq<char>, kind: SepKind) -> Seq<Seq<char>> {
    let (done, cur) = split_scan(s, kind);
    done.push(cur)
}

/// The non-empty pieces of `split_chars`, in order.
pub open spec fn words(s: Seq<char>, kind: SepKind) -> Seq<Seq<char>> {
    split_chars(s, kind).filter(|w: Seq<char>| w.len() > 0)
}

/// std `trim_start`.
pub open spec fn trim_start(s: Seq<char>) -> Seq<char>
    decreases s.len(),
{
    if s.len() > 0 && char_whitespace(s[0]) {
        trim_start(s.drop_first())
    } else {
        s
    }
}

/// std `trim_end`.
pub open spec fn trim_end(s: Seq<char>) -> Seq<char>
    decreases s.len(),
{
    if s.len() > 0 && char_whitespace(s.last()) {
        trim_end(s.drop_last())
    } else {
        s
    }
}

/// std `trim`.
pub open spec fn trim(s: Seq<char>) -> Seq<char> {
    trim_end(trim_start(s))
}

/// A line without its trailing carriage return.
pub open spec fn strip_cr(l: Seq<char>) -> Seq<char> {
    if l.len() > 0 && l.last() == '\r' {
        l.drop_last()
    } else {
        l
    }
}

/// std `str::lines`: split at `\n`; a line ended by `\n` loses one
/// trailing `\r` (a `\r\n` ending); the unterminated last piece is kept
/// as it is (a bare `\r` there stays), and dropped when empty.
pub open spec fn lines(s: Seq<char>) -> Seq<Seq<char>> {
    let ps = split_on(s, seq!['\n']);
    let ended = ps.drop_last().map_values(|l: Seq<char>| strip_cr(l));
    if ps.last().len() == 0 {
        ended
    } else {
        ended.push(ps.last())
    }
}

pub open spec fn digit_char(d: nat) -> char {
    if d == 0 { '0' }
    else if d == 1 { '1' }
    else if d == 2 { '2' }
    else if d == 3 { '3' }
    else if d == 4 { '4' }
    else if d == 5 { '5' }
    else if d == 6 { '6' }
    else if d == 7 { '7' }
    else if d == 8 { '8' }
    else { '9' }
}

/// Decimal rendering of `n`, as `Display` writes an unsigned integer.
pub open spec fn decimal(n: nat) -> Seq<char>
    decreases n,
{
    if n < 10 {
        seq![digit_char(n)]
    } else {
        decimal(n / 10).push(digit_char(n % 10))
    }
}

// ---------------------------------------------------------------------------
// Lemmas
// ---------------------------------------------------------------------------

pub proof fn lemma_find_from(s: Seq<char>, p: Seq<char>, i: int)
    requires
        0 <= i,
    ensures
        match find_from(s, p, i) {
            Some(j) => i <= j && occurs_at(s, p, j) && forall|k: int|
                i <= k < j ==> !occurs_at(s, p, k),
            None => forall|k: int| i <= k ==> !occurs_at(s, p, k),
        },
    decreases s.len() + 1 - i,
{
    if i + p.len() > s.len() {
    } else if occurs_at(s, p, i) {
    } else {
        lemma_find_from(s, p, i + 1);
    }
}

pub proof fn lemma_find(s: Seq<char>, p: Seq<char>)
    ensures
        match find(s, p) {
            Some(j) => 0 <= j && occurs_at(s, p, j) && forall|k: int|
                0 <= k < j ==> !occurs_at(s, p, k),
            None => !contains(s, p),
        },
{
    lemma_find_from(s, p, 0);
}

pub proof fn lemma_find_contains(s: Seq<char>, p: Seq<char>)
    ensures
        (find(s, p) is Some) == contains(s, p),
{
    lemma_find(s, p);
}

// ---------------------------------------------------------------------------
// Conversions
// ---------------------------------------------------------------------------

/// The characters of `s`, in order.
pub fn chars_of(s: &str) -> (v: Vec<char>)
    ensures
        v@ == s@,
{
    let mut v: Vec<char> = Vec::new();
    for c in it: s.chars()
        invariant
            v@ == it.seq().take(it.index() as int),
            it.seq() == s@,
    {
        v.push(c);
    }
    v
}

/// Appends one character (std `String::push`).
#[verifier::external_body]
pub fn push_char(s: &mut String, c: char)
    ensures
        final(s)@ == old(s)@.push(c),
{
    s.push(c);
}

/// The string whose characters are `v`.
pub fn string_of(v: &Vec<char>) -> (s: String)
    ensures
        s@ == v@,
{
    let mut s = String::new();
    let mut i: usize = 0;
    while i < v.len()
        invariant
            i <= v.len(),
            s@ == v@.take(i as int),
        decreases v.len() - i,
    {
        push_char(&mut s, v[i]);
        assert(v@.take(i + 1) == v@.take(i as int).push(v@[i as int]));
        i += 1;
    }
    assert(v@.take(v.len() as int) == v@);
    s
}

/// Appends all of `w` to `v`.
pub fn extend(v: &mut Vec<char>, w: &Vec<char>)
    ensures
        final(v)@ == old(v)@ + w@,
{
    let mut i: usize = 0;
    while i < w.len()
        invariant
            i <= w.len(),
            v@ == old(v)@ + w@.take(i as int),
        decreases w.len() - i,
    {
        v.push(w[i]);
        assert(w@.take(i + 1) == w@.take(i as int).push(w@[i as int]));
        i += 1;
    }
    assert(w@.take(w.len() as int) == w@);
}

/// Appends the characters of `s` to `v`.
pub fn extend_str(v: &mut Vec<char>, s: &str)
    ensures
        final(v)@ == old(v)@ + s@,
{
    let w = chars_of(s);
    extend(v, &w);
}

/// `a` followed by `b`.
pub fn concat(a: &Vec<char>, b: &Vec<char>) -> (r: Vec<char>)
    ensures
        r@ == a@ + b@,
{
    let mut r = a.clone();
    assert(r@ == a@);
    extend(&mut r, b);
    r
}

/// Characters `from..to` of `v`.
pub fn slice(v: &Vec<char>, from: usize, to: usize) -> (r: Vec<char>)
    requires
        from <= to <= v.len(),
    ensures
        r@ == v@.subrange(from as int, to as int),
{
    let mut r: Vec<char> = Vec::new();
    let mut i = from;
    while i < to
        invariant
            from <= i <= to <= v.len(),
            r@ == v@.subrange(from as int, i as int),
        decreases to - i,
    {
        r.push(v[i]);
        assert(v@.subrange(from as int, i + 1) == v@.subrange(from as int, i as int).push(
            v@[i as int],
        ));
        i += 1;
    }
    r
}

pub fn digit_of(d: usize) -> (c: char)
    requires
        d < 10,
    ensures
        c == digit_char(d as nat),
{
    if d == 0 { '0' }
    else if d == 1 { '1' }
    else if d == 2 { '2' }
    else if d == 3 { '3' }
    else if d == 4 { '4' }
    else if d == 5 { '5' }
    else if d == 6 { '6' }
    else if d == 7 { '7' }
    else if d == 8 { '8' }
    else { '9' }
}

/// Decimal digits of `n`.
pub fn decimal_of(n: usize) -> (r: Vec<char>)
    ensures
        r@ == decimal(n as nat),
    decreases n,
{
    if n < 10 {
        let mut r = Vec::new();
        r.push(digit_of(n));
        r
    } else {
        let mut r = decimal_of(n / 10);
        r.push(digit_of(n % 10));
        r
    }
}

// ---------------------------------------------------------------------------
// Comparison and search
// ---------------------------------------------------------------------------

/// Character-wise equality.
pub fn eq(a: &Vec<char>, b: &Vec<char>) -> (r: bool)
    ensures
        r == (a@ == b@),
{
    if a.len() != b.len() {
        return false;
    }
    let mut i: usize = 0;
    while i < a.len()
        invariant
            a.len() == b.len(),
            i <= a.len(),
            forall|k: int| 0 <= k < i ==> a@[k] == b@[k],
        decreases a.len() - i,
    {
        if a[i] != b[i] {
            return false;
        }
        i += 1;
    }
    assert(a@ =~= b@);
    true
}

/// Does `p` occur in `s` at `i`?
pub fn matches_at(s: &Vec<char>, p: &Vec<char>, i: usize) -> (r: bool)
    ensures
        r == occurs_at(s@, p@, i as int),
{
    if i > s.len() || p.len() > s.len() - i {
        return false;
    }
    let mut k: usize = 0;
    while k < p.len()
        invariant
            i + p.len() <= s.len(),
            k <= p.len(),
            forall|j: int| 0 <= j < k ==> s@[i + j] == p@[j],
        decreases p.len() - k,
    {
        if s[i + k] != p[k] {
            assert(s@.subrange(i as int, i + p.len())[k as int] != p@[k as int]);
            return false;
        }
        k += 1;
    }
    assert(s@.subrange(i as int, i + p.len()) =~= p@);
    true
}

pub fn starts_with_vec(s: &Vec<char>, p: &Vec<char>) -> (r: bool)
    ensures
        r == starts_with(s@, p@),
{
    let r = matches_at(s, p, 0);
    assert(s@.subrange(0, p@.len() as int) == s@.take(p@.len() as int));
    r
}

pub fn ends_with_vec(s: &Vec<char>, p: &Vec<char>) -> (r: bool)
    ensures
        r == ends_with(s@, p@),
{
    if p.len() > s.len() {
        return false;
    }
    let r = matches_at(s, p, s.len() - p.len());
    assert(s@.subrange(s@.len() - p@.len(), s@.len() as int) == s@.skip(s@.len() - p@.len()));
    r
}

/// Leftmost occurrence of `p` in `s`.
pub fn find_vec(s: &Vec<char>, p: &Vec<char>) -> (r: Option<usize>)
    ensures
        match r {
            Some(i) => find(s@, p@) == Some(i as int),
            None => find(s@, p@) is None,
        },
{
    if p.len() > s.len() {
        return None;
    }
    let last = s.len() - p.len();
    let mut i: usize = 0;
    loop
        invariant
            p.len() <= s.len(),
            last == s.len() - p.len(),
            i <= last,
            find_from(s@, p@, 0) == find_from(s@, p@, i as int),
        decreases last - i,
    {
        if matches_at(s, p, i) {
            return Some(i);
        }
        if i == last {
            assert(find_from(s@, p@, i + 1) is None);
            assert(find_from(s@, p@, i as int) is None);
            return None;
        }
        i += 1;
    }
}

pub fn contains_vec(s: &Vec<char>, p: &Vec<char>) -> (r: bool)
    ensures
        r == contains(s@, p@),
{
    proof {
        lemma_find_contains(s@, p@);
    }
    find_vec(s, p).is_some()
}

/// Does the text contain the literal?
pub fn contains_lit(s: &Vec<char>, lit: &str) -> (r: bool)
    ensures
        r == contains(s@, lit@),
{
    let p = chars_of(lit);
    contains_vec(s, &p)
}

/// Position of the last `c` in `s`.
pub fn rfind_char_vec(s: &Vec<char>, c: char) -> (r: Option<usize>)
    ensures
        match r {
            Some(i) => i < s.len() && rfind_char(s@, c) == Some(i as int),
            None => rfind_char(s@, c) is None,
        },
{
    let mut i = s.len();
    assert(s@.take(i as int) == s@);
    while i > 0
        invariant
            i <= s.len(),
            rfind_char(s@, c) == rfind_char(s@.take(i as int), c),
        decreases i,
    {
        assert(s@.take(i as int).drop_last() == s@.take(i - 1));
        if s[i - 1] == c {
            return Some(i - 1);
        }
        i -= 1;
    }
    None
}

// ---------------------------------------------------------------------------
// Splitting, joining, trimming
// ---------------------------------------------------------------------------

pub fn is_sep_char(kind: SepKind, c: char) -> (r: bool)
    ensures
        r == is_sep(kind, c),
{
    match kind {
        SepKind::NonAlphanumeric => !is_alphanumeric(c),
        SepKind::NonWord => !is_alphanumeric(c) && c != '_',
        SepKind::Whitespace => is_whitespace(c),
        SepKind::QueryPunct => is_whitespace(c) || c == '?' || c == '.' || c == '`',
        SepKind::PathSep => c == '/' || c == '\\',
    }
}

/// std `split(pred)`: pieces between separator characters.
pub fn split_chars_vec(s: &Vec<char>, kind: SepKind) -> (r: Vec<Vec<char>>)
    ensures
        r@.map_values(|w: Vec<char>| w@) == split_chars(s@, kind),
{
    let mut done: Vec<Vec<char>> = Vec::new();
    let mut cur: Vec<char> = Vec::new();
    let mut i: usize = 0;
    while i < s.len()
        invariant
            i <= s.len(),
            (done@.map_values(|w: Vec<char>| w@), cur@) == split_scan(s@.take(i as int), kind),
        decreases s.len() - i,
    {
        let c = s[i];
        assert(s@.take(i + 1).drop_last() == s@.take(i as int));
        assert(s@.take(i + 1).last() == c);
        if is_sep_char(kind, c) {
            let piece = cur;
            done.push(piece);
            cur = Vec::new();
            assert(done@.map_values(|w: Vec<char>| w@) =~= split_scan(
                s@.take(i as int),
                kind,
            ).0.push(piece@));
        } else {
            cur.push(c);
        }
        i += 1;
    }
    assert(s@.take(s.len() as int) == s@);
    let ghost before = done@;
    done.push(cur);
    assert(done@.map_values(|w: Vec<char>| w@) =~= before.map_values(|w: Vec<char>| w@).push(
        cur@,
    ));
    done
}

/// Non-empty pieces of `split_chars_vec`, in order.
pub fn words_vec(s: &Vec<char>, kind: SepKind) -> (r: Vec<Vec<char>>)
    ensures
        r@.map_values(|w: Vec<char>| w@) == words(s@, kind),
{
    let parts = split_chars_vec(s, kind);
    let ghost all = parts@.map_values(|w: Vec<char>| w@);
    let mut r: Vec<Vec<char>> = Vec::new();
    let mut i: usize = 0;
    while i < parts.len()
        invariant
            i <= parts.len(),
            all == parts@.map_values(|w: Vec<char>| w@),
            r@.map_values(|w: Vec<char>| w@) == all.take(i as int).filter(
                |w: Seq<char>| w.len() > 0,
            ),
        decreases parts.len() - i,
    {
        assert(all.take(i + 1) == all.take(i as int).push(all[i as int]));
        reveal_with_fuel(Seq::filter, 1);
        assert(all.take(i + 1).drop_last() == all.take(i as int));
        if parts[i].len() > 0 {
            let ghost before = r@;
            r.push(parts[i].clone());
            assert(r@.map_values(|w: Vec<char>| w@) =~= before.map_values(|w: Vec<char>| w@).push(
                all[i as int],
            ));
        }
        i += 1;
    }
    assert(all.take(parts.len() as int) == all);
    r
}

/// std `join` with a separator.
pub fn join_vec(parts: &Vec<Vec<char>>, sep: &Vec<char>) -> (r: Vec<char>)
    ensures
        r@ == join(parts@.map_values(|w: Vec<char>| w@), sep@),
{
    let ghost all = parts@.map_values(|w: Vec<char>| w@);
    let mut r: Vec<char> = Vec::new();
    let mut i: usize = 0;
    while i < parts.len()
        invariant
            i <= parts.len(),
            all == parts@.map_values(|w: Vec<char>| w@),
            r@ == join(all.take(i as int), sep@),
        decreases parts.len() - i,
    {
        assert(all.take(i + 1).drop_last() == all.take(i as int));
        assert(all.take(i + 1).last() == parts@[i as int]@);
        if i > 0 {
            extend(&mut r, sep);
        }
        extend(&mut r, &parts[i]);
        proof {
            if i == 0 {
                assert(all.take(1) =~= seq![parts@[0]@]);
            }
        }
        i += 1;
    }
    assert(all.take(parts.len() as int) == all);
    r
}

/// std `trim`.
pub fn trim_vec(s: &Vec<char>) -> (r: Vec<char>)
    ensures
        r@ == trim(s@),
{
    let mut a: usize = 0;
    assert(s@.skip(0) == s@);
    while a < s.len() && is_whitespace(s[a])
        invariant
            a <= s.len(),
            trim_start(s@) == trim_start(s@.skip(a as int)),
        decreases s.len() - a,
    {
        assert(s@.skip(a as int).drop_first() == s@.skip(a + 1));
        a += 1;
    }
    let mut b: usize = s.len();
    while b > a && is_whitespace(s[b - 1])
        invariant
            a <= b <= s.len(),
            trim_start(s@) == s@.skip(a as int),
            trim(s@) == trim_end(s@.subrange(a as int, b as int)),
        decreases b - a,
    {
        assert(s@.subrange(a as int, b as int).drop_last() == s@.subrange(a as int, b - 1));
        b -= 1;
    }
    proof {
        if a == s.len() {
            assert(s@.skip(a as int).len() == 0);
        }
    }
    slice(s, a, b)
}

/// std `split` with a string separator.
pub fn split_on_vec(s: &Vec<char>, sep: &Vec<char>) -> (r: Vec<Vec<char>>)
    ensures
        r@.map_values(|w: Vec<char>| w@) == split_on(s@, sep@),
    decreases s.len(),
{
    if sep.len() == 0 {
        let mut r: Vec<Vec<char>> = Vec::new();
        r.push(s.clone());
        assert(r@.map_values(|w: Vec<char>| w@) =~= seq![s@]);
        return r;
    }
    match find_vec(s, sep) {
        Some(i) => {
            proof {
                lemma_find(s@, sep@);
            }
            let head = slice(s, 0, i);
            let rest = slice(s, i + sep.len(), s.len());
            assert(rest@ == s@.skip(i + sep.len()));
            assert(head@ == s@.take(i as int));
            let tail = split_on_vec(&rest, sep);
            let mut r: Vec<Vec<char>> = Vec::new();
            r.push(head);
            let mut k: usize = 0;
            while k < tail.len()
                invariant
                    k <= tail.len(),
                    r@.len() == k + 1,
                    r@[0]@ == s@.take(i as int),
                    forall|j: int| 0 <= j < k ==> r@[j + 1]@ == tail@[j]@,
                decreases tail.len() - k,
            {
                r.push(tail[k].clone());
                k += 1;
            }
            assert(r@.map_values(|w: Vec<char>| w@) =~= seq![s@.take(i as int)]
                + tail@.map_values(|w: Vec<char>| w@));
            r
        },
        None => {
            let mut r: Vec<Vec<char>> = Vec::new();
            r.push(s.clone());
            assert(r@.map_values(|w: Vec<char>| w@) =~= seq![s@]);
            r
        },
    }
}

/// std `replace`.
pub fn replace_vec(s: &Vec<char>, from: &Vec<char>, to: &Vec<char>) -> (r: Vec<char>)
    ensures
        r@ == replace(s@, from@, to@),
{
    let parts = split_on_vec(s, from);
    join_vec(&parts, to)
}

/// std `lines`: `\n` and `\r\n` endings removed, a bare `\r` at the very
/// end kept.
pub fn lines_vec(s: &Vec<char>) -> (r: Vec<Vec<char>>)
    ensures
        r@.map_values(|w: Vec<char>| w@) == lines(s@),
{
    let mut nl: Vec<char> = Vec::new();
    nl.push('\n');
    assert(nl@ == seq!['\n']);
    let ps = split_on_vec(s, &nl);
    let ghost all = ps@.map_values(|w: Vec<char>| w@);
    proof {
        lemma_split_on_nonempty(s@, nl@);
    }
    let last = ps.len() - 1;
    let ghost ended = all.drop_last().map_values(|l: Seq<char>| strip_cr(l));
    let mut r: Vec<Vec<char>> = Vec::new();
    let mut i: usize = 0;
    while i < last
        invariant
            i <= last,
            last == ps.len() - 1,
            all == ps@.map_values(|w: Vec<char>| w@),
            r@.len() == i,
            forall|j: int| 0 <= j < i ==> #[trigger] r@[j]@ == strip_cr(all[j]),
        decreases last - i,
    {
        let l = &ps[i];
        if l.len() > 0 && l[l.len() - 1] == '\r' {
            r.push(slice(l, 0, l.len() - 1));
        } else {
            r.push(l.clone());
        }
        i += 1;
    }
    assert(r@.map_values(|w: Vec<char>| w@) =~= ended);
    if ps[last].len() > 0 {
        let ghost before = r@.map_values(|w: Vec<char>| w@);
        r.push(ps[last].clone());
        assert(r@.map_values(|w: Vec<char>| w@) =~= before.push(all.last()));
    }
    r
}

/// `join` seen from the front: the first piece, the separator, then the rest.
pub proof fn lemma_join_front(parts: Seq<Seq<char>>, sep: Seq<char>)
    requires
        parts.len() >= 2,
    ensures
        join(parts, sep) == parts[0] + sep + join(parts.drop_first(), sep),
    decreases parts.len(),
{
    let rest = parts.drop_first();
    if parts.len() == 2 {
        assert(parts.drop_last().len() == 1);
        assert(join(parts.drop_last(), sep) == parts.drop_last()[0]);
        assert(parts.drop_last()[0] == parts[0]);
        assert(join(rest, sep) == rest[0]);
        assert(rest[0] == parts.last());
    } else {
        lemma_join_front(parts.drop_last(), sep);
        assert(parts.drop_last().drop_first() == rest.drop_last());
        assert(rest.last() == parts.last());
        assert(join(parts, sep) =~= parts[0] + sep + join(rest, sep));
    }
}

/// Joining the pieces of a split with the separator gives the text back.
pub proof fn lemma_join_split(s: Seq<char>, sep: Seq<char>)
    ensures
        join(split_on(s, sep), sep) == s,
    decreases s.len(),
{
    if sep.len() > 0 {
        lemma_find(s, sep);
        match find(s, sep) {
            Some(i) => {
                let tail = s.skip(i + sep.len());
                lemma_join_split(tail, sep);
                lemma_split_on_nonempty(tail, sep);
                let rest = split_on(tail, sep);
                let all = seq![s.take(i)] + rest;
                assert(split_on(s, sep) == all);
                lemma_join_front(all, sep);
                assert(all.drop_first() == rest);
                assert(s.subrange(i, i + sep.len()) == sep);
                assert(s =~= s.take(i) + sep + tail);
            },
            None => {},
        }
    }
}

/// Splitting a join gives the pieces back when no piece holds the
/// separator's first character.
pub proof fn lemma_split_join(parts: Seq<Seq<char>>, sep: Seq<char>)
    requires
        parts.len() >= 1,
        sep.len() > 0,
        forall|j: int| 0 <= j < parts.len() ==> !(#[trigger] parts[j]).contains(sep[0]),
    ensures
        split_on(join(parts, sep), sep) == parts,
    decreases parts.len(),
{
    let p0 = parts[0];
    assert(!p0.contains(sep[0]));
    if parts.len() == 1 {
        let t = join(parts, sep);
        assert(t == p0);
        lemma_find(t, sep);
        if find(t, sep) is Some {
            let k = find(t, sep)->0;
            assert(t.subrange(k, k + sep.len())[0] == sep[0]);
            assert(t[k] == sep[0]);
        }
        assert(split_on(t, sep) =~= parts);
    } else {
        let rest = parts.drop_first();
        assert forall|j: int| 0 <= j < rest.len() implies !(#[trigger] rest[j]).contains(sep[0]) by {
            assert(rest[j] == parts[j + 1]);
        }
        lemma_split_join(rest, sep);
        lemma_join_front(parts, sep);
        let rj = join(rest, sep);
        let t = join(parts, sep);
        assert(t == p0 + sep + rj);
        let n = p0.len() as int;
        assert(t.subrange(n, n + sep.len()) =~= sep);
        assert(occurs_at(t, sep, n));
        lemma_find(t, sep);
        let k = find(t, sep)->0;
        assert(k == n) by {
            if k < n {
                assert(t.subrange(k, k + sep.len())[0] == sep[0]);
                assert(t[k] == p0[k]);
            }
        }
        assert(t.take(n) =~= p0);
        assert(t.skip(n + sep.len()) =~= rj);
        assert(split_on(t, sep) =~= seq![p0] + rest);
        assert(seq![p0] + rest =~= parts);
    }
}

/// No piece of a split on a one-character separator holds that character.
pub proof fn lemma_split_char_pieces(s: Seq<char>, c: char)
    ensures
        forall|j: int| 0 <= j < split_on(s, seq![c]).len() ==> !(#[trigger] split_on(s, seq![c])[j]).contains(c),
    decreases s.len(),
{
    let sep = seq![c];
    lemma_find(s, sep);
    match find(s, sep) {
        Some(i) => {
            let head = s.take(i);
            let tail = s.skip(i + 1);
            lemma_split_char_pieces(tail, c);
            assert(!head.contains(c)) by {
                if head.contains(c) {
                    let k = choose|k: int| 0 <= k < head.len() && head[k] == c;
                    assert(s.subrange(k, k + 1) =~= sep);
                    assert(occurs_at(s, sep, k));
                }
            }
            let rest = split_on(tail, sep);
            let all = split_on(s, sep);
            assert(all == seq![head] + rest);
            assert forall|j: int| 0 <= j < all.len() implies !(#[trigger] all[j]).contains(c) by {
                if j > 0 {
                    assert(all[j] == rest[j - 1]);
                }
            }
        },
        None => {
            assert(!s.contains(c)) by {
                if s.contains(c) {
                    let k = choose|k: int| 0 <= k < s.len() && s[k] == c;
                    assert(s.subrange(k, k + 1) =~= sep);
                    assert(occurs_at(s, sep, k));
                }
            }
            assert(split_on(s, sep)[0] == s);
        },
    }
}

/// A character absent from the text is absent from every piece of a split.
pub proof fn lemma_split_pieces_avoid(s: Seq<char>, sep: Seq<char>, c: char)
    requires
        !s.contains(c),
    ensures
        forall|j: int| 0 <= j < split_on(s, sep).len() ==> !(#[trigger] split_on(s, sep)[j]).contains(c),
    decreases s.len(),
{
    let all = split_on(s, sep);
    if sep.len() == 0 {
        assert(all[0] == s);
    } else {
        lemma_find(s, sep);
        match find(s, sep) {
            Some(i) => {
                let head = s.take(i);
                let tail = s.skip(i + sep.len());
                assert(!tail.contains(c)) by {
                    if tail.contains(c) {
                        let k = choose|k: int| 0 <= k < tail.len() && tail[k] == c;
                        assert(s[k + i + sep.len()] == c);
                    }
                }
                assert(!head.contains(c)) by {
                    if head.contains(c) {
                        let k = choose|k: int| 0 <= k < head.len() && head[k] == c;
                        assert(s[k] == c);
                    }
                }
                lemma_split_pieces_avoid(tail, sep, c);
                let rest = split_on(tail, sep);
                assert(all == seq![head] + rest);
                assert forall|j: int| 0 <= j < all.len() implies !(#[trigger] all[j]).contains(c) by {
                    if j > 0 {
                        assert(all[j] == rest[j - 1]);
                    }
                }
            },
            None => {
                assert(all[0] == s);
            },
        }
    }
}

/// Joining pieces that lack a character, with a separator that lacks it,
/// gives text that lacks it.
pub proof fn lemma_join_avoids(parts: Seq<Seq<char>>, sep: Seq<char>, c: char)
    requires
        forall|j: int| 0 <= j < parts.len() ==> !(#[trigger] parts[j]).contains(c),
        !sep.contains(c),
    ensures
        !join(parts, sep).contains(c),
    decreases parts.len(),
{
    if parts.len() == 1 {
        assert(!parts[0].contains(c));
    } else if parts.len() > 1 {
        let init = parts.drop_last();
        assert forall|j: int| 0 <= j < init.len() implies !(#[trigger] init[j]).contains(c) by {
            assert(init[j] == parts[j]);
        }
        lemma_join_avoids(init, sep, c);
        let a = join(init, sep);
        let last = parts[parts.len() - 1];
        assert(!last.contains(c));
        let whole = a + sep + last;
        assert(join(parts, sep) == whole);
        assert(!whole.contains(c)) by {
            if whole.contains(c) {
                let k = choose|k: int| 0 <= k < whole.len() && whole[k] == c;
                if k < a.len() {
                    assert(a[k] == c);
                } else if k < a.len() + sep.len() {
                    assert(sep[k - a.len()] == c);
                } else {
                    assert(last[k - a.len() - sep.len()] == c);
                }
            }
        }
    }
}

/// Replacing a character with text that lacks it leaves none behind.
pub proof fn lemma_replace_char_removes(s: Seq<char>, c: char, to: Seq<char>)
    requires
        !to.contains(c),
    ensures
        !replace(s, seq![c], to).contains(c),
{
    lemma_split_char_pieces(s, c);
    lemma_join_avoids(split_on(s, seq![c]), to, c);
}

/// Replacing never brings in a character that neither the text nor the
/// replacement holds.
pub proof fn lemma_replace_avoids(s: Seq<char>, from: Seq<char>, to: Seq<char>, c: char)
    requires
        !s.contains(c),
        !to.contains(c),
    ensures
        !replace(s, from, to).contains(c),
{
    lemma_split_pieces_avoid(s, from, c);
    lemma_join_avoids(split_on(s, from), to, c);
}

pub proof fn lemma_split_on_nonempty(s: Seq<char>, sep: Seq<char>)
    ensures
        split_on(s, sep).len() >= 1,
    decreases s.len(),
{
    if sep.len() > 0 {
        match find(s, sep) {
            Some(i) => if 0 <= i && i + sep.len() <= s.len() {
                lemma_split_on_nonempty(s.skip(i + sep.len()), sep);
            },
            None => {},
        }
    }
}

/// First line of `s` (empty when there is none), as `lines().next().unwrap_or("")`.
pub fn first_line(s: &Vec<char>) -> (r: Vec<char>)
    ensures
        r@ == (if lines(s@).len() > 0 { lines(s@)[0] } else { seq![] }),
{
    let ls = lines_vec(s);
    if ls.len() > 0 {
        ls[0].clone()
    } else {
        Vec::new()
    }
}

/// std `to_lowercase` on a character sequence.
pub fn lower_vec(s: &Vec<char>) -> (r: Vec<char>)
    ensures
        r@ == lowercase(s@),
{
    let st = string_of(s);
    let lo = to_lowercase(st.as_str());
    chars_of(lo.as_str())
}

/// std `to_uppercase` on a character sequence.
pub fn upper_vec(s: &Vec<char>) -> (r: Vec<char>)
    ensures
        r@ == uppercase(s@),
{
    let st = string_of(s);
    let up = to_uppercase(st.as_str());
    chars_of(up.as_str())
}

/// Owned copies of the pieces as `String`s.
pub fn strings_of(v: &Vec<Vec<char>>) -> (r: Vec<String>)
    ensures
        r@.map_values(|s: String| s@) == v@.map_values(|w: Vec<char>| w@),
{
    let mut r: Vec<String> = Vec::new();
    let mut i: usize = 0;
    while i < v.len()
        invariant
            i <= v.len(),
            r@.len() == i,
            forall|j: int| 0 <= j < i ==> #[trigger] r@[j]@ == v@[j]@,
        decreases v.len() - i,
    {
        r.push(string_of(&v[i]));
        i += 1;
    }
    assert(r@.map_values(|s: String| s@) =~= v@.map_values(|w: Vec<char>| w@));
    r
}

/// The strings joined with `sep` between neighbours.
pub fn join_strings(items: &[String], sep: &str) -> (r: Vec<char>)
    ensures
        r@ == join(strings_view(items@), sep@),
{
    let mut parts: Vec<Vec<char>> = Vec::new();
    let mut i: usize = 0;
    while i < items.len()
        invariant
            i <= items.len(),
            parts@.map_values(|w: Vec<char>| w@) == strings_view(items@).take(i as int),
        decreases items.len() - i,
    {
        let ghost before = parts@.map_values(|w: Vec<char>| w@);
        parts.push(chars_of(items[i].as_str()));
        assert(parts@.map_values(|w: Vec<char>| w@) =~= before.push(items@[i as int]@));
        assert(strings_view(items@).take(i + 1) =~= strings_view(items@).take(i as int).push(items@[i as int]@));
        i += 1;
    }
    assert(strings_view(items@).take(items.len() as int) =~= strings_view(items@));
    let sv = chars_of(sep);
    join_vec(&parts, &sv)
}

proof fn lemma_join_cons(x: Seq<char>, rest: Seq<Seq<char>>, sep: Seq<char>)
    requires
        rest.len() >= 1,
    ensures
        join(seq![x] + rest, sep) == x + sep + join(rest, sep),
{
    let ps = seq![x] + rest;
    lemma_join_front(ps, sep);
    assert(ps.drop_first() =~= rest);
    assert(ps[0] == x);
}

/// Replacing CRLFs distributes over a concatenation whose left part does
/// not end in `\r`: no CRLF straddles the seam.
pub proof fn lemma_replace_crlf_concat(a: Seq<char>, b: Seq<char>, to: Seq<char>)
    requires
        a.len() == 0 || a.last() != '\r',
    ensures
        replace(a + b, seq!['\r', '\n'], to) == replace(a, seq!['\r', '\n'], to) + replace(b, seq!['\r', '\n'], to),
    decreases a.len(),
{
    let p = seq!['\r', '\n'];
    let s = a + b;
    lemma_find(a, p);
    lemma_find(s, p);
    lemma_find(b, p);
    assert forall|j: int| 0 <= j && j + 2 <= a.len() implies occurs_at(s, p, j) == occurs_at(a, p, j) by {
        assert(s.subrange(j, j + 2) =~= a.subrange(j, j + 2));
    }
    assert forall|j: int| a.len() <= j implies occurs_at(s, p, j) == occurs_at(b, p, j - a.len()) by {
        if j + 2 <= s.len() {
            assert(s.subrange(j, j + 2) =~= b.subrange(j - a.len(), j - a.len() + 2));
        }
    }
    if a.len() > 0 {
        let j = a.len() - 1;
        if occurs_at(s, p, j) {
            assert(s.subrange(j, j + 2)[0] == s[j]);
            assert(s[j] == a.last());
        }
    }
    lemma_split_on_nonempty(s, p);
    match find(a, p) {
        Some(i) => {
            assert(find(s, p) == Some(i)) by {
                let k = find(s, p)->0;
                if k < i {
                    assert(!occurs_at(a, p, k));
                }
            }
            let a2 = a.skip(i + 2);
            assert(s.take(i) =~= a.take(i));
            assert(s.skip(i + 2) =~= a2 + b);
            if a2.len() > 0 {
                assert(a2.last() == a.last());
            }
            lemma_replace_crlf_concat(a2, b, to);
            lemma_split_on_nonempty(a2 + b, p);
            lemma_split_on_nonempty(a2, p);
            lemma_join_cons(a.take(i), split_on(a2 + b, p), to);
            lemma_join_cons(a.take(i), split_on(a2, p), to);
        },
        None => {
            assert(split_on(a, p) == seq![a]);
            assert(replace(a, p, to) == a);
            match find(b, p) {
                Some(k) => {
                    assert(occurs_at(s, p, a.len() + k));
                    assert(find(s, p) == Some(a.len() + k)) by {
                        let m = find(s, p)->0;
                        if m < a.len() + k {
                            if m + 2 <= a.len() {
                                assert(!occurs_at(a, p, m)) by {
                                    assert(!contains(a, p));
                                }
                            } else if m >= a.len() {
                                assert(!occurs_at(b, p, m - a.len()));
                            }
                        }
                    }
                    assert(s.take(a.len() + k) =~= a + b.take(k));
                    assert(s.skip(a.len() + k + 2) =~= b.skip(k + 2));
                    lemma_split_on_nonempty(b.skip(k + 2), p);
                    lemma_join_cons(a + b.take(k), split_on(b.skip(k + 2), p), to);
                    lemma_join_cons(b.take(k), split_on(b.skip(k + 2), p), to);
                    assert(a + b.take(k) + to + join(split_on(b.skip(k + 2), p), to) =~= a + (b.take(k) + to + join(
                        split_on(b.skip(k + 2), p),
                        to,
                    )));
                },
                None => {
                    assert(find(s, p) is None) by {
                        if find(s, p) is Some {
                            let m = find(s, p)->0;
                            if m + 2 <= a.len() {
                                assert(!occurs_at(a, p, m)) by {
                                    assert(!contains(a, p));
                                }
                            } else if m >= a.len() {
                                assert(!occurs_at(b, p, m - a.len())) by {
                                    assert(!contains(b, p));
                                }
                            }
                        }
                    }
                    assert(split_on(b, p) == seq![b]);
                },
            }
        },
    }
}

} // verus!

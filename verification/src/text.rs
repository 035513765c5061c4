//! Character-level text operations with specifications: conversion between
//! `str`/`String` and character vectors, decimal rendering, Unicode
//! whitespace trimming, line splitting, substring search and replacement.
use vstd::prelude::*;

verus! {

// ---------------------------------------------------------------------------
// Conversions
// ---------------------------------------------------------------------------

/// The characters of `s`, in order.
pub fn chars_of(s: &str) -> (v: Vec<char>)
    ensures
        v@ == s@,
{
    let mut v: Vec<char> = Vec::new();
    for c in it: s.chars()
        invariant
            v@ == it.seq().take(it.index() as int),
            it.seq() == s@,
    {
        v.push(c);
    }
    v
}

/// Appends one character to a `String` (calls `String::push`).
#[verifier::external_body]
fn push_char(s: &mut String, c: char)
    ensures
        final(s)@ == old(s)@.push(c),
{
    s.push(c);
}

/// A `String` holding exactly the characters of `v`.
pub fn string_of(v: &Vec<char>) -> (s: String)
    ensures
        s@ == v@,
{
    let mut s = String::new();
    for i in 0..v.len()
        invariant
            s@ == v@.take(i as int),
    {
        push_char(&mut s, v[i]);
        assert(v@.take(i + 1) =~= v@.take(i as int).push(v@[i as int]));
    }
    assert(v@.take(v.len() as int) =~= v@);
    s
}

/// Appends all characters of `t` to `out`.
pub fn push_all(out: &mut Vec<char>, t: &Vec<char>)
    ensures
        final(out)@ == old(out)@ + t@,
{
    let ghost start = out@;
    for i in 0..t.len()
        invariant
            out@ == start + t@.take(i as int),
    {
        out.push(t[i]);
        assert(t@.take(i + 1) =~= t@.take(i as int).push(t@[i as int]));
    }
    assert(t@.take(t.len() as int) =~= t@);
}

/// Appends all characters of the string slice `t` to `out`.
pub fn push_str(out: &mut Vec<char>, t: &str)
    ensures
        final(out)@ == old(out)@ + t@,
{
    let v = chars_of(t);
    push_all(out, &v);
}

// ---------------------------------------------------------------------------
// Decimal rendering
// ---------------------------------------------------------------------------

/// The ASCII digit for `d` (0 to 9).
pub open spec fn digit_char(d: int) -> char {
    ((d + 48) as u8) as char
}

/// The decimal text of `n`, without leading zeros (`"0"` for zero), as
/// `to_string` renders an unsigned integer.
pub open spec fn decimal(n: nat) -> Seq<char>
    decreases n,
{
    if n < 10 {
        seq![digit_char(n as int)]
    } else {
        decimal(n / 10).push(digit_char((n % 10) as int))
    }
}

/// The text that `format!("{:02}", n)` gives for a non-negative `n`: the
/// decimal text, with one leading zero when it has a single digit.
pub open spec fn pad2(n: nat) -> Seq<char> {
    if n < 10 {
        seq!['0'] + decimal(n)
    } else {
        decimal(n)
    }
}

/// The text that `format!("{:03}", n)` gives for a non-negative `n`: the
/// decimal text, zero-padded to three digits.
pub open spec fn pad3(n: nat) -> Seq<char> {
    if n < 10 {
        seq!['0', '0'] + decimal(n)
    } else if n < 100 {
        seq!['0'] + decimal(n)
    } else {
        decimal(n)
    }
}

/// `format!("{:02}", n)` of a number below 100 is exactly its tens digit
/// and its units digit.
pub proof fn lemma_pad2_digits(n: nat)
    requires
        n < 100,
    ensures
        pad2(n) == seq![digit_char((n / 10) as int), digit_char((n % 10) as int)],
        pad2(n).len() == 2,
{
    reveal_with_fuel(decimal, 2);
    if n < 10 {
        assert(digit_char(0) == '0');
        assert(pad2(n) =~= seq![digit_char((n / 10) as int), digit_char((n % 10) as int)]);
    } else {
        assert(decimal(n / 10) == seq![digit_char((n / 10) as int)]);
        assert(pad2(n) =~= seq![digit_char((n / 10) as int), digit_char((n % 10) as int)]);
    }
}

/// The text that `format!("{}", n)` gives for a signed integer `n`.
pub open spec fn signed_decimal(n: int) -> Seq<char> {
    if n < 0 {
        seq!['-'] + decimal((-n) as nat)
    } else {
        decimal(n as nat)
    }
}

/// The text that `format!("{:02}", n)` gives for a signed integer `n`: the
/// minus sign counts toward the width, so a negative number is never padded.
pub open spec fn signed_pad2(n: int) -> Seq<char> {
    if n < 0 {
        seq!['-'] + decimal((-n) as nat)
    } else {
        pad2(n as nat)
    }
}

fn digit(d: u64) -> (c: char)
    requires
        d < 10,
    ensures
        c == digit_char(d as int),
{
    let b: u8 = (d as u8) + 48;
    b as char
}

/// Appends the decimal text of `n` to `out`.
pub fn push_decimal(out: &mut Vec<char>, n: u64)
    ensures
        final(out)@ == old(out)@ + decimal(n as nat),
    decreases n,
{
    if n >= 10 {
        push_decimal(out, n / 10);
    }
    let d = digit(n % 10);
    out.push(d);
    assert(decimal(n as nat) == if n < 10 {
        seq![digit_char(n as int)]
    } else {
        decimal((n / 10) as nat).push(digit_char((n % 10) as int))
    });
    if n < 10 {
        assert(n % 10 == n);
    }
}

/// Appends `format!("{:02}", n)` to `out`.
pub fn push_pad2(out: &mut Vec<char>, n: u64)
    ensures
        final(out)@ == old(out)@ + pad2(n as nat),
{
    if n < 10 {
        out.push('0');
    }
    push_decimal(out, n);
}

/// Appends `format!("{:03}", n)` to `out`.
pub fn push_pad3(out: &mut Vec<char>, n: u64)
    ensures
        final(out)@ == old(out)@ + pad3(n as nat),
{
    if n < 10 {
        out.push('0');
        out.push('0');
    } else if n < 100 {
        out.push('0');
    }
    push_decimal(out, n);
    proof {
        assert(out@ =~= old(out)@ + pad3(n as nat));
    }
}

/// The decimal text of `n`, as `n.to_string()` renders it.
pub fn decimal_string(n: u64) -> (s: String)
    ensures
        s@ == decimal(n as nat),
{
    let mut v: Vec<char> = Vec::new();
    push_decimal(&mut v, n);
    string_of(&v)
}

// ---------------------------------------------------------------------------
// Whitespace and trimming
// ---------------------------------------------------------------------------

/// Characters with the Unicode `White_Space` property, which is what
/// `char::is_whitespace` tests.
pub open spec fn is_space(c: char) -> bool {
    let u = c as u32;
    ||| 0x9 <= u <= 0xd
    ||| u == 0x20
    ||| u == 0x85
    ||| u == 0xa0
    ||| u == 0x1680
    ||| 0x2000 <= u <= 0x200a
    ||| u == 0x2028
    ||| u == 0x2029
    ||| u == 0x202f
    ||| u == 0x205f
    ||| u == 0x3000
}

pub fn is_space_char(c: char) -> (b: bool)
    ensures
        b == is_space(c),
{
    let u = c as u32;
    (0x9 <= u && u <= 0xd) || u == 0x20 || u == 0x85 || u == 0xa0 || u == 0x1680 || (0x2000 <= u
        && u <= 0x200a) || u == 0x2028 || u == 0x2029 || u == 0x202f || u == 0x205f || u == 0x3000
}

/// `s` without its leading whitespace (`str::trim_start`).
pub open spec fn trim_start(s: Seq<char>) -> Seq<char>
    decreases s.len(),
{
    if s.len() > 0 && is_space(s[0]) {
        trim_start(s.drop_first())
    } else {
        s
    }
}

/// `s` without its trailing whitespace (`str::trim_end`).
pub open spec fn trim_end(s: Seq<char>) -> Seq<char>
    decreases s.len(),
{
    if s.len() > 0 && is_space(s.last()) {
        trim_end(s.drop_last())
    } else {
        s
    }
}

/// `s` without leading and trailing whitespace (`str::trim`).
pub open spec fn trim(s: Seq<char>) -> Seq<char> {
    trim_end(trim_start(s))
}

proof fn lemma_trim_start_skip(s: Seq<char>, i: int)
    requires
        0 <= i <= s.len(),
        forall|k: int| 0 <= k < i ==> is_space(#[trigger] s[k]),
    ensures
        trim_start(s) == trim_start(s.skip(i)),
    decreases i,
{
    if i > 0 {
        assert(s.drop_first().skip(i - 1) =~= s.skip(i));
        assert forall|k: int| 0 <= k < i - 1 implies is_space(#[trigger] s.drop_first()[k]) by {
            assert(s.drop_first()[k] == s[k + 1]);
        }
        lemma_trim_start_skip(s.drop_first(), i - 1);
    } else {
        assert(s.skip(0) =~= s);
    }
}

proof fn lemma_trim_end_take(s: Seq<char>, j: int)
    requires
        0 <= j <= s.len(),
        forall|k: int| j <= k < s.len() ==> is_space(#[trigger] s[k]),
    ensures
        trim_end(s) == trim_end(s.take(j)),
    decreases s.len() - j,
{
    if j < s.len() {
        assert(s.drop_last().take(j) =~= s.take(j));
        assert(is_space(s[s.len() - 1]));
        lemma_trim_end_take(s.drop_last(), j);
    } else {
        assert(s.take(j) =~= s);
    }
}

/// `trim` of `s`, computed on a character slice.
pub fn trimmed(s: &[char]) -> (t: Vec<char>)
    ensures
        t@ == trim(s@),
{
    let n = s.len();
    let mut i: usize = 0;
    while i < n && is_space_char(s[i])
        invariant
            n == s@.len(),
            i <= n,
            forall|k: int| 0 <= k < i ==> is_space(#[trigger] s@[k]),
        decreases n - i,
    {
        i = i + 1;
    }
    proof {
        lemma_trim_start_skip(s@, i as int);
    }
    let ghost u = s@.skip(i as int);
    let mut j: usize = n;
    while j > i && is_space_char(s[j - 1])
        invariant
            n == s@.len(),
            i <= j <= n,
            u == s@.skip(i as int),
            forall|k: int| j <= k < n ==> is_space(#[trigger] s@[k]),
        decreases j,
    {
        j = j - 1;
    }
    proof {
        assert forall|k: int| j - i <= k < u.len() implies is_space(#[trigger] u[k]) by {
            assert(u[k] == s@[k + i]);
        }
        lemma_trim_end_take(u, j - i);
        if i < n && j == i {
            assert(!is_space(s@[i as int]));
        }
    }
    let mut t: Vec<char> = Vec::new();
    for k in i..j
        invariant
            i <= j <= n,
            n == s@.len(),
            t@ == s@.subrange(i as int, k as int),
    {
        t.push(s[k]);
        assert(s@.subrange(i as int, k + 1) =~= s@.subrange(i as int, k as int).push(s@[k as int]));
    }
    assert(t@ =~= u.take(j - i));
    t
}

/// Whether `s` consists of whitespace only (so that it trims to nothing).
pub proof fn lemma_trim_empty(s: Seq<char>)
    ensures
        (trim(s).len() == 0) <==> (forall|k: int| 0 <= k < s.len() ==> is_space(#[trigger] s[k])),
    decreases s.len(),
{
    if s.len() > 0 && is_space(s[0]) {
        lemma_trim_empty(s.drop_first());
        assert(trim(s) == trim(s.drop_first()));
        if forall|k: int| 0 <= k < s.drop_first().len() ==> is_space(#[trigger] s.drop_first()[k]) {
            assert forall|k: int| 0 <= k < s.len() implies is_space(#[trigger] s[k]) by {
                if k > 0 {
                    assert(s[k] == s.drop_first()[k - 1]);
                }
            }
        } else {
            let k = choose|k: int| 0 <= k < s.drop_first().len() && !is_space(#[trigger] s.drop_first()[k]);
            assert(s[k + 1] == s.drop_first()[k]);
        }
    } else if s.len() > 0 {
        lemma_trim_end_keeps_first(s);
    }
}

proof fn lemma_trim_end_keeps_first(s: Seq<char>)
    requires
        s.len() > 0,
        !is_space(s[0]),
    ensures
        trim_end(s).len() > 0,
    decreases s.len(),
{
    if is_space(s.last()) {
        assert(s.len() > 1);
        assert(s.drop_last()[0] == s[0]);
        lemma_trim_end_keeps_first(s.drop_last());
    }
}

// ---------------------------------------------------------------------------
// Lines
// ---------------------------------------------------------------------------

/// The number of characters of `s` before its first `c` (all of `s` when
/// it has none).
pub open spec fn until(s: Seq<char>, c: char) -> nat
    decreases s.len(),
{
    if s.len() == 0 {
        0
    } else if s[0] == c {
        0
    } else {
        1 + until(s.drop_first(), c)
    }
}

pub proof fn lemma_until(s: Seq<char>, c: char)
    ensures
        until(s, c) <= s.len(),
        forall|k: int| 0 <= k < until(s, c) ==> #[trigger] s[k] != c,
        until(s, c) < s.len() ==> s[until(s, c) as int] == c,
    decreases s.len(),
{
    if s.len() > 0 && s[0] != c {
        lemma_until(s.drop_first(), c);
        assert forall|k: int| 0 <= k < until(s, c) implies #[trigger] s[k] != c by {
            if k > 0 {
                assert(s[k] == s.drop_first()[k - 1]);
            }
        }
    }
}

pub proof fn lemma_until_at(s: Seq<char>, c: char, m: int)
    requires
        0 <= m <= s.len(),
        forall|k: int| 0 <= k < m ==> #[trigger] s[k] != c,
        m == s.len() || s[m] == c,
    ensures
        until(s, c) == m,
    decreases m,
{
    if m > 0 {
        assert forall|k: int| 0 <= k < m - 1 implies #[trigger] s.drop_first()[k] != c by {
            assert(s.drop_first()[k] == s[k + 1]);
        }
        lemma_until_at(s.drop_first(), c, m - 1);
    }
}

/// The index of the first `c` in `s` at or after `from`, or the length of
/// `s` when there is none.
pub fn find_char(s: &[char], c: char, from: usize) -> (j: usize)
    requires
        from <= s@.len(),
    ensures
        from <= j <= s@.len(),
        j - from == until(s@.skip(from as int), c),
{
    let n = s.len();
    let mut j: usize = from;
    while j < n && s[j] != c
        invariant
            n == s@.len(),
            from <= j <= n,
            forall|k: int| from <= k < j ==> #[trigger] s@[k] != c,
        decreases n - j,
    {
        j = j + 1;
    }
    proof {
        let rest = s@.skip(from as int);
        assert forall|k: int| 0 <= k < j - from implies #[trigger] rest[k] != c by {
            assert(rest[k] == s@[k + from]);
        }
        lemma_until_at(rest, c, j - from);
    }
    j
}

/// The pieces of `s` between occurrences of `c` (`str::split` on a char):
/// never empty, and `s` itself when `c` does not occur.
pub open spec fn split_on(s: Seq<char>, c: char) -> Seq<Seq<char>>
    decreases s.len(),
{
    let k = until(s, c);
    if k < s.len() {
        proof {
            lemma_until(s, c);
        }
        seq![s.take(k as int)] + split_on(s.skip(k + 1 as int), c)
    } else {
        seq![s]
    }
}

/// The pieces of `s` between occurrences of `c`.
pub fn split_char(s: &Vec<char>, c: char) -> (ps: Vec<Vec<char>>)
    ensures
        views(ps@) == split_on(s@, c),
{
    let n = s.len();
    let mut ps: Vec<Vec<char>> = Vec::new();
    let mut start: usize = 0;
    assert(s@.skip(0) =~= s@);
    assert(views(ps@) + split_on(s@, c) =~= split_on(s@, c));
    loop
        invariant
            n == s@.len(),
            start <= n,
            split_on(s@, c) == views(ps@) + split_on(s@.skip(start as int), c),
        decreases n - start,
    {
        let ghost rest = s@.skip(start as int);
        let j = find_char(s.as_slice(), c, start);
        let piece = slice_chars(s.as_slice(), start, j);
        let ghost old_ps = views(ps@);
        ps.push(piece);
        proof {
            assert(views(ps@) =~= old_ps.push(piece@));
            assert(rest.take(j - start) =~= piece@);
        }
        if j < n {
            proof {
                assert(rest.skip(j - start + 1) =~= s@.skip(j + 1));
                assert(split_on(s@, c) =~= views(ps@) + split_on(s@.skip(j + 1), c));
            }
            start = j + 1;
        } else {
            proof {
                assert(rest =~= piece@);
                assert(split_on(s@, c) =~= views(ps@));
            }
            return ps;
        }
    }
}

/// A line with the `'\r'` of a `"\r\n"` terminator removed.
pub open spec fn strip_cr(l: Seq<char>) -> Seq<char> {
    if l.len() > 0 && l.last() == '\r' {
        l.drop_last()
    } else {
        l
    }
}

/// The lines of `s` as `str::lines` yields them: split at each `'\n'`, a
/// `'\r'` just before a `'\n'` removed, and no empty line after a final
/// `'\n'`.
pub open spec fn lines(s: Seq<char>) -> Seq<Seq<char>>
    decreases s.len(),
{
    if s.len() == 0 {
        seq![]
    } else {
        let k = until(s, '\n');
        if k < s.len() {
            proof {
                lemma_until(s, '\n');
            }
            seq![strip_cr(s.take(k as int))] + lines(s.skip(k + 1 as int))
        } else {
            seq![s]
        }
    }
}

/// The character sequences held by a vector of character vectors.
pub open spec fn views(ls: Seq<Vec<char>>) -> Seq<Seq<char>> {
    ls.map_values(|l: Vec<char>| l@)
}

/// The lines of `s` (`str::lines`).
pub fn split_lines(s: &Vec<char>) -> (ls: Vec<Vec<char>>)
    ensures
        views(ls@) == lines(s@),
{
    let n = s.len();
    let mut ls: Vec<Vec<char>> = Vec::new();
    let mut start: usize = 0;
    assert(s@.skip(0) =~= s@);
    assert(views(ls@) + lines(s@) =~= lines(s@));
    while start < n
        invariant
            n == s@.len(),
            start <= n,
            lines(s@) == views(ls@) + lines(s@.skip(start as int)),
        decreases n - start,
    {
        let ghost rest = s@.skip(start as int);
        let mut j: usize = start;
        while j < n && s[j] != '\n'
            invariant
                n == s@.len(),
                start <= j <= n,
                forall|k: int| start <= k < j ==> #[trigger] s@[k] != '\n',
            decreases n - j,
        {
            j = j + 1;
        }
        proof {
            assert forall|k: int| 0 <= k < j - start implies #[trigger] rest[k] != '\n' by {
                assert(rest[k] == s@[k + start]);
            }
            lemma_until_at(rest, '\n', j - start);
        }
        let mut line: Vec<char> = Vec::new();
        let mut end = j;
        if j < n && j > start && s[j - 1] == '\r' {
            end = j - 1;
        }
        for k in start..end
            invariant
                start <= end <= j <= n,
                n == s@.len(),
                line@ == s@.subrange(start as int, k as int),
        {
            line.push(s[k]);
            assert(s@.subrange(start as int, k + 1) =~= s@.subrange(start as int, k as int).push(
                s@[k as int],
            ));
        }
        let ghost old_ls = views(ls@);
        ls.push(line);
        proof {
            assert(views(ls@) =~= old_ls.push(line@));
            if j < n {
                assert(rest.skip(j - start + 1) =~= s@.skip(j + 1));
                assert(rest.take(j - start) =~= s@.subrange(start as int, j as int));
                assert(line@ =~= strip_cr(rest.take(j - start)));
                assert(lines(rest) == seq![strip_cr(rest.take(j - start))] + lines(
                    rest.skip(j - start + 1),
                ));
            } else {
                assert(line@ =~= rest);
                assert(s@.skip(n as int) =~= Seq::<char>::empty());
            }
        }
        if j < n {
            start = j + 1;
        } else {
            start = n;
        }
        proof {
            assert(lines(s@) =~= views(ls@) + lines(s@.skip(start as int)));
        }
    }
    proof {
        assert(s@.skip(n as int) =~= Seq::<char>::empty());
    }
    ls
}

// ---------------------------------------------------------------------------
// Search and replacement
// ---------------------------------------------------------------------------

/// Whether `p` occurs in `s` starting at index `i`.
pub open spec fn occurs_at(s: Seq<char>, p: Seq<char>, i: int) -> bool {
    0 <= i && i + p.len() <= s.len() && s.subrange(i, i + p.len()) == p
}

/// The index of the leftmost occurrence of `p` in `s` (`str::find`).
pub open spec fn find(s: Seq<char>, p: Seq<char>) -> Option<int>
    decreases s.len(),
{
    if p.len() > s.len() {
        None
    } else if s.take(p.len() as int) == p {
        Some(0)
    } else if s.len() == 0 {
        None
    } else {
        match find(s.drop_first(), p) {
            Some(i) => Some(i + 1),
            None => None,
        }
    }
}

/// Whether `p` occurs in `s` at `i`, computed.
pub fn matches_at(s: &[char], p: &[char], i: usize) -> (b: bool)
    ensures
        b == occurs_at(s@, p@, i as int),
{
    if i > s.len() || p.len() > s.len() - i {
        return false;
    }
    let sl = s.len();
    let mut k: usize = 0;
    while k < p.len()
        invariant
            sl == s@.len(),
            i + p@.len() <= s@.len(),
            k <= p@.len(),
            forall|m: int| 0 <= m < k ==> #[trigger] p@[m] == s@[i + m],
        decreases p.len() - k,
    {
        assert(i + k < s@.len());
        if s[i + k] != p[k] {
            assert(s@.subrange(i as int, i + p@.len())[k as int] != p@[k as int]);
            return false;
        }
        k = k + 1;
    }
    assert(s@.subrange(i as int, i + p@.len()) =~= p@);
    true
}

pub proof fn lemma_find_skip(s: Seq<char>, p: Seq<char>, i: int)
    requires
        0 <= i <= s.len(),
        forall|k: int| 0 <= k < i ==> !occurs_at(s, p, k),
    ensures
        find(s, p) == match find(s.skip(i), p) {
            Some(j) => Some(j + i),
            None => None,
        },
    decreases i,
{
    if i == 0 {
        assert(s.skip(0) =~= s);
        match find(s, p) {
            Some(j) => {},
            None => {},
        }
    } else {
        assert(!occurs_at(s, p, 0));
        if p.len() <= s.len() {
            assert(s.take(p.len() as int) =~= s.subrange(0, p.len() as int));
        }
        assert(s.drop_first().skip(i - 1) =~= s.skip(i));
        assert forall|k: int| 0 <= k < i - 1 implies !occurs_at(s.drop_first(), p, k) by {
            if occurs_at(s.drop_first(), p, k) {
                assert(s.drop_first().subrange(k, k + p.len()) =~= s.subrange(k + 1, k + 1 + p.len()));
                assert(occurs_at(s, p, k + 1));
            }
        }
        lemma_find_skip(s.drop_first(), p, i - 1);
        if p.len() > s.len() {
            assert(p.len() > s.skip(i).len());
        }
    }
}

pub proof fn lemma_find_here(s: Seq<char>, p: Seq<char>, i: int)
    requires
        0 <= i <= s.len(),
        occurs_at(s, p, i),
    ensures
        find(s.skip(i), p) == Some(0int),
{
    assert(s.skip(i).take(p.len() as int) =~= s.subrange(i, i + p.len()));
}

proof fn lemma_find_none(s: Seq<char>, p: Seq<char>)
    requires
        forall|k: int| 0 <= k <= s.len() ==> !occurs_at(s, p, k),
    ensures
        find(s, p) is None,
    decreases s.len(),
{
    if p.len() <= s.len() {
        assert(s.take(p.len() as int) =~= s.subrange(0, p.len() as int));
        assert(!occurs_at(s, p, 0));
        if s.len() > 0 {
            assert forall|k: int| 0 <= k <= s.drop_first().len() implies !occurs_at(
                s.drop_first(),
                p,
                k,
            ) by {
                if occurs_at(s.drop_first(), p, k) {
                    assert(s.drop_first().subrange(k, k + p.len()) =~= s.subrange(
                        k + 1,
                        k + 1 + p.len(),
                    ));
                    assert(occurs_at(s, p, k + 1));
                }
            }
            lemma_find_none(s.drop_first(), p);
        }
    }
}

/// Where `find` reports an index, `p` occurs there.
pub proof fn lemma_find_occurs(s: Seq<char>, p: Seq<char>)
    ensures
        find(s, p) matches Some(i) ==> occurs_at(s, p, i),
    decreases s.len(),
{
    if p.len() <= s.len() && s.take(p.len() as int) == p {
        assert(s.subrange(0, p.len() as int) =~= s.take(p.len() as int));
    } else if s.len() > 0 {
        lemma_find_occurs(s.drop_first(), p);
        if let Some(i) = find(s.drop_first(), p) {
            assert(s.drop_first().subrange(i, i + p.len()) =~= s.subrange(i + 1, i + 1 + p.len()));
        }
    }
}

/// The leftmost occurrence of `p` in `s` at or after `from`, as an index
/// into `s` (`s[from..].find(p)` shifted by `from`).
pub fn find_from(s: &[char], p: &[char], from: usize) -> (r: Option<usize>)
    requires
        from <= s@.len(),
    ensures
        r == match find(s@.skip(from as int), p@) {
            Some(j) => Some((j + from) as usize),
            None => None::<usize>,
        },
{
    let ghost t = s@.skip(from as int);
    let mut i: usize = from;
    loop
        invariant
            from <= i <= s@.len(),
            t == s@.skip(from as int),
            forall|k: int| from <= k < i ==> !occurs_at(s@, p@, k),
        decreases s.len() - i,
    {
        if matches_at(s, p, i) {
            proof {
                assert forall|k: int| 0 <= k < i - from implies !occurs_at(t, p@, k) by {
                    if occurs_at(t, p@, k) {
                        assert(t.subrange(k, k + p@.len()) =~= s@.subrange(
                            k + from,
                            k + from + p@.len(),
                        ));
                        assert(occurs_at(s@, p@, k + from));
                    }
                }
                lemma_find_skip(t, p@, i - from);
                assert(t.skip(i - from) =~= s@.skip(i as int));
                lemma_find_here(s@, p@, i as int);
            }
            return Some(i);
        }
        if i == s.len() {
            proof {
                assert forall|k: int| 0 <= k <= t.len() implies !occurs_at(t, p@, k) by {
                    if occurs_at(t, p@, k) {
                        assert(t.subrange(k, k + p@.len()) =~= s@.subrange(
                            k + from,
                            k + from + p@.len(),
                        ));
                        assert(occurs_at(s@, p@, k + from));
                    }
                }
                lemma_find_none(t, p@);
            }
            return None;
        }
        i = i + 1;
    }
}

/// `s` with every leftmost, non-overlapping occurrence of the non-empty
/// pattern `p` replaced by `r` (`str::replace`).
pub open spec fn replace(s: Seq<char>, p: Seq<char>, r: Seq<char>) -> Seq<char>
    decreases s.len(),
{
    if p.len() > 0 && p.len() <= s.len() && s.take(p.len() as int) == p {
        r + replace(s.skip(p.len() as int), p, r)
    } else if s.len() == 0 {
        seq![]
    } else {
        seq![s[0]] + replace(s.drop_first(), p, r)
    }
}

/// `s` with every occurrence of the non-empty pattern `p` replaced by `r`.
pub fn replace_all(s: &Vec<char>, p: &Vec<char>, r: &Vec<char>) -> (out: Vec<char>)
    requires
        p@.len() > 0,
    ensures
        out@ == replace(s@, p@, r@),
{
    let n = s.len();
    let mut out: Vec<char> = Vec::new();
    let mut i: usize = 0;
    assert(s@.skip(0) =~= s@);
    assert(out@ + replace(s@, p@, r@) =~= replace(s@, p@, r@));
    while i < n
        invariant
            n == s@.len(),
            i <= n,
            p@.len() > 0,
            replace(s@, p@, r@) == out@ + replace(s@.skip(i as int), p@, r@),
        decreases n - i,
    {
        let ghost rest = s@.skip(i as int);
        if matches_at(s.as_slice(), p.as_slice(), i) {
            let ghost before = out@;
            push_all(&mut out, r);
            proof {
                assert(rest.take(p@.len() as int) =~= s@.subrange(i as int, i + p@.len()));
                assert(rest.skip(p@.len() as int) =~= s@.skip(i + p@.len()));
                assert(out@ + replace(s@.skip(i + p@.len()), p@, r@) =~= before + (r@ + replace(
                    s@.skip(i + p@.len()),
                    p@,
                    r@,
                )));
            }
            i = i + p.len();
        } else {
            let ghost before = out@;
            out.push(s[i]);
            proof {
                if p@.len() <= rest.len() {
                    assert(rest.take(p@.len() as int) =~= s@.subrange(i as int, i + p@.len()));
                }
                assert(rest.drop_first() =~= s@.skip(i + 1));
                assert(out@ + replace(s@.skip(i + 1), p@, r@) =~= before + (seq![s@[i as int]]
                    + replace(s@.skip(i + 1), p@, r@)));
            }
            i = i + 1;
        }
    }
    proof {
        assert(s@.skip(n as int) =~= Seq::<char>::empty());
        assert(out@ + Seq::<char>::empty() =~= out@);
    }
    out
}

/// Whether two character sequences are equal, computed.
pub fn same_chars(a: &[char], b: &[char]) -> (r: bool)
    ensures
        r == (a@ == b@),
{
    if a.len() != b.len() {
        return false;
    }
    let mut i: usize = 0;
    while i < a.len()
        invariant
            a@.len() == b@.len(),
            i <= a@.len(),
            forall|k: int| 0 <= k < i ==> a@[k] == b@[k],
        decreases a.len() - i,
    {
        if a[i] != b[i] {
            return false;
        }
        i = i + 1;
    }
    assert(a@ =~= b@);
    true
}

/// The characters of `s` from index `from` up to `to`.
pub fn slice_chars(s: &[char], from: usize, to: usize) -> (t: Vec<char>)
    requires
        from <= to <= s@.len(),
    ensures
        t@ == s@.subrange(from as int, to as int),
{
    let mut t: Vec<char> = Vec::new();
    for k in from..to
        invariant
            from <= to <= s@.len(),
            t@ == s@.subrange(from as int, k as int),
    {
        t.push(s[k]);
        assert(s@.subrange(from as int, k + 1) =~= s@.subrange(from as int, k as int).push(
            s@[k as int],
        ));
    }
    t
}

// ---------------------------------------------------------------------------
// Facts about lines, trimming and replacement
// ---------------------------------------------------------------------------

/// Text that ends at a line break (or is empty) splits into lines
/// independently of what follows it.
pub proof fn lemma_lines_append(a: Seq<char>, b: Seq<char>)
    requires
        a.len() == 0 || a.last() == '\n',
    ensures
        lines(a + b) == lines(a) + lines(b),
    decreases a.len(),
{
    if a.len() == 0 {
        assert(a + b =~= b);
        assert(lines(a) + lines(b) =~= lines(b));
    } else {
        lemma_until(a, '\n');
        let k = until(a, '\n') as int;
        if k == a.len() {
            assert(a[a.len() - 1] == '\n');
        }
        assert forall|i: int| 0 <= i < k implies #[trigger] (a + b)[i] != '\n' by {
            assert((a + b)[i] == a[i]);
        }
        lemma_until_at(a + b, '\n', k);
        assert((a + b).take(k) =~= a.take(k));
        assert((a + b).skip(k + 1) =~= a.skip(k + 1) + b);
        let rest = a.skip(k + 1);
        if rest.len() > 0 {
            assert(rest.last() == a.last());
        }
        lemma_lines_append(rest, b);
        assert(lines(a + b) =~= lines(a) + lines(b));
    }
}

/// A line without line breaks, followed by one, is read back as itself
/// (less a `'\r'` at its end).
pub proof fn lemma_lines_single(l: Seq<char>)
    requires
        forall|k: int| 0 <= k < l.len() ==> #[trigger] l[k] != '\n',
    ensures
        lines(l + seq!['\n']) == seq![strip_cr(l)],
{
    let s = l + seq!['\n'];
    assert forall|k: int| 0 <= k < l.len() implies #[trigger] s[k] != '\n' by {
        assert(s[k] == l[k]);
    }
    lemma_until_at(s, '\n', l.len() as int);
    assert(s.take(l.len() as int) =~= l);
    assert(s.skip(l.len() + 1 as int) =~= Seq::<char>::empty());
    assert(lines(Seq::<char>::empty()) =~= Seq::<Seq<char>>::empty());
    assert(lines(s) =~= seq![strip_cr(l)]);
}

/// A text whose first character is not whitespace keeps that character
/// first when trimmed.
pub proof fn lemma_trim_first(x: Seq<char>)
    requires
        x.len() > 0,
        !is_space(x[0]),
    ensures
        trim(x).len() > 0,
        trim(x)[0] == x[0],
{
    assert(trim_start(x) == x);
    lemma_trim_end_prefix(x);
    lemma_trim_end_keeps_first(x);
}

/// Trimming a text that starts with a non-space character keeps every
/// character up to any later non-space character.
pub proof fn lemma_trim_keeps(x: Seq<char>, j: int)
    requires
        0 <= j < x.len(),
        !is_space(x[0]),
        !is_space(x[j]),
    ensures
        trim(x).len() > j,
        forall|k: int| 0 <= k <= j ==> #[trigger] trim(x)[k] == x[k],
{
    assert(trim_start(x) == x);
    lemma_trim_end_prefix(x);
    lemma_trim_end_past(x, j);
}

proof fn lemma_trim_end_past(x: Seq<char>, j: int)
    requires
        0 <= j < x.len(),
        !is_space(x[j]),
    ensures
        trim_end(x).len() > j,
    decreases x.len(),
{
    if is_space(x.last()) {
        lemma_trim_end_past(x.drop_last(), j);
    }
}

proof fn lemma_trim_end_prefix(x: Seq<char>)
    ensures
        trim_end(x).len() <= x.len(),
        forall|k: int| 0 <= k < trim_end(x).len() ==> #[trigger] trim_end(x)[k] == x[k],
    decreases x.len(),
{
    if x.len() > 0 && is_space(x.last()) {
        lemma_trim_end_prefix(x.drop_last());
    }
}

proof fn lemma_trim_start_push(x: Seq<char>, c: char)
    ensures
        trim_start(x.push(c)) == (if trim_start(x).len() > 0 {
            trim_start(x).push(c)
        } else {
            trim_start(seq![c])
        }),
    decreases x.len(),
{
    if x.len() > 0 {
        assert(x.push(c)[0] == x[0]);
        assert(x.push(c).drop_first() =~= x.drop_first().push(c));
        if is_space(x[0]) {
            lemma_trim_start_push(x.drop_first(), c);
        }
    } else {
        assert(x.push(c) =~= seq![c]);
    }
}

/// Removing a `'\r'` before the line break does not change the trimmed line.
pub proof fn lemma_trim_strip_cr(l: Seq<char>)
    ensures
        trim(strip_cr(l)) == trim(l),
{
    if l.len() > 0 && l.last() == '\r' {
        let x = l.drop_last();
        assert(l =~= x.push('\r'));
        lemma_trim_start_push(x, '\r');
        assert(is_space('\r'));
        if trim_start(x).len() > 0 {
            assert(trim_start(x).push('\r').drop_last() =~= trim_start(x));
        } else {
            assert(seq!['\r'].drop_first() =~= Seq::<char>::empty());
            assert(trim_start(seq!['\r']) == trim_start(Seq::<char>::empty()));
            lemma_trim_start_empty(x);
        }
    }
}

proof fn lemma_trim_start_empty(x: Seq<char>)
    requires
        trim_start(x).len() == 0,
    ensures
        trim_end(trim_start(x)) == Seq::<char>::empty(),
{
    assert(trim_start(x) =~= Seq::<char>::empty());
}

/// Replacing `p` in text that does not contain its first character
/// changes nothing.
pub proof fn lemma_replace_absent(s: Seq<char>, p: Seq<char>, r: Seq<char>)
    requires
        p.len() > 0,
        forall|k: int| 0 <= k < s.len() ==> #[trigger] s[k] != p[0],
    ensures
        replace(s, p, r) == s,
    decreases s.len(),
{
    if s.len() > 0 {
        if p.len() <= s.len() && s.take(p.len() as int) == p {
            assert(s.take(p.len() as int)[0] == s[0]);
        }
        assert forall|k: int| 0 <= k < s.drop_first().len() implies #[trigger] s.drop_first()[k]
            != p[0] by {
            assert(s.drop_first()[k] == s[k + 1]);
        }
        lemma_replace_absent(s.drop_first(), p, r);
        assert(seq![s[0]] + s.drop_first() =~= s);
    }
}

/// Replacing `p` in `p` itself gives the replacement.
pub proof fn lemma_replace_whole(p: Seq<char>, r: Seq<char>)
    requires
        p.len() > 0,
    ensures
        replace(p, p, r) == r,
{
    assert(p.take(p.len() as int) =~= p);
    assert(p.skip(p.len() as int) =~= Seq::<char>::empty());
    assert(replace(Seq::<char>::empty(), p, r) =~= Seq::<char>::empty());
    assert(r + Seq::<char>::empty() =~= r);
}

/// Whether `c` occurs in `p`.
pub open spec fn has_char(p: Seq<char>, c: char) -> bool {
    exists|j: int| 0 <= j < p.len() && p[j] == c
}

/// Replacement works piece by piece when no occurrence of the pattern can
/// span the boundary: the last character of the first piece, or the first
/// character of the second, is not in the pattern.
pub proof fn lemma_replace_concat(a: Seq<char>, b: Seq<char>, p: Seq<char>, r: Seq<char>)
    requires
        p.len() > 0,
        (a.len() > 0 && !has_char(p, a.last())) || (b.len() > 0 && !has_char(p, b[0])) || a.len()
            == 0,
    ensures
        replace(a + b, p, r) == replace(a, p, r) + replace(b, p, r),
    decreases a.len(),
{
    let s = a + b;
    if a.len() == 0 {
        assert(s =~= b);
        assert(replace(a, p, r) =~= Seq::<char>::empty());
        assert(Seq::<char>::empty() + replace(b, p, r) =~= replace(b, p, r));
    } else if p.len() <= s.len() && s.take(p.len() as int) == p {
        if p.len() <= a.len() {
            assert(a.take(p.len() as int) =~= s.take(p.len() as int));
            assert(s.skip(p.len() as int) =~= a.skip(p.len() as int) + b);
            let a2 = a.skip(p.len() as int);
            if a2.len() > 0 {
                assert(a2.last() == a.last());
            }
            lemma_replace_concat(a2, b, p, r);
            assert(replace(s, p, r) =~= replace(a, p, r) + replace(b, p, r));
        } else {
            // the occurrence spans the boundary
            assert(s.take(p.len() as int)[a.len() - 1] == a.last());
            assert(has_char(p, a.last()));
            assert(b.len() > 0);
            assert(s.take(p.len() as int)[a.len() as int] == b[0]);
            assert(has_char(p, b[0]));
        }
    } else {
        if p.len() <= a.len() && a.take(p.len() as int) == p {
            assert(s.take(p.len() as int) =~= a.take(p.len() as int));
        }
        assert(s.drop_first() =~= a.drop_first() + b);
        assert(s[0] == a[0]);
        let a2 = a.drop_first();
        if a2.len() > 0 {
            assert(a2.last() == a.last());
        }
        lemma_replace_concat(a2, b, p, r);
        assert(replace(s, p, r) =~= replace(a, p, r) + replace(b, p, r));
    }
}

/// The pieces of `ps` written one after the other.
pub open spec fn joined(ps: Seq<Seq<char>>) -> Seq<char>
    decreases ps.len(),
{
    if ps.len() == 0 {
        Seq::<char>::empty()
    } else {
        ps[0] + joined(ps.drop_first())
    }
}

/// No occurrence of `p` can span the boundary after piece `i`: that piece
/// is empty or ends in a character not in `p`, or the next piece starts
/// with one.
pub open spec fn safe_boundary(ps: Seq<Seq<char>>, i: int, p: Seq<char>) -> bool {
    ||| ps[i].len() == 0
    ||| !has_char(p, ps[i].last())
    ||| (i + 1 < ps.len() && ps[i + 1].len() > 0 && !has_char(p, ps[i + 1][0]))
}

/// Replacing in text made of pieces, where no occurrence of the pattern
/// spans two pieces, replaces in each piece.
pub proof fn lemma_replace_joined(ps: Seq<Seq<char>>, p: Seq<char>, r: Seq<char>)
    requires
        p.len() > 0,
        forall|i: int| 0 <= i < ps.len() - 1 ==> #[trigger] safe_boundary(ps, i, p),
    ensures
        replace(joined(ps), p, r) == joined(ps.map_values(|x: Seq<char>| replace(x, p, r))),
    decreases ps.len(),
{
    let f = |x: Seq<char>| replace(x, p, r);
    if ps.len() == 0 {
        assert(replace(Seq::<char>::empty(), p, r) =~= Seq::<char>::empty());
        assert(ps.map_values(f) =~= Seq::<Seq<char>>::empty());
    } else {
        let rest = ps.drop_first();
        assert forall|i: int| 0 <= i < rest.len() - 1 implies #[trigger] safe_boundary(rest, i, p) by {
            assert(safe_boundary(ps, i + 1, p));
            assert(rest[i] == ps[i + 1]);
            assert(rest[i + 1] == ps[i + 2]);
        }
        lemma_replace_joined(rest, p, r);
        if ps.len() > 1 {
            assert(safe_boundary(ps, 0, p));
            assert(joined(rest) == rest[0] + joined(rest.drop_first()));
            if ps[1].len() > 0 {
                assert(joined(rest)[0] == ps[1][0]);
            }
            lemma_replace_concat(ps[0], joined(rest), p, r);
        } else {
            assert(rest.len() == 0);
            assert(joined(rest) =~= Seq::<char>::empty());
            assert(ps[0] + joined(rest) =~= ps[0]);
            assert(replace(joined(rest), p, r) =~= Seq::<char>::empty());
            assert(replace(ps[0], p, r) + Seq::<char>::empty() =~= replace(ps[0], p, r));
        }
        assert(ps.map_values(f).drop_first() =~= rest.map_values(f));
        assert(ps.map_values(f)[0] == replace(ps[0], p, r));
    }
}

} // verus!

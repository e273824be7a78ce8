//! Character-level string helpers with exact specifications: conversion
//! between strings and character vectors, ASCII case folding, Unicode
//! whitespace, splitting, and decimal formatting.
use vstd::prelude::*;

verus! {

/// Appends `c` to `s` (`String::push`).
#[verifier::external_body]
pub(crate) fn push_char(s: &mut String, c: char)
    ensures
        final(s)@ == old(s)@.push(c),
{
    s.push(c);
}

/// The characters of `s`, in order.
pub fn chars_of(s: &str) -> (v: Vec<char>)
    ensures
        v@ == s@,
{
    let mut v: Vec<char> = Vec::new();
    for c in it: s.chars()
        invariant
            v@ == it.seq().take(it.index() as int),
            it.seq() == s@,
    {
        v.push(c);
        proof {
            assert(v@ =~= it.seq().take(it.index() as int + 1));
        }
    }
    proof {
        assert(v@ =~= s@);
    }
    v
}


/// `c` with ASCII upper-case letters mapped to lower case; every other
/// character unchanged.
pub open spec fn ascii_lower(c: char) -> char {
    if 'A' <= c && c <= 'Z' {
        ((c as u32) + 32) as char
    } else {
        c
    }
}

/// `s` with every ASCII upper-case letter mapped to lower case.
pub open spec fn ascii_lower_seq(s: Seq<char>) -> Seq<char> {
    s.map_values(|c: char| ascii_lower(c))
}

/// The two strings are equal once ASCII letters are case-folded.
pub open spec fn eq_ignore_ascii_case(a: Seq<char>, b: Seq<char>) -> bool {
    ascii_lower_seq(a) == ascii_lower_seq(b)
}

pub open spec fn is_ascii_lower_letter(c: char) -> bool {
    'a' <= c && c <= 'z'
}

pub open spec fn is_ascii_digit(c: char) -> bool {
    '0' <= c && c <= '9'
}

/// Characters with the Unicode `White_Space` property (what `char::is_whitespace`
/// and `str::trim` go by).
pub open spec fn is_whitespace(c: char) -> bool {
    ||| '\t' <= c && c <= '\r'
    ||| c == ' '
    ||| c == '\u{85}'
    ||| c == '\u{a0}'
    ||| c == '\u{1680}'
    ||| '\u{2000}' <= c && c <= '\u{200a}'
    ||| c == '\u{2028}'
    ||| c == '\u{2029}'
    ||| c == '\u{202f}'
    ||| c == '\u{205f}'
    ||| c == '\u{3000}'
}

/// `s` is empty once leading and trailing whitespace is trimmed.
pub open spec fn is_blank(s: Seq<char>) -> bool {
    forall|i: int| 0 <= i < s.len() ==> is_whitespace(#[trigger] s[i])
}

/// The pieces of `s` between occurrences of `sep` (always at least one,
/// possibly empty, piece), as `str::split` produces them.
pub open spec fn split_on(s: Seq<char>, sep: char) -> Seq<Seq<char>>
    decreases s.len(),
{
    if s.len() == 0 {
        seq![Seq::<char>::empty()]
    } else {
        let rest = split_on(s.drop_last(), sep);
        if s.last() == sep {
            rest.push(Seq::<char>::empty())
        } else {
            rest.update(rest.len() - 1, rest.last().push(s.last()))
        }
    }
}

pub proof fn lemma_split_on_nonempty(s: Seq<char>, sep: char)
    ensures
        split_on(s, sep).len() >= 1,
    decreases s.len(),
{
    if s.len() > 0 {
        lemma_split_on_nonempty(s.drop_last(), sep);
    }
}

/// Splitting text that holds no separator gives the text itself.
pub proof fn lemma_split_on_append(a: Seq<char>, b: Seq<char>, sep: char)
    requires
        forall|i: int| 0 <= i < b.len() ==> b[i] != sep,
    ensures
        split_on(a + b, sep) == split_on(a, sep).update(
            split_on(a, sep).len() - 1,
            split_on(a, sep).last() + b,
        ),
    decreases b.len(),
{
    lemma_split_on_nonempty(a, sep);
    if b.len() == 0 {
        assert(a + b =~= a);
        assert(split_on(a, sep).last() + b =~= split_on(a, sep).last());
        assert(split_on(a, sep).update(split_on(a, sep).len() - 1, split_on(a, sep).last())
            =~= split_on(a, sep));
    } else {
        let bl = b.drop_last();
        lemma_split_on_append(a, bl, sep);
        assert((a + b).drop_last() =~= a + bl);
        assert((a + b).last() == b.last());
        let rest = split_on(a + bl, sep);
        lemma_split_on_nonempty(a + bl, sep);
        assert(rest.last().push(b.last()) =~= split_on(a, sep).last() + b);
        assert(rest.update(rest.len() - 1, rest.last().push(b.last())) =~= split_on(a, sep).update(
            split_on(a, sep).len() - 1,
            split_on(a, sep).last() + b,
        ));
    }
}

/// Text that holds no separator splits into just itself; a separator
/// followed by such text adds it as a new last piece.
pub proof fn lemma_split_on_sep_then(a: Seq<char>, b: Seq<char>, sep: char)
    requires
        forall|i: int| 0 <= i < b.len() ==> b[i] != sep,
    ensures
        split_on(b, sep) == seq![b],
        split_on(a.push(sep) + b, sep) == split_on(a, sep).push(b),
{
    lemma_split_on_append(Seq::<char>::empty(), b, sep);
    assert(Seq::<char>::empty() + b =~= b);
    assert(seq![Seq::<char>::empty()].update(0, Seq::<char>::empty() + b) =~= seq![b]);
    lemma_split_on_append(a.push(sep), b, sep);
    assert(a.push(sep).drop_last() =~= a);
    let base = split_on(a.push(sep), sep);
    assert(base == split_on(a, sep).push(Seq::<char>::empty()));
    assert(Seq::<char>::empty() + b =~= b);
    assert(base.update(base.len() - 1, base.last() + b) =~= split_on(a, sep).push(b));
}

/// ASCII case folding leaves a separator that is not a letter in place, so
/// it commutes with splitting.
pub proof fn lemma_split_on_lower(s: Seq<char>, sep: char)
    requires
        !('A' <= sep && sep <= 'Z'),
        !('a' <= sep && sep <= 'z'),
    ensures
        split_on(ascii_lower_seq(s), sep) == split_on(s, sep).map_values(
            |p: Seq<char>| ascii_lower_seq(p),
        ),
    decreases s.len(),
{
    let ls = ascii_lower_seq(s);
    if s.len() == 0 {
        assert(ls =~= s);
        assert(split_on(s, sep).map_values(|p: Seq<char>| ascii_lower_seq(p)) =~= seq![
            ascii_lower_seq(Seq::<char>::empty()),
        ]);
        assert(ascii_lower_seq(Seq::<char>::empty()) =~= Seq::<char>::empty());
    } else {
        lemma_split_on_lower(s.drop_last(), sep);
        lemma_split_on_nonempty(s.drop_last(), sep);
        assert(ls.drop_last() =~= ascii_lower_seq(s.drop_last()));
        assert(ls.last() == ascii_lower(s.last()));
        let rest = split_on(s.drop_last(), sep);
        let lrest = rest.map_values(|p: Seq<char>| ascii_lower_seq(p));
        assert(ascii_lower_seq(Seq::<char>::empty()) =~= Seq::<char>::empty());
        if s.last() == sep {
            assert(ls.last() == sep);
            assert(lrest.push(Seq::<char>::empty()) =~= rest.push(Seq::<char>::empty()).map_values(
                |p: Seq<char>| ascii_lower_seq(p),
            ));
        } else {
            if 'A' <= s.last() && s.last() <= 'Z' {
                assert('a' <= ls.last() && ls.last() <= 'z');
            }
            assert(ls.last() != sep);
            assert(ascii_lower_seq(rest.last().push(s.last())) =~= lrest.last().push(ls.last()));
            assert(lrest.update(lrest.len() - 1, lrest.last().push(ls.last())) =~= rest.update(
                rest.len() - 1,
                rest.last().push(s.last()),
            ).map_values(|p: Seq<char>| ascii_lower_seq(p)));
        }
    }
}

/// Case folding is idempotent.
pub proof fn lemma_ascii_lower_idempotent(s: Seq<char>)
    ensures
        ascii_lower_seq(ascii_lower_seq(s)) == ascii_lower_seq(s),
{
    assert(ascii_lower_seq(ascii_lower_seq(s)) =~= ascii_lower_seq(s));
}

/// Case folding changes no character's whitespace-ness.
pub proof fn lemma_blank_lower(s: Seq<char>)
    ensures
        is_blank(ascii_lower_seq(s)) == is_blank(s),
{
    let ls = ascii_lower_seq(s);
    if is_blank(s) {
        assert forall|i: int| 0 <= i < ls.len() implies is_whitespace(#[trigger] ls[i]) by {
            assert(is_whitespace(s[i]));
        }
    }
    if is_blank(ls) {
        assert forall|i: int| 0 <= i < s.len() implies is_whitespace(#[trigger] s[i]) by {
            assert(is_whitespace(ls[i]));
        }
    }
}

/// The decimal digit character for `d` (< 10).
pub open spec fn digit_char(d: nat) -> char {
    (('0' as u32) + d) as char
}

/// `n` written in decimal, without leading zeros.
pub open spec fn decimal(n: nat) -> Seq<char>
    decreases n,
{
    if n < 10 {
        seq![digit_char(n)]
    } else {
        decimal(n / 10).push(digit_char(n % 10))
    }
}

/// `s` left-padded with `'0'` to at least `width` characters.
pub open spec fn zero_pad(s: Seq<char>, width: nat) -> Seq<char> {
    if s.len() >= width {
        s
    } else {
        Seq::new((width - s.len()) as nat, |i: int| '0') + s
    }
}

pub fn to_ascii_lower(c: char) -> (r: char)
    ensures
        r == ascii_lower(c),
{
    if 'A' <= c && c <= 'Z' {
        ((c as u8) + 32) as char
    } else {
        c
    }
}

/// A string holding exactly the characters `v`.
pub fn string_of(v: &Vec<char>) -> (s: String)
    ensures
        s@ == v@,
{
    let mut s = String::new();
    let mut i: usize = 0;
    while i < v.len()
        invariant
            i <= v@.len(),
            s@ == v@.take(i as int),
        decreases v@.len() - i,
    {
        push_char(&mut s, v[i]);
        i = i + 1;
        proof {
            assert(s@ =~= v@.take(i as int));
        }
    }
    proof {
        assert(v@.take(v@.len() as int) =~= v@);
    }
    s
}

/// `s` with ASCII letters folded to lower case (`str::to_ascii_lowercase`).
pub fn ascii_lowercase(s: &str) -> (r: String)
    ensures
        r@ == ascii_lower_seq(s@),
{
    let cs = chars_of(s);
    let mut out = String::new();
    let mut i: usize = 0;
    while i < cs.len()
        invariant
            i <= cs@.len(),
            cs@ == s@,
            out@ == ascii_lower_seq(cs@.take(i as int)),
        decreases cs@.len() - i,
    {
        let c = to_ascii_lower(cs[i]);
        push_char(&mut out, c);
        i = i + 1;
        proof {
            assert(out@ =~= ascii_lower_seq(cs@.take(i as int)));
        }
    }
    proof {
        assert(cs@.take(cs@.len() as int) =~= cs@);
    }
    out
}

/// Whether `a` and `b` are equal ignoring ASCII case
/// (`str::eq_ignore_ascii_case`).
pub fn equal_ignoring_ascii_case(a: &Vec<char>, b: &str) -> (r: bool)
    ensures
        r == eq_ignore_ascii_case(a@, b@),
{
    let bs = chars_of(b);
    if a.len() != bs.len() {
        proof {
            assert(ascii_lower_seq(a@).len() != ascii_lower_seq(b@).len());
        }
        return false;
    }
    let mut i: usize = 0;
    while i < a.len()
        invariant
            i <= a@.len(),
            a@.len() == bs@.len(),
            bs@ == b@,
            forall|j: int| 0 <= j < i ==> ascii_lower(a@[j]) == ascii_lower(bs@[j]),
        decreases a@.len() - i,
    {
        if to_ascii_lower(a[i]) != to_ascii_lower(bs[i]) {
            proof {
                assert(ascii_lower_seq(a@)[i as int] != ascii_lower_seq(b@)[i as int]);
            }
            return false;
        }
        i = i + 1;
    }
    proof {
        assert(ascii_lower_seq(a@) =~= ascii_lower_seq(b@));
    }
    true
}

pub fn is_whitespace_char(c: char) -> (r: bool)
    ensures
        r == is_whitespace(c),
{
    ('\t' <= c && c <= '\r') || c == ' ' || c == '\u{85}' || c == '\u{a0}' || c == '\u{1680}' || (
    '\u{2000}' <= c && c <= '\u{200a}') || c == '\u{2028}' || c == '\u{2029}' || c == '\u{202f}'
        || c == '\u{205f}' || c == '\u{3000}'
}

/// Whether `s` is empty after trimming whitespace (`s.trim().is_empty()`).
pub fn blank(s: &Vec<char>) -> (r: bool)
    ensures
        r == is_blank(s@),
{
    let mut i: usize = 0;
    while i < s.len()
        invariant
            i <= s@.len(),
            forall|j: int| 0 <= j < i ==> is_whitespace(#[trigger] s@[j]),
        decreases s@.len() - i,
    {
        if !is_whitespace_char(s[i]) {
            return false;
        }
        i = i + 1;
    }
    true
}

/// The views of the character vectors in `v`.
pub open spec fn views(v: Seq<Vec<char>>) -> Seq<Seq<char>> {
    v.map_values(|x: Vec<char>| x@)
}

/// The pieces of `s` between occurrences of `sep` (`str::split`).
pub fn split_chars(s: &Vec<char>, sep: char) -> (parts: Vec<Vec<char>>)
    ensures
        views(parts@) == split_on(s@, sep),
{
    let mut parts: Vec<Vec<char>> = Vec::new();
    let mut current: Vec<char> = Vec::new();
    let mut i: usize = 0;
    while i < s.len()
        invariant
            i <= s@.len(),
            views(parts@).push(current@) == split_on(s@.take(i as int), sep),
        decreases s@.len() - i,
    {
        let c = s[i];
        let ghost before = s@.take(i as int);
        let ghost old_parts = parts@;
        let ghost old_current = current@;
        proof {
            assert(s@.take(i + 1).drop_last() =~= before);
            assert(s@.take(i + 1).last() == c);
        }
        if c == sep {
            parts.push(current);
            current = Vec::new();
            proof {
                assert(views(parts@) =~= views(old_parts).push(old_current));
                assert(views(parts@).push(current@) =~= split_on(before, sep).push(
                    Seq::<char>::empty(),
                ));
            }
        } else {
            current.push(c);
            proof {
                let rest = split_on(before, sep);
                assert(rest =~= views(old_parts).push(old_current));
                assert(views(parts@).push(current@) =~= rest.update(
                    rest.len() - 1,
                    rest.last().push(c),
                ));
            }
        }
        i = i + 1;
    }
    proof {
        assert(s@.take(s@.len() as int) =~= s@);
    }
    let ghost old_parts = parts@;
    let ghost last = current@;
    parts.push(current);
    proof {
        assert(views(parts@) =~= views(old_parts).push(last));
    }
    parts
}

/// Appends the decimal digits of `n`, left-padded with zeros to `width`.
pub fn push_decimal(out: &mut String, n: u64, width: usize)
    ensures
        final(out)@ == old(out)@ + zero_pad(decimal(n as nat), width as nat),
{
    let digits = decimal_chars(n);
    let mut pad: usize = 0;
    if digits.len() < width {
        pad = width - digits.len();
    }
    let mut i: usize = 0;
    while i < pad
        invariant
            i <= pad,
            out@ == old(out)@ + Seq::new(i as nat, |j: int| '0'),
        decreases pad - i,
    {
        push_char(out, '0');
        i = i + 1;
        proof {
            assert(out@ =~= old(out)@ + Seq::new(i as nat, |j: int| '0'));
        }
    }
    let mut k: usize = 0;
    while k < digits.len()
        invariant
            k <= digits@.len(),
            out@ == old(out)@ + Seq::new(pad as nat, |j: int| '0') + digits@.take(k as int),
        decreases digits@.len() - k,
    {
        push_char(out, digits[k]);
        k = k + 1;
        proof {
            assert(out@ =~= old(out)@ + Seq::new(pad as nat, |j: int| '0') + digits@.take(
                k as int,
            ));
        }
    }
    proof {
        assert(digits@.take(digits@.len() as int) =~= digits@);
        if digits@.len() >= width {
            assert(Seq::new(pad as nat, |j: int| '0') =~= Seq::<char>::empty());
            assert(out@ =~= old(out)@ + zero_pad(decimal(n as nat), width as nat));
        } else {
            assert(out@ =~= old(out)@ + zero_pad(decimal(n as nat), width as nat));
        }
    }
}

/// The decimal digits of `n`.
pub fn decimal_chars(n: u64) -> (d: Vec<char>)
    ensures
        d@ == decimal(n as nat),
    decreases n,
{
    if n < 10 {
        let mut v = Vec::new();
        v.push((('0' as u8) + (n as u8)) as char);
        proof {
            assert(v@ =~= decimal(n as nat));
        }
        v
    } else {
        let mut v = decimal_chars(n / 10);
        v.push((('0' as u8) + ((n % 10) as u8)) as char);
        v
    }
}

/// Whether the characters `a` spell exactly `b`.
pub fn chars_equal(a: &Vec<char>, b: &str) -> (r: bool)
    ensures
        r == (a@ == b@),
{
    let bs = chars_of(b);
    if a.len() != bs.len() {
        return false;
    }
    let mut i: usize = 0;
    while i < a.len()
        invariant
            i <= a@.len(),
            a@.len() == bs@.len(),
            bs@ == b@,
            forall|j: int| 0 <= j < i ==> a@[j] == bs@[j],
        decreases a@.len() - i,
    {
        if a[i] != bs[i] {
            return false;
        }
        i = i + 1;
    }
    proof {
        assert(a@ =~= b@);
    }
    true
}

/// Whether `a` and `b` hold the same characters (`str == str`).
pub fn str_equal(a: &str, b: &str) -> (r: bool)
    ensures
        r == (a@ == b@),
{
    let av = chars_of(a);
    chars_equal(&av, b)
}

/// An owned copy of `s`.
pub fn owned(s: &str) -> (r: String)
    ensures
        r@ == s@,
{
    let mut out = String::new();
    out.append(s);
    proof {
        assert(out@ =~= s@);
    }
    out
}

/// Appends `t` to `s`.
pub fn push_str(s: &mut String, t: &str)
    ensures
        final(s)@ == old(s)@ + t@,
{
    s.append(t);
}

/// `s` without leading whitespace.
pub open spec fn trim_start(s: Seq<char>) -> Seq<char>
    decreases s.len(),
{
    if s.len() > 0 && is_whitespace(s[0]) {
        trim_start(s.drop_first())
    } else {
        s
    }
}

/// `s` without trailing whitespace.
pub open spec fn trim_end(s: Seq<char>) -> Seq<char>
    decreases s.len(),
{
    if s.len() > 0 && is_whitespace(s.last()) {
        trim_end(s.drop_last())
    } else {
        s
    }
}

/// `s` without leading or trailing whitespace (`str::trim`).
pub open spec fn trim(s: Seq<char>) -> Seq<char> {
    trim_end(trim_start(s))
}

proof fn lemma_trim_start_skip(s: Seq<char>, i: int)
    requires
        0 <= i <= s.len(),
        forall|j: int| 0 <= j < i ==> is_whitespace(#[trigger] s[j]),
    ensures
        trim_start(s) == trim_start(s.skip(i)),
    decreases i,
{
    if i > 0 {
        lemma_trim_start_skip(s.drop_first(), i - 1);
        assert(s.drop_first().skip(i - 1) =~= s.skip(i));
    } else {
        assert(s.skip(0) =~= s);
    }
}

proof fn lemma_trim_end_take(s: Seq<char>, k: int)
    requires
        0 <= k <= s.len(),
        forall|j: int| k <= j < s.len() ==> is_whitespace(#[trigger] s[j]),
    ensures
        trim_end(s) == trim_end(s.take(k)),
    decreases s.len() - k,
{
    if k < s.len() {
        lemma_trim_end_take(s.drop_last(), k);
        assert(s.drop_last().take(k) =~= s.take(k));
    } else {
        assert(s.take(k) =~= s);
    }
}

/// `s` with leading and trailing whitespace removed.
pub fn trimmed(s: &Vec<char>) -> (r: Vec<char>)
    ensures
        r@ == trim(s@),
{
    let mut i: usize = 0;
    while i < s.len() && is_whitespace_char(s[i])
        invariant
            i <= s@.len(),
            forall|j: int| 0 <= j < i ==> is_whitespace(#[trigger] s@[j]),
        decreases s@.len() - i,
    {
        i = i + 1;
    }
    proof {
        lemma_trim_start_skip(s@, i as int);
    }
    let ghost t = s@.skip(i as int);
    let mut k: usize = s.len();
    while k > i && is_whitespace_char(s[k - 1])
        invariant
            i <= k <= s@.len(),
            t == s@.skip(i as int),
            forall|j: int| k - i <= j < t.len() ==> is_whitespace(#[trigger] t[j]),
        decreases k,
    {
        k = k - 1;
    }
    proof {
        lemma_trim_end_take(t, k - i);
        if k > i {
            assert(!is_whitespace(t.take(k - i).last()));
        }
        if i < s@.len() {
            assert(!is_whitespace(t[0]));
            if k == i {
                assert(false);
            }
        }
    }
    let mut r: Vec<char> = Vec::new();
    let mut j: usize = i;
    while j < k
        invariant
            i <= j <= k <= s@.len(),
            r@ == s@.subrange(i as int, j as int),
        decreases k - j,
    {
        r.push(s[j]);
        j = j + 1;
        proof {
            assert(r@ =~= s@.subrange(i as int, j as int));
        }
    }
    proof {
        assert(r@ =~= t.take(k - i));
        if k > i {
            assert(trim_end(t.take(k - i)) == t.take(k - i));
        } else {
            assert(t.take(k - i) =~= Seq::<char>::empty());
        }
    }
    r
}

/// The hexadecimal digit character for `d` (< 16), upper case.
pub open spec fn hex_char(d: nat) -> char {
    if d < 10 {
        (('0' as u32) + d) as char
    } else {
        (('A' as u32) + (d - 10)) as char
    }
}

/// `n` written in upper-case hexadecimal, without leading zeros.
pub open spec fn hex(n: nat) -> Seq<char>
    decreases n,
{
    if n < 16 {
        seq![hex_char(n)]
    } else {
        hex(n / 16).push(hex_char(n % 16))
    }
}

/// The upper-case hexadecimal digits of `n`.
pub fn hex_chars(n: u64) -> (d: Vec<char>)
    ensures
        d@ == hex(n as nat),
    decreases n,
{
    let digit = (n % 16) as u8;
    let c = if digit < 10 {
        (('0' as u8) + digit) as char
    } else {
        (('A' as u8) + (digit - 10)) as char
    };
    if n < 16 {
        let mut v = Vec::new();
        v.push(c);
        proof {
            assert(v@ =~= hex(n as nat));
        }
        v
    } else {
        let mut v = hex_chars(n / 16);
        v.push(c);
        v
    }
}

/// The elements of `parts` with `sep` between each two.
pub open spec fn joined(parts: Seq<Seq<char>>, sep: Seq<char>) -> Seq<char>
    decreases parts.len(),
{
    if parts.len() == 0 {
        seq![]
    } else if parts.len() == 1 {
        parts[0]
    } else {
        joined(parts.drop_last(), sep) + sep + parts.last()
    }
}

/// `parts.join(sep)`.
pub fn join_strings(parts: &[String], sep: &str) -> (r: String)
    ensures
        r@ == joined(parts@.map_values(|s: String| s@), sep@),
{
    let ghost pv = parts@.map_values(|s: String| s@);
    let mut r = String::new();
    let mut i: usize = 0;
    while i < parts.len()
        invariant
            i <= parts@.len(),
            pv == parts@.map_values(|s: String| s@),
            r@ == joined(pv.take(i as int), sep@),
        decreases parts@.len() - i,
    {
        proof {
            assert(pv.take(i + 1).drop_last() =~= pv.take(i as int));
        }
        if i > 0 {
            push_str(&mut r, sep);
        }
        push_str(&mut r, parts[i].as_str());
        i = i + 1;
        proof {
            if i == 1 {
                assert(r@ =~= pv.take(1)[0]);
            }
        }
    }
    proof {
        assert(pv.take(parts@.len() as int) =~= pv);
    }
    r
}

} // verus!

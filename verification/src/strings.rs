//! Character-level text helpers: ASCII case folding, substring search,
//! prefix tests and lexicographic ordering, all specified over `Seq<char>`.

use vstd::prelude::*;

verus! {

/// ASCII case folding of one character: `'A'..='Z'` map to `'a'..='z'`,
/// every other character is unchanged. This is narrower than full Unicode
/// lowercasing: a non-ASCII letter keeps its case, so text containing one
/// may fold differently than a Unicode-aware tool would fold it. The
/// phrases the fold is used to match are themselves ASCII.
pub open spec fn lower_char(c: char) -> char {
    match c {
        'A' => 'a',
        'B' => 'b',
        'C' => 'c',
        'D' => 'd',
        'E' => 'e',
        'F' => 'f',
        'G' => 'g',
        'H' => 'h',
        'I' => 'i',
        'J' => 'j',
        'K' => 'k',
        'L' => 'l',
        'M' => 'm',
        'N' => 'n',
        'O' => 'o',
        'P' => 'p',
        'Q' => 'q',
        'R' => 'r',
        'S' => 's',
        'T' => 't',
        'U' => 'u',
        'V' => 'v',
        'W' => 'w',
        'X' => 'x',
        'Y' => 'y',
        'Z' => 'z',
        _ => c,
    }
}

/// ASCII case folding of a whole character sequence.
pub open spec fn lower_seq(s: Seq<char>) -> Seq<char> {
    s.map_values(|c: char| lower_char(c))
}

/// Executable ASCII case folding of one character.
pub fn fold_char(c: char) -> (r: char)
    ensures
        r == lower_char(c),
{
    match c {
        'A' => 'a',
        'B' => 'b',
        'C' => 'c',
        'D' => 'd',
        'E' => 'e',
        'F' => 'f',
        'G' => 'g',
        'H' => 'h',
        'I' => 'i',
        'J' => 'j',
        'K' => 'k',
        'L' => 'l',
        'M' => 'm',
        'N' => 'n',
        'O' => 'o',
        'P' => 'p',
        'Q' => 'q',
        'R' => 'r',
        'S' => 's',
        'T' => 't',
        'U' => 'u',
        'V' => 'v',
        'W' => 'w',
        'X' => 'x',
        'Y' => 'y',
        'Z' => 'z',
        _ => c,
    }
}

/// `needle` occurs in `hay` starting at character position `i`.
pub open spec fn match_at(hay: Seq<char>, needle: Seq<char>, i: int) -> bool {
    0 <= i && i + needle.len() <= hay.len() && hay.subrange(i, i + needle.len() as int)
        == needle
}

/// `needle` occurs somewhere in `hay`.
pub open spec fn contains_seq(hay: Seq<char>, needle: Seq<char>) -> bool {
    exists|i: int| match_at(hay, needle, i)
}

/// Whether `needle` occurs in `hay` after ASCII case folding of both sides.
pub fn str_contains_fold(hay: &str, needle: &str) -> (r: bool)
    ensures
        r == contains_seq(lower_seq(hay@), lower_seq(needle@)),
{
    let ghost lh = lower_seq(hay@);
    let ghost ln = lower_seq(needle@);
    let hn = hay.unicode_len();
    let nn = needle.unicode_len();
    if nn == 0 {
        proof {
            assert(match_at(lh, ln, 0)) by {
                assert(lh.subrange(0, 0) =~= ln);
            }
        }
        return true;
    }
    if nn > hn {
        assert(forall|i: int| !match_at(lh, ln, i));
        return false;
    }
    let mut i: usize = 0;
    while i <= hn - nn
        invariant
            hn == hay@.len(),
            nn == needle@.len(),
            0 < nn <= hn,
            i <= hn - nn + 1,
            lh == lower_seq(hay@),
            ln == lower_seq(needle@),
            forall|k: int| 0 <= k < i ==> !match_at(lh, ln, k),
        decreases hn - nn - i + 1,
    {
        let mut j: usize = 0;
        let mut m = true;
        while j < nn
            invariant
                hn == hay@.len(),
                nn == needle@.len(),
                0 < nn <= hn,
                i <= hn - nn,
                j <= nn,
                lh == lower_seq(hay@),
                ln == lower_seq(needle@),
                m ==> lh.subrange(i as int, i + j) == ln.take(j as int),
                !m ==> !match_at(lh, ln, i as int),
                !m ==> j == nn,
            decreases nn - j,
        {
            if fold_char(hay.get_char(i + j)) == fold_char(needle.get_char(j)) {
                proof {
                    assert(lh[i + j] == lower_char(hay@[i + j]));
                    assert(ln[j as int] == lower_char(needle@[j as int]));
                    assert(lh.subrange(i as int, i + j + 1) =~= lh.subrange(i as int, i + j).push(
                        lh[i + j],
                    ));
                    assert(ln.take(j + 1) =~= ln.take(j as int).push(ln[j as int]));
                }
                j += 1;
            } else {
                proof {
                    assert(lh[i + j] == lower_char(hay@[i + j]));
                    assert(ln[j as int] == lower_char(needle@[j as int]));
                    if match_at(lh, ln, i as int) {
                        assert(lh.subrange(i as int, i + nn)[j as int] == ln[j as int]);
                    }
                }
                m = false;
                j = nn;
            }
        }
        if m {
            proof {
                assert(ln.take(nn as int) =~= ln);
                assert(match_at(lh, ln, i as int));
            }
            return true;
        }
        i += 1;
    }
    proof {
        assert(forall|k: int| i <= k ==> !match_at(lh, ln, k));
    }
    false
}

/// `p` is a prefix of `s`.
pub open spec fn starts_with_seq(s: Seq<char>, p: Seq<char>) -> bool {
    p.len() <= s.len() && s.take(p.len() as int) == p
}

/// Whether `s` starts with the prefix `p`, comparing exact characters.
pub fn str_starts_with(s: &str, p: &str) -> (r: bool)
    ensures
        r == starts_with_seq(s@, p@),
{
    let sn = s.unicode_len();
    let pn = p.unicode_len();
    if pn > sn {
        return false;
    }
    let mut j: usize = 0;
    while j < pn
        invariant
            sn == s@.len(),
            pn == p@.len(),
            pn <= sn,
            j <= pn,
            s@.take(j as int) == p@.take(j as int),
        decreases pn - j,
    {
        if s.get_char(j) != p.get_char(j) {
            proof {
                if starts_with_seq(s@, p@) {
                    assert(s@.take(pn as int)[j as int] == p@[j as int]);
                }
            }
            return false;
        }
        proof {
            assert(s@.take(j + 1) =~= s@.take(j as int).push(s@[j as int]));
            assert(p@.take(j + 1) =~= p@.take(j as int).push(p@[j as int]));
        }
        j += 1;
    }
    proof {
        assert(p@.take(pn as int) =~= p@);
        assert(s@.take(pn as int) == p@.take(pn as int));
    }
    true
}

/// The decimal digit character for `d`, which must be in `0..=9`.
pub open spec fn dec_digit(d: int) -> char {
    if d == 0 {
        '0'
    } else if d == 1 {
        '1'
    } else if d == 2 {
        '2'
    } else if d == 3 {
        '3'
    } else if d == 4 {
        '4'
    } else if d == 5 {
        '5'
    } else if d == 6 {
        '6'
    } else if d == 7 {
        '7'
    } else if d == 8 {
        '8'
    } else {
        '9'
    }
}

/// The decimal rendering of a nonnegative integer, most significant digit
/// first, with no leading zeros (just "0" for zero).
pub open spec fn dec_of(n: int) -> Seq<char>
    decreases n,
{
    if n < 10 {
        seq![dec_digit(n)]
    } else {
        dec_of(n / 10) + seq![dec_digit(n % 10)]
    }
}

/// One decimal digit as a string slice.
fn digit_str(d: u64) -> (r: &'static str)
    requires
        d < 10,
    ensures
        r@ =~= seq![dec_digit(d as int)],
{
    proof {
        reveal_strlit("0");
        reveal_strlit("1");
        reveal_strlit("2");
        reveal_strlit("3");
        reveal_strlit("4");
        reveal_strlit("5");
        reveal_strlit("6");
        reveal_strlit("7");
        reveal_strlit("8");
        reveal_strlit("9");
    }
    match d {
        0 => "0",
        1 => "1",
        2 => "2",
        3 => "3",
        4 => "4",
        5 => "5",
        6 => "6",
        7 => "7",
        8 => "8",
        _ => "9",
    }
}

/// Renders `n` in decimal.
pub fn u64_to_string(n: u64) -> (r: String)
    ensures
        r@ == dec_of(n as int),
    decreases n,
{
    if n < 10 {
        let mut out = String::new();
        out.append(digit_str(n));
        return out;
    }
    let mut out = u64_to_string(n / 10);
    out.append(digit_str(n % 10));
    out
}

/// Renders `n` in decimal.
pub fn usize_to_string(n: usize) -> (r: String)
    ensures
        r@ == dec_of(n as int),
{
    u64_to_string(n as u64)
}

/// Strict lexicographic order on character sequences, by code point:
/// there is a position `k` where both agree before it, and either `a`
/// ends there while `b` goes on, or `a`'s character there is smaller.
pub open spec fn seq_lt(a: Seq<char>, b: Seq<char>) -> bool {
    exists|k: int|
        0 <= k <= a.len() && k <= b.len() && a.take(k) == b.take(k) && ((k == a.len() && k
            < b.len()) || (k < a.len() && k < b.len() && (a[k] as u32) < (b[k] as u32)))
}

/// Whether `a` sorts strictly before `b`, by code point.
pub fn str_lt(a: &str, b: &str) -> (r: bool)
    ensures
        r == seq_lt(a@, b@),
{
    let an = a.unicode_len();
    let bn = b.unicode_len();
    let mut i: usize = 0;
    while i < an && i < bn
        invariant
            an == a@.len(),
            bn == b@.len(),
            i <= an,
            i <= bn,
            a@.take(i as int) == b@.take(i as int),
        decreases an - i,
    {
        let ca = a.get_char(i);
        let cb = b.get_char(i);
        if ca as u32 != cb as u32 {
            proof {
                if (ca as u32) < (cb as u32) {
                    assert(seq_lt(a@, b@));
                } else {
                    assert forall|k: int|
                        0 <= k <= a@.len() && k <= b@.len() && a@.take(k) == b@.take(k) implies !((
                    k == a@.len() && k < b@.len()) || (k < a@.len() && k < b@.len() && (
                    a@[k] as u32) < (b@[k] as u32))) by {
                        if k > i {
                            assert(a@.take(k)[i as int] == b@.take(k)[i as int]);
                        } else if k < i {
                            assert(a@.take(i as int)[k] == b@.take(i as int)[k]);
                        }
                    }
                }
            }
            return (ca as u32) < (cb as u32);
        }
        proof {
            assert(a@.take(i + 1) =~= a@.take(i as int).push(a@[i as int]));
            assert(b@.take(i + 1) =~= b@.take(i as int).push(b@[i as int]));
        }
        i += 1;
    }
    proof {
        if an < bn {
            assert(seq_lt(a@, b@));
        } else {
            assert forall|k: int|
                0 <= k <= a@.len() && k <= b@.len() && a@.take(k) == b@.take(k) implies !((k
                == a@.len() && k < b@.len()) || (k < a@.len() && k < b@.len() && (a@[k] as u32) < (
            b@[k] as u32))) by {
                if k < bn {
                    assert(a@.take(bn as int)[k] == b@.take(bn as int)[k]);
                    assert(a@[k] == b@[k]);
                }
            }
        }
    }
    an < bn
}

/// A blank character: space, tab, or a line ending.
pub open spec fn is_space(c: char) -> bool {
    c == ' ' || c == '\t' || c == '\n' || c == '\r'
}

/// `s` without its leading blanks.
pub open spec fn trim_front(s: Seq<char>) -> Seq<char>
    decreases s.len(),
{
    if s.len() > 0 && is_space(s[0]) {
        trim_front(s.drop_first())
    } else {
        s
    }
}

/// `s` without its trailing blanks.
pub open spec fn trim_back(s: Seq<char>) -> Seq<char>
    decreases s.len(),
{
    if s.len() > 0 && is_space(s.last()) {
        trim_back(s.drop_last())
    } else {
        s
    }
}

fn space_char(c: char) -> (r: bool)
    ensures
        r == is_space(c),
{
    c == ' ' || c == '\t' || c == '\n' || c == '\r'
}

/// `s` without leading and trailing blanks.
pub fn trim_spaces(s: &str) -> (r: String)
    ensures
        r@ == trim_back(trim_front(s@)),
{
    let n = s.unicode_len();
    proof {
        assert(s@.skip(0) =~= s@);
    }
    let mut a: usize = 0;
    while a < n && space_char(s.get_char(a))
        invariant
            n == s@.len(),
            a <= n,
            trim_front(s@) == trim_front(s@.skip(a as int)),
        decreases n - a,
    {
        proof {
            assert(s@.skip(a as int)[0] == s@[a as int]);
            assert(s@.skip(a as int).drop_first() =~= s@.skip(a + 1));
        }
        a += 1;
    }
    proof {
        if a < n {
            assert(s@.skip(a as int)[0] == s@[a as int]);
        }
        assert(trim_front(s@) == s@.skip(a as int));
    }
    proof {
        assert(s@.skip(a as int).take(n - a) =~= s@.skip(a as int));
    }
    let mut b: usize = n;
    while b > a && space_char(s.get_char(b - 1))
        invariant
            n == s@.len(),
            a <= b <= n,
            trim_front(s@) == s@.skip(a as int),
            trim_back(s@.skip(a as int)) == trim_back(s@.skip(a as int).take(b - a)),
        decreases b,
    {
        proof {
            let cur = s@.skip(a as int).take(b - a);
            assert(cur.last() == s@[b - 1]);
            assert(cur.drop_last() =~= s@.skip(a as int).take(b - 1 - a));
        }
        b -= 1;
    }
    proof {
        let cur = s@.skip(a as int).take(b - a);
        if b > a {
            assert(cur.last() == s@[b - 1]);
        }
        assert(trim_back(s@.skip(a as int)) == cur);
    }
    let piece = s.substring_char(a, b);
    proof {
        assert(s@.subrange(a as int, b as int) =~= s@.skip(a as int).take(b - a));
    }
    piece.to_owned()
}

/// Whether `a` and `b` hold the same characters.
pub fn str_eq(a: &str, b: &str) -> (r: bool)
    ensures
        r == (a@ == b@),
{
    let an = a.unicode_len();
    let bn = b.unicode_len();
    if an != bn {
        return false;
    }
    let mut i: usize = 0;
    while i < an
        invariant
            an == a@.len(),
            an == b@.len(),
            i <= an,
            forall|k: int| 0 <= k < i ==> a@[k] == b@[k],
        decreases an - i,
    {
        if a.get_char(i) != b.get_char(i) {
            return false;
        }
        i += 1;
    }
    proof {
        assert(a@ =~= b@);
    }
    true
}

/// A copy of a string list, character for character.
pub fn clone_strings(v: &Vec<String>) -> (r: Vec<String>)
    ensures
        r@.len() == v@.len(),
        forall|i: int| 0 <= i < v@.len() ==> r@[i]@ == v@[i]@,
{
    let mut out: Vec<String> = Vec::new();
    let mut i: usize = 0;
    while i < v.len()
        invariant
            i <= v@.len(),
            out@.len() == i,
            forall|k: int| 0 <= k < i ==> out@[k]@ == v@[k]@,
        decreases v@.len() - i,
    {
        out.push(v[i].clone());
        i += 1;
    }
    out
}

/// Whether `a` and `b` hold the same characters after ASCII case folding.
pub fn str_eq_fold(a: &str, b: &str) -> (r: bool)
    ensures
        r == (lower_seq(a@) == lower_seq(b@)),
{
    let an = a.unicode_len();
    let bn = b.unicode_len();
    if an != bn {
        proof {
            assert(lower_seq(a@).len() != lower_seq(b@).len());
        }
        return false;
    }
    let mut i: usize = 0;
    while i < an
        invariant
            an == a@.len(),
            an == b@.len(),
            i <= an,
            forall|k: int| 0 <= k < i ==> lower_seq(a@)[k] == lower_seq(b@)[k],
        decreases an - i,
    {
        if fold_char(a.get_char(i)) != fold_char(b.get_char(i)) {
            proof {
                assert(lower_seq(a@)[i as int] == lower_char(a@[i as int]));
                assert(lower_seq(b@)[i as int] == lower_char(b@[i as int]));
            }
            return false;
        }
        proof {
            assert(lower_seq(a@)[i as int] == lower_char(a@[i as int]));
            assert(lower_seq(b@)[i as int] == lower_char(b@[i as int]));
        }
        i += 1;
    }
    proof {
        assert(lower_seq(a@) =~= lower_seq(b@));
    }
    true
}

/// `s` without every leading occurrence of `c`.
pub open spec fn strip_front(s: Seq<char>, c: char) -> Seq<char>
    decreases s.len(),
{
    if s.len() > 0 && s[0] == c {
        strip_front(s.drop_first(), c)
    } else {
        s
    }
}

/// `s` without every trailing occurrence of `c`.
pub open spec fn strip_back(s: Seq<char>, c: char) -> Seq<char>
    decreases s.len(),
{
    if s.len() > 0 && s.last() == c {
        strip_back(s.drop_last(), c)
    } else {
        s
    }
}

/// Removes every leading occurrence of `c`.
pub fn strip_leading(s: &str, c: char) -> (r: String)
    ensures
        r@ == strip_front(s@, c),
{
    let n = s.unicode_len();
    proof {
        assert(s@.skip(0) =~= s@);
    }
    let mut a: usize = 0;
    while a < n && s.get_char(a) == c
        invariant
            n == s@.len(),
            a <= n,
            strip_front(s@, c) == strip_front(s@.skip(a as int), c),
        decreases n - a,
    {
        proof {
            assert(s@.skip(a as int)[0] == s@[a as int]);
            assert(s@.skip(a as int).drop_first() =~= s@.skip(a + 1));
        }
        a += 1;
    }
    proof {
        if a < n {
            assert(s@.skip(a as int)[0] == s@[a as int]);
        }
        assert(strip_front(s@, c) == s@.skip(a as int));
        assert(s@.subrange(a as int, n as int) =~= s@.skip(a as int));
    }
    s.substring_char(a, n).to_owned()
}

/// Removes every trailing occurrence of `c`.
pub fn strip_trailing(s: &str, c: char) -> (r: String)
    ensures
        r@ == strip_back(s@, c),
{
    let n = s.unicode_len();
    proof {
        assert(s@.take(n as int) =~= s@);
    }
    let mut b: usize = n;
    while b > 0 && s.get_char(b - 1) == c
        invariant
            n == s@.len(),
            b <= n,
            strip_back(s@, c) == strip_back(s@.take(b as int), c),
        decreases b,
    {
        proof {
            assert(s@.take(b as int).last() == s@[b - 1]);
            assert(s@.take(b as int).drop_last() =~= s@.take(b - 1));
        }
        b -= 1;
    }
    proof {
        if b > 0 {
            assert(s@.take(b as int).last() == s@[b - 1]);
        }
        assert(strip_back(s@, c) == s@.take(b as int));
        assert(s@.subrange(0, b as int) =~= s@.take(b as int));
    }
    s.substring_char(0, b).to_owned()
}

/// The views of the strings.
pub open spec fn str_views(v: Seq<String>) -> Seq<Seq<char>> {
    v.map_values(|s: String| s@)
}

/// The parts joined with `sep` between them.
pub open spec fn joined_sep(parts: Seq<Seq<char>>, sep: Seq<char>) -> Seq<char>
    decreases parts.len(),
{
    if parts.len() == 0 {
        Seq::empty()
    } else if parts.len() == 1 {
        parts[0]
    } else {
        parts[0] + sep + joined_sep(parts.skip(1), sep)
    }
}

/// Appending one part appends a separator and the part.
pub proof fn lemma_joined_sep_push(parts: Seq<Seq<char>>, sep: Seq<char>, last: Seq<char>)
    requires
        parts.len() > 0,
    ensures
        joined_sep(parts.push(last), sep) == joined_sep(parts, sep) + sep + last,
    decreases parts.len(),
{
    if parts.len() == 1 {
        assert(parts.push(last).skip(1) =~= seq![last]);
        assert(parts.push(last)[0] == parts[0]);
        assert(joined_sep(seq![last], sep) == last);
        assert(joined_sep(parts, sep) == parts[0]);
    } else {
        assert(parts.push(last).skip(1) =~= parts.skip(1).push(last));
        lemma_joined_sep_push(parts.skip(1), sep, last);
        assert(joined_sep(parts.push(last), sep) == parts[0] + sep + joined_sep(
            parts.skip(1).push(last),
            sep,
        ));
        assert(parts[0] + sep + (joined_sep(parts.skip(1), sep) + sep + last) =~= (parts[0] + sep
            + joined_sep(parts.skip(1), sep)) + sep + last);
    }
}

/// The strings reordered by code point, never descending; the same
/// strings, as often as before.
pub fn sort_strings(v: Vec<String>) -> (r: Vec<String>)
    ensures
        r@.len() == v@.len(),
        r@.to_multiset() == v@.to_multiset(),
        forall|i: int, j: int| 0 <= i < j < r@.len() ==> !seq_lt(r@[j]@, r@[i]@),
{
    broadcast use vstd::seq_lib::group_to_multiset_ensures;
    broadcast use vstd::multiset::group_multiset_axioms;

    let mut rem: Vec<String> = v;
    let ghost v0 = rem@;
    let mut out: Vec<String> = Vec::new();
    proof {
        assert(out@ + rem@ =~= v0);
        assert(v0 == v@);
    }
    while rem.len() > 0
        invariant
            out@.len() + rem@.len() == v@.len(),
            (out@ + rem@).to_multiset() =~= v@.to_multiset(),
            forall|i2: int, j2: int| 0 <= i2 < j2 < out@.len() ==> !seq_lt(out@[j2]@, out@[i2]@),
            forall|i2: int, k2: int|
                0 <= i2 < out@.len() && 0 <= k2 < rem@.len() ==> !seq_lt(rem@[k2]@, out@[i2]@),
        decreases rem@.len(),
    {
        let mut mi: usize = 0;
        let mut k: usize = 1;
        while k < rem.len()
            invariant
                mi < k <= rem@.len(),
                forall|k2: int| 0 <= k2 < k ==> !seq_lt(rem@[k2]@, rem@[mi as int]@),
            decreases rem@.len() - k,
        {
            if str_lt(rem[k].as_str(), rem[mi].as_str()) {
                proof {
                    assert forall|k2: int| 0 <= k2 < k implies !seq_lt(
                        rem@[k2]@,
                        rem@[k as int]@,
                    ) by {
                        if seq_lt(rem@[k2]@, rem@[k as int]@) {
                            lemma_seq_lt_trans(rem@[k2]@, rem@[k as int]@, rem@[mi as int]@);
                        }
                    }
                }
                mi = k;
            }
            k += 1;
        }
        let ghost old_rem = rem@;
        let ghost old_out = out@;
        let e = rem.remove(mi);
        let ghost ge = e;
        out.push(e);
        proof {
            broadcast use vstd::seq_lib::group_to_multiset_ensures;
            broadcast use vstd::multiset::group_multiset_axioms;

            assert(old_rem.contains(old_rem[mi as int]));
            assert(old_rem.to_multiset().count(ge) > 0);
            assert(rem@ == old_rem.remove(mi as int));
            assert(old_rem.remove(mi as int).to_multiset() =~= old_rem.to_multiset().remove(ge));
            assert(out@ == old_out.push(ge));
            assert(old_out.push(ge).to_multiset() =~= old_out.to_multiset().insert(ge));
            vstd::seq_lib::lemma_multiset_commutative(old_out, old_rem);
            vstd::seq_lib::lemma_multiset_commutative(out@, rem@);
            assert((out@ + rem@).to_multiset() =~= v@.to_multiset());
            assert forall|k2: int| 0 <= k2 < rem@.len() implies !seq_lt(rem@[k2]@, ge@) by {
                if k2 < mi {
                    assert(rem@[k2] == old_rem[k2]);
                } else {
                    assert(rem@[k2] == old_rem[k2 + 1]);
                }
            }
        }
    }
    out
}

/// The lexicographic order is transitive.
pub proof fn lemma_seq_lt_trans(a: Seq<char>, b: Seq<char>, c: Seq<char>)
    requires
        seq_lt(a, b),
        seq_lt(b, c),
    ensures
        seq_lt(a, c),
{
    let k1 = choose|k1: int|
        0 <= k1 <= a.len() && k1 <= b.len() && a.take(k1) == b.take(k1) && ((k1 == a.len() && k1
            < b.len()) || (k1 < a.len() && k1 < b.len() && (a[k1] as u32) < (b[k1] as u32)));
    let k2 = choose|k2: int|
        0 <= k2 <= b.len() && k2 <= c.len() && b.take(k2) == c.take(k2) && ((k2 == b.len() && k2
            < c.len()) || (k2 < b.len() && k2 < c.len() && (b[k2] as u32) < (c[k2] as u32)));
    if k1 <= k2 {
        // agreement of a and c up to k1
        assert(a.take(k1) =~= c.take(k1)) by {
            assert forall|m: int| 0 <= m < k1 implies a[m] == c[m] by {
                assert(a.take(k1)[m] == b.take(k1)[m]);
                assert(b.take(k2)[m] == c.take(k2)[m]);
            }
        }
        if k1 == a.len() {
            // a ends at k1; c goes on past k1
            assert(k1 < c.len());
            assert(seq_lt(a, c));
        } else {
            // a[k1] < b[k1]; b agrees with c at k1 when k1 < k2, else b[k1] <= c[k1]
            if k1 < k2 {
                assert(b.take(k2)[k1] == c.take(k2)[k1]);
                assert(seq_lt(a, c));
            } else {
                // k1 == k2: b cannot end at k1, since k1 < b.len()
                assert((b[k1] as u32) < (c[k1] as u32));
                assert(seq_lt(a, c));
            }
        }
    } else {
        // k2 < k1 <= a.len(), b.len(): b cannot end at k2
        assert(k2 < b.len());
        assert((b[k2] as u32) < (c[k2] as u32));
        assert(a.take(k2) =~= c.take(k2)) by {
            assert forall|m: int| 0 <= m < k2 implies a[m] == c[m] by {
                assert(a.take(k1)[m] == b.take(k1)[m]);
                assert(b.take(k2)[m] == c.take(k2)[m]);
            }
        }
        assert(a.take(k1)[k2] == b.take(k1)[k2]);
        assert(seq_lt(a, c));
    }
}

} // verus!

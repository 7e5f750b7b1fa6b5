//! Semantic versions: the numeric triple, pre-release identifiers, parsing
//! through the `semver` crate, and the precedence order on the parsed parts.

use vstd::prelude::*;
use crate::strings::{dec_of, seq_lt, str_lt, u64_to_string};

verus! {

/// What `semver::Version::parse` returns for a given text: `None` stands
/// for a parse error, otherwise major, minor, patch and the raw pre-release
/// text (empty when the version has no pre-release part).
pub uninterp spec fn sem_version_of(s: Seq<char>) -> Option<(u64, u64, u64, Seq<char>)>;

/// Relies on `semver::Version::parse`: the result is a function of the text
/// alone; build metadata is dropped, as precedence ignores it.
#[verifier::external_body]
fn parse_semver_raw(s: &str) -> (r: Option<(u64, u64, u64, String)>)
    ensures
        match (r, sem_version_of(s@)) {
            (Some(p), Some(q)) => p.0 == q.0 && p.1 == q.1 && p.2 == q.2 && p.3@ == q.3,
            (None, None) => true,
            _ => false,
        },
{
    match semver::Version::parse(s) {
        Ok(v) => Some((v.major, v.minor, v.patch, v.pre.as_str().to_string())),
        Err(_) => None,
    }
}

/// The identifiers joined with `'.'` separators.
pub open spec fn joined_dots(parts: Seq<Seq<char>>) -> Seq<char>
    decreases parts.len(),
{
    if parts.len() == 0 {
        Seq::empty()
    } else if parts.len() == 1 {
        parts[0]
    } else {
        parts[0] + seq!['.'] + joined_dots(parts.skip(1))
    }
}

proof fn lemma_joined_dots_push(parts: Seq<Seq<char>>, last: Seq<char>)
    requires
        parts.len() > 0,
    ensures
        joined_dots(parts.push(last)) == joined_dots(parts) + seq!['.'] + last,
    decreases parts.len(),
{
    if parts.len() == 1 {
        assert(parts.push(last).skip(1) =~= seq![last]);
        assert(parts.push(last)[0] == parts[0]);
        assert(joined_dots(seq![last]) == last);
        assert(joined_dots(parts) == parts[0]);
    } else {
        assert(parts.push(last).skip(1) =~= parts.skip(1).push(last));
        lemma_joined_dots_push(parts.skip(1), last);
        assert(joined_dots(parts.push(last)) == parts[0] + seq!['.'] + joined_dots(
            parts.skip(1).push(last),
        ));
        assert(parts[0] + seq!['.'] + (joined_dots(parts.skip(1)) + seq!['.'] + last) =~= (
        parts[0] + seq!['.'] + joined_dots(parts.skip(1))) + seq!['.'] + last);
    }
}

/// The views of a list of identifier strings.
pub open spec fn ids_view(ids: Seq<String>) -> Seq<Seq<char>> {
    ids.map_values(|p: String| p@)
}

/// Splits `s` at every `'.'`; the parts joined with `'.'` give `s` back and
/// no part holds a `'.'` itself.
pub fn split_dots(s: &str) -> (r: Vec<String>)
    ensures
        r@.len() >= 1,
        joined_dots(ids_view(r@)) == s@,
        forall|i: int| 0 <= i < r@.len() ==> !r@[i]@.contains('.'),
{
    let n = s.unicode_len();
    let mut parts: Vec<String> = Vec::new();
    let mut start: usize = 0;
    let mut i: usize = 0;
    while i < n
        invariant
            n == s@.len(),
            start <= i <= n,
            parts@.len() == 0 ==> start == 0,
            joined_dots(ids_view(parts@).push(s@.subrange(start as int, i as int))) == s@.take(
                i as int,
            ),
            forall|k: int| 0 <= k < parts@.len() ==> !parts@[k]@.contains('.'),
            forall|k: int| start <= k < i ==> s@[k] != '.',
        decreases n - i,
    {
        let c = s.get_char(i);
        if c == '.' {
            let piece = s.substring_char(start, i).to_owned();
            proof {
                let pv = ids_view(parts@);
                let cur = s@.subrange(start as int, i as int);
                assert(ids_view(parts@.push(piece)) =~= pv.push(cur));
                if pv.len() == 0 {
                    assert(joined_dots(pv.push(cur)) == cur);
                } else {
                    lemma_joined_dots_push(pv, cur);
                }
                // after the push, the new current piece is empty, starting at i+1
                let pv2 = ids_view(parts@.push(piece));
                let empty = s@.subrange(i + 1, i + 1);
                lemma_joined_dots_push(pv2, empty);
                assert(joined_dots(pv2) == s@.take(i as int));
                assert(joined_dots(pv2.push(empty)) =~= s@.take(i as int) + seq!['.']);
                assert(s@.take(i + 1) =~= s@.take(i as int) + seq![s@[i as int]]);
            }
            parts.push(piece);
            start = i + 1;
        } else {
            proof {
                let pv = ids_view(parts@);
                let cur = s@.subrange(start as int, i as int);
                let cur2 = s@.subrange(start as int, i + 1);
                assert(cur2 =~= cur.push(s@[i as int]));
                if pv.len() == 0 {
                    assert(joined_dots(pv.push(cur2)) == cur2);
                    assert(s@.take(i + 1) =~= s@.take(i as int).push(s@[i as int]));
                } else {
                    lemma_joined_dots_push(pv, cur);
                    lemma_joined_dots_push(pv, cur2);
                    assert(s@.take(i + 1) =~= s@.take(i as int).push(s@[i as int]));
                    assert(joined_dots(pv) + seq!['.'] + cur2 =~= (joined_dots(pv) + seq!['.']
                        + cur).push(s@[i as int]));
                }
            }
        }
        i += 1;
    }
    let piece = s.substring_char(start, n).to_owned();
    proof {
        let pv = ids_view(parts@);
        let cur = s@.subrange(start as int, n as int);
        assert(ids_view(parts@.push(piece)) =~= pv.push(cur));
        assert(s@.take(n as int) =~= s@);
        assert(!cur.contains('.')) by {
            if cur.contains('.') {
                let j = choose|j: int| 0 <= j < cur.len() && cur[j] == '.';
                assert(s@[start + j] == '.');
            }
        }
    }
    parts.push(piece);
    parts
}

/// A resolved package version: the numeric triple and the pre-release
/// identifiers (empty when the version is a normal release).
#[derive(Debug, Clone)]
pub struct Version {
    pub major: u64,
    pub minor: u64,
    pub patch: u64,
    pub pre: Vec<String>,
}

/// An identifier made of decimal digits only.
pub open spec fn id_is_num(s: Seq<char>) -> bool {
    s.len() > 0 && forall|i: int| 0 <= i < s.len() ==> '0' <= #[trigger] s[i] <= '9'
}

/// Precedence on single pre-release identifiers: numeric identifiers order
/// before alphanumeric ones; two numeric identifiers order by value, which
/// for digit strings without leading zeros is length, then code points;
/// two alphanumeric identifiers order by code points.
pub open spec fn id_lt(a: Seq<char>, b: Seq<char>) -> bool {
    if id_is_num(a) && id_is_num(b) {
        a.len() < b.len() || (a.len() == b.len() && seq_lt(a, b))
    } else if id_is_num(a) {
        true
    } else if id_is_num(b) {
        false
    } else {
        seq_lt(a, b)
    }
}

/// Precedence on pre-release identifier lists: identifier by identifier,
/// a list that runs out first orders before one that goes on.
pub open spec fn pre_lt(a: Seq<Seq<char>>, b: Seq<Seq<char>>) -> bool
    decreases a.len(),
{
    if b.len() == 0 {
        false
    } else if a.len() == 0 {
        true
    } else if a[0] == b[0] {
        pre_lt(a.skip(1), b.skip(1))
    } else {
        id_lt(a[0], b[0])
    }
}

/// Precedence on versions: the numeric triple orders first; on an equal
/// triple, a version with a pre-release part orders before one without,
/// and two pre-release parts order identifier by identifier.
pub open spec fn version_lt(a: Version, b: Version) -> bool {
    if a.major != b.major {
        a.major < b.major
    } else if a.minor != b.minor {
        a.minor < b.minor
    } else if a.patch != b.patch {
        a.patch < b.patch
    } else {
        let pa = ids_view(a.pre@);
        let pb = ids_view(b.pre@);
        if pa.len() == 0 {
            false
        } else if pb.len() == 0 {
            true
        } else {
            pre_lt(pa, pb)
        }
    }
}

fn id_num(s: &String) -> (r: bool)
    ensures
        r == id_is_num(s@),
{
    let n = s.as_str().unicode_len();
    if n == 0 {
        return false;
    }
    let mut i: usize = 0;
    while i < n
        invariant
            n == s@.len(),
            i <= n,
            forall|k: int| 0 <= k < i ==> '0' <= #[trigger] s@[k] <= '9',
        decreases n - i,
    {
        let c = s.as_str().get_char(i);
        if !('0' <= c && c <= '9') {
            return false;
        }
        i += 1;
    }
    true
}

fn id_less(a: &String, b: &String) -> (r: bool)
    ensures
        r == id_lt(a@, b@),
{
    let na = id_num(a);
    let nb = id_num(b);
    if na && nb {
        let la = a.as_str().unicode_len();
        let lb = b.as_str().unicode_len();
        if la != lb {
            la < lb
        } else {
            str_lt(a.as_str(), b.as_str())
        }
    } else if na {
        true
    } else if nb {
        false
    } else {
        str_lt(a.as_str(), b.as_str())
    }
}

fn pre_less(a: &Vec<String>, b: &Vec<String>) -> (r: bool)
    ensures
        r == pre_lt(ids_view(a@), ids_view(b@)),
{
    let ghost va = ids_view(a@);
    let ghost vb = ids_view(b@);
    proof {
        assert(va.skip(0) =~= va);
        assert(vb.skip(0) =~= vb);
    }
    let mut i: usize = 0;
    while i < a.len() && i < b.len()
        invariant
            va == ids_view(a@),
            vb == ids_view(b@),
            i <= a@.len(),
            i <= b@.len(),
            pre_lt(va, vb) == pre_lt(va.skip(i as int), vb.skip(i as int)),
        decreases a@.len() - i,
    {
        let same = a[i].eq(&b[i]);
        proof {
            assert(va.skip(i as int)[0] == a@[i as int]@);
            assert(vb.skip(i as int)[0] == b@[i as int]@);
        }
        if same {
            proof {
                assert(va.skip(i as int).skip(1) =~= va.skip(i + 1));
                assert(vb.skip(i as int).skip(1) =~= vb.skip(i + 1));
            }
            i += 1;
        } else {
            return id_less(&a[i], &b[i]);
        }
    }
    proof {
        assert(va.skip(i as int).len() == va.len() - i);
        assert(vb.skip(i as int).len() == vb.len() - i);
    }
    i < b.len()
}

impl Version {
    /// A normal release `major.minor.patch` with no pre-release part.
    pub fn new(major: u64, minor: u64, patch: u64) -> (r: Version)
        ensures
            r.major == major,
            r.minor == minor,
            r.patch == patch,
            r.pre@.len() == 0,
    {
        Version { major, minor, patch, pre: Vec::new() }
    }

    /// Parses a version through `semver`; the pre-release part is split at
    /// dots into its identifiers.
    pub fn parse(s: &str) -> (r: Option<Version>)
        ensures
            r is Some <==> sem_version_of(s@) is Some,
            r matches Some(v) ==> {
                let q = sem_version_of(s@)->Some_0;
                &&& v.major == q.0
                &&& v.minor == q.1
                &&& v.patch == q.2
                &&& (q.3.len() == 0 ==> v.pre@.len() == 0)
                &&& (q.3.len() > 0 ==> joined_dots(ids_view(v.pre@)) == q.3 && forall|i: int|
                    0 <= i < v.pre@.len() ==> !v.pre@[i]@.contains('.'))
            },
    {
        match parse_semver_raw(s) {
            Some(p) => {
                let (major, minor, patch, raw_pre) = p;
                let pre = if raw_pre.as_str().unicode_len() == 0 {
                    Vec::new()
                } else {
                    split_dots(raw_pre.as_str())
                };
                Some(Version { major, minor, patch, pre })
            },
            None => None,
        }
    }

    /// Whether `self` orders strictly before `other` in precedence.
    pub fn lt(&self, other: &Version) -> (r: bool)
        ensures
            r == version_lt(*self, *other),
    {
        if self.major != other.major {
            self.major < other.major
        } else if self.minor != other.minor {
            self.minor < other.minor
        } else if self.patch != other.patch {
            self.patch < other.patch
        } else if self.pre.len() == 0 {
            false
        } else if other.pre.len() == 0 {
            true
        } else {
            pre_less(&self.pre, &other.pre)
        }
    }

    /// The text rendering of this version: the dotted triple, then `-` and
    /// the dotted pre-release identifiers if there are any.
    pub open spec fn spec_render(self) -> Seq<char> {
        let triple = dec_of(self.major as int) + seq!['.'] + dec_of(self.minor as int)
            + seq!['.'] + dec_of(self.patch as int);
        if self.pre@.len() == 0 {
            triple
        } else {
            triple + seq!['-'] + joined_dots(ids_view(self.pre@))
        }
    }

    /// Renders this version as text.
    pub fn render(&self) -> (r: String)
        ensures
            r@ == self.spec_render(),
    {
        let mut out = u64_to_string(self.major);
        out.append(".");
        let minor = u64_to_string(self.minor);
        out.append(minor.as_str());
        out.append(".");
        let patch = u64_to_string(self.patch);
        out.append(patch.as_str());
        proof {
            reveal_strlit(".");
            reveal_strlit("-");
        }
        if self.pre.len() > 0 {
            out.append("-");
            let ghost base = out@;
            let ghost pv = ids_view(self.pre@);
            let mut i: usize = 0;
            while i < self.pre.len()
                invariant
                    1 <= self.pre@.len(),
                    i <= self.pre@.len(),
                    pv == ids_view(self.pre@),
                    i >= 1 ==> out@ == base + joined_dots(pv.take(i as int)),
                    i == 0 ==> out@ == base,
                decreases self.pre@.len() - i,
            {
                if i > 0 {
                    out.append(".");
                }
                out.append(self.pre[i].as_str());
                proof {
                    reveal_strlit(".");
                    assert(pv[i as int] == self.pre@[i as int]@);
                    if i == 0 {
                        assert(pv.take(1) =~= seq![pv[0]]);
                        assert(joined_dots(seq![pv[0]]) == pv[0]);
                        assert(out@ == base + joined_dots(pv.take(1)));
                    } else {
                        assert(pv.take(i + 1) =~= pv.take(i as int).push(pv[i as int]));
                        lemma_joined_dots_push(pv.take(i as int), pv[i as int]);
                        assert(out@ =~= base + joined_dots(pv.take(i + 1)));
                    }
                }
                i += 1;
            }
            proof {
                assert(pv.take(self.pre@.len() as int) =~= pv);
                assert(out@ =~= self.spec_render());
            }
        }
        out
    }
}

} // verus!

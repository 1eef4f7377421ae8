//! Character-level helpers shared by the dialect handlers, the detector and
//! the catalog: conversions between `&str`, `Vec<char>` and `String`, string
//! equality, and substring search, each with an exact contract over views.

use vstd::prelude::*;

verus! {

/// `n` occurs contiguously somewhere inside `h`.
pub open spec fn is_substring(n: Seq<char>, h: Seq<char>) -> bool {
    exists|i: int| 0 <= i && i + n.len() <= h.len() && #[trigger] h.subrange(i, i + n.len()) == n
}

/// The views of a sequence of string pairs.
pub open spec fn pairs_view(v: Seq<(String, String)>) -> Seq<(Seq<char>, Seq<char>)> {
    v.map_values(|p: (String, String)| (p.0@, p.1@))
}

/// The views of a sequence of strings.
pub open spec fn strings_view(v: Seq<String>) -> Seq<Seq<char>> {
    v.map_values(|s: String| s@)
}

/// The views of a sequence of character vectors.
pub open spec fn lines_view(v: Seq<Vec<char>>) -> Seq<Seq<char>> {
    v.map_values(|l: Vec<char>| l@)
}

/// Lexicographic order on character sequences, by code point; agrees with
/// the byte order of the UTF-8 encodings.
pub open spec fn lex_le(a: Seq<char>, b: Seq<char>) -> bool
    decreases a.len(),
{
    if a.len() == 0 {
        true
    } else if b.len() == 0 {
        false
    } else if (a[0] as u32) < (b[0] as u32) {
        true
    } else if (a[0] as u32) > (b[0] as u32) {
        false
    } else {
        lex_le(a.drop_first(), b.drop_first())
    }
}

/// The order is total.
pub proof fn lemma_lex_le_total(a: Seq<char>, b: Seq<char>)
    ensures
        lex_le(a, b) || lex_le(b, a),
    decreases a.len(),
{
    if a.len() > 0 && b.len() > 0 && (a[0] as u32) == (b[0] as u32) {
        lemma_lex_le_total(a.drop_first(), b.drop_first());
    }
}

/// Compare the suffixes of `a` and `b` from position `i` on.
fn chars_le_from(a: &Vec<char>, b: &Vec<char>, i: usize) -> (r: bool)
    requires
        i <= a@.len(),
        i <= b@.len(),
    ensures
        r == lex_le(a@.skip(i as int), b@.skip(i as int)),
    decreases a@.len() - i,
{
    let ghost sa = a@.skip(i as int);
    let ghost sb = b@.skip(i as int);
    proof {
        assert(forall|k: int| 0 <= k < sa.len() ==> #[trigger] sa[k] == a@[i + k]);
        assert(forall|k: int| 0 <= k < sb.len() ==> #[trigger] sb[k] == b@[i + k]);
    }
    if i == a.len() {
        return true;
    }
    if i == b.len() {
        return false;
    }
    let ca = a[i] as u32;
    let cb = b[i] as u32;
    if ca < cb {
        true
    } else if ca > cb {
        false
    } else {
        proof {
            assert(sa.drop_first() =~= a@.skip(i + 1));
            assert(sb.drop_first() =~= b@.skip(i + 1));
        }
        chars_le_from(a, b, i + 1)
    }
}

/// Lexicographic comparison of two strings.
pub fn str_le(a: &str, b: &str) -> (r: bool)
    ensures
        r == lex_le(a@, b@),
{
    let va = str_to_chars(a);
    let vb = str_to_chars(b);
    proof {
        assert(va@.skip(0) =~= va@);
        assert(vb@.skip(0) =~= vb@);
    }
    chars_le_from(&va, &vb, 0)
}

/// Relies on `String::push`: appends the given character to the end of the string.
#[verifier::external_body]
pub fn push_char(s: &mut String, c: char)
    ensures
        final(s)@ == old(s)@.push(c),
{
    s.push(c);
}

/// The characters of `s`, in order, as a vector.
pub fn str_to_chars(s: &str) -> (v: Vec<char>)
    ensures
        v@ == s@,
{
    let n = s.unicode_len();
    let mut v: Vec<char> = Vec::new();
    let mut i: usize = 0;
    while i < n
        invariant
            i <= n,
            n == s@.len(),
            v@ == s@.subrange(0, i as int),
        decreases n - i,
    {
        let c = s.get_char(i);
        v.push(c);
        proof {
            assert(v@ =~= s@.subrange(0, i + 1));
        }
        i += 1;
    }
    proof {
        assert(s@.subrange(0, n as int) =~= s@);
    }
    v
}

/// A `String` holding exactly the characters of `v`, in order.
pub fn chars_to_string(v: &Vec<char>) -> (s: String)
    ensures
        s@ == v@,
{
    let mut s = String::new();
    let mut i: usize = 0;
    while i < v.len()
        invariant
            i <= v.len(),
            s@ == v@.subrange(0, i as int),
        decreases v.len() - i,
    {
        push_char(&mut s, v[i]);
        proof {
            assert(s@ =~= v@.subrange(0, i + 1));
        }
        i += 1;
    }
    proof {
        assert(v@.subrange(0, v@.len() as int) =~= v@);
    }
    s
}

/// Whether the characters of `a` and `b` agree position by position.
pub fn chars_eq(a: &Vec<char>, b: &Vec<char>) -> (r: bool)
    ensures
        r == (a@ == b@),
{
    if a.len() != b.len() {
        return false;
    }
    let mut i: usize = 0;
    while i < a.len()
        invariant
            i <= a.len(),
            a@.len() == b@.len(),
            forall|k: int| 0 <= k < i ==> a@[k] == b@[k],
        decreases a.len() - i,
    {
        if a[i] != b[i] {
            return false;
        }
        i += 1;
    }
    proof {
        assert(a@ =~= b@);
    }
    true
}

/// Whether `a` and `b` hold the same characters.
pub fn str_eq(a: &str, b: &str) -> (r: bool)
    ensures
        r == (a@ == b@),
{
    let va = str_to_chars(a);
    let vb = str_to_chars(b);
    chars_eq(&va, &vb)
}

/// Whether `h` matches `n` at position `i`.
fn matches_at(h: &Vec<char>, n: &Vec<char>, i: usize) -> (r: bool)
    requires
        i + n@.len() <= h@.len(),
    ensures
        r == (h@.subrange(i as int, i + n@.len()) == n@),
{
    let mut j: usize = 0;
    while j < n.len()
        invariant
            j <= n@.len(),
            i + n@.len() <= h@.len(),
            forall|k: int| 0 <= k < j ==> h@[i + k] == n@[k],
        decreases n.len() - j,
    {
        let hl = h.len();
        assert(i + j < hl);
        if h[i + j] != n[j] {
            proof {
                assert(h@.subrange(i as int, i + n@.len())[j as int] == h@[i + j]);
            }
            return false;
        }
        j += 1;
    }
    proof {
        assert(h@.subrange(i as int, i + n@.len()) =~= n@);
    }
    true
}

/// Substring search: whether `n` occurs inside `h`.
pub fn chars_contains(h: &Vec<char>, n: &Vec<char>) -> (r: bool)
    ensures
        r == is_substring(n@, h@),
{
    if n.len() > h.len() {
        return false;
    }
    let last = h.len() - n.len();
    let mut i: usize = 0;
    loop
        invariant
            last == h@.len() - n@.len(),
            i <= last,
            forall|k: int| 0 <= k < i ==> #[trigger] h@.subrange(k, k + n@.len()) != n@,
        decreases last - i,
    {
        if matches_at(h, n, i) {
            return true;
        }
        if i == last {
            proof {
                assert(forall|k: int|
                    0 <= k && k + n@.len() <= h@.len() ==> #[trigger] h@.subrange(k, k + n@.len())
                        != n@);
            }
            return false;
        }
        i += 1;
    }
}

/// Substring search over string slices.
pub fn str_contains(h: &str, n: &str) -> (r: bool)
    ensures
        r == is_substring(n@, h@),
{
    let vh = str_to_chars(h);
    let vn = str_to_chars(n);
    chars_contains(&vh, &vn)
}

} // verus!

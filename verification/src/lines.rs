//! Line-level plumbing shared by every dialect parser: whitespace classes,
//! trimming, first-occurrence search, prefix tests and splitting a file into
//! lines, each exec function tied to a recursive spec by lemmas.

use vstd::prelude::*;

verus! {

/// Horizontal whitespace inside a line; a carriage return is tolerated so
/// that files with CRLF endings parse the same as LF files.
pub open spec fn is_hws(c: char) -> bool {
    c == ' ' || c == '\t' || c == '\r'
}

/// Nothing but horizontal whitespace.
pub open spec fn ws_only(s: Seq<char>) -> bool {
    forall|i: int| 0 <= i < s.len() ==> is_hws(#[trigger] s[i])
}

/// Whether everything from position `i` on is horizontal whitespace.
pub fn ws_only_from(v: &Vec<char>, i: usize) -> (r: bool)
    requires
        i <= v@.len(),
    ensures
        r == ws_only(v@.skip(i as int)),
{
    let mut j: usize = i;
    while j < v.len()
        invariant
            i <= j <= v@.len(),
            forall|k: int| i <= k < j ==> is_hws(#[trigger] v@[k]),
        decreases v@.len() - j,
    {
        let c = v[j];
        if c != ' ' && c != '\t' && c != '\r' {
            assert(v@.skip(i as int)[j - i] == v@[j as int]);
            return false;
        }
        j += 1;
    }
    assert(forall|k: int|
        0 <= k < v@.skip(i as int).len() ==> is_hws(#[trigger] v@.skip(i as int)[k]));
    true
}

/// Leading horizontal whitespace removed.
pub open spec fn trim_start_hws(s: Seq<char>) -> Seq<char>
    decreases s.len(),
{
    if s.len() > 0 && is_hws(s[0]) {
        trim_start_hws(s.drop_first())
    } else {
        s
    }
}

/// Trailing horizontal whitespace removed.
pub open spec fn trim_end_hws(s: Seq<char>) -> Seq<char>
    decreases s.len(),
{
    if s.len() > 0 && is_hws(s.last()) {
        trim_end_hws(s.drop_last())
    } else {
        s
    }
}

/// Horizontal whitespace removed from both ends.
pub open spec fn trim_hws(s: Seq<char>) -> Seq<char> {
    trim_end_hws(trim_start_hws(s))
}

pub proof fn lemma_trim_start_hws_skip(s: Seq<char>, a: int)
    requires
        0 <= a <= s.len(),
        forall|k: int| 0 <= k < a ==> is_hws(#[trigger] s[k]),
        a == s.len() || !is_hws(s[a]),
    ensures
        trim_start_hws(s) == s.skip(a),
    decreases a,
{
    if a == 0 {
        assert(s.skip(0) =~= s);
    } else {
        lemma_trim_start_hws_skip(s.drop_first(), a - 1);
        assert(s.drop_first().skip(a - 1) =~= s.skip(a));
    }
}

pub proof fn lemma_trim_end_hws_take(s: Seq<char>, b: int)
    requires
        0 <= b <= s.len(),
        forall|k: int| b <= k < s.len() ==> is_hws(#[trigger] s[k]),
        b == 0 || !is_hws(s[b - 1]),
    ensures
        trim_end_hws(s) == s.take(b),
    decreases s.len() - b,
{
    if b == s.len() {
        if s.len() > 0 && is_hws(s.last()) {
            assert(!is_hws(s[b - 1]));
            assert(false);
        }
        assert(s.take(b) =~= s);
    } else {
        lemma_trim_end_hws_take(s.drop_last(), b);
        assert(s.drop_last().take(b) =~= s.take(b));
    }
}

/// The index of the first character from `i` on that is not horizontal
/// whitespace, with the connection to `trim_start_hws` of the suffix.
pub fn skip_hws_from(v: &Vec<char>, i: usize) -> (a: usize)
    requires
        i <= v@.len(),
    ensures
        i <= a <= v@.len(),
        forall|k: int| i <= k < a ==> is_hws(#[trigger] v@[k]),
        a == v@.len() || !is_hws(v@[a as int]),
        trim_start_hws(v@.skip(i as int)) == v@.skip(a as int),
{
    let mut a: usize = i;
    while a < v.len() && (v[a] == ' ' || v[a] == '\t' || v[a] == '\r')
        invariant
            i <= a <= v@.len(),
            forall|k: int| i <= k < a ==> is_hws(#[trigger] v@[k]),
        decreases v@.len() - a,
    {
        a += 1;
    }
    proof {
        let s = v@.skip(i as int);
        assert(forall|k: int| 0 <= k < s.len() ==> #[trigger] s[k] == v@[i + k]);
        lemma_trim_start_hws_skip(s, a - i);
        assert(s.skip(a - i) =~= v@.skip(a as int));
    }
    a
}

/// A copy of `v` with horizontal whitespace trimmed from both ends.
pub fn trim_hws_exec(v: &Vec<char>) -> (r: Vec<char>)
    ensures
        r@ == trim_hws(v@),
{
    let a = skip_hws_from(v, 0);
    proof {
        assert(v@.skip(0) =~= v@);
    }
    let mut b: usize = v.len();
    while b > a && (v[b - 1] == ' ' || v[b - 1] == '\t' || v[b - 1] == '\r')
        invariant
            a <= b <= v@.len(),
            forall|k: int| b <= k < v@.len() ==> is_hws(#[trigger] v@[k]),
        decreases b,
    {
        b -= 1;
    }
    let mut out: Vec<char> = Vec::new();
    let mut j: usize = a;
    while j < b
        invariant
            a <= j <= b <= v@.len(),
            out@ == v@.subrange(a as int, j as int),
        decreases b - j,
    {
        out.push(v[j]);
        proof {
            assert(v@.subrange(a as int, j + 1) =~= v@.subrange(a as int, j as int)
                + seq![v@[j as int]]);
        }
        j += 1;
    }
    proof {
        let s = v@.skip(a as int);
        assert(forall|k: int| 0 <= k < s.len() ==> #[trigger] s[k] == v@[a + k]);
        if b == a {
            lemma_trim_end_hws_take(s, 0);
        } else {
            assert(!is_hws(s[b - a - 1]));
            lemma_trim_end_hws_take(s, b - a);
        }
        assert(s.take(b - a) =~= v@.subrange(a as int, b as int));
    }
    out
}

/// The position of the first occurrence of `c` in `s`.
pub open spec fn find_idx(s: Seq<char>, c: char) -> Option<int>
    decreases s.len(),
{
    if s.len() == 0 {
        None
    } else if s[0] == c {
        Some(0)
    } else {
        match find_idx(s.drop_first(), c) {
            Some(i) => Some(i + 1),
            None => None,
        }
    }
}

pub proof fn lemma_find_idx_at(s: Seq<char>, c: char, j: int)
    requires
        0 <= j < s.len(),
        s[j] == c,
        forall|k: int| 0 <= k < j ==> #[trigger] s[k] != c,
    ensures
        find_idx(s, c) == Some(j),
    decreases j,
{
    if j > 0 {
        lemma_find_idx_at(s.drop_first(), c, j - 1);
    }
}

pub proof fn lemma_find_idx_none(s: Seq<char>, c: char)
    requires
        forall|k: int| 0 <= k < s.len() ==> #[trigger] s[k] != c,
    ensures
        find_idx(s, c) is None,
    decreases s.len(),
{
    if s.len() > 0 {
        lemma_find_idx_none(s.drop_first(), c);
    }
}

pub proof fn lemma_find_idx_props(s: Seq<char>, c: char)
    ensures
        match find_idx(s, c) {
            Some(i) => 0 <= i < s.len() && s[i] == c && (forall|k: int|
                0 <= k < i ==> #[trigger] s[k] != c),
            None => forall|k: int| 0 <= k < s.len() ==> #[trigger] s[k] != c,
        },
    decreases s.len(),
{
    if s.len() > 0 && s[0] != c {
        lemma_find_idx_props(s.drop_first(), c);
        match find_idx(s.drop_first(), c) {
            Some(i) => {
                assert(s[i + 1] == s.drop_first()[i]);
                assert forall|k: int| 0 <= k < i + 1 implies #[trigger] s[k] != c by {
                    if k > 0 {
                        assert(s[k] == s.drop_first()[k - 1]);
                    }
                }
            },
            None => {
                assert forall|k: int| 0 <= k < s.len() implies #[trigger] s[k] != c by {
                    if k > 0 {
                        assert(s[k] == s.drop_first()[k - 1]);
                    }
                }
            },
        }
    }
}

/// The first occurrence of `c` in `v` at or after position `from`.
pub fn find_char_from(v: &Vec<char>, from: usize, c: char) -> (r: Option<usize>)
    requires
        from <= v@.len(),
    ensures
        match r {
            Some(j) => from <= j < v@.len() && v@[j as int] == c && (forall|k: int|
                from <= k < j ==> #[trigger] v@[k] != c) && find_idx(v@.skip(from as int), c)
                == Some(j - from),
            None => (forall|k: int| from <= k < v@.len() ==> #[trigger] v@[k] != c) && find_idx(
                v@.skip(from as int),
                c,
            ) is None,
        },
{
    let ghost s = v@.skip(from as int);
    proof {
        assert(forall|k: int| 0 <= k < s.len() ==> #[trigger] s[k] == v@[from + k]);
    }
    let mut j: usize = from;
    while j < v.len()
        invariant
            from <= j <= v@.len(),
            forall|k: int| from <= k < j ==> #[trigger] v@[k] != c,
        decreases v@.len() - j,
    {
        if v[j] == c {
            proof {
                let s2 = v@.skip(from as int);
                assert(forall|k: int| 0 <= k < s2.len() ==> #[trigger] s2[k] == v@[from + k]);
                lemma_find_idx_at(s2, c, j - from);
            }
            return Some(j);
        }
        j += 1;
    }
    proof {
        lemma_find_idx_none(s, c);
    }
    None
}

/// `s` begins with `p`.
pub open spec fn starts_with(s: Seq<char>, p: Seq<char>) -> bool {
    p.len() <= s.len() && s.subrange(0, p.len() as int) == p
}

/// Whether the suffix of `v` from `from` on begins with `p`.
pub fn starts_with_at(v: &Vec<char>, from: usize, p: &Vec<char>) -> (r: bool)
    requires
        from <= v@.len(),
    ensures
        r == starts_with(v@.skip(from as int), p@),
{
    let ghost s = v@.skip(from as int);
    proof {
        assert(forall|k: int| 0 <= k < s.len() ==> #[trigger] s[k] == v@[from + k]);
    }
    if v.len() - from < p.len() {
        return false;
    }
    let mut j: usize = 0;
    while j < p.len()
        invariant
            j <= p@.len(),
            from + p@.len() <= v@.len(),
            forall|k: int| 0 <= k < j ==> v@[from + k] == p@[k],
        decreases p@.len() - j,
    {
        let hl = v.len();
        assert(from + j < hl);
        if v[from + j] != p[j] {
            proof {
                let s2 = v@.skip(from as int);
                assert(s2[j as int] == v@[from + j]);
                assert(s2.subrange(0, p@.len() as int)[j as int] == s2[j as int]);
            }
            return false;
        }
        j += 1;
    }
    proof {
        assert(s.subrange(0, p@.len() as int) =~= p@);
    }
    true
}

/// A text split at every newline; a trailing newline does not open a final
/// empty line.
pub open spec fn split_lines(s: Seq<char>) -> Seq<Seq<char>>
    decreases s.len(),
{
    if s.len() == 0 {
        Seq::empty()
    } else {
        match find_idx(s, '\n') {
            Some(i) => if 0 <= i < s.len() {
                seq![s.subrange(0, i)] + split_lines(s.skip(i + 1))
            } else {
                // find_idx never yields an index out of range; this branch only
                // discharges the termination check.
                seq![s]
            },
            None => seq![s],
        }
    }
}

/// No newline anywhere in `s`.
pub open spec fn no_newline(s: Seq<char>) -> bool {
    forall|i: int| 0 <= i < s.len() ==> #[trigger] s[i] != '\n'
}

/// Splitting after a first newline-free line peels that line off.
pub proof fn lemma_split_lines_peel(a: Seq<char>, b: Seq<char>)
    requires
        no_newline(a),
    ensures
        split_lines(a + seq!['\n'] + b) == seq![a] + split_lines(b),
{
    let s = a + seq!['\n'] + b;
    assert(s[a.len() as int] == '\n');
    assert(forall|k: int| 0 <= k < a.len() ==> #[trigger] s[k] == a[k]);
    lemma_find_idx_at(s, '\n', a.len() as int);
    assert(s.subrange(0, a.len() as int) =~= a);
    assert(s.skip(a.len() as int + 1) =~= b);
    assert(s.len() > 0);
}

/// The lines of `v`, as vectors of characters.
pub fn split_lines_exec(v: &Vec<char>) -> (r: Vec<Vec<char>>)
    ensures
        r@.len() == split_lines(v@).len(),
        forall|i: int| 0 <= i < r@.len() ==> #[trigger] r@[i]@ == split_lines(v@)[i],
{
    let mut out: Vec<Vec<char>> = Vec::new();
    let mut pos: usize = 0;
    proof {
        assert(v@.skip(0) =~= v@);
        assert(Seq::<Vec<char>>::empty().map_values(|l: Vec<char>| l@) + split_lines(v@)
            =~= split_lines(v@));
    }
    while pos < v.len()
        invariant
            pos <= v@.len(),
            split_lines(v@) == out@.map_values(|l: Vec<char>| l@) + split_lines(
                v@.skip(pos as int),
            ),
        decreases v@.len() - pos,
    {
        let ghost s = v@.skip(pos as int);
        proof {
            assert(s.len() > 0);
            assert(forall|k: int| 0 <= k < s.len() ==> #[trigger] s[k] == v@[pos + k]);
        }
        let stop: usize = match find_char_from(v, pos, '\n') {
            Some(j) => j,
            None => v.len(),
        };
        let mut line: Vec<char> = Vec::new();
        let mut j: usize = pos;
        while j < stop
            invariant
                pos <= j <= stop <= v@.len(),
                line@ == v@.subrange(pos as int, j as int),
            decreases stop - j,
        {
            line.push(v[j]);
            proof {
                assert(v@.subrange(pos as int, j + 1) =~= v@.subrange(pos as int, j as int)
                    + seq![v@[j as int]]);
            }
            j += 1;
        }
        let ghost old_out = out@;
        out.push(line);
        if stop == v.len() {
            proof {
                assert(find_idx(s, '\n') is None);
                assert(line@ =~= s);
                assert(split_lines(s) =~= seq![s]);
                assert(out@.map_values(|l: Vec<char>| l@) =~= old_out.map_values(
                    |l: Vec<char>| l@,
                ) + seq![line@]);
                assert(out@.map_values(|l: Vec<char>| l@) + split_lines(
                    v@.skip(v@.len() as int),
                ) =~= split_lines(v@));
            }
            pos = v.len();
        } else {
            proof {
                assert(find_idx(s, '\n') == Some(stop - pos));
                assert(line@ =~= s.subrange(0, stop - pos));
                assert(s.skip(stop - pos + 1) =~= v@.skip(stop + 1));
                assert(split_lines(s) =~= seq![line@] + split_lines(v@.skip(stop + 1)));
                assert(out@.map_values(|l: Vec<char>| l@) =~= old_out.map_values(
                    |l: Vec<char>| l@,
                ) + seq![line@]);
                assert(out@.map_values(|l: Vec<char>| l@) + split_lines(v@.skip(stop + 1))
                    =~= split_lines(v@));
            }
            pos = stop + 1;
        }
    }
    proof {
        assert(split_lines(v@.skip(pos as int)) =~= Seq::<Seq<char>>::empty());
        assert(split_lines(v@) =~= out@.map_values(|l: Vec<char>| l@));
        assert(forall|i: int|
            0 <= i < out@.len() ==> out@.map_values(|l: Vec<char>| l@)[i] == #[trigger] out@[i]@);
    }
    out
}

} // verus!

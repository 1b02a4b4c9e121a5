//! Character-level helpers shared by the parsers of this crate.

use vstd::prelude::*;

verus! {

/// An ASCII decimal digit.
pub open spec fn is_digit(c: char) -> bool {
    '0' <= c && c <= '9'
}

pub open spec fn digit_val(c: char) -> int {
    c as int - '0' as int
}

/// The number written by a sequence of decimal digits.
pub open spec fn digits_value(s: Seq<char>) -> int
    decreases s.len(),
{
    if s.len() == 0 {
        0
    } else {
        digits_value(s.drop_last()) * 10 + digit_val(s.last())
    }
}

/// The length of the run of digits that starts at `i`.
pub open spec fn digit_run(s: Seq<char>, i: int) -> int
    decreases s.len() - i,
{
    if 0 <= i < s.len() && is_digit(s[i]) {
        1 + digit_run(s, i + 1)
    } else {
        0
    }
}

/// `k` stands in `s` at position `i`.
pub open spec fn starts_at(s: Seq<char>, i: int, k: Seq<char>) -> bool {
    0 <= i && i + k.len() <= s.len() && s.subrange(i, i + k.len()) == k
}

pub proof fn lemma_digits_value_nonneg(s: Seq<char>)
    requires
        forall|k: int| 0 <= k < s.len() ==> is_digit(#[trigger] s[k]),
    ensures
        digits_value(s) >= 0,
    decreases s.len(),
{
    if s.len() > 0 {
        lemma_digits_value_nonneg(s.drop_last());
    }
}

pub proof fn lemma_digits_value_step(s: Seq<char>, i: int)
    requires
        0 <= i < s.len(),
    ensures
        digits_value(s.subrange(0, i + 1)) == digits_value(s.subrange(0, i)) * 10 + digit_val(s[i]),
{
    assert(s.subrange(0, i + 1).drop_last() =~= s.subrange(0, i));
}

/// A run of digits ends where the first non-digit stands.
pub proof fn lemma_digit_run(s: Seq<char>, j: int, i: int)
    requires
        0 <= j <= i <= s.len(),
        forall|k: int| j <= k < i ==> is_digit(#[trigger] s[k]),
        i == s.len() || !is_digit(s[i]),
    ensures
        digit_run(s, j) == i - j,
    decreases i - j,
{
    if j < i {
        lemma_digit_run(s, j + 1, i);
    }
}

/// White space in the Unicode sense (`White_Space`).
pub open spec fn is_space(c: char) -> bool {
    let u = c as u32;
    (9 <= u <= 13) || u == 32 || u == 0x85 || u == 0xa0 || u == 0x1680 || (0x2000 <= u <= 0x200a)
        || u == 0x2028 || u == 0x2029 || u == 0x202f || u == 0x205f || u == 0x3000
}

pub open spec fn space_run(s: Seq<char>, i: int) -> int
    decreases s.len() - i,
{
    if 0 <= i < s.len() && is_space(s[i]) {
        1 + space_run(s, i + 1)
    } else {
        0
    }
}

/// The length of the run of white space that ends `s`.
pub open spec fn back_space_run(s: Seq<char>) -> int
    decreases s.len(),
{
    if s.len() > 0 && is_space(s.last()) {
        1 + back_space_run(s.drop_last())
    } else {
        0
    }
}

/// `s` without white space at either end.
pub open spec fn trim(s: Seq<char>) -> Seq<char> {
    let rest = s.subrange(space_run(s, 0), s.len() as int);
    rest.subrange(0, rest.len() - back_space_run(rest))
}

pub proof fn lemma_space_run_bound(s: Seq<char>, i: int)
    requires
        0 <= i <= s.len(),
    ensures
        0 <= space_run(s, i) <= s.len() - i,
    decreases s.len() - i,
{
    if i < s.len() {
        lemma_space_run_bound(s, i + 1);
    }
}

pub proof fn lemma_back_space_run_bound(s: Seq<char>)
    ensures
        0 <= back_space_run(s) <= s.len(),
    decreases s.len(),
{
    if s.len() > 0 {
        lemma_back_space_run_bound(s.drop_last());
    }
}

/// `v` without white space at either end.
pub(crate) fn trim_exec(v: &[char]) -> (r: Vec<char>)
    ensures
        r@ == trim(v@),
{
    let lead = space_run_exec(v, 0);
    let mut end = v.len();
    proof {
        lemma_space_run_bound(v@, 0);
    }
    let ghost rest = v@.subrange(lead as int, v.len() as int);
    assert(rest.subrange(0, end - lead) =~= rest);
    while end > lead && is_space_exec(v[end - 1])
        invariant
            lead <= end <= v.len(),
            rest == v@.subrange(lead as int, v.len() as int),
            back_space_run(rest) == (v.len() - end) + back_space_run(
                rest.subrange(0, end - lead),
            ),
        decreases end,
    {
        proof {
            let sub = rest.subrange(0, end - lead);
            assert(sub.drop_last() =~= rest.subrange(0, end - 1 - lead));
        }
        end = end - 1;
    }
    proof {
        assert(rest.subrange(0, rest.len() as int) =~= rest);
    }
    let mut out: Vec<char> = Vec::new();
    let mut k = lead;
    while k < end
        invariant
            lead <= k <= end <= v.len(),
            out@ == v@.subrange(lead as int, k as int),
        decreases end - k,
    {
        out.push(v[k]);
        proof {
            assert(out@ =~= v@.subrange(lead as int, k + 1));
        }
        k = k + 1;
    }
    proof {
        assert(rest.subrange(0, rest.len() - back_space_run(rest)) =~= v@.subrange(
            lead as int,
            end as int,
        ));
    }
    out
}

pub(crate) fn is_space_exec(c: char) -> (r: bool)
    ensures
        r == is_space(c),
{
    let u = c as u32;
    (9 <= u && u <= 13) || u == 32 || u == 0x85 || u == 0xa0 || u == 0x1680 || (0x2000 <= u && u
        <= 0x200a) || u == 0x2028 || u == 0x2029 || u == 0x202f || u == 0x205f || u == 0x3000
}

pub(crate) fn space_run_exec(v: &[char], i: usize) -> (r: usize)
    requires
        i <= v.len(),
    ensures
        r == space_run(v@, i as int),
        i + r <= v.len(),
{
    let mut j = i;
    while j < v.len() && is_space_exec(v[j])
        invariant
            i <= j <= v.len(),
            space_run(v@, i as int) == (j - i) + space_run(v@, j as int),
        decreases v.len() - j,
    {
        j = j + 1;
    }
    j - i
}

/// The first position at or after `j` that holds `c`.
pub open spec fn find_from(s: Seq<char>, j: int, c: char) -> Option<int>
    decreases s.len() - j,
{
    if j < 0 || j >= s.len() {
        None
    } else if s[j] == c {
        Some(j)
    } else {
        find_from(s, j + 1, c)
    }
}

pub(crate) fn find_from_exec(v: &[char], j: usize, c: char) -> (r: Option<usize>)
    ensures
        r matches Some(e) ==> e < v.len() && find_from(v@, j as int, c) == Some(e as int),
        r is None ==> find_from(v@, j as int, c) is None,
{
    let mut k = j;
    while k < v.len()
        invariant
            j <= k,
            find_from(v@, j as int, c) == find_from(v@, k as int, c),
        decreases v.len() - k,
    {
        if v[k] == c {
            return Some(k);
        }
        k = k + 1;
    }
    None
}

/// `s` with every `pat` (read left to right, without overlap) replaced by `rep`.
pub open spec fn replaced_from(s: Seq<char>, i: int, pat: Seq<char>, rep: Seq<char>) -> Seq<char>
    recommends
        pat.len() > 0,
    decreases s.len() - i,
{
    if i < 0 || i >= s.len() || pat.len() == 0 {
        if 0 <= i <= s.len() {
            s.subrange(i, s.len() as int)
        } else {
            Seq::empty()
        }
    } else if starts_at(s, i, pat) {
        rep + replaced_from(s, i + pat.len(), pat, rep)
    } else {
        s.subrange(i, i + 1) + replaced_from(s, i + 1, pat, rep)
    }
}

pub open spec fn replaced(s: Seq<char>, pat: Seq<char>, rep: Seq<char>) -> Seq<char> {
    replaced_from(s, 0, pat, rep)
}

pub(crate) fn replace_all(v: &[char], pat: &[char], rep: &[char]) -> (r: Vec<char>)
    requires
        pat.len() > 0,
    ensures
        r@ == replaced(v@, pat@, rep@),
{
    let mut out: Vec<char> = Vec::new();
    let mut i: usize = 0;
    assert(out@ + replaced_from(v@, 0, pat@, rep@) =~= replaced(v@, pat@, rep@));
    while i < v.len()
        invariant
            pat.len() > 0,
            i <= v.len(),
            out@ + replaced_from(v@, i as int, pat@, rep@) == replaced(v@, pat@, rep@),
        decreases v.len() - i,
    {
        let ghost prior = out@;
        if starts_at_exec(v, i, pat) {
            let mut j: usize = 0;
            while j < rep.len()
                invariant
                    j <= rep.len(),
                    out@ == prior + rep@.subrange(0, j as int),
                decreases rep.len() - j,
            {
                out.push(rep[j]);
                proof {
                    assert(out@ =~= prior + rep@.subrange(0, j + 1));
                }
                j = j + 1;
            }
            proof {
                assert(rep@.subrange(0, rep.len() as int) =~= rep@);
                let tail = replaced_from(v@, i + pat.len(), pat@, rep@);
                assert(prior + (rep@ + tail) =~= out@ + tail);
            }
            i = i + pat.len();
        } else {
            out.push(v[i]);
            proof {
                let tail = replaced_from(v@, i + 1, pat@, rep@);
                assert(prior + (v@.subrange(i as int, i + 1) + tail) =~= out@ + tail);
            }
            i = i + 1;
        }
    }
    proof {
        assert(v@.subrange(i as int, v.len() as int) =~= Seq::<char>::empty());
        assert(out@ + Seq::<char>::empty() =~= out@);
    }
    out
}

/// The pieces of `s` between the occurrences of `sep`, from position `i` on,
/// with `cur` the piece begun before `i`.
pub open spec fn split_from(s: Seq<char>, i: int, sep: char, cur: Seq<char>) -> Seq<Seq<char>>
    decreases s.len() - i,
{
    if i < 0 || i >= s.len() {
        seq![cur]
    } else if s[i] == sep {
        seq![cur] + split_from(s, i + 1, sep, Seq::empty())
    } else {
        split_from(s, i + 1, sep, cur + s.subrange(i, i + 1))
    }
}

/// The pieces of `s` between the occurrences of `sep` (one more than there
/// are separators).
pub open spec fn split_on(s: Seq<char>, sep: char) -> Seq<Seq<char>> {
    split_from(s, 0, sep, Seq::empty())
}

pub(crate) fn split_on_exec(v: &[char], sep: char) -> (r: Vec<Vec<char>>)
    ensures
        r@.map_values(|p: Vec<char>| p@) == split_on(v@, sep),
{
    let mut out: Vec<Vec<char>> = Vec::new();
    let mut cur: Vec<char> = Vec::new();
    let mut i: usize = 0;
    assert(out@.map_values(|p: Vec<char>| p@) + split_from(v@, 0, sep, cur@) =~= split_on(v@, sep));
    while i < v.len()
        invariant
            i <= v.len(),
            out@.map_values(|p: Vec<char>| p@) + split_from(v@, i as int, sep, cur@) == split_on(
                v@,
                sep,
            ),
        decreases v.len() - i,
    {
        let ghost prior = out@.map_values(|p: Vec<char>| p@);
        if v[i] == sep {
            let ghost piece = cur@;
            out.push(cur);
            cur = Vec::new();
            proof {
                let tail = split_from(v@, i + 1, sep, Seq::empty());
                assert(out@.map_values(|p: Vec<char>| p@) =~= prior.push(piece));
                assert(cur@ =~= Seq::<char>::empty());
                assert(prior + (seq![piece] + tail) =~= out@.map_values(|p: Vec<char>| p@) + tail);
            }
        } else {
            let ghost before = cur@;
            cur.push(v[i]);
            proof {
                assert(cur@ =~= before + v@.subrange(i as int, i + 1));
            }
        }
        i = i + 1;
    }
    let ghost prior = out@.map_values(|p: Vec<char>| p@);
    let ghost last = cur@;
    out.push(cur);
    proof {
        assert(out@.map_values(|p: Vec<char>| p@) =~= prior + seq![last]);
    }
    out
}

/// `a` comes no later than `b` in the order of their characters, compared
/// from position `i` on.
pub open spec fn str_le_from(a: Seq<char>, b: Seq<char>, i: int) -> bool
    decreases a.len() - i,
{
    if i < 0 || i >= a.len() {
        true
    } else if i >= b.len() {
        false
    } else if a[i] != b[i] {
        a[i] < b[i]
    } else {
        str_le_from(a, b, i + 1)
    }
}

/// Lexicographic order of character sequences (the order of `String`).
pub open spec fn str_le(a: Seq<char>, b: Seq<char>) -> bool {
    str_le_from(a, b, 0)
}

pub proof fn lemma_str_le_total(a: Seq<char>, b: Seq<char>, i: int)
    requires
        0 <= i,
    ensures
        str_le_from(a, b, i) || str_le_from(b, a, i),
    decreases a.len() - i,
{
    if i < a.len() && i < b.len() {
        if a[i] == b[i] {
            lemma_str_le_total(a, b, i + 1);
        }
    }
}

pub proof fn lemma_str_le_trans(a: Seq<char>, b: Seq<char>, c: Seq<char>, i: int)
    requires
        0 <= i,
        str_le_from(a, b, i),
        str_le_from(b, c, i),
    ensures
        str_le_from(a, c, i),
    decreases a.len() - i,
{
    if i < a.len() && a[i] == b[i] && b[i] == c[i] {
        lemma_str_le_trans(a, b, c, i + 1);
    }
}

/// Whether `a` comes no later than `b`.
pub(crate) fn str_le_exec(a: &str, b: &str) -> (r: bool)
    ensures
        r == str_le(a@, b@),
{
    let x = chars_of(a);
    let y = chars_of(b);
    let mut i: usize = 0;
    while i < x.len()
        invariant
            x@ == a@,
            y@ == b@,
            i <= x.len(),
            str_le(a@, b@) == str_le_from(a@, b@, i as int),
        decreases x.len() - i,
    {
        if i >= y.len() {
            return false;
        }
        if x[i] != y[i] {
            return x[i] < y[i];
        }
        i = i + 1;
    }
    true
}

/// What `str::to_lowercase` makes of a string.
pub uninterp spec fn lower_of(s: Seq<char>) -> Seq<char>;

/// Relies on `str::to_lowercase`: the Unicode lower case of `s`, which
/// depends on the characters of `s` alone.
#[verifier::external_body]
pub(crate) fn to_lowercase(s: &str) -> (r: String)
    ensures
        r@ == lower_of(s@),
{
    s.to_lowercase()
}

/// The characters of `s`, in order.
pub(crate) fn chars_of(s: &str) -> (r: Vec<char>)
    ensures
        r@ == s@,
{
    let n = s.unicode_len();
    let mut out: Vec<char> = Vec::new();
    let mut i: usize = 0;
    while i < n
        invariant
            n == s@.len(),
            i <= n,
            out@ == s@.subrange(0, i as int),
        decreases n - i,
    {
        out.push(s.get_char(i));
        proof {
            assert(out@ =~= s@.subrange(0, i + 1));
        }
        i = i + 1;
    }
    proof {
        assert(s@.subrange(0, n as int) =~= s@);
    }
    out
}

/// Relies on `Iterator::collect` into a `String`: the characters of `v`, in order.
#[verifier::external_body]
pub(crate) fn string_of(v: &[char]) -> (r: String)
    ensures
        r@ == v@,
{
    v.iter().collect()
}

pub(crate) fn is_digit_exec(c: char) -> (r: bool)
    ensures
        r == is_digit(c),
{
    '0' <= c && c <= '9'
}

/// Whether `k` stands in `v` at position `i`.
pub(crate) fn starts_at_exec(v: &[char], i: usize, k: &[char]) -> (r: bool)
    ensures
        r == starts_at(v@, i as int, k@),
{
    if i > v.len() || k.len() > v.len() - i {
        return false;
    }
    let mut j: usize = 0;
    while j < k.len()
        invariant
            i + k.len() <= v.len(),
            j <= k.len(),
            forall|m: int| 0 <= m < j ==> v@[i + m] == k@[m],
        decreases k.len() - j,
    {
        if v[i + j] != k[j] {
            assert(v@.subrange(i as int, i + k.len())[j as int] != k@[j as int]);
            return false;
        }
        j = j + 1;
    }
    assert(v@.subrange(i as int, i + k.len()) =~= k@);
    true
}

} // verus!

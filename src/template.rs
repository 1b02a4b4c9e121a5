//! Naming templates and the matchers derived from them.
//!
//! A template such as `P23a-YY_PP.shp` names the Shapefiles of a dataset; its
//! tokens stand for fixed-width numbers (`YY` year, `MM` month, `PP`
//! prefecture, `CCCCC` municipality, `AA` agency, `mmmm` mesh code). A
//! matcher accepts a path whose last part is the template with digits in
//! place of the tokens, followed by any Shapefile sidecar extension.
//! Digits are ASCII digits; extensions match in either ASCII case; the
//! rest of a template matches exactly.

use crate::text::{
    chars_of, is_digit, is_digit_exec, replace_all, replaced, split_on, split_on_exec, string_of,
    trim, trim_exec,
};
use vstd::prelude::*;

verus! {

/// One position of a name: a fixed character or any decimal digit.
#[derive(PartialEq, Eq, Structural, Clone, Copy, Debug)]
pub enum NameElem {
    Lit(char),
    Digit,
}

/// A compiled name pattern. An anchored pattern must start a path segment;
/// an unanchored one may end any longer name.
#[derive(Clone, Debug)]
pub struct NamePattern {
    pub anchored: bool,
    pub elems: Vec<NameElem>,
}

pub struct NamePatternView {
    pub anchored: bool,
    pub elems: Seq<NameElem>,
}

impl View for NamePattern {
    type V = NamePatternView;

    open spec fn view(&self) -> NamePatternView {
        NamePatternView { anchored: self.anchored, elems: self.elems@ }
    }
}

/// `c` is the letter `l` in either case (`u` is its capital).
pub open spec fn ci(c: char, l: char, u: char) -> bool {
    c == l || c == u
}

/// One of `.shp .cpg .dbf .prj .qmd .shx`, in any ASCII case.
pub open spec fn is_sidecar_ext(e: Seq<char>) -> bool {
    e.len() == 4 && e[0] == '.' && ((ci(e[1], 's', 'S') && ci(e[2], 'h', 'H') && (ci(e[3], 'p', 'P')
        || ci(e[3], 'x', 'X'))) || (ci(e[1], 'c', 'C') && ci(e[2], 'p', 'P') && ci(e[3], 'g', 'G'))
        || (ci(e[1], 'd', 'D') && ci(e[2], 'b', 'B') && ci(e[3], 'f', 'F')) || (ci(e[1], 'p', 'P')
        && ci(e[2], 'r', 'R') && ci(e[3], 'j', 'J')) || (ci(e[1], 'q', 'Q') && ci(e[2], 'm', 'M')
        && ci(e[3], 'd', 'D')))
}

pub open spec fn elem_accepts(e: NameElem, c: char) -> bool {
    match e {
        NameElem::Lit(x) => c == x,
        NameElem::Digit => is_digit(c),
    }
}

/// `s` is the pattern `p` with a digit at each digit position.
pub open spec fn elems_accept(p: Seq<NameElem>, s: Seq<char>) -> bool {
    s.len() == p.len() && forall|i: int| 0 <= i < s.len() ==> elem_accepts(#[trigger] p[i], s[i])
}

/// Where a match of `p` against `name` would begin: just before the
/// extension, `p.elems.len()` characters back.
pub open spec fn match_start(p: NamePatternView, name: Seq<char>) -> int {
    name.len() - 4 - p.elems.len()
}

pub open spec fn pattern_matches(p: NamePatternView, name: Seq<char>) -> bool {
    let k = match_start(p, name);
    name.len() >= 4 && is_sidecar_ext(name.subrange(name.len() - 4, name.len() as int)) && k >= 0
        && elems_accept(p.elems, name.subrange(k, name.len() - 4)) && (!p.anchored || k == 0
        || name[k - 1] == '/')
}

/// Some pattern of `ps` accepts `name`.
pub open spec fn any_matches(ps: Seq<NamePatternView>, name: Seq<char>) -> bool {
    exists|i: int| 0 <= i < ps.len() && pattern_matches(#[trigger] ps[i], name)
}

/// The length of the token that starts at position `i` of `s`, 0 if none.
pub open spec fn token_len_at(s: Seq<char>, i: int) -> int {
    let n = s.len() - i;
    if n >= 2 && s[i] == 'Y' && s[i + 1] == 'Y' {
        2
    } else if n >= 2 && s[i] == 'M' && s[i + 1] == 'M' {
        2
    } else if n >= 2 && s[i] == 'P' && s[i + 1] == 'P' {
        2
    } else if n >= 5 && s[i] == 'C' && s[i + 1] == 'C' && s[i + 2] == 'C' && s[i + 3] == 'C'
        && s[i + 4] == 'C' {
        5
    } else if n >= 2 && s[i] == 'A' && s[i + 1] == 'A' {
        2
    } else if n >= 4 && s[i] == 'm' && s[i + 1] == 'm' && s[i + 2] == 'm' && s[i + 3] == 'm' {
        4
    } else {
        0
    }
}

pub open spec fn lit_elems(c: char) -> Seq<NameElem> {
    Seq::new(1, |j: int| NameElem::Lit(c))
}

pub proof fn lemma_lit_elems(c: char)
    ensures
        lit_elems(c).len() == 1,
        lit_elems(c)[0] == NameElem::Lit(c),
{
}

pub open spec fn digit_elems(n: int) -> Seq<NameElem> {
    Seq::new(n as nat, |i: int| NameElem::Digit)
}

/// The pattern of a template body from position `i` on, read left to
/// right: each token becomes that many digit positions, every other
/// character stands for itself.
pub open spec fn elems_from(t: Seq<char>, i: int) -> Seq<NameElem>
    decreases t.len() - i,
{
    if i < 0 || i >= t.len() {
        Seq::empty()
    } else {
        let n = token_len_at(t, i);
        if n > 0 {
            digit_elems(n) + elems_from(t, i + n)
        } else {
            lit_elems(t[i]) + elems_from(t, i + 1)
        }
    }
}

pub open spec fn template_elems(t: Seq<char>) -> Seq<NameElem> {
    elems_from(t, 0)
}

/// The template without surrounding white space and without a final `.shp`
/// (in any ASCII case).
pub open spec fn template_body(t: Seq<char>) -> Seq<char> {
    let s = trim(t);
    if s.len() >= 4 && s[s.len() - 4] == '.' && ci(s[s.len() - 3], 's', 'S') && ci(
        s[s.len() - 2],
        'h',
        'H',
    ) && ci(s[s.len() - 1], 'p', 'P') {
        s.subrange(0, s.len() - 4)
    } else {
        s
    }
}

/// The matcher derived from a naming template.
pub open spec fn compiled(t: Seq<char>) -> NamePatternView {
    NamePatternView { anchored: true, elems: template_elems(template_body(t)) }
}

pub open spec fn lit_elem(c: char) -> NameElem {
    NameElem::Lit(c)
}

/// The unanchored pattern of a fixed text.
pub open spec fn ending_with_view(text: Seq<char>) -> NamePatternView {
    NamePatternView { anchored: false, elems: text.map_values(|c: char| lit_elem(c)) }
}

/// The matcher that accepts any Shapefile sidecar.
pub open spec fn any_sidecar_view() -> NamePatternView {
    NamePatternView { anchored: false, elems: Seq::empty() }
}

fn ci_exec(c: char, l: char, u: char) -> (r: bool)
    ensures
        r == ci(c, l, u),
{
    c == l || c == u
}

fn is_sidecar_ext_at(v: &[char], i: usize) -> (r: bool)
    requires
        i + 4 == v.len(),
    ensures
        r == is_sidecar_ext(v@.subrange(i as int, v.len() as int)),
{
    let a = v[i + 1];
    let b = v[i + 2];
    let c = v[i + 3];
    let ghost e = v@.subrange(i as int, v.len() as int);
    assert(e[0] == v@[i as int] && e[1] == v@[i + 1] && e[2] == v@[i + 2] && e[3] == v@[i + 3]);
    v[i] == '.' && ((ci_exec(a, 's', 'S') && ci_exec(b, 'h', 'H') && (ci_exec(c, 'p', 'P')
        || ci_exec(c, 'x', 'X'))) || (ci_exec(a, 'c', 'C') && ci_exec(b, 'p', 'P') && ci_exec(
        c,
        'g',
        'G',
    )) || (ci_exec(a, 'd', 'D') && ci_exec(b, 'b', 'B') && ci_exec(c, 'f', 'F')) || (ci_exec(
        a,
        'p',
        'P',
    ) && ci_exec(b, 'r', 'R') && ci_exec(c, 'j', 'J')) || (ci_exec(a, 'q', 'Q') && ci_exec(
        b,
        'm',
        'M',
    ) && ci_exec(c, 'd', 'D')))
}

impl NamePattern {
    /// The matcher that accepts any Shapefile sidecar.
    pub fn any_sidecar() -> (r: NamePattern)
        ensures
            r@ == any_sidecar_view(),
    {
        let r = NamePattern { anchored: false, elems: Vec::new() };
        assert(r@.elems =~= Seq::<NameElem>::empty());
        r
    }

    /// A copy of this pattern.
    pub fn duplicate(&self) -> (r: NamePattern)
        ensures
            r@ == self@,
    {
        let mut elems: Vec<NameElem> = Vec::new();
        let mut i: usize = 0;
        while i < self.elems.len()
            invariant
                i <= self.elems.len(),
                elems@ == self.elems@.subrange(0, i as int),
            decreases self.elems.len() - i,
        {
            elems.push(self.elems[i]);
            proof {
                assert(elems@ =~= self.elems@.subrange(0, i + 1));
            }
            i = i + 1;
        }
        proof {
            assert(self.elems@.subrange(0, i as int) =~= self.elems@);
        }
        NamePattern { anchored: self.anchored, elems }
    }

    /// The unanchored pattern that accepts any name ending in `text` and a
    /// sidecar extension.
    pub fn ending_with(text: &str) -> (r: NamePattern)
        ensures
            r@ == ending_with_view(text@),
    {
        let v = chars_of(text);
        let mut elems: Vec<NameElem> = Vec::new();
        let mut i: usize = 0;
        assert(elems@ =~= v@.subrange(0, 0).map_values(|c: char| lit_elem(c)));
        while i < v.len()
            invariant
                i <= v.len(),
                elems@ == v@.subrange(0, i as int).map_values(|c: char| lit_elem(c)),
            decreases v.len() - i,
        {
            let c = v[i];
            let ghost prior = elems@;
            elems.push(NameElem::Lit(c));
            proof {
                assert(elems@ == prior.push(lit_elem(c)));
                assert(elems@ =~= v@.subrange(0, i + 1).map_values(|c: char| lit_elem(c)));
            }
            i = i + 1;
        }
        proof {
            assert(v@.subrange(0, i as int) =~= v@);
        }
        NamePattern { anchored: false, elems }
    }

    /// Whether this pattern accepts `name` (a path inside an archive).
    pub fn is_match(&self, name: &str) -> (r: bool)
        ensures
            r == pattern_matches(self@, name@),
    {
        let v = chars_of(name);
        self.matches_chars(&v)
    }

    pub fn matches_chars(&self, v: &[char]) -> (r: bool)
        ensures
            r == pattern_matches(self@, v@),
    {
        let n = v.len();
        let m = self.elems.len();
        if n < 4 || !is_sidecar_ext_at(v, n - 4) || n - 4 < m {
            return false;
        }
        let k = n - 4 - m;
        let ghost stem = v@.subrange(k as int, n - 4);
        let mut i: usize = 0;
        while i < m
            invariant
                k + m + 4 == n,
                m == self.elems.len(),
                n == v.len(),
                stem == v@.subrange(k as int, n - 4),
                i <= m,
                forall|j: int| 0 <= j < i ==> elem_accepts(#[trigger] self.elems@[j], stem[j]),
            decreases m - i,
        {
            let c = v[k + i];
            let ok = match self.elems[i] {
                NameElem::Lit(x) => c == x,
                NameElem::Digit => is_digit_exec(c),
            };
            if !ok {
                assert(!elem_accepts(self.elems@[i as int], stem[i as int]));
                return false;
            }
            i = i + 1;
        }
        !self.anchored || k == 0 || v[k - 1] == '/'
    }

    /// Compiles a naming template into its matcher.
    pub fn from_template(template: &str) -> (r: NamePattern)
        ensures
            r@ == compiled(template@),
    {
        let t = chars_of(template);
        let body = template_body_exec(&t);
        let elems = template_elems_exec(&body);
        NamePattern { anchored: true, elems }
    }
}

/// Whether some pattern of `patterns` accepts `name`.
pub fn matches_any(patterns: &Vec<NamePattern>, name: &str) -> (r: bool)
    ensures
        r == any_matches(patterns@.map_values(|p: NamePattern| p@), name@),
{
    let v = chars_of(name);
    let ghost ps = patterns@.map_values(|p: NamePattern| p@);
    let mut i: usize = 0;
    while i < patterns.len()
        invariant
            v@ == name@,
            i <= patterns.len(),
            ps == patterns@.map_values(|p: NamePattern| p@),
            forall|j: int| 0 <= j < i ==> !pattern_matches(#[trigger] ps[j], name@),
        decreases patterns.len() - i,
    {
        if patterns[i].matches_chars(&v) {
            assert(pattern_matches(ps[i as int], name@));
            return true;
        }
        i = i + 1;
    }
    false
}

fn template_body_exec(t: &[char]) -> (r: Vec<char>)
    ensures
        r@ == template_body(t@),
{
    let s = trim_exec(t);
    let n = s.len();
    if n >= 4 && s[n - 4] == '.' && ci_exec(s[n - 3], 's', 'S') && ci_exec(s[n - 2], 'h', 'H')
        && ci_exec(s[n - 1], 'p', 'P') {
        let mut out: Vec<char> = Vec::new();
        let mut i: usize = 0;
        while i < n - 4
            invariant
                n == s.len(),
                n >= 4,
                i <= n - 4,
                out@ == s@.subrange(0, i as int),
            decreases n - 4 - i,
        {
            out.push(s[i]);
            proof {
                assert(out@ =~= s@.subrange(0, i + 1));
            }
            i = i + 1;
        }
        out
    } else {
        s
    }
}

proof fn lemma_push_then_concat(prior: Seq<NameElem>, c: char, tail: Seq<NameElem>)
    ensures
        prior + (lit_elems(c) + tail) == prior.push(NameElem::Lit(c)) + tail,
{
    assert(prior + (lit_elems(c) + tail) =~= prior.push(NameElem::Lit(c)) + tail);
}

proof fn lemma_elems_from_lit(t: Seq<char>, i: int)
    requires
        0 <= i < t.len(),
        token_len_at(t, i) == 0,
    ensures
        elems_from(t, i) == lit_elems(t[i]) + elems_from(t, i + 1),
{
}

fn token_len_exec(v: &[char], i: usize) -> (r: usize)
    requires
        i <= v.len(),
    ensures
        r == token_len_at(v@, i as int),
        i + r <= v.len(),
{
    let n = v.len() - i;
    if n >= 2 && v[i] == 'Y' && v[i + 1] == 'Y' {
        2
    } else if n >= 2 && v[i] == 'M' && v[i + 1] == 'M' {
        2
    } else if n >= 2 && v[i] == 'P' && v[i + 1] == 'P' {
        2
    } else if n >= 5 && v[i] == 'C' && v[i + 1] == 'C' && v[i + 2] == 'C' && v[i + 3] == 'C' && v[i
        + 4] == 'C' {
        5
    } else if n >= 2 && v[i] == 'A' && v[i + 1] == 'A' {
        2
    } else if n >= 4 && v[i] == 'm' && v[i + 1] == 'm' && v[i + 2] == 'm' && v[i + 3] == 'm' {
        4
    } else {
        0
    }
}

fn template_elems_exec(t: &[char]) -> (r: Vec<NameElem>)
    ensures
        r@ == template_elems(t@),
{
    let mut out: Vec<NameElem> = Vec::new();
    let mut i: usize = 0;
    let n = t.len();
    assert(out@ + elems_from(t@, 0) =~= elems_from(t@, 0));
    while i < n
        invariant
            n == t.len(),
            i <= n,
            template_elems(t@) == out@ + elems_from(t@, i as int),
        decreases n - i,
    {
        let k = token_len_exec(t, i);
        let ghost prior = out@;
        if k > 0 {
            let mut j: usize = 0;
            while j < k
                invariant
                    j <= k,
                    out@ == prior + digit_elems(j as int),
                decreases k - j,
            {
                out.push(NameElem::Digit);
                proof {
                    assert(out@ =~= prior + digit_elems(j + 1));
                }
                j = j + 1;
            }
            proof {
                let tail = elems_from(t@, i + k);
                assert(prior + (digit_elems(k as int) + tail) =~= out@ + tail);
            }
            i = i + k;
        } else {
            let c = t[i];
            out.push(NameElem::Lit(c));
            proof {
                lemma_elems_from_lit(t@, i as int);
                lemma_push_then_concat(prior, c, elems_from(t@, i + 1));
            }
            i = i + 1;
        }
    }
    proof {
        assert(out@ + elems_from(t@, n as int) =~= out@);
    }
    out
}

/// A template's matcher accepts every name that writes digits in place of
/// each token (as many as the token is wide) followed by a sidecar extension.
pub proof fn law_filled_name_matches(template: Seq<char>, name: Seq<char>, ext: Seq<char>)
    requires
        elems_accept(compiled(template).elems, name),
        is_sidecar_ext(ext),
    ensures
        pattern_matches(compiled(template), name + ext),
{
    let full = name + ext;
    assert(full.subrange(full.len() - 4, full.len() as int) =~= ext);
    assert(full.subrange(0, full.len() - 4) =~= name);
}

/// A name with one more digit than its template asks for, wherever the digit
/// is put, is not accepted.
pub proof fn law_extra_digit_rejected(
    template: Seq<char>,
    name: Seq<char>,
    ext: Seq<char>,
    j: int,
    d: char,
)
    requires
        elems_accept(compiled(template).elems, name),
        is_sidecar_ext(ext),
        0 <= j <= name.len(),
        is_digit(d),
    ensures
        !pattern_matches(compiled(template), name.insert(j, d) + ext),
{
    let p = compiled(template);
    let s = name.insert(j, d);
    let full = s + ext;
    if pattern_matches(p, full) {
        let stem = full.subrange(1, full.len() - 4);
        assert(match_start(p, full) == 1);
        assert forall|m: int| 0 <= m < p.elems.len() implies elem_accepts(
            #[trigger] p.elems[m],
            s[m + 1],
        ) by {
            assert(stem[m] == s[m + 1]);
        }
        assert forall|m: int| 0 <= m < j implies elem_accepts(#[trigger] p.elems[m], s[m]) by {
            assert(s[m] == name[m]);
        }
        lemma_slash_chain(p.elems, s, j, j);
        assert(s[j] == d);
    }
}

proof fn lemma_slash_chain(p: Seq<NameElem>, s: Seq<char>, j: int, i: int)
    requires
        0 <= i <= j <= p.len(),
        s.len() == p.len() + 1,
        s[0] == '/',
        forall|m: int| 0 <= m < p.len() ==> elem_accepts(#[trigger] p[m], s[m + 1]),
        forall|m: int| 0 <= m < j ==> elem_accepts(#[trigger] p[m], s[m]),
    ensures
        s[i] == '/',
    decreases i,
{
    if i > 0 {
        lemma_slash_chain(p, s, j, i - 1);
        assert(elem_accepts(p[i - 1], s[i - 1]));
        assert(elem_accepts(p[i - 1], s[i]));
    }
}

/// A name with one digit fewer than its template asks for is not accepted.
pub proof fn law_missing_digit_rejected(template: Seq<char>, name: Seq<char>, ext: Seq<char>, j: int)
    requires
        elems_accept(compiled(template).elems, name),
        is_sidecar_ext(ext),
        0 <= j < name.len(),
    ensures
        !pattern_matches(compiled(template), name.remove(j) + ext),
{
}

/// A template's match begins a path segment: at the start of the path or
/// right after a `/`.
pub proof fn law_match_starts_segment(template: Seq<char>, path: Seq<char>)
    requires
        pattern_matches(compiled(template), path),
    ensures
        match_start(compiled(template), path) == 0 || path[match_start(compiled(template), path)
            - 1] == '/',
{
}

/// For a template without `/`, a match takes in the whole last segment of
/// the path: no `/` stands from where the match begins to the end.
pub proof fn law_match_is_last_segment(template: Seq<char>, path: Seq<char>)
    requires
        pattern_matches(compiled(template), path),
        forall|i: int| 0 <= i < template.len() ==> template[i] != '/',
    ensures
        forall|i: int|
            match_start(compiled(template), path) <= i < path.len() ==> path[i] != '/',
{
    let p = compiled(template);
    let k = match_start(p, path);
    let b = template_body(template);
    let tr = trim(template);
    let rest = template.subrange(crate::text::space_run(template, 0), template.len() as int);
    crate::text::lemma_space_run_bound(template, 0);
    crate::text::lemma_back_space_run_bound(rest);
    assert forall|m: int| 0 <= m < b.len() implies b[m] != '/' by {
        assert(tr[m] == rest[m]);
    }
    lemma_no_slash_elems(b, 0);
    assert forall|i: int| k <= i < path.len() implies path[i] != '/' by {
        if i < path.len() - 4 {
            let stem = path.subrange(k, path.len() - 4);
            assert(stem[i - k] == path[i]);
            assert(elem_accepts(p.elems[i - k], stem[i - k]));
            assert(p.elems[i - k] != NameElem::Lit('/'));
        } else {
            let e = path.subrange(path.len() - 4, path.len() as int);
            assert(e[i - (path.len() - 4)] == path[i]);
        }
    }
}

proof fn lemma_no_slash_elems(b: Seq<char>, i: int)
    requires
        forall|m: int| 0 <= m < b.len() ==> b[m] != '/',
    ensures
        forall|m: int|
            0 <= m < elems_from(b, i).len() ==> #[trigger] elems_from(b, i)[m] != NameElem::Lit(
                '/',
            ),
    decreases b.len() - i,
{
    if 0 <= i < b.len() {
        let n = token_len_at(b, i);
        if n > 0 {
            lemma_no_slash_elems(b, i + n);
            let x = digit_elems(n);
            let y = elems_from(b, i + n);
            assert forall|m: int| 0 <= m < (x + y).len() implies (x + y)[m] != NameElem::Lit(
                '/',
            ) by {
                if m < x.len() {
                    assert((x + y)[m] == x[m]);
                } else {
                    assert((x + y)[m] == y[m - x.len()]);
                }
            }
        } else {
            lemma_no_slash_elems(b, i + 1);
            let x = lit_elems(b[i]);
            let y = elems_from(b, i + 1);
            assert(b[i] != '/');
            lemma_lit_elems(b[i]);
            assert forall|m: int| 0 <= m < (x + y).len() implies (x + y)[m] != NameElem::Lit(
                '/',
            ) by {
                if m < x.len() {
                    assert((x + y)[m] == x[m]);
                } else {
                    assert((x + y)[m] == y[m - x.len()]);
                }
            }
        }
    }
}

/// The naming templates of a hint: one per line, with surrounding white
/// space removed, empty lines dropped, and a known misspelling of the
/// medical-area template (`A38-YY_PP_`) corrected.
pub open spec fn hint_templates(s: Seq<char>) -> Seq<Seq<char>> {
    let unified = replaced(s, "\r\n"@, "\n"@);
    let fixed = replaced(unified, "A38-YY_PP_"@, "A38-YY_"@);
    split_on(fixed, '\n').map_values(|l: Seq<char>| trim(l)).filter(nonempty_line())
}

pub open spec fn nonempty_line() -> spec_fn(Seq<char>) -> bool {
    |l: Seq<char>| l.len() > 0
}

proof fn lemma_filter_step(s: Seq<Seq<char>>, i: int)
    requires
        0 <= i < s.len(),
    ensures
        s.subrange(0, i + 1).filter(nonempty_line()) == if s[i].len() > 0 {
            s.subrange(0, i).filter(nonempty_line()).push(s[i])
        } else {
            s.subrange(0, i).filter(nonempty_line())
        },
{
    reveal(Seq::filter);
    let s1 = s.subrange(0, i + 1);
    assert(s1.drop_last() =~= s.subrange(0, i));
    assert(s1.last() == s[i]);
    assert(s1.len() > 0);
    assert(nonempty_line()(s[i]) == (s[i].len() > 0));
}

/// Splits and normalizes a naming-template hint into its templates.
pub fn split_shapefile_matcher(s: &str) -> (r: Vec<String>)
    ensures
        r@.map_values(|x: String| x@) == hint_templates(s@),
{
    let crlf = chars_of("\r\n");
    let lf = chars_of("\n");
    let bad = chars_of("A38-YY_PP_");
    let good = chars_of("A38-YY_");
    proof {
        reveal_strlit("\r\n");
        reveal_strlit("A38-YY_PP_");
    }
    let unified = replace_all(&chars_of(s), &crlf, &lf);
    let fixed = replace_all(&unified, &bad, &good);
    let lines = split_on_exec(&fixed, '\n');
    let ghost trimmed = lines@.map_values(|p: Vec<char>| p@).map_values(|l: Seq<char>| trim(l));
    let mut out: Vec<String> = Vec::new();
    let mut i: usize = 0;
    while i < lines.len()
        invariant
            i <= lines.len(),
            trimmed == lines@.map_values(|p: Vec<char>| p@).map_values(|l: Seq<char>| trim(l)),
            out@.map_values(|x: String| x@) == trimmed.subrange(0, i as int).filter(
                nonempty_line(),
            ),
        decreases lines.len() - i,
    {
        let t = trim_exec(&lines[i]);
        let ghost prior = out@.map_values(|x: String| x@);
        proof {
            lemma_filter_step(trimmed, i as int);
            assert(trimmed[i as int] == t@);
        }
        if t.len() > 0 {
            out.push(string_of(&t));
            proof {
                assert(out@.map_values(|x: String| x@) =~= prior.push(t@));
            }
        }
        i = i + 1;
    }
    proof {
        assert(trimmed.subrange(0, lines.len() as int) =~= trimmed);
    }
    out
}

} // verus!

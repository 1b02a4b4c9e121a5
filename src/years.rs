//! Year labels of the catalog: "2006年（平成18年）", "データ基準年：2020年", ...

use crate::text::{
    chars_of, digit_run, digits_value, is_digit, is_digit_exec, lemma_digit_run,
    lemma_digits_value_nonneg, lemma_digits_value_step, space_run, space_run_exec, starts_at,
    starts_at_exec, find_from, find_from_exec,
};
use std::ops::RangeInclusive;
use vstd::prelude::*;

verus! {

/// The year that a field such as "2006年（平成18年）" starts with: a run of
/// digits directly followed by 年, whose value fits in a `u32`.
pub open spec fn year_of_field(s: Seq<char>) -> Option<u32> {
    let n = digit_run(s, 0);
    if n >= 1 && n < s.len() && s[n] == '年' && digits_value(s.subrange(0, n)) <= u32::MAX {
        Some(digits_value(s.subrange(0, n)) as u32)
    } else {
        None
    }
}

/// Extracts the numeric year from a field formatted like "2006年（平成18年）".
pub fn extract_year_from_field(field: &str) -> (r: Option<u32>)
    ensures
        r == year_of_field(field@),
{
    let v = chars_of(field);
    let mut i: usize = 0;
    let mut val: u64 = 0;
    let mut big = false;
    while i < v.len() && is_digit_exec(v[i])
        invariant
            v@ == field@,
            i <= v.len(),
            forall|k: int| 0 <= k < i ==> is_digit(#[trigger] v@[k]),
            !big ==> val == digits_value(v@.subrange(0, i as int)) && val <= u32::MAX,
            big ==> digits_value(v@.subrange(0, i as int)) > u32::MAX,
        decreases v.len() - i,
    {
        proof {
            lemma_digits_value_step(v@, i as int);
            lemma_digits_value_nonneg(v@.subrange(0, i as int));
        }
        let d = (v[i] as u32 - '0' as u32) as u64;
        if !big {
            val = val * 10 + d;
            if val > u32::MAX as u64 {
                big = true;
            }
        }
        i = i + 1;
    }
    proof {
        lemma_digit_run(v@, 0, i as int);
    }
    if i >= 1 && i < v.len() && v[i] == '年' && !big {
        Some(val as u32)
    } else {
        None
    }
}


/// What a year-range label says: its first year, the year after "～" if a
/// range follows, and whether it is marked 以前 ("and earlier").
#[derive(Clone, Copy, Debug)]
pub struct YearRangeMatch {
    pub first_year: u32,
    pub second_year: Option<u32>,
    pub earlier: bool,
}

pub open spec fn kw_base_year() -> Seq<char> {
    seq!['デ', 'ー', 'タ', '基', '準', '年', '：']
}

pub open spec fn kw_latest() -> Seq<char> {
    seq!['最', '新', 'の', 'デ', 'ー', 'タ', 'は']
}

pub open spec fn kw_made_year() -> Seq<char> {
    seq!['デ', 'ー', 'タ', '作', '成', '年', '度']
}

pub open spec fn kw_earlier() -> Seq<char> {
    seq!['以', '前']
}

/// Where the first year stands for a label that starts at `i`: after
/// "データ基準年：", after "最新のデータは" (and an optional
/// "データ作成年度" with spaces), or after "データ作成年度：".
pub open spec fn year_start(s: Seq<char>, i: int) -> Option<int> {
    let made = kw_made_year().push('：');
    if starts_at(s, i, kw_base_year()) {
        Some(i + 7)
    } else if starts_at(s, i, kw_latest()) {
        if starts_at(s, i + 7, kw_made_year()) {
            Some(i + 14 + space_run(s, i + 14))
        } else {
            Some(i + 7)
        }
    } else if starts_at(s, i, made) {
        Some(i + 8)
    } else {
        None
    }
}

/// Four digits at `p`, then 年.
pub open spec fn year_digits_at(s: Seq<char>, p: int) -> bool {
    0 <= p && p + 4 < s.len() && is_digit(s[p]) && is_digit(s[p + 1]) && is_digit(s[p + 2])
        && is_digit(s[p + 3]) && s[p + 4] == '年'
}

pub open spec fn label_at(s: Seq<char>, i: int) -> bool {
    match year_start(s, i) {
        Some(p) => year_digits_at(s, p),
        None => false,
    }
}

/// The leftmost position, from `i` on, where a label starts.
pub open spec fn first_label_from(s: Seq<char>, i: int) -> Option<int>
    decreases s.len() - i,
{
    if i < 0 || i >= s.len() {
        None
    } else if label_at(s, i) {
        Some(i)
    } else {
        first_label_from(s, i + 1)
    }
}

/// Past 年 (or 年度) and an optional parenthesised era name.
pub open spec fn after_year(s: Seq<char>, p: int) -> int {
    let q0 = p + 5;
    let q1 = if q0 < s.len() && s[q0] == '度' { q0 + 1 } else { q0 };
    if q1 < s.len() && s[q1] == '（' {
        match find_from(s, q1 + 1, '）') {
            Some(e) => e + 1,
            None => q1,
        }
    } else {
        q1
    }
}

pub open spec fn four_digits_value(s: Seq<char>, p: int) -> int {
    digits_value(s.subrange(p, p + 4))
}

pub open spec fn year_range_match(s: Seq<char>) -> Option<YearRangeMatch> {
    match first_label_from(s, 0) {
        None => None,
        Some(i) => {
            let p = year_start(s, i).unwrap();
            let q = after_year(s, p);
            let first = four_digits_value(s, p) as u32;
            if q < s.len() && s[q] == '～' && year_digits_at(s, q + 1) {
                Some(
                    YearRangeMatch {
                        first_year: first,
                        second_year: Some(four_digits_value(s, q + 1) as u32),
                        earlier: false,
                    },
                )
            } else {
                Some(
                    YearRangeMatch {
                        first_year: first,
                        second_year: None,
                        earlier: starts_at(s, q, kw_earlier()),
                    },
                )
            }
        },
    }
}

/// The years that a label covers, lowest first; 以前 reaches down to 0.
pub open spec fn year_range_of(s: Seq<char>) -> Option<(u32, u32)> {
    match year_range_match(s) {
        None => None,
        Some(m) => {
            let second = if m.earlier {
                0
            } else {
                match m.second_year {
                    Some(y) => y,
                    None => m.first_year,
                }
            };
            if m.first_year <= second {
                Some((m.first_year, second))
            } else {
                Some((second, m.first_year))
            }
        },
    }
}

fn kw_base_year_exec() -> (r: Vec<char>)
    ensures
        r@ == kw_base_year(),
{
    let r = vec!['デ', 'ー', 'タ', '基', '準', '年', '：'];
    assert(r@ =~= kw_base_year());
    r
}

fn kw_latest_exec() -> (r: Vec<char>)
    ensures
        r@ == kw_latest(),
{
    let r = vec!['最', '新', 'の', 'デ', 'ー', 'タ', 'は'];
    assert(r@ =~= kw_latest());
    r
}

fn kw_made_year_exec() -> (r: Vec<char>)
    ensures
        r@ == kw_made_year(),
{
    let r = vec!['デ', 'ー', 'タ', '作', '成', '年', '度'];
    assert(r@ =~= kw_made_year());
    r
}

fn kw_earlier_exec() -> (r: Vec<char>)
    ensures
        r@ == kw_earlier(),
{
    let r = vec!['以', '前'];
    assert(r@ =~= kw_earlier());
    r
}

fn year_start_exec(v: &Vec<char>, i: usize) -> (r: Option<usize>)
    requires
        i <= v.len(),
    ensures
        r matches Some(p) ==> p <= v.len() && year_start(v@, i as int) == Some(p as int),
        r is None ==> year_start(v@, i as int) is None,
{
    let mut made = kw_made_year_exec();
    made.push('：');
    if starts_at_exec(v, i, &kw_base_year_exec()) {
        Some(i + 7)
    } else if starts_at_exec(v, i, &kw_latest_exec()) {
        if i + 7 <= v.len() && starts_at_exec(v, i + 7, &kw_made_year_exec()) {
            let n = space_run_exec(v, i + 14);
            Some(i + 14 + n)
        } else {
            Some(i + 7)
        }
    } else if starts_at_exec(v, i, &made) {
        Some(i + 8)
    } else {
        None
    }
}

fn year_digits_at_exec(v: &Vec<char>, p: usize) -> (r: bool)
    ensures
        r == year_digits_at(v@, p as int),
{
    p < v.len() && v.len() - p > 4 && is_digit_exec(v[p]) && is_digit_exec(v[p + 1])
        && is_digit_exec(v[p + 2]) && is_digit_exec(v[p + 3]) && v[p + 4] == '年'
}

fn four_digits_value_exec(v: &Vec<char>, p: usize) -> (r: u32)
    requires
        year_digits_at(v@, p as int),
    ensures
        r == four_digits_value(v@, p as int),
{
    let ghost w = v@.subrange(p as int, p + 4);
    assert(p + 4 < v.len());
    assert(is_digit(v@[p + 1]) && is_digit(v@[p + 2]) && is_digit(v@[p + 3]));
    let d0 = v[p] as u32 - '0' as u32;
    let d1 = v[p + 1] as u32 - '0' as u32;
    let d2 = v[p + 2] as u32 - '0' as u32;
    let d3 = v[p + 3] as u32 - '0' as u32;
    proof {
        lemma_digits_value_step(w, 3);
        lemma_digits_value_step(w, 2);
        lemma_digits_value_step(w, 1);
        lemma_digits_value_step(w, 0);
        assert(w.subrange(0, 4) =~= w);
        assert(w.subrange(0, 0).len() == 0);
    }
    ((d0 * 10 + d1) * 10 + d2) * 10 + d3
}

proof fn lemma_first_label(s: Seq<char>, from: int, i: int)
    requires
        0 <= from <= i <= s.len(),
        forall|k: int| from <= k < i ==> !label_at(s, k),
    ensures
        i < s.len() && label_at(s, i) ==> first_label_from(s, from) == Some(i),
        i == s.len() ==> first_label_from(s, from) == None::<int>,
    decreases i - from,
{
    if from < i {
        lemma_first_label(s, from + 1, i);
    }
}

fn after_year_exec(v: &Vec<char>, p: usize) -> (r: usize)
    requires
        year_digits_at(v@, p as int),
    ensures
        r == after_year(v@, p as int),
        r <= v.len(),
{
    assert(p + 4 < v.len());
    let q0 = p + 5;
    let q1 = if q0 < v.len() && v[q0] == '度' {
        q0 + 1
    } else {
        q0
    };
    if q1 < v.len() && v[q1] == '（' {
        match find_from_exec(v, q1 + 1, '）') {
            Some(e) => e + 1,
            None => q1,
        }
    } else {
        q1
    }
}

/// Finds the leftmost year-range label in `text` and what it says.
pub fn match_year_range(text: &str) -> (r: Option<YearRangeMatch>)
    ensures
        r == year_range_match(text@),
{
    let v = chars_of(text);
    let mut i: usize = 0;
    while i < v.len()
        invariant
            v@ == text@,
            i <= v.len(),
            forall|k: int| 0 <= k < i ==> !label_at(v@, k),
        decreases v.len() - i,
    {
        match year_start_exec(&v, i) {
            Some(p) => {
                if year_digits_at_exec(&v, p) {
                    proof {
                        lemma_first_label(v@, 0, i as int);
                    }
                    let first = four_digits_value_exec(&v, p);
                    let q = after_year_exec(&v, p);
                    if q < v.len() && v[q] == '～' && year_digits_at_exec(&v, q + 1) {
                        let second = four_digits_value_exec(&v, q + 1);
                        return Some(
                            YearRangeMatch { first_year: first, second_year: Some(second), earlier: false },
                        );
                    } else {
                        let earlier = starts_at_exec(&v, q, &kw_earlier_exec());
                        return Some(
                            YearRangeMatch { first_year: first, second_year: None, earlier: earlier },
                        );
                    }
                }
            },
            None => {},
        }
        i = i + 1;
    }
    proof {
        lemma_first_label(v@, 0, i as int);
    }
    None
}

/// Parses the years that a label such as
/// "データ作成年度：2020年度（令和2年度）～2014年度（平成26年度）版" covers.
/// A label marked 以前 ("2015年以前") covers 0 to its year.
pub fn parse_year_range(text: &str) -> (r: Option<RangeInclusive<u32>>)
    ensures
        match year_range_of(text@) {
            None => r is None,
            Some((lo, hi)) => r matches Some(range) && range@.start == lo && range@.end == hi
                && !range@.exhausted,
        },
{
    let m = match match_year_range(text) {
        None => return None,
        Some(m) => m,
    };
    let second = if m.earlier {
        0
    } else {
        match m.second_year {
            Some(y) => y,
            None => m.first_year,
        }
    };
    if m.first_year <= second {
        Some(RangeInclusive::new(m.first_year, second))
    } else {
        Some(RangeInclusive::new(second, m.first_year))
    }
}

/// The years written as four digits followed by 年 (or 年度), read left to
/// right from position `i`, each match resuming after its 年 or 年度.
pub open spec fn years_from(s: Seq<char>, i: int) -> Seq<u32>
    decreases s.len() - i,
{
    if i < 0 || i >= s.len() {
        Seq::empty()
    } else if year_digits_at(s, i) {
        let next = if i + 5 < s.len() && s[i + 5] == '度' {
            i + 6
        } else {
            i + 5
        };
        seq![four_digits_value(s, i) as u32] + years_from(s, next)
    } else {
        years_from(s, i + 1)
    }
}

/// Extracts every year of a list such as
/// "2013年度（平成25年度）、2014年度（平成26年度）"; none when there is none.
pub fn extract_multiple_years(text: &str) -> (r: Option<Vec<u32>>)
    ensures
        years_from(text@, 0).len() == 0 ==> r is None,
        years_from(text@, 0).len() > 0 ==> (r matches Some(v) && v@ == years_from(text@, 0)),
{
    let v = chars_of(text);
    let mut out: Vec<u32> = Vec::new();
    let mut i: usize = 0;
    assert(out@ + years_from(v@, 0) =~= years_from(v@, 0));
    while i < v.len()
        invariant
            v@ == text@,
            i <= v.len(),
            years_from(text@, 0) == out@ + years_from(text@, i as int),
        decreases v.len() - i,
    {
        if year_digits_at_exec(&v, i) {
            let y = four_digits_value_exec(&v, i);
            let ghost prior = out@;
            out.push(y);
            let next = if i + 5 < v.len() && v[i + 5] == '度' {
                i + 6
            } else {
                i + 5
            };
            proof {
                let tail = years_from(text@, next as int);
                assert(prior + (seq![y] + tail) =~= out@ + tail);
            }
            i = next;
        } else {
            i = i + 1;
        }
    }
    proof {
        assert(out@ + years_from(text@, i as int) =~= out@);
    }
    if out.len() == 0 {
        None
    } else {
        Some(out)
    }
}

pub open spec fn recency_of(year: Option<String>, nendo: Option<String>) -> Option<u32> {
    let from_year = match year {
        Some(y) => year_of_field(y@),
        None => None,
    };
    match from_year {
        Some(v) => Some(v),
        None => match nendo {
            Some(n) => year_of_field(n@),
            None => None,
        },
    }
}

/// How recent a downloadable file is: the year of its calendar-year label,
/// else of its fiscal-year label.
pub fn parse_recency(year: &Option<String>, nendo: &Option<String>) -> (r: Option<u32>)
    ensures
        r == recency_of(*year, *nendo),
{
    if let Some(y) = year {
        if let Some(v) = extract_year_from_field(y.as_str()) {
            return Some(v);
        }
    }
    if let Some(n) = nendo {
        return extract_year_from_field(n.as_str());
    }
    None
}

} // verus!

//! The file-name grammar, read as a leftmost-first pattern would read it.
//!
//! A name is `series [issue] [year] [tags] .format`, anchored at both ends.
//! The series and the title take the shortest extent that lets the rest of the
//! grammar match; every optional part is taken when the rest still matches
//! with it; digit and word runs are maximal. The spec functions below read
//! the body of a name, that is the name without its final `.format`, and
//! speak of positions in it.
use vstd::prelude::*;
use crate::chars::{digit, is_digit, is_series, is_space, is_text, is_word, series, space, text, word};

verus! {

/// The character classes that the grammar runs over.
#[derive(Clone, Copy, PartialEq, Eq, Structural)]
pub enum Class {
    Space,
    Digit,
    Word,
    Text,
    Series,
}

pub open spec fn in_class(k: Class, c: char) -> bool {
    match k {
        Class::Space => is_space(c),
        Class::Digit => is_digit(c),
        Class::Word => is_word(c),
        Class::Text => is_text(c),
        Class::Series => is_series(c),
    }
}

/// End of the longest run of `k` characters that starts at `i`.
pub open spec fn run_end(b: Seq<char>, i: int, k: Class) -> int
    decreases b.len() - i,
{
    if 0 <= i < b.len() && in_class(k, b[i]) {
        run_end(b, i + 1, k)
    } else {
        i
    }
}

/// Start of the longest run of whitespace that ends at `j` and starts no
/// earlier than `lo`.
pub open spec fn space_start(b: Seq<char>, lo: int, j: int) -> int
    decreases j - lo,
{
    if lo < j && 0 < j <= b.len() && is_space(b[j - 1]) {
        space_start(b, lo, j - 1)
    } else {
        j
    }
}

/// A cover year `\s+(dddd)` at `i`: the position after it.
pub open spec fn year_end(b: Seq<char>, i: int) -> Option<int> {
    let j = run_end(b, i, Class::Space);
    if j > i && j + 6 <= b.len() && b[j] == '(' && is_digit(b[j + 1]) && is_digit(b[j + 2])
        && is_digit(b[j + 3]) && is_digit(b[j + 4]) && b[j + 5] == ')' {
        Some(j + 6)
    } else {
        None
    }
}

/// One tag group `\s*(text+)` at `i`: the position after it.
pub open spec fn group_end(b: Seq<char>, i: int) -> Option<int> {
    let j = run_end(b, i, Class::Space);
    let k = run_end(b, j + 1, Class::Text);
    if j < b.len() && b[j] == '(' && k > j + 1 && k < b.len() && b[k] == ')' {
        Some(k + 1)
    } else {
        None
    }
}

/// Tag groups follow one another from `i` to the end of the body.
pub open spec fn groups_to_end(b: Seq<char>, i: int) -> bool
    decreases b.len() - i,
{
    if 0 <= i < b.len() {
        match group_end(b, i) {
            Some(e) => e == b.len() || (i < e && groups_to_end(b, e)),
            None => false,
        }
    } else {
        false
    }
}

/// The tag section `\s+` and one or more groups runs from `i` to the end.
pub open spec fn tags_at(b: Seq<char>, i: int) -> bool {
    0 <= i < b.len() && is_space(b[i]) && groups_to_end(b, i + 1)
}

/// The contents of the group that starts at `i` (ending at `e`), without
/// surrounding whitespace.
pub open spec fn group_content(b: Seq<char>, i: int, e: int) -> Seq<char> {
    let lead = run_end(b, run_end(b, i, Class::Space) + 1, Class::Space);
    b.subrange(lead, space_start(b, lead, e - 1))
}

/// The tags of the groups from `i` to the end, in order, trimmed, leaving
/// out those with nothing but whitespace.
pub open spec fn tag_values(b: Seq<char>, i: int) -> Seq<Seq<char>>
    decreases b.len() - i,
{
    if 0 <= i < b.len() {
        match group_end(b, i) {
            Some(e) => {
                let rest = if e < b.len() && e > i {
                    tag_values(b, e)
                } else {
                    Seq::empty()
                };
                let t = group_content(b, i, e);
                if t.len() == 0 {
                    rest
                } else {
                    seq![t] + rest
                }
            },
            None => Seq::empty(),
        }
    } else {
        Seq::empty()
    }
}

/// The year is taken at `i`: it matches, and tags or the end follow it.
pub open spec fn year_taken(b: Seq<char>, i: int) -> bool {
    match year_end(b, i) {
        Some(j) => j == b.len() || tags_at(b, j),
        None => false,
    }
}

/// `[year] [tags]` runs from `i` to the end of the body.
pub open spec fn tail_ok(b: Seq<char>, i: int) -> bool {
    i == b.len() || year_taken(b, i) || tags_at(b, i)
}

/// The tags that the tail at `i` yields.
pub open spec fn tail_tags(b: Seq<char>, i: int) -> Seq<Seq<char>> {
    if year_taken(b, i) {
        let j = year_end(b, i)->0;
        if j == b.len() {
            Seq::empty()
        } else {
            tag_values(b, j + 1)
        }
    } else if tags_at(b, i) {
        tag_values(b, i + 1)
    } else {
        Seq::empty()
    }
}

/// The first end `e`, from `e` up to the end of the text run at `q`, after
/// which the tail matches.
pub open spec fn title_end_from(b: Seq<char>, q: int, e: int) -> Option<int>
    decreases b.len() + 1 - e,
{
    if e > run_end(b, q, Class::Text) || e > b.len() {
        None
    } else if tail_ok(b, e) {
        Some(e)
    } else {
        title_end_from(b, q, e + 1)
    }
}

/// The title, as `(start, end)`, trying starts from `q` down to just after `p`.
pub open spec fn title_split(b: Seq<char>, p: int, q: int) -> Option<(int, int)>
    decreases q - p,
{
    if q <= p {
        None
    } else {
        match title_end_from(b, q, q + 1) {
            Some(e) => Some((q, e)),
            None => title_split(b, p, q - 1),
        }
    }
}

/// The title `\s+ text+?` at `p`, as `(start, end)`, if one is taken.
pub open spec fn title_at(b: Seq<char>, p: int) -> Option<(int, int)> {
    title_split(b, p, run_end(b, p, Class::Space))
}

/// `[title] [year] [tags]` runs from `p` to the end of the body.
pub open spec fn section_ok(b: Seq<char>, p: int) -> bool {
    title_at(b, p) is Some || tail_ok(b, p)
}

/// Where the tail starts in the section at `p`.
pub open spec fn section_tail(b: Seq<char>, p: int) -> int {
    match title_at(b, p) {
        Some(t) => t.1,
        None => p,
    }
}

/// The clause `\s+ (? of \s+ #? digits )?` at `p`: its digits as `(start,
/// end)` and the position after it.
pub open spec fn of_at(b: Seq<char>, p: int) -> Option<(int, int, int)> {
    let a = run_end(b, p, Class::Space);
    let a1 = if a < b.len() && b[a] == '(' {
        a + 1
    } else {
        a
    };
    let c = run_end(b, a1 + 2, Class::Space);
    let d = if c < b.len() && b[c] == '#' {
        c + 1
    } else {
        c
    };
    let e = run_end(b, d, Class::Digit);
    if a > p && a1 + 2 <= b.len() && (b[a1] == 'o' || b[a1] == 'O') && (b[a1 + 1] == 'f' || b[a1
        + 1] == 'F') && c > a1 + 2 && e > d {
        Some(
            (
                d,
                e,
                if e < b.len() && b[e] == ')' {
                    e + 1
                } else {
                    e
                },
            ),
        )
    } else {
        None
    }
}

/// The clause of `of_at` is taken: the section after it matches.
pub open spec fn of_taken(b: Seq<char>, p: int) -> bool {
    match of_at(b, p) {
        Some(o) => section_ok(b, o.2),
        None => false,
    }
}

/// The issue `\s+ #? digits word*` at `i`: its digits as `(start, end)` and
/// the end of the word run that follows them.
pub open spec fn issue_at(b: Seq<char>, i: int) -> Option<(int, int, int)> {
    let j = run_end(b, i, Class::Space);
    let k = if j < b.len() && b[j] == '#' {
        j + 1
    } else {
        j
    };
    let d = run_end(b, k, Class::Digit);
    if j > i && d > k {
        Some((k, d, run_end(b, d, Class::Word)))
    } else {
        None
    }
}

/// Where the section after the issue at `w` starts: after the `of` clause
/// when that is taken.
pub open spec fn section_start(b: Seq<char>, w: int) -> int {
    match of_at(b, w) {
        Some(o) if section_ok(b, o.2) => o.2,
        _ => w,
    }
}

/// The issue group is taken at `i`: it matches, and the rest matches after it.
pub open spec fn issue_taken(b: Seq<char>, i: int) -> bool {
    match issue_at(b, i) {
        Some(n) => of_taken(b, n.2) || section_ok(b, n.2),
        None => false,
    }
}

/// Everything after a series that ends at `i` matches.
pub open spec fn rest_ok(b: Seq<char>, i: int) -> bool {
    issue_taken(b, i) || tail_ok(b, i)
}

/// The first series end from `k` on, within the run of series characters.
pub open spec fn series_end_from(b: Seq<char>, k: int) -> Option<int>
    decreases b.len() + 1 - k,
{
    if k > run_end(b, 0, Class::Series) || k > b.len() {
        None
    } else if rest_ok(b, k) {
        Some(k)
    } else {
        series_end_from(b, k + 1)
    }
}

/// The end of the series: the shortest non-empty one after which the rest
/// of the grammar matches.
pub open spec fn series_end(b: Seq<char>) -> Option<int> {
    series_end_from(b, 1)
}


pub open spec fn pos(o: Option<usize>) -> Option<int> {
    match o {
        Some(x) => Some(x as int),
        None => None,
    }
}

pub proof fn lemma_run_end(b: Seq<char>, i: int, k: Class)
    requires
        0 <= i <= b.len(),
    ensures
        i <= run_end(b, i, k) <= b.len(),
        forall|j: int| i <= j < run_end(b, i, k) ==> in_class(k, #[trigger] b[j]),
        run_end(b, i, k) < b.len() ==> !in_class(k, b[run_end(b, i, k)]),
    decreases b.len() - i,
{
    if i < b.len() && in_class(k, b[i]) {
        lemma_run_end(b, i + 1, k);
    }
}

pub fn in_class_exec(k: Class, c: char) -> (r: bool)
    ensures
        r == in_class(k, c),
{
    match k {
        Class::Space => space(c),
        Class::Digit => digit(c),
        Class::Word => word(c),
        Class::Text => text(c),
        Class::Series => series(c),
    }
}

pub fn run_end_exec(b: &Vec<char>, i: usize, k: Class) -> (r: usize)
    requires
        i <= b.len(),
    ensures
        r as int == run_end(b@, i as int, k),
        i <= r <= b.len(),
{
    let mut j = i;
    while j < b.len() && in_class_exec(k, b[j])
        invariant
            i <= j <= b.len(),
            run_end(b@, i as int, k) == run_end(b@, j as int, k),
        decreases b.len() - j,
    {
        j = j + 1;
    }
    j
}

pub fn space_start_exec(b: &Vec<char>, lo: usize, j: usize) -> (r: usize)
    requires
        lo <= j <= b.len(),
    ensures
        r as int == space_start(b@, lo as int, j as int),
        lo <= r <= j,
{
    let mut m = j;
    while lo < m && space(b[m - 1])
        invariant
            lo <= m <= j,
            j <= b.len(),
            space_start(b@, lo as int, j as int) == space_start(b@, lo as int, m as int),
        decreases m,
    {
        m = m - 1;
    }
    m
}

pub fn year_end_exec(b: &Vec<char>, i: usize) -> (r: Option<usize>)
    requires
        i <= b.len(),
    ensures
        pos(r) == year_end(b@, i as int),
{
    let j = run_end_exec(b, i, Class::Space);
    if j > i && b.len() - j >= 6 && b[j] == '(' && digit(b[j + 1]) && digit(b[j + 2]) && digit(
        b[j + 3],
    ) && digit(b[j + 4]) && b[j + 5] == ')' {
        Some(j + 6)
    } else {
        None
    }
}

pub fn group_end_exec(b: &Vec<char>, i: usize) -> (r: Option<usize>)
    requires
        i <= b.len(),
    ensures
        pos(r) == group_end(b@, i as int),
        r matches Some(e) ==> i < e <= b.len(),
{
    let j = run_end_exec(b, i, Class::Space);
    if j < b.len() && b[j] == '(' {
        let k = run_end_exec(b, j + 1, Class::Text);
        if k > j + 1 && k < b.len() && b[k] == ')' {
            return Some(k + 1);
        }
    }
    None
}

pub fn groups_to_end_exec(b: &Vec<char>, i: usize) -> (r: bool)
    requires
        i <= b.len(),
    ensures
        r == groups_to_end(b@, i as int),
{
    let mut m = i;
    while m < b.len()
        invariant
            i <= m <= b.len(),
            groups_to_end(b@, i as int) == groups_to_end(b@, m as int),
        decreases b.len() - m,
    {
        match group_end_exec(b, m) {
            Some(e) => {
                if e == b.len() {
                    return true;
                }
                m = e;
            },
            None => {
                return false;
            },
        }
    }
    false
}

pub fn tags_at_exec(b: &Vec<char>, i: usize) -> (r: bool)
    requires
        i <= b.len(),
    ensures
        r == tags_at(b@, i as int),
{
    i < b.len() && space(b[i]) && groups_to_end_exec(b, i + 1)
}

pub fn year_taken_exec(b: &Vec<char>, i: usize) -> (r: bool)
    requires
        i <= b.len(),
    ensures
        r == year_taken(b@, i as int),
{
    match year_end_exec(b, i) {
        Some(j) => j == b.len() || tags_at_exec(b, j),
        None => false,
    }
}

pub fn tail_ok_exec(b: &Vec<char>, i: usize) -> (r: bool)
    requires
        i <= b.len(),
    ensures
        r == tail_ok(b@, i as int),
{
    i == b.len() || year_taken_exec(b, i) || tags_at_exec(b, i)
}

pub fn title_at_exec(b: &Vec<char>, p: usize) -> (r: Option<(usize, usize)>)
    requires
        p <= b.len(),
    ensures
        match r {
            Some(t) => title_at(b@, p as int) == Some((t.0 as int, t.1 as int)) && p < t.0 < t.1
                <= b.len(),
            None => title_at(b@, p as int) is None,
        },
{
    let mut q = run_end_exec(b, p, Class::Space);
    while q > p
        invariant
            p <= q <= b.len(),
            title_at(b@, p as int) == title_split(b@, p as int, q as int),
        decreases q,
    {
        let t = run_end_exec(b, q, Class::Text);
        let mut e = q;
        while e < t
            invariant
                p < q <= e,
                q <= t <= b.len(),
                t == run_end(b@, q as int, Class::Text),
                title_at(b@, p as int) == title_split(b@, p as int, q as int),
                title_end_from(b@, q as int, (q + 1) as int) == title_end_from(
                    b@,
                    q as int,
                    e + 1,
                ),
            decreases t - e,
        {
            e = e + 1;
            if tail_ok_exec(b, e) {
                return Some((q, e));
            }
        }
        q = q - 1;
    }
    None
}

pub fn section_ok_exec(b: &Vec<char>, p: usize) -> (r: bool)
    requires
        p <= b.len(),
    ensures
        r == section_ok(b@, p as int),
{
    title_at_exec(b, p).is_some() || tail_ok_exec(b, p)
}

pub fn of_at_exec(b: &Vec<char>, p: usize) -> (r: Option<(usize, usize, usize)>)
    requires
        p <= b.len(),
    ensures
        match r {
            Some(o) => of_at(b@, p as int) == Some((o.0 as int, o.1 as int, o.2 as int)) && p
                < o.0 < o.1 <= o.2 <= b.len(),
            None => of_at(b@, p as int) is None,
        },
{
    let a = run_end_exec(b, p, Class::Space);
    let a1 = if a < b.len() && b[a] == '(' {
        a + 1
    } else {
        a
    };
    if a > p && b.len() - a1 >= 2 && (b[a1] == 'o' || b[a1] == 'O') && (b[a1 + 1] == 'f' || b[a1
        + 1] == 'F') {
        let c = run_end_exec(b, a1 + 2, Class::Space);
        let d = if c < b.len() && b[c] == '#' {
            c + 1
        } else {
            c
        };
        let e = run_end_exec(b, d, Class::Digit);
        if c > a1 + 2 && e > d {
            let r = if e < b.len() && b[e] == ')' {
                e + 1
            } else {
                e
            };
            return Some((d, e, r));
        }
    }
    None
}

pub fn issue_at_exec(b: &Vec<char>, i: usize) -> (r: Option<(usize, usize, usize)>)
    requires
        i <= b.len(),
    ensures
        match r {
            Some(n) => issue_at(b@, i as int) == Some((n.0 as int, n.1 as int, n.2 as int)) && i
                < n.0 < n.1 <= n.2 <= b.len(),
            None => issue_at(b@, i as int) is None,
        },
{
    let j = run_end_exec(b, i, Class::Space);
    let k = if j < b.len() && b[j] == '#' {
        j + 1
    } else {
        j
    };
    let d = run_end_exec(b, k, Class::Digit);
    if j > i && d > k {
        Some((k, d, run_end_exec(b, d, Class::Word)))
    } else {
        None
    }
}

pub fn of_taken_exec(b: &Vec<char>, p: usize) -> (r: bool)
    requires
        p <= b.len(),
    ensures
        r == of_taken(b@, p as int),
{
    match of_at_exec(b, p) {
        Some(o) => section_ok_exec(b, o.2),
        None => false,
    }
}

pub fn issue_taken_exec(b: &Vec<char>, i: usize) -> (r: bool)
    requires
        i <= b.len(),
    ensures
        r == issue_taken(b@, i as int),
{
    match issue_at_exec(b, i) {
        Some(n) => of_taken_exec(b, n.2) || section_ok_exec(b, n.2),
        None => false,
    }
}

pub fn series_end_exec(b: &Vec<char>) -> (r: Option<usize>)
    ensures
        pos(r) == series_end(b@),
        r matches Some(k) ==> 1 <= k <= b.len(),
{
    let t = run_end_exec(b, 0, Class::Series);
    let mut k: usize = 1;
    while k <= t
        invariant
            1 <= k,
            t <= b.len(),
            t == run_end(b@, 0, Class::Series),
            series_end(b@) == series_end_from(b@, k as int),
        decreases t + 1 - k,
    {
        if issue_taken_exec(b, k) || tail_ok_exec(b, k) {
            return Some(k);
        }
        k = k + 1;
    }
    None
}

} // verus!

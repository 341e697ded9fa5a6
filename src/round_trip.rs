//! Reading a canonical name back.
use vstd::prelude::*;
use crate::chars::{is_ascii_digit, is_digit, is_series, is_space, is_text, is_word};
use crate::format::{format_of, format_text, Format};
use crate::grammar::{
    group_content, group_end, groups_to_end, in_class, issue_at, issue_taken, lemma_run_end, of_at,
    of_taken, rest_ok, run_end, section_ok, section_start, section_tail, series_end,
    series_end_from, tag_values, tags_at, tail_ok, tail_tags, title_at, title_end_from,
    title_split, year_end, year_taken, Class,
};
use crate::meta::{
    body_fields, decimal, lemma_read_ascii, digit_char, digit_value, digits_value, head_text, issue_number, issue_of,
    issue_suffix, issue_tail, issue_title, number_text, number_read, of_text, opt_text, opt_value,
    padded, parse_name, render_text, tags_text, year_digits, year_text, IntError, MetaError, MetaView,
};

verus! {

proof fn lemma_run_end_to(b: Seq<char>, i: int, j: int, k: Class)
    requires
        0 <= i <= j <= b.len(),
        forall|t: int| i <= t < j ==> in_class(k, #[trigger] b[t]),
        j == b.len() || !in_class(k, b[j]),
    ensures
        run_end(b, i, k) == j,
    decreases j - i,
{
    if i < j {
        lemma_run_end_to(b, i + 1, j, k);
    }
}

proof fn lemma_run_end_past(b: Seq<char>, i: int, j: int, k: Class)
    requires
        0 <= i <= j <= b.len(),
        forall|t: int| i <= t < j ==> in_class(k, #[trigger] b[t]),
    ensures
        j <= run_end(b, i, k),
    decreases j - i,
{
    lemma_run_end(b, i, k);
    if i < j {
        assert(in_class(k, b[i]));
        lemma_run_end_past(b, i + 1, j, k);
    }
}

proof fn lemma_format_text(f: Format)
    ensures
        format_of(format_text(f)) == Some(f),
{
}

proof fn lemma_digit_char(d: nat)
    ensures
        is_ascii_digit(digit_char(d)),
        digit_value(digit_char(d)) == d % 10,
{
    let s = seq!['0', '1', '2', '3', '4', '5', '6', '7', '8', '9'];
    assert(s[0] == '0' && s[1] == '1' && s[2] == '2' && s[3] == '3' && s[4] == '4');
    assert(s[5] == '5' && s[6] == '6' && s[7] == '7' && s[8] == '8' && s[9] == '9');
}

proof fn lemma_decimal(n: nat)
    ensures
        decimal(n).len() >= 1,
        forall|i: int| 0 <= i < decimal(n).len() ==> is_ascii_digit(#[trigger] decimal(n)[i]),
        digits_value(decimal(n)) == n,
        n < 10 ==> decimal(n).len() == 1,
        10 <= n < 100 ==> decimal(n).len() == 2,
        100 <= n < 1000 ==> decimal(n).len() == 3,
        1000 <= n < 10000 ==> decimal(n).len() == 4,
    decreases n,
{
    lemma_digit_char(n);
    if n < 10 {
        assert(seq![digit_char(n)].drop_last() =~= Seq::<char>::empty());
        assert(digits_value(Seq::<char>::empty()) == 0);
    } else {
        lemma_decimal(n / 10);
        let d = decimal(n / 10) + seq![digit_char(n % 10)];
        lemma_digit_char(n % 10);
        assert(d.drop_last() =~= decimal(n / 10));
        assert(d.last() == digit_char(n % 10));
        assert((n / 10) * 10 + n % 10 == n) by (nonlinear_arith);
        assert(digits_value(d) == n);
        assert forall|i: int| 0 <= i < d.len() implies is_ascii_digit(#[trigger] d[i]) by {
            if i < decimal(n / 10).len() {
                assert(d[i] == decimal(n / 10)[i]);
            }
        }
    }
}

proof fn lemma_leading_zero(d: Seq<char>)
    ensures
        digits_value(seq!['0'] + d) == digits_value(d),
    decreases d.len(),
{
    if d.len() == 0 {
        assert((seq!['0'] + d).drop_last() =~= Seq::<char>::empty());
        assert(digits_value(Seq::<char>::empty()) == 0);
        assert((seq!['0'] + d).last() == '0');
    } else {
        lemma_leading_zero(d.drop_last());
        assert((seq!['0'] + d).drop_last() =~= seq!['0'] + d.drop_last());
        assert((seq!['0'] + d).last() == d.last());
    }
}

proof fn lemma_padded(n: nat)
    ensures
        padded(n).len() >= 1,
        forall|i: int| 0 <= i < padded(n).len() ==> is_ascii_digit(#[trigger] padded(n)[i]),
        digits_value(padded(n)) == n,
{
    lemma_decimal(n);
    let d = decimal(n);
    if n < 10 {
        lemma_leading_zero(d);
        lemma_leading_zero(seq!['0'] + d);
        assert(seq!['0', '0'] + d =~= seq!['0'] + (seq!['0'] + d));
        assert forall|i: int| 0 <= i < padded(n).len() implies is_ascii_digit(#[trigger] padded(n)[i]) by {
            if i >= 2 {
                assert(padded(n)[i] == d[i - 2]);
            }
        }
    } else if n < 100 {
        lemma_leading_zero(d);
        assert forall|i: int| 0 <= i < padded(n).len() implies is_ascii_digit(#[trigger] padded(n)[i]) by {
            if i >= 1 {
                assert(padded(n)[i] == d[i - 1]);
            }
        }
    }
}

/// Where whitespace inside a series gives way to another character, that
/// character starts neither a number nor a parenthesized group.
pub open spec fn no_early_issue(b: Seq<char>, ls: int) -> bool {
    forall|j: int|
        0 < j < ls && is_space(b[j - 1]) && !is_space(#[trigger] b[j]) ==> !is_digit(b[j]) && b[j]
            != '(' && !(b[j] == '#' && j + 1 < b.len() && is_digit(b[j + 1]))
}

proof fn lemma_series_from(b: Seq<char>, k: int, ls: int)
    requires
        1 <= k <= ls <= b.len(),
        forall|t: int| 0 <= t < ls ==> is_series(#[trigger] b[t]),
        !is_space(b[ls - 1]),
        no_early_issue(b, ls),
        rest_ok(b, ls),
    ensures
        series_end_from(b, k) == Some(ls),
    decreases ls - k,
{
    lemma_run_end_past(b, 0, ls, Class::Series);
    if k < ls {
        lemma_run_end(b, k, Class::Space);
        let j = run_end(b, k, Class::Space);
        if is_space(b[k]) {
            if j >= ls {
                assert(in_class(Class::Space, b[ls - 1]));
            }
            assert(in_class(Class::Space, b[j - 1]));
            assert(!is_space(b[j]));
            assert(!is_digit(b[j]) && b[j] != '(');
            if b[j] == '#' {
                lemma_run_end(b, j + 1, Class::Digit);
                if j + 1 < b.len() {
                    assert(!is_digit(b[j + 1]));
                }
                assert(run_end(b, j + 1, Class::Digit) == j + 1);
            } else {
                lemma_run_end_to(b, j, j, Class::Digit);
            }
            assert(issue_at(b, k) is None);
            assert(year_end(b, k) is None);
            lemma_run_end_to(b, k + 1, j, Class::Space);
            assert(group_end(b, k + 1) is None);
            assert(!tags_at(b, k));
        } else {
            assert(j == k);
            assert(issue_at(b, k) is None);
        }
        assert(!rest_ok(b, k));
        lemma_series_from(b, k + 1, ls);
    }
}

/// A series that reads back as itself: series characters, not ending with
/// whitespace, and where whitespace inside it gives way to another
/// character, that character is not a digit, not `(` and not `#` before a
/// digit.
pub open spec fn plain_series(s: Seq<char>) -> bool {
    &&& s.len() > 0
    &&& forall|i: int| 0 <= i < s.len() ==> is_series(#[trigger] s[i])
    &&& !is_space(s.last())
    &&& forall|j: int|
        0 < j < s.len() && is_space(s[j - 1]) && !is_space(#[trigger] s[j]) ==> !is_digit(s[j])
            && s[j] != '(' && !(s[j] == '#' && j + 1 < s.len() && is_digit(s[j + 1]))
}

/// A tag that reads back as itself: text characters, neither starting nor
/// ending with whitespace.
pub open spec fn plain_tag(t: Seq<char>) -> bool {
    &&& t.len() > 0
    &&& forall|i: int| 0 <= i < t.len() ==> is_text(#[trigger] t[i])
    &&& !is_space(t[0])
    &&& !is_space(t.last())
}

proof fn lemma_tags_text_first(ts: Seq<Seq<char>>)
    requires
        ts.len() >= 1,
    ensures
        tags_text(ts) == seq![' ', '('] + ts[0] + seq![')'] + tags_text(
            ts.subrange(1, ts.len() as int),
        ),
    decreases ts.len(),
{
    let rest = ts.subrange(1, ts.len() as int);
    if ts.len() > 1 {
        lemma_tags_text_first(ts.drop_last());
        assert(ts.drop_last().subrange(1, ts.len() - 1) =~= rest.drop_last());
        assert(rest.last() == ts.last());
        assert(tags_text(rest) == tags_text(rest.drop_last()) + seq![' ', '('] + rest.last() + seq![')']);
        assert(tags_text(ts) =~= seq![' ', '('] + ts[0] + seq![')'] + tags_text(rest));
    } else {
        assert(ts.drop_last() =~= Seq::<Seq<char>>::empty());
        assert(rest =~= Seq::<Seq<char>>::empty());
        assert(tags_text(ts) =~= seq![' ', '('] + ts[0] + seq![')'] + tags_text(rest));
    }
}

proof fn lemma_groups(b: Seq<char>, e: int, ts: Seq<Seq<char>>)
    requires
        0 <= e <= b.len(),
        ts.len() >= 1,
        forall|j: int| 0 <= j < ts.len() ==> plain_tag(#[trigger] ts[j]),
        b.subrange(e, b.len() as int) == tags_text(ts),
    ensures
        group_end(b, e) == group_end(b, e + 1),
        group_end(b, e) == Some(e + ts[0].len() + 3),
        groups_to_end(b, e),
        groups_to_end(b, e + 1),
        tag_values(b, e) == ts,
        tag_values(b, e + 1) == ts,
    decreases ts.len(),
{
    let t = ts[0];
    let rest = ts.subrange(1, ts.len() as int);
    lemma_tags_text_first(ts);
    let next = e + t.len() + 3;
    let tail = b.subrange(e, b.len() as int);
    assert(plain_tag(t));
    assert(tail[0] == ' ');
    assert(tail[1] == '(');
    assert(tail[t.len() + 2int] == ')');
    assert(tail.len() == t.len() + 3 + tags_text(rest).len());
    assert(b[e] == tail[0]);
    assert(b[e + 1] == tail[1]);
    assert(b[next - 1] == tail[t.len() + 2int]);
    assert forall|i: int| e + 2 <= i < next - 1 implies in_class(Class::Text, #[trigger] b[i]) by {
        assert(b[i] == tail[i - e]);
        assert(tail[i - e] == t[i - e - 2]);
    }
    assert(b[e + 2] == tail[2int]);
    assert(tail[2int] == t[0]);
    assert(b[next - 2] == tail[t.len() + 1int]);
    assert(tail[t.len() + 1int] == t[t.len() - 1]);
    lemma_run_end_to(b, e, e + 1, Class::Space);
    lemma_run_end_to(b, e + 1, e + 1, Class::Space);
    lemma_run_end_to(b, e + 2, next - 1, Class::Text);
    lemma_run_end_to(b, e + 2, e + 2, Class::Space);
    let pre = seq![' ', '('] + t + seq![')'];
    assert(tail == pre + tags_text(rest));
    assert forall|i: int| 0 <= i < t.len() implies #[trigger] b.subrange(e + 2, next - 1)[i] == t[i] by {
        assert(b[e + 2 + i] == tail[2 + i]);
        assert(tail[2 + i] == pre[2 + i]);
    }
    assert(b.subrange(e + 2, next - 1) =~= t);
    assert(group_content(b, e, next) == t);
    assert(group_content(b, e + 1, next) == t);
    if rest.len() == 0 {
        assert(tags_text(rest) =~= Seq::<char>::empty());
        assert(next == b.len());
        assert(tag_values(b, e) =~= ts);
        assert(tag_values(b, e + 1) =~= ts);
    } else {
        assert forall|i: int| 0 <= i < tags_text(rest).len() implies #[trigger] b.subrange(
            next,
            b.len() as int,
        )[i] == tags_text(rest)[i] by {
            assert(b[next + i] == tail[t.len() + 3 + i]);
            assert(tail[t.len() + 3 + i] == tags_text(rest)[i]);
        }
        assert(b.subrange(next, b.len() as int) =~= tags_text(rest));
        assert forall|j: int| 0 <= j < rest.len() implies plain_tag(#[trigger] rest[j]) by {
            assert(rest[j] == ts[j + 1]);
        }
        lemma_groups(b, next, rest);
        assert(tag_values(b, e) =~= ts);
        assert(tag_values(b, e + 1) =~= ts);
    }
}

proof fn lemma_parse_body(b: Seq<char>, f: Format)
    ensures
        parse_name(b + seq!['.'] + format_text(f)) == (match series_end(b) {
            Some(k) => body_fields(b, k, f),
            None => Err(MetaError::GetCaptures),
        }),
{
    let r = b + seq!['.'] + format_text(f);
    let n = r.len() as int;
    assert(r.subrange(n - 3, n) =~= format_text(f));
    lemma_format_text(f);
    assert(r.subrange(0, n - 4) =~= b);
    assert(r[n - 4] == '.');
}

/// `t` is four decimal digits, as a cover year is.
pub open spec fn year_like(t: Seq<char>) -> bool {
    t.len() == 4 && forall|i: int| 0 <= i < 4 ==> is_digit(#[trigger] t[i])
}

/// `t` starts with `of`, in either case, as a count in parentheses does.
pub open spec fn count_like(t: Seq<char>) -> bool {
    t.len() >= 2 && (t[0] == 'o' || t[0] == 'O') && (t[1] == 'f' || t[1] == 'F')
}

/// From `w` the body holds ` (dddd)` where there is a year, then the tags.
pub open spec fn tail_shape(b: Seq<char>, w: int, has_year: bool, ts: Seq<Seq<char>>) -> bool {
    let v = if has_year {
        w + 7
    } else {
        w
    };
    &&& 0 <= w <= v <= b.len()
    &&& has_year ==> (b[w] == ' ' && b[w + 1] == '(' && is_ascii_digit(b[w + 2]) && is_ascii_digit(
        b[w + 3],
    ) && is_ascii_digit(b[w + 4]) && is_ascii_digit(b[w + 5]) && b[w + 6] == ')')
    &&& b.subrange(v, b.len() as int) == tags_text(ts)
    &&& forall|j: int| 0 <= j < ts.len() ==> plain_tag(#[trigger] ts[j])
    &&& (ts.len() > 0 && !has_year) ==> !year_like(ts[0]) && !count_like(ts[0])
}

proof fn lemma_tail(b: Seq<char>, w: int, has_year: bool, ts: Seq<Seq<char>>)
    requires
        tail_shape(b, w, has_year, ts),
    ensures
        w < b.len() ==> b[w] == ' ' && b[w + 1] == '(',
        w == b.len() <==> (!has_year && ts.len() == 0),
        tail_ok(b, w),
        title_at(b, w) is None,
        of_at(b, w) is None,
        !of_taken(b, w),
        section_ok(b, w),
        tail_tags(b, w) == ts,
        has_year ==> year_taken(b, w) && year_end(b, w) == Some(w + 7),
        !has_year ==> !year_taken(b, w),
{
    let v = if has_year {
        w + 7
    } else {
        w
    };
    if ts.len() > 0 {
        lemma_groups(b, v, ts);
        lemma_tags_text_first(ts);
        let t = ts[0];
        assert(plain_tag(t));
        let tail = b.subrange(v, b.len() as int);
        let pre = seq![' ', '('] + t + seq![')'];
        assert(tail == pre + tags_text(ts.subrange(1, ts.len() as int)));
        assert(b[v] == tail[0] && tail[0] == ' ');
        assert(b[v + 1] == tail[1] && tail[1] == '(');
        assert(b[v + 2] == tail[2int] && tail[2int] == t[0]);
        if !has_year {
            if t.len() >= 2 {
                assert(b[v + 3] == tail[3int] && tail[3int] == t[1]);
            } else {
                assert(b[v + 3] == tail[3int] && tail[3int] == ')');
            }
            if b.len() >= v + 7 && is_digit(b[v + 2]) && is_digit(b[v + 3]) && is_digit(b[v + 4])
                && is_digit(b[v + 5]) && b[v + 6] == ')' {
                assert forall|i: int| 0 <= i < t.len() implies #[trigger] t[i] != ')' by {
                    assert(is_text(t[i]));
                }
                if t.len() < 4 {
                    assert(b[v + 2 + t.len()] == tail[2int + t.len()]);
                    assert(tail[2int + t.len()] == ')');
                } else {
                    assert(b[v + 6] == tail[6int]);
                    if t.len() > 4 {
                        assert(tail[6int] == t[4]);
                    } else {
                        assert forall|i: int| 0 <= i < 4 implies is_digit(#[trigger] t[i]) by {
                            assert(b[v + 2 + i] == tail[2 + i]);
                            assert(tail[2 + i] == t[i]);
                        }
                        assert(year_like(t));
                    }
                }
            }
        }
    } else {
        assert(tags_text(ts) =~= Seq::<char>::empty());
        assert(v == b.len());
    }
    if w < b.len() {
        lemma_run_end_to(b, w, w + 1, Class::Space);
        lemma_run_end_to(b, w + 1, w + 1, Class::Text);
        assert(title_end_from(b, w + 1, w + 2) is None);
        assert(title_split(b, w, w) is None);
        assert(title_split(b, w, w + 1) is None);
        if has_year {
            lemma_run_end_to(b, w + 2, w + 2, Class::Space);
            assert(year_end(b, w) == Some(w + 7));
            if v < b.len() {
                assert(tags_at(b, v));
            }
        } else {
            assert(year_end(b, w) is None);
            assert(tags_at(b, w));
        }
    } else {
        lemma_run_end_to(b, w, w, Class::Space);
    }
}

proof fn lemma_title_search(b: Seq<char>, q: int, e: int, u: int)
    requires
        0 < q < e <= u <= b.len(),
        forall|i: int| q <= i < u ==> is_text(#[trigger] b[i]) && b[i] != '(',
        !is_space(b[u - 1]),
        tail_ok(b, u),
        u <= run_end(b, q, Class::Text),
    ensures
        title_end_from(b, q, e) == Some(u),
    decreases u - e,
{
    if e < u {
        lemma_run_end(b, e, Class::Space);
        let j = run_end(b, e, Class::Space);
        if j >= u {
            assert(in_class(Class::Space, b[u - 1]));
        }
        assert(year_end(b, e) is None);
        if is_space(b[e]) {
            lemma_run_end(b, e + 1, Class::Space);
            let j2 = run_end(b, e + 1, Class::Space);
            if j2 >= u {
                assert(in_class(Class::Space, b[u - 1]));
            }
            assert(group_end(b, e + 1) is None);
        }
        assert(!tail_ok(b, e));
        lemma_title_search(b, q, e + 1, u);
    }
}

/// A title that reads back as itself: a tag that does not start with `of`.
pub open spec fn plain_title(t: Seq<char>) -> bool {
    plain_tag(t) && !count_like(t)
}

/// From `p` the body holds ` title` where there is one, then the tail.
proof fn lemma_section(
    b: Seq<char>,
    p: int,
    title: Option<Seq<char>>,
    u: int,
    has_year: bool,
    ts: Seq<Seq<char>>,
)
    requires
        0 <= p <= u,
        title matches Some(t) ==> (plain_title(t) && u == p + 1 + t.len() && b[p] == ' '
            && b.subrange(p + 1, u) == t),
        title is None ==> u == p,
        tail_shape(b, u, has_year, ts),
    ensures
        p < b.len() ==> b[p] == ' ',
        section_ok(b, p),
        !of_taken(b, p),
        title_at(b, p) == (match title {
            Some(t) => Some((p + 1, u)),
            None => None::<(int, int)>,
        }),
        section_tail(b, p) == u,
        title matches Some(t) ==> b.subrange(p + 1, u) == t,
{
    lemma_tail(b, u, has_year, ts);
    match title {
        Some(t) => {
            let q = p + 1;
            assert forall|i: int| q <= i < u implies is_text(#[trigger] b[i]) && b[i] != '(' by {
                assert(b[i] == b.subrange(q, u)[i - q]);
                assert(is_text(t[i - q]));
            }
            assert(b[q] == t[0]);
            assert(b[u - 1] == t[t.len() - 1]);
            lemma_run_end_to(b, p, q, Class::Space);
            lemma_run_end_past(b, q, u, Class::Text);
            lemma_title_search(b, q, q + 1, u);
            assert(title_split(b, p, q) == Some((q, u)));
            // No count clause: the title does not start with `of`.
            if t.len() >= 2 {
                assert(b[q + 1] == t[1]);
            } else if u < b.len() {
                assert(b[q + 1] == ' ');
            }
            assert(of_at(b, p) is None);
        },
        None => {},
    }
}

/// From `w` the body holds ` of n`, then a section that matches.
proof fn lemma_count(b: Seq<char>, w: int, c: nat, r: int)
    requires
        0 <= w,
        r == w + 4 + decimal(c).len(),
        r <= b.len(),
        b.subrange(w, r) == seq![' ', 'o', 'f', ' '] + decimal(c),
        r < b.len() ==> b[r] == ' ',
        section_ok(b, r),
    ensures
        of_at(b, w) == Some((w + 4, r, r)),
        of_taken(b, w),
        c <= usize::MAX ==> number_read(b.subrange(w + 4, r)) == Ok::<usize, IntError>(c as usize),
{
    lemma_decimal(c);
    let o = b.subrange(w, r);
    assert(b[w] == o[0] && b[w + 1] == o[1] && b[w + 2] == o[2] && b[w + 3] == o[3]);
    assert forall|i: int| w + 4 <= i < r implies in_class(Class::Digit, #[trigger] b[i]) by {
        assert(b[i] == o[i - w]);
        assert(o[i - w] == decimal(c)[i - w - 4]);
    }
    lemma_run_end_to(b, w, w + 1, Class::Space);
    assert(b[w + 4] == o[4int] && o[4int] == decimal(c)[0]);
    lemma_run_end_to(b, w + 3, w + 4, Class::Space);
    lemma_run_end_to(b, w + 4, r, Class::Digit);
    assert forall|i: int| 0 <= i < decimal(c).len() implies #[trigger] b.subrange(w + 4, r)[i]
        == decimal(c)[i] by {
        assert(b[w + 4 + i] == o[4 + i]);
    }
    assert(b.subrange(w + 4, r) =~= decimal(c));
    if c <= usize::MAX {
        lemma_read_ascii(decimal(c));
    }
}

/// A suffix that reads back as itself: word characters, not starting with
/// a digit.
pub open spec fn plain_suffix(x: Seq<char>) -> bool {
    &&& x.len() > 0
    &&& forall|i: int| 0 <= i < x.len() ==> is_word(#[trigger] x[i])
    &&& !is_digit(x[0])
}

/// The positions of a canonical body: the series ends at `ls`, the digits
/// of the number at `d`, the suffix at `w`, the count at `r` and the title at
/// `u`; then come the year and the tags.
pub open spec fn body_shape(
    b: Seq<char>,
    m: MetaView,
    ls: int,
    d: int,
    w: int,
    r: int,
    u: int,
) -> bool {
    &&& 1 <= ls <= d <= w <= r <= u <= b.len()
    &&& ls == m.series.len()
    &&& b.subrange(0, ls) == m.series
    &&& m.number matches Some(v) ==> (ls + 2 <= d && b[ls] == ' ' && b.subrange(ls + 1, d) == padded(
        v as nat,
    ))
    &&& m.number is None ==> d == ls
    &&& m.suffix matches Some(x) ==> (w == d + x.len() && b.subrange(d, w) == x)
    &&& m.suffix is None ==> w == d
    &&& m.of matches Some(c) ==> (r == w + 4 + decimal(c as nat).len() && b.subrange(w, r) == seq![
        ' ',
        'o',
        'f',
        ' ',
    ] + decimal(c as nat))
    &&& m.of is None ==> r == w
    &&& m.title matches Some(t) ==> (u == r + 1 + t.len() && b[r] == ' ' && b.subrange(r + 1, u)
        == t)
    &&& m.title is None ==> u == r
    &&& tail_shape(b, u, m.year is Some, m.tags)
    &&& m.year matches Some(y) ==> b.subrange(u + 2, u + 6) == decimal(y as nat)
}

/// In a canonical body the series ends at `ls`, and the issue, the count
/// and the title are found where they were put.
#[verifier::rlimit(50)]
proof fn lemma_canonical_issue(b: Seq<char>, m: MetaView, ls: int, d: int, w: int, r: int, u: int)
    requires
        canonical_record(m),
        body_shape(b, m, ls, d, w, r, u),
    ensures
        series_end(b) == Some(ls),
        issue_taken(b, ls) <==> m.number is Some,
        m.number matches Some(v) ==> issue_at(b, ls) == Some((ls + 1, d, w)) && number_read(
            b.subrange(ls + 1, d),
        ) == Ok::<usize, IntError>(v) && section_start(b, w) == r,
        m.of matches Some(c) ==> of_taken(b, w) && of_at(b, w) == Some((w + 4, r, r))
            && number_read(b.subrange(w + 4, r)) == Ok::<usize, IntError>(c),
        m.of is None ==> !of_taken(b, w),
        title_at(b, r) == (match m.title {
            Some(t) => Some((r + 1, u)),
            None => None::<(int, int)>,
        }),
        section_tail(b, r) == u,
        m.title matches Some(t) ==> b.subrange(r + 1, u) == t,
{
    assert forall|t: int| 0 <= t < ls implies is_series(#[trigger] b[t]) by {
        assert(b[t] == b.subrange(0, ls)[t]);
    }
    assert(b[ls - 1] == m.series.last());
    lemma_section(b, r, m.title, u, m.year is Some, m.tags);
    lemma_tail(b, u, m.year is Some, m.tags);
    assert(ls < b.len() ==> b[ls] == ' ');
    assert forall|j: int|
        0 < j < ls && is_space(b[j - 1]) && !is_space(#[trigger] b[j]) implies !is_digit(b[j])
            && b[j] != '(' && !(b[j] == '#' && j + 1 < b.len() && is_digit(b[j + 1])) by {
        assert(b[j] == m.series[j]);
        assert(b[j - 1] == m.series[j - 1]);
        if j + 1 < ls {
            assert(b[j + 1] == m.series[j + 1]);
        }
    }
    assert(no_early_issue(b, ls));
    // The count clause.
    match m.of {
        Some(c) => {
            lemma_count(b, w, c as nat, r);
        },
        None => {},
    }
    assert(w < b.len() ==> b[w] == ' ') by {
        match m.of {
            Some(c) => {
                assert(b[w] == b.subrange(w, r)[0]);
            },
            None => {},
        }
    }
    // The number and its suffix.
    match m.number {
        Some(v) => {
            lemma_padded(v as nat);
            assert forall|t: int| ls + 1 <= t < d implies in_class(Class::Digit, #[trigger] b[t]) by {
                assert(b[t] == b.subrange(ls + 1, d)[t - ls - 1]);
            }
            match m.suffix {
                Some(x) => {
                    assert forall|t: int| d <= t < w implies in_class(Class::Word, #[trigger] b[t]) by {
                        assert(b[t] == b.subrange(d, w)[t - d]);
                    }
                    assert(b[d] == b.subrange(d, w)[0]);
                },
                None => {},
            }
            assert(b[ls + 1] == b.subrange(ls + 1, d)[0]);
            lemma_run_end_to(b, ls, ls + 1, Class::Space);
            lemma_run_end_to(b, ls + 1, d, Class::Digit);
            lemma_run_end_to(b, d, w, Class::Word);
            assert(issue_at(b, ls) == Some((ls + 1, d, w)));
            lemma_read_ascii(padded(v as nat));
            assert(number_read(padded(v as nat)) == Ok::<usize, IntError>(v));
            assert(issue_taken(b, ls));
            assert(section_start(b, w) == r);
        },
        None => {
            lemma_tail(b, u, m.year is Some, m.tags);
            if ls < b.len() {
                lemma_run_end_to(b, ls, ls + 1, Class::Space);
                lemma_run_end_to(b, ls + 1, ls + 1, Class::Digit);
            } else {
                lemma_run_end_to(b, ls, ls, Class::Space);
            }
            assert(issue_at(b, ls) is None);
        },
    }
    assert(rest_ok(b, ls));
    lemma_series_from(b, 1, ls);
}

/// A canonical body reads back as the fields it was made of.
#[verifier::rlimit(50)]
proof fn lemma_canonical_body(b: Seq<char>, m: MetaView, ls: int, d: int, w: int, r: int, u: int)
    requires
        canonical_record(m),
        body_shape(b, m, ls, d, w, r, u),
    ensures
        body_fields(b, ls, m.format) == Ok::<MetaView, MetaError>(m),
        series_end(b) == Some(ls),
{
    lemma_canonical_issue(b, m, ls, d, w, r, u);
    lemma_tail(b, u, m.year is Some, m.tags);
    let yd = year_digits(b, u);
    match m.year {
        Some(y) => {
            lemma_decimal(y as nat);
            assert(yd == Some(b.subrange(u + 2, u + 6)));
            lemma_read_ascii(decimal(y as nat));
            assert(opt_value(yd) == Ok::<Option<usize>, IntError>(Some(y)));
        },
        None => {
            assert(yd is None);
        },
    }
    match m.number {
        Some(v) => {
            assert(issue_tail(b, ls) == u);
            assert(opt_value(Some(issue_number(b, ls))) == Ok::<Option<usize>, IntError>(Some(v)));
            match m.of {
                Some(c) => {
                    assert(issue_of(b, ls) == Some(b.subrange(w + 4, r)));
                    assert(opt_value(issue_of(b, ls)) == Ok::<Option<usize>, IntError>(Some(c)));
                },
                None => {
                    assert(issue_of(b, ls) is None);
                },
            }
            assert(issue_suffix(b, ls) == m.suffix);
            assert(issue_title(b, ls) == m.title);
        },
        None => {},
    }
}

/// A record whose canonical name reads back as the same record: a series
/// as `plain_series` has it; a suffix, count and title only with a number; a
/// suffix of word characters that does not start with a digit; a title and
/// tags of text characters that neither start nor end with whitespace; a
/// title that does not start with `of`; a four-digit year. Where there is
/// no year, the first tag is not four digits and does not start with `of`.
pub open spec fn canonical_record(m: MetaView) -> bool {
    &&& plain_series(m.series)
    &&& m.wf()
    &&& m.suffix matches Some(x) ==> plain_suffix(x)
    &&& m.title matches Some(t) ==> plain_title(t)
    &&& m.year matches Some(y) ==> 1000 <= y <= 9999
    &&& forall|j: int| 0 <= j < m.tags.len() ==> plain_tag(#[trigger] m.tags[j])
    &&& (m.tags.len() > 0 && m.year is None) ==> !year_like(m.tags[0]) && !count_like(m.tags[0])
}

/// The canonical name of a record without its extension.
pub open spec fn canonical_body(m: MetaView) -> Seq<char> {
    m.series + number_text(m.number) + opt_text(Seq::empty(), m.suffix) + of_text(m.of) + opt_text(
        seq![' '],
        m.title,
    ) + year_text(m.year) + tags_text(m.tags)
}

proof fn lemma_shape_head(m: MetaView, b: Seq<char>, ls: int, d: int, w: int)
    requires
        canonical_record(m),
        b == canonical_body(m),
        ls == m.series.len(),
        d == ls + number_text(m.number).len(),
        w == d + opt_text(Seq::empty(), m.suffix).len(),
    ensures
        b.subrange(0, ls) == m.series,
        m.number matches Some(v) ==> (ls + 2 <= d && b[ls] == ' ' && b.subrange(ls + 1, d)
            == padded(v as nat)),
        m.suffix matches Some(x) ==> (w == d + x.len() && b.subrange(d, w) == x),
{
    let nt = number_text(m.number);
    assert(b.subrange(0, ls) =~= m.series);
    match m.number {
        Some(v) => {
            lemma_padded(v as nat);
            assert(nt =~= seq![' '] + padded(v as nat));
            assert(b[ls] == nt[0]);
            assert(b.subrange(ls + 1, d) =~= padded(v as nat));
        },
        None => {},
    }
    match m.suffix {
        Some(x) => {
            assert(b.subrange(d, w) =~= x);
        },
        None => {},
    }
}

proof fn lemma_shape_middle(m: MetaView, b: Seq<char>, w: int, r: int, u: int)
    requires
        canonical_record(m),
        b == canonical_body(m),
        w == m.series.len() + number_text(m.number).len() + opt_text(Seq::empty(), m.suffix).len(),
        r == w + of_text(m.of).len(),
        u == r + opt_text(seq![' '], m.title).len(),
    ensures
        m.of matches Some(c) ==> (r == w + 4 + decimal(c as nat).len() && b.subrange(w, r) == seq![
            ' ',
            'o',
            'f',
            ' ',
        ] + decimal(c as nat)),
        m.title matches Some(t) ==> (u == r + 1 + t.len() && b[r] == ' ' && b.subrange(r + 1, u)
            == t),
{
    match m.of {
        Some(c) => {
            assert(b.subrange(w, r) =~= of_text(m.of));
        },
        None => {},
    }
    match m.title {
        Some(t) => {
            let ti = opt_text(seq![' '], m.title);
            assert(b[r] == ti[0]);
            assert(b.subrange(r + 1, u) =~= t);
        },
        None => {},
    }
}

proof fn lemma_shape_tail(m: MetaView, b: Seq<char>, u: int)
    requires
        canonical_record(m),
        b == canonical_body(m),
        u == m.series.len() + number_text(m.number).len() + opt_text(Seq::empty(), m.suffix).len()
            + of_text(m.of).len() + opt_text(seq![' '], m.title).len(),
    ensures
        tail_shape(b, u, m.year is Some, m.tags),
        m.year matches Some(y) ==> b.subrange(u + 2, u + 6) == decimal(y as nat),
{
    let yt = year_text(m.year);
    let tt = tags_text(m.tags);
    match m.year {
        Some(y) => {
            lemma_decimal(y as nat);
            assert(yt =~= seq![' ', '('] + decimal(y as nat) + seq![')']);
            assert(b.subrange(u, u + 7) =~= yt);
            assert(b.subrange(u + 2, u + 6) =~= decimal(y as nat));
            assert(b[u] == yt[0] && b[u + 1] == yt[1] && b[u + 6] == yt[6]);
            assert(b[u + 2] == yt[2] && b[u + 3] == yt[3] && b[u + 4] == yt[4] && b[u + 5] == yt[5]);
        },
        None => {
            assert(yt =~= Seq::<char>::empty());
        },
    }
    assert(b.subrange(u + yt.len(), b.len() as int) =~= tt);
}

/// The canonical name of a canonical record parses back to the same record.
pub proof fn canonical_round_trip(m: MetaView)
    requires
        canonical_record(m),
    ensures
        parse_name(render_text(m)) == Ok::<MetaView, MetaError>(m),
{
    let b = canonical_body(m);
    assert(head_text(m) + tags_text(m.tags) =~= b);
    assert(render_text(m) =~= b + seq!['.'] + format_text(m.format));
    let ls = m.series.len() as int;
    let d = ls + number_text(m.number).len();
    let w = d + opt_text(Seq::empty(), m.suffix).len();
    let r = w + of_text(m.of).len();
    let u = r + opt_text(seq![' '], m.title).len();
    lemma_shape_head(m, b, ls, d, w);
    lemma_shape_middle(m, b, w, r, u);
    lemma_shape_tail(m, b, u);
    assert(body_shape(b, m, ls, d, w, r, u));
    lemma_canonical_body(b, m, ls, d, w, r, u);
    lemma_parse_body(b, m.format);
}

/// Rendering what a canonical name parses to gives the same name back:
/// after one pass, parsing and rendering change nothing.
pub proof fn canonical_name_is_stable(m: MetaView)
    requires
        canonical_record(m),
    ensures
        parse_name(render_text(m)) matches Ok(m2) && render_text(m2) == render_text(m),
{
    canonical_round_trip(m);
}

} // verus!

//! Reading a file name into a `Meta`, as the grammar of `grammar` reads it.
use vstd::prelude::*;
use vstd::string::*;
use crate::chars::ascii_digit;
use crate::format::Format;
use crate::grammar::{
    group_content, issue_at, issue_taken, lemma_run_end, of_at, section_start, section_tail,
    tag_values, tail_tags, group_end_exec, issue_at_exec, issue_taken_exec, of_at_exec,
    of_taken_exec, run_end_exec, series_end_exec, space_start_exec, tags_at_exec, title_at_exec,
    year_end_exec, year_taken_exec, Class,
};
use crate::meta::{
    assemble, issue_number, issue_of, issue_suffix, issue_tail, issue_title, number_read,
    read_digits, opt_value, opt_view, parse_name, parsed_record_wf, strings_view,
    year_digits, IntError, Meta, MetaError, MetaView,
};

verus! {

/// Reads the digits `b[from..to]` as a number, as `str::parse::<usize>`
/// does.
fn digits_number(b: &Vec<char>, from: usize, to: usize) -> (r: Result<usize, IntError>)
    requires
        from <= to <= b.len(),
    ensures
        r == number_read(b@.subrange(from as int, to as int)),
{
    let ghost sub = b@.subrange(from as int, to as int);
    let mut acc: usize = 0;
    let mut i = from;
    while i < to
        invariant
            from <= i <= to <= b.len(),
            sub == b@.subrange(from as int, to as int),
            number_read(sub) == read_digits(sub, i - from, acc as nat),
        decreases to - i,
    {
        let c = b[i];
        assert(sub[i - from] == c);
        if !ascii_digit(c) {
            return Err(IntError::InvalidDigit);
        }
        let d = (c as u32 - '0' as u32) as usize;
        match acc.checked_mul(10) {
            Some(t) => match t.checked_add(d) {
                Some(u) => {
                    acc = u;
                },
                None => {
                    return Err(IntError::Overflow);
                },
            },
            None => {
                return Err(IntError::Overflow);
            },
        }
        i = i + 1;
    }
    Ok(acc)
}

/// The characters of `s`, one by one.
fn chars_of(s: &str) -> (r: Vec<char>)
    ensures
        r@ == s@,
{
    let n = s.unicode_len();
    let mut v: Vec<char> = Vec::new();
    let mut i: usize = 0;
    while i < n
        invariant
            i <= n,
            n == s@.len(),
            v@ == s@.subrange(0, i as int),
        decreases n - i,
    {
        v.push(s.get_char(i));
        i = i + 1;
        assert(v@ =~= s@.subrange(0, i as int));
    }
    assert(v@ =~= s@);
    v
}

/// The text of `s` from `from` to `to`, as a `String`.
fn capture(s: &str, from: usize, to: usize) -> (r: String)
    requires
        from <= to <= s@.len(),
    ensures
        r@ == s@.subrange(from as int, to as int),
{
    String::from_str(s.substring_char(from, to))
}

fn tag_values_exec(body: &str, b: &Vec<char>, i: usize) -> (r: Vec<String>)
    requires
        b@ == body@,
        i <= b.len(),
    ensures
        strings_view(r@) == tag_values(b@, i as int),
{
    let mut out: Vec<String> = Vec::new();
    let mut m = i;
    assert(strings_view(out@) =~= Seq::<Seq<char>>::empty());
    while m < b.len()
        invariant
            b@ == body@,
            i <= m <= b.len(),
            tag_values(b@, i as int) == strings_view(out@) + tag_values(b@, m as int),
        decreases b.len() - m,
    {
        match group_end_exec(b, m) {
            None => {
                assert(tag_values(b@, m as int) == Seq::<Seq<char>>::empty());
                assert(strings_view(out@) + Seq::<Seq<char>>::empty() =~= strings_view(out@));
                return out;
            },
            Some(e) => {
                let j = run_end_exec(b, m, Class::Space);
                let lead = run_end_exec(b, j + 1, Class::Space);
                proof {
                    lemma_run_end(b@, j + 1, Class::Space);
                    lemma_run_end(b@, j + 1, Class::Text);
                }
                assert(lead < e);
                let trail = space_start_exec(b, lead, e - 1);
                let ghost before = strings_view(out@);
                let ghost t = group_content(b@, m as int, e as int);
                let ghost rest = if e < b.len() {
                    tag_values(b@, e as int)
                } else {
                    Seq::<Seq<char>>::empty()
                };
                assert(t == b@.subrange(lead as int, trail as int));
                if trail > lead {
                    out.push(capture(body, lead, trail));
                    assert(strings_view(out@) =~= before + seq![t]);
                    assert(before + (seq![t] + rest) =~= strings_view(out@) + rest);
                } else {
                    assert(strings_view(out@) =~= before);
                }
                assert(tag_values(b@, i as int) == strings_view(out@) + rest);
                if e < b.len() {
                    m = e;
                } else {
                    assert(strings_view(out@) + Seq::<Seq<char>>::empty() =~= strings_view(out@));
                    return out;
                }
            },
        }
    }
    assert(strings_view(out@) + Seq::<Seq<char>>::empty() =~= strings_view(out@));
    out
}

pub open spec fn span_text(b: Seq<char>, span: Option<(usize, usize)>) -> Option<Seq<char>> {
    match span {
        Some(p) => Some(b.subrange(p.0 as int, p.1 as int)),
        None => None,
    }
}

pub open spec fn span_in(b: Seq<char>, span: Option<(usize, usize)>) -> bool {
    span matches Some(p) ==> p.0 <= p.1 <= b.len()
}

/// Reads the digits of a span, where there is one.
fn span_value(b: &Vec<char>, span: Option<(usize, usize)>) -> (r: Result<Option<usize>, IntError>)
    requires
        span_in(b@, span),
    ensures
        r == opt_value(span_text(b@, span)),
{
    match span {
        Some(p) => match digits_number(b, p.0, p.1) {
            Ok(v) => Ok(Some(v)),
            Err(e) => Err(e),
        },
        None => Ok(None),
    }
}

/// The parts of the issue after a series that ends at `k`: the spans of the
/// number and of the count, the suffix, the title, and where the tail starts.
fn issue_part(body: &str, b: &Vec<char>, k: usize) -> (r: (
    Option<(usize, usize)>,
    Option<String>,
    Option<(usize, usize)>,
    Option<String>,
    usize,
))
    requires
        b@ == body@,
        k <= b.len(),
        issue_taken(b@, k as int),
    ensures
        span_text(b@, r.0) == Some(issue_number(b@, k as int)),
        opt_view(r.1) == issue_suffix(b@, k as int),
        span_text(b@, r.2) == issue_of(b@, k as int),
        opt_view(r.3) == issue_title(b@, k as int),
        r.4 == issue_tail(b@, k as int),
        r.4 <= b.len(),
        span_in(b@, r.0),
        span_in(b@, r.2),
{
    let nn = issue_at_exec(b, k).unwrap();
    let number_span = Some((nn.0, nn.1));
    let suffix = if nn.2 > nn.1 {
        Some(capture(body, nn.1, nn.2))
    } else {
        None
    };
    let mut of_span: Option<(usize, usize)> = None;
    let mut p = nn.2;
    if of_taken_exec(b, nn.2) {
        let o = of_at_exec(b, nn.2).unwrap();
        of_span = Some((o.0, o.1));
        p = o.2;
    }
    assert(p == section_start(b@, nn.2 as int));
    let (title, tail) = match title_at_exec(b, p) {
        Some(tt) => (Some(capture(body, tt.0, tt.1)), tt.1),
        None => (None, p),
    };
    (number_span, suffix, of_span, title, tail)
}

/// The year span and the tags of the tail at `i`.
fn tail_part(body: &str, b: &Vec<char>, i: usize) -> (r: (Option<(usize, usize)>, Vec<String>))
    requires
        b@ == body@,
        i <= b.len(),
    ensures
        span_text(b@, r.0) == year_digits(b@, i as int),
        strings_view(r.1@) == tail_tags(b@, i as int),
        span_in(b@, r.0),
{
    let mut year_span: Option<(usize, usize)> = None;
    let mut tags: Vec<String> = Vec::new();
    assert(strings_view(tags@) =~= Seq::<Seq<char>>::empty());
    if year_taken_exec(b, i) {
        let j = year_end_exec(b, i).unwrap();
        year_span = Some((j - 5, j - 1));
        if j < b.len() {
            tags = tag_values_exec(body, b, j + 1);
        }
    } else if tags_at_exec(b, i) {
        tags = tag_values_exec(body, b, i + 1);
    }
    (year_span, tags)
}

/// Builds the record from its parts, reading the numbers.
fn assemble_exec(
    b: &Vec<char>,
    series: String,
    number_span: Option<(usize, usize)>,
    suffix: Option<String>,
    of_span: Option<(usize, usize)>,
    title: Option<String>,
    year_span: Option<(usize, usize)>,
    tags: Vec<String>,
    format: Format,
) -> (r: Result<Meta, MetaError>)
    requires
        span_in(b@, number_span),
        span_in(b@, of_span),
        span_in(b@, year_span),
    ensures
        match r {
            Ok(m) => assemble(
                series@,
                span_text(b@, number_span),
                opt_view(suffix),
                span_text(b@, of_span),
                opt_view(title),
                span_text(b@, year_span),
                strings_view(tags@),
                format,
            ) == Ok::<MetaView, MetaError>(m@),
            Err(e) => assemble(
                series@,
                span_text(b@, number_span),
                opt_view(suffix),
                span_text(b@, of_span),
                opt_view(title),
                span_text(b@, year_span),
                strings_view(tags@),
                format,
            ) == Err::<MetaView, MetaError>(e),
        },
{
    let number = match span_value(b, number_span) {
        Ok(v) => v,
        Err(e) => {
            return Err(MetaError::ParseNumber(e));
        },
    };
    let of = match span_value(b, of_span) {
        Ok(v) => v,
        Err(e) => {
            return Err(MetaError::ParseOf(e));
        },
    };
    let year = match span_value(b, year_span) {
        Ok(v) => v,
        Err(e) => {
            return Err(MetaError::ParseYear(e));
        },
    };
    Ok(Meta { series, number, suffix, of, title, year, tags, format })
}

impl Meta {
    /// Parses a file name into metadata, as the grammar reads it.
    pub fn parse(s: &str) -> (r: Result<Meta, MetaError>)
        ensures
            match r {
                Ok(m) => parse_name(s@) == Ok::<MetaView, MetaError>(m@),
                Err(e) => parse_name(s@) == Err::<MetaView, MetaError>(e),
            },
            r matches Ok(m) ==> m@.wf(),
    {
        proof {
            parsed_record_wf(s@);
        }
        let n = s.unicode_len();
        if n < 4 {
            return Err(MetaError::GetCaptures);
        }
        let dot = s.get_char(n - 4);
        let t = [s.get_char(n - 3), s.get_char(n - 2), s.get_char(n - 1)];
        assert(t@ =~= s@.subrange(n - 3, n as int));
        let format = match Format::from_chars(&t) {
            Ok(f) => f,
            Err(_) => {
                return Err(MetaError::GetCaptures);
            },
        };
        if dot != '.' {
            return Err(MetaError::GetCaptures);
        }
        let body = s.substring_char(0, n - 4);
        let b = chars_of(body);
        let k = match series_end_exec(&b) {
            Some(k) => k,
            None => {
                return Err(MetaError::GetCaptures);
            },
        };
        let series = capture(body, 0, k);
        let r = if issue_taken_exec(&b, k) {
            let (number_span, suffix, of_span, title, tail) = issue_part(body, &b, k);
            let (year_span, tags) = tail_part(body, &b, tail);
            assemble_exec(&b, series, number_span, suffix, of_span, title, year_span, tags, format)
        } else {
            let (year_span, tags) = tail_part(body, &b, k);
            assemble_exec(&b, series, None, None, None, None, year_span, tags, format)
        };
        assert(b@ == s@.subrange(0, n - 4));
        r
    }
}

impl std::str::FromStr for Meta {
    type Err = MetaError;

    fn from_str(s: &str) -> (r: Result<Meta, MetaError>)
        ensures
            match r {
                Ok(m) => parse_name(s@) == Ok::<MetaView, MetaError>(m@),
                Err(e) => parse_name(s@) == Err::<MetaView, MetaError>(e),
            },
            r matches Ok(m) ==> m@.wf(),
    {
        Meta::parse(s)
    }
}

} // verus!

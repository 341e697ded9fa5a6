use vstd::prelude::*;
use vstd::string::*;
use crate::chars::is_ascii_digit;
use crate::format::{format_of, format_text, Format, FormatError};
use crate::grammar::{
    issue_at, issue_taken, of_at, of_taken, section_start, section_tail, series_end, tail_tags,
    title_at, year_end, year_taken,
};

verus! {

/// Why a run of decimal digits could not be read as a `usize`.
#[derive(Debug, Clone, Copy, PartialEq, Eq, Structural)]
pub enum IntError {
    /// A digit outside `0`-`9`, such as a decimal digit of another script.
    InvalidDigit,
    /// The value does not fit in a `usize`.
    Overflow,
}

/// Errors that can occur when parsing metadata.
#[derive(Debug, Clone, Copy, PartialEq, Eq, Structural)]
pub enum MetaError {
    /// The name does not match the grammar.
    GetCaptures,
    /// The grammar matched without a series; it always captures one, so
    /// parsing does not return this.
    ParseSeries,
    /// The issue number could not be read.
    ParseNumber(IntError),
    /// The issue count of a limited series could not be read.
    ParseOf(IntError),
    /// The cover year could not be read.
    ParseYear(IntError),
    /// The grammar matched without a format; it always captures one.
    GetFormat,
    /// The captured format names no known archive; the grammar admits
    /// only known ones.
    ParseFormat(FormatError),
}

/// Metadata for a comic book file.
#[derive(Debug, PartialEq, Eq)]
pub struct Meta {
    /// Name of the series.
    pub series: String,
    /// Issue or volume number.
    pub number: Option<usize>,
    /// Issue or volume suffix, such as an annual marker.
    pub suffix: Option<String>,
    /// Total number of issues in a limited series.
    pub of: Option<usize>,
    /// Issue title.
    pub title: Option<String>,
    /// Year on the cover.
    pub year: Option<usize>,
    /// Tags, in the order in which they appear.
    pub tags: Vec<String>,
    /// Format of the comic.
    pub format: Format,
}

/// The mathematical value of a `Meta`.
pub struct MetaView {
    pub series: Seq<char>,
    pub number: Option<usize>,
    pub suffix: Option<Seq<char>>,
    pub of: Option<usize>,
    pub title: Option<Seq<char>>,
    pub year: Option<usize>,
    pub tags: Seq<Seq<char>>,
    pub format: Format,
}

pub open spec fn opt_view(o: Option<String>) -> Option<Seq<char>> {
    match o {
        Some(s) => Some(s@),
        None => None,
    }
}

pub open spec fn strings_view(v: Seq<String>) -> Seq<Seq<char>> {
    v.map_values(|t: String| t@)
}

impl View for Meta {
    type V = MetaView;

    open spec fn view(&self) -> MetaView {
        MetaView {
            series: self.series@,
            number: self.number,
            suffix: opt_view(self.suffix),
            of: self.of,
            title: opt_view(self.title),
            year: self.year,
            tags: strings_view(self.tags@),
            format: self.format,
        }
    }
}

impl MetaView {
    /// The suffix, the count and the title come only with a number.
    pub open spec fn wf(self) -> bool {
        self.number is None ==> (self.suffix is None && self.of is None && self.title is None)
    }
}

pub open spec fn digit_value(c: char) -> nat {
    (c as u32 - '0' as u32) as nat
}

/// The value of a run of decimal digits.
pub open spec fn digits_value(s: Seq<char>) -> nat
    decreases s.len(),
{
    if s.len() == 0 {
        0
    } else {
        digits_value(s.drop_last()) * 10 + digit_value(s.last())
    }
}

/// The digits of the year that the tail at `i` holds.
pub open spec fn year_digits(b: Seq<char>, i: int) -> Option<Seq<char>> {
    if year_taken(b, i) {
        let j = year_end(b, i)->0;
        Some(b.subrange(j - 5, j - 1))
    } else {
        None
    }
}

/// Reads the digits of `s` from position `i` on, `acc` being the value of
/// those before, as `str::parse::<usize>` reads them: from the left, failing
/// at the first character that is not `0`-`9`, or as soon as the value no
/// longer fits.
pub open spec fn read_digits(s: Seq<char>, i: int, acc: nat) -> Result<usize, IntError>
    decreases s.len() - i,
{
    if i < 0 || i >= s.len() {
        if acc <= usize::MAX {
            Ok(acc as usize)
        } else {
            Err(IntError::Overflow)
        }
    } else if !is_ascii_digit(s[i]) {
        Err(IntError::InvalidDigit)
    } else if acc * 10 + digit_value(s[i]) > usize::MAX {
        Err(IntError::Overflow)
    } else {
        read_digits(s, i + 1, acc * 10 + digit_value(s[i]))
    }
}

/// The value of a run of decimal digits, or why it cannot be read.
pub open spec fn number_read(s: Seq<char>) -> Result<usize, IntError> {
    read_digits(s, 0, 0)
}

pub open spec fn opt_value(o: Option<Seq<char>>) -> Result<Option<usize>, IntError> {
    match o {
        Some(d) => match number_read(d) {
            Ok(v) => Ok(Some(v)),
            Err(e) => Err(e),
        },
        None => Ok(None),
    }
}

pub proof fn lemma_digits_step(s: Seq<char>, from: int, i: int)
    requires
        0 <= from <= i < s.len(),
    ensures
        digits_value(s.subrange(from, i + 1)) == digits_value(s.subrange(from, i)) * 10
            + digit_value(s[i]),
{
    assert(s.subrange(from, i + 1).drop_last() =~= s.subrange(from, i));
}

proof fn lemma_read_from(s: Seq<char>, i: int)
    requires
        0 <= i <= s.len(),
        forall|j: int| 0 <= j < s.len() ==> is_ascii_digit(#[trigger] s[j]),
        digits_value(s) <= usize::MAX,
    ensures
        read_digits(s, i, digits_value(s.subrange(0, i))) == Ok::<usize, IntError>(
            digits_value(s) as usize,
        ),
    decreases s.len() - i,
{
    if i < s.len() {
        lemma_digits_step(s, 0, i);
        lemma_digits_grow(s, i + 1, s.len() as int);
        lemma_read_from(s, i + 1);
    } else {
        assert(s.subrange(0, i) =~= s);
    }
}

proof fn lemma_digits_grow(s: Seq<char>, i: int, to: int)
    requires
        0 <= i <= to <= s.len(),
    ensures
        digits_value(s.subrange(0, i)) <= digits_value(s.subrange(0, to)),
    decreases to - i,
{
    if i < to {
        lemma_digits_grow(s, i, to - 1);
        lemma_digits_step(s, 0, to - 1);
    }
}

/// A run of ASCII digits whose value fits in a `usize` reads as that value.
pub proof fn lemma_read_ascii(s: Seq<char>)
    requires
        forall|j: int| 0 <= j < s.len() ==> is_ascii_digit(#[trigger] s[j]),
        digits_value(s) <= usize::MAX,
    ensures
        number_read(s) == Ok::<usize, IntError>(digits_value(s) as usize),
{
    assert(s.subrange(0, 0) =~= Seq::<char>::empty());
    lemma_read_from(s, 0);
}

/// The record that the captured parts make, or the error of the first
/// number that cannot be read.
pub open spec fn assemble(
    series: Seq<char>,
    number: Option<Seq<char>>,
    suffix: Option<Seq<char>>,
    of: Option<Seq<char>>,
    title: Option<Seq<char>>,
    year: Option<Seq<char>>,
    tags: Seq<Seq<char>>,
    format: Format,
) -> Result<MetaView, MetaError> {
    if opt_value(number) is Err {
        Err(MetaError::ParseNumber(opt_value(number)->Err_0))
    } else if opt_value(of) is Err {
        Err(MetaError::ParseOf(opt_value(of)->Err_0))
    } else if opt_value(year) is Err {
        Err(MetaError::ParseYear(opt_value(year)->Err_0))
    } else {
        Ok(
            MetaView {
                series,
                number: opt_value(number)->Ok_0,
                suffix,
                of: opt_value(of)->Ok_0,
                title,
                year: opt_value(year)->Ok_0,
                tags,
                format,
            },
        )
    }
}

/// Every record that parsing yields is well formed: a suffix, a count or a
/// title comes only with a number.
pub proof fn parsed_record_wf(s: Seq<char>)
    ensures
        parse_name(s) matches Ok(m) ==> m.wf(),
{
}

/// The digits of the issue number after a series that ends at `k`.
pub open spec fn issue_number(b: Seq<char>, k: int) -> Seq<char> {
    let n = issue_at(b, k)->0;
    b.subrange(n.0, n.1)
}

/// The suffix of the issue number after a series that ends at `k`.
pub open spec fn issue_suffix(b: Seq<char>, k: int) -> Option<Seq<char>> {
    let n = issue_at(b, k)->0;
    if n.2 > n.1 {
        Some(b.subrange(n.1, n.2))
    } else {
        None
    }
}

/// The digits of the issue count after a series that ends at `k`.
pub open spec fn issue_of(b: Seq<char>, k: int) -> Option<Seq<char>> {
    let n = issue_at(b, k)->0;
    if of_taken(b, n.2) {
        let o = of_at(b, n.2)->0;
        Some(b.subrange(o.0, o.1))
    } else {
        None
    }
}

/// The title after a series that ends at `k`.
pub open spec fn issue_title(b: Seq<char>, k: int) -> Option<Seq<char>> {
    let n = issue_at(b, k)->0;
    match title_at(b, section_start(b, n.2)) {
        Some(t) => Some(b.subrange(t.0, t.1)),
        None => None,
    }
}

/// Where the year and tags start after the issue that follows a series
/// ending at `k`.
pub open spec fn issue_tail(b: Seq<char>, k: int) -> int {
    let n = issue_at(b, k)->0;
    section_tail(b, section_start(b, n.2))
}

/// The fields of a body whose series ends at `k`.
pub open spec fn body_fields(b: Seq<char>, k: int, format: Format) -> Result<MetaView, MetaError> {
    let series = b.subrange(0, k);
    if issue_taken(b, k) {
        let tail = issue_tail(b, k);
        assemble(
            series,
            Some(issue_number(b, k)),
            issue_suffix(b, k),
            issue_of(b, k),
            issue_title(b, k),
            year_digits(b, tail),
            tail_tags(b, tail),
            format,
        )
    } else {
        assemble(series, None, None, None, None, year_digits(b, k), tail_tags(b, k), format)
    }
}

/// What parsing a file name yields.
pub open spec fn parse_name(s: Seq<char>) -> Result<MetaView, MetaError> {
    let n = s.len() as int;
    if n < 4 || s[n - 4] != '.' || format_of(s.subrange(n - 3, n)) is None {
        Err(MetaError::GetCaptures)
    } else {
        let b = s.subrange(0, n - 4);
        match series_end(b) {
            Some(k) => body_fields(b, k, format_of(s.subrange(n - 3, n))->0),
            None => Err(MetaError::GetCaptures),
        }
    }
}

pub open spec fn digit_char(d: nat) -> char {
    seq!['0', '1', '2', '3', '4', '5', '6', '7', '8', '9'][(d % 10) as int]
}

/// The decimal digits of `n`, without leading zeros.
pub open spec fn decimal(n: nat) -> Seq<char>
    decreases n,
{
    if n < 10 {
        seq![digit_char(n)]
    } else {
        decimal(n / 10) + seq![digit_char(n % 10)]
    }
}

/// The decimal digits of `n`, zero-padded to three.
pub open spec fn padded(n: nat) -> Seq<char> {
    if n < 10 {
        seq!['0', '0'] + decimal(n)
    } else if n < 100 {
        seq!['0'] + decimal(n)
    } else {
        decimal(n)
    }
}

/// ` (tag)` for each tag, in order.
pub open spec fn tags_text(tags: Seq<Seq<char>>) -> Seq<char>
    decreases tags.len(),
{
    if tags.len() == 0 {
        Seq::empty()
    } else {
        tags_text(tags.drop_last()) + seq![' ', '('] + tags.last() + seq![')']
    }
}

pub open spec fn opt_text(prefix: Seq<char>, o: Option<Seq<char>>) -> Seq<char> {
    match o {
        Some(t) => prefix + t,
        None => Seq::empty(),
    }
}

/// The canonical name of a record.
pub open spec fn render_text(m: MetaView) -> Seq<char> {
    head_text(m) + tags_text(m.tags) + seq!['.'] + format_text(m.format)
}

pub open spec fn number_text(o: Option<usize>) -> Seq<char> {
    opt_text(seq![' '], match o {
        Some(n) => Some(padded(n as nat)),
        None => None,
    })
}

pub open spec fn of_text(o: Option<usize>) -> Seq<char> {
    opt_text(seq![' ', 'o', 'f', ' '], match o {
        Some(n) => Some(decimal(n as nat)),
        None => None,
    })
}

pub open spec fn year_text(o: Option<usize>) -> Seq<char> {
    opt_text(seq![' ', '('], match o {
        Some(n) => Some(decimal(n as nat) + seq![')']),
        None => None,
    })
}

/// The canonical name of a record without its tags and its extension.
pub open spec fn head_text(m: MetaView) -> Seq<char> {
    m.series + number_text(m.number) + opt_text(Seq::empty(), m.suffix) + of_text(m.of) + opt_text(
        seq![' '],
        m.title,
    ) + year_text(m.year)
}

fn digit_str(d: usize) -> (r: &'static str)
    requires
        d < 10,
    ensures
        r@ == seq![digit_char(d as nat)],
{
    proof {
        reveal_strlit("0");
        reveal_strlit("1");
        reveal_strlit("2");
        reveal_strlit("3");
        reveal_strlit("4");
        reveal_strlit("5");
        reveal_strlit("6");
        reveal_strlit("7");
        reveal_strlit("8");
        reveal_strlit("9");
    }
    let r = match d {
        0 => "0",
        1 => "1",
        2 => "2",
        3 => "3",
        4 => "4",
        5 => "5",
        6 => "6",
        7 => "7",
        8 => "8",
        _ => "9",
    };
    assert(r@ =~= seq![digit_char(d as nat)]);
    r
}

fn push_decimal(out: &mut String, n: usize)
    ensures
        final(out)@ == old(out)@ + decimal(n as nat),
    decreases n,
{
    if n >= 10 {
        push_decimal(out, n / 10);
        out.append(digit_str(n % 10));
        assert(final(out)@ =~= old(out)@ + decimal(n as nat));
    } else {
        out.append(digit_str(n));
    }
}

fn push_padded(out: &mut String, n: usize)
    ensures
        final(out)@ == old(out)@ + padded(n as nat),
{
    proof {
        reveal_strlit("0");
        reveal_strlit("00");
    }
    if n < 10 {
        out.append("00");
    } else if n < 100 {
        out.append("0");
    }
    push_decimal(out, n);
    assert(final(out)@ =~= old(out)@ + padded(n as nat));
}

fn push_number(out: &mut String, o: Option<usize>)
    ensures
        final(out)@ == old(out)@ + number_text(o),
{
    proof {
        reveal_strlit(" ");
    }
    if let Some(n) = o {
        out.append(" ");
        push_padded(out, n);
    }
    assert(final(out)@ =~= old(out)@ + number_text(o));
}

fn push_of(out: &mut String, o: Option<usize>)
    ensures
        final(out)@ == old(out)@ + of_text(o),
{
    proof {
        reveal_strlit(" of ");
    }
    if let Some(n) = o {
        out.append(" of ");
        push_decimal(out, n);
    }
    assert(final(out)@ =~= old(out)@ + of_text(o));
}

fn push_year(out: &mut String, o: Option<usize>)
    ensures
        final(out)@ == old(out)@ + year_text(o),
{
    proof {
        reveal_strlit(" (");
        reveal_strlit(")");
    }
    if let Some(n) = o {
        out.append(" (");
        push_decimal(out, n);
        out.append(")");
    }
    assert(final(out)@ =~= old(out)@ + year_text(o));
}

fn push_text(out: &mut String, prefix: &str, o: &Option<String>)
    ensures
        final(out)@ == old(out)@ + opt_text(prefix@, opt_view(*o)),
{
    if let Some(t) = o {
        out.append(prefix);
        out.append(t.as_str());
    }
    assert(final(out)@ =~= old(out)@ + opt_text(prefix@, opt_view(*o)));
}

fn push_tags(out: &mut String, tags: &Vec<String>)
    ensures
        final(out)@ == old(out)@ + tags_text(strings_view(tags@)),
{
    let ghost head = out@;
    let ghost tv = strings_view(tags@);
    let mut i: usize = 0;
    assert(tv.subrange(0, 0) =~= Seq::<Seq<char>>::empty());
    while i < tags.len()
        invariant
            i <= tags.len(),
            tv == strings_view(tags@),
            out@ == head + tags_text(tv.subrange(0, i as int)),
        decreases tags.len() - i,
    {
        proof {
            reveal_strlit(" (");
            reveal_strlit(")");
        }
        let ghost before = out@;
        out.append(" (");
        out.append(tags[i].as_str());
        out.append(")");
        assert(tv[i as int] == tags@[i as int]@);
        assert(tv.subrange(0, i + 1).drop_last() =~= tv.subrange(0, i as int));
        assert(tags_text(tv.subrange(0, i + 1)) == tags_text(tv.subrange(0, i as int)) + seq![' ', '(']
            + tv[i as int] + seq![')']);
        assert(out@ =~= before + seq![' ', '('] + tv[i as int] + seq![')']);
        i = i + 1;
        assert(out@ =~= head + tags_text(tv.subrange(0, i as int)));
    }
    assert(tv.subrange(0, i as int) =~= tv);
}

impl Meta {
    fn push_head(&self, out: &mut String)
        ensures
            final(out)@ == old(out)@ + head_text(self@),
    {
        proof {
            reveal_strlit("");
            reveal_strlit(" ");
        }
        let ghost m = self@;
        let ghost s0 = out@;
        out.append(self.series.as_str());
        let ghost s1 = out@;
        push_number(out, self.number);
        let ghost s2 = out@;
        push_text(out, "", &self.suffix);
        let ghost s3 = out@;
        push_of(out, self.of);
        let ghost s4 = out@;
        push_text(out, " ", &self.title);
        let ghost s5 = out@;
        push_year(out, self.year);
        assert(s1 == s0 + m.series);
        assert(s2 == s1 + number_text(m.number));
        assert(s3 == s2 + opt_text(Seq::empty(), m.suffix));
        assert(s4 == s3 + of_text(m.of));
        assert(s5 == s4 + opt_text(seq![' '], m.title));
        assert(out@ == s5 + year_text(m.year));
        assert(out@ =~= s0 + head_text(m));
    }

    /// The canonical name of the record: the series, the number padded to
    /// three digits with its suffix, ` of ` and the count, the title, the
    /// year and each tag in parentheses, and the lower case extension.
    pub fn render(&self) -> (r: String)
        ensures
            r@ == render_text(self@),
    {
        proof {
            reveal_strlit(".");
        }
        let mut out = String::new();
        self.push_head(&mut out);
        push_tags(&mut out, &self.tags);
        out.append(".");
        out.append(self.format.as_str());
        assert(out@ =~= render_text(self@));
        out
    }
}

} // verus!

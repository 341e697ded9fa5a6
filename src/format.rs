use vstd::prelude::*;
use vstd::string::*;

verus! {

/// Error that occurs when a format token names none of the known archives.
#[derive(Debug, PartialEq, Eq, Structural, Clone, Copy)]
pub struct FormatError;

/// The format of a comic book file.
#[derive(Debug, PartialEq, Eq, Structural, Clone, Copy)]
pub enum Format {
    /// 7z archive.
    Cb7,
    /// Rar archive.
    Cbr,
    /// Tar archive.
    Cbt,
    /// Zip archive.
    Cbz,
}

/// `c` equals `lower` up to ASCII case.
pub open spec fn same_letter(c: char, lower: char) -> bool {
    c == lower || ('a' <= lower <= 'z' && c as u32 + 32 == lower as u32)
}

/// The format that a three-character token names, compared without regard
/// to case, if any.
pub open spec fn format_of(t: Seq<char>) -> Option<Format> {
    if t.len() == 3 && same_letter(t[0], 'c') && same_letter(t[1], 'b') {
        if t[2] == '7' {
            Some(Format::Cb7)
        } else if same_letter(t[2], 'r') {
            Some(Format::Cbr)
        } else if same_letter(t[2], 't') {
            Some(Format::Cbt)
        } else if same_letter(t[2], 'z') {
            Some(Format::Cbz)
        } else {
            None
        }
    } else {
        None
    }
}

/// The canonical, lower case, extension of a format.
pub open spec fn format_text(f: Format) -> Seq<char> {
    match f {
        Format::Cb7 => seq!['c', 'b', '7'],
        Format::Cbr => seq!['c', 'b', 'r'],
        Format::Cbt => seq!['c', 'b', 't'],
        Format::Cbz => seq!['c', 'b', 'z'],
    }
}

/// Tells whether `c` is `lower` up to ASCII case.
pub fn same_letter_exec(c: char, lower: char) -> (r: bool)
    ensures
        r == same_letter(c, lower),
{
    c == lower || ('a' <= lower && lower <= 'z' && (c as u32) + 32 == lower as u32)
}

impl Format {
    /// Reads a format from the three characters of its extension, without
    /// regard to case.
    pub fn from_chars(t: &[char]) -> (r: Result<Format, FormatError>)
        ensures
            r == (match format_of(t@) {
                Some(f) => Ok(f),
                None => Err(FormatError),
            }),
    {
        if t.len() == 3 && same_letter_exec(t[0], 'c') && same_letter_exec(t[1], 'b') {
            if t[2] == '7' {
                Ok(Format::Cb7)
            } else if same_letter_exec(t[2], 'r') {
                Ok(Format::Cbr)
            } else if same_letter_exec(t[2], 't') {
                Ok(Format::Cbt)
            } else if same_letter_exec(t[2], 'z') {
                Ok(Format::Cbz)
            } else {
                Err(FormatError)
            }
        } else {
            Err(FormatError)
        }
    }

    /// Reads a format from its extension, without regard to case.
    pub fn parse(s: &str) -> (r: Result<Format, FormatError>)
        ensures
            r == (match format_of(s@) {
                Some(f) => Ok(f),
                None => Err(FormatError),
            }),
    {
        let n = s.unicode_len();
        if n != 3 {
            return Err(FormatError);
        }
        let t = [s.get_char(0), s.get_char(1), s.get_char(2)];
        assert(t@ =~= s@);
        Format::from_chars(&t)
    }

    /// The canonical, lower case, extension of the format.
    pub fn as_str(&self) -> (r: &'static str)
        ensures
            r@ == format_text(*self),
    {
        proof {
            reveal_strlit("cb7");
            reveal_strlit("cbr");
            reveal_strlit("cbt");
            reveal_strlit("cbz");
        }
        match self {
            Format::Cb7 => "cb7",
            Format::Cbr => "cbr",
            Format::Cbt => "cbt",
            Format::Cbz => "cbz",
        }
    }
}

impl std::str::FromStr for Format {
    type Err = FormatError;

    fn from_str(s: &str) -> (r: Result<Format, FormatError>)
        ensures
            r == (match format_of(s@) {
                Some(f) => Ok(f),
                None => Err(FormatError),
            }),
    {
        Format::parse(s)
    }
}

} // verus!

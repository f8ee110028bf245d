//! Date tags: a partial year / month / day selector and the fixed-width
//! prefix it stands for.

use crate::text::{all_digits, first_index, is_digit, lemma_first_index_is};
use vstd::prelude::*;
use vstd::string::*;

verus! {

/// The year written when none, or a malformed one, was given.
pub open spec fn default_year() -> Seq<char> {
    seq!['0', '0', '0', '0']
}

/// The month written when none, or a malformed one, was given.
pub open spec fn default_month() -> Seq<char> {
    seq!['0', '1']
}

/// The day written when none, or a malformed one, was given.
pub open spec fn default_day() -> Seq<char> {
    seq!['0', '1']
}

/// The prefix of a tag with no field at all: it selects every entry.
pub open spec fn beginning_tag() -> Seq<char> {
    seq!['0', '0', '0', '0', '-', '0', '1', '-', '0', '1']
}

/// The year as it is rendered: the given one if it has four characters.
pub open spec fn year_part(year: Option<Seq<char>>) -> Seq<char> {
    match year {
        Some(y) => if y.len() == 4 {
            y
        } else {
            default_year()
        },
        None => default_year(),
    }
}

/// The month as it is rendered: the given one if it has two characters.
pub open spec fn month_part(month: Option<Seq<char>>) -> Seq<char> {
    match month {
        Some(m) => if m.len() == 2 {
            m
        } else {
            default_month()
        },
        None => default_month(),
    }
}

/// The day as it is rendered: the given one if it has two characters, a
/// single character behind a zero, the default otherwise.
pub open spec fn day_part(day: Option<Seq<char>>) -> Seq<char> {
    match day {
        Some(d) => if d.len() == 2 {
            d
        } else if d.len() == 1 {
            seq!['0'] + d
        } else {
            default_day()
        },
        None => default_day(),
    }
}

/// The rendered prefix: year, month and day parts joined by hyphens.
pub open spec fn tag_text(
    year: Option<Seq<char>>,
    month: Option<Seq<char>>,
    day: Option<Seq<char>>,
) -> Seq<char> {
    year_part(year) + seq!['-'] + month_part(month) + seq!['-'] + day_part(day)
}

/// Whether `s` has the shape of a date prefix: ten characters, with hyphens
/// after the fourth and the seventh.
pub open spec fn is_date_shaped(s: Seq<char>) -> bool {
    s.len() == 10 && s[4] == '-' && s[7] == '-'
}

/// Whether `s` is date shaped and all its other characters are digits.
pub open spec fn is_numeric_date(s: Seq<char>) -> bool {
    is_date_shaped(s) && forall|i: int| 0 <= i < 10 && i != 4 && i != 7 ==> is_digit(#[trigger] s[i])
}

/// Whether a field is absent or made of digits only.
pub open spec fn digits_if_given(field: Option<Seq<char>>) -> bool {
    match field {
        Some(s) => all_digits(s),
        None => true,
    }
}

/// Which of a tag's fields were given with a wrong width and are replaced by
/// their defaults when the tag is rendered.
#[derive(Clone, Copy, Debug)]
pub struct TagRepairs {
    pub year: bool,
    pub month: bool,
    pub day: bool,
}

/// A partial date selector. Every field is optional and kept as given.
#[derive(Clone, Debug)]
pub struct Tag {
    year: Option<String>,
    month: Option<String>,
    day: Option<String>,
}

/// The characters of an optional text.
pub open spec fn chars_of(field: Option<&str>) -> Option<Seq<char>> {
    match field {
        Some(s) => Some(s@),
        None => None,
    }
}

fn own(field: Option<&str>) -> (r: Option<String>)
    ensures
        r is Some == field is Some,
        r is Some ==> r->Some_0@ == field->Some_0@,
{
    match field {
        Some(s) => Some(String::from_str(s)),
        None => None,
    }
}

fn width(field: &Option<String>) -> (r: Option<usize>)
    ensures
        r is Some == field is Some,
        r is Some ==> r->Some_0 == field->Some_0@.len(),
{
    match field {
        Some(s) => Some(s.as_str().unicode_len()),
        None => None,
    }
}

impl Tag {
    /// The year as given.
    pub closed spec fn year(&self) -> Option<Seq<char>> {
        match self.year {
            Some(s) => Some(s@),
            None => None,
        }
    }

    /// The month as given.
    pub closed spec fn month(&self) -> Option<Seq<char>> {
        match self.month {
            Some(s) => Some(s@),
            None => None,
        }
    }

    /// The day as given.
    pub closed spec fn day(&self) -> Option<Seq<char>> {
        match self.day {
            Some(s) => Some(s@),
            None => None,
        }
    }

    /// The prefix this tag renders to.
    pub open spec fn text(&self) -> Seq<char> {
        tag_text(self.year(), self.month(), self.day())
    }

    /// A tag that holds the given fields verbatim.
    pub fn new(year: Option<&str>, month: Option<&str>, day: Option<&str>) -> (tag: Self)
        ensures
            tag.year() == chars_of(year),
            tag.month() == chars_of(month),
            tag.day() == chars_of(day),
    {
        Tag { year: own(year), month: own(month), day: own(day) }
    }

    /// Renders the tag as `YYYY-MM-DD`. A field of the wrong width is
    /// replaced by its default and a one-character day gets a leading zero,
    /// so the result is date shaped whatever the fields hold.
    pub fn full_tag(&self) -> (r: String)
        ensures
            r@ == self.text(),
            is_date_shaped(r@),
    {
        proof {
            reveal_strlit("0000");
            reveal_strlit("01");
            reveal_strlit("0");
            reveal_strlit("-");
        }
        let mut out = match &self.year {
            Some(y) => if y.as_str().unicode_len() == 4 {
                y.clone()
            } else {
                String::from_str("0000")
            },
            None => String::from_str("0000"),
        };
        assert(out@ =~= year_part(self.year()));
        out.append("-");
        match &self.month {
            Some(m) => if m.as_str().unicode_len() == 2 {
                out.append(m.as_str());
            } else {
                out.append("01");
            },
            None => {
                out.append("01");
            },
        }
        assert(out@ =~= year_part(self.year()) + seq!['-'] + month_part(self.month()));
        out.append("-");
        match &self.day {
            Some(d) => {
                let n = d.as_str().unicode_len();
                if n == 2 {
                    out.append(d.as_str());
                } else if n == 1 {
                    out.append("0");
                    out.append(d.as_str());
                } else {
                    out.append("01");
                }
            },
            None => {
                out.append("01");
            },
        }
        assert(out@ =~= self.text());
        out
    }

    /// Whether any field was given.
    pub open spec fn is_given(&self) -> bool {
        self.year() is Some || self.month() is Some || self.day() is Some
    }

    /// Tells whether any field was given.
    pub fn has_fields(&self) -> (r: bool)
        ensures
            r == self.is_given(),
    {
        self.year.is_some() || self.month.is_some() || self.day.is_some()
    }

    /// Tells which fields `full_tag` replaces by a default, so that a caller
    /// can report them.
    pub fn repairs(&self) -> (r: TagRepairs)
        ensures
            r.year == (self.year() is Some && self.year()->Some_0.len() != 4),
            r.month == (self.month() is Some && self.month()->Some_0.len() != 2),
            r.day == (self.day() is Some && self.day()->Some_0.len() != 1
                && self.day()->Some_0.len() != 2),
    {
        let y = width(&self.year);
        let m = width(&self.month);
        let d = width(&self.day);
        TagRepairs {
            year: match y {
                Some(n) => n != 4,
                None => false,
            },
            month: match m {
                Some(n) => n != 2,
                None => false,
            },
            day: match d {
                Some(n) => n != 1 && n != 2,
                None => false,
            },
        }
    }
}

/// Fields of the right widths are reproduced: a four-character year, a
/// two-character month and a day of one or two characters render as the year,
/// the month and the day padded with a zero to two characters.
pub proof fn lemma_well_formed_fields_are_kept(year: Seq<char>, month: Seq<char>, day: Seq<char>)
    requires
        year.len() == 4,
        month.len() == 2,
        day.len() == 1 || day.len() == 2,
    ensures
        tag_text(Some(year), Some(month), Some(day)) == year + seq!['-'] + month + seq!['-'] + (
        if day.len() == 1 {
            seq!['0'] + day
        } else {
            day
        }),
        is_date_shaped(tag_text(Some(year), Some(month), Some(day))),
{
}

/// Whatever the fields hold, the rendered prefix is date shaped; where every
/// given field is made of digits, so is the prefix between its hyphens.
pub proof fn lemma_rendering_is_date_shaped(
    year: Option<Seq<char>>,
    month: Option<Seq<char>>,
    day: Option<Seq<char>>,
)
    ensures
        is_date_shaped(tag_text(year, month, day)),
        digits_if_given(year) && digits_if_given(month) && digits_if_given(day)
            ==> is_numeric_date(tag_text(year, month, day)),
{
    let y = year_part(year);
    let m = month_part(month);
    let d = day_part(day);
    let t = tag_text(year, month, day);
    assert(y.len() == 4 && m.len() == 2 && d.len() == 2);
    if digits_if_given(year) && digits_if_given(month) && digits_if_given(day) {
        assert(all_digits(y));
        assert(all_digits(m));
        assert(all_digits(d)) by {
            if day is Some && day->Some_0.len() == 1 {
                assert(d[1] == day->Some_0[0]);
            }
        }
        assert forall|i: int| 0 <= i < 10 && i != 4 && i != 7 implies is_digit(#[trigger] t[i]) by {
            if i < 4 {
                assert(t[i] == y[i]);
            } else if i < 7 {
                assert(t[i] == m[i - 5]);
            } else {
                assert(t[i] == d[i - 8]);
            }
        }
    }
}

/// A tag without fields renders to the beginning prefix.
pub proof fn lemma_empty_tag_is_beginning()
    ensures
        tag_text(None, None, None) == beginning_tag(),
{
    assert(tag_text(None, None, None) =~= beginning_tag());
}

/// The part of `s` before its first `c`: all of it where it has none.
pub open spec fn piece_before(s: Seq<char>, c: char) -> Seq<char> {
    s.subrange(0, first_index(s, c))
}

/// Whether `s` has a `c`, and so a part after the first one.
pub open spec fn has_piece_after(s: Seq<char>, c: char) -> bool {
    first_index(s, c) < s.len()
}

/// The part of `s` after its first `c`.
pub open spec fn piece_after(s: Seq<char>, c: char) -> Seq<char> {
    if has_piece_after(s, c) {
        s.subrange(first_index(s, c) + 1, s.len() as int)
    } else {
        Seq::empty()
    }
}

/// The date part of a key: what stands before its first plus sign.
pub open spec fn key_date(text: Seq<char>) -> Seq<char> {
    piece_before(text, '+')
}

/// The year of a key: the first of the pieces that hyphens cut its date part
/// into. There always is one, if an empty one.
pub open spec fn key_year(text: Seq<char>) -> Option<Seq<char>> {
    Some(piece_before(key_date(text), '-'))
}

/// The month of a key: the second of those pieces, if there is one.
pub open spec fn key_month(text: Seq<char>) -> Option<Seq<char>> {
    let date = key_date(text);
    if has_piece_after(date, '-') {
        Some(piece_before(piece_after(date, '-'), '-'))
    } else {
        None
    }
}

/// The day of a key: the third of those pieces, if there is one.
pub open spec fn key_day(text: Seq<char>) -> Option<Seq<char>> {
    let date = key_date(text);
    let later = piece_after(date, '-');
    if has_piece_after(date, '-') && has_piece_after(later, '-') {
        Some(piece_before(piece_after(later, '-'), '-'))
    } else {
        None
    }
}

/// Finds the first `c` in `s`, counting characters. The text is walked from
/// its start for every character looked at, which is meant for short texts.
pub fn find_char(s: &str, c: char) -> (n: usize)
    ensures
        n == first_index(s@, c),
        n <= s@.len(),
{
    let len = s.unicode_len();
    let mut n: usize = 0;
    let mut found = false;
    while n < len && !found
        invariant
            n <= len,
            len == s@.len(),
            forall|i: int| 0 <= i < n ==> s@[i] != c,
            found ==> n < len && s@[n as int] == c,
        decreases len - n + (if found { 0int } else { 1int }),
    {
        if s.get_char(n) == c {
            found = true;
        } else {
            n += 1;
        }
    }
    proof {
        lemma_first_index_is(s@, c, n as int);
    }
    n
}

/// The tag that a typed key stands for: of the part before the first plus
/// sign, the first three pieces between hyphens are year, month and day, as
/// far as there are that many.
pub fn tag_of_key(text: &str) -> (tag: Tag)
    ensures
        tag.year() == key_year(text@),
        tag.month() == key_month(text@),
        tag.day() == key_day(text@),
{
    let plus = find_char(text, '+');
    let date = text.substring_char(0, plus);
    let len = date.unicode_len();
    let first = find_char(date, '-');
    let year = date.substring_char(0, first);
    if first < len {
        let later = date.substring_char(first + 1, len);
        let later_len = later.unicode_len();
        let second = find_char(later, '-');
        let month = later.substring_char(0, second);
        if second < later_len {
            let last = later.substring_char(second + 1, later_len);
            let third = find_char(last, '-');
            let day = last.substring_char(0, third);
            Tag::new(Some(year), Some(month), Some(day))
        } else {
            Tag::new(Some(year), Some(month), None)
        }
    } else {
        Tag::new(Some(year), None, None)
    }
}

} // verus!

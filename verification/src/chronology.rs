//! Why a search from a date prefix on is a search from that date on: dates
//! written with fixed widths sort as byte strings the way they sort as dates.

use crate::order::{bytes_lt, lemma_bytes_lt_irreflexive};
use crate::tag::is_numeric_date;
use crate::text::is_digit;
use vstd::prelude::*;
use vstd::utf8::*;

verus! {

/// The number that a digit writes.
pub open spec fn digit_value(c: char) -> int {
    c as int - '0' as int
}

/// A numeric date as one number: the year, then two digits of month, then
/// two digits of day. Earlier dates have smaller numbers.
pub open spec fn date_number(s: Seq<char>) -> int {
    digit_value(s[0]) * 10000000 + digit_value(s[1]) * 1000000 + digit_value(s[2]) * 100000
        + digit_value(s[3]) * 10000 + digit_value(s[5]) * 1000 + digit_value(s[6]) * 100
        + digit_value(s[8]) * 10 + digit_value(s[9])
}

/// Two byte strings of one length compare as their bytes do at the first
/// place where they differ.
pub proof fn lemma_first_difference_decides(a: Seq<u8>, b: Seq<u8>, k: int)
    requires
        a.len() == b.len(),
        0 <= k < a.len(),
        forall|i: int| 0 <= i < k ==> a[i] == b[i],
        a[k] != b[k],
    ensures
        bytes_lt(a, b) == (a[k] < b[k]),
    decreases k,
{
    if k > 0 {
        let ra = a.drop_first();
        let rb = b.drop_first();
        assert(a[0] == b[0]);
        assert forall|i: int| 0 <= i < k - 1 implies ra[i] == rb[i] by {
            assert(ra[i] == a[i + 1] && rb[i] == b[i + 1]);
        }
        assert(ra[k - 1] == a[k] && rb[k - 1] == b[k]);
        lemma_first_difference_decides(ra, rb, k - 1);
    }
}

/// Numeric dates sort as byte strings the way they sort as dates: one comes
/// before the other as a key exactly if it is the earlier date.
pub proof fn lemma_dates_sort_chronologically(a: Seq<char>, b: Seq<char>)
    requires
        is_numeric_date(a),
        is_numeric_date(b),
    ensures
        bytes_lt(encode_utf8(a), encode_utf8(b)) <==> date_number(a) < date_number(b),
{
    let ea = encode_utf8(a);
    let eb = encode_utf8(b);
    assert(is_ascii_chars(a)) by {
        assert forall|i: int| 0 <= i < a.len() implies '\0' <= #[trigger] a[i] <= '\u{7f}' by {
            if i != 4 && i != 7 {
                assert(is_digit(a[i]));
            }
        }
    }
    assert(is_ascii_chars(b)) by {
        assert forall|i: int| 0 <= i < b.len() implies '\0' <= #[trigger] b[i] <= '\u{7f}' by {
            if i != 4 && i != 7 {
                assert(is_digit(b[i]));
            }
        }
    }
    is_ascii_chars_encode_utf8(a);
    is_ascii_chars_encode_utf8(b);
    assert forall|i: int| 0 <= i < 10 implies ea[i] == a[i] as u8 && eb[i] == b[i] as u8 by {
        assert(a[i] as u8 == ea[i]);
        assert(b[i] as u8 == eb[i]);
    }
    assert forall|i: int| 0 <= i < 10 && i != 4 && i != 7 implies 0 <= digit_value(a[i]) <= 9 && 0
        <= digit_value(b[i]) <= 9 && ea[i] == digit_value(a[i]) + 48 && eb[i] == digit_value(b[i])
        + 48 by {
        assert(is_digit(a[i]) && is_digit(b[i]));
    }
    assert(ea[4] == eb[4] && ea[7] == eb[7]);
    if ea[0] != eb[0] {
        lemma_first_difference_decides(ea, eb, 0);
    } else if ea[1] != eb[1] {
        lemma_first_difference_decides(ea, eb, 1);
    } else if ea[2] != eb[2] {
        lemma_first_difference_decides(ea, eb, 2);
    } else if ea[3] != eb[3] {
        lemma_first_difference_decides(ea, eb, 3);
    } else if ea[5] != eb[5] {
        lemma_first_difference_decides(ea, eb, 5);
    } else if ea[6] != eb[6] {
        lemma_first_difference_decides(ea, eb, 6);
    } else if ea[8] != eb[8] {
        lemma_first_difference_decides(ea, eb, 8);
    } else if ea[9] != eb[9] {
        lemma_first_difference_decides(ea, eb, 9);
    } else {
        assert(ea =~= eb);
        lemma_bytes_lt_irreflexive(ea);
    }
}

} // verus!

//! Listings rendered as text, one line per entry.

use crate::order::{pairs_view, Pair};
use crate::text::{lossy_text, read_lossy};
use vstd::prelude::*;
use vstd::string::*;

verus! {

/// One entry as a line: key, separator, value, line end, with key and value
/// read as text.
pub open spec fn pair_line(p: Pair, separator: Seq<char>, end: Seq<char>) -> Seq<char> {
    lossy_text(p.0) + separator + lossy_text(p.1) + end
}

/// The lines of all entries of `s`, in their order.
pub open spec fn listing_text(s: Seq<Pair>, separator: Seq<char>, end: Seq<char>) -> Seq<char>
    decreases s.len(),
{
    if s.len() == 0 {
        Seq::empty()
    } else {
        pair_line(s[0], separator, end) + listing_text(s.drop_first(), separator, end)
    }
}

/// The line of an entry whose key and value are already text.
pub fn line_text(key: &str, separator: &str, value: &str, end: &str) -> (r: String)
    ensures
        r@ == key@ + separator@ + value@ + end@,
{
    let mut r = String::from_str(key);
    r.append(separator);
    r.append(value);
    r.append(end);
    r
}

/// Renders the entries line by line, in their order.
pub fn render_listing(entries: &Vec<(Vec<u8>, Vec<u8>)>, separator: &str, end: &str) -> (r: String)
    ensures
        r@ == listing_text(pairs_view(entries@), separator@, end@),
{
    let mut out = String::new();
    let ghost all = pairs_view(entries@);
    let mut i: usize = 0;
    assert(all.subrange(0, all.len() as int) =~= all);
    while i < entries.len()
        invariant
            i <= entries.len(),
            all == pairs_view(entries@),
            out@ + listing_text(all.subrange(i as int, all.len() as int), separator@, end@)
                == listing_text(all, separator@, end@),
        decreases entries.len() - i,
    {
        let ghost before = out@;
        let ghost rest = all.subrange(i as int, all.len() as int);
        assert(rest[0] == all[i as int]);
        assert(rest.drop_first() =~= all.subrange(i + 1, all.len() as int));
        let key = read_lossy(entries[i].0.as_slice());
        let value = read_lossy(entries[i].1.as_slice());
        let line = line_text(key.as_str(), separator, value.as_str(), end);
        out.append(line.as_str());
        assert(out@ + listing_text(rest.drop_first(), separator@, end@) =~= before + listing_text(
            rest,
            separator@,
            end@,
        ));
        i += 1;
    }
    out
}

} // verus!

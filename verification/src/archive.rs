//! The archive format: a store written out as plain text.
//!
//! An archive is a header line followed by one line per entry, each made of
//! the key, an equals sign and the value. Lines end with a line feed; in
//! reading, a carriage return right before the line feed belongs to the line
//! end too. Reading works on the bytes of the text; a line without an equals
//! sign holds no record and is passed over, and a value ends at a second
//! equals sign.

use crate::order::{
    insert_all, is_listing, lemma_listing_rebuilds, pairs_view, Pair,
};
use crate::report::{listing_text, pair_line, render_listing};
use crate::text::{
    first_index, lemma_encode_concat, lemma_first_index_bounds, lemma_first_index_is, lossy_text,
};
use vstd::prelude::*;
use vstd::slice::*;
use vstd::string::*;
use vstd::utf8::*;

verus! {

/// The byte that ends a line.
pub const LINE_END: u8 = 10;

/// The byte that may stand before the line end and is then part of it.
pub const CARRIAGE_RETURN: u8 = 13;

/// The byte between key and value.
pub const EQUALS: u8 = 61;

/// The header line's text, without its line end.
pub open spec fn header_chars() -> Seq<char> {
    "info_keep_file"@
}

/// The header line's bytes, without its line end.
pub open spec fn header_bytes() -> Seq<u8> {
    encode_utf8(header_chars())
}

/// The archive of a listing: the header line, then the entries as lines.
pub open spec fn archive_text(s: Seq<Pair>) -> Seq<char> {
    header_chars() + seq!['\n'] + listing_text(s, seq!['='], seq!['\n'])
}

/// The first line of `b`, without its line end: the bytes before the first
/// line feed, less a carriage return that stands right before it.
pub open spec fn line_of(b: Seq<u8>) -> Seq<u8> {
    let n = first_index(b, LINE_END);
    if 0 < n < b.len() && b[n - 1] == CARRIAGE_RETURN {
        b.subrange(0, n - 1)
    } else {
        b.subrange(0, n)
    }
}

/// What follows the first line of `b` and its line end.
pub open spec fn after_line(b: Seq<u8>) -> Seq<u8> {
    let n = first_index(b, LINE_END);
    if n < b.len() {
        b.subrange(n + 1, b.len() as int)
    } else {
        Seq::empty()
    }
}

/// The record that a line holds, if it has an equals sign: the key before
/// the first one, the value from there to the next one or to the line's end.
pub open spec fn record_of(line: Seq<u8>) -> Option<Pair> {
    let e = first_index(line, EQUALS);
    if e == line.len() {
        None
    } else {
        let after = line.subrange(e + 1, line.len() as int);
        Some((line.subrange(0, e), after.subrange(0, first_index(after, EQUALS))))
    }
}

/// The records of the lines of `b`, in their order.
pub open spec fn records_of(b: Seq<u8>) -> Seq<Pair>
    decreases b.len(),
{
    if b.len() == 0 {
        Seq::empty()
    } else {
        proof {
            lemma_first_index_bounds(b, LINE_END);
        }
        let rest = records_of(after_line(b));
        match record_of(line_of(b)) {
            Some(p) => seq![p] + rest,
            None => rest,
        }
    }
}

/// The records of an archive: those of the lines after the header line, and
/// none at all where the first line is not the header.
pub open spec fn archive_records(b: Seq<u8>) -> Seq<Pair> {
    if line_of(b) == header_bytes() {
        records_of(after_line(b))
    } else {
        Seq::empty()
    }
}

/// Finds the first `c` in `b`.
pub fn find_byte(b: &[u8], c: u8) -> (n: usize)
    ensures
        n == first_index(b@, c),
        n <= b.len(),
{
    let mut n: usize = 0;
    while n < b.len() && b[n] != c
        invariant
            n <= b.len(),
            forall|i: int| 0 <= i < n ==> b@[i] != c,
        decreases b.len() - n,
    {
        n += 1;
    }
    proof {
        lemma_first_index_is(b@, c, n as int);
    }
    n
}

/// Tells whether two byte strings are the same.
pub fn same_bytes(a: &[u8], b: &[u8]) -> (r: bool)
    ensures
        r == (a@ == b@),
{
    if a.len() != b.len() {
        return false;
    }
    let mut i: usize = 0;
    while i < a.len()
        invariant
            i <= a.len(),
            a.len() == b.len(),
            forall|j: int| 0 <= j < i ==> a@[j] == b@[j],
        decreases a.len() - i,
    {
        if a[i] != b[i] {
            return false;
        }
        i += 1;
    }
    assert(a@ =~= b@);
    true
}

/// Reads the record of one line.
pub fn parse_record(line: &[u8]) -> (r: Option<(Vec<u8>, Vec<u8>)>)
    ensures
        match r {
            Some(p) => record_of(line@) == Some((p.0@, p.1@)),
            None => record_of(line@) is None,
        },
{
    let e = find_byte(line, EQUALS);
    if e == line.len() {
        None
    } else {
        let after = slice_subrange(line, e + 1, line.len());
        let stop = find_byte(after, EQUALS);
        let key = slice_to_vec(slice_subrange(line, 0, e));
        let value = slice_to_vec(slice_subrange(after, 0, stop));
        Some((key, value))
    }
}

/// Cuts the first line out of `b`, given the place of its first line feed.
fn line_up_to(b: &[u8], n: usize) -> (line: &[u8])
    requires
        n == first_index(b@, LINE_END),
        n <= b.len(),
    ensures
        line@ == line_of(b@),
{
    if 0 < n && n < b.len() && b[n - 1] == CARRIAGE_RETURN {
        slice_subrange(b, 0, n - 1)
    } else {
        slice_subrange(b, 0, n)
    }
}

/// Cuts the first line out of `b`, without its line end.
pub fn first_line(b: &[u8]) -> (line: &[u8])
    ensures
        line@ == line_of(b@),
{
    let n = find_byte(b, LINE_END);
    line_up_to(b, n)
}

/// Reads the records of an archive.
pub fn parse_archive(bytes: &[u8]) -> (r: Vec<(Vec<u8>, Vec<u8>)>)
    ensures
        pairs_view(r@) == archive_records(bytes@),
{
    let len = bytes.len();
    let mut out: Vec<(Vec<u8>, Vec<u8>)> = Vec::new();
    let head = find_byte(bytes, LINE_END);
    if !same_bytes(line_up_to(bytes, head), "info_keep_file".as_bytes()) {
        assert(pairs_view(out@) =~= archive_records(bytes@));
        return out;
    }
    let mut pos: usize = if head < len {
        head + 1
    } else {
        len
    };
    let ghost body = after_line(bytes@);
    assert(body =~= bytes@.subrange(pos as int, len as int));
    assert(pairs_view(out@) =~= Seq::<Pair>::empty());
    while pos < len
        invariant
            pos <= len,
            len == bytes.len(),
            pairs_view(out@) + records_of(bytes@.subrange(pos as int, len as int)) == records_of(
                body,
            ),
        decreases len - pos,
    {
        let current = slice_subrange(bytes, pos, len);
        let end = find_byte(current, LINE_END);
        let line = line_up_to(current, end);
        let ghost before = pairs_view(out@);
        let ghost next = after_line(current@);
        match parse_record(line) {
            Some(p) => {
                out.push(p);
                assert(pairs_view(out@) =~= before + seq![(p.0@, p.1@)]);
                assert(before + (seq![(p.0@, p.1@)] + records_of(next)) =~= pairs_view(out@)
                    + records_of(next));
            },
            None => {},
        }
        pos = if end < len - pos {
            pos + end + 1
        } else {
            len
        };
        assert(next =~= bytes@.subrange(pos as int, len as int));
    }
    assert(bytes@.subrange(pos as int, len as int) =~= Seq::<u8>::empty());
    assert(pairs_view(out@) =~= records_of(body));
    out
}

/// Writes the archive of the entries, in their order.
pub fn render_archive(entries: &Vec<(Vec<u8>, Vec<u8>)>) -> (r: String)
    ensures
        r@ == archive_text(pairs_view(entries@)),
{
    proof {
        reveal_strlit("info_keep_file");
        reveal_strlit("info_keep_file\n");
        reveal_strlit("=");
        reveal_strlit("\n");
    }
    let mut r = String::from_str("info_keep_file\n");
    assert(r@ =~= header_chars() + seq!['\n']);
    assert("="@ =~= seq!['=']);
    assert("\n"@ =~= seq!['\n']);
    let lines = render_listing(entries, "=", "\n");
    r.append(lines.as_str());
    r
}

/// Whether a key or value can stand in an archive as it is: valid UTF-8
/// without an equals sign or a line end.
pub open spec fn is_plain(b: Seq<u8>) -> bool {
    valid_utf8(b) && forall|i: int| 0 <= i < b.len() ==> b[i] != EQUALS && b[i] != LINE_END
}

/// Whether `b` ends with a carriage return.
pub open spec fn ends_with_return(b: Seq<u8>) -> bool {
    b.len() > 0 && b.last() == CARRIAGE_RETURN
}

/// Whether all keys and values of `s` are plain, and no value ends with a
/// carriage return.
pub open spec fn all_plain(s: Seq<Pair>) -> bool {
    forall|i: int|
        #![trigger s[i]]
        0 <= i < s.len() ==> is_plain(s[i].0) && is_plain(s[i].1) && !ends_with_return(s[i].1)
}

/// The line of one entry, as bytes.
pub open spec fn line_bytes(p: Pair) -> Seq<u8> {
    p.0 + seq![EQUALS] + p.1 + seq![LINE_END]
}

/// The lines of all entries of `s`, as bytes.
pub open spec fn listing_bytes(s: Seq<Pair>) -> Seq<u8>
    decreases s.len(),
{
    if s.len() == 0 {
        Seq::empty()
    } else {
        line_bytes(s[0]) + listing_bytes(s.drop_first())
    }
}

proof fn lemma_encode_ascii(c: char)
    requires
        '\0' <= c <= '\u{7f}',
    ensures
        encode_utf8(seq![c]) == seq![c as u8],
{
    let chars = seq![c];
    assert(is_ascii_chars(chars));
    is_ascii_chars_encode_utf8(chars);
    assert(chars[0] as u8 == encode_utf8(chars)[0]);
    assert(encode_utf8(chars) =~= seq![c as u8]);
}

proof fn lemma_line_encoding(p: Pair)
    requires
        is_plain(p.0),
        is_plain(p.1),
    ensures
        encode_utf8(pair_line(p, seq!['='], seq!['\n'])) == line_bytes(p),
{
    let k = lossy_text(p.0);
    let v = lossy_text(p.1);
    decode_utf8_encode_utf8(p.0);
    decode_utf8_encode_utf8(p.1);
    lemma_encode_ascii('=');
    lemma_encode_ascii('\n');
    lemma_encode_concat(k, seq!['=']);
    lemma_encode_concat(k + seq!['='], v);
    lemma_encode_concat(k + seq!['='] + v, seq!['\n']);
}

proof fn lemma_listing_encoding(s: Seq<Pair>)
    requires
        all_plain(s),
    ensures
        encode_utf8(listing_text(s, seq!['='], seq!['\n'])) == listing_bytes(s),
    decreases s.len(),
{
    if s.len() > 0 {
        let rest = s.drop_first();
        assert forall|i: int| #![trigger rest[i]] 0 <= i < rest.len() implies is_plain(rest[i].0)
            && is_plain(rest[i].1) && !ends_with_return(rest[i].1) by {
            assert(rest[i] == s[i + 1]);
        }
        lemma_listing_encoding(rest);
        lemma_line_encoding(s[0]);
        lemma_encode_concat(
            pair_line(s[0], seq!['='], seq!['\n']),
            listing_text(rest, seq!['='], seq!['\n']),
        );
    }
}

proof fn lemma_line_is_read(p: Pair, rest: Seq<u8>)
    requires
        is_plain(p.0),
        is_plain(p.1),
        !ends_with_return(p.1),
    ensures
        records_of(line_bytes(p) + rest) == seq![p] + records_of(rest),
{
    let b = line_bytes(p) + rest;
    let line = p.0 + seq![EQUALS] + p.1;
    let n = line.len() as int;
    lemma_first_index_is(b, LINE_END, n);
    assert(b[n - 1] == line.last());
    assert(line.last() != CARRIAGE_RETURN) by {
        if p.1.len() > 0 {
            assert(line.last() == p.1.last());
        } else {
            assert(line.last() == EQUALS);
        }
    }
    assert(line_of(b) =~= line);
    assert(after_line(b) =~= rest);
    lemma_first_index_is(line, EQUALS, p.0.len() as int);
    let after = line.subrange(p.0.len() as int + 1, line.len() as int);
    assert(after =~= p.1);
    lemma_first_index_is(p.1, EQUALS, p.1.len() as int);
    assert(line.subrange(0, p.0.len() as int) =~= p.0);
    assert(after.subrange(0, p.1.len() as int) =~= p.1);
    assert(record_of(line) == Some(p));
}

proof fn lemma_listing_is_read(s: Seq<Pair>)
    requires
        all_plain(s),
    ensures
        records_of(listing_bytes(s)) == s,
    decreases s.len(),
{
    if s.len() == 0 {
        assert(records_of(listing_bytes(s)) =~= s);
    } else {
        let rest = s.drop_first();
        assert forall|i: int| #![trigger rest[i]] 0 <= i < rest.len() implies is_plain(rest[i].0)
            && is_plain(rest[i].1) && !ends_with_return(rest[i].1) by {
            assert(rest[i] == s[i + 1]);
        }
        lemma_listing_is_read(rest);
        lemma_line_is_read(s[0], listing_bytes(rest));
        assert(seq![s[0]] + rest =~= s);
    }
}

proof fn lemma_header_is_read(rest: Seq<u8>)
    ensures
        line_of(header_bytes() + seq![LINE_END] + rest) == header_bytes(),
        after_line(header_bytes() + seq![LINE_END] + rest) == rest,
{
    reveal_strlit("info_keep_file");
    let chars = header_chars();
    let head = header_bytes();
    assert(is_ascii_chars(chars));
    is_ascii_chars_encode_utf8(chars);
    assert forall|i: int| 0 <= i < head.len() implies head[i] != LINE_END by {
        assert(chars[i] as u8 == head[i]);
        assert(chars[i] != '\n');
    }
    assert(head[head.len() - 1] != CARRIAGE_RETURN) by {
        assert(chars[13] as u8 == head[13]);
    }
    let b = head + seq![LINE_END] + rest;
    lemma_first_index_is(b, LINE_END, head.len() as int);
    assert(line_of(b) =~= head);
    assert(after_line(b) =~= rest);
}

/// Writing and reading an archive gives the store back: where `s` lists the
/// store `m`, all its keys and values are valid UTF-8 without an equals sign
/// or a line feed, and no value ends with a carriage return, the records of
/// the archive of `s`, inserted into an empty store, make `m` again.
pub proof fn lemma_archive_round_trip(s: Seq<Pair>, m: Map<Seq<u8>, Seq<u8>>)
    requires
        is_listing(s, m),
        all_plain(s),
    ensures
        archive_records(encode_utf8(archive_text(s))) == s,
        insert_all(Map::empty(), archive_records(encode_utf8(archive_text(s)))) == m,
{
    let lines = listing_text(s, seq!['='], seq!['\n']);
    lemma_encode_ascii('\n');
    lemma_encode_concat(header_chars(), seq!['\n']);
    lemma_encode_concat(header_chars() + seq!['\n'], lines);
    lemma_listing_encoding(s);
    lemma_header_is_read(listing_bytes(s));
    lemma_listing_is_read(s);
    lemma_listing_rebuilds(s, m);
}

} // verus!

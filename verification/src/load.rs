//! The load pass: decompress the gzip snapshot, bind the first line as the
//! header, parse and serialize every later line, and fold the records into
//! the store, keyed by id with last write winning.
//!
//! A stream that is not well-formed gzip is fatal. A single line that is not
//! well-formed UTF-8 is skipped: it contributes no record, and the lines
//! after it are still indexed.

use crate::json::{serialize_record, spec_payload};
use crate::record::{parse_data, parse_header, spec_parse_data};
use crate::store::Store;
use crate::text::{spec_lines, spec_split, split_lines, views};
use vstd::prelude::*;
use vstd::utf8::valid_utf8;

verus! {

/// The fetched byte stream is not a well-formed gzip stream.
#[derive(Debug)]
pub struct DecodeError;

/// What gzip decompression yields on the given bytes: the decompressed
/// payload, or nothing when the bytes are not a well-formed gzip stream.
/// Decompression depends on the input bytes alone.
pub uninterp spec fn gunzip_of(data: Seq<u8>) -> Option<Seq<u8>>;

/// Relies on flate2's `GzDecoder`: reading it to the end yields the whole
/// decompressed payload, and fails exactly when the input is not a
/// well-formed gzip stream. The result is a function of the input bytes.
#[verifier::external_body]
fn gunzip(data: &[u8]) -> (r: Result<Vec<u8>, DecodeError>)
    ensures
        r matches Ok(v) ==> gunzip_of(data@) == Some(v@),
        r matches Err(e) ==> gunzip_of(data@) is None,
{
    let mut decoder = flate2::read::GzDecoder::new(data);
    let mut out: Vec<u8> = Vec::new();
    match std::io::Read::read_to_end(&mut decoder, &mut out) {
        Ok(_) => Ok(out),
        Err(_) => Err(DecodeError),
    }
}

/// Relies on std's `str::from_utf8`, which returns `Ok` exactly on
/// well-formed UTF-8.
#[verifier::external_body]
fn is_valid_utf8(b: &[u8]) -> (r: bool)
    ensures
        r == valid_utf8(b@),
{
    core::str::from_utf8(b).is_ok()
}

/// The header bound from the first line: its tab-separated labels, or no
/// labels at all when there is no first line or it is not decodable.
pub open spec fn spec_header(lines: Seq<Seq<u8>>) -> Seq<Seq<u8>> {
    if lines.len() > 0 && valid_utf8(lines[0]) {
        spec_split(lines[0], 9)
    } else {
        Seq::<Seq<u8>>::empty()
    }
}

/// The payload a data line contributes under header `h`.
pub open spec fn spec_line_payload(l: Seq<u8>, h: Seq<Seq<u8>>) -> Seq<u8> {
    spec_payload(spec_parse_data(l, h))
}

/// The index after the data lines before `n`: each decodable one inserted
/// under its id in source order, each undecodable one skipped. Line 0 is
/// the header and contributes no record.
pub open spec fn index_upto(lines: Seq<Seq<u8>>, h: Seq<Seq<u8>>, n: int) -> Map<Seq<u8>, Seq<u8>>
    decreases n,
{
    if n <= 1 {
        Map::<Seq<u8>, Seq<u8>>::empty()
    } else {
        let m = index_upto(lines, h, n - 1);
        if valid_utf8(lines[n - 1]) {
            m.insert(spec_parse_data(lines[n - 1], h).id, spec_line_payload(lines[n - 1], h))
        } else {
            m
        }
    }
}

/// The index the whole line sequence denotes.
pub open spec fn spec_index(lines: Seq<Seq<u8>>) -> Map<Seq<u8>, Seq<u8>> {
    index_upto(lines, spec_header(lines), lines.len() as int)
}

proof fn lemma_index_upto_last(lines: Seq<Seq<u8>>, h: Seq<Seq<u8>>, j: int, n: int)
    requires
        1 <= j < n <= lines.len(),
        valid_utf8(lines[j]),
        forall|i: int|
            j < i < n && valid_utf8(#[trigger] lines[i]) ==> spec_parse_data(lines[i], h).id
                != spec_parse_data(lines[j], h).id,
    ensures
        index_upto(lines, h, n).contains_key(spec_parse_data(lines[j], h).id),
        index_upto(lines, h, n)[spec_parse_data(lines[j], h).id] == spec_line_payload(
            lines[j],
            h,
        ),
    decreases n,
{
    if n == j + 1 {
    } else {
        lemma_index_upto_last(lines, h, j, n - 1);
    }
}

/// Last write wins: when line `j` is the last decodable data line whose
/// record carries a given id, the index stores for that id exactly the
/// payload computed from line `j`.
pub proof fn lemma_last_write_wins(lines: Seq<Seq<u8>>, j: int)
    requires
        1 <= j < lines.len(),
        valid_utf8(lines[j]),
        forall|i: int|
            j < i < lines.len() && valid_utf8(#[trigger] lines[i]) ==> spec_parse_data(
                lines[i],
                spec_header(lines),
            ).id != spec_parse_data(lines[j], spec_header(lines)).id,
    ensures
        spec_index(lines).contains_key(spec_parse_data(lines[j], spec_header(lines)).id),
        spec_index(lines)[spec_parse_data(lines[j], spec_header(lines)).id] == spec_line_payload(
            lines[j],
            spec_header(lines),
        ),
{
    lemma_index_upto_last(lines, spec_header(lines), j, lines.len() as int);
}

proof fn lemma_index_upto_prefix(a: Seq<Seq<u8>>, b: Seq<Seq<u8>>, h: Seq<Seq<u8>>, n: int)
    requires
        n <= a.len(),
        n <= b.len(),
        forall|i: int| 0 <= i < n ==> a[i] == b[i],
    ensures
        index_upto(a, h, n) == index_upto(b, h, n),
    decreases n,
{
    if n > 1 {
        lemma_index_upto_prefix(a, b, h, n - 1);
    }
}

proof fn lemma_index_upto_skip(lines: Seq<Seq<u8>>, h: Seq<Seq<u8>>, j: int, n: int)
    requires
        1 <= j < lines.len(),
        !valid_utf8(lines[j]),
        j < n <= lines.len(),
    ensures
        index_upto(lines, h, n) == index_upto(lines.remove(j), h, n - 1),
    decreases n,
{
    let rm = lines.remove(j);
    if n == j + 1 {
        lemma_index_upto_prefix(lines, rm, h, j);
    } else {
        lemma_index_upto_skip(lines, h, j, n - 1);
        assert(rm[n - 2] == lines[n - 1]);
    }
}

/// An undecodable data line is skipped without any further effect: the
/// index of the whole line sequence is the index of the sequence with that
/// line removed, so the lines after it are still indexed as before.
pub proof fn lemma_skipped_line_changes_nothing(lines: Seq<Seq<u8>>, j: int)
    requires
        1 <= j < lines.len(),
        !valid_utf8(lines[j]),
    ensures
        spec_index(lines) == spec_index(lines.remove(j)),
{
    let rm = lines.remove(j);
    assert(rm[0] == lines[0]);
    assert(spec_header(rm) == spec_header(lines));
    lemma_index_upto_skip(lines, spec_header(lines), j, lines.len() as int);
}

/// Build the index from the decompressed dataset bytes in one sequential
/// pass over its lines.
pub fn build_index(data: &[u8]) -> (s: Store)
    ensures
        s@ == spec_index(spec_lines(data@)),
{
    let lines = split_lines(data);
    let ghost ls = views(lines@);
    let mut store = Store::new();
    if lines.len() == 0 {
        return store;
    }
    let header: Vec<Vec<u8>> = if is_valid_utf8(lines[0].as_slice()) {
        parse_header(&lines[0])
    } else {
        Vec::new()
    };
    let ghost h = spec_header(ls);
    proof {
        assert(views(header@) =~~= h);
    }
    let mut i: usize = 1;
    while i < lines.len()
        invariant
            1 <= i <= lines@.len(),
            ls == views(lines@),
            h == spec_header(ls),
            views(header@) == h,
            store@ == index_upto(ls, h, i as int),
        decreases lines@.len() - i,
    {
        if is_valid_utf8(lines[i].as_slice()) {
            let rec = parse_data(&lines[i], &header);
            let payload = serialize_record(&rec);
            store.insert(rec.id, payload);
        }
        i = i + 1;
    }
    store
}

/// Load the dataset from its gzip-compressed bytes: decompress in full,
/// then build the index over the decompressed lines. Succeeds exactly when
/// the bytes are a well-formed gzip stream; nothing of the index is
/// observable before the whole pass is done.
pub fn build_store(gz: &[u8]) -> (r: Result<Store, DecodeError>)
    ensures
        r matches Ok(s) ==> gunzip_of(gz@) matches Some(d) && s@ == spec_index(spec_lines(d)),
        r matches Err(e) ==> gunzip_of(gz@) is None,
{
    match gunzip(gz) {
        Ok(data) => Ok(build_index(data.as_slice())),
        Err(e) => Err(e),
    }
}

} // verus!

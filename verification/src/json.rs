//! The serialized text form of a record: a JSON object with the string
//! fields `productname`, `id`, `ingredients`, `brands`, `categories` and
//! `quantity` and the string arrays `nutrients` and `urls`, in that order.

use crate::record::{Record, RecordView};
use crate::text::views;
use vstd::prelude::*;
use vstd::string::StringSliceAdditionalSpecFns;

verus! {

broadcast use vstd::string::is_ascii_spec_bytes;

/// The lower-case hexadecimal digit for `n`.
pub open spec fn spec_hex_digit(n: u8) -> u8 {
    if n < 10 {
        (48 + n) as u8
    } else {
        (87 + n) as u8
    }
}

/// How one byte appears inside a JSON string: quote and backslash get a
/// backslash, the common control characters their short escapes, any other
/// control character a `\u00` escape, and everything else stands as it is.
pub open spec fn escape_byte(b: u8) -> Seq<u8> {
    if b == 34 {
        seq![92u8, 34u8]
    } else if b == 92 {
        seq![92u8, 92u8]
    } else if b == 8 {
        seq![92u8, 98u8]
    } else if b == 9 {
        seq![92u8, 116u8]
    } else if b == 10 {
        seq![92u8, 110u8]
    } else if b == 12 {
        seq![92u8, 102u8]
    } else if b == 13 {
        seq![92u8, 114u8]
    } else if b < 32 {
        seq![92u8, 117u8, 48u8, 48u8, spec_hex_digit(b / 16), spec_hex_digit(b % 16)]
    } else {
        seq![b]
    }
}

/// A byte string with every byte escaped for JSON.
pub open spec fn json_escape(s: Seq<u8>) -> Seq<u8>
    decreases s.len(),
{
    if s.len() == 0 {
        Seq::<u8>::empty()
    } else {
        json_escape(s.drop_last()) + escape_byte(s.last())
    }
}

/// A quoted, escaped JSON string.
pub open spec fn json_string(s: Seq<u8>) -> Seq<u8> {
    seq![34u8] + json_escape(s) + seq![34u8]
}

/// The comma-separated members of a JSON array of strings.
pub open spec fn json_array_body(items: Seq<Seq<u8>>) -> Seq<u8>
    decreases items.len(),
{
    if items.len() == 0 {
        Seq::<u8>::empty()
    } else if items.len() == 1 {
        json_string(items[0])
    } else {
        json_array_body(items.drop_last()) + seq![44u8] + json_string(items.last())
    }
}

/// A JSON array of strings.
pub open spec fn json_array(items: Seq<Seq<u8>>) -> Seq<u8> {
    seq![91u8] + json_array_body(items) + seq![93u8]
}

/// The key `productname` as bytes.
pub open spec fn k_productname() -> Seq<u8> {
    seq![112u8, 114u8, 111u8, 100u8, 117u8, 99u8, 116u8, 110u8, 97u8, 109u8, 101u8]
}

/// The key `id` as bytes.
pub open spec fn k_id() -> Seq<u8> {
    seq![105u8, 100u8]
}

/// The key `ingredients` as bytes.
pub open spec fn k_ingredients() -> Seq<u8> {
    seq![105u8, 110u8, 103u8, 114u8, 101u8, 100u8, 105u8, 101u8, 110u8, 116u8, 115u8]
}

/// The key `brands` as bytes.
pub open spec fn k_brands() -> Seq<u8> {
    seq![98u8, 114u8, 97u8, 110u8, 100u8, 115u8]
}

/// The key `categories` as bytes.
pub open spec fn k_categories() -> Seq<u8> {
    seq![99u8, 97u8, 116u8, 101u8, 103u8, 111u8, 114u8, 105u8, 101u8, 115u8]
}

/// The key `quantity` as bytes.
pub open spec fn k_quantity() -> Seq<u8> {
    seq![113u8, 117u8, 97u8, 110u8, 116u8, 105u8, 116u8, 121u8]
}

/// The key `nutrients` as bytes.
pub open spec fn k_nutrients() -> Seq<u8> {
    seq![110u8, 117u8, 116u8, 114u8, 105u8, 101u8, 110u8, 116u8, 115u8]
}

/// The key `urls` as bytes.
pub open spec fn k_urls() -> Seq<u8> {
    seq![117u8, 114u8, 108u8, 115u8]
}

/// One `"key":value` member followed by a comma, value a string.
pub open spec fn member_str(key: Seq<u8>, val: Seq<u8>) -> Seq<u8> {
    json_string(key) + seq![58u8] + json_string(val) + seq![44u8]
}

/// The full payload of a record.
pub open spec fn spec_payload(r: RecordView) -> Seq<u8> {
    seq![123u8] + member_str(k_productname(), r.productname) + member_str(k_id(), r.id)
        + member_str(k_ingredients(), r.ingredients) + member_str(k_brands(), r.brands)
        + member_str(k_categories(), r.categories) + member_str(k_quantity(), r.quantity)
        + json_string(k_nutrients()) + seq![58u8] + json_array(r.nutrients) + seq![44u8]
        + json_string(k_urls()) + seq![58u8] + json_array(r.urls) + seq![125u8]
}

fn hexd(n: u8) -> (r: u8)
    requires
        n < 16,
    ensures
        r == spec_hex_digit(n),
{
    if n < 10 {
        48 + n
    } else {
        87 + n
    }
}

fn push_escaped(out: &mut Vec<u8>, s: &[u8])
    ensures
        final(out)@ == old(out)@ + json_escape(s@),
{
    let mut i: usize = 0;
    proof {
        assert(s@.subrange(0, 0) =~= Seq::<u8>::empty());
        assert(out@ =~= out@ + json_escape(s@.subrange(0, 0)));
    }
    while i < s.len()
        invariant
            0 <= i <= s@.len(),
            out@ =~= old(out)@ + json_escape(s@.subrange(0, i as int)),
        decreases s@.len() - i,
    {
        let b = s[i];
        proof {
            assert(s@.subrange(0, i + 1).drop_last() =~= s@.subrange(0, i as int));
            assert(s@.subrange(0, i + 1).last() == s@[i as int]);
        }
        if b == 34 {
            out.push(92);
            out.push(34);
        } else if b == 92 {
            out.push(92);
            out.push(92);
        } else if b == 8 {
            out.push(92);
            out.push(98);
        } else if b == 9 {
            out.push(92);
            out.push(116);
        } else if b == 10 {
            out.push(92);
            out.push(110);
        } else if b == 12 {
            out.push(92);
            out.push(102);
        } else if b == 13 {
            out.push(92);
            out.push(114);
        } else if b < 32 {
            out.push(92);
            out.push(117);
            out.push(48);
            out.push(48);
            let d1 = hexd(b / 16);
            out.push(d1);
            let d2 = hexd(b % 16);
            out.push(d2);
        } else {
            out.push(b);
        }
        proof {
            assert(out@ =~= old(out)@ + json_escape(s@.subrange(0, i + 1)));
        }
        i = i + 1;
    }
    proof {
        assert(s@.subrange(0, s@.len() as int) =~= s@);
    }
}

fn push_json_string(out: &mut Vec<u8>, s: &[u8])
    ensures
        final(out)@ == old(out)@ + json_string(s@),
{
    out.push(34);
    push_escaped(out, s);
    out.push(34);
    proof {
        assert(out@ =~= old(out)@ + json_string(s@));
    }
}

fn push_json_array(out: &mut Vec<u8>, items: &Vec<Vec<u8>>)
    ensures
        final(out)@ == old(out)@ + json_array(views(items@)),
{
    out.push(91);
    let ghost vs = views(items@);
    let mut i: usize = 0;
    proof {
        assert(vs.subrange(0, 0) =~~= Seq::<Seq<u8>>::empty());
    }
    while i < items.len()
        invariant
            0 <= i <= items@.len(),
            vs == views(items@),
            out@ =~= old(out)@ + seq![91u8] + json_array_body(vs.subrange(0, i as int)),
        decreases items@.len() - i,
    {
        if i > 0 {
            out.push(44);
        }
        push_json_string(out, items[i].as_slice());
        proof {
            assert(vs.subrange(0, i + 1).drop_last() =~~= vs.subrange(0, i as int));
            assert(vs.subrange(0, i + 1).last() == vs[i as int]);
            assert(out@ =~= old(out)@ + seq![91u8] + json_array_body(vs.subrange(0, i + 1)));
        }
        i = i + 1;
    }
    out.push(93);
    proof {
        assert(vs.subrange(0, vs.len() as int) =~~= vs);
        assert(out@ =~= old(out)@ + json_array(views(items@)));
    }
}

fn key_productname() -> (r: &'static [u8])
    ensures
        r@ == k_productname(),
{
    let s = "productname";
    proof {
        reveal_strlit("productname");
        assert(s@ =~= seq!['p', 'r', 'o', 'd', 'u', 'c', 't', 'n', 'a', 'm', 'e']);
        assert(vstd::string::is_ascii(s));
        assert(s.spec_bytes() =~= k_productname());
    }
    s.as_bytes()
}

fn key_id() -> (r: &'static [u8])
    ensures
        r@ == k_id(),
{
    let s = "id";
    proof {
        reveal_strlit("id");
        assert(s@ =~= seq!['i', 'd']);
        assert(vstd::string::is_ascii(s));
        assert(s.spec_bytes() =~= k_id());
    }
    s.as_bytes()
}

fn key_ingredients() -> (r: &'static [u8])
    ensures
        r@ == k_ingredients(),
{
    let s = "ingredients";
    proof {
        reveal_strlit("ingredients");
        assert(s@ =~= seq!['i', 'n', 'g', 'r', 'e', 'd', 'i', 'e', 'n', 't', 's']);
        assert(vstd::string::is_ascii(s));
        assert(s.spec_bytes() =~= k_ingredients());
    }
    s.as_bytes()
}

fn key_brands() -> (r: &'static [u8])
    ensures
        r@ == k_brands(),
{
    let s = "brands";
    proof {
        reveal_strlit("brands");
        assert(s@ =~= seq!['b', 'r', 'a', 'n', 'd', 's']);
        assert(vstd::string::is_ascii(s));
        assert(s.spec_bytes() =~= k_brands());
    }
    s.as_bytes()
}

fn key_categories() -> (r: &'static [u8])
    ensures
        r@ == k_categories(),
{
    let s = "categories";
    proof {
        reveal_strlit("categories");
        assert(s@ =~= seq!['c', 'a', 't', 'e', 'g', 'o', 'r', 'i', 'e', 's']);
        assert(vstd::string::is_ascii(s));
        assert(s.spec_bytes() =~= k_categories());
    }
    s.as_bytes()
}

fn key_quantity() -> (r: &'static [u8])
    ensures
        r@ == k_quantity(),
{
    let s = "quantity";
    proof {
        reveal_strlit("quantity");
        assert(s@ =~= seq!['q', 'u', 'a', 'n', 't', 'i', 't', 'y']);
        assert(vstd::string::is_ascii(s));
        assert(s.spec_bytes() =~= k_quantity());
    }
    s.as_bytes()
}

fn key_nutrients() -> (r: &'static [u8])
    ensures
        r@ == k_nutrients(),
{
    let s = "nutrients";
    proof {
        reveal_strlit("nutrients");
        assert(s@ =~= seq!['n', 'u', 't', 'r', 'i', 'e', 'n', 't', 's']);
        assert(vstd::string::is_ascii(s));
        assert(s.spec_bytes() =~= k_nutrients());
    }
    s.as_bytes()
}

fn key_urls() -> (r: &'static [u8])
    ensures
        r@ == k_urls(),
{
    let s = "urls";
    proof {
        reveal_strlit("urls");
        assert(s@ =~= seq!['u', 'r', 'l', 's']);
        assert(vstd::string::is_ascii(s));
        assert(s.spec_bytes() =~= k_urls());
    }
    s.as_bytes()
}

/// Serialize a record to its JSON payload.
#[verifier::rlimit(60)]
pub fn serialize_record(r: &Record) -> (v: Vec<u8>)
    ensures
        v@ == spec_payload(r@),
{
    let mut out: Vec<u8> = Vec::new();
    out.push(123);
    push_json_string(&mut out, key_productname());
    out.push(58);
    push_json_string(&mut out, r.productname.as_slice());
    out.push(44);
    push_json_string(&mut out, key_id());
    out.push(58);
    push_json_string(&mut out, r.id.as_slice());
    out.push(44);
    push_json_string(&mut out, key_ingredients());
    out.push(58);
    push_json_string(&mut out, r.ingredients.as_slice());
    out.push(44);
    push_json_string(&mut out, key_brands());
    out.push(58);
    push_json_string(&mut out, r.brands.as_slice());
    out.push(44);
    push_json_string(&mut out, key_categories());
    out.push(58);
    push_json_string(&mut out, r.categories.as_slice());
    out.push(44);
    push_json_string(&mut out, key_quantity());
    out.push(58);
    push_json_string(&mut out, r.quantity.as_slice());
    out.push(44);
    push_json_string(&mut out, key_nutrients());
    out.push(58);
    push_json_array(&mut out, &r.nutrients);
    out.push(44);
    push_json_string(&mut out, key_urls());
    out.push(58);
    push_json_array(&mut out, &r.urls);
    out.push(125);
    proof {
        assert(out@ =~= spec_payload(r@));
    }
    out
}

} // verus!

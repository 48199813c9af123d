//! Parsing one data line against the bound header into a classified record.
//!
//! Column labels give positional meaning: column 0 is always the product id,
//! a label containing `100g` marks a nutrient column, one containing `url`
//! marks a link column, and five further marker substrings pick out scalar
//! fields. A column index at or past the header's length is never classified.

use crate::text::{contains_seq, contains_sub, spec_split, split_bytes, views};
use vstd::prelude::*;
use vstd::string::StringSliceAdditionalSpecFns;

verus! {

broadcast use vstd::string::is_ascii_spec_bytes;

/// The marker `100g` as bytes.
pub open spec fn m_100g() -> Seq<u8> {
    seq![49u8, 48u8, 48u8, 103u8]
}

/// The marker `url` as bytes.
pub open spec fn m_url() -> Seq<u8> {
    seq![117u8, 114u8, 108u8]
}

/// The marker `product_name` as bytes.
pub open spec fn m_product_name() -> Seq<u8> {
    seq![112u8, 114u8, 111u8, 100u8, 117u8, 99u8, 116u8, 95u8, 110u8, 97u8, 109u8, 101u8]
}

/// The marker `ingredients` as bytes.
pub open spec fn m_ingredients() -> Seq<u8> {
    seq![105u8, 110u8, 103u8, 114u8, 101u8, 100u8, 105u8, 101u8, 110u8, 116u8, 115u8]
}

/// The marker `brands` as bytes.
pub open spec fn m_brands() -> Seq<u8> {
    seq![98u8, 114u8, 97u8, 110u8, 100u8, 115u8]
}

/// The marker `categories` as bytes.
pub open spec fn m_categories() -> Seq<u8> {
    seq![99u8, 97u8, 116u8, 101u8, 103u8, 111u8, 114u8, 105u8, 101u8, 115u8]
}

/// The marker `quantity` as bytes.
pub open spec fn m_quantity() -> Seq<u8> {
    seq![113u8, 117u8, 97u8, 110u8, 116u8, 105u8, 116u8, 121u8]
}

fn marker_100g() -> (r: &'static [u8])
    ensures
        r@ == m_100g(),
{
    let s = "100g";
    proof {
        reveal_strlit("100g");
        assert(s@ =~= seq!['1', '0', '0', 'g']);
        assert(vstd::string::is_ascii(s));
        assert(s.spec_bytes() =~= m_100g());
    }
    s.as_bytes()
}

fn marker_url() -> (r: &'static [u8])
    ensures
        r@ == m_url(),
{
    let s = "url";
    proof {
        reveal_strlit("url");
        assert(s@ =~= seq!['u', 'r', 'l']);
        assert(vstd::string::is_ascii(s));
        assert(s.spec_bytes() =~= m_url());
    }
    s.as_bytes()
}

fn marker_product_name() -> (r: &'static [u8])
    ensures
        r@ == m_product_name(),
{
    let s = "product_name";
    proof {
        reveal_strlit("product_name");
        assert(s@ =~= seq!['p', 'r', 'o', 'd', 'u', 'c', 't', '_', 'n', 'a', 'm', 'e']);
        assert(vstd::string::is_ascii(s));
        assert(s.spec_bytes() =~= m_product_name());
    }
    s.as_bytes()
}

fn marker_ingredients() -> (r: &'static [u8])
    ensures
        r@ == m_ingredients(),
{
    let s = "ingredients";
    proof {
        reveal_strlit("ingredients");
        assert(s@ =~= seq!['i', 'n', 'g', 'r', 'e', 'd', 'i', 'e', 'n', 't', 's']);
        assert(vstd::string::is_ascii(s));
        assert(s.spec_bytes() =~= m_ingredients());
    }
    s.as_bytes()
}

fn marker_brands() -> (r: &'static [u8])
    ensures
        r@ == m_brands(),
{
    let s = "brands";
    proof {
        reveal_strlit("brands");
        assert(s@ =~= seq!['b', 'r', 'a', 'n', 'd', 's']);
        assert(vstd::string::is_ascii(s));
        assert(s.spec_bytes() =~= m_brands());
    }
    s.as_bytes()
}

fn marker_categories() -> (r: &'static [u8])
    ensures
        r@ == m_categories(),
{
    let s = "categories";
    proof {
        reveal_strlit("categories");
        assert(s@ =~= seq!['c', 'a', 't', 'e', 'g', 'o', 'r', 'i', 'e', 's']);
        assert(vstd::string::is_ascii(s));
        assert(s.spec_bytes() =~= m_categories());
    }
    s.as_bytes()
}

fn marker_quantity() -> (r: &'static [u8])
    ensures
        r@ == m_quantity(),
{
    let s = "quantity";
    proof {
        reveal_strlit("quantity");
        assert(s@ =~= seq!['q', 'u', 'a', 'n', 't', 'i', 't', 'y']);
        assert(vstd::string::is_ascii(s));
        assert(s.spec_bytes() =~= m_quantity());
    }
    s.as_bytes()
}

/// One parsed product row.
pub struct Record {
    pub id: Vec<u8>,
    pub productname: Vec<u8>,
    pub ingredients: Vec<u8>,
    pub brands: Vec<u8>,
    pub categories: Vec<u8>,
    pub quantity: Vec<u8>,
    pub nutrients: Vec<Vec<u8>>,
    pub urls: Vec<Vec<u8>>,
}

/// The mathematical value of a [`Record`].
pub struct RecordView {
    pub id: Seq<u8>,
    pub productname: Seq<u8>,
    pub ingredients: Seq<u8>,
    pub brands: Seq<u8>,
    pub categories: Seq<u8>,
    pub quantity: Seq<u8>,
    pub nutrients: Seq<Seq<u8>>,
    pub urls: Seq<Seq<u8>>,
}

impl View for Record {
    type V = RecordView;

    open spec fn view(&self) -> RecordView {
        RecordView {
            id: self.id@,
            productname: self.productname@,
            ingredients: self.ingredients@,
            brands: self.brands@,
            categories: self.categories@,
            quantity: self.quantity@,
            nutrients: views(self.nutrients@),
            urls: views(self.urls@),
        }
    }
}

/// The tab-separated fields of a line, order and empties preserved.
pub open spec fn spec_fields(line: Seq<u8>) -> Seq<Seq<u8>> {
    spec_split(line, 9)
}

/// Column `i` is classified by marker `m`: the index lies within both the
/// line and the header, the label at `i` contains `m`, and the value at `i`
/// is non-empty.
pub open spec fn qualifies(h: Seq<Seq<u8>>, f: Seq<Seq<u8>>, m: Seq<u8>, i: int) -> bool {
    0 <= i < f.len() && i < h.len() && contains_seq(h[i], m) && f[i].len() > 0
}

/// The `label:value` entry contributed by column `i`.
pub open spec fn combined(h: Seq<Seq<u8>>, f: Seq<Seq<u8>>, i: int) -> Seq<u8> {
    h[i] + seq![58u8] + f[i]
}

/// The `label:value` entries of the qualifying columns among the first `n`,
/// in column order.
pub open spec fn list_upto(h: Seq<Seq<u8>>, f: Seq<Seq<u8>>, m: Seq<u8>, n: int) -> Seq<Seq<u8>>
    decreases n,
{
    if n <= 0 {
        Seq::<Seq<u8>>::empty()
    } else {
        list_upto(h, f, m, n - 1) + if qualifies(h, f, m, n - 1) {
            seq![combined(h, f, n - 1)]
        } else {
            Seq::<Seq<u8>>::empty()
        }
    }
}

/// All `label:value` entries for marker `m`, in column order.
pub open spec fn spec_list(h: Seq<Seq<u8>>, f: Seq<Seq<u8>>, m: Seq<u8>) -> Seq<Seq<u8>> {
    list_upto(h, f, m, f.len() as int)
}

/// The value of the first qualifying column for marker `m` among the first
/// `n`, or empty if none qualifies. A qualifying value is never empty, so
/// emptiness marks "not yet set".
pub open spec fn scalar_upto(h: Seq<Seq<u8>>, f: Seq<Seq<u8>>, m: Seq<u8>, n: int) -> Seq<u8>
    decreases n,
{
    if n <= 0 {
        Seq::<u8>::empty()
    } else {
        let prev = scalar_upto(h, f, m, n - 1);
        if prev.len() > 0 {
            prev
        } else if qualifies(h, f, m, n - 1) {
            f[n - 1]
        } else {
            prev
        }
    }
}

/// The value of the first qualifying column for marker `m`, or empty.
pub open spec fn spec_scalar(h: Seq<Seq<u8>>, f: Seq<Seq<u8>>, m: Seq<u8>) -> Seq<u8> {
    scalar_upto(h, f, m, f.len() as int)
}

/// The record a data line yields under header `h`: the id is the verbatim
/// value of column 0 (even if empty) whenever the header has any column,
/// and every other field follows its marker's classification rule.
pub open spec fn spec_parse_data(line: Seq<u8>, h: Seq<Seq<u8>>) -> RecordView {
    let f = spec_fields(line);
    RecordView {
        id: if h.len() > 0 {
            f[0]
        } else {
            Seq::<u8>::empty()
        },
        productname: spec_scalar(h, f, m_product_name()),
        ingredients: spec_scalar(h, f, m_ingredients()),
        brands: spec_scalar(h, f, m_brands()),
        categories: spec_scalar(h, f, m_categories()),
        quantity: spec_scalar(h, f, m_quantity()),
        nutrients: spec_list(h, f, m_100g()),
        urls: spec_list(h, f, m_url()),
    }
}

/// The indices of the qualifying columns for marker `m` among the first
/// `n`, in increasing order.
pub open spec fn quals_upto(h: Seq<Seq<u8>>, f: Seq<Seq<u8>>, m: Seq<u8>, n: int) -> Seq<int>
    decreases n,
{
    if n <= 0 {
        Seq::<int>::empty()
    } else {
        quals_upto(h, f, m, n - 1) + if qualifies(h, f, m, n - 1) {
            seq![n - 1]
        } else {
            Seq::<int>::empty()
        }
    }
}

/// The indices of all qualifying columns for marker `m`, in increasing order.
pub open spec fn quals(h: Seq<Seq<u8>>, f: Seq<Seq<u8>>, m: Seq<u8>) -> Seq<int> {
    quals_upto(h, f, m, f.len() as int)
}

proof fn lemma_list_upto_characterized(h: Seq<Seq<u8>>, f: Seq<Seq<u8>>, m: Seq<u8>, n: int)
    ensures
        list_upto(h, f, m, n) =~~= quals_upto(h, f, m, n).map_values(|i: int| combined(h, f, i)),
        forall|j: int| #[trigger] quals_upto(h, f, m, n).contains(j) <==> (j < n && qualifies(h, f, m, j)),
        forall|a: int, b: int|
            0 <= a < b < quals_upto(h, f, m, n).len() ==> quals_upto(h, f, m, n)[a] < quals_upto(
                h,
                f,
                m,
                n,
            )[b],
    decreases n,
{
    if n <= 0 {
    } else {
        lemma_list_upto_characterized(h, f, m, n - 1);
        let prevq = quals_upto(h, f, m, n - 1);
        let q = quals_upto(h, f, m, n);
        if qualifies(h, f, m, n - 1) {
            assert(q =~= prevq.push(n - 1));
            assert forall|j: int| #[trigger] q.contains(j) <==> (prevq.contains(j) || j == n - 1) by {
                if q.contains(j) {
                    let a = choose|a: int| 0 <= a < q.len() && q[a] == j;
                    if a < prevq.len() {
                        assert(prevq[a] == j);
                        assert(prevq.contains(j));
                    }
                }
                if prevq.contains(j) {
                    let a = choose|a: int| 0 <= a < prevq.len() && prevq[a] == j;
                    assert(q[a] == j);
                }
                if j == n - 1 {
                    assert(q[q.len() - 1] == j);
                }
            }
            assert(forall|a: int|
                0 <= a < prevq.len() ==> prevq.contains(#[trigger] prevq[a]));
        } else {
            assert(q =~= prevq);
        }
    }
}

/// A value stands in the classified list for marker `m` exactly when it is
/// the `label:value` entry of a qualifying column — the label contains `m`
/// and the value is non-empty — and entries come in column order: the list
/// is the qualifying columns' entries, ordered by column index.
pub proof fn lemma_list_characterized(h: Seq<Seq<u8>>, f: Seq<Seq<u8>>, m: Seq<u8>)
    ensures
        spec_list(h, f, m) == quals(h, f, m).map_values(|i: int| combined(h, f, i)),
        forall|j: int| #[trigger] quals(h, f, m).contains(j) <==> qualifies(h, f, m, j),
        forall|a: int, b: int|
            0 <= a < b < quals(h, f, m).len() ==> quals(h, f, m)[a] < quals(h, f, m)[b],
{
    lemma_list_upto_characterized(h, f, m, f.len() as int);
}

proof fn lemma_list_upto_same(h1: Seq<Seq<u8>>, h2: Seq<Seq<u8>>, f: Seq<Seq<u8>>, m: Seq<u8>, n: int)
    requires
        h1.len() == h2.len(),
        forall|i: int| 0 <= i < f.len() && i < h1.len() ==> h1[i] == h2[i],
    ensures
        list_upto(h1, f, m, n) == list_upto(h2, f, m, n),
        scalar_upto(h1, f, m, n) == scalar_upto(h2, f, m, n),
    decreases n,
{
    if n > 0 {
        lemma_list_upto_same(h1, h2, f, m, n - 1);
    }
}

/// A record's field assignment depends only on the label at each of its own
/// column indices: two headers of equal length that agree at the line's
/// columns yield the same record for that line.
pub proof fn lemma_parse_depends_on_labels(line: Seq<u8>, h1: Seq<Seq<u8>>, h2: Seq<Seq<u8>>)
    requires
        h1.len() == h2.len(),
        forall|i: int| 0 <= i < spec_fields(line).len() && i < h1.len() ==> h1[i] == h2[i],
    ensures
        spec_parse_data(line, h1) == spec_parse_data(line, h2),
{
    let f = spec_fields(line);
    lemma_list_upto_same(h1, h2, f, m_100g(), f.len() as int);
    lemma_list_upto_same(h1, h2, f, m_url(), f.len() as int);
    lemma_list_upto_same(h1, h2, f, m_product_name(), f.len() as int);
    lemma_list_upto_same(h1, h2, f, m_ingredients(), f.len() as int);
    lemma_list_upto_same(h1, h2, f, m_brands(), f.len() as int);
    lemma_list_upto_same(h1, h2, f, m_categories(), f.len() as int);
    lemma_list_upto_same(h1, h2, f, m_quantity(), f.len() as int);
}

/// Split the header line on tabs into the ordered column labels,
/// preserving empty labels.
pub fn parse_header(l: &Vec<u8>) -> (r: Vec<Vec<u8>>)
    ensures
        views(r@) == spec_split(l@, 9),
{
    split_bytes(l.as_slice(), 9)
}

fn combine(label: &Vec<u8>, word: &Vec<u8>) -> (r: Vec<u8>)
    ensures
        r@ == label@ + seq![58u8] + word@,
{
    let mut r: Vec<u8> = Vec::new();
    let mut i: usize = 0;
    while i < label.len()
        invariant
            0 <= i <= label@.len(),
            r@ =~= label@.subrange(0, i as int),
        decreases label@.len() - i,
    {
        let c = label[i];
        r.push(c);
        i = i + 1;
    }
    r.push(58);
    let mut j: usize = 0;
    while j < word.len()
        invariant
            0 <= j <= word@.len(),
            r@ =~= label@ + seq![58u8] + word@.subrange(0, j as int),
        decreases word@.len() - j,
    {
        let c = word[j];
        r.push(c);
        j = j + 1;
    }
    proof {
        assert(r@ =~= label@ + seq![58u8] + word@);
    }
    r
}

/// Parse one data line against the bound header. The record's id is the
/// verbatim value of column 0 — even when empty — whenever the header has
/// any column at all.
pub fn parse_data(l: &Vec<u8>, header: &Vec<Vec<u8>>) -> (r: Record)
    ensures
        r@ == spec_parse_data(l@, views(header@)),
        views(header@).len() > 0 ==> r@.id == spec_fields(l@)[0],
{
    let fields = split_bytes(l.as_slice(), 9);
    let ghost h = views(header@);
    let ghost f = views(fields@);
    proof {
        assert(f == spec_fields(l@));
    }
    let mut nutrients: Vec<Vec<u8>> = Vec::new();
    let mut urls: Vec<Vec<u8>> = Vec::new();
    let mut productname: Vec<u8> = Vec::new();
    let mut ingredients: Vec<u8> = Vec::new();
    let mut brands: Vec<u8> = Vec::new();
    let mut categories: Vec<u8> = Vec::new();
    let mut quantity: Vec<u8> = Vec::new();
    let mut i: usize = 0;
    while i < fields.len()
        invariant
            0 <= i <= fields@.len(),
            h == views(header@),
            f == views(fields@),
            views(nutrients@) =~~= list_upto(h, f, m_100g(), i as int),
            views(urls@) =~~= list_upto(h, f, m_url(), i as int),
            productname@ =~= scalar_upto(h, f, m_product_name(), i as int),
            ingredients@ =~= scalar_upto(h, f, m_ingredients(), i as int),
            brands@ =~= scalar_upto(h, f, m_brands(), i as int),
            categories@ =~= scalar_upto(h, f, m_categories(), i as int),
            quantity@ =~= scalar_upto(h, f, m_quantity(), i as int),
        decreases fields@.len() - i,
    {
        if i < header.len() {
            let label = &header[i];
            let word = &fields[i];
            proof {
                assert(label@ == h[i as int]);
                assert(word@ == f[i as int]);
            }
            if word.len() > 0 {
                if contains_sub(label.as_slice(), marker_100g()) {
                    let entry = combine(label, word);
                    nutrients.push(entry);
                    proof {
                        assert(views(nutrients@) =~~= list_upto(h, f, m_100g(), i + 1));
                    }
                }
                if contains_sub(label.as_slice(), marker_url()) {
                    let entry = combine(label, word);
                    urls.push(entry);
                    proof {
                        assert(views(urls@) =~~= list_upto(h, f, m_url(), i + 1));
                    }
                }
                if productname.len() == 0 && contains_sub(label.as_slice(), marker_product_name())
                {
                    productname = vstd::slice::slice_to_vec(word.as_slice());
                }
                if ingredients.len() == 0 && contains_sub(label.as_slice(), marker_ingredients()) {
                    ingredients = vstd::slice::slice_to_vec(word.as_slice());
                }
                if brands.len() == 0 && contains_sub(label.as_slice(), marker_brands()) {
                    brands = vstd::slice::slice_to_vec(word.as_slice());
                }
                if categories.len() == 0 && contains_sub(label.as_slice(), marker_categories()) {
                    categories = vstd::slice::slice_to_vec(word.as_slice());
                }
                if quantity.len() == 0 && contains_sub(label.as_slice(), marker_quantity()) {
                    quantity = vstd::slice::slice_to_vec(word.as_slice());
                }
            }
        }
        i = i + 1;
    }
    let id: Vec<u8> = if header.len() > 0 {
        proof {
            crate::text::lemma_split_min_len(l@, 9);
        }
        vstd::slice::slice_to_vec(fields[0].as_slice())
    } else {
        Vec::new()
    };
    let r = Record { id, productname, ingredients, brands, categories, quantity, nutrients, urls };
    proof {
        assert(f.len() == fields@.len());
        assert(r@ == spec_parse_data(l@, views(header@)));
    }
    r
}

} // verus!

//! Byte-string utilities: substring search and separator splitting.

use vstd::prelude::*;

verus! {

/// `needle` occurs contiguously somewhere in `hay`.
pub open spec fn contains_seq(hay: Seq<u8>, needle: Seq<u8>) -> bool {
    exists|i: int|
        0 <= i && i + needle.len() <= hay.len() && #[trigger] hay.subrange(i, i + needle.len())
            == needle
}

/// Substring search by scanning every candidate position.
pub fn contains_sub(hay: &[u8], needle: &[u8]) -> (r: bool)
    ensures
        r == contains_seq(hay@, needle@),
{
    if needle.len() > hay.len() {
        assert(!contains_seq(hay@, needle@));
        return false;
    }
    let mut i: usize = 0;
    while i <= hay.len() - needle.len()
        invariant
            needle.len() <= hay.len(),
            0 <= i <= hay.len(),
            forall|k: int|
                0 <= k < i ==> #[trigger] hay@.subrange(k, k + needle@.len() as int) != needle@,
        decreases hay.len() - i,
    {
        proof {
            assert(hay@.subrange(i as int, i as int) =~= needle@.subrange(0, 0));
        }
        let mut j: usize = 0;
        let mut hit = true;
        while j < needle.len()
            invariant
                0 <= j <= needle.len(),
                i + needle.len() <= hay.len(),
                hit <==> hay@.subrange(i as int, i + j) == needle@.subrange(0, j as int),
            decreases needle.len() - j,
        {
            proof {
                assert(hay@.subrange(i as int, i + j + 1).drop_last() == hay@.subrange(
                    i as int,
                    i + j,
                ));
                assert(needle@.subrange(0, j + 1).drop_last() == needle@.subrange(0, j as int));
            }
            if hay[i + j] != needle[j] {
                hit = false;
                proof {
                    assert(hay@.subrange(i as int, i + j + 1).last() == hay@[i + j]);
                    assert(needle@.subrange(0, j + 1).last() == needle@[j as int]);
                }
            } else {
                proof {
                    if hit {
                        assert(hay@.subrange(i as int, i + j + 1) =~= needle@.subrange(0, j + 1));
                    } else {
                        assert(hay@.subrange(i as int, i + j) != needle@.subrange(0, j as int));
                        assert(hay@.subrange(i as int, i + j + 1).drop_last() != needle@.subrange(
                            0,
                            j + 1,
                        ).drop_last());
                    }
                }
            }
            j = j + 1;
        }
        proof {
            assert(needle@.subrange(0, needle@.len() as int) =~= needle@);
        }
        if hit {
            return true;
        }
        i = i + 1;
    }
    false
}

/// The views of a sequence of byte vectors.
pub open spec fn views(vs: Seq<Vec<u8>>) -> Seq<Seq<u8>> {
    vs.map_values(|v: Vec<u8>| v@)
}

/// Splitting `s` on `sep`, keeping empty pieces: always at least one piece,
/// one more piece than there are separators.
pub open spec fn spec_split(s: Seq<u8>, sep: u8) -> Seq<Seq<u8>>
    decreases s.len(),
{
    if s.len() == 0 {
        seq![Seq::<u8>::empty()]
    } else if s[0] == sep {
        seq![Seq::<u8>::empty()] + spec_split(s.drop_first(), sep)
    } else {
        let rest = spec_split(s.drop_first(), sep);
        seq![seq![s[0]] + rest[0]] + rest.drop_first()
    }
}

pub proof fn lemma_split_min_len(s: Seq<u8>, sep: u8)
    ensures
        spec_split(s, sep).len() >= 1,
    decreases s.len(),
{
    if s.len() > 0 {
        lemma_split_min_len(s.drop_first(), sep);
    }
}

/// Appending one byte extends the last piece, or starts a fresh empty piece
/// when the byte is the separator.
pub proof fn lemma_split_push(s: Seq<u8>, sep: u8, c: u8)
    ensures
        c == sep ==> spec_split(s.push(c), sep) =~~= spec_split(s, sep).push(
            Seq::<u8>::empty(),
        ),
        c != sep ==> spec_split(s.push(c), sep) =~~= spec_split(s, sep).drop_last().push(
            spec_split(s, sep).last().push(c),
        ),
    decreases s.len(),
{
    lemma_split_min_len(s, sep);
    if s.len() == 0 {
        assert(s.push(c).drop_first() =~= Seq::<u8>::empty());
        assert(s.push(c).len() == 1);
        assert(s.push(c)[0] == c);
        assert(spec_split(Seq::<u8>::empty(), sep) =~~= seq![Seq::<u8>::empty()]);
        if c == sep {
            assert(spec_split(s.push(c), sep) =~~= spec_split(s, sep).push(Seq::<u8>::empty()));
        } else {
            assert(spec_split(s.push(c), sep) =~~= spec_split(s, sep).drop_last().push(
                spec_split(s, sep).last().push(c),
            ));
        }
    } else {
        let t = s.drop_first();
        assert(s.push(c).drop_first() =~= t.push(c));
        assert(s.push(c)[0] == s[0]);
        lemma_split_push(t, sep, c);
        lemma_split_min_len(t, sep);
        let rest = spec_split(t, sep);
        let rest2 = spec_split(t.push(c), sep);
        if s[0] == sep {
            if c == sep {
                assert(rest2 =~~= rest.push(Seq::<u8>::empty()));
                assert(spec_split(s.push(c), sep) =~~= seq![Seq::<u8>::empty()] + rest2);
                assert(seq![Seq::<u8>::empty()] + rest.push(Seq::<u8>::empty()) =~~= (
                seq![Seq::<u8>::empty()] + rest).push(Seq::<u8>::empty()));
            } else {
                assert(rest2 =~~= rest.drop_last().push(rest.last().push(c)));
                assert(spec_split(s.push(c), sep) =~~= seq![Seq::<u8>::empty()] + rest2);
                assert(seq![Seq::<u8>::empty()] + rest.drop_last().push(rest.last().push(c)) =~~= (
                seq![Seq::<u8>::empty()] + rest).drop_last().push(
                    (seq![Seq::<u8>::empty()] + rest).last().push(c),
                ));
            }
        } else {
            assert(spec_split(s.push(c), sep) =~~= seq![seq![s[0]] + rest2[0]]
                + rest2.drop_first());
            assert(spec_split(s, sep) =~~= seq![seq![s[0]] + rest[0]] + rest.drop_first());
            if c == sep {
                assert(rest2 =~~= rest.push(Seq::<u8>::empty()));
                assert(rest2[0] =~= rest[0]);
                assert(rest2.drop_first() =~~= rest.drop_first().push(Seq::<u8>::empty()));
                assert(seq![seq![s[0]] + rest[0]] + rest.drop_first().push(Seq::<u8>::empty())
                    =~~= (seq![seq![s[0]] + rest[0]] + rest.drop_first()).push(
                    Seq::<u8>::empty(),
                ));
            } else {
                assert(rest2 =~~= rest.drop_last().push(rest.last().push(c)));
                if rest.len() == 1 {
                    assert(rest2 =~~= seq![rest[0].push(c)]);
                    assert(rest2[0] =~= rest[0].push(c));
                    assert(rest2.drop_first() =~~= Seq::<Seq<u8>>::empty());
                    assert(seq![s[0]] + rest[0].push(c) =~= (seq![s[0]] + rest[0]).push(c));
                    assert(spec_split(s.push(c), sep) =~~= seq![(seq![s[0]] + rest[0]).push(c)]);
                    assert(spec_split(s, sep).drop_last() =~~= Seq::<Seq<u8>>::empty());
                    assert(spec_split(s, sep).last() =~= seq![s[0]] + rest[0]);
                } else {
                    assert(rest2[0] =~= rest[0]);
                    assert(rest2.drop_first() =~~= rest.drop_first().drop_last().push(
                        rest.last().push(c),
                    ));
                    assert(spec_split(s, sep).drop_last() =~~= seq![seq![s[0]] + rest[0]]
                        + rest.drop_first().drop_last());
                    assert(spec_split(s, sep).last() =~= rest.last());
                    assert(seq![seq![s[0]] + rest[0]] + rest.drop_first().drop_last().push(
                        rest.last().push(c),
                    ) =~~= (seq![seq![s[0]] + rest[0]] + rest.drop_first().drop_last()).push(
                        rest.last().push(c),
                    ));
                }
            }
        }
    }
}

/// Split a byte string on a separator, keeping empty pieces.
pub fn split_bytes(s: &[u8], sep: u8) -> (r: Vec<Vec<u8>>)
    ensures
        views(r@) == spec_split(s@, sep),
{
    let mut out: Vec<Vec<u8>> = Vec::new();
    let mut cur: Vec<u8> = Vec::new();
    let mut i: usize = 0;
    proof {
        assert(s@.subrange(0, 0) =~= Seq::<u8>::empty());
        assert(views(out@).push(cur@) =~= spec_split(s@.subrange(0, 0), sep));
    }
    while i < s.len()
        invariant
            0 <= i <= s.len(),
            views(out@).push(cur@) =~= spec_split(s@.subrange(0, i as int), sep),
        decreases s.len() - i,
    {
        proof {
            assert(s@.subrange(0, i + 1) =~= s@.subrange(0, i as int).push(s@[i as int]));
            lemma_split_push(s@.subrange(0, i as int), sep, s@[i as int]);
            lemma_split_min_len(s@.subrange(0, i as int), sep);
        }
        if s[i] == sep {
            out.push(cur);
            cur = Vec::new();
            proof {
                assert(views(out@).push(cur@) =~= spec_split(s@.subrange(0, i + 1), sep));
            }
        } else {
            let c = s[i];
            cur.push(c);
            proof {
                let pieces = spec_split(s@.subrange(0, i as int), sep);
                assert(views(out@).push(cur@) =~= pieces.drop_last().push(
                    pieces.last().push(c),
                ));
            }
        }
        i = i + 1;
    }
    proof {
        assert(s@.subrange(0, s@.len() as int) =~= s@);
    }
    out.push(cur);
    proof {
        assert(views(out@) =~= spec_split(s@, sep));
    }
    out
}

/// A line with a trailing carriage return loses it.
pub open spec fn strip_cr(l: Seq<u8>) -> Seq<u8> {
    if l.len() > 0 && l[l.len() - 1] == 13 {
        l.drop_last()
    } else {
        l
    }
}

/// The text lines of a byte string: pieces between newline bytes, each
/// without a trailing carriage return; a final newline ends the last line
/// rather than opening an empty one, and empty input has no lines.
pub open spec fn spec_lines(s: Seq<u8>) -> Seq<Seq<u8>> {
    if s.len() == 0 {
        Seq::<Seq<u8>>::empty()
    } else {
        let raw = if s[s.len() - 1] == 10 {
            spec_split(s, 10).drop_last()
        } else {
            spec_split(s, 10)
        };
        raw.map_values(|l: Seq<u8>| strip_cr(l))
    }
}

fn strip_cr_vec(l: &Vec<u8>) -> (r: Vec<u8>)
    ensures
        r@ == strip_cr(l@),
{
    let n: usize = if l.len() > 0 && l[l.len() - 1] == 13 {
        l.len() - 1
    } else {
        l.len()
    };
    let mut r: Vec<u8> = Vec::new();
    let mut i: usize = 0;
    while i < n
        invariant
            0 <= i <= n <= l@.len(),
            r@ =~= l@.subrange(0, i as int),
        decreases n - i,
    {
        let c = l[i];
        r.push(c);
        i = i + 1;
    }
    proof {
        assert(r@ =~= strip_cr(l@));
    }
    r
}

/// Split a byte string into its text lines.
pub fn split_lines(data: &[u8]) -> (r: Vec<Vec<u8>>)
    ensures
        views(r@) == spec_lines(data@),
{
    let mut out: Vec<Vec<u8>> = Vec::new();
    if data.len() == 0 {
        proof {
            assert(views(out@) =~= spec_lines(data@));
        }
        return out;
    }
    let mut parts = split_bytes(data, 10);
    proof {
        lemma_split_min_len(data@, 10);
    }
    if data[data.len() - 1] == 10 {
        parts.pop();
    }
    let ghost raw = views(parts@);
    let mut i: usize = 0;
    while i < parts.len()
        invariant
            0 <= i <= parts@.len(),
            raw == views(parts@),
            views(out@) =~= raw.subrange(0, i as int).map_values(|l: Seq<u8>| strip_cr(l)),
        decreases parts@.len() - i,
    {
        let s = strip_cr_vec(&parts[i]);
        out.push(s);
        proof {
            assert(raw.subrange(0, i + 1) =~= raw.subrange(0, i as int).push(raw[i as int]));
            assert(raw.subrange(0, i + 1).map_values(|l: Seq<u8>| strip_cr(l)) =~~= raw.subrange(
                0,
                i as int,
            ).map_values(|l: Seq<u8>| strip_cr(l)).push(strip_cr(raw[i as int])));
        }
        i = i + 1;
    }
    proof {
        assert(raw.subrange(0, raw.len() as int) =~= raw);
        assert(views(out@) =~= spec_lines(data@));
    }
    out
}

} // verus!

use vstd::prelude::*;
use vstd::utf8::{decode_utf8, encode_utf8, valid_utf8};
use crate::split::{find_char, lemma_find_char_at, split_char, split_str, views_of};
use crate::strmap::StrMap;

verus! {

/// The value of an ASCII hex digit byte, if it is one.
pub open spec fn hex_val(b: u8) -> Option<u8> {
    if 48 <= b && b <= 57 {
        Some((b - 48) as u8)
    } else if 97 <= b && b <= 102 {
        Some((b - 87) as u8)
    } else if 65 <= b && b <= 70 {
        Some((b - 55) as u8)
    } else {
        None
    }
}

/// Percent- and plus-decoding on bytes: `%XY` with two hex digits
/// becomes the byte they denote, `+` becomes a space, a malformed or
/// truncated escape is kept as it stands.
pub open spec fn pct_decode(s: Seq<u8>) -> Seq<u8>
    decreases s.len(),
{
    if s.len() == 0 {
        Seq::<u8>::empty()
    } else if s[0] == 37 {
        if s.len() >= 3 {
            match (hex_val(s[1]), hex_val(s[2])) {
                (Some(d1), Some(d2)) => seq![((d1 as int) * 16 + (d2 as int)) as u8]
                    + pct_decode(s.skip(3)),
                _ => seq![s[0], s[1], s[2]] + pct_decode(s.skip(3)),
            }
        } else {
            s
        }
    } else if s[0] == 43 {
        seq![32u8] + pct_decode(s.drop_first())
    } else {
        seq![s[0]] + pct_decode(s.drop_first())
    }
}

/// The text that `String::from_utf8_lossy` reads out of a byte
/// sequence; a function of the bytes alone.
pub uninterp spec fn lossy_of(bytes: Seq<u8>) -> Seq<char>;

/// Relies on String::from_utf8_lossy: a valid UTF-8 byte sequence
/// decodes to exactly its scalar values, and the result depends on the
/// bytes alone.
#[verifier::external_body]
fn utf8_lossy(bytes: &Vec<u8>) -> (r: String)
    ensures
        r@ == lossy_of(bytes@),
        valid_utf8(bytes@) ==> r@ == decode_utf8(bytes@),
{
    String::from_utf8_lossy(bytes).into_owned()
}

/// The decoded view of a percent/plus-encoded component: the decoding
/// applied to its UTF-8 bytes, read back as text.
pub open spec fn decoded(s: Seq<char>) -> Seq<char> {
    lossy_of(pct_decode(encode_utf8(s)))
}

fn hex_digit(b: u8) -> (r: Option<u8>)
    ensures
        r == hex_val(b),
{
    if 48 <= b && b <= 57 {
        Some(b - 48)
    } else if 97 <= b && b <= 102 {
        Some(b - 87)
    } else if 65 <= b && b <= 70 {
        Some(b - 55)
    } else {
        None
    }
}

/// Percent- and plus-decoding of a byte sequence.
pub fn pct_decode_vec(s: &Vec<u8>) -> (r: Vec<u8>)
    ensures
        r@ == pct_decode(s@),
{
    let n = s.len();
    let mut out: Vec<u8> = Vec::new();
    let mut i: usize = 0;
    proof {
        assert(s@.skip(0) =~= s@);
    }
    while i < n
        invariant
            i <= n,
            n == s@.len(),
            pct_decode(s@) == out@ + pct_decode(s@.skip(i as int)),
        decreases n - i,
    {
        let ghost tail = s@.skip(i as int);
        proof {
            assert(forall|m: int| 0 <= m < tail.len() ==> tail[m] == s@[m + i]);
        }
        let b = s[i];
        if b == 37 {
            if n - i > 2 {
                let c1 = s[i + 1];
                let c2 = s[i + 2];
                proof {
                    assert(tail.skip(3) =~= s@.skip(i + 3));
                }
                match (hex_digit(c1), hex_digit(c2)) {
                    (Some(d1), Some(d2)) => {
                        out.push(d1 * 16 + d2);
                        proof {
                            assert(out@ + pct_decode(s@.skip(i + 3)) =~= out@.drop_last() + (
                            seq![((d1 as int) * 16 + (d2 as int)) as u8] + pct_decode(
                                s@.skip(i + 3),
                            )));
                        }
                    },
                    _ => {
                        out.push(b);
                        out.push(c1);
                        out.push(c2);
                        proof {
                            assert(out@ + pct_decode(s@.skip(i + 3)) =~= out@.subrange(
                                0,
                                out@.len() - 3,
                            ) + (seq![tail[0], tail[1], tail[2]] + pct_decode(s@.skip(i + 3))));
                        }
                    },
                }
                i = i + 3;
            } else {
                // a truncated escape at the end is kept as it stands
                proof {
                    assert(pct_decode(tail) == tail);
                }
                let ghost done = out@;
                let mut k = i;
                while k < n
                    invariant
                        i <= k <= n,
                        n == s@.len(),
                        out@ == done + s@.subrange(i as int, k as int),
                    decreases n - k,
                {
                    out.push(s[k]);
                    proof {
                        assert(out@ =~= done + s@.subrange(i as int, k + 1));
                    }
                    k = k + 1;
                }
                proof {
                    assert(s@.subrange(i as int, n as int) =~= tail);
                    assert(s@.skip(n as int) =~= Seq::<u8>::empty());
                    assert(out@ + pct_decode(s@.skip(n as int)) =~= done + tail);
                }
                i = n;
            }
        } else {
            proof {
                assert(tail.drop_first() =~= s@.skip(i + 1));
            }
            if b == 43 {
                out.push(32);
            } else {
                out.push(b);
            }
            proof {
                let last: u8 = if b == 43 {
                    32
                } else {
                    b
                };
                assert(out@ + pct_decode(s@.skip(i + 1)) =~= out@.drop_last() + (seq![last]
                    + pct_decode(s@.skip(i + 1))));
            }
            i = i + 1;
        }
    }
    proof {
        assert(s@.skip(n as int) =~= Seq::<u8>::empty());
    }
    out
}

/// Decodes one percent/plus-encoded component, as used both for query
/// values and for captured path parameters.  Whenever the decoded
/// bytes are valid UTF-8 — in particular for any plain ASCII input —
/// the result is pinned concretely as their decoded scalar values.
pub fn decode_component(s: &str) -> (r: String)
    ensures
        r@ == decoded(s@),
        valid_utf8(pct_decode(encode_utf8(s@))) ==> r@ == decode_utf8(pct_decode(encode_utf8(s@))),
{
    let bytes = s.as_bytes_vec();
    let dec = pct_decode_vec(&bytes);
    utf8_lossy(&dec)
}

/// The key of one `k=v` query pair: what stands before the first `=`,
/// or the whole pair when there is none.
pub open spec fn pair_key(p: Seq<char>) -> Seq<char> {
    p.take(find_char(p, '='))
}

/// The decoded value of one query pair: what stands after the first
/// `=`, decoded; empty when the pair has no `=` at all.
pub open spec fn pair_val(p: Seq<char>) -> Seq<char> {
    if find_char(p, '=') < p.len() {
        decoded(p.skip(find_char(p, '=') + 1))
    } else {
        Seq::<char>::empty()
    }
}

/// The map a list of `&`-separated query pairs denotes: empty pairs
/// are skipped, keys are decoded, and a later pair overrides an
/// earlier one with the same decoded key.
pub open spec fn query_pairs_map(pairs: Seq<Seq<char>>) -> Map<Seq<char>, Seq<char>>
    decreases pairs.len(),
{
    if pairs.len() == 0 {
        Map::<Seq<char>, Seq<char>>::empty()
    } else {
        let m = query_pairs_map(pairs.drop_last());
        let p = pairs.last();
        if p.len() == 0 {
            m
        } else {
            m.insert(decoded(pair_key(p)), pair_val(p))
        }
    }
}

/// The map a whole query string denotes.
pub open spec fn query_map(s: Seq<char>) -> Map<Seq<char>, Seq<char>> {
    query_pairs_map(split_char(s, '&'))
}

/// Decodes a query string into its map.
pub fn decode_query(query_string: &str) -> (r: StrMap)
    ensures
        r@ == query_map(query_string@),
{
    let parts = split_str(query_string, '&');
    let ghost vp = views_of(parts@);
    let mut r = StrMap::new();
    let mut i: usize = 0;
    proof {
        assert(vp.take(0) =~= Seq::<Seq<char>>::empty());
    }
    while i < parts.len()
        invariant
            i <= parts@.len(),
            vp == views_of(parts@),
            vp == split_char(query_string@, '&'),
            r@ == query_pairs_map(vp.take(i as int)),
        decreases parts@.len() - i,
    {
        proof {
            assert(vp.take(i + 1).drop_last() =~= vp.take(i as int));
            assert(vp.take(i + 1).last() == parts@[i as int]@);
        }
        let p = &parts[i];
        let plen = p.as_str().unicode_len();
        if plen > 0 {
            let mut j: usize = 0;
            while j < plen && p.as_str().get_char(j) != '='
                invariant
                    j <= plen,
                    plen == p@.len(),
                    forall|m2: int| 0 <= m2 < j ==> p@[m2] != '=',
                decreases plen - j,
            {
                j += 1;
            }
            proof {
                lemma_find_char_at(p@, '=', j as int);
            }
            let key = decode_component(p.as_str().substring_char(0, j));
            proof {
                assert(p@.subrange(0, j as int) =~= pair_key(p@));
            }
            let val = if j < plen {
                let v = decode_component(p.as_str().substring_char(j + 1, plen));
                proof {
                    assert(p@.subrange(j + 1, plen as int) =~= p@.skip(j + 1));
                }
                v
            } else {
                String::new()
            };
            r = r.insert(key, val);
        }
        i += 1;
    }
    proof {
        assert(vp.take(parts@.len() as int) =~= vp);
    }
    r
}

} // verus!

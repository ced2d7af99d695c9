//! The cache snapshot: a compact, self-describing rendering of the vendor
//! mapping, written once after a refresh and re-read on every later load.
//!
//! Each entry is the 6-character uppercase hex key, then the descriptor
//! length as 16 fixed-width hex characters, then the descriptor itself;
//! entries follow each other with nothing in between. The only contract of
//! the form is that the writer's own reader gets the entries back losslessly,
//! which `lemma_snapshot_round_trip` proves.

use vstd::prelude::*;
use crate::errors::VendorError;
use crate::hex::{hex_seq, hex_val, is_hex, pow16, lemma_hex_seq_len, lemma_hex_seq_val,
    lemma_pow16_values, hex_str, parse_hex};
use crate::store::pair_views;

verus! {

/// The rendering of one key/descriptor pair.
pub open spec fn encode_entry(e: (u32, Seq<char>)) -> Seq<char> {
    hex_seq(e.0 as int, 6) + hex_seq(e.1.len() as int, 16) + e.1
}

/// The rendering of a sequence of pairs, in order.
pub open spec fn encode_pairs(es: Seq<(u32, Seq<char>)>) -> Seq<char>
    decreases es.len(),
{
    if es.len() == 0 {
        Seq::empty()
    } else {
        encode_entry(es.first()) + encode_pairs(es.drop_first())
    }
}

/// What the fixed widths of the snapshot form can carry: 24-bit keys and
/// descriptors whose length fits in 16 hex digits.
pub open spec fn wf_pairs(es: Seq<(u32, Seq<char>)>) -> bool {
    forall|i: int|
        0 <= i < es.len() ==> (#[trigger] es[i]).0 < 0x1000000 && es[i].1.len() < pow16(16)
}

/// The pairs a snapshot text denotes, or `None` when it is not a snapshot
/// this crate's writer could have produced.
pub open spec fn decode_pairs(s: Seq<char>) -> Option<Seq<(u32, Seq<char>)>>
    decreases s.len(),
{
    if s.len() == 0 {
        Some(Seq::empty())
    } else if s.len() < 22 {
        None
    } else {
        let ks = s.subrange(0, 6);
        let ls = s.subrange(6, 22);
        let l = hex_val(ls);
        if is_hex(ks) && is_hex(ls) && 0 <= l && 22 + l <= s.len() {
            let v = s.subrange(22, 22 + l);
            let rest = s.subrange(22 + l, s.len() as int);
            match decode_pairs(rest) {
                Some(tail) => Some(seq![(hex_val(ks) as u32, v)] + tail),
                None => None,
            }
        } else {
            None
        }
    }
}

/// Appending one pair to the input appends its rendering to the output.
pub proof fn lemma_encode_pairs_push(es: Seq<(u32, Seq<char>)>, e: (u32, Seq<char>))
    ensures
        encode_pairs(es.push(e)) == encode_pairs(es) + encode_entry(e),
    decreases es.len(),
{
    if es.len() == 0 {
        assert(es.push(e).drop_first() =~= Seq::<(u32, Seq<char>)>::empty());
        assert(es.push(e).first() == e);
        assert(encode_entry(e) + encode_pairs(Seq::empty()) =~= encode_entry(e));
        assert(encode_pairs(es) + encode_entry(e) =~= encode_entry(e));
    } else {
        assert(es.push(e).first() == es.first());
        assert(es.push(e).drop_first() =~= es.drop_first().push(e));
        lemma_encode_pairs_push(es.drop_first(), e);
        assert(encode_entry(es.first()) + (encode_pairs(es.drop_first()) + encode_entry(e))
            =~= (encode_entry(es.first()) + encode_pairs(es.drop_first())) + encode_entry(e));
    }
}

/// Round-trip law: reading a written snapshot yields exactly the pairs
/// that were written, whatever they are, as long as they fit the fixed
/// widths of the form.
pub proof fn lemma_snapshot_round_trip(es: Seq<(u32, Seq<char>)>)
    requires
        wf_pairs(es),
    ensures
        decode_pairs(encode_pairs(es)) == Some(es),
    decreases es.len(),
{
    lemma_pow16_values();
    if es.len() == 0 {
    } else {
        let e = es.first();
        let ks = hex_seq(e.0 as int, 6);
        let ls = hex_seq(e.1.len() as int, 16);
        assert(es[0] == e);
        lemma_hex_seq_len(e.0 as int, 6);
        lemma_hex_seq_len(e.1.len() as int, 16);
        lemma_hex_seq_val(e.0 as int, 6);
        lemma_hex_seq_val(e.1.len() as int, 16);
        let entry = encode_entry(e);
        let tail_enc = encode_pairs(es.drop_first());
        let s = encode_pairs(es);
        assert(s == entry + tail_enc);
        assert(entry.len() == 22 + e.1.len());
        assert(s.len() >= 22 + e.1.len());
        assert(s.subrange(0, 6) =~= ks);
        assert(s.subrange(6, 22) =~= ls);
        assert(hex_val(s.subrange(6, 22)) == e.1.len());
        assert(s.subrange(22, 22 + e.1.len() as int) =~= e.1);
        assert(s.subrange(22 + e.1.len() as int, s.len() as int) =~= tail_enc);
        assert(wf_pairs(es.drop_first())) by {
            assert(forall|i: int|
                0 <= i < es.drop_first().len() ==> #[trigger] es.drop_first()[i] == es[i + 1]);
        }
        lemma_snapshot_round_trip(es.drop_first());
        assert(hex_val(s.subrange(0, 6)) as u32 == e.0);
        assert(seq![(e.0, e.1)] + es.drop_first() =~= es);
    }
}

/// Write the snapshot text for a sequence of store entries.
///
/// The keys must be 24-bit prefixes; every descriptor a string can hold
/// fits the length field.
pub fn encode_snapshot(entries: &Vec<(u32, String)>) -> (r: String)
    requires
        forall|i: int| 0 <= i < entries@.len() ==> (#[trigger] entries@[i]).0 < 0x1000000,
    ensures
        r@ == encode_pairs(pair_views(entries@)),
        wf_pairs(pair_views(entries@)),
{
    let ghost ps = pair_views(entries@);
    proof {
        lemma_pow16_values();
    }
    let mut out = String::new();
    let mut i: usize = 0;
    proof {
        assert(ps.take(0) =~= Seq::<(u32, Seq<char>)>::empty());
    }
    while i < entries.len()
        invariant
            i <= entries.len(),
            ps == pair_views(entries@),
            forall|j: int| 0 <= j < entries@.len() ==> (#[trigger] entries@[j]).0 < 0x1000000,
            out@ == encode_pairs(ps.take(i as int)),
            forall|j: int|
                0 <= j < i ==> (#[trigger] ps[j]).0 < 0x1000000 && ps[j].1.len() < pow16(16),
            pow16(16) == 0x10000000000000000,
        decreases entries.len() - i,
    {
        let k = entries[i].0;
        let key_part = hex_str(k as u64, 6);
        out.append(key_part.as_str());
        let l = entries[i].1.unicode_len();
        let len_part = hex_str(l as u64, 16);
        out.append(len_part.as_str());
        out.append(entries[i].1.as_str());
        proof {
            assert(ps[i as int] == (entries@[i as int].0, entries@[i as int].1@));
            assert(out@ == encode_pairs(ps.take(i as int)) + encode_entry(ps[i as int]));
            lemma_encode_pairs_push(ps.take(i as int), ps[i as int]);
            assert(ps.take(i as int).push(ps[i as int]) =~= ps.take(i as int + 1));
        }
        i = i + 1;
    }
    proof {
        assert(ps.take(i as int) =~= ps);
    }
    out
}

/// Read a snapshot text back into store entries; `SnapshotCorrupt` exactly
/// when the text is not a well-formed snapshot.
pub fn decode_snapshot(s: &str) -> (r: Result<Vec<(u32, String)>, VendorError>)
    ensures
        match r {
            Ok(entries) => decode_pairs(s@) == Some(pair_views(entries@)),
            Err(e) => e == VendorError::SnapshotCorrupt && decode_pairs(s@) is None,
        },
{
    proof {
        lemma_pow16_values();
    }
    let n = s.unicode_len();
    let mut out: Vec<(u32, String)> = Vec::new();
    let mut i: usize = 0;
    proof {
        assert(pair_views(out@) =~= Seq::<(u32, Seq<char>)>::empty());
        assert(s@.skip(0) =~= s@);
        match decode_pairs(s@) {
            Some(tail) => {
                assert(pair_views(out@) + tail =~= tail);
            },
            None => {},
        }
    }
    while i < n
        invariant
            i <= n,
            n == s@.len(),
            pow16(6) == 0x1000000,
            pow16(16) == 0x10000000000000000,
            match decode_pairs(s@.skip(i as int)) {
                Some(tail) => decode_pairs(s@) == Some(pair_views(out@) + tail),
                None => decode_pairs(s@) is None,
            },
        decreases n - i,
    {
        let ghost rem = s@.skip(i as int);
        proof {
            assert(rem.len() == n - i);
        }
        if n - i < 22 {
            return Err(VendorError::SnapshotCorrupt);
        }
        proof {
            assert(rem.subrange(0, 6) =~= s@.subrange(i as int, i as int + 6));
            assert(rem.subrange(6, 22) =~= s@.subrange(i as int + 6, i as int + 22));
        }
        let k = match parse_hex(s, i, 6) {
            Some(k) => k,
            None => {
                return Err(VendorError::SnapshotCorrupt);
            },
        };
        let l = match parse_hex(s, i + 6, 16) {
            Some(l) => l,
            None => {
                return Err(VendorError::SnapshotCorrupt);
            },
        };
        let remaining = (n - i - 22) as u64;
        if l > remaining {
            return Err(VendorError::SnapshotCorrupt);
        }
        let l_us = (l as usize);
        let v = s.substring_char(i + 22, i + 22 + l_us);
        proof {
            assert(rem.subrange(22, 22 + l as int) =~= s@.subrange(
                i as int + 22,
                i as int + 22 + l as int,
            ));
            assert(rem.subrange(22 + l as int, rem.len() as int) =~= s@.skip(
                i as int + 22 + l as int,
            ));
        }
        let entry_key: u32 = k as u32;
        out.push((entry_key, v.to_owned()));
        proof {
            let prev = out@.drop_last();
            assert(prev =~= out@.drop_last());
            assert(pair_views(out@) =~= pair_views(prev).push((entry_key, v@)));
            match decode_pairs(s@.skip(i as int + 22 + l as int)) {
                Some(tail2) => {
                    assert(decode_pairs(rem) == Some(seq![(entry_key, v@)] + tail2));
                    assert(pair_views(prev) + (seq![(entry_key, v@)] + tail2) =~= pair_views(out@)
                        + tail2);
                },
                None => {
                    assert(decode_pairs(rem) is None);
                },
            }
        }
        i = i + 22 + l_us;
    }
    proof {
        assert(s@.skip(i as int) =~= Seq::<char>::empty());
        assert(decode_pairs(s@) == Some(pair_views(out@) + Seq::<(u32, Seq<char>)>::empty()));
        assert(pair_views(out@) + Seq::<(u32, Seq<char>)>::empty() =~= pair_views(out@));
    }
    Ok(out)
}

} // verus!

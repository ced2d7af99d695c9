//! The in-memory vendor store: a read-only mapping from 24-bit address
//! prefixes to vendor descriptors, queried with 6-byte hardware addresses.

use vstd::prelude::*;
use std::collections::HashMap;
use crate::errors::VendorError;
use crate::hex::oui_key;
use crate::snapshot::{decode_pairs, decode_snapshot, encode_pairs, lemma_snapshot_round_trip,
    wf_pairs};

verus! {

broadcast use vstd::std_specs::hash::group_hash_axioms;

/// Relies on pnet_datalink::MacAddr (re-exported from pnet_base): a tuple
/// struct of six public bytes, one per octet of a hardware address; it is
/// declared here so that its bytes can be read by verified code.
#[verifier::external_type_specification]
pub struct ExMacAddr(pnet_datalink::MacAddr);

/// The view of a hash map with descriptor values as a mathematical map
/// from 24-bit keys to character sequences.
pub open spec fn records_view(m: Map<u32, String>) -> Map<u32, Seq<char>> {
    Map::new(|k: u32| m.contains_key(k), |k: u32| m[k]@)
}

/// Key/descriptor pairs with the descriptors viewed as character sequences.
pub open spec fn pair_views(entries: Seq<(u32, String)>) -> Seq<(u32, Seq<char>)> {
    entries.map_values(|p: (u32, String)| (p.0, p.1@))
}

/// The mapping that a sequence of key/descriptor pairs denotes: each pair
/// inserted in order, so a later pair with the same key overwrites an
/// earlier one.
pub open spec fn map_of_pairs(ps: Seq<(u32, Seq<char>)>) -> Map<u32, Seq<char>>
    decreases ps.len(),
{
    if ps.len() == 0 {
        Map::empty()
    } else {
        map_of_pairs(ps.drop_last()).insert(ps.last().0, ps.last().1)
    }
}

/// The store contents a snapshot text denotes, or `None` when the text is
/// not a snapshot this crate's writer could have produced.
pub open spec fn store_of_snapshot(s: Seq<char>) -> Option<Map<u32, Seq<char>>> {
    match decode_pairs(s) {
        Some(es) => Some(map_of_pairs(es)),
        None => None,
    }
}

/// Round-trip law: a snapshot written for any entries loads back to the
/// mapping those entries denote — same keys, same descriptors.
pub proof fn lemma_snapshot_round_trip_to_map(es: Seq<(u32, Seq<char>)>)
    requires
        wf_pairs(es),
    ensures
        store_of_snapshot(encode_pairs(es)) == Some(map_of_pairs(es)),
{
    lemma_snapshot_round_trip(es);
}

/// Idempotence law: loading twice from one unchanged snapshot yields
/// stores with identical contents, since the contents are a function of
/// the snapshot text alone.
pub proof fn lemma_open_idempotent(s: Seq<char>, m1: Map<u32, Seq<char>>, m2: Map<u32, Seq<char>>)
    requires
        store_of_snapshot(s) == Some(m1),
        store_of_snapshot(s) == Some(m2),
    ensures
        m1 == m2,
{
}

/// The vendor store: resolves the registered 24-bit prefix of a hardware
/// address to the vendor's descriptor. It is populated once, from the
/// registry or from a cached snapshot, and read-only afterwards.
#[derive(Debug, PartialEq)]
pub struct Vendor {
    records: HashMap<u32, String>,
}

impl View for Vendor {
    type V = Map<u32, Seq<char>>;

    closed spec fn view(&self) -> Map<u32, Seq<char>> {
        records_view(self.records@)
    }
}

impl Vendor {
    /// Build the store from key/descriptor pairs; a later pair with the
    /// same key overwrites an earlier one (last write wins, no merge).
    pub fn from_entries(entries: &Vec<(u32, String)>) -> (r: Vendor)
        ensures
            r@ == map_of_pairs(pair_views(entries@)),
    {
        let ghost ps = pair_views(entries@);
        let mut records: HashMap<u32, String> = HashMap::new();
        let mut i: usize = 0;
        proof {
            assert(records_view(records@) =~= map_of_pairs(ps.take(0)));
        }
        while i < entries.len()
            invariant
                i <= entries.len(),
                ps == pair_views(entries@),
                records_view(records@) == map_of_pairs(ps.take(i as int)),
            decreases entries.len() - i,
        {
            let k = entries[i].0;
            let v = entries[i].1.clone();
            records.insert(k, v);
            proof {
                let prev = ps.take(i as int);
                let next = ps.take(i as int + 1);
                assert(next.drop_last() =~= prev);
                assert(next.last() == ps[i as int]);
                assert(records_view(records@) =~= map_of_pairs(prev).insert(
                    ps[i as int].0,
                    ps[i as int].1,
                ));
            }
            i = i + 1;
        }
        proof {
            assert(ps.take(i as int) =~= ps);
        }
        Vendor { records }
    }

    /// Load the store from the text of a cached snapshot. A text that the
    /// snapshot writer could not have produced is reported as corrupt,
    /// never loaded partially.
    pub fn from_snapshot(text: &str) -> (r: Result<Vendor, VendorError>)
        ensures
            match r {
                Ok(store) => store_of_snapshot(text@) == Some(store@),
                Err(e) => e == VendorError::SnapshotCorrupt && store_of_snapshot(text@) is None,
            },
    {
        match decode_snapshot(text) {
            Ok(entries) => Ok(Vendor::from_entries(&entries)),
            Err(e) => Err(e),
        }
    }

    /// Whether the mapping holds at least one record; a coarse health
    /// check after construction.
    pub fn has_vendor_db(&self) -> (r: bool)
        ensures
            r == (self@.len() > 0),
    {
        let n = self.records.len();
        proof {
            assert(self.records@.dom() =~= self@.dom());
        }
        n > 0
    }

    /// Resolve a hardware address: its first three bytes form the 24-bit
    /// prefix key, and the descriptor registered under that key is
    /// returned. An unknown prefix yields `None`, never an error, and the
    /// store is left unchanged.
    pub fn search_by_mac(&mut self, mac_address: &pnet_datalink::MacAddr) -> (r: Option<String>)
        ensures
            *final(self) == *old(self),
            match r {
                Some(company) => {
                    &&& old(self)@.contains_key(
                        oui_key(mac_address.0, mac_address.1, mac_address.2),
                    )
                    &&& company@ == old(self)@[oui_key(
                        mac_address.0,
                        mac_address.1,
                        mac_address.2,
                    )]
                },
                None => !old(self)@.contains_key(
                    oui_key(mac_address.0, mac_address.1, mac_address.2),
                ),
            },
    {
        let k: u32 = (mac_address.0 as u32) * 0x10000 + (mac_address.1 as u32) * 0x100 + (
        mac_address.2 as u32);
        match self.records.get(&k) {
            Some(company) => Some(company.clone()),
            None => None,
        }
    }
}

} // verus!

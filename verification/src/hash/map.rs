//! The label registry: a process-lifetime bidirectional table from hashes
//! to the human-readable labels they were computed from, under one fixed
//! text encoding, with a strict or lenient resolution policy.

use vstd::prelude::*;
use vstd::string::StrSliceExecFns;
use vstd::utf8::encode_utf8;

use crate::hash::{hash_bytes, HashCode};

verus! {

/// The bidirectional map of the outside collection library, holding the
/// hash-to-label relation.
#[verifier::external_type_specification]
#[verifier::external_body]
#[verifier::reject_recursive_types(L)]
#[verifier::reject_recursive_types(R)]
#[verifier::reject_recursive_types(LS)]
#[verifier::reject_recursive_types(RS)]
pub struct ExBiHashMap<L, R, LS, RS>(bimap::BiHashMap<L, R, LS, RS>);

/// What a registry table holds: the label each hash maps to. The table also
/// keeps the reverse direction, which the contracts state through this one
/// map; the insert semantics below keep it injective.
pub uninterp spec fn registry_map(m: bimap::BiHashMap<u32, String>) -> Map<u32, Seq<char>>;

/// The mask selecting the low `w` bits of a hash.
pub open spec fn mask_of(w: u32) -> u32 {
    u32::MAX >> ((32 - w) as u32)
}

/// The empty hash-to-label relation.
pub open spec fn registry_empty() -> Map<u32, Seq<char>> {
    Map::empty()
}

/// The table after one insertion: the new pair is present, and any pair
/// that shared its hash or its label is gone.
pub open spec fn registry_insert_spec(m: Map<u32, Seq<char>>, h: u32, label: Seq<char>) -> Map<
    u32,
    Seq<char>,
> {
    Map::new(
        |k: u32| k == h || (m.dom().contains(k) && m[k] != label),
        |k: u32|
            if k == h {
                label
            } else {
                m[k]
            },
    )
}

/// Relies on `bimap::BiHashMap::new`: the new table is empty.
#[verifier::external_body]
fn registry_new() -> (r: bimap::BiHashMap<u32, String>)
    ensures
        registry_map(r) == registry_empty(),
{
    bimap::BiHashMap::new()
}

/// Relies on `bimap::BiHashMap::insert`: the pair is inserted after any
/// pair sharing its left or its right value is removed.
#[verifier::external_body]
fn registry_insert(m: &mut bimap::BiHashMap<u32, String>, h: u32, label: String)
    ensures
        registry_map(*final(m)) == registry_insert_spec(registry_map(*old(m)), h, label@),
{
    m.insert(h, label);
}

/// Relies on `bimap::BiHashMap::get_by_left`: the label stored for the
/// hash, if the hash is present.
#[verifier::external_body]
fn registry_get_by_left<'a>(m: &'a bimap::BiHashMap<u32, String>, h: &u32) -> (r: Option<
    &'a String,
>)
    ensures
        match r {
            Some(l) => registry_map(*m).dom().contains(*h) && registry_map(*m)[*h] == l@,
            None => !registry_map(*m).dom().contains(*h),
        },
{
    m.get_by_left(h)
}

/// Relies on `bimap::BiHashMap::get_by_right`: the hash stored for the
/// label, if the label is present; the table never holds one label under
/// two hashes.
#[verifier::external_body]
fn registry_get_by_right(m: &bimap::BiHashMap<u32, String>, label: &String) -> (r: Option<u32>)
    ensures
        match r {
            Some(h) => registry_map(*m).dom().contains(h) && registry_map(*m)[h] == label@,
            None => forall|k: u32|
                registry_map(*m).dom().contains(k) ==> #[trigger] registry_map(*m)[k] != label@,
        },
{
    m.get_by_right(label).copied()
}

/// Relies on `bimap::BiHashMap::clear`: every pair is removed.
#[verifier::external_body]
fn registry_clear(m: &mut bimap::BiHashMap<u32, String>)
    ensures
        registry_map(*final(m)) == registry_empty(),
{
    m.clear();
}

/// Relies on `bimap::BiHashMap::iter`: every stored pair is handed out
/// exactly once, in no fixed order.
#[verifier::external_body]
fn registry_pairs(m: &bimap::BiHashMap<u32, String>) -> (r: Vec<(u32, String)>)
    ensures
        forall|i: int|
            0 <= i < r@.len() ==> registry_map(*m).dom().contains((#[trigger] r@[i]).0)
                && registry_map(*m)[r@[i].0] == r@[i].1@,
        forall|k: u32|
            registry_map(*m).dom().contains(k) ==> exists|i: int|
                0 <= i < r@.len() && (#[trigger] r@[i]).0 == k,
{
    m.iter().map(|(l, r)| (*l, r.clone())).collect()
}

/// What the text-encoding library turns a label into under the Shift JIS
/// encoding: its encoded bytes, or nothing where the label has no Shift JIS
/// form.
pub uninterp spec fn shift_jis_of(s: Seq<char>) -> Option<Seq<u8>>;

/// Relies on `encoding_rs::SHIFT_JIS` and `Encoding::encode`: the encoded
/// bytes of the label, or nothing where the encoder reported unmappable
/// characters.
#[verifier::external_body]
fn encode_shift_jis(label: &String) -> (r: Option<Vec<u8>>)
    ensures
        match r {
            Some(v) => shift_jis_of(label@) == Some(v@),
            None => shift_jis_of(label@) is None,
        },
{
    let (encoded, _, is_error) = encoding_rs::SHIFT_JIS.encode(label.as_str());
    if is_error {
        None
    } else {
        Some(encoded.into_owned())
    }
}

/// An error returned from converting a collection of labels.
#[derive(Debug, Clone, Copy, PartialEq, Eq, Structural)]
pub enum ParseLabelError {
    /// Labels were offered under a character encoding that does not match
    /// the encoding the registry was first populated with.
    InconsistentEncoding,
    /// A label has no Shift JIS form.
    EncodeShiftJis,
}

/// A character encoding for labels prior to hashing.
#[derive(Debug, Clone, Copy, PartialEq, Eq, Structural)]
pub enum LabelEncoding {
    /// Shift JIS.
    ShiftJis,
    /// UTF-8.
    Utf8,
}

/// The hash a label receives under an encoding: the hash of its encoded
/// bytes, or nothing where it cannot be encoded. An unset registry encoding
/// hashes the label's UTF-8 bytes.
pub open spec fn label_hash(label: Seq<char>, enc: Option<LabelEncoding>) -> Option<u32> {
    match enc {
        Some(LabelEncoding::ShiftJis) => match shift_jis_of(label) {
            Some(b) => Some(hash_bytes(b)),
            None => None,
        },
        _ => Some(hash_bytes(encode_utf8(label))),
    }
}

/// The registry after ingesting a list of labels under Shift JIS, each
/// hashed from its encoded bytes; nothing where some label cannot be
/// encoded.
pub open spec fn sj_extend_spec(m: Map<u32, Seq<char>>, labels: Seq<Seq<char>>) -> Option<
    Map<u32, Seq<char>>,
>
    decreases labels.len(),
{
    if labels.len() == 0 {
        Some(m)
    } else {
        match shift_jis_of(labels[0]) {
            None => None,
            Some(b) => sj_extend_spec(
                registry_insert_spec(m, hash_bytes(b), labels[0]),
                labels.drop_first(),
            ),
        }
    }
}

/// The registry after ingesting a list of labels under UTF-8, each hashed
/// from its UTF-8 bytes.
pub open spec fn utf8_extend_spec(m: Map<u32, Seq<char>>, labels: Seq<Seq<char>>) -> Map<
    u32,
    Seq<char>,
>
    decreases labels.len(),
{
    if labels.len() == 0 {
        m
    } else {
        utf8_extend_spec(
            registry_insert_spec(m, hash_bytes(encode_utf8(labels[0])), labels[0]),
            labels.drop_first(),
        )
    }
}

/// A container for associating hashes with their original label and vice
/// versa: populated once under a fixed encoding, read many times during a
/// conversion. Callers share one registry per process and must serialize
/// access to it.
pub struct HashCodeMap {
    /// The collection of bidirectional relations between hashes and labels.
    map: bimap::BiHashMap<u32, String>,
    /// The configured character encoding for labels.
    encoding: Option<LabelEncoding>,
    /// Determines if foreign labels should be rejected when looking up the
    /// hash of a label.
    strict: bool,
}

impl HashCodeMap {
    /// The stored hash-to-label relation, for use in contracts.
    pub closed spec fn labels(&self) -> Map<u32, Seq<char>> {
        registry_map(self.map)
    }

    /// The encoding the registry was populated under, if any.
    pub closed spec fn encoding_of(&self) -> Option<LabelEncoding> {
        self.encoding
    }

    /// Is the registry rejecting unknown labels?
    pub closed spec fn is_strict(&self) -> bool {
        self.strict
    }

    /// Creates an empty, lenient registry with no fixed encoding.
    pub fn new() -> (r: Self)
        ensures
            r.labels() == Map::<u32, Seq<char>>::empty(),
            r.encoding_of() is None,
            !r.is_strict(),
    {
        Self { map: registry_new(), encoding: None, strict: false }
    }

    /// Returns the label stored for the hash. With a width, only the low
    /// `width` bits are compared, and some label whose hash matches under
    /// the mask is returned; which one is unspecified where several match.
    pub fn label_of(&self, hash: HashCode, width: Option<u32>) -> (r: Option<String>)
        requires
            match width {
                Some(w) => 0 < w <= 32,
                None => true,
            },
        ensures
            match width {
                None => match r {
                    Some(l) => self.labels().dom().contains(hash.spec_raw()) && self.labels()[
                    hash.spec_raw()] == l@,
                    None => !self.labels().dom().contains(hash.spec_raw()),
                },
                Some(w) => match r {
                    Some(l) => exists|k: u32|
                        #![trigger self.labels()[k]]
                        self.labels().dom().contains(k) && k & mask_of(w) == hash.spec_raw()
                            & mask_of(w) && self.labels()[k] == l@,
                    None => forall|k: u32|
                        self.labels().dom().contains(k) ==> (#[trigger] (k & mask_of(w)))
                            != hash.spec_raw() & mask_of(w),
                },
            },
    {
        match width {
            None => match registry_get_by_left(&self.map, &hash.into_raw()) {
                Some(l) => Some(l.clone()),
                None => None,
            },
            Some(w) => {
                let mask: u32 = u32::MAX >> ((32 - w) as u32);
                let masked = hash.into_raw() & mask;
                let pairs = registry_pairs(&self.map);
                let mut i: usize = 0;
                while i < pairs.len()
                    invariant
                        width == Some(w),
                        mask == mask_of(w),
                        masked == hash.spec_raw() & mask,
                        i <= pairs@.len(),
                        forall|j: int|
                            0 <= j < pairs@.len() ==> self.labels().dom().contains(
                                (#[trigger] pairs@[j]).0,
                            ) && self.labels()[pairs@[j].0] == pairs@[j].1@,
                        forall|k: u32|
                            self.labels().dom().contains(k) ==> exists|j: int|
                                0 <= j < pairs@.len() && (#[trigger] pairs@[j]).0 == k,
                        forall|j: int|
                            0 <= j < i ==> ((#[trigger] pairs@[j]).0 & mask) != masked,
                    decreases pairs@.len() - i,
                {
                    if pairs[i].0 & mask == masked {
                        let l = pairs[i].1.clone();
                        proof {
                            let kk = pairs@[i as int].0;
                            assert(self.labels().dom().contains(kk));
                            assert(kk & mask_of(w) == hash.spec_raw() & mask_of(w));
                            assert(self.labels()[kk] == l@);
                        }
                        return Some(l);
                    }
                    i += 1;
                }
                proof {
                    assert forall|k: u32| self.labels().dom().contains(k) implies (#[trigger] (k
                        & mask_of(w))) != hash.spec_raw() & mask_of(w) by {
                        let j = choose|j: int|
                            0 <= j < pairs@.len() && (#[trigger] pairs@[j]).0 == k;
                        assert((pairs@[j].0 & mask) != masked);
                    }
                }
                None
            },
        }
    }

    /// Returns the hash stored for the label. An unknown label is an error
    /// under the strict policy; otherwise its hash is recomputed from its
    /// bytes under the registry's fixed encoding, failing only where that
    /// encoding cannot represent the label.
    pub fn hash_of(&self, label: &String) -> (r: Option<HashCode>)
        ensures
            match r {
                Some(h) => (self.labels().dom().contains(h.spec_raw()) && self.labels()[
                h.spec_raw()] == label@) || (!self.is_strict() && (forall|k: u32|
                    self.labels().dom().contains(k) ==> #[trigger] self.labels()[k] != label@)
                    && label_hash(label@, self.encoding_of()) == Some(h.spec_raw())),
                None => (forall|k: u32|
                    self.labels().dom().contains(k) ==> #[trigger] self.labels()[k] != label@) && (
                self.is_strict() || label_hash(label@, self.encoding_of()) is None),
            },
    {
        match registry_get_by_right(&self.map, label) {
            Some(h) => Some(HashCode::from_raw(h)),
            None => {
                if self.strict {
                    None
                } else {
                    match self.encoding {
                        Some(LabelEncoding::ShiftJis) => match encode_shift_jis(label) {
                            Some(b) => Some(HashCode::from_bytes(b.as_slice())),
                            None => None,
                        },
                        _ => {
                            let b = label.as_str().as_bytes_vec();
                            Some(HashCode::from_bytes(b.as_slice()))
                        },
                    }
                }
            },
        }
    }

    /// Hashes and inserts a collection of labels, converting to Shift JIS.
    /// A registry already populated under UTF-8 rejects the whole request;
    /// a label with no Shift JIS form stops the ingestion where it stands.
    pub fn extend_shift_jis(&mut self, labels: Vec<String>) -> (r: Result<(), ParseLabelError>)
        ensures
            old(self).encoding_of() == Some(LabelEncoding::Utf8) <==> r == Err::<
                (),
                ParseLabelError,
            >(ParseLabelError::InconsistentEncoding),
            match r {
                Ok(()) => {
                    &&& final(self).encoding_of() == Some(LabelEncoding::ShiftJis)
                    &&& Some(final(self).labels()) == sj_extend_spec(
                        old(self).labels(),
                        labels@.map_values(|l: String| l@),
                    )
                    &&& final(self).is_strict() == old(self).is_strict()
                },
                Err(er) => er == ParseLabelError::InconsistentEncoding || (er
                    == ParseLabelError::EncodeShiftJis && sj_extend_spec(
                    old(self).labels(),
                    labels@.map_values(|l: String| l@),
                ) is None),
            },
    {
        match self.encoding {
            Some(LabelEncoding::Utf8) => {
                return Err(ParseLabelError::InconsistentEncoding);
            },
            _ => {},
        }
        self.encoding = Some(LabelEncoding::ShiftJis);
        let ghost all = labels@.map_values(|l: String| l@);
        let n = labels.len();
        let mut i: usize = 0;
        proof {
            assert(all.skip(0) =~= all);
        }
        while i < n
            invariant
                n == labels@.len(),
                i <= n,
                all == labels@.map_values(|l: String| l@),
                old(self).encoding_of() != Some(LabelEncoding::Utf8),
                self.encoding == Some(LabelEncoding::ShiftJis),
                self.strict == old(self).strict,
                sj_extend_spec(old(self).labels(), all) == sj_extend_spec(
                    registry_map(self.map),
                    all.skip(i as int),
                ),
            decreases n - i,
        {
            proof {
                assert(all.skip(i as int)[0] == labels@[i as int]@);
                assert(all.skip(i as int).drop_first() =~= all.skip(i + 1));
            }
            let label = labels[i].clone();
            match encode_shift_jis(&label) {
                Some(b) => {
                    let h = HashCode::from_bytes(b.as_slice());
                    registry_insert(&mut self.map, h.into_raw(), label);
                },
                None => {
                    return Err(ParseLabelError::EncodeShiftJis);
                },
            }
            i += 1;
        }
        proof {
            assert(all.skip(n as int) =~= Seq::<Seq<char>>::empty());
        }
        Ok(())
    }

    /// Hashes and inserts a collection of labels, interpreting them as
    /// UTF-8. A registry already populated under Shift JIS rejects the
    /// whole request.
    pub fn extend_utf8(&mut self, labels: Vec<String>) -> (r: Result<(), ParseLabelError>)
        ensures
            old(self).encoding_of() == Some(LabelEncoding::ShiftJis) <==> r == Err::<
                (),
                ParseLabelError,
            >(ParseLabelError::InconsistentEncoding),
            match r {
                Ok(()) => {
                    &&& final(self).encoding_of() == Some(LabelEncoding::Utf8)
                    &&& final(self).labels() == utf8_extend_spec(
                        old(self).labels(),
                        labels@.map_values(|l: String| l@),
                    )
                    &&& final(self).is_strict() == old(self).is_strict()
                },
                Err(er) => er == ParseLabelError::InconsistentEncoding,
            },
    {
        match self.encoding {
            Some(LabelEncoding::ShiftJis) => {
                return Err(ParseLabelError::InconsistentEncoding);
            },
            _ => {},
        }
        self.encoding = Some(LabelEncoding::Utf8);
        let ghost all = labels@.map_values(|l: String| l@);
        let n = labels.len();
        let mut i: usize = 0;
        proof {
            assert(all.skip(0) =~= all);
        }
        while i < n
            invariant
                n == labels@.len(),
                i <= n,
                all == labels@.map_values(|l: String| l@),
                old(self).encoding_of() != Some(LabelEncoding::ShiftJis),
                self.encoding == Some(LabelEncoding::Utf8),
                self.strict == old(self).strict,
                utf8_extend_spec(old(self).labels(), all) == utf8_extend_spec(
                    registry_map(self.map),
                    all.skip(i as int),
                ),
            decreases n - i,
        {
            proof {
                assert(all.skip(i as int)[0] == labels@[i as int]@);
                assert(all.skip(i as int).drop_first() =~= all.skip(i + 1));
            }
            let label = labels[i].clone();
            let b = label.as_str().as_bytes_vec();
            let h = HashCode::from_bytes(b.as_slice());
            registry_insert(&mut self.map, h.into_raw(), label);
            i += 1;
        }
        proof {
            assert(all.skip(n as int) =~= Seq::<Seq<char>>::empty());
        }
        Ok(())
    }

    /// Updates whether foreign labels should be rejected when looking up
    /// the hash of a label.
    pub fn set_strict(&mut self, strict: bool)
        ensures
            final(self).is_strict() == strict,
            final(self).labels() == old(self).labels(),
            final(self).encoding_of() == old(self).encoding_of(),
    {
        self.strict = strict;
    }

    /// Clears the map, removing all key-value pairs and keeping the
    /// configuration.
    pub fn clear(&mut self)
        ensures
            final(self).labels() == Map::<u32, Seq<char>>::empty(),
            final(self).encoding_of() == old(self).encoding_of(),
            final(self).is_strict() == old(self).is_strict(),
    {
        registry_clear(&mut self.map);
    }

    /// Clears the map and resets the encoding and the strict policy.
    pub fn reset(&mut self)
        ensures
            final(self).labels() == Map::<u32, Seq<char>>::empty(),
            final(self).encoding_of() is None,
            !final(self).is_strict(),
    {
        registry_clear(&mut self.map);
        self.encoding = None;
        self.strict = false;
    }
}

} // verus!

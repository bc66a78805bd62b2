//! The Launch Star path-trace codec: a zone-grouped, escape-byte-delimited,
//! quantized variable-length encoding of per-object completion percentages.

use vstd::prelude::*;

use crate::bytes::{dec_u16, enc_u16, enc_u8, lemma_u16_round_trip, read_u16, read_u8, write_u16};
use crate::endian::Endian;
use crate::error::BinError;
use crate::framing::chunk::Chunk;
use crate::hash::HashCode;

verus! {

/// A container for the state of one Launch Star path.
///
/// The traced percentage is held quantized: `draw_range_q` counts steps of
/// 1/256, with `0` standing for no trace, `256` for a complete trace, and
/// `k` for `k/256`. A record whose numerator is zero is below the encoder's
/// tolerance and vanishes from the wire format.
#[derive(Debug, Clone, Copy, PartialEq, Eq, Structural)]
pub struct SpinDriverPathStorageOne {
    /// The index of the associated zone.
    pub zone_id: i32,
    /// The Launch Star object's `Obj_arg7` value.
    pub draw_range_index: i32,
    /// The quantized percentage of the path that is traced, in steps of
    /// 1/256.
    pub draw_range_q: u16,
}

impl SpinDriverPathStorageOne {
    /// Structural validity: the zone and index fit their six-bit wire
    /// fields — the all-ones zone escape is the stream terminator, so zone
    /// 63 cannot be written — and the numerator is at most one whole.
    pub open spec fn wf(self) -> bool {
        0 <= self.zone_id < 63 && 0 <= self.draw_range_index < 64 && self.draw_range_q <= 256
    }
}

/// The wire bytes of one record: nothing at all below the tolerance, else
/// the index with the high flag bit, then the numerator byte, where a full
/// trace of 256 wraps to zero.
pub open spec fn one_enc(o: SpinDriverPathStorageOne) -> Seq<u8> {
    if o.draw_range_q == 0 {
        Seq::empty()
    } else {
        seq![((o.draw_range_index as u8) & 0x3F) | 0x80, o.draw_range_q as u8]
    }
}

/// The concatenated wire bytes of a sequence of records.
pub open spec fn ones_enc(s: Seq<SpinDriverPathStorageOne>) -> Seq<u8>
    decreases s.len(),
{
    if s.len() == 0 {
        Seq::empty()
    } else {
        one_enc(s[0]) + ones_enc(s.drop_first())
    }
}

/// The records of zone `z` that survive the tolerance filter, in order.
pub open spec fn zone_records(s: Seq<SpinDriverPathStorageOne>, z: int) -> Seq<
    SpinDriverPathStorageOne,
>
    decreases s.len(),
{
    if s.len() == 0 {
        Seq::empty()
    } else {
        zone_records(s.drop_last(), z) + (if s.last().zone_id == z && s.last().draw_range_q >= 1 {
            seq![s.last()]
        } else {
            Seq::empty()
        })
    }
}

/// The wire bytes of one zone: nothing when no record survives, else the
/// zone escape byte followed by the surviving records.
pub open spec fn zone_block_enc(s: Seq<SpinDriverPathStorageOne>, z: int) -> Seq<u8> {
    let surv = zone_records(s, z);
    if surv.len() == 0 {
        Seq::empty()
    } else {
        seq![((z as u8) & 0x3F) | 0xC0] + ones_enc(surv)
    }
}

/// The wire bytes of every zone from `z` upward, ascending.
pub open spec fn zones_enc(s: Seq<SpinDriverPathStorageOne>, z: int) -> Seq<u8>
    decreases 64 - z,
{
    if z >= 64 {
        Seq::empty()
    } else {
        zone_block_enc(s, z) + zones_enc(s, z + 1)
    }
}

/// The wire bytes of the zones below `z`, for walking the zones forward.
pub open spec fn zones_enc_prefix(s: Seq<SpinDriverPathStorageOne>, z: int) -> Seq<u8>
    decreases z,
{
    if z <= 0 {
        Seq::empty()
    } else {
        zones_enc_prefix(s, z - 1) + zone_block_enc(s, z - 1)
    }
}

pub proof fn lemma_zones_enc_prefix(s: Seq<SpinDriverPathStorageOne>, z: int)
    requires
        0 <= z <= 64,
    ensures
        zones_enc(s, 0) == zones_enc_prefix(s, z) + zones_enc(s, z),
    decreases z,
{
    if z == 0 {
        assert(zones_enc(s, 0) =~= zones_enc_prefix(s, 0) + zones_enc(s, 0));
    } else {
        lemma_zones_enc_prefix(s, z - 1);
        assert(zones_enc(s, z - 1) == zone_block_enc(s, z - 1) + zones_enc(s, z));
        assert(zones_enc(s, 0) =~= zones_enc_prefix(s, z) + zones_enc(s, z));
    }
}

/// The surviving records regrouped by ascending zone, from zone `z` upward:
/// what a decoder reads back from an encoded stream.
pub open spec fn grouped_from(s: Seq<SpinDriverPathStorageOne>, z: int) -> Seq<
    SpinDriverPathStorageOne,
>
    decreases 64 - z,
{
    if z >= 64 {
        Seq::empty()
    } else {
        zone_records(s, z) + grouped_from(s, z + 1)
    }
}

/// The canonical order of a record list: grouped by ascending zone with the
/// below-tolerance records dropped.
pub open spec fn grouped(s: Seq<SpinDriverPathStorageOne>) -> Seq<SpinDriverPathStorageOne> {
    grouped_from(s, 0)
}

/// The body of a path-trace stream: the zone groups then the terminator.
pub open spec fn scenario_body(s: Seq<SpinDriverPathStorageOne>) -> Seq<u8> {
    zones_enc(s, 0) + seq![0xFFu8]
}

/// A full path-trace stream: its declared length, counting the length field
/// itself, then the body.
pub open spec fn scenario_enc(s: Seq<SpinDriverPathStorageOne>, e: Endian) -> Seq<u8> {
    enc_u16((2 + scenario_body(s).len()) as u16, e) + scenario_body(s)
}

/// Decodes the body of a path-trace stream one byte at a time: `0xFF` ends
/// the stream; a byte with both top bits set opens a new zone; any other
/// byte is a record for the current zone, a second byte carrying the
/// numerator when the high flag bit is set. A record before any zone escape
/// is an error.
pub open spec fn trace_dec(buf: Seq<u8>, pos: int, zone: Option<int>) -> Option<
    (Seq<SpinDriverPathStorageOne>, int),
>
    decreases buf.len() - pos,
{
    if pos < 0 || pos >= buf.len() {
        None
    } else {
        let b = buf[pos];
        if b == 0xFF {
            Some((Seq::empty(), pos + 1))
        } else if b & 0xC0 == 0xC0 {
            trace_dec(buf, pos + 1, Some((b & 0x3F) as int))
        } else {
            match zone {
                None => None,
                Some(z) => {
                    if b & 0x80 != 0 {
                        if pos + 1 >= buf.len() {
                            None
                        } else {
                            let nb = buf[pos + 1];
                            let q: u16 = if nb == 0 {
                                256
                            } else {
                                nb as u16
                            };
                            let o = SpinDriverPathStorageOne {
                                zone_id: z as i32,
                                draw_range_index: (b & 0x3F) as i32,
                                draw_range_q: q,
                            };
                            match trace_dec(buf, pos + 2, zone) {
                                None => None,
                                Some((s, r)) => Some((seq![o] + s, r)),
                            }
                        }
                    } else {
                        let q: u16 = if b & 0x40 != 0 {
                            256
                        } else {
                            0
                        };
                        let o = SpinDriverPathStorageOne {
                            zone_id: z as i32,
                            draw_range_index: (b & 0x3F) as i32,
                            draw_range_q: q,
                        };
                        match trace_dec(buf, pos + 1, zone) {
                            None => None,
                            Some((s, r)) => Some((seq![o] + s, r)),
                        }
                    }
                },
            }
        }
    }
}

/// Decodes a full path-trace stream: the declared length, the body, and the
/// check that the bytes consumed match the declaration exactly.
pub open spec fn scenario_dec(buf: Seq<u8>, pos: int, e: Endian) -> Option<
    (Seq<SpinDriverPathStorageOne>, int),
> {
    if pos + 2 > buf.len() {
        None
    } else {
        let declared = dec_u16(buf[pos], buf[pos + 1], e) as int;
        match trace_dec(buf, pos + 2, None) {
            None => None,
            Some((s, end)) => {
                if end - pos == declared {
                    Some((s, end))
                } else {
                    None
                }
            },
        }
    }
}

/// Every record a zone filter keeps came from its zone, survives the
/// tolerance, and is as valid as the list it came from.
pub proof fn lemma_zone_records_props(s: Seq<SpinDriverPathStorageOne>, z: int)
    requires
        forall|i: int| 0 <= i < s.len() ==> (#[trigger] s[i]).wf(),
    ensures
        forall|i: int|
            0 <= i < zone_records(s, z).len() ==> (#[trigger] zone_records(s, z)[i]).wf()
                && zone_records(s, z)[i].zone_id == z && zone_records(s, z)[i].draw_range_q >= 1,
    decreases s.len(),
{
    if s.len() > 0 {
        assert forall|i: int| 0 <= i < s.len() - 1 implies (#[trigger] s.drop_last()[i]).wf() by {
            assert(s.drop_last()[i] == s[i]);
        }
        lemma_zone_records_props(s.drop_last(), z);
        let pre = zone_records(s.drop_last(), z);
        assert forall|i: int| 0 <= i < zone_records(s, z).len() implies (#[trigger] zone_records(
            s,
            z,
        )[i]).wf() && zone_records(s, z)[i].zone_id == z && zone_records(s, z)[i].draw_range_q
            >= 1 by {
            if i < pre.len() {
                assert(zone_records(s, z)[i] == pre[i]);
            } else {
                assert(zone_records(s, z)[i] == s.last());
                assert(s[s.len() - 1].wf());
            }
        }
    }
}

/// The wire size of a record list: two bytes per surviving record.
pub proof fn lemma_ones_enc_len(s: Seq<SpinDriverPathStorageOne>)
    requires
        forall|i: int| 0 <= i < s.len() ==> (#[trigger] s[i]).draw_range_q >= 1,
    ensures
        ones_enc(s).len() == 2 * s.len(),
    decreases s.len(),
{
    if s.len() > 0 {
        assert(s.drop_first().len() == s.len() - 1);
        assert(forall|i: int|
            0 <= i < s.drop_first().len() ==> (#[trigger] s.drop_first()[i]) == s[i + 1]);
        lemma_ones_enc_len(s.drop_first());
    }
}

/// Reading a run of surviving records of one zone: each decodes back
/// exactly, and the scan continues into whatever follows the run.
pub proof fn lemma_ones_round_trip(
    rs: Seq<SpinDriverPathStorageOne>,
    z: int,
    buf: Seq<u8>,
    pos: int,
    rest: Seq<SpinDriverPathStorageOne>,
    end: int,
)
    requires
        0 <= z < 63,
        forall|i: int|
            0 <= i < rs.len() ==> (#[trigger] rs[i]).wf() && rs[i].zone_id == z
                && rs[i].draw_range_q >= 1,
        0 <= pos,
        pos + ones_enc(rs).len() <= buf.len(),
        buf.subrange(pos, pos + ones_enc(rs).len() as int) == ones_enc(rs),
        trace_dec(buf, pos + ones_enc(rs).len(), Some(z)) == Some((rest, end)),
    ensures
        trace_dec(buf, pos, Some(z)) == Some((rs + rest, end)),
    decreases rs.len(),
{
    if rs.len() == 0 {
        assert(rs + rest =~= rest);
    } else {
        let o = rs[0];
        let whole = ones_enc(rs);
        let head = one_enc(o);
        let tail = rs.drop_first();
        let tenc = ones_enc(tail);
        assert(whole == head + tenc);
        assert(forall|i: int| 0 <= i < whole.len() ==> buf[pos + i] == #[trigger] whole[i]) by {
            assert(forall|i: int|
                0 <= i < whole.len() ==> buf.subrange(pos, pos + whole.len() as int)[i]
                    == #[trigger] whole[i]);
        }
        let oi: i32 = o.draw_range_index;
        let oq: u16 = o.draw_range_q;
        let ib: u8 = oi as u8;
        let b: u8 = (ib & 0x3F) | 0x80;
        let nb: u8 = oq as u8;
        assert(whole[0] == b && whole[1] == nb);
        assert(buf[pos + 0] == whole[0] && buf[pos + 1] == whole[1]);
        assert(ib < 64) by (bit_vector)
            requires
                ib == oi as u8,
                0 <= oi < 64,
        ;
        assert(b != 0xFF && b & 0xC0 != 0xC0 && b & 0x80 != 0 && b & 0x3F == ib) by (bit_vector)
            requires
                b == (ib & 0x3F) | 0x80 && ib < 64,
        ;
        assert((b & 0x3F) as i32 == oi) by (bit_vector)
            requires
                b & 0x3F == ib,
                ib == oi as u8,
                0 <= oi < 64,
        ;
        let q: u16 = if nb == 0 {
            256
        } else {
            nb as u16
        };
        assert(q == oq) by (bit_vector)
            requires
                nb == oq as u8,
                1 <= oq <= 256,
                q == (if nb == 0 {
                    256u16
                } else {
                    nb as u16
                }),
        ;
        assert(z as i32 == o.zone_id);
        assert(buf.subrange(pos + 2, pos + 2 + tenc.len() as int) =~= tenc) by {
            assert(forall|i: int|
                0 <= i < tenc.len() ==> whole[2 + i] == #[trigger] tenc[i]);
        }
        assert(forall|i: int|
            0 <= i < tail.len() ==> (#[trigger] tail[i]) == rs[i + 1]);
        lemma_ones_round_trip(tail, z, buf, pos + 2, rest, end);
        assert(pos + 2 + tenc.len() == pos + whole.len());
        assert(trace_dec(buf, pos + 2, Some(z)) == Some((tail + rest, end)));
        assert(seq![o] + (tail + rest) =~= rs + rest);
    }
}

/// Reading the zone groups from `z` upward followed by the terminator gives
/// back exactly the surviving records grouped by ascending zone, whatever
/// zone the scan was in when it arrived.
pub proof fn lemma_zones_round_trip(
    s: Seq<SpinDriverPathStorageOne>,
    z: int,
    buf: Seq<u8>,
    pos: int,
    zcur: Option<int>,
)
    requires
        forall|i: int| 0 <= i < s.len() ==> (#[trigger] s[i]).wf(),
        0 <= z <= 64,
        0 <= pos,
        pos + zones_enc(s, z).len() + 1 <= buf.len(),
        buf.subrange(pos, pos + zones_enc(s, z).len() + 1) == zones_enc(s, z) + seq![0xFFu8],
    ensures
        trace_dec(buf, pos, zcur) == Some((grouped_from(s, z), pos + zones_enc(s, z).len() + 1)),
    decreases 64 - z,
{
    let whole = zones_enc(s, z) + seq![0xFFu8];
    assert(forall|i: int| 0 <= i < whole.len() ==> buf[pos + i] == #[trigger] whole[i]) by {
        assert(forall|i: int|
            0 <= i < whole.len() ==> buf.subrange(pos, pos + whole.len() as int)[i]
                == #[trigger] whole[i]);
    }
    if z == 64 {
        assert(zones_enc(s, 64) =~= Seq::<u8>::empty());
        assert(whole[0] == 0xFF);
        assert(buf[pos + 0] == whole[0]);
        assert(trace_dec(buf, pos, zcur) == Some((Seq::<SpinDriverPathStorageOne>::empty(), pos + 1)));
        assert(grouped_from(s, 64) =~= Seq::<SpinDriverPathStorageOne>::empty());
    } else {
        let surv = zone_records(s, z);
        lemma_zone_records_props(s, z);
        if surv.len() == 0 {
            assert(zone_block_enc(s, z) =~= Seq::<u8>::empty());
            assert(zones_enc(s, z) =~= zones_enc(s, z + 1));
            assert(buf.subrange(pos, pos + zones_enc(s, z + 1).len() + 1) =~= zones_enc(s, z + 1)
                + seq![0xFFu8]);
            lemma_zones_round_trip(s, z + 1, buf, pos, zcur);
            assert(grouped_from(s, z) =~= grouped_from(s, z + 1));
        } else {
            lemma_ones_enc_len(surv);
            let zb: u8 = z as u8;
            let esc: u8 = (zb & 0x3F) | 0xC0;
            let block = zone_block_enc(s, z);
            assert(block == seq![esc] + ones_enc(surv));
            assert(zones_enc(s, z) == block + zones_enc(s, z + 1));
            assert(whole[0] == esc) by {
                assert(block[0] == esc);
            }
            assert(buf[pos + 0] == whole[0]);
            assert(esc != 0xFF && esc & 0xC0 == 0xC0 && (esc & 0x3F) == zb) by (bit_vector)
                requires
                    esc == (zb & 0x3F) | 0xC0,
                    zb < 63,
            ;
            assert(((esc & 0x3F) as int) == z);
            let onesl = ones_enc(surv).len() as int;
            assert(buf.subrange(pos + 1, pos + 1 + onesl) =~= ones_enc(surv)) by {
                assert(forall|i: int|
                    0 <= i < onesl ==> whole[1 + i] == #[trigger] ones_enc(surv)[i]) by {
                    assert(forall|i: int|
                        0 <= i < onesl ==> block[1 + i] == #[trigger] ones_enc(surv)[i]);
                }
            }
            let rest_pos = pos + 1 + onesl;
            assert(buf.subrange(rest_pos, rest_pos + zones_enc(s, z + 1).len() + 1) =~= zones_enc(
                s,
                z + 1,
            ) + seq![0xFFu8]) by {
                assert(forall|i: int|
                    0 <= i < zones_enc(s, z + 1).len() + 1 ==> whole[1 + onesl + i]
                        == #[trigger] (zones_enc(s, z + 1) + seq![0xFFu8])[i]);
            }
            lemma_zones_round_trip(s, z + 1, buf, rest_pos, Some(z));
            lemma_ones_round_trip(
                surv,
                z,
                buf,
                pos + 1,
                grouped_from(s, z + 1),
                rest_pos + zones_enc(s, z + 1).len() + 1,
            );
            assert(trace_dec(buf, pos, zcur) == trace_dec(buf, pos + 1, Some(z)));
            assert(surv + grouped_from(s, z + 1) =~= grouped_from(s, z));
        }
    }
}

/// Round trip for a whole path-trace stream: decoding an encoded record
/// list gives back exactly the surviving records grouped by ascending zone
/// — the same zone groupings and index/numerator pairs, with every record
/// below the tolerance gone.
pub proof fn lemma_scenario_round_trip(
    s: Seq<SpinDriverPathStorageOne>,
    buf: Seq<u8>,
    pos: int,
    e: Endian,
)
    requires
        forall|i: int| 0 <= i < s.len() ==> (#[trigger] s[i]).wf(),
        0 <= pos,
        scenario_body(s).len() + 2 <= 0xFFFF,
        pos + scenario_enc(s, e).len() <= buf.len(),
        buf.subrange(pos, pos + scenario_enc(s, e).len() as int) == scenario_enc(s, e),
    ensures
        scenario_dec(buf, pos, e) == Some((grouped(s), pos + scenario_enc(s, e).len() as int)),
{
    let whole = scenario_enc(s, e);
    let body = scenario_body(s);
    let declared: u16 = (2 + body.len()) as u16;
    let lb = enc_u16(declared, e);
    assert(whole == lb + body);
    assert(forall|i: int| 0 <= i < whole.len() ==> buf[pos + i] == #[trigger] whole[i]) by {
        assert(forall|i: int|
            0 <= i < whole.len() ==> buf.subrange(pos, pos + whole.len() as int)[i]
                == #[trigger] whole[i]);
    }
    assert(buf[pos + 0] == whole[0] && buf[pos + 1] == whole[1]);
    assert(whole[0] == lb[0] && whole[1] == lb[1]);
    lemma_u16_round_trip(declared, 0, 0, e);
    assert(dec_u16(buf[pos], buf[pos + 1], e) == declared);
    assert(buf.subrange(pos + 2, pos + 2 + zones_enc(s, 0).len() + 1) =~= zones_enc(s, 0) + seq![
        0xFFu8,
    ]) by {
        assert(forall|i: int|
            0 <= i < body.len() ==> whole[2 + i] == #[trigger] body[i]);
    }
    lemma_zones_round_trip(s, 0, buf, pos + 2, None);
    assert(trace_dec(buf, pos + 2, None) == Some((grouped(s), pos + 2 + zones_enc(s, 0).len() + 1)));
    assert(declared as int == 2 + body.len());
}


/// Encoding one more record appends its bytes.
pub proof fn lemma_ones_enc_app(s: Seq<SpinDriverPathStorageOne>, o: SpinDriverPathStorageOne)
    ensures
        ones_enc(s + seq![o]) == ones_enc(s) + one_enc(o),
    decreases s.len(),
{
    if s.len() == 0 {
        assert((s + seq![o])[0] == o);
        assert((s + seq![o]).drop_first() =~= Seq::<SpinDriverPathStorageOne>::empty());
        assert(ones_enc(Seq::<SpinDriverPathStorageOne>::empty()) =~= Seq::<u8>::empty());
        assert(ones_enc(s) =~= Seq::<u8>::empty());
        assert(ones_enc(s + seq![o]) =~= ones_enc(s) + one_enc(o));
    } else {
        assert((s + seq![o]).drop_first() =~= s.drop_first() + seq![o]);
        lemma_ones_enc_app(s.drop_first(), o);
        assert((s + seq![o])[0] == s[0]);
        assert(ones_enc(s + seq![o]) =~= ones_enc(s) + one_enc(o));
    }
}

/// A container for Launch Star path state in a base mission.
#[derive(Debug, Clone, PartialEq, Eq)]
pub struct SpinDriverPathStorageScenario {
    /// The collection of Launch Star path states.
    pub one: Vec<SpinDriverPathStorageOne>,
}

impl SpinDriverPathStorageScenario {
    /// Structural validity for encoding: every record fits its wire fields,
    /// the records already stand in the canonical zone-grouped order, and
    /// the stream fits its 16-bit length field.
    pub open spec fn wf(&self) -> bool {
        &&& forall|i: int| 0 <= i < self.one@.len() ==> (#[trigger] self.one@[i]).wf()
        &&& self.one@ == grouped(self.one@)
        &&& scenario_body(self.one@).len() + 2 <= 0xFFFF
    }
}

/// The byte size of one encoded path-trace stream, independent of the byte
/// order.
pub open spec fn scenario_len(s: Seq<SpinDriverPathStorageOne>) -> int {
    2 + scenario_body(s).len() as int
}

/// The concatenated encodings of a sequence of path-trace streams.
pub open spec fn scenarios_enc(ss: Seq<Seq<SpinDriverPathStorageOne>>, e: Endian) -> Seq<u8>
    decreases ss.len(),
{
    if ss.len() == 0 {
        Seq::empty()
    } else {
        scenario_enc(ss[0], e) + scenarios_enc(ss.drop_first(), e)
    }
}

/// The total byte size of a sequence of encoded path-trace streams.
pub open spec fn scenarios_len(ss: Seq<Seq<SpinDriverPathStorageOne>>) -> int
    decreases ss.len(),
{
    if ss.len() == 0 {
        0
    } else {
        scenario_len(ss[0]) + scenarios_len(ss.drop_first())
    }
}

pub proof fn lemma_scenarios_enc_len(ss: Seq<Seq<SpinDriverPathStorageOne>>, e: Endian)
    ensures
        scenarios_enc(ss, e).len() == scenarios_len(ss),
        scenarios_len(ss) >= 0,
    decreases ss.len(),
{
    if ss.len() > 0 {
        lemma_scenarios_enc_len(ss.drop_first(), e);
    }
}

/// Splitting a stream sequence splits its encoding at the matching byte
/// boundary.
pub proof fn lemma_scenarios_enc_split(ss: Seq<Seq<SpinDriverPathStorageOne>>, i: int, e: Endian)
    requires
        0 <= i <= ss.len(),
    ensures
        scenarios_enc(ss, e) == scenarios_enc(ss.take(i), e) + scenarios_enc(ss.skip(i), e),
    decreases i,
{
    if i == 0 {
        assert(ss.take(0) =~= Seq::empty());
        assert(ss.skip(0) =~= ss);
        assert(scenarios_enc(ss, e) =~= scenarios_enc(ss.take(0), e) + scenarios_enc(
            ss.skip(0),
            e,
        ));
    } else {
        let tail = ss.drop_first();
        lemma_scenarios_enc_split(tail, i - 1, e);
        assert(tail.take(i - 1) =~= ss.take(i).drop_first());
        assert(tail.skip(i - 1) =~= ss.skip(i));
        assert(ss.take(i)[0] == ss[0]);
        assert(scenarios_enc(ss.take(i), e) == scenario_enc(ss[0], e) + scenarios_enc(
            tail.take(i - 1),
            e,
        ));
        assert(scenarios_enc(ss, e) =~= scenarios_enc(ss.take(i), e) + scenarios_enc(
            ss.skip(i),
            e,
        ));
    }
}

/// Appending one stream to a sequence appends its encoding.
pub proof fn lemma_scenarios_enc_snoc(ss: Seq<Seq<SpinDriverPathStorageOne>>, i: int, e: Endian)
    requires
        0 <= i < ss.len(),
    ensures
        scenarios_enc(ss.take(i + 1), e) == scenarios_enc(ss.take(i), e) + scenario_enc(ss[i], e),
{
    lemma_scenarios_enc_split(ss.take(i + 1), i, e);
    assert(ss.take(i + 1).take(i) =~= ss.take(i));
    let last = ss.take(i + 1).skip(i);
    assert(last.len() == 1);
    assert(last[0] == ss[i]);
    assert(scenarios_enc(last.drop_first(), e) =~= Seq::<u8>::empty());
    assert(scenarios_enc(last, e) =~= scenario_enc(ss[i], e));
}

/// Decodes `n` consecutive path-trace streams.
pub open spec fn scenarios_dec(buf: Seq<u8>, pos: int, n: int, e: Endian) -> Option<
    (Seq<Seq<SpinDriverPathStorageOne>>, int),
>
    decreases n,
{
    if n <= 0 {
        Some((Seq::empty(), pos))
    } else {
        match scenario_dec(buf, pos, e) {
            None => None,
            Some((s, q)) => match scenarios_dec(buf, q, n - 1, e) {
                None => None,
                Some((ss, r)) => Some((seq![s] + ss, r)),
            },
        }
    }
}

/// Round trip for consecutive canonical streams.
pub proof fn lemma_scenarios_round_trip(
    ss: Seq<Seq<SpinDriverPathStorageOne>>,
    buf: Seq<u8>,
    pos: int,
    e: Endian,
)
    requires
        forall|k: int, i: int|
            0 <= k < ss.len() && 0 <= i < ss[k].len() ==> (#[trigger] ss[k][i]).wf(),
        forall|k: int| 0 <= k < ss.len() ==> (#[trigger] ss[k]) == grouped(ss[k]),
        forall|k: int| 0 <= k < ss.len() ==> scenario_body(#[trigger] ss[k]).len() + 2 <= 0xFFFF,
        0 <= pos,
        pos + scenarios_enc(ss, e).len() <= buf.len(),
        buf.subrange(pos, pos + scenarios_enc(ss, e).len() as int) == scenarios_enc(ss, e),
    ensures
        scenarios_dec(buf, pos, ss.len() as int, e) == Some(
            (ss, pos + scenarios_enc(ss, e).len() as int),
        ),
    decreases ss.len(),
{
    let whole = scenarios_enc(ss, e);
    if ss.len() == 0 {
        assert(ss =~= Seq::<Seq<SpinDriverPathStorageOne>>::empty());
    } else {
        let head = scenario_enc(ss[0], e);
        let tail = ss.drop_first();
        let tenc = scenarios_enc(tail, e);
        assert(whole == head + tenc);
        assert(forall|i: int| 0 <= i < whole.len() ==> buf[pos + i] == #[trigger] whole[i]) by {
            assert(forall|i: int|
                0 <= i < whole.len() ==> buf.subrange(pos, pos + whole.len() as int)[i]
                    == #[trigger] whole[i]);
        }
        assert(buf.subrange(pos, pos + head.len() as int) =~= head) by {
            assert(forall|i: int| 0 <= i < head.len() ==> whole[i] == head[i]);
        }
        assert(forall|i: int| 0 <= i < ss[0].len() ==> (#[trigger] ss[0][i]).wf()) by {
            assert(forall|i: int| 0 <= i < ss[0].len() ==> ss[0][i] == ss[0].index(i));
        }
        lemma_scenario_round_trip(ss[0], buf, pos, e);
        assert(grouped(ss[0]) == ss[0]);
        assert(buf.subrange(pos + head.len(), pos + head.len() + tenc.len() as int) =~= tenc) by {
            assert(forall|i: int|
                0 <= i < tenc.len() ==> whole[head.len() + i] == #[trigger] tenc[i]);
        }
        assert(forall|k: int| 0 <= k < tail.len() ==> (#[trigger] tail[k]) == ss[k + 1]);
        lemma_scenarios_round_trip(tail, buf, pos + head.len(), e);
        assert(seq![ss[0]] + tail =~= ss);
    }
}

/// Appends one encoded path-trace stream.
pub fn encode_scenario(sc: &SpinDriverPathStorageScenario, out: &mut Vec<u8>, e: Endian)
    requires
        sc.wf(),
    ensures
        final(out)@ == old(out)@ + scenario_enc(sc.one@, e),
{
    let ones = &sc.one;
    let mut body: Vec<u8> = Vec::new();
    let mut z: usize = 0;
    proof {
        assert(body@ =~= zones_enc_prefix(ones@, 0));
    }
    while z < 64
        invariant
            sc.wf(),
            ones == &sc.one,
            z <= 64,
            body@ == zones_enc_prefix(ones@, z as int),
        decreases 64 - z,
    {
        let mut emitted = false;
        let ghost base = body@;
        let mut j: usize = 0;
        proof {
            assert(zone_records(ones@.take(0), z as int) =~= Seq::<
                SpinDriverPathStorageOne,
            >::empty());
            assert(body@ =~= base + zone_block_enc(ones@.take(0), z as int));
        }
        while j < ones.len()
            invariant
                sc.wf(),
                ones == &sc.one,
                z < 64,
                j <= ones@.len(),
                emitted == (zone_records(ones@.take(j as int), z as int).len() != 0),
                body@ == base + zone_block_enc(ones@.take(j as int), z as int),
            decreases ones@.len() - j,
        {
            let o = ones[j];
            proof {
                assert(ones@.take(j + 1).drop_last() =~= ones@.take(j as int));
                assert(ones@.take(j + 1).last() == ones@[j as int]);
                assert(ones@[j as int].wf());
            }
            if o.zone_id == z as i32 && o.draw_range_q >= 1 {
                let ghost surv = zone_records(ones@.take(j as int), z as int);
                if !emitted {
                    body.push(((z as u8) & 0x3F) | 0xC0);
                    emitted = true;
                    proof {
                        assert(surv =~= Seq::<SpinDriverPathStorageOne>::empty());
                    }
                }
                body.push(((o.draw_range_index as u8) & 0x3F) | 0x80);
                body.push(o.draw_range_q as u8);
                proof {
                    let surv2 = zone_records(ones@.take(j + 1), z as int);
                    assert(surv2 =~= surv + seq![o]);
                    lemma_ones_enc_app(surv, o);
                    assert(one_enc(o) =~= seq![
                        ((o.draw_range_index as u8) & 0x3F) | 0x80,
                        o.draw_range_q as u8,
                    ]);
                    assert(body@ =~= base + zone_block_enc(ones@.take(j + 1), z as int));
                }
            } else {
                proof {
                    assert(zone_records(ones@.take(j + 1), z as int) =~= zone_records(
                        ones@.take(j as int),
                        z as int,
                    ));
                }
            }
            j += 1;
        }
        proof {
            assert(ones@.take(ones@.len() as int) =~= ones@);
            assert(body@ =~= zones_enc_prefix(ones@, z as int + 1));
        }
        z += 1;
    }
    proof {
        lemma_zones_enc_prefix(ones@, 64);
        assert(zones_enc(ones@, 64) =~= Seq::<u8>::empty());
        assert(body@ =~= zones_enc(ones@, 0));
    }
    body.push(0xFF);
    proof {
        assert(body@ =~= scenario_body(ones@));
    }
    let declared: u16 = (2 + body.len()) as u16;
    write_u16(out, declared, e);
    out.append(&mut body);
    proof {
        assert(out@ =~= old(out)@ + scenario_enc(ones@, e));
    }
}

/// Decodes one path-trace stream: the declared length, then records grouped
/// behind their zone escapes, then the terminator, then the length check.
pub fn decode_scenario(buf: &[u8], pos: usize, e: Endian) -> (r: Result<
    (Vec<SpinDriverPathStorageOne>, usize),
    BinError,
>)
    requires
        pos <= buf@.len(),
        buf@.len() <= 0x100_0000,
    ensures
        match r {
            Ok(t) => scenario_dec(buf@, pos as int, e) == Some((t.0@, t.1 as int)) && pos <= t.1
                <= buf@.len(),
            Err(_) => scenario_dec(buf@, pos as int, e) is None,
        },
{
    let (declared, start) = match read_u16(buf, pos, e) {
        Ok(t) => t,
        Err(er) => {
            return Err(er);
        },
    };
    let mut acc: Vec<SpinDriverPathStorageOne> = Vec::new();
    let mut p: usize = start;
    let mut has_zone = false;
    let mut zone: u8 = 0;
    proof {
        if let Some((s, q)) = trace_dec(buf@, pos + 2, None) {
            assert(Seq::<SpinDriverPathStorageOne>::empty() + s =~= s);
        }
        assert(acc@ =~= Seq::<SpinDriverPathStorageOne>::empty());
    }
    loop
        invariant
            pos + 2 <= buf@.len(),
            buf@.len() <= 0x100_0000,
            pos + 2 <= p <= buf@.len(),
            declared == dec_u16(buf@[pos as int], buf@[pos + 1], e),
            zone < 64,
            trace_dec(buf@, pos + 2, None) == (match trace_dec(
                buf@,
                p as int,
                if has_zone {
                    Some(zone as int)
                } else {
                    None
                },
            ) {
                None => None::<(Seq<SpinDriverPathStorageOne>, int)>,
                Some((s, q)) => Some((acc@ + s, q)),
            }),
        decreases buf@.len() - p,
    {
        let ghost zspec: Option<int> = if has_zone {
            Some(zone as int)
        } else {
            None
        };
        let b = match read_u8(buf, p) {
            Ok(t) => t.0,
            Err(er) => {
                proof {
                    assert(trace_dec(buf@, p as int, zspec) is None);
                }
                return Err(er);
            },
        };
        if b == 0xFF {
            let end = p + 1;
            proof {
                assert(trace_dec(buf@, p as int, zspec) == Some(
                    (Seq::<SpinDriverPathStorageOne>::empty(), p + 1),
                ));
                assert(acc@ + Seq::<SpinDriverPathStorageOne>::empty() =~= acc@);
                assert(trace_dec(buf@, pos + 2, None) == Some((acc@, end as int)));
            }
            if end - pos == declared as usize {
                return Ok((acc, end));
            } else {
                return Err(
                    BinError::SizeMismatch {
                        pos: end,
                        expected: declared as u32,
                        found: (end - pos) as u32,
                    },
                );
            }
        } else if b & 0xC0 == 0xC0 {
            zone = b & 0x3F;
            has_zone = true;
            proof {
                assert(zone < 64) by (bit_vector)
                    requires
                        zone == b & 0x3F,
                ;
                assert(trace_dec(buf@, p as int, zspec) == trace_dec(
                    buf@,
                    p + 1,
                    Some((b & 0x3F) as int),
                ));
            }
            p = p + 1;
        } else if !has_zone {
            proof {
                assert(trace_dec(buf@, p as int, zspec) is None);
            }
            return Err(BinError::MissingZone { pos: p });
        } else if b & 0x80 != 0 {
            let nb = match read_u8(buf, p + 1) {
                Ok(t) => t.0,
                Err(er) => {
                    proof {
                        assert(trace_dec(buf@, p as int, zspec) is None);
                    }
                    return Err(er);
                },
            };
            let q: u16 = if nb == 0 {
                256
            } else {
                nb as u16
            };
            let o = SpinDriverPathStorageOne {
                zone_id: zone as i32,
                draw_range_index: (b & 0x3F) as i32,
                draw_range_q: q,
            };
            acc.push(o);
            proof {
                assert(acc@.drop_last() + seq![o] =~= acc@);
                if let Some((s, r2)) = trace_dec(buf@, p + 2, zspec) {
                    assert(acc@.drop_last() + (seq![o] + s) =~= acc@ + s);
                }
            }
            p = p + 2;
        } else {
            let q: u16 = if b & 0x40 != 0 {
                256
            } else {
                0
            };
            let o = SpinDriverPathStorageOne {
                zone_id: zone as i32,
                draw_range_index: (b & 0x3F) as i32,
                draw_range_q: q,
            };
            acc.push(o);
            proof {
                assert(acc@.drop_last() + seq![o] =~= acc@);
                if let Some((s, r2)) = trace_dec(buf@, p + 1, zspec) {
                    assert(acc@.drop_last() + (seq![o] + s) =~= acc@ + s);
                }
            }
            p = p + 1;
        }
    }
}


/// A container for Launch Star path state in a galaxy.
#[derive(Debug, Clone, PartialEq, Eq)]
pub struct SpinDriverPathStorageGalaxy {
    /// The hashed internal name of the galaxy, truncated to the least
    /// significant 16 bits.
    pub galaxy_name: u16,
    /// The collection of associated base missions.
    pub scenario: Vec<SpinDriverPathStorageScenario>,
}

impl SpinDriverPathStorageGalaxy {
    /// The record lists of the held streams, for use in contracts.
    pub open spec fn scen_models(&self) -> Seq<Seq<SpinDriverPathStorageOne>> {
        self.scenario@.map_values(|sc: SpinDriverPathStorageScenario| sc.one@)
    }

    /// Structural validity: the stream count fits its one-byte field, every
    /// stream is valid, and the record's declared size fits its 16-bit
    /// field.
    pub open spec fn wf(&self) -> bool {
        &&& self.scenario@.len() <= 255
        &&& forall|i: int| 0 <= i < self.scenario@.len() ==> (#[trigger] self.scenario@[i]).wf()
        &&& 6 + scenarios_len(self.scen_models()) <= 0xFFFF
    }
}

/// The encoding of one galaxy record: the truncated galaxy name, the
/// backpatched size of the whole record, the stream count, one reserved
/// byte, then the streams.
pub open spec fn galaxy_enc(name: u16, ss: Seq<Seq<SpinDriverPathStorageOne>>, e: Endian) -> Seq<
    u8,
> {
    enc_u16(name, e) + enc_u16((6 + scenarios_enc(ss, e).len()) as u16, e) + seq![
        ss.len() as u8,
        0u8,
    ] + scenarios_enc(ss, e)
}

/// Decodes one galaxy record: the name, a declared size that is read but
/// not validated, the stream count, a reserved byte, then the streams.
pub open spec fn galaxy_dec(buf: Seq<u8>, pos: int, e: Endian) -> Option<
    ((u16, Seq<Seq<SpinDriverPathStorageOne>>), int),
> {
    if pos + 6 > buf.len() {
        None
    } else {
        let name = dec_u16(buf[pos], buf[pos + 1], e);
        let count = buf[pos + 4] as int;
        match scenarios_dec(buf, pos + 6, count, e) {
            None => None,
            Some((ss, q)) => Some(((name, ss), q)),
        }
    }
}

/// Round trip for one galaxy record.
pub proof fn lemma_galaxy_round_trip(
    name: u16,
    ss: Seq<Seq<SpinDriverPathStorageOne>>,
    buf: Seq<u8>,
    pos: int,
    e: Endian,
)
    requires
        ss.len() <= 255,
        forall|k: int, i: int|
            0 <= k < ss.len() && 0 <= i < ss[k].len() ==> (#[trigger] ss[k][i]).wf(),
        forall|k: int| 0 <= k < ss.len() ==> (#[trigger] ss[k]) == grouped(ss[k]),
        forall|k: int| 0 <= k < ss.len() ==> scenario_body(#[trigger] ss[k]).len() + 2 <= 0xFFFF,
        0 <= pos,
        pos + galaxy_enc(name, ss, e).len() <= buf.len(),
        buf.subrange(pos, pos + galaxy_enc(name, ss, e).len() as int) == galaxy_enc(name, ss, e),
    ensures
        galaxy_dec(buf, pos, e) == Some(((name, ss), pos + galaxy_enc(name, ss, e).len() as int)),
{
    let whole = galaxy_enc(name, ss, e);
    let senc = scenarios_enc(ss, e);
    let nb = enc_u16(name, e);
    assert(forall|i: int| 0 <= i < whole.len() ==> buf[pos + i] == #[trigger] whole[i]) by {
        assert(forall|i: int|
            0 <= i < whole.len() ==> buf.subrange(pos, pos + whole.len() as int)[i]
                == #[trigger] whole[i]);
    }
    assert(buf[pos + 0] == whole[0] && buf[pos + 1] == whole[1] && buf[pos + 4] == whole[4]);
    assert(whole[0] == nb[0] && whole[1] == nb[1] && whole[4] == ss.len() as u8);
    lemma_u16_round_trip(name, 0, 0, e);
    assert(dec_u16(buf[pos], buf[pos + 1], e) == name);
    assert((ss.len() as u8) as int == ss.len() as int);
    assert(buf.subrange(pos + 6, pos + 6 + senc.len() as int) =~= senc) by {
        assert(forall|i: int| 0 <= i < senc.len() ==> whole[6 + i] == #[trigger] senc[i]);
    }
    lemma_scenarios_round_trip(ss, buf, pos + 6, e);
}

/// Appends one encoded galaxy record.
pub fn encode_galaxy(g: &SpinDriverPathStorageGalaxy, out: &mut Vec<u8>, e: Endian)
    requires
        g.wf(),
    ensures
        final(out)@ == old(out)@ + galaxy_enc(g.galaxy_name, g.scen_models(), e),
{
    let mut body: Vec<u8> = Vec::new();
    let n = g.scenario.len();
    let mut i: usize = 0;
    proof {
        assert(body@ =~= scenarios_enc(g.scen_models().take(0), e));
        lemma_scenarios_enc_len(g.scen_models(), e);
    }
    while i < n
        invariant
            g.wf(),
            n == g.scenario@.len(),
            i <= n,
            body@ == scenarios_enc(g.scen_models().take(i as int), e),
        decreases n - i,
    {
        proof {
            lemma_scenarios_enc_snoc(g.scen_models(), i as int, e);
            assert(g.scen_models()[i as int] == g.scenario@[i as int].one@);
            assert(g.scenario@[i as int].wf());
        }
        encode_scenario(&g.scenario[i], &mut body, e);
        i += 1;
    }
    proof {
        assert(g.scen_models().take(n as int) =~= g.scen_models());
        lemma_scenarios_enc_len(g.scen_models(), e);
    }
    write_u16(out, g.galaxy_name, e);
    write_u16(out, (6 + body.len()) as u16, e);
    crate::bytes::write_u8(out, n as u8);
    crate::bytes::write_u8(out, 0);
    out.append(&mut body);
    proof {
        assert(out@ =~= old(out)@ + galaxy_enc(g.galaxy_name, g.scen_models(), e));
    }
}

/// Decodes one galaxy record.
pub fn decode_galaxy(buf: &[u8], pos: usize, e: Endian) -> (r: Result<
    (SpinDriverPathStorageGalaxy, usize),
    BinError,
>)
    requires
        pos <= buf@.len(),
        buf@.len() <= 0x100_0000,
    ensures
        match r {
            Ok(t) => galaxy_dec(buf@, pos as int, e) == Some(
                ((t.0.galaxy_name, t.0.scen_models()), t.1 as int),
            ) && pos <= t.1 <= buf@.len(),
            Err(_) => galaxy_dec(buf@, pos as int, e) is None,
        },
{
    if buf.len() - pos < 6 {
        return Err(BinError::Eof { pos });
    }
    let (name, _) = match read_u16(buf, pos, e) {
        Ok(t) => t,
        Err(er) => {
            return Err(er);
        },
    };
    let (count, _) = match read_u8(buf, pos + 4) {
        Ok(t) => t,
        Err(er) => {
            return Err(er);
        },
    };
    let mut scens: Vec<SpinDriverPathStorageScenario> = Vec::new();
    let mut p: usize = pos + 6;
    let mut i: usize = 0;
    proof {
        if let Some((ss, q)) = scenarios_dec(buf@, pos + 6, count as int, e) {
            assert(Seq::<Seq<SpinDriverPathStorageOne>>::empty() + ss =~= ss);
        }
        assert(scens@.map_values(|sc: SpinDriverPathStorageScenario| sc.one@) =~= Seq::<
            Seq<SpinDriverPathStorageOne>,
        >::empty());
    }
    while i < count as usize
        invariant
            pos + 6 <= buf@.len(),
            buf@.len() <= 0x100_0000,
            count == buf@[pos + 4],
            i <= count,
            pos <= p <= buf@.len(),
            scens@.len() == i,
            scenarios_dec(buf@, pos + 6, count as int, e) == (match scenarios_dec(
                buf@,
                p as int,
                count - i,
                e,
            ) {
                None => None::<(Seq<Seq<SpinDriverPathStorageOne>>, int)>,
                Some((ss, q)) => Some(
                    (
                        scens@.map_values(|sc: SpinDriverPathStorageScenario| sc.one@) + ss,
                        q,
                    ),
                ),
            }),
        decreases count - i,
    {
        match decode_scenario(buf, p, e) {
            Ok((one, q)) => {
                let sc = SpinDriverPathStorageScenario { one };
                let ghost before = scens@.map_values(
                    |sc: SpinDriverPathStorageScenario| sc.one@,
                );
                scens.push(sc);
                proof {
                    let after = scens@.map_values(|sc: SpinDriverPathStorageScenario| sc.one@);
                    assert(before + seq![sc.one@] =~= after);
                    if let Some((ss, r2)) = scenarios_dec(buf@, q as int, count - i - 1, e) {
                        assert(before + (seq![sc.one@] + ss) =~= after + ss);
                    }
                }
                p = q;
            },
            Err(er) => {
                proof {
                    assert(scenarios_dec(buf@, p as int, count - i, e) is None);
                }
                return Err(er);
            },
        }
        i += 1;
    }
    proof {
        assert(scenarios_dec(buf@, p as int, 0, e) == Some(
            (Seq::<Seq<SpinDriverPathStorageOne>>::empty(), p as int),
        ));
        let m = scens@.map_values(|sc: SpinDriverPathStorageScenario| sc.one@);
        assert(m + Seq::<Seq<SpinDriverPathStorageOne>>::empty() =~= m);
    }
    Ok((SpinDriverPathStorageGalaxy { galaxy_name: name, scenario: scens }, p))
}


/// The model of a sequence of galaxy records: each galaxy's name and its
/// streams' record lists.
pub open spec fn galaxies_model(gs: Seq<SpinDriverPathStorageGalaxy>) -> Seq<
    (u16, Seq<Seq<SpinDriverPathStorageOne>>),
> {
    gs.map_values(|g: SpinDriverPathStorageGalaxy| (g.galaxy_name, g.scen_models()))
}

/// The concatenated encodings of a sequence of galaxy records.
pub open spec fn galaxies_enc(
    gs: Seq<(u16, Seq<Seq<SpinDriverPathStorageOne>>)>,
    e: Endian,
) -> Seq<u8>
    decreases gs.len(),
{
    if gs.len() == 0 {
        Seq::empty()
    } else {
        galaxy_enc(gs[0].0, gs[0].1, e) + galaxies_enc(gs.drop_first(), e)
    }
}

/// Splitting a galaxy sequence splits its encoding at the matching byte
/// boundary.
pub proof fn lemma_galaxies_enc_split(
    gs: Seq<(u16, Seq<Seq<SpinDriverPathStorageOne>>)>,
    i: int,
    e: Endian,
)
    requires
        0 <= i <= gs.len(),
    ensures
        galaxies_enc(gs, e) == galaxies_enc(gs.take(i), e) + galaxies_enc(gs.skip(i), e),
    decreases i,
{
    if i == 0 {
        assert(gs.take(0) =~= Seq::empty());
        assert(gs.skip(0) =~= gs);
        assert(galaxies_enc(gs, e) =~= galaxies_enc(gs.take(0), e) + galaxies_enc(gs.skip(0), e));
    } else {
        let tail = gs.drop_first();
        lemma_galaxies_enc_split(tail, i - 1, e);
        assert(tail.take(i - 1) =~= gs.take(i).drop_first());
        assert(tail.skip(i - 1) =~= gs.skip(i));
        assert(gs.take(i)[0] == gs[0]);
        assert(galaxies_enc(gs.take(i), e) == galaxy_enc(gs[0].0, gs[0].1, e) + galaxies_enc(
            tail.take(i - 1),
            e,
        ));
        assert(galaxies_enc(gs, e) =~= galaxies_enc(gs.take(i), e) + galaxies_enc(gs.skip(i), e));
    }
}

/// Appending one galaxy to a sequence appends its encoding.
pub proof fn lemma_galaxies_enc_snoc(
    gs: Seq<(u16, Seq<Seq<SpinDriverPathStorageOne>>)>,
    i: int,
    e: Endian,
)
    requires
        0 <= i < gs.len(),
    ensures
        galaxies_enc(gs.take(i + 1), e) == galaxies_enc(gs.take(i), e) + galaxy_enc(
            gs[i].0,
            gs[i].1,
            e,
        ),
{
    lemma_galaxies_enc_split(gs.take(i + 1), i, e);
    assert(gs.take(i + 1).take(i) =~= gs.take(i));
    let last = gs.take(i + 1).skip(i);
    assert(last.len() == 1);
    assert(last[0] == gs[i]);
    assert(galaxies_enc(last.drop_first(), e) =~= Seq::<u8>::empty());
    assert(galaxies_enc(last, e) =~= galaxy_enc(gs[i].0, gs[i].1, e));
}

/// Decodes `n` consecutive galaxy records.
pub open spec fn galaxies_dec(buf: Seq<u8>, pos: int, n: int, e: Endian) -> Option<
    (Seq<(u16, Seq<Seq<SpinDriverPathStorageOne>>)>, int),
>
    decreases n,
{
    if n <= 0 {
        Some((Seq::empty(), pos))
    } else {
        match galaxy_dec(buf, pos, e) {
            None => None,
            Some((g, q)) => match galaxies_dec(buf, q, n - 1, e) {
                None => None,
                Some((gs, r)) => Some((seq![g] + gs, r)),
            },
        }
    }
}

/// Validity of one galaxy model, as `SpinDriverPathStorageGalaxy::wf` states
/// it over the model alone.
pub open spec fn galaxy_model_wf(g: (u16, Seq<Seq<SpinDriverPathStorageOne>>)) -> bool {
    &&& g.1.len() <= 255
    &&& forall|k: int, i: int|
        0 <= k < g.1.len() && 0 <= i < g.1[k].len() ==> (#[trigger] g.1[k][i]).wf()
    &&& forall|k: int| 0 <= k < g.1.len() ==> (#[trigger] g.1[k]) == grouped(g.1[k])
    &&& forall|k: int| 0 <= k < g.1.len() ==> scenario_body(#[trigger] g.1[k]).len() + 2 <= 0xFFFF
}

/// Round trip for consecutive galaxy records.
pub proof fn lemma_galaxies_round_trip(
    gs: Seq<(u16, Seq<Seq<SpinDriverPathStorageOne>>)>,
    buf: Seq<u8>,
    pos: int,
    e: Endian,
)
    requires
        forall|j: int| 0 <= j < gs.len() ==> galaxy_model_wf(#[trigger] gs[j]),
        0 <= pos,
        pos + galaxies_enc(gs, e).len() <= buf.len(),
        buf.subrange(pos, pos + galaxies_enc(gs, e).len() as int) == galaxies_enc(gs, e),
    ensures
        galaxies_dec(buf, pos, gs.len() as int, e) == Some(
            (gs, pos + galaxies_enc(gs, e).len() as int),
        ),
    decreases gs.len(),
{
    let whole = galaxies_enc(gs, e);
    if gs.len() == 0 {
        assert(gs =~= Seq::<(u16, Seq<Seq<SpinDriverPathStorageOne>>)>::empty());
    } else {
        let head = galaxy_enc(gs[0].0, gs[0].1, e);
        let tail = gs.drop_first();
        let tenc = galaxies_enc(tail, e);
        assert(whole == head + tenc);
        assert(forall|i: int| 0 <= i < whole.len() ==> buf[pos + i] == #[trigger] whole[i]) by {
            assert(forall|i: int|
                0 <= i < whole.len() ==> buf.subrange(pos, pos + whole.len() as int)[i]
                    == #[trigger] whole[i]);
        }
        assert(buf.subrange(pos, pos + head.len() as int) =~= head) by {
            assert(forall|i: int| 0 <= i < head.len() ==> whole[i] == head[i]);
        }
        assert(galaxy_model_wf(gs[0]));
        lemma_galaxy_round_trip(gs[0].0, gs[0].1, buf, pos, e);
        assert(buf.subrange(pos + head.len(), pos + head.len() + tenc.len() as int) =~= tenc) by {
            assert(forall|i: int|
                0 <= i < tenc.len() ==> whole[head.len() + i] == #[trigger] tenc[i]);
        }
        assert(forall|j: int| 0 <= j < tail.len() ==> (#[trigger] tail[j]) == gs[j + 1]);
        lemma_galaxies_round_trip(tail, buf, pos + head.len(), e);
        assert((gs[0].0, gs[0].1) == gs[0]);
        assert(seq![gs[0]] + tail =~= gs);
    }
}

/// The index of the first galaxy whose truncated name equals `k`, or `-1`.
pub open spec fn find_galaxy(gs: Seq<SpinDriverPathStorageGalaxy>, k: u16) -> int
    decreases gs.len(),
{
    if gs.len() == 0 {
        -1
    } else if gs[0].galaxy_name == k {
        0
    } else {
        let r = find_galaxy(gs.drop_first(), k);
        if r < 0 {
            -1
        } else {
            r + 1
        }
    }
}

/// The scan that stops at the first matching name finds exactly
/// `find_galaxy`.
pub proof fn lemma_find_galaxy_at(gs: Seq<SpinDriverPathStorageGalaxy>, k: u16, j: int)
    requires
        0 <= j < gs.len(),
        forall|l: int| 0 <= l < j ==> (#[trigger] gs[l].galaxy_name) != k,
        gs[j].galaxy_name == k,
    ensures
        find_galaxy(gs, k) == j,
    decreases gs.len(),
{
    if gs.len() > 0 && j > 0 {
        let tail = gs.drop_first();
        assert(forall|l: int| 0 <= l < j - 1 ==> (#[trigger] tail[l].galaxy_name) != k) by {
            assert(forall|l: int| 0 <= l < j - 1 ==> tail[l] == gs[l + 1]);
        }
        assert(tail[j - 1] == gs[j as int]);
        lemma_find_galaxy_at(tail, k, j - 1);
    }
}

/// If no galaxy matches, the search reports none.
pub proof fn lemma_find_galaxy_none(gs: Seq<SpinDriverPathStorageGalaxy>, k: u16)
    requires
        forall|l: int| 0 <= l < gs.len() ==> (#[trigger] gs[l].galaxy_name) != k,
    ensures
        find_galaxy(gs, k) == -1,
    decreases gs.len(),
{
    if gs.len() > 0 {
        let tail = gs.drop_first();
        assert(forall|l: int| 0 <= l < tail.len() ==> (#[trigger] tail[l].galaxy_name) != k) by {
            assert(forall|l: int| 0 <= l < tail.len() ==> tail[l] == gs[l + 1]);
        }
        lemma_find_galaxy_none(tail, k);
    }
}

/// A container for Launch Star path state.
#[derive(Debug, Clone, PartialEq, Eq)]
pub struct SpinDriverPathStorage {
    /// The collection of associated galaxies.
    galaxy: Vec<SpinDriverPathStorageGalaxy>,
}

impl SpinDriverPathStorage {
    /// The held galaxy records, for use in contracts.
    pub closed spec fn galaxies(&self) -> Seq<SpinDriverPathStorageGalaxy> {
        self.galaxy@
    }

    /// Builds a storage holding the given galaxy records.
    pub fn from_galaxies(galaxy: Vec<SpinDriverPathStorageGalaxy>) -> (r: Self)
        ensures
            r.galaxies() == galaxy@,
    {
        Self { galaxy }
    }

    /// Returns a reference to the stored galaxy records.
    pub fn entries(&self) -> (r: &Vec<SpinDriverPathStorageGalaxy>)
        ensures
            r@ == self.galaxies(),
    {
        &self.galaxy
    }

    /// Returns a reference to the galaxy record whose name is the
    /// truncation of the key, if any.
    pub fn get(&self, galaxy_name: HashCode) -> (r: Option<&SpinDriverPathStorageGalaxy>)
        ensures
            ({
                let i = find_galaxy(self.galaxies(), galaxy_name.spec_raw() as u16);
                match r {
                    Some(g) => i >= 0 && *g == self.galaxies()[i],
                    None => i == -1,
                }
            }),
    {
        let k = galaxy_name.into_raw() as u16;
        let mut j: usize = 0;
        while j < self.galaxy.len()
            invariant
                k == galaxy_name.spec_raw() as u16,
                j <= self.galaxy@.len(),
                forall|l: int| 0 <= l < j ==> (#[trigger] self.galaxy@[l].galaxy_name) != k,
            decreases self.galaxy@.len() - j,
        {
            if self.galaxy[j].galaxy_name == k {
                proof {
                    lemma_find_galaxy_at(self.galaxies(), k, j as int);
                }
                return Some(&self.galaxy[j]);
            }
            j += 1;
        }
        proof {
            lemma_find_galaxy_none(self.galaxies(), k);
        }
        None
    }

    /// Returns a mutable reference to the galaxy record whose name is the
    /// truncation of the key, if any.
    pub fn get_mut(&mut self, galaxy_name: HashCode) -> (r: Option<
        &mut SpinDriverPathStorageGalaxy,
    >)
        ensures
            ({
                let i = find_galaxy(old(self).galaxies(), galaxy_name.spec_raw() as u16);
                match r {
                    Some(g) => {
                        &&& i >= 0
                        &&& *g == old(self).galaxies()[i]
                        &&& final(self).galaxies() == old(self).galaxies().update(i, *final(g))
                    },
                    None => i == -1 && final(self).galaxies() == old(self).galaxies(),
                }
            }),
    {
        let k = galaxy_name.into_raw() as u16;
        let n = self.galaxy.len();
        let mut j: usize = 0;
        while j < n
            invariant
                k == galaxy_name.spec_raw() as u16,
                n == self.galaxy@.len(),
                self.galaxy@ == old(self).galaxy@,
                j <= n,
                forall|l: int| 0 <= l < j ==> (#[trigger] self.galaxy@[l].galaxy_name) != k,
            decreases n - j,
        {
            if self.galaxy[j].galaxy_name == k {
                proof {
                    lemma_find_galaxy_at(self.galaxies(), k, j as int);
                }
                return Some(&mut self.galaxy[j]);
            }
            j += 1;
        }
        proof {
            lemma_find_galaxy_none(self.galaxies(), k);
        }
        None
    }
}

impl Chunk for SpinDriverPathStorage {
    type Model = Seq<(u16, Seq<Seq<SpinDriverPathStorageOne>>)>;

    open spec fn model(&self) -> Seq<(u16, Seq<Seq<SpinDriverPathStorageOne>>)> {
        galaxies_model(self.galaxies())
    }

    open spec fn wf(&self) -> bool {
        &&& self.galaxies().len() <= 255
        &&& forall|j: int| 0 <= j < self.galaxies().len() ==> (#[trigger] self.galaxies()[j]).wf()
    }

    open spec fn le_ok(&self) -> bool {
        true
    }

    open spec fn hash_spec() -> u32 {
        0x12345679
    }

    open spec fn content_enc(&self, e: Endian) -> Seq<u8> {
        enc_u8(self.galaxies().len() as u8) + galaxies_enc(self.model(), e)
    }

    open spec fn content_dec(buf: Seq<u8>, pos: int, len: int, e: Endian) -> Option<
        (Seq<(u16, Seq<Seq<SpinDriverPathStorageOne>>)>, int),
    > {
        if pos + 1 > buf.len() {
            None
        } else {
            galaxies_dec(buf, pos + 1, buf[pos] as int, e)
        }
    }

    proof fn lemma_content_round_trip(&self, buf: Seq<u8>, pos: int, len: int, e: Endian) {
        let whole = self.content_enc(e);
        let genc = galaxies_enc(self.model(), e);
        assert(forall|i: int| 0 <= i < whole.len() ==> buf[pos + i] == #[trigger] whole[i]) by {
            assert(forall|i: int|
                0 <= i < whole.len() ==> buf.subrange(pos, pos + whole.len() as int)[i]
                    == #[trigger] whole[i]);
        }
        assert(buf[pos + 0] == whole[0]);
        assert(whole[0] == self.galaxies().len() as u8);
        assert((self.galaxies().len() as u8) as int == self.galaxies().len() as int);
        assert(buf.subrange(pos + 1, pos + 1 + genc.len() as int) =~= genc) by {
            assert(forall|i: int| 0 <= i < genc.len() ==> whole[1 + i] == #[trigger] genc[i]);
        }
        assert(self.model().len() == self.galaxies().len());
        assert forall|j: int| 0 <= j < self.model().len() implies galaxy_model_wf(
            #[trigger] self.model()[j],
        ) by {
            assert(self.galaxies()[j].wf());
            assert(self.model()[j] == (self.galaxies()[j].galaxy_name, self.galaxies()[j].scen_models()));
            let g = self.galaxies()[j];
            assert forall|k: int, i: int|
                0 <= k < g.scen_models().len() && 0 <= i < g.scen_models()[k].len() implies (
            #[trigger] g.scen_models()[k][i]).wf() by {
                assert(g.scenario@[k].wf());
                assert(g.scen_models()[k] == g.scenario@[k].one@);
            }
            assert forall|k: int| 0 <= k < g.scen_models().len() implies (
            #[trigger] g.scen_models()[k]) == grouped(g.scen_models()[k]) by {
                assert(g.scenario@[k].wf());
                assert(g.scen_models()[k] == g.scenario@[k].one@);
            }
            assert forall|k: int| 0 <= k < g.scen_models().len() implies scenario_body(
                #[trigger] g.scen_models()[k],
            ).len() + 2 <= 0xFFFF by {
                assert(g.scenario@[k].wf());
                assert(g.scen_models()[k] == g.scenario@[k].one@);
            }
        }
        lemma_galaxies_round_trip(self.model(), buf, pos + 1, e);
    }

    fn hash_code() -> (h: HashCode) {
        HashCode::from_raw(0x12345679)
    }

    fn encode(&self, out: &mut Vec<u8>, e: Endian) {
        let n = self.galaxy.len();
        crate::bytes::write_u8(out, n as u8);
        let ghost base = out@;
        let mut i: usize = 0;
        proof {
            assert(out@ =~= base + galaxies_enc(self.model().take(0), e));
        }
        while i < n
            invariant
                self.wf(),
                n == self.galaxy@.len(),
                i <= n,
                out@ == base + galaxies_enc(self.model().take(i as int), e),
        decreases n - i,
        {
            proof {
                lemma_galaxies_enc_snoc(self.model(), i as int, e);
                assert(self.model()[i as int] == (
                    self.galaxy@[i as int].galaxy_name,
                    self.galaxy@[i as int].scen_models(),
                ));
                assert(self.galaxies()[i as int].wf());
            }
            encode_galaxy(&self.galaxy[i], out, e);
            i += 1;
        }
        proof {
            assert(self.model().take(n as int) =~= self.model());
            assert(out@ =~= old(out)@ + self.content_enc(e));
        }
    }

    fn decode(buf: &[u8], pos: usize, len: usize, e: Endian) -> (r: Result<
        (Self, usize),
        BinError,
    >) {
        let (count, _) = match read_u8(buf, pos) {
            Ok(t) => t,
            Err(er) => {
                return Err(er);
            },
        };
        let mut gals: Vec<SpinDriverPathStorageGalaxy> = Vec::new();
        let mut p: usize = pos + 1;
        let mut i: usize = 0;
        proof {
            if let Some((gs, q)) = galaxies_dec(buf@, pos + 1, count as int, e) {
                assert(Seq::<(u16, Seq<Seq<SpinDriverPathStorageOne>>)>::empty() + gs =~= gs);
            }
            assert(galaxies_model(gals@) =~= Seq::<
                (u16, Seq<Seq<SpinDriverPathStorageOne>>),
            >::empty());
        }
        while i < count as usize
            invariant
                pos + 1 <= buf@.len(),
                buf@.len() <= 0x100_0000,
                count == buf@[pos as int],
                i <= count,
                pos <= p <= buf@.len(),
                gals@.len() == i,
                galaxies_dec(buf@, pos + 1, count as int, e) == (match galaxies_dec(
                    buf@,
                    p as int,
                    count - i,
                    e,
                ) {
                    None => None::<(Seq<(u16, Seq<Seq<SpinDriverPathStorageOne>>)>, int)>,
                    Some((gs, q)) => Some((galaxies_model(gals@) + gs, q)),
                }),
            decreases count - i,
        {
            match decode_galaxy(buf, p, e) {
                Ok((g, q)) => {
                    let ghost before = galaxies_model(gals@);
                    let ghost gm = (g.galaxy_name, g.scen_models());
                    gals.push(g);
                    proof {
                        let after = galaxies_model(gals@);
                        assert(before + seq![gm] =~= after);
                        if let Some((gs, r2)) = galaxies_dec(buf@, q as int, count - i - 1, e) {
                            assert(before + (seq![gm] + gs) =~= after + gs);
                        }
                    }
                    p = q;
                },
                Err(er) => {
                    proof {
                        assert(galaxies_dec(buf@, p as int, count - i, e) is None);
                    }
                    return Err(er);
                },
            }
            i += 1;
        }
        proof {
            assert(galaxies_dec(buf@, p as int, 0, e) == Some(
                (Seq::<(u16, Seq<Seq<SpinDriverPathStorageOne>>)>::empty(), p as int),
            ));
            let m = galaxies_model(gals@);
            assert(m + Seq::<(u16, Seq<Seq<SpinDriverPathStorageOne>>)>::empty() =~= m);
        }
        Ok((Self { galaxy: gals }, p))
    }
}

} // verus!

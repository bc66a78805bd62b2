//! The second game's save data. Its key-value stores share the first
//! game's wire format and identity hashes, so its storage types are the
//! same verified codecs under the sequel's own names.

use vstd::prelude::*;

use crate::hash::{HashCode, HashCode16};

verus! {

broadcast use crate::hash::lemma_hash_code16_raw;

/// A container for key-value pair state, where each value is a Boolean.
pub type SaveDataStorageEventFlag = crate::data1::game::GameEventFlagStorage;

/// A container for key-value pair state, where each value is a 16-bit
/// unsigned integer.
pub type SaveDataStorageEventValue = crate::data1::game::GameEventValueStorage;


/// A container for World Map state.
#[derive(Debug, Clone, PartialEq, Eq)]
pub struct SaveDataStorageWorldMap {
    /// The flags representing the Star Barrier passage status for each
    /// world.
    pub star_check_point_flag: Vec<u8>,
    /// The positive world number currently being navigated.
    pub world_no: u8,
}

impl SaveDataStorageWorldMap {
    /// Structural validity: one flag byte per storable world.
    pub open spec fn wf(&self) -> bool {
        self.star_check_point_flag@.len() == 8
    }

    /// Creates a storage with no barriers passed, standing in the first
    /// world.
    pub fn new() -> (r: Self)
        ensures
            r.wf(),
            r.star_check_point_flag@ == Seq::new(8, |i: int| 0u8),
            r.world_no == 1,
    {
        let mut flags: Vec<u8> = Vec::new();
        let mut i: usize = 0;
        while i < 8
            invariant
                i <= 8,
                flags@ =~= Seq::new(i as nat, |k: int| 0u8),
            decreases 8 - i,
        {
            flags.push(0);
            proof {
                assert(flags@ =~= Seq::new(i as nat + 1, |k: int| 0u8));
            }
            i += 1;
        }
        Self { star_check_point_flag: flags, world_no: 1 }
    }
}

/// The index of the first name whose truncated hash equals `k`, or `-1`.
pub open spec fn find_name(s: Seq<HashCode16>, k: u16) -> int
    decreases s.len(),
{
    if s.len() == 0 {
        -1
    } else if s[0].spec_raw() == k {
        0
    } else {
        let r = find_name(s.drop_first(), k);
        if r < 0 {
            -1
        } else {
            r + 1
        }
    }
}

/// The scan that stops at the first matching name finds exactly
/// `find_name`.
pub proof fn lemma_find_name_at(s: Seq<HashCode16>, k: u16, j: int)
    requires
        0 <= j < s.len(),
        forall|l: int| 0 <= l < j ==> (#[trigger] s[l].spec_raw()) != k,
        s[j].spec_raw() == k,
    ensures
        find_name(s, k) == j,
    decreases s.len(),
{
    if s.len() > 0 && j > 0 {
        let tail = s.drop_first();
        assert(forall|l: int| 0 <= l < j - 1 ==> (#[trigger] tail[l].spec_raw()) != k) by {
            assert(forall|l: int| 0 <= l < j - 1 ==> tail[l] == s[l + 1]);
        }
        assert(tail[j - 1] == s[j as int]);
        lemma_find_name_at(tail, k, j - 1);
    }
}

/// If no name matches, the search reports none.
pub proof fn lemma_find_name_none(s: Seq<HashCode16>, k: u16)
    requires
        forall|l: int| 0 <= l < s.len() ==> (#[trigger] s[l].spec_raw()) != k,
    ensures
        find_name(s, k) == -1,
    decreases s.len(),
{
    if s.len() > 0 {
        let tail = s.drop_first();
        assert(forall|l: int| 0 <= l < tail.len() ==> (#[trigger] tail[l].spec_raw()) != k) by {
            assert(forall|l: int| 0 <= l < tail.len() ==> tail[l] == s[l + 1]);
        }
        lemma_find_name_none(tail, k);
    }
}

/// The compaction step of the name table: the hole at `i` is swapped
/// toward the end until the next slot is already empty or the table ends.
pub open spec fn compact_from(s: Seq<HashCode16>, i: int) -> Seq<HashCode16>
    decreases s.len() - i,
{
    if i < 0 || i + 1 >= s.len() || s[i + 1].spec_raw() == 0 {
        s
    } else {
        compact_from(s.update(i, s[i + 1]).update(i + 1, s[i]), i + 1)
    }
}

/// Updating one row of a counter matrix updates the same row of its
/// model.
pub broadcast proof fn lemma_rows_update(s: Seq<Vec<u16>>, i: int, v: Vec<u16>)
    requires
        0 <= i < s.len(),
    ensures
        (#[trigger] s.update(i, v)).map_values(|r: Vec<u16>| r@) == s.map_values(
            |r: Vec<u16>| r@,
        ).update(i, v@),
{
    assert(s.update(i, v).map_values(|r: Vec<u16>| r@) =~= s.map_values(
        |r: Vec<u16>| r@,
    ).update(i, v@));
}

/// A container for Hungry Luma state: a matrix of Star Bit counters per
/// world and the table of galaxies with satisfied coin-dependent Hungry
/// Lumas.
#[derive(Debug, Clone, PartialEq, Eq)]
pub struct SaveDataStorageTicoFat {
    /// The matrix of Star Bit counters, one row per world and one column
    /// per Hungry Luma.
    star_piece_num: Vec<Vec<u16>>,
    /// The hashed internal names of galaxies with satisfied coin-dependent
    /// Hungry Lumas; empty slots hold the zero hash.
    coin_galaxy_name: Vec<HashCode16>,
}

impl SaveDataStorageTicoFat {
    /// The counter rows, for use in contracts.
    pub closed spec fn rows(&self) -> Seq<Seq<u16>> {
        self.star_piece_num@.map_values(|r: Vec<u16>| r@)
    }

    /// The galaxy name table, for use in contracts.
    pub closed spec fn names(&self) -> Seq<HashCode16> {
        self.coin_galaxy_name@
    }

    /// Structural validity: one row of counters per storable world and a
    /// fixed-size name table.
    pub open spec fn wf(&self) -> bool {
        &&& self.rows().len() == 8
        &&& forall|i: int| 0 <= i < 8 ==> (#[trigger] self.rows()[i]).len() == 6
        &&& self.names().len() == 16
    }

    /// Creates a storage with every counter at zero and an empty name
    /// table.
    pub fn new() -> (r: Self)
        ensures
            r.wf(),
            forall|w: int, p: int| 0 <= w < 8 && 0 <= p < 6 ==> (#[trigger] r.rows()[w][p]) == 0,
            forall|i: int| 0 <= i < 16 ==> (#[trigger] r.names()[i].spec_raw()) == 0,
    {
        let mut rows: Vec<Vec<u16>> = Vec::new();
        let mut w: usize = 0;
        while w < 8
            invariant
                w <= 8,
                rows@.len() == w,
                forall|i: int| 0 <= i < w ==> (#[trigger] rows@[i])@.len() == 6,
                forall|i: int, p: int|
                    0 <= i < w && 0 <= p < 6 ==> (#[trigger] rows@[i]@[p]) == 0,
            decreases 8 - w,
        {
            let mut row: Vec<u16> = Vec::new();
            let mut p: usize = 0;
            while p < 6
                invariant
                    p <= 6,
                    row@ =~= Seq::new(p as nat, |k: int| 0u16),
                decreases 6 - p,
            {
                row.push(0);
                proof {
                    assert(row@ =~= Seq::new(p as nat + 1, |k: int| 0u16));
                }
                p += 1;
            }
            rows.push(row);
            w += 1;
        }
        let mut names: Vec<HashCode16> = Vec::new();
        let mut i: usize = 0;
        while i < 16
            invariant
                i <= 16,
                names@.len() == i,
                forall|k: int| 0 <= k < i ==> (#[trigger] names@[k].spec_raw()) == 0,
            decreases 16 - i,
        {
            names.push(HashCode16::from_raw(0));
            i += 1;
        }
        Self { star_piece_num: rows, coin_galaxy_name: names }
    }

    /// Returns a reference to a Star Bit counter, by positive world number
    /// and Hungry Luma index.
    pub fn star_piece_num(&self, world_no: usize, parts_index: usize) -> (r: Option<&u16>)
        requires
            self.wf(),
            world_no >= 1,
        ensures
            match r {
                Some(v) => world_no <= 8 && parts_index < 6 && *v == self.rows()[world_no - 1][
                parts_index as int],
                None => world_no > 8 || parts_index >= 6,
            },
    {
        proof {
            assert(self.rows().len() == self.star_piece_num@.len());
        }
        if world_no <= self.star_piece_num.len() {
            proof {
                assert(self.rows()[world_no - 1] == self.star_piece_num@[world_no - 1]@);
            }
            let row = &self.star_piece_num[world_no - 1];
            if parts_index < row.len() {
                return Some(&row[parts_index]);
            }
        }
        None
    }

    /// Returns a mutable reference to a Star Bit counter.
    pub fn star_piece_num_mut(&mut self, world_no: usize, parts_index: usize) -> (r: Option<
        &mut u16,
    >)
        requires
            old(self).wf(),
            world_no >= 1,
        ensures
            match r {
                Some(v) => {
                    &&& world_no <= 8 && parts_index < 6
                    &&& *v == old(self).rows()[world_no - 1][parts_index as int]
                    &&& final(self).rows() == old(self).rows().update(
                        world_no - 1,
                        old(self).rows()[world_no - 1].update(parts_index as int, *final(v)),
                    )
                    &&& final(self).names() == old(self).names()
                    &&& final(self).wf()
                },
                None => (world_no > 8 || parts_index >= 6) && final(self).rows() == old(
                    self,
                ).rows() && final(self).names() == old(self).names(),
            },
    {
        proof {
            broadcast use lemma_rows_update;

            assert(self.rows().len() == self.star_piece_num@.len());
        }
        if world_no <= self.star_piece_num.len() {
            proof {
                assert(self.rows()[world_no - 1] == self.star_piece_num@[world_no - 1]@);
            }
            if parts_index < self.star_piece_num[world_no - 1].len() {
                let row = &mut self.star_piece_num[world_no - 1];
                let v = &mut row[parts_index];
                return Some(v);
            }
        }
        None
    }

    /// Determines if a Hungry Luma in the galaxy was fed a satisfactory
    /// number of coins.
    pub fn is_coin_feed(&self, galaxy_name: HashCode) -> (r: bool)
        ensures
            r == (find_name(self.names(), galaxy_name.spec_raw() as u16) >= 0),
    {
        let k = HashCode16::from_code(galaxy_name).into_raw();
        let mut j: usize = 0;
        while j < self.coin_galaxy_name.len()
            invariant
                k == galaxy_name.spec_raw() as u16,
                j <= self.coin_galaxy_name@.len(),
                forall|l: int|
                    0 <= l < j ==> (#[trigger] self.coin_galaxy_name@[l].spec_raw()) != k,
            decreases self.coin_galaxy_name@.len() - j,
        {
            if self.coin_galaxy_name[j].into_raw() == k {
                proof {
                    lemma_find_name_at(self.names(), k, j as int);
                }
                return true;
            }
            j += 1;
        }
        proof {
            lemma_find_name_none(self.names(), k);
        }
        false
    }

    /// Registers a galaxy as having a Hungry Luma fed a satisfactory number
    /// of coins: a galaxy already registered changes nothing, and a full
    /// table drops the registration.
    pub fn on_coin_feed(&mut self, galaxy_name: HashCode)
        ensures
            ({
                let k = galaxy_name.spec_raw() as u16;
                let present = find_name(old(self).names(), k);
                let slot = find_name(old(self).names(), 0);
                &&& final(self).rows() == old(self).rows()
                &&& if present >= 0 || slot < 0 {
                    final(self).names() == old(self).names()
                } else {
                    final(self).names() == old(self).names().update(
                        slot,
                        HashCode16::from_raw_spec(k),
                    )
                }
            }),
    {
        let k = HashCode16::from_code(galaxy_name).into_raw();
        if self.position_of(k).is_some() {
            return ;
        }
        match self.position_of(0) {
            Some(j) => {
                let slot = &mut self.coin_galaxy_name[j];
                *slot = HashCode16::from_raw(k);
            },
            None => {},
        }
    }

    /// The slot of the first name with the given truncated hash, if any.
    fn position_of(&self, k: u16) -> (r: Option<usize>)
        ensures
            match r {
                Some(j) => find_name(self.names(), k) == j && j < self.names().len(),
                None => find_name(self.names(), k) == -1,
            },
    {
        let mut j: usize = 0;
        while j < self.coin_galaxy_name.len()
            invariant
                j <= self.coin_galaxy_name@.len(),
                forall|l: int|
                    0 <= l < j ==> (#[trigger] self.coin_galaxy_name@[l].spec_raw()) != k,
            decreases self.coin_galaxy_name@.len() - j,
        {
            if self.coin_galaxy_name[j].into_raw() == k {
                proof {
                    lemma_find_name_at(self.names(), k, j as int);
                }
                return Some(j);
            }
            j += 1;
        }
        proof {
            lemma_find_name_none(self.names(), k);
        }
        None
    }

    /// Omits a galaxy from having a Hungry Luma fed a satisfactory number
    /// of coins: its slot is emptied and the hole swapped toward the end of
    /// the table until it meets an already-empty slot.
    pub fn off_coin_feed(&mut self, galaxy_name: HashCode)
        ensures
            ({
                let k = galaxy_name.spec_raw() as u16;
                let pos = find_name(old(self).names(), k);
                &&& final(self).rows() == old(self).rows()
                &&& if pos < 0 {
                    final(self).names() == old(self).names()
                } else {
                    final(self).names() == compact_from(
                        old(self).names().update(pos, HashCode16::from_raw_spec(0)),
                        pos,
                    )
                }
            }),
    {
        let k = HashCode16::from_code(galaxy_name).into_raw();
        let n = self.coin_galaxy_name.len();
        let position = match self.position_of(k) {
            Some(j) => j,
            None => {
                return ;
            },
        };
        let hole = &mut self.coin_galaxy_name[position];
        *hole = HashCode16::from_raw(0);
        let ghost start = self.coin_galaxy_name@;
        let mut i: usize = position;
        while i < n - 1 && self.coin_galaxy_name[i + 1].into_raw() != 0
            invariant
                n == self.coin_galaxy_name@.len(),
                self.star_piece_num@ == old(self).star_piece_num@,
                start == old(self).coin_galaxy_name@.update(
                    position as int,
                    HashCode16::from_raw_spec(0),
                ),
                find_name(old(self).names(), k) == position,
                k == galaxy_name.spec_raw() as u16,
                position < n,
                position <= i <= n,
                compact_from(start, position as int) == compact_from(
                    self.coin_galaxy_name@,
                    i as int,
                ),
            decreases n - i,
        {
            let a = self.coin_galaxy_name[i];
            let b = self.coin_galaxy_name[i + 1];
            let ghost before = self.coin_galaxy_name@;
            let slot = &mut self.coin_galaxy_name[i];
            *slot = b;
            let slot = &mut self.coin_galaxy_name[i + 1];
            *slot = a;
            proof {
                assert(self.coin_galaxy_name@ =~= before.update(i as int, b).update(
                    i + 1,
                    a,
                ));
            }
            i += 1;
        }
        proof {
            assert(compact_from(self.coin_galaxy_name@, i as int) == self.coin_galaxy_name@);
        }
    }
}

} // verus!

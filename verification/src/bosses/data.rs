//! The bosses and regions that are tracked.
use vstd::prelude::*;

use std::collections::HashMap;

verus! {

broadcast use vstd::std_specs::hash::group_hash_axioms;

/// A boss: its name, where it is, and the flag that its defeat sets.
#[derive(Debug)]
pub struct BossData {
    pub boss: String,
    pub place: String,
    pub flag_id: u32,
    pub regions: Option<Vec<u32>>,
    /// Maps as four pairs of decimal digits.
    pub maps: Option<Vec<u32>>,
}

/// A region and its bosses.
#[derive(Debug)]
pub struct RegionBossData {
    pub region_name: String,
    pub regions: Option<Vec<u32>>,
    pub bosses: Vec<BossData>,
    pub dlc: u8,
}

/// The block id with the given parts: one byte for each, the area highest, read as a signed
/// number.
pub open spec fn block_of_parts(area: int, block: int, region: int, index: int) -> int {
    let n = area * 0x1000000 + block * 0x10000 + region * 0x100 + index;
    if n < 0x80000000 {
        n
    } else {
        n - 0x100000000
    }
}

/// The block id of a map written as four pairs of decimal digits. Of a first part beyond a byte,
/// the low byte counts.
pub open spec fn block_of_map(map: u32) -> int {
    block_of_parts(
        map as int / 1000000 % 256,
        map as int / 10000 % 100,
        map as int / 100 % 100,
        map as int % 100,
    )
}

/// The block id of a map written as four pairs of decimal digits.
pub fn map_to_block_id(map: u32) -> (r: i32)
    ensures
        r == block_of_map(map),
{
    let area: i64 = (map / 1000000 % 256) as i64;
    let block: i64 = (map / 10000 % 100) as i64;
    let region: i64 = (map / 100 % 100) as i64;
    let index: i64 = (map % 100) as i64;
    let n: i64 = area * 0x1000000 + block * 0x10000 + region * 0x100 + index;
    if n < 0x80000000 {
        n as i32
    } else {
        (n - 0x100000000) as i32
    }
}

/// Whether an optional list holds a number.
pub open spec fn lists(list: Option<Vec<u32>>, n: u32) -> bool {
    list matches Some(v) && v@.contains(n)
}

/// Whether any of the maps has the given block id.
pub open spec fn any_in_block(maps: Seq<u32>, block: i32) -> bool {
    exists|k: int| 0 <= k < maps.len() && block_of_map(#[trigger] maps[k]) == block
}

/// Whether a boss stands in a map with the given block id.
pub open spec fn boss_in_block(boss: BossData, block: i32) -> bool {
    boss.maps matches Some(v) && any_in_block(v@, block)
}

/// Whether any boss of a region stands in a map with the given block id.
pub open spec fn region_has_block(region: RegionBossData, block: i32) -> bool {
    exists|j: int|
        0 <= j < region.bosses@.len() && boss_in_block(#[trigger] region.bosses@[j], block)
}

/// Whether a region, or any boss of it, lists a play region.
pub open spec fn region_has_play_region(region: RegionBossData, play_region: u32) -> bool {
    lists(region.regions, play_region) || exists|j: int|
        0 <= j < region.bosses@.len() && lists(
            (#[trigger] region.bosses@[j]).regions,
            play_region,
        )
}

/// Whether `indices` gives, for each key that any region has, the last region that has it.
pub open spec fn gives_last<K>(
    indices: Map<K, usize>,
    regions: Seq<RegionBossData>,
    owns: spec_fn(RegionBossData, K) -> bool,
) -> bool {
    forall|k: K|
        if #[trigger] indices.contains_key(k) {
            &&& indices[k] < regions.len()
            &&& owns(regions[indices[k] as int], k)
            &&& forall|i: int|
                indices[k] < i < regions.len() ==> !owns(#[trigger] regions[i], k)
        } else {
            forall|i: int| 0 <= i < regions.len() ==> !owns(#[trigger] regions[i], k)
        }
}

/// The tracked regions, and which region a place belongs to.
#[derive(Debug)]
pub struct GameBossData {
    pub regions: Vec<RegionBossData>,
    pub block_id_indices: HashMap<i32, usize>,
    pub play_region_indices: HashMap<u32, usize>,
}

/// The flags of all bosses, region by region.
pub open spec fn boss_flags(regions: Seq<RegionBossData>) -> Seq<u32>
    decreases regions.len(),
{
    if regions.len() == 0 {
        seq![]
    } else {
        boss_flags(regions.drop_last()) + regions.last().bosses@.map_values(
            |b: BossData| b.flag_id,
        )
    }
}

fn index_blocks(indices: &mut HashMap<i32, usize>, maps: &Vec<u32>, index: usize)
    ensures
        forall|b: i32|
            #[trigger] final(indices)@.contains_key(b) <==> old(indices)@.contains_key(b)
                || any_in_block(maps@, b),
        forall|b: i32|
            final(indices)@.contains_key(b) ==> #[trigger] final(indices)@[b] == if any_in_block(
                maps@,
                b,
            ) {
                index
            } else {
                old(indices)@[b]
            },
{
    let ghost before = indices@;
    let mut i: usize = 0;
    while i < maps.len()
        invariant
            i <= maps@.len(),
            forall|b: i32|
                #[trigger] indices@.contains_key(b) <==> before.contains_key(b) || any_in_block(
                    maps@.take(i as int),
                    b,
                ),
            forall|b: i32|
                indices@.contains_key(b) ==> #[trigger] indices@[b] == if any_in_block(
                    maps@.take(i as int),
                    b,
                ) {
                    index
                } else {
                    before[b]
                },
        decreases maps@.len() - i,
    {
        let b = map_to_block_id(maps[i]);
        indices.insert(b, index);
        proof {
            let next = maps@.take(i + 1);
            let this = maps@.take(i as int);
            assert forall|c: i32|
                #[trigger] any_in_block(next, c) == (any_in_block(this, c) || c == b) by {
                if any_in_block(this, c) {
                    let k = choose|k: int|
                        0 <= k < this.len() && block_of_map(#[trigger] this[k]) == c;
                    assert(next[k] == this[k]);
                }
                if any_in_block(next, c) {
                    let k = choose|k: int|
                        0 <= k < next.len() && block_of_map(#[trigger] next[k]) == c;
                    if k < i {
                        assert(next[k] == this[k]);
                    }
                }
                assert(next[i as int] == maps@[i as int]);
            }
        }
        i = i + 1;
    }
    assert(maps@.take(maps@.len() as int) =~= maps@);
}

fn index_regions(indices: &mut HashMap<u32, usize>, list: &Vec<u32>, index: usize)
    ensures
        forall|r: u32|
            #[trigger] final(indices)@.contains_key(r) <==> old(indices)@.contains_key(r)
                || list@.contains(r),
        forall|r: u32|
            final(indices)@.contains_key(r) ==> #[trigger] final(indices)@[r]
                == if list@.contains(r) {
                index
            } else {
                old(indices)@[r]
            },
{
    let ghost before = indices@;
    let mut i: usize = 0;
    while i < list.len()
        invariant
            i <= list@.len(),
            forall|r: u32|
                #[trigger] indices@.contains_key(r) <==> before.contains_key(r) || list@.take(
                    i as int,
                ).contains(r),
            forall|r: u32|
                indices@.contains_key(r) ==> #[trigger] indices@[r] == if list@.take(
                    i as int,
                ).contains(r) {
                    index
                } else {
                    before[r]
                },
        decreases list@.len() - i,
    {
        indices.insert(list[i], index);
        proof {
            let next = list@.take(i + 1);
            let this = list@.take(i as int);
            assert(next =~= this.push(list@[i as int]));
            assert forall|r: u32| next.contains(r) == (this.contains(r) || r == list@[i as int]) by {
                if this.contains(r) {
                    let k = choose|k: int| 0 <= k < this.len() && this[k] == r;
                    assert(next[k] == r);
                }
                assert(next[i as int] == list@[i as int]);
            }
        }
        i = i + 1;
    }
    assert(list@.take(list@.len() as int) =~= list@);
}

proof fn lemma_last_step<K>(
    before: Map<K, usize>,
    after: Map<K, usize>,
    regions: Seq<RegionBossData>,
    region: RegionBossData,
    owns: spec_fn(RegionBossData, K) -> bool,
)
    requires
        gives_last(before, regions, owns),
        regions.len() <= usize::MAX,
        forall|k: K|
            #[trigger] after.contains_key(k) <==> before.contains_key(k) || owns(region, k),
        forall|k: K|
            #[trigger] after.contains_key(k) ==> after[k] == if owns(region, k) {
                regions.len() as usize
            } else {
                before[k]
            },
    ensures
        gives_last(after, regions.push(region), owns),
{
    let all = regions.push(region);
    assert(all[regions.len() as int] == region);
    assert forall|i: int| 0 <= i < regions.len() implies all[i] == regions[i] by {}
    assert forall|k: K|
        if #[trigger] after.contains_key(k) {
            &&& after[k] < all.len()
            &&& owns(all[after[k] as int], k)
            &&& forall|i: int| after[k] < i < all.len() ==> !owns(#[trigger] all[i], k)
        } else {
            forall|i: int| 0 <= i < all.len() ==> !owns(#[trigger] all[i], k)
        } by {
        assert(after.contains_key(k) <==> before.contains_key(k) || owns(region, k));
        if after.contains_key(k) {
            if !owns(region, k) {
                assert(before.contains_key(k));
                assert forall|i: int| after[k] < i < all.len() implies !owns(
                    #[trigger] all[i],
                    k,
                ) by {
                    if i < regions.len() {
                        assert(!owns(regions[i], k));
                    }
                }
            }
        } else {
            assert(!before.contains_key(k));
            assert forall|i: int| 0 <= i < all.len() implies !owns(#[trigger] all[i], k) by {
                if i < regions.len() {
                    assert(!owns(regions[i], k));
                }
            }
        }
    }
}

fn index_region(
    blocks: &mut HashMap<i32, usize>,
    play_regions: &mut HashMap<u32, usize>,
    region: &RegionBossData,
    index: usize,
)
    ensures
        forall|b: i32|
            #[trigger] final(blocks)@.contains_key(b) <==> old(blocks)@.contains_key(b)
                || region_has_block(*region, b),
        forall|b: i32|
            #[trigger] final(blocks)@.contains_key(b) ==> final(blocks)@[b] == if region_has_block(
                *region,
                b,
            ) {
                index
            } else {
                old(blocks)@[b]
            },
        forall|r: u32|
            #[trigger] final(play_regions)@.contains_key(r) <==> old(play_regions)@.contains_key(r)
                || region_has_play_region(*region, r),
        forall|r: u32|
            #[trigger] final(play_regions)@.contains_key(r) ==> final(play_regions)@[r]
                == if region_has_play_region(*region, r) {
                index
            } else {
                old(play_regions)@[r]
            },
{
    let ghost blocks0 = blocks@;
    let ghost play0 = play_regions@;
    let ghost bosses = region.bosses@;
    let mut j: usize = 0;
    while j < region.bosses.len()
        invariant
            j <= region.bosses@.len(),
            bosses == region.bosses@,
            forall|b: i32|
                #[trigger] blocks@.contains_key(b) <==> blocks0.contains_key(b) || exists|k: int|
                    0 <= k < j && boss_in_block(#[trigger] bosses[k], b),
            forall|b: i32|
                #[trigger] blocks@.contains_key(b) ==> blocks@[b] == if exists|k: int|
                    0 <= k < j && boss_in_block(#[trigger] bosses[k], b) {
                    index
                } else {
                    blocks0[b]
                },
            forall|r: u32|
                #[trigger] play_regions@.contains_key(r) <==> play0.contains_key(r) || exists|
                    k: int,
                | 0 <= k < j && lists((#[trigger] bosses[k]).regions, r),
            forall|r: u32|
                #[trigger] play_regions@.contains_key(r) ==> play_regions@[r] == if exists|k: int|
                    0 <= k < j && lists((#[trigger] bosses[k]).regions, r) {
                    index
                } else {
                    play0[r]
                },
        decreases region.bosses@.len() - j,
    {
        let ghost prev = blocks@;
        let ghost prev_play = play_regions@;
        let boss = &region.bosses[j];
        assert(*boss == bosses[j as int]);
        if let Some(maps) = &boss.maps {
            index_blocks(blocks, maps, index);
        }
        if let Some(list) = &boss.regions {
            index_regions(play_regions, list, index);
        }
        assert(forall|b: i32|
            #[trigger] blocks@.contains_key(b) <==> prev.contains_key(b) || boss_in_block(
                *boss,
                b,
            ));
        assert(forall|r: u32|
            #[trigger] play_regions@.contains_key(r) <==> prev_play.contains_key(r) || lists(
                boss.regions,
                r,
            ));
        j = j + 1;
    }
    if let Some(list) = &region.regions {
        index_regions(play_regions, list, index);
    }
}

impl GameBossData {
    /// The indices that the regions call for.
    pub open spec fn wf(self) -> bool {
        &&& gives_last(
            self.block_id_indices@,
            self.regions@,
            |r: RegionBossData, b: i32| region_has_block(r, b),
        )
        &&& gives_last(
            self.play_region_indices@,
            self.regions@,
            |r: RegionBossData, p: u32| region_has_play_region(r, p),
        )
    }

    /// Indexes the regions by their maps and play regions. A map or play region that several
    /// regions have leads to the last of them.
    pub fn new(regions: Vec<RegionBossData>) -> (r: Self)
        ensures
            r.regions == regions,
            r.wf(),
    {
        let ghost by_block = |r: RegionBossData, b: i32| region_has_block(r, b);
        let ghost by_region = |r: RegionBossData, p: u32| region_has_play_region(r, p);
        let mut blocks: HashMap<i32, usize> = HashMap::new();
        let mut play_regions: HashMap<u32, usize> = HashMap::new();
        let mut i: usize = 0;
        while i < regions.len()
            invariant
                i <= regions@.len(),
                by_block == (|r: RegionBossData, b: i32| region_has_block(r, b)),
                by_region == (|r: RegionBossData, p: u32| region_has_play_region(r, p)),
                gives_last(blocks@, regions@.take(i as int), by_block),
                gives_last(play_regions@, regions@.take(i as int), by_region),
            decreases regions@.len() - i,
        {
            let ghost blocks0 = blocks@;
            let ghost play0 = play_regions@;
            let region = &regions[i];
            index_region(&mut blocks, &mut play_regions, region, i);
            proof {
                let done = regions@.take(i as int);
                assert(regions@.take(i + 1) =~= done.push(*region));
                lemma_last_step(blocks0, blocks@, done, *region, by_block);
                lemma_last_step(play0, play_regions@, done, *region, by_region);
            }
            i = i + 1;
        }
        assert(regions@.take(regions@.len() as int) =~= regions@);
        GameBossData {
            regions,
            block_id_indices: blocks,
            play_region_indices: play_regions,
        }
    }

    /// The flags of all bosses, region by region.
    pub fn bosses(&self) -> (r: Vec<u32>)
        ensures
            r@ == boss_flags(self.regions@),
    {
        let mut flags: Vec<u32> = Vec::new();
        let mut i: usize = 0;
        while i < self.regions.len()
            invariant
                i <= self.regions@.len(),
                flags@ == boss_flags(self.regions@.take(i as int)),
            decreases self.regions@.len() - i,
        {
            let ghost before = flags@;
            let bosses = &self.regions[i].bosses;
            let ghost own = bosses@.map_values(|b: BossData| b.flag_id);
            let mut j: usize = 0;
            while j < bosses.len()
                invariant
                    j <= bosses@.len(),
                    own == bosses@.map_values(|b: BossData| b.flag_id),
                    flags@ == before + own.take(j as int),
                decreases bosses@.len() - j,
            {
                flags.push(bosses[j].flag_id);
                assert(flags@ =~= before + own.take(j + 1));
                j = j + 1;
            }
            assert(own.take(own.len() as int) =~= own);
            assert(self.regions@.take(i + 1).drop_last() =~= self.regions@.take(i as int));
            i = i + 1;
        }
        assert(self.regions@.take(self.regions@.len() as int) =~= self.regions@);
        flags
    }

    /// The region that a place belongs to: by its block where that is known to a region, by its
    /// play region otherwise.
    pub open spec fn region_at(self, block_id: Option<i32>, play_region: u32) -> Option<usize> {
        match block_id {
            Some(b) if self.block_id_indices@.contains_key(b) => Some(self.block_id_indices@[b]),
            _ => if self.play_region_indices@.contains_key(play_region) {
                Some(self.play_region_indices@[play_region])
            } else {
                None
            },
        }
    }

    /// The region that a place belongs to.
    pub fn region_index(&self, block_id: Option<i32>, play_region: u32) -> (r: Option<usize>)
        ensures
            r == self.region_at(block_id, play_region),
    {
        if let Some(b) = block_id {
            if let Some(i) = self.block_id_indices.get(&b) {
                return Some(*i);
            }
        }
        match self.play_region_indices.get(&play_region) {
            Some(i) => Some(*i),
            None => None,
        }
    }
}

/// A place leads only to regions that exist.
pub proof fn lemma_region_at_exists(data: GameBossData, block_id: Option<i32>, play_region: u32)
    requires
        data.wf(),
    ensures
        data.region_at(block_id, play_region) matches Some(i) ==> i < data.regions@.len(),
{
}

} // verus!

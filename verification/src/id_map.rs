//! Ranges of user and group ids inside a container, and the ids outside
//! that they stand for.

use vstd::prelude::*;

verus! {

/// `count` ids from `inside` on stand for as many from `outside` on.
#[derive(Clone, Copy, Debug, PartialEq, Eq, Structural)]
pub struct IdMap {
    pub inside: u32,
    pub outside: u32,
    pub count: u32,
}

/// Whether `id` lies in the inside range of `map` and the id outside that
/// it stands for is one that a `u32` can hold.
pub open spec fn covers(map: IdMap, id: u32) -> bool {
    map.inside <= id && id - map.inside < map.count && map.outside + (id - map.inside) <= u32::MAX
}

/// The first position at or after `from` of a map that covers `id`, or
/// the number of maps when there is none.
pub open spec fn covering(maps: Seq<IdMap>, id: u32, from: int) -> int
    decreases maps.len() - from,
{
    if 0 <= from < maps.len() && !covers(maps[from], id) {
        covering(maps, id, from + 1)
    } else {
        from
    }
}

/// The id outside that `id` stands for, by the first map that covers it.
pub open spec fn mapped(maps: Seq<IdMap>, id: u32) -> Option<u32> {
    let k = covering(maps, id, 0);
    if k < maps.len() {
        Some((maps[k].outside + (id - maps[k].inside)) as u32)
    } else {
        None
    }
}

/// The id outside that `id` stands for.
pub fn map_id(maps: &Vec<IdMap>, id: u32) -> (r: Option<u32>)
    ensures
        r == mapped(maps@, id),
{
    let mut k: usize = 0;
    while k < maps.len()
        invariant
            k <= maps.len(),
            covering(maps@, id, 0) == covering(maps@, id, k as int),
        decreases maps.len() - k,
    {
        let m = maps[k];
        if m.inside <= id && id - m.inside < m.count && id - m.inside <= u32::MAX - m.outside {
            return Some(m.outside + (id - m.inside));
        }
        k += 1;
    }
    None
}

/// Whether some map covers `id`.
pub fn in_mapping(maps: &Vec<IdMap>, id: u32) -> (b: bool)
    ensures
        b == mapped(maps@, id) is Some,
{
    map_id(maps, id).is_some()
}

} // verus!

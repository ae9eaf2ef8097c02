//! Choosing targets: what the player sees, the closest monster in range,
//! the monster on a tile, and whether a tile can be targeted.
use vstd::prelude::*;
use crate::data::Object;
use crate::PLAYER;

verus! {

/// Which tiles the player sees, indexed as `fov[x][y]`.
pub type FovGrid = Vec<Vec<bool>>;

/// Whether `(x, y)` is a tile the player sees.
pub open spec fn in_fov(fov: Seq<Vec<bool>>, x: int, y: int) -> bool {
    &&& 0 <= x < fov.len()
    &&& 0 <= y < fov[x]@.len()
    &&& fov[x]@[y]
}

/// Whether the player sees `(x, y)`.
pub fn is_in_fov(fov: &FovGrid, x: i32, y: i32) -> (b: bool)
    ensures
        b == in_fov(fov@, x as int, y as int),
{
    if x < 0 || y < 0 || x as usize >= fov.len() {
        return false;
    }
    let column = &fov[x as usize];
    if y as usize >= column.len() {
        return false;
    }
    column[y as usize]
}

/// The square of the distance between two objects.
pub open spec fn dist2(a: Object, b: Object) -> int {
    (b.x - a.x) * (b.x - a.x) + (b.y - a.y) * (b.y - a.y)
}

/// The square of the distance from an object to `(x, y)`.
pub open spec fn dist2_to(a: Object, x: int, y: int) -> int {
    (x - a.x) * (x - a.x) + (y - a.y) * (y - a.y)
}

/// Whether the object at `k` is a monster the player sees: not the player,
/// a fighter with a behaviour, on a tile in view.
pub open spec fn visible_monster(objects: Seq<Object>, fov: Seq<Vec<bool>>, k: int) -> bool {
    &&& k != PLAYER
    &&& objects[k].fighter is Some
    &&& objects[k].ai is Some
    &&& in_fov(fov, objects[k].x as int, objects[k].y as int)
}

/// The square of the range: a monster is in range when the square of its
/// distance is below this (a range below zero admits nothing).
pub open spec fn range_limit(max_range: int) -> int {
    if max_range + 1 > 0 { (max_range + 1) * (max_range + 1) } else { 0 }
}

/// The closest visible monster within range among the first `n` objects,
/// the first one on a tie.
pub open spec fn closest_among(objects: Seq<Object>, fov: Seq<Vec<bool>>, max_range: int, n: int) -> Option<int>
    decreases n,
{
    if n <= 0 {
        None
    } else {
        let prev = closest_among(objects, fov, max_range, n - 1);
        let k = n - 1;
        let best = match prev {
            Some(i) => dist2(objects[PLAYER as int], objects[i]),
            None => range_limit(max_range),
        };
        if visible_monster(objects, fov, k) && dist2(objects[PLAYER as int], objects[k]) < best {
            Some(k)
        } else {
            prev
        }
    }
}

/// The closest visible monster within range, the first one on a tie.
pub open spec fn spec_closest_monster(objects: Seq<Object>, fov: Seq<Vec<bool>>, max_range: int) -> Option<int> {
    closest_among(objects, fov, max_range, objects.len() as int)
}

/// The closest monster is a visible monster within range that no visible
/// monster is closer than, and that every visible monster before it is
/// farther than; when there is none, every visible monster is out of range.
pub proof fn lemma_closest_monster(objects: Seq<Object>, fov: Seq<Vec<bool>>, max_range: int, n: int)
    requires
        0 <= n <= objects.len(),
        objects.len() > PLAYER,
    ensures
        ({
            let p = objects[PLAYER as int];
            match closest_among(objects, fov, max_range, n) {
                Some(i) => {
                    &&& 0 <= i < n
                    &&& visible_monster(objects, fov, i)
                    &&& dist2(p, objects[i]) < range_limit(max_range)
                    &&& forall|k: int| 0 <= k < n && visible_monster(objects, fov, k) ==> dist2(p, #[trigger] objects[k]) >= dist2(p, objects[i])
                    &&& forall|k: int| 0 <= k < i && visible_monster(objects, fov, k) ==> dist2(p, #[trigger] objects[k]) > dist2(p, objects[i])
                },
                None => forall|k: int| 0 <= k < n && visible_monster(objects, fov, k) ==> dist2(p, #[trigger] objects[k]) >= range_limit(max_range),
            }
        }),
    decreases n,
{
    if n > 0 {
        lemma_closest_monster(objects, fov, max_range, n - 1);
    }
}

/// The closest monster the player sees within `max_range`, the first one
/// on a tie.
pub fn closest_monster(max_range: i32, objects: &[Object], fov: &FovGrid) -> (r: Option<usize>)
    requires
        objects@.len() > PLAYER,
    ensures
        r matches Some(i) ==> spec_closest_monster(objects@, fov@, max_range as int) == Some(i as int),
        r is None ==> spec_closest_monster(objects@, fov@, max_range as int) is None,
{
    let m: i128 = max_range as i128 + 1;
    assert(m * m <= 0x1_0000_0000_0000_0000int) by (nonlinear_arith)
        requires -0x1_0000_0000int <= m <= 0x1_0000_0000int;
    let limit: i128 = if max_range as i128 + 1 > 0 { (max_range as i128 + 1) * (max_range as i128 + 1) } else { 0 };
    let mut closest_enemy: Option<usize> = None;
    let mut closest_dist: i128 = limit;
    let mut id: usize = 0;
    while id < objects.len()
        invariant
            id <= objects@.len(),
            objects@.len() > PLAYER,
            limit == range_limit(max_range as int),
            closest_enemy matches Some(i) ==> closest_among(objects@, fov@, max_range as int, id as int) == Some(i as int)
                && closest_dist == dist2(objects@[PLAYER as int], objects@[i as int]) && i < objects@.len(),
            closest_enemy is None ==> closest_among(objects@, fov@, max_range as int, id as int) is None && closest_dist == limit,
        decreases objects@.len() - id,
    {
        let o = &objects[id];
        if id != PLAYER && o.fighter.is_some() && o.ai.is_some() && is_in_fov(fov, o.x, o.y) {
            let dist = objects[PLAYER].distance_squared(o.x, o.y);
            if dist < closest_dist {
                closest_enemy = Some(id);
                closest_dist = dist;
            }
        }
        id = id + 1;
    }
    closest_enemy
}

/// Whether `o` can be targeted on `(x, y)`: a fighter standing there that
/// is not the player.
pub open spec fn target_at(objects: Seq<Object>, k: int, x: int, y: int) -> bool {
    &&& k != PLAYER
    &&& objects[k].fighter is Some
    &&& objects[k].x == x
    &&& objects[k].y == y
}

/// The first fighter other than the player standing on `(x, y)`, if any.
pub fn monster_at(x: i32, y: i32, objects: &[Object]) -> (r: Option<usize>)
    ensures
        r matches Some(i) ==> i < objects@.len() && target_at(objects@, i as int, x as int, y as int)
            && forall|k: int| 0 <= k < i ==> !target_at(objects@, k, x as int, y as int),
        r is None ==> forall|k: int| 0 <= k < objects@.len() ==> !target_at(objects@, k, x as int, y as int),
{
    let mut id: usize = 0;
    while id < objects.len()
        invariant
            id <= objects@.len(),
            forall|k: int| 0 <= k < id ==> !target_at(objects@, k, x as int, y as int),
        decreases objects@.len() - id,
    {
        if objects[id].x == x && objects[id].y == y && objects[id].fighter.is_some() && id != PLAYER {
            return Some(id);
        }
        id = id + 1;
    }
    None
}

/// Whether `(x, y)` can be targeted: a map tile the player sees and, when a
/// range is given, at most that far from the player.
pub open spec fn targetable(objects: Seq<Object>, fov: Seq<Vec<bool>>, x: int, y: int, max_range: Option<i32>) -> bool {
    &&& in_fov(fov, x, y)
    &&& match max_range {
        Some(r) => r >= 0 && dist2_to(objects[PLAYER as int], x, y) <= r * r,
        None => true,
    }
}

/// Whether the player can target `(x, y)`.
pub fn tile_targetable(x: i32, y: i32, max_range: Option<i32>, objects: &[Object], fov: &FovGrid) -> (b: bool)
    requires
        objects@.len() > PLAYER,
    ensures
        b == targetable(objects@, fov@, x as int, y as int, max_range),
{
    if !is_in_fov(fov, x, y) {
        return false;
    }
    match max_range {
        Some(r) => {
            if r < 0 {
                false
            } else {
                let d = objects[PLAYER].distance_squared(x, y);
                let r2: i128 = r as i128;
                assert(r2 * r2 <= 0x1_0000_0000_0000_0000int) by (nonlinear_arith)
                    requires 0 <= r2 <= 0x1_0000_0000int;
                d <= r2 * r2
            }
        },
        None => true,
    }
}

} // verus!

use vstd::prelude::*;
use crate::components::{Point, Viewshed};
use crate::map::{GameMap, cell};

verus! {

/// Whether `p` lies strictly inside the map's outer ring of cells.
pub open spec fn inside_border(map: GameMap, p: Point) -> bool {
    0 < p.x < map.width - 1 && 0 < p.y < map.height - 1
}

/// The points of `s` that lie strictly inside the map's outer ring, in order.
pub open spec fn kept_points(map: GameMap, s: Seq<Point>) -> Seq<Point>
    decreases s.len(),
{
    if s.len() == 0 {
        Seq::empty()
    } else {
        let rest = kept_points(map, s.drop_last());
        if inside_border(map, s.last()) { rest.push(s.last()) } else { rest }
    }
}

/// Whether some point of `v` is the cell with index `i`.
pub open spec fn seen_cell(v: Seq<Point>, w: int, i: int) -> bool {
    exists|k: int| 0 <= k < v.len() && cell(w, v[k].x as int, v[k].y as int) == i
}

/// Law: every point kept lies strictly inside the map's outer ring.
pub proof fn lemma_kept_inside(map: GameMap, s: Seq<Point>)
    ensures
        forall|k: int| 0 <= k < kept_points(map, s).len() ==> inside_border(map, #[trigger] kept_points(map, s)[k]),
    decreases s.len(),
{
    if s.len() > 0 {
        lemma_kept_inside(map, s.drop_last());
        let rest = kept_points(map, s.drop_last());
        assert forall|k: int| 0 <= k < kept_points(map, s).len() implies inside_border(map, #[trigger] kept_points(map, s)[k]) by {
            if k < rest.len() {
                assert(kept_points(map, s)[k] == rest[k]);
            }
        }
    }
}

/// Law: the view keeps exactly the points of the field of view that lie strictly
/// inside the map's outer ring (columns 1 to width - 2, rows 1 to height - 2), and no
/// other point.
pub proof fn lemma_view_is_fov_inside(map: GameMap, s: Seq<Point>)
    ensures
        forall|p: Point| #[trigger] kept_points(map, s).contains(p)
            <==> (s.contains(p) && 0 < p.x < map.width - 1 && 0 < p.y < map.height - 1),
    decreases s.len(),
{
    if s.len() > 0 {
        let rest = s.drop_last();
        let kr = kept_points(map, rest);
        let k = kept_points(map, s);
        lemma_view_is_fov_inside(map, rest);
        assert forall|p: Point| #[trigger] k.contains(p)
            <==> (s.contains(p) && 0 < p.x < map.width - 1 && 0 < p.y < map.height - 1) by {
            if s.contains(p) {
                let j = choose|j: int| 0 <= j < s.len() && s[j] == p;
                if j < rest.len() {
                    assert(rest[j] == p);
                    assert(rest.contains(p));
                } else {
                    assert(s.last() == p);
                }
            }
            if rest.contains(p) {
                let j = choose|j: int| 0 <= j < rest.len() && rest[j] == p;
                assert(s[j] == p);
            }
            if inside_border(map, s.last()) {
                assert(k == kr.push(s.last()));
                if kr.contains(p) {
                    let j = choose|j: int| 0 <= j < kr.len() && kr[j] == p;
                    assert(k[j] == p);
                }
                if k.contains(p) {
                    let j = choose|j: int| 0 <= j < k.len() && k[j] == p;
                    if j < kr.len() {
                        assert(kr[j] == p);
                    }
                }
                assert(k[kr.len() as int] == s.last());
                assert(s[s.len() - 1] == s.last());
            } else {
                assert(k == kr);
            }
        }
    }
}

/// Sets the view to the cells of `fov` (the field of view computed for this entity)
/// that lie strictly inside the map's outer ring, and, if the entity is the player,
/// marks each of those cells as revealed on the map.
pub fn update_viewshed(vs: &mut Viewshed, fov: Vec<Point>, map: &mut GameMap, is_player: bool)
    requires
        i32::MIN < old(map).width,
        i32::MIN < old(map).height,
        is_player ==> forall|k: int| 0 <= k < kept_points(*old(map), fov@).len()
            ==> #[trigger] cell(old(map).width as int, kept_points(*old(map), fov@)[k].x as int, kept_points(*old(map), fov@)[k].y as int)
                < old(map).revealed_tiles@.len(),
    ensures
        final(vs).visible_tiles@ == kept_points(*old(map), fov@),
        forall|k: int| 0 <= k < final(vs).visible_tiles@.len() ==> inside_border(*old(map), #[trigger] final(vs).visible_tiles@[k]),
        final(vs).range == old(vs).range,
        final(vs).dirty == old(vs).dirty,
        final(map).tiles@ == old(map).tiles@,
        final(map).rooms@ == old(map).rooms@,
        final(map).width == old(map).width,
        final(map).height == old(map).height,
        final(map).visible_tiles@ == old(map).visible_tiles@,
        final(map).blocked@ == old(map).blocked@,
        final(map).depth == old(map).depth,
        final(map).tile_content@ == old(map).tile_content@,
        final(map).revealed_tiles@.len() == old(map).revealed_tiles@.len(),
        forall|i: int| 0 <= i < final(map).revealed_tiles@.len() ==> #[trigger] final(map).revealed_tiles@[i]
            == (old(map).revealed_tiles@[i] || (is_player && seen_cell(final(vs).visible_tiles@, old(map).width as int, i))),
{
    let mut kept: Vec<Point> = Vec::new();
    let n = fov.len();
    let mut i: usize = 0;
    assert(fov@.take(0) =~= Seq::<Point>::empty());
    while i < n
        invariant
            n == fov@.len(),
            i <= n,
            i32::MIN < map.width,
            i32::MIN < map.height,
            kept@ == kept_points(*map, fov@.take(i as int)),
        decreases n - i,
    {
        assert(fov@.take(i + 1).drop_last() =~= fov@.take(i as int));
        let p = fov[i];
        if p.x > 0 && p.x < map.width - 1 && p.y > 0 && p.y < map.height - 1 {
            kept.push(p);
        }
        i = i + 1;
    }
    assert(fov@.take(n as int) =~= fov@);
    vs.visible_tiles = kept;
    proof {
        lemma_kept_inside(*map, fov@);
    }
    if is_player {
        let ghost w = map.width as int;
        let m = vs.visible_tiles.len();
        let mut j: usize = 0;
        while j < m
            invariant
                m == vs.visible_tiles@.len(),
                j <= m,
                vs.visible_tiles@ == kept_points(*old(map), fov@),
                forall|k: int| 0 <= k < m ==> #[trigger] cell(w, vs.visible_tiles@[k].x as int, vs.visible_tiles@[k].y as int)
                    < old(map).revealed_tiles@.len(),
                map.revealed_tiles@.len() == old(map).revealed_tiles@.len(),
                w == map.width,
                map.tiles@ == old(map).tiles@,
                map.rooms@ == old(map).rooms@,
                map.width == old(map).width,
                map.height == old(map).height,
                map.visible_tiles@ == old(map).visible_tiles@,
                map.blocked@ == old(map).blocked@,
                map.depth == old(map).depth,
                map.tile_content@ == old(map).tile_content@,
                forall|k: int| 0 <= k < m ==> inside_border(*old(map), #[trigger] vs.visible_tiles@[k]),
                forall|i: int| 0 <= i < map.revealed_tiles@.len() ==> #[trigger] map.revealed_tiles@[i]
                    == (old(map).revealed_tiles@[i] || seen_cell(vs.visible_tiles@.take(j as int), w, i)),
            decreases m - j,
        {
            let vis = vs.visible_tiles[j];
            assert(inside_border(*old(map), vis));
            assert(cell(w, vis.x as int, vis.y as int) < map.revealed_tiles@.len());
            assert(vis.y as usize == vis.y as int && vis.x as usize == vis.x as int && map.width as usize == w);
            assert(map.revealed_tiles@.len() == map.revealed_tiles.len());
            let idx = map.xy_idx(vis.x, vis.y);
            map.revealed_tiles.set(idx, true);
            let ghost prefix = vs.visible_tiles@.take(j + 1);
            assert(prefix[j as int] == vis);
            assert forall|i: int| 0 <= i < map.revealed_tiles@.len() implies #[trigger] map.revealed_tiles@[i]
                == (old(map).revealed_tiles@[i] || seen_cell(prefix, w, i)) by {
                if seen_cell(vs.visible_tiles@.take(j as int), w, i) {
                    let k = choose|k: int| 0 <= k < j && cell(w, vs.visible_tiles@.take(j as int)[k].x as int, vs.visible_tiles@.take(j as int)[k].y as int) == i;
                    assert(prefix[k] == vs.visible_tiles@.take(j as int)[k]);
                }
                if seen_cell(prefix, w, i) && i != idx {
                    let k = choose|k: int| 0 <= k < j + 1 && cell(w, prefix[k].x as int, prefix[k].y as int) == i;
                    assert(k != j);
                    assert(prefix[k] == vs.visible_tiles@.take(j as int)[k]);
                }
                if i == idx {
                    assert(cell(w, prefix[j as int].x as int, prefix[j as int].y as int) == i);
                }
            }
            j = j + 1;
        }
        assert(vs.visible_tiles@.take(m as int) =~= vs.visible_tiles@);
    } else {
        assert forall|i: int| 0 <= i < map.revealed_tiles@.len() implies #[trigger] map.revealed_tiles@[i]
            == (old(map).revealed_tiles@[i] || (is_player && seen_cell(vs.visible_tiles@, old(map).width as int, i))) by {}
    }
}

} // verus!

//! Building the shapes table.

use vstd::prelude::*;
use vstd::string::StringSliceAdditionalSpecFns;

use crate::compiler::feed::{utf8, RawShape};
use crate::compiler::runs::{group_runs, run_of};
use crate::compiler::stop_times::is_permutation;
use crate::models::coordinate::{Distance, Shape};
use crate::models::opt::Opt;
use crate::models::sentinel::Sentinel;
use crate::models::slice::ShapeSlice;
use crate::sorting::{lemma_reordered_positions, par_sort, Ordered};
use crate::text_map::{find, first_seen, lemma_find_unique, lemma_first_seen_push, TextMap};

verus! {

/// The identifiers of `raw`, as bytes.
pub open spec fn shape_ids_of(raw: Seq<RawShape>) -> Seq<Seq<u8>> {
    raw.map_values(|s: RawShape| utf8(s.id))
}

/// The point built from row `s`.
pub open spec fn shape_point(s: RawShape) -> Shape {
    Shape {
        coordinate: s.coordinate,
        distance_traveled: match s.dist_traveled {
            Some(d) => Opt(d),
            None => Opt(Distance::spec_none()),
        },
    }
}

/// The group (position among the shape identifiers) of each placed row.
pub open spec fn shape_groups(raw: Seq<RawShape>, perm: Seq<int>, keys: Seq<Seq<u8>>) -> Seq<u32> {
    Seq::new(perm.len(), |m: int| find(keys, utf8(raw[perm[m]].id))->0 as u32)
}

/// Builds the shapes table, and the map from shape identifiers to their runs.
/// Points are grouped by shape, shapes in the order in which their
/// identifiers first occur, and each shape's points ordered by sequence.
pub fn build_shapes(raw_shapes: &[RawShape]) -> (r: (Vec<Shape>, TextMap<ShapeSlice>))
    requires
        raw_shapes@.len() <= u32::MAX,
    ensures
        r.1.wf(),
        r.1.keys() == first_seen(shape_ids_of(raw_shapes@)),
        r.1.values().len() == r.1.keys().len(),
        r.0@.len() == raw_shapes@.len(),
        exists|perm: Seq<int>|
            {
                &&& is_permutation(perm, raw_shapes@.len())
                &&& forall|m: int| 0 <= m < r.0@.len() ==> #[trigger] r.0@[m] == shape_point(raw_shapes@[perm[m]])
                &&& forall|g: int|
                    0 <= g < r.1.keys().len() ==> run_of(
                        shape_groups(raw_shapes@, perm, r.1.keys()),
                        g,
                        #[trigger] r.1.values()[g],
                    )
                &&& forall|a: int, b: int|
                    #![trigger perm[a], perm[b]]
                    0 <= a < b < raw_shapes@.len() ==> {
                        let ga = shape_groups(raw_shapes@, perm, r.1.keys())[a];
                        let gb = shape_groups(raw_shapes@, perm, r.1.keys())[b];
                        ga < gb || (ga == gb && raw_shapes@[perm[a]].sequence <= raw_shapes@[perm[b]].sequence)
                    }
            },
{
    let ghost ids = shape_ids_of(raw_shapes@);
    let mut group_map: TextMap<u32> = TextMap::new();
    let mut groups: Vec<u32> = Vec::new();
    proof {
        assert(ids.take(0) =~= Seq::<Seq<u8>>::empty());
        assert(first_seen(Seq::<Seq<u8>>::empty()) =~= Seq::<Seq<u8>>::empty());
    }
    let mut i: usize = 0;
    while i < raw_shapes.len()
        invariant
            i <= raw_shapes@.len() <= u32::MAX,
            ids == shape_ids_of(raw_shapes@),
            group_map.wf(),
            group_map.keys() == first_seen(ids.take(i as int)),
            group_map.keys().len() <= i,
            groups@.len() == i,
            forall|j: int| 0 <= j < i ==> find(group_map.keys(), #[trigger] ids[j]) is Some,
            forall|j: int|
                0 <= j < i ==> #[trigger] groups@[j] == find(group_map.keys(), ids[j])->0 as u32,
        decreases raw_shapes@.len() - i,
    {
        let id = raw_shapes[i].id.as_str();
        proof {
            lemma_first_seen_push(ids.take(i as int), ids[i as int]);
            assert(ids.take(i as int).push(ids[i as int]) =~= ids.take(i + 1));
            group_map.lemma_wf();
        }
        let ghost keys0 = group_map.keys();
        let ghost groups0 = groups@;
        match group_map.position(id.as_bytes()) {
            Some(p) => {
                groups.push(p as u32);
                proof {
                    let w = find(keys0, ids[i as int])->0;
                    assert(keys0[w] == ids[i as int]);
                    assert(keys0.contains(ids[i as int]));
                }
            },
            None => {
                let g = group_map.len();
                group_map.insert(id, g as u32);
                groups.push(g as u32);
                proof {
                    group_map.lemma_wf();
                    assert(!keys0.contains(ids[i as int]));
                    lemma_find_unique(group_map.keys(), ids[i as int], g as int);
                }
            },
        }
        proof {
            group_map.lemma_wf();
            assert(groups@ == groups0.push(find(group_map.keys(), ids[i as int])->0 as u32));
            assert(group_map.keys() == keys0 || group_map.keys() == keys0.push(ids[i as int]));
            assert(find(group_map.keys(), ids[i as int]) is Some);
            assert forall|j: int| 0 <= j < i + 1 implies find(group_map.keys(), #[trigger] ids[j]) is Some
                && groups@[j] == find(group_map.keys(), ids[j])->0 as u32 by {
                if j < i {
                    assert(groups0[j] == find(keys0, ids[j])->0 as u32);
                    let w = find(keys0, ids[j])->0;
                    assert(keys0[w] == ids[j]);
                    assert(group_map.keys()[w] == ids[j]);
                    lemma_find_unique(group_map.keys(), ids[j], w);
                }
            }
        }
        i = i + 1;
    }
    proof {
        assert(ids.take(i as int) =~= ids);
        group_map.lemma_wf();
    }
    let group_count = group_map.len();
    // Order the rows by group, then by sequence.
    let mut order: Vec<(u32, usize, u32)> = Vec::new();
    let mut k: usize = 0;
    while k < raw_shapes.len()
        invariant
            k <= raw_shapes@.len() <= u32::MAX,
            groups@.len() == raw_shapes@.len(),
            order@.len() == k,
            forall|m: int| 0 <= m < k ==> #[trigger] order@[m] == (groups@[m], raw_shapes@[m].sequence, m as u32),
        decreases raw_shapes@.len() - k,
    {
        order.push((groups[k], raw_shapes[k].sequence, k as u32));
        k = k + 1;
    }
    let ghost unsorted = order@;
    par_sort(&mut order);
    proof {
        lemma_reordered_positions(unsorted, order@, |t: (u32, usize, u32)| t.2 as int);
    }
    let mut shapes: Vec<Shape> = Vec::new();
    let mut keys: Vec<u32> = Vec::new();
    let mut m: usize = 0;
    while m < order.len()
        invariant
            m <= order@.len() == raw_shapes@.len(),
            shapes@.len() == m,
            keys@.len() == m,
            forall|q: int| 0 <= q < order@.len() ==> (#[trigger] order@[q]).2 < raw_shapes@.len() && order@[q]
                == unsorted[order@[q].2 as int],
            forall|q: int| 0 <= q < unsorted.len() ==> #[trigger] unsorted[q] == (groups@[q], raw_shapes@[q].sequence, q as u32),
            forall|q: int| 0 <= q < m ==> #[trigger] shapes@[q] == shape_point(raw_shapes@[order@[q].2 as int]),
            forall|q: int| 0 <= q < m ==> #[trigger] keys@[q] == order@[q].0,
        decreases order@.len() - m,
    {
        let s = &raw_shapes[order[m].2 as usize];
        let distance_traveled = match s.dist_traveled {
            Some(d) => Opt::new(d),
            None => Opt::new(Distance::none()),
        };
        shapes.push(Shape { coordinate: s.coordinate, distance_traveled });
        keys.push(order[m].0);
        m = m + 1;
    }
    let ghost perm = order@.map_values(|t: (u32, usize, u32)| t.2 as int);
    proof {
        assert forall|x: int| 0 <= x < keys@.len() implies keys@[x] < group_count by {
            let w = order@[x].2 as int;
            assert(keys@[x] == groups@[w]);
            assert(find(group_map.keys(), ids[w]) is Some);
        }
        assert forall|a: int, b: int| 0 <= a < b < keys@.len() implies keys@[a] <= keys@[b] by {
            assert(order@[a].le(order@[b]));
        }
    }
    let lookup = group_runs::<ShapeSlice>(keys.as_slice(), group_count);
    let mut shape_map: TextMap<ShapeSlice> = TextMap::new();
    proof {
        assert(group_map.keys().take(0) =~= Seq::<Seq<u8>>::empty());
        assert(lookup@.take(0) =~= Seq::<ShapeSlice>::empty());
    }
    let mut g: usize = 0;
    while g < group_count
        invariant
            g <= group_count == group_map.keys().len() == lookup@.len(),
            group_map.wf(),
            crate::text_map::distinct(group_map.keys()),
            shape_map.wf(),
            shape_map.keys() == group_map.keys().take(g as int),
            shape_map.values() == lookup@.take(g as int),
        decreases group_count - g,
    {
        let key = group_map.key_at(g);
        proof {
            shape_map.lemma_wf();
            if find(shape_map.keys(), key.spec_bytes()) is Some {
                let w = find(shape_map.keys(), key.spec_bytes())->0;
                assert(group_map.keys()[w] == group_map.keys()[g as int]);
            }
        }
        shape_map.insert(key, lookup[g]);
        proof {
            assert(group_map.keys().take(g as int).push(group_map.keys()[g as int]) =~= group_map.keys().take(g + 1));
            assert(lookup@.take(g as int).push(lookup@[g as int]) =~= lookup@.take(g + 1));
        }
        g = g + 1;
    }
    proof {
        assert(group_map.keys().take(g as int) =~= group_map.keys());
        assert(lookup@.take(g as int) =~= lookup@);
        assert(is_permutation(perm, raw_shapes@.len()));
        let gk = shape_groups(raw_shapes@, perm, shape_map.keys());
        assert forall|x: int| 0 <= x < keys@.len() implies #[trigger] gk[x] == keys@[x] by {
            let w = order@[x].2 as int;
            assert(perm[x] == w);
            assert(keys@[x] == groups@[w]);
        }
        assert(gk =~= keys@);
        assert forall|x: int| 0 <= x < shapes@.len() implies #[trigger] shapes@[x] == shape_point(raw_shapes@[perm[x]]) by {
            assert(perm[x] == order@[x].2 as int);
        }
        assert forall|a: int, b: int|
            #![trigger perm[a], perm[b]]
            0 <= a < b < raw_shapes@.len() implies ({
            let ga = gk[a];
            let gb = gk[b];
            ga < gb || (ga == gb && raw_shapes@[perm[a]].sequence <= raw_shapes@[perm[b]].sequence)
        }) by {
            assert(order@[a].le(order@[b]));
            assert(perm[a] == order@[a].2 as int);
            assert(perm[b] == order@[b].2 as int);
        }
    }
    (shapes, shape_map)
}

} // verus!

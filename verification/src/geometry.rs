//! Putting shapes in drawing order, and joining their vertex and index lists
//! into one mesh.

use vstd::prelude::*;

verus! {

/// Every index of `inds`, raised by `base`, still fits an index of 16 bits.
pub open spec fn fits_after(inds: Seq<u16>, base: int) -> bool {
    forall|k: int| 0 <= k < inds.len() ==> #[trigger] inds[k] + base <= u16::MAX
}

/// The indices `inds`, each raised by `base`.
pub open spec fn raised(inds: Seq<u16>, base: int) -> Seq<u16> {
    Seq::new(inds.len(), |k: int| (inds[k] + base) as u16)
}

/// Whether every index of `inds`, raised by `base`, still fits.
pub fn indices_fit_after(inds: &Vec<u16>, base: usize) -> (fits: bool)
    ensures
        fits == fits_after(inds@, base as int),
{
    let mut k: usize = 0;
    while k < inds.len()
        invariant
            k <= inds.len(),
            forall|j: int| 0 <= j < k ==> #[trigger] inds[j] + base <= u16::MAX,
        decreases inds.len() - k,
    {
        if base > u16::MAX as usize || inds[k] as usize > u16::MAX as usize - base {
            assert(!(inds@[k as int] + base <= u16::MAX));
            return false;
        }
        k += 1;
    }
    true
}

/// Adds a shape to a mesh: its vertices go behind those of the mesh, and its
/// indices, which count from the shape's first vertex, are raised by the
/// number of vertices the mesh had.
pub fn append_geometry<V>(
    verts: &mut Vec<V>,
    inds: &mut Vec<u16>,
    shape_verts: Vec<V>,
    shape_inds: Vec<u16>,
)
    requires
        fits_after(shape_inds@, old(verts).len() as int),
    ensures
        final(verts)@ == old(verts)@ + shape_verts@,
        final(inds)@ == old(inds)@ + raised(shape_inds@, old(verts).len() as int),
{
    let base = verts.len();
    let mut k: usize = 0;
    while k < shape_inds.len()
        invariant
            k <= shape_inds.len(),
            fits_after(shape_inds@, base as int),
            inds@ == old(inds)@ + raised(shape_inds@, base as int).subrange(0, k as int),
        decreases shape_inds.len() - k,
    {
        let ghost before = inds@;
        assert(shape_inds@[k as int] + base <= u16::MAX);
        inds.push(shape_inds[k] + base as u16);
        k += 1;
        assert(inds@ =~= old(inds)@ + raised(shape_inds@, base as int).subrange(0, k as int));
    }
    assert(raised(shape_inds@, base as int).subrange(0, k as int) =~= raised(
        shape_inds@,
        base as int,
    ));
    let mut shape_verts = shape_verts;
    verts.append(&mut shape_verts);
}

/// Adds a shape to a mesh where its indices still fit, and says whether it
/// did; a mesh it did not add to is left as it was.
pub fn try_append_geometry<V>(
    verts: &mut Vec<V>,
    inds: &mut Vec<u16>,
    shape_verts: Vec<V>,
    shape_inds: Vec<u16>,
) -> (added: bool)
    ensures
        added == fits_after(shape_inds@, old(verts).len() as int),
        added ==> final(verts)@ == old(verts)@ + shape_verts@,
        added ==> final(inds)@ == old(inds)@ + raised(shape_inds@, old(verts).len() as int),
        !added ==> final(verts)@ == old(verts)@ && final(inds)@ == old(inds)@,
{
    if indices_fit_after(&shape_inds, verts.len()) {
        append_geometry(verts, inds, shape_verts, shape_inds);
        true
    } else {
        false
    }
}

/// The shape at place `a` is drawn before the shape at place `b`: it lies on
/// a lower layer, or on the same layer and earlier in the list.
pub open spec fn drawn_before(layers: Seq<u8>, a: int, b: int) -> bool {
    layers[a] < layers[b] || (layers[a] == layers[b] && a < b)
}

/// `order` lists every place of `layers` once, each before all those that
/// are drawn after it.
pub open spec fn is_depth_order(layers: Seq<u8>, order: Seq<usize>) -> bool {
    &&& order.len() == layers.len()
    &&& forall|k: int| 0 <= k < order.len() ==> (#[trigger] order[k]) < layers.len()
    &&& forall|j: usize| j < layers.len() ==> #[trigger] order.contains(j)
    &&& forall|a: int, b: int|
        0 <= a < b < order.len() ==> drawn_before(layers, #[trigger] order[a] as int, #[trigger] order[b] as int)
}

/// The places of the shapes in the order they are drawn in: lowest layer
/// first, and shapes of one layer in the order they were given in.
pub fn depth_order(layers: &Vec<u8>) -> (order: Vec<usize>)
    ensures
        is_depth_order(layers@, order@),
{
    let mut order: Vec<usize> = Vec::new();
    let mut i: usize = 0;
    while i < layers.len()
        invariant
            i <= layers.len(),
            order.len() == i,
            forall|k: int| 0 <= k < order.len() ==> (#[trigger] order[k]) < i,
            forall|j: usize| j < i ==> #[trigger] order@.contains(j),
            forall|a: int, b: int|
                0 <= a < b < order.len() ==> drawn_before(
                    layers@,
                    #[trigger] order[a] as int,
                    #[trigger] order[b] as int,
                ),
        decreases layers.len() - i,
    {
        let mut p: usize = order.len();
        while p > 0 && layers[order[p - 1]] > layers[i]
            invariant
                i < layers.len(),
                p <= order.len(),
                order.len() == i,
                forall|k: int| 0 <= k < order.len() ==> (#[trigger] order[k]) < i,
                forall|k: int| p <= k < order.len() ==> layers[(#[trigger] order[k]) as int] > layers[i as int],
            decreases p,
        {
            p -= 1;
        }
        let ghost before = order@;
        order.insert(p, i);
        proof {
            assert forall|j: usize| j < i + 1 implies #[trigger] order@.contains(j) by {
                if j < i {
                    assert(before.contains(j));
                    let k = choose|k: int| 0 <= k < before.len() && before[k] == j;
                    if k < p {
                        assert(order@[k] == j);
                    } else {
                        assert(order@[k + 1] == j);
                    }
                } else {
                    assert(order@[p as int] == i);
                }
            }
            assert forall|a: int, b: int| 0 <= a < b < order.len() implies drawn_before(
                layers@,
                #[trigger] order[a] as int,
                #[trigger] order[b] as int,
            ) by {
                let oa = if a < p { a } else { a - 1 };
                let ob = if b < p { b } else { b - 1 };
                if a == p {
                    assert(order[b] == before[ob]);
                } else if b == p {
                    assert(order[a] == before[oa]);
                    assert(before[oa] < i);
                    if p > 0 {
                        assert(drawn_before(layers@, before[oa] as int, before[p - 1] as int) || oa == p - 1);
                    }
                } else {
                    assert(order[a] == before[oa]);
                    assert(order[b] == before[ob]);
                    assert(drawn_before(layers@, before[oa] as int, before[ob] as int));
                }
            }
        }
        i += 1;
    }
    order
}

} // verus!

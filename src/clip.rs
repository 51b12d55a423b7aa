//! The case table of clipping one triangle against one plane.
//!
//! A vertex is inside when its signed distance to the plane is at least zero.
//! From the inside / outside flags of the three vertices alone this module
//! decides how many triangles survive and which corners they are made of;
//! the caller computes the distances and the intersection points.
use vstd::prelude::*;

verus! {

/// One corner of a clipped triangle.
#[derive(Clone, Copy, Debug, PartialEq, Eq, Structural)]
pub enum Corner {
    /// Vertex `i` of the source triangle, unchanged.
    Kept(usize),
    /// The point where the edge from inside vertex `a` to outside vertex `b`
    /// meets the plane.
    Cut(usize, usize),
}

/// Indices of the inside vertices, in their original order.
pub open spec fn inside_list(inside: [bool; 3]) -> Seq<usize> {
    Seq::new(3, |i: int| i as usize).filter(|i: usize| inside[i as int])
}

/// Indices of the outside vertices, in their original order.
pub open spec fn outside_list(inside: [bool; 3]) -> Seq<usize> {
    Seq::new(3, |i: int| i as usize).filter(|i: usize| !inside[i as int])
}

/// The triangles that survive, by the number of inside vertices:
/// none; the source triangle; the inside vertex with the two cut points of
/// its edges; or the quad of two inside vertices and two cut points, split
/// into two triangles.
pub open spec fn clip_table(inside: [bool; 3]) -> Seq<[Corner; 3]> {
    let ins = inside_list(inside);
    let outs = outside_list(inside);
    if ins.len() == 0 {
        seq![]
    } else if ins.len() == 3 {
        seq![[Corner::Kept(0), Corner::Kept(1), Corner::Kept(2)]]
    } else if ins.len() == 1 {
        seq![[Corner::Kept(ins[0]), Corner::Cut(ins[0], outs[0]), Corner::Cut(ins[0], outs[1])]]
    } else {
        seq![
            [Corner::Kept(ins[0]), Corner::Kept(ins[1]), Corner::Cut(ins[0], outs[0])],
            [Corner::Kept(ins[1]), Corner::Cut(ins[0], outs[0]), Corner::Cut(ins[1], outs[0])],
        ]
    }
}

/// Number of triangles that survive when `n` of the three vertices are inside.
pub open spec fn surviving_count(n: nat) -> nat {
    if n == 0 {
        0
    } else if n == 1 || n == 3 {
        1
    } else {
        2
    }
}

proof fn lemma_lists(inside: [bool; 3])
    ensures
        inside_list(inside) == {
            let s0: Seq<usize> = if inside[0] { seq![0usize] } else { seq![] };
            let s1: Seq<usize> = if inside[1] { s0.push(1usize) } else { s0 };
            if inside[2] { s1.push(2usize) } else { s1 }
        },
        outside_list(inside) == {
            let s0: Seq<usize> = if !inside[0] { seq![0usize] } else { seq![] };
            let s1: Seq<usize> = if !inside[1] { s0.push(1usize) } else { s0 };
            if !inside[2] { s1.push(2usize) } else { s1 }
        },
{
    let all = Seq::new(3, |i: int| i as usize);
    assert(all =~= seq![0usize, 1usize, 2usize]);
    reveal_with_fuel(Seq::filter, 4);
    assert(all.drop_last() =~= seq![0usize, 1usize]);
    assert(all.drop_last().drop_last() =~= seq![0usize]);
    assert(all.drop_last().drop_last().drop_last() =~= Seq::<usize>::empty());
    let fi = |i: usize| inside[i as int];
    let fo = |i: usize| !inside[i as int];
    assert(all.filter(fi) =~= {
        let s0: Seq<usize> = if inside[0] { seq![0usize] } else { seq![] };
        let s1: Seq<usize> = if inside[1] { s0.push(1usize) } else { s0 };
        if inside[2] { s1.push(2usize) } else { s1 }
    });
    assert(all.filter(fo) =~= {
        let s0: Seq<usize> = if !inside[0] { seq![0usize] } else { seq![] };
        let s1: Seq<usize> = if !inside[1] { s0.push(1usize) } else { s0 };
        if !inside[2] { s1.push(2usize) } else { s1 }
    });
}

/// Every vertex is classified exactly once, and the number of surviving
/// triangles follows the number of inside vertices: none inside gives none,
/// one or three inside give one, two inside give two.
pub proof fn lemma_clip_classification_complete(inside: [bool; 3])
    ensures
        inside_list(inside).len() + outside_list(inside).len() == 3,
        clip_table(inside).len() == surviving_count(inside_list(inside).len()),
{
    lemma_lists(inside);
}

/// Splits the vertex indices into the inside ones and the outside ones,
/// each in their original order.
pub fn classify_vertices(inside: &[bool; 3]) -> (r: (Vec<usize>, Vec<usize>))
    ensures
        r.0@ == inside_list(*inside),
        r.1@ == outside_list(*inside),
{
    proof {
        lemma_lists(*inside);
    }
    let mut ins: Vec<usize> = Vec::new();
    let mut outs: Vec<usize> = Vec::new();
    if inside[0] {
        ins.push(0);
    } else {
        outs.push(0);
    }
    if inside[1] {
        ins.push(1);
    } else {
        outs.push(1);
    }
    if inside[2] {
        ins.push(2);
    } else {
        outs.push(2);
    }
    proof {
        assert(ins@ =~= inside_list(*inside));
        assert(outs@ =~= outside_list(*inside));
    }
    (ins, outs)
}

/// The triangles that remain of a triangle whose vertices lie inside the
/// plane as `inside` says, as corners of the source triangle and cut points
/// of its edges.
pub fn clip_corners(inside: &[bool; 3]) -> (r: Vec<[Corner; 3]>)
    ensures
        r@ == clip_table(*inside),
        r@.len() == surviving_count(inside_list(*inside).len()),
{
    proof {
        lemma_clip_classification_complete(*inside);
    }
    let (ins, outs) = classify_vertices(inside);
    let mut r: Vec<[Corner; 3]> = Vec::new();
    if ins.len() == 0 {
    } else if ins.len() == 3 {
        r.push([Corner::Kept(0), Corner::Kept(1), Corner::Kept(2)]);
    } else if ins.len() == 1 {
        r.push([Corner::Kept(ins[0]), Corner::Cut(ins[0], outs[0]), Corner::Cut(ins[0], outs[1])]);
    } else {
        let cut0 = Corner::Cut(ins[0], outs[0]);
        r.push([Corner::Kept(ins[0]), Corner::Kept(ins[1]), cut0]);
        r.push([Corner::Kept(ins[1]), cut0, Corner::Cut(ins[1], outs[0])]);
    }
    proof {
        assert(r@ =~= clip_table(*inside));
    }
    r
}

} // verus!

//! Faces of a loaded mesh into triangles.
//!
//! A face lists three or four 1-based references into the mesh's vertex (or
//! texture-coordinate) list. A triangle is kept as it is; a quad
//! `(r0, r1, r2, r3)` becomes the fan `(r0, r1, r2)`, `(r0, r2, r3)`.
use vstd::prelude::*;

verus! {

/// Whether every reference of `refs` names one of `count` entries, counting
/// from 1.
pub open spec fn refs_in_range(refs: Seq<usize>, count: int) -> bool {
    forall|i: int| 0 <= i < refs.len() ==> 1 <= #[trigger] refs[i] <= count
}

/// The 0-based triangles of a face of three or four 1-based references.
pub open spec fn face_fan(refs: Seq<usize>) -> Seq<[usize; 3]> {
    let z = |i: int| (refs[i] - 1) as usize;
    if refs.len() == 3 {
        seq![[z(0), z(1), z(2)]]
    } else {
        seq![[z(0), z(1), z(2)], [z(0), z(2), z(3)]]
    }
}

/// The triangles of a face, as 0-based indices into a list of `count`
/// entries. `None` when the face does not have three or four references,
/// or when a reference is 0 or greater than `count`.
pub fn triangulate_face(refs: &Vec<usize>, count: usize) -> (r: Option<Vec<[usize; 3]>>)
    ensures
        r is Some <==> ((refs@.len() == 3 || refs@.len() == 4) && refs_in_range(
            refs@,
            count as int,
        )),
        r matches Some(t) ==> t@ == face_fan(refs@),
{
    let n = refs.len();
    if n != 3 && n != 4 {
        return None;
    }
    let mut i: usize = 0;
    while i < n
        invariant
            n == refs@.len(),
            0 <= i <= n,
            refs_in_range(refs@.take(i as int), count as int),
        decreases n - i,
    {
        if refs[i] == 0 || refs[i] > count {
            proof {
                assert(!refs_in_range(refs@, count as int)) by {
                    assert(!(1 <= refs@[i as int] <= count));
                }
            }
            return None;
        }
        proof {
            assert forall|j: int| 0 <= j < i + 1 implies 1 <= #[trigger] refs@.take(i + 1)[j]
                <= count by {
                if j < i {
                    assert(refs@.take(i + 1)[j] == refs@.take(i as int)[j]);
                }
            }
        }
        i = i + 1;
    }
    proof {
        assert(refs@.take(n as int) =~= refs@);
    }
    let mut t: Vec<[usize; 3]> = Vec::new();
    t.push([refs[0] - 1, refs[1] - 1, refs[2] - 1]);
    if n == 4 {
        t.push([refs[0] - 1, refs[2] - 1, refs[3] - 1]);
    }
    proof {
        assert(t@ =~= face_fan(refs@));
    }
    Some(t)
}

} // verus!

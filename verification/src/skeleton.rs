//! The fixed bone-connection topology used when rendering a skeleton, and
//! the rule for which bones may be drawn: a bone appears only when both of
//! its endpoint keypoints are present in the current detection.

use vstd::prelude::*;
use crate::decoder::Keypoint;

verus! {

/// The fixed bone list of the 17-point body landmark convention, as
/// `(keypoint identity, keypoint identity)` pairs: head links, arms,
/// shoulders, torso and legs.
pub open spec fn bone_topology_spec() -> Seq<(usize, usize)> {
    seq![
        (0usize, 1usize),
        (0usize, 2usize),
        (1usize, 3usize),
        (2usize, 4usize),
        (5usize, 7usize),
        (7usize, 9usize),
        (6usize, 8usize),
        (8usize, 10usize),
        (5usize, 6usize),
        (5usize, 11usize),
        (6usize, 12usize),
        (11usize, 12usize),
        (11usize, 13usize),
        (13usize, 15usize),
        (12usize, 14usize),
        (14usize, 16usize),
    ]
}

/// The fixed bone list, as a vector for rendering code.
pub fn bone_topology() -> (r: Vec<(usize, usize)>)
    ensures
        r@ == bone_topology_spec(),
{
    let mut v: Vec<(usize, usize)> = Vec::new();
    v.push((0, 1));
    v.push((0, 2));
    v.push((1, 3));
    v.push((2, 4));
    v.push((5, 7));
    v.push((7, 9));
    v.push((6, 8));
    v.push((8, 10));
    v.push((5, 6));
    v.push((5, 11));
    v.push((6, 12));
    v.push((11, 12));
    v.push((11, 13));
    v.push((13, 15));
    v.push((12, 14));
    v.push((14, 16));
    proof {
        assert(v@ =~= bone_topology_spec());
    }
    v
}

/// Some keypoint in `kps` has identity `id`.
pub open spec fn has_id(kps: Seq<Keypoint>, id: usize) -> bool {
    exists|j: int| 0 <= j < kps.len() && (#[trigger] kps[j]).id == id
}

/// Whether the list holds a keypoint with identity `id`.
pub fn contains_id(kps: &Vec<Keypoint>, id: usize) -> (present: bool)
    ensures
        present == has_id(kps@, id),
{
    let mut j: usize = 0;
    while j < kps.len()
        invariant
            j <= kps@.len(),
            forall|t: int| 0 <= t < j ==> (#[trigger] kps@[t]).id != id,
        decreases kps@.len() - j,
    {
        if kps[j].id == id {
            proof {
                assert((kps@[j as int]).id == id);
            }
            return true;
        }
        j = j + 1;
    }
    false
}

/// The bones of `bones`, in order, whose two endpoint identities are both
/// present in `kps`.
pub open spec fn drawable_from(kps: Seq<Keypoint>, bones: Seq<(usize, usize)>) -> Seq<
    (usize, usize),
>
    decreases bones.len(),
{
    if bones.len() == 0 {
        Seq::<(usize, usize)>::empty()
    } else if has_id(kps, bones[0].0) && has_id(kps, bones[0].1) {
        seq![bones[0]] + drawable_from(kps, bones.skip(1))
    } else {
        drawable_from(kps, bones.skip(1))
    }
}

/// Law: a bone is drawn only if it belongs to the topology and both of its
/// endpoint keypoints are present in the current detection.
pub proof fn lemma_drawable_bones_sound(kps: Seq<Keypoint>, bones: Seq<(usize, usize)>)
    ensures
        forall|t: int|
            0 <= t < drawable_from(kps, bones).len() ==> {
                &&& has_id(kps, (#[trigger] drawable_from(kps, bones)[t]).0)
                &&& has_id(kps, drawable_from(kps, bones)[t].1)
                &&& bones.contains(drawable_from(kps, bones)[t])
            },
    decreases bones.len(),
{
    if bones.len() > 0 {
        lemma_drawable_bones_sound(kps, bones.skip(1));
        let d = drawable_from(kps, bones);
        let rest = drawable_from(kps, bones.skip(1));
        assert forall|t: int|
            0 <= t < rest.len() implies bones.contains(#[trigger] rest[t]) by {
            let w = choose|w: int| 0 <= w < bones.skip(1).len() && bones.skip(1)[w] == rest[t];
            assert(bones[w + 1] == rest[t]);
        }
        if has_id(kps, bones[0].0) && has_id(kps, bones[0].1) {
            assert(d == seq![bones[0]] + rest);
            assert(forall|t: int| 1 <= t < d.len() ==> d[t] == rest[t - 1]);
            assert(d[0] == bones[0]);
            assert(bones.contains(bones[0]));
        } else {
            assert(d == rest);
        }
    }
}

/// The bones to draw for the current keypoint list: every topology bone both
/// of whose endpoints were detected, in topology order.
pub fn drawable_bones(kps: &Vec<Keypoint>) -> (r: Vec<(usize, usize)>)
    ensures
        r@ == drawable_from(kps@, bone_topology_spec()),
{
    let bones = bone_topology();
    let n: usize = bones.len();
    let mut out: Vec<(usize, usize)> = Vec::new();
    proof {
        assert(bones@.skip(0) =~= bones@);
        assert(Seq::<(usize, usize)>::empty() + drawable_from(kps@, bones@) =~= drawable_from(
            kps@,
            bones@,
        ));
    }
    let mut i: usize = 0;
    while i < n
        invariant
            n == bones@.len(),
            bones@ == bone_topology_spec(),
            i <= n,
            out@ + drawable_from(kps@, bones@.skip(i as int)) == drawable_from(
                kps@,
                bone_topology_spec(),
            ),
        decreases n - i,
    {
        let bone = bones[i];
        let a_present = contains_id(kps, bone.0);
        let b_present = contains_id(kps, bone.1);
        let ghost pre = out@;
        if a_present && b_present {
            out.push(bone);
        }
        proof {
            let tail = bones@.skip(i as int);
            assert(tail[0] == bones@[i as int]);
            assert(tail.skip(1) =~= bones@.skip(i + 1));
            if a_present && b_present {
                assert(drawable_from(kps@, tail) == seq![tail[0]] + drawable_from(
                    kps@,
                    bones@.skip(i + 1),
                ));
                assert(out@ =~= pre + seq![bones@[i as int]]);
                assert(pre + (seq![bones@[i as int]] + drawable_from(kps@, bones@.skip(i + 1)))
                    =~= out@ + drawable_from(kps@, bones@.skip(i + 1)));
            } else {
                assert(drawable_from(kps@, tail) == drawable_from(kps@, bones@.skip(i + 1)));
            }
        }
        i = i + 1;
    }
    proof {
        assert(bones@.skip(n as int).len() == 0);
        assert(out@ + drawable_from(kps@, bones@.skip(n as int)) =~= out@);
    }
    out
}

} // verus!

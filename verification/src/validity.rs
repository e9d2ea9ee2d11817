//! Checks on documents that were built by hand.

use vstd::prelude::*;
use crate::literal::{check_name, check_number, is_number};
use crate::model::{
    bvh_ok, joint_model, joint_ok, joints_model, joints_ok, lemma_joints_model_prefix, motion_ok,
    numbers_model, offset_ok, total_channels, Bvh, BvhModel, Joint, JointChildren, JointModel,
    Motion, Offset,
};

verus! {

/// The frame buffer holds `num_frames` rows, each as wide as the skeleton
/// has channels.
pub open spec fn whole_frames(v: BvhModel) -> bool {
    v.motion.frame_data.len() == v.motion.num_frames * total_channels(v.root)
}

/// Every beginning of a row of well-formed joints is such a row.
pub proof fn lemma_joints_ok_prefix(js: Seq<JointModel>, k: int)
    requires
        joints_ok(js),
        0 <= k <= js.len(),
    ensures
        joints_ok(js.subrange(0, k)),
    decreases js.len(),
{
    if k == js.len() {
        assert(js.subrange(0, k) =~= js);
    } else {
        lemma_joints_ok_prefix(js.drop_last(), k);
        assert(js.subrange(0, k) =~= js.drop_last().subrange(0, k));
    }
}

impl Offset {
    /// Whether the three numbers are decimal numbers.
    pub fn is_well_formed(&self) -> (r: bool)
        ensures
            r == offset_ok(self@),
    {
        check_number(self.x.text.as_slice()) && check_number(self.y.text.as_slice())
            && check_number(self.z.text.as_slice())
    }
}

impl Joint {
    /// Whether this joint and every joint below it is well formed.
    pub fn is_well_formed(&self) -> (r: bool)
        ensures
            r == joint_ok(self@),
        decreases self,
    {
        if !check_name(self.name.as_slice()) || !self.offset.is_well_formed()
            || self.channels.len() > 0xffff_ffff {
            return false;
        }
        match &self.children {
            JointChildren::Joints(joints) => {
                let ghost models = joints_model(joints@);
                proof {
                    lemma_joints_model_prefix(joints@, 0);
                }
                if joints.len() == 0 {
                    return false;
                }
                let mut i: usize = 0;
                assert(joints_ok(models.subrange(0, 0)));
                while i < joints.len()
                    invariant
                        i <= joints@.len(),
                        models == joints_model(joints@),
                        models.len() == joints@.len(),
                        self.children == JointChildren::Joints(*joints),
                        joints_ok(models.subrange(0, i as int)),
                    decreases joints@.len() - i,
                {
                    let ok = joints[i].is_well_formed();
                    proof {
                        lemma_joints_model_prefix(joints@, i + 1);
                        lemma_joints_model_prefix(joints@, i as int);
                        assert(joints@.subrange(0, i + 1).drop_last() =~= joints@.subrange(0, i as int));
                        assert(joints@.subrange(0, i + 1).last() == joints@[i as int]);
                        assert(models.subrange(0, i + 1).drop_last() =~= models.subrange(0, i as int));
                        assert(models.subrange(0, i + 1).last() == joint_model(joints@[i as int]));
                        if !ok && joints_ok(models) {
                            lemma_joints_ok_prefix(models, i + 1);
                        }
                    }
                    if !ok {
                        return false;
                    }
                    i = i + 1;
                }
                assert(models.subrange(0, i as int) =~= models);
                true
            },
            JointChildren::EndSite(site) => site.offset.is_well_formed(),
        }
    }
}

impl Motion {
    /// Whether the frame time and every value are decimal numbers.
    pub fn is_well_formed(&self) -> (r: bool)
        ensures
            r == motion_ok(self@),
    {
        if !check_number(self.frame_time.text.as_slice()) {
            return false;
        }
        let ghost data = numbers_model(self.frame_data@);
        let mut i: usize = 0;
        while i < self.frame_data.len()
            invariant
                i <= self.frame_data@.len(),
                data == numbers_model(self.frame_data@),
                data.len() == self.frame_data@.len(),
                forall|k: int| 0 <= k < i ==> is_number(#[trigger] data[k]),
            decreases self.frame_data@.len() - i,
        {
            if !check_number(self.frame_data[i].text.as_slice()) {
                assert(data[i as int] == self.frame_data@[i as int]@);
                assert(self@.frame_data[i as int] == data[i as int]);
                return false;
            }
            i = i + 1;
        }
        true
    }
}

impl Bvh {
    /// Whether the document is well formed: the condition under which its
    /// text parses back to it.
    pub fn is_well_formed(&self) -> (r: bool)
        ensures
            r == bvh_ok(self@),
    {
        self.hierarchy.root.is_well_formed() && self.motion.is_well_formed()
    }

    /// Whether the frame buffer holds exactly `num_frames` rows of
    /// `total_channels` values each.
    pub fn has_whole_frames(&self) -> (r: bool)
        ensures
            r == whole_frames(self@),
    {
        let len: usize = self.motion.frame_data.len();
        let frames: u32 = self.motion.num_frames;
        let ghost total = total_channels(self.hierarchy.root@);
        if frames == 0 {
            assert(frames * total == 0) by (nonlinear_arith)
                requires
                    frames == 0,
            ;
            return len == 0;
        }
        match self.hierarchy.root.checked_total_channels() {
            None => {
                assert(frames * total > len) by (nonlinear_arith)
                    requires
                        frames >= 1,
                        total > len,
                ;
                false
            },
            Some(width) => {
                assert(frames * width <= 0xffff_ffff * 0xffff_ffff_ffff_ffff) by (nonlinear_arith)
                    requires
                        0 <= frames <= 0xffff_ffff,
                        0 <= width <= 0xffff_ffff_ffff_ffff,
                ;
                let product: u128 = (frames as u128) * (width as u128);
                product == len as u128
            },
        }
    }
}

} // verus!

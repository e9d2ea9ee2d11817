//! The typed form of a BVH document and its mathematical model.

use vstd::prelude::*;
use crate::literal::{check_number, is_name, is_number};
use crate::vocabulary::Channel;

verus! {

/// A decimal number, kept as the literal that denotes it.
#[derive(Debug, PartialEq, Eq)]
pub struct Number {
    pub text: Vec<u8>,
}

impl View for Number {
    type V = Seq<u8>;

    open spec fn view(&self) -> Seq<u8> {
        self.text@
    }
}

impl Number {
    /// Accepts `text` if it is a decimal number.
    pub fn new(text: Vec<u8>) -> (r: Option<Number>)
        ensures
            is_number(text@) ==> r.is_some() && r.unwrap()@ == text@,
            !is_number(text@) ==> r.is_none(),
    {
        if check_number(text.as_slice()) {
            Some(Number { text })
        } else {
            None
        }
    }
}

/// A displacement relative to the parent joint.
#[derive(Debug, PartialEq, Eq)]
pub struct Offset {
    pub x: Number,
    pub y: Number,
    pub z: Number,
}

/// What an `Offset` stands for: its three literals.
pub struct OffsetModel {
    pub x: Seq<u8>,
    pub y: Seq<u8>,
    pub z: Seq<u8>,
}

impl View for Offset {
    type V = OffsetModel;

    open spec fn view(&self) -> OffsetModel {
        OffsetModel { x: self.x@, y: self.y@, z: self.z@ }
    }
}

/// A terminal leaf of the skeleton: a position and nothing else.
#[derive(Debug, PartialEq, Eq)]
pub struct EndSite {
    pub offset: Offset,
}

/// What hangs below a joint: further joints, or one end site.
#[derive(Debug, PartialEq, Eq)]
pub enum JointChildren {
    Joints(Vec<Joint>),
    EndSite(EndSite),
}

/// A node of the skeleton. The order of `channels` fixes the order of this
/// joint's columns in every frame.
#[derive(Debug, PartialEq, Eq)]
pub struct Joint {
    pub name: Vec<u8>,
    pub offset: Offset,
    pub channels: Vec<Channel>,
    pub children: JointChildren,
}

/// What `JointChildren` stands for.
pub enum ChildrenModel {
    Joints(Seq<JointModel>),
    EndSite(OffsetModel),
}

/// What a `Joint` stands for.
pub struct JointModel {
    pub name: Seq<u8>,
    pub offset: OffsetModel,
    pub channels: Seq<Channel>,
    pub children: ChildrenModel,
}

/// The model of a joint.
pub open spec fn joint_model(j: Joint) -> JointModel
    decreases j, 0nat,
{
    JointModel {
        name: j.name@,
        offset: j.offset@,
        channels: j.channels@,
        children: match j.children {
            JointChildren::Joints(v) => ChildrenModel::Joints(joints_model(v@)),
            JointChildren::EndSite(e) => ChildrenModel::EndSite(e.offset@),
        },
    }
}

/// The models of a row of joints, in order.
pub open spec fn joints_model(v: Seq<Joint>) -> Seq<JointModel>
    decreases v, v.len(),
{
    if v.len() == 0 {
        Seq::empty()
    } else {
        joints_model(v.drop_last()).push(joint_model(v.last()))
    }
}

impl Joint {
    /// What the joint stands for.
    pub open spec fn view(&self) -> JointModel {
        joint_model(*self)
    }
}

/// The skeleton: exactly one root joint.
#[derive(Debug, PartialEq, Eq)]
pub struct Hierarchy {
    pub root: Joint,
}

/// The motion samples: `frame_data` holds the frames one after another, each
/// with one value per channel of the skeleton, joints in depth-first order.
#[derive(Debug, PartialEq, Eq)]
pub struct Motion {
    pub num_frames: u32,
    pub frame_time: Number,
    pub frame_data: Vec<Number>,
}

/// What a `Motion` stands for.
pub struct MotionModel {
    pub num_frames: nat,
    pub frame_time: Seq<u8>,
    pub frame_data: Seq<Seq<u8>>,
}

/// The literals of a row of numbers.
pub open spec fn numbers_model(v: Seq<Number>) -> Seq<Seq<u8>> {
    Seq::new(v.len(), |k: int| v[k]@)
}

impl View for Motion {
    type V = MotionModel;

    open spec fn view(&self) -> MotionModel {
        MotionModel {
            num_frames: self.num_frames as nat,
            frame_time: self.frame_time@,
            frame_data: numbers_model(self.frame_data@),
        }
    }
}

/// A whole document.
#[derive(Debug, PartialEq, Eq)]
pub struct Bvh {
    pub hierarchy: Hierarchy,
    pub motion: Motion,
}

/// What a `Bvh` stands for.
pub struct BvhModel {
    pub root: JointModel,
    pub motion: MotionModel,
}

impl View for Bvh {
    type V = BvhModel;

    open spec fn view(&self) -> BvhModel {
        BvhModel { root: self.hierarchy.root@, motion: self.motion@ }
    }
}

/// A well-formed offset: three decimal numbers.
pub open spec fn offset_ok(o: OffsetModel) -> bool {
    is_number(o.x) && is_number(o.y) && is_number(o.z)
}

/// A well-formed joint: a joint name, decimal numbers, a channel list whose
/// length fits in 32 bits, and below it one end site or one or more
/// well-formed joints.
pub open spec fn joint_ok(j: JointModel) -> bool
    decreases j, 0nat,
{
    &&& is_name(j.name)
    &&& offset_ok(j.offset)
    &&& j.channels.len() <= u32::MAX
    &&& match j.children {
        ChildrenModel::Joints(js) => js.len() > 0 && joints_ok(js),
        ChildrenModel::EndSite(o) => offset_ok(o),
    }
}

/// Every joint of a row is well formed.
pub open spec fn joints_ok(js: Seq<JointModel>) -> bool
    decreases js, js.len(),
{
    js.len() == 0 || (joints_ok(js.drop_last()) && joint_ok(js.last()))
}

/// A well-formed motion section: a frame count that fits in 32 bits and
/// decimal numbers.
pub open spec fn motion_ok(m: MotionModel) -> bool {
    &&& m.num_frames <= u32::MAX
    &&& is_number(m.frame_time)
    &&& forall|k: int| 0 <= k < m.frame_data.len() ==> is_number(#[trigger] m.frame_data[k])
}

/// A well-formed document.
pub open spec fn bvh_ok(v: BvhModel) -> bool {
    joint_ok(v.root) && motion_ok(v.motion)
}

/// The number of channels of a joint and of all joints below it.
pub open spec fn total_channels(j: JointModel) -> nat
    decreases j, 0nat,
{
    j.channels.len() + match j.children {
        ChildrenModel::Joints(js) => sum_total_channels(js),
        ChildrenModel::EndSite(_) => 0,
    }
}

/// The channels of a row of joints and of all joints below them.
pub open spec fn sum_total_channels(js: Seq<JointModel>) -> nat
    decreases js, js.len(),
{
    if js.len() == 0 {
        0
    } else {
        sum_total_channels(js.drop_last()) + total_channels(js.last())
    }
}

/// A longer row of joints has no fewer channels than its beginning.
pub proof fn lemma_sum_total_channels_grows(js: Seq<JointModel>, i: int, j: int)
    requires
        0 <= i <= j <= js.len(),
    ensures
        sum_total_channels(js.subrange(0, i)) <= sum_total_channels(js.subrange(0, j)),
    decreases j - i,
{
    if i < j {
        lemma_sum_total_channels_grows(js, i, j - 1);
        assert(js.subrange(0, j).drop_last() =~= js.subrange(0, j - 1));
    }
}

/// The models of a beginning of a row are the beginning of the models.
pub proof fn lemma_joints_model_prefix(v: Seq<Joint>, i: int)
    requires
        0 <= i <= v.len(),
    ensures
        joints_model(v.subrange(0, i)) == joints_model(v).subrange(0, i),
        joints_model(v).len() == v.len(),
    decreases v.len(),
{
    if v.len() > 0 {
        if i == v.len() {
            lemma_joints_model_prefix(v.drop_last(), i - 1);
            assert(v.subrange(0, i) =~= v);
            assert(joints_model(v).subrange(0, i) =~= joints_model(v));
        } else {
            lemma_joints_model_prefix(v.drop_last(), i);
            assert(v.subrange(0, i) =~= v.drop_last().subrange(0, i));
            assert(joints_model(v).subrange(0, i) =~= joints_model(v.drop_last()).subrange(0, i));
        }
    } else {
        assert(v.subrange(0, i) =~= v);
        assert(joints_model(v).subrange(0, i) =~= joints_model(v));
    }
}

impl Joint {
    /// The number of channels of this joint and of all joints below it, or
    /// `None` where that number does not fit in a `usize`.
    pub fn checked_total_channels(&self) -> (r: Option<usize>)
        ensures
            r == (if total_channels(self@) <= usize::MAX {
                Some(total_channels(self@) as usize)
            } else {
                None
            }),
        decreases self,
    {
        let mut acc: usize = self.channels.len();
        match &self.children {
            JointChildren::Joints(joints) => {
                let ghost models = joints_model(joints@);
                let mut i: usize = 0;
                proof {
                    lemma_joints_model_prefix(joints@, 0);
                }
                while i < joints.len()
                    invariant
                        i <= joints@.len(),
                        models == joints_model(joints@),
                        models.len() == joints@.len(),
                        self.children == JointChildren::Joints(*joints),
                        acc == self.channels@.len() + sum_total_channels(models.subrange(0, i as int)),
                    decreases joints@.len() - i,
                {
                    let sub = joints[i].checked_total_channels();
                    proof {
                        lemma_joints_model_prefix(joints@, i + 1);
                        lemma_joints_model_prefix(joints@, i as int);
                        assert(joints@.subrange(0, i + 1).drop_last() =~= joints@.subrange(0, i as int));
                        assert(joints@.subrange(0, i + 1).last() == joints@[i as int]);
                        assert(models.subrange(0, i + 1).drop_last() =~= models.subrange(0, i as int));
                        assert(models.subrange(0, i + 1).last() == joint_model(joints@[i as int]));
                        lemma_sum_total_channels_grows(models, i + 1, models.len() as int);
                        assert(models.subrange(0, models.len() as int) =~= models);
                    }
                    match sub {
                        None => {
                            return None;
                        },
                        Some(n) => {
                            if n > usize::MAX - acc {
                                return None;
                            }
                            acc = acc + n;
                        },
                    }
                    i = i + 1;
                }
                assert(models.subrange(0, i as int) =~= models);
            },
            JointChildren::EndSite(_) => {},
        }
        Some(acc)
    }

    /// The number of channels of this joint and of all joints below it: the
    /// width of one frame of a skeleton with this joint as its root.
    pub fn total_channels(&self) -> (n: u32)
        requires
            total_channels(self@) <= u32::MAX,
        ensures
            n == total_channels(self@),
    {
        match self.checked_total_channels() {
            Some(n) => n as u32,
            None => 0,
        }
    }
}

} // verus!

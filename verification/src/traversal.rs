//! The depth-first order of a skeleton and its channel count.

use vstd::prelude::*;
use crate::model::{sum_total_channels, total_channels, ChildrenModel, JointModel};

verus! {

/// The joints of a skeleton in depth-first order: a joint, then the joints
/// below it, child by child.
pub open spec fn depth_first(j: JointModel) -> Seq<JointModel>
    decreases j, 0nat,
{
    seq![j] + match j.children {
        ChildrenModel::Joints(js) => depth_first_all(js),
        ChildrenModel::EndSite(_) => Seq::empty(),
    }
}

/// The joints of a row of skeletons in depth-first order, one skeleton
/// after another.
pub open spec fn depth_first_all(js: Seq<JointModel>) -> Seq<JointModel>
    decreases js, js.len(),
{
    if js.len() == 0 {
        Seq::empty()
    } else {
        depth_first_all(js.drop_last()) + depth_first(js.last())
    }
}

/// The lengths of the joints' own channel lists, added up.
pub open spec fn own_channels(joints: Seq<JointModel>) -> nat
    decreases joints.len(),
{
    if joints.len() == 0 {
        0
    } else {
        own_channels(joints.drop_last()) + joints.last().channels.len()
    }
}

/// The own channels of two rows of joints add up.
pub proof fn lemma_own_channels_concat(a: Seq<JointModel>, b: Seq<JointModel>)
    ensures
        own_channels(a + b) == own_channels(a) + own_channels(b),
    decreases b.len(),
{
    if b.len() == 0 {
        assert(a + b =~= a);
    } else {
        lemma_own_channels_concat(a, b.drop_last());
        assert((a + b).drop_last() =~= a + b.drop_last());
    }
}

/// The channel count of a skeleton is the sum, over its joints in
/// depth-first order, of the length of each joint's own channel list; an
/// end site adds nothing.
pub proof fn theorem_total_channels_is_depth_first_sum(j: JointModel)
    ensures
        total_channels(j) == own_channels(depth_first(j)),
    decreases j, 0nat,
{
    let below = match j.children {
        ChildrenModel::Joints(js) => depth_first_all(js),
        ChildrenModel::EndSite(_) => Seq::empty(),
    };
    lemma_own_channels_concat(seq![j], below);
    assert(seq![j].drop_last() =~= Seq::<JointModel>::empty());
    assert(own_channels(seq![j]) == j.channels.len());
    match j.children {
        ChildrenModel::Joints(js) => {
            theorem_sum_total_channels_is_depth_first_sum(js);
        },
        ChildrenModel::EndSite(_) => {},
    }
}

/// The same for a row of skeletons.
pub proof fn theorem_sum_total_channels_is_depth_first_sum(js: Seq<JointModel>)
    ensures
        sum_total_channels(js) == own_channels(depth_first_all(js)),
    decreases js, js.len(),
{
    if js.len() > 0 {
        theorem_sum_total_channels_is_depth_first_sum(js.drop_last());
        theorem_total_channels_is_depth_first_sum(js.last());
        lemma_own_channels_concat(depth_first_all(js.drop_last()), depth_first(js.last()));
    }
}

} // verus!

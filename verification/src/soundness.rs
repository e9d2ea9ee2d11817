//! Whatever the grammar reads is a well-formed document.

use vstd::prelude::*;
use crate::grammar::{channels_at, count_at, document, joint_at, joints_at, keyword_at, numbers_at};
use crate::literal::is_number;
use crate::model::{bvh_ok, joint_ok, joints_ok, JointModel};
use crate::vocabulary::Keyword;

verus! {

/// A run of `n` channel names has `n` channels.
pub proof fn lemma_channels_at_len(w: Seq<Seq<u8>>, p: int, n: nat)
    ensures
        channels_at(w, p, n).is_ok() ==> channels_at(w, p, n).unwrap().len() == n,
    decreases n,
{
    if n > 0 {
        lemma_channels_at_len(w, p, (n - 1) as nat);
    }
}

/// A run of `n` numbers has `n` values, each a decimal number.
pub proof fn lemma_numbers_at_ok(w: Seq<Seq<u8>>, p: int, n: nat)
    ensures
        numbers_at(w, p, n).is_ok() ==> numbers_at(w, p, n).unwrap().len() == n && forall|k: int|
            0 <= k < n ==> is_number(#[trigger] numbers_at(w, p, n).unwrap()[k]),
    decreases n,
{
    if n > 0 {
        lemma_numbers_at_ok(w, p, (n - 1) as nat);
    }
}

/// A well-formed joint before a row of well-formed joints makes such a row.
pub proof fn lemma_joints_ok_with_first(j: JointModel, js: Seq<JointModel>)
    requires
        joint_ok(j),
        joints_ok(js),
    ensures
        joints_ok(seq![j] + js),
    decreases js.len(),
{
    let all = seq![j] + js;
    if js.len() == 0 {
        assert(all.drop_last() =~= Seq::<JointModel>::empty());
        assert(all.last() == j);
        assert(joints_ok(all.drop_last()));
    } else {
        lemma_joints_ok_with_first(j, js.drop_last());
        assert(all.drop_last() =~= seq![j] + js.drop_last());
        assert(all.last() == js.last());
    }
}

/// A joint that the grammar reads is well formed.
pub proof fn lemma_joint_at_ok(w: Seq<Seq<u8>>, p: int)
    ensures
        joint_at(w, p).is_ok() ==> joint_ok(joint_at(w, p).unwrap().0),
    decreases w.len() - p, 1nat,
{
    if joint_at(w, p).is_ok() {
        let n = count_at(w, p + 7).unwrap();
        lemma_channels_at_len(w, p + 8, n);
        let q = p + 8 + n;
        if keyword_at(w, q, Keyword::Joint) {
            lemma_joints_at_ok(w, q);
        }
    }
}

/// The joints that the grammar reads are well formed, and there is at
/// least one where the keyword `JOINT` stands.
pub proof fn lemma_joints_at_ok(w: Seq<Seq<u8>>, p: int)
    ensures
        joints_at(w, p).is_ok() ==> joints_ok(joints_at(w, p).unwrap().0),
        joints_at(w, p).is_ok() && keyword_at(w, p, Keyword::Joint) ==> joints_at(
            w,
            p,
        ).unwrap().0.len() > 0,
    decreases w.len() - p, 0nat,
{
    if joints_at(w, p).is_ok() && keyword_at(w, p, Keyword::Joint) {
        lemma_joint_at_ok(w, p + 1);
        let (j, q) = joint_at(w, p + 1).unwrap();
        if p < q <= w.len() {
            lemma_joints_at_ok(w, q);
            lemma_joints_ok_with_first(j, joints_at(w, q).unwrap().0);
        } else {
            lemma_joints_ok_with_first(j, Seq::empty());
            assert(seq![j] + Seq::<JointModel>::empty() =~= seq![j]);
        }
    }
}

/// A document that the grammar reads is well formed.
pub proof fn theorem_document_is_well_formed(w: Seq<Seq<u8>>)
    ensures
        document(w).is_ok() ==> bvh_ok(document(w).unwrap()),
{
    if document(w).is_ok() {
        lemma_joint_at_ok(w, 2);
        let q = joint_at(w, 2).unwrap().1;
        lemma_numbers_at_ok(w, q + 6, (w.len() - (q + 6)) as nat);
    }
}

} // verus!

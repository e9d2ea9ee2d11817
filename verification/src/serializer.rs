//! The serializer: from a `Bvh` to its canonical text.

use vstd::prelude::*;
use crate::ascii::{LINE_FEED, SPACE};
use crate::literal::{decimal, push_all, push_decimal};
use crate::model::{
    joints_model, lemma_joints_model_prefix, numbers_model, total_channels, Bvh, BvhModel,
    ChildrenModel, Joint, JointChildren, JointModel, Motion, MotionModel, Offset, OffsetModel,
};
use crate::vocabulary::{Channel, Keyword};

verus! {

/// One space.
pub open spec fn space() -> Seq<u8> {
    seq![SPACE]
}

/// The end of a line.
pub open spec fn line_end() -> Seq<u8> {
    seq![LINE_FEED]
}

/// `OFFSET x y z` and the end of the line.
pub open spec fn offset_text(o: OffsetModel) -> Seq<u8> {
    Keyword::Offset.text() + space() + o.x + space() + o.y + space() + o.z + line_end()
}

/// The channel names, each after one space.
pub open spec fn channels_text(cs: Seq<Channel>) -> Seq<u8>
    decreases cs.len(),
{
    if cs.len() == 0 {
        Seq::empty()
    } else {
        channels_text(cs.drop_last()) + space() + cs.last().text()
    }
}

/// What stands below the channels of a joint: its joints, each after
/// `JOINT` and a space, or its end site in braces.
pub open spec fn children_text(c: ChildrenModel) -> Seq<u8>
    decreases c, 2nat,
{
    match c {
        ChildrenModel::Joints(js) => joints_text(js),
        ChildrenModel::EndSite(o) => Keyword::End.text() + space() + Keyword::Site.text()
            + line_end() + Keyword::Open.text() + line_end() + offset_text(o)
            + Keyword::Close.text() + line_end(),
    }
}

/// A joint from its name on: the name, and in braces the offset, the
/// channels with their number before them, and what stands below.
pub open spec fn joint_text(j: JointModel) -> Seq<u8>
    decreases j, 3nat,
{
    j.name + line_end() + Keyword::Open.text() + line_end() + offset_text(j.offset)
        + Keyword::Channels.text() + space() + decimal(j.channels.len()) + channels_text(
        j.channels,
    ) + line_end() + children_text(j.children) + Keyword::Close.text() + line_end()
}

/// A row of joints, each after `JOINT` and a space.
pub open spec fn joints_text(js: Seq<JointModel>) -> Seq<u8>
    decreases js, js.len(),
{
    if js.len() == 0 {
        Seq::empty()
    } else {
        joints_text(js.drop_last()) + Keyword::Joint.text() + space() + joint_text(js.last())
    }
}

/// What follows the value at place `k` of a frame buffer with rows of
/// `width` values: the end of the line after the last value of a row, a
/// space after any other.
pub open spec fn separator(k: int, width: nat) -> Seq<u8> {
    if width > 0 && k % (width as int) == width - 1 {
        line_end()
    } else {
        space()
    }
}

/// The first `n` values of a frame buffer, each with what follows it.
pub open spec fn samples_text(data: Seq<Seq<u8>>, width: nat, n: nat) -> Seq<u8>
    decreases n,
{
    if n == 0 || n > data.len() {
        Seq::empty()
    } else {
        samples_text(data, width, (n - 1) as nat) + data[n - 1] + separator(n - 1, width)
    }
}

/// The motion section, its values in rows of `width`.
pub open spec fn motion_text(m: MotionModel, width: nat) -> Seq<u8> {
    Keyword::Motion.text() + line_end() + Keyword::Frames.text() + space() + decimal(m.num_frames)
        + line_end() + Keyword::Frame.text() + space() + Keyword::Time.text() + space()
        + m.frame_time + line_end() + samples_text(m.frame_data, width, m.frame_data.len())
}

/// The skeleton: `HIERARCHY`, then `ROOT`, a space and the root joint.
pub open spec fn hierarchy_text(root: JointModel) -> Seq<u8> {
    Keyword::Hierarchy.text() + line_end() + Keyword::Root.text() + space() + joint_text(root)
}

/// The canonical text of a document. A row of motion values is as wide as
/// the skeleton has channels.
pub open spec fn bvh_text(v: BvhModel) -> Seq<u8> {
    hierarchy_text(v.root) + motion_text(v.motion, total_channels(v.root))
}

/// Appends a keyword.
fn put_keyword(out: &mut Vec<u8>, k: Keyword)
    ensures
        final(out)@ == old(out)@ + k.text(),
{
    let v = k.bytes();
    push_all(out, v.as_slice());
}

/// Appends one space.
fn put_space(out: &mut Vec<u8>)
    ensures
        final(out)@ == old(out)@ + space(),
{
    out.push(SPACE);
    assert(out@ =~= old(out)@ + space());
}

/// Appends the end of a line.
fn put_line_end(out: &mut Vec<u8>)
    ensures
        final(out)@ == old(out)@ + line_end(),
{
    out.push(LINE_FEED);
    assert(out@ =~= old(out)@ + line_end());
}

/// Appends `OFFSET x y z` and the end of the line.
pub fn serialize_offset(offset: &Offset, out: &mut Vec<u8>)
    ensures
        final(out)@ == old(out)@ + offset_text(offset@),
{
    put_keyword(out, Keyword::Offset);
    put_space(out);
    push_all(out, offset.x.text.as_slice());
    put_space(out);
    push_all(out, offset.y.text.as_slice());
    put_space(out);
    push_all(out, offset.z.text.as_slice());
    put_line_end(out);
    assert(out@ =~= old(out)@ + offset_text(offset@));
}

/// Appends the channel names, each after one space.
pub fn serialize_channels(channels: &Vec<Channel>, out: &mut Vec<u8>)
    ensures
        final(out)@ == old(out)@ + channels_text(channels@),
{
    let mut i: usize = 0;
    assert(out@ =~= old(out)@ + channels_text(channels@.subrange(0, 0)));
    while i < channels.len()
        invariant
            i <= channels@.len(),
            out@ == old(out)@ + channels_text(channels@.subrange(0, i as int)),
        decreases channels@.len() - i,
    {
        put_space(out);
        let v = channels[i].bytes();
        push_all(out, v.as_slice());
        proof {
            let next = channels@.subrange(0, i + 1);
            assert(next.drop_last() =~= channels@.subrange(0, i as int));
            assert(out@ =~= old(out)@ + channels_text(next));
        }
        i = i + 1;
    }
    assert(channels@.subrange(0, i as int) =~= channels@);
}

/// Appends a joint from its name on.
pub fn serialize_joint(joint: &Joint, out: &mut Vec<u8>)
    ensures
        final(out)@ == old(out)@ + joint_text(joint@),
    decreases joint,
{
    push_all(out, joint.name.as_slice());
    put_line_end(out);
    put_keyword(out, Keyword::Open);
    put_line_end(out);
    serialize_offset(&joint.offset, out);
    put_keyword(out, Keyword::Channels);
    put_space(out);
    push_decimal(out, joint.channels.len() as u64);
    serialize_channels(&joint.channels, out);
    put_line_end(out);
    let ghost head = out@;
    assert(head =~= old(out)@ + (joint@.name + line_end() + Keyword::Open.text() + line_end()
        + offset_text(joint@.offset) + Keyword::Channels.text() + space() + decimal(
        joint@.channels.len(),
    ) + channels_text(joint@.channels) + line_end()));
    match &joint.children {
        JointChildren::Joints(joints) => {
            let mut i: usize = 0;
            let ghost models = joints_model(joints@);
            proof {
                lemma_joints_model_prefix(joints@, 0);
                assert(out@ =~= head + joints_text(models.subrange(0, 0)));
            }
            while i < joints.len()
                invariant
                    i <= joints@.len(),
                    models == joints_model(joints@),
                    models.len() == joints@.len(),
                    joint.children == JointChildren::Joints(*joints),
                    out@ == head + joints_text(models.subrange(0, i as int)),
                decreases joints@.len() - i,
            {
                put_keyword(out, Keyword::Joint);
                put_space(out);
                proof {
                    assert(joint.children->Joints_0 == *joints);
                }
                serialize_joint(&joints[i], out);
                proof {
                    lemma_joints_model_prefix(joints@, i + 1);
                    assert(joints@.subrange(0, i + 1).last() == joints@[i as int]);
                    assert(joints@.subrange(0, i + 1).drop_last() =~= joints@.subrange(0, i as int));
                    lemma_joints_model_prefix(joints@, i as int);
                    let next = models.subrange(0, i + 1);
                    assert(next.drop_last() =~= models.subrange(0, i as int));
                    assert(next.last() == joints@[i as int]@);
                    assert(out@ =~= head + joints_text(next));
                }
                i = i + 1;
            }
            assert(models.subrange(0, i as int) =~= models);
        },
        JointChildren::EndSite(site) => {
            put_keyword(out, Keyword::End);
            put_space(out);
            put_keyword(out, Keyword::Site);
            put_line_end(out);
            put_keyword(out, Keyword::Open);
            put_line_end(out);
            serialize_offset(&site.offset, out);
            put_keyword(out, Keyword::Close);
            put_line_end(out);
            assert(out@ =~= head + children_text(joint@.children));
        },
    }
    assert(out@ == head + children_text(joint@.children));
    put_keyword(out, Keyword::Close);
    put_line_end(out);
    assert(out@ =~= old(out)@ + joint_text(joint@));
}

/// Appends the skeleton.
pub fn serialize_hierarchy(root: &Joint, out: &mut Vec<u8>)
    ensures
        final(out)@ == old(out)@ + hierarchy_text(root@),
{
    put_keyword(out, Keyword::Hierarchy);
    put_line_end(out);
    put_keyword(out, Keyword::Root);
    put_space(out);
    serialize_joint(root, out);
    assert(out@ =~= old(out)@ + hierarchy_text(root@));
}

/// The width of a row: the number given, or with none given a width that
/// no frame buffer reaches.
pub open spec fn row_width(width: Option<usize>) -> nat {
    match width {
        Some(w) => w as nat,
        None => usize::MAX as nat + 1,
    }
}

/// With rows wider than the frame buffer is long, every value is followed
/// by a space, whatever the width.
pub proof fn lemma_wide_rows(data: Seq<Seq<u8>>, w1: nat, w2: nat, n: nat)
    requires
        n <= data.len(),
        w1 > data.len(),
        w2 > data.len(),
    ensures
        samples_text(data, w1, n) == samples_text(data, w2, n),
    decreases n,
{
    if n > 0 {
        lemma_wide_rows(data, w1, w2, (n - 1) as nat);
        let k = n - 1;
        assert(k % (w1 as int) == k) by (nonlinear_arith)
            requires
                0 <= k < w1,
        ;
        assert(k % (w2 as int) == k) by (nonlinear_arith)
            requires
                0 <= k < w2,
        ;
        assert(separator(k, w1) == space());
        assert(separator(k, w2) == space());
    }
}

/// Appends the motion section, its values in rows of `width`; with no
/// `width` given, every value is followed by a space.
pub fn serialize_motion(motion: &Motion, width: Option<usize>, out: &mut Vec<u8>)
    ensures
        final(out)@ == old(out)@ + motion_text(motion@, row_width(width)),
{
    put_keyword(out, Keyword::Motion);
    put_line_end(out);
    put_keyword(out, Keyword::Frames);
    put_space(out);
    push_decimal(out, motion.num_frames as u64);
    put_line_end(out);
    put_keyword(out, Keyword::Frame);
    put_space(out);
    put_keyword(out, Keyword::Time);
    put_space(out);
    push_all(out, motion.frame_time.text.as_slice());
    put_line_end(out);
    let ghost head = out@;
    let ghost data = numbers_model(motion.frame_data@);
    let ghost wide = row_width(width);
    let mut i: usize = 0;
    assert(out@ =~= head + samples_text(data, wide, 0));
    while i < motion.frame_data.len()
        invariant
            i <= motion.frame_data@.len(),
            data == numbers_model(motion.frame_data@),
            data.len() == motion.frame_data@.len(),
            wide == row_width(width),
            out@ == head + samples_text(data, wide, i as nat),
        decreases motion.frame_data@.len() - i,
    {
        let ghost before = out@;
        push_all(out, motion.frame_data[i].text.as_slice());
        let ends_row = match width {
            Some(w) => w > 0 && i % w == w - 1,
            None => false,
        };
        proof {
            if width.is_none() {
                assert((i as int) % (wide as int) == i) by (nonlinear_arith)
                    requires
                        0 <= i < wide,
                ;
            }
            assert(ends_row ==> separator(i as int, wide) == line_end());
            assert(!ends_row ==> separator(i as int, wide) == space());
        }
        if ends_row {
            put_line_end(out);
        } else {
            put_space(out);
        }
        proof {
            assert(data[i as int] == motion.frame_data@[i as int]@);
            assert(out@ == before + data[i as int] + separator(i as int, wide));
            assert(samples_text(data, wide, (i + 1) as nat) == samples_text(data, wide, i as nat)
                + data[i as int] + separator(i as int, wide));
            assert(out@ =~= head + samples_text(data, wide, (i + 1) as nat));
        }
        i = i + 1;
    }
    assert(out@ =~= old(out)@ + motion_text(motion@, wide));
}

/// Renders a document as canonical text.
pub fn serialize(bvh: &Bvh) -> (out: Vec<u8>)
    ensures
        out@ == bvh_text(bvh@),
{
    let mut out: Vec<u8> = Vec::new();
    serialize_hierarchy(&bvh.hierarchy.root, &mut out);
    let width = bvh.hierarchy.root.checked_total_channels();
    let ghost head = out@;
    serialize_motion(&bvh.motion, width, &mut out);
    proof {
        let total = total_channels(bvh.hierarchy.root@);
        let data = bvh.motion@.frame_data;
        if width.is_none() {
            let _ = bvh.motion.frame_data.len();
            lemma_wide_rows(data, row_width(width), total, data.len());
        }
        assert(motion_text(bvh.motion@, row_width(width)) == motion_text(bvh.motion@, total));
        assert(head =~= hierarchy_text(bvh.hierarchy.root@));
        assert(out@ =~= bvh_text(bvh@));
    }
    out
}

} // verus!

//! The words of a well-formed document, and that the grammar reads them back.

use vstd::prelude::*;
use crate::ascii::DIGIT_0;
use crate::grammar::{
    channels_at, count_at, document, end_site_at, joint_at, joints_at, keyword_at, motion_at,
    numbers_at, offset_at, with_front, ParseError,
};
use crate::literal::{decimal, digits_end, digits_value, is_count, is_digit, is_number};
use crate::model::{
    bvh_ok, joint_ok, joints_ok, motion_ok, offset_ok, BvhModel, ChildrenModel, JointModel,
    MotionModel, OffsetModel,
};
use crate::vocabulary::{lemma_channel_name_reads_back, Channel, Keyword};

verus! {

/// The names of a row of channels.
pub open spec fn channel_words(cs: Seq<Channel>) -> Seq<Seq<u8>> {
    Seq::new(cs.len(), |k: int| cs[k].text())
}

/// The words of an offset: `OFFSET` and its three numbers.
pub open spec fn offset_words(o: OffsetModel) -> Seq<Seq<u8>> {
    seq![Keyword::Offset.text(), o.x, o.y, o.z]
}

/// The words of what stands below a joint.
pub open spec fn children_words(c: ChildrenModel) -> Seq<Seq<u8>>
    decreases c, 2nat,
{
    match c {
        ChildrenModel::Joints(js) => joints_words(js),
        ChildrenModel::EndSite(o) => seq![
            Keyword::End.text(),
            Keyword::Site.text(),
            Keyword::Open.text(),
        ] + offset_words(o) + seq![Keyword::Close.text()],
    }
}

/// The words of a joint from its name to its closing brace.
pub open spec fn joint_words(j: JointModel) -> Seq<Seq<u8>>
    decreases j, 3nat,
{
    seq![j.name, Keyword::Open.text()] + offset_words(j.offset) + seq![
        Keyword::Channels.text(),
        decimal(j.channels.len()),
    ] + channel_words(j.channels) + children_words(j.children) + seq![Keyword::Close.text()]
}

/// The words of a row of joints, each after the keyword `JOINT`.
pub open spec fn joints_words(js: Seq<JointModel>) -> Seq<Seq<u8>>
    decreases js, js.len(),
{
    if js.len() == 0 {
        Seq::empty()
    } else {
        joints_words(js.drop_last()) + seq![Keyword::Joint.text()] + joint_words(js.last())
    }
}

/// The words of the motion section.
pub open spec fn motion_words(m: MotionModel) -> Seq<Seq<u8>> {
    seq![
        Keyword::Motion.text(),
        Keyword::Frames.text(),
        decimal(m.num_frames),
        Keyword::Frame.text(),
        Keyword::Time.text(),
        m.frame_time,
    ] + m.frame_data
}

/// The words of a document.
pub open spec fn bvh_words(v: BvhModel) -> Seq<Seq<u8>> {
    seq![Keyword::Hierarchy.text(), Keyword::Root.text()] + joint_words(v.root) + motion_words(
        v.motion,
    )
}

/// The words `x` stand in `w` from position `p` on.
pub open spec fn stands_at(w: Seq<Seq<u8>>, p: int, x: Seq<Seq<u8>>) -> bool {
    0 <= p && p + x.len() <= w.len() && forall|k: int|
        0 <= k < x.len() ==> #[trigger] w[p + k] == x[k]
}

/// Where two rows of words stand one after the other, each stands.
pub proof fn lemma_stands_split(w: Seq<Seq<u8>>, p: int, a: Seq<Seq<u8>>, b: Seq<Seq<u8>>)
    requires
        stands_at(w, p, a + b),
    ensures
        stands_at(w, p, a),
        stands_at(w, p + a.len(), b),
{
    assert forall|k: int| 0 <= k < a.len() implies #[trigger] w[p + k] == a[k] by {
        assert((a + b)[k] == a[k]);
    }
    assert forall|k: int| 0 <= k < b.len() implies #[trigger] w[p + a.len() + k] == b[k] by {
        assert((a + b)[a.len() + k] == b[k]);
        assert(w[p + (a.len() + k)] == (a + b)[a.len() + k]);
    }
}

/// A run of digits ends where the text does.
pub proof fn lemma_digits_end_of_digits(s: Seq<u8>, i: int)
    requires
        0 <= i <= s.len(),
        forall|k: int| 0 <= k < s.len() ==> is_digit(#[trigger] s[k]),
    ensures
        digits_end(s, i) == s.len(),
    decreases s.len() - i,
{
    if i < s.len() {
        lemma_digits_end_of_digits(s, i + 1);
    }
}

/// The rendering of a number is a count that denotes that number.
pub proof fn lemma_decimal_reads_back(n: nat)
    ensures
        is_count(decimal(n)),
        digits_value(decimal(n)) == n,
        forall|k: int| 0 <= k < decimal(n).len() ==> is_digit(#[trigger] decimal(n)[k]),
    decreases n,
{
    if n >= 10 {
        lemma_decimal_reads_back(n / 10);
        let head = decimal(n / 10);
        let d = (DIGIT_0 + n % 10) as u8;
        assert(decimal(n) == head.push(d));
        assert(decimal(n).drop_last() =~= head);
        assert forall|k: int| 0 <= k < decimal(n).len() implies is_digit(
            #[trigger] decimal(n)[k],
        ) by {
            if k < head.len() {
                assert(decimal(n)[k] == head[k]);
            }
        }
    } else {
        assert(decimal(n).drop_last() =~= Seq::<u8>::empty());
        assert(digits_value(decimal(n).drop_last()) == 0);
    }
    lemma_digits_end_of_digits(decimal(n), 0);
}

/// The keywords that decide what stands below a joint differ.
pub proof fn lemma_keywords_differ()
    ensures
        Keyword::End.text() != Keyword::Joint.text(),
        Keyword::Close.text() != Keyword::Joint.text(),
{
    assert(Keyword::End.text()[0] != Keyword::Joint.text()[0]);
    assert(Keyword::Close.text()[0] != Keyword::Joint.text()[0]);
}

/// The grammar reads a well-formed offset back from its words.
pub proof fn lemma_offset_reads_back(w: Seq<Seq<u8>>, p: int, o: OffsetModel)
    requires
        offset_ok(o),
        stands_at(w, p, offset_words(o)),
    ensures
        offset_at(w, p) == Ok::<OffsetModel, ParseError>(o),
{
    let x = offset_words(o);
    assert(w[p + 0] == x[0]);
    assert(w[p + 1] == x[1]);
    assert(w[p + 2] == x[2]);
    assert(w[p + 3] == x[3]);
}

/// The grammar reads channels back from their names.
pub proof fn lemma_channels_read_back(w: Seq<Seq<u8>>, p: int, cs: Seq<Channel>, n: nat)
    requires
        stands_at(w, p, channel_words(cs)),
        n <= cs.len(),
    ensures
        channels_at(w, p, n) == Ok::<Seq<Channel>, ParseError>(cs.subrange(0, n as int)),
    decreases n,
{
    if n == 0 {
        assert(cs.subrange(0, 0) =~= Seq::<Channel>::empty());
    } else {
        lemma_channels_read_back(w, p, cs, (n - 1) as nat);
        assert(w[p + (n - 1)] == channel_words(cs)[n - 1]);
        lemma_channel_name_reads_back(cs[n - 1]);
        assert(cs.subrange(0, n - 1).push(cs[n - 1]) =~= cs.subrange(0, n as int));
    }
}

/// The grammar reads decimal numbers back as they stand.
pub proof fn lemma_numbers_read_back(w: Seq<Seq<u8>>, p: int, data: Seq<Seq<u8>>, n: nat)
    requires
        stands_at(w, p, data),
        n <= data.len(),
        forall|k: int| 0 <= k < data.len() ==> is_number(#[trigger] data[k]),
    ensures
        numbers_at(w, p, n) == Ok::<Seq<Seq<u8>>, ParseError>(data.subrange(0, n as int)),
    decreases n,
{
    if n == 0 {
        assert(data.subrange(0, 0) =~= Seq::<Seq<u8>>::empty());
    } else {
        lemma_numbers_read_back(w, p, data, (n - 1) as nat);
        assert(w[p + (n - 1)] == data[n - 1]);
        assert(data.subrange(0, n - 1).push(data[n - 1]) =~= data.subrange(0, n as int));
    }
}

/// The grammar reads a number that fits in 32 bits back from its rendering.
pub proof fn lemma_count_reads_back(w: Seq<Seq<u8>>, p: int, n: nat)
    requires
        0 <= p < w.len(),
        w[p] == decimal(n),
        n <= u32::MAX,
    ensures
        count_at(w, p) == Ok::<nat, ParseError>(n),
{
    lemma_decimal_reads_back(n);
}

/// The grammar reads a well-formed joint back from its words, wherever
/// they stand.
pub proof fn lemma_joint_reads_back(w: Seq<Seq<u8>>, p: int, j: JointModel)
    requires
        joint_ok(j),
        stands_at(w, p, joint_words(j)),
    ensures
        joint_at(w, p) == Ok::<(JointModel, int), ParseError>((j, p + joint_words(j).len())),
    decreases j, 0nat,
{
    let head = seq![j.name, Keyword::Open.text()];
    let off = offset_words(j.offset);
    let chan = seq![Keyword::Channels.text(), decimal(j.channels.len())];
    let names = channel_words(j.channels);
    let below = children_words(j.children);
    let close = seq![Keyword::Close.text()];
    let n = j.channels.len();
    lemma_stands_split(w, p, head + off + chan + names + below, close);
    lemma_stands_split(w, p, head + off + chan + names, below);
    lemma_stands_split(w, p, head + off + chan, names);
    lemma_stands_split(w, p, head + off, chan);
    lemma_stands_split(w, p, head, off);
    assert(w[p + 0] == head[0]);
    assert(w[p + 1] == head[1]);
    lemma_offset_reads_back(w, p + 2, j.offset);
    assert(w[p + 6 + 0] == chan[0]);
    assert(w[p + 6 + 1] == chan[1]);
    lemma_count_reads_back(w, p + 7, n);
    lemma_channels_read_back(w, p + 8, j.channels, n);
    assert(j.channels.subrange(0, n as int) =~= j.channels);
    let q = p + 8 + n;
    let r = q + below.len();
    assert(w[r + 0] == close[0]);
    lemma_keywords_differ();
    match j.children {
        ChildrenModel::Joints(js) => {
            lemma_first_word_of_joints(js);
            assert(w[q + 0] == joints_words(js)[0]);
            assert(keyword_at(w, q, Keyword::Joint));
            lemma_joints_read_back(w, q, js);
            assert(!keyword_at(w, r, Keyword::Joint));
            assert(js + Seq::<JointModel>::empty() =~= js);
            assert(joints_at(w, q) == Ok::<(Seq<JointModel>, int), ParseError>((js, r)));
        },
        ChildrenModel::EndSite(o) => {
            let open = seq![Keyword::End.text(), Keyword::Site.text(), Keyword::Open.text()];
            lemma_stands_split(w, q, open + offset_words(o), close);
            lemma_stands_split(w, q, open, offset_words(o));
            assert(w[q + 0] == open[0]);
            assert(w[q + 1] == open[1]);
            assert(w[q + 2] == open[2]);
            lemma_offset_reads_back(w, q + 3, o);
            assert(w[q + 7 + 0] == close[0]);
            assert(end_site_at(w, q) == Ok::<OffsetModel, ParseError>(o));
        },
    }
}

/// The words of one or more joints begin with the keyword `JOINT`.
pub proof fn lemma_first_word_of_joints(js: Seq<JointModel>)
    requires
        js.len() > 0,
    ensures
        joints_words(js).len() > 0,
        joints_words(js)[0] == Keyword::Joint.text(),
    decreases js.len(),
{
    if js.len() > 1 {
        lemma_first_word_of_joints(js.drop_last());
    } else {
        assert(joints_words(js.drop_last()).len() == 0);
    }
}

/// The grammar reads well-formed joints back from their words, and goes on
/// with what stands behind them.
pub proof fn lemma_joints_read_back(w: Seq<Seq<u8>>, q: int, js: Seq<JointModel>)
    requires
        joints_ok(js),
        stands_at(w, q, joints_words(js)),
    ensures
        joints_at(w, q) == with_front(js, joints_at(w, q + joints_words(js).len())),
    decreases js, js.len(),
{
    if js.len() == 0 {
        match joints_at(w, q) {
            Ok((rest, r)) => {
                assert(js + rest =~= rest);
            },
            Err(_) => {},
        }
    } else {
        let front = js.drop_last();
        let last = js.last();
        let a = joints_words(front);
        let k = seq![Keyword::Joint.text()];
        let b = joint_words(last);
        lemma_stands_split(w, q, a + k, b);
        lemma_stands_split(w, q, a, k);
        lemma_joints_read_back(w, q, front);
        let m = q + a.len();
        assert(w[m + 0] == k[0]);
        lemma_joint_reads_back(w, m + 1, last);
        let end = m + 1 + b.len();
        assert(joints_at(w, m) == with_front(seq![last], joints_at(w, end)));
        match joints_at(w, end) {
            Ok((rest, r)) => {
                assert(front + (seq![last] + rest) =~= js + rest);
            },
            Err(_) => {},
        }
    }
}

/// The grammar reads a well-formed motion section back from its words,
/// where they are the last words.
pub proof fn lemma_motion_reads_back(w: Seq<Seq<u8>>, p: int, m: MotionModel)
    requires
        motion_ok(m),
        stands_at(w, p, motion_words(m)),
        p + motion_words(m).len() == w.len(),
    ensures
        motion_at(w, p) == Ok::<MotionModel, ParseError>(m),
{
    let head = seq![
        Keyword::Motion.text(),
        Keyword::Frames.text(),
        decimal(m.num_frames),
        Keyword::Frame.text(),
        Keyword::Time.text(),
        m.frame_time,
    ];
    lemma_stands_split(w, p, head, m.frame_data);
    assert(w[p + 0] == head[0]);
    assert(w[p + 1] == head[1]);
    assert(w[p + 2] == head[2]);
    assert(w[p + 3] == head[3]);
    assert(w[p + 4] == head[4]);
    assert(w[p + 5] == head[5]);
    lemma_count_reads_back(w, p + 2, m.num_frames);
    lemma_numbers_read_back(w, p + 6, m.frame_data, m.frame_data.len());
    assert(m.frame_data.subrange(0, m.frame_data.len() as int) =~= m.frame_data);
}

/// The grammar reads every well-formed document back from its words.
pub proof fn theorem_words_read_back(v: BvhModel)
    requires
        bvh_ok(v),
    ensures
        document(bvh_words(v)) == Ok::<BvhModel, ParseError>(v),
{
    let w = bvh_words(v);
    let head = seq![Keyword::Hierarchy.text(), Keyword::Root.text()];
    let body = joint_words(v.root);
    let tail = motion_words(v.motion);
    assert(stands_at(w, 0, head + body + tail)) by {
        assert forall|k: int| 0 <= k < w.len() implies #[trigger] w[0int + k] == w[k] by {}
    }
    lemma_stands_split(w, 0, head + body, tail);
    lemma_stands_split(w, 0, head, body);
    assert(w[0int + 0] == head[0]);
    assert(w[0int + 1] == head[1]);
    lemma_joint_reads_back(w, 2, v.root);
    lemma_motion_reads_back(w, 2int + body.len(), v.motion);
}

} // verus!

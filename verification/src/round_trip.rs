//! Serializing a well-formed document and parsing the text gives the
//! document back.

use vstd::prelude::*;
use crate::ascii::{LINE_FEED, POINT, SPACE};
use crate::grammar::ParseError;
use crate::literal::{decimal, digits_end, is_digit, is_name, is_number, is_sign};
use crate::model::{
    bvh_ok, joint_ok, joints_ok, motion_ok, offset_ok, total_channels, BvhModel, ChildrenModel,
    JointModel, MotionModel, OffsetModel,
};
use crate::parser::parse_text;
use crate::reading::{
    bvh_words, channel_words, children_words, joint_words, joints_words, lemma_decimal_reads_back,
    motion_words, offset_words, theorem_words_read_back,
};
use crate::serializer::{
    bvh_text, channels_text, children_text, hierarchy_text, joint_text, joints_text, line_end,
    motion_text, offset_text, samples_text, separator,
};
use crate::spelling::{
    is_word, lemma_spells_concat, lemma_spells_nothing, lemma_spells_word, spells,
};
use crate::soundness::theorem_document_is_well_formed;
use crate::text::{is_space, words};
use crate::vocabulary::{Channel, Keyword};

verus! {

/// No keyword holds a separator.
pub proof fn lemma_keyword_is_word(k: Keyword)
    ensures
        is_word(k.text()),
{
}

/// No channel name holds a separator.
pub proof fn lemma_channel_is_word(c: Channel)
    ensures
        is_word(c.text()),
{
}

/// No joint name holds a separator.
pub proof fn lemma_name_is_word(w: Seq<u8>)
    requires
        is_name(w),
    ensures
        is_word(w),
{
}

/// From `i` to where the digits end, every byte is a digit.
pub proof fn lemma_digits_run(s: Seq<u8>, i: int)
    requires
        0 <= i <= s.len(),
    ensures
        i <= digits_end(s, i) <= s.len(),
        forall|k: int| i <= k < digits_end(s, i) ==> is_digit(#[trigger] s[k]),
    decreases s.len() - i,
{
    if i < s.len() && is_digit(s[i]) {
        lemma_digits_run(s, i + 1);
    }
}

/// No decimal number holds a separator.
pub proof fn lemma_number_is_word(s: Seq<u8>)
    requires
        is_number(s),
    ensures
        is_word(s),
{
    let a: int = if s.len() > 0 && is_sign(s[0]) { 1 } else { 0 };
    lemma_digits_run(s, a);
    let b = digits_end(s, a);
    if b < s.len() {
        lemma_digits_run(s, b + 1);
    }
    let c = if b < s.len() && s[b] == POINT { digits_end(s, b + 1) } else { b };
    let f = if c + 1 < s.len() && is_sign(s[c + 1]) { c + 2 } else { c + 1 };
    if f <= s.len() {
        lemma_digits_run(s, f);
    }
}

/// No rendering of a number holds a separator.
pub proof fn lemma_decimal_is_word(n: nat)
    ensures
        is_word(decimal(n)),
{
    lemma_decimal_reads_back(n);
}

/// A closed text, a word and a separator spell the words of the text and
/// then that word.
pub proof fn lemma_spells_then_word(t: Seq<u8>, ws: Seq<Seq<u8>>, w: Seq<u8>, sep: u8)
    requires
        spells(t, ws),
        is_word(w),
        is_space(sep),
    ensures
        spells(t + w + seq![sep], ws.push(w)),
{
    lemma_spells_word(w, sep);
    lemma_spells_concat(t, ws, w + seq![sep], seq![w]);
    assert(t + w + seq![sep] =~= t + (w + seq![sep]));
    assert(ws + seq![w] =~= ws.push(w));
}

/// The text of a well-formed offset spells its words.
pub proof fn lemma_offset_spells(o: OffsetModel)
    requires
        offset_ok(o),
    ensures
        spells(offset_text(o), offset_words(o)),
{
    let e = Seq::<u8>::empty();
    let k = Keyword::Offset.text();
    lemma_spells_nothing();
    lemma_keyword_is_word(Keyword::Offset);
    lemma_number_is_word(o.x);
    lemma_number_is_word(o.y);
    lemma_number_is_word(o.z);
    lemma_spells_then_word(e, Seq::empty(), k, SPACE);
    let t1 = e + k + seq![SPACE];
    let w1 = Seq::<Seq<u8>>::empty().push(k);
    lemma_spells_then_word(t1, w1, o.x, SPACE);
    let t2 = t1 + o.x + seq![SPACE];
    let w2 = w1.push(o.x);
    lemma_spells_then_word(t2, w2, o.y, SPACE);
    let t3 = t2 + o.y + seq![SPACE];
    let w3 = w2.push(o.y);
    lemma_spells_then_word(t3, w3, o.z, LINE_FEED);
    assert(t3 + o.z + seq![LINE_FEED] =~= offset_text(o));
    assert(w3.push(o.z) =~= offset_words(o));
}

/// Behind a closed text, a count, the channel names that follow it and a
/// separator spell the count and the names.
pub proof fn lemma_channels_spell(
    t: Seq<u8>,
    ws: Seq<Seq<u8>>,
    count: Seq<u8>,
    cs: Seq<Channel>,
    sep: u8,
)
    requires
        spells(t, ws),
        is_word(count),
        is_space(sep),
    ensures
        spells(t + count + channels_text(cs) + seq![sep], ws.push(count) + channel_words(cs)),
    decreases cs.len(),
{
    if cs.len() == 0 {
        lemma_spells_then_word(t, ws, count, sep);
        assert(t + count + channels_text(cs) + seq![sep] =~= t + count + seq![sep]);
        assert(ws.push(count) + channel_words(cs) =~= ws.push(count));
    } else {
        let front = cs.drop_last();
        let c = cs.last();
        lemma_channels_spell(t, ws, count, front, SPACE);
        lemma_channel_is_word(c);
        let t1 = t + count + channels_text(front) + seq![SPACE];
        let w1 = ws.push(count) + channel_words(front);
        lemma_spells_then_word(t1, w1, c.text(), sep);
        assert(t1 + c.text() + seq![sep] =~= t + count + channels_text(cs) + seq![sep]);
        assert(w1.push(c.text()) =~= ws.push(count) + channel_words(cs));
    }
}

/// The text of a well-formed joint spells its words.
pub proof fn lemma_joint_spells(j: JointModel)
    requires
        joint_ok(j),
    ensures
        spells(joint_text(j), joint_words(j)),
    decreases j, 0nat,
{
    let e = Seq::<u8>::empty();
    lemma_spells_nothing();
    lemma_name_is_word(j.name);
    lemma_keyword_is_word(Keyword::Open);
    lemma_keyword_is_word(Keyword::Channels);
    lemma_keyword_is_word(Keyword::Close);
    lemma_keyword_is_word(Keyword::End);
    lemma_keyword_is_word(Keyword::Site);
    lemma_decimal_is_word(j.channels.len());
    lemma_spells_then_word(e, Seq::empty(), j.name, LINE_FEED);
    let t1 = e + j.name + seq![LINE_FEED];
    let w1 = Seq::<Seq<u8>>::empty().push(j.name);
    lemma_spells_then_word(t1, w1, Keyword::Open.text(), LINE_FEED);
    let t2 = t1 + Keyword::Open.text() + seq![LINE_FEED];
    let w2 = w1.push(Keyword::Open.text());
    lemma_offset_spells(j.offset);
    lemma_spells_concat(t2, w2, offset_text(j.offset), offset_words(j.offset));
    let t3 = t2 + offset_text(j.offset);
    let w3 = w2 + offset_words(j.offset);
    lemma_spells_then_word(t3, w3, Keyword::Channels.text(), SPACE);
    let t4 = t3 + Keyword::Channels.text() + seq![SPACE];
    let w4 = w3.push(Keyword::Channels.text());
    lemma_channels_spell(t4, w4, decimal(j.channels.len()), j.channels, LINE_FEED);
    let t5 = t4 + decimal(j.channels.len()) + channels_text(j.channels) + seq![LINE_FEED];
    let w5 = w4.push(decimal(j.channels.len())) + channel_words(j.channels);
    lemma_children_spell(j);
    lemma_spells_concat(t5, w5, children_text(j.children), children_words(j.children));
    let t6 = t5 + children_text(j.children);
    let w6 = w5 + children_words(j.children);
    lemma_spells_then_word(t6, w6, Keyword::Close.text(), LINE_FEED);
    assert(t6 + Keyword::Close.text() + seq![LINE_FEED] =~= joint_text(j));
    assert(w6.push(Keyword::Close.text()) =~= joint_words(j));
}

/// What stands below a well-formed joint spells its words.
pub proof fn lemma_children_spell(j: JointModel)
    requires
        joint_ok(j),
    ensures
        spells(children_text(j.children), children_words(j.children)),
    decreases j.children, 2nat,
{
    match j.children {
        ChildrenModel::Joints(js) => {
            lemma_joints_spell(js);
        },
        ChildrenModel::EndSite(o) => {
            let e = Seq::<u8>::empty();
            lemma_spells_nothing();
            lemma_keyword_is_word(Keyword::Open);
            lemma_keyword_is_word(Keyword::Close);
            lemma_keyword_is_word(Keyword::End);
            lemma_keyword_is_word(Keyword::Site);
            lemma_spells_then_word(e, Seq::empty(), Keyword::End.text(), SPACE);
            let t1 = e + Keyword::End.text() + seq![SPACE];
            let w1 = Seq::<Seq<u8>>::empty().push(Keyword::End.text());
            lemma_spells_then_word(t1, w1, Keyword::Site.text(), LINE_FEED);
            let t2 = t1 + Keyword::Site.text() + seq![LINE_FEED];
            let w2 = w1.push(Keyword::Site.text());
            lemma_spells_then_word(t2, w2, Keyword::Open.text(), LINE_FEED);
            let t3 = t2 + Keyword::Open.text() + seq![LINE_FEED];
            let w3 = w2.push(Keyword::Open.text());
            lemma_offset_spells(o);
            lemma_spells_concat(t3, w3, offset_text(o), offset_words(o));
            let t4 = t3 + offset_text(o);
            let w4 = w3 + offset_words(o);
            lemma_spells_then_word(t4, w4, Keyword::Close.text(), LINE_FEED);
            assert(t4 + Keyword::Close.text() + seq![LINE_FEED] =~= children_text(j.children));
            assert(w4.push(Keyword::Close.text()) =~= children_words(j.children));
        },
    }
}

/// The text of a row of well-formed joints spells their words.
pub proof fn lemma_joints_spell(js: Seq<JointModel>)
    requires
        joints_ok(js),
    ensures
        spells(joints_text(js), joints_words(js)),
    decreases js, js.len(),
{
    lemma_spells_nothing();
    if js.len() > 0 {
        let front = js.drop_last();
        lemma_joints_spell(front);
        lemma_keyword_is_word(Keyword::Joint);
        lemma_spells_then_word(
            joints_text(front),
            joints_words(front),
            Keyword::Joint.text(),
            SPACE,
        );
        let t1 = joints_text(front) + Keyword::Joint.text() + seq![SPACE];
        let w1 = joints_words(front).push(Keyword::Joint.text());
        lemma_joint_spells(js.last());
        lemma_spells_concat(t1, w1, joint_text(js.last()), joint_words(js.last()));
        assert(t1 + joint_text(js.last()) =~= joints_text(js));
        assert(w1 + joint_words(js.last()) =~= joints_words(js));
    }
}

/// The first `n` values of a frame buffer, in rows of any width, spell
/// themselves.
pub proof fn lemma_samples_spell(data: Seq<Seq<u8>>, width: nat, n: nat)
    requires
        n <= data.len(),
        forall|k: int| 0 <= k < data.len() ==> is_number(#[trigger] data[k]),
    ensures
        spells(samples_text(data, width, n), data.subrange(0, n as int)),
    decreases n,
{
    lemma_spells_nothing();
    if n == 0 {
        assert(data.subrange(0, 0) =~= Seq::<Seq<u8>>::empty());
    } else {
        lemma_samples_spell(data, width, (n - 1) as nat);
        lemma_number_is_word(data[n - 1]);
        let t = samples_text(data, width, (n - 1) as nat);
        let ws = data.subrange(0, n - 1);
        if separator(n - 1, width) == line_end() {
            lemma_spells_then_word(t, ws, data[n - 1], LINE_FEED);
        } else {
            lemma_spells_then_word(t, ws, data[n - 1], SPACE);
        }
        assert(ws.push(data[n - 1]) =~= data.subrange(0, n as int));
    }
}

/// The motion section of a well-formed document, in rows of any width,
/// spells its words.
pub proof fn lemma_motion_spells(m: MotionModel, width: nat)
    requires
        motion_ok(m),
    ensures
        spells(motion_text(m, width), motion_words(m)),
{
    let e = Seq::<u8>::empty();
    lemma_spells_nothing();
    lemma_keyword_is_word(Keyword::Motion);
    lemma_keyword_is_word(Keyword::Frames);
    lemma_keyword_is_word(Keyword::Frame);
    lemma_keyword_is_word(Keyword::Time);
    lemma_decimal_is_word(m.num_frames);
    lemma_number_is_word(m.frame_time);
    lemma_spells_then_word(e, Seq::empty(), Keyword::Motion.text(), LINE_FEED);
    let t1 = e + Keyword::Motion.text() + seq![LINE_FEED];
    let w1 = Seq::<Seq<u8>>::empty().push(Keyword::Motion.text());
    lemma_spells_then_word(t1, w1, Keyword::Frames.text(), SPACE);
    let t2 = t1 + Keyword::Frames.text() + seq![SPACE];
    let w2 = w1.push(Keyword::Frames.text());
    lemma_spells_then_word(t2, w2, decimal(m.num_frames), LINE_FEED);
    let t3 = t2 + decimal(m.num_frames) + seq![LINE_FEED];
    let w3 = w2.push(decimal(m.num_frames));
    lemma_spells_then_word(t3, w3, Keyword::Frame.text(), SPACE);
    let t4 = t3 + Keyword::Frame.text() + seq![SPACE];
    let w4 = w3.push(Keyword::Frame.text());
    lemma_spells_then_word(t4, w4, Keyword::Time.text(), SPACE);
    let t5 = t4 + Keyword::Time.text() + seq![SPACE];
    let w5 = w4.push(Keyword::Time.text());
    lemma_spells_then_word(t5, w5, m.frame_time, LINE_FEED);
    let t6 = t5 + m.frame_time + seq![LINE_FEED];
    let w6 = w5.push(m.frame_time);
    lemma_samples_spell(m.frame_data, width, m.frame_data.len());
    assert(m.frame_data.subrange(0, m.frame_data.len() as int) =~= m.frame_data);
    lemma_spells_concat(
        t6,
        w6,
        samples_text(m.frame_data, width, m.frame_data.len()),
        m.frame_data,
    );
    assert(t6 + samples_text(m.frame_data, width, m.frame_data.len()) =~= motion_text(m, width));
    assert(w6 + m.frame_data =~= motion_words(m));
}

/// The canonical text of a well-formed document spells the document's words.
pub proof fn theorem_text_spells_words(v: BvhModel)
    requires
        bvh_ok(v),
    ensures
        spells(bvh_text(v), bvh_words(v)),
{
    let e = Seq::<u8>::empty();
    lemma_spells_nothing();
    lemma_keyword_is_word(Keyword::Hierarchy);
    lemma_keyword_is_word(Keyword::Root);
    lemma_spells_then_word(e, Seq::empty(), Keyword::Hierarchy.text(), LINE_FEED);
    let t1 = e + Keyword::Hierarchy.text() + seq![LINE_FEED];
    let w1 = Seq::<Seq<u8>>::empty().push(Keyword::Hierarchy.text());
    lemma_spells_then_word(t1, w1, Keyword::Root.text(), SPACE);
    let t2 = t1 + Keyword::Root.text() + seq![SPACE];
    let w2 = w1.push(Keyword::Root.text());
    lemma_joint_spells(v.root);
    lemma_spells_concat(t2, w2, joint_text(v.root), joint_words(v.root));
    assert(t2 + joint_text(v.root) =~= hierarchy_text(v.root));
    let width = total_channels(v.root);
    lemma_motion_spells(v.motion, width);
    lemma_spells_concat(
        hierarchy_text(v.root),
        w2 + joint_words(v.root),
        motion_text(v.motion, width),
        motion_words(v.motion),
    );
    assert(w2 + joint_words(v.root) + motion_words(v.motion) =~= bvh_words(v));
}

/// Round trip: parsing the canonical text of a well-formed document gives
/// that document.
pub proof fn theorem_round_trip(v: BvhModel)
    requires
        bvh_ok(v),
    ensures
        parse_text(bvh_text(v)) == Ok::<BvhModel, ParseError>(v),
{
    theorem_text_spells_words(v);
    theorem_words_read_back(v);
}

/// Canonical form: where a text parses, the canonical text of the result
/// parses to the same document.
pub proof fn theorem_canonical_text_parses_alike(s: Seq<u8>)
    requires
        parse_text(s).is_ok(),
    ensures
        parse_text(bvh_text(parse_text(s).unwrap())) == parse_text(s),
{
    theorem_document_is_well_formed(words(s));
    theorem_round_trip(parse_text(s).unwrap());
}

} // verus!

//! The tree builder: from the words of a text to a `Bvh`.

use vstd::prelude::*;
use vstd::slice::slice_to_vec;
use vstd::string::StringSliceAdditionalSpecFns;
use crate::grammar::{
    channels_at, count_at, document, end_site_at, joint_at, joints_at, keyword_at,
    lemma_channels_fail, lemma_numbers_fail, motion_at, number_at, numbers_at, offset_at,
    syntax_error, with_front, ParseError,
};
use crate::literal::{check_count, check_name, check_number, is_name, read_u32};
use crate::model::{
    bvh_ok, joints_model, numbers_model, Bvh, BvhModel, EndSite, Hierarchy, Joint, JointChildren,
    JointModel, Motion, MotionModel, Number, Offset, OffsetModel,
};
use crate::soundness::theorem_document_is_well_formed;
use crate::text::{span_words, spans_within, split_words, word_at, words, Span};
use crate::vocabulary::{read_channel, Channel, Keyword};

verus! {

/// What parsing the text `s` gives: its words, read as a document.
pub open spec fn parse_text(s: Seq<u8>) -> Result<BvhModel, ParseError> {
    document(words(s))
}

/// A text together with the places of its words.
pub struct Tokens<'a> {
    pub bytes: &'a [u8],
    pub spans: Vec<Span>,
}

impl<'a> Tokens<'a> {
    /// Every word lies inside the text.
    pub open spec fn wf(&self) -> bool {
        spans_within(self.spans@, self.bytes@.len() as int) && self.spans@.len() <= usize::MAX
    }

    /// The words, in order.
    pub open spec fn words(&self) -> Seq<Seq<u8>> {
        span_words(self.bytes@, self.spans@)
    }

    /// Splits a text into its words.
    pub fn new(bytes: &'a [u8]) -> (t: Tokens<'a>)
        ensures
            t.wf(),
            t.bytes@ == bytes@,
            t.words() == words(bytes@),
    {
        let spans = split_words(bytes);
        let _ = spans.len();
        Tokens { bytes, spans }
    }

    /// The number of words.
    pub fn len(&self) -> (n: usize)
        ensures
            n == self.words().len(),
    {
        self.spans.len()
    }

    /// Whether the word at `pos` is the keyword `k`.
    pub fn peek(&self, pos: usize, k: Keyword) -> (r: bool)
        requires
            self.wf(),
        ensures
            r == keyword_at(self.words(), pos as int, k),
    {
        pos < self.spans.len() && k.matches(word_at(self.bytes, &self.spans, pos))
    }

    /// Asks for the keyword `k` at `pos`.
    pub fn expect(&self, pos: usize, k: Keyword) -> (r: Result<(), ParseError>)
        requires
            self.wf(),
        ensures
            r.is_ok() == keyword_at(self.words(), pos as int, k),
            r.is_err() ==> r == Err::<(), ParseError>(syntax_error(pos as int)),
    {
        if self.peek(pos, k) {
            Ok(())
        } else {
            Err(ParseError::Syntax { position: pos })
        }
    }

    /// Asks for a decimal number at `pos`.
    pub fn expect_number(&self, pos: usize) -> (r: Result<Number, ParseError>)
        requires
            self.wf(),
        ensures
            r.is_ok() == number_at(self.words(), pos as int),
            r.is_ok() ==> r.unwrap()@ == self.words()[pos as int],
            r.is_err() ==> r == Err::<Number, ParseError>(syntax_error(pos as int)),
    {
        if pos < self.spans.len() {
            let w = word_at(self.bytes, &self.spans, pos);
            if check_number(w) {
                return Ok(Number { text: slice_to_vec(w) });
            }
        }
        Err(ParseError::Syntax { position: pos })
    }

    /// Asks for a joint name at `pos`.
    pub fn expect_name(&self, pos: usize) -> (r: Result<Vec<u8>, ParseError>)
        requires
            self.wf(),
        ensures
            r.is_ok() == (pos < self.words().len() && is_name(self.words()[pos as int])),
            r.is_ok() ==> r.unwrap()@ == self.words()[pos as int],
            r.is_err() ==> r == Err::<Vec<u8>, ParseError>(syntax_error(pos as int)),
    {
        if pos < self.spans.len() {
            let w = word_at(self.bytes, &self.spans, pos);
            if check_name(w) {
                return Ok(slice_to_vec(w));
            }
        }
        Err(ParseError::Syntax { position: pos })
    }

    /// Asks for a count at `pos` that fits in 32 bits.
    pub fn expect_count(&self, pos: usize) -> (r: Result<u32, ParseError>)
        requires
            self.wf(),
        ensures
            match r {
                Ok(n) => count_at(self.words(), pos as int) == Ok::<nat, ParseError>(n as nat)
                    && pos < self.words().len(),
                Err(e) => count_at(self.words(), pos as int) == Err::<nat, ParseError>(e),
            },
    {
        if pos < self.spans.len() {
            let w = word_at(self.bytes, &self.spans, pos);
            if check_count(w) {
                return match read_u32(w) {
                    Some(n) => Ok(n),
                    None => Err(ParseError::Internal { position: pos }),
                };
            }
        }
        Err(ParseError::Syntax { position: pos })
    }
}

/// Reads `OFFSET x y z` from `pos` on.
pub fn parse_offset(t: &Tokens, pos: usize) -> (r: Result<Offset, ParseError>)
    requires
        t.wf(),
        pos <= t.words().len(),
    ensures
        match r {
            Ok(o) => offset_at(t.words(), pos as int) == Ok::<OffsetModel, ParseError>(o@) && pos
                + 4 <= t.words().len(),
            Err(e) => offset_at(t.words(), pos as int) == Err::<OffsetModel, ParseError>(e),
        },
{
    if let Err(e) = t.expect(pos, Keyword::Offset) {
        return Err(e);
    }
    let x = match t.expect_number(pos + 1) {
        Ok(v) => v,
        Err(e) => {
            return Err(e);
        },
    };
    let y = match t.expect_number(pos + 2) {
        Ok(v) => v,
        Err(e) => {
            return Err(e);
        },
    };
    let z = match t.expect_number(pos + 3) {
        Ok(v) => v,
        Err(e) => {
            return Err(e);
        },
    };
    Ok(Offset { x, y, z })
}

/// Reads `n` channel names from `pos` on.
pub fn parse_channels(t: &Tokens, pos: usize, n: u32) -> (r: Result<Vec<Channel>, ParseError>)
    requires
        t.wf(),
        pos <= t.words().len(),
    ensures
        match r {
            Ok(v) => channels_at(t.words(), pos as int, n as nat) == Ok::<
                Seq<Channel>,
                ParseError,
            >(v@) && pos + n <= t.words().len(),
            Err(e) => channels_at(t.words(), pos as int, n as nat) == Err::<
                Seq<Channel>,
                ParseError,
            >(e),
        },
{
    let mut out: Vec<Channel> = Vec::new();
    let mut i: u32 = 0;
    let mut cur: usize = pos;
    while i < n
        invariant
            t.wf(),
            i <= n,
            cur == pos + i,
            cur <= t.words().len(),
            channels_at(t.words(), pos as int, i as nat) == Ok::<Seq<Channel>, ParseError>(out@),
        decreases n - i,
    {
        if cur >= t.len() {
            proof {
                lemma_channels_fail(t.words(), pos as int, i as nat, n as nat);
            }
            return Err(ParseError::Syntax { position: cur });
        }
        match read_channel(word_at(t.bytes, &t.spans, cur)) {
            Some(c) => {
                out.push(c);
            },
            None => {
                proof {
                    lemma_channels_fail(t.words(), pos as int, i as nat, n as nat);
                }
                return Err(ParseError::Syntax { position: cur });
            },
        }
        i = i + 1;
        cur = cur + 1;
    }
    Ok(out)
}

/// Reads decimal numbers from `pos` to the end of the words.
pub fn parse_numbers(t: &Tokens, pos: usize) -> (r: Result<Vec<Number>, ParseError>)
    requires
        t.wf(),
        pos <= t.words().len(),
    ensures
        match r {
            Ok(v) => numbers_at(t.words(), pos as int, (t.words().len() - pos) as nat) == Ok::<
                Seq<Seq<u8>>,
                ParseError,
            >(numbers_model(v@)),
            Err(e) => numbers_at(t.words(), pos as int, (t.words().len() - pos) as nat) == Err::<
                Seq<Seq<u8>>,
                ParseError,
            >(e),
        },
{
    let mut out: Vec<Number> = Vec::new();
    let mut cur: usize = pos;
    let n: usize = t.len();
    assert(numbers_model(out@) =~= Seq::<Seq<u8>>::empty());
    while cur < n
        invariant
            t.wf(),
            n == t.words().len(),
            pos <= cur <= n,
            numbers_at(t.words(), pos as int, (cur - pos) as nat) == Ok::<
                Seq<Seq<u8>>,
                ParseError,
            >(numbers_model(out@)),
        decreases n - cur,
    {
        let ghost before = out@;
        match t.expect_number(cur) {
            Ok(v) => {
                out.push(v);
                assert(numbers_model(out@) =~= numbers_model(before).push(t.words()[cur as int]));
            },
            Err(e) => {
                proof {
                    lemma_numbers_fail(t.words(), pos as int, (cur - pos) as nat, (n - pos) as nat);
                }
                return Err(e);
            },
        }
        cur = cur + 1;
    }
    Ok(out)
}

/// Reads `End Site { OFFSET x y z }` from `pos` on.
pub fn parse_end_site(t: &Tokens, pos: usize) -> (r: Result<EndSite, ParseError>)
    requires
        t.wf(),
        pos <= t.words().len(),
    ensures
        match r {
            Ok(s) => end_site_at(t.words(), pos as int) == Ok::<OffsetModel, ParseError>(s.offset@)
                && pos + 8 <= t.words().len(),
            Err(e) => end_site_at(t.words(), pos as int) == Err::<OffsetModel, ParseError>(e),
        },
{
    if let Err(e) = t.expect(pos, Keyword::End) {
        return Err(e);
    }
    if let Err(e) = t.expect(pos + 1, Keyword::Site) {
        return Err(e);
    }
    if let Err(e) = t.expect(pos + 2, Keyword::Open) {
        return Err(e);
    }
    let offset = match parse_offset(t, pos + 3) {
        Ok(v) => v,
        Err(e) => {
            return Err(e);
        },
    };
    if let Err(e) = t.expect(pos + 7, Keyword::Close) {
        return Err(e);
    }
    Ok(EndSite { offset })
}

/// Reads a joint from its name at `pos` to its closing brace, and says where
/// the next word stands.
pub fn parse_joint(t: &Tokens, pos: usize) -> (r: Result<(Joint, usize), ParseError>)
    requires
        t.wf(),
        pos <= t.words().len(),
    ensures
        match r {
            Ok((j, end)) => joint_at(t.words(), pos as int) == Ok::<(JointModel, int), ParseError>(
                (j@, end as int),
            ) && pos < end <= t.words().len(),
            Err(e) => joint_at(t.words(), pos as int) == Err::<(JointModel, int), ParseError>(e),
        },
    decreases t.words().len() - pos, 1nat,
{
    let name = match t.expect_name(pos) {
        Ok(v) => v,
        Err(e) => {
            return Err(e);
        },
    };
    if let Err(e) = t.expect(pos + 1, Keyword::Open) {
        return Err(e);
    }
    let offset = match parse_offset(t, pos + 2) {
        Ok(v) => v,
        Err(e) => {
            return Err(e);
        },
    };
    if let Err(e) = t.expect(pos + 6, Keyword::Channels) {
        return Err(e);
    }
    let count = match t.expect_count(pos + 7) {
        Ok(v) => v,
        Err(e) => {
            return Err(e);
        },
    };
    let channels = match parse_channels(t, pos + 8, count) {
        Ok(v) => v,
        Err(e) => {
            return Err(e);
        },
    };
    let q: usize = pos + 8 + count as usize;
    if t.peek(q, Keyword::Joint) {
        let (joints, r) = match parse_joints(t, q) {
            Ok(v) => v,
            Err(e) => {
                return Err(e);
            },
        };
        if let Err(e) = t.expect(r, Keyword::Close) {
            return Err(e);
        }
        Ok((Joint { name, offset, channels, children: JointChildren::Joints(joints) }, r + 1))
    } else {
        let site = match parse_end_site(t, q) {
            Ok(v) => v,
            Err(e) => {
                return Err(e);
            },
        };
        if let Err(e) = t.expect(q + 8, Keyword::Close) {
            return Err(e);
        }
        Ok((Joint { name, offset, channels, children: JointChildren::EndSite(site) }, q + 9))
    }
}

/// Reads the joints that stand one after another from `pos` on, each after
/// the keyword `JOINT`, and says where the first word after them stands.
pub fn parse_joints(t: &Tokens, pos: usize) -> (r: Result<(Vec<Joint>, usize), ParseError>)
    requires
        t.wf(),
        pos <= t.words().len(),
    ensures
        match r {
            Ok((v, end)) => joints_at(t.words(), pos as int) == Ok::<
                (Seq<JointModel>, int),
                ParseError,
            >((joints_model(v@), end as int)) && pos <= end <= t.words().len(),
            Err(e) => joints_at(t.words(), pos as int) == Err::<
                (Seq<JointModel>, int),
                ParseError,
            >(e),
        },
    decreases t.words().len() - pos, 0nat,
{
    let mut out: Vec<Joint> = Vec::new();
    let mut cur: usize = pos;
    let ghost w = t.words();
    proof {
        let rest = joints_at(w, pos as int);
        match rest {
            Ok((js, r)) => {
                assert(Seq::<JointModel>::empty() + js =~= js);
            },
            Err(_) => {},
        }
    }
    while t.peek(cur, Keyword::Joint)
        invariant
            t.wf(),
            w == t.words(),
            pos <= cur <= w.len(),
            joints_at(w, pos as int) == with_front(joints_model(out@), joints_at(w, cur as int)),
        decreases w.len() - cur,
    {
        let ghost before = out@;
        let (joint, next) = match parse_joint(t, cur + 1) {
            Ok(v) => v,
            Err(e) => {
                return Err(e);
            },
        };
        out.push(joint);
        proof {
            assert(out@.drop_last() =~= before);
            let front = joints_model(before);
            let rest = joints_at(w, next as int);
            assert(joints_at(w, cur as int) == with_front(seq![joint@], rest));
            match rest {
                Ok((js, r)) => {
                    assert(front + (seq![joint@] + js) =~= front.push(joint@) + js);
                },
                Err(_) => {},
            }
        }
        cur = next;
    }
    proof {
        assert(joints_model(out@) + Seq::<JointModel>::empty() =~= joints_model(out@));
    }
    Ok((out, cur))
}

/// Reads the motion section from the keyword `MOTION` at `pos` to the end.
pub fn parse_motion(t: &Tokens, pos: usize) -> (r: Result<Motion, ParseError>)
    requires
        t.wf(),
        pos <= t.words().len(),
    ensures
        match r {
            Ok(m) => motion_at(t.words(), pos as int) == Ok::<MotionModel, ParseError>(m@),
            Err(e) => motion_at(t.words(), pos as int) == Err::<MotionModel, ParseError>(e),
        },
{
    if let Err(e) = t.expect(pos, Keyword::Motion) {
        return Err(e);
    }
    if let Err(e) = t.expect(pos + 1, Keyword::Frames) {
        return Err(e);
    }
    let num_frames = match t.expect_count(pos + 2) {
        Ok(v) => v,
        Err(e) => {
            return Err(e);
        },
    };
    if let Err(e) = t.expect(pos + 3, Keyword::Frame) {
        return Err(e);
    }
    if let Err(e) = t.expect(pos + 4, Keyword::Time) {
        return Err(e);
    }
    let frame_time = match t.expect_number(pos + 5) {
        Ok(v) => v,
        Err(e) => {
            return Err(e);
        },
    };
    let frame_data = match parse_numbers(t, pos + 6) {
        Ok(v) => v,
        Err(e) => {
            return Err(e);
        },
    };
    Ok(Motion { num_frames, frame_time, frame_data })
}

/// Reads a whole document from its words.
pub fn parse_document(t: &Tokens) -> (r: Result<Bvh, ParseError>)
    requires
        t.wf(),
    ensures
        match r {
            Ok(v) => document(t.words()) == Ok::<BvhModel, ParseError>(v@) && bvh_ok(v@),
            Err(e) => document(t.words()) == Err::<BvhModel, ParseError>(e),
        },
{
    proof {
        theorem_document_is_well_formed(t.words());
    }
    if let Err(e) = t.expect(0, Keyword::Hierarchy) {
        return Err(e);
    }
    if let Err(e) = t.expect(1, Keyword::Root) {
        return Err(e);
    }
    let (root, q) = match parse_joint(t, 2) {
        Ok(v) => v,
        Err(e) => {
            return Err(e);
        },
    };
    let motion = match parse_motion(t, q) {
        Ok(v) => v,
        Err(e) => {
            return Err(e);
        },
    };
    Ok(Bvh { hierarchy: Hierarchy { root }, motion })
}

/// Parses a BVH document given as bytes.
pub fn parse_bytes(input: &[u8]) -> (r: Result<Bvh, ParseError>)
    ensures
        match r {
            Ok(v) => parse_text(input@) == Ok::<BvhModel, ParseError>(v@) && bvh_ok(v@),
            Err(e) => parse_text(input@) == Err::<BvhModel, ParseError>(e),
        },
{
    let t = Tokens::new(input);
    parse_document(&t)
}

/// Parses a BVH document: the whole value, or the first word that does not fit.
pub fn parse(input: &str) -> (r: Result<Bvh, ParseError>)
    ensures
        match r {
            Ok(v) => parse_text(input.spec_bytes()) == Ok::<BvhModel, ParseError>(v@) && bvh_ok(
                v@,
            ),
            Err(e) => parse_text(input.spec_bytes()) == Err::<BvhModel, ParseError>(e),
        },
{
    parse_bytes(input.as_bytes())
}

} // verus!

//! The grammar of a BVH document, stated over its words.
//!
//! Every function here reads the words from a position on and says either
//! what stands there or which word is the first that does not fit.

use vstd::prelude::*;
use crate::literal::{digits_value, is_count, is_name, is_number};
use crate::model::{BvhModel, ChildrenModel, JointModel, MotionModel, OffsetModel};
use crate::vocabulary::{channel_of, Channel, Keyword};

verus! {

/// Why a text is no BVH document.
#[derive(Clone, Copy, Debug, PartialEq, Eq, Structural)]
pub enum ParseError {
    /// The word at `position` (counted from 0) does not fit the grammar;
    /// `position` is the number of words where the text ends too early.
    Syntax { position: usize },
    /// The count at `position` is well written but too large to be held.
    Internal { position: usize },
}

impl ParseError {
    /// The place of the word that the error speaks of, counted in words from 0.
    pub fn position(&self) -> (p: usize)
        ensures
            p == (match *self {
                ParseError::Syntax { position } => position,
                ParseError::Internal { position } => position,
            }),
    {
        match *self {
            ParseError::Syntax { position } => position,
            ParseError::Internal { position } => position,
        }
    }

    /// What went wrong, in words.
    pub fn message(&self) -> (s: String)
        ensures
            s@ == (match *self {
                ParseError::Syntax { .. } => "a word does not fit the BVH grammar"@,
                ParseError::Internal { .. } => "a count does not fit in 32 bits"@,
            }),
    {
        match *self {
            ParseError::Syntax { .. } => "a word does not fit the BVH grammar".to_owned(),
            ParseError::Internal { .. } => "a count does not fit in 32 bits".to_owned(),
        }
    }
}

/// The error for a word at `p` that does not fit.
pub open spec fn syntax_error(p: int) -> ParseError {
    ParseError::Syntax { position: p as usize }
}

/// The error for a count at `p` that is too large.
pub open spec fn internal_error(p: int) -> ParseError {
    ParseError::Internal { position: p as usize }
}

/// The word at `p` is the keyword `k`.
pub open spec fn keyword_at(w: Seq<Seq<u8>>, p: int, k: Keyword) -> bool {
    0 <= p < w.len() && w[p] == k.text()
}

/// The word at `p` is a decimal number.
pub open spec fn number_at(w: Seq<Seq<u8>>, p: int) -> bool {
    0 <= p < w.len() && is_number(w[p])
}

/// `OFFSET x y z` in the four words from `p` on.
pub open spec fn offset_at(w: Seq<Seq<u8>>, p: int) -> Result<OffsetModel, ParseError> {
    if !keyword_at(w, p, Keyword::Offset) {
        Err(syntax_error(p))
    } else if !number_at(w, p + 1) {
        Err(syntax_error(p + 1))
    } else if !number_at(w, p + 2) {
        Err(syntax_error(p + 2))
    } else if !number_at(w, p + 3) {
        Err(syntax_error(p + 3))
    } else {
        Ok(OffsetModel { x: w[p + 1], y: w[p + 2], z: w[p + 3] })
    }
}

/// A count at `p` that fits in 32 bits.
pub open spec fn count_at(w: Seq<Seq<u8>>, p: int) -> Result<nat, ParseError> {
    if !(0 <= p < w.len() && is_count(w[p])) {
        Err(syntax_error(p))
    } else if digits_value(w[p]) > u32::MAX {
        Err(internal_error(p))
    } else {
        Ok(digits_value(w[p]))
    }
}

/// `n` channel names from `p` on.
pub open spec fn channels_at(w: Seq<Seq<u8>>, p: int, n: nat) -> Result<Seq<Channel>, ParseError>
    decreases n,
{
    if n == 0 {
        Ok(Seq::empty())
    } else {
        match channels_at(w, p, (n - 1) as nat) {
            Err(e) => Err(e),
            Ok(cs) => if 0 <= p + n - 1 < w.len() && channel_of(w[p + n - 1]).is_some() {
                Ok(cs.push(channel_of(w[p + n - 1]).unwrap()))
            } else {
                Err(syntax_error(p + n - 1))
            },
        }
    }
}

/// `n` decimal numbers from `p` on.
pub open spec fn numbers_at(w: Seq<Seq<u8>>, p: int, n: nat) -> Result<Seq<Seq<u8>>, ParseError>
    decreases n,
{
    if n == 0 {
        Ok(Seq::empty())
    } else {
        match numbers_at(w, p, (n - 1) as nat) {
            Err(e) => Err(e),
            Ok(vs) => if number_at(w, p + n - 1) {
                Ok(vs.push(w[p + n - 1]))
            } else {
                Err(syntax_error(p + n - 1))
            },
        }
    }
}

/// `End Site { OFFSET x y z }` in the eight words from `p` on.
pub open spec fn end_site_at(w: Seq<Seq<u8>>, p: int) -> Result<OffsetModel, ParseError> {
    if !keyword_at(w, p, Keyword::End) {
        Err(syntax_error(p))
    } else if !keyword_at(w, p + 1, Keyword::Site) {
        Err(syntax_error(p + 1))
    } else if !keyword_at(w, p + 2, Keyword::Open) {
        Err(syntax_error(p + 2))
    } else {
        match offset_at(w, p + 3) {
            Err(e) => Err(e),
            Ok(offset) => if !keyword_at(w, p + 7, Keyword::Close) {
                Err(syntax_error(p + 7))
            } else {
                Ok(offset)
            },
        }
    }
}

/// A joint from its name at `p` to its closing brace: the joint and the
/// position after it. Below its channels stand either joints, each after the
/// keyword `JOINT`, or one end site.
pub open spec fn joint_at(w: Seq<Seq<u8>>, p: int) -> Result<(JointModel, int), ParseError>
    decreases w.len() - p, 1nat,
{
    if !(0 <= p < w.len() && is_name(w[p])) {
        Err(syntax_error(p))
    } else if !keyword_at(w, p + 1, Keyword::Open) {
        Err(syntax_error(p + 1))
    } else {
        match offset_at(w, p + 2) {
            Err(e) => Err(e),
            Ok(offset) => if !keyword_at(w, p + 6, Keyword::Channels) {
                Err(syntax_error(p + 6))
            } else {
                match count_at(w, p + 7) {
                    Err(e) => Err(e),
                    Ok(n) => match channels_at(w, p + 8, n) {
                        Err(e) => Err(e),
                        Ok(channels) => {
                            let q = p + 8 + n;
                            if keyword_at(w, q, Keyword::Joint) {
                                match joints_at(w, q) {
                                    Err(e) => Err(e),
                                    Ok((joints, r)) => if !keyword_at(w, r, Keyword::Close) {
                                        Err(syntax_error(r))
                                    } else {
                                        Ok(
                                            (
                                                JointModel {
                                                    name: w[p],
                                                    offset,
                                                    channels,
                                                    children: ChildrenModel::Joints(joints),
                                                },
                                                r + 1,
                                            ),
                                        )
                                    },
                                }
                            } else {
                                match end_site_at(w, q) {
                                    Err(e) => Err(e),
                                    Ok(site) => if !keyword_at(w, q + 8, Keyword::Close) {
                                        Err(syntax_error(q + 8))
                                    } else {
                                        Ok(
                                            (
                                                JointModel {
                                                    name: w[p],
                                                    offset,
                                                    channels,
                                                    children: ChildrenModel::EndSite(site),
                                                },
                                                q + 9,
                                            ),
                                        )
                                    },
                                }
                            }
                        },
                    },
                }
            },
        }
    }
}

/// The joints that stand one after another from `p` on, each after the
/// keyword `JOINT`, and the position of the first word after them.
pub open spec fn joints_at(w: Seq<Seq<u8>>, p: int) -> Result<(Seq<JointModel>, int), ParseError>
    decreases w.len() - p, 0nat,
{
    if keyword_at(w, p, Keyword::Joint) {
        match joint_at(w, p + 1) {
            Err(e) => Err(e),
            Ok((joint, q)) => if p < q <= w.len() {
                with_front(seq![joint], joints_at(w, q))
            } else {
                Ok((seq![joint], q))
            },
        }
    } else {
        Ok((Seq::empty(), p))
    }
}

/// Puts the joints `front` before those that `rest` found.
pub open spec fn with_front(
    front: Seq<JointModel>,
    rest: Result<(Seq<JointModel>, int), ParseError>,
) -> Result<(Seq<JointModel>, int), ParseError> {
    match rest {
        Err(e) => Err(e),
        Ok((joints, r)) => Ok((front + joints, r)),
    }
}

/// The motion section from the keyword `MOTION` at `p` to the end of the words.
pub open spec fn motion_at(w: Seq<Seq<u8>>, p: int) -> Result<MotionModel, ParseError> {
    if !keyword_at(w, p, Keyword::Motion) {
        Err(syntax_error(p))
    } else if !keyword_at(w, p + 1, Keyword::Frames) {
        Err(syntax_error(p + 1))
    } else {
        match count_at(w, p + 2) {
            Err(e) => Err(e),
            Ok(num_frames) => if !keyword_at(w, p + 3, Keyword::Frame) {
                Err(syntax_error(p + 3))
            } else if !keyword_at(w, p + 4, Keyword::Time) {
                Err(syntax_error(p + 4))
            } else if !number_at(w, p + 5) {
                Err(syntax_error(p + 5))
            } else {
                match numbers_at(w, p + 6, (w.len() - (p + 6)) as nat) {
                    Err(e) => Err(e),
                    Ok(frame_data) => Ok(MotionModel { num_frames, frame_time: w[p + 5], frame_data }),
                }
            },
        }
    }
}

/// A whole document: `HIERARCHY`, `ROOT`, the root joint, the motion section.
pub open spec fn document(w: Seq<Seq<u8>>) -> Result<BvhModel, ParseError> {
    if !keyword_at(w, 0, Keyword::Hierarchy) {
        Err(syntax_error(0))
    } else if !keyword_at(w, 1, Keyword::Root) {
        Err(syntax_error(1))
    } else {
        match joint_at(w, 2) {
            Err(e) => Err(e),
            Ok((root, q)) => match motion_at(w, q) {
                Err(e) => Err(e),
                Ok(motion) => Ok(BvhModel { root, motion }),
            },
        }
    }
}

/// Once a word is no channel name, every longer run of channels fails at it.
pub proof fn lemma_channels_fail(w: Seq<Seq<u8>>, p: int, i: nat, n: nat)
    requires
        i < n,
        channels_at(w, p, i).is_ok(),
        !(0 <= p + i < w.len() && channel_of(w[p + i]).is_some()),
    ensures
        channels_at(w, p, n) == Err::<Seq<Channel>, ParseError>(syntax_error(p + i)),
    decreases n,
{
    if n > i + 1 {
        lemma_channels_fail(w, p, i, (n - 1) as nat);
    }
}

/// Once a word is no number, every longer run of numbers fails at it.
pub proof fn lemma_numbers_fail(w: Seq<Seq<u8>>, p: int, i: nat, n: nat)
    requires
        i < n,
        numbers_at(w, p, i).is_ok(),
        !number_at(w, p + i),
    ensures
        numbers_at(w, p, n) == Err::<Seq<Seq<u8>>, ParseError>(syntax_error(p + i)),
    decreases n,
{
    if n > i + 1 {
        lemma_numbers_fail(w, p, i, (n - 1) as nat);
    }
}

} // verus!

//! The fixed vocabulary of a BVH document: its keywords and channel names.

use vstd::prelude::*;
use crate::literal::same_bytes;

verus! {

/// The words with a fixed meaning in a document.
#[derive(Clone, Copy, Debug, PartialEq, Eq)]
pub enum Keyword {
    /// `HIERARCHY`
    Hierarchy,
    /// `ROOT`
    Root,
    /// `JOINT`
    Joint,
    /// `OFFSET`
    Offset,
    /// `CHANNELS`
    Channels,
    /// `End`
    End,
    /// `Site`
    Site,
    /// `{`
    Open,
    /// `}`
    Close,
    /// `MOTION`
    Motion,
    /// `Frames:`
    Frames,
    /// `Frame`
    Frame,
    /// `Time:`
    Time,
}

impl Keyword {
    /// The keyword as it is written, in ASCII.
    pub open spec fn text(self) -> Seq<u8> {
        match self {
            Keyword::Hierarchy => seq![72u8, 73, 69, 82, 65, 82, 67, 72, 89],
            Keyword::Root => seq![82u8, 79, 79, 84],
            Keyword::Joint => seq![74u8, 79, 73, 78, 84],
            Keyword::Offset => seq![79u8, 70, 70, 83, 69, 84],
            Keyword::Channels => seq![67u8, 72, 65, 78, 78, 69, 76, 83],
            Keyword::End => seq![69u8, 110, 100],
            Keyword::Site => seq![83u8, 105, 116, 101],
            Keyword::Open => seq![123u8],
            Keyword::Close => seq![125u8],
            Keyword::Motion => seq![77u8, 79, 84, 73, 79, 78],
            Keyword::Frames => seq![70u8, 114, 97, 109, 101, 115, 58],
            Keyword::Frame => seq![70u8, 114, 97, 109, 101],
            Keyword::Time => seq![84u8, 105, 109, 101, 58],
        }
    }

    /// The keyword as it is written.
    pub fn bytes(self) -> (v: Vec<u8>)
        ensures
            v@ == self.text(),
    {
        match self {
            Keyword::Hierarchy => vec![72u8, 73, 69, 82, 65, 82, 67, 72, 89],
            Keyword::Root => vec![82u8, 79, 79, 84],
            Keyword::Joint => vec![74u8, 79, 73, 78, 84],
            Keyword::Offset => vec![79u8, 70, 70, 83, 69, 84],
            Keyword::Channels => vec![67u8, 72, 65, 78, 78, 69, 76, 83],
            Keyword::End => vec![69u8, 110, 100],
            Keyword::Site => vec![83u8, 105, 116, 101],
            Keyword::Open => vec![123u8],
            Keyword::Close => vec![125u8],
            Keyword::Motion => vec![77u8, 79, 84, 73, 79, 78],
            Keyword::Frames => vec![70u8, 114, 97, 109, 101, 115, 58],
            Keyword::Frame => vec![70u8, 114, 97, 109, 101],
            Keyword::Time => vec![84u8, 105, 109, 101, 58],
        }
    }

    /// Whether the word `w` is this keyword.
    pub fn matches(self, w: &[u8]) -> (r: bool)
        ensures
            r == (w@ == self.text()),
    {
        let v = self.bytes();
        same_bytes(w, v.as_slice())
    }
}

/// One animated degree of freedom of a joint.
#[derive(Clone, Copy, Debug, PartialEq, Eq)]
pub enum Channel {
    XPosition,
    YPosition,
    ZPosition,
    XRotation,
    YRotation,
    ZRotation,
}

impl Channel {
    /// The channel's name in a document (`Xposition` ... `Zrotation`), in ASCII.
    pub open spec fn text(self) -> Seq<u8> {
        match self {
            Channel::XPosition => seq![88u8, 112, 111, 115, 105, 116, 105, 111, 110],
            Channel::YPosition => seq![89u8, 112, 111, 115, 105, 116, 105, 111, 110],
            Channel::ZPosition => seq![90u8, 112, 111, 115, 105, 116, 105, 111, 110],
            Channel::XRotation => seq![88u8, 114, 111, 116, 97, 116, 105, 111, 110],
            Channel::YRotation => seq![89u8, 114, 111, 116, 97, 116, 105, 111, 110],
            Channel::ZRotation => seq![90u8, 114, 111, 116, 97, 116, 105, 111, 110],
        }
    }

    /// The channel's name in a document.
    pub fn bytes(self) -> (v: Vec<u8>)
        ensures
            v@ == self.text(),
    {
        match self {
            Channel::XPosition => vec![88u8, 112, 111, 115, 105, 116, 105, 111, 110],
            Channel::YPosition => vec![89u8, 112, 111, 115, 105, 116, 105, 111, 110],
            Channel::ZPosition => vec![90u8, 112, 111, 115, 105, 116, 105, 111, 110],
            Channel::XRotation => vec![88u8, 114, 111, 116, 97, 116, 105, 111, 110],
            Channel::YRotation => vec![89u8, 114, 111, 116, 97, 116, 105, 111, 110],
            Channel::ZRotation => vec![90u8, 114, 111, 116, 97, 116, 105, 111, 110],
        }
    }
}

/// The channel that a word names, if it names one.
pub open spec fn channel_of(w: Seq<u8>) -> Option<Channel> {
    if w == Channel::XPosition.text() {
        Some(Channel::XPosition)
    } else if w == Channel::YPosition.text() {
        Some(Channel::YPosition)
    } else if w == Channel::ZPosition.text() {
        Some(Channel::ZPosition)
    } else if w == Channel::XRotation.text() {
        Some(Channel::XRotation)
    } else if w == Channel::YRotation.text() {
        Some(Channel::YRotation)
    } else if w == Channel::ZRotation.text() {
        Some(Channel::ZRotation)
    } else {
        None
    }
}

/// Reads a channel name.
pub fn read_channel(w: &[u8]) -> (r: Option<Channel>)
    ensures
        r == channel_of(w@),
{
    if same_bytes(w, Channel::XPosition.bytes().as_slice()) {
        Some(Channel::XPosition)
    } else if same_bytes(w, Channel::YPosition.bytes().as_slice()) {
        Some(Channel::YPosition)
    } else if same_bytes(w, Channel::ZPosition.bytes().as_slice()) {
        Some(Channel::ZPosition)
    } else if same_bytes(w, Channel::XRotation.bytes().as_slice()) {
        Some(Channel::XRotation)
    } else if same_bytes(w, Channel::YRotation.bytes().as_slice()) {
        Some(Channel::YRotation)
    } else if same_bytes(w, Channel::ZRotation.bytes().as_slice()) {
        Some(Channel::ZRotation)
    } else {
        None
    }
}

/// Every channel is read back from its own name.
pub proof fn lemma_channel_name_reads_back(c: Channel)
    ensures
        channel_of(c.text()) == Some(c),
{
    assert(Channel::XPosition.text()[0] == 88 && Channel::YPosition.text()[0] == 89
        && Channel::ZPosition.text()[0] == 90);
    assert(Channel::XPosition.text()[1] == 112 && Channel::XRotation.text()[1] == 114);
    assert(Channel::YPosition.text()[1] == 112 && Channel::YRotation.text()[1] == 114);
    assert(Channel::ZPosition.text()[1] == 112 && Channel::ZRotation.text()[1] == 114);
    assert(Channel::XRotation.text()[0] == 88 && Channel::YRotation.text()[0] == 89
        && Channel::ZRotation.text()[0] == 90);
}

} // verus!

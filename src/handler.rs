//! The boundary to the application: what to send back for a decoded frame.
use vstd::prelude::*;
use vstd::string::StringSliceAdditionalSpecFns;
use crate::frame::{Frame, FrameView, OpCode, frames_view, server_frame};

verus! {

/// Supplies the reply frames for each decoded frame.
pub trait MessageHandler {
    /// The replies to `f`, in the order in which they are sent.
    spec fn replies_spec(&self, f: FrameView) -> Seq<FrameView>;

    fn replies(&self, f: &Frame) -> (r: Vec<Frame>)
        ensures
            frames_view(r@) == self.replies_spec(f@),
    ;
}

/// The text of the fixed reply.
pub const PLACEHOLDER_REPLY: &'static str = "Hi there!";

/// Answers every text frame with one fixed text frame, and nothing else.
#[derive(Clone, Copy, Debug)]
pub struct Placeholder;

impl MessageHandler for Placeholder {
    open spec fn replies_spec(&self, f: FrameView) -> Seq<FrameView> {
        if f.opcode == OpCode::Text {
            seq![server_frame(true, OpCode::Text, PLACEHOLDER_REPLY.spec_bytes())]
        } else {
            seq![]
        }
    }

    fn replies(&self, f: &Frame) -> (r: Vec<Frame>)
        ensures
            frames_view(r@) == self.replies_spec(f@),
    {
        let mut r: Vec<Frame> = Vec::new();
        if f.opcode == OpCode::Text {
            let mut payload: Vec<u8> = Vec::new();
            crate::handshake::append_bytes(&mut payload, PLACEHOLDER_REPLY.as_bytes());
            r.push(Frame::text(payload));
        }
        assert(frames_view(r@) =~= self.replies_spec(f@));
        r
    }
}

} // verus!

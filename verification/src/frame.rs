//! The frame model: the typed units of the wire protocol that the codec
//! collaborator hands over and takes back, and their mathematical view.
use vstd::prelude::*;

verus! {

broadcast use vstd::std_specs::vec::axiom_vec_decreases_to_view;

/// Mathematical value of a frame: strings and byte strings become sequences,
/// arrays become sequences of frame values.
pub enum FrameVal {
    Null,
    Integer(i64),
    Simple(Seq<char>),
    Error(Seq<char>),
    Bulk(Seq<u8>),
    Array(Seq<FrameVal>),
}

/// A unit of the wire protocol, already decoded by the codec collaborator:
/// the core never sees raw request bytes.
#[derive(Debug, PartialEq)]
pub enum RespFrame {
    Null,
    Integer(i64),
    SimpleString(String),
    Error(String),
    BulkString(Vec<u8>),
    Array(RespArray),
}

/// An array frame: the shape every request arrives in.
#[derive(Debug, PartialEq)]
pub struct RespArray(pub Vec<RespFrame>);

/// Values of a sequence of frames, elementwise.
pub open spec fn frames_view(s: Seq<RespFrame>) -> Seq<FrameVal>
    decreases s,
{
    if s.len() == 0 {
        Seq::empty()
    } else {
        seq![s[0]@] + frames_view(s.drop_first())
    }
}

impl View for RespFrame {
    type V = FrameVal;

    open spec fn view(&self) -> FrameVal
        decreases self,
    {
        match self {
            RespFrame::Null => FrameVal::Null,
            RespFrame::Integer(i) => FrameVal::Integer(*i),
            RespFrame::SimpleString(s) => FrameVal::Simple(s@),
            RespFrame::Error(s) => FrameVal::Error(s@),
            RespFrame::BulkString(b) => FrameVal::Bulk(b@),
            RespFrame::Array(a) => FrameVal::Array(frames_view(a.0@)),
        }
    }
}

impl View for RespArray {
    type V = Seq<FrameVal>;

    open spec fn view(&self) -> Seq<FrameVal> {
        frames_view(self.0@)
    }
}

/// The value of a frame sequence is the sequence of the frames' values.
pub proof fn lemma_frames_view(s: Seq<RespFrame>)
    ensures
        frames_view(s).len() == s.len(),
        forall|i: int| 0 <= i < s.len() ==> frames_view(s)[i] == s[i]@,
    decreases s,
{
    if s.len() > 0 {
        lemma_frames_view(s.drop_first());
        assert(frames_view(s) == seq![s[0]@] + frames_view(s.drop_first()));
        assert(frames_view(s).len() == 1 + frames_view(s.drop_first()).len());
        assert forall|i: int| 0 <= i < s.len() implies frames_view(s)[i] == s[i]@ by {
            if i > 0 {
                assert(frames_view(s) == seq![s[0]@] + frames_view(s.drop_first()));
                assert((seq![s[0]@] + frames_view(s.drop_first()))[i]
                    == frames_view(s.drop_first())[i - 1]);
                assert(s.drop_first()[i - 1] == s[i]);
            }
        }
    }
}

impl Clone for RespFrame {
    /// A cloned frame has the same value.
    fn clone(&self) -> (r: Self)
        ensures
            r@ == self@,
        decreases self,
    {
        match self {
            RespFrame::Null => RespFrame::Null,
            RespFrame::Integer(i) => RespFrame::Integer(*i),
            RespFrame::SimpleString(s) => RespFrame::SimpleString(s.clone()),
            RespFrame::Error(s) => RespFrame::Error(s.clone()),
            RespFrame::BulkString(b) => RespFrame::BulkString(b.clone()),
            RespFrame::Array(a) => RespFrame::Array(a.clone()),
        }
    }
}

impl Clone for RespArray {
    /// A cloned array has the same value, elementwise.
    fn clone(&self) -> (r: Self)
        ensures
            r@ == self@,
        decreases self,
    {
        let mut out: Vec<RespFrame> = Vec::new();
        let mut i: usize = 0;
        proof {
            lemma_frames_view(self.0@);
        }
        while i < self.0.len()
            invariant
                i <= self.0.len(),
                out@.len() == i,
                forall|k: int| 0 <= k < i ==> out@[k]@ == self.0@[k]@,
            decreases self.0.len() - i,
        {
            out.push(self.0[i].clone());
            i = i + 1;
        }
        proof {
            lemma_frames_view(out@);
            assert(frames_view(out@) =~= frames_view(self.0@));
        }
        RespArray(out)
    }
}

impl RespArray {
    pub fn new(frames: Vec<RespFrame>) -> (r: RespArray)
        ensures
            r.0 == frames,
    {
        RespArray(frames)
    }
}

/// Appending a frame appends its value.
pub proof fn lemma_frames_view_push(s: Seq<RespFrame>, x: RespFrame)
    ensures
        frames_view(s.push(x)) == frames_view(s).push(x@),
{
    lemma_frames_view(s);
    lemma_frames_view(s.push(x));
    assert(frames_view(s.push(x)) =~= frames_view(s).push(x@));
}

/// The canonical success status frame, reused by every write command.
pub open spec fn ok_frame() -> FrameVal {
    FrameVal::Simple("OK"@)
}

/// Builds the fixed "OK" status frame.
pub fn resp_ok() -> (r: RespFrame)
    ensures
        r@ == ok_frame(),
{
    RespFrame::SimpleString("OK".to_owned())
}

} // verus!

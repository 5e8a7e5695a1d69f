//! Chat messages as the bot sends them: a run of text and image segments.

use vstd::prelude::*;

verus! {

/// One part of a chat message.
#[derive(Clone, Debug, PartialEq, Eq)]
pub enum Segment {
    /// Plain text.
    Text(String),
    /// An image, given by its URL.
    Image(String),
}

/// What a segment holds, as plain values.
pub enum SegmentView {
    Text(Seq<char>),
    Image(Seq<char>),
}

impl View for Segment {
    type V = SegmentView;

    open spec fn view(&self) -> SegmentView {
        match self {
            Segment::Text(t) => SegmentView::Text(t@),
            Segment::Image(u) => SegmentView::Image(u@),
        }
    }
}

/// What a whole message holds, segment by segment.
pub open spec fn message_view(m: Seq<Segment>) -> Seq<SegmentView> {
    m.map_values(|s: Segment| s@)
}

impl Segment {
    /// A copy of this segment.
    pub fn duplicate(&self) -> (r: Segment)
        ensures
            r@ == self@,
    {
        match self {
            Segment::Text(t) => Segment::Text(t.clone()),
            Segment::Image(u) => Segment::Image(u.clone()),
        }
    }
}

/// A copy of a message.
pub fn copy_message(m: &Vec<Segment>) -> (r: Vec<Segment>)
    ensures
        message_view(r@) == message_view(m@),
{
    let mut out: Vec<Segment> = Vec::new();
    for i in 0..m.len()
        invariant
            out@.len() == i,
            forall|j: int| 0 <= j < i ==> (#[trigger] out@[j])@ == m@[j]@,
    {
        out.push(m[i].duplicate());
    }
    proof {
        assert(message_view(out@) =~= message_view(m@));
    }
    out
}

/// `a` followed by `b`, as a new text.
pub fn join2(a: &str, b: &str) -> (r: String)
    ensures
        r@ == a@ + b@,
{
    let mut out = a.to_string();
    out.append(b);
    out
}

/// `a`, `b` and `c` one after the other, as a new text.
pub fn join3(a: &str, b: &str, c: &str) -> (r: String)
    ensures
        r@ == a@ + b@ + c@,
{
    let mut out = a.to_string();
    out.append(b);
    out.append(c);
    out
}

} // verus!

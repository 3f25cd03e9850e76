//! A segment: one field of fixed width in the layout of a message.

use vstd::prelude::*;
use vstd::string::*;
use crate::config::{ConfigValue, text_or_empty, unsigned_or_zero};

verus! {

/// One fixed-width field of a message layout.
pub struct Segment {
    name: String,
    desc: String,
    bits: u8,
}

/// What a segment is: its name, its description and its width in bits.
pub struct SegmentView {
    pub name: Seq<char>,
    pub desc: Seq<char>,
    pub bits: u8,
}

/// The segment that a configuration value describes: `name` and `desc` as
/// text, `bits` as a number cut to its low eight bits.
pub open spec fn segment_of(map: ConfigValue) -> SegmentView {
    SegmentView {
        name: text_or_empty(map.member("name"@)),
        desc: text_or_empty(map.member("desc"@)),
        bits: (unsigned_or_zero(map.member("bits"@)) % 256) as u8,
    }
}

impl View for Segment {
    type V = SegmentView;

    closed spec fn view(&self) -> SegmentView {
        SegmentView { name: self.name@, desc: self.desc@, bits: self.bits }
    }
}

impl Segment {
    /// A segment without a name, of width 0.
    pub fn new() -> (segment: Segment)
        ensures
            segment@ == (SegmentView { name: Seq::empty(), desc: Seq::empty(), bits: 0 }),
    {
        Segment { name: String::new(), desc: String::new(), bits: 0 }
    }

    /// Sets the segment's fields from a configuration value.
    pub fn from_map(&mut self, map: &ConfigValue)
        ensures
            final(self)@ == segment_of(*map),
    {
        self.name = map.text_of("name");
        self.desc = map.text_of("desc");
        self.bits = (map.unsigned_of("bits") % 256) as u8;
    }

    pub fn get_name(&self) -> (name: &String)
        ensures
            name@ == self@.name,
    {
        &self.name
    }

    pub fn get_desc(&self) -> (desc: &String)
        ensures
            desc@ == self@.desc,
    {
        &self.desc
    }

    pub fn get_bits(&self) -> (bits: u8)
        ensures
            bits == self@.bits,
    {
        self.bits
    }
}

impl Default for Segment {
    fn default() -> (segment: Segment)
        ensures
            segment@ == (SegmentView { name: Seq::empty(), desc: Seq::empty(), bits: 0 }),
    {
        Segment::new()
    }
}

impl Clone for Segment {
    fn clone(&self) -> (copy: Segment)
        ensures
            copy@ == self@,
    {
        Segment { name: self.name.clone(), desc: self.desc.clone(), bits: self.bits }
    }
}

/// The views of a sequence of segments, in order.
pub open spec fn segment_views(segments: Seq<Segment>) -> Seq<SegmentView> {
    Seq::new(segments.len(), |i: int| segments[i]@)
}

/// The segments that the items of a list describe, in order.
pub open spec fn segments_of(items: Seq<ConfigValue>) -> Seq<SegmentView> {
    Seq::new(items.len(), |i: int| segment_of(items[i]))
}

/// Copies a list of segments.
pub fn clone_segments(segments: &Vec<Segment>) -> (copy: Vec<Segment>)
    ensures
        segment_views(copy@) == segment_views(segments@),
{
    let mut copy: Vec<Segment> = Vec::new();
    let mut i: usize = 0;
    while i < segments.len()
        invariant
            i <= segments@.len(),
            copy@.len() == i,
            forall|k: int| 0 <= k < i ==> (#[trigger] copy@[k])@ == segments@[k]@,
        decreases segments@.len() - i,
    {
        copy.push(segments[i].clone());
        i += 1;
    }
    assert(segment_views(copy@) =~= segment_views(segments@));
    copy
}

} // verus!

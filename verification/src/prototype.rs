//! A prototype: a named message template with one list of segments for
//! each direction.

use vstd::prelude::*;
use vstd::string::*;
use crate::config::{ConfigError, ConfigFault, ConfigValue, items_or_none, text_or_empty};
use crate::segment::{Segment, SegmentView, clone_segments, segment_of, segment_views, segments_of};
use crate::text::str_eq;

verus! {

/// A named message template.
pub struct Prototype {
    name: String,
    desc: String,
    tx_segments: Vec<Segment>,
    rx_segments: Vec<Segment>,
}

/// What a prototype is: its name, its description and the segments of the
/// two directions, in order.
pub struct PrototypeView {
    pub name: Seq<char>,
    pub desc: Seq<char>,
    pub transmit: Seq<SegmentView>,
    pub receive: Seq<SegmentView>,
}

/// The segments of a prototype for a direction, `transmit` or `receive`;
/// none for any other word.
pub open spec fn segments_for(prototype: PrototypeView, direction: Seq<char>) -> Seq<SegmentView> {
    if direction == "transmit"@ {
        prototype.transmit
    } else if direction == "receive"@ {
        prototype.receive
    } else {
        Seq::empty()
    }
}

/// What a prototype becomes when it is set up from a configuration value.
/// The value must have a `name`, and a list of at least one segment under
/// `transmit` and under `receive`; `desc` replaces the prototype's own
/// where the value has one. The error for missing segments names the
/// prototype.
pub open spec fn prototype_of(before: PrototypeView, map: ConfigValue) -> Result<
    PrototypeView,
    ConfigFault,
> {
    if map.member("name"@).is_none() {
        Err(ConfigFault::PrototypeNameMissing)
    } else if items_or_none(map.member("transmit"@)).len() == 0 {
        Err(ConfigFault::TransmitSegmentsMissing(text_or_empty(map.member("name"@))))
    } else if items_or_none(map.member("receive"@)).len() == 0 {
        Err(ConfigFault::ReceiveSegmentsMissing(text_or_empty(map.member("name"@))))
    } else {
        Ok(
            PrototypeView {
                name: text_or_empty(map.member("name"@)),
                desc: if map.member("desc"@).is_some() {
                    text_or_empty(map.member("desc"@))
                } else {
                    before.desc
                },
                transmit: segments_of(items_or_none(map.member("transmit"@))),
                receive: segments_of(items_or_none(map.member("receive"@))),
            },
        )
    }
}

impl View for Prototype {
    type V = PrototypeView;

    closed spec fn view(&self) -> PrototypeView {
        PrototypeView {
            name: self.name@,
            desc: self.desc@,
            transmit: segment_views(self.tx_segments@),
            receive: segment_views(self.rx_segments@),
        }
    }
}

impl Prototype {
    /// A prototype without name or segments.
    pub fn new() -> (prototype: Prototype)
        ensures
            prototype@ == (PrototypeView {
                name: Seq::empty(),
                desc: Seq::empty(),
                transmit: Seq::empty(),
                receive: Seq::empty(),
            }),
    {
        let prototype = Prototype {
            name: String::new(),
            desc: String::new(),
            tx_segments: Vec::new(),
            rx_segments: Vec::new(),
        };
        assert(segment_views(prototype.tx_segments@) =~= Seq::<SegmentView>::empty());
        assert(segment_views(prototype.rx_segments@) =~= Seq::<SegmentView>::empty());
        prototype
    }

    /// Sets the prototype up from a configuration value. A value that is
    /// rejected leaves the prototype as it was.
    pub fn from_map(&mut self, map: &ConfigValue) -> (result: Result<(), ConfigError>)
        ensures
            match prototype_of(old(self)@, *map) {
                Ok(prototype) => result.is_ok() && final(self)@ == prototype,
                Err(e) => result is Err && result->Err_0@ == e && final(self)@ == old(self)@,
            },
    {
        if map.get("name").is_none() {
            return Err(ConfigError::PrototypeNameMissing);
        }
        let transmit = Self::init_segments("transmit", map);
        assert(segment_views(transmit@).len() == transmit@.len());
        if transmit.len() == 0 {
            return Err(ConfigError::TransmitSegmentsMissing(map.text_of("name")));
        }
        let receive = Self::init_segments("receive", map);
        assert(segment_views(receive@).len() == receive@.len());
        if receive.len() == 0 {
            return Err(ConfigError::ReceiveSegmentsMissing(map.text_of("name")));
        }
        self.name = map.text_of("name");
        if map.get("desc").is_some() {
            self.desc = map.text_of("desc");
        }
        self.tx_segments = transmit;
        self.rx_segments = receive;
        Ok(())
    }

    /// The segments listed under the given key of a configuration value;
    /// none where the key is missing or holds no list.
    pub fn init_segments(name: &str, map: &ConfigValue) -> (segments: Vec<Segment>)
        ensures
            segment_views(segments@) == segments_of(items_or_none(map.member(name@))),
    {
        let mut segments: Vec<Segment> = Vec::new();
        match map.get(name) {
            Some(ConfigValue::List(items)) => {
                let mut i: usize = 0;
                while i < items.len()
                    invariant
                        i <= items@.len(),
                        segments@.len() == i,
                        forall|k: int|
                            0 <= k < i ==> (#[trigger] segments@[k])@ == segment_of(items@[k]),
                    decreases items@.len() - i,
                {
                    let mut segment = Segment::new();
                    segment.from_map(&items[i]);
                    segments.push(segment);
                    i += 1;
                }
                assert(segment_views(segments@) =~= segments_of(items@));
            },
            _ => {
                assert(segment_views(segments@) =~= Seq::<SegmentView>::empty());
                assert(segments_of(Seq::<ConfigValue>::empty()) =~= Seq::<SegmentView>::empty());
            },
        }
        segments
    }

    pub fn get_name(&self) -> (name: &str)
        ensures
            name@ == self@.name,
    {
        self.name.as_str()
    }

    pub fn get_desc(&self) -> (desc: &str)
        ensures
            desc@ == self@.desc,
    {
        self.desc.as_str()
    }

    /// A copy of the segments of a direction.
    pub fn get_segments(&self, direction: &str) -> (segments: Vec<Segment>)
        ensures
            segment_views(segments@) == segments_for(self@, direction@),
    {
        if str_eq(direction, "transmit") {
            clone_segments(&self.tx_segments)
        } else if str_eq(direction, "receive") {
            clone_segments(&self.rx_segments)
        } else {
            let none: Vec<Segment> = Vec::new();
            assert(segment_views(none@) =~= Seq::<SegmentView>::empty());
            none
        }
    }
}

impl Default for Prototype {
    fn default() -> (prototype: Prototype)
        ensures
            prototype@ == (PrototypeView {
                name: Seq::empty(),
                desc: Seq::empty(),
                transmit: Seq::empty(),
                receive: Seq::empty(),
            }),
    {
        Prototype::new()
    }
}

impl Clone for Prototype {
    fn clone(&self) -> (copy: Prototype)
        ensures
            copy@ == self@,
    {
        Prototype {
            name: self.name.clone(),
            desc: self.desc.clone(),
            tx_segments: clone_segments(&self.tx_segments),
            rx_segments: clone_segments(&self.rx_segments),
        }
    }
}

/// The views of a sequence of prototypes, in order.
pub open spec fn prototype_views(prototypes: Seq<Prototype>) -> Seq<PrototypeView> {
    Seq::new(prototypes.len(), |i: int| prototypes[i]@)
}

} // verus!

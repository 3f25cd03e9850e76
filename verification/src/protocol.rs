//! The protocol: it owns the prototypes and the devices, builds the
//! messages of each device from the matching prototype, and runs the
//! simulated transactions.

use vstd::prelude::*;
use vstd::string::*;
use vstd::utf8::encode_utf8;
use crate::checksum::{
    Checksum,
    ChecksumKind,
    body_after,
    checksum_bytes,
    checksum_of,
    checksum_size,
    lemma_checksummed_message_is_valid,
    kind_named,
    message_is_valid,
};
use crate::config::{
    ConfigError,
    ConfigFault,
    ConfigValue,
    items_or_none,
    text_or_empty,
    unsigned_or_zero,
};
use crate::conversion::{Conversion, allowed, lemma_encode_upto_shape, lemma_wire_round_trip};
use crate::device::{Device, DeviceView, device_of, device_views};
use crate::encoder::{big_endian, encode_value, little_endian, random_bytes};
use crate::message::{
    FieldValue,
    Message,
    MessageView,
    clone_messages,
    data_byte_count,
    lookup,
    message_views,
    number_of,
};
use crate::prototype::{Prototype, PrototypeView, prototype_of, prototype_views, segments_for};
use crate::segment::{Segment, SegmentView, segment_views};
use crate::simulation::Simulation;
use crate::text::{str_eq, lowercase_of};

verus! {

/// A protocol with its framing, its prototypes and its devices.
pub struct Protocol {
    prefix: String,
    suffix: String,
    timeout: u32,
    source_address: u32,
    transmission_mode: String,
    checksum_calculation: String,
    prototypes: Vec<Prototype>,
    devices: Vec<Device>,
    conversion: Conversion,
    checksum: Checksum,
    simulation: Simulation,
}

/// Why a transaction failed.
#[derive(Clone, Copy, Debug, PartialEq, Eq, Structural)]
pub enum TransactionError {
    /// No prototype has the message's name.
    PrototypeNotFound,
    /// The message built for the receive direction is empty.
    NothingReceived,
    /// The transport was given an empty buffer.
    SimulationFailed,
    /// The checksum kind is unknown, so its size is 0.
    ChecksumUnavailable,
    /// The received message does not carry the checksum of its body.
    ChecksumMismatch,
}

/// One transaction as it was run: what was received and what came of it.
pub struct Transaction {
    /// The message built for the receive direction; empty where no
    /// prototype has the message's name.
    pub received: Vec<u8>,
    pub outcome: Result<bool, TransactionError>,
}

/// The views of a sequence of byte vectors, in order.
pub open spec fn filler_views(fillers: Seq<Vec<u8>>) -> Seq<Seq<u8>> {
    Seq::new(fillers.len(), |i: int| fillers[i]@)
}

/// The bytes that one segment adds to a message that holds `so_far`:
/// the device's address, the checksum of what follows the prefix in
/// `so_far`, the message's payload byte count, the filler, or the value of
/// the field of the segment's name. A segment of any other name adds
/// nothing.
pub open spec fn segment_bytes(
    kind: ChecksumKind,
    prefix: Seq<char>,
    segment: SegmentView,
    message: MessageView,
    address: u32,
    so_far: Seq<u8>,
    filler: Seq<u8>,
) -> Seq<u8> {
    let width = (segment.bits / 8) as nat;
    if segment.name == "slave_address"@ {
        big_endian(address as u64, width)
    } else if segment.name == "error_check"@ {
        big_endian(checksum_of(kind, body_after(so_far, encode_utf8(prefix).len())) as u64, width)
    } else if segment.name == "byte_count"@ {
        big_endian(data_byte_count(message.fields) as u64, width)
    } else if segment.name == "data_bytes"@ {
        filler
    } else if lookup(message.fields, segment.name).is_some() {
        big_endian(number_of(lookup(message.fields, segment.name)), width)
    } else {
        Seq::empty()
    }
}

/// The message after the first `n` segments have been added to `start`,
/// segment `i` with filler `fillers[i]`.
pub open spec fn body_upto(
    kind: ChecksumKind,
    prefix: Seq<char>,
    segments: Seq<SegmentView>,
    message: MessageView,
    address: u32,
    start: Seq<u8>,
    fillers: Seq<Seq<u8>>,
    n: int,
) -> Seq<u8>
    decreases n,
{
    if n <= 0 {
        start
    } else {
        let before = body_upto(kind, prefix, segments, message, address, start, fillers, n - 1);
        before + segment_bytes(
            kind,
            prefix,
            segments[n - 1],
            message,
            address,
            before,
            fillers[n - 1],
        )
    }
}

/// The canonical message: the prefix, the bytes of all segments, the
/// suffix.
pub open spec fn canonical_message(
    kind: ChecksumKind,
    prefix: Seq<char>,
    suffix: Seq<char>,
    segments: Seq<SegmentView>,
    message: MessageView,
    address: u32,
    fillers: Seq<Seq<u8>>,
) -> Seq<u8> {
    body_upto(
        kind,
        prefix,
        segments,
        message,
        address,
        encode_utf8(prefix),
        fillers,
        segments.len() as int,
    ) + encode_utf8(suffix)
}

/// Whether there is one filler for each segment, and that of each
/// `data_bytes` segment has the message's payload byte count.
pub open spec fn fillers_fit(
    segments: Seq<SegmentView>,
    message: MessageView,
    fillers: Seq<Seq<u8>>,
) -> bool {
    &&& fillers.len() == segments.len()
    &&& forall|i: int|
        0 <= i < segments.len() && segments[i].name == "data_bytes"@ ==> (
        #[trigger] fillers[i]).len() == data_byte_count(message.fields)
}

/// The index of the first prototype of the given name.
pub open spec fn prototype_index(prototypes: Seq<PrototypeView>, name: Seq<char>) -> Option<int>
    decreases prototypes.len(),
{
    if prototypes.len() == 0 {
        None
    } else {
        match prototype_index(prototypes.drop_last(), name) {
            Some(i) => Some(i),
            None => if prototypes.last().name == name {
                Some(prototypes.len() - 1)
            } else {
                None
            },
        }
    }
}

/// A prototype that has not been set up.
pub open spec fn fresh_prototype() -> PrototypeView {
    PrototypeView {
        name: Seq::empty(),
        desc: Seq::empty(),
        transmit: Seq::empty(),
        receive: Seq::empty(),
    }
}

/// A device that has not been set up.
pub open spec fn fresh_device() -> DeviceView {
    DeviceView { name: Seq::empty(), address: 0, messages: Seq::empty() }
}

/// The prototypes that the items of a list describe, in order; the error
/// of the first item that is rejected, where there is one.
pub open spec fn prototypes_of(items: Seq<ConfigValue>) -> Result<Seq<PrototypeView>, ConfigFault>
    decreases items.len(),
{
    if items.len() == 0 {
        Ok(Seq::empty())
    } else {
        match prototypes_of(items.drop_last()) {
            Err(e) => Err(e),
            Ok(earlier) => match prototype_of(fresh_prototype(), items.last()) {
                Err(e) => Err(e),
                Ok(prototype) => Ok(earlier.push(prototype)),
            },
        }
    }
}

/// The devices that the items of a list describe, in order; the error of
/// the first item that is rejected, where there is one.
pub open spec fn devices_of(items: Seq<ConfigValue>) -> Result<Seq<DeviceView>, ConfigFault>
    decreases items.len(),
{
    if items.len() == 0 {
        Ok(Seq::empty())
    } else {
        match devices_of(items.drop_last()) {
            Err(e) => Err(e),
            Ok(earlier) => match device_of(fresh_device(), items.last()) {
                Err(e) => Err(e),
                Ok(device) => Ok(earlier.push(device)),
            },
        }
    }
}

/// The prototypes and devices that a protocol's configuration declares.
/// It is rejected where a prototype is, where it declares no prototype,
/// where a device is rejected, or where it declares no device: the first
/// of these that applies gives the error.
pub open spec fn lists_of(map: ConfigValue) -> Result<
    (Seq<PrototypeView>, Seq<DeviceView>),
    ConfigFault,
> {
    match prototypes_of(items_or_none(map.member("prototype"@))) {
        Err(e) => Err(e),
        Ok(prototypes) => if prototypes.len() == 0 {
            Err(ConfigFault::PrototypesMissing)
        } else {
            match devices_of(items_or_none(map.member("device"@))) {
                Err(e) => Err(e),
                Ok(devices) => if devices.len() == 0 {
                    Err(ConfigFault::DevicesMissing)
                } else {
                    Ok((prototypes, devices))
                },
            }
        },
    }
}

/// A text setting: the member of the given key where the configuration has
/// one (empty where it is not text), else what was set before.
pub open spec fn text_setting(map: ConfigValue, key: Seq<char>, before: Seq<char>) -> Seq<char> {
    if map.member(key).is_some() {
        text_or_empty(map.member(key))
    } else {
        before
    }
}

/// A number setting: the member of the given key, cut to 32 bits, where the
/// configuration has one (0 where it is no such number), else what was set
/// before.
pub open spec fn number_setting(map: ConfigValue, key: Seq<char>, before: u32) -> u32 {
    if map.member(key).is_some() {
        (unsigned_or_zero(map.member(key)) % 0x1_0000_0000) as u32
    } else {
        before
    }
}

/// The place among the outcomes of a run of the transaction of round `r`
/// for message `m` of device `d`.
pub open spec fn outcome_place(devices: Seq<DeviceView>, r: int, d: int, m: int) -> int {
    r * message_count(devices) + message_count(devices.take(d)) + m
}

/// The number of messages of all the devices together.
pub open spec fn message_count(devices: Seq<DeviceView>) -> nat
    decreases devices.len(),
{
    if devices.len() == 0 {
        0
    } else {
        message_count(devices.drop_last()) + devices.last().messages.len()
    }
}

impl Default for Protocol {
    fn default() -> (protocol: Protocol)
        ensures
            protocol.prototypes() == Seq::<PrototypeView>::empty(),
            protocol.devices() == Seq::<DeviceView>::empty(),
            protocol.conversion().mode() == Seq::<char>::empty(),
            protocol.checksum().kind() == ChecksumKind::Unknown,
    {
        Protocol::new()
    }
}

impl Protocol {
    /// The literal bytes that open every message.
    pub closed spec fn prefix(&self) -> Seq<char> {
        self.prefix@
    }

    /// The literal bytes that close every message.
    pub closed spec fn suffix(&self) -> Seq<char> {
        self.suffix@
    }

    pub closed spec fn timeout(&self) -> u32 {
        self.timeout
    }

    pub closed spec fn source_address(&self) -> u32 {
        self.source_address
    }

    /// The name of the transmission mode, as configured.
    pub closed spec fn transmission_mode(&self) -> Seq<char> {
        self.transmission_mode@
    }

    /// The name of the checksum algorithm, as configured.
    pub closed spec fn checksum_calculation(&self) -> Seq<char> {
        self.checksum_calculation@
    }

    pub closed spec fn prototypes(&self) -> Seq<PrototypeView> {
        prototype_views(self.prototypes@)
    }

    pub closed spec fn devices(&self) -> Seq<DeviceView> {
        device_views(self.devices@)
    }

    /// The transcoder between canonical and wire form.
    pub closed spec fn conversion(&self) -> Conversion {
        self.conversion
    }

    pub closed spec fn checksum(&self) -> Checksum {
        self.checksum
    }

    /// The stand-in for the transport.
    pub closed spec fn simulation(&self) -> Simulation {
        self.simulation
    }

    /// Whether the checksum and the transport work in the protocol's own
    /// transmission mode. A new protocol is coherent, and configuring and
    /// running keep it so.
    pub open spec fn is_coherent(&self) -> bool {
        &&& self.checksum().conversion().mode() == self.conversion().mode()
        &&& self.simulation().conversion().mode() == self.conversion().mode()
    }

    /// Whether two protocols agree in all but their devices.
    pub open spec fn same_settings(&self, other: &Protocol) -> bool {
        &&& self.prefix() == other.prefix()
        &&& self.suffix() == other.suffix()
        &&& self.timeout() == other.timeout()
        &&& self.source_address() == other.source_address()
        &&& self.transmission_mode() == other.transmission_mode()
        &&& self.checksum_calculation() == other.checksum_calculation()
        &&& self.prototypes() == other.prototypes()
        &&& self.conversion() == other.conversion()
        &&& self.checksum() == other.checksum()
        &&& self.simulation() == other.simulation()
    }

    /// The wire form of the message that a list of segments gives for a
    /// message of a device at `address`.
    pub open spec fn wire_message(
        &self,
        segments: Seq<SegmentView>,
        message: MessageView,
        address: u32,
        fillers: Seq<Seq<u8>>,
    ) -> Seq<u8> {
        self.conversion().wire_form(
            canonical_message(
                self.checksum().kind(),
                self.prefix(),
                self.suffix(),
                segments,
                message,
                address,
                fillers,
            ),
            self.prefix(),
            self.suffix(),
        )
    }

    /// Whether `wire` is a message that the segments give, for some choice
    /// of the filler bytes.
    pub open spec fn is_built(
        &self,
        segments: Seq<SegmentView>,
        message: MessageView,
        address: u32,
        wire: Seq<u8>,
    ) -> bool {
        exists|fillers: Seq<Seq<u8>>|
            fillers_fit(segments, message, fillers) && wire == #[trigger] self.wire_message(
                segments,
                message,
                address,
                fillers,
            )
    }

    /// The bytes of `value` at a width of `byte_count`, high byte first; or,
    /// where `random` is set, that many filler bytes.
    pub fn push_bytes(&self, value: u64, byte_count: u32, random: bool) -> (bytes: Vec<u8>)
        ensures
            bytes@.len() == byte_count,
            !random ==> bytes@ == big_endian(value, byte_count as nat),
    {
        if random {
            return random_bytes(byte_count);
        }
        encode_value(value, byte_count)
    }

    /// Adds the bytes of a string to a buffer.
    pub fn append_str_to_byte_array(&self, data: &mut Vec<u8>, append_str: &str)
        ensures
            final(data)@ == old(data)@ + encode_utf8(append_str@),
    {
        let bytes = append_str.as_bytes();
        let mut i: usize = 0;
        while i < bytes.len()
            invariant
                i <= bytes@.len(),
                bytes@ == encode_utf8(append_str@),
                data@ == old(data)@ + bytes@.take(i as int),
            decreases bytes@.len() - i,
        {
            data.push(bytes[i]);
            i += 1;
            assert(data@ =~= old(data)@ + bytes@.take(i as int));
        }
        assert(bytes@.take(i as int) =~= bytes@);
    }

    /// The bytes that a segment adds to the message `msg` built so far;
    /// `filler` is what a `data_bytes` segment adds.
    pub fn get_value_byte_array(
        &self,
        segment: &Segment,
        message: &Message,
        device: &Device,
        msg: &Vec<u8>,
        filler: &Vec<u8>,
    ) -> (bytes: Vec<u8>)
        ensures
            bytes@ == segment_bytes(
                self.checksum().kind(),
                self.prefix(),
                segment@,
                message@,
                device@.address,
                msg@,
                filler@,
            ),
    {
        let name = segment.get_name().as_str();
        let width: u32 = (segment.get_bits() / 8) as u32;
        if str_eq(name, "slave_address") {
            return encode_value(device.get_address() as u64, width);
        }
        if str_eq(name, "error_check") {
            let checksum: u16 = self.checksum.calculate_checksum(msg, self.prefix.as_str());
            return encode_value(checksum as u64, width);
        }
        if str_eq(name, "byte_count") {
            return encode_value(message.get_data_byte_count() as u64, width);
        }
        if str_eq(name, "data_bytes") {
            return filler.clone();
        }
        match message.get_field(name) {
            Some(FieldValue::Unsigned(n)) => encode_value(*n, width),
            Some(_) => encode_value(0, width),
            None => Vec::new(),
        }
    }

    /// Adds the bytes of each segment in turn to the message built so far.
    pub fn append_segments_to_byte_array(
        &self,
        msg: &mut Vec<u8>,
        segments: &Vec<Segment>,
        message: &Message,
        device: &Device,
        fillers: &Vec<Vec<u8>>,
    )
        requires
            fillers@.len() == segments@.len(),
        ensures
            final(msg)@ == body_upto(
                self.checksum().kind(),
                self.prefix(),
                segment_views(segments@),
                message@,
                device@.address,
                old(msg)@,
                filler_views(fillers@),
                segments@.len() as int,
            ),
    {
        let mut i: usize = 0;
        while i < segments.len()
            invariant
                i <= segments@.len(),
                fillers@.len() == segments@.len(),
                msg@ == body_upto(
                    self.checksum().kind(),
                    self.prefix(),
                    segment_views(segments@),
                    message@,
                    device@.address,
                    old(msg)@,
                    filler_views(fillers@),
                    i as int,
                ),
            decreases segments@.len() - i,
        {
            let bytes = self.get_value_byte_array(&segments[i], message, device, msg, &fillers[i]);
            let mut k: usize = 0;
            let ghost before = msg@;
            while k < bytes.len()
                invariant
                    k <= bytes@.len(),
                    msg@ == before + bytes@.take(k as int),
                decreases bytes@.len() - k,
            {
                msg.push(bytes[k]);
                k += 1;
                assert(msg@ =~= before + bytes@.take(k as int));
            }
            assert(bytes@.take(k as int) =~= bytes@);
            i += 1;
        }
    }

    /// One filler for each segment: random bytes of the message's payload
    /// byte count for a `data_bytes` segment, nothing for any other.
    pub fn draw_fillers(&self, segments: &Vec<Segment>, message: &Message) -> (fillers: Vec<
        Vec<u8>,
    >)
        ensures
            fillers_fit(segment_views(segments@), message@, filler_views(fillers@)),
    {
        let mut fillers: Vec<Vec<u8>> = Vec::new();
        let mut i: usize = 0;
        while i < segments.len()
            invariant
                i <= segments@.len(),
                fillers@.len() == i,
                forall|k: int|
                    0 <= k < i && segments@[k]@.name == "data_bytes"@ ==> (
                    #[trigger] fillers@[k])@.len() == data_byte_count(message@.fields),
            decreases segments@.len() - i,
        {
            if str_eq(segments[i].get_name().as_str(), "data_bytes") {
                fillers.push(self.push_bytes(0, message.get_data_byte_count(), true));
            } else {
                fillers.push(Vec::new());
            }
            i += 1;
        }
        assert forall|k: int|
            0 <= k < segments@.len() && segment_views(segments@)[k].name
                == "data_bytes"@ implies (#[trigger] filler_views(fillers@)[k]).len()
            == data_byte_count(message@.fields) by {
            assert(fillers@[k]@.len() == data_byte_count(message@.fields));
        }
        fillers
    }

    /// The wire message that a prototype gives in one direction for a
    /// message of a device, with the given fillers for its segments.
    pub fn assemble_message(
        &self,
        proto: &Prototype,
        direction: &str,
        message: &Message,
        device: &Device,
        fillers: &Vec<Vec<u8>>,
    ) -> (wire: Vec<u8>)
        requires
            fillers@.len() == segments_for(proto@, direction@).len(),
        ensures
            wire@ == self.wire_message(
                segments_for(proto@, direction@),
                message@,
                device@.address,
                filler_views(fillers@),
            ),
    {
        let mut msg: Vec<u8> = Vec::new();
        let segments: Vec<Segment> = proto.get_segments(direction);
        assert(segment_views(segments@).len() == segments@.len());
        self.append_str_to_byte_array(&mut msg, self.prefix.as_str());
        assert(msg@ =~= encode_utf8(self.prefix@));
        self.append_segments_to_byte_array(&mut msg, &segments, message, device, fillers);
        self.append_str_to_byte_array(&mut msg, self.suffix.as_str());
        self.conversion.get_converted_message(&msg, self.prefix.as_str(), self.suffix.as_str())
    }

    /// The wire message that a prototype gives in one direction for a
    /// message of a device; the bytes of its `data_bytes` segments are
    /// drawn at random.
    pub fn get_message_from_prototype(
        &self,
        proto: &Prototype,
        direction: &str,
        message: &Message,
        device: &Device,
    ) -> (wire: Vec<u8>)
        ensures
            self.is_built(segments_for(proto@, direction@), message@, device@.address, wire@),
    {
        let segments: Vec<Segment> = proto.get_segments(direction);
        let fillers = self.draw_fillers(&segments, message);
        assert(segment_views(segments@).len() == segments@.len());
        self.assemble_message(proto, direction, message, device, &fillers)
    }

    /// A protocol that has not been configured: `hex` mode and `crc16`
    /// by name, without framing, prototypes or devices.
    pub fn new() -> (protocol: Protocol)
        ensures
            protocol.prefix() == Seq::<char>::empty(),
            protocol.suffix() == Seq::<char>::empty(),
            protocol.timeout() == 0,
            protocol.source_address() == 0,
            protocol.transmission_mode() == "hex"@,
            protocol.checksum_calculation() == "crc16"@,
            protocol.prototypes() == Seq::<PrototypeView>::empty(),
            protocol.devices() == Seq::<DeviceView>::empty(),
            protocol.conversion().mode() == Seq::<char>::empty(),
            protocol.checksum().kind() == ChecksumKind::Unknown,
            protocol.is_coherent(),
    {
        let protocol = Protocol {
            prefix: String::new(),
            suffix: String::new(),
            timeout: 0,
            source_address: 0,
            transmission_mode: "hex".to_owned(),
            checksum_calculation: "crc16".to_owned(),
            prototypes: Vec::new(),
            devices: Vec::new(),
            conversion: Conversion::default(),
            checksum: Checksum::default(),
            simulation: Simulation::default(),
        };
        assert(prototype_views(protocol.prototypes@) =~= Seq::<PrototypeView>::empty());
        assert(device_views(protocol.devices@) =~= Seq::<DeviceView>::empty());
        protocol
    }

    /// Whether the protocol has not been configured yet.
    pub fn is_null(&self) -> (null: bool)
        ensures
            null == (self.conversion().mode().len() == 0),
    {
        self.conversion.get_mode().as_str().is_empty()
    }

    pub fn get_prototypes(&self) -> (prototypes: &Vec<Prototype>)
        ensures
            prototype_views(prototypes@) == self.prototypes(),
    {
        &self.prototypes
    }

    pub fn get_devices(&self) -> (devices: &Vec<Device>)
        ensures
            device_views(devices@) == self.devices(),
    {
        &self.devices
    }

    pub fn get_conversion(&self) -> (conversion: &Conversion)
        ensures
            *conversion == self.conversion(),
    {
        &self.conversion
    }

    pub fn get_prefix(&self) -> (prefix: &String)
        ensures
            prefix@ == self.prefix(),
    {
        &self.prefix
    }

    pub fn get_suffix(&self) -> (suffix: &String)
        ensures
            suffix@ == self.suffix(),
    {
        &self.suffix
    }

    /// The name of the transmission mode, as configured.
    pub fn get_transmission_mode(&self) -> (mode: &String)
        ensures
            mode@ == self.transmission_mode(),
    {
        &self.transmission_mode
    }

    /// The name of the checksum algorithm, as configured.
    pub fn get_checksum_calculation(&self) -> (calculation: &String)
        ensures
            calculation@ == self.checksum_calculation(),
    {
        &self.checksum_calculation
    }

    pub fn get_timeout(&self) -> (timeout: u32)
        ensures
            timeout == self.timeout(),
    {
        self.timeout
    }

    pub fn get_source_address(&self) -> (address: u32)
        ensures
            address == self.source_address(),
    {
        self.source_address
    }

    /// The prototypes listed under `prototype`, each set up from its item.
    pub fn init_prototypes(map: &ConfigValue) -> (result: Result<Vec<Prototype>, ConfigError>)
        ensures
            match prototypes_of(items_or_none(map.member("prototype"@))) {
                Ok(prototypes) => result is Ok && prototype_views(result->Ok_0@) == prototypes,
                Err(e) => result is Err && result->Err_0@ == e,
            },
    {
        let mut prototypes: Vec<Prototype> = Vec::new();
        match map.get("prototype") {
            Some(ConfigValue::List(items)) => {
                let mut i: usize = 0;
                assert(items@.take(0) =~= Seq::<ConfigValue>::empty());
                assert(prototype_views(prototypes@) =~= Seq::<PrototypeView>::empty());
                while i < items.len()
                    invariant
                        i <= items@.len(),
                        items@ == items_or_none(map.member("prototype"@)),
                        prototypes_of(items@.take(i as int)) == Ok::<
                            Seq<PrototypeView>,
                            ConfigFault,
                        >(prototype_views(prototypes@)),
                    decreases items@.len() - i,
                {
                    assert(items@.take(i + 1).drop_last() =~= items@.take(i as int));
                    assert(items@.take(i + 1).last() == items@[i as int]);
                    let mut prototype = Prototype::new();
                    match prototype.from_map(&items[i]) {
                        Ok(_) => {},
                        Err(e) => {
                            proof {
                                lemma_prototypes_of_fails(items@, i as int, items@.len() as int);
                                assert(items@.take(items@.len() as int) =~= items@);
                            }
                            return Err(e);
                        },
                    }
                    let ghost earlier = prototype_views(prototypes@);
                    prototypes.push(prototype);
                    assert(prototype_views(prototypes@) =~= earlier.push(prototype@));
                    i += 1;
                }
                assert(items@.take(i as int) =~= items@);
            },
            _ => {
                assert(prototype_views(prototypes@) =~= Seq::<PrototypeView>::empty());
            },
        }
        Ok(prototypes)
    }

    /// The devices listed under `device`, each set up from its item.
    pub fn init_devices(map: &ConfigValue) -> (result: Result<Vec<Device>, ConfigError>)
        ensures
            match devices_of(items_or_none(map.member("device"@))) {
                Ok(devices) => result is Ok && device_views(result->Ok_0@) == devices,
                Err(e) => result is Err && result->Err_0@ == e,
            },
    {
        let mut devices: Vec<Device> = Vec::new();
        match map.get("device") {
            Some(ConfigValue::List(items)) => {
                let mut i: usize = 0;
                assert(items@.take(0) =~= Seq::<ConfigValue>::empty());
                assert(device_views(devices@) =~= Seq::<DeviceView>::empty());
                while i < items.len()
                    invariant
                        i <= items@.len(),
                        items@ == items_or_none(map.member("device"@)),
                        devices_of(items@.take(i as int)) == Ok::<Seq<DeviceView>, ConfigFault>(
                            device_views(devices@),
                        ),
                    decreases items@.len() - i,
                {
                    assert(items@.take(i + 1).drop_last() =~= items@.take(i as int));
                    assert(items@.take(i + 1).last() == items@[i as int]);
                    let mut device = Device::new();
                    match device.from_map(&items[i]) {
                        Ok(_) => {},
                        Err(e) => {
                            proof {
                                lemma_devices_of_fails(items@, i as int, items@.len() as int);
                                assert(items@.take(items@.len() as int) =~= items@);
                            }
                            return Err(e);
                        },
                    }
                    let ghost earlier = device_views(devices@);
                    devices.push(device);
                    assert(device_views(devices@) =~= earlier.push(device@));
                    i += 1;
                }
                assert(items@.take(i as int) =~= items@);
            },
            _ => {
                assert(device_views(devices@) =~= Seq::<DeviceView>::empty());
            },
        }
        Ok(devices)
    }

    /// Configures the protocol. Settings that the configuration does not
    /// have stay as they are; the prototypes and devices are those that it
    /// declares; transcoder, checksum and transport are made anew for the
    /// mode and the checksum algorithm. A configuration that is rejected
    /// leaves the protocol as it was.
    pub fn from_map(&mut self, map: &ConfigValue) -> (result: Result<(), ConfigError>)
        ensures
            match lists_of(*map) {
                Err(e) => result is Err && result->Err_0@ == e && *final(self) == *old(self),
                Ok(lists) => {
                    &&& result.is_ok()
                    &&& final(self).is_coherent()
                    &&& final(self).prototypes() == lists.0
                    &&& final(self).devices() == lists.1
                    &&& final(self).prefix() == text_setting(*map, "prefix"@, old(self).prefix())
                    &&& final(self).suffix() == text_setting(*map, "suffix"@, old(self).suffix())
                    &&& final(self).timeout() == number_setting(
                        *map,
                        "timeout"@,
                        old(self).timeout(),
                    )
                    &&& final(self).source_address() == number_setting(
                        *map,
                        "source_address"@,
                        old(self).source_address(),
                    )
                    &&& final(self).transmission_mode() == text_setting(
                        *map,
                        "transmission_mode"@,
                        old(self).transmission_mode(),
                    )
                    &&& final(self).checksum_calculation() == text_setting(
                        *map,
                        "checksum_calculation"@,
                        old(self).checksum_calculation(),
                    )
                    &&& final(self).conversion().mode() == final(self).transmission_mode()
                    &&& final(self).checksum().conversion().mode() == text_setting(
                        *map,
                        "transmission_mode"@,
                        old(self).transmission_mode(),
                    )
                    &&& final(self).checksum().kind() == kind_named(
                        lowercase_of(final(self).checksum_calculation()),
                    )
                    &&& final(self).simulation().conversion().mode() == text_setting(
                        *map,
                        "transmission_mode"@,
                        old(self).transmission_mode(),
                    )
                },
            },
    {
        let prototypes = match Self::init_prototypes(map) {
            Ok(prototypes) => prototypes,
            Err(e) => {
                return Err(e);
            },
        };
        assert(prototype_views(prototypes@).len() == prototypes@.len());
        if prototypes.len() == 0 {
            return Err(ConfigError::PrototypesMissing);
        }
        let devices = match Self::init_devices(map) {
            Ok(devices) => devices,
            Err(e) => {
                return Err(e);
            },
        };
        assert(device_views(devices@).len() == devices@.len());
        if devices.len() == 0 {
            return Err(ConfigError::DevicesMissing);
        }
        if map.get("prefix").is_some() {
            self.prefix = map.text_of("prefix");
        }
        if map.get("suffix").is_some() {
            self.suffix = map.text_of("suffix");
        }
        if map.get("timeout").is_some() {
            self.timeout = (map.unsigned_of("timeout") % 0x1_0000_0000) as u32;
        }
        if map.get("source_address").is_some() {
            self.source_address = (map.unsigned_of("source_address") % 0x1_0000_0000) as u32;
        }
        if map.get("transmission_mode").is_some() {
            self.transmission_mode = map.text_of("transmission_mode");
        }
        if map.get("checksum_calculation").is_some() {
            self.checksum_calculation = map.text_of("checksum_calculation");
        }
        self.prototypes = prototypes;
        self.devices = devices;
        self.conversion = Conversion::new(self.transmission_mode.as_str());
        self.checksum = Checksum::new(self.checksum_calculation.as_str(), &self.conversion);
        self.simulation = Simulation::new(&self.conversion);
        Ok(())
    }

    /// What a transaction comes to, given what was transmitted and what was
    /// received: both must hold something, the checksum kind must be known,
    /// and the received message must carry the checksum of its body.
    pub open spec fn transaction_outcome(&self, tx: Seq<u8>, rx: Seq<u8>) -> Result<
        bool,
        TransactionError,
    > {
        if rx.len() == 0 {
            Err(TransactionError::NothingReceived)
        } else if tx.len() == 0 {
            Err(TransactionError::SimulationFailed)
        } else if checksum_size(self.checksum().kind()) == 0 {
            Err(TransactionError::ChecksumUnavailable)
        } else if !message_is_valid(
            self.checksum().kind(),
            self.checksum().conversion().hex_form(rx, self.prefix(), self.suffix()),
            encode_utf8(self.prefix()).len(),
            encode_utf8(self.suffix()).len(),
        ) {
            Err(TransactionError::ChecksumMismatch)
        } else {
            Ok(true)
        }
    }

    /// Judges a transaction from the transmitted and the received message.
    pub fn judge_transaction(&self, tx: &Vec<u8>, rx: &Vec<u8>) -> (result: Result<
        bool,
        TransactionError,
    >)
        ensures
            result == self.transaction_outcome(tx@, rx@),
    {
        if rx.len() == 0 {
            return Err(TransactionError::NothingReceived);
        }
        if !self.simulation.simulate_transaction(tx, rx) {
            return Err(TransactionError::SimulationFailed);
        }
        if self.checksum.get_size_of_checksum() == 0 {
            return Err(TransactionError::ChecksumUnavailable);
        }
        if !self.checksum.validate_checksum_in_message(
            rx,
            self.prefix.as_str(),
            self.suffix.as_str(),
        ) {
            return Err(TransactionError::ChecksumMismatch);
        }
        Ok(true)
    }

    /// What a transaction for a message of a device may come to: it fails
    /// where no prototype has the message's name; else it is judged on the
    /// message's own bytes and on some message built from the prototype's
    /// receive segments.
    pub open spec fn may_come_of(
        &self,
        message: MessageView,
        address: u32,
        result: Result<bool, TransactionError>,
    ) -> bool {
        match prototype_index(self.prototypes(), message.name) {
            None => result == Err::<bool, TransactionError>(TransactionError::PrototypeNotFound),
            Some(i) => exists|rx: Seq<u8>|
                self.is_built(self.prototypes()[i].receive, message, address, rx) && result
                    == #[trigger] self.transaction_outcome(message.buffer, rx),
        }
    }

    /// Whether a transaction for a message of a device may have received
    /// `received` and come to `result`: where no prototype has the
    /// message's name nothing is received and it fails; else `received` is
    /// some message built from that prototype's receive segments, and the
    /// transaction is judged on the message's own bytes and on it.
    pub open spec fn came_of(
        &self,
        message: MessageView,
        address: u32,
        received: Seq<u8>,
        result: Result<bool, TransactionError>,
    ) -> bool {
        match prototype_index(self.prototypes(), message.name) {
            None => received.len() == 0 && result == Err::<bool, TransactionError>(
                TransactionError::PrototypeNotFound,
            ),
            Some(i) => self.is_built(self.prototypes()[i].receive, message, address, received)
                && result == self.transaction_outcome(message.buffer, received),
        }
    }

    /// One transaction, with the message that was received: that message is
    /// built from the receive segments of the message's prototype, handed
    /// to the transport together with the message's own bytes, and checked.
    pub fn exchange(&self, message: &Message, device: &Device) -> (transaction: Transaction)
        ensures
            self.came_of(
                message@,
                device@.address,
                transaction.received@,
                transaction.outcome,
            ),
    {
        let prototype = match self.get_prototype_by_name(message.get_name().as_str()) {
            Some(proto) => proto,
            None => {
                return Transaction {
                    received: Vec::new(),
                    outcome: Err(TransactionError::PrototypeNotFound),
                };
            },
        };
        proof {
            reveal_strlit("transmit");
            reveal_strlit("receive");
            assert("receive"@ != "transmit"@) by {
                assert("receive"@[0] == 'r');
                assert("transmit"@[0] == 't');
            }
        }
        let received = self.get_message_from_prototype(prototype, "receive", message, device);
        let outcome = self.judge_transaction(message.get_message(), &received);
        Transaction { received, outcome }
    }

    /// One transaction: what `exchange` comes to, without the received
    /// message.
    pub fn transact(&self, message: &Message, device: &Device) -> (result: Result<
        bool,
        TransactionError,
    >)
        ensures
            self.may_come_of(message@, device@.address, result),
    {
        let transaction = self.exchange(message, device);
        proof {
            if prototype_index(self.prototypes(), message@.name) is Some {
                assert(transaction.outcome == self.transaction_outcome(
                    message@.buffer,
                    transaction.received@,
                ));
            }
        }
        transaction.outcome
    }

    /// Whether `after` is what building leaves of the message `before` of a
    /// device at `address`: name and fields stay; a message without bytes
    /// whose name a prototype has gets some message built from that
    /// prototype's segments of the direction; any other keeps its bytes.
    pub open spec fn message_updated(
        &self,
        before: MessageView,
        after: MessageView,
        direction: Seq<char>,
        address: u32,
    ) -> bool {
        &&& after.name == before.name
        &&& after.fields == before.fields
        &&& match prototype_index(self.prototypes(), before.name) {
            Some(i) => if before.buffer.len() == 0 {
                self.is_built(
                    segments_for(self.prototypes()[i], direction),
                    before,
                    address,
                    after.buffer,
                )
            } else {
                after.buffer == before.buffer
            },
            None => after.buffer == before.buffer,
        }
    }

    /// Whether `after` is what building leaves of the device `before`: name
    /// and address stay, and each message is updated in its place.
    pub open spec fn device_updated(
        &self,
        before: DeviceView,
        after: DeviceView,
        direction: Seq<char>,
    ) -> bool {
        &&& after.name == before.name
        &&& after.address == before.address
        &&& after.messages.len() == before.messages.len()
        &&& forall|m: int|
            0 <= m < before.messages.len() ==> self.message_updated(
                before.messages[m],
                #[trigger] after.messages[m],
                direction,
                before.address,
            )
    }

    /// Builds, for every message of every device, the bytes that the
    /// prototype of the message's name gives in the given direction.
    pub fn set_messages_from_prototype(&mut self, direction: &str)
        ensures
            final(self).same_settings(old(self)),
            final(self).devices().len() == old(self).devices().len(),
            forall|d: int|
                0 <= d < old(self).devices().len() ==> old(self).device_updated(
                    old(self).devices()[d],
                    #[trigger] final(self).devices()[d],
                    direction@,
                ),
    {
        let mut devices: Vec<Device> = Vec::new();
        let mut d: usize = 0;
        while d < self.devices.len()
            invariant
                *self == *old(self),
                d <= self.devices@.len(),
                devices@.len() == d,
                forall|k: int|
                    0 <= k < d ==> self.device_updated(
                        self.devices@[k]@,
                        (#[trigger] devices@[k])@,
                        direction@,
                    ),
            decreases self.devices@.len() - d,
        {
            let device = &self.devices[d];
            let current = device.get_messages();
            assert(message_views(current@).len() == current@.len());
            let mut messages: Vec<Message> = Vec::new();
            let mut m: usize = 0;
            while m < current.len()
                invariant
                    m <= current@.len(),
                    messages@.len() == m,
                    message_views(current@) == device@.messages,
                    forall|k: int|
                        0 <= k < m ==> self.message_updated(
                            current@[k]@,
                            (#[trigger] messages@[k])@,
                            direction@,
                            device@.address,
                        ),
                decreases current@.len() - m,
            {
                let mut message = current[m].clone();
                match self.get_prototype_by_name(message.get_name().as_str()) {
                    Some(prototype) => {
                        let msg = self.get_message_from_prototype(
                            prototype,
                            direction,
                            &message,
                            device,
                        );
                        let ghost unset = message@.buffer.len() == 0;
                        message.set_message(&msg);
                        assert(unset ==> message@.buffer =~= msg@);
                    },
                    None => {},
                }
                messages.push(message);
                m += 1;
            }
            let mut updated = device.clone();
            updated.set_messages(&messages);
            assert(message_views(messages@).len() == messages@.len());
            assert forall|k: int| 0 <= k < device@.messages.len() implies self.message_updated(
                device@.messages[k],
                #[trigger] updated@.messages[k],
                direction@,
                device@.address,
            ) by {
                assert(message_views(current@)[k] == current@[k]@);
                if messages@.len() > 0 {
                    assert(message_views(messages@)[k] == messages@[k]@);
                }
            }
            devices.push(updated);
            d += 1;
        }
        self.devices = devices;
        assert forall|k: int| 0 <= k < old(self).devices().len() implies old(self).device_updated(
            old(self).devices()[k],
            #[trigger] self.devices()[k],
            direction@,
        ) by {
            assert(self.devices@[k]@ == device_views(self.devices@)[k]);
            assert(old(self).devices@[k]@ == device_views(old(self).devices@)[k]);
        }
    }

    /// Whether `result` is what a transaction for some message of some
    /// device of this protocol may come to.
    pub open spec fn is_outcome(&self, result: Result<bool, TransactionError>) -> bool {
        exists|d: int, m: int|
            0 <= d < self.devices().len() && 0 <= m < self.devices()[d].messages.len()
                && #[trigger] self.may_come_of(
                self.devices()[d].messages[m],
                self.devices()[d].address,
                result,
            )
    }

    /// Whether the transaction of round `r` for message `m` of device `d`
    /// stands at its place among `outcomes`, and is what that transaction
    /// may have received and come to. Within a round the devices follow each other, and within a
    /// device its messages.
    pub open spec fn outcome_fits(
        &self,
        outcomes: Seq<Transaction>,
        r: int,
        d: int,
        m: int,
    ) -> bool {
        let place = outcome_place(self.devices(), r, d, m);
        &&& 0 <= place < outcomes.len()
        &&& self.came_of(
            self.devices()[d].messages[m],
            self.devices()[d].address,
            outcomes[place].received@,
            outcomes[place].outcome,
        )
    }

    /// Builds the transmit message of every message of every device, then
    /// runs ten rounds of transactions, one for each message in each round.
    /// The transactions come back in the order in which they were run.
    pub fn run(&mut self) -> (outcomes: Vec<Transaction>)
        ensures
            final(self).same_settings(old(self)),
            final(self).devices().len() == old(self).devices().len(),
            forall|d: int|
                0 <= d < old(self).devices().len() ==> old(self).device_updated(
                    old(self).devices()[d],
                    #[trigger] final(self).devices()[d],
                    "transmit"@,
                ),
            outcomes@.len() == 10 * message_count(final(self).devices()),
            forall|r: int, d: int, m: int|
                0 <= r < 10 && 0 <= d < final(self).devices().len()
                    && 0 <= m < final(self).devices()[d].messages.len()
                    ==> #[trigger] final(self).outcome_fits(outcomes@, r, d, m),
            forall|k: int|
                0 <= k < outcomes@.len() ==> final(self).is_outcome((#[trigger] outcomes@[k]).outcome),
    {
        self.set_messages_from_prototype("transmit");
        let mut outcomes: Vec<Transaction> = Vec::new();
        let ghost total = message_count(self.devices());
        let mut round: usize = 0;
        while round < 10
            invariant
                round <= 10,
                total == message_count(self.devices()),
                outcomes@.len() == round * total,
                forall|k: int| 0 <= k < outcomes@.len() ==> self.is_outcome((#[trigger] outcomes@[k]).outcome),
                forall|r: int, d2: int, m2: int|
                    0 <= r < round && 0 <= d2 < self.devices().len() && 0 <= m2
                        < self.devices()[d2].messages.len() ==> #[trigger] self.outcome_fits(
                        outcomes@,
                        r,
                        d2,
                        m2,
                    ),
            decreases 10 - round,
        {
            let mut d: usize = 0;
            assert(device_views(self.devices@).take(0) =~= Seq::<DeviceView>::empty());
            while d < self.devices.len()
                invariant
                    round < 10,
                    d <= self.devices@.len(),
                    total == message_count(self.devices()),
                    outcomes@.len() == round * total + message_count(
                        device_views(self.devices@).take(d as int),
                    ),
                    forall|k: int|
                        0 <= k < outcomes@.len() ==> self.is_outcome((#[trigger] outcomes@[k]).outcome),
                    forall|r: int, d2: int, m2: int|
                        0 <= r < round && 0 <= d2 < self.devices().len() && 0 <= m2
                            < self.devices()[d2].messages.len() ==> #[trigger] self.outcome_fits(
                            outcomes@,
                            r,
                            d2,
                            m2,
                        ),
                    forall|d2: int, m2: int|
                        0 <= d2 < d && 0 <= m2 < self.devices()[d2].messages.len()
                            ==> #[trigger] self.outcome_fits(outcomes@, round as int, d2, m2),
                decreases self.devices@.len() - d,
            {
                let device = &self.devices[d];
                let messages = device.get_messages();
                assert(message_views(messages@).len() == messages@.len());
                let ghost base = outcomes@.len();
                let mut m: usize = 0;
                while m < messages.len()
                    invariant
                        round < 10,
                        m <= messages@.len(),
                        outcomes@.len() == base + m,
                        base == round * total + message_count(
                            device_views(self.devices@).take(d as int),
                        ),
                        total == message_count(self.devices()),
                        d < self.devices@.len(),
                        device@ == self.devices()[d as int],
                        message_views(messages@) == device@.messages,
                        forall|k: int|
                            0 <= k < outcomes@.len() ==> self.is_outcome((#[trigger] outcomes@[k]).outcome),
                        forall|r: int, d2: int, m2: int|
                            0 <= r < round && 0 <= d2 < self.devices().len() && 0 <= m2
                                < self.devices()[d2].messages.len()
                                ==> #[trigger] self.outcome_fits(outcomes@, r, d2, m2),
                        forall|d2: int, m2: int|
                            0 <= d2 < d && 0 <= m2 < self.devices()[d2].messages.len()
                                ==> #[trigger] self.outcome_fits(outcomes@, round as int, d2, m2),
                        forall|m2: int|
                            0 <= m2 < m ==> #[trigger] self.outcome_fits(
                                outcomes@,
                                round as int,
                                d as int,
                                m2,
                            ),
                    decreases messages@.len() - m,
                {
                    let outcome = self.exchange(&messages[m], device);
                    assert(message_views(messages@)[m as int] == messages@[m as int]@);
                    assert(self.is_outcome(outcome.outcome)) by {
                        let message = self.devices()[d as int].messages[m as int];
                        if prototype_index(self.prototypes(), message.name) is Some {
                            assert(outcome.outcome == self.transaction_outcome(
                                message.buffer,
                                outcome.received@,
                            ));
                        }
                        assert(self.may_come_of(
                            message,
                            self.devices()[d as int].address,
                            outcome.outcome,
                        ));
                    }
                    let ghost earlier = outcomes@;
                    outcomes.push(outcome);
                    proof {
                        assert(outcome_place(self.devices(), round as int, d as int, m as int)
                            == earlier.len());
                        assert(self.outcome_fits(outcomes@, round as int, d as int, m as int));
                        assert forall|r: int, d2: int, m2: int|
                            self.outcome_fits(earlier, r, d2, m2) implies #[trigger] self.outcome_fits(
                            outcomes@,
                            r,
                            d2,
                            m2,
                        ) by {
                            let place = outcome_place(self.devices(), r, d2, m2);
                            assert(outcomes@[place] == earlier[place]);
                        }
                    }
                    m += 1;
                }
                assert(device_views(self.devices@).take(d + 1).drop_last() =~= device_views(
                    self.devices@,
                ).take(d as int));
                assert(device_views(self.devices@).take(d + 1).last() == device@);
                d += 1;
            }
            assert(device_views(self.devices@).take(d as int) =~= device_views(self.devices@));
            assert((round + 1) * total == round * total + total) by (nonlinear_arith);
            round += 1;
        }
        outcomes
    }

    /// The first prototype of the given name.
    pub fn get_prototype_by_name(&self, name: &str) -> (found: Option<&Prototype>)
        ensures
            match prototype_index(self.prototypes(), name@) {
                Some(i) => 0 <= i < self.prototypes().len() && found.is_some()
                    && found.unwrap()@ == self.prototypes()[i] && found.unwrap()@.name == name@,
                None => found.is_none(),
            },
    {
        let mut i: usize = 0;
        assert(prototype_views(self.prototypes@).take(0) =~= Seq::<PrototypeView>::empty());
        while i < self.prototypes.len()
            invariant
                i <= self.prototypes@.len(),
                prototype_index(prototype_views(self.prototypes@).take(i as int), name@).is_none(),
            decreases self.prototypes@.len() - i,
        {
            proof {
                lemma_prototype_index_step(prototype_views(self.prototypes@), name@, i as int);
            }
            if str_eq(self.prototypes[i].get_name(), name) {
                proof {
                    lemma_prototype_index_found(
                        prototype_views(self.prototypes@),
                        name@,
                        i as int,
                        self.prototypes@.len() as int,
                    );
                    assert(prototype_views(self.prototypes@).take(self.prototypes@.len() as int)
                        =~= prototype_views(self.prototypes@));
                }
                return Some(&self.prototypes[i]);
            }
            i += 1;
        }
        assert(prototype_views(self.prototypes@).take(i as int) =~= prototype_views(
            self.prototypes@,
        ));
        None
    }
}

proof fn lemma_prototype_index_step(prototypes: Seq<PrototypeView>, name: Seq<char>, i: int)
    requires
        0 <= i < prototypes.len(),
        prototype_index(prototypes.take(i), name).is_none(),
    ensures
        prototype_index(prototypes.take(i + 1), name) == if prototypes[i].name == name {
            Some(i)
        } else {
            None::<int>
        },
{
    assert(prototypes.take(i + 1).drop_last() =~= prototypes.take(i));
}

proof fn lemma_prototype_index_found(
    prototypes: Seq<PrototypeView>,
    name: Seq<char>,
    i: int,
    n: int,
)
    requires
        0 <= i < n <= prototypes.len(),
        prototype_index(prototypes.take(i + 1), name) == Some(i),
    ensures
        prototype_index(prototypes.take(n), name) == Some(i),
    decreases n,
{
    if n > i + 1 {
        lemma_prototype_index_found(prototypes, name, i, n - 1);
        assert(prototypes.take(n).drop_last() =~= prototypes.take(n - 1));
    }
}

proof fn lemma_prototypes_of_fails(items: Seq<ConfigValue>, i: int, n: int)
    requires
        0 <= i < n <= items.len(),
        prototypes_of(items.take(i)) is Ok,
        prototype_of(fresh_prototype(), items[i]) is Err,
    ensures
        prototypes_of(items.take(n)) is Err,
        prototypes_of(items.take(n))->Err_0 == prototype_of(fresh_prototype(), items[i])->Err_0,
    decreases n,
{
    assert(items.take(n).drop_last() =~= items.take(n - 1));
    if n > i + 1 {
        lemma_prototypes_of_fails(items, i, n - 1);
    }
}

proof fn lemma_devices_of_fails(items: Seq<ConfigValue>, i: int, n: int)
    requires
        0 <= i < n <= items.len(),
        devices_of(items.take(i)) is Ok,
        device_of(fresh_device(), items[i]) is Err,
    ensures
        devices_of(items.take(n)) is Err,
        devices_of(items.take(n))->Err_0 == device_of(fresh_device(), items[i])->Err_0,
    decreases n,
{
    assert(items.take(n).drop_last() =~= items.take(n - 1));
    if n > i + 1 {
        lemma_devices_of_fails(items, i, n - 1);
    }
}

/// Adding segments leaves what the message held before in its place.
pub proof fn lemma_body_upto_keeps_start(
    kind: ChecksumKind,
    prefix: Seq<char>,
    segments: Seq<SegmentView>,
    message: MessageView,
    address: u32,
    start: Seq<u8>,
    fillers: Seq<Seq<u8>>,
    n: int,
)
    ensures
        body_upto(kind, prefix, segments, message, address, start, fillers, n).len()
            >= start.len(),
        body_upto(kind, prefix, segments, message, address, start, fillers, n).take(
            start.len() as int,
        ) == start,
    decreases n,
{
    if n > 0 {
        lemma_body_upto_keeps_start(
            kind,
            prefix,
            segments,
            message,
            address,
            start,
            fillers,
            n - 1,
        );
        let before = body_upto(kind, prefix, segments, message, address, start, fillers, n - 1);
        let whole = body_upto(kind, prefix, segments, message, address, start, fillers, n);
        assert(whole.take(start.len() as int) =~= before.take(start.len() as int));
    } else {
        assert(start.take(start.len() as int) =~= start);
    }
}

/// A canonical message whose last segment is an `error_check` as wide as
/// the checksum carries the checksum of its own body: it is valid,
/// whatever the other segments, the fields and the fillers are.
pub proof fn lemma_message_ending_in_error_check_is_valid(
    kind: ChecksumKind,
    prefix: Seq<char>,
    suffix: Seq<char>,
    segments: Seq<SegmentView>,
    message: MessageView,
    address: u32,
    fillers: Seq<Seq<u8>>,
)
    requires
        segments.len() > 0,
        segments.last().name == "error_check"@,
        kind != ChecksumKind::Unknown,
        segments.last().bits as int / 8 == checksum_size(kind),
    ensures
        message_is_valid(
            kind,
            canonical_message(kind, prefix, suffix, segments, message, address, fillers),
            encode_utf8(prefix).len(),
            encode_utf8(suffix).len(),
        ),
{
    let n = segments.len() as int;
    let head = encode_utf8(prefix);
    let before = body_upto(kind, prefix, segments, message, address, head, fillers, n - 1);
    lemma_body_upto_keeps_start(kind, prefix, segments, message, address, head, fillers, n - 1);
    let body = before.skip(head.len() as int);
    assert(before =~= head + body);
    assert(body_after(before, head.len()) == body);
    let sum = checksum_of(kind, body);
    reveal_strlit("error_check");
    reveal_strlit("slave_address");
    assert("error_check"@.len() != "slave_address"@.len());
    let carried = segment_bytes(
        kind,
        prefix,
        segments[n - 1],
        message,
        address,
        before,
        fillers[n - 1],
    );
    assert(carried == big_endian(sum as u64, checksum_size(kind)));
    reveal_with_fuel(little_endian, 3);
    assert(carried =~= checksum_bytes(kind, sum));
    lemma_checksummed_message_is_valid(kind, head, body, encode_utf8(suffix));
    assert(canonical_message(kind, prefix, suffix, segments, message, address, fillers)
        =~= head + body + checksum_bytes(kind, sum) + encode_utf8(suffix));
}

/// A transaction succeeds whenever something was transmitted and the
/// received message was built from segments that end in an `error_check`
/// as wide as the checksum, whatever the fillers were; in `ascii` mode,
/// provided that no digit of the wire form passes as a framing byte.
pub proof fn lemma_transaction_succeeds(
    protocol: Protocol,
    segments: Seq<SegmentView>,
    message: MessageView,
    address: u32,
    fillers: Seq<Seq<u8>>,
    tx: Seq<u8>,
)
    requires
        tx.len() > 0,
        segments.len() > 0,
        segments.last().name == "error_check"@,
        protocol.checksum().kind() != ChecksumKind::Unknown,
        segments.last().bits as int / 8 == checksum_size(protocol.checksum().kind()),
        protocol.is_coherent(),
        protocol.conversion().is_ascii_mode() ==> forall|i: int|
            0 <= i < protocol.wire_message(segments, message, address, fillers).len()
                ==> !allowed(
                #[trigger] protocol.wire_message(segments, message, address, fillers)[i],
                protocol.prefix(),
                protocol.suffix(),
                i,
                protocol.wire_message(segments, message, address, fillers).len() as int,
            ),
    ensures
        protocol.transaction_outcome(
            tx,
            protocol.wire_message(segments, message, address, fillers),
        ) == Ok::<bool, TransactionError>(true),
{
    let kind = protocol.checksum().kind();
    let canonical = canonical_message(
        kind,
        protocol.prefix(),
        protocol.suffix(),
        segments,
        message,
        address,
        fillers,
    );
    let wire = protocol.wire_message(segments, message, address, fillers);
    lemma_message_ending_in_error_check_is_valid(
        kind,
        protocol.prefix(),
        protocol.suffix(),
        segments,
        message,
        address,
        fillers,
    );
    assert(canonical.len() > 0);
    lemma_wire_round_trip(protocol.conversion(), canonical, protocol.prefix(), protocol.suffix());
    if protocol.conversion().is_ascii_mode() {
        lemma_encode_upto_shape(
            canonical,
            protocol.prefix(),
            protocol.suffix(),
            canonical.len() as int,
        );
    }
    assert(wire.len() > 0);
    assert(protocol.checksum().conversion().hex_form(wire, protocol.prefix(), protocol.suffix())
        == canonical);
}

} // verus!

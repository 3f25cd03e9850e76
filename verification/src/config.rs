//! The configuration tree from which a protocol is set up: a plain model of
//! a parsed configuration document.

use vstd::prelude::*;
use vstd::string::*;
use crate::text::str_eq;

verus! {

/// One value of a configuration document.
#[derive(Debug)]
pub enum ConfigValue {
    Null,
    Bool(bool),
    /// A whole number that is not negative.
    Unsigned(u64),
    /// Any other number.
    Number,
    Text(String),
    List(Vec<ConfigValue>),
    /// The members of an object. Where a key occurs twice, the later one
    /// counts.
    Object(Vec<Member>),
}

/// A key of an object with its value.
#[derive(Debug)]
pub struct Member {
    pub key: String,
    pub value: ConfigValue,
}

/// Why a configuration was rejected.
#[derive(Debug, PartialEq, Eq)]
pub enum ConfigError {
    /// The protocol declares no prototype.
    PrototypesMissing,
    /// The protocol declares no device.
    DevicesMissing,
    /// A prototype has no `name`.
    PrototypeNameMissing,
    /// The prototype of the given name has no transmit segments.
    TransmitSegmentsMissing(String),
    /// The prototype of the given name has no receive segments.
    ReceiveSegmentsMissing(String),
    /// A device declares no message: `message` is missing, is no list, or
    /// is an empty list.
    DeviceMessagesMissing,
}

/// What a configuration error is: its kind and, where it is about one
/// prototype, that prototype's name.
pub enum ConfigFault {
    PrototypesMissing,
    DevicesMissing,
    PrototypeNameMissing,
    TransmitSegmentsMissing(Seq<char>),
    ReceiveSegmentsMissing(Seq<char>),
    DeviceMessagesMissing,
}

/// The sentence that describes a configuration error.
pub open spec fn fault_text(fault: ConfigFault) -> Seq<char> {
    match fault {
        ConfigFault::PrototypesMissing => "Protocol: prototype object is required"@,
        ConfigFault::DevicesMissing => "Protocol: device object is required"@,
        ConfigFault::PrototypeNameMissing => "Prototype must have a name field"@,
        ConfigFault::TransmitSegmentsMissing(name) => "Prototype "@ + name
            + " must have transmit segments defined"@,
        ConfigFault::ReceiveSegmentsMissing(name) => "Prototype "@ + name
            + " must have receive segments defined"@,
        ConfigFault::DeviceMessagesMissing => "Device must have at least one message defined"@,
    }
}

impl View for ConfigError {
    type V = ConfigFault;

    open spec fn view(&self) -> ConfigFault {
        match self {
            ConfigError::PrototypesMissing => ConfigFault::PrototypesMissing,
            ConfigError::DevicesMissing => ConfigFault::DevicesMissing,
            ConfigError::PrototypeNameMissing => ConfigFault::PrototypeNameMissing,
            ConfigError::TransmitSegmentsMissing(name) => ConfigFault::TransmitSegmentsMissing(
                name@,
            ),
            ConfigError::ReceiveSegmentsMissing(name) => ConfigFault::ReceiveSegmentsMissing(
                name@,
            ),
            ConfigError::DeviceMessagesMissing => ConfigFault::DeviceMessagesMissing,
        }
    }
}

impl ConfigError {
    /// The sentence that describes the error.
    pub fn to_string(&self) -> (text: String)
        ensures
            text@ == fault_text(self@),
    {
        match self {
            ConfigError::PrototypesMissing => String::from_str(
                "Protocol: prototype object is required",
            ),
            ConfigError::DevicesMissing => String::from_str("Protocol: device object is required"),
            ConfigError::PrototypeNameMissing => String::from_str(
                "Prototype must have a name field",
            ),
            ConfigError::TransmitSegmentsMissing(name) => String::from_str("Prototype ").concat(
                name.as_str(),
            ).concat(" must have transmit segments defined"),
            ConfigError::ReceiveSegmentsMissing(name) => String::from_str("Prototype ").concat(
                name.as_str(),
            ).concat(" must have receive segments defined"),
            ConfigError::DeviceMessagesMissing => String::from_str(
                "Device must have at least one message defined",
            ),
        }
    }
}

/// The value of the last member with the given key.
pub open spec fn find_member(members: Seq<Member>, key: Seq<char>) -> Option<ConfigValue>
    decreases members.len(),
{
    if members.len() == 0 {
        None
    } else if members.last().key@ == key {
        Some(members.last().value)
    } else {
        find_member(members.drop_last(), key)
    }
}

/// The text of a value that may be missing; empty unless it is there and
/// is text.
pub open spec fn text_or_empty(value: Option<ConfigValue>) -> Seq<char> {
    match value {
        Some(ConfigValue::Text(s)) => s@,
        _ => Seq::empty(),
    }
}

/// The number of a value that may be missing; 0 unless it is there and is
/// a whole number that is not negative.
pub open spec fn unsigned_or_zero(value: Option<ConfigValue>) -> u64 {
    match value {
        Some(ConfigValue::Unsigned(n)) => n,
        _ => 0,
    }
}

/// The items of a value that may be missing; none unless it is there and
/// is a list.
pub open spec fn items_or_none(value: Option<ConfigValue>) -> Seq<ConfigValue> {
    match value {
        Some(ConfigValue::List(items)) => items@,
        _ => Seq::empty(),
    }
}

impl ConfigValue {
    /// The member of the given key, where this value is an object that has
    /// one.
    pub open spec fn member(self, key: Seq<char>) -> Option<ConfigValue> {
        match self {
            ConfigValue::Object(members) => find_member(members@, key),
            _ => None,
        }
    }

    /// Looks a member up by its key.
    pub fn get(&self, key: &str) -> (found: Option<&ConfigValue>)
        ensures
            match found {
                Some(value) => self.member(key@) == Some(*value),
                None => self.member(key@).is_none(),
            },
    {
        match self {
            ConfigValue::Object(members) => {
                let mut i: usize = members.len();
                assert(members@.take(i as int) =~= members@);
                while i > 0
                    invariant
                        i <= members@.len(),
                        self.member(key@) == find_member(members@, key@),
                        find_member(members@, key@) == find_member(members@.take(i as int), key@),
                    decreases i,
                {
                    i -= 1;
                    assert(members@.take(i + 1).drop_last() =~= members@.take(i as int));
                    assert(members@.take(i + 1).last() == members@[i as int]);
                    if str_eq(members[i].key.as_str(), key) {
                        return Some(&members[i].value);
                    }
                }
                None
            },
            _ => None,
        }
    }

    /// The text of the member of the given key, copied; empty where there
    /// is no such member or it is not text.
    pub fn text_of(&self, key: &str) -> (text: String)
        ensures
            text@ == text_or_empty(self.member(key@)),
    {
        match self.get(key) {
            Some(ConfigValue::Text(s)) => s.clone(),
            _ => String::new(),
        }
    }

    /// The number of the member of the given key; 0 where there is no such
    /// member or it is not a whole number that is not negative.
    pub fn unsigned_of(&self, key: &str) -> (n: u64)
        ensures
            n == unsigned_or_zero(self.member(key@)),
    {
        match self.get(key) {
            Some(ConfigValue::Unsigned(n)) => *n,
            _ => 0,
        }
    }
}

} // verus!

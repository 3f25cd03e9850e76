//! A device: a named, addressed endpoint that owns a list of messages.

use vstd::prelude::*;
use vstd::string::*;
use crate::config::{
    ConfigError,
    ConfigFault,
    ConfigValue,
    items_or_none,
    text_or_empty,
    unsigned_or_zero,
};
use crate::message::{
    Message,
    MessageView,
    clone_messages,
    message_of,
    message_views,
    messages_of,
};

verus! {

/// An addressed endpoint with its messages.
pub struct Device {
    name: String,
    address: u32,
    messages: Vec<Message>,
}

/// What a device is: its name, its address and its messages in order.
pub struct DeviceView {
    pub name: Seq<char>,
    pub address: u32,
    pub messages: Seq<MessageView>,
}

/// What a device becomes when it is set up from a configuration value.
/// The value must list at least one message under `message`: one without
/// that member, or with one that is no list or an empty list, is rejected.
/// `name` and `address` replace the device's own where the value has them,
/// and the listed messages are added to the device's.
pub open spec fn device_of(before: DeviceView, map: ConfigValue) -> Result<
    DeviceView,
    ConfigFault,
> {
    if items_or_none(map.member("message"@)).len() == 0 {
        Err(ConfigFault::DeviceMessagesMissing)
    } else {
        Ok(
            DeviceView {
                name: if map.member("name"@).is_some() {
                    text_or_empty(map.member("name"@))
                } else {
                    before.name
                },
                address: if map.member("address"@).is_some() {
                    (unsigned_or_zero(map.member("address"@)) % 0x1_0000_0000) as u32
                } else {
                    before.address
                },
                messages: before.messages + messages_of(items_or_none(map.member("message"@))),
            },
        )
    }
}

impl View for Device {
    type V = DeviceView;

    closed spec fn view(&self) -> DeviceView {
        DeviceView {
            name: self.name@,
            address: self.address,
            messages: message_views(self.messages@),
        }
    }
}

impl Device {
    /// A device without name or messages, at address 0.
    pub fn new() -> (device: Device)
        ensures
            device@ == (DeviceView { name: Seq::empty(), address: 0, messages: Seq::empty() }),
    {
        let device = Device { name: String::new(), address: 0, messages: Vec::new() };
        assert(message_views(device.messages@) =~= Seq::<MessageView>::empty());
        device
    }

    /// Sets the device up from a configuration value. A value that is
    /// rejected leaves the device as it was.
    pub fn from_map(&mut self, map: &ConfigValue) -> (result: Result<(), ConfigError>)
        ensures
            match device_of(old(self)@, *map) {
                Ok(device) => result.is_ok() && final(self)@ == device,
                Err(e) => result is Err && result->Err_0@ == e && final(self)@ == old(self)@,
            },
    {
        let items = match map.get("message") {
            Some(ConfigValue::List(items)) => items,
            _ => {
                return Err(ConfigError::DeviceMessagesMissing);
            },
        };
        if items.len() == 0 {
            return Err(ConfigError::DeviceMessagesMissing);
        }
        if map.get("name").is_some() {
            self.name = map.text_of("name");
        }
        if map.get("address").is_some() {
            self.address = (map.unsigned_of("address") % 0x1_0000_0000) as u32;
        }
        let ghost before = message_views(self.messages@);
        let mut i: usize = 0;
        assert(before + messages_of(items@.take(0)) =~= before);
        while i < items.len()
            invariant
                i <= items@.len(),
                items@ == items_or_none(map.member("message"@)),
                items@.len() > 0,
                before == old(self)@.messages,
                self.messages@.len() == before.len() + i,
                message_views(self.messages@) == before + messages_of(items@.take(i as int)),
                self.name@ == device_of(old(self)@, *map)->Ok_0.name,
                self.address == device_of(old(self)@, *map)->Ok_0.address,
            decreases items@.len() - i,
        {
            let mut message = Message::new();
            message.from_map(&items[i]);
            assert(message@ == message_of(items@[i as int]));
            let ghost earlier = self.messages@;
            self.messages.push(message);
            i += 1;
            assert forall|k: int| 0 <= k < self.messages@.len() implies message_views(
                self.messages@,
            )[k] == (before + messages_of(items@.take(i as int)))[k] by {
                if k < earlier.len() {
                    assert(message_views(earlier)[k] == (before + messages_of(
                        items@.take(i - 1),
                    ))[k]);
                }
            }
            assert(message_views(self.messages@) =~= before + messages_of(
                items@.take(i as int),
            ));
        }
        assert(items@.take(i as int) =~= items@);
        Ok(())
    }

    pub fn get_name(&self) -> (name: &String)
        ensures
            name@ == self@.name,
    {
        &self.name
    }

    pub fn get_address(&self) -> (address: u32)
        ensures
            address == self@.address,
    {
        self.address
    }

    pub fn get_messages(&self) -> (messages: &Vec<Message>)
        ensures
            message_views(messages@) == self@.messages,
    {
        &self.messages
    }

    /// Replaces the device's messages by a copy of the given ones, unless
    /// none are given.
    pub fn set_messages(&mut self, messages: &Vec<Message>)
        ensures
            final(self)@.name == old(self)@.name,
            final(self)@.address == old(self)@.address,
            final(self)@.messages == if messages@.len() > 0 {
                message_views(messages@)
            } else {
                old(self)@.messages
            },
    {
        if messages.len() > 0 {
            self.messages = clone_messages(messages);
        }
    }
}

impl Default for Device {
    fn default() -> (device: Device)
        ensures
            device@ == (DeviceView { name: Seq::empty(), address: 0, messages: Seq::empty() }),
    {
        Device::new()
    }
}

impl Clone for Device {
    fn clone(&self) -> (copy: Device)
        ensures
            copy@ == self@,
    {
        Device {
            name: self.name.clone(),
            address: self.address,
            messages: clone_messages(&self.messages),
        }
    }
}

/// The views of a sequence of devices, in order.
pub open spec fn device_views(devices: Seq<Device>) -> Seq<DeviceView> {
    Seq::new(devices.len(), |i: int| devices[i]@)
}

} // verus!

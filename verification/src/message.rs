//! A message of a device: a name, the values of its fields, and the bytes
//! that stand for it once it has been encoded.

use vstd::prelude::*;
use vstd::string::*;
use crate::config::{ConfigValue, Member, text_or_empty};
use crate::text::{str_eq, to_lowercase, lowercase_of};

verus! {

/// The value of one field of a message, as far as encoding reads it.
pub enum FieldValue {
    /// A whole number that is not negative.
    Unsigned(u64),
    Text(String),
    /// Anything else; it counts as 0 where a number is asked for.
    Other,
}

/// A field of a message: its name and its value.
pub struct Field {
    pub key: String,
    pub value: FieldValue,
}

/// A named set of field values with the bytes encoded from them.
pub struct Message {
    name: String,
    message: Vec<u8>,
    msg_dict: Vec<Field>,
}

/// What a message is: its name, its encoded bytes (empty until they are
/// set) and its fields in the order in which they were first set. In the
/// fields of a message no name occurs twice.
pub struct MessageView {
    pub name: Seq<char>,
    pub buffer: Seq<u8>,
    pub fields: Seq<Field>,
}

/// The field value that a configuration value gives.
pub open spec fn field_value_of(value: ConfigValue) -> FieldValue {
    match value {
        ConfigValue::Unsigned(n) => FieldValue::Unsigned(n),
        ConfigValue::Text(s) => FieldValue::Text(s),
        _ => FieldValue::Other,
    }
}

/// Whether no two fields have the same name.
pub open spec fn unique_keys(fields: Seq<Field>) -> bool {
    forall|i: int, j: int| 0 <= i < j < fields.len() ==> fields[i].key@ != fields[j].key@
}

/// The index of the first field of the given name; -1 where there is none.
pub open spec fn key_index(fields: Seq<Field>, key: Seq<char>) -> int
    decreases fields.len(),
{
    if fields.len() == 0 {
        -1
    } else if key_index(fields.drop_last(), key) >= 0 {
        key_index(fields.drop_last(), key)
    } else if fields.last().key@ == key {
        fields.len() - 1
    } else {
        -1
    }
}

/// The fields after one more is set: it takes the place of the field of
/// its name where there is one, and comes last where there is none.
pub open spec fn put(fields: Seq<Field>, field: Field) -> Seq<Field> {
    let i = key_index(fields, field.key@);
    if i >= 0 {
        fields.update(i, field)
    } else {
        fields.push(field)
    }
}

/// The fields after the members of an object have been set in order, all
/// but `name`.
pub open spec fn put_all(fields: Seq<Field>, members: Seq<Member>) -> Seq<Field>
    decreases members.len(),
{
    if members.len() == 0 {
        fields
    } else if members.last().key@ == "name"@ {
        put_all(fields, members.drop_last())
    } else {
        put(
            put_all(fields, members.drop_last()),
            Field { key: members.last().key, value: field_value_of(members.last().value) },
        )
    }
}

/// The fields after a configuration value has been read into them: set
/// from its members where it is an object, else as they were.
pub open spec fn fields_after(fields: Seq<Field>, map: ConfigValue) -> Seq<Field> {
    match map {
        ConfigValue::Object(members) => put_all(fields, members@),
        _ => fields,
    }
}

/// `key_index` is -1 or the index of a field of the given name, and where
/// it is -1 no field has that name.
pub proof fn lemma_key_index(fields: Seq<Field>, key: Seq<char>)
    ensures
        key_index(fields, key) == -1 || (0 <= key_index(fields, key) < fields.len()
            && fields[key_index(fields, key)].key@ == key),
        key_index(fields, key) == -1 ==> forall|j: int|
            0 <= j < fields.len() ==> (#[trigger] fields[j]).key@ != key,
    decreases fields.len(),
{
    if fields.len() > 0 {
        lemma_key_index(fields.drop_last(), key);
        if key_index(fields, key) == -1 {
            assert forall|j: int| 0 <= j < fields.len() implies (#[trigger] fields[j]).key@
                != key by {
                if j < fields.len() - 1 {
                    assert(fields.drop_last()[j] == fields[j]);
                }
            }
        }
    }
}

/// Setting a field keeps the names of the fields apart.
pub proof fn lemma_put_keeps_keys_unique(fields: Seq<Field>, field: Field)
    requires
        unique_keys(fields),
    ensures
        unique_keys(put(fields, field)),
{
    lemma_key_index(fields, field.key@);
}

/// After a field is set, looking its name up gives its value, and every
/// other name gives what it gave before.
pub proof fn lemma_lookup_after_put(fields: Seq<Field>, field: Field, key: Seq<char>)
    requires
        unique_keys(fields),
    ensures
        lookup(put(fields, field), key) == if key == field.key@ {
            Some(field.value)
        } else {
            lookup(fields, key)
        },
{
    lemma_key_index(fields, field.key@);
    let i = key_index(fields, field.key@);
    if i >= 0 {
        lemma_lookup_after_update(fields, i, field, key, fields.len() as int);
        assert(fields.take(fields.len() as int) =~= fields);
        assert(fields.update(i, field).take(fields.len() as int) =~= fields.update(i, field));
    } else {
        assert(fields.push(field).drop_last() =~= fields);
    }
}

proof fn lemma_lookup_after_update(
    fields: Seq<Field>,
    i: int,
    field: Field,
    key: Seq<char>,
    n: int,
)
    requires
        unique_keys(fields),
        0 <= i < fields.len(),
        fields[i].key@ == field.key@,
        0 <= n <= fields.len(),
    ensures
        lookup(fields.update(i, field).take(n), key) == if key == field.key@ && i < n {
            Some(field.value)
        } else {
            lookup(fields.take(n), key)
        },
    decreases n,
{
    if n > 0 {
        lemma_lookup_after_update(fields, i, field, key, n - 1);
        assert(fields.update(i, field).take(n).drop_last() =~= fields.update(i, field).take(
            n - 1,
        ));
        assert(fields.take(n).drop_last() =~= fields.take(n - 1));
        if key == field.key@ && i < n - 1 {
            assert(fields[n - 1].key@ != fields[i].key@);
        }
    }
}

/// The message that a configuration value describes, not yet encoded.
pub open spec fn message_of(map: ConfigValue) -> MessageView {
    MessageView {
        name: text_or_empty(map.member("name"@)),
        buffer: Seq::empty(),
        fields: fields_after(Seq::empty(), map),
    }
}

/// The value of the last field with the given name.
pub open spec fn lookup(fields: Seq<Field>, key: Seq<char>) -> Option<FieldValue>
    decreases fields.len(),
{
    if fields.len() == 0 {
        None
    } else if fields.last().key@ == key {
        Some(fields.last().value)
    } else {
        lookup(fields.drop_last(), key)
    }
}

/// The number that a field stands for: its value where it is a whole number
/// that is not negative, else 0.
pub open spec fn number_of(value: Option<FieldValue>) -> u64 {
    match value {
        Some(FieldValue::Unsigned(n)) => n,
        _ => 0,
    }
}

/// The declared number of data items: the field `length`, cut to 32 bits.
pub open spec fn data_length(fields: Seq<Field>) -> u32 {
    (number_of(lookup(fields, "length"@)) % 0x1_0000_0000) as u32
}

/// The declared data type: the field `data_type` where it is text, else
/// `int16`.
pub open spec fn data_type(fields: Seq<Field>) -> Seq<char> {
    match lookup(fields, "data_type"@) {
        Some(FieldValue::Text(s)) => s@,
        _ => "int16"@,
    }
}

/// The number of payload bytes for `length` items of a data type, given by
/// its lower-case name; 0 for a type that is not known. The count is kept
/// to 32 bits.
pub open spec fn payload_bytes(data_type: Seq<char>, length: u32) -> u32 {
    if data_type == "bit"@ {
        ((length + 7) / 8) as u32
    } else if data_type == "int16"@ {
        ((length * 2) % 0x1_0000_0000) as u32
    } else if data_type == "int32"@ || data_type == "float"@ {
        ((length * 4) % 0x1_0000_0000) as u32
    } else if data_type == "string"@ {
        length
    } else {
        0
    }
}

/// The number of payload bytes that a message's fields declare.
pub open spec fn data_byte_count(fields: Seq<Field>) -> u32 {
    payload_bytes(lowercase_of(data_type(fields)), data_length(fields))
}

impl Clone for FieldValue {
    fn clone(&self) -> (copy: FieldValue)
        ensures
            copy == *self,
    {
        match self {
            FieldValue::Unsigned(n) => FieldValue::Unsigned(*n),
            FieldValue::Text(s) => FieldValue::Text(s.clone()),
            FieldValue::Other => FieldValue::Other,
        }
    }
}

impl Clone for Field {
    fn clone(&self) -> (copy: Field)
        ensures
            copy == *self,
    {
        Field { key: self.key.clone(), value: self.value.clone() }
    }
}

impl FieldValue {
    /// The field value that a configuration value gives.
    pub fn from_config(value: &ConfigValue) -> (field: FieldValue)
        ensures
            field == field_value_of(*value),
    {
        match value {
            ConfigValue::Unsigned(n) => FieldValue::Unsigned(*n),
            ConfigValue::Text(s) => FieldValue::Text(s.clone()),
            _ => FieldValue::Other,
        }
    }
}

impl View for Message {
    type V = MessageView;

    closed spec fn view(&self) -> MessageView {
        MessageView { name: self.name@, buffer: self.message@, fields: self.msg_dict@ }
    }
}

impl Message {
    #[verifier::type_invariant]
    spec fn fields_are_apart(self) -> bool {
        unique_keys(self.msg_dict@)
    }

    /// A message without name, fields or bytes.
    pub fn new() -> (message: Message)
        ensures
            message@ == (MessageView {
                name: Seq::empty(),
                buffer: Seq::empty(),
                fields: Seq::empty(),
            }),
    {
        Message { name: String::new(), message: Vec::new(), msg_dict: Vec::new() }
    }

    /// Takes the name from a configuration value and sets a field for each
    /// of its other members: a member whose name a field has already takes
    /// that field's place.
    pub fn from_map(&mut self, map: &ConfigValue)
        ensures
            final(self)@.name == text_or_empty(map.member("name"@)),
            final(self)@.buffer == old(self)@.buffer,
            final(self)@.fields == fields_after(old(self)@.fields, *map),
            unique_keys(final(self)@.fields),
    {
        proof {
            use_type_invariant(&*self);
        }
        self.name = map.text_of("name");
        match map {
            ConfigValue::Object(members) => {
                let mut fields: Vec<Field> = clone_fields(&self.msg_dict);
                let ghost before = self.msg_dict@;
                let mut i: usize = 0;
                assert(members@.take(0) =~= Seq::<Member>::empty());
                while i < members.len()
                    invariant
                        i <= members@.len(),
                        unique_keys(fields@),
                        fields@ == put_all(before, members@.take(i as int)),
                    decreases members@.len() - i,
                {
                    assert(members@.take(i + 1).drop_last() =~= members@.take(i as int));
                    assert(members@.take(i + 1).last() == members@[i as int]);
                    if !str_eq(members[i].key.as_str(), "name") {
                        put_field(
                            &mut fields,
                            Field {
                                key: members[i].key.clone(),
                                value: FieldValue::from_config(&members[i].value),
                            },
                        );
                    }
                    i += 1;
                }
                assert(members@.take(i as int) =~= members@);
                self.msg_dict = fields;
            },
            _ => {},
        }
    }

    pub fn get_name(&self) -> (name: &String)
        ensures
            name@ == self@.name,
    {
        &self.name
    }

    pub fn get_message(&self) -> (buffer: &Vec<u8>)
        ensures
            buffer@ == self@.buffer,
    {
        &self.message
    }

    /// The fields; no two of them have the same name.
    pub fn get_msg_dict(&self) -> (fields: &Vec<Field>)
        ensures
            fields@ == self@.fields,
            unique_keys(fields@),
    {
        proof {
            use_type_invariant(self);
        }
        &self.msg_dict
    }

    /// Looks a field up by its name.
    pub fn get_field(&self, key: &str) -> (found: Option<&FieldValue>)
        ensures
            match found {
                Some(value) => lookup(self@.fields, key@) == Some(*value),
                None => lookup(self@.fields, key@).is_none(),
            },
    {
        let mut i: usize = self.msg_dict.len();
        assert(self.msg_dict@.take(i as int) =~= self.msg_dict@);
        while i > 0
            invariant
                i <= self.msg_dict@.len(),
                lookup(self.msg_dict@, key@) == lookup(self.msg_dict@.take(i as int), key@),
            decreases i,
        {
            i -= 1;
            assert(self.msg_dict@.take(i + 1).drop_last() =~= self.msg_dict@.take(i as int));
            assert(self.msg_dict@.take(i + 1).last() == self.msg_dict@[i as int]);
            if str_eq(self.msg_dict[i].key.as_str(), key) {
                return Some(&self.msg_dict[i].value);
            }
        }
        None
    }

    /// Stores the encoded bytes, once: only where none are stored yet and
    /// `msg` is not empty.
    pub fn set_message(&mut self, msg: &Vec<u8>)
        ensures
            final(self)@.name == old(self)@.name,
            final(self)@.fields == old(self)@.fields,
            final(self)@.buffer == if old(self)@.buffer.len() == 0 && msg@.len() > 0 {
                msg@
            } else {
                old(self)@.buffer
            },
    {
        proof {
            use_type_invariant(&*self);
        }
        if self.message.len() == 0 && msg.len() > 0 {
            self.message = msg.clone();
        }
    }

    /// The number of payload bytes for `length` items of the data type
    /// whose lower-case name is given.
    pub fn byte_count_for(data_type: &str, length: u32) -> (count: u32)
        ensures
            count == payload_bytes(data_type@, length),
    {
        if str_eq(data_type, "bit") {
            if length % 8 == 0 {
                length / 8
            } else {
                length / 8 + 1
            }
        } else if str_eq(data_type, "int16") {
            ((length as u64 * 2) % 0x1_0000_0000) as u32
        } else if str_eq(data_type, "int32") || str_eq(data_type, "float") {
            ((length as u64 * 4) % 0x1_0000_0000) as u32
        } else if str_eq(data_type, "string") {
            length
        } else {
            0
        }
    }

    /// The number of payload bytes that the fields `data_type` and `length`
    /// declare.
    pub fn get_data_byte_count(&self) -> (count: u32)
        ensures
            count == data_byte_count(self@.fields),
    {
        let length: u32 = self.get_data_length();
        let lower: String = match self.get_field("data_type") {
            Some(FieldValue::Text(s)) => to_lowercase(s.as_str()),
            _ => to_lowercase("int16"),
        };
        Self::byte_count_for(lower.as_str(), length)
    }

    /// The declared number of data items.
    pub fn get_data_length(&self) -> (length: u32)
        ensures
            length == data_length(self@.fields),
    {
        match self.get_field("length") {
            Some(FieldValue::Unsigned(n)) => (*n % 0x1_0000_0000) as u32,
            _ => 0,
        }
    }
}

impl Default for Message {
    fn default() -> (message: Message)
        ensures
            message@ == (MessageView {
                name: Seq::empty(),
                buffer: Seq::empty(),
                fields: Seq::empty(),
            }),
    {
        Message::new()
    }
}

impl Clone for Message {
    fn clone(&self) -> (copy: Message)
        ensures
            copy@ == self@,
    {
        proof {
            use_type_invariant(self);
        }
        Message {
            name: self.name.clone(),
            message: self.message.clone(),
            msg_dict: clone_fields(&self.msg_dict),
        }
    }
}

/// Copies a list of fields.
pub fn clone_fields(fields: &Vec<Field>) -> (copy: Vec<Field>)
    ensures
        copy@ == fields@,
{
    let mut copy: Vec<Field> = Vec::new();
    let mut i: usize = 0;
    while i < fields.len()
        invariant
            i <= fields@.len(),
            copy@ == fields@.take(i as int),
        decreases fields@.len() - i,
    {
        copy.push(fields[i].clone());
        i += 1;
        assert(copy@ =~= fields@.take(i as int));
    }
    assert(fields@.take(i as int) =~= fields@);
    copy
}

/// Sets a field among fields whose names are apart: it takes the place of
/// the field of its name, or comes last.
pub fn put_field(fields: &mut Vec<Field>, field: Field)
    requires
        unique_keys(old(fields)@),
    ensures
        final(fields)@ == put(old(fields)@, field),
        unique_keys(final(fields)@),
{
    proof {
        lemma_put_keeps_keys_unique(fields@, field);
    }
    let mut i: usize = 0;
    assert(fields@.take(0) =~= Seq::<Field>::empty());
    while i < fields.len()
        invariant
            i <= fields@.len(),
            fields@ == old(fields)@,
            unique_keys(fields@),
            key_index(fields@.take(i as int), field.key@) == -1,
        decreases fields@.len() - i,
    {
        assert(fields@.take(i + 1).drop_last() =~= fields@.take(i as int));
        if str_eq(fields[i].key.as_str(), field.key.as_str()) {
            proof {
                lemma_key_index_found(fields@, field.key@, i as int, fields@.len() as int);
                assert(fields@.take(fields@.len() as int) =~= fields@);
                lemma_put_keeps_keys_unique(fields@, field);
            }
            fields.set(i, field);
            return ;
        }
        i += 1;
    }
    assert(fields@.take(i as int) =~= fields@);
    fields.push(field);
}

proof fn lemma_key_index_found(fields: Seq<Field>, key: Seq<char>, i: int, n: int)
    requires
        0 <= i < n <= fields.len(),
        key_index(fields.take(i + 1), key) == i,
    ensures
        key_index(fields.take(n), key) == i,
    decreases n,
{
    if n > i + 1 {
        lemma_key_index_found(fields, key, i, n - 1);
        assert(fields.take(n).drop_last() =~= fields.take(n - 1));
    }
}

/// The views of a sequence of messages, in order.
pub open spec fn message_views(messages: Seq<Message>) -> Seq<MessageView> {
    Seq::new(messages.len(), |i: int| messages[i]@)
}

/// The messages that the items of a list describe, in order.
pub open spec fn messages_of(items: Seq<ConfigValue>) -> Seq<MessageView> {
    Seq::new(items.len(), |i: int| message_of(items[i]))
}

/// Copies a list of messages.
pub fn clone_messages(messages: &Vec<Message>) -> (copy: Vec<Message>)
    ensures
        message_views(copy@) == message_views(messages@),
{
    let mut copy: Vec<Message> = Vec::new();
    let mut i: usize = 0;
    while i < messages.len()
        invariant
            i <= messages@.len(),
            copy@.len() == i,
            forall|k: int| 0 <= k < i ==> (#[trigger] copy@[k])@ == messages@[k]@,
        decreases messages@.len() - i,
    {
        copy.push(messages[i].clone());
        i += 1;
    }
    assert(message_views(copy@) =~= message_views(messages@));
    copy
}

} // verus!

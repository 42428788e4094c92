//! The messages that travel through ports.
use crate::clock::clock_millis;
use crate::clock::clock_nanos;
use crate::clock::now_millis;
use crate::ids::hex;
use crate::ids::hex_value;
use crate::ids::id_text;
use crate::ids::law_hex_reads_back;
use crate::ids::law_ids_are_unique;
use crate::ids::MessageIds;
use crate::metadata::Metadata;
use crate::priority::MessagePriority;
use vstd::prelude::*;
use vstd::std_specs::cmp::PartialEqSpecImpl;

verus! {

/// `<String as From<&str>>::from`: a string of the same characters.
pub assume_specification<'a>[ <String as From<&'a str>>::from ](s: &str) -> (r: String)
    ensures
        r@ == s@,
;

/// Whether converting `value` may give `text`.
pub open spec fn converts_to<S: Into<String>>(value: S, text: String) -> bool {
    call_ensures(S::into, (value,), text)
}

/// A message travelling through a port.
#[derive(Debug)]
pub struct PortMessage {
    /// Identifies the message.
    pub id: String,
    /// Who sent it.
    pub source: String,
    /// What it says.
    pub content: String,
    /// When it was made, in milliseconds since the Unix epoch.
    pub timestamp: u64,
    /// Further annotations.
    pub metadata: Metadata,
    /// How urgent it is.
    pub priority: MessagePriority,
}

/// What a message says, as mathematical values.
#[verifier::ext_equal]
pub struct MessageView {
    pub id: Seq<char>,
    pub source: Seq<char>,
    pub content: Seq<char>,
    pub timestamp: u64,
    pub metadata: Map<Seq<char>, Seq<char>>,
    pub priority: MessagePriority,
}

impl View for PortMessage {
    type V = MessageView;

    open spec fn view(&self) -> MessageView {
        MessageView {
            id: self.id@,
            source: self.source@,
            content: self.content@,
            timestamp: self.timestamp,
            metadata: self.metadata@,
            priority: self.priority,
        }
    }
}

impl PortMessage {
    /// A message of normal priority without annotations.
    pub fn assemble(id: String, source: String, content: String, timestamp: u64) -> (r: Self)
        ensures
            r.id == id,
            r.source == source,
            r.content == content,
            r.timestamp == timestamp,
            r.metadata@ == Map::<Seq<char>, Seq<char>>::empty(),
            r.priority == MessagePriority::Normal,
    {
        PortMessage {
            id,
            source,
            content,
            timestamp,
            metadata: Metadata::new(),
            priority: MessagePriority::Normal,
        }
    }

    /// A message of normal priority without annotations, made now, with the next identifier of
    /// `ids`. The time in the identifier and the timestamp are whatever the clock says.
    pub fn new<S: Into<String>, C: Into<String>>(
        ids: &mut MessageIds,
        source: S,
        content: C,
    ) -> (r: Self)
        ensures
            exists|nanos: u128| #[trigger]
                clock_nanos(nanos) && r.id@ == id_text(nanos as nat, old(ids).number() as nat),
            clock_millis(r.timestamp),
            converts_to(source, r.source),
            converts_to(content, r.content),
            r.metadata@ == Map::<Seq<char>, Seq<char>>::empty(),
            r.priority == MessagePriority::Normal,
            final(ids).number() == (old(ids).number() + 1) % 0x1_0000_0000_0000_0000,
    {
        Self::assemble(ids.uuid_lite(), source.into(), content.into(), now_millis())
    }

    /// The same message with priority `p`.
    pub fn with_priority(self, p: MessagePriority) -> (r: Self)
        ensures
            r == (PortMessage { priority: p, ..self }),
    {
        let mut message = self;
        message.priority = p;
        message
    }

    /// The same message with `key` annotated by `val`.
    pub fn with_metadata<K: Into<String>, V: Into<String>>(self, key: K, val: V) -> (r: Self)
        ensures
            exists|k: String, v: String| #[trigger]
                converts_to(key, k) && #[trigger] converts_to(val, v) && r.metadata@
                    == self.metadata@.insert(k@, v@),
            r == (PortMessage { metadata: r.metadata, ..self }),
    {
        let mut message = self;
        let k: String = key.into();
        let v: String = val.into();
        assert(converts_to(key, k) && converts_to(val, v));
        message.metadata.insert(k, v);
        message
    }
}

impl Clone for PortMessage {
    fn clone(&self) -> (r: Self)
        ensures
            r@ == self@,
    {
        PortMessage {
            id: self.id.clone(),
            source: self.source.clone(),
            content: self.content.clone(),
            timestamp: self.timestamp,
            metadata: self.metadata.clone(),
            priority: self.priority,
        }
    }
}

impl PartialEqSpecImpl for PortMessage {
    open spec fn obeys_eq_spec() -> bool {
        true
    }

    open spec fn eq_spec(&self, other: &Self) -> bool {
        self@ == other@
    }
}

impl PartialEq for PortMessage {
    fn eq(&self, other: &Self) -> (r: bool) {
        self.id == other.id && self.source == other.source && self.content == other.content
            && self.timestamp == other.timestamp && self.metadata == other.metadata
            && self.priority == other.priority
    }
}

impl Eq for PortMessage {

}

/// Messages that carry different running numbers of their source have different identifiers, at
/// whatever times they were made.
pub proof fn law_messages_have_unique_ids(
    a: PortMessage,
    b: PortMessage,
    nanos_a: u128,
    nanos_b: u128,
    number_a: u64,
    number_b: u64,
)
    requires
        a.id@ == id_text(nanos_a as nat, number_a as nat),
        b.id@ == id_text(nanos_b as nat, number_b as nat),
        number_a != number_b,
    ensures
        a.id@ != b.id@,
        a@ != b@,
{
    if a.id@ == b.id@ {
        law_ids_are_unique(nanos_a as nat, number_a as nat, nanos_b as nat, number_b as nat);
    }
}

/// What a message says is what its fields say, all of them: two messages say the same exactly
/// when each field does.
pub proof fn law_message_is_what_its_fields_say(a: PortMessage, b: PortMessage)
    ensures
        a@ == b@ <==> {
            &&& a.id@ == b.id@
            &&& a.source@ == b.source@
            &&& a.content@ == b.content@
            &&& a.timestamp == b.timestamp
            &&& a.metadata@ == b.metadata@
            &&& a.priority == b.priority
        },
{
}

/// A clone is the same message, field by field.
pub proof fn law_clone_is_the_same_message(message: PortMessage, r: PortMessage)
    requires
        call_ensures(<PortMessage as Clone>::clone, (&message,), r),
    ensures
        r.id@ == message.id@,
        r.source@ == message.source@,
        r.content@ == message.content@,
        r.timestamp == message.timestamp,
        r.metadata@ == message.metadata@,
        r.priority == message.priority,
{
}

/// Two messages compare as equal exactly when every field says the same.
pub proof fn law_messages_are_equal_field_by_field(a: PortMessage, b: PortMessage, r: bool)
    requires
        call_ensures(<PortMessage as PartialEq>::eq, (&a, &b), r),
    ensures
        r <==> {
            &&& a.id@ == b.id@
            &&& a.source@ == b.source@
            &&& a.content@ == b.content@
            &&& a.timestamp == b.timestamp
            &&& a.metadata@ == b.metadata@
            &&& a.priority == b.priority
        },
{
}

/// A message that is assembled has the given fields, normal priority and no annotations.
pub proof fn law_assembled_message_has_its_parts(
    id: String,
    source: String,
    content: String,
    timestamp: u64,
    r: PortMessage,
)
    requires
        call_ensures(PortMessage::assemble, (id, source, content, timestamp), r),
    ensures
        r.id@ == id@,
        r.source@ == source@,
        r.content@ == content@,
        r.timestamp == timestamp,
        r.priority is Normal,
        forall|key: Seq<char>| !(#[trigger] r.metadata@.contains_key(key)),
{
}

/// A new message has the given source and content, normal priority, no annotations and a time
/// that the clock tells. Its identifier spells a time that the clock tells and, after a hyphen,
/// the next running number, which the source of identifiers then moves on by one.
pub proof fn law_new_message_says_what_it_was_given<S: Into<String>, C: Into<String>>(
    ids: &mut MessageIds,
    source: S,
    content: C,
    source_text: Seq<char>,
    content_text: Seq<char>,
    r: PortMessage,
)
    requires
        call_ensures(PortMessage::new::<S, C>, (ids, source, content), r),
        forall|text: String| #[trigger]
            call_ensures(S::into, (source,), text) ==> text@ == source_text,
        forall|text: String| #[trigger]
            call_ensures(C::into, (content,), text) ==> text@ == content_text,
    ensures
        r.source@ == source_text,
        r.content@ == content_text,
        r.priority is Normal,
        forall|key: Seq<char>| !(#[trigger] r.metadata@.contains_key(key)),
        clock_millis(r.timestamp),
        exists|hyphen: int, nanos: u128|
            {
                &&& 0 <= hyphen < r.id@.len()
                &&& #[trigger] r.id@[hyphen] == '-'
                &&& #[trigger] clock_nanos(nanos)
                &&& hex_value(r.id@.take(hyphen)) == Some(nanos as nat)
                &&& hex_value(r.id@.skip(hyphen + 1)) == Some(old(ids).number() as nat)
            },
        old(ids).number() < u64::MAX ==> final(ids).number() == old(ids).number() + 1,
        old(ids).number() == u64::MAX ==> final(ids).number() == 0,
{
    assert(converts_to(source, r.source) && converts_to(content, r.content));
    let nanos = choose|nanos: u128| #[trigger]
        clock_nanos(nanos) && r.id@ == id_text(nanos as nat, old(ids).number() as nat);
    let time = hex(nanos as nat);
    law_hex_reads_back(nanos as nat);
    law_hex_reads_back(old(ids).number() as nat);
    assert(r.id@.take(time.len() as int) =~= time);
    assert(r.id@.skip(time.len() as int + 1) =~= hex(old(ids).number() as nat));
    assert(r.id@[time.len() as int] == '-');
}

/// Setting the priority sets it, whatever it was, and leaves the rest of the message alone.
pub proof fn law_priority_is_set_alone(message: PortMessage, p: MessagePriority, r: PortMessage)
    requires
        call_ensures(PortMessage::with_priority, (message, p), r),
    ensures
        r.priority == p,
        r.id@ == message.id@,
        r.source@ == message.source@,
        r.content@ == message.content@,
        r.timestamp == message.timestamp,
        r.metadata@ == message.metadata@,
{
}

/// An annotation that is set can be looked up, whatever its key had before; the other ones, and
/// the rest of the message, stay as they were.
pub proof fn law_annotation_is_set_alone<K: Into<String>, V: Into<String>>(
    message: PortMessage,
    key: K,
    val: V,
    key_text: Seq<char>,
    val_text: Seq<char>,
    r: PortMessage,
)
    requires
        call_ensures(PortMessage::with_metadata::<K, V>, (message, key, val), r),
        forall|text: String| #[trigger] call_ensures(K::into, (key,), text) ==> text@ == key_text,
        forall|text: String| #[trigger] call_ensures(V::into, (val,), text) ==> text@ == val_text,
    ensures
        r.metadata@.contains_key(key_text),
        r.metadata@[key_text] == val_text,
        forall|other: Seq<char>|
            other != key_text ==> (#[trigger] r.metadata@.contains_key(other)
                <==> message.metadata@.contains_key(other)),
        forall|other: Seq<char>|
            other != key_text && message.metadata@.contains_key(other)
                ==> #[trigger] r.metadata@[other] == message.metadata@[other],
        r.id@ == message.id@,
        r.source@ == message.source@,
        r.content@ == message.content@,
        r.timestamp == message.timestamp,
        r.priority == message.priority,
{
    let (k, v) = choose|k: String, v: String| #[trigger]
        converts_to(key, k) && #[trigger] converts_to(val, v) && r.metadata@
            == message.metadata@.insert(k@, v@);
    assert(call_ensures(K::into, (key,), k) && call_ensures(V::into, (val,), v));
}

} // verus!

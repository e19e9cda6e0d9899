//! Events of a key event log, their payloads and their canonical encoding.
use vstd::prelude::*;
use crate::bytes::{copy_bytes, copy_list, enc_bytes, enc_list, enc_u64, list_view, push_bytes, push_list, push_u64};
use crate::prefix::{enc_prefix, IdentifierPrefix, PrefixView};

verus! {

/// The signing authority established by an event: a signature threshold, the
/// ordered public keys, and the digest committing to the next key set.
#[derive(Debug)]
pub struct KeyConfig {
    pub threshold: u64,
    pub public_keys: Vec<Vec<u8>>,
    pub threshold_key_digest: Vec<u8>,
}

pub struct KeyConfigView {
    pub threshold: u64,
    pub public_keys: Seq<Seq<u8>>,
    pub threshold_key_digest: Seq<u8>,
}

impl View for KeyConfig {
    type V = KeyConfigView;

    open spec fn view(&self) -> KeyConfigView {
        KeyConfigView {
            threshold: self.threshold,
            public_keys: list_view(self.public_keys@),
            threshold_key_digest: self.threshold_key_digest@,
        }
    }
}

/// The witnesses of an identifier and how many of them must receipt an event.
#[derive(Debug)]
pub struct WitnessConfig {
    pub tally: u64,
    pub witnesses: Vec<Vec<u8>>,
}

pub struct WitnessConfigView {
    pub tally: u64,
    pub witnesses: Seq<Seq<u8>>,
}

impl View for WitnessConfig {
    type V = WitnessConfigView;

    open spec fn view(&self) -> WitnessConfigView {
        WitnessConfigView { tally: self.tally, witnesses: list_view(self.witnesses@) }
    }
}

#[derive(Debug)]
pub struct InceptionEvent {
    pub key_config: KeyConfig,
    pub witness_config: WitnessConfig,
}

#[derive(Debug)]
pub struct RotationEvent {
    pub previous_event_hash: Vec<u8>,
    pub key_config: KeyConfig,
    pub witness_config: WitnessConfig,
}

#[derive(Debug)]
pub struct InteractionEvent {
    pub previous_event_hash: Vec<u8>,
}

/// Where a validator stood when it made a receipt: its prefix and the digest of
/// its last event.
#[derive(Debug)]
pub struct EventSeal {
    pub prefix: IdentifierPrefix,
    pub event_digest: Vec<u8>,
}

/// A receipt from a validator whose keys may rotate.
#[derive(Debug)]
pub struct ReceiptTransferable {
    pub receipted_event_digest: Vec<u8>,
    pub validator_location_seal: EventSeal,
}

/// The payload of an event, one shape per kind.
#[derive(Debug)]
pub enum EventData {
    Icp(InceptionEvent),
    Rot(RotationEvent),
    Ixn(InteractionEvent),
    Vrc(ReceiptTransferable),
}

pub enum EventDataView {
    Icp { key_config: KeyConfigView, witness_config: WitnessConfigView },
    Rot {
        previous_event_hash: Seq<u8>,
        key_config: KeyConfigView,
        witness_config: WitnessConfigView,
    },
    Ixn { previous_event_hash: Seq<u8> },
    Vrc { receipted_event_digest: Seq<u8>, seal_prefix: PrefixView, seal_digest: Seq<u8> },
}

impl View for EventData {
    type V = EventDataView;

    open spec fn view(&self) -> EventDataView {
        match self {
            EventData::Icp(e) => EventDataView::Icp {
                key_config: e.key_config@,
                witness_config: e.witness_config@,
            },
            EventData::Rot(e) => EventDataView::Rot {
                previous_event_hash: e.previous_event_hash@,
                key_config: e.key_config@,
                witness_config: e.witness_config@,
            },
            EventData::Ixn(e) => EventDataView::Ixn { previous_event_hash: e.previous_event_hash@ },
            EventData::Vrc(r) => EventDataView::Vrc {
                receipted_event_digest: r.receipted_event_digest@,
                seal_prefix: r.validator_location_seal.prefix@,
                seal_digest: r.validator_location_seal.event_digest@,
            },
        }
    }
}

/// An event of an identifier's log: the identifier, its place in the log and
/// its payload.
#[derive(Debug)]
pub struct Event {
    pub prefix: IdentifierPrefix,
    pub sn: u64,
    pub event_data: EventData,
}

pub struct EventView {
    pub prefix: PrefixView,
    pub sn: u64,
    pub event_data: EventDataView,
}

impl View for Event {
    type V = EventView;

    open spec fn view(&self) -> EventView {
        EventView { prefix: self.prefix@, sn: self.sn, event_data: self.event_data@ }
    }
}

/// The encodings an event message can be carried in.
#[derive(PartialEq, Eq, Structural, Clone, Copy, Debug)]
pub enum SerializationFormats {
    Canonical,
}

/// An event with the format it is carried in.
#[derive(Debug)]
pub struct EventMessage {
    pub event: Event,
    pub serialization: SerializationFormats,
}

/// A signature attached to an event message, with the index of the signing key
/// in the key configuration that is in force.
#[derive(Debug)]
pub struct AttachedSignaturePrefix {
    pub index: u64,
    pub signature: Vec<u8>,
}

/// An event message with its attached signatures.
#[derive(Debug)]
pub struct SignedEventMessage {
    pub event_message: EventMessage,
    pub signatures: Vec<AttachedSignaturePrefix>,
}

pub open spec fn enc_key_config(k: KeyConfigView) -> Seq<u8> {
    enc_u64(k.threshold) + enc_list(k.public_keys) + enc_bytes(k.threshold_key_digest)
}

pub open spec fn enc_witness_config(w: WitnessConfigView) -> Seq<u8> {
    enc_u64(w.tally) + enc_list(w.witnesses)
}

/// Canonical encoding of a payload: a kind byte, then the kind's fields.
pub open spec fn enc_event_data(d: EventDataView) -> Seq<u8> {
    match d {
        EventDataView::Icp { key_config, witness_config } => seq![1u8] + enc_key_config(key_config)
            + enc_witness_config(witness_config),
        EventDataView::Rot { previous_event_hash, key_config, witness_config } => seq![2u8]
            + enc_bytes(previous_event_hash) + enc_key_config(key_config) + enc_witness_config(
            witness_config,
        ),
        EventDataView::Ixn { previous_event_hash } => seq![3u8] + enc_bytes(previous_event_hash),
        EventDataView::Vrc { receipted_event_digest, seal_prefix, seal_digest } => seq![4u8]
            + enc_bytes(receipted_event_digest) + enc_prefix(seal_prefix) + enc_bytes(seal_digest),
    }
}

/// Canonical encoding of an event: the prefix, the sequence number, the payload.
pub open spec fn enc_event(e: EventView) -> Seq<u8> {
    enc_prefix(e.prefix) + enc_u64(e.sn) + enc_event_data(e.event_data)
}

/// The commitment to a key set: the digest of the set's canonical encoding.
pub open spec fn key_set_commitment(keys: Seq<Seq<u8>>) -> Seq<u8> {
    crate::crypto::blake3_of(enc_list(keys))
}

impl KeyConfig {
    pub fn copy(&self) -> (r: KeyConfig)
        ensures
            r@ == self@,
    {
        KeyConfig {
            threshold: self.threshold,
            public_keys: copy_list(&self.public_keys),
            threshold_key_digest: copy_bytes(&self.threshold_key_digest),
        }
    }

    pub fn encode_into(&self, out: &mut Vec<u8>)
        ensures
            final(out)@ == old(out)@ + enc_key_config(self@),
    {
        push_u64(out, self.threshold);
        push_list(out, &self.public_keys);
        push_bytes(out, &self.threshold_key_digest);
        assert(final(out)@ =~= old(out)@ + enc_key_config(self@));
    }
}

impl WitnessConfig {
    pub fn copy(&self) -> (r: WitnessConfig)
        ensures
            r@ == self@,
    {
        WitnessConfig { tally: self.tally, witnesses: copy_list(&self.witnesses) }
    }

    pub fn encode_into(&self, out: &mut Vec<u8>)
        ensures
            final(out)@ == old(out)@ + enc_witness_config(self@),
    {
        push_u64(out, self.tally);
        push_list(out, &self.witnesses);
        assert(final(out)@ =~= old(out)@ + enc_witness_config(self@));
    }
}

impl EventData {
    pub fn encode_into(&self, out: &mut Vec<u8>)
        ensures
            final(out)@ == old(out)@ + enc_event_data(self@),
    {
        match self {
            EventData::Icp(e) => {
                out.push(1u8);
                e.key_config.encode_into(out);
                e.witness_config.encode_into(out);
            },
            EventData::Rot(e) => {
                out.push(2u8);
                push_bytes(out, &e.previous_event_hash);
                e.key_config.encode_into(out);
                e.witness_config.encode_into(out);
            },
            EventData::Ixn(e) => {
                out.push(3u8);
                push_bytes(out, &e.previous_event_hash);
            },
            EventData::Vrc(r) => {
                out.push(4u8);
                push_bytes(out, &r.receipted_event_digest);
                r.validator_location_seal.prefix.encode_into(out);
                push_bytes(out, &r.validator_location_seal.event_digest);
            },
        }
        assert(final(out)@ =~= old(out)@ + enc_event_data(self@));
    }
}


impl EventData {
    pub fn copy(&self) -> (r: EventData)
        ensures
            r@ == self@,
    {
        match self {
            EventData::Icp(e) => EventData::Icp(
                InceptionEvent {
                    key_config: e.key_config.copy(),
                    witness_config: e.witness_config.copy(),
                },
            ),
            EventData::Rot(e) => EventData::Rot(
                RotationEvent {
                    previous_event_hash: copy_bytes(&e.previous_event_hash),
                    key_config: e.key_config.copy(),
                    witness_config: e.witness_config.copy(),
                },
            ),
            EventData::Ixn(e) => EventData::Ixn(
                InteractionEvent { previous_event_hash: copy_bytes(&e.previous_event_hash) },
            ),
            EventData::Vrc(r) => EventData::Vrc(
                ReceiptTransferable {
                    receipted_event_digest: copy_bytes(&r.receipted_event_digest),
                    validator_location_seal: EventSeal {
                        prefix: r.validator_location_seal.prefix.copy(),
                        event_digest: copy_bytes(&r.validator_location_seal.event_digest),
                    },
                },
            ),
        }
    }
}

/// The signatures held by a list of attached signatures: key index and bytes.
pub open spec fn signatures_view(s: Seq<AttachedSignaturePrefix>) -> Seq<(u64, Seq<u8>)> {
    s.map_values(|a: AttachedSignaturePrefix| (a.index, a.signature@))
}

impl SignedEventMessage {
    /// A copy of the signed message.
    pub fn copy(&self) -> (r: SignedEventMessage)
        ensures
            r.event_message.event@ == self.event_message.event@,
            r.event_message.serialization == self.event_message.serialization,
            signatures_view(r.signatures@) == signatures_view(self.signatures@),
    {
        let e = &self.event_message.event;
        let mut signatures: Vec<AttachedSignaturePrefix> = Vec::new();
        let mut i: usize = 0;
        while i < self.signatures.len()
            invariant
                i <= self.signatures@.len(),
                signatures@.len() == i,
                forall|j: int|
                    0 <= j < i ==> (#[trigger] signatures@[j]).index == self.signatures@[j].index
                        && signatures@[j].signature@ == self.signatures@[j].signature@,
            decreases self.signatures@.len() - i,
        {
            let a = &self.signatures[i];
            signatures.push(AttachedSignaturePrefix { index: a.index, signature: copy_bytes(&a.signature) });
            i = i + 1;
        }
        assert(signatures_view(signatures@) =~= signatures_view(self.signatures@));
        SignedEventMessage {
            event_message: EventMessage {
                event: Event { prefix: e.prefix.copy(), sn: e.sn, event_data: e.event_data.copy() },
                serialization: self.event_message.serialization,
            },
            signatures,
        }
    }
}
impl InceptionEvent {
    /// The canonical encoding of the inception payload, from which the
    /// self-addressing prefix of a new identifier is derived.
    pub fn inception_data(&self) -> (r: Vec<u8>)
        ensures
            r@ == enc_event_data(
                EventDataView::Icp {
                    key_config: self.key_config@,
                    witness_config: self.witness_config@,
                },
            ),
    {
        let mut out: Vec<u8> = Vec::new();
        out.push(1u8);
        self.key_config.encode_into(&mut out);
        self.witness_config.encode_into(&mut out);
        assert(out@ =~= enc_event_data(
            EventDataView::Icp {
                key_config: self.key_config@,
                witness_config: self.witness_config@,
            },
        ));
        out
    }
}

impl Event {
    /// The canonical encoding of the event.
    pub fn serialize(&self) -> (r: Vec<u8>)
        ensures
            r@ == enc_event(self@),
    {
        let mut out: Vec<u8> = Vec::new();
        self.prefix.encode_into(&mut out);
        push_u64(&mut out, self.sn);
        self.event_data.encode_into(&mut out);
        assert(out@ =~= enc_event(self@));
        out
    }

    /// Wraps the event into a message carried in the given format.
    pub fn to_message(self, format: SerializationFormats) -> (r: Result<EventMessage, crate::state::Error>)
        ensures
            r matches Ok(m) && m.event@ == self@ && m.serialization == format,
    {
        Ok(EventMessage { event: self, serialization: format })
    }
}

impl EventMessage {
    /// The canonical encoding of the message's event.
    pub fn serialize(&self) -> (r: Vec<u8>)
        ensures
            r@ == enc_event(self.event@),
    {
        self.event.serialize()
    }

    /// Attaches signatures to the message.
    pub fn sign(self, signatures: Vec<AttachedSignaturePrefix>) -> (r: SignedEventMessage)
        ensures
            r.event_message.event@ == self.event@,
            r.event_message.serialization == self.serialization,
            r.signatures@ == signatures@,
    {
        SignedEventMessage { event_message: self, signatures }
    }
}

} // verus!

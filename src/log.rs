//! One identifier's own log, with its keys, the receipts that other identifiers
//! gave for its events, and the receipts waiting in escrow.
use vstd::prelude::*;
use crate::bytes::{bytes_eq, copy_bytes, enc_list, list_view, push_list};
use crate::crypto::{
    blake3_digest, blake3_of, ed25519_key_ok, ed25519_keypair, ed25519_pair, ed25519_sign,
    ed25519_signature, ed25519_valid,
};
use crate::parse::enc_signed;
use crate::event::{
    enc_event, key_set_commitment, signatures_view, AttachedSignaturePrefix, Event, EventData,
    EventDataView, EventMessage, EventSeal, EventView, InceptionEvent, InteractionEvent, KeyConfig, KeyConfigView,
    ReceiptTransferable, RotationEvent, SerializationFormats, SignedEventMessage, WitnessConfig,
    WitnessConfigView,
};
use crate::prefix::{IdentifierPrefix, PrefixView};
use crate::state::{
    count_valid_signatures, inception_prefix, initial_state, key_signed, signature_by, signed_count, threshold_met,
    verify_and_apply_event, Error, IdentifierState, StateView,
};

verus! {

/// An identifier's log and key material.
#[derive(Debug)]
pub struct LogState {
    /// The signed events of the log, the event with sequence number `n` at index `n`.
    pub log: Vec<SignedEventMessage>,
    /// Accepted receipts, in the order they were accepted; each is keyed by the
    /// sequence number of the event it attests to, which it carries.
    pub receipts: Vec<SignedEventMessage>,
    pub state: IdentifierState,
    /// The current key pair: public key bytes, secret key bytes.
    pub keypair: (Vec<u8>, Vec<u8>),
    /// The key pair committed to by the last establishment event.
    pub next_keypair: (Vec<u8>, Vec<u8>),
    /// Receipts whose validator seal names an event the validator's known state has not reached.
    pub escrow_sigs: Vec<SignedEventMessage>,
}

/// Whether a receipt is bound to the event at its sequence number in `log`:
/// it is about this identifier, names the digest of the local event, and its
/// seal names the validator.
pub open spec fn receipt_bound(log: Seq<SignedEventMessage>, own: PrefixView, validator: StateView, r: EventView) -> bool {
    match r.event_data {
        EventDataView::Vrc { receipted_event_digest, seal_prefix, .. } => {
            &&& r.sn < log.len()
            &&& r.prefix == own
            &&& receipted_event_digest == blake3_of(enc_event(log[r.sn as int].event_message.event@))
            &&& seal_prefix == validator.prefix
        },
        _ => false,
    }
}

/// Whether a receipt's seal names the validator's last known event.
pub open spec fn seal_current(validator: StateView, r: EventView) -> bool {
    match r.event_data {
        EventDataView::Vrc { seal_prefix, seal_digest, .. } => seal_prefix == validator.prefix
            && seal_digest == blake3_of(validator.last),
        _ => false,
    }
}

/// Whether the receipt's signatures over the local event at its sequence number
/// meet the validator's current threshold.
pub open spec fn receipt_signed(log: Seq<SignedEventMessage>, validator: StateView, r: SignedEventMessage) -> bool {
    let sn = r.event_message.event.sn;
    sn < log.len() && threshold_met(
        validator.current,
        enc_event(log[sn as int].event_message.event@),
        signatures_view(r.signatures@),
    )
}

/// Whether an escrowed receipt can now be accepted on the validator's state.
pub open spec fn escrow_resolves(log: Seq<SignedEventMessage>, validator: StateView, r: SignedEventMessage) -> bool {
    seal_current(validator, r.event_message.event@) && receipt_signed(log, validator, r)
}

/// Whether a list holds a message with the canonical encoding `enc`.
pub open spec fn holds_encoding(s: Seq<SignedEventMessage>, enc: Seq<u8>) -> bool {
    exists|i: int| 0 <= i < s.len() && enc_signed(#[trigger] s[i]) == enc
}

/// The list without the messages whose canonical encoding is `enc`, in order.
pub open spec fn without_encoding(s: Seq<SignedEventMessage>, enc: Seq<u8>) -> Seq<SignedEventMessage>
    decreases s.len(),
{
    if s.len() == 0 {
        s
    } else if enc_signed(s.last()) == enc {
        without_encoding(s.drop_last(), enc)
    } else {
        without_encoding(s.drop_last(), enc).push(s.last())
    }
}

/// The escrowed receipts that resolve against the validator's state, in order.
pub open spec fn resolving(log: Seq<SignedEventMessage>, validator: StateView, s: Seq<SignedEventMessage>) -> Seq<SignedEventMessage>
    decreases s.len(),
{
    if s.len() == 0 {
        s
    } else if escrow_resolves(log, validator, s.last()) {
        resolving(log, validator, s.drop_last()).push(s.last())
    } else {
        resolving(log, validator, s.drop_last())
    }
}

/// The escrowed receipts that do not resolve against the validator's state, in order.
pub open spec fn unresolved(log: Seq<SignedEventMessage>, validator: StateView, s: Seq<SignedEventMessage>) -> Seq<SignedEventMessage>
    decreases s.len(),
{
    if s.len() == 0 {
        s
    } else if escrow_resolves(log, validator, s.last()) {
        unresolved(log, validator, s.drop_last())
    } else {
        unresolved(log, validator, s.drop_last()).push(s.last())
    }
}

/// What resolving the escrow against a validator's state does: the receipts
/// that now resolve move, in order, to the accepted receipts, and the others
/// stay in escrow, in order.
pub open spec fn resolved(pre: LogState, post: LogState, validator: StateView) -> bool {
    &&& post.log == pre.log
    &&& post.state == pre.state
    &&& post.keypair == pre.keypair
    &&& post.next_keypair == pre.next_keypair
    &&& post.receipts@ == pre.receipts@ + resolving(pre.log@, validator, pre.escrow_sigs@)
    &&& post.escrow_sigs@ == unresolved(pre.log@, validator, pre.escrow_sigs@)
}

proof fn lemma_unresolved_do_not_resolve(log: Seq<SignedEventMessage>, validator: StateView, s: Seq<SignedEventMessage>)
    ensures
        forall|i: int| 0 <= i < unresolved(log, validator, s).len() ==> !escrow_resolves(log, validator, #[trigger] unresolved(log, validator, s)[i]),
    decreases s.len(),
{
    if s.len() > 0 {
        lemma_unresolved_do_not_resolve(log, validator, s.drop_last());
        let sub = unresolved(log, validator, s.drop_last());
        let u = unresolved(log, validator, s);
        assert forall|i: int| 0 <= i < u.len() implies !escrow_resolves(log, validator, #[trigger] u[i]) by {
            if !escrow_resolves(log, validator, s.last()) && i == sub.len() {
                assert(u[i] == s.last());
            } else {
                assert(u[i] == sub[i]);
            }
        }
    }
}

proof fn lemma_none_resolve(log: Seq<SignedEventMessage>, validator: StateView, s: Seq<SignedEventMessage>)
    requires
        forall|i: int| 0 <= i < s.len() ==> !escrow_resolves(log, validator, #[trigger] s[i]),
    ensures
        resolving(log, validator, s) == Seq::<SignedEventMessage>::empty(),
        unresolved(log, validator, s) == s,
    decreases s.len(),
{
    if s.len() > 0 {
        assert(!escrow_resolves(log, validator, s[s.len() - 1]));
        lemma_none_resolve(log, validator, s.drop_last());
        assert(s.drop_last().push(s.last()) =~= s);
    } else {
        assert(s =~= Seq::<SignedEventMessage>::empty());
    }
}

/// Once the escrow has been resolved against a validator's state, resolving it
/// again against the same state accepts nothing more and removes nothing more:
/// each escrowed receipt is accepted at most once.
pub proof fn escrow_resolution_is_idempotent(a: LogState, b: LogState, c: LogState, validator: StateView)
    requires
        resolved(a, b, validator),
        resolved(b, c, validator),
    ensures
        c.receipts@ == b.receipts@,
        c.escrow_sigs@ == b.escrow_sigs@,
{
    lemma_unresolved_do_not_resolve(a.log@, validator, a.escrow_sigs@);
    lemma_none_resolve(a.log@, validator, b.escrow_sigs@);
    assert(c.receipts@ =~= b.receipts@);
}

/// What a receipt states: the receipted digest, the seal's prefix and the seal's digest.
pub open spec fn receipt_fields(d: EventDataView) -> (Seq<u8>, PrefixView, Seq<u8>) {
    match d {
        EventDataView::Vrc { receipted_event_digest, seal_prefix, seal_digest } => (
            receipted_event_digest,
            seal_prefix,
            seal_digest,
        ),
        _ => (Seq::empty(), PrefixView::Unset, Seq::empty()),
    }
}

/// Whether a receipt is accepted outright: bound, sealed to the validator's
/// last event, and signed to the validator's threshold.
pub open spec fn receipt_accepted(log: Seq<SignedEventMessage>, own: PrefixView, validator: StateView, r: SignedEventMessage) -> bool {
    receipt_bound(log, own, validator, r.event_message.event@) && seal_current(validator, r.event_message.event@)
        && receipt_signed(log, validator, r)
}

/// A receipt that is accepted stops being accepted when any one of its prefix,
/// receipted digest, seal prefix or seal digest changes: the change to the
/// first three makes it unbound (refused), to the last one unsealed (escrowed).
pub proof fn receipt_binding(
    log: Seq<SignedEventMessage>,
    own: PrefixView,
    validator: StateView,
    r1: SignedEventMessage,
    r2: SignedEventMessage,
)
    requires
        receipt_accepted(log, own, validator, r1),
        r2.event_message.event@.event_data is Vrc,
        r2.event_message.event.sn == r1.event_message.event.sn,
        r2.event_message.event@.prefix != r1.event_message.event@.prefix
            || receipt_fields(r2.event_message.event@.event_data) != receipt_fields(r1.event_message.event@.event_data),
    ensures
        !receipt_accepted(log, own, validator, r2),
        r2.event_message.event@.prefix != r1.event_message.event@.prefix
            || receipt_fields(r2.event_message.event@.event_data).0 != receipt_fields(r1.event_message.event@.event_data).0
            || receipt_fields(r2.event_message.event@.event_data).1 != receipt_fields(r1.event_message.event@.event_data).1
            ==> !receipt_bound(log, own, validator, r2.event_message.event@),
{
}


/// The receipt that an identifier in state `issuer` makes for an event: it is
/// addressed by the receipted event's prefix and sequence number, names that
/// event's digest, and seals the issuer's prefix and the digest of its last event.
pub open spec fn receipt_event(target: EventView, issuer: StateView) -> EventView {
    EventView {
        prefix: target.prefix,
        sn: target.sn,
        event_data: EventDataView::Vrc {
            receipted_event_digest: blake3_of(enc_event(target)),
            seal_prefix: issuer.prefix,
            seal_digest: blake3_of(issuer.last),
        },
    }
}

/// A key configuration of one key with threshold one, committing to one next key.
pub open spec fn single_key_config(key: Seq<u8>, next_key: Seq<u8>) -> KeyConfigView {
    KeyConfigView {
        threshold: 1,
        public_keys: seq![key],
        threshold_key_digest: key_set_commitment(seq![next_key]),
    }
}

pub open spec fn no_witnesses() -> WitnessConfigView {
    WitnessConfigView { tally: 0, witnesses: Seq::empty() }
}

/// The inception event of a new identifier with one key and one committed next key.
pub open spec fn inception_event(key: Seq<u8>, next_key: Seq<u8>) -> EventView {
    EventView {
        prefix: inception_prefix(single_key_config(key, next_key), no_witnesses()),
        sn: 0,
        event_data: EventDataView::Icp {
            key_config: single_key_config(key, next_key),
            witness_config: no_witnesses(),
        },
    }
}

/// The rotation that discloses `key`, committed to before, and commits to `next_key`.
pub open spec fn rotation_event(s: StateView, key: Seq<u8>, next_key: Seq<u8>) -> EventView {
    EventView {
        prefix: s.prefix,
        sn: (s.sn + 1) as u64,
        event_data: EventDataView::Rot {
            previous_event_hash: blake3_of(s.last),
            key_config: single_key_config(key, next_key),
            witness_config: no_witnesses(),
        },
    }
}

/// The interaction event that follows state `s`: it only extends the chain.
pub open spec fn interaction_event(s: StateView) -> EventView {
    EventView {
        prefix: s.prefix,
        sn: (s.sn + 1) as u64,
        event_data: EventDataView::Ixn { previous_event_hash: blake3_of(s.last) },
    }
}

/// The one signature, by key index zero, of an event with a secret key.
pub open spec fn single_signature(secret: Seq<u8>, e: EventView) -> Seq<(u64, Seq<u8>)> {
    seq![(0u64, ed25519_signature(secret, enc_event(e)))]
}

/// The commitment to a single next key.
fn commit_to_key(key: &Vec<u8>) -> (r: Vec<u8>)
    ensures
        r@ == key_set_commitment(seq![key@]),
{
    let keys: Vec<Vec<u8>> = vec![copy_bytes(key)];
    let mut out: Vec<u8> = Vec::new();
    push_list(&mut out, &keys);
    assert(list_view(keys@) =~= seq![key@]);
    assert(out@ =~= enc_list(seq![key@]));
    blake3_digest(&out)
}

fn single_key(key: &Vec<u8>, next_key: &Vec<u8>) -> (r: KeyConfig)
    ensures
        r@ == single_key_config(key@, next_key@),
{
    let r = KeyConfig {
        threshold: 1,
        public_keys: vec![copy_bytes(key)],
        threshold_key_digest: commit_to_key(next_key),
    };
    assert(r@.public_keys =~= seq![key@]);
    r
}

fn empty_witnesses() -> (r: WitnessConfig)
    ensures
        r@ == no_witnesses(),
{
    let r = WitnessConfig { tally: 0, witnesses: Vec::new() };
    assert(r@.witnesses =~= Seq::<Seq<u8>>::empty());
    r
}

/// Signs an event message with key index zero.
fn sign_single(secret: &Vec<u8>, m: EventMessage) -> (r: Option<SignedEventMessage>)
    ensures
        r matches Some(s) ==> s.event_message.event@ == m.event@
            && s.event_message.serialization == m.serialization
            && signatures_view(s.signatures@) == single_signature(secret@, m.event@),
        r is Some <==> ed25519_key_ok(secret@),
        r is Some && ed25519_pair(secret@.subrange(32, 64), secret@) ==> ed25519_valid(
            secret@.subrange(32, 64),
            enc_event(m.event@),
            ed25519_signature(secret@, enc_event(m.event@)),
        ),
{
    let msg = m.serialize();
    match ed25519_sign(secret, &msg) {
        Some(sig) => {
            let signatures = vec![AttachedSignaturePrefix { index: 0, signature: sig }];
            assert(signatures_view(signatures@) =~= single_signature(secret@, m.event@));
            Some(m.sign(signatures))
        },
        None => None,
    }
}

/// Whether a list holds a message with the canonical encoding `enc`.
fn holds_message(list: &Vec<SignedEventMessage>, enc: &Vec<u8>) -> (r: bool)
    ensures
        r == holds_encoding(list@, enc@),
{
    let mut i: usize = 0;
    while i < list.len()
        invariant
            i <= list@.len(),
            forall|j: int| 0 <= j < i ==> enc_signed(#[trigger] list@[j]) != enc@,
        decreases list@.len() - i,
    {
        if bytes_eq(&list[i].serialize(), enc) {
            return true;
        }
        i = i + 1;
    }
    false
}

/// Removes the messages with the canonical encoding `enc`, keeping the order of the others.
fn remove_message(list: &mut Vec<SignedEventMessage>, enc: &Vec<u8>)
    ensures
        final(list)@ == without_encoding(old(list)@, enc@),
{
    let mut pending: Vec<SignedEventMessage> = Vec::new();
    std::mem::swap(&mut pending, list);
    let ghost all = pending@;
    assert(all.subrange(0, 0) =~= Seq::<SignedEventMessage>::empty());
    assert(list@ =~= without_encoding(all.subrange(0, 0), enc@));
    while pending.len() > 0
        invariant
            pending@.len() <= all.len(),
            pending@ == all.subrange(all.len() - pending@.len(), all.len() as int),
            list@ == without_encoding(all.subrange(0, all.len() - pending@.len()), enc@),
            all == old(list)@,
        decreases pending@.len(),
    {
        let ghost k = all.len() - pending@.len();
        let item = pending.remove(0);
        assert(item == all[k]);
        assert(pending@ =~= all.subrange(all.len() - pending@.len(), all.len() as int));
        assert(all.subrange(0, k + 1).drop_last() =~= all.subrange(0, k));
        if !bytes_eq(&item.serialize(), enc) {
            list.push(item);
        }
    }
    assert(all.subrange(0, all.len() as int) =~= all);
}

/// Whether the log state's keys are consistent: the current key configuration
/// is the current key alone, with threshold one, committing to the next key,
/// and both key pairs are matching pairs that ursa accepts for signing.
pub open spec fn keys_consistent(ls: LogState) -> bool {
    &&& ls.state.current@ == single_key_config(ls.keypair.0@, ls.next_keypair.0@)
    &&& ed25519_pair(ls.keypair.0@, ls.keypair.1@)
    &&& ed25519_key_ok(ls.keypair.1@)
    &&& ed25519_pair(ls.next_keypair.0@, ls.next_keypair.1@)
    &&& ed25519_key_ok(ls.next_keypair.1@)
}

/// Whether `post.log` is `pre.log` with `m` appended (up to a copy).
pub open spec fn appended(pre: Seq<SignedEventMessage>, post: Seq<SignedEventMessage>, m: SignedEventMessage) -> bool {
    &&& post.len() == pre.len() + 1
    &&& post.subrange(0, pre.len() as int) == pre
    &&& post.last().event_message.event@ == m.event_message.event@
    &&& signatures_view(post.last().signatures@) == signatures_view(m.signatures@)
}

/// What a rotation to the fresh next key pair of `post` did, with `m` the rotation.
pub open spec fn rotated(pre: LogState, post: LogState, m: SignedEventMessage) -> bool {
    &&& m.event_message.event@ == rotation_event(pre.state@, pre.next_keypair.0@, post.next_keypair.0@)
    &&& signatures_view(m.signatures@) == single_signature(pre.keypair.1@, m.event_message.event@)
    &&& verify_and_apply_event(m.event_message.event@, pre.state@, signatures_view(m.signatures@))
        == Ok::<StateView, Error>(post.state@)
    &&& post.keypair == pre.next_keypair
    &&& appended(pre.log@, post.log@, m)
    &&& post.receipts == pre.receipts
    &&& post.escrow_sigs == pre.escrow_sigs
}

proof fn lemma_single_signature_meets(k: KeyConfigView, msg: Seq<u8>, sigs: Seq<(u64, Seq<u8>)>, key: Seq<u8>, sig: Seq<u8>)
    requires
        k.threshold == 1,
        k.public_keys == seq![key],
        sigs == seq![(0u64, sig)],
        ed25519_valid(key, msg, sig),
    ensures
        threshold_met(k, msg, sigs),
{
    assert(signature_by(k.public_keys, msg, sigs[0], 0));
    assert(key_signed(k.public_keys, msg, sigs, 0));
    assert(signed_count(k.public_keys, msg, sigs, 1) == 1) by {
        reveal_with_fuel(signed_count, 2);
    }
}

impl LogState {

    /// Incepts a new identifier with the given key pairs: one signing key with
    /// threshold one, committing to the next key.
    pub fn incept(keypair: (Vec<u8>, Vec<u8>), next_keypair: (Vec<u8>, Vec<u8>)) -> (r: Result<LogState, Error>)
        ensures
            !ed25519_key_ok(keypair.1@) ==> r == Err::<LogState, Error>(Error::CryptoError),
            ed25519_pair(keypair.0@, keypair.1@) && ed25519_key_ok(keypair.1@) ==> r is Ok,
            r matches Ok(ls) ==> {
                &&& ls.keypair == keypair
                &&& ls.next_keypair == next_keypair
                &&& ls.log@.len() == 1
                &&& ls.log@[0].event_message.event@ == inception_event(ls.keypair.0@, ls.next_keypair.0@)
                &&& signatures_view(ls.log@[0].signatures@) == single_signature(ls.keypair.1@, ls.log@[0].event_message.event@)
                &&& verify_and_apply_event(
                    ls.log@[0].event_message.event@,
                    initial_state(),
                    signatures_view(ls.log@[0].signatures@),
                ) == Ok::<StateView, Error>(ls.state@)
                &&& ls.state@.current == single_key_config(keypair.0@, next_keypair.0@)
                &&& ls.receipts@.len() == 0
                &&& ls.escrow_sigs@.len() == 0
            },
    {
        let icp = InceptionEvent {
            key_config: single_key(&keypair.0, &next_keypair.0),
            witness_config: empty_witnesses(),
        };
        let prefix = IdentifierPrefix::SelfAddressing(blake3_digest(&icp.inception_data()));
        let event = Event { prefix, sn: 0, event_data: EventData::Icp(icp) };
        let message = match event.to_message(SerializationFormats::Canonical) {
            Ok(m) => m,
            Err(e) => return Err(e),
        };
        let ghost e = message.event@;
        let ghost ser = enc_event(e);
        let signed = match sign_single(&keypair.1, message) {
            Some(s) => s,
            None => return Err(Error::CryptoError),
        };
        proof {
            if ed25519_pair(keypair.0@, keypair.1@) {
                lemma_single_signature_meets(
                    single_key_config(keypair.0@, next_keypair.0@),
                    ser,
                    signatures_view(signed.signatures@),
                    keypair.0@,
                    ed25519_signature(keypair.1@, ser),
                );
            }
        }
        let s0 = match IdentifierState::default().verify_and_apply(&signed) {
            Ok(s) => s,
            Err(e) => return Err(e),
        };
        Ok(
            LogState {
                log: vec![signed],
                receipts: Vec::new(),
                state: s0,
                keypair,
                next_keypair,
                escrow_sigs: Vec::new(),
            },
        )
    }

    /// Incepts a new identifier with freshly drawn keys.
    pub fn new() -> (r: Result<LogState, Error>)
        ensures
            r matches Ok(ls) ==> keys_consistent(ls) && ls.log@.len() == 1
                && ls.log@[0].event_message.event@ == inception_event(ls.keypair.0@, ls.next_keypair.0@)
                && verify_and_apply_event(
                    ls.log@[0].event_message.event@,
                    initial_state(),
                    signatures_view(ls.log@[0].signatures@),
                ) == Ok::<StateView, Error>(ls.state@)
                && ls.receipts@.len() == 0 && ls.escrow_sigs@.len() == 0,
            r is Ok,
    {
        let keypair = match ed25519_keypair() {
            Some(k) => k,
            None => return Err(Error::CryptoError),
        };
        let next_keypair = match ed25519_keypair() {
            Some(k) => k,
            None => return Err(Error::CryptoError),
        };
        LogState::incept(keypair, next_keypair)
    }

    /// Makes a receipt for another identifier's event, signed with the current key.
    pub fn make_rct(&self, event: EventMessage) -> (r: Result<SignedEventMessage, Error>)
        ensures
            r is Ok <==> ed25519_key_ok(self.keypair.1@),
            r matches Ok(m) ==> m.event_message.event@ == receipt_event(event.event@, self.state@)
                && signatures_view(m.signatures@) == seq![(0u64, ed25519_signature(self.keypair.1@, enc_event(event.event@)))],
            r matches Err(e) ==> e == Error::CryptoError,
    {
        let ser = event.serialize();
        let sig = match ed25519_sign(&self.keypair.1, &ser) {
            Some(s) => s,
            None => return Err(Error::CryptoError),
        };
        let receipt = Event {
            prefix: event.event.prefix,
            sn: event.event.sn,
            event_data: EventData::Vrc(
                ReceiptTransferable {
                    receipted_event_digest: blake3_digest(&ser),
                    validator_location_seal: EventSeal {
                        prefix: self.state.prefix.copy(),
                        event_digest: blake3_digest(&self.state.last),
                    },
                },
            ),
        };
        let message = match receipt.to_message(SerializationFormats::Canonical) {
            Ok(m) => m,
            Err(_) => return Err(Error::CryptoError),
        };
        let signatures = vec![AttachedSignaturePrefix { index: 0, signature: sig }];
        assert(signatures_view(signatures@) =~= seq![(0u64, ed25519_signature(self.keypair.1@, enc_event(event.event@)))]);
        Ok(message.sign(signatures))
    }

    /// Issues an interaction event signed with the current key: it is verified,
    /// applied and appended to the log, and the keys stay as they are. On
    /// failure nothing changes. With consistent keys it succeeds unless the
    /// sequence number is exhausted.
    pub fn interact(&mut self) -> (r: Result<SignedEventMessage, Error>)
        ensures
            r matches Ok(m) ==> {
                &&& m.event_message.event@ == interaction_event(old(self).state@)
                &&& signatures_view(m.signatures@) == single_signature(old(self).keypair.1@, m.event_message.event@)
                &&& verify_and_apply_event(m.event_message.event@, old(self).state@, signatures_view(m.signatures@))
                    == Ok::<StateView, Error>(final(self).state@)
                &&& appended(old(self).log@, final(self).log@, m)
                &&& final(self).keypair == old(self).keypair
                &&& final(self).next_keypair == old(self).next_keypair
                &&& final(self).receipts == old(self).receipts
                &&& final(self).escrow_sigs == old(self).escrow_sigs
            },
            r is Err ==> *final(self) == *old(self),
            old(self).state.sn == u64::MAX ==> r == Err::<SignedEventMessage, Error>(Error::SnMismatch),
            keys_consistent(*old(self)) && old(self).state.sn < u64::MAX ==> r is Ok,
            keys_consistent(*old(self)) ==> keys_consistent(*final(self)),
    {
        if self.state.sn == u64::MAX {
            return Err(Error::SnMismatch);
        }
        let event = Event {
            prefix: self.state.prefix.copy(),
            sn: self.state.sn + 1,
            event_data: EventData::Ixn(InteractionEvent { previous_event_hash: blake3_digest(&self.state.last) }),
        };
        let message = match event.to_message(SerializationFormats::Canonical) {
            Ok(m) => m,
            Err(e) => return Err(e),
        };
        let ghost ser = enc_event(message.event@);
        let ixn = match sign_single(&self.keypair.1, message) {
            Some(s) => s,
            None => return Err(Error::CryptoError),
        };
        proof {
            if keys_consistent(*self) {
                lemma_single_signature_meets(
                    self.state.current@,
                    ser,
                    signatures_view(ixn.signatures@),
                    self.keypair.0@,
                    ed25519_signature(self.keypair.1@, ser),
                );
            }
        }
        let next_state = match self.state.verify_and_apply(&ixn) {
            Ok(s) => s,
            Err(e) => return Err(e),
        };
        self.state = next_state;
        self.log.push(ixn.copy());
        assert(self.log@.subrange(0, old(self).log@.len() as int) =~= old(self).log@);
        Ok(ixn)
    }

    /// Rotates the keys to `fresh` as the next key pair: the rotation event,
    /// signed with the current key, discloses the committed next key and
    /// commits to the fresh one; it is verified, applied and appended to the
    /// log, and the committed key becomes the signing key. On failure nothing
    /// changes. With consistent keys and a fresh matching pair it succeeds
    /// unless the sequence number is exhausted, and the keys stay consistent.
    pub fn rotate_to(&mut self, fresh: (Vec<u8>, Vec<u8>)) -> (r: Result<SignedEventMessage, Error>)
        ensures
            r matches Ok(m) ==> rotated(*old(self), *final(self), m) && final(self).next_keypair == fresh,
            r is Err ==> *final(self) == *old(self),
            old(self).state.sn == u64::MAX ==> r == Err::<SignedEventMessage, Error>(Error::SnMismatch),
            keys_consistent(*old(self)) && old(self).state.sn < u64::MAX ==> r is Ok,
            keys_consistent(*old(self)) && ed25519_pair(fresh.0@, fresh.1@) && ed25519_key_ok(fresh.1@)
                && r is Ok ==> keys_consistent(*final(self)),
    {
        if self.state.sn == u64::MAX {
            return Err(Error::SnMismatch);
        }
        let event = Event {
            prefix: self.state.prefix.copy(),
            sn: self.state.sn + 1,
            event_data: EventData::Rot(
                RotationEvent {
                    previous_event_hash: blake3_digest(&self.state.last),
                    key_config: single_key(&self.next_keypair.0, &fresh.0),
                    witness_config: empty_witnesses(),
                },
            ),
        };
        let message = match event.to_message(SerializationFormats::Canonical) {
            Ok(m) => m,
            Err(e) => return Err(e),
        };
        let ghost ser = enc_event(message.event@);
        let rot = match sign_single(&self.keypair.1, message) {
            Some(s) => s,
            None => return Err(Error::CryptoError),
        };
        proof {
            if keys_consistent(*self) {
                lemma_single_signature_meets(
                    self.state.current@,
                    ser,
                    signatures_view(rot.signatures@),
                    self.keypair.0@,
                    ed25519_signature(self.keypair.1@, ser),
                );
            }
        }
        let next_state = match self.state.verify_and_apply(&rot) {
            Ok(s) => s,
            Err(e) => return Err(e),
        };
        self.state = next_state;
        self.log.push(rot.copy());
        assert(self.log@.subrange(0, old(self).log@.len() as int) =~= old(self).log@);
        std::mem::swap(&mut self.keypair, &mut self.next_keypair);
        self.next_keypair = fresh;
        Ok(rot)
    }

    /// Rotates the keys to a freshly drawn next key pair.
    pub fn rotate(&mut self) -> (r: Result<SignedEventMessage, Error>)
        ensures
            r matches Ok(m) ==> rotated(*old(self), *final(self), m),
            r is Err ==> *final(self) == *old(self),
            old(self).state.sn == u64::MAX ==> r == Err::<SignedEventMessage, Error>(Error::SnMismatch),
            keys_consistent(*old(self)) && old(self).state.sn < u64::MAX ==> r is Ok && keys_consistent(*final(self)),
    {
        if self.state.sn == u64::MAX {
            return Err(Error::SnMismatch);
        }
        let fresh = match ed25519_keypair() {
            Some(k) => k,
            None => return Err(Error::CryptoError),
        };
        self.rotate_to(fresh)
    }

    /// Takes a receipt made by `validator` for an event of this log. A receipt
    /// bound to the local event and to the validator is accepted when its seal
    /// names the validator's last event and its signatures meet the validator's
    /// threshold; it then leaves escrow, and is recorded unless it already was.
    /// When the seal names another event it goes to escrow, unless it is already
    /// there or already accepted. Anything else is refused and leaves the log
    /// state as it was. The seal must name the validator's prefix: a validator
    /// not known yet has an unset prefix, which the seal of an incepted
    /// identifier does not name, so such receipts are refused as unbound rather
    /// than escrowed.
    pub fn add_sig(&mut self, validator: &IdentifierState, sigs: SignedEventMessage) -> (r: Result<(), Error>)
        ensures
            final(self).log == old(self).log,
            final(self).state == old(self).state,
            final(self).keypair == old(self).keypair,
            final(self).next_keypair == old(self).next_keypair,
            !(sigs.event_message.event@.event_data is Vrc) ==> r == Err::<(), Error>(Error::NotAReceipt),
            sigs.event_message.event@.event_data is Vrc && sigs.event_message.event.sn >= old(self).log@.len()
                ==> r == Err::<(), Error>(Error::IncorrectReceiptSn),
            sigs.event_message.event@.event_data is Vrc && sigs.event_message.event.sn < old(self).log@.len()
                && !receipt_bound(old(self).log@, old(self).state.prefix@, validator@, sigs.event_message.event@)
                ==> r == Err::<(), Error>(Error::IncorrectReceiptBinding),
            receipt_bound(old(self).log@, old(self).state.prefix@, validator@, sigs.event_message.event@)
                && !seal_current(validator@, sigs.event_message.event@) ==> {
                &&& r is Ok
                &&& final(self).receipts@ == old(self).receipts@
                &&& if holds_encoding(old(self).escrow_sigs@, enc_signed(sigs))
                    || holds_encoding(old(self).receipts@, enc_signed(sigs)) {
                    final(self).escrow_sigs@ == old(self).escrow_sigs@
                } else {
                    final(self).escrow_sigs@ == old(self).escrow_sigs@.push(sigs)
                }
            },
            receipt_bound(old(self).log@, old(self).state.prefix@, validator@, sigs.event_message.event@)
                && seal_current(validator@, sigs.event_message.event@)
                && !receipt_signed(old(self).log@, validator@, sigs)
                ==> r == Err::<(), Error>(Error::NotEnoughSignatures),
            receipt_bound(old(self).log@, old(self).state.prefix@, validator@, sigs.event_message.event@)
                && seal_current(validator@, sigs.event_message.event@)
                && receipt_signed(old(self).log@, validator@, sigs) ==> {
                &&& r is Ok
                &&& final(self).escrow_sigs@ == without_encoding(old(self).escrow_sigs@, enc_signed(sigs))
                &&& if holds_encoding(old(self).receipts@, enc_signed(sigs)) {
                    final(self).receipts@ == old(self).receipts@
                } else {
                    final(self).receipts@ == old(self).receipts@.push(sigs)
                }
            },
            r is Err ==> *final(self) == *old(self),
    {
        let sn = sigs.event_message.event.sn;
        let escrow: bool;
        match &sigs.event_message.event.event_data {
            EventData::Vrc(rct) => {
                if sn >= self.log.len() as u64 {
                    return Err(Error::IncorrectReceiptSn);
                }
                let local = &self.log[sn as usize];
                let msg = local.event_message.serialize();
                let local_digest = blake3_digest(&msg);
                let bound = sigs.event_message.event.prefix.same_as(&self.state.prefix)
                    && bytes_eq(&rct.receipted_event_digest, &local_digest)
                    && rct.validator_location_seal.prefix.same_as(&validator.prefix);
                if !bound {
                    return Err(Error::IncorrectReceiptBinding);
                }
                let validator_digest = blake3_digest(&validator.last);
                if bytes_eq(&rct.validator_location_seal.event_digest, &validator_digest) {
                    let count = count_valid_signatures(
                        &validator.current.public_keys,
                        &msg,
                        &sigs.signatures,
                    );
                    if count < validator.current.threshold {
                        return Err(Error::NotEnoughSignatures);
                    }
                    escrow = false;
                } else {
                    escrow = true;
                }
            },
            _ => {
                return Err(Error::NotAReceipt);
            },
        }
        let enc = sigs.serialize();
        let accepted = holds_message(&self.receipts, &enc);
        if escrow {
            if !accepted && !holds_message(&self.escrow_sigs, &enc) {
                self.escrow_sigs.push(sigs);
            }
        } else {
            remove_message(&mut self.escrow_sigs, &enc);
            if !accepted {
                self.receipts.push(sigs);
            }
        }
        Ok(())
    }

    /// Moves the escrowed receipts that now resolve against the validator's
    /// state to the accepted receipts, keeping the others in escrow.
    pub fn resolve_escrow(&mut self, validator: &IdentifierState)
        ensures
            resolved(*old(self), *final(self), validator@),
    {
        let mut pending: Vec<SignedEventMessage> = Vec::new();
        std::mem::swap(&mut pending, &mut self.escrow_sigs);
        let ghost pre = *old(self);
        let ghost all = pending@;
        let validator_digest = blake3_digest(&validator.last);
        assert(all.subrange(0, 0) =~= Seq::<SignedEventMessage>::empty());
        assert(self.receipts@ =~= pre.receipts@ + resolving(pre.log@, validator@, all.subrange(0, 0)));
        assert(self.escrow_sigs@ =~= unresolved(pre.log@, validator@, all.subrange(0, 0)));
        while pending.len() > 0
            invariant
                self.log == pre.log,
                self.state == pre.state,
                self.keypair == pre.keypair,
                self.next_keypair == pre.next_keypair,
                pending@.len() <= all.len(),
                pending@ == all.subrange(all.len() - pending@.len(), all.len() as int),
                self.receipts@ == pre.receipts@ + resolving(pre.log@, validator@, all.subrange(0, all.len() - pending@.len())),
                self.escrow_sigs@ == unresolved(pre.log@, validator@, all.subrange(0, all.len() - pending@.len())),
                validator_digest@ == blake3_of(validator.last@),
                pre.escrow_sigs@ == all,
            decreases pending@.len(),
        {
            let ghost k = all.len() - pending@.len();
            let item = pending.remove(0);
            assert(item == all[k]);
            assert(pending@ =~= all.subrange(all.len() - pending@.len(), all.len() as int));
            assert(all.subrange(0, k + 1).drop_last() =~= all.subrange(0, k));
            let sn = item.event_message.event.sn;
            let mut accept = false;
            if let EventData::Vrc(rct) = &item.event_message.event.event_data {
                if rct.validator_location_seal.prefix.same_as(&validator.prefix)
                    && bytes_eq(&rct.validator_location_seal.event_digest, &validator_digest)
                    && sn < self.log.len() as u64 {
                    let msg = self.log[sn as usize].event_message.serialize();
                    let count = count_valid_signatures(&validator.current.public_keys, &msg, &item.signatures);
                    accept = count >= validator.current.threshold;
                }
            }
            assert(accept == escrow_resolves(pre.log@, validator@, item));
            if accept {
                self.receipts.push(item);
            } else {
                self.escrow_sigs.push(item);
            }
            assert(self.receipts@ =~= pre.receipts@ + resolving(pre.log@, validator@, all.subrange(0, k + 1)));
        }
        assert(all.subrange(0, all.len() as int) =~= all);
    }
}

} // verus!

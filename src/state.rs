//! The identifier state and the fold of events into it, with the signature gate.
use vstd::prelude::*;
use crate::bytes::{bytes_eq, enc_list, list_view, push_list};
use crate::crypto::{blake3_digest, blake3_of, ed25519_valid, ed25519_verify};
use crate::event::{
    enc_event, enc_event_data, key_set_commitment, signatures_view, AttachedSignaturePrefix, Event, EventData,
    EventDataView, EventView, KeyConfig, KeyConfigView, SignedEventMessage, WitnessConfig,
    WitnessConfigView,
};
use crate::prefix::{IdentifierPrefix, PrefixView};

verus! {

/// Why an event, a receipt or a key operation was refused.
#[derive(PartialEq, Eq, Structural, Clone, Copy, Debug)]
pub enum Error {
    /// The event's prefix is not the identifier's prefix.
    PrefixMismatch,
    /// The event does not stand at the next position of the log.
    SnMismatch,
    /// The event does not name the digest of the log's last event.
    PreviousEventHashMismatch,
    /// The disclosed keys do not match the commitment made by the last establishment event.
    NextKeyCommitmentMismatch,
    /// An establishment event with no keys or a zero threshold.
    InvalidKeyConfig,
    /// A receipt cannot be applied to a log.
    NotALogEvent,
    /// Fewer valid signatures than the threshold.
    NotEnoughSignatures,
    /// A receipt was expected.
    NotAReceipt,
    /// No event of the log stands at the receipted sequence number.
    IncorrectReceiptSn,
    /// The receipt is not bound to this log, to the local event or to the validator.
    IncorrectReceiptBinding,
    /// Key generation or signing failed.
    CryptoError,
}

/// The current key state of an identifier, folded from its log.
#[derive(Debug)]
pub struct IdentifierState {
    pub prefix: IdentifierPrefix,
    pub sn: u64,
    pub current: KeyConfig,
    pub witnesses: WitnessConfig,
    /// The canonical encoding of the last event applied.
    pub last: Vec<u8>,
}

pub struct StateView {
    pub prefix: PrefixView,
    pub sn: u64,
    pub current: KeyConfigView,
    pub witnesses: WitnessConfigView,
    pub last: Seq<u8>,
}

impl View for IdentifierState {
    type V = StateView;

    open spec fn view(&self) -> StateView {
        StateView {
            prefix: self.prefix@,
            sn: self.sn,
            current: self.current@,
            witnesses: self.witnesses@,
            last: self.last@,
        }
    }
}

/// The state before inception.
pub open spec fn initial_state() -> StateView {
    StateView {
        prefix: PrefixView::Unset,
        sn: 0,
        current: KeyConfigView {
            threshold: 0,
            public_keys: Seq::empty(),
            threshold_key_digest: Seq::empty(),
        },
        witnesses: WitnessConfigView { tally: 0, witnesses: Seq::empty() },
        last: Seq::empty(),
    }
}

/// The self-addressing prefix that an inception payload names.
pub open spec fn inception_prefix(key_config: KeyConfigView, witness_config: WitnessConfigView) -> PrefixView {
    PrefixView::SelfAddressing(
        blake3_of(enc_event_data(EventDataView::Icp { key_config, witness_config })),
    )
}

pub open spec fn key_config_valid(k: KeyConfigView) -> bool {
    k.threshold >= 1 && k.public_keys.len() >= 1
}

/// The state after an event, or the invariant that the event breaks.
pub open spec fn apply_event(e: EventView, s: StateView) -> Result<StateView, Error> {
    match e.event_data {
        EventDataView::Icp { key_config, witness_config } => {
            if s.prefix != PrefixView::Unset || e.sn != 0 {
                Err(Error::SnMismatch)
            } else if e.prefix != inception_prefix(key_config, witness_config) {
                Err(Error::PrefixMismatch)
            } else if !key_config_valid(key_config) {
                Err(Error::InvalidKeyConfig)
            } else {
                Ok(
                    StateView {
                        prefix: e.prefix,
                        sn: e.sn,
                        current: key_config,
                        witnesses: witness_config,
                        last: enc_event(e),
                    },
                )
            }
        },
        _ => {
            if e.prefix != s.prefix {
                Err(Error::PrefixMismatch)
            } else if e.sn != s.sn + 1 {
                Err(Error::SnMismatch)
            } else {
                match e.event_data {
                    EventDataView::Rot { previous_event_hash, key_config, witness_config } => {
                        if previous_event_hash != blake3_of(s.last) {
                            Err(Error::PreviousEventHashMismatch)
                        } else if key_set_commitment(key_config.public_keys)
                            != s.current.threshold_key_digest {
                            Err(Error::NextKeyCommitmentMismatch)
                        } else if !key_config_valid(key_config) {
                            Err(Error::InvalidKeyConfig)
                        } else {
                            Ok(
                                StateView {
                                    prefix: s.prefix,
                                    sn: e.sn,
                                    current: key_config,
                                    witnesses: witness_config,
                                    last: enc_event(e),
                                },
                            )
                        }
                    },
                    EventDataView::Ixn { previous_event_hash } => {
                        if previous_event_hash != blake3_of(s.last) {
                            Err(Error::PreviousEventHashMismatch)
                        } else {
                            Ok(StateView { sn: e.sn, last: enc_event(e), ..s })
                        }
                    },
                    _ => Err(Error::NotALogEvent),
                }
            }
        },
    }
}

/// A result of the fold, seen through the state's view.
pub open spec fn state_result(r: Result<IdentifierState, Error>) -> Result<StateView, Error> {
    match r {
        Ok(s) => Ok(s@),
        Err(e) => Err(e),
    }
}

/// Whether an attached signature is a valid signature by key `i` of `keys`.
pub open spec fn signature_by(keys: Seq<Seq<u8>>, msg: Seq<u8>, s: (u64, Seq<u8>), i: int) -> bool {
    s.0 == i && ed25519_valid(keys[i], msg, s.1)
}

/// Whether some attached signature is a valid signature by key `i`.
pub open spec fn key_signed(keys: Seq<Seq<u8>>, msg: Seq<u8>, sigs: Seq<(u64, Seq<u8>)>, i: int) -> bool {
    exists|t: int| 0 <= t < sigs.len() && #[trigger] signature_by(keys, msg, sigs[t], i)
}

/// How many of the first `n` keys have signed `msg`: distinct keys, each counted once.
pub open spec fn signed_count(keys: Seq<Seq<u8>>, msg: Seq<u8>, sigs: Seq<(u64, Seq<u8>)>, n: nat) -> nat
    decreases n,
{
    if n == 0 {
        0
    } else {
        signed_count(keys, msg, sigs, (n - 1) as nat) + if key_signed(keys, msg, sigs, n - 1) {
            1nat
        } else {
            0nat
        }
    }
}

/// Whether the signatures meet the threshold of a key configuration.
pub open spec fn threshold_met(k: KeyConfigView, msg: Seq<u8>, sigs: Seq<(u64, Seq<u8>)>) -> bool {
    signed_count(k.public_keys, msg, sigs, k.public_keys.len()) >= k.threshold
}

/// The key configuration that must sign an event: the event's own for an
/// inception, the identifier's current one otherwise.
pub open spec fn signing_config(e: EventView, s: StateView) -> KeyConfigView {
    match e.event_data {
        EventDataView::Icp { key_config, .. } => key_config,
        _ => s.current,
    }
}

/// The state after a signed event: the signature gate, then the fold.
pub open spec fn verify_and_apply_event(e: EventView, s: StateView, sigs: Seq<(u64, Seq<u8>)>) -> Result<StateView, Error> {
    if !threshold_met(signing_config(e, s), enc_event(e), sigs) {
        Err(Error::NotEnoughSignatures)
    } else {
        apply_event(e, s)
    }
}

proof fn lemma_signed_count_le(keys: Seq<Seq<u8>>, msg: Seq<u8>, sigs: Seq<(u64, Seq<u8>)>, n: nat)
    ensures
        signed_count(keys, msg, sigs, n) <= n,
    decreases n,
{
    if n > 0 {
        lemma_signed_count_le(keys, msg, sigs, (n - 1) as nat);
    }
}

/// The number of keys with a valid signature among those attached.
pub fn count_valid_signatures(keys: &Vec<Vec<u8>>, msg: &Vec<u8>, sigs: &Vec<AttachedSignaturePrefix>) -> (r: u64)
    ensures
        r == signed_count(list_view(keys@), msg@, signatures_view(sigs@), keys@.len() as nat),
{
    let ghost kv = list_view(keys@);
    let ghost sv = signatures_view(sigs@);
    let mut count: u64 = 0;
    let mut i: usize = 0;
    while i < keys.len()
        invariant
            i <= keys@.len(),
            kv == list_view(keys@),
            sv == signatures_view(sigs@),
            count == signed_count(kv, msg@, sv, i as nat),
        decreases keys@.len() - i,
    {
        let mut found = false;
        let mut j: usize = 0;
        while j < sigs.len()
            invariant
                i < keys@.len(),
                j <= sigs@.len(),
                kv == list_view(keys@),
                sv == signatures_view(sigs@),
                found == exists|t: int| 0 <= t < j && #[trigger] signature_by(kv, msg@, sv[t], i as int),
            decreases sigs@.len() - j,
        {
            if !found && sigs[j].index == i as u64 {
                if ed25519_verify(&keys[i], msg, &sigs[j].signature) {
                    found = true;
                    assert(signature_by(kv, msg@, sv[j as int], i as int));
                }
            }
            j = j + 1;
        }
        proof {
            lemma_signed_count_le(kv, msg@, sv, i as nat);
        }
        if found {
            count = count + 1;
        }
        i = i + 1;
    }
    count
}


fn key_config_ok(k: &KeyConfig) -> (r: bool)
    ensures
        r == key_config_valid(k@),
{
    k.threshold >= 1 && k.public_keys.len() >= 1
}

impl Event {
    /// Folds the event into the state: the next state, or the invariant that the
    /// event breaks. The state passed in is left as it was.
    pub fn apply_to(&self, state: &IdentifierState) -> (r: Result<IdentifierState, Error>)
        ensures
            state_result(r) == apply_event(self@, state@),
    {
        match &self.event_data {
            EventData::Icp(icp) => {
                if !state.prefix.is_unset() || self.sn != 0 {
                    return Err(Error::SnMismatch);
                }
                let digest = blake3_digest(&icp.inception_data());
                let derived = IdentifierPrefix::SelfAddressing(digest);
                if !self.prefix.same_as(&derived) {
                    return Err(Error::PrefixMismatch);
                }
                if !key_config_ok(&icp.key_config) {
                    return Err(Error::InvalidKeyConfig);
                }
                Ok(
                    IdentifierState {
                        prefix: self.prefix.copy(),
                        sn: self.sn,
                        current: icp.key_config.copy(),
                        witnesses: icp.witness_config.copy(),
                        last: self.serialize(),
                    },
                )
            },
            EventData::Vrc(_) => {
                if !self.prefix.same_as(&state.prefix) {
                    return Err(Error::PrefixMismatch);
                }
                if state.sn == u64::MAX || self.sn != state.sn + 1 {
                    return Err(Error::SnMismatch);
                }
                Err(Error::NotALogEvent)
            },
            EventData::Rot(rot) => {
                if !self.prefix.same_as(&state.prefix) {
                    return Err(Error::PrefixMismatch);
                }
                if state.sn == u64::MAX || self.sn != state.sn + 1 {
                    return Err(Error::SnMismatch);
                }
                if !bytes_eq(&rot.previous_event_hash, &blake3_digest(&state.last)) {
                    return Err(Error::PreviousEventHashMismatch);
                }
                let mut keys: Vec<u8> = Vec::new();
                push_list(&mut keys, &rot.key_config.public_keys);
                assert(keys@ =~= Seq::<u8>::empty() + enc_list(rot.key_config@.public_keys));
                if !bytes_eq(&blake3_digest(&keys), &state.current.threshold_key_digest) {
                    return Err(Error::NextKeyCommitmentMismatch);
                }
                if !key_config_ok(&rot.key_config) {
                    return Err(Error::InvalidKeyConfig);
                }
                Ok(
                    IdentifierState {
                        prefix: state.prefix.copy(),
                        sn: self.sn,
                        current: rot.key_config.copy(),
                        witnesses: rot.witness_config.copy(),
                        last: self.serialize(),
                    },
                )
            },
            EventData::Ixn(ixn) => {
                if !self.prefix.same_as(&state.prefix) {
                    return Err(Error::PrefixMismatch);
                }
                if state.sn == u64::MAX || self.sn != state.sn + 1 {
                    return Err(Error::SnMismatch);
                }
                if !bytes_eq(&ixn.previous_event_hash, &blake3_digest(&state.last)) {
                    return Err(Error::PreviousEventHashMismatch);
                }
                Ok(
                    IdentifierState {
                        prefix: state.prefix.copy(),
                        sn: self.sn,
                        current: state.current.copy(),
                        witnesses: state.witnesses.copy(),
                        last: self.serialize(),
                    },
                )
            },
        }
    }
}

impl IdentifierState {
    /// Checks the signatures of a signed event against the key configuration
    /// that must sign it, then folds the event into the state. On any failure
    /// the state is left as it was.
    pub fn verify_and_apply(&self, signed: &SignedEventMessage) -> (r: Result<IdentifierState, Error>)
        ensures
            state_result(r) == verify_and_apply_event(
                signed.event_message.event@,
                self@,
                signatures_view(signed.signatures@),
            ),
    {
        let event = &signed.event_message.event;
        let msg = event.serialize();
        let config = match &event.event_data {
            EventData::Icp(icp) => &icp.key_config,
            _ => &self.current,
        };
        let count = count_valid_signatures(&config.public_keys, &msg, &signed.signatures);
        if count < config.threshold {
            return Err(Error::NotEnoughSignatures);
        }
        event.apply_to(self)
    }

    /// Whether the signatures attached to an event meet the threshold of the
    /// state's current key configuration.
    pub fn verify(&self, signed: &SignedEventMessage) -> (r: bool)
        ensures
            r == threshold_met(self.current@, enc_event(signed.event_message.event@), signatures_view(signed.signatures@)),
    {
        let msg = signed.event_message.event.serialize();
        count_valid_signatures(&self.current.public_keys, &msg, &signed.signatures) >= self.current.threshold
    }
}


/// Folding is a function of the event and the state alone: the same event
/// applied to the same state gives the same outcome.
pub proof fn apply_is_deterministic(
    e1: Event,
    e2: Event,
    s1: IdentifierState,
    s2: IdentifierState,
    sigs: Seq<(u64, Seq<u8>)>,
)
    requires
        e1@ == e2@,
        s1@ == s2@,
    ensures
        apply_event(e1@, s1@) == apply_event(e2@, s2@),
        verify_and_apply_event(e1@, s1@, sigs) == verify_and_apply_event(e2@, s2@, sigs),
{
}

/// An event that does not stand at the next position of the log is refused:
/// a non-inception event whose sequence number is not one past the state's,
/// and an inception event when the identifier already exists or its sequence
/// number is not zero.
pub proof fn out_of_sequence_is_refused(e: EventView, s: StateView)
    requires
        match e.event_data {
            EventDataView::Icp { .. } => s.prefix != PrefixView::Unset || e.sn != 0,
            _ => e.sn != s.sn + 1,
        },
    ensures
        apply_event(e, s) is Err,
{
}

/// A rotation whose previous event hash is not the digest of the state's last
/// event is refused.
pub proof fn broken_chain_is_refused(
    e: EventView,
    s: StateView,
    previous_event_hash: Seq<u8>,
    key_config: KeyConfigView,
    witness_config: WitnessConfigView,
    sigs: Seq<(u64, Seq<u8>)>,
)
    requires
        e.event_data == (EventDataView::Rot { previous_event_hash, key_config, witness_config }),
        previous_event_hash != blake3_of(s.last),
    ensures
        apply_event(e, s) is Err,
        verify_and_apply_event(e, s, sigs) is Err,
{
}

/// A signed event is accepted exactly when the distinct keys with a valid
/// signature reach the threshold and the fold accepts the event.
pub proof fn threshold_gate(e: EventView, s: StateView, sigs: Seq<(u64, Seq<u8>)>)
    ensures
        verify_and_apply_event(e, s, sigs) is Ok <==> (signed_count(
            signing_config(e, s).public_keys,
            enc_event(e),
            sigs,
            signing_config(e, s).public_keys.len(),
        ) >= signing_config(e, s).threshold && apply_event(e, s) is Ok),
{
}

impl Default for IdentifierState {
    fn default() -> (r: IdentifierState)
        ensures
            r@ == initial_state(),
    {
        let r = IdentifierState {
            prefix: IdentifierPrefix::Unset,
            sn: 0,
            current: KeyConfig { threshold: 0, public_keys: Vec::new(), threshold_key_digest: Vec::new() },
            witnesses: WitnessConfig { tally: 0, witnesses: Vec::new() },
            last: Vec::new(),
        };
        assert(r@.current.public_keys =~= Seq::<Seq<u8>>::empty());
        assert(r@.witnesses.witnesses =~= Seq::<Seq<u8>>::empty());
        r
    }
}

} // verus!

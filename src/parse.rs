//! Decoding of signed event messages from their canonical bytes. Every value
//! decoded is one whose encoding is exactly the bytes that were read.
use vstd::prelude::*;
use crate::bytes::{be_bytes, enc_bytes, enc_items, enc_list, enc_u64, list_view, push_bytes, push_u64};
use crate::event::{
    enc_event, enc_event_data, enc_key_config, enc_witness_config, signatures_view, EventView,
    AttachedSignaturePrefix, Event, EventData, EventDataView, EventMessage, EventSeal, InceptionEvent,
    InteractionEvent, KeyConfig, KeyConfigView, ReceiptTransferable, RotationEvent, SerializationFormats,
    SignedEventMessage, WitnessConfig, WitnessConfigView,
};
use crate::prefix::{enc_prefix, IdentifierPrefix, PrefixView};

verus! {

/// An attached signature: its key index, then its bytes.
pub open spec fn enc_signature(s: (u64, Seq<u8>)) -> Seq<u8> {
    enc_u64(s.0) + enc_bytes(s.1)
}

pub open spec fn enc_signature_items(l: Seq<(u64, Seq<u8>)>) -> Seq<u8>
    decreases l.len(),
{
    if l.len() == 0 {
        Seq::empty()
    } else {
        enc_signature_items(l.drop_last()) + enc_signature(l.last())
    }
}

/// The signatures of a message: their number, then each signature.
pub open spec fn enc_signatures(l: Seq<(u64, Seq<u8>)>) -> Seq<u8> {
    enc_u64(l.len() as u64) + enc_signature_items(l)
}

/// A signed event message: the event, then its signatures.
pub open spec fn enc_signed_view(e: EventView, sigs: Seq<(u64, Seq<u8>)>) -> Seq<u8> {
    enc_event(e) + enc_signatures(sigs)
}

pub open spec fn enc_signed(m: SignedEventMessage) -> Seq<u8> {
    enc_signed_view(m.event_message.event@, signatures_view(m.signatures@))
}

/// Whether `b[pos..p]` is exactly `enc`.
pub open spec fn reads(b: Seq<u8>, pos: int, p: int, enc: Seq<u8>) -> bool {
    0 <= pos <= p <= b.len() && b.subrange(pos, p) == enc
}

pub open spec fn pow256(k: nat) -> nat
    decreases k,
{
    if k == 0 {
        1
    } else {
        256 * pow256((k - 1) as nat)
    }
}

proof fn lemma_pow256_le(i: nat)
    requires
        i <= 7,
    ensures
        pow256(i) <= pow256(7),
        pow256(7) == 0x100_0000_0000_0000,
    decreases 7 - i,
{
    reveal_with_fuel(pow256, 8);
    if i < 7 {
        lemma_pow256_le(i + 1);
    }
}

proof fn lemma_join(b: Seq<u8>, pos: int, mid: int, p: int, x: Seq<u8>, y: Seq<u8>)
    requires
        reads(b, pos, mid, x),
        reads(b, mid, p, y),
    ensures
        reads(b, pos, p, x + y),
{
    assert(b.subrange(pos, p) =~= b.subrange(pos, mid) + b.subrange(mid, p));
}


/// Whether the bytes from `pos` on begin with `enc`.
pub open spec fn at(b: Seq<u8>, pos: int, enc: Seq<u8>) -> bool {
    0 <= pos && pos + enc.len() <= b.len() && b.subrange(pos, pos + enc.len()) == enc
}

proof fn lemma_be_bytes_len(n: nat, k: nat)
    ensures
        be_bytes(n, k).len() == k,
    decreases k,
{
    if k > 0 {
        lemma_be_bytes_len(n / 256, (k - 1) as nat);
    }
}

proof fn lemma_be_bytes_injective(n: nat, m: nat, k: nat)
    requires
        n < pow256(k),
        m < pow256(k),
        be_bytes(n, k) == be_bytes(m, k),
    ensures
        n == m,
    decreases k,
{
    if k > 0 {
        let pn = be_bytes(n / 256, (k - 1) as nat);
        let pm = be_bytes(m / 256, (k - 1) as nat);
        lemma_be_bytes_len(n / 256, (k - 1) as nat);
        lemma_be_bytes_len(m / 256, (k - 1) as nat);
        assert(pn == be_bytes(n, k).drop_last());
        assert(pm == be_bytes(m, k).drop_last());
        assert(be_bytes(n, k).last() == (n % 256) as u8);
        assert(be_bytes(m, k).last() == (m % 256) as u8);
        let p = pow256((k - 1) as nat);
        assert(n / 256 < p && m / 256 < p) by (nonlinear_arith)
            requires
                n < 256 * p,
                m < 256 * p,
        ;
        lemma_be_bytes_injective(n / 256, m / 256, (k - 1) as nat);
        assert(n == 256 * (n / 256) + n % 256) by (nonlinear_arith);
        assert(m == 256 * (m / 256) + m % 256) by (nonlinear_arith);
    }
}

proof fn lemma_enc_u64(n: u64, m: u64)
    ensures
        enc_u64(n).len() == 8,
        enc_u64(n) == enc_u64(m) ==> n == m,
{
    lemma_be_bytes_len(n as nat, 8);
    reveal_with_fuel(pow256, 9);
    if enc_u64(n) == enc_u64(m) {
        lemma_be_bytes_injective(n as nat, m as nat, 8);
    }
}

proof fn lemma_at_split(b: Seq<u8>, pos: int, x: Seq<u8>, y: Seq<u8>)
    requires
        at(b, pos, x + y),
    ensures
        at(b, pos, x),
        at(b, pos + x.len(), y),
{
    let whole = b.subrange(pos, pos + (x + y).len());
    assert(whole == x + y);
    assert(b.subrange(pos, pos + x.len()) =~= whole.subrange(0, x.len() as int));
    assert(whole.subrange(0, x.len() as int) =~= x);
    assert(b.subrange(pos + x.len(), pos + x.len() + y.len()) =~= whole.subrange(x.len() as int, whole.len() as int));
    assert(whole.subrange(x.len() as int, whole.len() as int) =~= y);
}


proof fn lemma_enc_items_len(l: Seq<Seq<u8>>)
    ensures
        enc_items(l).len() >= l.len(),
    decreases l.len(),
{
    if l.len() > 0 {
        lemma_enc_items_len(l.drop_last());
        lemma_enc_u64(l.last().len() as u64, 0);
    }
}

proof fn lemma_enc_signature_items_len(l: Seq<(u64, Seq<u8>)>)
    ensures
        enc_signature_items(l).len() >= l.len(),
    decreases l.len(),
{
    if l.len() > 0 {
        lemma_enc_signature_items_len(l.drop_last());
        lemma_enc_u64(l.last().0, 0);
    }
}

proof fn lemma_enc_items_first(l: Seq<Seq<u8>>)
    requires
        l.len() > 0,
    ensures
        enc_items(l) == enc_bytes(l[0]) + enc_items(l.drop_first()),
    decreases l.len(),
{
    if l.len() == 1 {
        assert(l.drop_last() =~= Seq::<Seq<u8>>::empty());
        assert(l.drop_first() =~= Seq::<Seq<u8>>::empty());
        assert(enc_items(l) =~= enc_bytes(l[0]) + enc_items(l.drop_first()));
    } else {
        lemma_enc_items_first(l.drop_last());
        assert(l.drop_last().drop_first() =~= l.drop_first().drop_last());
        assert(l.drop_first().last() == l.last());
        assert(enc_items(l) =~= enc_bytes(l[0]) + enc_items(l.drop_first()));
    }
}

proof fn lemma_enc_signature_items_first(l: Seq<(u64, Seq<u8>)>)
    requires
        l.len() > 0,
    ensures
        enc_signature_items(l) == enc_signature(l[0]) + enc_signature_items(l.drop_first()),
    decreases l.len(),
{
    if l.len() == 1 {
        assert(l.drop_last() =~= Seq::<(u64, Seq<u8>)>::empty());
        assert(l.drop_first() =~= Seq::<(u64, Seq<u8>)>::empty());
        assert(enc_signature_items(l) =~= enc_signature(l[0]) + enc_signature_items(l.drop_first()));
    } else {
        lemma_enc_signature_items_first(l.drop_last());
        assert(l.drop_last().drop_first() =~= l.drop_first().drop_last());
        assert(l.drop_first().last() == l.last());
        assert(enc_signature_items(l) =~= enc_signature(l[0]) + enc_signature_items(l.drop_first()));
    }
}

fn read_byte(b: &Vec<u8>, pos: usize) -> (r: Option<(u8, usize)>)
    ensures
        r matches Some((x, p)) ==> reads(b@, pos as int, p as int, seq![x]),
        forall|y: u8| #[trigger] at(b@, pos as int, seq![y]) ==> (r matches Some((x, p)) && x == y && p == pos + 1),
{
    if pos >= b.len() {
        return None;
    }
    let x = b[pos];
    assert(b@.subrange(pos as int, pos + 1) =~= seq![x]);
    assert forall|y: u8| #[trigger] at(b@, pos as int, seq![y]) implies x == y by {
        assert(b@.subrange(pos as int, pos + 1)[0] == y);
    }
    Some((x, pos + 1))
}

fn read_u64(b: &Vec<u8>, pos: usize) -> (r: Option<(u64, usize)>)
    ensures
        r matches Some((n, p)) ==> reads(b@, pos as int, p as int, enc_u64(n)),
        forall|m: u64| #[trigger] at(b@, pos as int, enc_u64(m)) ==> (r matches Some((n, p)) && n == m && p == pos + 8),
{
    proof {
        assert forall|m: u64| #[trigger] at(b@, pos as int, enc_u64(m)) implies pos + 8 <= b@.len() by {
            lemma_enc_u64(m, m);
        }
    }
    if pos > b.len() || b.len() - pos < 8 {
        return None;
    }
    let len = b.len();
    let mut acc: u64 = 0;
    let mut i: usize = 0;
    while i < 8
        invariant
            len == b@.len(),
            pos + 8 <= b@.len(),
            i <= 8,
            (acc as nat) < pow256(i as nat),
            b@.subrange(pos as int, pos + i) == be_bytes(acc as nat, i as nat),
        decreases 8 - i,
    {
        let x = b[pos + i];
        let ghost prev = acc;
        proof {
            lemma_pow256_le(i as nat);
        }
        acc = acc * 256 + x as u64;
        proof {
            let a = acc as nat;
            let q = prev as nat;
            let xn = x as nat;
            assert(a == q * 256 + xn);
            assert(a / 256 == q && a % 256 == xn) by (nonlinear_arith)
                requires
                    a == q * 256 + xn,
                    xn < 256,
            ;
            assert(a < pow256((i + 1) as nat)) by (nonlinear_arith)
                requires
                    a == q * 256 + xn,
                    xn < 256,
                    q < pow256(i as nat),
                    pow256((i + 1) as nat) == 256 * pow256(i as nat),
            ;
            assert(b@.subrange(pos as int, pos + i + 1) =~= b@.subrange(pos as int, pos + i).push(x));
        }
        i = i + 1;
    }
    proof {
        assert forall|m: u64| #[trigger] at(b@, pos as int, enc_u64(m)) implies acc == m by {
            lemma_enc_u64(m, acc);
        }
    }
    Some((acc, pos + 8))
}

fn read_bytes(b: &Vec<u8>, pos: usize) -> (r: Option<(Vec<u8>, usize)>)
    ensures
        r matches Some((v, p)) ==> reads(b@, pos as int, p as int, enc_bytes(v@)),
        forall|w: Seq<u8>| #[trigger] at(b@, pos as int, enc_bytes(w)) ==> (r matches Some((v, p)) && v@ == w
            && p == pos + enc_bytes(w).len()),
{
    let len = b.len();
    proof {
        assert forall|w: Seq<u8>| #[trigger] at(b@, pos as int, enc_bytes(w)) implies at(b@, pos as int, enc_u64(w.len() as u64))
            && at(b@, pos + 8, w) && w.len() as u64 == w.len() by {
            lemma_enc_u64(w.len() as u64, w.len() as u64);
            lemma_at_split(b@, pos as int, enc_u64(w.len() as u64), w);
        }
    }
    let (n, start) = match read_u64(b, pos) {
        Some(x) => x,
        None => return None,
    };
    if n > (len - start) as u64 {
        return None;
    }
    let end = start + n as usize;
    let mut v: Vec<u8> = Vec::new();
    let mut i: usize = start;
    while i < end
        invariant
            start <= i <= end <= b@.len(),
            v@ == b@.subrange(start as int, i as int),
        decreases end - i,
    {
        v.push(b[i]);
        i = i + 1;
        assert(v@ =~= b@.subrange(start as int, i as int));
    }
    proof {
        lemma_join(b@, pos as int, start as int, end as int, enc_u64(n), v@);
    }
    Some((v, end))
}

fn read_list(b: &Vec<u8>, pos: usize) -> (r: Option<(Vec<Vec<u8>>, usize)>)
    ensures
        r matches Some((l, p)) ==> reads(b@, pos as int, p as int, enc_list(list_view(l@))),
        forall|w: Seq<Seq<u8>>| #[trigger] at(b@, pos as int, enc_list(w)) ==> (r matches Some((l, p))
            && list_view(l@) == w && p == pos + enc_list(w).len()),
{
    let len = b.len();
    proof {
        assert forall|w: Seq<Seq<u8>>| #[trigger] at(b@, pos as int, enc_list(w)) implies at(b@, pos as int, enc_u64(w.len() as u64))
            && at(b@, pos + 8, enc_items(w)) && w.len() as u64 == w.len() by {
            lemma_enc_u64(w.len() as u64, w.len() as u64);
            lemma_enc_items_len(w);
            lemma_at_split(b@, pos as int, enc_u64(w.len() as u64), enc_items(w));
        }
    }
    let (n, start) = match read_u64(b, pos) {
        Some(x) => x,
        None => return None,
    };
    proof {
        lemma_enc_u64(n, n);
    }
    let mut l: Vec<Vec<u8>> = Vec::new();
    let mut at_pos = start;
    let mut k: u64 = 0;
    assert(b@.subrange(start as int, at_pos as int) =~= enc_items(list_view(l@)));
    assert forall|w: Seq<Seq<u8>>| #[trigger] at(b@, pos as int, enc_list(w)) implies w.len() == n
        && list_view(l@) == w.subrange(0, k as int) && at(b@, at_pos as int, enc_items(w.subrange(k as int, n as int))) by {
        assert(w.subrange(0, 0) =~= list_view(l@));
        assert(w.subrange(0, n as int) =~= w);
    }
    while k < n
        invariant
            k <= n,
            start == pos + 8,
            l@.len() == k,
            reads(b@, start as int, at_pos as int, enc_items(list_view(l@))),
            forall|w: Seq<Seq<u8>>| #[trigger] at(b@, pos as int, enc_list(w)) ==> w.len() == n
                && list_view(l@) == w.subrange(0, k as int) && at(b@, at_pos as int, enc_items(w.subrange(k as int, n as int))),
        decreases n - k,
    {
        proof {
            assert forall|w: Seq<Seq<u8>>| #[trigger] at(b@, pos as int, enc_list(w)) implies at(b@, at_pos as int, enc_bytes(w[k as int]))
                && at(b@, at_pos + enc_bytes(w[k as int]).len(), enc_items(w.subrange(k + 1, n as int))) by {
                let rest = w.subrange(k as int, n as int);
                lemma_enc_items_first(rest);
                assert(rest.drop_first() =~= w.subrange(k + 1, n as int));
                lemma_at_split(b@, at_pos as int, enc_bytes(w[k as int]), enc_items(w.subrange(k + 1, n as int)));
            }
        }
        let (item, next) = match read_bytes(b, at_pos) {
            Some(x) => x,
            None => return None,
        };
        let ghost before = list_view(l@);
        proof {
            lemma_join(b@, start as int, at_pos as int, next as int, enc_items(before), enc_bytes(item@));
        }
        l.push(item);
        assert(list_view(l@).drop_last() =~= before);
        proof {
            assert forall|w: Seq<Seq<u8>>| #[trigger] at(b@, pos as int, enc_list(w)) implies list_view(l@) == w.subrange(0, k + 1) by {
                assert(list_view(l@) =~= w.subrange(0, k + 1));
            }
        }
        at_pos = next;
        k = k + 1;
    }
    proof {
        lemma_join(b@, pos as int, start as int, at_pos as int, enc_u64(n), enc_items(list_view(l@)));
        assert forall|w: Seq<Seq<u8>>| #[trigger] at(b@, pos as int, enc_list(w)) implies list_view(l@) == w
            && at_pos == pos + enc_list(w).len() by {
            assert(w.subrange(0, n as int) =~= w);
            lemma_enc_u64(n, n);
        }
    }
    Some((l, at_pos))
}

fn read_prefix(b: &Vec<u8>, pos: usize) -> (r: Option<(IdentifierPrefix, usize)>)
    ensures
        r matches Some((x, p)) ==> reads(b@, pos as int, p as int, enc_prefix(x@)),
        forall|v: PrefixView| #[trigger] at(b@, pos as int, enc_prefix(v)) ==> (r matches Some((x, p)) && x@ == v
            && p == pos + enc_prefix(v).len()),
{
    proof {
        assert forall|v: PrefixView| #[trigger] at(b@, pos as int, enc_prefix(v)) implies match v {
            PrefixView::Unset => at(b@, pos as int, seq![0u8]),
            PrefixView::Basic(k) => at(b@, pos as int, seq![1u8]) && at(b@, pos + 1, enc_bytes(k)),
            PrefixView::SelfAddressing(d) => at(b@, pos as int, seq![2u8]) && at(b@, pos + 1, enc_bytes(d)),
        } by {
            match v {
                PrefixView::Unset => {},
                PrefixView::Basic(k) => lemma_at_split(b@, pos as int, seq![1u8], enc_bytes(k)),
                PrefixView::SelfAddressing(d) => lemma_at_split(b@, pos as int, seq![2u8], enc_bytes(d)),
            }
        }
    }
    let (code, at) = match read_byte(b, pos) {
        Some(x) => x,
        None => return None,
    };
    if code == 0 {
        return Some((IdentifierPrefix::Unset, at));
    }
    if code != 1 && code != 2 {
        return None;
    }
    let (raw, end) = match read_bytes(b, at) {
        Some(x) => x,
        None => return None,
    };
    proof {
        lemma_join(b@, pos as int, at as int, end as int, seq![code], enc_bytes(raw@));
    }
    if code == 1 {
        Some((IdentifierPrefix::Basic(raw), end))
    } else {
        Some((IdentifierPrefix::SelfAddressing(raw), end))
    }
}

fn read_key_config(b: &Vec<u8>, pos: usize) -> (r: Option<(KeyConfig, usize)>)
    ensures
        r matches Some((x, p)) ==> reads(b@, pos as int, p as int, enc_key_config(x@)),
        forall|v: KeyConfigView| #[trigger] at(b@, pos as int, enc_key_config(v)) ==> (r matches Some((x, p)) && x@ == v
            && p == pos + enc_key_config(v).len()),
{
    proof {
        assert forall|v: KeyConfigView| #[trigger] at(b@, pos as int, enc_key_config(v)) implies at(b@, pos as int, enc_u64(v.threshold))
            && at(b@, pos + 8, enc_list(v.public_keys))
            && at(b@, pos + 8 + enc_list(v.public_keys).len(), enc_bytes(v.threshold_key_digest)) by {
            lemma_enc_u64(v.threshold, v.threshold);
            lemma_at_split(b@, pos as int, enc_u64(v.threshold) + enc_list(v.public_keys), enc_bytes(v.threshold_key_digest));
            lemma_at_split(b@, pos as int, enc_u64(v.threshold), enc_list(v.public_keys));
        }
    }
    let (threshold, p1) = match read_u64(b, pos) {
        Some(x) => x,
        None => return None,
    };
    let (public_keys, p2) = match read_list(b, p1) {
        Some(x) => x,
        None => return None,
    };
    let (threshold_key_digest, p3) = match read_bytes(b, p2) {
        Some(x) => x,
        None => return None,
    };
    let k = KeyConfig { threshold, public_keys, threshold_key_digest };
    proof {
        assert forall|v: KeyConfigView| #[trigger] at(b@, pos as int, enc_key_config(v)) implies k@ == v
            && p3 == pos + enc_key_config(v).len() by {
            assert(threshold == v.threshold);
            assert(p1 == pos + 8);
            assert(list_view(k.public_keys@) == v.public_keys);
            assert(p2 == pos + 8 + enc_list(v.public_keys).len());
            assert(k.threshold_key_digest@ == v.threshold_key_digest);
        }
        lemma_join(b@, pos as int, p1 as int, p2 as int, enc_u64(threshold), enc_list(k@.public_keys));
        lemma_join(b@, pos as int, p2 as int, p3 as int, enc_u64(threshold) + enc_list(k@.public_keys), enc_bytes(k@.threshold_key_digest));
    }
    Some((k, p3))
}

fn read_witness_config(b: &Vec<u8>, pos: usize) -> (r: Option<(WitnessConfig, usize)>)
    ensures
        r matches Some((x, p)) ==> reads(b@, pos as int, p as int, enc_witness_config(x@)),
        forall|v: WitnessConfigView| #[trigger] at(b@, pos as int, enc_witness_config(v)) ==> (r matches Some((x, p)) && x@ == v
            && p == pos + enc_witness_config(v).len()),
{
    proof {
        assert forall|v: WitnessConfigView| #[trigger] at(b@, pos as int, enc_witness_config(v)) implies at(b@, pos as int, enc_u64(v.tally))
            && at(b@, pos + 8, enc_list(v.witnesses)) by {
            lemma_enc_u64(v.tally, v.tally);
            lemma_at_split(b@, pos as int, enc_u64(v.tally), enc_list(v.witnesses));
        }
    }
    let (tally, p1) = match read_u64(b, pos) {
        Some(x) => x,
        None => return None,
    };
    let (witnesses, p2) = match read_list(b, p1) {
        Some(x) => x,
        None => return None,
    };
    let w = WitnessConfig { tally, witnesses };
    proof {
        assert forall|v: WitnessConfigView| #[trigger] at(b@, pos as int, enc_witness_config(v)) implies w@ == v
            && p2 == pos + enc_witness_config(v).len() by {
            assert(tally == v.tally);
            assert(p1 == pos + 8);
            assert(list_view(w.witnesses@) == v.witnesses);
        }
        lemma_join(b@, pos as int, p1 as int, p2 as int, enc_u64(tally), enc_list(w@.witnesses));
    }
    Some((w, p2))
}

fn read_event_data(b: &Vec<u8>, pos: usize) -> (r: Option<(EventData, usize)>)
    ensures
        r matches Some((x, p)) ==> reads(b@, pos as int, p as int, enc_event_data(x@)),
        forall|v: EventDataView| #[trigger] at(b@, pos as int, enc_event_data(v)) ==> (r matches Some((x, p)) && x@ == v
            && p == pos + enc_event_data(v).len()),
{
    proof {
        assert forall|v: EventDataView| #[trigger] at(b@, pos as int, enc_event_data(v)) implies match v {
            EventDataView::Icp { key_config, witness_config } => at(b@, pos as int, seq![1u8])
                && at(b@, pos + 1, enc_key_config(key_config))
                && at(b@, pos + 1 + enc_key_config(key_config).len(), enc_witness_config(witness_config)),
            EventDataView::Rot { previous_event_hash, key_config, witness_config } => at(b@, pos as int, seq![2u8])
                && at(b@, pos + 1, enc_bytes(previous_event_hash))
                && at(b@, pos + 1 + enc_bytes(previous_event_hash).len(), enc_key_config(key_config))
                && at(b@, pos + 1 + enc_bytes(previous_event_hash).len() + enc_key_config(key_config).len(), enc_witness_config(witness_config)),
            EventDataView::Ixn { previous_event_hash } => at(b@, pos as int, seq![3u8])
                && at(b@, pos + 1, enc_bytes(previous_event_hash)),
            EventDataView::Vrc { receipted_event_digest, seal_prefix, seal_digest } => at(b@, pos as int, seq![4u8])
                && at(b@, pos + 1, enc_bytes(receipted_event_digest))
                && at(b@, pos + 1 + enc_bytes(receipted_event_digest).len(), enc_prefix(seal_prefix))
                && at(b@, pos + 1 + enc_bytes(receipted_event_digest).len() + enc_prefix(seal_prefix).len(), enc_bytes(seal_digest)),
        } by {
            match v {
                EventDataView::Icp { key_config, witness_config } => {
                    lemma_at_split(b@, pos as int, seq![1u8] + enc_key_config(key_config), enc_witness_config(witness_config));
                    lemma_at_split(b@, pos as int, seq![1u8], enc_key_config(key_config));
                },
                EventDataView::Rot { previous_event_hash, key_config, witness_config } => {
                    let e1 = seq![2u8] + enc_bytes(previous_event_hash);
                    lemma_at_split(b@, pos as int, e1 + enc_key_config(key_config), enc_witness_config(witness_config));
                    lemma_at_split(b@, pos as int, e1, enc_key_config(key_config));
                    lemma_at_split(b@, pos as int, seq![2u8], enc_bytes(previous_event_hash));
                },
                EventDataView::Ixn { previous_event_hash } => {
                    lemma_at_split(b@, pos as int, seq![3u8], enc_bytes(previous_event_hash));
                },
                EventDataView::Vrc { receipted_event_digest, seal_prefix, seal_digest } => {
                    let e1 = seq![4u8] + enc_bytes(receipted_event_digest);
                    lemma_at_split(b@, pos as int, e1 + enc_prefix(seal_prefix), enc_bytes(seal_digest));
                    lemma_at_split(b@, pos as int, e1, enc_prefix(seal_prefix));
                    lemma_at_split(b@, pos as int, seq![4u8], enc_bytes(receipted_event_digest));
                },
            }
        }
    }
    let (kind, p0) = match read_byte(b, pos) {
        Some(x) => x,
        None => return None,
    };
    if kind == 1 {
        let (key_config, p1) = match read_key_config(b, p0) {
            Some(x) => x,
            None => return None,
        };
        let (witness_config, p2) = match read_witness_config(b, p1) {
            Some(x) => x,
            None => return None,
        };
        proof {
            lemma_join(b@, pos as int, p0 as int, p1 as int, seq![kind], enc_key_config(key_config@));
            lemma_join(b@, pos as int, p1 as int, p2 as int, seq![kind] + enc_key_config(key_config@), enc_witness_config(witness_config@));
        }
        Some((EventData::Icp(InceptionEvent { key_config, witness_config }), p2))
    } else if kind == 2 {
        let (previous_event_hash, p1) = match read_bytes(b, p0) {
            Some(x) => x,
            None => return None,
        };
        let (key_config, p2) = match read_key_config(b, p1) {
            Some(x) => x,
            None => return None,
        };
        let (witness_config, p3) = match read_witness_config(b, p2) {
            Some(x) => x,
            None => return None,
        };
        proof {
            let e1 = seq![kind] + enc_bytes(previous_event_hash@);
            let e2 = e1 + enc_key_config(key_config@);
            lemma_join(b@, pos as int, p0 as int, p1 as int, seq![kind], enc_bytes(previous_event_hash@));
            lemma_join(b@, pos as int, p1 as int, p2 as int, e1, enc_key_config(key_config@));
            lemma_join(b@, pos as int, p2 as int, p3 as int, e2, enc_witness_config(witness_config@));
        }
        Some((EventData::Rot(RotationEvent { previous_event_hash, key_config, witness_config }), p3))
    } else if kind == 3 {
        let (previous_event_hash, p1) = match read_bytes(b, p0) {
            Some(x) => x,
            None => return None,
        };
        proof {
            lemma_join(b@, pos as int, p0 as int, p1 as int, seq![kind], enc_bytes(previous_event_hash@));
        }
        Some((EventData::Ixn(InteractionEvent { previous_event_hash }), p1))
    } else if kind == 4 {
        let (receipted_event_digest, p1) = match read_bytes(b, p0) {
            Some(x) => x,
            None => return None,
        };
        let (prefix, p2) = match read_prefix(b, p1) {
            Some(x) => x,
            None => return None,
        };
        let (event_digest, p3) = match read_bytes(b, p2) {
            Some(x) => x,
            None => return None,
        };
        proof {
            let e1 = seq![kind] + enc_bytes(receipted_event_digest@);
            let e2 = e1 + enc_prefix(prefix@);
            lemma_join(b@, pos as int, p0 as int, p1 as int, seq![kind], enc_bytes(receipted_event_digest@));
            lemma_join(b@, pos as int, p1 as int, p2 as int, e1, enc_prefix(prefix@));
            lemma_join(b@, pos as int, p2 as int, p3 as int, e2, enc_bytes(event_digest@));
        }
        Some(
            (
                EventData::Vrc(
                    ReceiptTransferable {
                        receipted_event_digest,
                        validator_location_seal: EventSeal { prefix, event_digest },
                    },
                ),
                p3,
            ),
        )
    } else {
        None
    }
}

fn read_event(b: &Vec<u8>, pos: usize) -> (r: Option<(Event, usize)>)
    ensures
        r matches Some((x, p)) ==> reads(b@, pos as int, p as int, enc_event(x@)),
        forall|v: EventView| #[trigger] at(b@, pos as int, enc_event(v)) ==> (r matches Some((x, p)) && x@ == v
            && p == pos + enc_event(v).len()),
{
    proof {
        assert forall|v: EventView| #[trigger] at(b@, pos as int, enc_event(v)) implies at(b@, pos as int, enc_prefix(v.prefix))
            && at(b@, pos + enc_prefix(v.prefix).len(), enc_u64(v.sn))
            && at(b@, pos + enc_prefix(v.prefix).len() + 8, enc_event_data(v.event_data)) by {
            lemma_enc_u64(v.sn, v.sn);
            lemma_at_split(b@, pos as int, enc_prefix(v.prefix) + enc_u64(v.sn), enc_event_data(v.event_data));
            lemma_at_split(b@, pos as int, enc_prefix(v.prefix), enc_u64(v.sn));
        }
    }
    let (prefix, p1) = match read_prefix(b, pos) {
        Some(x) => x,
        None => return None,
    };
    let (sn, p2) = match read_u64(b, p1) {
        Some(x) => x,
        None => return None,
    };
    let (event_data, p3) = match read_event_data(b, p2) {
        Some(x) => x,
        None => return None,
    };
    proof {
        lemma_join(b@, pos as int, p1 as int, p2 as int, enc_prefix(prefix@), enc_u64(sn));
        lemma_join(b@, pos as int, p2 as int, p3 as int, enc_prefix(prefix@) + enc_u64(sn), enc_event_data(event_data@));
    }
    Some((Event { prefix, sn, event_data }, p3))
}

fn read_signatures(b: &Vec<u8>, pos: usize) -> (r: Option<(Vec<AttachedSignaturePrefix>, usize)>)
    ensures
        r matches Some((l, p)) ==> reads(b@, pos as int, p as int, enc_signatures(signatures_view(l@))),
        forall|w: Seq<(u64, Seq<u8>)>| #[trigger] at(b@, pos as int, enc_signatures(w)) ==> (r matches Some((l, p))
            && signatures_view(l@) == w && p == pos + enc_signatures(w).len()),
{
    let len = b.len();
    proof {
        assert forall|w: Seq<(u64, Seq<u8>)>| #[trigger] at(b@, pos as int, enc_signatures(w)) implies at(b@, pos as int, enc_u64(w.len() as u64))
            && at(b@, pos + 8, enc_signature_items(w)) && w.len() as u64 == w.len() by {
            lemma_enc_u64(w.len() as u64, w.len() as u64);
            lemma_enc_signature_items_len(w);
            lemma_at_split(b@, pos as int, enc_u64(w.len() as u64), enc_signature_items(w));
        }
    }
    let (n, start) = match read_u64(b, pos) {
        Some(x) => x,
        None => return None,
    };
    proof {
        lemma_enc_u64(n, n);
    }
    let mut l: Vec<AttachedSignaturePrefix> = Vec::new();
    let mut at_pos = start;
    let mut k: u64 = 0;
    assert(b@.subrange(start as int, at_pos as int) =~= enc_signature_items(signatures_view(l@)));
    assert forall|w: Seq<(u64, Seq<u8>)>| #[trigger] at(b@, pos as int, enc_signatures(w)) implies w.len() == n
        && signatures_view(l@) == w.subrange(0, k as int) && at(b@, at_pos as int, enc_signature_items(w.subrange(k as int, n as int))) by {
        assert(w.subrange(0, 0) =~= signatures_view(l@));
        assert(w.subrange(0, n as int) =~= w);
    }
    while k < n
        invariant
            k <= n,
            start == pos + 8,
            l@.len() == k,
            reads(b@, start as int, at_pos as int, enc_signature_items(signatures_view(l@))),
            forall|w: Seq<(u64, Seq<u8>)>| #[trigger] at(b@, pos as int, enc_signatures(w)) ==> w.len() == n
                && signatures_view(l@) == w.subrange(0, k as int) && at(b@, at_pos as int, enc_signature_items(w.subrange(k as int, n as int))),
        decreases n - k,
    {
        proof {
            assert forall|w: Seq<(u64, Seq<u8>)>| #[trigger] at(b@, pos as int, enc_signatures(w)) implies at(b@, at_pos as int, enc_u64(w[k as int].0))
                && at(b@, at_pos + 8, enc_bytes(w[k as int].1))
                && at(b@, at_pos + 8 + enc_bytes(w[k as int].1).len(), enc_signature_items(w.subrange(k + 1, n as int))) by {
                let rest = w.subrange(k as int, n as int);
                lemma_enc_signature_items_first(rest);
                assert(rest.drop_first() =~= w.subrange(k + 1, n as int));
                lemma_enc_u64(w[k as int].0, 0);
                lemma_at_split(b@, at_pos as int, enc_signature(w[k as int]), enc_signature_items(w.subrange(k + 1, n as int)));
                lemma_at_split(b@, at_pos as int, enc_u64(w[k as int].0), enc_bytes(w[k as int].1));
            }
        }
        let (index, p1) = match read_u64(b, at_pos) {
            Some(x) => x,
            None => return None,
        };
        let (signature, p2) = match read_bytes(b, p1) {
            Some(x) => x,
            None => return None,
        };
        let ghost before = signatures_view(l@);
        proof {
            lemma_join(b@, at_pos as int, p1 as int, p2 as int, enc_u64(index), enc_bytes(signature@));
            lemma_join(b@, start as int, at_pos as int, p2 as int, enc_signature_items(before), enc_signature((index, signature@)));
        }
        l.push(AttachedSignaturePrefix { index, signature });
        assert(signatures_view(l@).drop_last() =~= before);
        proof {
            assert forall|w: Seq<(u64, Seq<u8>)>| #[trigger] at(b@, pos as int, enc_signatures(w)) implies signatures_view(l@) == w.subrange(0, k + 1) by {
                assert(signatures_view(l@) =~= w.subrange(0, k + 1));
            }
        }
        at_pos = p2;
        k = k + 1;
    }
    proof {
        lemma_join(b@, pos as int, start as int, at_pos as int, enc_u64(n), enc_signature_items(signatures_view(l@)));
        assert forall|w: Seq<(u64, Seq<u8>)>| #[trigger] at(b@, pos as int, enc_signatures(w)) implies signatures_view(l@) == w
            && at_pos == pos + enc_signatures(w).len() by {
            assert(w.subrange(0, n as int) =~= w);
        }
    }
    Some((l, at_pos))
}

/// Decodes one signed event message that fills `bytes` exactly: the message
/// whose encoding the bytes are, and `None` when they are the encoding of none.
pub fn parse_signed_message(bytes: &Vec<u8>) -> (r: Option<SignedEventMessage>)
    ensures
        r matches Some(m) ==> enc_signed(m) == bytes@,
        forall|e: EventView, sigs: Seq<(u64, Seq<u8>)>| #[trigger] enc_signed_view(e, sigs) == bytes@ ==> (r matches Some(m)
            && m.event_message.event@ == e && signatures_view(m.signatures@) == sigs),
{
    proof {
        assert forall|e: EventView, sigs: Seq<(u64, Seq<u8>)>| #[trigger] enc_signed_view(e, sigs) == bytes@ implies at(bytes@, 0, enc_event(e))
            && at(bytes@, enc_event(e).len() as int, enc_signatures(sigs))
            && enc_event(e).len() + enc_signatures(sigs).len() == bytes@.len() by {
            assert(bytes@.subrange(0, bytes@.len() as int) =~= bytes@);
            lemma_at_split(bytes@, 0, enc_event(e), enc_signatures(sigs));
        }
    }
    let (event, p1) = match read_event(bytes, 0) {
        Some(x) => x,
        None => return None,
    };
    let (signatures, p2) = match read_signatures(bytes, p1) {
        Some(x) => x,
        None => return None,
    };
    if p2 != bytes.len() {
        return None;
    }
    proof {
        lemma_join(bytes@, 0, p1 as int, p2 as int, enc_event(event@), enc_signatures(signatures_view(signatures@)));
        assert(bytes@.subrange(0, bytes@.len() as int) =~= bytes@);
    }
    let m = SignedEventMessage {
        event_message: EventMessage { event, serialization: SerializationFormats::Canonical },
        signatures,
    };
    assert(enc_signed(m) =~= bytes@);
    Some(m)
}

impl SignedEventMessage {
    /// The canonical encoding of the signed message.
    pub fn serialize(&self) -> (r: Vec<u8>)
        ensures
            r@ == enc_signed(*self),
    {
        let mut out = self.event_message.serialize();
        push_u64(&mut out, self.signatures.len() as u64);
        assert(signatures_view(self.signatures@).len() == self.signatures@.len());
        let ghost mid = out@;
        let mut i: usize = 0;
        while i < self.signatures.len()
            invariant
                i <= self.signatures@.len(),
                out@ == mid + enc_signature_items(signatures_view(self.signatures@).subrange(0, i as int)),
            decreases self.signatures@.len() - i,
        {
            let a = &self.signatures[i];
            push_u64(&mut out, a.index);
            push_bytes(&mut out, &a.signature);
            i = i + 1;
            let ghost s = signatures_view(self.signatures@).subrange(0, i as int);
            assert(s.drop_last() =~= signatures_view(self.signatures@).subrange(0, i - 1));
            assert(out@ =~= mid + enc_signature_items(s));
        }
        assert(signatures_view(self.signatures@).subrange(0, self.signatures@.len() as int) =~= signatures_view(self.signatures@));
        assert(out@ =~= enc_signed(*self));
        out
    }
}

} // verus!

//! The per-neighbour state of a Bloom-filter-then-RIBLT session and the
//! decisions taken on each event: Bloom slices are streamed under a send
//! window, each received slice splits the local candidates into those the
//! neighbour may hold (`s_com`) and those it surely lacks (`s_tn`), and the
//! session moves on to the RIBLT phase once a slice stops paying for itself.

use vstd::prelude::*;
use vstd::wrapping::u64_specs::wrapping_add;

use crate::bitvec_specs::max_bits;
use crate::bloom::{
    byte_bit, lemma_pack_unpack, spec_bloom_contains, spec_probe, spec_unpack, BloomFilter,
};
use crate::kv::{str_eq, OrderedEntries};
use crate::rbf::messages::{RbfRibltBloomFilterSliceMessage, RbfRibltFetchedEntry, RbfRibltMessageTypeValues};
use crate::std_hash::{hash_pairs, pairs_view, spec_hash_pairs, spec_hash_seeded_str};
use crate::wire::{is_session_id_text, new_session_id, ProtocolId};

verus! {

/// The wire id of the protocol.
pub const RBF_RIBLT_PROTOCOL_ID: u64 = 3;

/// Probes per key in every Bloom slice.
pub const BLOOM_HASHES: u64 = 1;

/// Cost, in filter bits, of reconciling one element through the RIBLT phase.
pub const BLOOM_C_ELEM: usize = 32;

/// Most slices in flight (sent and not yet acknowledged).
pub const BLOOM_SEND_WINDOW: u64 = 1;

/// The protocol's wire id is that of `ProtocolId::RbfRiblt`.
pub proof fn lemma_protocol_id()
    ensures
        RBF_RIBLT_PROTOCOL_ID == ProtocolId::RbfRiblt.spec_wire_id(),
{
}

/// The strings of a vector, as character sequences.
pub open spec fn strs(s: Seq<String>) -> Seq<Seq<char>> {
    s.map_values(|x: String| x@)
}

/// The sender's side of the Bloom phase.
pub struct BloomSendingState {
    pub session_id: String,
    pub next_slice_index: u64,
    pub m_bits: usize,
    /// Highest slice count the receiver confirmed processing.
    pub acked: u64,
}

impl BloomSendingState {
    pub fn new(session_id: String, m_bits: usize) -> (res: Self)
        ensures
            res.session_id == session_id,
            res.next_slice_index == 0,
            res.m_bits == m_bits,
            res.acked == 0,
    {
        BloomSendingState { session_id, next_slice_index: 0, m_bits, acked: 0 }
    }

    /// Slices sent and not yet acknowledged.
    pub open spec fn spec_in_flight(&self) -> int {
        if self.next_slice_index >= self.acked {
            self.next_slice_index - self.acked
        } else {
            0
        }
    }

    /// Whether the sender must wait for an acknowledgement before the next slice.
    pub fn window_full(&self) -> (res: bool)
        ensures
            res == (self.spec_in_flight() >= BLOOM_SEND_WINDOW),
    {
        self.next_slice_index.saturating_sub(self.acked) >= BLOOM_SEND_WINDOW
    }
}

/// The receiver's side of the Bloom phase.
pub struct BloomReceivingState {
    pub session_id: String,
    pub filters: Vec<BloomFilter>,
    pub m_bits: usize,
    /// Local keys the neighbour may hold.
    pub s_com: Vec<String>,
    /// Local keys the neighbour surely lacks.
    pub s_tn: Vec<String>,
    pub riblt_started: bool,
    /// Number of slices applied so far.
    pub slices_received: usize,
}

impl BloomReceivingState {
    /// Cost-based stopping rule: stop slicing once a slice reveals fewer than
    /// `m_bits / BLOOM_C_ELEM` new true negatives, compared as
    /// `new_true_negatives * BLOOM_C_ELEM < m_bits`.
    pub fn should_stop_slicing(&self, new_true_negatives: usize) -> (res: bool)
        ensures
            res == (new_true_negatives * BLOOM_C_ELEM < self.m_bits),
    {
        let n = new_true_negatives as u128;
        assert(n <= 0xffff_ffff_ffff_ffffu128);
        n * (BLOOM_C_ELEM as u128) < (self.m_bits as u128)
    }

    pub fn new(session_id: String, m_bits: usize) -> (res: Self)
        ensures
            res.session_id == session_id,
            res.filters@.len() == 0,
            res.m_bits == m_bits,
            res.s_com@.len() == 0,
            res.s_tn@.len() == 0,
            !res.riblt_started,
            res.slices_received == 0,
    {
        BloomReceivingState {
            session_id,
            filters: Vec::new(),
            m_bits,
            s_com: Vec::new(),
            s_tn: Vec::new(),
            riblt_started: false,
            slices_received: 0,
        }
    }
}

/// Whether the `i`-th of `k` probes of `key` lands on bit `g` of `m` bits.
pub open spec fn spec_hits(m: int, seeds: [u64; 2], k: u64, key: Seq<char>, g: int) -> bool {
    exists|i: u64|
        i < k && g == spec_probe(
            spec_hash_seeded_str(seeds[0], key),
            spec_hash_seeded_str(seeds[1], key),
            i,
            m,
        )
}

/// Bit `g` of a filter of `m` bits into which all `keys` were inserted.
pub open spec fn spec_filled_bit(m: int, seeds: [u64; 2], k: u64, keys: Seq<Seq<char>>, g: int) -> bool {
    exists|j: int| 0 <= j < keys.len() && #[trigger] spec_hits(m, seeds, k, keys[j], g)
}

/// The seeds of slice `slice_index`.
pub open spec fn spec_slice_seeds(slice_index: u64) -> [u64; 2] {
    [slice_index, wrapping_add(slice_index, 1)]
}

/// Builds slice `slice_index` of the sender's keys: a filter of `m_bits` bits
/// with one probe per key, seeded by the slice index, packed into bytes.
pub fn build_bloom_slice(keys: &[String], m_bits: usize, slice_index: u64) -> (res: ([u64; 2], Vec<u8>))
    requires
        0 < m_bits <= max_bits(),
    ensures
        res.0 == spec_slice_seeds(slice_index),
        res.1@.len() == (m_bits + 7) / 8,
        forall|j: int, t: int|
            0 <= j < res.1@.len() && 0 <= t < 8 ==> #[trigger] byte_bit(res.1@[j], t) == (8 * j + t
                < m_bits && spec_filled_bit(m_bits as int, res.0, BLOOM_HASHES, strs(keys@), 8 * j + t)),
{
    let seeds: [u64; 2] = [slice_index, slice_index.wrapping_add(1)];
    let mut filter = BloomFilter::from_raw_parts_with_seeds(m_bits, BLOOM_HASHES, seeds);
    let ghost ks = strs(keys@);
    let mut j: usize = 0;
    while j < keys.len()
        invariant
            ks == strs(keys@),
            0 < m_bits,
            j <= keys@.len(),
            filter.spec_seeds() == seeds,
            filter.spec_hashes() == BLOOM_HASHES,
            filter.spec_bits().len() == m_bits,
            forall|g: int|
                0 <= g < m_bits ==> #[trigger] filter.spec_bits()[g] == spec_filled_bit(
                    m_bits as int,
                    seeds,
                    BLOOM_HASHES,
                    ks.subrange(0, j as int),
                    g,
                ),
        decreases keys@.len() - j,
    {
        filter.insert(keys[j].as_str());
        proof {
            assert forall|g: int| 0 <= g < m_bits implies #[trigger] filter.spec_bits()[g] == spec_filled_bit(
                m_bits as int,
                seeds,
                BLOOM_HASHES,
                ks.subrange(0, j + 1),
                g,
            ) by {
                let prefix = ks.subrange(0, j as int);
                let next = ks.subrange(0, j + 1);
                if spec_filled_bit(m_bits as int, seeds, BLOOM_HASHES, prefix, g) {
                    let a = choose|a: int| 0 <= a < prefix.len() && #[trigger] spec_hits(
                        m_bits as int,
                        seeds,
                        BLOOM_HASHES,
                        prefix[a],
                        g,
                    );
                    assert(next[a] == prefix[a]);
                }
                if spec_hits(m_bits as int, seeds, BLOOM_HASHES, keys@[j as int]@, g) {
                    assert(next[j as int] == keys@[j as int]@);
                }
                if spec_filled_bit(m_bits as int, seeds, BLOOM_HASHES, next, g) {
                    let a = choose|a: int| 0 <= a < next.len() && #[trigger] spec_hits(
                        m_bits as int,
                        seeds,
                        BLOOM_HASHES,
                        next[a],
                        g,
                    );
                    if a < j {
                        assert(prefix[a] == next[a]);
                    }
                }
            }
        }
        j = j + 1;
    }
    assert(ks.subrange(0, j as int) =~= ks);
    let bits = filter.to_bytes();
    (seeds, bits)
}

/// A session waiting for a value fetch, or whose neighbour the RIBLT engine
/// serves, is busy: a handshake received then is ignored.
pub proof fn lemma_pending_fetch_is_busy(s: RbfPeerSession, scom_active: bool)
    requires
        s.pending_fetch is Some || scom_active,
    ensures
        s.spec_busy(scom_active),
{
}

/// A key the sender put into a slice passes the filter the receiver rebuilds
/// from the slice's bytes: no key the sender holds is taken for one it lacks.
pub proof fn lemma_slice_keeps_sender_keys(
    keys: Seq<Seq<char>>,
    m_bits: int,
    seeds: [u64; 2],
    bits: Seq<u8>,
    key: Seq<char>,
)
    requires
        m_bits > 0,
        keys.contains(key),
        bits.len() == (m_bits + 7) / 8,
        forall|j: int, t: int|
            0 <= j < bits.len() && 0 <= t < 8 ==> #[trigger] byte_bit(bits[j], t) == (8 * j + t < m_bits
                && spec_filled_bit(m_bits, seeds, BLOOM_HASHES, keys, 8 * j + t)),
    ensures
        spec_bloom_contains(spec_unpack(m_bits, bits), seeds, BLOOM_HASHES, key),
{
    let filled = Seq::new(m_bits as nat, |g: int| spec_filled_bit(m_bits, seeds, BLOOM_HASHES, keys, g));
    assert forall|j: int, t: int|
        0 <= j < bits.len() && 0 <= t < 8 implies #[trigger] byte_bit(bits[j], t) == (8 * j + t
            < filled.len() && filled[8 * j + t]) by {
    }
    lemma_pack_unpack(filled, bits);
    let a = choose|a: int| 0 <= a < keys.len() && keys[a] == key;
    let h0 = spec_hash_seeded_str(seeds[0], key);
    let h1 = spec_hash_seeded_str(seeds[1], key);
    assert forall|i: u64| i < BLOOM_HASHES implies #[trigger] spec_unpack(m_bits, bits)[spec_probe(
        h0,
        h1,
        i,
        m_bits,
    )] by {
        let g = spec_probe(h0, h1, i, m_bits);
        assert(spec_hits(m_bits, seeds, BLOOM_HASHES, keys[a], g));
    }
}

/// One step of `filter`: the last element is kept exactly when it satisfies the predicate.
pub proof fn lemma_filter_step<A>(s: Seq<A>, p: spec_fn(A) -> bool)
    requires
        s.len() > 0,
    ensures
        s.filter(p) == if p(s.last()) {
            s.drop_last().filter(p).push(s.last())
        } else {
            s.drop_last().filter(p)
        },
{
    reveal(Seq::filter);
}

/// Admitted by the filter.
pub open spec fn admitted(f: BloomFilter) -> spec_fn(Seq<char>) -> bool {
    |k: Seq<char>| f.spec_contains(k)
}

/// Rejected by the filter.
pub open spec fn rejected(f: BloomFilter) -> spec_fn(Seq<char>) -> bool {
    |k: Seq<char>| !f.spec_contains(k)
}

/// Splits `s_com` by a slice: keys the filter admits stay, the others join
/// `s_tn`. Returns the number of new true negatives.
pub fn partition_by_filter(state: &mut BloomReceivingState, filter: &BloomFilter) -> (res: usize)
    requires
        filter.spec_bits().len() > 0 || filter.spec_hashes() == 0,
    ensures
        strs(final(state).s_com@) == strs(old(state).s_com@).filter(admitted(*filter)),
        strs(final(state).s_tn@) == strs(old(state).s_tn@) + strs(old(state).s_com@).filter(rejected(*filter)),
        res == strs(old(state).s_com@).filter(rejected(*filter)).len(),
        final(state).session_id == old(state).session_id,
        final(state).m_bits == old(state).m_bits,
        final(state).riblt_started == old(state).riblt_started,
        final(state).slices_received == old(state).slices_received,
        final(state).filters == old(state).filters,
{
    let mut prev: Vec<String> = Vec::new();
    std::mem::swap(&mut prev, &mut state.s_com);
    let ghost pv = strs(prev@);
    let ghost tn0 = strs(state.s_tn@);
    let mut kept: Vec<String> = Vec::new();
    let mut new_true_negatives: usize = 0;
    let mut i: usize = 0;
    while i < prev.len()
        invariant
            pv == strs(prev@),
            filter.spec_bits().len() > 0 || filter.spec_hashes() == 0,
            i <= prev@.len(),
            strs(kept@) == pv.subrange(0, i as int).filter(admitted(*filter)),
            strs(state.s_tn@) == tn0 + pv.subrange(0, i as int).filter(rejected(*filter)),
            new_true_negatives == pv.subrange(0, i as int).filter(rejected(*filter)).len(),
            new_true_negatives <= i,
            state.session_id == old(state).session_id,
            state.m_bits == old(state).m_bits,
            state.riblt_started == old(state).riblt_started,
            state.slices_received == old(state).slices_received,
            state.filters == old(state).filters,
        decreases prev@.len() - i,
    {
        proof {
            assert(pv.subrange(0, i + 1).drop_last() =~= pv.subrange(0, i as int));
            assert(pv.subrange(0, i + 1).last() == prev@[i as int]@);
        }
        let key = prev[i].clone();
        let ghost cur = pv.subrange(0, i + 1);
        let ghost k = prev@[i as int]@;
        proof {
            lemma_filter_step(cur, admitted(*filter));
            lemma_filter_step(cur, rejected(*filter));
        }
        if filter.contains(key.as_str()) {
            let ghost before = kept@;
            kept.push(key);
            assert(strs(kept@) =~= strs(before).push(k));
        } else {
            let ghost before = state.s_tn@;
            state.s_tn.push(key);
            assert(strs(state.s_tn@) =~= strs(before).push(k));
            new_true_negatives = new_true_negatives + 1;
        }
        i = i + 1;
    }
    assert(pv.subrange(0, i as int) =~= pv);
    state.s_com = kept;
    new_true_negatives
}

/// Keeping the admitted candidates and moving the others to `s_tn` loses no key:
/// the two parts together hold every candidate as often as before.
pub proof fn lemma_partition_keeps_keys(keys: Seq<Seq<char>>, f: BloomFilter)
    ensures
        keys.filter(admitted(f)).to_multiset().add(keys.filter(rejected(f)).to_multiset())
            == keys.to_multiset(),
    decreases keys.len(),
{
    broadcast use vstd::seq_lib::group_to_multiset_ensures;

    if keys.len() > 0 {
        let rest = keys.drop_last();
        let x = keys.last();
        lemma_partition_keeps_keys(rest, f);
        lemma_filter_step(keys, admitted(f));
        lemma_filter_step(keys, rejected(f));
        assert(keys =~= rest.push(x));
        let a = rest.filter(admitted(f));
        let b = rest.filter(rejected(f));
        if f.spec_contains(x) {
            assert(a.push(x).to_multiset() =~= a.to_multiset().insert(x));
        } else {
            assert(b.push(x).to_multiset() =~= b.to_multiset().insert(x));
        }
        assert(keys.filter(admitted(f)).to_multiset().add(keys.filter(rejected(f)).to_multiset())
            =~= keys.to_multiset());
    } else {
        reveal(Seq::filter);
        assert(keys.to_multiset() =~= vstd::multiset::Multiset::empty());
        assert(keys.filter(admitted(f)).to_multiset().add(keys.filter(rejected(f)).to_multiset())
            =~= keys.to_multiset());
    }
}

/// What happens after a Bloom slice was applied.
pub enum SliceOutcome {
    /// The slice was not applied (no receiving state could be set up).
    Ignored,
    /// Not yet stable: acknowledge `processed_count` slices so the sender goes on.
    Ack { session_id: String, processed_count: u64 },
    /// Stable: stop the sender; the initiator then starts the RIBLT phase, the
    /// responder streams its own slices back.
    Stabilized { session_id: String, initiator: bool },
}

/// Everything one node keeps about a reconciliation with one neighbour.
pub struct RbfPeerSession {
    pub sending: Option<BloomSendingState>,
    pub receiving: Option<BloomReceivingState>,
    /// Session whose value-fetch response is awaited.
    pub pending_fetch: Option<String>,
    /// Fingerprint of the local data after the last completed round.
    pub last_fingerprint: Option<u64>,
    /// This node started the reconciliation with the neighbour.
    pub initiated: bool,
    /// The round's start time has been stamped.
    pub round_started: bool,
    /// `s_tn` as frozen when the Bloom phase stabilised.
    pub captured_stn: Option<Vec<String>>,
    /// Remote-only keys decoded so far in the RIBLT phase.
    pub pending_remote: Option<Vec<String>>,
}

impl RbfPeerSession {
    pub fn new() -> (res: Self)
        ensures
            res.sending is None,
            res.receiving is None,
            res.pending_fetch is None,
            res.last_fingerprint is None,
            !res.initiated,
            !res.round_started,
            res.captured_stn is None,
            res.pending_remote is None,
    {
        RbfPeerSession {
            sending: None,
            receiving: None,
            pending_fetch: None,
            last_fingerprint: None,
            initiated: false,
            round_started: false,
            captured_stn: None,
            pending_remote: None,
        }
    }

    pub open spec fn spec_active(&self, scom_active: bool) -> bool {
        self.sending is Some || self.receiving is Some || scom_active || self.pending_fetch is Some
    }

    pub open spec fn spec_busy(&self, scom_active: bool) -> bool {
        ||| scom_active
        ||| self.pending_fetch is Some
        ||| (self.receiving matches Some(r) && r.riblt_started)
    }

    /// Whether any reconciliation state exists for the neighbour; `scom_active`
    /// tells whether the RIBLT engine holds a session with it.
    pub fn is_session_active(&self, scom_active: bool) -> (res: bool)
        ensures
            res == self.spec_active(scom_active),
    {
        self.sending.is_some() || self.receiving.is_some() || scom_active || self.pending_fetch.is_some()
    }

    /// Whether the session is past the Bloom phase (RIBLT or fetch under way).
    pub fn is_session_busy(&self, scom_active: bool) -> (res: bool)
        ensures
            res == self.spec_busy(scom_active),
            scom_active ==> res,
            self.pending_fetch is Some ==> res,
            (self.receiving matches Some(r) && r.riblt_started) ==> res,
            res ==> scom_active || self.pending_fetch is Some || (self.receiving matches Some(r)
                && r.riblt_started),
    {
        scom_active || self.pending_fetch.is_some() || match &self.receiving {
            Some(r) => r.riblt_started,
            None => false,
        }
    }

    /// Forgets the session; the fingerprint of the last completed round stays.
    pub fn clear_session_state(&mut self)
        ensures
            final(self).sending is None,
            final(self).receiving is None,
            final(self).pending_fetch is None,
            final(self).captured_stn is None,
            !final(self).initiated,
            !final(self).round_started,
            final(self).last_fingerprint == old(self).last_fingerprint,
            final(self).pending_remote == old(self).pending_remote,
            !final(self).spec_active(false),
    {
        self.pending_fetch = None;
        self.round_started = false;
        self.sending = None;
        self.receiving = None;
        self.captured_stn = None;
        self.initiated = false;
    }

    /// Starts a round as initiator under a fresh session id, which is returned:
    /// records the sending state and stamps the start.
    pub fn begin_as_initiator(&mut self, m_bits: usize) -> (res: String)
        ensures
            final(self).sending matches Some(s) && s.session_id == res && s.m_bits == m_bits
                && s.next_slice_index == 0 && s.acked == 0,
            is_session_id_text(res@),
            final(self).initiated,
            final(self).round_started,
            final(self).receiving == old(self).receiving,
            final(self).pending_fetch == old(self).pending_fetch,
            final(self).last_fingerprint == old(self).last_fingerprint,
    {
        let session_id = new_session_id();
        self.sending = Some(BloomSendingState::new(session_id.clone(), m_bits));
        self.initiated = true;
        self.round_started = true;
        session_id
    }

    /// An acknowledgement of `processed_count` slices: slides the send window if it
    /// belongs to the current session. Returns whether the sender must be woken.
    pub fn on_bloom_slice_ack(&mut self, session_id: &str, processed_count: u64) -> (res: bool)
        ensures
            res == (old(self).sending matches Some(s) && s.session_id@ == session_id@),
            match old(self).sending {
                Some(s) => if s.session_id@ == session_id@ {
                    final(self).sending matches Some(t) && t.session_id == s.session_id
                        && t.next_slice_index == s.next_slice_index && t.m_bits == s.m_bits
                        && t.acked == if processed_count > s.acked {
                        processed_count
                    } else {
                        s.acked
                    }
                } else {
                    final(self).sending == old(self).sending
                },
                None => final(self).sending is None,
            },
            final(self).receiving == old(self).receiving,
            final(self).pending_fetch == old(self).pending_fetch,
            final(self).initiated == old(self).initiated,
    {
        match &mut self.sending {
            Some(s) => {
                if str_eq(s.session_id.as_str(), session_id) {
                    if processed_count > s.acked {
                        s.acked = processed_count;
                    }
                    true
                } else {
                    false
                }
            },
            None => false,
        }
    }

    /// The next slice of the local keys to stream, or `None` once the sending
    /// state is gone (the stream stops).
    pub fn next_bloom_slice(&self, keys: &[String]) -> (res: Option<RbfRibltBloomFilterSliceMessage>)
        requires
            self.sending matches Some(s) ==> 0 < s.m_bits <= max_bits(),
        ensures
            match self.sending {
                None => res is None,
                Some(s) => res matches Some(msg) && {
                    &&& msg.spec_protocol_id() == Some(RBF_RIBLT_PROTOCOL_ID)
                    &&& msg.spec_type().spec_value() == RbfRibltMessageTypeValues::BloomFilterSlice
                    &&& msg.spec_session_id() == s.session_id
                    &&& msg.spec_slice_index() == s.next_slice_index
                    &&& msg.spec_m() == s.m_bits
                    &&& msg.spec_k() == BLOOM_HASHES
                    &&& msg.spec_seeds() == spec_slice_seeds(s.next_slice_index)
                    &&& msg.spec_bits()@.len() == (s.m_bits + 7) / 8
                    &&& forall|j: int, t: int|
                        0 <= j < msg.spec_bits()@.len() && 0 <= t < 8 ==> #[trigger] byte_bit(
                            msg.spec_bits()@[j],
                            t,
                        ) == (8 * j + t < s.m_bits && spec_filled_bit(
                            s.m_bits as int,
                            msg.spec_seeds(),
                            BLOOM_HASHES,
                            strs(keys@),
                            8 * j + t,
                        ))
                },
            },
    {
        match &self.sending {
            None => None,
            Some(s) => {
                let (seeds, bits) = build_bloom_slice(keys, s.m_bits, s.next_slice_index);
                Some(
                    RbfRibltBloomFilterSliceMessage::new(
                        Some(RBF_RIBLT_PROTOCOL_ID),
                        s.session_id.clone(),
                        s.next_slice_index,
                        s.m_bits,
                        BLOOM_HASHES,
                        seeds,
                        bits,
                    ),
                )
            },
        }
    }

    /// A slice was sent: the next one gets the following index.
    pub fn on_slice_sent(&mut self)
        requires
            old(self).sending matches Some(s) ==> s.next_slice_index < u64::MAX,
        ensures
            match old(self).sending {
                Some(s) => final(self).sending matches Some(t) && t.session_id == s.session_id
                    && t.next_slice_index == s.next_slice_index + 1 && t.m_bits == s.m_bits && t.acked
                    == s.acked,
                None => final(self).sending is None,
            },
            final(self).receiving == old(self).receiving,
    {
        match &mut self.sending {
            Some(s) => {
                s.next_slice_index = s.next_slice_index + 1;
            },
            None => {},
        }
    }

    /// The neighbour's stop signal: the sending state goes. Returns whether there
    /// was one (whose streaming task must then be woken).
    pub fn on_stop_signal(&mut self) -> (res: bool)
        ensures
            res == old(self).sending is Some,
            final(self).sending is None,
            final(self).receiving == old(self).receiving,
    {
        let had = self.sending.is_some();
        self.sending = None;
        had
    }

    /// A handshake for `session_id`. Ignored while the session is busy, when the
    /// local data (fingerprint `local_fingerprint`, `None` without storage) is
    /// unchanged since the last completed round, or without storage; otherwise a
    /// receiving state for the session is set up (kept if it is already this
    /// session's) and any sending state goes. Returns whether it was set up anew.
    pub fn on_handshake(
        &mut self,
        session_id: &str,
        scom_active: bool,
        local_fingerprint: Option<u64>,
        m_bits: usize,
    ) -> (res: bool)
        ensures
            ({
                let ignored = old(self).spec_busy(scom_active) || local_fingerprint is None || (
                old(self).last_fingerprint == local_fingerprint);
                let reset = !ignored && match old(self).receiving {
                    Some(r) => r.session_id@ != session_id@,
                    None => true,
                };
                &&& res == reset
                &&& reset ==> (final(self).receiving matches Some(r) && r.session_id@ == session_id@
                    && r.m_bits == m_bits && r.s_com@.len() == 0 && r.s_tn@.len() == 0
                    && !r.riblt_started && r.slices_received == 0 && final(self).sending is None)
                &&& !reset ==> final(self).receiving == old(self).receiving && final(self).sending
                    == old(self).sending
            }),
            final(self).pending_fetch == old(self).pending_fetch,
            final(self).last_fingerprint == old(self).last_fingerprint,
            final(self).initiated == old(self).initiated,
            (old(self).pending_fetch is Some || scom_active) ==> !res && *final(self) == *old(self),
    {
        if self.is_session_busy(scom_active) {
            return false;
        }
        match local_fingerprint {
            None => {
                return false;
            },
            Some(fp) => {
                match self.last_fingerprint {
                    Some(last) => {
                        if last == fp {
                            return false;
                        }
                    },
                    None => {},
                }
            },
        }
        let should_reset = match &self.receiving {
            Some(r) => !str_eq(r.session_id.as_str(), session_id),
            None => true,
        };
        if should_reset {
            self.receiving = Some(BloomReceivingState::new(session_id.to_owned(), m_bits));
            self.sending = None;
        }
        should_reset
    }

    /// Makes sure a receiving state exists for a slice's session. A state for
    /// another session is replaced by one whose candidates are all local keys
    /// (`local_keys`, `None` without storage), and the round start is stamped.
    /// Returns whether the slice can be applied.
    pub fn init_receiving_for_slice(
        &mut self,
        session_id: &str,
        m: usize,
        local_keys: Option<Vec<String>>,
    ) -> (res: bool)
        ensures
            ({
                let needs_init = match old(self).receiving {
                    Some(r) => r.session_id@ != session_id@,
                    None => true,
                };
                &&& res == (!needs_init || local_keys is Some)
                &&& (needs_init && local_keys is Some) ==> (final(self).receiving matches Some(r)
                    && r.session_id@ == session_id@ && r.m_bits == m && r.s_com@ == local_keys->0@
                    && r.s_tn@.len() == 0 && !r.riblt_started && r.slices_received == 0
                    && final(self).round_started)
                &&& !(needs_init && local_keys is Some) ==> final(self).receiving == old(
                    self,
                ).receiving && final(self).round_started == old(self).round_started
            }),
            final(self).sending == old(self).sending,
            final(self).pending_fetch == old(self).pending_fetch,
            final(self).initiated == old(self).initiated,
    {
        let needs_init = match &self.receiving {
            Some(r) => !str_eq(r.session_id.as_str(), session_id),
            None => true,
        };
        if !needs_init {
            return true;
        }
        match local_keys {
            None => false,
            Some(keys) => {
                let mut state = BloomReceivingState::new(session_id.to_owned(), m);
                state.s_com = keys;
                self.receiving = Some(state);
                self.round_started = true;
                true
            },
        }
    }

    /// Applies a slice's filter to the candidates. Returns whether the Bloom phase
    /// has stabilised, and the session, or `None` without a receiving state.
    pub fn partition_into_state(&mut self, filter: &BloomFilter) -> (res: Option<(bool, String)>)
        requires
            filter.spec_bits().len() > 0 || filter.spec_hashes() == 0,
            old(self).receiving matches Some(r) ==> r.slices_received < usize::MAX,
        ensures
            match old(self).receiving {
                None => res is None && final(self).receiving is None,
                Some(r) => {
                    let dropped = strs(r.s_com@).filter(rejected(*filter));
                    &&& final(self).receiving matches Some(t) && t.slices_received == r.slices_received
                        + 1 && strs(t.s_com@) == strs(r.s_com@).filter(
                        |k: Seq<char>| filter.spec_contains(k),
                    ) && strs(t.s_tn@) == strs(r.s_tn@) + dropped && t.session_id == r.session_id
                        && t.m_bits == r.m_bits && t.riblt_started == r.riblt_started
                    &&& res matches Some((stable, sid)) && stable == (dropped.len() * BLOOM_C_ELEM
                        < r.m_bits) && sid@ == r.session_id@
                },
            },
            final(self).sending == old(self).sending,
            final(self).pending_fetch == old(self).pending_fetch,
            final(self).initiated == old(self).initiated,
    {
        match &mut self.receiving {
            None => None,
            Some(state) => {
                state.slices_received = state.slices_received + 1;
                let new_true_negatives = partition_by_filter(state, filter);
                let stabilized = state.should_stop_slicing(new_true_negatives);
                Some((stabilized, state.session_id.clone()))
            },
        }
    }

}

/// Whether the filter a slice carries admits `k`.
pub open spec fn slice_admits(msg: RbfRibltBloomFilterSliceMessage) -> spec_fn(Seq<char>) -> bool {
    |k: Seq<char>| spec_bloom_contains(spec_unpack(msg.spec_m() as int, msg.spec_bits()@), msg.spec_seeds(), msg.spec_k(), k)
}

/// Whether the filter a slice carries rejects `k`.
pub open spec fn slice_rejects(msg: RbfRibltBloomFilterSliceMessage) -> spec_fn(Seq<char>) -> bool {
    |k: Seq<char>| !spec_bloom_contains(spec_unpack(msg.spec_m() as int, msg.spec_bits()@), msg.spec_seeds(), msg.spec_k(), k)
}

/// The receiving state a slice is applied to: the current one when it belongs
/// to the slice's session, otherwise a fresh one whose candidates are `local_keys`.
/// Given as (candidates, true negatives, slices applied, bit count, RIBLT started).
pub open spec fn slice_base(
    current: Option<BloomReceivingState>,
    msg: RbfRibltBloomFilterSliceMessage,
    local_keys: Option<Vec<String>>,
) -> (Seq<Seq<char>>, Seq<Seq<char>>, int, int, bool) {
    match current {
        Some(r) => if r.session_id@ == msg.spec_session_id()@ {
            (strs(r.s_com@), strs(r.s_tn@), r.slices_received as int, r.m_bits as int, r.riblt_started)
        } else {
            (match local_keys {
                Some(k) => strs(k@),
                None => Seq::empty(),
            }, Seq::empty(), 0, msg.spec_m() as int, false)
        },
        None => (match local_keys {
            Some(k) => strs(k@),
            None => Seq::empty(),
        }, Seq::empty(), 0, msg.spec_m() as int, false),
    }
}

impl RbfPeerSession {
    /// Handles a Bloom slice: sets up the receiving state, rebuilds the slice's
    /// filter, splits the candidates, and says what to answer.
    pub fn on_bloom_slice(
        &mut self,
        msg: &RbfRibltBloomFilterSliceMessage,
        local_keys: Option<Vec<String>>,
    ) -> (res: SliceOutcome)
        requires
            msg.spec_m() > 0 || msg.spec_k() == 0,
            msg.spec_m() <= max_bits(),
            msg.spec_bits()@.len() * 8 <= usize::MAX,
            old(self).receiving matches Some(r) ==> r.slices_received < usize::MAX - 1,
        ensures
            res is Ignored <==> !((match old(self).receiving {
                Some(r) => r.session_id@ == msg.spec_session_id()@,
                None => false,
            }) || local_keys is Some),
            res matches SliceOutcome::Ack { session_id, processed_count } ==> session_id@
                == msg.spec_session_id()@ && processed_count == wrapping_add(msg.spec_slice_index(), 1),
            res matches SliceOutcome::Stabilized { session_id, initiator } ==> session_id@
                == msg.spec_session_id()@ && initiator == old(self).initiated,
            res is Ignored ==> final(self).receiving == old(self).receiving,
            ({
                let (com, tn, slices, m_bits, started) = slice_base(old(self).receiving, *msg, local_keys);
                let dropped = com.filter(slice_rejects(*msg));
                !(res is Ignored) ==> {
                    &&& final(self).receiving matches Some(t) && t.session_id@ == msg.spec_session_id()@
                        && strs(t.s_com@) == com.filter(slice_admits(*msg)) && strs(t.s_tn@) == tn + dropped
                        && t.slices_received == slices + 1 && t.m_bits == m_bits && t.riblt_started == started
                    &&& (res is Stabilized <==> dropped.len() * BLOOM_C_ELEM < m_bits)
                }
            }),
            final(self).sending == old(self).sending,
            final(self).pending_fetch == old(self).pending_fetch,
            final(self).initiated == old(self).initiated,
    {
        if !self.init_receiving_for_slice(msg.session_id(), msg.m(), local_keys) {
            return SliceOutcome::Ignored;
        }
        let filter = BloomFilter::from_raw_bits(msg.m(), msg.k(), msg.bits().as_slice(), msg.seeds());
        proof {
            assert(slice_admits(*msg) =~= (|k: Seq<char>| filter.spec_contains(k)));
            assert(slice_rejects(*msg) =~= rejected(filter));
        }
        match self.partition_into_state(&filter) {
            None => SliceOutcome::Ignored,
            Some((stabilized, session_id)) => {
                if stabilized {
                    SliceOutcome::Stabilized { session_id, initiator: self.initiated }
                } else {
                    SliceOutcome::Ack { session_id, processed_count: msg.slice_index().wrapping_add(1) }
                }
            },
        }
    }

    /// Moves to the RIBLT phase once: marks it started, freezes `s_tn`, and
    /// returns the candidates and the number of slices applied.
    pub fn begin_scom(&mut self) -> (res: Option<(Vec<String>, usize)>)
        ensures
            match old(self).receiving {
                Some(r) => if !r.riblt_started {
                    &&& res matches Some((s_com, slices)) && s_com@ == r.s_com@ && slices
                        == r.slices_received
                    &&& final(self).receiving matches Some(t) && t.riblt_started && t.s_com
                        == r.s_com && t.s_tn == r.s_tn && t.session_id == r.session_id
                    &&& final(self).captured_stn matches Some(c) && c@ == r.s_tn@
                } else {
                    res is None && final(self).receiving == old(self).receiving
                        && final(self).captured_stn == old(self).captured_stn
                },
                None => res is None && final(self).receiving is None && final(self).captured_stn
                    == old(self).captured_stn,
            },
            final(self).sending == old(self).sending,
            final(self).pending_fetch == old(self).pending_fetch,
    {
        match &mut self.receiving {
            Some(state) => {
                if !state.riblt_started {
                    state.riblt_started = true;
                    let s_com = clone_strings(&state.s_com);
                    let s_tn = clone_strings(&state.s_tn);
                    let slices = state.slices_received;
                    self.captured_stn = Some(s_tn);
                    Some((s_com, slices))
                } else {
                    None
                }
            },
            None => None,
        }
    }

    /// The responder streams its own slices back: freezes `s_tn` and, unless a
    /// reverse stream already runs, records a sending state under a fresh session
    /// id and returns the candidates to stream with that id.
    pub fn begin_reverse_stream(&mut self, m_bits: usize) -> (res: Option<(Vec<String>, String)>)
        ensures
            match old(self).receiving {
                None => res is None && final(self).sending == old(self).sending
                    && final(self).captured_stn == old(self).captured_stn,
                Some(r) => {
                    &&& final(self).captured_stn matches Some(c) && c@ == r.s_tn@
                    &&& old(self).sending is Some ==> res is None && final(self).sending == old(
                        self,
                    ).sending
                    &&& old(self).sending is None ==> (res matches Some((keys, sid)) && keys@ == r.s_com@
                        && is_session_id_text(sid@) && (final(self).sending matches Some(s) && s.session_id == sid && s.m_bits
                        == m_bits && s.next_slice_index == 0 && s.acked == 0))
                },
            },
            final(self).receiving == old(self).receiving,
            final(self).pending_fetch == old(self).pending_fetch,
    {
        let (s_com, s_tn) = match &self.receiving {
            Some(state) => (clone_strings(&state.s_com), clone_strings(&state.s_tn)),
            None => {
                return None;
            },
        };
        self.captured_stn = Some(s_tn);
        if self.sending.is_some() {
            return None;
        }
        let session_id = new_session_id();
        self.sending = Some(BloomSendingState::new(session_id.clone(), m_bits));
        Some((s_com, session_id))
    }

    /// The receiver decoded everything. If this node was streaming symbols for
    /// the session (`was_sending`), the value fetch of `session_id` becomes
    /// pending and a fetch request must be sent. Returns whether it must.
    pub fn on_scom_decoded_all(&mut self, was_sending: bool, session_id: String) -> (res: bool)
        ensures
            res == was_sending,
            was_sending ==> final(self).pending_fetch == Some(session_id),
            !was_sending ==> final(self).pending_fetch == old(self).pending_fetch,
            final(self).sending == old(self).sending,
            final(self).receiving == old(self).receiving,
    {
        if was_sending {
            self.pending_fetch = Some(session_id);
        }
        was_sending
    }

    /// The entries to answer a value fetch with: every local pair whose key was
    /// asked for or was found missing on the neighbour's side (`s_tn`).
    pub fn fetch_entries(&self, items: &[(String, String)], wanted: &[String]) -> (res: Vec<
        RbfRibltFetchedEntry,
    >)
        ensures
            entries_view(res@) == spec_fetch_selection(
                pairs_view(items@),
                strs(wanted@),
                match self.captured_stn {
                    Some(c) => strs(c@),
                    None => Seq::empty(),
                },
            ),
    {
        let empty: Vec<String> = Vec::new();
        let stn: &Vec<String> = match &self.captured_stn {
            Some(c) => c,
            None => &empty,
        };
        proof {
            assert(strs(empty@) =~= Seq::<Seq<char>>::empty());
        }
        select_fetch_entries(items, wanted, stn.as_slice())
    }

    /// Whether a value-fetch response answers the pending fetch.
    pub fn accepts_fetch_response(&self, session_id: &str) -> (res: bool)
        ensures
            res == (self.pending_fetch matches Some(p) && p@ == session_id@),
    {
        match &self.pending_fetch {
            Some(p) => str_eq(p.as_str(), session_id),
            None => false,
        }
    }

    /// The decoder of the RIBLT phase is seeded: returns the candidates whose
    /// symbols seed it, stamps the round start, and resets the remote-only keys.
    pub fn on_seed(&mut self) -> (res: Vec<String>)
        ensures
            res@ == match old(self).receiving {
                Some(r) => r.s_com@,
                None => Seq::empty(),
            },
            final(self).round_started,
            final(self).pending_remote matches Some(p) && p@.len() == 0,
            final(self).receiving == old(self).receiving,
            final(self).sending == old(self).sending,
            final(self).pending_fetch == old(self).pending_fetch,
    {
        let s_com = match &self.receiving {
            Some(r) => clone_strings(&r.s_com),
            None => Vec::new(),
        };
        self.round_started = true;
        self.pending_remote = Some(Vec::new());
        s_com
    }

    /// Remote-only keys decoded from a batch of symbols are accumulated.
    pub fn on_remote_symbols(&mut self, keys: Vec<String>)
        ensures
            final(self).pending_remote matches Some(p) && p@ == match old(self).pending_remote {
                Some(q) => q@,
                None => Seq::empty(),
            } + keys@,
            final(self).receiving == old(self).receiving,
            final(self).sending == old(self).sending,
            final(self).pending_fetch == old(self).pending_fetch,
    {
        let mut acc = match self.pending_remote.take() {
            Some(q) => q,
            None => Vec::new(),
        };
        let ghost start = acc@;
        let mut i: usize = 0;
        while i < keys.len()
            invariant
                i <= keys@.len(),
                acc@ == start + keys@.subrange(0, i as int),
            decreases keys@.len() - i,
        {
            acc.push(keys[i].clone());
            i = i + 1;
            assert(acc@ =~= start + keys@.subrange(0, i as int));
        }
        assert(keys@.subrange(0, i as int) =~= keys@);
        self.pending_remote = Some(acc);
    }

    /// The RIBLT phase finished decoding for `session_id`. The neighbour lacks
    /// our local-only keys and our `s_tn`; we lack the remote-only keys decoded.
    /// The value fetch of the session becomes pending. Returns the keys for the
    /// neighbour (sent in the decoded-all message) and the keys to fetch.
    pub fn on_complete(&mut self, session_id: String, local_only: Vec<String>) -> (res: (Vec<String>, Vec<String>))
        ensures
            res.0@ == local_only@ + match old(self).receiving {
                Some(r) => r.s_tn@,
                None => Seq::empty(),
            },
            res.1@ == match old(self).pending_remote {
                Some(p) => p@,
                None => Seq::empty(),
            },
            final(self).pending_remote is None,
            final(self).pending_fetch == Some(session_id),
            final(self).receiving == old(self).receiving,
            final(self).sending == old(self).sending,
    {
        let mut keys_for_sender = local_only;
        let ghost start = keys_for_sender@;
        let s_tn = match &self.receiving {
            Some(r) => clone_strings(&r.s_tn),
            None => Vec::new(),
        };
        let mut i: usize = 0;
        while i < s_tn.len()
            invariant
                i <= s_tn@.len(),
                keys_for_sender@ == start + s_tn@.subrange(0, i as int),
            decreases s_tn@.len() - i,
        {
            keys_for_sender.push(s_tn[i].clone());
            i = i + 1;
            assert(keys_for_sender@ =~= start + s_tn@.subrange(0, i as int));
        }
        assert(s_tn@.subrange(0, i as int) =~= s_tn@);
        let missing = match self.pending_remote.take() {
            Some(p) => p,
            None => Vec::new(),
        };
        self.pending_fetch = Some(session_id);
        (keys_for_sender, missing)
    }

    /// Ends a round: remembers the fingerprint of the local data (when there is
    /// storage) and forgets the session.
    pub fn finish_round(&mut self, local_fingerprint: Option<u64>)
        ensures
            final(self).last_fingerprint == match local_fingerprint {
                Some(fp) => Some(fp),
                None => old(self).last_fingerprint,
            },
            !final(self).spec_active(false),
            !final(self).initiated,
            !final(self).round_started,
            final(self).captured_stn is None,
            final(self).pending_remote == old(self).pending_remote,
    {
        match local_fingerprint {
            Some(fp) => {
                self.last_fingerprint = Some(fp);
            },
            None => {},
        }
        self.clear_session_state();
    }
}

/// A copy of a vector of strings.
pub fn clone_strings(v: &Vec<String>) -> (res: Vec<String>)
    ensures
        res@ == v@,
{
    let mut out: Vec<String> = Vec::new();
    let mut i: usize = 0;
    while i < v.len()
        invariant
            i <= v@.len(),
            out@ == v@.subrange(0, i as int),
        decreases v@.len() - i,
    {
        out.push(v[i].clone());
        i = i + 1;
        assert(out@ =~= v@.subrange(0, i as int));
    }
    assert(v@.subrange(0, i as int) =~= v@);
    out
}

pub open spec fn entries_view(e: Seq<RbfRibltFetchedEntry>) -> Seq<(Seq<char>, Seq<char>)> {
    e.map_values(|x: RbfRibltFetchedEntry| (x.spec_key()@, x.spec_value()@))
}

/// A pair whose key is wanted or in `s_tn`.
pub open spec fn fetch_wanted(wanted: Seq<Seq<char>>, s_tn: Seq<Seq<char>>) -> spec_fn((Seq<char>, Seq<char>)) -> bool {
    |p: (Seq<char>, Seq<char>)| wanted.contains(p.0) || s_tn.contains(p.0)
}

/// The local pairs whose key is wanted or in `s_tn`, in local order.
pub open spec fn spec_fetch_selection(
    items: Seq<(Seq<char>, Seq<char>)>,
    wanted: Seq<Seq<char>>,
    s_tn: Seq<Seq<char>>,
) -> Seq<(Seq<char>, Seq<char>)> {
    items.filter(fetch_wanted(wanted, s_tn))
}

/// An index of a list of keys for membership queries.
fn key_index(keys: &[String]) -> (res: OrderedEntries)
    ensures
        res.wf(),
        forall|k: Seq<char>| #[trigger] res@.contains_key(k) <==> strs(keys@).contains(k),
{
    let mut idx = OrderedEntries::new();
    let ghost ks = strs(keys@);
    let mut i: usize = 0;
    while i < keys.len()
        invariant
            ks == strs(keys@),
            i <= keys@.len(),
            idx.wf(),
            forall|k: Seq<char>| #[trigger] idx@.contains_key(k) <==> ks.subrange(0, i as int).contains(k),
        decreases keys@.len() - i,
    {
        idx.insert(keys[i].clone(), String::new());
        proof {
            assert forall|k: Seq<char>| #[trigger] idx@.contains_key(k) <==> ks.subrange(0, i + 1).contains(
                k,
            ) by {
                let p = ks.subrange(0, i as int);
                let q = ks.subrange(0, i + 1);
                if p.contains(k) {
                    let a = choose|a: int| 0 <= a < p.len() && p[a] == k;
                    assert(q[a] == k);
                }
                if q.contains(k) {
                    let a = choose|a: int| 0 <= a < q.len() && q[a] == k;
                    if a < i {
                        assert(p[a] == k);
                    } else {
                        assert(k == keys@[i as int]@);
                    }
                }
                if k == keys@[i as int]@ {
                    assert(q[i as int] == k);
                }
            }
        }
        i = i + 1;
    }
    assert(ks.subrange(0, i as int) =~= ks);
    idx
}

/// The local pairs whose key is in `wanted` or in `s_tn`, as fetched entries.
pub fn select_fetch_entries(items: &[(String, String)], wanted: &[String], s_tn: &[String]) -> (res: Vec<
    RbfRibltFetchedEntry,
>)
    ensures
        entries_view(res@) == spec_fetch_selection(pairs_view(items@), strs(wanted@), strs(s_tn@)),
{
    let wanted_idx = key_index(wanted);
    let stn_idx = key_index(s_tn);
    let ghost iv = pairs_view(items@);
    let mut out: Vec<RbfRibltFetchedEntry> = Vec::new();
    let mut i: usize = 0;
    while i < items.len()
        invariant
            iv == pairs_view(items@),
            i <= items@.len(),
            wanted_idx.wf(),
            stn_idx.wf(),
            forall|k: Seq<char>| #[trigger] wanted_idx@.contains_key(k) <==> strs(wanted@).contains(k),
            forall|k: Seq<char>| #[trigger] stn_idx@.contains_key(k) <==> strs(s_tn@).contains(k),
            entries_view(out@) == spec_fetch_selection(iv.subrange(0, i as int), strs(wanted@), strs(s_tn@)),
        decreases items@.len() - i,
    {
        proof {
            assert(iv.subrange(0, i + 1).drop_last() =~= iv.subrange(0, i as int));
            assert(iv.subrange(0, i + 1).last() == iv[i as int]);
        }
        proof {
            lemma_filter_step(iv.subrange(0, i + 1), fetch_wanted(strs(wanted@), strs(s_tn@)));
        }
        let key = &items[i].0;
        let in_wanted = wanted_idx.get(key.as_str()).is_some();
        let in_stn = stn_idx.get(key.as_str()).is_some();
        if in_wanted || in_stn {
            let e = RbfRibltFetchedEntry::new(items[i].0.clone(), items[i].1.clone());
            let ghost before = out@;
            out.push(e);
            assert(entries_view(out@) =~= entries_view(before).push(iv[i as int]));
            assert(fetch_wanted(strs(wanted@), strs(s_tn@))(iv[i as int]));
        } else {
            assert(!fetch_wanted(strs(wanted@), strs(s_tn@))(iv[i as int]));
        }
        i = i + 1;
    }
    assert(iv.subrange(0, i as int) =~= iv);
    out
}

/// The fingerprint of the local data: the default hash of its pairs in key order.
pub fn compute_fingerprint(data: &OrderedEntries) -> (res: u64)
    ensures
        res == spec_hash_pairs(data.spec_entries()),
{
    hash_pairs(data.entries().as_slice())
}

} // verus!

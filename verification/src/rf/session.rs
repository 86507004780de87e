//! The per-neighbour state of a ribbon-filter-then-RIBLT session and the
//! decisions taken on each event: the handshake carries the neighbour's ribbon
//! filter, local keys the filter rejects are surely missing on the neighbour
//! (`s_tn`), the others (`s_com`) are reconciled by a batched RIBLT exchange.

use vstd::prelude::*;

use crate::kv::str_eq;
use crate::rbf::messages::RbfRibltFetchedEntry;
use crate::rbf::session::{
    clone_strings, entries_view, lemma_filter_step, select_fetch_entries, spec_fetch_selection, strs,
};
use crate::rf::codec::{reconstruct_filter_from_bytes, spec_decode, spec_decode_fits};
use crate::rf::messages::{RfRibltFetchedEntry, RfRibltHandshakeMessage};
use crate::ribbon::filter::RibbonFilter;
use crate::std_hash::pairs_view;
use crate::wire::{is_session_id_text, new_session_id, ProtocolId};

verus! {

/// The wire id of the protocol.
pub const RF_RIBLT_PROTOCOL_ID: u64 = 4;

/// Fingerprint bits per key of the ribbon filter.
pub const RF_FINGERPRINT_BITS: u32 = 8;

/// Band width of the ribbon filter.
pub const RF_RIBBON_WIDTH: u32 = 64;

/// Coded symbols sent per batch.
pub const RIBLT_BATCH_SIZE: usize = 5;

/// The protocol's wire id is that of `ProtocolId::RfRiblt`.
pub proof fn lemma_protocol_id()
    ensures
        RF_RIBLT_PROTOCOL_ID == ProtocolId::RfRiblt.spec_wire_id(),
{
}

/// A session with a value fetch pending, or in the RIBLT phase either way, is
/// busy: a handshake received then is ignored.
pub proof fn lemma_pending_fetch_is_busy(s: RfPeerSession)
    requires
        s.pending_fetch is Some || s.scom_sending is Some || s.scom_receiving is Some,
    ensures
        s.spec_busy(),
{
}

/// Phase of the batched RIBLT exchange: a batch is sent, then confirmation awaited.
#[derive(Debug, Clone, Copy, PartialEq, Eq, Structural)]
pub enum SComReconciliationState {
    SendingSymbols,
    AwaitingConfirmation,
}

/// The sender's side of the RIBLT exchange (the coded-symbol source lives with
/// the task that streams it).
pub struct SComSendingState {
    pub state: SComReconciliationState,
    pub session_id: String,
}

/// The receiver's side of the RIBLT exchange (the decoder lives with the task
/// that feeds it).
pub struct SComReceivingState {
    pub session_id: String,
}

/// What the receiver of a ribbon filter keeps.
pub struct RfFilterReceivingState {
    pub session_id: String,
    pub s_com: Vec<String>,
    pub s_tn: Vec<String>,
    pub riblt_started: bool,
}

impl RfFilterReceivingState {
    pub fn new(session_id: String) -> (res: Self)
        ensures
            res.session_id == session_id,
            res.s_com@.len() == 0,
            res.s_tn@.len() == 0,
            !res.riblt_started,
    {
        RfFilterReceivingState { session_id, s_com: Vec::new(), s_tn: Vec::new(), riblt_started: false }
    }
}

/// What to do after a handshake.
pub enum RfHandshakeOutcome {
    /// Nothing: the session is busy or the data did not change since the last round.
    Ignored,
    /// The receiving state was set up but the filter could not be read.
    BadFilter,
    /// The candidates were split; send our own filter back if `send_reverse`, and
    /// (once that is done) start the RIBLT phase if `start_scom`.
    Processed { send_reverse: bool, start_scom: bool },
}

/// Keys admitted by a ribbon filter.
pub open spec fn ribbon_admits(f: RibbonFilter) -> spec_fn(Seq<char>) -> bool {
    |k: Seq<char>| f.spec_contains(k)
}

/// Keys rejected by a ribbon filter.
pub open spec fn ribbon_rejects(f: RibbonFilter) -> spec_fn(Seq<char>) -> bool {
    |k: Seq<char>| !f.spec_contains(k)
}

/// Splits keys into those a ribbon filter admits and those it rejects.
pub fn split_by_ribbon(filter: &RibbonFilter, keys: &[String]) -> (res: (Vec<String>, Vec<String>))
    requires
        filter.wf(),
    ensures
        strs(res.0@) == strs(keys@).filter(ribbon_admits(*filter)),
        strs(res.1@) == strs(keys@).filter(ribbon_rejects(*filter)),
{
    let ghost ks = strs(keys@);
    let mut s_com: Vec<String> = Vec::new();
    let mut s_tn: Vec<String> = Vec::new();
    let mut i: usize = 0;
    while i < keys.len()
        invariant
            ks == strs(keys@),
            filter.wf(),
            i <= keys@.len(),
            strs(s_com@) == ks.subrange(0, i as int).filter(ribbon_admits(*filter)),
            strs(s_tn@) == ks.subrange(0, i as int).filter(ribbon_rejects(*filter)),
        decreases keys@.len() - i,
    {
        proof {
            let cur = ks.subrange(0, i + 1);
            assert(cur.drop_last() =~= ks.subrange(0, i as int));
            assert(cur.last() == keys@[i as int]@);
            lemma_filter_step(cur, ribbon_admits(*filter));
            lemma_filter_step(cur, ribbon_rejects(*filter));
        }
        let key = keys[i].clone();
        if filter.contains(key.as_str()) {
            let ghost before = s_com@;
            s_com.push(key);
            assert(strs(s_com@) =~= strs(before).push(keys@[i as int]@));
        } else {
            let ghost before = s_tn@;
            s_tn.push(key);
            assert(strs(s_tn@) =~= strs(before).push(keys@[i as int]@));
        }
        i = i + 1;
    }
    assert(ks.subrange(0, i as int) =~= ks);
    (s_com, s_tn)
}

/// Everything one node keeps about a reconciliation with one neighbour.
pub struct RfPeerSession {
    pub filter_receiving: Option<RfFilterReceivingState>,
    pub scom_sending: Option<SComSendingState>,
    pub scom_receiving: Option<SComReceivingState>,
    /// Session whose value-fetch response is awaited.
    pub pending_fetch: Option<String>,
    /// Fingerprint of the local data after the last completed round.
    pub last_fingerprint: Option<u64>,
    /// This node started the reconciliation with the neighbour.
    pub initiated: bool,
    /// The round's start time has been stamped.
    pub round_started: bool,
    /// `s_tn` as frozen when the RIBLT phase started.
    pub captured_stn: Option<Vec<String>>,
}

impl RfPeerSession {
    pub fn new() -> (res: Self)
        ensures
            res.filter_receiving is None,
            res.scom_sending is None,
            res.scom_receiving is None,
            res.pending_fetch is None,
            res.last_fingerprint is None,
            !res.initiated,
            !res.round_started,
            res.captured_stn is None,
    {
        RfPeerSession {
            filter_receiving: None,
            scom_sending: None,
            scom_receiving: None,
            pending_fetch: None,
            last_fingerprint: None,
            initiated: false,
            round_started: false,
            captured_stn: None,
        }
    }

    pub open spec fn spec_active(&self) -> bool {
        ||| self.filter_receiving is Some
        ||| self.scom_sending is Some
        ||| self.scom_receiving is Some
        ||| self.pending_fetch is Some
    }

    pub open spec fn spec_busy(&self) -> bool {
        ||| self.scom_sending is Some
        ||| self.scom_receiving is Some
        ||| self.pending_fetch is Some
        ||| (self.filter_receiving matches Some(r) && r.riblt_started)
    }

    /// Whether any reconciliation state exists for the neighbour.
    pub fn is_session_active(&self) -> (res: bool)
        ensures
            res == self.spec_active(),
    {
        self.filter_receiving.is_some() || self.scom_sending.is_some() || self.scom_receiving.is_some()
            || self.pending_fetch.is_some()
    }

    /// Whether the session is past the filter phase.
    pub fn is_session_busy(&self) -> (res: bool)
        ensures
            res == self.spec_busy(),
            self.pending_fetch is Some ==> res,
            self.scom_sending is Some ==> res,
            self.scom_receiving is Some ==> res,
            (self.filter_receiving matches Some(r) && r.riblt_started) ==> res,
            res ==> self.pending_fetch is Some || self.scom_sending is Some || self.scom_receiving is Some
                || (self.filter_receiving matches Some(r) && r.riblt_started),
    {
        self.scom_sending.is_some() || self.scom_receiving.is_some() || self.pending_fetch.is_some()
            || match &self.filter_receiving {
            Some(r) => r.riblt_started,
            None => false,
        }
    }

    /// Forgets the session; the fingerprint of the last completed round stays.
    pub fn clear_session_state(&mut self)
        ensures
            !final(self).spec_active(),
            final(self).captured_stn is None,
            !final(self).initiated,
            !final(self).round_started,
            final(self).last_fingerprint == old(self).last_fingerprint,
    {
        self.pending_fetch = None;
        self.scom_sending = None;
        self.scom_receiving = None;
        self.round_started = false;
        self.filter_receiving = None;
        self.captured_stn = None;
        self.initiated = false;
    }

    /// Starts a round as initiator (after sending our filter).
    pub fn begin_as_initiator(&mut self)
        ensures
            final(self).initiated,
            final(self).round_started == old(self).round_started,
            final(self).filter_receiving == old(self).filter_receiving,
            final(self).scom_sending == old(self).scom_sending,
            final(self).pending_fetch == old(self).pending_fetch,
    {
        self.initiated = true;
    }

    /// A handshake carrying the neighbour's filter. Ignored while busy or when
    /// the local data (fingerprint `local_fingerprint`, `None` without storage)
    /// is unchanged since the last completed round. Otherwise the receiving state
    /// is set up for the session, the filter is read back, and the local keys
    /// (`local_keys`) are split against it into `s_com` and `s_tn`. Our own filter
    /// goes back unless we already hold this session or started the round; the
    /// initiator then moves to the RIBLT phase.
    pub fn on_handshake(
        &mut self,
        msg: &RfRibltHandshakeMessage,
        local_fingerprint: Option<u64>,
        local_keys: &[String],
    ) -> (res: RfHandshakeOutcome)
        requires
            spec_decode_fits(msg.spec_filter_bytes()@),
        ensures
            ({
                let ignored = old(self).spec_busy() || (local_fingerprint is Some
                    && old(self).last_fingerprint == local_fingerprint);
                let already_received = old(self).filter_receiving matches Some(r) && r.session_id@
                    == msg.spec_session_id()@;
                &&& ignored <==> res is Ignored
                &&& ignored ==> final(self).filter_receiving == old(self).filter_receiving
                &&& !ignored ==> (final(self).filter_receiving matches Some(r) && r.session_id@
                    == msg.spec_session_id()@)
                &&& res is BadFilter <==> (!ignored && spec_decode(msg.spec_filter_bytes()@) is None)
                &&& res matches RfHandshakeOutcome::Processed { send_reverse, start_scom } ==> {
                    &&& send_reverse == (!already_received && !old(self).initiated)
                    &&& start_scom == old(self).initiated
                    &&& exists|f: RibbonFilter|
                        #![trigger f.spec_params()]
                        spec_decode(msg.spec_filter_bytes()@) == Some((f.spec_params(), f.spec_z()))
                            && (final(self).filter_receiving matches Some(r) && strs(r.s_com@)
                            == strs(local_keys@).filter(ribbon_admits(f)) && strs(r.s_tn@) == strs(
                            local_keys@,
                        ).filter(ribbon_rejects(f)))
                }
            }),
            final(self).scom_sending == old(self).scom_sending,
            final(self).scom_receiving == old(self).scom_receiving,
            final(self).pending_fetch == old(self).pending_fetch,
            final(self).initiated == old(self).initiated,
            final(self).last_fingerprint == old(self).last_fingerprint,
            final(self).round_started == old(self).round_started,
            final(self).captured_stn == old(self).captured_stn,
            (old(self).pending_fetch is Some || old(self).scom_sending is Some || old(self).scom_receiving
                is Some) ==> res is Ignored && *final(self) == *old(self),
    {
        if self.is_session_busy() {
            return RfHandshakeOutcome::Ignored;
        }
        match local_fingerprint {
            Some(fp) => match self.last_fingerprint {
                Some(last) => {
                    if last == fp {
                        return RfHandshakeOutcome::Ignored;
                    }
                },
                None => {},
            },
            None => {},
        }
        let session_id = msg.session_id().as_str();
        let already_received = match &self.filter_receiving {
            Some(r) => str_eq(r.session_id.as_str(), session_id),
            None => false,
        };
        let already_initiated = self.initiated;
        let should_send_reverse = !already_received && !already_initiated;
        let should_reset = match &self.filter_receiving {
            Some(r) => !str_eq(r.session_id.as_str(), session_id),
            None => true,
        };
        if should_reset {
            self.filter_receiving = Some(RfFilterReceivingState::new(session_id.to_owned()));
        }
        let filter = match reconstruct_filter_from_bytes(msg.filter_bytes().as_slice()) {
            Some(f) => f,
            None => {
                return RfHandshakeOutcome::BadFilter;
            },
        };
        let (s_com, s_tn) = split_by_ribbon(&filter, local_keys);
        match &mut self.filter_receiving {
            Some(state) => {
                state.s_com = s_com;
                state.s_tn = s_tn;
            },
            None => {},
        }
        RfHandshakeOutcome::Processed { send_reverse: should_send_reverse, start_scom: already_initiated }
    }

    /// Moves to the RIBLT phase once: marks it started and freezes `s_tn`; with
    /// storage, records a sending state under a fresh session id and returns the
    /// candidates whose symbols are to be streamed, with that id.
    pub fn begin_scom(&mut self, has_storage: bool) -> (res: Option<(Vec<String>, String)>)
        ensures
            match old(self).filter_receiving {
                Some(r) => if !r.riblt_started {
                    &&& final(self).filter_receiving matches Some(t) && t.riblt_started && t.s_com
                        == r.s_com && t.s_tn == r.s_tn && t.session_id == r.session_id
                    &&& final(self).captured_stn matches Some(c) && c@ == r.s_tn@
                    &&& has_storage ==> (res matches Some((keys, sid)) && keys@ == r.s_com@ && is_session_id_text(sid@) && (
                        final(self).scom_sending matches Some(s) && s.session_id == sid && s.state
                        == SComReconciliationState::SendingSymbols))
                    &&& !has_storage ==> res is None && final(self).scom_sending == old(
                        self,
                    ).scom_sending
                } else {
                    res is None && final(self).filter_receiving == old(self).filter_receiving
                        && final(self).scom_sending == old(self).scom_sending
                },
                None => res is None && final(self).filter_receiving is None && final(self).scom_sending
                    == old(self).scom_sending,
            },
            final(self).pending_fetch == old(self).pending_fetch,
    {
        let (s_com, s_tn) = match &mut self.filter_receiving {
            Some(state) => {
                if state.riblt_started {
                    return None;
                }
                state.riblt_started = true;
                (clone_strings(&state.s_com), clone_strings(&state.s_tn))
            },
            None => {
                return None;
            },
        };
        self.captured_stn = Some(s_tn);
        if !has_storage {
            return None;
        }
        let session_id = new_session_id();
        self.scom_sending = Some(
            SComSendingState { state: SComReconciliationState::SendingSymbols, session_id: session_id.clone() },
        );
        Some((s_com, session_id))
    }

    /// Symbols of `session_id` arrived: a receiving state of another session is
    /// dropped, and when none is left one is set up. Returns the candidates that
    /// seed a new decoder, or `None` when the decoder already exists.
    pub fn init_scom_receiving(&mut self, session_id: &str) -> (res: Option<Vec<String>>)
        ensures
            ({
                let keep = old(self).scom_receiving matches Some(s) && s.session_id@ == session_id@;
                &&& keep ==> res is None && final(self).scom_receiving == old(self).scom_receiving
                    && final(self).round_started == old(self).round_started
                &&& !keep ==> (res matches Some(keys) && keys@ == match old(self).filter_receiving {
                    Some(r) => r.s_com@,
                    None => Seq::empty(),
                }) && (final(self).scom_receiving matches Some(s) && s.session_id@ == session_id@)
                    && final(self).round_started
            }),
            final(self).filter_receiving == old(self).filter_receiving,
            final(self).scom_sending == old(self).scom_sending,
            final(self).pending_fetch == old(self).pending_fetch,
            final(self).captured_stn == old(self).captured_stn,
            final(self).initiated == old(self).initiated,
            final(self).last_fingerprint == old(self).last_fingerprint,
    {
        let keep = match &self.scom_receiving {
            Some(s) => str_eq(s.session_id.as_str(), session_id),
            None => false,
        };
        if keep {
            return None;
        }
        let s_com = match &self.filter_receiving {
            Some(r) => clone_strings(&r.s_com),
            None => Vec::new(),
        };
        self.round_started = true;
        self.scom_receiving = Some(SComReceivingState { session_id: session_id.to_owned() });
        Some(s_com)
    }

    /// The outcome of decoding a batch for `session_id`. On success the receiving
    /// state goes, the value fetch becomes pending, and the result holds the keys
    /// the neighbour lacks (our local-only keys, then our `s_tn`) and the keys we
    /// lack (the remote-only ones); otherwise more symbols are needed (`None`).
    pub fn on_decode_result(
        &mut self,
        session_id: String,
        successful: bool,
        local_only: Vec<String>,
        remote_only: Vec<String>,
    ) -> (res: Option<(Vec<String>, Vec<String>)>)
        ensures
            !successful ==> res is None && final(self).scom_receiving == old(self).scom_receiving
                && final(self).pending_fetch == old(self).pending_fetch,
            successful ==> {
                &&& res matches Some((for_sender, missing)) && for_sender@ == local_only@ + match old(
                    self,
                ).filter_receiving {
                    Some(r) => r.s_tn@,
                    None => Seq::empty(),
                } && missing@ == remote_only@
                &&& final(self).scom_receiving is None
                &&& final(self).pending_fetch == Some(session_id)
            },
            final(self).filter_receiving == old(self).filter_receiving,
            final(self).scom_sending == old(self).scom_sending,
            final(self).round_started == old(self).round_started,
            final(self).captured_stn == old(self).captured_stn,
            final(self).initiated == old(self).initiated,
            final(self).last_fingerprint == old(self).last_fingerprint,
    {
        if !successful {
            return None;
        }
        let mut for_sender = local_only;
        let ghost start = for_sender@;
        let s_tn = match &self.filter_receiving {
            Some(r) => clone_strings(&r.s_tn),
            None => Vec::new(),
        };
        let mut i: usize = 0;
        while i < s_tn.len()
            invariant
                i <= s_tn@.len(),
                for_sender@ == start + s_tn@.subrange(0, i as int),
            decreases s_tn@.len() - i,
        {
            for_sender.push(s_tn[i].clone());
            i = i + 1;
            assert(for_sender@ =~= start + s_tn@.subrange(0, i as int));
        }
        assert(s_tn@.subrange(0, i as int) =~= s_tn@);
        self.scom_receiving = None;
        self.pending_fetch = Some(session_id);
        Some((for_sender, remote_only))
    }

    /// The neighbour decoded everything for `session_id`: if that is our sending
    /// session, it ends and the value fetch becomes pending. Returns whether a
    /// fetch request must be sent.
    pub fn on_scom_decoded_all(&mut self, session_id: String) -> (res: bool)
        ensures
            res == (old(self).scom_sending matches Some(s) && s.session_id@ == session_id@),
            res ==> final(self).scom_sending is None && final(self).pending_fetch == Some(session_id),
            !res ==> final(self).scom_sending == old(self).scom_sending && final(self).pending_fetch
                == old(self).pending_fetch,
            final(self).filter_receiving == old(self).filter_receiving,
            final(self).scom_receiving == old(self).scom_receiving,
    {
        let matches_session = match &self.scom_sending {
            Some(s) => str_eq(s.session_id.as_str(), session_id.as_str()),
            None => false,
        };
        if matches_session {
            self.scom_sending = None;
            self.pending_fetch = Some(session_id);
        }
        matches_session
    }

    /// The neighbour asks for more symbols of `session_id`: the sender resumes.
    pub fn on_request_more(&mut self, session_id: &str)
        ensures
            match old(self).scom_sending {
                Some(s) => if s.session_id@ == session_id@ {
                    final(self).scom_sending matches Some(t) && t.session_id == s.session_id
                        && t.state == SComReconciliationState::SendingSymbols
                } else {
                    final(self).scom_sending == old(self).scom_sending
                },
                None => final(self).scom_sending is None,
            },
            final(self).filter_receiving == old(self).filter_receiving,
            final(self).pending_fetch == old(self).pending_fetch,
    {
        match &mut self.scom_sending {
            Some(s) => {
                if str_eq(s.session_id.as_str(), session_id) {
                    s.state = SComReconciliationState::SendingSymbols;
                }
            },
            None => {},
        }
    }

    /// A batch was sent: confirmation is awaited before the next one. Returns
    /// the session, or `None` when the session is gone (streaming stops).
    pub fn on_batch_sent(&mut self) -> (res: Option<String>)
        ensures
            match old(self).scom_sending {
                Some(s) => res == Some(s.session_id) && (final(self).scom_sending matches Some(t)
                    && t.session_id == s.session_id && t.state
                    == SComReconciliationState::AwaitingConfirmation),
                None => res is None && final(self).scom_sending is None,
            },
            final(self).filter_receiving == old(self).filter_receiving,
    {
        match &mut self.scom_sending {
            Some(s) => {
                s.state = SComReconciliationState::AwaitingConfirmation;
                Some(s.session_id.clone())
            },
            None => None,
        }
    }

    /// The entries to answer a value fetch with: every local pair whose key was
    /// asked for or is in the frozen `s_tn`.
    pub fn fetch_entries(&self, items: &[(String, String)], wanted: &[String]) -> (res: Vec<
        RfRibltFetchedEntry,
    >)
        ensures
            res@.map_values(|e: RfRibltFetchedEntry| (e.key@, e.value@)) == spec_fetch_selection(
                pairs_view(items@),
                strs(wanted@),
                match self.captured_stn {
                    Some(c) => strs(c@),
                    None => Seq::empty(),
                },
            ),
    {
        let empty: Vec<String> = Vec::new();
        let stn: &Vec<String> = match &self.captured_stn {
            Some(c) => c,
            None => &empty,
        };
        proof {
            assert(strs(empty@) =~= Seq::<Seq<char>>::empty());
        }
        let picked = select_fetch_entries(items, wanted, stn.as_slice());
        let mut out: Vec<RfRibltFetchedEntry> = Vec::new();
        let mut i: usize = 0;
        while i < picked.len()
            invariant
                i <= picked@.len(),
                out@.map_values(|e: RfRibltFetchedEntry| (e.key@, e.value@)) == entries_view(
                    picked@.subrange(0, i as int),
                ),
            decreases picked@.len() - i,
        {
            let e = RfRibltFetchedEntry::new(picked[i].key().to_owned(), picked[i].value().to_owned());
            assert((e.key@, e.value@) == entries_view(picked@)[i as int]);
            let ghost prev = out@;
            out.push(e);
            assert(out@ == prev.push(e));
            assert(entries_view(picked@.subrange(0, i + 1)) =~= entries_view(picked@.subrange(0, i as int)).push(
                entries_view(picked@)[i as int],
            ));
            i = i + 1;
            assert(out@.map_values(|e: RfRibltFetchedEntry| (e.key@, e.value@)) =~= entries_view(
                picked@.subrange(0, i as int),
            ));
        }
        assert(picked@.subrange(0, i as int) =~= picked@);
        out
    }

    /// Whether a value-fetch response answers the pending fetch.
    pub fn accepts_fetch_response(&self, session_id: &str) -> (res: bool)
        ensures
            res == (self.pending_fetch matches Some(p) && p@ == session_id@),
    {
        match &self.pending_fetch {
            Some(p) => str_eq(p.as_str(), session_id),
            None => false,
        }
    }

    /// Ends a round: remembers the fingerprint of the local data (when there is
    /// storage) and forgets the session.
    pub fn finish_round(&mut self, local_fingerprint: Option<u64>)
        ensures
            final(self).last_fingerprint == match local_fingerprint {
                Some(fp) => Some(fp),
                None => old(self).last_fingerprint,
            },
            !final(self).spec_active(),
            !final(self).initiated,
            !final(self).round_started,
            final(self).captured_stn is None,
    {
        match local_fingerprint {
            Some(fp) => {
                self.last_fingerprint = Some(fp);
            },
            None => {},
        }
        self.clear_session_state();
    }
}

} // verus!

//! Packet verification pipeline.
//!
//! The verifier consumes packet reports in order.  For each report it
//! computes the debit in data credits, skips duplicates of an already-seen
//! `(timestamp, oui, hash)` triple, resolves the payer through the org
//! cache, checks the payer's balance, and classifies the packet: a
//! sufficient balance debits the in-memory balance, accumulates the amount
//! in the pending-burns table, emits a valid packet and enables the
//! organization; an insufficient one emits an invalid packet and disables
//! it.  The first collaborator failure aborts the pass, so downstream
//! totals stay consistent.

use vstd::prelude::*;
use crate::burner::{burn_spec, pending_amount, BurnRow, PendingBurns};
use crate::kv::{
    bytes_eq,
    copy_bytes,
    kv_lookup,
    kv_store,
    lemma_kv_lookup_at,
    lemma_kv_lookup_none,
    lemma_kv_lookup_push,
    lemma_kv_lookup_store,
    lemma_kv_store_at,
};
use crate::org::{
    disable_org_spec,
    enable_org_spec,
    fetch_org_spec,
    CachedOrgClient,
    OrgClientModel,
};

verus! {

/// What a packet report costs, in data credits: one credit per started
/// 24-byte quantum, and at least one.
pub open spec fn spec_payload_size_to_dc(payload_size: u64) -> u64 {
    if payload_size < 24 {
        1
    } else {
        payload_size / 24
    }
}

/// Executable debit computation.
pub fn payload_size_to_dc(payload_size: u64) -> (r: u64)
    ensures
        r == spec_payload_size_to_dc(payload_size),
{
    if payload_size < 24 {
        1
    } else {
        payload_size / 24
    }
}

/// A packet report, reduced to what the verifier reads.
pub struct PacketReport {
    pub gateway_timestamp_ms: u64,
    pub oui: u64,
    pub payload_size: u32,
    pub gateway: Vec<u8>,
    pub payload_hash: Vec<u8>,
}

/// Model of a packet report.
pub struct ReportModel {
    pub gateway_timestamp_ms: u64,
    pub oui: u64,
    pub payload_size: u32,
    pub gateway: Seq<u8>,
    pub payload_hash: Seq<u8>,
}

impl View for PacketReport {
    type V = ReportModel;

    open spec fn view(&self) -> ReportModel {
        ReportModel {
            gateway_timestamp_ms: self.gateway_timestamp_ms,
            oui: self.oui,
            payload_size: self.payload_size,
            gateway: self.gateway@,
            payload_hash: self.payload_hash@,
        }
    }
}

/// A packet that passed verification.
pub struct ValidPacket {
    pub payload_size: u32,
    pub gateway: Vec<u8>,
    pub payload_hash: Vec<u8>,
}

/// A packet that failed verification.
pub struct InvalidPacket {
    pub payload_size: u32,
    pub gateway: Vec<u8>,
    pub payload_hash: Vec<u8>,
}

/// Model of an emitted packet, valid or invalid.
pub struct PacketModel {
    pub payload_size: u32,
    pub gateway: Seq<u8>,
    pub payload_hash: Seq<u8>,
}

impl View for ValidPacket {
    type V = PacketModel;

    open spec fn view(&self) -> PacketModel {
        PacketModel {
            payload_size: self.payload_size,
            gateway: self.gateway@,
            payload_hash: self.payload_hash@,
        }
    }
}

impl View for InvalidPacket {
    type V = PacketModel;

    open spec fn view(&self) -> PacketModel {
        PacketModel {
            payload_size: self.payload_size,
            gateway: self.gateway@,
            payload_hash: self.payload_hash@,
        }
    }
}

/// Why a pass aborted, tagged with the collaborator that failed.
#[derive(Clone, Copy, PartialEq, Eq, Structural, Debug)]
pub enum VerificationError {
    DebitError,
    ConfigError,
    BurnError,
    ValidPacketWriterError,
    InvalidPacketWriterError,
}

/// An output sink for packets.  The library writes into vectors; a shell
/// can implement this for a sink handle instead.
pub trait PacketWriter<T> {
    /// The packets written so far.
    spec fn written(&self) -> Seq<T>;

    /// Append one packet; on failure nothing is recorded.
    fn write(&mut self, packet: T) -> (r: Result<(), ()>)
        ensures
            (match r {
                Ok(()) => final(self).written() == old(self).written().push(packet),
                Err(()) => final(self).written() == old(self).written(),
            }),
    ;
}

impl<T> PacketWriter<T> for Vec<T> {
    open spec fn written(&self) -> Seq<T> {
        self@
    }

    fn write(&mut self, packet: T) -> (r: Result<(), ()>) {
        self.push(packet);
        Ok(())
    }
}

/// The in-memory balance map, keyed by payer.
pub struct Balances {
    pub entries: Vec<(Vec<u8>, u64)>,
}

/// View of the balance entries.
pub open spec fn balance_entries(entries: Seq<(Vec<u8>, u64)>) -> Seq<(Seq<u8>, u64)> {
    entries.map_values(|e: (Vec<u8>, u64)| (e.0@, e.1))
}

impl View for Balances {
    type V = Seq<(Seq<u8>, u64)>;

    open spec fn view(&self) -> Seq<(Seq<u8>, u64)> {
        balance_entries(self.entries@)
    }
}

/// A payer's balance; no entry means no account.
pub open spec fn balance_amount(m: Seq<(Seq<u8>, u64)>, payer: Seq<u8>) -> int {
    match kv_lookup(m, payer) {
        Some(b) => b as int,
        None => 0,
    }
}

impl Balances {
    /// An empty balance map.
    pub fn new() -> (r: Balances)
        ensures
            r@ == Seq::<(Seq<u8>, u64)>::empty(),
    {
        let r = Balances { entries: Vec::new() };
        proof {
            assert(r@ =~= Seq::<(Seq<u8>, u64)>::empty());
        }
        r
    }

    /// Index of a payer's entry, scanning in map order.
    fn find(&self, payer: &Vec<u8>) -> (r: Option<usize>)
        ensures
            match r {
                Some(i) => i < self@.len() && self@[i as int].0 == payer@ && (forall|j: int|
                    0 <= j < i ==> (#[trigger] self@[j]).0 != payer@),
                None => forall|j: int| 0 <= j < self@.len() ==> (#[trigger] self@[j]).0 != payer@,
            },
    {
        let mut i: usize = 0;
        while i < self.entries.len()
            invariant
                0 <= i <= self@.len(),
                self@.len() == self.entries@.len(),
                forall|j: int| 0 <= j < i ==> (#[trigger] self@[j]).0 != payer@,
            decreases self@.len() - i,
        {
            proof {
                assert(self@[i as int] == (self.entries@[i as int].0@, self.entries@[i as int].1));
            }
            if bytes_eq(&self.entries[i].0, payer) {
                return Some(i);
            }
            i += 1;
        }
        None
    }

    /// Set a payer's balance, adding the account if it is new.
    pub fn set_balance(&mut self, payer: &Vec<u8>, amount: u64)
        ensures
            final(self)@ == kv_store(old(self)@, payer@, amount),
    {
        let ghost m = self@;
        match self.find(payer) {
            Some(i) => {
                let key = copy_bytes(&self.entries[i].0);
                self.entries[i] = (key, amount);
                proof {
                    lemma_kv_store_at(m, payer@, amount, i as int);
                    assert(self@ =~= m.update(i as int, (payer@, amount)));
                }
            },
            None => {
                proof {
                    crate::kv::lemma_kv_store_absent(m, payer@, amount);
                }
                self.entries.push((copy_bytes(payer), amount));
                proof {
                    assert(self@ =~= m.push((payer@, amount)));
                }
            },
        }
    }

    /// Read-only sufficiency check: does the payer's available balance
    /// cover the amount?  `None` means the payer has no account; the debit
    /// itself is deferred to the burn accounting.
    pub fn debit_if_sufficient(&self, payer: &Vec<u8>, amount: u64) -> (r: Option<bool>)
        ensures
            (match kv_lookup(self@, payer@) {
                Some(bal) => r == Some(bal >= amount),
                None => r is None,
            }),
    {
        match self.find(payer) {
            Some(i) => {
                proof {
                    lemma_kv_lookup_at(self@, payer@, i as int);
                }
                Some(self.entries[i].1 >= amount)
            },
            None => {
                proof {
                    lemma_kv_lookup_none(self@, payer@);
                }
                None
            },
        }
    }

    /// Debit a covered amount from a payer's in-memory balance.
    pub fn burn(&mut self, payer: &Vec<u8>, amount: u64)
        requires
            kv_lookup(old(self)@, payer@) is Some,
            balance_amount(old(self)@, payer@) >= amount,
        ensures
            final(self)@ == kv_store(
                old(self)@,
                payer@,
                (balance_amount(old(self)@, payer@) - amount) as u64,
            ),
    {
        let ghost m = self@;
        match self.find(payer) {
            Some(i) => {
                proof {
                    lemma_kv_lookup_at(m, payer@, i as int);
                }
                let bal = self.entries[i].1;
                let key = copy_bytes(&self.entries[i].0);
                self.entries[i] = (key, bal - amount);
                proof {
                    lemma_kv_store_at(m, payer@, (balance_amount(m, payer@) - amount) as u64, i as int);
                    assert(self@ =~= m.update(
                        i as int,
                        (payer@, (balance_amount(m, payer@) - amount) as u64),
                    ));
                }
            },
            None => {
                proof {
                    lemma_kv_lookup_none(m, payer@);
                    assert(false);
                }
            },
        }
    }
}

/// A seen packet identity.
struct PacketId {
    ts: u64,
    oui: u64,
    hash: Vec<u8>,
}

/// View of the seen identities.
spec fn seen_entries(seen: Seq<PacketId>) -> Seq<(u64, u64, Seq<u8>)> {
    seen.map_values(|p: PacketId| (p.ts, p.oui, p.hash@))
}

/// Whether an identity was seen, scanning the pass-local set.
fn seen_contains(seen: &Vec<PacketId>, ts: u64, oui: u64, hash: &Vec<u8>) -> (r: bool)
    ensures
        r == seen_entries(seen@).contains((ts, oui, hash@)),
{
    let ghost m = seen_entries(seen@);
    let mut i: usize = 0;
    while i < seen.len()
        invariant
            0 <= i <= m.len(),
            m == seen_entries(seen@),
            m.len() == seen@.len(),
            forall|j: int| 0 <= j < i ==> m[j] != (ts, oui, hash@),
        decreases m.len() - i,
    {
        proof {
            assert(m[i as int] == (seen@[i as int].ts, seen@[i as int].oui, seen@[i as int].hash@));
        }
        if seen[i].ts == ts && seen[i].oui == oui && bytes_eq(&seen[i].hash, hash) {
            assert(m.contains((ts, oui, hash@)));
            return true;
        }
        i += 1;
    }
    proof {
        if m.contains((ts, oui, hash@)) {
            let j = choose|j: int| 0 <= j < m.len() && m[j] == (ts, oui, hash@);
            assert(false);
        }
    }
    false
}

/// The verifier's collaborators on the balance and configuration sides.
pub struct Verifier {
    pub debiter: Balances,
    pub config_server: CachedOrgClient,
}

/// The whole state a pass reads and writes.
pub struct VerifierModel {
    pub org: OrgClientModel,
    pub balances: Seq<(Seq<u8>, u64)>,
    pub pending: Seq<(Seq<u8>, BurnRow)>,
    pub seen: Seq<(u64, u64, Seq<u8>)>,
    pub valid: Seq<PacketModel>,
    pub invalid: Seq<PacketModel>,
}

/// Every payer could be debited in full without the pending row
/// overflowing: the pending amount plus the balance fits the counter.  A
/// pass conserves the sum, so this is invariant.
pub open spec fn ledger_fits(
    balances: Seq<(Seq<u8>, u64)>,
    pending: Seq<(Seq<u8>, BurnRow)>,
) -> bool {
    forall|p: Seq<u8>|
        #[trigger] pending_amount(pending, p) + balance_amount(balances, p) <= u64::MAX
}

/// One report through the pass: skip a seen duplicate; record the identity;
/// resolve the payer, failing with a configuration error when the org is
/// unknown; check the balance, failing with a debit error when the payer
/// has no account; then classify.
pub open spec fn verify_step(st: VerifierModel, r: ReportModel, now_ms: u64) -> (
    VerifierModel,
    Option<VerificationError>,
) {
    let id = (r.gateway_timestamp_ms, r.oui, r.payload_hash);
    if st.seen.contains(id) {
        (st, None)
    } else {
        let st1 = VerifierModel { seen: st.seen.push(id), ..st };
        let fetched = fetch_org_spec(st1.org, r.oui);
        let st2 = VerifierModel { org: fetched.0, ..st1 };
        match fetched.1 {
            None => (st2, Some(VerificationError::ConfigError)),
            Some(payer) => {
                let dc = spec_payload_size_to_dc(r.payload_size as u64);
                match kv_lookup(st2.balances, payer) {
                    None => (st2, Some(VerificationError::DebitError)),
                    Some(bal) => {
                        let packet = PacketModel {
                            payload_size: r.payload_size,
                            gateway: r.gateway,
                            payload_hash: r.payload_hash,
                        };
                        if bal >= dc {
                            (
                                VerifierModel {
                                    org: enable_org_spec(st2.org, r.oui),
                                    balances: kv_store(st2.balances, payer, (bal - dc) as u64),
                                    pending: burn_spec(st2.pending, payer, dc, now_ms),
                                    valid: st2.valid.push(packet),
                                    ..st2
                                },
                                None,
                            )
                        } else {
                            (
                                VerifierModel {
                                    org: disable_org_spec(st2.org, r.oui),
                                    invalid: st2.invalid.push(packet),
                                    ..st2
                                },
                                None,
                            )
                        }
                    },
                }
            },
        }
    }
}

/// A pass over a report sequence, aborting at the first failure.
pub open spec fn verify_fold(st: VerifierModel, reports: Seq<ReportModel>, now_ms: u64) -> (
    VerifierModel,
    Option<VerificationError>,
)
    decreases reports.len(),
{
    if reports.len() == 0 {
        (st, None)
    } else {
        let s = verify_step(st, reports[0], now_ms);
        if s.1 is Some {
            s
        } else {
            verify_fold(s.0, reports.drop_first(), now_ms)
        }
    }
}

impl Verifier {
    /// Verify a stream of packet reports, writing valid and invalid
    /// packets out and accumulating burns in the pending table.  The
    /// result and every side effect are exactly those of the pass model.
    pub fn verify(
        &mut self,
        burner: &mut PendingBurns,
        reports: Vec<PacketReport>,
        valid_packets: &mut Vec<ValidPacket>,
        invalid_packets: &mut Vec<InvalidPacket>,
        now_ms: u64,
    ) -> (r: Result<(), VerificationError>)
        requires
            ledger_fits(old(self).debiter@, old(burner)@),
        ensures
            ({
                let st0 = (VerifierModel {
                    org: old(self).config_server@,
                    balances: old(self).debiter@,
                    pending: old(burner)@,
                    seen: Seq::<(u64, u64, Seq<u8>)>::empty(),
                    valid: old(valid_packets)@.map_values(|p: ValidPacket| p@),
                    invalid: old(invalid_packets)@.map_values(|p: InvalidPacket| p@),
                });
                let f = verify_fold(st0, reports@.map_values(|p: PacketReport| p@), now_ms);
                &&& final(self).config_server@ == f.0.org
                &&& final(self).debiter@ == f.0.balances
                &&& final(burner)@ == f.0.pending
                &&& final(valid_packets)@.map_values(|p: ValidPacket| p@) == f.0.valid
                &&& final(invalid_packets)@.map_values(|p: InvalidPacket| p@) == f.0.invalid
                &&& (match f.1 {
                    None => r is Ok,
                    Some(e) => r == Err::<(), VerificationError>(e),
                })
                &&& ledger_fits(final(self).debiter@, final(burner)@)
            }),
    {
        let ghost st0 = VerifierModel {
            org: self.config_server@,
            balances: self.debiter@,
            pending: burner@,
            seen: Seq::<(u64, u64, Seq<u8>)>::empty(),
            valid: valid_packets@.map_values(|p: ValidPacket| p@),
            invalid: invalid_packets@.map_values(|p: InvalidPacket| p@),
        };
        let ghost all_reports = reports@.map_values(|p: PacketReport| p@);
        let mut seen: Vec<PacketId> = Vec::new();
        let mut pending_reports = reports;
        proof {
            assert(seen_entries(seen@) =~= Seq::<(u64, u64, Seq<u8>)>::empty());
        }
        #[verifier::loop_isolation(false)]
        while pending_reports.len() > 0
            invariant
                ledger_fits(self.debiter@, burner@),
                verify_fold(st0, all_reports, now_ms) == verify_fold(
                    (VerifierModel {
                        org: self.config_server@,
                        balances: self.debiter@,
                        pending: burner@,
                        seen: seen_entries(seen@),
                        valid: valid_packets@.map_values(|p: ValidPacket| p@),
                        invalid: invalid_packets@.map_values(|p: InvalidPacket| p@),
                    }),
                    pending_reports@.map_values(|p: PacketReport| p@),
                    now_ms,
                ),
            decreases pending_reports@.len(),
        {
            let ghost st_cur = VerifierModel {
                org: self.config_server@,
                balances: self.debiter@,
                pending: burner@,
                seen: seen_entries(seen@),
                valid: valid_packets@.map_values(|p: ValidPacket| p@),
                invalid: invalid_packets@.map_values(|p: InvalidPacket| p@),
            };
            let ghost remaining = pending_reports@.map_values(|p: PacketReport| p@);
            let report = pending_reports.remove(0);
            proof {
                assert(pending_reports@.map_values(|p: PacketReport| p@) =~= remaining.drop_first());
                assert(remaining[0] == report@);
            }
            let ghost step = verify_step(st_cur, report@, now_ms);
            let PacketReport { gateway_timestamp_ms: ts, oui, payload_size, gateway, payload_hash } =
                report;
            if seen_contains(&seen, ts, oui, &payload_hash) {
                continue ;
            }
            let id_hash = copy_bytes(&payload_hash);
            seen.push(PacketId { ts, oui, hash: id_hash });
            proof {
                assert(seen_entries(seen@) =~= st_cur.seen.push((ts, oui, payload_hash@)));
            }
            let payer = match self.config_server.fetch_org(oui) {
                Some(p) => p,
                None => {
                    proof {
                        assert(verify_fold(st0, all_reports, now_ms) == (
                            step.0,
                            Some(VerificationError::ConfigError),
                        ));
                    }
                    return Err(VerificationError::ConfigError);
                },
            };
            let dc = payload_size_to_dc(payload_size as u64);
            let sufficient = match self.debiter.debit_if_sufficient(&payer, dc) {
                Some(b) => b,
                None => {
                    proof {
                        assert(verify_fold(st0, all_reports, now_ms) == (
                            step.0,
                            Some(VerificationError::DebitError),
                        ));
                    }
                    return Err(VerificationError::DebitError);
                },
            };
            if sufficient {
                proof {
                    assert(pending_amount(burner@, payer@) + balance_amount(self.debiter@, payer@)
                        <= u64::MAX);
                }
                let ghost bal_before = self.debiter@;
                let ghost pend_before = burner@;
                self.debiter.burn(&payer, dc);
                burner.burn(&payer, dc, now_ms);
                valid_packets.push(ValidPacket { payload_size, gateway, payload_hash });
                self.config_server.enable_org(oui);
                proof {
                    assert(valid_packets@.map_values(|p: ValidPacket| p@) =~= st_cur.valid.push(
                        step.0.valid.last(),
                    ));
                    assert(valid_packets@.map_values(|p: ValidPacket| p@) =~= step.0.valid);
                    lemma_fits_after_burn(bal_before, pend_before, payer@, dc, now_ms);
                }
            } else {
                invalid_packets.push(InvalidPacket { payload_size, gateway, payload_hash });
                self.config_server.disable_org(oui);
                proof {
                    assert(invalid_packets@.map_values(|p: InvalidPacket| p@) =~= step.0.invalid);
                }
            }
        }
        proof {
            assert(pending_reports@.map_values(|p: PacketReport| p@) =~= Seq::<
                ReportModel,
            >::empty());
        }
        Ok(())
    }
}

/// No packet identity repeats.
pub open spec fn no_dup_ids(seen: Seq<(u64, u64, Seq<u8>)>) -> bool {
    forall|i: int, j: int| 0 <= i < j < seen.len() ==> seen[i] != seen[j]
}

/// Verifier dedup: the seen set never takes a duplicate, every
/// classification corresponds to one fresh identity, and on a pass that
/// completes, the classifications are exactly one per distinct identity
/// processed — a duplicated `(timestamp, oui, hash)` triple is classified
/// at most once.
pub proof fn lemma_verifier_dedup(st: VerifierModel, reports: Seq<ReportModel>, now_ms: u64)
    requires
        no_dup_ids(st.seen),
    ensures
        ({
            let f = verify_fold(st, reports, now_ms);
            &&& no_dup_ids(f.0.seen)
            &&& f.0.valid.len() >= st.valid.len()
            &&& f.0.invalid.len() >= st.invalid.len()
            &&& f.0.seen.len() >= st.seen.len()
            &&& (f.0.valid.len() - st.valid.len()) + (f.0.invalid.len() - st.invalid.len())
                <= f.0.seen.len() - st.seen.len()
            &&& (f.1 is None ==> (f.0.valid.len() - st.valid.len()) + (f.0.invalid.len()
                - st.invalid.len()) == f.0.seen.len() - st.seen.len())
        }),
    decreases reports.len(),
{
    if reports.len() > 0 {
        let s = verify_step(st, reports[0], now_ms);
        let id = (
            reports[0].gateway_timestamp_ms,
            reports[0].oui,
            reports[0].payload_hash,
        );
        if !st.seen.contains(id) {
            assert(forall|i: int| 0 <= i < st.seen.len() ==> st.seen[i] != id);
            assert(no_dup_ids(s.0.seen));
        }
        if s.1 is None {
            lemma_verifier_dedup(s.0, reports.drop_first(), now_ms);
        }
    }
}

/// The burn calls a pass makes: one `(payer, debit_amount)` per packet
/// classified valid, in classification order, cut short at the first
/// failure.
pub open spec fn burn_calls_of(st: VerifierModel, reports: Seq<ReportModel>, now_ms: u64) -> Seq<
    (Seq<u8>, u64),
>
    decreases reports.len(),
{
    if reports.len() == 0 {
        Seq::empty()
    } else {
        let r = reports[0];
        let s = verify_step(st, r, now_ms);
        if s.1 is Some {
            Seq::empty()
        } else if st.seen.contains((r.gateway_timestamp_ms, r.oui, r.payload_hash)) {
            burn_calls_of(s.0, reports.drop_first(), now_ms)
        } else {
            let st1 = VerifierModel {
                seen: st.seen.push((r.gateway_timestamp_ms, r.oui, r.payload_hash)),
                ..st
            };
            let fetched = fetch_org_spec(st1.org, r.oui);
            match fetched.1 {
                None => Seq::empty(),
                Some(payer) => {
                    let dc = spec_payload_size_to_dc(r.payload_size as u64);
                    match kv_lookup(st.balances, payer) {
                        None => Seq::empty(),
                        Some(bal) => if bal >= dc {
                            seq![(payer, dc)] + burn_calls_of(s.0, reports.drop_first(), now_ms)
                        } else {
                            burn_calls_of(s.0, reports.drop_first(), now_ms)
                        },
                    }
                },
            }
        }
    }
}

/// The part of the burn calls charged to one payer.
pub open spec fn sum_for(calls: Seq<(Seq<u8>, u64)>, payer: Seq<u8>) -> int
    decreases calls.len(),
{
    if calls.len() == 0 {
        0
    } else {
        (if calls[0].0 == payer {
            calls[0].1 as int
        } else {
            0
        }) + sum_for(calls.drop_first(), payer)
    }
}

/// Debit accounting: over a pass, the amount accumulated to burn for each
/// payer equals the sum of the debit amounts of the packets classified
/// valid for that payer, which is exactly what left the payer's in-memory
/// balance; one burn call is made per valid packet, and the ledger keeps
/// fitting.
pub proof fn lemma_debit_accounting(
    st: VerifierModel,
    reports: Seq<ReportModel>,
    now_ms: u64,
    payer: Seq<u8>,
)
    requires
        ledger_fits(st.balances, st.pending),
    ensures
        ({
            let f = verify_fold(st, reports, now_ms);
            let calls = burn_calls_of(st, reports, now_ms);
            &&& pending_amount(f.0.pending, payer) - pending_amount(st.pending, payer) == sum_for(
                calls,
                payer,
            )
            &&& balance_amount(st.balances, payer) - balance_amount(f.0.balances, payer) == sum_for(
                calls,
                payer,
            )
            &&& f.0.valid.len() - st.valid.len() == calls.len()
            &&& ledger_fits(f.0.balances, f.0.pending)
        }),
    decreases reports.len(),
{
    if reports.len() > 0 {
        let r = reports[0];
        let s = verify_step(st, r, now_ms);
        let calls = burn_calls_of(st, reports, now_ms);
        if s.1 is Some {
        } else if st.seen.contains((r.gateway_timestamp_ms, r.oui, r.payload_hash)) {
            lemma_debit_accounting(s.0, reports.drop_first(), now_ms, payer);
        } else {
            let st1 = VerifierModel {
                seen: st.seen.push((r.gateway_timestamp_ms, r.oui, r.payload_hash)),
                ..st
            };
            let fetched = fetch_org_spec(st1.org, r.oui);
            match fetched.1 {
                None => {},
                Some(step_payer) => {
                    let dc = spec_payload_size_to_dc(r.payload_size as u64);
                    match kv_lookup(st.balances, step_payer) {
                        None => {},
                        Some(bal) => {
                            if bal >= dc {
                                lemma_fits_after_burn(
                                    st.balances,
                                    st.pending,
                                    step_payer,
                                    dc,
                                    now_ms,
                                );
                                lemma_debit_accounting(s.0, reports.drop_first(), now_ms, payer);
                                let tail = burn_calls_of(s.0, reports.drop_first(), now_ms);
                                assert(calls == seq![(step_payer, dc)] + tail);
                                assert(calls[0] == (step_payer, dc));
                                assert(calls.drop_first() =~= tail);
                            } else {
                                lemma_debit_accounting(s.0, reports.drop_first(), now_ms, payer);
                            }
                        },
                    }
                },
            }
        }
    }
}

/// Debiting a covered amount and accumulating it to burn conserves the sum
/// of balance and pending amount for every payer, so the ledger keeps
/// fitting.
pub proof fn lemma_fits_after_burn(
    balances: Seq<(Seq<u8>, u64)>,
    pending: Seq<(Seq<u8>, BurnRow)>,
    payer: Seq<u8>,
    dc: u64,
    now_ms: u64,
)
    requires
        ledger_fits(balances, pending),
        kv_lookup(balances, payer) is Some,
        balance_amount(balances, payer) >= dc,
    ensures
        ledger_fits(
            kv_store(balances, payer, (balance_amount(balances, payer) - dc) as u64),
            burn_spec(pending, payer, dc, now_ms),
        ),
        pending_amount(burn_spec(pending, payer, dc, now_ms), payer) == pending_amount(
            pending,
            payer,
        ) + dc,
        balance_amount(
            kv_store(balances, payer, (balance_amount(balances, payer) - dc) as u64),
            payer,
        ) == balance_amount(balances, payer) - dc,
        forall|p: Seq<u8>|
            p != payer ==> #[trigger] pending_amount(burn_spec(pending, payer, dc, now_ms), p)
                == pending_amount(pending, p),
        forall|p: Seq<u8>|
            p != payer ==> #[trigger] balance_amount(
                kv_store(balances, payer, (balance_amount(balances, payer) - dc) as u64),
                p,
            ) == balance_amount(balances, p),
{
    let bal2 = kv_store(balances, payer, (balance_amount(balances, payer) - dc) as u64);
    let pend2 = burn_spec(pending, payer, dc, now_ms);
    assert(pending_amount(pending, payer) + balance_amount(balances, payer) <= u64::MAX);
    assert forall|p: Seq<u8>| #[trigger]
        pending_amount(pend2, p) + balance_amount(bal2, p) <= u64::MAX by {
        lemma_kv_lookup_store(
            balances,
            payer,
            (balance_amount(balances, payer) - dc) as u64,
            p,
        );
        match kv_lookup(pending, payer) {
            None => {
                lemma_kv_lookup_push(pending, payer, BurnRow { amount: dc, last_burn_ms: now_ms }, p);
            },
            Some(row) => {
                lemma_kv_lookup_store(
                    pending,
                    payer,
                    BurnRow { amount: (row.amount + dc) as u64, last_burn_ms: row.last_burn_ms },
                    p,
                );
            },
        }
        assert(pending_amount(pending, p) + balance_amount(balances, p) <= u64::MAX);
    }
    assert forall|p: Seq<u8>|
        p != payer implies #[trigger] pending_amount(pend2, p) == pending_amount(pending, p) by {
        match kv_lookup(pending, payer) {
            None => {
                lemma_kv_lookup_push(pending, payer, BurnRow { amount: dc, last_burn_ms: now_ms }, p);
            },
            Some(row) => {
                lemma_kv_lookup_store(
                    pending,
                    payer,
                    BurnRow { amount: (row.amount + dc) as u64, last_burn_ms: row.last_burn_ms },
                    p,
                );
            },
        }
    }
    assert forall|p: Seq<u8>|
        p != payer implies #[trigger] balance_amount(bal2, p) == balance_amount(balances, p) by {
        lemma_kv_lookup_store(
            balances,
            payer,
            (balance_amount(balances, payer) - dc) as u64,
            p,
        );
    }
    match kv_lookup(pending, payer) {
        None => {
            lemma_kv_lookup_push(
                pending,
                payer,
                BurnRow { amount: dc, last_burn_ms: now_ms },
                payer,
            );
        },
        Some(row) => {
            lemma_kv_lookup_store(
                pending,
                payer,
                BurnRow { amount: (row.amount + dc) as u64, last_burn_ms: row.last_burn_ms },
                payer,
            );
        },
    }
    lemma_kv_lookup_store(balances, payer, (balance_amount(balances, payer) - dc) as u64, payer);
}

} // verus!

//! Org/payer cache and edge-triggered org control.
//!
//! `fetch_org` answers from a per-run cache and falls back to the
//! organization directory, caching what it learns.  `enable_org` and
//! `disable_org` keep a local `oui -> enabled` map, defaulting to disabled
//! for an organization not seen before, and record a control call only on a
//! state transition — packet streams carry thousands of records per
//! organization, and the control plane must not be flooded.  The shell turns
//! each recorded call into one signed RPC.

use vstd::prelude::*;
use crate::kv::{
    kv_lookup,
    kv_store,
    lemma_kv_lookup_at,
    lemma_kv_lookup_none,
    lemma_kv_store_absent,
    lemma_kv_store_at,
    copy_bytes,
};

verus! {

/// A control call the client decided to issue.
#[derive(Clone, Copy, PartialEq, Eq, Structural, Debug)]
pub enum OrgRpc {
    Enable(u64),
    Disable(u64),
}

/// Model of the client: the directory it queries, what it has cached, the
/// local enable flags, and the control calls issued so far.
pub struct OrgClientModel {
    pub payers: Seq<(u64, Seq<u8>)>,
    pub cache: Seq<(u64, Seq<u8>)>,
    pub enabled: Seq<(u64, bool)>,
    pub rpc_log: Seq<OrgRpc>,
}

/// The local enable flag of an organization; not seen before means
/// disabled.
pub open spec fn flag_of(enabled: Seq<(u64, bool)>, oui: u64) -> bool {
    match kv_lookup(enabled, oui) {
        Some(b) => b,
        None => false,
    }
}

/// Resolve the payer of an organization: from the cache if present,
/// otherwise from the directory, caching the answer.  `None` means the
/// directory does not know the organization.
pub open spec fn fetch_org_spec(m: OrgClientModel, oui: u64) -> (OrgClientModel, Option<Seq<u8>>) {
    match kv_lookup(m.cache, oui) {
        Some(p) => (m, Some(p)),
        None => match kv_lookup(m.payers, oui) {
            Some(p) => (OrgClientModel { cache: m.cache.push((oui, p)), ..m }, Some(p)),
            None => (m, None),
        },
    }
}

/// Enable an organization: a control call is recorded only on the
/// disabled-to-enabled transition.
pub open spec fn enable_org_spec(m: OrgClientModel, oui: u64) -> OrgClientModel {
    if flag_of(m.enabled, oui) {
        m
    } else {
        OrgClientModel {
            enabled: kv_store(m.enabled, oui, true),
            rpc_log: m.rpc_log.push(OrgRpc::Enable(oui)),
            ..m
        }
    }
}

/// Disable an organization: a control call is recorded only on the
/// enabled-to-disabled transition.
pub open spec fn disable_org_spec(m: OrgClientModel, oui: u64) -> OrgClientModel {
    if !flag_of(m.enabled, oui) {
        m
    } else {
        OrgClientModel {
            enabled: kv_store(m.enabled, oui, false),
            rpc_log: m.rpc_log.push(OrgRpc::Disable(oui)),
            ..m
        }
    }
}

/// The org client: an in-memory directory model, the per-run payer cache,
/// the local enable flags, and the log of control calls issued.
pub struct CachedOrgClient {
    pub payers: Vec<(u64, Vec<u8>)>,
    pub cache: Vec<(u64, Vec<u8>)>,
    pub enabled: Vec<(u64, bool)>,
    pub rpc_log: Vec<OrgRpc>,
}

/// View of a sequence of `oui -> payer` entries.
pub open spec fn org_entries(entries: Seq<(u64, Vec<u8>)>) -> Seq<(u64, Seq<u8>)> {
    entries.map_values(|e: (u64, Vec<u8>)| (e.0, e.1@))
}

impl View for CachedOrgClient {
    type V = OrgClientModel;

    open spec fn view(&self) -> OrgClientModel {
        OrgClientModel {
            payers: org_entries(self.payers@),
            cache: org_entries(self.cache@),
            enabled: self.enabled@,
            rpc_log: self.rpc_log@,
        }
    }
}

/// Find the first entry of an organization in an `oui -> payer` list.
fn find_org(entries: &Vec<(u64, Vec<u8>)>, oui: u64) -> (r: Option<usize>)
    ensures
        match r {
            Some(i) => i < entries@.len() && entries@[i as int].0 == oui && (forall|j: int|
                0 <= j < i ==> (#[trigger] entries@[j]).0 != oui),
            None => forall|j: int| 0 <= j < entries@.len() ==> (#[trigger] entries@[j]).0 != oui,
        },
{
    let mut i: usize = 0;
    while i < entries.len()
        invariant
            0 <= i <= entries@.len(),
            forall|j: int| 0 <= j < i ==> (#[trigger] entries@[j]).0 != oui,
        decreases entries@.len() - i,
    {
        if entries[i].0 == oui {
            return Some(i);
        }
        i += 1;
    }
    None
}

/// Find the first entry of an organization in the flag list.
fn find_flag(entries: &Vec<(u64, bool)>, oui: u64) -> (r: Option<usize>)
    ensures
        match r {
            Some(i) => i < entries@.len() && entries@[i as int].0 == oui && (forall|j: int|
                0 <= j < i ==> (#[trigger] entries@[j]).0 != oui),
            None => forall|j: int| 0 <= j < entries@.len() ==> (#[trigger] entries@[j]).0 != oui,
        },
{
    let mut i: usize = 0;
    while i < entries.len()
        invariant
            0 <= i <= entries@.len(),
            forall|j: int| 0 <= j < i ==> (#[trigger] entries@[j]).0 != oui,
        decreases entries@.len() - i,
    {
        if entries[i].0 == oui {
            return Some(i);
        }
        i += 1;
    }
    None
}

impl CachedOrgClient {
    /// A fresh client over the given organization directory: empty cache,
    /// every organization locally disabled, no control call issued.
    pub fn new(payers: Vec<(u64, Vec<u8>)>) -> (r: CachedOrgClient)
        ensures
            r@ == (OrgClientModel {
                payers: org_entries(payers@),
                cache: Seq::<(u64, Seq<u8>)>::empty(),
                enabled: Seq::<(u64, bool)>::empty(),
                rpc_log: Seq::<OrgRpc>::empty(),
            }),
    {
        let r = CachedOrgClient { payers, cache: Vec::new(), enabled: Vec::new(), rpc_log: Vec::new() };
        proof {
            assert(r@.cache =~= Seq::<(u64, Seq<u8>)>::empty());
        }
        r
    }

    /// Resolve the payer of an organization, caching a directory answer.
    pub fn fetch_org(&mut self, oui: u64) -> (r: Option<Vec<u8>>)
        ensures
            final(self)@ == fetch_org_spec(old(self)@, oui).0,
            match (r, fetch_org_spec(old(self)@, oui).1) {
                (Some(p), Some(q)) => p@ == q,
                (None, None) => true,
                _ => false,
            },
    {
        let ghost m = self@;
        match find_org(&self.cache, oui) {
            Some(i) => {
                proof {
                    assert forall|j: int| 0 <= j < i implies (#[trigger] m.cache[j]).0 != oui by {
                        assert(m.cache[j] == (self.cache@[j].0, self.cache@[j].1@));
                    }
                    assert(m.cache[i as int] == (self.cache@[i as int].0, self.cache@[i as int].1@));
                    lemma_kv_lookup_at(m.cache, oui, i as int);
                }
                Some(copy_bytes(&self.cache[i].1))
            },
            None => {
                proof {
                    assert forall|j: int| 0 <= j < m.cache.len() implies (#[trigger] m.cache[j]).0
                        != oui by {
                        assert(m.cache[j] == (self.cache@[j].0, self.cache@[j].1@));
                    }
                    lemma_kv_lookup_none(m.cache, oui);
                }
                match find_org(&self.payers, oui) {
                    Some(i) => {
                        proof {
                            assert forall|j: int| 0 <= j < i implies (#[trigger] m.payers[j]).0
                                != oui by {
                                assert(m.payers[j] == (self.payers@[j].0, self.payers@[j].1@));
                            }
                            assert(m.payers[i as int] == (
                                self.payers@[i as int].0,
                                self.payers@[i as int].1@,
                            ));
                            lemma_kv_lookup_at(m.payers, oui, i as int);
                        }
                        let p = copy_bytes(&self.payers[i].1);
                        let entry = copy_bytes(&p);
                        self.cache.push((oui, entry));
                        proof {
                            assert(self@.cache =~= m.cache.push((oui, p@)));
                        }
                        Some(p)
                    },
                    None => {
                        proof {
                            assert forall|j: int| 0 <= j < m.payers.len() implies (
                            #[trigger] m.payers[j]).0 != oui by {
                                assert(m.payers[j] == (self.payers@[j].0, self.payers@[j].1@));
                            }
                            lemma_kv_lookup_none(m.payers, oui);
                        }
                        None
                    },
                }
            },
        }
    }

    /// Enable an organization; reports whether a control call was issued.
    pub fn enable_org(&mut self, oui: u64) -> (emitted: bool)
        ensures
            final(self)@ == enable_org_spec(old(self)@, oui),
            emitted == !flag_of(old(self)@.enabled, oui),
    {
        let ghost m = self@;
        match find_flag(&self.enabled, oui) {
            Some(i) => {
                proof {
                    lemma_kv_lookup_at(m.enabled, oui, i as int);
                }
                if self.enabled[i].1 {
                    false
                } else {
                    self.enabled[i] = (oui, true);
                    self.rpc_log.push(OrgRpc::Enable(oui));
                    proof {
                        lemma_kv_store_at(m.enabled, oui, true, i as int);
                        assert(self@.enabled =~= kv_store(m.enabled, oui, true));
                    }
                    true
                }
            },
            None => {
                proof {
                    lemma_kv_lookup_none(m.enabled, oui);
                    lemma_kv_store_absent(m.enabled, oui, true);
                }
                self.enabled.push((oui, true));
                self.rpc_log.push(OrgRpc::Enable(oui));
                true
            },
        }
    }

    /// Disable an organization; reports whether a control call was issued.
    pub fn disable_org(&mut self, oui: u64) -> (emitted: bool)
        ensures
            final(self)@ == disable_org_spec(old(self)@, oui),
            emitted == flag_of(old(self)@.enabled, oui),
    {
        let ghost m = self@;
        match find_flag(&self.enabled, oui) {
            Some(i) => {
                proof {
                    lemma_kv_lookup_at(m.enabled, oui, i as int);
                }
                if !self.enabled[i].1 {
                    false
                } else {
                    self.enabled[i] = (oui, false);
                    self.rpc_log.push(OrgRpc::Disable(oui));
                    proof {
                        lemma_kv_store_at(m.enabled, oui, false, i as int);
                        assert(self@.enabled =~= kv_store(m.enabled, oui, false));
                    }
                    true
                }
            },
            None => {
                proof {
                    lemma_kv_lookup_none(m.enabled, oui);
                }
                false
            },
        }
    }
}

/// A requested state change, before edge-triggering decides whether a call
/// goes out.
pub open spec fn control_step(m: OrgClientModel, c: OrgRpc) -> OrgClientModel {
    match c {
        OrgRpc::Enable(oui) => enable_org_spec(m, oui),
        OrgRpc::Disable(oui) => disable_org_spec(m, oui),
    }
}

/// A run of requested state changes.
pub open spec fn control_run(m: OrgClientModel, calls: Seq<OrgRpc>) -> OrgClientModel
    decreases calls.len(),
{
    if calls.len() == 0 {
        m
    } else {
        control_run(control_step(m, calls[0]), calls.drop_first())
    }
}

/// The requested changes that actually transition the local flag, given the
/// flags at the start.
pub open spec fn transitions_of(enabled: Seq<(u64, bool)>, calls: Seq<OrgRpc>) -> Seq<OrgRpc>
    decreases calls.len(),
{
    if calls.len() == 0 {
        Seq::empty()
    } else {
        let hit = match calls[0] {
            OrgRpc::Enable(oui) => !flag_of(enabled, oui),
            OrgRpc::Disable(oui) => flag_of(enabled, oui),
        };
        let next = match calls[0] {
            OrgRpc::Enable(oui) => if hit {
                kv_store(enabled, oui, true)
            } else {
                enabled
            },
            OrgRpc::Disable(oui) => if hit {
                kv_store(enabled, oui, false)
            } else {
                enabled
            },
        };
        (if hit {
            seq![calls[0]]
        } else {
            Seq::empty()
        }) + transitions_of(next, calls.drop_first())
    }
}

/// Edge-triggered control: over any run of requested state changes, the
/// control calls issued are exactly the requests that transition the local
/// flag — one enable call per disabled-to-enabled transition of that
/// organization, one disable call per enabled-to-disabled transition, and
/// no others.
pub proof fn lemma_edge_triggered(m: OrgClientModel, calls: Seq<OrgRpc>)
    ensures
        control_run(m, calls).rpc_log == m.rpc_log + transitions_of(m.enabled, calls),
    decreases calls.len(),
{
    if calls.len() == 0 {
        assert(m.rpc_log + transitions_of(m.enabled, calls) =~= m.rpc_log);
    } else {
        let m1 = control_step(m, calls[0]);
        lemma_edge_triggered(m1, calls.drop_first());
        assert(m1.enabled == (match calls[0] {
            OrgRpc::Enable(oui) => if !flag_of(m.enabled, oui) {
                kv_store(m.enabled, oui, true)
            } else {
                m.enabled
            },
            OrgRpc::Disable(oui) => if flag_of(m.enabled, oui) {
                kv_store(m.enabled, oui, false)
            } else {
                m.enabled
            },
        }));
        assert(control_run(m, calls).rpc_log =~= m.rpc_log + transitions_of(m.enabled, calls));
    }
}

} // verus!

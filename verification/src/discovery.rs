//! The node's table of known relay nodes, bounded, from which the most
//! recently seen nodes are offered for circuits.
use crate::backend::network::discovery::{
    contains_id, forget_node, measure_node, node_recorded, node_table, record_node, table_wf,
    updated_table, DiscoveryError, NodeInfo, NodeInfoView, MAX_NODES,
};
use crate::backend::network::onion::OnionNode;
use crate::clock::instant_elapsed_secs;
use crate::collections::StrMap;
use crate::crypto::CryptoService;
use crate::keys::CryptoError;
use vstd::prelude::*;

verus! {

/// Seconds after which a node not seen is stale.
pub const NODE_TIMEOUT_SECS: u64 = 300;

/// The fewest nodes the table must hold to offer any.
pub const MIN_NODES: usize = 1;

/// `ids` are the most recently seen nodes of `m`, at most `count` of them,
/// most recent first: no node is left out unless `count` were taken and it
/// was seen no later than the last one taken.
pub open spec fn most_recent(m: Map<Seq<char>, NodeInfoView>, count: nat, ids: Seq<Seq<char>>) -> bool {
    &&& ids.no_duplicates()
    &&& ids.len() <= count
    &&& forall|i: int| 0 <= i < ids.len() ==> m.contains_key(#[trigger] ids[i])
    &&& forall|i: int, j: int| 0 <= i < j < ids.len() ==> m[#[trigger] ids[i]].last_seen >= m[#[trigger] ids[j]].last_seen
    &&& forall|k: Seq<char>|
        m.contains_key(k) && !ids.contains(k) ==> ids.len() == count && (ids.len() > 0 ==> m[ids.last()].last_seen
            >= #[trigger] m[k].last_seen)
}

/// `n` has not been seen for more than the timeout before `now`, the
/// difference counted as 0 when `now` is earlier.
pub open spec fn is_stale(n: NodeInfoView, now: u64) -> bool {
    now > n.last_seen && now - n.last_seen > NODE_TIMEOUT_SECS
}

/// The nodes of `m` that are not stale at `now`.
pub open spec fn live_table(m: Map<Seq<char>, NodeInfoView>, now: u64) -> Map<Seq<char>, NodeInfoView> {
    Map::new(|k: Seq<char>| m.contains_key(k) && !is_stale(m[k], now), |k: Seq<char>| m[k])
}

/// The table of known nodes.
#[derive(Debug)]
pub struct NodeDiscovery {
    pub nodes: StrMap<NodeInfo>,
    pub crypto_service: CryptoService,
}

impl NodeDiscovery {
    /// The table's view: node id to record.
    pub open spec fn table(&self) -> Map<Seq<char>, NodeInfoView> {
        node_table(self.nodes)
    }

    /// The table is well formed.
    pub open spec fn wf(&self) -> bool {
        table_wf(self.nodes)
    }

    /// An empty table.
    pub fn new(crypto_service: CryptoService) -> (d: Self)
        ensures
            d.wf(),
            d.table() == Map::<Seq<char>, NodeInfoView>::empty(),
    {
        let d = NodeDiscovery { nodes: StrMap::new(), crypto_service };
        assert(d.table() =~= Map::<Seq<char>, NodeInfoView>::empty());
        d
    }

    /// Records `node` as seen at `now` with no measurements yet, after making
    /// a session key for it; a full table first drops a node seen least
    /// recently.
    pub fn add_node_at(&mut self, node: OnionNode, now: u64) -> (r: Result<(), CryptoError>)
        requires
            old(self).wf(),
        ensures
            final(self).wf(),
            r is Ok,
            node_recorded(old(self).table(), final(self).table(), node@, now),
    {
        let _verification_key = self.crypto_service.generate_session_key()?;
        record_node(&mut self.nodes, node, now);
        Ok(())
    }

    /// `add_node_at` at the time the process clock gives.
    pub fn add_node(&mut self, node: OnionNode) -> (r: Result<(), CryptoError>)
        requires
            old(self).wf(),
        ensures
            final(self).wf(),
            r is Ok,
            exists|now: u64| #[trigger] node_recorded(old(self).table(), final(self).table(), node@, now),
    {
        let now = instant_elapsed_secs();
        let ghost v = node@;
        let r = self.add_node_at(node, now);
        assert(node_recorded(old(self).table(), self.table(), v, now));
        r
    }

    /// Forgets the node `node_id`.
    pub fn remove_node(&mut self, node_id: &str)
        requires
            old(self).wf(),
        ensures
            final(self).wf(),
            final(self).table() == old(self).table().remove(node_id@),
    {
        forget_node(&mut self.nodes, node_id);
    }

    /// A copy of the record of node `node_id`, if known.
    pub fn get_node(&self, node_id: &str) -> (r: Option<NodeInfo>)
        requires
            self.wf(),
        ensures
            r is Some <==> self.table().contains_key(node_id@),
            r matches Some(info) ==> info@ == self.table()[node_id@],
    {
        match self.nodes.get(node_id) {
            Some(info) => Some(info.copy()),
            None => None,
        }
    }

    /// Copies of all records, each node once.
    pub fn get_all_nodes(&self) -> (r: Vec<NodeInfo>)
        requires
            self.wf(),
        ensures
            exists|ids: Seq<Seq<char>>|
                #![trigger ids.no_duplicates()]
                ids.no_duplicates() && ids.to_set() == self.table().dom() && r@.map_values(|n: NodeInfo| n@)
                    == ids.map_values(|k: Seq<char>| self.table()[k]),
    {
        proof {
            self.nodes.lemma_keys();
        }
        let ghost ks = self.nodes.key_seq();
        let n = self.nodes.len();
        let mut all: Vec<NodeInfo> = Vec::new();
        let mut i: usize = 0;
        while i < n
            invariant
                self.wf(),
                ks == self.nodes.key_seq(),
                n == ks.len(),
                n == self.nodes@.dom().len(),
                i <= n,
                all@.map_values(|n: NodeInfo| n@) == ks.take(i as int).map_values(|k: Seq<char>| self.table()[k]),
            decreases n - i,
        {
            let ghost before = all@;
            let key = self.nodes.key_at(i);
            let info = self.nodes.value_at(i);
            all.push(info.copy());
            proof {
                assert(info@ == self.table()[key@]);
                assert(all@.map_values(|n: NodeInfo| n@) =~= before.map_values(|n: NodeInfo| n@).push(self.table()[key@]));
                assert(ks.take(i + 1) =~= ks.take(i as int).push(key@));
                assert(all@.map_values(|n: NodeInfo| n@) =~= ks.take(i + 1).map_values(|k: Seq<char>| self.table()[k]));
            }
            i = i + 1;
        }
        proof {
            assert(ks.take(n as int) =~= ks);
            assert forall|k: Seq<char>| ks.to_set().contains(k) <==> self.table().dom().contains(k) by {
                assert(ks.to_set().contains(k) == ks.contains(k));
            }
            assert(ks.to_set() =~= self.table().dom());
        }
        all
    }

    /// The ids of the most recently seen nodes, at most `count`.
    fn select_recent(&self, count: usize) -> (ids: Vec<String>)
        requires
            self.wf(),
        ensures
            most_recent(self.table(), count as nat, ids@.map_values(|s: String| s@)),
    {
        proof {
            self.nodes.lemma_keys();
        }
        let ghost m = self.table();
        let ghost ks = self.nodes.key_seq();
        let n = self.nodes.len();
        let mut chosen: Vec<String> = Vec::new();
        let mut done = false;
        while chosen.len() < count && !done
            invariant
                self.wf(),
                m == self.table(),
                ks == self.nodes.key_seq(),
                n == ks.len(),
                n == self.nodes@.dom().len(),
                forall|k: Seq<char>| self.nodes@.contains_key(k) <==> #[trigger] ks.contains(k),
                chosen@.len() <= count,
                ({
                    let ids = chosen@.map_values(|s: String| s@);
                    &&& ids.no_duplicates()
                    &&& forall|i: int| 0 <= i < ids.len() ==> m.contains_key(#[trigger] ids[i])
                    &&& forall|i: int, j: int|
                        0 <= i < j < ids.len() ==> m[#[trigger] ids[i]].last_seen >= m[#[trigger] ids[j]].last_seen
                    &&& forall|k: Seq<char>|
                        m.contains_key(k) && !ids.contains(k) && ids.len() > 0 ==> m[ids.last()].last_seen
                            >= #[trigger] m[k].last_seen
                    &&& done ==> forall|k: Seq<char>| m.contains_key(k) ==> #[trigger] ids.contains(k)
                }),
            decreases count - chosen@.len() + if done {
                0int
            } else {
                1int
            },
        {
            let ghost ids = chosen@.map_values(|s: String| s@);
            let mut best: Option<usize> = None;
            let mut i: usize = 0;
            while i < n
                invariant
                    self.wf(),
                    m == self.table(),
                    ks == self.nodes.key_seq(),
                    n == ks.len(),
                    n == self.nodes@.dom().len(),
                    ids == chosen@.map_values(|s: String| s@),
                    i <= n,
                    best matches Some(b) ==> b < i && m.contains_key(ks[b as int]) && !ids.contains(ks[b as int]),
                    forall|j: int|
                        0 <= j < i && !ids.contains(#[trigger] ks[j]) ==> (best matches Some(b) && m[ks[b as int]].last_seen
                            >= m[ks[j]].last_seen),
                decreases n - i,
            {
                let key = self.nodes.key_at(i);
                let info = self.nodes.value_at(i);
                if !contains_id(&chosen, key.as_str()) {
                    match best {
                        None => {
                            best = Some(i);
                        },
                        Some(b) => {
                            if info.last_seen > self.nodes.value_at(b).last_seen {
                                best = Some(i);
                            }
                        },
                    }
                }
                i = i + 1;
            }
            match best {
                None => {
                    done = true;
                    proof {
                        assert forall|k: Seq<char>| m.contains_key(k) implies #[trigger] ids.contains(k) by {
                            assert(ks.contains(k));
                            let t = choose|t: int| 0 <= t < ks.len() && ks[t] == k;
                            if !ids.contains(ks[t]) {
                                assert(best is Some);
                            }
                        }
                    }
                },
                Some(b) => {
                    let ghost picked = ks[b as int];
                    chosen.push(self.nodes.key_at(b).clone());
                    proof {
                        let longer = chosen@.map_values(|s: String| s@);
                        assert(longer =~= ids.push(picked));
                        assert forall|x: int, y: int| 0 <= x < longer.len() && 0 <= y < longer.len() && x != y implies longer[x]
                            != longer[y] by {
                            if x == ids.len() {
                                assert(ids.contains(ids[y]));
                            } else if y == ids.len() {
                                assert(ids.contains(ids[x]));
                            }
                        }
                        assert forall|x: int, y: int|
                            0 <= x < y < longer.len() implies m[#[trigger] longer[x]].last_seen >= m[#[trigger] longer[y]].last_seen by {
                            if y == ids.len() {
                                assert(!ids.contains(picked));
                                if x < ids.len() - 1 {
                                    assert(m[ids[x]].last_seen >= m[ids.last()].last_seen);
                                }
                            }
                        }
                        assert forall|k: Seq<char>|
                            m.contains_key(k) && !longer.contains(k) && longer.len() > 0 implies m[longer.last()].last_seen
                            >= #[trigger] m[k].last_seen by {
                            assert(ks.contains(k));
                            let t = choose|t: int| 0 <= t < ks.len() && ks[t] == k;
                            assert(!ids.contains(k)) by {
                                if ids.contains(k) {
                                    let u = choose|u: int| 0 <= u < ids.len() && ids[u] == k;
                                    assert(longer[u] == k);
                                }
                            }
                            assert(m[ks[b as int]].last_seen >= m[ks[t]].last_seen);
                        }
                    }
                },
            }
        }
        chosen
    }

    /// The most recently seen nodes, most recent first, at most `count` of
    /// them.  A table with fewer than `MIN_NODES` nodes offers none.
    pub fn get_available_nodes(&self, count: usize) -> (r: Result<Vec<OnionNode>, DiscoveryError>)
        requires
            self.wf(),
        ensures
            r is Err <==> self.table().len() < MIN_NODES,
            r is Err ==> r == Err::<Vec<OnionNode>, DiscoveryError>(DiscoveryError::NotEnoughNodes),
            r matches Ok(nodes) ==> exists|ids: Seq<Seq<char>>|
                #[trigger] most_recent(self.table(), count as nat, ids) && nodes@.map_values(|n: OnionNode| n@)
                    == ids.map_values(|k: Seq<char>| self.table()[k].node),
    {
        proof {
            self.nodes.lemma_keys();
            assert(self.table().dom() =~= self.nodes@.dom());
        }
        if self.nodes.len() < MIN_NODES {
            return Err(DiscoveryError::NotEnoughNodes);
        }
        let chosen = self.select_recent(count);
        let ghost ids = chosen@.map_values(|s: String| s@);
        let mut selected: Vec<OnionNode> = Vec::new();
        let mut i: usize = 0;
        while i < chosen.len()
            invariant
                self.wf(),
                i <= chosen@.len(),
                ids == chosen@.map_values(|s: String| s@),
                forall|j: int| 0 <= j < ids.len() ==> #[trigger] self.table().contains_key(ids[j]),
                selected@.map_values(|n: OnionNode| n@) == ids.take(i as int).map_values(
                    |k: Seq<char>| self.table()[k].node,
                ),
            decreases chosen@.len() - i,
        {
            let ghost before = selected@;
            assert(self.table().contains_key(ids[i as int]));
            match self.nodes.get(chosen[i].as_str()) {
                Some(info) => {
                    assert(info.node@ == self.table()[ids[i as int]].node);
                    selected.push(info.node.copy());
                    assert(selected@.map_values(|n: OnionNode| n@) =~= before.map_values(|n: OnionNode| n@).push(
                        self.table()[ids[i as int]].node,
                    ));
                },
                None => {},
            }
            assert(ids.take(i + 1) =~= ids.take(i as int).push(ids[i as int]));
            i = i + 1;
        }
        assert(ids.take(i as int) =~= ids);
        Ok(selected)
    }

    /// Records new measurements of node `node_id`, seen at `now`.
    pub fn update_node_status_at(&mut self, node_id: &str, bandwidth: u64, uptime: u64, now: u64)
        requires
            old(self).wf(),
        ensures
            final(self).wf(),
            final(self).table() == updated_table(old(self).table(), node_id@, bandwidth, uptime, now),
    {
        measure_node(&mut self.nodes, node_id, bandwidth, uptime, now);
    }

    /// `update_node_status_at` at the time the process clock gives.
    pub fn update_node_status(&mut self, node_id: &str, bandwidth: u64, uptime: u64)
        requires
            old(self).wf(),
        ensures
            final(self).wf(),
            exists|now: u64| final(self).table() == #[trigger] updated_table(old(self).table(), node_id@, bandwidth, uptime, now),
    {
        let now = instant_elapsed_secs();
        self.update_node_status_at(node_id, bandwidth, uptime, now);
    }

    /// Drops the nodes that are stale at `now`.
    pub fn cleanup_stale_nodes_at(&mut self, now: u64)
        requires
            old(self).wf(),
        ensures
            final(self).wf(),
            final(self).table() == live_table(old(self).table(), now),
    {
        let ghost pre = self.table();
        let ghost pre_dom = self.nodes@.dom();
        proof {
            self.nodes.lemma_keys();
        }
        let keep = |info: &NodeInfo| -> (b: bool)
            ensures
                b == !(now > info.last_seen && now - info.last_seen > NODE_TIMEOUT_SECS),
            { !(now > info.last_seen && now - info.last_seen > NODE_TIMEOUT_SECS) };
        self.nodes.retain(
            keep,
            Ghost(|info: NodeInfo| !(now > info.last_seen && now - info.last_seen > NODE_TIMEOUT_SECS)),
        );
        assert(self.table() =~= live_table(pre, now));
        assert(self.nodes@.dom().subset_of(pre_dom));
        proof {
            vstd::set_lib::lemma_len_subset(self.nodes@.dom(), pre_dom);
        }
    }

    /// `cleanup_stale_nodes_at` at the time the process clock gives.
    pub fn cleanup_stale_nodes(&mut self)
        requires
            old(self).wf(),
        ensures
            final(self).wf(),
            exists|now: u64| final(self).table() == #[trigger] live_table(old(self).table(), now),
    {
        let now = instant_elapsed_secs();
        self.cleanup_stale_nodes_at(now);
    }
}

} // verus!

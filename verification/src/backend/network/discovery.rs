//! Discovery of relay nodes: a bounded table of known nodes with their
//! measured bandwidth and uptime, from which the best fresh nodes are picked
//! for circuits.
use crate::backend::crypto::CryptoService;
use crate::backend::network::onion::{NodeView, OnionNode};
use crate::clock::instant_elapsed_secs;
use crate::collections::{str_equals, StrMap};
use vstd::prelude::*;

verus! {

/// Seconds after which a node not seen is stale.
pub const NODE_TIMEOUT_SECS: u64 = 300;

/// The most nodes the table keeps.
pub const MAX_NODES: usize = 100;

/// The fewest nodes a selection must yield, unless fewer were asked for.
pub const MIN_NODES: usize = 10;

/// What is known of a node.
#[derive(Debug)]
pub struct NodeInfo {
    pub node: OnionNode,
    pub last_seen: u64,
    pub bandwidth: u64,
    pub uptime: u64,
}

/// The spec form of a node's record.
pub struct NodeInfoView {
    pub node: NodeView,
    pub last_seen: u64,
    pub bandwidth: u64,
    pub uptime: u64,
}

impl View for NodeInfo {
    type V = NodeInfoView;

    open spec fn view(&self) -> NodeInfoView {
        NodeInfoView { node: self.node@, last_seen: self.last_seen, bandwidth: self.bandwidth, uptime: self.uptime }
    }
}

impl NodeInfo {
    /// A copy of the record.
    pub fn copy(&self) -> (r: NodeInfo)
        ensures
            r@ == self@,
    {
        NodeInfo {
            node: self.node.copy(),
            last_seen: self.last_seen,
            bandwidth: self.bandwidth,
            uptime: self.uptime,
        }
    }
}

/// Failures of node selection.
#[derive(Debug, Clone, Copy, PartialEq, Eq)]
pub enum DiscoveryError {
    NotEnoughNodes,
}

/// `n` was seen within the timeout before `now`.
pub open spec fn is_fresh(n: NodeInfoView, now: u64) -> bool {
    now - n.last_seen < NODE_TIMEOUT_SECS
}

/// `a` ranks at least as high as `b`: more bandwidth, then more uptime.
pub open spec fn ranks_at_least(a: NodeInfoView, b: NodeInfoView) -> bool {
    a.bandwidth > b.bandwidth || (a.bandwidth == b.bandwidth && a.uptime >= b.uptime)
}

/// `ids` are the best fresh nodes of `m` at `now`, at most `count` of them,
/// best first: no node is left out unless `count` were taken and it ranks
/// no higher than the last one taken.
pub open spec fn best_fresh(m: Map<Seq<char>, NodeInfoView>, now: u64, count: nat, ids: Seq<Seq<char>>) -> bool {
    &&& ids.no_duplicates()
    &&& ids.len() <= count
    &&& forall|i: int| 0 <= i < ids.len() ==> m.contains_key(#[trigger] ids[i]) && is_fresh(m[ids[i]], now)
    &&& forall|i: int, j: int| 0 <= i < j < ids.len() ==> ranks_at_least(m[#[trigger] ids[i]], m[#[trigger] ids[j]])
    &&& forall|k: Seq<char>|
        m.contains_key(k) && is_fresh(m[k], now) && !ids.contains(k) ==> ids.len() == count && (ids.len() > 0
            ==> ranks_at_least(m[ids.last()], #[trigger] m[k]))
}

/// The table after node `id` was measured at `now`.
pub open spec fn updated_table(
    m: Map<Seq<char>, NodeInfoView>,
    id: Seq<char>,
    bandwidth: u64,
    uptime: u64,
    now: u64,
) -> Map<Seq<char>, NodeInfoView> {
    if m.contains_key(id) {
        m.insert(id, NodeInfoView { last_seen: now, bandwidth, uptime, ..m[id] })
    } else {
        m
    }
}

/// The nodes of `m` that are fresh at `now`.
pub open spec fn fresh_table(m: Map<Seq<char>, NodeInfoView>, now: u64) -> Map<Seq<char>, NodeInfoView> {
    Map::new(|k: Seq<char>| m.contains_key(k) && is_fresh(m[k], now), |k: Seq<char>| m[k])
}

/// The fewest nodes a selection of `count` must yield.
pub open spec fn required_nodes(count: nat) -> nat {
    if count < MIN_NODES {
        count
    } else {
        MIN_NODES as nat
    }
}

/// A selection that finds at least `MIN_NODES` fresh nodes succeeds, whatever
/// count was asked for; so does every selection from a table that holds at
/// least `MIN_NODES` fresh nodes.  `ids` are the nodes a selection of `count`
/// at `now` finds, and `ok` whether it succeeds.
pub proof fn law_enough_fresh_nodes_succeed(
    m: Map<Seq<char>, NodeInfoView>,
    now: u64,
    count: nat,
    ids: Seq<Seq<char>>,
    ok: bool,
)
    requires
        m.dom().finite(),
        best_fresh(m, now, count, ids),
        ok <==> ids.len() >= required_nodes(count),
    ensures
        ids.len() >= MIN_NODES ==> ok,
        fresh_table(m, now).len() >= MIN_NODES ==> ok,
{
    let fresh = fresh_table(m, now);
    if fresh.len() >= MIN_NODES && ids.len() < count {
        assert(fresh.dom().subset_of(m.dom()));
        vstd::set_lib::lemma_len_subset(fresh.dom(), m.dom());
        assert forall|k: Seq<char>| fresh.dom().contains(k) implies ids.to_set().contains(k) by {
            assert(m.contains_key(k) && is_fresh(m[k], now));
            if !ids.contains(k) {
                assert(ids.len() == count);
            }
        }
        ids.unique_seq_to_set();
        vstd::set_lib::lemma_len_subset(fresh.dom(), ids.to_set());
    }
}

/// Whether `id` is among `ids`.
pub fn contains_id(ids: &Vec<String>, id: &str) -> (b: bool)
    ensures
        b == ids@.map_values(|s: String| s@).contains(id@),
{
    let ghost names = ids@.map_values(|s: String| s@);
    let mut i: usize = 0;
    while i < ids.len()
        invariant
            i <= ids@.len(),
            names == ids@.map_values(|s: String| s@),
            forall|j: int| 0 <= j < i ==> names[j] != id@,
        decreases ids@.len() - i,
    {
        if str_equals(id, &ids[i]) {
            assert(names[i as int] == id@);
            return true;
        }
        i = i + 1;
    }
    false
}

/// The view of a table of nodes: node id to record.
pub open spec fn node_table(nodes: StrMap<NodeInfo>) -> Map<Seq<char>, NodeInfoView> {
    nodes@.map_values(|n: NodeInfo| n@)
}

/// A table of nodes is well formed, holds at most `MAX_NODES` nodes, and
/// files each node under its own id.
pub open spec fn table_wf(nodes: StrMap<NodeInfo>) -> bool {
    &&& nodes.wf()
    &&& nodes@.dom().len() <= MAX_NODES
    &&& forall|k: Seq<char>| #[trigger] nodes@.contains_key(k) ==> nodes@[k].node.id@ == k
}

/// `post` is `pre` with `node` recorded as seen at `now` and no measurements
/// yet; a full table first drops a node seen least recently.
pub open spec fn node_recorded(
    pre: Map<Seq<char>, NodeInfoView>,
    post: Map<Seq<char>, NodeInfoView>,
    node: NodeView,
    now: u64,
) -> bool {
    let info = NodeInfoView { node, last_seen: now, bandwidth: 0, uptime: 0 };
    if pre.len() < MAX_NODES {
        post == pre.insert(node.id, info)
    } else {
        exists|k: Seq<char>|
            #![trigger pre.remove(k)]
            pre.contains_key(k) && (forall|j: Seq<char>| #[trigger] pre.contains_key(j) ==> pre[k].last_seen <= pre[j].last_seen)
                && post == pre.remove(k).insert(node.id, info)
    }
}

/// Recording a node makes it known, seen at the time of recording and not
/// yet measured; every other node it keeps is kept unchanged; and a table of
/// at most `MAX_NODES` nodes stays within `MAX_NODES`.
pub proof fn law_recorded_node_known(
    pre: Map<Seq<char>, NodeInfoView>,
    post: Map<Seq<char>, NodeInfoView>,
    node: NodeView,
    now: u64,
)
    requires
        pre.dom().finite(),
        pre.len() <= MAX_NODES,
        node_recorded(pre, post, node, now),
    ensures
        post.contains_key(node.id),
        post[node.id] == (NodeInfoView { node, last_seen: now, bandwidth: 0, uptime: 0 }),
        forall|j: Seq<char>| #[trigger] post.contains_key(j) && j != node.id ==> pre.contains_key(j) && post[j] == pre[j],
        post.dom().finite(),
        post.len() <= MAX_NODES,
{
    let info = NodeInfoView { node, last_seen: now, bandwidth: 0, uptime: 0 };
    if pre.len() < MAX_NODES {
        assert(post == pre.insert(node.id, info));
        if pre.contains_key(node.id) {
            assert(post.dom() =~= pre.dom());
        }
    } else {
        let k = choose|k: Seq<char>|
            #![trigger pre.remove(k)]
            pre.contains_key(k) && (forall|j: Seq<char>| #[trigger] pre.contains_key(j) ==> pre[k].last_seen <= pre[j].last_seen)
                && post == pre.remove(k).insert(node.id, info);
        let rest = pre.remove(k);
        assert(rest.len() == pre.len() - 1);
        if rest.contains_key(node.id) {
            assert(post.dom() =~= rest.dom());
        }
    }
}

/// The id of a node seen least recently; ties go to the first stored.
pub fn oldest_node(nodes: &StrMap<NodeInfo>) -> (r: Option<String>)
    requires
        nodes.wf(),
    ensures
        r is None <==> nodes@.dom().len() == 0,
        r matches Some(k) ==> nodes@.contains_key(k@) && forall|j: Seq<char>|
            #[trigger] nodes@.contains_key(j) ==> nodes@[k@].last_seen <= nodes@[j].last_seen,
{
    proof {
        nodes.lemma_keys();
    }
    let n = nodes.len();
    if n == 0 {
        return None;
    }
    let ghost ks = nodes.key_seq();
    let mut best: usize = 0;
    let mut i: usize = 1;
    while i < n
        invariant
            nodes.wf(),
            ks == nodes.key_seq(),
            n == ks.len(),
            n == nodes@.dom().len(),
            forall|k: Seq<char>| nodes@.contains_key(k) <==> #[trigger] ks.contains(k),
            1 <= i <= n,
            best < i,
            forall|j: int| 0 <= j < i ==> nodes@[ks[best as int]].last_seen <= #[trigger] nodes@[ks[j]].last_seen,
        decreases n - i,
    {
        let _ = nodes.key_at(i);
        if nodes.value_at(i).last_seen < nodes.value_at(best).last_seen {
            best = i;
        }
        i = i + 1;
    }
    let key = nodes.key_at(best).clone();
    proof {
        assert forall|j: Seq<char>| #[trigger] nodes@.contains_key(j) implies nodes@[key@].last_seen
            <= nodes@[j].last_seen by {
            assert(ks.contains(j));
            let t = choose|t: int| 0 <= t < ks.len() && ks[t] == j;
            assert(nodes@[ks[best as int]].last_seen <= nodes@[ks[t]].last_seen);
        }
    }
    Some(key)
}

/// Records `node` in the table as seen at `now`; see `node_recorded`.
pub fn record_node(nodes: &mut StrMap<NodeInfo>, node: OnionNode, now: u64)
    requires
        table_wf(*old(nodes)),
    ensures
        table_wf(*final(nodes)),
        node_recorded(node_table(*old(nodes)), node_table(*final(nodes)), node@, now),
{
    let ghost pre = node_table(*nodes);
    let ghost pre_dom = nodes@.dom();
    proof {
        nodes.lemma_keys();
        assert(pre.dom() =~= pre_dom);
    }
    let id = node.id.clone();
    let ghost info = NodeInfoView { node: node@, last_seen: now, bandwidth: 0, uptime: 0 };
    if nodes.len() >= MAX_NODES {
        match oldest_node(nodes) {
            Some(key) => {
                let ghost k = key@;
                proof {
                    assert forall|j: Seq<char>| #[trigger] pre.contains_key(j) implies pre[k].last_seen
                        <= pre[j].last_seen by {
                        assert(nodes@.contains_key(j));
                    }
                }
                let _ = nodes.remove(key.as_str());
                nodes.insert(id, NodeInfo { node, last_seen: now, bandwidth: 0, uptime: 0 });
                proof {
                    assert(node_table(*nodes) =~= pre.remove(k).insert(info.node.id, info));
                    assert(pre_dom.remove(k).len() < MAX_NODES);
                    assert(nodes@.dom() =~= pre_dom.remove(k).insert(info.node.id));
                }
            },
            None => {
                assert(false);
            },
        }
    } else {
        nodes.insert(id, NodeInfo { node, last_seen: now, bandwidth: 0, uptime: 0 });
        proof {
            assert(node_table(*nodes) =~= pre.insert(info.node.id, info));
            assert(nodes@.dom() =~= pre_dom.insert(info.node.id));
        }
    }
}

/// Forgets the node `node_id`.
pub fn forget_node(nodes: &mut StrMap<NodeInfo>, node_id: &str)
    requires
        table_wf(*old(nodes)),
    ensures
        table_wf(*final(nodes)),
        node_table(*final(nodes)) == node_table(*old(nodes)).remove(node_id@),
{
    let ghost pre = node_table(*nodes);
    let ghost pre_dom = nodes@.dom();
    proof {
        nodes.lemma_keys();
    }
    let _ = nodes.remove(node_id);
    assert(node_table(*nodes) =~= pre.remove(node_id@));
    assert(nodes@.dom().subset_of(pre_dom));
    proof {
        vstd::set_lib::lemma_len_subset(nodes@.dom(), pre_dom);
    }
}

/// Records new measurements of node `node_id`, seen at `now`.
pub fn measure_node(nodes: &mut StrMap<NodeInfo>, node_id: &str, bandwidth: u64, uptime: u64, now: u64)
    requires
        table_wf(*old(nodes)),
    ensures
        table_wf(*final(nodes)),
        node_table(*final(nodes)) == updated_table(node_table(*old(nodes)), node_id@, bandwidth, uptime, now),
{
    let ghost pre = node_table(*nodes);
    let ghost pre_dom = nodes@.dom();
    let ghost stored = nodes@;
    match nodes.remove(node_id) {
        Some(info) => {
            assert(stored.contains_key(node_id@));
            assert(info.node.id@ == node_id@);
            let updated = NodeInfo { last_seen: now, bandwidth, uptime, ..info };
            nodes.insert(node_id.to_owned(), updated);
            assert(node_table(*nodes) =~= updated_table(pre, node_id@, bandwidth, uptime, now));
            assert(nodes@.dom() =~= pre_dom);
            assert forall|k: Seq<char>| #[trigger] nodes@.contains_key(k) implies nodes@[k].node.id@ == k by {
                if k != node_id@ {
                    assert(stored.contains_key(k));
                    assert(nodes@[k] == stored[k]);
                }
            }
        },
        None => {
            assert(nodes@ =~= stored);
            assert(node_table(*nodes) =~= pre);
        },
    }
}

/// The table of known nodes, by node id.
#[derive(Debug)]
pub struct NodeDiscovery {
    pub nodes: StrMap<NodeInfo>,
    pub crypto_service: CryptoService,
}

impl NodeDiscovery {
    /// The table's view: node id to record.
    pub open spec fn table(&self) -> Map<Seq<char>, NodeInfoView> {
        node_table(self.nodes)
    }

    /// The table is well formed.
    pub open spec fn wf(&self) -> bool {
        table_wf(self.nodes)
    }

    /// An empty table.
    pub fn new(crypto_service: CryptoService) -> (d: Self)
        ensures
            d.wf(),
            d.table() == Map::<Seq<char>, NodeInfoView>::empty(),
    {
        let d = NodeDiscovery { nodes: StrMap::new(), crypto_service };
        assert(d.table() =~= Map::<Seq<char>, NodeInfoView>::empty());
        d
    }

    /// Records `node` as seen at `now` with no measurements yet; a full table
    /// first drops a node seen least recently.
    pub fn add_node_at(&mut self, node: OnionNode, now: u64)
        requires
            old(self).wf(),
        ensures
            final(self).wf(),
            node_recorded(old(self).table(), final(self).table(), node@, now),
    {
        record_node(&mut self.nodes, node, now);
    }

    /// `add_node_at` at the time the process clock gives.
    pub fn add_node(&mut self, node: OnionNode)
        requires
            old(self).wf(),
        ensures
            final(self).wf(),
            exists|now: u64| #[trigger] node_recorded(old(self).table(), final(self).table(), node@, now),
    {
        let now = instant_elapsed_secs();
        let ghost v = node@;
        self.add_node_at(node, now);
        assert(node_recorded(old(self).table(), self.table(), v, now));
    }

    /// Forgets the node `node_id`.
    pub fn remove_node(&mut self, node_id: &str)
        requires
            old(self).wf(),
        ensures
            final(self).wf(),
            final(self).table() == old(self).table().remove(node_id@),
    {
        forget_node(&mut self.nodes, node_id);
    }

    /// Records new measurements of node `node_id`, seen at `now`.
    pub fn update_node_info_at(&mut self, node_id: &str, bandwidth: u64, uptime: u64, now: u64)
        requires
            old(self).wf(),
        ensures
            final(self).wf(),
            final(self).table() == updated_table(old(self).table(), node_id@, bandwidth, uptime, now),
    {
        measure_node(&mut self.nodes, node_id, bandwidth, uptime, now);
    }

    /// `update_node_info_at` at the time the process clock gives.
    pub fn update_node_info(&mut self, node_id: &str, bandwidth: u64, uptime: u64)
        requires
            old(self).wf(),
        ensures
            final(self).wf(),
            exists|now: u64| final(self).table() == #[trigger] updated_table(old(self).table(), node_id@, bandwidth, uptime, now),
    {
        let now = instant_elapsed_secs();
        self.update_node_info_at(node_id, bandwidth, uptime, now);
    }

    /// The number of known nodes.
    pub fn get_node_count(&self) -> (n: usize)
        requires
            self.wf(),
        ensures
            n == self.table().len(),
    {
        proof {
            self.nodes.lemma_keys();
            assert(self.table().dom() =~= self.nodes@.dom());
        }
        self.nodes.len()
    }

    /// The ids of the best fresh nodes at `now`, at most `count`.
    fn select_best(&self, count: usize, now: u64) -> (ids: Vec<String>)
        requires
            self.wf(),
        ensures
            best_fresh(self.table(), now, count as nat, ids@.map_values(|s: String| s@)),
    {
        proof {
            self.nodes.lemma_keys();
        }
        let ghost m = self.table();
        let ghost ks = self.nodes.key_seq();
        let n = self.nodes.len();
        let mut chosen: Vec<String> = Vec::new();
        let mut done = false;
        while chosen.len() < count && !done
            invariant
                self.wf(),
                m == self.table(),
                ks == self.nodes.key_seq(),
                n == ks.len(),
                n == self.nodes@.dom().len(),
                forall|k: Seq<char>| self.nodes@.contains_key(k) <==> #[trigger] ks.contains(k),
                chosen@.len() <= count,
                ({
                    let ids = chosen@.map_values(|s: String| s@);
                    &&& ids.no_duplicates()
                    &&& forall|i: int| 0 <= i < ids.len() ==> m.contains_key(#[trigger] ids[i]) && is_fresh(m[ids[i]], now)
                    &&& forall|i: int, j: int|
                        0 <= i < j < ids.len() ==> ranks_at_least(m[#[trigger] ids[i]], m[#[trigger] ids[j]])
                    &&& forall|k: Seq<char>|
                        m.contains_key(k) && is_fresh(m[k], now) && !ids.contains(k) && ids.len() > 0 ==> ranks_at_least(
                            m[ids.last()],
                            #[trigger] m[k],
                        )
                    &&& done ==> forall|k: Seq<char>|
                        m.contains_key(k) && is_fresh(m[k], now) ==> #[trigger] ids.contains(k)
                }),
            decreases count - chosen@.len() + if done {
                0int
            } else {
                1int
            },
        {
            let ghost ids = chosen@.map_values(|s: String| s@);
            let mut best: Option<usize> = None;
            let mut i: usize = 0;
            while i < n
                invariant
                    self.wf(),
                    m == self.table(),
                    ks == self.nodes.key_seq(),
                    n == ks.len(),
                    n == self.nodes@.dom().len(),
                    ids == chosen@.map_values(|s: String| s@),
                    i <= n,
                    best matches Some(b) ==> b < i && m.contains_key(ks[b as int]) && is_fresh(m[ks[b as int]], now)
                        && !ids.contains(ks[b as int]),
                    forall|j: int|
                        0 <= j < i && is_fresh(m[ks[j]], now) && !ids.contains(#[trigger] ks[j]) ==> (best matches Some(
                            b,
                        ) && ranks_at_least(m[ks[b as int]], m[ks[j]])),
                decreases n - i,
            {
                let key = self.nodes.key_at(i);
                let info = self.nodes.value_at(i);
                let fresh = info.last_seen > now || now - info.last_seen < NODE_TIMEOUT_SECS;
                if fresh && !contains_id(&chosen, key.as_str()) {
                    match best {
                        None => {
                            best = Some(i);
                        },
                        Some(b) => {
                            let current = self.nodes.value_at(b);
                            if info.bandwidth > current.bandwidth || (info.bandwidth == current.bandwidth
                                && info.uptime > current.uptime) {
                                best = Some(i);
                            }
                        },
                    }
                }
                i = i + 1;
            }
            match best {
                None => {
                    done = true;
                    proof {
                        assert forall|k: Seq<char>| m.contains_key(k) && is_fresh(m[k], now) implies #[trigger] ids.contains(
                            k,
                        ) by {
                            assert(ks.contains(k));
                            let t = choose|t: int| 0 <= t < ks.len() && ks[t] == k;
                            if !ids.contains(ks[t]) {
                                assert(best is Some);
                            }
                        }
                    }
                },
                Some(b) => {
                    let ghost picked = ks[b as int];
                    chosen.push(self.nodes.key_at(b).clone());
                    proof {
                        let longer = chosen@.map_values(|s: String| s@);
                        assert(longer =~= ids.push(picked));
                        assert forall|x: int, y: int| 0 <= x < longer.len() && 0 <= y < longer.len() && x != y implies longer[x]
                            != longer[y] by {
                            if x == ids.len() {
                                assert(ids.contains(ids[y]));
                            } else if y == ids.len() {
                                assert(ids.contains(ids[x]));
                            }
                        }
                        assert forall|x: int, y: int|
                            0 <= x < y < longer.len() implies ranks_at_least(m[#[trigger] longer[x]], m[#[trigger] longer[y]]) by {
                            if y == ids.len() {
                                assert(!ids.contains(picked));
                                if x < ids.len() - 1 {
                                    assert(ranks_at_least(m[ids[x]], m[ids.last()]));
                                }
                            }
                        }
                        assert forall|k: Seq<char>|
                            m.contains_key(k) && is_fresh(m[k], now) && !longer.contains(k) && longer.len() > 0 implies ranks_at_least(
                            m[longer.last()],
                            #[trigger] m[k],
                        ) by {
                            assert(ks.contains(k));
                            let t = choose|t: int| 0 <= t < ks.len() && ks[t] == k;
                            assert(!ids.contains(k)) by {
                                if ids.contains(k) {
                                    let u = choose|u: int| 0 <= u < ids.len() && ids[u] == k;
                                    assert(longer[u] == k);
                                }
                            }
                            assert(ranks_at_least(m[ks[b as int]], m[ks[t]]));
                        }
                    }
                },
            }
        }
        chosen
    }

    /// The best fresh nodes at `now`, best first, at most `count` of them:
    /// highest bandwidth first, then longest uptime.  Fails when fewer than
    /// `count` and fewer than `MIN_NODES` are found.
    pub fn get_available_nodes_at(&self, count: usize, now: u64) -> (r: Result<Vec<OnionNode>, DiscoveryError>)
        requires
            self.wf(),
        ensures
            exists|ids: Seq<Seq<char>>|
                #[trigger] best_fresh(self.table(), now, count as nat, ids) && (r is Ok <==> ids.len()
                    >= required_nodes(count as nat)) && (r matches Ok(nodes) ==> nodes@.map_values(
                    |n: OnionNode| n@,
                ) == ids.map_values(|k: Seq<char>| self.table()[k].node)),
            r is Err ==> r == Err::<Vec<OnionNode>, DiscoveryError>(DiscoveryError::NotEnoughNodes),
            fresh_table(self.table(), now).len() >= MIN_NODES ==> r is Ok,
    {
        let chosen = self.select_best(count, now);
        let ghost ids = chosen@.map_values(|s: String| s@);
        let required = if count < MIN_NODES {
            count
        } else {
            MIN_NODES
        };
        if chosen.len() < required {
            proof {
                self.nodes.lemma_keys();
                assert(self.table().dom() =~= self.nodes@.dom());
                law_enough_fresh_nodes_succeed(self.table(), now, count as nat, ids, false);
            }
            return Err(DiscoveryError::NotEnoughNodes);
        }
        let mut selected: Vec<OnionNode> = Vec::new();
        let mut i: usize = 0;
        while i < chosen.len()
            invariant
                self.wf(),
                i <= chosen@.len(),
                ids == chosen@.map_values(|s: String| s@),
                forall|j: int| 0 <= j < ids.len() ==> #[trigger] self.table().contains_key(ids[j]),
                selected@.map_values(|n: OnionNode| n@) == ids.take(i as int).map_values(
                    |k: Seq<char>| self.table()[k].node,
                ),
            decreases chosen@.len() - i,
        {
            let ghost before = selected@;
            assert(self.table().contains_key(ids[i as int]));
            match self.nodes.get(chosen[i].as_str()) {
                Some(info) => {
                    assert(info.node@ == self.table()[ids[i as int]].node);
                    selected.push(info.node.copy());
                    assert(selected@.map_values(|n: OnionNode| n@) =~= before.map_values(|n: OnionNode| n@).push(
                        self.table()[ids[i as int]].node,
                    ));
                },
                None => {},
            }
            assert(ids.take(i + 1) =~= ids.take(i as int).push(ids[i as int]));
            assert(selected@.map_values(|n: OnionNode| n@) =~= ids.take(i + 1).map_values(
                |k: Seq<char>| self.table()[k].node,
            ));
            i = i + 1;
        }
        assert(ids.take(i as int) =~= ids);
        Ok(selected)
    }

    /// `get_available_nodes_at` at the time the process clock gives.
    pub fn get_available_nodes(&self, count: usize) -> (r: Result<Vec<OnionNode>, DiscoveryError>)
        requires
            self.wf(),
        ensures
            exists|now: u64, ids: Seq<Seq<char>>|
                #[trigger] best_fresh(self.table(), now, count as nat, ids) && (r is Ok <==> ids.len()
                    >= required_nodes(count as nat)) && (r matches Ok(nodes) ==> nodes@.map_values(
                    |n: OnionNode| n@,
                ) == ids.map_values(|k: Seq<char>| self.table()[k].node)),
    {
        let now = instant_elapsed_secs();
        self.get_available_nodes_at(count, now)
    }

    /// Drops the nodes that are stale at `now`.
    pub fn cleanup_stale_nodes_at(&mut self, now: u64)
        requires
            old(self).wf(),
        ensures
            final(self).wf(),
            final(self).table() == fresh_table(old(self).table(), now),
    {
        let ghost pre = self.table();
        let ghost pre_dom = self.nodes@.dom();
        proof {
            self.nodes.lemma_keys();
        }
        let keep = |info: &NodeInfo| -> (b: bool)
            ensures
                b == (now - info.last_seen < 300),
            { info.last_seen > now || now - info.last_seen < 300 };
        self.nodes.retain(keep, Ghost(|info: NodeInfo| now - info.last_seen < 300));
        assert(self.table() =~= fresh_table(pre, now));
        assert(self.nodes@.dom().subset_of(pre_dom));
        proof {
            vstd::set_lib::lemma_len_subset(self.nodes@.dom(), pre_dom);
        }
    }

    /// `cleanup_stale_nodes_at` at the time the process clock gives.
    pub fn cleanup_stale_nodes(&mut self)
        requires
            old(self).wf(),
        ensures
            final(self).wf(),
            exists|now: u64| final(self).table() == #[trigger] fresh_table(old(self).table(), now),
    {
        let now = instant_elapsed_secs();
        self.cleanup_stale_nodes_at(now);
    }
}

} // verus!

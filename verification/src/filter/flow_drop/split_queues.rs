//! Per-port split-queue lookup for per-flow queue rules.
//!
//! Split queue ids are per port: each port numbers its queues from zero, sinks first, then a
//! receive queue and a split queue for each core in sorted order. A queue id derived from one
//! port's core list therefore means something different on another port, and may not exist there
//! at all.
//!
//! A per-flow rule is installed on every port, so each rule needs one queue id per port: the exact
//! split queue of the core that saw the flow on that core's own port, and a same-index split queue,
//! wrapped to the port's core count, on every other port.

use crate::lcore::CoreId;
use crate::sorted;
use std::collections::HashMap;
use vstd::prelude::*;

verus! {

/// A port's part of the configuration.
#[derive(Debug)]
pub struct PortMap {
    /// PCI address.
    pub device: String,
    /// Cores that poll the port.
    pub cores: Vec<u32>,
    /// Number of sink queues.
    pub sinks: usize,
}

/// The online configuration, as far as queues go.
#[derive(Debug)]
pub struct OnlineConfig {
    pub ports: Vec<PortMap>,
}

impl PortMap {
    /// The cores, each once, ascending.
    pub open spec fn core_list(self) -> Seq<u32> {
        sorted::sorted_set(self.cores@)
    }

    /// The first queue id after the sinks, in 16 bits.
    pub open spec fn base(self) -> nat {
        self.sinks as nat % 0x1_0000
    }

    /// Every queue id fits in 16 bits.
    pub open spec fn fits(self) -> bool {
        self.base() + 2 * self.core_list().len() <= 0x1_0000
    }

    /// The split queue of the core at position `k`.
    pub open spec fn split_queue(self, k: int) -> u16 {
        (self.base() + 2 * k + 1) as u16
    }

    /// The split queues of every core.
    pub open spec fn split_queues(self) -> Seq<u16> {
        Seq::new(self.core_list().len(), |k: int| self.split_queue(k))
    }
}

/// Where `core` is among the first `n` ports: the last port that it polls, and its position there.
pub open spec fn located(ports: Seq<PortMap>, core: u32, n: nat) -> Option<(usize, usize)>
    decreases n,
{
    if n == 0 {
        None
    } else if ports[n - 1].cores@.contains(core) {
        Some(((n - 1) as usize, sorted::place(ports[n - 1].core_list(), core) as usize))
    } else {
        located(ports, core, (n - 1) as nat)
    }
}

/// Maps the RX core that saw a flow to one split queue id per port.
#[derive(Debug, Clone)]
pub struct SplitQueueMap {
    /// Split queue ids per port, in config port order, each in core order.
    pub port_queues: Vec<Vec<u16>>,
    /// Core to port index and index of the core within that port's core list.
    pub core_loc: HashMap<u32, (usize, usize)>,
}

impl SplitQueueMap {
    /// The map describes `ports`.
    pub open spec fn built_from(self, ports: Seq<PortMap>) -> bool {
        &&& self.port_queues@.len() == ports.len()
        &&& forall|p: int|
            0 <= p < ports.len() ==> (#[trigger] self.port_queues@[p])@ == ports[p].split_queues()
        &&& forall|core: u32| #[trigger]
            self.core_loc@.dom().contains(core) <==> located(ports, core, ports.len()) is Some
        &&& forall|core: u32|
            self.core_loc@.dom().contains(core) ==> located(ports, core, ports.len()) == Some(
                #[trigger] self.core_loc@[core],
            )
    }

    /// Every location is that of a queue.
    pub open spec fn wf(self) -> bool {
        forall|core: u32|
            self.core_loc@.dom().contains(core) ==> (#[trigger] self.core_loc@[core]).0
                < self.port_queues@.len() && self.core_loc@[core].1
                < self.port_queues@[self.core_loc@[core].0 as int]@.len()
    }

    /// The position of `core`'s queue on port `p`.
    pub open spec fn position(self, core: u32, p: int) -> int {
        let (own_port, k) = self.core_loc@[core];
        if p == own_port {
            k as int
        } else {
            k as int % self.port_queues@[p]@.len() as int
        }
    }

    /// One split queue id per port for the flows that `core` sees.
    pub open spec fn steer(self, core: u32) -> Option<Seq<u16>> {
        if !self.core_loc@.dom().contains(core) || exists|p: int|
            0 <= p < self.port_queues@.len() && (#[trigger] self.port_queues@[p])@.len() == 0 {
            None
        } else {
            Some(
                Seq::new(
                    self.port_queues@.len(),
                    |p: int| self.port_queues@[p]@[self.position(core, p)],
                ),
            )
        }
    }

    /// Whether every queue id of every port fits in 16 bits.
    pub fn fits(online: &OnlineConfig) -> (fits: bool)
        ensures
            fits == (forall|p: int|
                0 <= p < online.ports@.len() ==> (#[trigger] online.ports@[p]).fits()),
    {
        let mut p: usize = 0;
        while p < online.ports.len()
            invariant
                p <= online.ports@.len(),
                forall|q: int| 0 <= q < p ==> (#[trigger] online.ports@[q]).fits(),
            decreases online.ports@.len() - p,
        {
            let port = &online.ports[p];
            let cores: usize = sorted::sort_distinct(&port.cores).len();
            let base: usize = port.sinks % 0x1_0000;
            if cores > 0x8000 || base + 2 * cores > 0x1_0000 {
                proof {
                    assert(!online.ports@[p as int].fits());
                }
                return false;
            }
            p = p + 1;
        }
        true
    }

    /// Build the map. Sink queues come first, then each core in sorted order takes a receive queue
    /// followed by a split queue.
    pub fn from_config(online: &OnlineConfig) -> (map: SplitQueueMap)
        requires
            forall|p: int| 0 <= p < online.ports@.len() ==> (#[trigger] online.ports@[p]).fits(),
        ensures
            map.built_from(online.ports@),
            map.wf(),
    {
        let mut port_queues: Vec<Vec<u16>> = Vec::new();
        let mut core_loc: HashMap<u32, (usize, usize)> = HashMap::new();
        let ghost ports = online.ports@;
        let mut p: usize = 0;
        proof {
            broadcast use vstd::std_specs::hash::group_hash_axioms;

        }
        while p < online.ports.len()
            invariant
                p <= online.ports@.len(),
                ports == online.ports@,
                forall|q: int| 0 <= q < ports.len() ==> (#[trigger] ports[q]).fits(),
                port_queues@.len() == p,
                forall|q: int|
                    0 <= q < p ==> (#[trigger] port_queues@[q])@ == ports[q].split_queues(),
                forall|core: u32| #[trigger]
                    core_loc@.dom().contains(core) <==> located(ports, core, p as nat) is Some,
                forall|core: u32|
                    core_loc@.dom().contains(core) ==> located(ports, core, p as nat) == Some(
                        #[trigger] core_loc@[core],
                    ),
            decreases online.ports@.len() - p,
        {
            broadcast use vstd::std_specs::hash::group_hash_axioms;

            let port = &online.ports[p];
            let ghost before = core_loc@;
            let base: u16 = (port.sinks % 0x1_0000) as u16;
            let cores = sorted::sort_distinct(&port.cores);
            let ghost list = cores@;
            let mut queues: Vec<u16> = Vec::new();
            let mut k: usize = 0;
            proof {
                assert(port.fits());
                sorted::law_sorted_set(port.cores@);
            }
            while k < cores.len()
                invariant
                    k <= cores@.len(),
                    list == cores@,
                    list == port.core_list(),
                    sorted::ascending(list),
                    base == port.base(),
                    port.fits(),
                    queues@.len() == k,
                    forall|j: int| 0 <= j < k ==> #[trigger] queues@[j] == port.split_queue(j),
                    forall|core: u32| #[trigger]
                        core_loc@.dom().contains(core) <==> before.dom().contains(core)
                            || list.take(k as int).contains(core),
                    forall|core: u32|
                        core_loc@.dom().contains(core) ==> #[trigger] core_loc@[core] == if list.take(
                            k as int,
                        ).contains(core) {
                            (p, sorted::place(list, core) as usize)
                        } else {
                            before[core]
                        },
                decreases cores@.len() - k,
            {
                broadcast use vstd::std_specs::hash::group_hash_axioms;

                proof {
                    let x = list[k as int];
                    assert(list.contains(x));
                    sorted::lemma_member_at_its_place(list, x);
                    assert(sorted::place(list, x) == k) by {
                        let at = sorted::place(list, x) as int;
                        if at < k {
                            assert(list[at] < list[k as int]);
                        } else if at > k {
                            assert(list[k as int] < list[at]);
                        }
                    }
                    let head = list.take(k as int);
                    let more = list.take(k + 1);
                    assert forall|core: u32| #[trigger]
                        more.contains(core) <==> head.contains(core) || core == x by {
                        if more.contains(core) {
                            let i = choose|i: int| 0 <= i < more.len() && more[i] == core;
                            if i < k {
                                assert(head[i] == core);
                            }
                        }
                        if head.contains(core) {
                            let i = choose|i: int| 0 <= i < head.len() && head[i] == core;
                            assert(more[i] == core);
                        }
                        assert(more[k as int] == x);
                    }
                }
                queues.push(base + k as u16 * 2 + 1);
                core_loc.insert(cores[k], (p, k));
                k = k + 1;
            }
            proof {
                assert(list.take(k as int) =~= list);
                assert(queues@ =~= port.split_queues());
                assert forall|core: u32| #[trigger]
                    core_loc@.dom().contains(core) <==> located(
                        ports,
                        core,
                        (p + 1) as nat,
                    ) is Some by {
                    assert(list.contains(core) <==> port.cores@.contains(core));
                    assert(before.dom().contains(core) <==> located(ports, core, p as nat) is Some);
                }
                assert forall|core: u32|
                    core_loc@.dom().contains(core) implies located(ports, core, (p + 1) as nat)
                    == Some(#[trigger] core_loc@[core]) by {
                    assert(list.contains(core) <==> port.cores@.contains(core));
                    assert(before.dom().contains(core) ==> located(ports, core, p as nat) == Some(
                        before[core],
                    ));
                }
            }
            port_queues.push(queues);
            p = p + 1;
        }
        let map = SplitQueueMap { port_queues, core_loc };
        proof {
            assert forall|core: u32| map.core_loc@.dom().contains(core) implies (
            #[trigger] map.core_loc@[core]).0 < map.port_queues@.len() && map.core_loc@[core].1
                < map.port_queues@[map.core_loc@[core].0 as int]@.len() by {
                lemma_located(ports, core, ports.len());
                let q = map.core_loc@[core].0 as int;
                assert(map.port_queues@[q]@ == ports[q].split_queues());
            }
        }
        map
    }

    /// One split queue id per port, in config port order.
    ///
    /// `None` if `core` polls no port, or if some port has no cores and hence no split queue to
    /// steer that port's copy of the rule to.
    pub fn queues_for(&self, core: CoreId) -> (queues: Option<Vec<u16>>)
        requires
            self.wf(),
        ensures
            match queues {
                Some(q) => self.steer(core.0) == Some(q@),
                None => self.steer(core.0) is None,
            },
    {
        broadcast use vstd::std_specs::hash::group_hash_axioms;

        let (own_port, k) = match self.core_loc.get(&core.0) {
            Some(location) => *location,
            None => {
                return None;
            },
        };
        let mut queues: Vec<u16> = Vec::new();
        let mut p: usize = 0;
        while p < self.port_queues.len()
            invariant
                p <= self.port_queues@.len(),
                self.wf(),
                self.core_loc@.dom().contains(core.0),
                self.core_loc@[core.0] == (own_port, k),
                queues@.len() == p,
                forall|q: int|
                    0 <= q < p ==> (#[trigger] self.port_queues@[q])@.len() > 0 && queues@[q]
                        == self.port_queues@[q]@[self.position(core.0, q)],
            decreases self.port_queues@.len() - p,
        {
            let port = &self.port_queues[p];
            if port.len() == 0 {
                proof {
                    assert(self.port_queues@[p as int]@.len() == 0);
                }
                return None;
            }
            let at: usize = if p == own_port {
                k
            } else {
                k % port.len()
            };
            queues.push(port[at]);
            p = p + 1;
        }
        proof {
            assert(queues@ =~= Seq::new(
                self.port_queues@.len(),
                |p: int| self.port_queues@[p]@[self.position(core.0, p)],
            ));
        }
        Some(queues)
    }
}

impl Default for SplitQueueMap {
    fn default() -> (map: SplitQueueMap)
        ensures
            map.built_from(Seq::empty()),
            map.wf(),
    {
        broadcast use vstd::std_specs::hash::group_hash_axioms;

        SplitQueueMap { port_queues: Vec::new(), core_loc: HashMap::new() }
    }
}

proof fn lemma_located(ports: Seq<PortMap>, core: u32, n: nat)
    requires
        n <= ports.len() <= usize::MAX,
        forall|p: int| 0 <= p < ports.len() ==> (#[trigger] ports[p]).fits(),
    ensures
        located(ports, core, n) matches Some((p, k)) ==> {
            &&& p < n
            &&& ports[p as int].cores@.contains(core)
            &&& k < ports[p as int].core_list().len()
            &&& ports[p as int].core_list()[k as int] == core
        },
        located(ports, core, n) is None ==> forall|p: int|
            0 <= p < n ==> !(#[trigger] ports[p]).cores@.contains(core),
    decreases n,
{
    if n > 0 {
        lemma_located(ports, core, (n - 1) as nat);
        let port = ports[n - 1];
        assert(port.fits());
        if port.cores@.contains(core) {
            sorted::law_sorted_set(port.cores@);
            assert(port.core_list().contains(core));
            sorted::lemma_member_at_its_place(port.core_list(), core);
        }
    }
}

/// A rule gets one queue id per port, and each is a split queue of that port: never a sink queue,
/// never a receive queue, and never one that the port does not have.
pub proof fn law_every_port_gets_a_split_queue(map: SplitQueueMap, ports: Seq<PortMap>, core: u32)
    requires
        map.wf(),
        map.built_from(ports),
        map.steer(core) is Some,
        ports.len() <= usize::MAX,
        forall|p: int| 0 <= p < ports.len() ==> (#[trigger] ports[p]).fits(),
    ensures
        map.steer(core)->0.len() == ports.len(),
        forall|p: int|
            0 <= p < ports.len() ==> {
                let queue = #[trigger] map.steer(core)->0[p];
                &&& ports[p].base() <= queue < ports[p].base() + 2 * ports[p].core_list().len()
                &&& (queue - ports[p].base()) % 2 == 1
                &&& queue == ports[p].split_queue(map.position(core, p))
                &&& 0 <= map.position(core, p) < ports[p].core_list().len()
            },
{
    assert forall|p: int| 0 <= p < ports.len() implies {
        let queue = #[trigger] map.steer(core)->0[p];
        &&& ports[p].base() <= queue < ports[p].base() + 2 * ports[p].core_list().len()
        &&& (queue - ports[p].base()) % 2 == 1
        &&& queue == ports[p].split_queue(map.position(core, p))
        &&& 0 <= map.position(core, p) < ports[p].core_list().len()
    } by {
        assert(map.port_queues@[p]@ == ports[p].split_queues());
        assert(ports[p].fits());
        let n = ports[p].core_list().len() as int;
        let k = map.core_loc@[core].1 as int;
        assert(map.port_queues@[p]@.len() == n);
        assert(n > 0);
        vstd::arithmetic::div_mod::lemma_mod_bound(k, n);
        assert(map.port_queues@[p]@[map.position(core, p)] == ports[p].split_queue(
            map.position(core, p),
        ));
    }
}

/// On its own port a core keeps exactly its own split queue.
pub proof fn law_own_port_keeps_its_own_queue(map: SplitQueueMap, ports: Seq<PortMap>, core: u32)
    requires
        map.wf(),
        map.built_from(ports),
        map.steer(core) is Some,
        ports.len() <= usize::MAX,
        forall|p: int| 0 <= p < ports.len() ==> (#[trigger] ports[p]).fits(),
    ensures
        ({
            let (own, k) = located(ports, core, ports.len())->0;
            &&& own < ports.len()
            &&& ports[own as int].core_list()[k as int] == core
            &&& map.steer(core)->0[own as int] == ports[own as int].split_queue(k as int)
        }),
{
    lemma_located(ports, core, ports.len());
    law_every_port_gets_a_split_queue(map, ports, core);
    let own = map.core_loc@[core].0 as int;
    assert(map.steer(core)->0[own] == ports[own].split_queue(map.position(core, own)));
}

/// Two cores of one port never share a split queue there.
pub proof fn law_cores_do_not_share_a_queue(port: PortMap, i: int, j: int)
    requires
        port.fits(),
        0 <= i < j < port.core_list().len(),
    ensures
        port.split_queue(i) != port.split_queue(j),
{
}

/// A core is steered exactly if it polls some port and every port has a core.
pub proof fn law_steered_if_every_port_has_a_core(map: SplitQueueMap, ports: Seq<PortMap>, core: u32)
    requires
        map.wf(),
        map.built_from(ports),
        ports.len() <= usize::MAX,
        forall|p: int| 0 <= p < ports.len() ==> (#[trigger] ports[p]).fits(),
    ensures
        map.steer(core) is Some <==> {
            &&& exists|p: int| 0 <= p < ports.len() && (#[trigger] ports[p]).cores@.contains(core)
            &&& forall|p: int| 0 <= p < ports.len() ==> (#[trigger] ports[p]).cores@.len() > 0
        },
{
    lemma_located(ports, core, ports.len());
    assert forall|p: int| 0 <= p < ports.len() implies (#[trigger] ports[p]).cores@.len() > 0
        <==> map.port_queues@[p]@.len() > 0 by {
        assert(map.port_queues@[p]@ == ports[p].split_queues());
        let s = ports[p].cores@;
        sorted::law_sorted_set(s);
        if s.len() > 0 {
            assert(s.contains(s[0]));
            assert(sorted::sorted_set(s).contains(s[0]));
        }
        if sorted::sorted_set(s).len() > 0 {
            let y = sorted::sorted_set(s)[0];
            assert(sorted::sorted_set(s).contains(y));
            assert(s.contains(y));
        }
    }
    if exists|p: int| 0 <= p < ports.len() && (#[trigger] ports[p]).cores@.contains(core) {
        assert(map.core_loc@.dom().contains(core));
    }
    if map.core_loc@.dom().contains(core) {
        let (q, k) = located(ports, core, ports.len())->0;
        assert(ports[q as int].cores@.contains(core));
    }
    if exists|p: int|
        0 <= p < map.port_queues@.len() && (#[trigger] map.port_queues@[p])@.len() == 0 {
        let p = choose|p: int|
            0 <= p < map.port_queues@.len() && (#[trigger] map.port_queues@[p])@.len() == 0;
        assert(ports[p].cores@.len() == 0);
    } else {
        assert forall|p: int| 0 <= p < ports.len() implies (#[trigger] ports[p]).cores@.len()
            > 0 by {
            assert(map.port_queues@[p]@.len() > 0);
        }
    }
}

/// The queues of a port are numbered from its sinks on, two to a core in the order of the cores:
/// the second of the two is the split queue. On its own port, the last one that it polls, a core is
/// given the split queue of its own place among the cores; on every other port that of the same
/// place, counted around the cores of that port.
pub proof fn law_split_queues_are_numbered_after_the_sinks(
    map: SplitQueueMap,
    ports: Seq<PortMap>,
    core: u32,
    p: int,
)
    requires
        map.wf(),
        map.built_from(ports),
        map.steer(core) is Some,
        ports.len() <= usize::MAX,
        forall|q: int| 0 <= q < ports.len() ==> (#[trigger] ports[q]).fits(),
        0 <= p < ports.len(),
    ensures
        exists|own: int, k: int|
            {
                &&& 0 <= own < ports.len()
                &&& 0 <= k < ports[own].core_list().len()
                &&& #[trigger] ports[own].core_list()[k] == core
                &&& forall|q: int|
                    own < q < ports.len() ==> !(#[trigger] ports[q]).cores@.contains(core)
                &&& map.steer(core)->0[p] == ports[p].sinks as int % 0x1_0000 + 2 * (if p == own {
                    k
                } else {
                    k % (ports[p].core_list().len() as int)
                }) + 1
            },
{
    lemma_located(ports, core, ports.len());
    lemma_last_port(ports, core, ports.len());
    law_every_port_gets_a_split_queue(map, ports, core);
    let own = map.core_loc@[core].0 as int;
    let k = map.core_loc@[core].1 as int;
    assert(map.port_queues@[p]@ == ports[p].split_queues());
    assert(map.steer(core)->0[p] == ports[p].split_queue(map.position(core, p)));
    assert(ports[p].fits());
    assert(ports[own].core_list()[k] == core);
}

proof fn lemma_last_port(ports: Seq<PortMap>, core: u32, n: nat)
    requires
        n <= ports.len() <= usize::MAX,
    ensures
        located(ports, core, n) matches Some((p, _)) ==> forall|q: int|
            p < q < n ==> !(#[trigger] ports[q]).cores@.contains(core),
    decreases n,
{
    if n > 0 {
        lemma_last_port(ports, core, (n - 1) as nat);
    }
}

/// The cores of a port are listed once each, in ascending order, and are those that poll it.
pub proof fn law_the_cores_of_a_port_are_listed_once(port: PortMap, core: u32, i: int, j: int)
    ensures
        port.core_list().contains(core) <==> port.cores@.contains(core),
        0 <= i < j < port.core_list().len() ==> port.core_list()[i] < port.core_list()[j],
{
    sorted::law_sorted_set(port.cores@);
}

/// A port fits exactly if its last queue id does: sinks first, then two queues for each core.
pub proof fn law_a_port_fits_if_its_last_queue_does(port: PortMap)
    ensures
        port.fits() <==> port.sinks as int % 0x1_0000 + 2 * port.core_list().len() - 1 <= 0xffff,
{
}

} // verus!

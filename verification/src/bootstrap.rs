//! Bootstrap nodes of the network: choosing which to contact, and what to
//! ask of the network library for each.
use crate::text::{push_all, str_chars, string_from_chars};
use crate::utils::{decode_hex, decode_hex_panics, decode_hex_spec};
use rand::seq::SliceRandom;
use rand::SeedableRng;
use vstd::prelude::*;

verus! {

broadcast use vstd::std_specs::vec::group_vec_axioms;

/// A bootstrap node as the public node list describes it.
#[derive(Debug)]
pub struct Node {
    pub ipv4: String,
    pub ipv6: String,
    pub port: u16,
    pub tcp_ports: Option<Vec<u16>>,
    pub public_key: String,
    pub status_udp: bool,
    pub status_tcp: bool,
    pub maintainer: String,
    pub location: String,
}

/// The node list as served.
#[derive(Debug)]
pub struct NodesResponse {
    pub nodes: Vec<Node>,
}

/// A node as values.
pub struct NodeView {
    pub ipv4: Seq<char>,
    pub ipv6: Seq<char>,
    pub port: u16,
    pub tcp_ports: Option<Seq<u16>>,
    pub public_key: Seq<char>,
    pub status_udp: bool,
    pub status_tcp: bool,
    pub maintainer: Seq<char>,
    pub location: Seq<char>,
}

pub open spec fn node_view(n: Node) -> NodeView {
    NodeView {
        ipv4: n.ipv4@,
        ipv6: n.ipv6@,
        port: n.port,
        tcp_ports: match n.tcp_ports {
            Some(p) => Some(p@),
            None => None,
        },
        public_key: n.public_key@,
        status_udp: n.status_udp,
        status_tcp: n.status_tcp,
        maintainer: n.maintainer@,
        location: n.location@,
    }
}

pub open spec fn nodes_view(s: Seq<Node>) -> Seq<NodeView> {
    s.map_values(|n: Node| node_view(n))
}

/// A node that answers both over UDP and over TCP.
pub open spec fn is_viable(n: NodeView) -> bool {
    n.status_udp && n.status_tcp
}

/// The viable nodes of `s`, in order.
pub open spec fn viable_nodes(s: Seq<NodeView>) -> Seq<NodeView>
    decreases s.len(),
{
    if s.len() == 0 {
        Seq::empty()
    } else if is_viable(s.last()) {
        viable_nodes(s.drop_last()).push(s.last())
    } else {
        viable_nodes(s.drop_last())
    }
}

/// The nodes to choose from: the viable ones when there are at least
/// `count` of them, otherwise all.
pub open spec fn candidates_spec(s: Seq<NodeView>, count: int) -> Seq<NodeView> {
    if viable_nodes(s).len() >= count {
        viable_nodes(s)
    } else {
        s
    }
}

fn clone_ports(p: &Vec<u16>) -> (r: Vec<u16>)
    ensures
        r@ == p@,
{
    let mut r: Vec<u16> = Vec::new();
    let mut i: usize = 0;
    while i < p.len()
        invariant
            i <= p@.len(),
            r@ == p@.take(i as int),
        decreases p@.len() - i,
    {
        r.push(p[i]);
        assert(p@.take(i as int + 1) =~= p@.take(i as int).push(p@[i as int]));
        i = i + 1;
    }
    assert(p@.take(p@.len() as int) =~= p@);
    r
}

/// A copy of a node.
fn clone_node(n: &Node) -> (r: Node)
    ensures
        node_view(r) == node_view(*n),
{
    let tcp_ports = match &n.tcp_ports {
        Some(p) => Some(clone_ports(p)),
        None => None,
    };
    Node {
        ipv4: n.ipv4.clone(),
        ipv6: n.ipv6.clone(),
        port: n.port,
        tcp_ports,
        public_key: n.public_key.clone(),
        status_udp: n.status_udp,
        status_tcp: n.status_tcp,
        maintainer: n.maintainer.clone(),
        location: n.location.clone(),
    }
}

/// The nodes worth contacting when `count` are wanted: those that answer
/// over both UDP and TCP if there are enough of them, otherwise all.
pub fn bootstrap_candidates(nodes: &[Node], count: usize) -> (r: Vec<Node>)
    ensures
        nodes_view(r@) == candidates_spec(nodes_view(nodes@), count as int),
{
    let ghost all = nodes_view(nodes@);
    let mut viable: Vec<Node> = Vec::new();
    let mut i: usize = 0;
    assert(all.take(0) =~= Seq::<NodeView>::empty());
    while i < nodes.len()
        invariant
            i <= nodes@.len(),
            all == nodes_view(nodes@),
            nodes_view(viable@) == viable_nodes(all.take(i as int)),
        decreases nodes@.len() - i,
    {
        assert(all.take(i as int + 1).drop_last() =~= all.take(i as int));
        if nodes[i].status_udp && nodes[i].status_tcp {
            let ghost before = viable@;
            viable.push(clone_node(&nodes[i]));
            assert(nodes_view(viable@) =~= nodes_view(before).push(all[i as int]));
        }
        i = i + 1;
    }
    assert(all.take(nodes@.len() as int) =~= all);
    if viable.len() >= count {
        viable
    } else {
        let mut every: Vec<Node> = Vec::new();
        let mut j: usize = 0;
        while j < nodes.len()
            invariant
                j <= nodes@.len(),
                all == nodes_view(nodes@),
                nodes_view(every@) == all.take(j as int),
            decreases nodes@.len() - j,
        {
            let ghost before = every@;
            every.push(clone_node(&nodes[j]));
            assert(nodes_view(every@) =~= nodes_view(before).push(all[j as int]));
            assert(all.take(j as int + 1) =~= all.take(j as int).push(all[j as int]));
            j = j + 1;
        }
        every
    }
}

/// rand's `SliceRandom::shuffle` with a standard generator seeded from
/// `seed` (`StdRng::seed_from_u64`): the nodes in an order the seed
/// determines.  Of the outcome only that it is a reordering is stated.
#[verifier::external_body]
fn shuffle_nodes(v: &mut Vec<Node>, seed: u64)
    ensures
        nodes_view(final(v)@).to_multiset() == nodes_view(old(v)@).to_multiset(),
{
    v.shuffle(&mut rand::rngs::StdRng::seed_from_u64(seed));
}

/// Up to `count` nodes picked at random from the candidates (see
/// `bootstrap_candidates`), each at most as often as it occurs there;
/// `seed` (drawn by the caller) decides the order.
pub fn select_random_nodes(nodes: &[Node], count: usize, seed: u64) -> (r: Vec<Node>)
    ensures
        r@.len() == if count <= candidates_spec(nodes_view(nodes@), count as int).len() {
            count as int
        } else {
            candidates_spec(nodes_view(nodes@), count as int).len() as int
        },
        nodes_view(r@).to_multiset().subset_of(candidates_spec(nodes_view(nodes@), count as int).to_multiset()),
{
    let mut cands = bootstrap_candidates(nodes, count);
    let ghost before = nodes_view(cands@);
    shuffle_nodes(&mut cands, seed);
    let ghost shuffled = nodes_view(cands@);
    proof {
        vstd::seq_lib::to_multiset_len(before);
        vstd::seq_lib::to_multiset_len(shuffled);
    }
    cands.truncate(count);
    proof {
        if count <= shuffled.len() {
            assert(nodes_view(cands@) =~= shuffled.take(count as int));
            assert(shuffled =~= shuffled.take(count as int) + shuffled.skip(count as int));
            vstd::seq_lib::lemma_multiset_commutative(shuffled.take(count as int), shuffled.skip(count as int));
        } else {
            assert(nodes_view(cands@) =~= shuffled);
        }
    }
    cands
}

/// The size of a public key of the network.
pub const PUBLIC_KEY_SIZE: usize = 32;

/// What to ask of the network library for one node.
#[derive(Debug)]
pub enum BootstrapStep {
    /// Bootstrap from the node at this address, port and key.
    Bootstrap { host: String, port: u16, key: Vec<u8> },
    /// Use the node as a TCP relay at this port.
    TcpRelay { host: String, port: u16, key: Vec<u8> },
}

/// A step as values: relay or not, host, port, key.
pub open spec fn step_view(s: BootstrapStep) -> (bool, Seq<char>, u16, Seq<u8>) {
    match s {
        BootstrapStep::Bootstrap { host, port, key } => (false, host@, port, key@),
        BootstrapStep::TcpRelay { host, port, key } => (true, host@, port, key@),
    }
}

pub open spec fn steps_view(s: Seq<BootstrapStep>) -> Seq<(bool, Seq<char>, u16, Seq<u8>)> {
    s.map_values(|x: BootstrapStep| step_view(x))
}

/// The steps for one node: when its key decodes to a key of the right
/// size, bootstrap from it and use it as a relay on each of its TCP ports
/// (or on its main port when it lists none); otherwise nothing.
pub open spec fn node_steps(n: NodeView) -> Seq<(bool, Seq<char>, u16, Seq<u8>)> {
    match decode_hex_spec(vstd::utf8::encode_utf8(n.public_key)) {
        Some(k) => if k.len() == PUBLIC_KEY_SIZE {
            seq![(false, n.ipv4, n.port, k)] + match n.tcp_ports {
                Some(ps) => ps.map_values(|p: u16| (true, n.ipv4, p, k)),
                None => seq![(true, n.ipv4, n.port, k)],
            }
        } else {
            Seq::empty()
        },
        None => Seq::empty(),
    }
}

/// The steps for all the nodes, in order.
pub open spec fn plan_steps(s: Seq<NodeView>) -> Seq<(bool, Seq<char>, u16, Seq<u8>)>
    decreases s.len(),
{
    if s.len() == 0 {
        Seq::empty()
    } else {
        plan_steps(s.drop_last()) + node_steps(s.last())
    }
}

/// The log line for a node: `Bootstrapping to: <ipv4> (<location>)`.
pub open spec fn plan_log(n: NodeView) -> Seq<char> {
    "Bootstrapping to: "@ + n.ipv4 + " ("@ + n.location + ")"@
}

/// A node key that the hex decoder can read to its end or reject.
pub open spec fn key_readable(n: NodeView) -> bool {
    !decode_hex_panics(vstd::utf8::encode_utf8(n.public_key))
}

fn node_log(n: &Node) -> (r: String)
    ensures
        r@ == plan_log(node_view(*n)),
{
    let mut cs = str_chars("Bootstrapping to: ");
    push_all(&mut cs, &str_chars(n.ipv4.as_str()));
    push_all(&mut cs, &str_chars(" ("));
    push_all(&mut cs, &str_chars(n.location.as_str()));
    push_all(&mut cs, &str_chars(")"));
    string_from_chars(cs.as_slice())
}

fn clone_bytes(p: &Vec<u8>) -> (r: Vec<u8>)
    ensures
        r@ == p@,
{
    let mut r: Vec<u8> = Vec::new();
    let mut i: usize = 0;
    while i < p.len()
        invariant
            i <= p@.len(),
            r@ == p@.take(i as int),
        decreases p@.len() - i,
    {
        r.push(p[i]);
        assert(p@.take(i as int + 1) =~= p@.take(i as int).push(p@[i as int]));
        i = i + 1;
    }
    assert(p@.take(p@.len() as int) =~= p@);
    r
}

fn push_node_steps(out: &mut Vec<BootstrapStep>, n: &Node)
    requires
        key_readable(node_view(*n)),
    ensures
        steps_view(final(out)@) == steps_view(old(out)@) + node_steps(node_view(*n)),
{
    let ghost v = node_view(*n);
    let ghost start = steps_view(out@);
    match decode_hex(n.public_key.as_str()) {
        Some(key) => {
            if key.len() == PUBLIC_KEY_SIZE {
                let ghost k = key@;
                out.push(BootstrapStep::Bootstrap { host: n.ipv4.clone(), port: n.port, key: clone_bytes(&key) });
                assert(steps_view(out@) =~= start + seq![(false, v.ipv4, v.port, k)]);
                match &n.tcp_ports {
                    Some(ports) => {
                        let ghost mid = steps_view(out@);
                        let mut i: usize = 0;
                        while i < ports.len()
                            invariant
                                i <= ports@.len(),
                                key@ == k,
                                v == node_view(*n),
                                n.tcp_ports == Some(*ports),
                                steps_view(out@) == mid + ports@.take(i as int).map_values(
                                    |p: u16| (true, v.ipv4, p, k),
                                ),
                            decreases ports@.len() - i,
                        {
                            let ghost before = steps_view(out@);
                            out.push(BootstrapStep::TcpRelay { host: n.ipv4.clone(), port: ports[i], key: clone_bytes(&key) });
                            assert(steps_view(out@) =~= before.push((true, v.ipv4, ports@[i as int], k)));
                            assert(ports@.take(i as int + 1).map_values(|p: u16| (true, v.ipv4, p, k)) =~= ports@.take(
                                i as int,
                            ).map_values(|p: u16| (true, v.ipv4, p, k)).push((true, v.ipv4, ports@[i as int], k)));
                            i = i + 1;
                        }
                        assert(ports@.take(ports@.len() as int) =~= ports@);
                        assert(steps_view(out@) =~= start + node_steps(v));
                    },
                    None => {
                        let ghost before = steps_view(out@);
                        out.push(BootstrapStep::TcpRelay { host: n.ipv4.clone(), port: n.port, key: clone_bytes(&key) });
                        assert(steps_view(out@) =~= before.push((true, v.ipv4, v.port, k)));
                        assert(steps_view(out@) =~= start + node_steps(v));
                    },
                }
            } else {
                assert(steps_view(out@) =~= start + node_steps(v));
            }
        },
        None => {
            assert(steps_view(out@) =~= start + node_steps(v));
        },
    }
}

/// What contacting the chosen nodes takes: one log line per node, and for
/// each node whose key decodes to a key of the right size, a bootstrap
/// step and its TCP relay steps.
pub fn bootstrap_plan(selected: &[Node]) -> (r: (Vec<String>, Vec<BootstrapStep>))
    requires
        forall|i: int| 0 <= i < selected@.len() ==> key_readable(#[trigger] node_view(selected@[i])),
    ensures
        r.0@.len() == selected@.len(),
        forall|i: int| 0 <= i < selected@.len() ==> #[trigger] r.0@[i]@ == plan_log(node_view(selected@[i])),
        steps_view(r.1@) == plan_steps(nodes_view(selected@)),
{
    let ghost all = nodes_view(selected@);
    let mut logs: Vec<String> = Vec::new();
    let mut steps: Vec<BootstrapStep> = Vec::new();
    let mut i: usize = 0;
    assert(all.take(0) =~= Seq::<NodeView>::empty());
    while i < selected.len()
        invariant
            i <= selected@.len(),
            all == nodes_view(selected@),
            forall|j: int| 0 <= j < selected@.len() ==> key_readable(#[trigger] node_view(selected@[j])),
            logs@.len() == i,
            forall|j: int| 0 <= j < i ==> #[trigger] logs@[j]@ == plan_log(node_view(selected@[j])),
            steps_view(steps@) == plan_steps(all.take(i as int)),
        decreases selected@.len() - i,
    {
        assert(all.take(i as int + 1).drop_last() =~= all.take(i as int));
        assert(all[i as int] == node_view(selected@[i as int]));
        logs.push(node_log(&selected[i]));
        push_node_steps(&mut steps, &selected[i]);
        i = i + 1;
    }
    assert(all.take(selected@.len() as int) =~= all);
    (logs, steps)
}

} // verus!

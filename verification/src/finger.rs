//! The finger table.
//!
//! A node keeps `m` fingers. Finger `i` starts at
//! `(self_position + 2^i) mod 2^m` (finger 0 starts at the node's own
//! position), and points at the first known node whose position lies
//! at or past that start in ring order. Finger 0 is always the node
//! itself; when there are no peers every finger is the node itself.

use vstd::prelude::*;
use vstd::arithmetic::power2::{pow2, lemma2_to64, lemma_pow2_adds, lemma_pow2_pos};

use crate::codec::copy_range;
use crate::errors::DhtError;
use crate::hash::{position_of, spec_position, lemma_pow2_le, pow2_u64};
use crate::ring::{arc_contains, arc_contains_exec};
use crate::store::bytes_eq;

verus! {

/// A node's network endpoint, held as the text `ip:port` whose bytes
/// name the node on the ring.
#[derive(Debug)]
pub struct Endpoint {
    pub text: Vec<u8>,
}

impl View for Endpoint {
    type V = Seq<u8>;

    open spec fn view(&self) -> Seq<u8> {
        self.text@
    }
}

impl Endpoint {
    /// A copy of this endpoint.
    pub fn duplicate(&self) -> (r: Endpoint)
        ensures
            r@ == self@,
    {
        let n = self.text.len();
        Endpoint { text: copy_range(&self.text, 0, n) }
    }

    /// Whether two endpoints name the same address.
    pub fn same_as(&self, other: &Endpoint) -> (r: bool)
        ensures
            r == (self@ == other@),
    {
        bytes_eq(&self.text, &other.text)
    }
}

/// The clockwise distance from `s` to `p` on a ring of size `2^m`.
pub open spec fn ring_distance(p: nat, s: nat, m: nat) -> nat
    recommends
        p < pow2(m),
        s < pow2(m),
{
    (((p + pow2(m) - s) as int) % (pow2(m) as int)) as nat
}

/// The start position of finger `i`: the node's own position for
/// finger 0, and `(self_position + 2^i) mod 2^m` past it otherwise.
pub open spec fn spec_start_position(self_position: nat, i: nat, m: nat) -> nat {
    if i == 0 {
        self_position
    } else {
        ((self_position + pow2(i)) as int % pow2(m) as int) as nat
    }
}

/// Finger `f` of the table points at one of the given peers: its
/// address and position are that peer's.
pub open spec fn finger_points_at_peer(
    addrs: Seq<Seq<u8>>,
    positions: Seq<u32>,
    peers: Seq<Endpoint>,
    f: int,
    m: nat,
) -> bool {
    exists|j: int|
        0 <= j < peers.len() && addrs[f] == (#[trigger] peers[j])@ && positions[f] as nat
            == spec_position(peers[j]@, m)
}

/// The routing table of one node.
pub struct FingerTable {
    m: u32,
    start_positions: Vec<u32>,
    node_positions: Vec<u32>,
    node_addrs: Vec<Endpoint>,
}

impl FingerTable {
    /// The ring exponent the table was built with.
    pub closed spec fn spec_m(&self) -> u32 {
        self.m
    }

    /// The size of the ring.
    pub open spec fn spec_ring_size(&self) -> nat {
        pow2(self.spec_m() as nat)
    }

    /// The start positions, mathematically.
    pub closed spec fn spec_starts(&self) -> Seq<u32> {
        self.start_positions@
    }

    /// The finger node positions, mathematically.
    pub closed spec fn spec_node_positions(&self) -> Seq<u32> {
        self.node_positions@
    }

    /// The finger node addresses, mathematically.
    pub closed spec fn spec_node_addrs(&self) -> Seq<Seq<u8>> {
        self.node_addrs@.map_values(|e: Endpoint| e@)
    }

    /// The node's own position.
    pub open spec fn spec_self_position(&self) -> u32 {
        self.spec_starts()[0]
    }

    /// The table's internal invariant: `m` fingers, every position on
    /// the ring, and each start where the ring geometry puts it.
    pub closed spec fn wf(&self) -> bool {
        &&& 1 <= self.m <= 32
        &&& self.start_positions@.len() == self.m
        &&& self.node_positions@.len() == self.m
        &&& self.node_addrs@.len() == self.m
        &&& forall|i: int|
            0 <= i < self.m ==> (#[trigger] self.start_positions@[i]) < pow2(self.m as nat)
        &&& forall|i: int|
            0 <= i < self.m ==> (#[trigger] self.node_positions@[i]) < pow2(self.m as nat)
        &&& forall|i: int|
            0 <= i < self.m ==> (#[trigger] self.start_positions@[i]) as nat
                == spec_start_position(self.start_positions@[0] as nat, i as nat, self.m as nat)
    }

    /// The monotonicity of the start positions: finger `i` starts
    /// `2^i` past the node's own position, modulo the ring size.
    pub proof fn lemma_start_positions(&self)
        requires
            self.wf(),
        ensures
            self.spec_starts().len() == self.spec_m(),
            self.spec_starts()[0] == self.spec_self_position(),
            forall|i: int|
                1 <= i < self.spec_m() ==> (#[trigger] self.spec_starts()[i]) as int == (
                self.spec_self_position() + pow2(i as nat)) as int % self.spec_ring_size() as int,
            forall|i: int|
                0 <= i < self.spec_m() ==> (#[trigger] self.spec_starts()[i]) < self.spec_ring_size(),
    {
        assert forall|i: int| 1 <= i < self.spec_m() implies (#[trigger] self.spec_starts()[i])
            as int == (self.spec_self_position() + pow2(i as nat)) as int
            % self.spec_ring_size() as int by {
            assert(self.start_positions@[i] as nat == spec_start_position(
                self.start_positions@[0] as nat,
                i as nat,
                self.m as nat,
            ));
        }
    }

    /// Builds the table: finger 0 is the node itself; every other
    /// finger points at the known node (the peers and the node itself
    /// having no peers) nearest in ring order past its start.
    pub fn new(this_node_addr: Endpoint, peer_addrs: Vec<Endpoint>, size_factor: u32) -> (r:
        Result<FingerTable, DhtError>)
        requires
            1 <= size_factor <= 32,
            peer_addrs@.len() + 1 <= pow2(size_factor as nat),
        ensures
            match r {
                Ok(ft) => {
                    &&& ft.wf()
                    &&& ft.spec_m() == size_factor
                    &&& ft.spec_self_position() as nat == spec_position(
                        this_node_addr@,
                        size_factor as nat,
                    )
                    &&& ft.spec_node_positions()[0] == ft.spec_self_position()
                    &&& ft.spec_node_addrs()[0] == this_node_addr@
                    &&& forall|f: int|
                        1 <= f < size_factor && peer_addrs@.len() == 0 ==> (
                        #[trigger] ft.spec_node_positions()[f]) == ft.spec_self_position()
                            && ft.spec_node_addrs()[f] == this_node_addr@
                    &&& forall|f: int|
                        1 <= f < size_factor && peer_addrs@.len() > 0
                            ==> #[trigger] finger_points_at_peer(
                            ft.spec_node_addrs(),
                            ft.spec_node_positions(),
                            peer_addrs@,
                            f,
                            size_factor as nat,
                        )
                    &&& forall|f: int, j: int|
                        1 <= f < size_factor && 0 <= j < peer_addrs@.len() ==> ring_distance(
                            (#[trigger] ft.spec_node_positions()[f]) as nat,
                            ft.spec_starts()[f] as nat,
                            size_factor as nat,
                        ) <= ring_distance(
                            spec_position((#[trigger] peer_addrs@[j])@, size_factor as nat),
                            ft.spec_starts()[f] as nat,
                            size_factor as nat,
                        )
                },
                Err(_) => false,
            },
    {
        let m = size_factor;
        let ring_size: u64 = pow2_u64(m);
        proof {
            lemma_pow2_le(m as nat, 32);
            lemma2_to64();
        }
        let self_position: u32 = position_of(&this_node_addr.text, m);

        // Start positions.
        let mut start_positions: Vec<u32> = Vec::new();
        start_positions.push(self_position);
        let mut i: u32 = 1;
        while i < m
            invariant
                1 <= i <= m <= 32,
                ring_size == pow2(m as nat),
                ring_size <= 0x100000000,
                self_position < pow2(m as nat),
                start_positions@.len() == i,
                start_positions@[0] == self_position,
                forall|k: int|
                    0 <= k < i ==> (#[trigger] start_positions@[k]) as nat == spec_start_position(
                        self_position as nat,
                        k as nat,
                        m as nat,
                    ),
                forall|k: int|
                    0 <= k < i ==> (#[trigger] start_positions@[k]) < pow2(m as nat),
            decreases m - i,
        {
            let offset: u64 = pow2_u64(i);
            proof {
                lemma_pow2_le(i as nat, 32);
                lemma2_to64();
            }
            let start: u32 = (((self_position as u64) + offset) % ring_size) as u32;
            start_positions.push(start);
            i = i + 1;
        }

        // Peer positions.
        let mut peer_positions: Vec<u32> = Vec::new();
        let mut j: usize = 0;
        while j < peer_addrs.len()
            invariant
                j <= peer_addrs@.len(),
                peer_positions@.len() == j,
                1 <= m <= 32,
                forall|k: int|
                    0 <= k < j ==> (#[trigger] peer_positions@[k]) as nat == spec_position(
                        peer_addrs@[k]@,
                        m as nat,
                    ) && peer_positions@[k] < pow2(m as nat),
            decreases peer_addrs@.len() - j,
        {
            let p = position_of(&peer_addrs[j].text, m);
            peer_positions.push(p);
            j = j + 1;
        }

        // Finger nodes: finger 0 is this node; each later finger is
        // the peer nearest in ring order past that finger's start.
        let mut node_positions: Vec<u32> = Vec::new();
        let mut node_addrs: Vec<Endpoint> = Vec::new();
        node_positions.push(self_position);
        node_addrs.push(this_node_addr.duplicate());

        let mut f: u32 = 1;
        while f < m
            invariant
                1 <= f <= m <= 32,
                ring_size == pow2(m as nat),
                ring_size <= 0x100000000,
                self_position < pow2(m as nat),
                start_positions@.len() == m,
                peer_positions@.len() == peer_addrs@.len(),
                forall|k: int|
                    0 <= k < m ==> (#[trigger] start_positions@[k]) < pow2(m as nat),
                forall|k: int|
                    0 <= k < peer_addrs@.len() ==> (#[trigger] peer_positions@[k]) as nat
                        == spec_position(peer_addrs@[k]@, m as nat) && peer_positions@[k] < pow2(
                        m as nat,
                    ),
                node_positions@.len() == f,
                node_addrs@.len() == f,
                node_positions@[0] == self_position,
                node_addrs@[0]@ == this_node_addr@,
                forall|k: int|
                    0 <= k < f ==> (#[trigger] node_positions@[k]) < pow2(m as nat),
                forall|k: int|
                    #![trigger node_addrs@[k]]
                    #![trigger node_positions@[k]]
                    1 <= k < f && peer_addrs@.len() == 0 ==> node_positions@[k]
                        == self_position && node_addrs@[k]@ == this_node_addr@,
                forall|k: int|
                    #![trigger node_addrs@[k]]
                    #![trigger node_positions@[k]]
                    1 <= k < f && peer_addrs@.len() > 0 ==> exists|j2: int|
                        0 <= j2 < peer_addrs@.len() && (#[trigger] peer_addrs@[j2])@
                            == node_addrs@[k]@ && node_positions@[k] == peer_positions@[j2],
                forall|k: int, j2: int|
                    1 <= k < f && 0 <= j2 < peer_addrs@.len() ==> ring_distance(
                        (#[trigger] node_positions@[k]) as nat,
                        start_positions@[k] as nat,
                        m as nat,
                    ) <= ring_distance(
                        (#[trigger] peer_positions@[j2]) as nat,
                        start_positions@[k] as nat,
                        m as nat,
                    ),
            decreases m - f,
        {
            let start = start_positions[f as usize];
            let ghost prev_addrs = node_addrs@;
            let ghost prev_pos = node_positions@;
            if peer_positions.len() == 0 {
                node_positions.push(self_position);
                let dup = this_node_addr.duplicate();
                assert(dup@ == this_node_addr@);
                node_addrs.push(dup);
                assert forall|k: int| 0 <= k <= f implies (#[trigger] node_addrs@[k])@ == (if k
                    < f {
                    prev_addrs[k]@
                } else {
                    this_node_addr@
                }) && node_positions@[k] == (if k < f {
                    prev_pos[k]
                } else {
                    self_position
                }) by {
                    if k < f {
                        assert(node_addrs@[k] == prev_addrs[k]);
                        assert(node_positions@[k] == prev_pos[k]);
                    }
                }
            } else {
                // The peer with the least clockwise distance from the
                // start; the first such peer wins a tie.
                let mut best: usize = 0;
                let mut best_dist: u64 = ((peer_positions[0] as u64) + ring_size - (start as u64))
                    % ring_size;
                let mut p: usize = 1;
                while p < peer_positions.len()
                    invariant
                        1 <= p <= peer_positions@.len(),
                        best < p,
                        ring_size == pow2(m as nat),
                        ring_size >= 1,
                        ring_size <= 0x100000000,
                        start < pow2(m as nat),
                        forall|k: int|
                            0 <= k < peer_positions@.len() ==> (#[trigger] peer_positions@[k])
                                < pow2(m as nat),
                        best_dist == ring_distance(
                            peer_positions@[best as int] as nat,
                            start as nat,
                            m as nat,
                        ),
                        forall|k: int|
                            0 <= k < p ==> best_dist <= ring_distance(
                                (#[trigger] peer_positions@[k]) as nat,
                                start as nat,
                                m as nat,
                            ),
                    decreases peer_positions@.len() - p,
                {
                    let dist: u64 = ((peer_positions[p] as u64) + ring_size - (start as u64))
                        % ring_size;
                    if dist < best_dist {
                        best = p;
                        best_dist = dist;
                    }
                    p = p + 1;
                }
                node_positions.push(peer_positions[best]);
                let dup = peer_addrs[best].duplicate();
                assert(dup@ == peer_addrs@[best as int]@);
                node_addrs.push(dup);
                assert forall|k: int| 0 <= k <= f implies (#[trigger] node_addrs@[k])@ == (if k
                    < f {
                    prev_addrs[k]@
                } else {
                    peer_addrs@[best as int]@
                }) && node_positions@[k] == (if k < f {
                    prev_pos[k]
                } else {
                    peer_positions@[best as int]
                }) by {
                    if k < f {
                        assert(node_addrs@[k] == prev_addrs[k]);
                        assert(node_positions@[k] == prev_pos[k]);
                    }
                }
                assert(node_positions@[f as int] == peer_positions@[best as int]);
            }
            f = f + 1;
        }

        let ghost gpeer_positions = peer_positions@;
        let ft = FingerTable { m, start_positions, node_positions, node_addrs };
        proof {
            assert(ft.spec_node_addrs()[0] == ft.node_addrs@[0]@);
            assert forall|k: int|
                1 <= k < size_factor && peer_addrs@.len() > 0 implies #[trigger] finger_points_at_peer(
                ft.spec_node_addrs(),
                ft.spec_node_positions(),
                peer_addrs@,
                k,
                size_factor as nat,
            ) by {
                assert(ft.spec_node_addrs()[k] == ft.node_addrs@[k]@);
                assert(exists|j2: int|
                    0 <= j2 < peer_addrs@.len() && (#[trigger] peer_addrs@[j2])@
                        == ft.node_addrs@[k]@ && ft.node_positions@[k] == gpeer_positions[j2]);
                let j2 = choose|j2: int|
                    0 <= j2 < peer_addrs@.len() && (#[trigger] peer_addrs@[j2])@
                        == ft.node_addrs@[k]@ && ft.node_positions@[k] == gpeer_positions[j2];
                assert(0 <= j2 < peer_addrs@.len() && ft.spec_node_addrs()[k]
                    == peer_addrs@[j2]@ && ft.spec_node_positions()[k] as nat == spec_position(
                    peer_addrs@[j2]@,
                    size_factor as nat,
                ));
                assert(finger_points_at_peer(
                    ft.spec_node_addrs(),
                    ft.spec_node_positions(),
                    peer_addrs@,
                    k,
                    size_factor as nat,
                ));
            }
            assert forall|k: int| 1 <= k < m && peer_addrs@.len() == 0 implies (
            #[trigger] ft.spec_node_positions()[k]) == ft.spec_self_position()
                && ft.spec_node_addrs()[k] == this_node_addr@ by {
                assert(ft.spec_node_addrs()[k] == ft.node_addrs@[k]@);
            }
            assert forall|k: int, j: int|
                1 <= k < m && 0 <= j < peer_addrs@.len() implies ring_distance(
                (#[trigger] ft.spec_node_positions()[k]) as nat,
                ft.spec_starts()[k] as nat,
                m as nat,
            ) <= ring_distance(
                spec_position((#[trigger] peer_addrs@[j])@, m as nat),
                ft.spec_starts()[k] as nat,
                m as nat,
            ) by {
                assert(gpeer_positions[j] as nat == spec_position(peer_addrs@[j]@, m as nat));
                assert(ring_distance(
                    ft.node_positions@[k] as nat,
                    ft.start_positions@[k] as nat,
                    m as nat,
                ) <= ring_distance(
                    gpeer_positions[j] as nat,
                    ft.start_positions@[k] as nat,
                    m as nat,
                ));
            }
        }
        Ok(ft)
    }


    /// The start-position recurrence: from finger 1 on, each next
    /// start lies `2^i` past the previous one, modulo the ring size.
    /// (Finger 1 itself starts `2` past finger 0, not `1`: finger 0
    /// starts at the node's own position rather than one step past it.)
    pub proof fn lemma_start_recurrence(&self, i: int)
        requires
            self.wf(),
            1 <= i < self.spec_m() - 1,
        ensures
            self.spec_starts()[i + 1] as int == (self.spec_starts()[i] + pow2(i as nat)) as int
                % self.spec_ring_size() as int,
    {
        let s0 = self.spec_self_position() as int;
        let ring = self.spec_ring_size() as int;
        let p = pow2(i as nat) as int;
        lemma_pow2_pos(self.spec_m() as nat);
        assert(self.spec_starts()[i] as nat == spec_start_position(
            self.start_positions@[0] as nat,
            i as nat,
            self.spec_m() as nat,
        ));
        assert(self.spec_starts()[i + 1] as nat == spec_start_position(
            self.start_positions@[0] as nat,
            (i + 1) as nat,
            self.spec_m() as nat,
        ));
        assert(pow2((i + 1) as nat) == pow2(i as nat) * 2) by {
            lemma_pow2_adds(i as nat, 1);
            lemma2_to64();
        }
        assert(self.spec_starts()[i] as int == (s0 + p) % ring);
        assert(self.spec_starts()[i + 1] as int == (s0 + p + p) % ring);
        assert(((s0 + p) % ring + p % ring) % ring == (s0 + p + p) % ring) by {
            vstd::arithmetic::div_mod::lemma_add_mod_noop(s0 + p, p, ring);
        }
        assert(p % ring == p) by {
            lemma_pow2_le((i + 1) as nat, self.spec_m() as nat);
            vstd::arithmetic::power2::lemma_pow2_strictly_increases(i as nat, (i + 1) as nat);
            assert(p < ring);
            vstd::arithmetic::div_mod::lemma_small_mod(p as nat, ring as nat);
        }
    }

    /// The key's position on this table's ring.
    pub open spec fn spec_key_position(&self, key: Seq<u8>) -> u32 {
        spec_position(key, self.spec_m() as nat) as u32
    }

    /// Computes the ring position of a key.
    pub fn calculate_key_position(&self, key: &Vec<u8>) -> (r: u32)
        requires
            self.wf(),
        ensures
            r == self.spec_key_position(key@),
            r < self.spec_ring_size(),
    {
        proof {
            lemma_pow2_le(self.m as nat, 32);
            lemma2_to64();
        }
        position_of(key, self.m)
    }

    /// The number of fingers.
    pub fn get_finger_table_size(&self) -> (r: usize)
        requires
            self.wf(),
        ensures
            r == self.spec_m(),
    {
        self.start_positions.len()
    }

    /// The largest position on the ring.
    pub fn get_max_position(&self) -> (r: u32)
        requires
            self.wf(),
        ensures
            r as nat == self.spec_ring_size() - 1,
    {
        proof {
            lemma_pow2_le(self.m as nat, 32);
            lemma2_to64();
            lemma_pow2_pos(self.m as nat);
        }
        (pow2_u64(self.m) - 1) as u32
    }

    /// The start position of one finger.
    pub fn get_start_position(&self, finger_index: usize) -> (r: u32)
        requires
            self.wf(),
            finger_index < self.spec_m(),
        ensures
            r == self.spec_starts()[finger_index as int],
    {
        self.start_positions[finger_index]
    }

    /// The position of the node one finger points at.
    pub fn get_node_position(&self, finger_index: usize) -> (r: u32)
        requires
            self.wf(),
            finger_index < self.spec_m(),
        ensures
            r == self.spec_node_positions()[finger_index as int],
    {
        self.node_positions[finger_index]
    }

    /// The address of the node one finger points at.
    pub fn get_node_address(&self, finger_index: usize) -> (r: Endpoint)
        requires
            self.wf(),
            finger_index < self.spec_m(),
        ensures
            r@ == self.spec_node_addrs()[finger_index as int],
    {
        let r = self.node_addrs[finger_index].duplicate();
        proof {
            assert(self.spec_node_addrs()[finger_index as int]
                == self.node_addrs@[finger_index as int]@);
        }
        r
    }

    /// This node's own position.
    pub fn get_position_of_this_node(&self) -> (r: u32)
        requires
            self.wf(),
        ensures
            r == self.spec_self_position(),
    {
        self.start_positions[0]
    }

    /// This node's own address.
    pub fn get_addr_of_this_node(&self) -> (r: Endpoint)
        requires
            self.wf(),
        ensures
            r@ == self.spec_node_addrs()[0],
    {
        self.get_node_address(0)
    }

    /// The position of this node's successor: the node finger 1 points
    /// at. A table with a single finger has no successor entry.
    pub fn get_successor_position_of_this_node(&self) -> (r: u32)
        requires
            self.wf(),
            self.spec_m() >= 2,
        ensures
            r == self.spec_node_positions()[1],
    {
        self.get_node_position(1)
    }

    /// The address of this node's successor.
    pub fn get_successor_addr_of_this_node(&self) -> (r: Endpoint)
        requires
            self.wf(),
            self.spec_m() >= 2,
        ensures
            r@ == self.spec_node_addrs()[1],
    {
        self.get_node_address(1)
    }

    /// All start positions.
    pub fn get_finger_start_positions(&self) -> (r: Vec<u32>)
        requires
            self.wf(),
        ensures
            r@ == self.spec_starts(),
            r@.len() == self.spec_m(),
            r@[0] == self.spec_self_position(),
    {
        copy_u32s(&self.start_positions)
    }

    /// All finger node positions.
    pub fn get_finger_node_positions(&self) -> (r: Vec<u32>)
        requires
            self.wf(),
        ensures
            r@ == self.spec_node_positions(),
            r@.len() == self.spec_m(),
    {
        copy_u32s(&self.node_positions)
    }

    /// All finger node addresses.
    pub fn get_finger_node_socket_addrs(&self) -> (r: Vec<Endpoint>)
        requires
            self.wf(),
        ensures
            r@.len() == self.spec_m(),
            forall|i: int| 0 <= i < r@.len() ==> (#[trigger] r@[i])@ == self.spec_node_addrs()[i],
    {
        let mut out: Vec<Endpoint> = Vec::new();
        let mut i: usize = 0;
        while i < self.node_addrs.len()
            invariant
                i <= self.node_addrs@.len(),
                out@.len() == i,
                forall|k: int|
                    0 <= k < i ==> (#[trigger] out@[k])@ == self.node_addrs@[k]@,
            decreases self.node_addrs@.len() - i,
        {
            out.push(self.node_addrs[i].duplicate());
            i = i + 1;
        }
        proof {
            assert forall|i2: int| 0 <= i2 < out@.len() implies (#[trigger] out@[i2])@
                == self.spec_node_addrs()[i2] by {
                assert(self.spec_node_addrs()[i2] == self.node_addrs@[i2]@);
            }
        }
        out
    }

    /// Whether the finger at `i` lies strictly between this node and
    /// the key on the ring.
    pub open spec fn finger_precedes_key(&self, i: int, key_position: u32) -> bool {
        arc_contains(
            self.spec_self_position(),
            key_position,
            self.spec_node_positions()[i],
            false,
            false,
        )
    }

    /// The highest finger lying strictly between this node and the
    /// key: the table is scanned from the last finger down, and the
    /// first hit wins. No finger in that arc is reported as not found.
    pub fn find_nearest_preceding_finger(&self, key: Vec<u8>) -> (r: Result<usize, DhtError>)
        requires
            self.wf(),
        ensures
            match r {
                Ok(i) => {
                    &&& i < self.spec_m()
                    &&& self.finger_precedes_key(i as int, self.spec_key_position(key@))
                    &&& forall|j: int|
                        i < j < self.spec_m() ==> !self.finger_precedes_key(
                            j,
                            self.spec_key_position(key@),
                        )
                },
                Err(e) => {
                    &&& e == DhtError::NotFound
                    &&& forall|j: int|
                        0 <= j < self.spec_m() ==> !self.finger_precedes_key(
                            j,
                            self.spec_key_position(key@),
                        )
                },
            },
    {
        let key_position: u32 = self.calculate_key_position(&key);
        self.find_nearest_preceding_finger_by_position(key_position)
    }
}

/// Copies a vector of positions.
fn copy_u32s(s: &Vec<u32>) -> (r: Vec<u32>)
    ensures
        r@ == s@,
{
    let mut out: Vec<u32> = Vec::new();
    let mut i: usize = 0;
    while i < s.len()
        invariant
            i <= s@.len(),
            out@ == s@.subrange(0, i as int),
        decreases s@.len() - i,
    {
        out.push(s[i]);
        assert(out@ =~= s@.subrange(0, i + 1));
        i = i + 1;
    }
    assert(out@ =~= s@);
    out
}

} // verus!

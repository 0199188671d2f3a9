use vstd::prelude::*;
use vstd::arithmetic::div_mod::lemma_add_mod_noop;
use vstd::arithmetic::div_mod::lemma_fundamental_div_mod;
use vstd::arithmetic::div_mod::lemma_fundamental_div_mod_converse;
use vstd::arithmetic::div_mod::lemma_small_mod;
use vstd::string::StringExecFns;
use crate::label::append_decimal;
use crate::label::decimal;
use crate::scalar::below;
use crate::scalar::exact;
use crate::scalar::from_whole;
use crate::scalar::is_below;
use crate::scalar::total;
use crate::scalar::whole;
use crate::scalar::Scalar;
use vstd::std_specs::ops::AddSpec;
use vstd::std_specs::ops::DivSpec;
use vstd::std_specs::ops::MulSpec;
use vstd::std_specs::ops::RemSpec;
use rand::rngs::SmallRng;
use rand::Rng;
use rand::SeedableRng;

verus! {

/// Which edge groups an operation addresses.
pub enum SelectGroup {
    AllGroups,
    SingleGroup(usize),
    NotGroup(usize),
}

impl SelectGroup {
    /// Whether an edge of group `group` is addressed, in a network that has recorded
    /// `groups` groups. A selection that names a group not yet recorded addresses nothing.
    pub open spec fn addresses(&self, groups: nat, group: usize) -> bool {
        match self {
            SelectGroup::AllGroups => true,
            SelectGroup::SingleGroup(which) => *which < groups && group == *which,
            SelectGroup::NotGroup(which) => *which < groups && group != *which,
        }
    }

    /// Whether an edge of group `group` is addressed, in a network that has recorded
    /// `groups` groups.
    pub fn includes(&self, groups: usize, group: usize) -> (addressed: bool)
        ensures
            addressed == self.addresses(groups as nat, group),
    {
        match self {
            SelectGroup::AllGroups => true,
            SelectGroup::SingleGroup(which) => *which < groups && group == *which,
            SelectGroup::NotGroup(which) => *which < groups && group != *which,
        }
    }
}

/// Why a change to a network was refused.
#[derive(Debug, PartialEq, Eq)]
pub enum NetworkError {
    /// A relative randomisation of one or more could make a delay zero or negative.
    RelativeAmountTooLarge,
    /// The noise does not hold one draw for each edge.
    NoiseLength,
}

/// A directed coupling: node `into` receives what node `from` emitted `delay` time units ago,
/// scaled by `strength` and rotated by `turn` full turns.
#[derive(Copy, Clone)]
pub struct Edge<R> {
    /// The builder call that made this edge, counted from zero.
    pub group: usize,
    pub into: usize,
    pub from: usize,
    pub strength: R,
    /// The coupling phase in turns: 1 is a full turn.
    pub turn: R,
    pub delay: R,
}

/// The topology of a delay-coupled network: how many nodes there are and which edges join them.
pub struct Network<R> {
    pub nodes: usize,
    pub edges: Vec<Edge<R>>,
    /// One label for each builder call, in the order of the calls.
    pub edge_groups: Vec<String>,
    pub default_strength: R,
    pub default_turn: R,
    pub default_delay: R,
    /// The generator that the randomisations of the network draw from.
    pub rng: SmallRng,
    pub dt: R,
}

/// `rand::rngs::SmallRng`: a small, fast generator of pseudo-random numbers. Nothing is
/// known of what it holds.
#[verifier::external_type_specification]
#[verifier::external_body]
pub struct ExSmallRng(SmallRng);

/// `SeedableRng::seed_from_u64` of `SmallRng`: a generator started from `seed`. Which
/// generator that is depends on the machine, so nothing is claimed of it.
#[verifier::external_body]
fn seeded_generator(seed: u64) -> (rng: SmallRng) {
    SmallRng::seed_from_u64(seed)
}

/// `Rng::gen_range` of `SmallRng` on a half-open range of `i32`: a number of the range,
/// whichever the generator gives next. The crate panics on an empty range.
#[verifier::external_body]
fn draw_between(rng: &mut SmallRng, low: i32, high: i32) -> (drawn: i32)
    requires
        low < high,
    ensures
        low <= drawn < high,
{
    rng.gen_range(low..high)
}

/// Noise is drawn as a whole number of steps of this many to the unit.
pub const NOISE_STEPS: i32 = 1073741824;

/// The noise that stands for the draw `k`: `k` steps of `NOISE_STEPS` to the unit.
pub open spec fn unit_noise<R: Scalar>(k: i32) -> R {
    whole::<R>(k).div_spec(whole::<R>(NOISE_STEPS))
}

/// `x` is noise between minus one and one: it stands for a draw of at least
/// `-NOISE_STEPS` and less than `NOISE_STEPS`.
pub open spec fn is_unit_noise<R: Scalar>(x: R) -> bool {
    exists|k: i32| -NOISE_STEPS <= k < NOISE_STEPS && x == #[trigger] unit_noise::<R>(k)
}

/// The node that index `a` names on a ring of `b` nodes: `a` modulo `b`, never negative.
pub open spec fn ring_index(a: int, b: int) -> int {
    a % b
}

/// Wraps a possibly negative or too large node index onto a ring of `b` nodes.
pub fn on_ring(a: isize, b: usize) -> (node: usize)
    requires
        0 < b,
    ensures
        node == ring_index(a as int, b as int),
        node < b,
{
    if a >= 0 {
        (a as usize) % b
    } else {
        // a == -(k + 1) with k >= 0, so a mod b == b - 1 - (k mod b)
        let k: usize = (-(a + 1)) as usize;
        let r: usize = k % b;
        proof {
            lemma_wrap_negative(k as int, b as int);
        }
        b - 1 - r
    }
}

proof fn lemma_wrap_negative(k: int, b: int)
    requires
        k >= 0,
        b > 0,
    ensures
        (-(k + 1)) % b == b - 1 - (k % b),
{
    let q = k / b;
    let r = k % b;
    lemma_fundamental_div_mod(k, b);
    assert(-(k + 1) == b * (-(q + 1)) + (b - 1 - r)) by (nonlinear_arith)
        requires
            k == b * q + r,
    ;
    lemma_fundamental_div_mod_converse(-(k + 1), b, -(q + 1), b - 1 - r);
}

/// The node `b` places after node `a` on a ring of `n` nodes.
fn ring_add(a: usize, b: usize, n: usize) -> (node: usize)
    requires
        a < n,
        b < n,
    ensures
        node == ring_index(a + b, n as int),
        node < n,
{
    if a >= n - b {
        proof {
            lemma_fundamental_div_mod_converse(a + b, n as int, 1, a + b - n);
        }
        a - (n - b)
    } else {
        proof {
            lemma_small_mod((a + b) as nat, n as nat);
        }
        a + b
    }
}

/// The label of the group of a single edge.
pub open spec fn single_edge_label() -> Seq<char> {
    "single edge"@
}

/// The label of the group of a clockwise ring.
pub open spec fn ring_label() -> Seq<char> {
    "ring --> (clockwise)"@
}

/// The label of the group of a counter-clockwise ring.
pub open spec fn ring_reverse_label() -> Seq<char> {
    "ring <-- (counter-clockwise)"@
}

/// The label of the group of a ring in both directions.
pub open spec fn bi_ring_label() -> Seq<char> {
    "bidirectional ring"@
}

/// The label of the group of a diagonal; the offset is given as a place on the ring.
pub open spec fn diag_label(offset: int) -> Seq<char> {
    "diagonal with offset "@ + decimal(offset)
}

/// The label of a group of jumps.
pub open spec fn jumps_label(separation: int, distance: int) -> Seq<char> {
    "jumps (separation: "@ + decimal(separation) + ", distance: "@ + decimal(distance) + ")"@
}

/// The label of the group of a chain.
pub open spec fn chain_label(start: int, end: int) -> Seq<char> {
    "chain ["@ + decimal(start) + ".."@ + decimal(end) + "]"@
}

/// A phase brought back between zero and one turn.
pub open spec fn wrapped_turn<R: Scalar>(turn: R) -> R {
    turn.rem_spec(whole::<R>(1)).add_spec(whole::<R>(1)).rem_spec(whole::<R>(1))
}

fn wrap_turn<R: Scalar>(turn: R) -> (wrapped: R)
    requires
        total::<R>(),
    ensures
        exact::<R>() ==> wrapped == wrapped_turn(turn),
{
    let one: R = from_whole(1);
    (turn % one + one) % one
}

impl<R: Scalar> Network<R> {
    /// The edge that a builder call in progress adds from `from` into `into`.
    pub open spec fn fresh_edge(
        &self,
        into: int,
        from: int,
        strength: R,
        turn: R,
        delay: R,
    ) -> Edge<R> {
        Edge {
            group: self.edge_groups@.len() as usize,
            into: into as usize,
            from: from as usize,
            strength,
            turn,
            delay,
        }
    }

    /// `self` is `before` with the edges `added` appended, and nothing else changed.
    pub open spec fn extends(&self, before: &Network<R>, added: Seq<Edge<R>>) -> bool {
        &&& self.nodes == before.nodes
        &&& self.edges@ == before.edges@ + added
        &&& self.edge_groups@ == before.edge_groups@
        &&& self.default_strength == before.default_strength
        &&& self.default_turn == before.default_turn
        &&& self.default_delay == before.default_delay
        &&& self.rng == before.rng
        &&& self.dt == before.dt
    }

    /// `self` is `before` after one builder call: the edges `added` appended and one group,
    /// labelled `label`, recorded.
    pub open spec fn grown(&self, before: &Network<R>, added: Seq<Edge<R>>, label: Seq<char>) -> bool {
        &&& self.nodes == before.nodes
        &&& self.edges@ == before.edges@ + added
        &&& self.edge_groups@.len() == before.edge_groups@.len() + 1
        &&& self.edge_groups@.drop_last() == before.edge_groups@
        &&& self.edge_groups@.last()@ == label
        &&& self.default_strength == before.default_strength
        &&& self.default_turn == before.default_turn
        &&& self.default_delay == before.default_delay
        &&& self.rng == before.rng
        &&& self.dt == before.dt
    }

    /// The edges of a clockwise ring: every node feeds its successor.
    pub open spec fn ring_edges(&self, strength: R, turn: R, delay: R) -> Seq<Edge<R>> {
        Seq::new(
            self.nodes as nat,
            |n: int| self.fresh_edge(ring_index(n + 1, self.nodes as int), n, strength, turn, delay),
        )
    }

    /// The edges of a counter-clockwise ring: every node feeds its predecessor.
    pub open spec fn ring_reverse_edges(&self, strength: R, turn: R, delay: R) -> Seq<Edge<R>> {
        Seq::new(
            self.nodes as nat,
            |n: int| self.fresh_edge(n, ring_index(n + 1, self.nodes as int), strength, turn, delay),
        )
    }

    /// Every node is fed by the node `offset` places after it.
    pub open spec fn diag_edges(&self, offset: int, strength: R, turn: R, delay: R) -> Seq<Edge<R>> {
        Seq::new(
            self.nodes as nat,
            |n: int|
                self.fresh_edge(n, ring_index(n + offset, self.nodes as int), strength, turn, delay),
        )
    }

    /// Every node is fed by its predecessor.
    pub open spec fn ring_back_edges(&self, strength: R, turn: R, delay: R) -> Seq<Edge<R>> {
        Seq::new(
            self.nodes as nat,
            |n: int| self.fresh_edge(n, ring_index(n - 1, self.nodes as int), strength, turn, delay),
        )
    }

    /// Starting at `offset` and every `separation` nodes, a node is fed by the node
    /// `length` places after it.
    pub open spec fn jump_edges(
        &self,
        offset: int,
        separation: int,
        length: int,
        strength: R,
        turn: R,
        delay: R,
    ) -> Seq<Edge<R>> {
        Seq::new(
            (self.nodes as int / separation) as nat,
            |n: int|
                self.fresh_edge(
                    ring_index(offset + n * separation, self.nodes as int),
                    ring_index(offset + n * separation + length, self.nodes as int),
                    strength,
                    turn,
                    delay,
                ),
        )
    }

    /// From `start` up to `end`, every index feeds its successor.
    pub open spec fn chain_edges(&self, start: int, end: int, strength: R, turn: R, delay: R) -> Seq<
        Edge<R>,
    > {
        Seq::new(
            if start < end {
                (end - start) as nat
            } else {
                0
            },
            |k: int|
                self.fresh_edge(
                    ring_index(start + k + 1, self.nodes as int),
                    ring_index(start + k, self.nodes as int),
                    strength,
                    turn,
                    delay,
                ),
        )
    }

    /// A network of `nodes` nodes without edges, whose randomisations draw from a
    /// generator started from `seed`.
    pub fn new(
        nodes: usize,
        default_strength: R,
        default_turn: R,
        default_delay: R,
        seed: u64,
        dt: R,
    ) -> (net: Self)
        ensures
            net.nodes == nodes,
            net.edges@ == Seq::<Edge<R>>::empty(),
            net.edge_groups@ == Seq::<String>::empty(),
            net.default_strength == default_strength,
            net.default_turn == default_turn,
            net.default_delay == default_delay,
            net.dt == dt,
    {
        Network {
            nodes,
            edges: Vec::new(),
            edge_groups: Vec::new(),
            default_strength,
            default_turn,
            default_delay,
            rng: seeded_generator(seed),
            dt,
        }
    }

    fn new_edge(group: usize, into: usize, from: usize, strength: R, turn: R, delay: R) -> (edge:
        Edge<R>)
        ensures
            edge == (Edge { group, into, from, strength, turn, delay }),
    {
        Edge { group, into, from, strength, turn, delay }
    }

    fn insert_edge(&mut self, into: usize, from: usize, strength: R, turn: R, delay: R)
        ensures
            final(self).extends(
                old(self),
                seq![old(self).fresh_edge(into as int, from as int, strength, turn, delay)],
            ),
    {
        let edge = Self::new_edge(self.edge_groups.len(), into, from, strength, turn, delay);
        self.edges.push(edge);
        assert(self.edges@ =~= old(self).edges@ + seq![edge]);
    }

    fn close_group(&mut self, label: String)
        ensures
            final(self).grown(old(self), Seq::empty(), label@),
    {
        self.edge_groups.push(label);
        assert(self.edge_groups@.drop_last() =~= old(self).edge_groups@);
        assert(self.edges@ =~= old(self).edges@ + Seq::<Edge<R>>::empty());
    }

    /// Adds one edge; both indices are wrapped onto the ring of nodes.
    pub fn put_edge(&mut self, into: isize, from: isize, strength: R, turn: R, delay: R)
        requires
            old(self).nodes > 0,
        ensures
            final(self).grown(
                old(self),
                seq![
                    old(self).fresh_edge(
                        ring_index(into as int, old(self).nodes as int),
                        ring_index(from as int, old(self).nodes as int),
                        strength,
                        turn,
                        delay,
                    ),
                ],
                single_edge_label(),
            ),
    {
        let into_node = on_ring(into, self.nodes);
        let from_node = on_ring(from, self.nodes);
        self.insert_edge(into_node, from_node, strength, turn, delay);
        self.close_group(String::from_str("single edge"));
        assert(self.edges@ =~= old(self).edges@ + seq![
            old(self).fresh_edge(
                ring_index(into as int, old(self).nodes as int),
                ring_index(from as int, old(self).nodes as int),
                strength,
                turn,
                delay,
            ),
        ]);
    }

    /// Couples every node to the node `offset` places after it.
    pub fn put_diag(&mut self, offset: i16, strength: R, turn: R, delay: R)
        requires
            old(self).nodes > 0,
        ensures
            final(self).grown(
                old(self),
                old(self).diag_edges(offset as int, strength, turn, delay),
                diag_label(ring_index(offset as int, old(self).nodes as int)),
            ),
    {
        let shift = on_ring(offset as isize, self.nodes);
        let mut n: usize = 0;
        while n < self.nodes
            invariant
                n <= self.nodes,
                shift == ring_index(offset as int, self.nodes as int),
                shift < self.nodes,
                self.extends(
                    old(self),
                    old(self).diag_edges(offset as int, strength, turn, delay).take(n as int),
                ),
            decreases self.nodes - n,
        {
            let from = ring_add(n, shift, self.nodes);
            proof {
                lemma_small_mod(n as nat, self.nodes as nat);
                lemma_add_mod_noop(n as int, offset as int, self.nodes as int);
            }
            self.insert_edge(n, from, strength, turn, delay);
            assert(self.edges@ =~= old(self).edges@ + old(self).diag_edges(
                offset as int,
                strength,
                turn,
                delay,
            ).take(n + 1));
            n += 1;
        }
        let mut label = String::from_str("diagonal with offset ");
        append_decimal(&mut label, shift as i128);
        self.close_group(label);
        assert(old(self).diag_edges(offset as int, strength, turn, delay).take(n as int)
            =~= old(self).diag_edges(offset as int, strength, turn, delay));
    }

    /// Couples every node to its successor: node `n` feeds node `n + 1`.
    pub fn put_ring(&mut self, strength: R, turn: R, delay: R)
        ensures
            final(self).grown(
                old(self),
                old(self).ring_edges(strength, turn, delay),
                ring_label(),
            ),
    {
        let mut n: usize = 0;
        while n < self.nodes
            invariant
                n <= self.nodes,
                self.extends(old(self), old(self).ring_edges(strength, turn, delay).take(n as int)),
            decreases self.nodes - n,
        {
            self.insert_edge((n + 1) % self.nodes, n, strength, turn, delay);
            assert(self.edges@ =~= old(self).edges@ + old(self).ring_edges(
                strength,
                turn,
                delay,
            ).take(n + 1));
            n += 1;
        }
        self.close_group(String::from_str("ring --> (clockwise)"));
        assert(old(self).ring_edges(strength, turn, delay).take(n as int) =~= old(self).ring_edges(
            strength,
            turn,
            delay,
        ));
    }

    /// Couples every node to its predecessor: node `n + 1` feeds node `n`.
    pub fn put_ring_reverse(&mut self, strength: R, turn: R, delay: R)
        ensures
            final(self).grown(
                old(self),
                old(self).ring_reverse_edges(strength, turn, delay),
                ring_reverse_label(),
            ),
    {
        let mut n: usize = 0;
        while n < self.nodes
            invariant
                n <= self.nodes,
                self.extends(
                    old(self),
                    old(self).ring_reverse_edges(strength, turn, delay).take(n as int),
                ),
            decreases self.nodes - n,
        {
            self.insert_edge(n, (n + 1) % self.nodes, strength, turn, delay);
            assert(self.edges@ =~= old(self).edges@ + old(self).ring_reverse_edges(
                strength,
                turn,
                delay,
            ).take(n + 1));
            n += 1;
        }
        self.close_group(String::from_str("ring <-- (counter-clockwise)"));
        assert(old(self).ring_reverse_edges(strength, turn, delay).take(n as int) =~= old(self).ring_reverse_edges(strength, turn, delay));
    }

    /// Couples every node to both of its neighbours, as one group: first every node is fed
    /// by its successor, then every node by its predecessor.
    pub fn put_bi_ring(&mut self, strength: R, turn: R, delay: R)
        ensures
            final(self).grown(
                old(self),
                old(self).ring_reverse_edges(strength, turn, delay) + old(self).ring_back_edges(
                    strength,
                    turn,
                    delay,
                ),
                bi_ring_label(),
            ),
    {
        let ghost forth = old(self).ring_reverse_edges(strength, turn, delay);
        let ghost back = old(self).ring_back_edges(strength, turn, delay);
        let mut n: usize = 0;
        while n < self.nodes
            invariant
                n <= self.nodes,
                forth == old(self).ring_reverse_edges(strength, turn, delay),
                self.extends(old(self), forth.take(n as int)),
            decreases self.nodes - n,
        {
            self.insert_edge(n, (n + 1) % self.nodes, strength, turn, delay);
            assert(self.edges@ =~= old(self).edges@ + forth.take(n + 1));
            n += 1;
        }
        assert(forth.take(n as int) =~= forth);
        let mut m: usize = 0;
        while m < self.nodes
            invariant
                m <= self.nodes,
                back == old(self).ring_back_edges(strength, turn, delay),
                self.extends(old(self), forth + back.take(m as int)),
            decreases self.nodes - m,
        {
            let from = if m == 0 {
                self.nodes - 1
            } else {
                m - 1
            };
            proof {
                if m == 0 {
                    lemma_fundamental_div_mod_converse(
                        -1,
                        self.nodes as int,
                        -1,
                        self.nodes as int - 1,
                    );
                } else {
                    lemma_small_mod((m - 1) as nat, self.nodes as nat);
                }
            }
            self.insert_edge(m, from, strength, turn, delay);
            assert(self.edges@ =~= old(self).edges@ + (forth + back.take(m + 1)));
            m += 1;
        }
        self.close_group(String::from_str("bidirectional ring"));
        assert(back.take(m as int) =~= back);
    }

    /// Starting at `offset` and every `jump_separation` nodes, couples a node to the node
    /// `jump_length` places after it.
    pub fn put_jumps(
        &mut self,
        offset: isize,
        jump_separation: usize,
        jump_length: isize,
        strength: R,
        turn: R,
        delay: R,
    )
        requires
            jump_separation > 0,
        ensures
            final(self).grown(
                old(self),
                old(self).jump_edges(
                    offset as int,
                    jump_separation as int,
                    jump_length as int,
                    strength,
                    turn,
                    delay,
                ),
                jumps_label(jump_separation as int, jump_length as int),
            ),
    {
        let ghost added = old(self).jump_edges(
            offset as int,
            jump_separation as int,
            jump_length as int,
            strength,
            turn,
            delay,
        );
        let count = self.nodes / jump_separation;
        let mut n: usize = 0;
        while n < count
            invariant
                n <= count,
                count == self.nodes / jump_separation,
                jump_separation > 0,
                added == old(self).jump_edges(
                    offset as int,
                    jump_separation as int,
                    jump_length as int,
                    strength,
                    turn,
                    delay,
                ),
                self.extends(old(self), added.take(n as int)),
            decreases count - n,
        {
            proof {
                lemma_fundamental_div_mod(self.nodes as int, jump_separation as int);
                assert(n * jump_separation <= (count - 1) * jump_separation) by (nonlinear_arith)
                    requires
                        n <= count - 1,
                        jump_separation > 0,
                ;
                assert((count - 1) * jump_separation < self.nodes) by (nonlinear_arith)
                    requires
                        self.nodes == jump_separation * count + self.nodes as int
                            % jump_separation as int,
                        self.nodes as int % jump_separation as int >= 0,
                        jump_separation > 0,
                ;
            }
            let along: usize = n * jump_separation;
            let base = on_ring(offset, self.nodes);
            let length = on_ring(jump_length, self.nodes);
            let into = ring_add(base, along, self.nodes);
            let from = ring_add(into, length, self.nodes);
            proof {
                lemma_small_mod(along as nat, self.nodes as nat);
                lemma_add_mod_noop(offset as int, along as int, self.nodes as int);
                lemma_small_mod(into as nat, self.nodes as nat);
                lemma_add_mod_noop(
                    offset as int + along as int,
                    jump_length as int,
                    self.nodes as int,
                );
            }
            self.insert_edge(into, from, strength, turn, delay);
            assert(self.edges@ =~= old(self).edges@ + added.take(n + 1));
            n += 1;
        }
        let mut label = String::from_str("jumps (separation: ");
        append_decimal(&mut label, jump_separation as i128);
        label.append(", distance: ");
        append_decimal(&mut label, jump_length as i128);
        label.append(")");
        self.close_group(label);
        assert(added.take(n as int) =~= added);
    }

    /// Couples an open chain: from `start` up to `end`, every index feeds its successor.
    pub fn put_chain(&mut self, start: isize, end: isize, strength: R, turn: R, delay: R)
        requires
            start < end ==> old(self).nodes > 0,
        ensures
            final(self).grown(
                old(self),
                old(self).chain_edges(start as int, end as int, strength, turn, delay),
                chain_label(start as int, end as int),
            ),
    {
        let ghost added = old(self).chain_edges(start as int, end as int, strength, turn, delay);
        let mut i: isize = start;
        while i < end
            invariant
                start <= i <= end || (end <= start && i == start),
                start < end ==> self.nodes > 0,
                added == old(self).chain_edges(start as int, end as int, strength, turn, delay),
                self.extends(old(self), added.take(i - start)),
            decreases end - i,
        {
            let into = on_ring(i + 1, self.nodes);
            let from = on_ring(i, self.nodes);
            self.insert_edge(into, from, strength, turn, delay);
            assert(self.edges@ =~= old(self).edges@ + added.take(i + 1 - start));
            i += 1;
        }
        let mut label = String::from_str("chain [");
        append_decimal(&mut label, start as i128);
        label.append("..");
        append_decimal(&mut label, end as i128);
        label.append("]");
        self.close_group(label);
        assert(added.take(i - start) =~= added);
    }

    /// Whether the edge at `index` is one that `selection` addresses.
    pub open spec fn addressed(&self, selection: &SelectGroup, index: int) -> bool {
        selection.addresses(self.edge_groups@.len(), self.edges@[index].group)
    }

    /// `self` is `before` but for the strengths, turns and delays of its edges.
    pub open spec fn same_topology(&self, before: &Network<R>) -> bool {
        &&& self.nodes == before.nodes
        &&& self.edge_groups@ == before.edge_groups@
        &&& self.default_strength == before.default_strength
        &&& self.default_turn == before.default_turn
        &&& self.default_delay == before.default_delay
        &&& self.dt == before.dt
        &&& self.edges@.len() == before.edges@.len()
        &&& forall|i: int|
            0 <= i < self.edges@.len() ==> {
                &&& (#[trigger] self.edges@[i]).group == before.edges@[i].group
                &&& self.edges@[i].into == before.edges@[i].into
                &&& self.edges@[i].from == before.edges@[i].from
            }
    }

    /// Whether the edge at `index` is one that `selection` addresses; no edge is at an
    /// index past the last.
    pub fn addresses(&self, selection: &SelectGroup, index: usize) -> (addressed: bool)
        ensures
            addressed == (index < self.edges@.len() && self.addressed(selection, index as int)),
    {
        index < self.edges.len() && selection.includes(
            self.edge_groups.len(),
            self.edges[index].group,
        )
    }

    /// Turns the coupling phase of every addressed edge by `turn`.
    pub fn turn_angles(&mut self, turn: R, selection: SelectGroup)
        requires
            total::<R>(),
        ensures
            final(self).same_topology(old(self)),
            forall|i: int|
                0 <= i < old(self).edges@.len() ==> {
                    &&& (#[trigger] final(self).edges@[i]).strength == old(self).edges@[i].strength
                    &&& final(self).edges@[i].delay == old(self).edges@[i].delay
                    &&& !old(self).addressed(&selection, i) ==> final(self).edges@[i].turn == old(self).edges@[i].turn
                    &&& old(self).addressed(&selection, i) && exact::<R>() ==> final(self).edges@[i].turn == wrapped_turn(old(self).edges@[i].turn.add_spec(turn))
                },
    {
        let groups = self.edge_groups.len();
        let mut i: usize = 0;
        while i < self.edges.len()
            invariant
                total::<R>(),
                groups == old(self).edge_groups@.len(),
                i <= self.edges@.len(),
                self.same_topology(old(self)),
                forall|j: int|
                    i <= j < self.edges@.len() ==> #[trigger] self.edges@[j] == old(self).edges@[j],
                forall|j: int|
                    0 <= j < i ==> {
                        &&& (#[trigger] self.edges@[j]).strength == old(self).edges@[j].strength
                        &&& self.edges@[j].delay == old(self).edges@[j].delay
                        &&& !old(self).addressed(&selection, j) ==> self.edges@[j].turn == old(self).edges@[j].turn
                        &&& old(self).addressed(&selection, j) && exact::<R>()
                            ==> self.edges@[j].turn == wrapped_turn(
                            old(self).edges@[j].turn.add_spec(turn),
                        )
                    },
            decreases self.edges@.len() - i,
        {
            let mut edge = self.edges[i];
            if selection.includes(groups, edge.group) {
                edge.turn = wrap_turn(edge.turn + turn);
                self.edges.set(i, edge);
            }
            i += 1;
        }
    }

    /// The strength of every addressed edge of `before` has moved by its noise times
    /// `amount`; nothing else has changed.
    pub open spec fn strengths_shifted(
        &self,
        before: &Network<R>,
        amount: R,
        noise: Seq<R>,
        selection: &SelectGroup,
    ) -> bool {
        forall|i: int|
            0 <= i < before.edges@.len() ==> {
                &&& (#[trigger] self.edges@[i]).turn == before.edges@[i].turn
                &&& self.edges@[i].delay == before.edges@[i].delay
                &&& !before.addressed(selection, i) ==> self.edges@[i].strength
                    == before.edges@[i].strength
                &&& before.addressed(selection, i) && exact::<R>() ==> self.edges@[i].strength
                    == before.edges@[i].strength.add_spec(noise[i].mul_spec(amount))
            }
    }

    /// The phase of every addressed edge of `before` has turned by its noise times
    /// `amount`; nothing else has changed.
    pub open spec fn turns_shifted(
        &self,
        before: &Network<R>,
        amount: R,
        noise: Seq<R>,
        selection: &SelectGroup,
    ) -> bool {
        forall|i: int|
            0 <= i < before.edges@.len() ==> {
                &&& (#[trigger] self.edges@[i]).strength == before.edges@[i].strength
                &&& self.edges@[i].delay == before.edges@[i].delay
                &&& !before.addressed(selection, i) ==> self.edges@[i].turn
                    == before.edges@[i].turn
                &&& before.addressed(selection, i) && exact::<R>() ==> self.edges@[i].turn
                    == wrapped_turn(before.edges@[i].turn.add_spec(noise[i].mul_spec(amount)))
            }
    }

    /// The delay of every addressed edge of `before` has been scaled by one plus its noise
    /// times `rel_amount`; nothing else has changed.
    pub open spec fn delays_scaled(
        &self,
        before: &Network<R>,
        rel_amount: R,
        noise: Seq<R>,
        selection: &SelectGroup,
    ) -> bool {
        forall|i: int|
            0 <= i < before.edges@.len() ==> {
                &&& (#[trigger] self.edges@[i]).strength == before.edges@[i].strength
                &&& self.edges@[i].turn == before.edges@[i].turn
                &&& !before.addressed(selection, i) ==> self.edges@[i].delay
                    == before.edges@[i].delay
                &&& before.addressed(selection, i) && exact::<R>() ==> self.edges@[i].delay
                    == before.edges@[i].delay.mul_spec(
                    whole::<R>(1).add_spec(noise[i].mul_spec(rel_amount)),
                )
            }
    }

    /// `noise` holds one draw between minus one and one for each edge.
    pub open spec fn is_noise(&self, noise: Seq<R>) -> bool {
        &&& noise.len() == self.edges@.len()
        &&& exact::<R>() ==> forall|i: int| 0 <= i < noise.len() ==> is_unit_noise(#[trigger] noise[i])
    }

    /// Draws the noise for a randomisation: for every addressed edge the next number of
    /// the generator, for the others none.
    fn draw_noise(&mut self, selection: &SelectGroup) -> (noise: Vec<R>)
        requires
            total::<R>(),
        ensures
            final(self).same_topology(old(self)),
            final(self).edges@ == old(self).edges@,
            final(self).is_noise(noise@),
    {
        let groups = self.edge_groups.len();
        let steps: R = from_whole(NOISE_STEPS);
        let mut noise: Vec<R> = Vec::new();
        let mut i: usize = 0;
        while i < self.edges.len()
            invariant
                total::<R>(),
                groups == old(self).edge_groups@.len(),
                exact::<R>() ==> steps == whole::<R>(NOISE_STEPS),
                i <= self.edges@.len(),
                noise@.len() == i,
                self.same_topology(old(self)),
                self.edges@ == old(self).edges@,
                exact::<R>() ==> forall|j: int| 0 <= j < i ==> is_unit_noise(#[trigger] noise@[j]),
            decreases self.edges@.len() - i,
        {
            let drawn: i32 = if selection.includes(groups, self.edges[i].group) {
                draw_between(&mut self.rng, -NOISE_STEPS, NOISE_STEPS)
            } else {
                0
            };
            let whole_draw: R = from_whole(drawn);
            let unit = whole_draw / steps;
            assert(exact::<R>() ==> unit == unit_noise::<R>(drawn));
            noise.push(unit);
            i += 1;
        }
        noise
    }

    /// Adds to the strength of every addressed edge its entry of `noise`, scaled by
    /// `amount`. `noise` holds one entry for each edge of the network, addressed or not.
    pub fn randomize_strength_with(
        &mut self,
        amount: R,
        noise: &Vec<R>,
        selection: &SelectGroup,
    ) -> (done: Result<(), NetworkError>)
        requires
            total::<R>(),
        ensures
            final(self).same_topology(old(self)),
            final(self).rng == old(self).rng,
            done is Err <==> noise@.len() != old(self).edges@.len(),
            done is Err ==> done == Err::<(), NetworkError>(NetworkError::NoiseLength)
                && *final(self) == *old(self),
            done is Ok ==> final(self).strengths_shifted(old(self), amount, noise@, selection),
    {
        if noise.len() != self.edges.len() {
            return Err(NetworkError::NoiseLength);
        }
        self.shift_strengths(amount, noise, selection);
        Ok(())
    }

    fn shift_strengths(&mut self, amount: R, noise: &Vec<R>, selection: &SelectGroup)
        requires
            total::<R>(),
            noise@.len() == old(self).edges@.len(),
        ensures
            final(self).same_topology(old(self)),
            final(self).rng == old(self).rng,
            final(self).strengths_shifted(old(self), amount, noise@, selection),
    {
        let groups = self.edge_groups.len();
        let mut i: usize = 0;
        while i < self.edges.len()
            invariant
                total::<R>(),
                groups == old(self).edge_groups@.len(),
                noise@.len() == self.edges@.len(),
                i <= self.edges@.len(),
                self.same_topology(old(self)),
                self.rng == old(self).rng,
                forall|j: int|
                    i <= j < self.edges@.len() ==> #[trigger] self.edges@[j] == old(self).edges@[j],
                forall|j: int|
                    0 <= j < i ==> {
                        &&& (#[trigger] self.edges@[j]).turn == old(self).edges@[j].turn
                        &&& self.edges@[j].delay == old(self).edges@[j].delay
                        &&& !old(self).addressed(selection, j) ==> self.edges@[j].strength == old(self).edges@[j].strength
                        &&& old(self).addressed(selection, j) && exact::<R>()
                            ==> self.edges@[j].strength == old(self).edges@[j].strength.add_spec(
                            noise@[j].mul_spec(amount),
                        )
                    },
            decreases self.edges@.len() - i,
        {
            let mut edge = self.edges[i];
            if selection.includes(groups, edge.group) {
                edge.strength = edge.strength + noise[i] * amount;
                self.edges.set(i, edge);
            }
            i += 1;
        }
    }

    /// Adds to the strength of every addressed edge noise between minus `amount` and
    /// `amount`, drawn from the generator of the network.
    pub fn randomize_strength(&mut self, amount: R, selection: SelectGroup)
        requires
            total::<R>(),
        ensures
            final(self).same_topology(old(self)),
            exists|noise: Seq<R>|
                old(self).is_noise(noise) && #[trigger] final(self).strengths_shifted(
                    old(self),
                    amount,
                    noise,
                    &selection,
                ),
    {
        let noise = self.draw_noise(&selection);
        let ghost drawn = *self;
        self.shift_strengths(amount, &noise, &selection);
        assert(self.strengths_shifted(&drawn, amount, noise@, &selection));
        assert(self.strengths_shifted(old(self), amount, noise@, &selection));
    }

    /// Turns the coupling phase of every addressed edge by its entry of `noise`, scaled by
    /// `amount`. `noise` holds one entry for each edge of the network, addressed or not.
    pub fn randomize_angle_with(
        &mut self,
        amount: R,
        noise: &Vec<R>,
        selection: &SelectGroup,
    ) -> (done: Result<(), NetworkError>)
        requires
            total::<R>(),
        ensures
            final(self).same_topology(old(self)),
            final(self).rng == old(self).rng,
            done is Err <==> noise@.len() != old(self).edges@.len(),
            done is Err ==> done == Err::<(), NetworkError>(NetworkError::NoiseLength)
                && *final(self) == *old(self),
            done is Ok ==> final(self).turns_shifted(old(self), amount, noise@, selection),
    {
        if noise.len() != self.edges.len() {
            return Err(NetworkError::NoiseLength);
        }
        self.shift_turns(amount, noise, selection);
        Ok(())
    }

    fn shift_turns(&mut self, amount: R, noise: &Vec<R>, selection: &SelectGroup)
        requires
            total::<R>(),
            noise@.len() == old(self).edges@.len(),
        ensures
            final(self).same_topology(old(self)),
            final(self).rng == old(self).rng,
            final(self).turns_shifted(old(self), amount, noise@, selection),
    {
        let groups = self.edge_groups.len();
        let mut i: usize = 0;
        while i < self.edges.len()
            invariant
                total::<R>(),
                groups == old(self).edge_groups@.len(),
                noise@.len() == self.edges@.len(),
                i <= self.edges@.len(),
                self.same_topology(old(self)),
                self.rng == old(self).rng,
                forall|j: int|
                    i <= j < self.edges@.len() ==> #[trigger] self.edges@[j] == old(self).edges@[j],
                forall|j: int|
                    0 <= j < i ==> {
                        &&& (#[trigger] self.edges@[j]).strength == old(self).edges@[j].strength
                        &&& self.edges@[j].delay == old(self).edges@[j].delay
                        &&& !old(self).addressed(selection, j) ==> self.edges@[j].turn == old(self).edges@[j].turn
                        &&& old(self).addressed(selection, j) && exact::<R>()
                            ==> self.edges@[j].turn == wrapped_turn(
                            old(self).edges@[j].turn.add_spec(noise@[j].mul_spec(amount)),
                        )
                    },
            decreases self.edges@.len() - i,
        {
            let mut edge = self.edges[i];
            if selection.includes(groups, edge.group) {
                edge.turn = wrap_turn(edge.turn + noise[i] * amount);
                self.edges.set(i, edge);
            }
            i += 1;
        }
    }

    /// Turns the coupling phase of every addressed edge by noise between minus `amount`
    /// and `amount`, drawn from the generator of the network.
    pub fn randomize_angle(&mut self, amount: R, selection: SelectGroup)
        requires
            total::<R>(),
        ensures
            final(self).same_topology(old(self)),
            exists|noise: Seq<R>|
                old(self).is_noise(noise) && #[trigger] final(self).turns_shifted(
                    old(self),
                    amount,
                    noise,
                    &selection,
                ),
    {
        let noise = self.draw_noise(&selection);
        let ghost drawn = *self;
        self.shift_turns(amount, &noise, &selection);
        assert(self.turns_shifted(&drawn, amount, noise@, &selection));
        assert(self.turns_shifted(old(self), amount, noise@, &selection));
    }

    /// Scales the delay of every addressed edge by one plus its entry of `noise` times
    /// `rel_amount`. Refused where `rel_amount` is not below one, since a delay could then
    /// become zero or negative. `noise` holds one entry for each edge, addressed or not.
    pub fn randomize_delay_relative_with(
        &mut self,
        rel_amount: R,
        noise: &Vec<R>,
        selection: &SelectGroup,
    ) -> (done: Result<(), NetworkError>)
        requires
            total::<R>(),
        ensures
            final(self).same_topology(old(self)),
            final(self).rng == old(self).rng,
            done is Err ==> *final(self) == *old(self),
            exact::<R>() ==> (done == Err::<(), NetworkError>(
                NetworkError::RelativeAmountTooLarge,
            ) <==> !below(rel_amount, whole::<R>(1))),
            exact::<R>() ==> (done == Err::<(), NetworkError>(NetworkError::NoiseLength) <==> below(
                rel_amount,
                whole::<R>(1),
            ) && noise@.len() != old(self).edges@.len()),
            done == Err::<(), NetworkError>(NetworkError::NoiseLength) ==> noise@.len() != old(self).edges@.len(),
            done is Ok ==> noise@.len() == old(self).edges@.len(),
            done is Ok ==> final(self).delays_scaled(old(self), rel_amount, noise@, selection),
    {
        let one: R = from_whole(1);
        if !is_below(rel_amount, one) {
            return Err(NetworkError::RelativeAmountTooLarge);
        }
        if noise.len() != self.edges.len() {
            return Err(NetworkError::NoiseLength);
        }
        self.scale_delays(rel_amount, noise, selection);
        Ok(())
    }

    fn scale_delays(&mut self, rel_amount: R, noise: &Vec<R>, selection: &SelectGroup)
        requires
            total::<R>(),
            noise@.len() == old(self).edges@.len(),
        ensures
            final(self).same_topology(old(self)),
            final(self).rng == old(self).rng,
            final(self).delays_scaled(old(self), rel_amount, noise@, selection),
    {
        let one: R = from_whole(1);
        let groups = self.edge_groups.len();
        let mut i: usize = 0;
        while i < self.edges.len()
            invariant
                total::<R>(),
                exact::<R>() ==> one == whole::<R>(1),
                groups == old(self).edge_groups@.len(),
                noise@.len() == self.edges@.len(),
                i <= self.edges@.len(),
                self.same_topology(old(self)),
                self.rng == old(self).rng,
                forall|j: int|
                    i <= j < self.edges@.len() ==> #[trigger] self.edges@[j] == old(self).edges@[j],
                forall|j: int|
                    0 <= j < i ==> {
                        &&& (#[trigger] self.edges@[j]).strength == old(self).edges@[j].strength
                        &&& self.edges@[j].turn == old(self).edges@[j].turn
                        &&& !old(self).addressed(selection, j) ==> self.edges@[j].delay == old(self).edges@[j].delay
                        &&& old(self).addressed(selection, j) && exact::<R>()
                            ==> self.edges@[j].delay == old(self).edges@[j].delay.mul_spec(
                            whole::<R>(1).add_spec(noise@[j].mul_spec(rel_amount)),
                        )
                    },
            decreases self.edges@.len() - i,
        {
            let mut edge = self.edges[i];
            if selection.includes(groups, edge.group) {
                edge.delay = edge.delay * (one + noise[i] * rel_amount);
                self.edges.set(i, edge);
            }
            i += 1;
        }
    }

    /// Scales the delay of every addressed edge by one plus noise between minus
    /// `rel_amount` and `rel_amount`, drawn from the generator of the network. Refused,
    /// before anything is drawn, where `rel_amount` is not below one.
    pub fn randomize_delay_relative(&mut self, rel_amount: R, selection: SelectGroup) -> (done:
        Result<(), NetworkError>)
        requires
            total::<R>(),
        ensures
            final(self).same_topology(old(self)),
            done is Err ==> *final(self) == *old(self) && done == Err::<(), NetworkError>(
                NetworkError::RelativeAmountTooLarge,
            ),
            exact::<R>() ==> (done is Err <==> !below(rel_amount, whole::<R>(1))),
            done is Ok ==> exists|noise: Seq<R>|
                old(self).is_noise(noise) && #[trigger] final(self).delays_scaled(
                    old(self),
                    rel_amount,
                    noise,
                    &selection,
                ),
    {
        let one: R = from_whole(1);
        if !is_below(rel_amount, one) {
            return Err(NetworkError::RelativeAmountTooLarge);
        }
        let noise = self.draw_noise(&selection);
        let ghost drawn = *self;
        self.scale_delays(rel_amount, &noise, &selection);
        assert(self.delays_scaled(&drawn, rel_amount, noise@, &selection));
        assert(self.delays_scaled(old(self), rel_amount, noise@, &selection));
        Ok(())
    }

    /// Drops the edges that carry nothing: those whose strength is not above zero.
    pub fn simplify_network(&mut self)
        ensures
            final(self).extends_nothing(old(self)),
            final(self).edges@.len() <= old(self).edges@.len(),
            forall|j: int|
                0 <= j < final(self).edges@.len() ==> old(self).edges@.contains(
                    #[trigger] final(self).edges@[j],
                ),
            exact::<R>() ==> final(self).edges@ == old(self).edges@.filter(
                |edge: Edge<R>| below(whole::<R>(0), edge.strength),
            ),
    {
        self.remove_irrelevant_edges();
    }

    /// `self` is `before` but for its list of edges.
    pub open spec fn extends_nothing(&self, before: &Network<R>) -> bool {
        &&& self.nodes == before.nodes
        &&& self.edge_groups@ == before.edge_groups@
        &&& self.default_strength == before.default_strength
        &&& self.default_turn == before.default_turn
        &&& self.default_delay == before.default_delay
        &&& self.rng == before.rng
        &&& self.dt == before.dt
    }

    fn remove_irrelevant_edges(&mut self)
        ensures
            final(self).extends_nothing(old(self)),
            final(self).edges@.len() <= old(self).edges@.len(),
            forall|j: int|
                0 <= j < final(self).edges@.len() ==> old(self).edges@.contains(
                    #[trigger] final(self).edges@[j],
                ),
            exact::<R>() ==> final(self).edges@ == old(self).edges@.filter(
                |edge: Edge<R>| below(whole::<R>(0), edge.strength),
            ),
    {
        let zero: R = from_whole(0);
        let ghost carries = |edge: Edge<R>| below(whole::<R>(0), edge.strength);
        let mut kept: Vec<Edge<R>> = Vec::new();
        let mut i: usize = 0;
        proof {
            reveal(Seq::filter);
            assert(self.edges@.take(0).filter(carries) =~= Seq::<Edge<R>>::empty());
        }
        while i < self.edges.len()
            invariant
                i <= self.edges@.len(),
                *self == *old(self),
                exact::<R>() ==> zero == whole::<R>(0),
                carries == |edge: Edge<R>| below(whole::<R>(0), edge.strength),
                kept@.len() <= i,
                forall|j: int| 0 <= j < kept@.len() ==> self.edges@.contains(#[trigger] kept@[j]),
                exact::<R>() ==> kept@ == self.edges@.take(i as int).filter(carries),
            decreases self.edges@.len() - i,
        {
            let edge = self.edges[i];
            proof {
                assert(self.edges@.take(i + 1) =~= self.edges@.take(i as int).push(edge));
                self.edges@.take(i as int).lemma_filter_push(edge, carries);
            }
            if is_below(zero, edge.strength) {
                kept.push(edge);
            }
            i += 1;
        }
        assert(self.edges@.take(i as int) =~= self.edges@);
        self.edges = kept;
    }

    /// The edges that end in node `into`, in the order in which they were added.
    pub fn get_edges_into_node(&self, into: usize) -> (incoming: Vec<Edge<R>>)
        ensures
            incoming@ == self.edges_into(into),
    {
        let ghost ends_here = |edge: Edge<R>| edge.into == into;
        let mut incoming: Vec<Edge<R>> = Vec::new();
        let mut i: usize = 0;
        proof {
            reveal(Seq::filter);
            assert(self.edges@.take(0).filter(ends_here) =~= Seq::<Edge<R>>::empty());
        }
        while i < self.edges.len()
            invariant
                i <= self.edges@.len(),
                ends_here == |edge: Edge<R>| edge.into == into,
                incoming@ == self.edges@.take(i as int).filter(ends_here),
            decreases self.edges@.len() - i,
        {
            let edge = self.edges[i];
            proof {
                assert(self.edges@.take(i + 1) =~= self.edges@.take(i as int).push(edge));
                self.edges@.take(i as int).lemma_filter_push(edge, ends_here);
            }
            if edge.into == into {
                incoming.push(edge);
            }
            i += 1;
        }
        assert(self.edges@.take(i as int) =~= self.edges@);
        incoming
    }

    /// The edges that end in node `into`, in the order in which they were added.
    pub open spec fn edges_into(&self, into: usize) -> Seq<Edge<R>> {
        self.edges@.filter(|edge: Edge<R>| edge.into == into)
    }

    /// For every node, the edges that end in it.
    pub open spec fn incoming(&self) -> Seq<Seq<Edge<R>>> {
        Seq::new(self.nodes as nat, |n: int| self.edges_into(n as usize))
    }

    /// For every node, the edges that end in it.
    pub fn get_edges_into_nodes(&self) -> (incoming: Vec<Vec<Edge<R>>>)
        ensures
            incoming@.len() == self.nodes,
            forall|n: int| 0 <= n < self.nodes ==> (#[trigger] incoming@[n])@ == self.edges_into(
                n as usize,
            ),
            incoming@.map_values(|list: Vec<Edge<R>>| list@) == self.incoming(),
    {
        let mut incoming: Vec<Vec<Edge<R>>> = Vec::new();
        let mut n: usize = 0;
        while n < self.nodes
            invariant
                n <= self.nodes,
                incoming@.len() == n,
                forall|m: int| 0 <= m < n ==> (#[trigger] incoming@[m])@ == self.edges_into(
                    m as usize,
                ),
            decreases self.nodes - n,
        {
            incoming.push(self.get_edges_into_node(n));
            n += 1;
        }
        assert(incoming@.map_values(|list: Vec<Edge<R>>| list@) =~= self.incoming());
        incoming
    }

    pub fn get_nodes(&self) -> (nodes: usize)
        ensures
            nodes == self.nodes,
    {
        self.nodes
    }

    /// The number of builder calls so far.
    pub fn get_edge_groups(&self) -> (groups: usize)
        ensures
            groups == self.edge_groups@.len(),
    {
        self.edge_groups.len()
    }
}

} // verus!

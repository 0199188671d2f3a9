use vstd::prelude::*;
use vstd::std_specs::ops::AddSpec;
use vstd::std_specs::ops::MulSpec;
use crate::dynamical_system::feedback_exact;
use crate::dynamical_system::feedback_total;
use crate::dynamical_system::Feedback;
use crate::integration_methods::RungeKuttaDelay;
use crate::ring::pushed;
use crate::ring::sample_at;
use crate::ring::DelayLine;
use vstd::std_specs::ops::DivSpec;
use crate::dynamical_system::WeightFromEdge;
use crate::network::Edge;
use crate::network::Network;
use crate::scalar::below;
use crate::scalar::ceil_spec;
use crate::scalar::ceil_steps;
use crate::scalar::exact;
use crate::scalar::from_whole;
use crate::scalar::is_below;
use crate::scalar::is_power_of_two;
use crate::scalar::larger;
use crate::scalar::larger_of;
use crate::scalar::lemma_power_of_two_at_least;
use crate::scalar::next_power_of_two;
use crate::scalar::power_of_two_at_least;
use crate::scalar::round_spec;
use crate::scalar::round_steps;
use crate::scalar::total;
use crate::scalar::whole;
use crate::scalar::lemma_power_of_two_is_smallest;
use crate::scalar::Scalar;
use crate::scalar::STEP_LIMIT;
use crate::slots::lemma_ring_limit;
use crate::slots::RING_LIMIT;

verus! {

/// One delayed read: take the sample that node `at_node` pushed `at_delay` steps ago and
/// multiply it by `weight`.
#[derive(Clone, Copy, Debug)]
pub struct ReadAtMultiply<WeightT> {
    pub at_node: usize,
    pub at_delay: usize,
    pub weight: WeightT,
}

impl<WeightT> ReadAtMultiply<WeightT> {
    pub fn new(at_node: usize, at_delay: usize, weight: WeightT) -> (reader: Self)
        ensures
            reader == (ReadAtMultiply { at_node, at_delay, weight }),
    {
        ReadAtMultiply { at_node, at_delay, weight }
    }
}

/// Why a network cannot be given a history.
#[derive(Debug, PartialEq, Eq)]
pub enum HistoryError {
    /// An edge starts at a node that the network does not have.
    EdgeFromNonexistentNode,
    /// The delay of an edge is not above zero, or is less than half a step.
    DelayTooSmall,
    /// A delay, counted in steps, is not a number below the limit of step counts, or is
    /// more than a delay line can hold.
    StepCountOutOfRange,
}

/// The delay of an edge counted in steps of width `dt`, rounded to the nearest step; or
/// the reason why the edge cannot be used.
pub open spec fn edge_steps<R: Scalar>(edge: Edge<R>, nodes: usize, dt: R) -> Result<
    usize,
    HistoryError,
> {
    if edge.from >= nodes {
        Err(HistoryError::EdgeFromNonexistentNode)
    } else if !below(whole::<R>(0), edge.delay) {
        Err(HistoryError::DelayTooSmall)
    } else {
        match round_spec(edge.delay.div_spec(dt)) {
            None => Err(HistoryError::StepCountOutOfRange),
            Some(steps) => if steps == 0 {
                Err(HistoryError::DelayTooSmall)
            } else {
                Ok(steps)
            },
        }
    }
}

/// The fault of the first edge of a list that cannot be used, if there is one.
pub open spec fn list_fault<R: Scalar>(edges: Seq<Edge<R>>, nodes: usize, dt: R) -> Option<
    HistoryError,
>
    decreases edges.len(),
{
    if edges.len() == 0 {
        None
    } else {
        match list_fault(edges.drop_last(), nodes, dt) {
            Some(fault) => Some(fault),
            None => match edge_steps(edges.last(), nodes, dt) {
                Err(fault) => Some(fault),
                Ok(_) => None,
            },
        }
    }
}

/// The fault of the first edge that cannot be used, going through the nodes in order and
/// through the incoming edges of each in order.
pub open spec fn lists_fault<R: Scalar>(incoming: Seq<Seq<Edge<R>>>, nodes: usize, dt: R) -> Option<
    HistoryError,
>
    decreases incoming.len(),
{
    if incoming.len() == 0 {
        None
    } else {
        match lists_fault(incoming.drop_last(), nodes, dt) {
            Some(fault) => Some(fault),
            None => list_fault(incoming.last(), nodes, dt),
        }
    }
}

/// The larger of `longest` and the delays of those edges of the list that start at `source`.
pub open spec fn longest_in_list<R: Scalar>(longest: R, edges: Seq<Edge<R>>, source: usize) -> R
    decreases edges.len(),
{
    if edges.len() == 0 {
        longest
    } else {
        let before = longest_in_list(longest, edges.drop_last(), source);
        if edges.last().from == source {
            larger(before, edges.last().delay)
        } else {
            before
        }
    }
}

/// The longest delay with which any node reads node `source`; zero where none does.
pub open spec fn longest_delay<R: Scalar>(incoming: Seq<Seq<Edge<R>>>, source: usize) -> R
    decreases incoming.len(),
{
    if incoming.len() == 0 {
        whole::<R>(0)
    } else {
        longest_in_list(longest_delay(incoming.drop_last(), source), incoming.last(), source)
    }
}

/// The longest delay with which any node reads one of the first `sources` nodes.
pub open spec fn longest_overall<R: Scalar>(incoming: Seq<Seq<Edge<R>>>, sources: nat) -> R
    decreases sources,
{
    if sources == 0 {
        whole::<R>(0)
    } else {
        larger(
            longest_overall(incoming, (sources - 1) as nat),
            longest_delay(incoming, (sources - 1) as usize),
        )
    }
}

/// The span of time that the delay line of `source` must cover: the longest delay with
/// which it is read or, under uniform sizing, the longest delay in the network.
pub open spec fn required_span<R: Scalar>(
    incoming: Seq<Seq<Edge<R>>>,
    source: usize,
    uniform: bool,
) -> R {
    if uniform {
        longest_overall(incoming, incoming.len())
    } else {
        longest_delay(incoming, source)
    }
}

/// The steps that a delay line must cover to span `span`: the span over `dt`, rounded up;
/// nothing where that is more than a delay line can hold.
pub open spec fn span_steps<R: Scalar>(span: R, dt: R) -> Option<usize> {
    match ceil_spec(span.div_spec(dt)) {
        Some(steps) => if steps <= RING_LIMIT {
            Some(steps)
        } else {
            None
        },
        None => None,
    }
}

/// The steps that the delay line of `source` must cover.
pub open spec fn required_steps<R: Scalar>(
    incoming: Seq<Seq<Edge<R>>>,
    source: usize,
    uniform: bool,
    dt: R,
) -> Option<usize> {
    span_steps(required_span(incoming, source, uniform), dt)
}

/// The reader that an edge becomes.
pub open spec fn reader_of<S: Feedback>(edge: Edge<S::RealT>, nodes: usize, dt: S::RealT) -> ReadAtMultiply<
    S::WeightT,
> {
    ReadAtMultiply {
        at_node: edge.from,
        at_delay: match edge_steps(edge, nodes, dt) {
            Ok(steps) => steps,
            Err(_) => 0,
        },
        weight: S::WeightT::weight_spec(edge),
    }
}

/// Why no history can be built for these incoming edges, if that is so: the first fault
/// of an edge or, where every edge can be used, a delay line that would be too long.
pub open spec fn build_fault<R: Scalar>(
    incoming: Seq<Seq<Edge<R>>>,
    uniform: bool,
    dt: R,
) -> Option<HistoryError> {
    match lists_fault(incoming, incoming.len() as usize, dt) {
        Some(fault) => Some(fault),
        None => if exists|n: int|
            0 <= n < incoming.len() && (#[trigger] required_steps(
                incoming,
                n as usize,
                uniform,
                dt,
            )) is None {
            Some(HistoryError::StepCountOutOfRange)
        } else {
            None
        },
    }
}

/// The sample that stands for a node that has emitted nothing yet.
pub open spec fn zero_entry<S: Feedback>() -> RungeKuttaDelay<S::FeedbackT> {
    RungeKuttaDelay { state: S::zero_feedback_spec(), slope: S::zero_feedback_spec() }
}

/// A sample multiplied by a weight, value and slope alike.
pub open spec fn entry_times<S: Feedback>(
    entry: RungeKuttaDelay<S::FeedbackT>,
    weight: S::WeightT,
) -> RungeKuttaDelay<S::FeedbackT> {
    RungeKuttaDelay { state: entry.state.mul_spec(weight), slope: entry.slope.mul_spec(weight) }
}

/// The sum of two samples, value and slope alike.
pub open spec fn entry_plus<S: Feedback>(
    a: RungeKuttaDelay<S::FeedbackT>,
    b: RungeKuttaDelay<S::FeedbackT>,
) -> RungeKuttaDelay<S::FeedbackT> {
    RungeKuttaDelay { state: a.state.add_spec(b.state), slope: a.slope.add_spec(b.slope) }
}

/// What one reader contributes to a tap: the sample that stands `shift` steps after the
/// one its delay points at, multiplied by its weight.
pub open spec fn reading<S: Feedback>(
    lines: Seq<Seq<RungeKuttaDelay<S::FeedbackT>>>,
    reader: ReadAtMultiply<S::WeightT>,
    shift: int,
) -> RungeKuttaDelay<S::FeedbackT> {
    entry_times::<S>(sample_at(lines[reader.at_node as int], shift - reader.at_delay), reader.weight)
}

/// The tap of a node: the readings of its readers, added up from the first to the last,
/// starting from zero.
pub open spec fn weighted_sum<S: Feedback>(
    lines: Seq<Seq<RungeKuttaDelay<S::FeedbackT>>>,
    readers: Seq<ReadAtMultiply<S::WeightT>>,
    shift: int,
) -> RungeKuttaDelay<S::FeedbackT>
    decreases readers.len(),
{
    if readers.len() == 0 {
        zero_entry::<S>()
    } else {
        entry_plus::<S>(
            weighted_sum::<S>(lines, readers.drop_last(), shift),
            reading::<S>(lines, readers.last(), shift),
        )
    }
}

/// The pair of taps that one step of the integrator needs: the delayed input at the start
/// of the step and at its end.
pub open spec fn tap_pair<S: Feedback>(
    lines: Seq<Seq<RungeKuttaDelay<S::FeedbackT>>>,
    readers: Seq<ReadAtMultiply<S::WeightT>>,
) -> Seq<RungeKuttaDelay<S::FeedbackT>> {
    seq![weighted_sum::<S>(lines, readers, 0), weighted_sum::<S>(lines, readers, 1)]
}

/// The delay lines after each of the first nodes has pushed its sample of `samples`;
/// where there are fewer samples than nodes, the last nodes push nothing.
pub open spec fn lines_pushed<T>(lines: Seq<Seq<T>>, samples: Seq<T>) -> Seq<Seq<T>> {
    Seq::new(
        lines.len(),
        |n: int|
            if n < samples.len() {
                pushed(lines[n], samples[n])
            } else {
                lines[n]
            },
    )
}

/// Counts the delay of an edge in steps, or says why the edge cannot be used.
fn one_edge_steps<R: Scalar>(edge: &Edge<R>, nodes: usize, dt: R) -> (steps: Result<
    usize,
    HistoryError,
>)
    requires
        total::<R>(),
    ensures
        steps matches Ok(count) ==> 1 <= count <= STEP_LIMIT && edge.from < nodes,
        steps == Err::<usize, HistoryError>(HistoryError::EdgeFromNonexistentNode) <==> edge.from
            >= nodes,
        exact::<R>() ==> steps == edge_steps(*edge, nodes, dt),
{
    if edge.from >= nodes {
        return Err(HistoryError::EdgeFromNonexistentNode);
    }
    let zero: R = from_whole(0);
    if !is_below(zero, edge.delay) {
        return Err(HistoryError::DelayTooSmall);
    }
    match round_steps(edge.delay / dt) {
        None => Err(HistoryError::StepCountOutOfRange),
        Some(count) => if count == 0 {
            Err(HistoryError::DelayTooSmall)
        } else {
            Ok(count)
        },
    }
}

/// Turns the incoming edges of one node into its readers, up to the first edge that
/// cannot be used.
fn list_readers<S: Feedback>(edges: &Vec<Edge<S::RealT>>, nodes: usize, dt: S::RealT) -> (readers:
    Result<Vec<ReadAtMultiply<S::WeightT>>, HistoryError>)
    requires
        feedback_total::<S>(),
    ensures
        readers matches Ok(list) ==> list@.len() == edges@.len() && forall|j: int|
            0 <= j < list@.len() ==> {
                &&& (#[trigger] list@[j]).at_node == edges@[j].from
                &&& list@[j].at_node < nodes
                &&& 1 <= list@[j].at_delay <= STEP_LIMIT
            },
        readers == Err::<Vec<ReadAtMultiply<S::WeightT>>, HistoryError>(
            HistoryError::EdgeFromNonexistentNode,
        ) ==> exists|j: int| 0 <= j < edges@.len() && (#[trigger] edges@[j]).from >= nodes,
        feedback_exact::<S>() ==> match readers {
            Ok(list) => list_fault(edges@, nodes, dt) is None && list@ == edges@.map_values(
                |edge: Edge<S::RealT>| reader_of::<S>(edge, nodes, dt),
            ),
            Err(fault) => list_fault(edges@, nodes, dt) == Some(fault),
        },
{
    let mut list: Vec<ReadAtMultiply<S::WeightT>> = Vec::new();
    let mut j: usize = 0;
    assert(edges@.take(0) =~= Seq::empty());
    while j < edges.len()
        invariant
            feedback_total::<S>(),
            j <= edges@.len(),
            list@.len() == j,
            forall|k: int|
                0 <= k < j ==> {
                    &&& (#[trigger] list@[k]).at_node == edges@[k].from
                    &&& list@[k].at_node < nodes
                    &&& 1 <= list@[k].at_delay <= STEP_LIMIT
                },
            feedback_exact::<S>() ==> list_fault(edges@.take(j as int), nodes, dt) is None,
            feedback_exact::<S>() ==> forall|k: int|
                0 <= k < j ==> #[trigger] list@[k] == reader_of::<S>(edges@[k], nodes, dt),
        decreases edges@.len() - j,
    {
        let edge = edges[j];
        proof {
            assert(edges@.take(j + 1).drop_last() =~= edges@.take(j as int));
            assert(edges@.take(j + 1).last() == edge);
        }
        match one_edge_steps(&edge, nodes, dt) {
            Err(fault) => {
                proof {
                    if feedback_exact::<S>() {
                        lemma_list_fault_stays(edges@, j + 1, nodes, dt);
                    }
                }
                return Err(fault);
            },
            Ok(steps) => {
                list.push(
                    ReadAtMultiply {
                        at_node: edge.from,
                        at_delay: steps,
                        weight: S::WeightT::from_edge(&edge),
                    },
                );
            },
        }
        j += 1;
    }
    proof {
        assert(edges@.take(j as int) =~= edges@);
        if feedback_exact::<S>() {
            assert(list@ =~= edges@.map_values(
                |edge: Edge<S::RealT>| reader_of::<S>(edge, nodes, dt),
            ));
        }
    }
    Ok(list)
}

/// A fault found among the first edges of a list is the fault of the list.
proof fn lemma_list_fault_stays<R: Scalar>(edges: Seq<Edge<R>>, upto: int, nodes: usize, dt: R)
    requires
        0 <= upto <= edges.len(),
        list_fault(edges.take(upto), nodes, dt) is Some,
    ensures
        list_fault(edges, nodes, dt) == list_fault(edges.take(upto), nodes, dt),
    decreases edges.len() - upto,
{
    if upto < edges.len() {
        assert(edges.take(upto + 1).drop_last() =~= edges.take(upto));
        lemma_list_fault_stays(edges, upto + 1, nodes, dt);
    } else {
        assert(edges.take(upto) =~= edges);
    }
}

/// A fault found among the incoming edges of the first nodes is the fault of the network.
proof fn lemma_lists_fault_stays<R: Scalar>(
    incoming: Seq<Seq<Edge<R>>>,
    upto: int,
    nodes: usize,
    dt: R,
)
    requires
        0 <= upto <= incoming.len(),
        lists_fault(incoming.take(upto), nodes, dt) is Some,
    ensures
        lists_fault(incoming, nodes, dt) == lists_fault(incoming.take(upto), nodes, dt),
    decreases incoming.len() - upto,
{
    if upto < incoming.len() {
        assert(incoming.take(upto + 1).drop_last() =~= incoming.take(upto));
        lemma_lists_fault_stays(incoming, upto + 1, nodes, dt);
    } else {
        assert(incoming.take(upto) =~= incoming);
    }
}

/// The incoming edges of every node, as the lists they are.
pub open spec fn lists_of<R>(incoming: Seq<Vec<Edge<R>>>) -> Seq<Seq<Edge<R>>> {
    incoming.map_values(|list: Vec<Edge<R>>| list@)
}

/// Turns the incoming edges of every node into its readers, up to the first edge that
/// cannot be used.
fn all_readers<S: Feedback>(incoming: &Vec<Vec<Edge<S::RealT>>>, dt: S::RealT) -> (readers: Result<
    Vec<Vec<ReadAtMultiply<S::WeightT>>>,
    HistoryError,
>)
    requires
        feedback_total::<S>(),
    ensures
        readers matches Ok(lists) ==> lists@.len() == incoming@.len() && forall|n: int, j: int|
            0 <= n < lists@.len() && 0 <= j < lists@[n]@.len() ==> {
                &&& (#[trigger] lists@[n]@[j]).at_node < incoming@.len()
                &&& 1 <= lists@[n]@[j].at_delay <= STEP_LIMIT
            },
        readers matches Ok(lists) ==> forall|n: int|
            0 <= n < lists@.len() ==> (#[trigger] lists@[n])@.len() == incoming@[n]@.len()
                && forall|j: int|
                0 <= j < lists@[n]@.len() ==> (#[trigger] lists@[n]@[j]).at_node
                    == incoming@[n]@[j].from,
        readers == Err::<Vec<Vec<ReadAtMultiply<S::WeightT>>>, HistoryError>(
            HistoryError::EdgeFromNonexistentNode,
        ) ==> exists|n: int, j: int|
            0 <= n < incoming@.len() && 0 <= j < incoming@[n]@.len() && (
            #[trigger] incoming@[n]@[j]).from >= incoming@.len(),
        feedback_exact::<S>() ==> match readers {
            Ok(lists) => lists_fault(lists_of(incoming@), incoming@.len() as usize, dt) is None
                && forall|n: int|
                0 <= n < lists@.len() ==> (#[trigger] lists@[n])@ == incoming@[n]@.map_values(
                    |edge: Edge<S::RealT>| reader_of::<S>(edge, incoming@.len() as usize, dt),
                ),
            Err(fault) => lists_fault(lists_of(incoming@), incoming@.len() as usize, dt) == Some(
                fault,
            ),
        },
{
    let nodes = incoming.len();
    let mut lists: Vec<Vec<ReadAtMultiply<S::WeightT>>> = Vec::new();
    let mut n: usize = 0;
    assert(lists_of(incoming@).take(0) =~= Seq::empty());
    while n < nodes
        invariant
            feedback_total::<S>(),
            nodes == incoming@.len(),
            n <= nodes,
            lists@.len() == n,
            forall|m: int, j: int|
                0 <= m < n && 0 <= j < lists@[m]@.len() ==> {
                    &&& (#[trigger] lists@[m]@[j]).at_node < nodes
                    &&& 1 <= lists@[m]@[j].at_delay <= STEP_LIMIT
                },
            forall|m: int|
                0 <= m < n ==> (#[trigger] lists@[m])@.len() == incoming@[m]@.len() && forall|j: int|
                    0 <= j < lists@[m]@.len() ==> (#[trigger] lists@[m]@[j]).at_node
                        == incoming@[m]@[j].from,
            feedback_exact::<S>() ==> lists_fault(lists_of(incoming@).take(n as int), nodes, dt)
                is None,
            feedback_exact::<S>() ==> forall|m: int|
                0 <= m < n ==> (#[trigger] lists@[m])@ == incoming@[m]@.map_values(
                    |edge: Edge<S::RealT>| reader_of::<S>(edge, nodes, dt),
                ),
        decreases nodes - n,
    {
        proof {
            assert(lists_of(incoming@).take(n + 1).drop_last() =~= lists_of(incoming@).take(
                n as int,
            ));
            assert(lists_of(incoming@).take(n + 1).last() == incoming@[n as int]@);
        }
        match list_readers::<S>(&incoming[n], nodes, dt) {
            Err(fault) => {
                proof {
                    if feedback_exact::<S>() {
                        lemma_lists_fault_stays(lists_of(incoming@), n + 1, nodes, dt);
                    }
                }
                return Err(fault);
            },
            Ok(list) => {
                lists.push(list);
            },
        }
        n += 1;
    }
    assert(lists_of(incoming@).take(n as int) =~= lists_of(incoming@));
    Ok(lists)
}

/// For every node the longest delay with which it is read or, where all delay lines are
/// to be equal, the longest delay in the network for each of them.
fn max_delay_steps_needed<R: Scalar>(
    nodes: usize,
    edges: &Vec<Vec<Edge<R>>>,
    use_equal_ringbuffers: bool,
) -> (spans: Vec<R>)
    requires
        nodes == edges@.len(),
    ensures
        spans@.len() == nodes,
        exact::<R>() ==> forall|n: int|
            0 <= n < nodes ==> #[trigger] spans@[n] == required_span(
                lists_of(edges@),
                n as usize,
                use_equal_ringbuffers,
            ),
{
    let mut longest: Vec<R> = Vec::new();
    let mut n: usize = 0;
    while n < nodes
        invariant
            n <= nodes,
            longest@.len() == n,
            exact::<R>() ==> forall|m: int|
                0 <= m < n ==> #[trigger] longest@[m] == longest_delay(
                    lists_of(edges@),
                    m as usize,
                ),
        decreases nodes - n,
    {
        let mut span: R = from_whole(0);
        let mut l: usize = 0;
        assert(lists_of(edges@).take(0) =~= Seq::empty());
        while l < edges.len()
            invariant
                l <= edges@.len(),
                exact::<R>() ==> span == longest_delay(lists_of(edges@).take(l as int), n),
            decreases edges@.len() - l,
        {
            let list = &edges[l];
            let ghost before = span;
            let mut j: usize = 0;
            assert(list@.take(0) =~= Seq::empty());
            while j < list.len()
                invariant
                    j <= list@.len(),
                    exact::<R>() ==> span == longest_in_list(before, list@.take(j as int), n),
                decreases list@.len() - j,
            {
                proof {
                    assert(list@.take(j + 1).drop_last() =~= list@.take(j as int));
                    assert(list@.take(j + 1).last() == list@[j as int]);
                }
                if list[j].from == n {
                    span = larger_of(span, list[j].delay);
                }
                j += 1;
            }
            proof {
                assert(list@.take(j as int) =~= list@);
                assert(lists_of(edges@).take(l + 1).drop_last() =~= lists_of(edges@).take(l as int));
                assert(lists_of(edges@).take(l + 1).last() == list@);
            }
            l += 1;
        }
        assert(lists_of(edges@).take(l as int) =~= lists_of(edges@));
        longest.push(span);
        n += 1;
    }
    if use_equal_ringbuffers {
        let mut overall: R = from_whole(0);
        let mut m: usize = 0;
        while m < nodes
            invariant
                m <= nodes,
                longest@.len() == nodes,
                exact::<R>() ==> forall|k: int|
                    0 <= k < nodes ==> #[trigger] longest@[k] == longest_delay(
                        lists_of(edges@),
                        k as usize,
                    ),
                exact::<R>() ==> overall == longest_overall(lists_of(edges@), m as nat),
            decreases nodes - m,
        {
            overall = larger_of(overall, longest[m]);
            m += 1;
        }
        let mut spans: Vec<R> = Vec::new();
        let mut k: usize = 0;
        while k < nodes
            invariant
                k <= nodes,
                spans@.len() == k,
                forall|i: int| 0 <= i < k ==> #[trigger] spans@[i] == overall,
            decreases nodes - k,
        {
            spans.push(overall);
            k += 1;
        }
        spans
    } else {
        longest
    }
}

/// The capacity of every delay line: the smallest power of two that covers its span,
/// counted in steps and rounded up.
fn line_capacities<R: Scalar>(spans: &Vec<R>, dt: R) -> (capacities: Result<Vec<usize>, HistoryError>)
    requires
        total::<R>(),
    ensures
        capacities matches Ok(list) ==> list@.len() == spans@.len() && forall|n: int|
            0 <= n < list@.len() ==> 0 < #[trigger] list@[n] <= RING_LIMIT && is_power_of_two(
                list@[n] as nat,
            ),
        capacities matches Err(fault) ==> fault == HistoryError::StepCountOutOfRange,
        exact::<R>() ==> match capacities {
            Ok(list) => forall|n: int|
                0 <= n < list@.len() ==> ((#[trigger] span_steps(spans@[n], dt)) matches Some(
                    steps,
                ) && list@[n] == power_of_two_at_least(steps as nat)),
            Err(_) => exists|n: int|
                0 <= n < spans@.len() && (#[trigger] span_steps(spans@[n], dt)) is None,
        },
{
    let mut list: Vec<usize> = Vec::new();
    let mut n: usize = 0;
    while n < spans.len()
        invariant
            total::<R>(),
            n <= spans@.len(),
            list@.len() == n,
            forall|m: int|
                0 <= m < n ==> 0 < #[trigger] list@[m] <= RING_LIMIT && is_power_of_two(
                    list@[m] as nat,
                ),
            exact::<R>() ==> forall|m: int|
                0 <= m < n ==> ((#[trigger] span_steps(spans@[m], dt)) matches Some(steps)
                    && list@[m] == power_of_two_at_least(steps as nat)),
        decreases spans@.len() - n,
    {
        match ceil_steps(spans[n] / dt) {
            None => {
                assert(exact::<R>() ==> span_steps(spans@[n as int], dt) is None);
                return Err(HistoryError::StepCountOutOfRange);
            },
            Some(steps) => {
                if steps > RING_LIMIT {
                    assert(exact::<R>() ==> span_steps(spans@[n as int], dt) is None);
                    return Err(HistoryError::StepCountOutOfRange);
                }
                proof {
                    lemma_power_of_two_at_least(steps as nat);
                    lemma_ring_limit();
                    lemma_power_of_two_is_smallest(steps as nat, RING_LIMIT as nat);
                }
                match next_power_of_two(steps) {
                    Some(power) => {
                        list.push(power);
                    },
                    None => {
                        // no power of two that covers a step count is out of reach
                        assert(false);
                        return Err(HistoryError::StepCountOutOfRange);
                    },
                }
            },
        }
        n += 1;
    }
    Ok(list)
}

/// One delay line for each capacity, every sample of it zero.
fn initialize_history<S: Feedback>(capacities: &Vec<usize>) -> (lines: Vec<
    DelayLine<RungeKuttaDelay<S::FeedbackT>>,
>)
    requires
        feedback_total::<S>(),
        forall|n: int|
            0 <= n < capacities@.len() ==> 0 < #[trigger] capacities@[n] <= RING_LIMIT
                && is_power_of_two(capacities@[n] as nat),
    ensures
        lines@.len() == capacities@.len(),
        forall|n: int|
            0 <= n < lines@.len() ==> (#[trigger] lines@[n]).wf() && lines@[n]@.len()
                == capacities@[n],
        feedback_exact::<S>() ==> forall|n: int|
            0 <= n < lines@.len() ==> (#[trigger] lines@[n])@ == Seq::new(
                capacities@[n] as nat,
                |age: int| zero_entry::<S>(),
            ),
{
    let zero = S::zero_feedback();
    let fill = RungeKuttaDelay { state: zero, slope: zero };
    let mut lines: Vec<DelayLine<RungeKuttaDelay<S::FeedbackT>>> = Vec::new();
    let mut n: usize = 0;
    while n < capacities.len()
        invariant
            n <= capacities@.len(),
            lines@.len() == n,
            feedback_exact::<S>() ==> fill == zero_entry::<S>(),
            forall|m: int|
                0 <= m < capacities@.len() ==> 0 < #[trigger] capacities@[m] <= RING_LIMIT
                    && is_power_of_two(capacities@[m] as nat),
            forall|m: int|
                0 <= m < n ==> (#[trigger] lines@[m]).wf() && lines@[m]@.len() == capacities@[m],
            feedback_exact::<S>() ==> forall|m: int|
                0 <= m < n ==> (#[trigger] lines@[m])@ == Seq::new(
                    capacities@[m] as nat,
                    |age: int| zero_entry::<S>(),
                ),
        decreases capacities@.len() - n,
    {
        let line = DelayLine::filled(capacities[n], fill);
        proof {
            if feedback_exact::<S>() {
                assert(line@ =~= Seq::new(capacities@[n as int] as nat, |age: int| zero_entry::<S>()));
            }
        }
        lines.push(line);
        n += 1;
    }
    lines
}

/// The fault of a reader in a network of `nodes` nodes, if it has one.
pub open spec fn reader_fault<W>(reader: ReadAtMultiply<W>, nodes: nat) -> Option<HistoryError> {
    if reader.at_node >= nodes {
        Some(HistoryError::EdgeFromNonexistentNode)
    } else if reader.at_delay == 0 {
        Some(HistoryError::DelayTooSmall)
    } else if reader.at_delay > RING_LIMIT {
        Some(HistoryError::StepCountOutOfRange)
    } else {
        None
    }
}

/// The reader at place `j` of node `n` is the first with a fault, going through the nodes
/// in order and through the readers of each in order.
pub open spec fn is_first_fault<W>(lists: Seq<Seq<ReadAtMultiply<W>>>, n: int, j: int) -> bool {
    &&& 0 <= n < lists.len()
    &&& 0 <= j < lists[n].len()
    &&& reader_fault(lists[n][j], lists.len()) is Some
    &&& forall|m: int, k: int|
        0 <= m < lists.len() && 0 <= k < lists[m].len() && (m < n || (m == n && k < j))
            ==> reader_fault(#[trigger] lists[m][k], lists.len()) is None
}

/// No reader has a fault.
pub open spec fn readers_sound<W>(lists: Seq<Seq<ReadAtMultiply<W>>>) -> bool {
    forall|m: int, k: int|
        0 <= m < lists.len() && 0 <= k < lists[m].len() ==> reader_fault(
            #[trigger] lists[m][k],
            lists.len(),
        ) is None
}

/// `longest` is the longest delay with which node `source` is read, or with which any
/// node is read where `source` is `None`; zero where there is no such read.
pub open spec fn is_longest_read<W>(
    lists: Seq<Seq<ReadAtMultiply<W>>>,
    source: Option<usize>,
    longest: nat,
) -> bool {
    &&& forall|m: int, k: int|
        0 <= m < lists.len() && 0 <= k < lists[m].len() && (source is None || source == Some(
            (#[trigger] lists[m][k]).at_node,
        )) ==> lists[m][k].at_delay <= longest
    &&& longest == 0 || exists|m: int, k: int|
        0 <= m < lists.len() && 0 <= k < lists[m].len() && (source is None || source == Some(
            (#[trigger] lists[m][k]).at_node,
        )) && lists[m][k].at_delay == longest
}

/// `capacity` is the smallest power of two that covers the longest delay with which node
/// `source` is read, or with which any node is read where `source` is `None`.
pub open spec fn is_read_capacity<W>(
    lists: Seq<Seq<ReadAtMultiply<W>>>,
    source: Option<usize>,
    capacity: nat,
) -> bool {
    exists|longest: nat| #[trigger]
        is_longest_read(lists, source, longest) && capacity == power_of_two_at_least(longest)
}

/// The reads of every node, as the lists they are.
pub open spec fn reads_of<W>(lists: Seq<Vec<ReadAtMultiply<W>>>) -> Seq<Seq<ReadAtMultiply<W>>> {
    lists.map_values(|list: Vec<ReadAtMultiply<W>>| list@)
}

/// Looks for the first reader with a fault.
fn edges_valid<W>(edges: &Vec<Vec<ReadAtMultiply<W>>>) -> (valid: Result<(), HistoryError>)
    ensures
        match valid {
            Ok(_) => readers_sound(reads_of(edges@)),
            Err(fault) => exists|n: int, j: int|
                #[trigger] is_first_fault(reads_of(edges@), n, j) && reader_fault(
                    reads_of(edges@)[n][j],
                    edges@.len(),
                ) == Some(fault),
        },
{
    let nodes = edges.len();
    let ghost lists = reads_of(edges@);
    let mut n: usize = 0;
    while n < nodes
        invariant
            nodes == edges@.len(),
            lists == reads_of(edges@),
            n <= nodes,
            forall|m: int, k: int|
                0 <= m < n && 0 <= k < lists[m].len() ==> reader_fault(
                    #[trigger] lists[m][k],
                    nodes as nat,
                ) is None,
        decreases nodes - n,
    {
        let list = &edges[n];
        assert(lists[n as int] == list@);
        let mut j: usize = 0;
        while j < list.len()
            invariant
                nodes == edges@.len(),
                lists == reads_of(edges@),
                n < nodes,
                lists[n as int] == list@,
                j <= list@.len(),
                forall|m: int, k: int|
                    0 <= m < n && 0 <= k < lists[m].len() ==> reader_fault(
                        #[trigger] lists[m][k],
                        nodes as nat,
                    ) is None,
                forall|k: int|
                    0 <= k < j ==> reader_fault(#[trigger] lists[n as int][k], nodes as nat) is None,
            decreases list@.len() - j,
        {
            let fault = if list[j].at_node >= nodes {
                Some(HistoryError::EdgeFromNonexistentNode)
            } else if list[j].at_delay == 0 {
                Some(HistoryError::DelayTooSmall)
            } else if list[j].at_delay > RING_LIMIT {
                Some(HistoryError::StepCountOutOfRange)
            } else {
                None
            };
            match fault {
                Some(fault) => {
                    assert(is_first_fault(lists, n as int, j as int));
                    return Err(fault);
                },
                None => {},
            }
            j += 1;
        }
        n += 1;
    }
    Ok(())
}

/// For every node the longest delay with which it is read, counted in steps; or, where
/// all delay lines are to be equal, the longest delay with which any node is read, for
/// each of them.
fn delay_steps<W>(edges: &Vec<Vec<ReadAtMultiply<W>>>, use_equal_ringbuffers: bool) -> (longest:
    Vec<usize>)
    ensures
        longest@.len() == edges@.len(),
        forall|n: int|
            0 <= n < longest@.len() ==> is_longest_read(
                reads_of(edges@),
                if use_equal_ringbuffers {
                    None
                } else {
                    Some(n as usize)
                },
                #[trigger] longest@[n] as nat,
            ),
{
    let nodes = edges.len();
    let ghost lists = reads_of(edges@);
    let mut longest: Vec<usize> = Vec::new();
    let mut n: usize = 0;
    while n < nodes
        invariant
            nodes == edges@.len(),
            lists == reads_of(edges@),
            n <= nodes,
            longest@.len() == n,
            forall|m: int|
                0 <= m < n ==> is_longest_read(lists, Some(m as usize), #[trigger] longest@[m] as nat),
        decreases nodes - n,
    {
        let found = longest_among(edges, Some(n));
        longest.push(found);
        n += 1;
    }
    if use_equal_ringbuffers {
        let overall = longest_among(edges, None);
        let mut equal: Vec<usize> = Vec::new();
        let mut k: usize = 0;
        while k < nodes
            invariant
                k <= nodes,
                equal@.len() == k,
                forall|i: int| 0 <= i < k ==> #[trigger] equal@[i] == overall,
            decreases nodes - k,
        {
            equal.push(overall);
            k += 1;
        }
        equal
    } else {
        longest
    }
}

/// The longest delay with which node `source` is read, or any node where `source` is
/// `None`.
fn longest_among<W>(edges: &Vec<Vec<ReadAtMultiply<W>>>, source: Option<usize>) -> (longest: usize)
    ensures
        is_longest_read(reads_of(edges@), source, longest as nat),
{
    let ghost lists = reads_of(edges@);
    let mut longest: usize = 0;
    let ghost mut at: (int, int) = (0, 0);
    let mut m: usize = 0;
    while m < edges.len()
        invariant
            lists == reads_of(edges@),
            m <= edges@.len(),
            forall|i: int, k: int|
                0 <= i < m && 0 <= k < lists[i].len() && (source is None || source == Some(
                    (#[trigger] lists[i][k]).at_node,
                )) ==> lists[i][k].at_delay <= longest,
            longest == 0 || (0 <= at.0 < m && 0 <= at.1 < lists[at.0].len() && (source is None
                || source == Some(lists[at.0][at.1].at_node)) && lists[at.0][at.1].at_delay
                == longest),
        decreases edges@.len() - m,
    {
        let list = &edges[m];
        assert(lists[m as int] == list@);
        let mut k: usize = 0;
        while k < list.len()
            invariant
                lists == reads_of(edges@),
                m < edges@.len(),
                lists[m as int] == list@,
                k <= list@.len(),
                forall|i: int, j: int|
                    0 <= i < m && 0 <= j < lists[i].len() && (source is None || source == Some(
                        (#[trigger] lists[i][j]).at_node,
                    )) ==> lists[i][j].at_delay <= longest,
                forall|j: int|
                    0 <= j < k && (source is None || source == Some(
                        (#[trigger] lists[m as int][j]).at_node,
                    )) ==> lists[m as int][j].at_delay <= longest,
                longest == 0 || (0 <= at.0 <= m && 0 <= at.1 < lists[at.0].len() && (at.0 == m
                    ==> at.1 < k) && (source is None || source == Some(
                    lists[at.0][at.1].at_node,
                )) && lists[at.0][at.1].at_delay == longest),
            decreases list@.len() - k,
        {
            let counts = match source {
                None => true,
                Some(node) => list[k].at_node == node,
            };
            if counts && list[k].at_delay > longest {
                longest = list[k].at_delay;
                proof {
                    at = (m as int, k as int);
                }
            }
            k += 1;
        }
        m += 1;
    }
    longest
}

/// The past of every node of a network: one delay line for each node, and for each node
/// the list of delayed reads that make up its input.
pub struct History<S: Feedback> {
    history: Vec<DelayLine<RungeKuttaDelay<S::FeedbackT>>>,
    readers: Vec<Vec<ReadAtMultiply<S::WeightT>>>,
    dt: S::RealT,
}

impl<S: Feedback> History<S> {
    /// The samples of every node's delay line, oldest first.
    pub closed spec fn lines(&self) -> Seq<Seq<RungeKuttaDelay<S::FeedbackT>>> {
        Seq::new(self.history@.len(), |n: int| self.history@[n]@)
    }

    /// The delayed reads of every node.
    pub closed spec fn readers(&self) -> Seq<Seq<ReadAtMultiply<S::WeightT>>> {
        Seq::new(self.readers@.len(), |n: int| self.readers@[n]@)
    }

    /// The step width that delays were counted in.
    pub closed spec fn step(&self) -> S::RealT {
        self.dt
    }

    pub closed spec fn lines_wf(&self) -> bool {
        forall|n: int| 0 <= n < self.history@.len() ==> (#[trigger] self.history@[n]).wf()
    }

    /// Every node has its delay line and its readers; no line is empty and each holds a
    /// power of two of samples; every reader reads from a node that exists, at least one
    /// step back.
    pub open spec fn wf(&self) -> bool {
        &&& self.lines_wf()
        &&& self.lines().len() == self.readers().len()
        &&& forall|n: int|
            0 <= n < self.lines().len() ==> (#[trigger] self.lines()[n]).len() > 0
                && is_power_of_two(self.lines()[n].len())
        &&& forall|n: int, j: int|
            0 <= n < self.readers().len() && 0 <= j < self.readers()[n].len() ==> {
                &&& (#[trigger] self.readers()[n][j]).at_node < self.lines().len()
                &&& 1 <= self.readers()[n][j].at_delay <= STEP_LIMIT
            }
    }

    /// The history was built for these incoming edges: every reader is the reader of its
    /// edge, with the delay counted in steps of `dt` and rounded to the nearest step, and
    /// every delay line holds zeros, as many as the smallest power of two that covers the
    /// steps required of it.
    pub open spec fn describes(&self, incoming: Seq<Seq<Edge<S::RealT>>>, uniform: bool, dt: S::RealT) -> bool {
        &&& self.step() == dt
        &&& self.lines().len() == incoming.len()
        &&& self.readers().len() == incoming.len()
        &&& forall|n: int|
            0 <= n < incoming.len() ==> #[trigger] self.readers()[n] == incoming[n].map_values(
                |edge: Edge<S::RealT>| reader_of::<S>(edge, incoming.len() as usize, dt),
            )
        &&& forall|n: int|
            0 <= n < incoming.len() ==> ((#[trigger] required_steps(
                incoming,
                n as usize,
                uniform,
                dt,
            )) matches Some(steps) && self.lines()[n] == Seq::new(
                power_of_two_at_least(steps as nat),
                |age: int| zero_entry::<S>(),
            ))
    }

    /// Every edge starts at a node of the network.
    pub open spec fn sources_exist(incoming: Seq<Seq<Edge<S::RealT>>>) -> bool {
        forall|n: int, j: int|
            0 <= n < incoming.len() && 0 <= j < incoming[n].len() ==> (#[trigger] incoming[n][j]).from
                < incoming.len()
    }

    /// Every reader stands for the incoming edge at its place: it reads from the node
    /// that the edge starts at.
    pub open spec fn mirrors(&self, incoming: Seq<Seq<Edge<S::RealT>>>) -> bool {
        &&& self.lines().len() == incoming.len()
        &&& self.readers().len() == incoming.len()
        &&& forall|n: int|
            0 <= n < incoming.len() ==> (#[trigger] self.readers()[n]).len() == incoming[n].len()
        &&& forall|n: int, j: int|
            0 <= n < incoming.len() && 0 <= j < incoming[n].len() ==> (
            #[trigger] self.readers()[n][j]).at_node == incoming[n][j].from
    }

    /// The history of a network that is about to start: one delay line of zeros for each
    /// node, and the readers that the edges of the network ask for. With
    /// `equal_ringbuffers` all delay lines get the length that the longest delay asks for.
    pub fn new(dt: S::RealT, network: &Network<S::RealT>, equal_ringbuffers: bool) -> (built: Result<
        Self,
        HistoryError,
    >)
        requires
            feedback_total::<S>(),
        ensures
            built matches Ok(history) ==> history.wf() && history.step() == dt && history.mirrors(
                network.incoming(),
            ),
            built == Err::<Self, HistoryError>(HistoryError::EdgeFromNonexistentNode)
                ==> !Self::sources_exist(network.incoming()),
            feedback_exact::<S>() ==> match built {
                Ok(history) => build_fault(network.incoming(), equal_ringbuffers, dt) is None
                    && history.describes(network.incoming(), equal_ringbuffers, dt),
                Err(fault) => build_fault(network.incoming(), equal_ringbuffers, dt) == Some(fault),
            },
    {
        let incoming = network.get_edges_into_nodes();
        assert(lists_of(incoming@) == network.incoming());
        let nodes = incoming.len();
        let readers = match all_readers::<S>(&incoming, dt) {
            Ok(readers) => readers,
            Err(fault) => {
                proof {
                    if fault == HistoryError::EdgeFromNonexistentNode {
                        let (n, j) = choose|n: int, j: int|
                            0 <= n < incoming@.len() && 0 <= j < incoming@[n]@.len() && (
                            #[trigger] incoming@[n]@[j]).from >= incoming@.len();
                        assert(network.incoming()[n] == incoming@[n]@);
                        assert(network.incoming()[n][j].from >= network.incoming().len());
                    }
                }
                return Err(fault);
            },
        };
        let spans = max_delay_steps_needed(nodes, &incoming, equal_ringbuffers);
        let capacities = match line_capacities(&spans, dt) {
            Ok(capacities) => capacities,
            Err(fault) => {
                proof {
                    if feedback_exact::<S>() {
                        let n = choose|n: int|
                            0 <= n < spans@.len() && (#[trigger] span_steps(spans@[n], dt))
                                is None;
                        assert(required_steps(
                            network.incoming(),
                            n as usize,
                            equal_ringbuffers,
                            dt,
                        ) is None);
                    }
                }
                return Err(fault);
            },
        };
        let history = initialize_history::<S>(&capacities);
        let built = History { history, readers, dt };
        proof {
            assert(built.lines().len() == nodes);
            assert(built.readers().len() == nodes);
            assert forall|n: int| 0 <= n < built.lines().len() implies (
            #[trigger] built.lines()[n]).len() > 0 && is_power_of_two(built.lines()[n].len()) by {
                assert(built.history@[n].wf());
                assert(capacities@[n] > 0);
            }
            assert forall|n: int, j: int|
                0 <= n < built.readers().len() && 0 <= j < built.readers()[n].len() implies {
                &&& (#[trigger] built.readers()[n][j]).at_node < built.lines().len()
                &&& 1 <= built.readers()[n][j].at_delay <= STEP_LIMIT
            } by {
                assert(built.readers()[n][j] == readers@[n]@[j]);
            }
            assert(built.mirrors(network.incoming())) by {
                assert forall|n: int| 0 <= n < nodes implies (#[trigger] built.readers()[n]).len()
                    == network.incoming()[n].len() by {
                    assert(readers@[n]@.len() == incoming@[n]@.len());
                    assert(lists_of(incoming@)[n] == incoming@[n]@);
                }
                assert forall|n: int, j: int|
                    0 <= n < nodes && 0 <= j < network.incoming()[n].len() implies (
                #[trigger] built.readers()[n][j]).at_node == network.incoming()[n][j].from by {
                    assert(readers@[n]@.len() == incoming@[n]@.len());
                    assert(lists_of(incoming@)[n] == incoming@[n]@);
                    assert(built.readers()[n][j] == readers@[n]@[j]);
                }
            }
            if feedback_exact::<S>() {
                assert forall|n: int| 0 <= n < nodes implies ((#[trigger] required_steps(
                    network.incoming(),
                    n as usize,
                    equal_ringbuffers,
                    dt,
                )) matches Some(steps) && built.lines()[n] == Seq::new(
                    power_of_two_at_least(steps as nat),
                    |age: int| zero_entry::<S>(),
                )) by {
                    assert(span_steps(spans@[n], dt) is Some);
                    assert(built.lines()[n] == built.history@[n]@);
                }
                assert forall|n: int| 0 <= n < nodes implies #[trigger] built.readers()[n]
                    == network.incoming()[n].map_values(
                    |edge: Edge<S::RealT>| reader_of::<S>(edge, nodes, dt),
                ) by {
                    assert(built.readers()[n] == readers@[n]@);
                    assert(lists_of(incoming@)[n] == incoming@[n]@);
                }
            }
        }
        Ok(built)
    }

    /// No reader looks further back than the delay line that it reads from reaches.
    pub open spec fn covers(&self) -> bool {
        forall|n: int, j: int|
            0 <= n < self.readers().len() && 0 <= j < self.readers()[n].len() ==> (
            #[trigger] self.readers()[n][j]).at_delay <= self.lines()[self.readers()[n][j].at_node as int].len()
    }

    /// The history of nodes whose reads are given with their delays counted in steps: node
    /// `n` reads as `edges[n]` says. Every delay line gets the smallest power of two of
    /// samples that covers the longest delay with which it is read or, with
    /// `use_equal_ringbuffers`, the longest delay with which any node is read.
    pub fn from_readers(
        dt: S::RealT,
        edges: &Vec<Vec<ReadAtMultiply<S::WeightT>>>,
        use_equal_ringbuffers: bool,
    ) -> (built: Result<Self, HistoryError>)
        requires
            feedback_total::<S>(),
        ensures
            match built {
                Ok(history) => {
                    &&& readers_sound(reads_of(edges@))
                    &&& history.wf()
                    &&& history.covers()
                    &&& history.step() == dt
                    &&& history.readers() == reads_of(edges@)
                    &&& history.lines().len() == edges@.len()
                    &&& forall|n: int|
                        0 <= n < edges@.len() ==> is_read_capacity(
                            reads_of(edges@),
                            if use_equal_ringbuffers {
                                None
                            } else {
                                Some(n as usize)
                            },
                            (#[trigger] history.lines()[n]).len(),
                        )
                    &&& feedback_exact::<S>() ==> forall|n: int, age: int|
                        0 <= n < edges@.len() && 0 <= age < history.lines()[n].len()
                            ==> #[trigger] history.lines()[n][age] == zero_entry::<S>()
                },
                Err(fault) => exists|n: int, j: int|
                    #[trigger] is_first_fault(reads_of(edges@), n, j) && reader_fault(
                        reads_of(edges@)[n][j],
                        edges@.len(),
                    ) == Some(fault),
            },
    {
        match edges_valid(edges) {
            Ok(_) => {},
            Err(fault) => {
                return Err(fault);
            },
        }
        let ghost lists = reads_of(edges@);
        let longest = delay_steps(edges, use_equal_ringbuffers);
        let mut capacities: Vec<usize> = Vec::new();
        let mut n: usize = 0;
        while n < longest.len()
            invariant
                lists == reads_of(edges@),
                readers_sound(lists),
                longest@.len() == edges@.len(),
                n <= longest@.len(),
                capacities@.len() == n,
                forall|m: int|
                    0 <= m < longest@.len() ==> is_longest_read(
                        lists,
                        if use_equal_ringbuffers {
                            None
                        } else {
                            Some(m as usize)
                        },
                        #[trigger] longest@[m] as nat,
                    ),
                forall|m: int|
                    0 <= m < n ==> {
                        &&& 0 < #[trigger] capacities@[m] <= RING_LIMIT
                        &&& is_power_of_two(capacities@[m] as nat)
                        &&& capacities@[m] == power_of_two_at_least(longest@[m] as nat)
                    },
            decreases longest@.len() - n,
        {
            proof {
                assert(is_longest_read(
                    lists,
                    if use_equal_ringbuffers {
                        None
                    } else {
                        Some(n as usize)
                    },
                    longest@[n as int] as nat,
                ));
                assert(longest@[n as int] <= RING_LIMIT);
                lemma_power_of_two_at_least(longest@[n as int] as nat);
                lemma_ring_limit();
                lemma_power_of_two_is_smallest(longest@[n as int] as nat, RING_LIMIT as nat);
            }
            match next_power_of_two(longest[n]) {
                Some(power) => {
                    capacities.push(power);
                },
                None => {
                    // no power of two that covers a delay line is out of reach
                    assert(false);
                    capacities.push(1);
                },
            }
            n += 1;
        }
        let history = initialize_history::<S>(&capacities);
        let mut readers: Vec<Vec<ReadAtMultiply<S::WeightT>>> = Vec::new();
        let mut m: usize = 0;
        while m < edges.len()
            invariant
                m <= edges@.len(),
                readers@.len() == m,
                forall|i: int| 0 <= i < m ==> (#[trigger] readers@[i])@ == edges@[i]@,
            decreases edges@.len() - m,
        {
            let list = &edges[m];
            let mut copy: Vec<ReadAtMultiply<S::WeightT>> = Vec::new();
            let mut k: usize = 0;
            while k < list.len()
                invariant
                    k <= list@.len(),
                    copy@.len() == k,
                    forall|i: int| 0 <= i < k ==> #[trigger] copy@[i] == list@[i],
                decreases list@.len() - k,
            {
                copy.push(list[k]);
                k += 1;
            }
            assert(copy@ =~= list@);
            readers.push(copy);
            m += 1;
        }
        let built = History { history, readers, dt };
        proof {
            assert(built.readers() =~= lists);
            assert forall|i: int| 0 <= i < built.lines().len() implies (
            #[trigger] built.lines()[i]).len() > 0 && is_power_of_two(built.lines()[i].len()) by {
                assert(built.history@[i].wf());
                assert(capacities@[i] > 0);
            }
            assert forall|i: int, j: int|
                0 <= i < built.readers().len() && 0 <= j < built.readers()[i].len() implies {
                &&& (#[trigger] built.readers()[i][j]).at_node < built.lines().len()
                &&& 1 <= built.readers()[i][j].at_delay <= STEP_LIMIT
                &&& built.readers()[i][j].at_delay <= built.lines()[built.readers()[i][j].at_node as int].len()
            } by {
                let reader = lists[i][j];
                assert(reader_fault(reader, lists.len()) is None);
                let source = reader.at_node as int;
                assert(built.lines()[source] == built.history@[source]@);
                assert(is_longest_read(
                    lists,
                    if use_equal_ringbuffers {
                        None
                    } else {
                        Some(source as usize)
                    },
                    longest@[source] as nat,
                ));
                lemma_power_of_two_at_least(longest@[source] as nat);
            }
            assert forall|i: int| 0 <= i < edges@.len() implies is_read_capacity(
                lists,
                if use_equal_ringbuffers {
                    None
                } else {
                    Some(i as usize)
                },
                (#[trigger] built.lines()[i]).len(),
            ) by {
                assert(built.lines()[i] == built.history@[i]@);
                assert(is_longest_read(
                    lists,
                    if use_equal_ringbuffers {
                        None
                    } else {
                        Some(i as usize)
                    },
                    longest@[i] as nat,
                ));
            }
            if feedback_exact::<S>() {
                assert forall|i: int, age: int|
                    0 <= i < edges@.len() && 0 <= age < built.lines()[i].len() implies #[trigger] built.lines()[i][age]
                    == zero_entry::<S>() by {
                    assert(built.lines()[i] == built.history@[i]@);
                }
            }
            assert(built.readers() == reads_of(edges@));
        }
        Ok(built)
    }

    /// Builds the history anew for `network`, as `new` does with the step width that the
    /// history already has. Where the network cannot be given a history, nothing changes.
    pub fn setup_connections(&mut self, network: &Network<S::RealT>, equal_ringbuffers: bool) -> (done:
        Result<(), HistoryError>)
        requires
            feedback_total::<S>(),
        ensures
            done is Ok ==> final(self).wf() && final(self).step() == old(self).step() && final(self).mirrors(network.incoming()),
            done is Err ==> *final(self) == *old(self),
            done == Err::<(), HistoryError>(HistoryError::EdgeFromNonexistentNode)
                ==> !Self::sources_exist(network.incoming()),
            feedback_exact::<S>() ==> match done {
                Ok(_) => build_fault(network.incoming(), equal_ringbuffers, old(self).step())
                    is None && final(self).describes(
                    network.incoming(),
                    equal_ringbuffers,
                    old(self).step(),
                ),
                Err(fault) => build_fault(network.incoming(), equal_ringbuffers, old(self).step())
                    == Some(fault),
            },
    {
        match Self::new(self.dt, network, equal_ringbuffers) {
            Ok(history) => {
                *self = history;
                Ok(())
            },
            Err(fault) => Err(fault),
        }
    }

    /// The number of nodes.
    pub fn nodes(&self) -> (nodes: usize)
        requires
            self.wf(),
        ensures
            nodes == self.lines().len(),
    {
        self.history.len()
    }

    /// How many samples the delay line of `node` holds.
    pub fn capacity(&self, node: usize) -> (capacity: usize)
        requires
            self.wf(),
            node < self.lines().len(),
        ensures
            capacity == self.lines()[node as int].len(),
    {
        assert(self.history@[node as int].wf());
        assert(self.lines()[node as int] == self.history@[node as int]@);
        self.history[node].capacity()
    }

    /// The delayed reads of `node`.
    pub fn node_readers(&self, node: usize) -> (readers: &Vec<ReadAtMultiply<S::WeightT>>)
        requires
            self.wf(),
            node < self.lines().len(),
        ensures
            readers@ == self.readers()[node as int],
    {
        &self.readers[node]
    }

    fn sum_readings(&self, into: usize, shift: isize) -> (tap: RungeKuttaDelay<S::FeedbackT>)
        requires
            self.wf(),
            feedback_total::<S>(),
            into < self.lines().len(),
            shift == 0 || shift == 1,
        ensures
            feedback_exact::<S>() ==> tap == weighted_sum::<S>(
                self.lines(),
                self.readers()[into as int],
                shift as int,
            ),
    {
        let zero = S::zero_feedback();
        let mut tap = RungeKuttaDelay { state: zero, slope: zero };
        let readers = &self.readers[into];
        let mut j: usize = 0;
        assert(readers@.take(0) =~= Seq::empty());
        assert(self.readers()[into as int] == readers@);
        while j < readers.len()
            invariant
                self.wf(),
                feedback_total::<S>(),
                into < self.lines().len(),
                shift == 0 || shift == 1,
                readers@ == self.readers()[into as int],
                j <= readers@.len(),
                feedback_exact::<S>() ==> tap == weighted_sum::<S>(
                    self.lines(),
                    readers@.take(j as int),
                    shift as int,
                ),
            decreases readers@.len() - j,
        {
            let reader = readers[j];
            assert(reader == self.readers()[into as int][j as int]);
            assert(self.history@[reader.at_node as int].wf());
            assert(self.lines()[reader.at_node as int] == self.history@[reader.at_node as int]@);
            let entry = *self.history[reader.at_node].get(shift - reader.at_delay as isize);
            tap =
            RungeKuttaDelay {
                state: tap.state + entry.state * reader.weight,
                slope: tap.slope + entry.slope * reader.weight,
            };
            proof {
                assert(readers@.take(j + 1).drop_last() =~= readers@.take(j as int));
                assert(readers@.take(j + 1).last() == reader);
            }
            j += 1;
        }
        assert(readers@.take(j as int) =~= readers@);
        tap
    }

    /// The input of node `into` at the start of the step: for each of its readers the
    /// sample at its delay, times its weight, added up.
    pub fn get_node_feedback(&self, into: usize) -> (tap: RungeKuttaDelay<S::FeedbackT>)
        requires
            self.wf(),
            feedback_total::<S>(),
            into < self.lines().len(),
        ensures
            feedback_exact::<S>() ==> tap == weighted_sum::<S>(
                self.lines(),
                self.readers()[into as int],
                0,
            ),
    {
        self.sum_readings(into, 0)
    }

    /// The pair of taps of node `into`: its input at the start of the step and at its end.
    pub fn get_feedback_rk4(&self, into_node: usize) -> (taps: [RungeKuttaDelay<S::FeedbackT>; 2])
        requires
            self.wf(),
            feedback_total::<S>(),
            into_node < self.lines().len(),
        ensures
            feedback_exact::<S>() ==> taps@ == tap_pair::<S>(
                self.lines(),
                self.readers()[into_node as int],
            ),
    {
        let taps = [self.sum_readings(into_node, 0), self.sum_readings(into_node, 1)];
        assert(feedback_exact::<S>() ==> taps@ =~= tap_pair::<S>(
            self.lines(),
            self.readers()[into_node as int],
        ));
        taps
    }

    /// The pair of taps of node `into`.
    pub fn get_node_feedback_rk4(&self, into: usize) -> (taps: [RungeKuttaDelay<S::FeedbackT>; 2])
        requires
            self.wf(),
            feedback_total::<S>(),
            into < self.lines().len(),
        ensures
            feedback_exact::<S>() ==> taps@ == tap_pair::<S>(
                self.lines(),
                self.readers()[into as int],
            ),
    {
        self.get_feedback_rk4(into)
    }

    /// The pair of taps of the first node, for a network of one node.
    pub fn get_single_node_feedback_rk4(&self) -> (taps: [RungeKuttaDelay<S::FeedbackT>; 2])
        requires
            self.wf(),
            feedback_total::<S>(),
            0 < self.lines().len(),
        ensures
            feedback_exact::<S>() ==> taps@ == tap_pair::<S>(self.lines(), self.readers()[0]),
    {
        self.get_feedback_rk4(0)
    }

    /// The input of every node at the start of the step.
    pub fn get_all_feedback(&self) -> (taps: Vec<RungeKuttaDelay<S::FeedbackT>>)
        requires
            self.wf(),
            feedback_total::<S>(),
        ensures
            taps@.len() == self.lines().len(),
            feedback_exact::<S>() ==> forall|n: int|
                0 <= n < taps@.len() ==> #[trigger] taps@[n] == weighted_sum::<S>(
                    self.lines(),
                    self.readers()[n],
                    0,
                ),
    {
        let mut taps: Vec<RungeKuttaDelay<S::FeedbackT>> = Vec::new();
        let mut n: usize = 0;
        while n < self.history.len()
            invariant
                self.wf(),
                feedback_total::<S>(),
                n <= self.lines().len(),
                self.lines().len() == self.history@.len(),
                taps@.len() == n,
                feedback_exact::<S>() ==> forall|m: int|
                    0 <= m < n ==> #[trigger] taps@[m] == weighted_sum::<S>(
                        self.lines(),
                        self.readers()[m],
                        0,
                    ),
            decreases self.history@.len() - n,
        {
            taps.push(self.sum_readings(n, 0));
            n += 1;
        }
        taps
    }

    /// The pair of taps of every node. All of them are read before any node pushes.
    pub fn get_all_feedback_rk4(&self) -> (taps: Vec<[RungeKuttaDelay<S::FeedbackT>; 2]>)
        requires
            self.wf(),
            feedback_total::<S>(),
        ensures
            taps@.len() == self.lines().len(),
            feedback_exact::<S>() ==> forall|n: int|
                0 <= n < taps@.len() ==> (#[trigger] taps@[n])@ == tap_pair::<S>(
                    self.lines(),
                    self.readers()[n],
                ),
    {
        let mut taps: Vec<[RungeKuttaDelay<S::FeedbackT>; 2]> = Vec::new();
        let mut n: usize = 0;
        while n < self.history.len()
            invariant
                self.wf(),
                feedback_total::<S>(),
                n <= self.lines().len(),
                self.lines().len() == self.history@.len(),
                taps@.len() == n,
                feedback_exact::<S>() ==> forall|m: int|
                    0 <= m < n ==> (#[trigger] taps@[m])@ == tap_pair::<S>(
                        self.lines(),
                        self.readers()[m],
                    ),
            decreases self.history@.len() - n,
        {
            taps.push(self.get_feedback_rk4(n));
            n += 1;
        }
        taps
    }

    /// Pushes the new sample of `node` into its delay line; the oldest sample drops out.
    pub fn push_node_state(&mut self, node: usize, new_state: RungeKuttaDelay<S::FeedbackT>)
        requires
            old(self).wf(),
            node < old(self).lines().len(),
        ensures
            final(self).wf(),
            final(self).readers() == old(self).readers(),
            final(self).step() == old(self).step(),
            final(self).lines() == old(self).lines().update(
                node as int,
                pushed(old(self).lines()[node as int], new_state),
            ),
    {
        assert(self.history@[node as int].wf());
        assert(self.lines()[node as int] == self.history@[node as int]@);
        self.history[node].push(new_state);
        proof {
            assert(self.lines() =~= old(self).lines().update(
                node as int,
                pushed(old(self).lines()[node as int], new_state),
            ));
            assert(self.readers() =~= old(self).readers());
            assert forall|n: int| 0 <= n < self.lines().len() implies (#[trigger] self.lines()[n]).len()
                > 0 && is_power_of_two(self.lines()[n].len()) by {
                assert(old(self).lines()[n].len() > 0);
            }
        }
    }

    /// Pushes one new sample for each node, the sample of node `n` being `new_states[n]`.
    /// Where there are fewer samples than nodes the last nodes push nothing, and samples
    /// beyond the number of nodes are ignored.
    pub fn push_node_states(&mut self, new_states: Vec<RungeKuttaDelay<S::FeedbackT>>)
        requires
            old(self).wf(),
        ensures
            final(self).wf(),
            final(self).readers() == old(self).readers(),
            final(self).step() == old(self).step(),
            final(self).lines() == lines_pushed(old(self).lines(), new_states@),
    {
        let mut n: usize = 0;
        let nodes = self.history.len();
        while n < nodes && n < new_states.len()
            invariant
                self.wf(),
                nodes == old(self).lines().len(),
                self.lines().len() == nodes,
                n <= nodes,
                n <= new_states@.len(),
                self.readers() == old(self).readers(),
                self.step() == old(self).step(),
                forall|m: int|
                    0 <= m < n ==> #[trigger] self.lines()[m] == pushed(
                        old(self).lines()[m],
                        new_states@[m],
                    ),
                forall|m: int| n <= m < nodes ==> #[trigger] self.lines()[m] == old(self).lines()[m],
            decreases nodes - n,
        {
            self.push_node_state(n, new_states[n]);
            n += 1;
        }
        assert(self.lines() =~= lines_pushed(old(self).lines(), new_states@));
    }
}

/// In a history built for a network whose edges can all be used, the delay of every
/// reader is the delay of its edge counted in steps and rounded to the nearest step, and
/// every delay line holds a power of two of samples, at least as many as the steps
/// required of it.
pub proof fn lemma_built_history_fits<S: Feedback>(
    history: &History<S>,
    incoming: Seq<Seq<Edge<S::RealT>>>,
    uniform: bool,
    dt: S::RealT,
)
    requires
        history.describes(incoming, uniform, dt),
        lists_fault(incoming, incoming.len() as usize, dt) is None,
    ensures
        forall|n: int, j: int|
            0 <= n < incoming.len() && 0 <= j < incoming[n].len() ==> round_spec(
                incoming[n][j].delay.div_spec(dt),
            ) == Some((#[trigger] history.readers()[n][j]).at_delay),
        forall|n: int|
            0 <= n < incoming.len() ==> is_power_of_two((#[trigger] history.lines()[n]).len())
                && (required_steps(incoming, n as usize, uniform, dt) matches Some(steps)
                && history.lines()[n].len() >= steps),
{
    let nodes = incoming.len() as usize;
    assert forall|n: int, j: int| 0 <= n < incoming.len() && 0 <= j < incoming[n].len() implies round_spec(
        incoming[n][j].delay.div_spec(dt),
    ) == Some((#[trigger] history.readers()[n][j]).at_delay) by {
        lemma_lists_fault_none(incoming, n, nodes, dt);
        lemma_list_fault_none(incoming[n], j, nodes, dt);
        assert(history.readers()[n] == incoming[n].map_values(
            |edge: Edge<S::RealT>| reader_of::<S>(edge, nodes, dt),
        ));
    }
    assert forall|n: int| 0 <= n < incoming.len() implies is_power_of_two(
        (#[trigger] history.lines()[n]).len(),
    ) && (required_steps(incoming, n as usize, uniform, dt) matches Some(steps)
        && history.lines()[n].len() >= steps) by {
        let steps = required_steps(incoming, n as usize, uniform, dt).unwrap();
        lemma_power_of_two_at_least(steps as nat);
    }
}

/// Where a list of edges has no fault, none of its edges has one.
proof fn lemma_list_fault_none<R: Scalar>(edges: Seq<Edge<R>>, j: int, nodes: usize, dt: R)
    requires
        0 <= j < edges.len(),
        list_fault(edges, nodes, dt) is None,
    ensures
        edge_steps(edges[j], nodes, dt) is Ok,
    decreases edges.len(),
{
    if j < edges.len() - 1 {
        lemma_list_fault_none(edges.drop_last(), j, nodes, dt);
    }
}

/// Where the lists of incoming edges have no fault, none of the lists has one.
proof fn lemma_lists_fault_none<R: Scalar>(
    incoming: Seq<Seq<Edge<R>>>,
    n: int,
    nodes: usize,
    dt: R,
)
    requires
        0 <= n < incoming.len(),
        lists_fault(incoming, nodes, dt) is None,
    ensures
        list_fault(incoming[n], nodes, dt) is None,
    decreases incoming.len(),
{
    if n < incoming.len() - 1 {
        lemma_lists_fault_none(incoming.drop_last(), n, nodes, dt);
    }
}

/// Building is a function of what it is given: two histories built for the same incoming
/// edges, the same sizing and the same step width have the same readers and the same
/// delay lines, hence the same capacities.
pub proof fn lemma_building_is_deterministic<S: Feedback>(
    first: &History<S>,
    second: &History<S>,
    incoming: Seq<Seq<Edge<S::RealT>>>,
    uniform: bool,
    dt: S::RealT,
)
    requires
        first.describes(incoming, uniform, dt),
        second.describes(incoming, uniform, dt),
    ensures
        first.readers() == second.readers(),
        first.lines() == second.lines(),
        first.step() == second.step(),
{
    assert(first.readers() =~= second.readers());
    assert forall|n: int| 0 <= n < incoming.len() implies first.lines()[n] == second.lines()[n] by {
        assert(required_steps(incoming, n as usize, uniform, dt) is Some);
    }
    assert(first.lines() =~= second.lines());
}

/// A reader never sees the step in progress: what it reads at the start of a step, once
/// all nodes have pushed, is the sample just pushed where its delay is one step, and else
/// what it read at the end of the step before.
pub proof fn lemma_reading_after_push<S: Feedback>(
    lines: Seq<Seq<RungeKuttaDelay<S::FeedbackT>>>,
    samples: Seq<RungeKuttaDelay<S::FeedbackT>>,
    reader: ReadAtMultiply<S::WeightT>,
)
    requires
        reader.at_node < lines.len(),
        reader.at_node < samples.len(),
        1 <= reader.at_delay <= lines[reader.at_node as int].len(),
    ensures
        reading::<S>(lines_pushed(lines, samples), reader, 0) == if reader.at_delay == 1 {
            entry_times::<S>(samples[reader.at_node as int], reader.weight)
        } else {
            reading::<S>(lines, reader, 1)
        },
{
    crate::ring::lemma_read_after_push(
        lines[reader.at_node as int],
        samples[reader.at_node as int],
        reader.at_delay as int,
    );
}

/// Causality of a self-loop of one step: the input that a node reads at the start of a
/// step is exactly the sample that it pushed at the end of the step before, times the
/// weight of the loop.
pub proof fn lemma_self_loop_reads_last_push<S: Feedback>(
    lines: Seq<Seq<RungeKuttaDelay<S::FeedbackT>>>,
    samples: Seq<RungeKuttaDelay<S::FeedbackT>>,
    node: usize,
    weight: S::WeightT,
)
    requires
        node < lines.len(),
        node < samples.len(),
        lines[node as int].len() >= 1,
    ensures
        weighted_sum::<S>(
            lines_pushed(lines, samples),
            seq![ReadAtMultiply { at_node: node, at_delay: 1, weight }],
            0,
        ) == entry_plus::<S>(zero_entry::<S>(), entry_times::<S>(samples[node as int], weight)),
{
    let reader = ReadAtMultiply { at_node: node, at_delay: 1, weight };
    let readers = seq![reader];
    lemma_reading_after_push::<S>(lines, samples, reader);
    assert(readers.drop_last() =~= Seq::<ReadAtMultiply<S::WeightT>>::empty());
    assert(readers.last() == reader);
    assert(weighted_sum::<S>(lines_pushed(lines, samples), readers.drop_last(), 0) == zero_entry::<
        S,
    >());
}

} // verus!

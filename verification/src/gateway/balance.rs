//! Choosing an endpoint.

use vstd::prelude::*;
use vstd::utf8::encode_utf8;
use vstd::wrapping::u64_specs;

use crate::config::schema::LoadBalancingConfig;
use crate::gateway::endpoint::{EndpointState, Health};

verus! {

// ── Endpoints that take traffic ─────────────────────────────────────────────

/// The positions of the first `n` endpoints that take traffic.
pub open spec fn available_upto(endpoints: Seq<EndpointState>, n: nat) -> Seq<int>
    decreases n,
{
    if n == 0 {
        Seq::empty()
    } else {
        let before = available_upto(endpoints, (n - 1) as nat);
        if endpoints[n - 1].available() {
            before.push(n - 1)
        } else {
            before
        }
    }
}

/// The positions of the endpoints that take traffic, in order.
pub open spec fn available(endpoints: Seq<EndpointState>) -> Seq<int> {
    available_upto(endpoints, endpoints.len())
}

pub proof fn lemma_available(endpoints: Seq<EndpointState>, n: nat)
    requires
        n <= endpoints.len(),
    ensures
        available_upto(endpoints, n).len() <= n,
        forall|k: int|
            0 <= k < available_upto(endpoints, n).len() ==> 0 <= #[trigger] available_upto(
                endpoints,
                n,
            )[k] < n && endpoints[available_upto(endpoints, n)[k]].available(),
        available_upto(endpoints, n).len() == 0 ==> forall|i: int|
            0 <= i < n ==> !(#[trigger] endpoints[i]).available(),
    decreases n,
{
    if n > 0 {
        lemma_available(endpoints, (n - 1) as nat);
    }
}

// ── Weighted round robin ────────────────────────────────────────────────────

/// The weight of an endpoint in its present health: half of it, but no less than 1, if
/// it is degraded.
pub open spec fn effective_weight(e: EndpointState) -> nat {
    match e.health {
        Health::Healthy => e.weight as nat,
        Health::Degraded => if e.weight / 2 >= 1 {
            (e.weight / 2) as nat
        } else {
            1
        },
        Health::Unhealthy => 0,
    }
}

/// The weights of the first `k` endpoints at `positions` together.
pub open spec fn weight_upto(endpoints: Seq<EndpointState>, positions: Seq<int>, k: int) -> nat
    decreases k,
{
    if k <= 0 {
        0
    } else {
        weight_upto(endpoints, positions, k - 1) + effective_weight(endpoints[positions[k - 1]])
    }
}

/// The weights of all endpoints that take traffic together.
pub open spec fn total_weight(endpoints: Seq<EndpointState>) -> nat {
    weight_upto(endpoints, available(endpoints), available(endpoints).len() as int)
}

/// The number of endpoints at `positions`, from the `k`th on, that a turn passes by: the
/// turn goes to the first whose weight, with those before it, exceeds the turn's number.
pub open spec fn passed_by(
    endpoints: Seq<EndpointState>,
    positions: Seq<int>,
    turn: int,
    k: int,
) -> int
    decreases positions.len() - k,
{
    if k >= positions.len() || turn < weight_upto(endpoints, positions, k + 1) {
        k
    } else {
        passed_by(endpoints, positions, turn, k + 1)
    }
}

/// The number of the turn that the counter stands at.
pub open spec fn turn(counter: usize, total: nat) -> int {
    (counter as int % 0x1_0000_0000) % total as int
}

// ── Least connections ───────────────────────────────────────────────────────

/// `a * b`, or the largest number if that is larger.
pub open spec fn capped_product(a: u64, b: u64) -> u64 {
    if a * b > u64::MAX {
        u64::MAX
    } else {
        (a * b) as u64
    }
}

/// The load of an endpoint: its requests in flight times its latency, twice that if it is
/// degraded. Without a latency yet, its requests in flight alone.
pub open spec fn load_score(e: EndpointState) -> u64 {
    let base = if e.ewma_latency == 0 {
        e.active_conns
    } else {
        capped_product(e.active_conns, e.ewma_latency)
    };
    capped_product(base, if e.health == Health::Degraded { 2 } else { 1 })
}

/// Whether a request goes rather to `a` than to `b`: to the one with less load, and of two
/// with the same load to a healthy one before a degraded one.
pub open spec fn is_preferred(a: EndpointState, b: EndpointState) -> bool {
    ||| load_score(a) < load_score(b)
    ||| load_score(a) == load_score(b) && a.health != Health::Degraded && b.health
        == Health::Degraded
}

/// The first of the endpoints at `positions` that no other is preferred to.
pub open spec fn least_loaded(endpoints: Seq<EndpointState>, positions: Seq<int>) -> int
    decreases positions.len(),
{
    if positions.len() <= 1 {
        positions[0]
    } else {
        let best = least_loaded(endpoints, positions.drop_last());
        if is_preferred(endpoints[positions.last()], endpoints[best]) {
            positions.last()
        } else {
            best
        }
    }
}

// ── Consistent hashing ──────────────────────────────────────────────────────

/// The FNV-1a hash of `data`, in 64 bits.
pub open spec fn fnv1a(data: Seq<u8>) -> u64
    decreases data.len(),
{
    if data.len() == 0 {
        14_695_981_039_346_656_037
    } else {
        u64_specs::wrapping_mul(fnv1a(data.drop_last()) ^ (data.last() as u64), 1_099_511_628_211)
    }
}

/// Where on a ring of `n` endpoints with `virtual_nodes` nodes each a key falls.
pub open spec fn ring_slot(key: Seq<char>, n: nat, virtual_nodes: nat) -> int {
    ((fnv1a(encode_utf8(key)) as usize as int) % (n * virtual_nodes) as int) / virtual_nodes as int
}

/// The key of a request, `default` if it has none.
pub open spec fn key_or_default(hash_key: Option<Seq<char>>) -> Seq<char> {
    match hash_key {
        Some(key) => key,
        None => "default"@,
    }
}

// ── Selection ───────────────────────────────────────────────────────────────

/// Whether an endpoint can be selected at all: the weights fit 32 bits, and a ring has
/// nodes whose number fits the machine.
pub open spec fn selectable(endpoints: Seq<EndpointState>, algorithm: LoadBalancingConfig) -> bool {
    match algorithm {
        LoadBalancingConfig::WeightedRoundRobin => total_weight(endpoints) <= u32::MAX,
        LoadBalancingConfig::LeastConnections { .. } => true,
        LoadBalancingConfig::ConsistentHashing { virtual_nodes, .. } => {
            available(endpoints).len() > 0 ==> virtual_nodes > 0 && available(endpoints).len()
                * virtual_nodes <= usize::MAX
        },
    }
}

/// The position of the endpoint that a request goes to; none if none takes traffic.
pub open spec fn selected(
    endpoints: Seq<EndpointState>,
    algorithm: LoadBalancingConfig,
    hash_key: Option<Seq<char>>,
    counter: usize,
) -> Option<int> {
    let positions = available(endpoints);
    if positions.len() == 0 {
        None
    } else {
        match algorithm {
            LoadBalancingConfig::WeightedRoundRobin => {
                let total = total_weight(endpoints);
                if total == 0 {
                    Some(positions[0])
                } else {
                    Some(positions[passed_by(endpoints, positions, turn(counter, total), 0)])
                }
            },
            LoadBalancingConfig::LeastConnections { .. } => Some(
                least_loaded(endpoints, positions),
            ),
            LoadBalancingConfig::ConsistentHashing { virtual_nodes, .. } => Some(
                positions[ring_slot(
                    key_or_default(hash_key),
                    positions.len(),
                    virtual_nodes as nat,
                )],
            ),
        }
    }
}

/// The counter after a selection: the weighted round robin counts its turns.
pub open spec fn counter_after(
    endpoints: Seq<EndpointState>,
    algorithm: LoadBalancingConfig,
    counter: usize,
) -> usize {
    if algorithm is WeightedRoundRobin && available(endpoints).len() > 0 && total_weight(endpoints)
        > 0 {
        if counter == usize::MAX {
            0
        } else {
            (counter + 1) as usize
        }
    } else {
        counter
    }
}

/// Positions as numbers.
pub open spec fn as_ints(v: Seq<usize>) -> Seq<int> {
    v.map_values(|i: usize| i as int)
}

fn available_positions(endpoints: &[EndpointState]) -> (r: Vec<usize>)
    ensures
        as_ints(r@) == available(endpoints@),
{
    let mut positions: Vec<usize> = Vec::new();
    for i in 0..endpoints.len()
        invariant
            as_ints(positions@) == available_upto(endpoints@, i as nat),
    {
        if endpoints[i].is_available() {
            let ghost before = positions@;
            positions.push(i);
            proof {
                assert(as_ints(positions@) == as_ints(before).push(i as int));
            }
        }
    }
    positions
}

pub(crate) fn weight_of(e: &EndpointState) -> (r: u32)
    ensures
        r == effective_weight(*e),
{
    match e.health {
        Health::Healthy => e.weight,
        Health::Degraded => if e.weight / 2 >= 1 {
            e.weight / 2
        } else {
            1
        },
        Health::Unhealthy => 0,
    }
}

proof fn lemma_weight_grows(endpoints: Seq<EndpointState>, positions: Seq<int>, j: int, k: int)
    requires
        j <= k,
    ensures
        weight_upto(endpoints, positions, j) <= weight_upto(endpoints, positions, k),
    decreases k - j,
{
    if j < k {
        lemma_weight_grows(endpoints, positions, j, k - 1);
    }
}

fn sum_weights(endpoints: &[EndpointState], positions: &Vec<usize>) -> (r: u32)
    requires
        as_ints(positions@) == available(endpoints@),
        total_weight(endpoints@) <= u32::MAX,
    ensures
        r == total_weight(endpoints@),
{
    let ghost ints = available(endpoints@);
    let mut total: u32 = 0;
    proof {
        lemma_available(endpoints@, endpoints@.len());
    }
    for k in 0..positions.len()
        invariant
            as_ints(positions@) == ints,
            ints == available(endpoints@),
            total_weight(endpoints@) <= u32::MAX,
            forall|j: int| 0 <= j < ints.len() ==> 0 <= #[trigger] ints[j] < endpoints@.len(),
            total == weight_upto(endpoints@, ints, k as int),
    {
        proof {
            assert(ints[k as int] == positions@[k as int]);
            lemma_weight_grows(endpoints@, ints, k + 1, ints.len() as int);
        }
        total = total + weight_of(&endpoints[positions[k]]);
    }
    total
}

fn times(a: u64, b: u64) -> (r: u64)
    ensures
        r == capped_product(a, b),
{
    match a.checked_mul(b) {
        Some(product) => product,
        None => u64::MAX,
    }
}

fn score(e: &EndpointState) -> (r: u64)
    ensures
        r == load_score(*e),
{
    let base: u64 = if e.ewma_latency == 0 {
        e.active_conns
    } else {
        times(e.active_conns, e.ewma_latency)
    };
    let penalty: u64 = if e.health == Health::Degraded {
        2
    } else {
        1
    };
    times(base, penalty)
}

fn preferred(a: &EndpointState, b: &EndpointState) -> (r: bool)
    ensures
        r == is_preferred(*a, *b),
{
    let first: u64 = score(a);
    let second: u64 = score(b);
    first < second || (first == second && a.health != Health::Degraded && b.health
        == Health::Degraded)
}

/// The FNV-1a hash of `data`, in 64 bits.
pub fn fnv1a_64(data: &[u8]) -> (r: u64)
    ensures
        r == fnv1a(data@),
{
    let mut hash: u64 = 14_695_981_039_346_656_037;
    for i in 0..data.len()
        invariant
            hash == fnv1a(data@.take(i as int)),
    {
        proof {
            assert(data@.take(i + 1).drop_last() == data@.take(i as int));
        }
        hash = (hash ^ (data[i] as u64)).wrapping_mul(1_099_511_628_211);
    }
    proof {
        assert(data@.take(data@.len() as int) == data@);
    }
    hash
}

proof fn lemma_ring_slot(h: int, n: int, nodes: int)
    by (nonlinear_arith)
    requires
        h >= 0,
        n > 0,
        nodes > 0,
    ensures
        0 <= (h % (n * nodes)) / nodes < n,
{
    assert(n * nodes > 0);
    let r = h % (n * nodes);
    assert(0 <= r < n * nodes);
    assert(r / nodes < n);
}

/// Choose the endpoint that a request goes to, by its position. None is chosen only if
/// none takes traffic.
pub fn select_endpoint(
    endpoints: &[EndpointState],
    algorithm: &LoadBalancingConfig,
    hash_key: Option<&str>,
    counter: &mut usize,
) -> (r: Option<usize>)
    requires
        selectable(endpoints@, *algorithm),
    ensures
        ({
            let key = match hash_key {
                Some(k) => Some(k@),
                None => None,
            };
            let position = selected(endpoints@, *algorithm, key, *old(counter));
            match r {
                Some(i) => position == Some(i as int) && i < endpoints@.len()
                    && endpoints@[i as int].available(),
                None => position is None,
            }
        }),
        *final(counter) == counter_after(endpoints@, *algorithm, *old(counter)),
{
    let positions = available_positions(endpoints);
    let ghost ints = available(endpoints@);
    proof {
        lemma_available(endpoints@, endpoints@.len());
        assert forall|j: int| 0 <= j < ints.len() implies positions@[j] as int == #[trigger] ints[j] by {
            assert(as_ints(positions@)[j] == ints[j]);
        }
    }
    if positions.len() == 0 {
        return None;
    }
    match algorithm {
        LoadBalancingConfig::WeightedRoundRobin => {
            let total: u32 = sum_weights(endpoints, &positions);
            if total == 0 {
                return Some(positions[0]);
            }
            let count: usize = *counter;
            *counter = count.wrapping_add(1);
            let wide: u64 = count as u64;
            proof {
                assert(wide as u32 == wide % 0x1_0000_0000) by (bit_vector);
            }
            let turn_now: u32 = (wide as u32) % total;
            let mut seen: u32 = 0;
            let mut k: usize = 0;
            while k < positions.len()
                invariant
                    as_ints(positions@) == ints,
                    ints == available(endpoints@),
                    total == total_weight(endpoints@),
                    turn_now < total,
                    k <= positions@.len(),
                    forall|j: int|
                        0 <= j < ints.len() ==> 0 <= #[trigger] ints[j] < endpoints@.len()
                            && positions@[j] as int == ints[j] && endpoints@[ints[j]].available(),
                    seen == weight_upto(endpoints@, ints, k as int),
                    seen <= turn_now,
                    passed_by(endpoints@, ints, turn_now as int, 0) == passed_by(
                        endpoints@,
                        ints,
                        turn_now as int,
                        k as int,
                    ),
                    selected(
                        endpoints@,
                        *algorithm,
                        match hash_key {
                            Some(k) => Some(k@),
                            None => None,
                        },
                        count,
                    ) == Some(ints[passed_by(endpoints@, ints, turn_now as int, 0)]),
                    *counter == counter_after(endpoints@, *algorithm, count),
                    count == *old(counter),
                decreases positions@.len() - k,
            {
                proof {
                    assert(ints[k as int] == positions@[k as int]);
                    lemma_weight_grows(endpoints@, ints, k + 1, ints.len() as int);
                }
                seen = seen + weight_of(&endpoints[positions[k]]);
                if turn_now < seen {
                    return Some(positions[k]);
                }
                k = k + 1;
            }
            None
        },
        LoadBalancingConfig::LeastConnections { .. } => {
            let mut best: usize = positions[0];
            proof {
                assert(ints.take(1)[0] == ints[0]);
            }
            for k in 1..positions.len()
                invariant
                    as_ints(positions@) == ints,
                    ints.len() > 0,
                    forall|j: int|
                        0 <= j < ints.len() ==> 0 <= #[trigger] ints[j] < endpoints@.len()
                            && positions@[j] as int == ints[j] && endpoints@[ints[j]].available(),
                    best < endpoints@.len(),
                    endpoints@[best as int].available(),
                    best == least_loaded(endpoints@, ints.take(k as int)),
            {
                proof {
                    assert(ints.take(k + 1).drop_last() == ints.take(k as int));
                    assert(ints.take(k + 1).last() == ints[k as int]);
                }
                if preferred(&endpoints[positions[k]], &endpoints[best]) {
                    best = positions[k];
                }
            }
            proof {
                assert(ints.take(ints.len() as int) == ints);
            }
            Some(best)
        },
        LoadBalancingConfig::ConsistentHashing { virtual_nodes, .. } => {
            let key = match hash_key {
                Some(k) => k,
                None => "default",
            };
            let hash: u64 = fnv1a_64(key.as_bytes());
            proof {
                lemma_ring_slot(
                    hash as usize as int,
                    positions@.len() as int,
                    *virtual_nodes as int,
                );
                assert(positions@.len() * *virtual_nodes > 0) by (nonlinear_arith)
                    requires
                        positions@.len() > 0,
                        *virtual_nodes > 0,
                ;
            }
            let ring: usize = positions.len() * *virtual_nodes;
            let slot: usize = (hash as usize) % ring / *virtual_nodes;
            proof {
                assert(ints[slot as int] == positions@[slot as int]);
            }
            Some(positions[slot])
        },
    }
}

// ── Laws ────────────────────────────────────────────────────────────────────

proof fn lemma_passed_by(
    endpoints: Seq<EndpointState>,
    positions: Seq<int>,
    turn: int,
    from: int,
    k: int,
)
    requires
        0 <= from <= k < positions.len(),
        weight_upto(endpoints, positions, k) <= turn < weight_upto(endpoints, positions, k + 1),
    ensures
        passed_by(endpoints, positions, turn, from) == k,
    decreases k - from,
{
    if from < k {
        lemma_weight_grows(endpoints, positions, from + 1, k);
        lemma_passed_by(endpoints, positions, turn, from + 1, k);
    }
}

proof fn lemma_passed_by_bounds(
    endpoints: Seq<EndpointState>,
    positions: Seq<int>,
    turn: int,
    from: int,
)
    requires
        0 <= from <= positions.len(),
        weight_upto(endpoints, positions, from) <= turn < weight_upto(
            endpoints,
            positions,
            positions.len() as int,
        ),
    ensures
        ({
            let k = passed_by(endpoints, positions, turn, from);
            &&& from <= k < positions.len()
            &&& weight_upto(endpoints, positions, k) <= turn < weight_upto(
                endpoints,
                positions,
                k + 1,
            )
        }),
    decreases positions.len() - from,
{
    if from < positions.len() && turn >= weight_upto(endpoints, positions, from + 1) {
        lemma_passed_by_bounds(endpoints, positions, turn, from + 1);
    }
}

/// How many of the first `n` turns of a round go to the `k`th endpoint that takes traffic.
pub open spec fn turns_of(endpoints: Seq<EndpointState>, k: int, n: nat) -> nat
    decreases n,
{
    if n == 0 {
        0
    } else {
        turns_of(endpoints, k, (n - 1) as nat) + if passed_by(
            endpoints,
            available(endpoints),
            n - 1,
            0,
        ) == k {
            1nat
        } else {
            0
        }
    }
}

proof fn lemma_turns_of(endpoints: Seq<EndpointState>, k: int, n: nat)
    requires
        0 <= k < available(endpoints).len(),
        n <= total_weight(endpoints),
    ensures
        ({
            let low = weight_upto(endpoints, available(endpoints), k);
            let high = weight_upto(endpoints, available(endpoints), k + 1);
            turns_of(endpoints, k, n) == if n <= low {
                0
            } else if n <= high {
                n - low
            } else {
                high - low
            }
        }),
    decreases n,
{
    let positions = available(endpoints);
    if n > 0 {
        lemma_turns_of(endpoints, k, (n - 1) as nat);
        lemma_passed_by_bounds(endpoints, positions, n - 1, 0);
        let j = passed_by(endpoints, positions, n - 1, 0);
        if j < k {
            lemma_weight_grows(endpoints, positions, j + 1, k);
        } else if j > k {
            lemma_weight_grows(endpoints, positions, k + 1, j);
        }
    }
}

/// How many of `n` selections by weighted round robin, the first at `counter`, go to the `k`th
/// endpoint that takes traffic.
pub open spec fn selections_of(endpoints: Seq<EndpointState>, counter: int, n: nat, k: int) -> nat
    decreases n,
{
    if n == 0 {
        0
    } else {
        selections_of(endpoints, counter, (n - 1) as nat, k) + if selected(
            endpoints,
            LoadBalancingConfig::WeightedRoundRobin,
            None,
            (counter + n - 1) as usize,
        ) == Some(available(endpoints)[k]) {
            1nat
        } else {
            0
        }
    }
}

/// The counter after `n` selections by weighted round robin.
pub open spec fn counter_after_many(endpoints: Seq<EndpointState>, counter: usize, n: nat) -> usize
    decreases n,
{
    if n == 0 {
        counter
    } else {
        counter_after(
            endpoints,
            LoadBalancingConfig::WeightedRoundRobin,
            counter_after_many(endpoints, counter, (n - 1) as nat),
        )
    }
}

proof fn lemma_available_distinct(endpoints: Seq<EndpointState>, n: nat)
    requires
        n <= endpoints.len(),
    ensures
        forall|i: int, j: int|
            0 <= i < j < available_upto(endpoints, n).len() ==> #[trigger] available_upto(
                endpoints,
                n,
            )[i] < #[trigger] available_upto(endpoints, n)[j],
    decreases n,
{
    lemma_available(endpoints, n);
    if n > 0 {
        lemma_available(endpoints, (n - 1) as nat);
        lemma_available_distinct(endpoints, (n - 1) as nat);
    }
}

/// The turn after `m` more is the `m`th of a round, counted from where the round stands.
proof fn lemma_turn(counter: int, total: int, start: int, m: int)
    requires
        total > 0,
        0 <= m < total,
        start == counter % total,
        0 <= counter,
    ensures
        (counter + m) % total == if start + m < total {
            start + m
        } else {
            start + m - total
        },
{
    vstd::arithmetic::div_mod::lemma_fundamental_div_mod(counter, total);
    let q = counter / total;
    assert(total * q == q * total) by (nonlinear_arith);
    if start + m < total {
        vstd::arithmetic::div_mod::lemma_fundamental_div_mod_converse(
            counter + m,
            total,
            q,
            start + m,
        );
    } else {
        assert((q + 1) * total == q * total + total) by (nonlinear_arith);
        vstd::arithmetic::div_mod::lemma_fundamental_div_mod_converse(
            counter + m,
            total,
            q + 1,
            start + m - total,
        );
    }
}

/// The first `n` selections from `counter` on: up to the end of the round they are its turns
/// from where it stands, then those of the next.
proof fn lemma_selections_of(endpoints: Seq<EndpointState>, counter: int, n: nat, k: int)
    requires
        0 <= counter,
        counter + total_weight(endpoints) <= usize::MAX,
        counter % 0x1_0000_0000 + total_weight(endpoints) <= 0x1_0000_0000,
        0 < total_weight(endpoints),
        n <= total_weight(endpoints),
        0 <= k < available(endpoints).len(),
    ensures
        ({
            let total = total_weight(endpoints);
            let start = (counter % 0x1_0000_0000) % total as int;
            selections_of(endpoints, counter, n, k) == if start + n <= total {
                turns_of(endpoints, k, (start + n) as nat) - turns_of(endpoints, k, start as nat)
            } else {
                turns_of(endpoints, k, total) - turns_of(endpoints, k, start as nat) + turns_of(
                    endpoints,
                    k,
                    (start + n - total) as nat,
                )
            }
        }),
    decreases n,
{
    let total = total_weight(endpoints);
    let low = counter % 0x1_0000_0000;
    let start = low % total as int;
    let positions = available(endpoints);
    if n > 0 {
        lemma_selections_of(endpoints, counter, (n - 1) as nat, k);
        lemma_turn(counter, 0x1_0000_0000, low, n - 1);
        lemma_turn(low, total as int, start, n - 1);
        let now = (counter + n - 1) as usize;
        let t = turn(now, total);
        assert(now as int == counter + n - 1);
        lemma_passed_by_bounds(endpoints, positions, t, 0);
        lemma_available(endpoints, endpoints.len());
        lemma_available_distinct(endpoints, endpoints.len());
        let j = passed_by(endpoints, positions, t, 0);
        assert(positions[j] == positions[k] <==> j == k);
        assert(turns_of(endpoints, k, (t + 1) as nat) == turns_of(endpoints, k, t as nat) + if j
            == k {
            1nat
        } else {
            0
        });
        if start + n - 1 == total {
            assert(turns_of(endpoints, k, 0) == 0);
        }
    }
}

proof fn lemma_counter_after_many(endpoints: Seq<EndpointState>, counter: usize, n: nat)
    requires
        counter + n <= usize::MAX,
        available(endpoints).len() > 0,
        total_weight(endpoints) > 0,
    ensures
        counter_after_many(endpoints, counter, n) == counter + n,
    decreases n,
{
    if n > 0 {
        lemma_counter_after_many(endpoints, counter, (n - 1) as nat);
    }
}

/// Of as many selections in a row as the weights add up to, each endpoint that takes traffic
/// gets as many as its weight says, wherever the counter stands, unless its lower 32 bits start
/// over on the way; and the counter then stands so many further.
pub proof fn law_round_robin_is_proportional(
    endpoints: Seq<EndpointState>,
    counter: usize,
    k: int,
)
    requires
        0 <= k < available(endpoints).len(),
        0 < total_weight(endpoints),
        counter + total_weight(endpoints) <= usize::MAX,
        counter as int % 0x1_0000_0000 + total_weight(endpoints) <= 0x1_0000_0000,
    ensures
        selections_of(endpoints, counter as int, total_weight(endpoints), k) == effective_weight(
            endpoints[available(endpoints)[k]],
        ),
        counter_after_many(endpoints, counter, total_weight(endpoints)) == counter
            + total_weight(endpoints),
{
    let total = total_weight(endpoints);
    let start = (counter as int % 0x1_0000_0000) % total as int;
    lemma_selections_of(endpoints, counter as int, total, k);
    lemma_turns_of(endpoints, k, total);
    lemma_turns_of(endpoints, k, start as nat);
    lemma_weight_grows(endpoints, available(endpoints), k + 1, available(endpoints).len() as int);
    lemma_counter_after_many(endpoints, counter, total);
}

/// An endpoint is found exactly if one takes traffic, and it is one that does.
pub proof fn law_selection_finds_what_takes_traffic(
    endpoints: Seq<EndpointState>,
    algorithm: LoadBalancingConfig,
    hash_key: Option<Seq<char>>,
    counter: usize,
)
    requires
        selectable(endpoints, algorithm),
    ensures
        selected(endpoints, algorithm, hash_key, counter) is None <==> forall|i: int|
            0 <= i < endpoints.len() ==> !(#[trigger] endpoints[i]).available(),
        selected(endpoints, algorithm, hash_key, counter) matches Some(i) ==> 0 <= i
            < endpoints.len() && endpoints[i].available(),
{
    let positions = available(endpoints);
    lemma_available(endpoints, endpoints.len());
    if positions.len() > 0 {
        assert(endpoints[positions[0]].available());
        match algorithm {
            LoadBalancingConfig::WeightedRoundRobin => {
                let total = total_weight(endpoints);
                if total > 0 {
                    lemma_passed_by_bounds(endpoints, positions, turn(counter, total), 0);
                }
            },
            LoadBalancingConfig::LeastConnections { .. } => {
                lemma_least_loaded(endpoints, positions);
            },
            LoadBalancingConfig::ConsistentHashing { virtual_nodes, .. } => {
                let h = fnv1a(encode_utf8(key_or_default(hash_key))) as usize as int;
                lemma_ring_slot(h, positions.len() as int, virtual_nodes as int);
            },
        }
    }
}

proof fn lemma_least_loaded(endpoints: Seq<EndpointState>, positions: Seq<int>)
    requires
        positions.len() > 0,
    ensures
        positions.contains(least_loaded(endpoints, positions)),
        forall|k: int|
            0 <= k < positions.len() ==> !is_preferred(
                endpoints[#[trigger] positions[k]],
                endpoints[least_loaded(endpoints, positions)],
            ),
    decreases positions.len(),
{
    if positions.len() == 1 {
        assert(positions.contains(positions[0]));
    } else {
        let rest = positions.drop_last();
        lemma_least_loaded(endpoints, rest);
        let best = least_loaded(endpoints, rest);
        let j = choose|j: int| 0 <= j < rest.len() && rest[j] == best;
        assert(positions[j] == best);
        assert(positions.contains(positions.last()));
        assert forall|k: int| 0 <= k < positions.len() implies !is_preferred(
            endpoints[#[trigger] positions[k]],
            endpoints[least_loaded(endpoints, positions)],
        ) by {
            if k < rest.len() {
                assert(rest[k] == positions[k]);
            }
        }
    }
}

/// No endpoint that takes traffic has less load than the one that least connections
/// selects, and a degraded one is selected only if every endpoint with the same load is
/// degraded.
pub proof fn law_least_connections_is_least(
    endpoints: Seq<EndpointState>,
    algorithm: LoadBalancingConfig,
    hash_key: Option<Seq<char>>,
    counter: usize,
    k: int,
)
    requires
        algorithm is LeastConnections,
        0 <= k < available(endpoints).len(),
    ensures
        selected(endpoints, algorithm, hash_key, counter) matches Some(i) && {
            let chosen = endpoints[i];
            let other = endpoints[available(endpoints)[k]];
            &&& load_score(chosen) <= load_score(other)
            &&& chosen.health == Health::Degraded && load_score(chosen) == load_score(other)
                ==> other.health == Health::Degraded
        },
{
    lemma_least_loaded(endpoints, available(endpoints));
}

proof fn lemma_load_score(e: EndpointState)
    ensures
        ({
            let latency = if e.ewma_latency == 0 { 1 } else { e.ewma_latency };
            let product = e.active_conns * latency;
            &&& e.health != Health::Degraded && product <= u64::MAX ==> load_score(e) == product
            &&& e.health == Health::Degraded && 2 * product <= u64::MAX ==> load_score(e) == 2
                * product
        }),
{
    let latency = if e.ewma_latency == 0 { 1 } else { e.ewma_latency };
    let product = e.active_conns * latency;
    assert(product >= 0) by (nonlinear_arith)
        requires
            product == e.active_conns * latency,
    ;
}

proof fn lemma_first_least_loaded(endpoints: Seq<EndpointState>, positions: Seq<int>, c: int)
    requires
        0 <= c < positions.len(),
        positions[c] == least_loaded(endpoints, positions),
        forall|j: int, k: int|
            0 <= j < k < positions.len() ==> #[trigger] positions[j] < #[trigger] positions[k],
    ensures
        forall|k: int|
            0 <= k < c ==> is_preferred(
                endpoints[least_loaded(endpoints, positions)],
                endpoints[#[trigger] positions[k]],
            ),
    decreases positions.len(),
{
    if positions.len() > 1 {
        let rest = positions.drop_last();
        let best = least_loaded(endpoints, rest);
        lemma_least_loaded(endpoints, rest);
        if c < rest.len() {
            assert(rest[c] == positions[c]);
            assert(positions[c] < positions[positions.len() - 1]);
            lemma_first_least_loaded(endpoints, rest, c);
            assert forall|k: int| 0 <= k < c implies is_preferred(
                endpoints[least_loaded(endpoints, positions)],
                endpoints[#[trigger] positions[k]],
            ) by {
                assert(rest[k] == positions[k]);
            }
        } else {
            let j = choose|j: int| 0 <= j < rest.len() && rest[j] == best;
            assert(positions[j] == best);
            assert(positions[j] < positions[c]);
            assert forall|k: int| 0 <= k < c implies is_preferred(
                endpoints[least_loaded(endpoints, positions)],
                endpoints[#[trigger] positions[k]],
            ) by {
                assert(rest[k] == positions[k]);
            }
        }
    }
}

/// Least connections selects the endpoint whose requests in flight times latency is the
/// smallest: for every other endpoint that takes traffic the product is at least as large. The
/// product counts twice where an endpoint is degraded, and before the first request is back
/// the requests in flight count alone. Of two endpoints with the same load a healthy one goes
/// before a degraded one, and of two in the same health the one that is configured first. The
/// products have to fit 64 bits.
pub proof fn law_least_connections_compares_products(
    endpoints: Seq<EndpointState>,
    algorithm: LoadBalancingConfig,
    hash_key: Option<Seq<char>>,
    counter: usize,
    k: int,
)
    requires
        algorithm is LeastConnections,
        0 <= k < endpoints.len(),
        endpoints[k].health != Health::Unhealthy,
        forall|j: int|
            0 <= j < endpoints.len() && (#[trigger] endpoints[j]).health != Health::Unhealthy ==> {
                let latency = if endpoints[j].ewma_latency == 0 {
                    1
                } else {
                    endpoints[j].ewma_latency
                };
                let factor: int = if endpoints[j].health == Health::Degraded { 2 } else { 1 };
                factor * (endpoints[j].active_conns * latency) <= u64::MAX
            },
    ensures
        selected(endpoints, algorithm, hash_key, counter) matches Some(i) && 0 <= i
            < endpoints.len() && {
            let chosen = endpoints[i];
            let other = endpoints[k];
            let chosen_latency = if chosen.ewma_latency == 0 { 1 } else { chosen.ewma_latency };
            let other_latency = if other.ewma_latency == 0 { 1 } else { other.ewma_latency };
            let chosen_factor: int = if chosen.health == Health::Degraded { 2 } else { 1 };
            let other_factor: int = if other.health == Health::Degraded { 2 } else { 1 };
            let a = chosen_factor * (chosen.active_conns * chosen_latency);
            let b = other_factor * (other.active_conns * other_latency);
            &&& chosen.health != Health::Unhealthy
            &&& a <= b
            &&& a == b && chosen.health == Health::Degraded ==> other.health == Health::Degraded
            &&& a == b && chosen.health == other.health ==> i <= k
        },
{
    let positions = available(endpoints);
    lemma_available(endpoints, endpoints.len());
    lemma_available_distinct(endpoints, endpoints.len());
    lemma_available_all(endpoints, endpoints.len(), k);
    lemma_least_loaded(endpoints, positions);
    let i = least_loaded(endpoints, positions);
    let p = choose|p: int| 0 <= p < positions.len() && positions[p] == i;
    let q = choose|q: int| 0 <= q < positions.len() && positions[q] == k;
    assert(0 <= positions[p] < endpoints.len() && endpoints[positions[p]].available());
    assert(!is_preferred(endpoints[positions[q]], endpoints[i]));
    lemma_first_least_loaded(endpoints, positions, p);
    if q < p {
        assert(is_preferred(endpoints[i], endpoints[positions[q]]));
    } else if p < q {
        assert(positions[p] < positions[q]);
    }
    lemma_load_score(endpoints[i]);
    lemma_load_score(endpoints[k]);
}

proof fn lemma_available_all(endpoints: Seq<EndpointState>, n: nat, i: int)
    requires
        0 <= i < n <= endpoints.len(),
        endpoints[i].available(),
    ensures
        exists|k: int|
            0 <= k < available_upto(endpoints, n).len() && available_upto(endpoints, n)[k] == i,
    decreases n,
{
    let all = available_upto(endpoints, n);
    let before = available_upto(endpoints, (n - 1) as nat);
    if i == n - 1 {
        assert(all[before.len() as int] == i);
    } else {
        lemma_available_all(endpoints, (n - 1) as nat, i);
        let k = choose|k: int| 0 <= k < before.len() && before[k] == i;
        assert(all[k] == i);
    }
}

/// The endpoints that take traffic are the healthy and the degraded ones, each once and in
/// the order in which they are configured.
pub proof fn law_healthy_and_degraded_take_traffic(endpoints: Seq<EndpointState>)
    ensures
        forall|i: int|
            #![trigger endpoints[i]]
            0 <= i < endpoints.len() ==> (available(endpoints).contains(i) <==> endpoints[i].health
                == Health::Healthy || endpoints[i].health == Health::Degraded),
        forall|j: int|
            0 <= j < available(endpoints).len() ==> 0 <= #[trigger] available(endpoints)[j]
                < endpoints.len(),
        forall|j: int, k: int|
            0 <= j < k < available(endpoints).len() ==> #[trigger] available(endpoints)[j]
                < #[trigger] available(endpoints)[k],
{
    let positions = available(endpoints);
    lemma_available(endpoints, endpoints.len());
    lemma_available_distinct(endpoints, endpoints.len());
    assert forall|i: int|
        #![trigger endpoints[i]]
        0 <= i < endpoints.len() implies (positions.contains(i) <==> endpoints[i].health
        == Health::Healthy || endpoints[i].health == Health::Degraded) by {
        if endpoints[i].available() {
            lemma_available_all(endpoints, endpoints.len(), i);
        } else if positions.contains(i) {
            let k = choose|k: int| 0 <= k < positions.len() && positions[k] == i;
            assert(endpoints[positions[k]].available());
        }
    }
}

/// A healthy endpoint counts with its weight, a degraded one with half of it rounded down,
/// but at least with 1, and an unhealthy one not at all.
pub proof fn law_degraded_weighs_half(e: EndpointState)
    ensures
        e.health == Health::Healthy ==> effective_weight(e) == e.weight,
        e.health == Health::Unhealthy ==> effective_weight(e) == 0,
        e.health == Health::Degraded && e.weight >= 2 ==> 2 * effective_weight(e) <= e.weight < 2
            * effective_weight(e) + 2,
        e.health == Health::Degraded && e.weight < 2 ==> effective_weight(e) == 1,
{
}

/// One round of the weighted round robin starts with the first endpoint that takes traffic:
/// it gets its whole share of turns in a row, then comes the next.
pub proof fn law_round_robin_serves_in_order(
    endpoints: Seq<EndpointState>,
    hash_key: Option<Seq<char>>,
    counter: usize,
    k: int,
)
    requires
        0 <= k < available(endpoints).len(),
        counter < total_weight(endpoints) <= u32::MAX,
        weight_upto(endpoints, available(endpoints), k) <= counter,
        counter < weight_upto(endpoints, available(endpoints), k) + effective_weight(
            endpoints[available(endpoints)[k]],
        ),
    ensures
        selected(endpoints, LoadBalancingConfig::WeightedRoundRobin, hash_key, counter) == Some(
            available(endpoints)[k],
        ),
{
    let total = total_weight(endpoints);
    vstd::arithmetic::div_mod::lemma_small_mod(counter as nat, 0x1_0000_0000);
    vstd::arithmetic::div_mod::lemma_small_mod(counter as nat, total);
    lemma_passed_by(endpoints, available(endpoints), counter as int, 0, k);
}

/// The ring gives each endpoint that takes traffic as many neighbouring nodes as it is told:
/// a key falls on one node, and the endpoint is the one that owns it. A request without a key
/// goes where the key `default` goes.
pub proof fn law_ring_nodes_have_owners(
    endpoints: Seq<EndpointState>,
    algorithm: LoadBalancingConfig,
    hash_key: Option<Seq<char>>,
    counter: usize,
    nodes: nat,
)
    requires
        algorithm matches LoadBalancingConfig::ConsistentHashing { virtual_nodes, .. }
            && virtual_nodes == nodes,
        selectable(endpoints, algorithm),
        available(endpoints).len() > 0,
    ensures
        selected(endpoints, algorithm, None, counter) == selected(
            endpoints,
            algorithm,
            Some("default"@),
            counter,
        ),
        hash_key matches Some(key) ==> exists|slot: int|
            {
                let node = (fnv1a(encode_utf8(key)) as usize as int) % (available(endpoints).len()
                    * nodes) as int;
                &&& 0 <= slot < available(endpoints).len()
                &&& slot * nodes <= node < slot * nodes + nodes
                &&& selected(endpoints, algorithm, hash_key, counter) == Some(
                    #[trigger] available(endpoints)[slot],
                )
            },
{
    if hash_key is Some {
        let n = available(endpoints).len() as int;
        let h = fnv1a(encode_utf8(hash_key->0)) as usize as int;
        let node = h % (n * nodes);
        let slot = node / nodes as int;
        lemma_ring_slot(h, n, nodes as int);
        vstd::arithmetic::div_mod::lemma_fundamental_div_mod(node, nodes as int);
        vstd::arithmetic::div_mod::lemma_mod_bound(node, nodes as int);
        assert(nodes * slot == slot * nodes) by (nonlinear_arith);
        assert(selected(endpoints, algorithm, hash_key, counter) == Some(
            available(endpoints)[slot],
        ));
    }
}

/// The hash is FNV-1a: it starts at its offset basis, and each byte is mixed in by an
/// exclusive or, then multiplied by its prime.
pub proof fn law_hash_is_fnv1a(data: Seq<u8>, byte: u8)
    ensures
        fnv1a(Seq::<u8>::empty()) == 0xcbf2_9ce4_8422_2325u64,
        fnv1a(data.push(byte)) as int == ((fnv1a(data) ^ byte as u64) * 0x100_0000_01b3)
            % 0x1_0000_0000_0000_0000,
{
    assert(data.push(byte).drop_last() == data);
    assert(data.push(byte).last() == byte);
}

/// While the same endpoints take traffic, a key always goes to the same one, whatever
/// their load and however many requests came before.
pub proof fn law_same_key_same_endpoint(
    a: Seq<EndpointState>,
    b: Seq<EndpointState>,
    algorithm: LoadBalancingConfig,
    hash_key: Option<Seq<char>>,
    counter_a: usize,
    counter_b: usize,
)
    requires
        algorithm is ConsistentHashing,
        available(a) == available(b),
    ensures
        selected(a, algorithm, hash_key, counter_a) == selected(b, algorithm, hash_key, counter_b),
{
}

/// Only weighted round robin counts its requests: each one that it serves moves the counter by
/// one, and after the largest count it starts over. The counter of the other algorithms stays.
pub proof fn law_only_round_robin_counts(
    endpoints: Seq<EndpointState>,
    algorithm: LoadBalancingConfig,
    counter: usize,
)
    ensures
        !(algorithm is WeightedRoundRobin) ==> counter_after(endpoints, algorithm, counter)
            == counter,
        available(endpoints).len() == 0 ==> counter_after(endpoints, algorithm, counter) == counter,
        algorithm is WeightedRoundRobin && available(endpoints).len() > 0 && total_weight(endpoints)
            > 0 ==> {
            &&& counter < usize::MAX ==> counter_after(endpoints, algorithm, counter) == counter + 1
            &&& counter == usize::MAX ==> counter_after(endpoints, algorithm, counter) == 0
        },
{
}

} // verus!

//! Remote port allocation and mapping names. A new mapping gets a remote port
//! drawn at random from the allocation range, less the ports that the
//! allocation service reports in use and a few reserved ones, and a name made
//! from that port that no existing mapping has.

use vstd::prelude::*;
use rand::Rng;
use vstd::set_lib::{lemma_int_range, lemma_len_subset, lemma_map_size, set_int_range};
use crate::config::{MappingView, PortMapping, has_name, mappings_view};
use crate::text::{decimal, lemma_decimal_digits, lemma_decimal_injective, push_decimal};

verus! {

/// Lowest remote port handed out.
pub const MIN_PORT: u16 = 8001;

/// Highest remote port handed out.
pub const MAX_PORT: u16 = 8999;

/// Ports that the tunnel server keeps for its own services.
pub open spec fn is_restricted(p: u16) -> bool {
    p == 8081 || p == 8090 || p == 9000
}

pub fn port_is_restricted(p: u16) -> (r: bool)
    ensures
        r == is_restricted(p),
{
    p == 8081 || p == 8090 || p == 9000
}

/// Why no remote port could be handed out.
#[derive(Debug, Clone, Copy, PartialEq, Eq)]
pub enum AllocationError {
    /// Every port of the range is in use or reserved.
    Exhausted,
}

/// A port that may be handed out while `allocated` are in use.
pub open spec fn is_candidate(p: u16, allocated: Seq<u16>) -> bool {
    MIN_PORT <= p <= MAX_PORT && !allocated.contains(p) && !is_restricted(p)
}

fn port_listed(ports: &Vec<u16>, p: u16) -> (r: bool)
    ensures
        r == ports@.contains(p),
{
    let mut i: usize = 0;
    while i < ports.len()
        invariant
            i <= ports@.len(),
            forall|k: int| 0 <= k < i ==> ports@[k] != p,
        decreases ports@.len() - i,
    {
        if ports[i] == p {
            return true;
        }
        i = i + 1;
    }
    false
}

/// The ports that may be handed out while `allocated` are in use, in
/// increasing order.
pub fn available_ports(allocated: &Vec<u16>) -> (r: Vec<u16>)
    ensures
        forall|p: u16| r@.contains(p) <==> is_candidate(p, allocated@),
        forall|i: int, j: int| 0 <= i < j < r@.len() ==> r@[i] < r@[j],
{
    let mut out: Vec<u16> = Vec::new();
    let mut p: u16 = MIN_PORT;
    while p <= MAX_PORT
        invariant
            MIN_PORT <= p <= MAX_PORT + 1,
            forall|q: u16| out@.contains(q) <==> (is_candidate(q, allocated@) && q < p),
            forall|i: int, j: int| 0 <= i < j < out@.len() ==> out@[i] < out@[j],
            forall|i: int| 0 <= i < out@.len() ==> out@[i] < p,
        decreases MAX_PORT + 1 - p,
    {
        let ghost before = out@;
        if !port_listed(allocated, p) && !port_is_restricted(p) {
            out.push(p);
        }
        assert forall|q: u16| out@.contains(q) <==> (is_candidate(q, allocated@) && q < p + 1) by {
            if out@.contains(q) && q != p {
                let i = choose|i: int| 0 <= i < out@.len() && out@[i] == q;
                assert(before[i] == q);
            }
            if is_candidate(q, allocated@) && q < p {
                let i = choose|i: int| 0 <= i < before.len() && before[i] == q;
                assert(out@[i] == q);
            }
            if is_candidate(q, allocated@) && q == p {
                assert(out@[out@.len() - 1] == q);
            }
        }
        p = p + 1;
    }
    out
}

/// Relies on `rand::Rng::gen_range` on `rand::thread_rng()`: a value drawn
/// from `[0, n)`; it panics on an empty range, which `n > 0` rules out.
#[verifier::external_body]
fn random_index(n: usize) -> (r: usize)
    requires
        n > 0,
    ensures
        r < n,
{
    rand::thread_rng().gen_range(0..n)
}

/// A remote port for a new mapping, drawn at random among those that may be
/// handed out while `allocated` are in use; `Exhausted` when there are none.
pub fn find_available_port_in_range(allocated: &Vec<u16>) -> (r: Result<u16, AllocationError>)
    ensures
        r is Err <==> (forall|p: u16| !is_candidate(p, allocated@)),
        r is Err ==> r == Err::<u16, AllocationError>(AllocationError::Exhausted),
        r matches Ok(p) ==> is_candidate(p, allocated@),
{
    let ports = available_ports(allocated);
    if ports.len() == 0 {
        assert forall|p: u16| !is_candidate(p, allocated@) by {
            if is_candidate(p, allocated@) {
                assert(ports@.contains(p));
            }
        }
        return Err(AllocationError::Exhausted);
    }
    let i = random_index(ports.len());
    assert(ports@.contains(ports@[i as int]));
    Ok(ports[i])
}

/// The name of a mapping on remote port `port` before any suffix.
pub open spec fn name_base(port: u16) -> Seq<char> {
    "nextjs"@ + decimal(port as nat)
}

/// The `k`-th name tried for a mapping on `port`: the base name, then the
/// base name followed by 1, 2, ...
pub open spec fn candidate_name(port: u16, k: nat) -> Seq<char> {
    if k == 0 {
        name_base(port)
    } else {
        name_base(port) + decimal(k)
    }
}

/// The name given to a new mapping on `port` next to `ms`: the first candidate
/// that no mapping of `ms` has.
pub open spec fn is_generated_name(name: Seq<char>, port: u16, ms: Seq<MappingView>) -> bool {
    exists|k: nat|
        {
            &&& name == candidate_name(port, k)
            &&& !has_name(ms, candidate_name(port, k))
            &&& forall|j: nat| j < k ==> has_name(ms, #[trigger] candidate_name(port, j))
        }
}

/// The generated name is determined by the port and the existing mappings:
/// two names that both meet `is_generated_name` are the same.
pub proof fn lemma_generated_name_deterministic(
    port: u16,
    ms: Seq<MappingView>,
    a: Seq<char>,
    b: Seq<char>,
)
    requires
        is_generated_name(a, port, ms),
        is_generated_name(b, port, ms),
    ensures
        a == b,
{
    let ka = choose|k: nat|
        {
            &&& a == candidate_name(port, k)
            &&& !has_name(ms, candidate_name(port, k))
            &&& forall|j: nat| j < k ==> has_name(ms, #[trigger] candidate_name(port, j))
        };
    let kb = choose|k: nat|
        {
            &&& b == candidate_name(port, k)
            &&& !has_name(ms, candidate_name(port, k))
            &&& forall|j: nat| j < k ==> has_name(ms, #[trigger] candidate_name(port, j))
        };
    if ka < kb {
        assert(has_name(ms, candidate_name(port, ka)));
    } else if kb < ka {
        assert(has_name(ms, candidate_name(port, kb)));
    }
}

proof fn lemma_candidates_distinct(port: u16, a: nat, b: nat)
    requires
        candidate_name(port, a) == candidate_name(port, b),
    ensures
        a == b,
{
    let base = name_base(port);
    if a > 0 && b > 0 {
        assert(decimal(a) =~= candidate_name(port, a).subrange(base.len() as int, candidate_name(port, a).len() as int));
        assert(decimal(b) =~= candidate_name(port, b).subrange(base.len() as int, candidate_name(port, b).len() as int));
        lemma_decimal_injective(a, b);
    } else if a > 0 {
        lemma_decimal_digits(a);
        assert(candidate_name(port, a).len() > candidate_name(port, b).len());
    } else if b > 0 {
        lemma_decimal_digits(b);
        assert(candidate_name(port, b).len() > candidate_name(port, a).len());
    }
}

/// Among the first `ms.len() + 1` candidates, one is free.
proof fn lemma_some_candidate_free(port: u16, ms: Seq<MappingView>)
    ensures
        exists|k: nat| k <= ms.len() && !has_name(ms, #[trigger] candidate_name(port, k)),
{
    if forall|k: nat| k <= ms.len() ==> has_name(ms, #[trigger] candidate_name(port, k)) {
        let n = ms.len() as int;
        let x = set_int_range(0, n + 1);
        let f = |k: int| candidate_name(port, k as nat);
        let names = ms.map_values(|m: MappingView| m.name);
        let taken = names.to_set();
        lemma_int_range(0, n + 1);
        assert(vstd::relations::injective_on(f, x)) by {
            assert forall|a: int, b: int| x.contains(a) && x.contains(b) && #[trigger] f(a) == #[trigger] f(b) implies a == b by {
                lemma_candidates_distinct(port, a as nat, b as nat);
            }
        }
        lemma_map_size(x, x.map(f), f);
        assert(x.map(f).subset_of(taken)) by {
            assert forall|s: Seq<char>| x.map(f).contains(s) implies taken.contains(s) by {
                let k = choose|k: int| x.contains(k) && f(k) == s;
                assert(has_name(ms, candidate_name(port, k as nat)));
                let i = choose|i: int| 0 <= i < ms.len() && #[trigger] ms[i].name == candidate_name(port, k as nat);
                assert(names[i] == s);
                assert(names.contains(s));
            }
        }
        names.lemma_cardinality_of_set();
        lemma_len_subset(x.map(f), taken);
        assert(false);
    }
}

/// Whether some mapping of `ms` is called `name`.
pub fn name_taken(ms: &Vec<PortMapping>, name: &String) -> (r: bool)
    ensures
        r == has_name(mappings_view(ms@), name@),
{
    let mut i: usize = 0;
    while i < ms.len()
        invariant
            i <= ms@.len(),
            forall|k: int| 0 <= k < i ==> (#[trigger] mappings_view(ms@)[k]).name != name@,
        decreases ms@.len() - i,
    {
        if ms[i].name == *name {
            assert(mappings_view(ms@)[i as int].name == name@);
            return true;
        }
        i = i + 1;
    }
    false
}

/// A name for a new mapping on `remote_port`: `nextjs` and the port, followed
/// by the smallest counter from 1 up that makes it unused, where the bare
/// name is taken.
pub fn generate_mapping_name(remote_port: u16, existing_mappings: &Vec<PortMapping>) -> (r: String)
    ensures
        is_generated_name(r@, remote_port, mappings_view(existing_mappings@)),
        !has_name(mappings_view(existing_mappings@), r@),
{
    let ghost ms = mappings_view(existing_mappings@);
    let mut base = String::from_str("nextjs");
    push_decimal(&mut base, remote_port as u128);
    let mut name = base.clone();
    let mut counter: u128 = 1;
    let n = existing_mappings.len();
    proof {
        lemma_some_candidate_free(remote_port, ms);
    }
    while name_taken(existing_mappings, &name)
        invariant
            ms == mappings_view(existing_mappings@),
            n == existing_mappings@.len(),
            base@ == name_base(remote_port),
            1 <= counter <= ms.len() + 1,
            name@ == candidate_name(remote_port, (counter - 1) as nat),
            forall|j: nat| j < counter - 1 ==> has_name(ms, #[trigger] candidate_name(remote_port, j)),
            exists|k: nat| k <= ms.len() && !has_name(ms, #[trigger] candidate_name(remote_port, k)),
        decreases ms.len() + 1 - counter,
    {
        proof {
            assert(forall|j: nat| j < counter ==> has_name(ms, #[trigger] candidate_name(remote_port, j)));
            let k = choose|k: nat| k <= ms.len() && !has_name(ms, #[trigger] candidate_name(remote_port, k));
            assert(k >= counter);
            assert(ms.len() == existing_mappings@.len());
            assert(counter <= usize::MAX);
        }
        name = base.clone();
        push_decimal(&mut name, counter);
        counter = counter + 1;
    }
    proof {
        let k = (counter - 1) as nat;
        assert(name@ == candidate_name(remote_port, k));
    }
    name
}

} // verus!

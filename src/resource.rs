use crate::quantity::{cpu_millicores, memory_bytes, parse_cpu, parse_memory, ResourceValue};
use vstd::arithmetic::div_mod::{lemma_add_mod_noop_right, lemma_fundamental_div_mod_converse};
use vstd::prelude::*;

verus! {

/// `x` brought into the `i64` range modulo 2^64: what two's complement
/// addition leaves of a sum.
pub open spec fn wrap(x: int) -> int {
    ((x + 0x8000_0000_0000_0000) % 0x1_0000_0000_0000_0000) - 0x8000_0000_0000_0000
}

pub proof fn lemma_wrap_fits(x: int)
    ensures
        i64::MIN <= wrap(x) <= i64::MAX,
{
}

pub proof fn lemma_wrap_small(x: int)
    requires
        i64::MIN <= x <= i64::MAX,
    ensures
        wrap(x) == x,
{
    lemma_fundamental_div_mod_converse(
        x + 0x8000_0000_0000_0000,
        0x1_0000_0000_0000_0000,
        0,
        x + 0x8000_0000_0000_0000,
    );
}

/// Wrapping once at the end is the same as wrapping along the way.
pub proof fn lemma_wrap_add(x: int, y: int)
    ensures
        wrap(wrap(x) + y) == wrap(x + y),
{
    lemma_add_mod_noop_right(y, x + 0x8000_0000_0000_0000, 0x1_0000_0000_0000_0000);
    assert(wrap(x) + y + 0x8000_0000_0000_0000 == y + ((x + 0x8000_0000_0000_0000)
        % 0x1_0000_0000_0000_0000));
    assert(y + (x + 0x8000_0000_0000_0000) == x + y + 0x8000_0000_0000_0000);
}

/// `a + b` with two's complement wrap-around.
pub(crate) fn add_wrapping(a: i64, b: i64) -> (r: i64)
    ensures
        r == wrap(a + b),
{
    let r = a.wrapping_add(b);
    proof {
        let m: int = 0x1_0000_0000_0000_0000;
        let h: int = 0x8000_0000_0000_0000;
        let s = a + b;
        if s > i64::MAX {
            lemma_fundamental_div_mod_converse(s + h, m, 1, s + h - m);
        } else if s < i64::MIN {
            lemma_fundamental_div_mod_converse(s + h, m, -1, s + h + m);
        } else {
            lemma_fundamental_div_mod_converse(s + h, m, 0, s + h);
        }
    }
    r
}

/// One entry of a quantity map: a resource name (`"cpu"`, `"memory"`) and
/// its quantity string. A map is a list of entries. Maps read from the
/// cluster have unique names (`names_unique`), and then `lookup` finds the
/// one entry of a name (`lemma_lookup_unique`); should a name occur more
/// than once, the first entry counts.
pub struct QuantityEntry {
    pub resource: String,
    pub quantity: String,
}

/// The requests and limits of one container, each an optional quantity map.
pub struct ResourceRequirements {
    pub requests: Option<Vec<QuantityEntry>>,
    pub limits: Option<Vec<QuantityEntry>>,
}

/// Which parser reads a quantity.
#[derive(Debug, Clone, Copy, PartialEq, Eq)]
pub enum QuantityKind {
    Cpu,
    Memory,
}

pub open spec fn cpu_key() -> Seq<char> {
    seq!['c', 'p', 'u']
}

pub open spec fn memory_key() -> Seq<char> {
    seq!['m', 'e', 'm', 'o', 'r', 'y']
}

/// The quantity of the first entry named `key`.
pub open spec fn lookup(entries: Seq<QuantityEntry>, key: Seq<char>) -> Option<Seq<char>>
    decreases entries.len(),
{
    if entries.len() == 0 {
        None
    } else if entries[0].resource@ == key {
        Some(entries[0].quantity@)
    } else {
        lookup(entries.drop_first(), key)
    }
}

/// No resource name occurs twice among the entries.
pub open spec fn names_unique(entries: Seq<QuantityEntry>) -> bool {
    forall|i: int, j: int|
        0 <= i < j < entries.len() ==> #[trigger] entries[i].resource@ != #[trigger] entries[
            j
        ].resource@
}

/// In a map with unique names, looking a name up finds its entry.
pub proof fn lemma_lookup_unique(entries: Seq<QuantityEntry>, i: int)
    requires
        names_unique(entries),
        0 <= i < entries.len(),
    ensures
        lookup(entries, entries[i].resource@) == Some(entries[i].quantity@),
    decreases entries.len(),
{
    if i > 0 {
        let rest = entries.drop_first();
        assert(entries[0].resource@ != entries[i].resource@);
        assert(names_unique(rest)) by {
            assert forall|a: int, b: int| 0 <= a < b < rest.len() implies #[trigger] rest[a].resource@
                != #[trigger] rest[b].resource@ by {
                assert(rest[a] == entries[a + 1] && rest[b] == entries[b + 1]);
            }
        }
        assert(rest[i - 1] == entries[i]);
        lemma_lookup_unique(rest, i - 1);
    }
}

/// What a quantity string counts for in a total: its parsed value, or zero
/// when it does not parse.
pub open spec fn lenient_value(kind: QuantityKind, q: Seq<char>) -> int {
    let parsed = match kind {
        QuantityKind::Cpu => cpu_millicores(q),
        QuantityKind::Memory => memory_bytes(q),
    };
    match parsed {
        Some(v) => v,
        None => 0,
    }
}

/// What the entries hold under `key`, zero when the key is absent or its
/// quantity does not parse.
pub open spec fn entries_quantity(entries: Seq<QuantityEntry>, key: Seq<char>, kind: QuantityKind) -> int {
    match lookup(entries, key) {
        None => 0,
        Some(q) => lenient_value(kind, q),
    }
}

/// What a quantity map holds under `key`, zero when the map or the key is
/// absent or the quantity does not parse.
pub open spec fn quantity_in(map: Option<Vec<QuantityEntry>>, key: Seq<char>, kind: QuantityKind) -> int {
    match map {
        None => 0,
        Some(entries) => entries_quantity(entries@, key, kind),
    }
}

fn entries_quantity_of(entries: &Vec<QuantityEntry>, key: &str, kind: QuantityKind) -> (r: ResourceValue)
    ensures
        r.0 == entries_quantity(entries@, key@, kind),
{
    let wanted = key.to_owned();
    let mut i: usize = 0;
    assert(entries@.subrange(0, entries@.len() as int) =~= entries@);
    while i < entries.len()
        invariant
            i <= entries@.len(),
            wanted@ == key@,
            lookup(entries@.subrange(i as int, entries@.len() as int), key@) == lookup(
                entries@,
                key@,
            ),
        decreases entries.len() - i,
    {
        let ghost rest = entries@.subrange(i as int, entries@.len() as int);
        assert(rest.drop_first() =~= entries@.subrange(i + 1, entries@.len() as int));
        assert(rest[0] == entries@[i as int]);
        if entries[i].resource == wanted {
            let parsed = match kind {
                QuantityKind::Cpu => parse_cpu(entries[i].quantity.as_str()),
                QuantityKind::Memory => parse_memory(entries[i].quantity.as_str()),
            };
            return match parsed {
                Ok(v) => v,
                Err(_) => ResourceValue(0),
            };
        }
        i = i + 1;
    }
    assert(entries@.subrange(i as int, entries@.len() as int) =~= Seq::<QuantityEntry>::empty());
    ResourceValue(0)
}

/// Reads the quantity under `key` with the parser `kind`. An absent map, an
/// absent key and a quantity that does not parse all count as zero.
pub fn extract_quantity(resources: &Option<Vec<QuantityEntry>>, key: &str, kind: QuantityKind) -> (r:
    ResourceValue)
    ensures
        r.0 == quantity_in(*resources, key@, kind),
{
    match resources {
        Some(entries) => entries_quantity_of(entries, key, kind),
        None => ResourceValue(0),
    }
}

pub open spec fn cpu_request_of(r: ResourceRequirements) -> int {
    quantity_in(r.requests, cpu_key(), QuantityKind::Cpu)
}

pub open spec fn cpu_limit_of(r: ResourceRequirements) -> int {
    quantity_in(r.limits, cpu_key(), QuantityKind::Cpu)
}

pub open spec fn memory_request_of(r: ResourceRequirements) -> int {
    quantity_in(r.requests, memory_key(), QuantityKind::Memory)
}

pub open spec fn memory_limit_of(r: ResourceRequirements) -> int {
    quantity_in(r.limits, memory_key(), QuantityKind::Memory)
}

/// The four figures of one container's requirements, each read leniently.
fn container_figures(resources: &ResourceRequirements) -> (r: (ResourceValue, ResourceValue, ResourceValue, ResourceValue))
    ensures
        r.0.0 == cpu_request_of(*resources),
        r.1.0 == cpu_limit_of(*resources),
        r.2.0 == memory_request_of(*resources),
        r.3.0 == memory_limit_of(*resources),
{
    proof {
        reveal_strlit("cpu");
        reveal_strlit("memory");
    }
    assert("cpu"@ =~= cpu_key());
    assert("memory"@ =~= memory_key());
    (
        extract_quantity(&resources.requests, "cpu", QuantityKind::Cpu),
        extract_quantity(&resources.limits, "cpu", QuantityKind::Cpu),
        extract_quantity(&resources.requests, "memory", QuantityKind::Memory),
        extract_quantity(&resources.limits, "memory", QuantityKind::Memory),
    )
}

/// Requested and limited CPU and memory, summed over containers.
#[derive(Clone, Copy)]
pub struct Resources {
    pub cpu_request: ResourceValue,
    pub cpu_limit: ResourceValue,
    pub memory_request: ResourceValue,
    pub memory_limit: ResourceValue,
}

/// `a` and `b` added field by field, wrapping around on overflow.
pub open spec fn combined(a: Resources, b: Resources) -> Resources {
    Resources {
        cpu_request: ResourceValue(wrap(a.cpu_request.0 + b.cpu_request.0) as i64),
        cpu_limit: ResourceValue(wrap(a.cpu_limit.0 + b.cpu_limit.0) as i64),
        memory_request: ResourceValue(wrap(a.memory_request.0 + b.memory_request.0) as i64),
        memory_limit: ResourceValue(wrap(a.memory_limit.0 + b.memory_limit.0) as i64),
    }
}

impl Resources {
    pub open spec fn is_zero(&self) -> bool {
        &&& self.cpu_request.0 == 0
        &&& self.cpu_limit.0 == 0
        &&& self.memory_request.0 == 0
        &&& self.memory_limit.0 == 0
    }

    /// Adds `cpu`, `cpu limit`, `memory` and `memory limit` figures, each
    /// wrapping around on overflow.
    pub open spec fn added(&self, prev: Resources, cr: int, cl: int, mr: int, ml: int) -> bool {
        &&& self.cpu_request.0 == wrap(prev.cpu_request.0 + cr)
        &&& self.cpu_limit.0 == wrap(prev.cpu_limit.0 + cl)
        &&& self.memory_request.0 == wrap(prev.memory_request.0 + mr)
        &&& self.memory_limit.0 == wrap(prev.memory_limit.0 + ml)
    }

    pub fn new() -> (r: Self)
        ensures
            r.is_zero(),
    {
        Self {
            cpu_request: ResourceValue::new(0),
            cpu_limit: ResourceValue::new(0),
            memory_request: ResourceValue::new(0),
            memory_limit: ResourceValue::new(0),
        }
    }

    /// Adds one container's requests and limits; a figure that is absent or
    /// does not parse adds zero.
    pub fn add_container_resources(&mut self, resources: &ResourceRequirements)
        ensures
            final(self).added(
                *old(self),
                cpu_request_of(*resources),
                cpu_limit_of(*resources),
                memory_request_of(*resources),
                memory_limit_of(*resources),
            ),
    {
        let (cpu_req, cpu_lim, mem_req, mem_lim) = container_figures(resources);
        self.cpu_request = ResourceValue::new(add_wrapping(self.cpu_request.0, cpu_req.0));
        self.cpu_limit = ResourceValue::new(add_wrapping(self.cpu_limit.0, cpu_lim.0));
        self.memory_request = ResourceValue::new(add_wrapping(self.memory_request.0, mem_req.0));
        self.memory_limit = ResourceValue::new(add_wrapping(self.memory_limit.0, mem_lim.0));
    }

    /// Adds `other` field by field.
    pub fn add(&mut self, other: &Resources)
        ensures
            *final(self) == combined(*old(self), *other),
            final(self).added(
                *old(self),
                other.cpu_request.0 as int,
                other.cpu_limit.0 as int,
                other.memory_request.0 as int,
                other.memory_limit.0 as int,
            ),
    {
        self.cpu_request = ResourceValue::new(add_wrapping(self.cpu_request.0, other.cpu_request.0));
        self.cpu_limit = ResourceValue::new(add_wrapping(self.cpu_limit.0, other.cpu_limit.0));
        self.memory_request = ResourceValue::new(
            add_wrapping(self.memory_request.0, other.memory_request.0),
        );
        self.memory_limit = ResourceValue::new(add_wrapping(self.memory_limit.0, other.memory_limit.0));
    }
}

/// The figures of one node: what its pods request and limit, and what the
/// node itself reports as allocatable.
#[derive(Clone, Copy)]
pub struct NodeResources {
    pub base: Resources,
    pub allocatable_cpu: ResourceValue,
    pub allocatable_memory: ResourceValue,
}

impl NodeResources {
    pub fn new() -> (r: Self)
        ensures
            r.base.is_zero(),
            r.allocatable_cpu.0 == 0,
            r.allocatable_memory.0 == 0,
    {
        Self {
            base: Resources::new(),
            allocatable_cpu: ResourceValue::new(0),
            allocatable_memory: ResourceValue::new(0),
        }
    }

    /// Adds one container's requests and limits to the pod figures.
    pub fn add_container_resources(&mut self, resources: &ResourceRequirements)
        ensures
            final(self).base.added(
                old(self).base,
                cpu_request_of(*resources),
                cpu_limit_of(*resources),
                memory_request_of(*resources),
                memory_limit_of(*resources),
            ),
            final(self).allocatable_cpu == old(self).allocatable_cpu,
            final(self).allocatable_memory == old(self).allocatable_memory,
    {
        self.base.add_container_resources(resources);
    }

    /// Sets the allocatable figures from the node's own quantity map.
    pub fn add_allocatable(&mut self, allocatable: &Vec<QuantityEntry>)
        ensures
            final(self).base == old(self).base,
            final(self).allocatable_cpu.0 == entries_quantity(
                allocatable@,
                cpu_key(),
                QuantityKind::Cpu,
            ),
            final(self).allocatable_memory.0 == entries_quantity(
                allocatable@,
                memory_key(),
                QuantityKind::Memory,
            ),
    {
        proof {
            reveal_strlit("cpu");
            reveal_strlit("memory");
        }
        assert("cpu"@ =~= cpu_key());
        assert("memory"@ =~= memory_key());
        self.allocatable_cpu = entries_quantity_of(allocatable, "cpu", QuantityKind::Cpu);
        self.allocatable_memory = entries_quantity_of(allocatable, "memory", QuantityKind::Memory);
    }

    /// Adds `other` field by field, the allocatable figures included.
    pub fn add(&mut self, other: &NodeResources)
        ensures
            final(self).base.added(
                old(self).base,
                other.base.cpu_request.0 as int,
                other.base.cpu_limit.0 as int,
                other.base.memory_request.0 as int,
                other.base.memory_limit.0 as int,
            ),
            final(self).allocatable_cpu.0 == wrap(
                old(self).allocatable_cpu.0 + other.allocatable_cpu.0,
            ),
            final(self).allocatable_memory.0 == wrap(
                old(self).allocatable_memory.0 + other.allocatable_memory.0,
            ),
    {
        self.base.add(&other.base);
        self.allocatable_cpu = ResourceValue::new(
            add_wrapping(self.allocatable_cpu.0, other.allocatable_cpu.0),
        );
        self.allocatable_memory = ResourceValue::new(
            add_wrapping(self.allocatable_memory.0, other.allocatable_memory.0),
        );
    }
}

/// Requested and limited CPU and memory of the pods of one namespace.
#[derive(Clone, Copy)]
pub struct NamespaceResources {
    pub cpu_request: ResourceValue,
    pub cpu_limit: ResourceValue,
    pub memory_request: ResourceValue,
    pub memory_limit: ResourceValue,
}

impl NamespaceResources {
    pub open spec fn is_zero(&self) -> bool {
        &&& self.cpu_request.0 == 0
        &&& self.cpu_limit.0 == 0
        &&& self.memory_request.0 == 0
        &&& self.memory_limit.0 == 0
    }

    pub open spec fn added(&self, prev: NamespaceResources, cr: int, cl: int, mr: int, ml: int) -> bool {
        &&& self.cpu_request.0 == wrap(prev.cpu_request.0 + cr)
        &&& self.cpu_limit.0 == wrap(prev.cpu_limit.0 + cl)
        &&& self.memory_request.0 == wrap(prev.memory_request.0 + mr)
        &&& self.memory_limit.0 == wrap(prev.memory_limit.0 + ml)
    }

    pub fn new() -> (r: Self)
        ensures
            r.is_zero(),
    {
        Self {
            cpu_request: ResourceValue::new(0),
            cpu_limit: ResourceValue::new(0),
            memory_request: ResourceValue::new(0),
            memory_limit: ResourceValue::new(0),
        }
    }

    /// Adds one container's requests and limits; a figure that is absent or
    /// does not parse adds zero.
    pub fn add_container_resources(&mut self, resources: &ResourceRequirements)
        ensures
            final(self).added(
                *old(self),
                cpu_request_of(*resources),
                cpu_limit_of(*resources),
                memory_request_of(*resources),
                memory_limit_of(*resources),
            ),
    {
        let (cpu_req, cpu_lim, mem_req, mem_lim) = container_figures(resources);
        self.cpu_request = ResourceValue::new(add_wrapping(self.cpu_request.0, cpu_req.0));
        self.cpu_limit = ResourceValue::new(add_wrapping(self.cpu_limit.0, cpu_lim.0));
        self.memory_request = ResourceValue::new(add_wrapping(self.memory_request.0, mem_req.0));
        self.memory_limit = ResourceValue::new(add_wrapping(self.memory_limit.0, mem_lim.0));
    }

    /// Adds `other` field by field.
    pub fn add(&mut self, other: &NamespaceResources)
        ensures
            final(self).added(
                *old(self),
                other.cpu_request.0 as int,
                other.cpu_limit.0 as int,
                other.memory_request.0 as int,
                other.memory_limit.0 as int,
            ),
    {
        self.cpu_request = ResourceValue::new(add_wrapping(self.cpu_request.0, other.cpu_request.0));
        self.cpu_limit = ResourceValue::new(add_wrapping(self.cpu_limit.0, other.cpu_limit.0));
        self.memory_request = ResourceValue::new(
            add_wrapping(self.memory_request.0, other.memory_request.0),
        );
        self.memory_limit = ResourceValue::new(add_wrapping(self.memory_limit.0, other.memory_limit.0));
    }
}

} // verus!

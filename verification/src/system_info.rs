//! How many model instances a machine can hold.
//!
//! The choice depends on what the machine has, not on how busy it is.
use crate::text;
use vstd::prelude::*;

verus! {

/// Memory that a model instance takes: 2.5 GiB.
pub const PER_INSTANCE_RAM: u64 = 2 * 1024 * 1024 * 1024 + 512 * 1024 * 1024;

/// Memory that is left to others at least: 4 GiB.
pub const BASELINE_RESERVE_MIN: u64 = 4 * 1024 * 1024 * 1024;

/// Memory that embedding takes besides the instances: 0.5 GiB.
pub const EMBEDDING_OVERHEAD: u64 = 512 * 1024 * 1024;

/// Most model instances that are chosen without being asked for.
pub const MAX_AUTO_INSTANCES: u64 = 4;

/// A choice of instances and threads, with the memory that it was made for.
#[derive(Debug, Clone, Copy)]
pub struct ResolvedEmbeddingConfig {
    /// Number of model instances.
    pub model_instances: usize,
    /// Threads of each instance.
    pub threads_per_instance: usize,
    /// Memory of the machine in bytes.
    pub total_ram: u64,
    /// Memory that is available at present.
    pub available_ram: u64,
    /// Memory that embedding is expected to take.
    pub estimated_ram_usage: u64,
    /// The memory is limited for the process.
    pub cgroup_limited: bool,
}

/// What a machine has.
#[derive(Debug, Clone, Copy)]
pub struct SystemFacts {
    /// Memory of the machine in bytes.
    pub total_memory: u64,
    /// Memory that is available at present.
    pub available_memory: u64,
    /// Limit of the memory for the process, where there is one.
    pub memory_limit: Option<u64>,
    /// Physical cores, where they are known.
    pub physical_cores: Option<usize>,
    /// Logical cores.
    pub logical_cores: usize,
}

/// The smaller of two numbers.
pub open spec fn least(a: int, b: int) -> int {
    if a <= b {
        a
    } else {
        b
    }
}

/// The larger of two numbers.
pub open spec fn greatest(a: int, b: int) -> int {
    if a >= b {
        a
    } else {
        b
    }
}

/// Whether a limit is set and lower than the memory.
pub open spec fn limits(limit: Option<u64>, total: u64) -> bool {
    limit matches Some(l) && 0 < l < total
}

/// The memory that counts: the limit, where it is lower.
pub open spec fn effective_ram(limit: Option<u64>, total: u64) -> u64 {
    if limits(limit, total) {
        limit->0
    } else {
        total
    }
}

/// Number of instances that fit in the memory beside what is left to others: a quarter of the
/// memory or the least reserve, whichever is more.
pub open spec fn instances_in_memory(ram: int) -> int {
    greatest(1, (ram - greatest(BASELINE_RESERVE_MIN as int, ram / 4)) / (PER_INSTANCE_RAM as int))
}

/// The cores that count: the physical ones where they are known.
pub open spec fn cores(facts: SystemFacts) -> usize {
    match facts.physical_cores {
        Some(n) => n,
        None => facts.logical_cores,
    }
}

/// Number of instances that is chosen: as many as fit in the memory, but no more than cores
/// and no more than the highest number, and at least one.
pub open spec fn auto_instances(facts: SystemFacts) -> int {
    greatest(
        1,
        least(
            instances_in_memory(effective_ram(facts.memory_limit, facts.total_memory) as int),
            least(MAX_AUTO_INSTANCES as int, cores(facts) as int),
        ),
    )
}

/// Threads of an instance: the cores divided among the instances, and at least one.
pub open spec fn threads_for(cores: int, instances: int) -> int {
    greatest(1, cores / instances)
}

/// Memory that a number of instances is expected to take.
pub open spec fn ram_usage(instances: int) -> int {
    least(
        u64::MAX as int,
        least(u64::MAX as int, instances * PER_INSTANCE_RAM) + EMBEDDING_OVERHEAD,
    )
}

/// What is chosen for a machine.
pub open spec fn auto_config(facts: SystemFacts) -> ResolvedEmbeddingConfig {
    ResolvedEmbeddingConfig {
        model_instances: auto_instances(facts) as usize,
        threads_per_instance: threads_for(cores(facts) as int, auto_instances(facts)) as usize,
        total_ram: facts.total_memory,
        available_ram: facts.available_memory,
        estimated_ram_usage: ram_usage(auto_instances(facts)) as u64,
        cgroup_limited: limits(facts.memory_limit, facts.total_memory),
    }
}

/// The memory that counts, and whether it is a limit.
pub fn get_effective_total_ram(limit: Option<u64>, total_memory: u64) -> (r: (u64, bool))
    ensures
        r.0 == effective_ram(limit, total_memory),
        r.1 == limits(limit, total_memory),
{
    if let Some(l) = limit {
        if l > 0 && l < total_memory {
            return (l, true);
        }
    }
    (total_memory, false)
}

/// Memory that a number of instances is expected to take, as far as it can be counted.
pub fn estimate_ram_usage(instances: usize) -> (r: u64)
    ensures
        r == ram_usage(instances as int),
{
    let n: u64 = instances as u64;
    let ram: u64 = match n.checked_mul(PER_INSTANCE_RAM) {
        Some(product) => product,
        None => u64::MAX,
    };
    ram.saturating_add(EMBEDDING_OVERHEAD)
}

/// Threads of an instance, see [`threads_for`].
pub fn threads_per_instance(cores: usize, instances: usize) -> (r: usize)
    requires
        instances > 0,
    ensures
        r == threads_for(cores as int, instances as int),
{
    let n: usize = cores / instances;
    if n > 1 {
        n
    } else {
        1
    }
}

/// Chooses instances and threads for a machine.
pub fn compute_auto_embedding_config(facts: &SystemFacts) -> (r: ResolvedEmbeddingConfig)
    ensures
        r == auto_config(*facts),
        1 <= r.model_instances <= MAX_AUTO_INSTANCES,
        1 <= r.threads_per_instance,
{
    let physical_cores: usize = match facts.physical_cores {
        Some(n) => n,
        None => facts.logical_cores,
    };
    let (ram, cgroup_limited) = get_effective_total_ram(facts.memory_limit, facts.total_memory);
    let quarter: u64 = ram / 4;
    let reserve: u64 = if quarter > BASELINE_RESERVE_MIN {
        quarter
    } else {
        BASELINE_RESERVE_MIN
    };
    let usable: u64 = ram.saturating_sub(reserve);
    let fitting: u64 = if usable >= PER_INSTANCE_RAM {
        usable / PER_INSTANCE_RAM
    } else {
        1
    };
    proof {
        let left = ram - reserve;
        let each = PER_INSTANCE_RAM as int;
        assert(left < each ==> left / each <= 0) by (nonlinear_arith)
            requires
                each > 0,
        ;
        assert(left >= each ==> left / each >= 1) by (nonlinear_arith)
            requires
                each > 0,
        ;
        assert(fitting == instances_in_memory(ram as int));
    }
    let mut instances: u64 = if fitting < MAX_AUTO_INSTANCES {
        fitting
    } else {
        MAX_AUTO_INSTANCES
    };
    if physical_cores as u64 <= instances {
        instances = physical_cores as u64;
    }
    if instances < 1 {
        instances = 1;
    }
    let model_instances: usize = instances as usize;
    ResolvedEmbeddingConfig {
        model_instances,
        threads_per_instance: threads_per_instance(physical_cores, model_instances),
        total_ram: facts.total_memory,
        available_ram: facts.available_memory,
        estimated_ram_usage: estimate_ram_usage(model_instances),
        cgroup_limited,
    }
}

/// Bytes of a gigabyte, as they are counted here.
pub const GB: u64 = 1024 * 1024 * 1024;

/// Bytes of a megabyte.
pub const MB: u64 = 1024 * 1024;

/// The first number that takes more than 53 binary digits.
pub const DIGITS_LIMIT: u64 = 0x20_0000_0000_0000;

/// Quotient that is rounded to the nearest number, and to the even one of two equally near.
pub open spec fn half_even(n: nat, d: nat) -> nat {
    let (q, r) = (n / d, n % d);
    if 2 * r < d || 2 * r == d && q % 2 == 0 {
        q
    } else {
        q + 1
    }
}

/// The distance of the numbers with 53 binary digits around a number.
pub open spec fn grain(n: nat) -> nat
    decreases n,
{
    if n < DIGITS_LIMIT {
        1
    } else {
        2 * grain(n / 2)
    }
}

/// The number with 53 binary digits that is nearest.
pub open spec fn nearest(n: nat) -> nat {
    half_even(n, grain(n)) * grain(n)
}

/// A number of units, with one decimal.
pub open spec fn in_units(n: nat, unit: nat) -> Seq<char> {
    let tenths = half_even(10 * nearest(n), unit);
    text::decimal(tenths / 10) + "."@ + text::decimal(tenths % 10)
}

/// How a number of bytes is shown.
pub open spec fn shown_bytes(bytes: u64) -> Seq<char> {
    if bytes >= GB {
        in_units(bytes as nat, GB as nat) + " GB"@
    } else if bytes >= MB {
        in_units(bytes as nat, MB as nat) + " MB"@
    } else {
        text::decimal(bytes as nat) + " bytes"@
    }
}

fn divide_half_even(n: u128, d: u128) -> (r: u128)
    requires
        0 < d <= u64::MAX,
        n <= u128::MAX / 2,
    ensures
        r == half_even(n as nat, d as nat),
{
    let q: u128 = n / d;
    let rest: u128 = n % d;
    if 2 * rest < d || 2 * rest == d && q % 2 == 0 {
        q
    } else {
        assert(q <= n) by (nonlinear_arith)
            requires
                q == n / d,
                d > 0,
        ;
        q + 1
    }
}

fn find_grain(n: u64) -> (r: u64)
    ensures
        r == grain(n as nat),
        1 <= r <= n || r == 1,
{
    let mut m: u64 = n;
    let mut unit: u64 = 1;
    proof {
        assert(1 * grain(m as nat) == grain(m as nat)) by (nonlinear_arith);
    }
    while m >= DIGITS_LIMIT
        invariant
            unit >= 1,
            unit * grain(m as nat) == grain(n as nat),
            m * unit <= n,
            m >= 1 || unit == 1,
        decreases m,
    {
        let half: u64 = m / 2;
        assert(unit * DIGITS_LIMIT <= n) by (nonlinear_arith)
            requires
                m >= DIGITS_LIMIT,
                m * unit <= n,
        ;
        proof {
            let g = grain(half as nat);
            assert(unit * (2 * g) == (2 * unit) * g) by (nonlinear_arith);
            assert(half * (2 * unit) <= m * unit) by (nonlinear_arith)
                requires
                    half == m / 2,
            ;
        }
        m = half;
        unit = 2 * unit;
    }
    proof {
        assert(grain(m as nat) == 1);
        assert(unit * 1 == unit) by (nonlinear_arith);
        if m >= 1 {
            assert(unit <= m * unit) by (nonlinear_arith)
                requires
                    m >= 1,
            ;
        }
    }
    unit
}

fn push_in_units(out: &mut String, n: u64, unit: u64)
    requires
        unit >= MB,
    ensures
        final(out)@ == old(out)@ + in_units(n as nat, unit as nat),
{
    let ghost before = out@;
    let g: u64 = find_grain(n);
    let q: u128 = divide_half_even(n as u128, g as u128);
    proof {
        lemma_half_even_bound(n as nat, g as nat);
    }
    let rounded: u128 = q * (g as u128);
    let tenths: u128 = divide_half_even(10 * rounded, unit as u128);
    proof {
        lemma_half_even_bound(10 * rounded as nat, unit as nat);
        assert(tenths <= u64::MAX) by (nonlinear_arith)
            requires
                tenths * unit <= 10 * rounded + unit,
                rounded <= 2 * u64::MAX,
                unit >= 1048576,
        ;
    }
    text::push_decimal(out, (tenths / 10) as u64);
    out.append(".");
    text::push_decimal(out, (tenths % 10) as u64);
    assert(out@ =~= before + in_units(n as nat, unit as nat));
}

proof fn lemma_half_even_bound(n: nat, d: nat)
    requires
        d > 0,
    ensures
        half_even(n, d) * d <= n + d,
{
    let q = n / d;
    vstd::arithmetic::div_mod::lemma_fundamental_div_mod(n as int, d as int);
    assert(q * d == d * q) by (nonlinear_arith);
    assert((q + 1) * d == q * d + d) by (nonlinear_arith);
}

/// How a number of bytes is shown, such as `16.0 GB`.
pub fn format_bytes(bytes: u64) -> (r: String)
    ensures
        r@ == shown_bytes(bytes),
{
    let mut out = String::new();
    if bytes >= GB {
        push_in_units(&mut out, bytes, GB);
        out.append(" GB");
        assert(out@ =~= in_units(bytes as nat, GB as nat) + " GB"@);
    } else if bytes >= MB {
        push_in_units(&mut out, bytes, MB);
        out.append(" MB");
        assert(out@ =~= in_units(bytes as nat, MB as nat) + " MB"@);
    } else {
        text::push_decimal(&mut out, bytes);
        out.append(" bytes");
        assert(out@ =~= text::decimal(bytes as nat) + " bytes"@);
    }
    out
}

/// The instances that are chosen for a machine leave the reserve untouched, unless only one is
/// chosen.
pub proof fn chosen_instances_fit(facts: SystemFacts)
    requires
        auto_instances(facts) > 1,
    ensures
        auto_instances(facts) * PER_INSTANCE_RAM + BASELINE_RESERVE_MIN <= effective_ram(
            facts.memory_limit,
            facts.total_memory,
        ),
{
    let ram = effective_ram(facts.memory_limit, facts.total_memory) as int;
    let left = ram - greatest(BASELINE_RESERVE_MIN as int, ram / 4);
    let n = auto_instances(facts);
    let each = PER_INSTANCE_RAM as int;
    assert(n * each <= left) by (nonlinear_arith)
        requires
            n <= left / each,
            each > 0,
    ;
}

/// A limit counts exactly if it is set, not zero and lower than the memory of the machine.
pub proof fn lower_limits_count(limit: u64, total: u64)
    ensures
        effective_ram(None, total) == total,
        0 < limit < total ==> effective_ram(Some(limit), total) == limit && limits(
            Some(limit),
            total,
        ),
        limit == 0 || limit >= total ==> effective_ram(Some(limit), total) == total && !limits(
            Some(limit),
            total,
        ),
{
}

/// Instances are chosen so that there is at least one, never more than four, nor more than there
/// are cores. As many are chosen as that allows: with one more, the memory less a quarter of it,
/// or less four gigabytes if that is more, would not hold them at two and a half gigabytes each.
pub proof fn as_many_instances_as_fit(facts: SystemFacts)
    ensures
        ({
            let n = auto_instances(facts);
            let ram = effective_ram(facts.memory_limit, facts.total_memory) as int;
            let cores: int = match facts.physical_cores {
                Some(k) => k as int,
                None => facts.logical_cores as int,
            };
            let reserve = if ram / 4 > 4294967296 {
                ram / 4
            } else {
                4294967296
            };
            &&& 1 <= n <= 4
            &&& n <= cores || n == 1
            &&& n > 1 ==> n * 2684354560 <= ram - reserve
            &&& n == 4 || n >= cores || (n + 1) * 2684354560 > ram - reserve
        }),
{
    let n = auto_instances(facts);
    let ram = effective_ram(facts.memory_limit, facts.total_memory) as int;
    let left = ram - greatest(BASELINE_RESERVE_MIN as int, ram / 4);
    assert(PER_INSTANCE_RAM == 2684354560);
    assert(BASELINE_RESERVE_MIN == 4294967296);
    assert(left / 2684354560 * 2684354560 <= left < (left / 2684354560 + 1) * 2684354560);
}

/// The threads of all instances together are no more than the cores, unless there are more
/// instances than cores; and no core is left over that would give every instance one more.
pub proof fn threads_share_the_cores(cores: int, instances: int)
    requires
        cores >= 0,
        instances > 0,
    ensures
        threads_for(cores, instances) >= 1,
        cores >= instances ==> threads_for(cores, instances) * instances <= cores,
        cores < (threads_for(cores, instances) + 1) * instances,
{
    let q = cores / instances;
    assert(q * instances <= cores < (q + 1) * instances) by (nonlinear_arith)
        requires
            q == cores / instances,
            instances > 0,
            cores >= 0,
    ;
    assert(cores >= instances ==> q >= 1) by (nonlinear_arith)
        requires
            q == cores / instances,
            instances > 0,
    ;
    assert(2 * instances > cores || q >= 1) by (nonlinear_arith)
        requires
            cores < (q + 1) * instances,
            instances > 0,
            q >= 0 || q < 0,
    ;
}

/// Embedding is expected to take half a gigabyte, and two and a half more for each instance.
pub proof fn instances_take_memory(instances: int)
    requires
        0 <= instances <= 1000000,
    ensures
        ram_usage(instances) == instances * 2684354560 + 536870912,
{
    assert(PER_INSTANCE_RAM == 2684354560);
    assert(EMBEDDING_OVERHEAD == 536870912);
}

/// Bytes are shown as such below a megabyte, in megabytes below a gigabyte, and in gigabytes from
/// there on.
pub proof fn sizes_have_units(bytes: u64)
    ensures
        bytes < 1048576 ==> shown_bytes(bytes) == text::decimal(bytes as nat) + " bytes"@,
        1048576 <= bytes < 1073741824 ==> " MB"@.is_suffix_of(shown_bytes(bytes)),
        bytes >= 1073741824 ==> " GB"@.is_suffix_of(shown_bytes(bytes)),
{
    assert(GB == 1073741824 && MB == 1048576);
    let shown = shown_bytes(bytes);
    reveal_strlit(" MB");
    reveal_strlit(" GB");
    if bytes >= 1073741824 {
        assert(shown.subrange(shown.len() - 3, shown.len() as int) =~= " GB"@);
    } else if bytes >= 1048576 {
        assert(shown.subrange(shown.len() - 3, shown.len() as int) =~= " MB"@);
    }
}

/// Whole megabytes and gigabytes are shown with a zero behind the point.
pub proof fn whole_units_are_exact(k: nat, unit: nat)
    requires
        unit > 0,
        k * unit < DIGITS_LIMIT,
    ensures
        in_units(k * unit, unit) == text::decimal(k) + seq!['.', '0'],
{
    let n = k * unit;
    assert(half_even(n, 1) == n);
    assert(grain(n) == 1);
    assert(nearest(n) == half_even(n, 1) * 1);
    assert(10 * n == (10 * k) * unit) by (nonlinear_arith)
        requires
            n == k * unit,
    ;
    assert(((10 * k) * unit) / unit == 10 * k && ((10 * k) * unit) % unit == 0) by (
        nonlinear_arith)
        requires
            unit > 0,
    ;
    assert(half_even(10 * n, unit) == 10 * k);
    assert((10 * k) / 10 == k && (10 * k) % 10 == 0);
    reveal_strlit(".");
    assert(text::decimal(0) =~= seq!['0']);
    assert(in_units(n, unit) =~= text::decimal(k) + seq!['.', '0']);
}

/// A number of tenths of a unit is as close to a number as any, and of two that are as close it is
/// the even one.
pub open spec fn nearest_tenths(n: nat, unit: nat, tenths: nat) -> bool {
    let over = 2 * (tenths * unit - 10 * n);
    &&& -(unit as int) <= over <= unit
    &&& over == unit || over == -(unit as int) ==> tenths % 2 == 0
}

/// Sizes below 53 binary digits are shown as the nearest number of tenths of their unit: whole units
/// before the point and the tenths that are left behind it.
pub proof fn sizes_are_rounded_to_tenths(n: nat, unit: nat)
    requires
        n < 0x20_0000_0000_0000,
        unit > 0,
    ensures
        exists|tenths: nat| #[trigger]
            nearest_tenths(n, unit, tenths) && in_units(n, unit) == text::decimal(tenths / 10)
                + "."@ + text::decimal(tenths % 10),
{
    assert(grain(n) == 1);
    assert(nearest(n) == n);
    let tenths = half_even(10 * n, unit);
    let (quotient, rest) = ((10 * n) / unit, (10 * n) % unit);
    assert(10 * n == unit * quotient + rest) by {
        vstd::arithmetic::div_mod::lemma_fundamental_div_mod((10 * n) as int, unit as int);
    }
    assert((quotient + 1) * unit == unit * quotient + unit) by (nonlinear_arith);
    assert(quotient * unit == unit * quotient) by (nonlinear_arith);
    assert(0 <= rest < unit);
    assert(nearest_tenths(n, unit, tenths));
}

}

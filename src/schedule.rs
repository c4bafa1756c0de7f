//! How per-pixel work is handed to the worker pool.
//!
//! Work unit `k` is the full sample loop of one pixel, taken row by row:
//! pixel `(k % width, k / width)`. Units are submitted in batches of the
//! pool's size and each batch is joined before the next one starts, so no
//! more than that many workers exist at once.
use vstd::prelude::*;

verus! {

/// Relies on num_cpus::get: the number of logical CPUs that this process may
/// use. It depends on the machine, so nothing is stated of it.
#[verifier::external_body]
fn available_cpus() -> (r: usize) {
    num_cpus::get()
}

/// The pool size for a machine reporting `cpus` usable CPUs: that many
/// workers, and at least one.
pub fn pool_size_for(cpus: usize) -> (r: usize)
    ensures
        r == if cpus == 0 {
            1
        } else {
            cpus
        },
        r >= 1,
{
    if cpus == 0 {
        1
    } else {
        cpus
    }
}

/// The size of the worker pool on this machine; at least one.
pub fn pool_size() -> (r: usize)
    ensures
        r >= 1,
{
    let cpus = available_cpus();
    pool_size_for(cpus)
}

/// The pixel that work unit `unit` renders in an image `width` pixels wide.
pub fn unit_pixel(width: u32, height: u32, unit: usize) -> (r: (u32, u32))
    requires
        width > 0,
        unit < width as int * height as int,
    ensures
        r.0 as int == unit as int % width as int,
        r.1 as int == unit as int / width as int,
        r.0 < width,
        r.1 < height,
        unit as int == r.1 as int * width as int + r.0 as int,
{
    let w = width as usize;
    let x = unit % w;
    let y = unit / w;
    proof {
        let (u, wi, hi) = (unit as int, width as int, height as int);
        assert(u == (u / wi) * wi + u % wi) by (nonlinear_arith)
            requires
                wi > 0,
        ;
        assert(u / wi < hi) by (nonlinear_arith)
            requires
                wi > 0,
                0 <= u < wi * hi,
        ;
    }
    (x as u32, y as u32)
}

/// The number of batches needed for `total` units with `pool` at a time.
pub open spec fn batch_count_spec(total: nat, pool: nat) -> nat
    recommends
        pool > 0,
{
    ((total + pool - 1) / pool as int) as nat
}

/// The units of batch `batch`: from `batch * pool` up to, and not including,
/// the lesser of `(batch + 1) * pool` and `total`.
pub open spec fn batch_start(pool: nat, batch: nat) -> nat {
    batch * pool
}

pub open spec fn batch_end(total: nat, pool: nat, batch: nat) -> nat {
    if (batch + 1) * pool < total {
        (batch + 1) * pool
    } else {
        total
    }
}

/// How many batches `total` units make with `pool` units in each.
pub fn batch_count(total: usize, pool: usize) -> (r: usize)
    requires
        pool > 0,
    ensures
        r == batch_count_spec(total as nat, pool as nat),
{
    let q = total / pool;
    let ghost (t, p) = (total as int, pool as int);
    proof {
        assert(t == (t / p) * p + t % p && 0 <= t % p < p && t / p >= 0) by (nonlinear_arith)
            requires
                p > 0,
                t >= 0,
        ;
    }
    if total % pool == 0 {
        proof {
            assert((t + p - 1) / p == t / p) by (nonlinear_arith)
                requires
                    p > 0,
                    t % p == 0,
                    t == (t / p) * p + t % p,
            ;
        }
        q
    } else {
        proof {
            assert((t + p - 1) / p == t / p + 1) by (nonlinear_arith)
                requires
                    p > 0,
                    0 < t % p < p,
                    t == (t / p) * p + t % p,
            ;
            assert(t / p <= (t / p) * p) by (nonlinear_arith)
                requires
                    p > 0,
                    t / p >= 0,
            ;
        }
        q + 1
    }
}

/// The half-open range of units in batch `batch`.
pub fn batch_bounds(total: usize, pool: usize, batch: usize) -> (r: (usize, usize))
    requires
        pool > 0,
        batch < batch_count_spec(total as nat, pool as nat),
    ensures
        r.0 == batch_start(pool as nat, batch as nat),
        r.1 == batch_end(total as nat, pool as nat, batch as nat),
        r.0 < r.1,
        r.1 - r.0 <= pool,
{
    proof {
        let (t, p, b) = (total as int, pool as int, batch as int);
        assert(b * p < t) by (nonlinear_arith)
            requires
                p > 0,
                t >= 0,
                b >= 0,
                b < (t + p - 1) / p,
        ;
        assert((b + 1) * p == b * p + p) by (nonlinear_arith);
    }
    let start = batch * pool;
    let end = if total - start > pool {
        start + pool
    } else {
        total
    };
    (start, end)
}

/// The batches cover the work exactly: every unit below `total` lies in
/// batch `unit / pool` and in no other, that batch is one of the
/// `batch_count` batches, and no batch holds more than `pool` units.
pub proof fn lemma_batches_partition(total: nat, pool: nat, unit: nat, batch: nat)
    requires
        pool > 0,
        unit < total,
    ensures
        unit / pool < batch_count_spec(total, pool),
        (batch_start(pool, batch) <= unit < batch_end(total, pool, batch)) <==> batch == unit
            / pool,
        batch_end(total, pool, batch) <= batch_start(pool, batch) + pool,
{
    let (t, p, u, b) = (total as int, pool as int, unit as int, batch as int);
    assert(u / p < (t + p - 1) / p) by (nonlinear_arith)
        requires
            p > 0,
            0 <= u < t,
    ;
    assert((b + 1) * p == b * p + p) by (nonlinear_arith);
    assert(b * p <= u < b * p + p <==> b == u / p) by (nonlinear_arith)
        requires
            p > 0,
            u >= 0,
            b >= 0,
    ;
}

} // verus!

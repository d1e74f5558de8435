//! Byte counts rendered for people: `B` below one KiB, otherwise one decimal
//! place in the largest binary unit up to TiB, rounded as the byte count
//! converted to `f64` would be.
use vstd::prelude::*;
use crate::text::{decimal, digit_char, decimal_chars, extend_str, string_of};

verus! {

pub open spec fn two_pow_53() -> nat {
    9007199254740992
}

/// Halves `q` (doubling the scale `p`) until it has at most 53 bits.
pub open spec fn halve(q: nat, p: nat) -> (nat, nat)
    decreases q,
{
    if q < two_pow_53() {
        (q, p)
    } else {
        halve(q / 2, 2 * p)
    }
}

/// The value of the integer `b` as an `f64`: `b` itself when it has at most
/// 53 significant bits, otherwise the nearest multiple of the scale that keeps
/// 53 bits, a tie going to the even multiple.
pub open spec fn f64_value(b: nat) -> nat {
    let (q, p) = halve(b, 1);
    let r = b - q * p;
    if 2 * r > p || (2 * r == p && q % 2 == 1) {
        ((q + 1) * p) as nat
    } else {
        (q * p) as nat
    }
}

/// The number of times the value is divided by 1024: at most four (TiB).
pub open spec fn unit_index(v: nat) -> nat {
    if v < 1024 {
        0
    } else if v < 1048576 {
        1
    } else if v < 1073741824 {
        2
    } else if v < 1099511627776 {
        3
    } else {
        4
    }
}

pub open spec fn unit_divisor(u: nat) -> nat {
    if u == 0 {
        1
    } else if u == 1 {
        1024
    } else if u == 2 {
        1048576
    } else if u == 3 {
        1073741824
    } else {
        1099511627776
    }
}

pub open spec fn unit_name(u: nat) -> Seq<char> {
    if u == 0 {
        "B"@
    } else if u == 1 {
        "KiB"@
    } else if u == 2 {
        "MiB"@
    } else if u == 3 {
        "GiB"@
    } else {
        "TiB"@
    }
}

/// `n / d` in tenths, rounded to the nearest tenth, a tie going to the even
/// tenth.
pub open spec fn tenths(n: nat, d: nat) -> nat {
    let t = (n * 10) / d;
    let r = (n * 10) % d;
    if 2 * r > d || (2 * r == d && t % 2 == 1) {
        t + 1
    } else {
        t
    }
}

/// `format_bytes`: `"{n} B"` below 1024, else `"{x:.1} {unit}"`.
pub open spec fn format_bytes_spec(bytes: u64) -> Seq<char> {
    if bytes < 1024 {
        decimal(bytes as nat) + " B"@
    } else {
        let v = f64_value(bytes as nat);
        let u = unit_index(v);
        let t = tenths(v, unit_divisor(u));
        decimal(t / 10) + "."@ + seq![digit_char(t % 10)] + " "@ + unit_name(u)
    }
}

fn f64_value_exec(b: u64) -> (v: u128)
    ensures
        v == f64_value(b as nat),
        v <= 36893488147419103232,
{
    let mut q: u128 = b as u128;
    let mut p: u128 = 1;
    while q >= 9007199254740992
        invariant
            halve(q as nat, p as nat) == halve(b as nat, 1),
            1 <= p,
            q * p <= b,
            b < (q + 1) * p,
            p == 1 || q >= 1,
        decreases q,
    {
        let q2 = q / 2;
        proof {
            assert(q2 * 2 <= q && q < q2 * 2 + 2);
            assert(q2 * (2 * p) <= q * p) by (nonlinear_arith)
                requires
                    q2 * 2 <= q,
                    1 <= p,
            ;
            assert((q + 1) * p <= (q2 + 1) * (2 * p)) by (nonlinear_arith)
                requires
                    q < q2 * 2 + 2,
                    1 <= p,
            ;
            assert(p <= q * p) by (nonlinear_arith)
                requires
                    q >= 1,
                    1 <= p,
            ;
        }
        q = q2;
        p = 2 * p;
    }
    proof {
        assert((q + 1) * p == q * p + p) by (nonlinear_arith);
        assert(p <= q * p || p == 1) by (nonlinear_arith)
            requires
                p == 1 || q >= 1,
                1 <= p,
        ;
    }
    let r = b as u128 - q * p;
    let v: u128 = if 2 * r > p || (2 * r == p && q % 2 == 1) {
        (q + 1) * p
    } else {
        q * p
    };
    proof {
        assert((q + 1) * p == q * p + p) by (nonlinear_arith);
        assert(p <= q * p || p == 1) by (nonlinear_arith)
            requires
                p == 1 || q >= 1,
                1 <= p,
        ;
        assert(r < p);
    }
    v
}

/// A byte count for people: `"512 B"`, `"1.5 KiB"`, `"5.0 MiB"`, up to TiB.
pub fn format_bytes(bytes: u64) -> (r: String)
    ensures
        r@ == format_bytes_spec(bytes),
{
    if bytes < 1024 {
        let mut v = decimal_chars(bytes as u128);
        extend_str(&mut v, " B");
        return string_of(&v);
    }
    let v = f64_value_exec(bytes);
    let ghost gv = v as nat;
    let (u, d, name): (usize, u128, &str) = if v < 1024 {
        (0, 1, "B")
    } else if v < 1048576 {
        (1, 1024, "KiB")
    } else if v < 1073741824 {
        (2, 1048576, "MiB")
    } else if v < 1099511627776 {
        (3, 1073741824, "GiB")
    } else {
        (4, 1099511627776, "TiB")
    };
    assert(u == unit_index(gv) && d == unit_divisor(u as nat) && name@ == unit_name(u as nat));
    let n = v * 10;
    let t0 = n / d;
    let rem = n % d;
    let t = if 2 * rem > d || (2 * rem == d && t0 % 2 == 1) {
        t0 + 1
    } else {
        t0
    };
    assert(t == tenths(gv, d as nat));
    let mut out = decimal_chars(t / 10);
    let digit: u8 = (t % 10) as u8;
    let c: char = (digit + 48) as char;
    assert(c == digit_char((t % 10) as nat));
    out.push('.');
    out.push(c);
    out.push(' ');
    extend_str(&mut out, name);
    let s = string_of(&out);
    proof {
        reveal_strlit(".");
        reveal_strlit(" ");
        let tt = tenths(gv, unit_divisor(unit_index(gv)));
        assert(tt == t);
        assert(gv == f64_value(bytes as nat));
        assert(out@ =~= decimal(tt / 10) + "."@ + seq![digit_char(tt % 10)] + " "@ + unit_name(unit_index(gv)));
    }
    assert(s@ =~= format_bytes_spec(bytes));
    s
}

/// The same rendering without the space before the unit (`"1.5KiB"`).
pub fn format_compact_bytes(bytes: u64) -> (r: String)
    ensures
        r@ == format_bytes_spec(bytes).filter(|c: char| c != ' '),
{
    let full = format_bytes(bytes);
    let v = crate::text::chars_of(full.as_str());
    let mut out: Vec<char> = Vec::new();
    let mut i: usize = 0;
    while i < v.len()
        invariant
            i <= v.len(),
            v@ == format_bytes_spec(bytes),
            out@ == v@.subrange(0, i as int).filter(|c: char| c != ' '),
        decreases v.len() - i,
    {
        proof {
            reveal(Seq::filter);
            assert(v@.subrange(0, i + 1).drop_last() =~= v@.subrange(0, i as int));
        }
        if v[i] != ' ' {
            out.push(v[i]);
        }
        i += 1;
    }
    assert(v@.subrange(0, v.len() as int) =~= v@);
    string_of(&out)
}

} // verus!

verus! {

/// The byte counts of one container's sample, and whether sampling it
/// failed.
#[derive(Debug, Clone, Copy, PartialEq, Eq)]
pub struct SampleBytes {
    pub failed: bool,
    pub memory_usage_bytes: u64,
    pub memory_limit_bytes: u64,
    pub network_rx_bytes: u64,
    pub network_tx_bytes: u64,
    pub block_read_bytes: u64,
    pub block_write_bytes: u64,
}

/// The counts and byte totals of a project's samples: every row counted,
/// the failed ones counted apart, the bytes summed over the rows that did
/// not fail.
#[derive(Debug, Clone, Copy, PartialEq, Eq)]
pub struct SampleTotals {
    pub containers: usize,
    pub error_count: usize,
    pub memory_usage_bytes: u64,
    pub memory_limit_bytes: u64,
    pub network_rx_bytes: u64,
    pub network_tx_bytes: u64,
    pub block_read_bytes: u64,
    pub block_write_bytes: u64,
}

/// Byte count number `k` of a sample: memory used, memory limit, bytes
/// received, sent, read, written.
pub open spec fn sample_field(r: SampleBytes, k: int) -> int {
    if k == 0 {
        r.memory_usage_bytes as int
    } else if k == 1 {
        r.memory_limit_bytes as int
    } else if k == 2 {
        r.network_rx_bytes as int
    } else if k == 3 {
        r.network_tx_bytes as int
    } else if k == 4 {
        r.block_read_bytes as int
    } else {
        r.block_write_bytes as int
    }
}

/// The sum of byte count `k` over the samples that did not fail.
pub open spec fn field_sum(rows: Seq<SampleBytes>, k: int) -> int
    decreases rows.len(),
{
    if rows.len() == 0 {
        0
    } else {
        field_sum(rows.drop_last(), k) + if rows.last().failed {
            0
        } else {
            sample_field(rows.last(), k)
        }
    }
}

/// The number of failed samples.
pub open spec fn failed_count(rows: Seq<SampleBytes>) -> nat
    decreases rows.len(),
{
    if rows.len() == 0 {
        0
    } else {
        failed_count(rows.drop_last()) + if rows.last().failed {
            1nat
        } else {
            0nat
        }
    }
}

/// Every byte total fits in a `u64`.
pub open spec fn totals_fit(rows: Seq<SampleBytes>) -> bool {
    forall|k: int| 0 <= k < 6 ==> #[trigger] field_sum(rows, k) <= u64::MAX
}

proof fn lemma_field_sum_prefix(rows: Seq<SampleBytes>, k: int, i: int)
    requires
        0 <= i <= rows.len(),
    ensures
        0 <= field_sum(rows.take(i), k) <= field_sum(rows, k),
    decreases rows.len() - i,
{
    if i < rows.len() {
        lemma_field_sum_prefix(rows, k, i + 1);
        assert(rows.take(i + 1).drop_last() =~= rows.take(i));
        lemma_field_sum_nonneg(rows.take(i), k);
        assert(sample_field(rows.take(i + 1).last(), k) >= 0);
    } else {
        assert(rows.take(i) =~= rows);
        lemma_field_sum_nonneg(rows, k);
    }
}

proof fn lemma_field_sum_nonneg(rows: Seq<SampleBytes>, k: int)
    ensures
        0 <= field_sum(rows, k),
    decreases rows.len(),
{
    if rows.len() > 0 {
        lemma_field_sum_nonneg(rows.drop_last(), k);
    }
}

proof fn lemma_failed_count_le(rows: Seq<SampleBytes>)
    ensures
        failed_count(rows) <= rows.len(),
    decreases rows.len(),
{
    if rows.len() > 0 {
        lemma_failed_count_le(rows.drop_last());
    }
}

/// Adds byte count `k` of a sample to a running total, if it fits.
fn add_field(total: u64, r: &SampleBytes, k: usize) -> (out: Option<u64>)
    requires
        k < 6,
    ensures
        match out {
            Some(t) => t == total + if r.failed {
                0
            } else {
                sample_field(*r, k as int)
            },
            None => total + sample_field(*r, k as int) > u64::MAX && !r.failed,
        },
{
    if r.failed {
        return Some(total);
    }
    let v = if k == 0 {
        r.memory_usage_bytes
    } else if k == 1 {
        r.memory_limit_bytes
    } else if k == 2 {
        r.network_rx_bytes
    } else if k == 3 {
        r.network_tx_bytes
    } else if k == 4 {
        r.block_read_bytes
    } else {
        r.block_write_bytes
    };
    total.checked_add(v)
}

/// The counts and byte totals of a project's samples (see `SampleTotals`);
/// `None` when a byte total does not fit in a `u64`.
pub fn sample_totals(rows: &Vec<SampleBytes>) -> (r: Option<SampleTotals>)
    ensures
        r is Some <==> totals_fit(rows@),
        r matches Some(t) ==> {
            &&& t.containers == rows.len()
            &&& t.error_count == failed_count(rows@)
            &&& t.memory_usage_bytes == field_sum(rows@, 0)
            &&& t.memory_limit_bytes == field_sum(rows@, 1)
            &&& t.network_rx_bytes == field_sum(rows@, 2)
            &&& t.network_tx_bytes == field_sum(rows@, 3)
            &&& t.block_read_bytes == field_sum(rows@, 4)
            &&& t.block_write_bytes == field_sum(rows@, 5)
        },
{
    let mut totals: [u64; 6] = [0, 0, 0, 0, 0, 0];
    let mut errors: usize = 0;
    let mut i: usize = 0;
    while i < rows.len()
        invariant
            i <= rows.len(),
            errors == failed_count(rows@.take(i as int)),
            errors <= i,
            forall|k: int| 0 <= k < 6 ==> #[trigger] totals@[k] == field_sum(rows@.take(i as int), k),
        decreases rows.len() - i,
    {
        let ghost pre = rows@.take(i as int);
        let ghost next = rows@.take(i + 1);
        assert(next.drop_last() =~= pre);
        assert(next.last() == rows@[i as int]);
        let r = &rows[i];
        let mut k: usize = 0;
        let ghost before = totals@;
        while k < 6
            invariant
                k <= 6,
                i < rows.len(),
                r == rows@[i as int],
                next == rows@.take(i + 1),
                next.drop_last() == pre,
                next.last() == rows@[i as int],
                forall|t: int| 0 <= t < 6 ==> before[t] == field_sum(pre, t),
                forall|t: int| 0 <= t < k ==> #[trigger] totals@[t] == field_sum(next, t),
                forall|t: int| k <= t < 6 ==> #[trigger] totals@[t] == before[t],
            decreases 6 - k,
        {
            match add_field(totals[k], r, k) {
                Some(t) => {
                    totals.set(k, t);
                },
                None => {
                    proof {
                        lemma_field_sum_prefix(rows@, k as int, i + 1);
                    }
                    return None;
                },
            }
            k += 1;
        }
        if r.failed {
            errors += 1;
        }
        i += 1;
    }
    assert(rows@.take(rows.len() as int) =~= rows@);
    proof {
        lemma_failed_count_le(rows@);
    }
    Some(SampleTotals {
        containers: rows.len(),
        error_count: errors,
        memory_usage_bytes: totals[0],
        memory_limit_bytes: totals[1],
        network_rx_bytes: totals[2],
        network_tx_bytes: totals[3],
        block_read_bytes: totals[4],
        block_write_bytes: totals[5],
    })
}

} // verus!

//! Lanes: fixed-width little-endian elements inside byte buffers, with
//! verified walkers that map, combine and fold elements through caller-
//! supplied scalar functions.

use vstd::prelude::*;

verus! {

/// 256 to the power `k`.
pub open spec fn pow256(k: int) -> int
    decreases k,
{
    if k <= 0 {
        1
    } else {
        256 * pow256(k - 1)
    }
}

/// 256^8 spelled out.
pub proof fn lemma_pow256_8()
    ensures
        pow256(8) == 0x10000000000000000,
{
    reveal_with_fuel(pow256, 9);
}

/// Little-endian value of a byte string; the first byte is least significant.
pub open spec fn spec_le(bytes: Seq<u8>) -> int
    decreases bytes.len(),
{
    if bytes.len() == 0 {
        0
    } else {
        bytes[0] + 256 * spec_le(bytes.subrange(1, bytes.len() as int))
    }
}

/// Value of element `k` in a buffer of `elem`-byte lanes.
pub open spec fn spec_lane(data: Seq<u8>, elem: int, k: int) -> int {
    spec_le(data.subrange(k * elem, k * elem + elem))
}

/// Little-endian values are non-negative and bounded by 256^len.
pub proof fn lemma_le_bound(bytes: Seq<u8>)
    ensures
        0 <= spec_le(bytes) < pow256(bytes.len() as int),
    decreases bytes.len(),
{
    if bytes.len() > 0 {
        lemma_le_bound(bytes.subrange(1, bytes.len() as int));
        let rest = spec_le(bytes.subrange(1, bytes.len() as int));
        assert(bytes[0] + 256 * rest < 256 * pow256(bytes.len() - 1)) by (nonlinear_arith)
            requires
                0 <= bytes[0] < 256,
                0 <= rest,
                rest < pow256(bytes.len() - 1),
        ;
    }
}

/// Appending a byte adds its value at the top: le(b + [x]) == le(b) + x·256^|b|.
pub proof fn lemma_le_snoc(bytes: Seq<u8>, x: u8)
    ensures
        spec_le(bytes.push(x)) == spec_le(bytes) + x * pow256(bytes.len() as int),
    decreases bytes.len(),
{
    if bytes.len() == 0 {
        assert(bytes.push(x).subrange(1, 1) =~= Seq::<u8>::empty());
        assert(spec_le(bytes.push(x)) == x + 256 * spec_le(Seq::<u8>::empty()));
    } else {
        let tail = bytes.subrange(1, bytes.len() as int);
        lemma_le_snoc(tail, x);
        assert(bytes.push(x).subrange(1, bytes.push(x).len() as int) =~= tail.push(x));
        assert(spec_le(bytes.push(x)) == bytes[0] + 256 * spec_le(tail.push(x)));
        assert(bytes[0] + 256 * (spec_le(tail) + x * pow256(tail.len() as int)) == spec_le(bytes)
            + x * pow256(bytes.len() as int)) by (nonlinear_arith)
            requires
                spec_le(bytes) == bytes[0] + 256 * spec_le(tail),
                pow256(bytes.len() as int) == 256 * pow256(tail.len() as int),
                tail.len() == bytes.len() - 1,
        ;
    }
}

/// 256^8 equals two to the sixty-fourth, and the powers grow monotonically.
pub proof fn lemma_pow256_le(a: int, b: int)
    requires
        0 <= a <= b,
    ensures
        pow256(a) <= pow256(b),
        pow256(a) >= 1,
    decreases b,
{
    if a < b {
        lemma_pow256_le(a, b - 1);
        assert(pow256(b - 1) <= 256 * pow256(b - 1)) by (nonlinear_arith)
            requires
                pow256(b - 1) >= 1,
        ;
    } else if b > 0 {
        lemma_pow256_le(0, b - 1);
    }
}

/// Any well-placed lane is non-negative and below 256^elem.
pub proof fn lemma_lane_in_range(data: Seq<u8>, elem: int, k: int)
    requires
        elem >= 1,
        0 <= k,
        (k + 1) * elem <= data.len(),
    ensures
        0 <= spec_lane(data, elem, k) < pow256(elem),
{
    assert((k + 1) * elem == k * elem + elem) by (nonlinear_arith);
    assert(k * elem >= 0) by (nonlinear_arith)
        requires
            k >= 0,
            elem >= 1,
    ;
    lemma_le_bound(data.subrange(k * elem, k * elem + elem));
}

/// Reads element `k` of an `elem`-byte lane buffer as its little-endian
/// value.
pub fn read_lane(data: &Vec<u8>, elem: usize, k: usize) -> (r: u64)
    requires
        1 <= elem <= 8,
        (k + 1) * elem <= data@.len(),
    ensures
        r == spec_lane(data@, elem as int, k as int),
{
    let ghost lane = data@.subrange(k as int * elem as int, k as int * elem as int + elem as int);
    let dlen = data.len();
    proof {
        assert(k * elem + elem == (k + 1) * elem) by (nonlinear_arith);
        assert(data@.len() == dlen);
        assert(k * elem >= 0) by (nonlinear_arith)
            requires
                k >= 0,
                elem >= 1,
        ;
        lemma_pow256_8();
    }
    let base = k * elem;
    let mut value: u64 = 0;
    let mut factor: u64 = 1;
    let mut i: usize = 0;
    proof {
        assert(lane.subrange(0, 0) =~= Seq::<u8>::empty());
    }
    while i < elem
        invariant
            i <= elem,
            1 <= elem <= 8,
            base == k * elem,
            dlen == data@.len(),
            base + elem <= data@.len(),
            lane == data@.subrange(
                k as int * elem as int,
                k as int * elem as int + elem as int,
            ),
            value == spec_le(lane.subrange(0, i as int)),
            i < elem ==> factor == pow256(i as int),
            pow256(8) == 0x10000000000000000,
        decreases elem - i,
    {
        let b = data[base + i];
        proof {
            assert(lane.subrange(0, i + 1) =~= lane.subrange(0, i as int).push(lane[i as int]));
            assert(lane[i as int] == data@[base + i]);
            lemma_le_snoc(lane.subrange(0, i as int), lane[i as int]);
            lemma_le_bound(lane.subrange(0, i + 1));
            lemma_pow256_le(i + 1, 8);
            lemma_le_bound(lane.subrange(0, i as int));
            lemma_pow256_le(i as int, 8);
        }
        value = value + (b as u64) * factor;
        i += 1;
        if i < elem {
            proof {
                lemma_pow256_le(i as int, 7);
                lemma_pow256_8();
                assert(pow256(8) == 256 * pow256(7));
                assert(factor * 256 <= 256 * pow256(7)) by (nonlinear_arith)
                    requires
                        factor <= pow256(7),
                        factor >= 0,
                ;
            }
            factor = factor * 256;
        }
    }
    proof {
        assert(lane.subrange(0, elem as int) =~= lane);
    }
    value
}

/// Appends the `elem`-byte little-endian encoding of `value`.
pub fn push_lane(out: &mut Vec<u8>, elem: usize, value: u64)
    requires
        1 <= elem <= 8,
        value < pow256(elem as int),
        old(out)@.len() + elem <= usize::MAX,
    ensures
        final(out)@.len() == old(out)@.len() + elem,
        final(out)@.subrange(0, old(out)@.len() as int) == old(out)@,
        spec_le(final(out)@.subrange(old(out)@.len() as int, final(out)@.len() as int)) == value,
{
    let ghost base = out@.len() as int;
    let mut v: u64 = value;
    let mut i: usize = 0;
    proof {
        assert(out@.subrange(base, base) =~= Seq::<u8>::empty());
    }
    while i < elem
        invariant
            i <= elem,
            1 <= elem <= 8,
            out@.len() == base + i,
            base + elem <= usize::MAX,
            out@.subrange(0, base) == old(out)@,
            base == old(out)@.len(),
            spec_le(out@.subrange(base, base + i)) + v * pow256(i as int) == value,
            v < pow256(elem - i),
        decreases elem - i,
    {
        let b = (v % 256) as u8;
        let ghost enc = out@.subrange(base, base + i);
        proof {
            lemma_le_snoc(enc, b);
        }
        out.push(b);
        proof {
            assert(out@.subrange(0, base) =~= old(out)@);
            assert(out@.subrange(base, base + i + 1) =~= enc.push(b));
            assert((v / 256) * pow256(i + 1) + (v % 256) * pow256(i as int) == v * pow256(i as int))
                by (nonlinear_arith)
                requires
                    v >= 0,
                    v == 256 * (v as int / 256) + v as int % 256,
                    pow256(i + 1) == 256 * pow256(i as int),
            ;
            assert(v / 256 < pow256(elem - i - 1)) by (nonlinear_arith)
                requires
                    v < pow256(elem - i),
                    pow256(elem - i) == 256 * pow256(elem - i - 1),
                    v >= 0,
            ;
        }
        v = v / 256;
        i += 1;
    }
    proof {
        lemma_pow256_le(0, 0);
        assert(v == 0);
        assert(out@.subrange(base, base + elem) =~= out@.subrange(base, out@.len() as int));
    }
}

/// Maps every element of a lane buffer through `f`. The output holds, lane
/// for lane, a value `f` may return for the input lane.
pub fn map_lanes<F: Fn(u64) -> u64>(input: &Vec<u8>, elem: usize, count: usize, f: &F) -> (r: Vec<
    u8,
>)
    requires
        1 <= elem <= 8,
        count * elem <= input@.len(),
        forall|x: u64| call_requires(*f, (x,)),
        forall|x: u64, y: u64| #[trigger] call_ensures(*f, (x,), y) ==> y < pow256(elem as int),
    ensures
        r@.len() == count * elem,
        forall|k: int|
            0 <= k < count ==> call_ensures(
                *f,
                (spec_lane(input@, elem as int, k) as u64,),
                spec_lane(r@, elem as int, k) as u64,
            ),
{
    let ilen = input.len();
    let mut out: Vec<u8> = Vec::new();
    let mut k: usize = 0;
    while k < count
        invariant
            k <= count,
            1 <= elem <= 8,
            ilen == input@.len(),
            count * elem <= input@.len(),
            out@.len() == k * elem,
            forall|x: u64| call_requires(*f, (x,)),
            forall|x: u64, y: u64| #[trigger] call_ensures(*f, (x,), y) ==> y < pow256(
                elem as int,
            ),
            forall|m: int|
                0 <= m < k ==> call_ensures(
                    *f,
                    (spec_lane(input@, elem as int, m) as u64,),
                    spec_lane(out@, elem as int, m) as u64,
                ),
        decreases count - k,
    {
        proof {
            assert((k + 1) * elem == k * elem + elem) by (nonlinear_arith);
            assert((k + 1) * elem <= count * elem) by (nonlinear_arith)
                requires
                    k + 1 <= count,
                    elem >= 1,
            ;
            lemma_le_bound(input@.subrange(
                k as int * elem as int,
                k as int * elem as int + elem as int,
            ));
            lemma_pow256_le(elem as int, 8);
            lemma_pow256_8();
        }
        let x = read_lane(input, elem, k);
        let y = f(x);
        let ghost pre_out = out@;
        push_lane(&mut out, elem, y);
        proof {
            assert forall|m: int|
                0 <= m < k implies spec_lane(out@, elem as int, m) == spec_lane(
                pre_out,
                elem as int,
                m,
            ) by {
                assert((m + 1) * elem == m * elem + elem) by (nonlinear_arith);
                assert((m + 1) * elem <= k * elem) by (nonlinear_arith)
                    requires
                        m + 1 <= k,
                        elem >= 1,
                ;
                assert(m * elem >= 0) by (nonlinear_arith)
                    requires
                        m >= 0,
                        elem >= 1,
                ;
                assert forall|j: int| m * elem <= j < m * elem + elem implies out@[j]
                    == pre_out[j] by {
                    assert(out@.subrange(0, pre_out.len() as int)[j] == pre_out[j]);
                }
                assert(out@.subrange(m * elem, m * elem + elem) =~= pre_out.subrange(
                    m * elem,
                    m * elem + elem,
                ));
            }
            assert(out@.subrange(k as int * elem as int, k as int * elem as int + elem as int)
                =~= out@.subrange(pre_out.len() as int, out@.len() as int));
            assert(spec_lane(out@, elem as int, k as int) == y);
            assert(call_ensures(
                *f,
                (spec_lane(input@, elem as int, k as int) as u64,),
                spec_lane(out@, elem as int, k as int) as u64,
            )) by {
                assert(spec_lane(input@, elem as int, k as int) as u64 == x);
                assert(spec_lane(out@, elem as int, k as int) as u64 == y);
            }
            assert forall|m: int| 0 <= m < k implies call_ensures(
                *f,
                (spec_lane(input@, elem as int, m) as u64,),
                spec_lane(out@, elem as int, m) as u64,
            ) by {
                assert(spec_lane(out@, elem as int, m) == spec_lane(pre_out, elem as int, m));
            }
        }
        k += 1;
    }
    out
}

/// Combines two lane buffers element by element through `f`, with index maps
/// choosing the source element on each side (this is how broadcasting reaches
/// the kernel). The output holds, lane for lane, a value `f` may return for
/// the mapped input lanes.
pub fn combine_lanes<F: Fn(u64, u64) -> u64>(
    a: &Vec<u8>,
    b: &Vec<u8>,
    elem: usize,
    map_a: &Vec<usize>,
    map_b: &Vec<usize>,
    f: &F,
) -> (r: Vec<u8>)
    requires
        1 <= elem <= 8,
        map_a@.len() == map_b@.len(),
        map_a@.len() * elem <= usize::MAX,
        forall|k: int| 0 <= k < map_a@.len() ==> (#[trigger] map_a@[k] + 1) * elem <= a@.len(),
        forall|k: int| 0 <= k < map_b@.len() ==> (#[trigger] map_b@[k] + 1) * elem <= b@.len(),
        forall|x: u64, y: u64| call_requires(*f, (x, y)),
        forall|x: u64, y: u64, z: u64| #[trigger] call_ensures(*f, (x, y), z) ==> z < pow256(
            elem as int,
        ),
    ensures
        r@.len() == map_a@.len() * elem,
        forall|k: int|
            0 <= k < map_a@.len() ==> call_ensures(
                *f,
                (
                    spec_lane(a@, elem as int, map_a@[k] as int) as u64,
                    spec_lane(b@, elem as int, map_b@[k] as int) as u64,
                ),
                spec_lane(r@, elem as int, k) as u64,
            ),
{
    let count = map_a.len();
    let mut out: Vec<u8> = Vec::new();
    let mut k: usize = 0;
    while k < count
        invariant
            k <= count,
            1 <= elem <= 8,
            count == map_a@.len(),
            map_a@.len() == map_b@.len(),
            count * elem <= usize::MAX,
            forall|m: int| 0 <= m < count ==> (#[trigger] map_a@[m] + 1) * elem <= a@.len(),
            forall|m: int| 0 <= m < count ==> (#[trigger] map_b@[m] + 1) * elem <= b@.len(),
            out@.len() == k * elem,
            forall|x: u64, y: u64| call_requires(*f, (x, y)),
            forall|x: u64, y: u64, z: u64| #[trigger] call_ensures(*f, (x, y), z) ==> z < pow256(
                elem as int,
            ),
            forall|m: int|
                0 <= m < k ==> call_ensures(
                    *f,
                    (
                        spec_lane(a@, elem as int, map_a@[m] as int) as u64,
                        spec_lane(b@, elem as int, map_b@[m] as int) as u64,
                    ),
                    spec_lane(out@, elem as int, m) as u64,
                ),
        decreases count - k,
    {
        proof {
            assert((k + 1) * elem == k * elem + elem) by (nonlinear_arith);
            assert((k + 1) * elem <= count * elem) by (nonlinear_arith)
                requires
                    k + 1 <= count,
                    elem >= 1,
            ;
            lemma_le_bound(a@.subrange(
                map_a@[k as int] as int * elem as int,
                map_a@[k as int] as int * elem as int + elem as int,
            ));
            lemma_le_bound(b@.subrange(
                map_b@[k as int] as int * elem as int,
                map_b@[k as int] as int * elem as int + elem as int,
            ));
            lemma_pow256_le(elem as int, 8);
            lemma_pow256_8();
        }
        let x = read_lane(a, elem, map_a[k]);
        let y = read_lane(b, elem, map_b[k]);
        let z = f(x, y);
        let ghost pre_out = out@;
        push_lane(&mut out, elem, z);
        proof {
            assert forall|m: int|
                0 <= m < k implies spec_lane(out@, elem as int, m) == spec_lane(
                pre_out,
                elem as int,
                m,
            ) by {
                assert((m + 1) * elem == m * elem + elem) by (nonlinear_arith);
                assert((m + 1) * elem <= k * elem) by (nonlinear_arith)
                    requires
                        m + 1 <= k,
                        elem >= 1,
                ;
                assert(m * elem >= 0) by (nonlinear_arith)
                    requires
                        m >= 0,
                        elem >= 1,
                ;
                assert forall|j: int| m * elem <= j < m * elem + elem implies out@[j]
                    == pre_out[j] by {
                    assert(out@.subrange(0, pre_out.len() as int)[j] == pre_out[j]);
                }
                assert(out@.subrange(m * elem, m * elem + elem) =~= pre_out.subrange(
                    m * elem,
                    m * elem + elem,
                ));
            }
            assert(out@.subrange(k as int * elem as int, k as int * elem as int + elem as int)
                =~= out@.subrange(pre_out.len() as int, out@.len() as int));
            assert(spec_lane(out@, elem as int, k as int) == z);
            assert(call_ensures(
                *f,
                (
                    spec_lane(a@, elem as int, map_a@[k as int] as int) as u64,
                    spec_lane(b@, elem as int, map_b@[k as int] as int) as u64,
                ),
                spec_lane(out@, elem as int, k as int) as u64,
            )) by {
                assert(spec_lane(a@, elem as int, map_a@[k as int] as int) as u64 == x);
                assert(spec_lane(b@, elem as int, map_b@[k as int] as int) as u64 == y);
                assert(spec_lane(out@, elem as int, k as int) as u64 == z);
            }
            assert forall|m: int| 0 <= m < k implies call_ensures(
                *f,
                (
                    spec_lane(a@, elem as int, map_a@[m] as int) as u64,
                    spec_lane(b@, elem as int, map_b@[m] as int) as u64,
                ),
                spec_lane(out@, elem as int, m) as u64,
            ) by {
                assert(spec_lane(out@, elem as int, m) == spec_lane(pre_out, elem as int, m));
            }
        }
        k += 1;
    }
    out
}

/// Folds `f` over the lanes selected by `indices`, starting from `init`.
/// The result is reached by a chain of `f` steps, recorded by the returned
/// existence of intermediate accumulator values.
pub fn fold_lanes<F: Fn(u64, u64) -> u64>(
    data: &Vec<u8>,
    elem: usize,
    indices: &Vec<usize>,
    init: u64,
    f: &F,
) -> (r: u64)
    requires
        1 <= elem <= 8,
        forall|k: int| 0 <= k < indices@.len() ==> (#[trigger] indices@[k] + 1) * elem
            <= data@.len(),
        forall|x: u64, y: u64| call_requires(*f, (x, y)),
    ensures
        exists|accs: Seq<u64>|
            {
                &&& accs.len() == indices@.len() + 1
                &&& accs[0] == init
                &&& forall|m: int|
                    0 <= m < indices@.len() ==> call_ensures(
                        *f,
                        (accs[m], spec_lane(data@, elem as int, indices@[m] as int) as u64),
                        #[trigger] accs[m + 1],
                    )
                &&& r == accs[accs.len() - 1]
            },
{
    let n = indices.len();
    let mut acc: u64 = init;
    let ghost mut accs: Seq<u64> = seq![init];
    let mut k: usize = 0;
    while k < n
        invariant
            k <= n,
            1 <= elem <= 8,
            n == indices@.len(),
            forall|m: int| 0 <= m < n ==> (#[trigger] indices@[m] + 1) * elem <= data@.len(),
            forall|x: u64, y: u64| call_requires(*f, (x, y)),
            accs.len() == k + 1,
            accs[0] == init,
            acc == accs[k as int],
            forall|m: int|
                0 <= m < k ==> call_ensures(
                    *f,
                    (accs[m], spec_lane(data@, elem as int, indices@[m] as int) as u64),
                    #[trigger] accs[m + 1],
                ),
        decreases n - k,
    {
        proof {
            lemma_le_bound(data@.subrange(
                indices@[k as int] as int * elem as int,
                indices@[k as int] as int * elem as int + elem as int,
            ));
            lemma_pow256_le(elem as int, 8);
            lemma_pow256_8();
        }
        let x = read_lane(data, elem, indices[k]);
        acc = f(acc, x);
        proof {
            accs = accs.push(acc);
        }
        k += 1;
    }
    acc
}

} // verus!

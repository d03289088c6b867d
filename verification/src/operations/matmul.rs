//! Matrix-multiplication shape rules: which rank pairs are handled and what
//! output shape they produce. The floating-point arithmetic itself runs
//! outside the verified core; the index arithmetic and the contraction-width
//! checks live here.

use vstd::prelude::*;
use crate::types::WasmError;

verus! {

/// The rank pairs and contraction widths a matrix multiplication accepts:
/// exactly the inputs for which `matmul_output_shape` produces a shape.
pub open spec fn matmul_shapes_ok(sa: Seq<usize>, sb: Seq<usize>) -> bool {
    if sa.len() == 1 && sb.len() == 1 {
        sa[0] == sb[0]
    } else if sa.len() == 1 && sb.len() == 2 {
        sa[0] == sb[0]
    } else if sa.len() == 2 && sb.len() == 1 {
        sa[1] == sb[0]
    } else if sa.len() == 2 && sb.len() == 2 {
        sa[1] == sb[0]
    } else if sa.len() > 2 && sa.len() == sb.len() {
        sa[sa.len() - 1] == sb[sb.len() - 2] && (forall|i: int|
            0 <= i < sa.len() - 2 ==> #[trigger] sa[i] == sb[i] || sa[i] == 1 || sb[i] == 1)
    } else {
        false
    }
}

/// Output shape of a matrix multiplication, by the ranks of the operands:
/// two vectors of equal length contract to a scalar; a vector against a
/// matrix drops the contracted axis; two matrices give rows by columns;
/// higher equal ranks are batched, the batch axes broadcast one against one.
/// Mismatched contraction widths or unsupported rank pairs are refused.
pub fn matmul_output_shape(shape_a: &Vec<usize>, shape_b: &Vec<usize>) -> (r: Result<
    Vec<usize>,
    WasmError,
>)
    ensures
        shape_a@.len() == 1 && shape_b@.len() == 1 ==> {
            &&& (r is Ok <==> shape_a@[0] == shape_b@[0])
            &&& (r is Ok ==> r->Ok_0@ == seq![1usize])
        },
        shape_a@.len() == 1 && shape_b@.len() == 2 ==> {
            &&& (r is Ok <==> shape_a@[0] == shape_b@[0])
            &&& (r is Ok ==> r->Ok_0@ == seq![shape_b@[1]])
        },
        shape_a@.len() == 2 && shape_b@.len() == 1 ==> {
            &&& (r is Ok <==> shape_a@[1] == shape_b@[0])
            &&& (r is Ok ==> r->Ok_0@ == seq![shape_a@[0]])
        },
        shape_a@.len() == 2 && shape_b@.len() == 2 ==> {
            &&& (r is Ok <==> shape_a@[1] == shape_b@[0])
            &&& (r is Ok ==> r->Ok_0@ == seq![shape_a@[0], shape_b@[1]])
        },
        shape_a@.len() < 1 || shape_b@.len() < 1 ==> r is Err,
        shape_a@.len() > 2 && shape_a@.len() == shape_b@.len() ==> {
            let n = shape_a@.len() as int;
            &&& (r is Ok <==> shape_a@[n - 1] == shape_b@[n - 2] && (forall|i: int|
                0 <= i < n - 2 ==> #[trigger] shape_a@[i] == shape_b@[i] || shape_a@[i] == 1
                    || shape_b@[i] == 1))
            &&& (r is Ok ==> {
                let out = r->Ok_0@;
                &&& out.len() == n
                &&& out[n - 2] == shape_a@[n - 2]
                &&& out[n - 1] == shape_b@[n - 1]
                &&& forall|i: int|
                    0 <= i < n - 2 ==> #[trigger] out[i] == (if shape_a@[i] >= shape_b@[i] {
                        shape_a@[i]
                    } else {
                        shape_b@[i]
                    })
            })
        },
        shape_a@.len() != shape_b@.len() && (shape_a@.len() > 2 || shape_b@.len() > 2) ==> r
            is Err,
        (r is Ok <==> matmul_shapes_ok(shape_a@, shape_b@)),
        r is Err ==> r->Err_0 == (if shape_a@.len() >= 1 && shape_b@.len() >= 1 && shape_a@.len()
            != shape_b@.len() && !(shape_a@.len() == 1 && shape_b@.len() == 2) && !(shape_a@.len()
            == 2 && shape_b@.len() == 1) {
            WasmError::NotImplemented
        } else {
            WasmError::InvalidShape
        }),
{
    let ra = shape_a.len();
    let rb = shape_b.len();
    if ra < 1 || rb < 1 {
        return Err(WasmError::InvalidShape);
    }
    if ra == 1 && rb == 1 {
        if shape_a[0] != shape_b[0] {
            return Err(WasmError::InvalidShape);
        }
        let out = vec![1usize];
        proof {
            assert(out@ =~= seq![1usize]);
        }
        return Ok(out);
    }
    if ra == 1 && rb == 2 {
        if shape_a[0] != shape_b[0] {
            return Err(WasmError::InvalidShape);
        }
        let out = vec![shape_b[1]];
        proof {
            assert(out@ =~= seq![shape_b@[1]]);
        }
        return Ok(out);
    }
    if ra == 2 && rb == 1 {
        if shape_a[1] != shape_b[0] {
            return Err(WasmError::InvalidShape);
        }
        let out = vec![shape_a[0]];
        proof {
            assert(out@ =~= seq![shape_a@[0]]);
        }
        return Ok(out);
    }
    if ra == 2 && rb == 2 {
        if shape_a[1] != shape_b[0] {
            return Err(WasmError::InvalidShape);
        }
        let out = vec![shape_a[0], shape_b[1]];
        proof {
            assert(out@ =~= seq![shape_a@[0], shape_b@[1]]);
        }
        return Ok(out);
    }
    if ra != rb {
        return Err(WasmError::NotImplemented);
    }
    if shape_a[ra - 1] != shape_b[rb - 2] {
        return Err(WasmError::InvalidShape);
    }
    let mut out: Vec<usize> = Vec::new();
    let mut i: usize = 0;
    while i < ra - 2
        invariant
            i <= ra - 2,
            ra == shape_a@.len(),
            ra == shape_b@.len(),
            ra > 2,
            out@.len() == i,
            forall|m: int|
                0 <= m < i ==> #[trigger] shape_a@[m] == shape_b@[m] || shape_a@[m] == 1
                    || shape_b@[m] == 1,
            forall|m: int|
                0 <= m < i ==> #[trigger] out@[m] == (if shape_a@[m] >= shape_b@[m] {
                    shape_a@[m]
                } else {
                    shape_b@[m]
                }),
        decreases ra - 2 - i,
    {
        let da = shape_a[i];
        let db = shape_b[i];
        if da != db && da != 1 && db != 1 {
            return Err(WasmError::InvalidShape);
        }
        out.push(if da >= db {
            da
        } else {
            db
        });
        i += 1;
    }
    out.push(shape_a[ra - 2]);
    out.push(shape_b[rb - 1]);
    Ok(out)
}

/// Every lane the pair map for row `i`, column `j` would touch lies inside
/// both operands' byte buffers.
pub open spec fn pair_indices_ok(
    i: int,
    j: int,
    k_len: int,
    sa0: int,
    sa1: int,
    sb0: int,
    sb1: int,
    a_len: int,
    b_len: int,
    elem: int,
) -> bool {
    forall|k: int|
        0 <= k < k_len ==> (i * sa0 + #[trigger] (k * sa1) + 1) * elem <= a_len && (k * sb0 + j
            * sb1 + 1) * elem <= b_len
}

/// Element index maps for one output cell of a strided matrix
/// multiplication: entry `k` of the first map is the element index of
/// `a[i, k]`, entry `k` of the second that of `b[k, j]`. Succeeds exactly
/// when every mapped lane lies inside its operand's bytes.
pub fn matmul_pair_indices(
    i: usize,
    j: usize,
    k_len: usize,
    sa0: usize,
    sa1: usize,
    sb0: usize,
    sb1: usize,
    a_len_bytes: usize,
    b_len_bytes: usize,
    elem: usize,
) -> (r: Result<(Vec<usize>, Vec<usize>), WasmError>)
    requires
        1 <= elem <= 8,
    ensures
        (r is Ok <==> pair_indices_ok(
            i as int,
            j as int,
            k_len as int,
            sa0 as int,
            sa1 as int,
            sb0 as int,
            sb1 as int,
            a_len_bytes as int,
            b_len_bytes as int,
            elem as int,
        )),
        r is Ok ==> {
            let ma = r->Ok_0.0;
            let mb = r->Ok_0.1;
            &&& ma@.len() == k_len
            &&& mb@.len() == k_len
            &&& forall|k: int|
                0 <= k < k_len ==> #[trigger] ma@[k] == i * sa0 + k * sa1 && mb@[k] == k * sb0 + j
                    * sb1 && (ma@[k] + 1) * elem <= a_len_bytes && (mb@[k] + 1) * elem
                    <= b_len_bytes
        },
        r is Err ==> r->Err_0 == WasmError::InvalidInput,
{
    let ghost ok = pair_indices_ok(
        i as int,
        j as int,
        k_len as int,
        sa0 as int,
        sa1 as int,
        sb0 as int,
        sb1 as int,
        a_len_bytes as int,
        b_len_bytes as int,
        elem as int,
    );
    let mut ma: Vec<usize> = Vec::new();
    let mut mb: Vec<usize> = Vec::new();
    let mut k: usize = 0;
    while k < k_len
        invariant
            k <= k_len,
            1 <= elem <= 8,
            ma@.len() == k,
            mb@.len() == k,
            ok == pair_indices_ok(
                i as int,
                j as int,
                k_len as int,
                sa0 as int,
                sa1 as int,
                sb0 as int,
                sb1 as int,
                a_len_bytes as int,
                b_len_bytes as int,
                elem as int,
            ),
            forall|m: int|
                0 <= m < k ==> #[trigger] ma@[m] == i * sa0 + m * sa1 && mb@[m] == m * sb0 + j
                    * sb1 && (ma@[m] + 1) * elem <= a_len_bytes && (mb@[m] + 1) * elem
                    <= b_len_bytes,
        decreases k_len - k,
    {
        let ia = match strided_index(i, sa0, k, sa1, a_len_bytes, elem) {
            Some(v) => v,
            None => {
                proof {
                    if ok {
                        assert((i * sa0 + (k as int) * sa1 + 1) * (elem as int)
                            <= a_len_bytes as int);
                        assert(false);
                    }
                }
                return Err(WasmError::InvalidInput);
            },
        };
        let ib = match strided_index(k, sb0, j, sb1, b_len_bytes, elem) {
            Some(v) => v,
            None => {
                proof {
                    if ok {
                        assert(((k as int) * sb0 + j * sb1 + 1) * (elem as int)
                            <= b_len_bytes as int);
                        assert(false);
                    }
                }
                return Err(WasmError::InvalidInput);
            },
        };
        ma.push(ia);
        mb.push(ib);
        k += 1;
    }
    proof {
        assert forall|m: int| 0 <= m < k_len implies (i * sa0 + #[trigger] (m * sa1) + 1) * (
        elem as int) <= a_len_bytes as int && (m * sb0 + j * sb1 + 1) * (elem as int)
            <= b_len_bytes as int by {
            assert(ma@[m] == i * sa0 + m * sa1);
            assert(mb@[m] == m * sb0 + j * sb1);
        }
    }
    Ok((ma, mb))
}

/// The element index `x·sx + y·sy`, when it fits a machine word and its lane
/// lies inside a buffer of `len` bytes at `elem` bytes per lane.
fn strided_index(x: usize, sx: usize, y: usize, sy: usize, len: usize, elem: usize) -> (r: Option<
    usize,
>)
    requires
        1 <= elem <= 8,
    ensures
        (r is Some <==> (x * sx + y * sy + 1) * elem <= len),
        r is Some ==> r->Some_0 == x * sx + y * sy,
    decreases 0int,
{
    let xa = match checked_mul(x, sx) {
        Some(v) => v,
        None => {
            proof {
                lemma_lane_over(x as int * sx as int + y as int * sy as int, elem as int, len as int);
            }
            return None;
        },
    };
    let yb = match checked_mul(y, sy) {
        Some(v) => v,
        None => {
            proof {
                lemma_lane_over(x as int * sx as int + y as int * sy as int, elem as int, len as int);
            }
            return None;
        },
    };
    if xa > usize::MAX - yb {
        proof {
            lemma_lane_over(x as int * sx as int + y as int * sy as int, elem as int, len as int);
        }
        return None;
    }
    let idx = xa + yb;
    if idx >= usize::MAX {
        proof {
            lemma_lane_over(idx as int, elem as int, len as int);
        }
        return None;
    }
    if idx + 1 > len / elem {
        proof {
            crate::operations::view::lemma_gt_div_mul_len(idx as int + 1, elem as int, len as int);
        }
        return None;
    }
    proof {
        crate::operations::view::lemma_le_div_mul_len(idx as int + 1, elem as int, len as int);
    }
    Some(idx)
}

/// A product that overflows a machine word; `None` exactly on overflow.
fn checked_mul(a: usize, b: usize) -> (r: Option<usize>)
    ensures
        (r is Some <==> a * b <= usize::MAX),
        r is Some ==> r->Some_0 == a * b,
{
    if b == 0 {
        return Some(0);
    }
    if a > usize::MAX / b {
        proof {
            crate::operations::view::lemma_gt_div_mul(a as int, b as int);
        }
        return None;
    }
    proof {
        crate::operations::view::lemma_mul_div_bound(a as int, b as int);
    }
    Some(a * b)
}

/// An element index past the word ceiling cannot have its lane inside any
/// buffer: the lane end exceeds every byte length a machine word can hold.
proof fn lemma_lane_over(idx: int, elem: int, len: int)
    requires
        idx > usize::MAX - 1 || idx + 1 > usize::MAX,
        elem >= 1,
        len <= usize::MAX,
    ensures
        (idx + 1) * elem > len,
{
    assert((idx + 1) * elem >= idx + 1) by (nonlinear_arith)
        requires
            elem >= 1,
            idx + 1 >= 0,
    ;
}

} // verus!

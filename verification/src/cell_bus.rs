//! Bus-routing cells: width extension, slicing, grouping and
//! ungrouping.

use vstd::prelude::*;

use crate::errors::CellError;
use crate::names::{dec_str, numbered_name};
use crate::operations::ReturnValue;
use crate::sigmap::SigMap;
use crate::vector3vl::{view_abit, view_bbit, view_defined, view_tri, view_wf, Vec3vl, Vec3vlV};

verus! {

/// How a width-extension cell fills its new high bits.
pub enum ExtendKind {
    Zero,
    Sign,
}

/// The key of the `j`-th numbered input port.
pub open spec fn in_key(j: nat) -> Seq<char> {
    "in"@ + dec_str(j)
}

/// The key of the `j`-th numbered output port.
pub open spec fn out_key(j: nat) -> Seq<char> {
    "out"@ + dec_str(j)
}

/// Extend the `in` signal by `ext` high bits, filled with zero or with
/// copies of the most significant input bit.
pub fn bit_extend(args: &SigMap, op: &ExtendKind, ext: u32) -> (r: Result<ReturnValue, CellError>)
    requires
        args.wf(),
        args.values_wf(),
    ensures
        r is Ok <==> (args@.contains_key("in"@) && args@["in"@].bits + ext <= u32::MAX && (
        op is Sign ==> args@["in"@].bits > 0)),
        !args@.contains_key("in"@) ==> r == Result::<ReturnValue, CellError>::Err(
            CellError::MissingInput,
        ),
        r is Ok ==> {
            let rv = r->Ok_0;
            let v = args@["in"@];
            &&& rv.out is Some
            &&& !rv.clock
            &&& rv.out->0.bits == v.bits + ext
            &&& rv.out->0.well_formed()
            &&& forall|i: nat| i < v.bits ==> #[trigger] rv.out->0.abit(i) == view_abit(v, i)
            &&& forall|i: nat| i < v.bits ==> #[trigger] rv.out->0.bbit(i) == view_bbit(v, i)
            &&& forall|i: nat|
                v.bits <= i < v.bits + ext ==> #[trigger] rv.out->0.tri_at(i) == (match op {
                    ExtendKind::Zero => -1i32,
                    ExtendKind::Sign => view_tri(v, (v.bits - 1) as nat),
                })
        },
        r is Err ==> (r->Err_0 == CellError::MissingInput || r->Err_0
            == CellError::UnsupportedEncoding),
{
    let v = match args.get("in") {
        Some(v) => v,
        None => {
            return Err(CellError::MissingInput);
        },
    };
    if ext > u32::MAX - v.bits {
        return Err(CellError::UnsupportedEncoding);
    }
    let fill: i32 = match op {
        ExtendKind::Zero => -1,
        ExtendKind::Sign => {
            if v.bits == 0 {
                return Err(CellError::UnsupportedEncoding);
            }
            v.msb()
        },
    };
    let filler = match Vec3vl::make_int(ext, fill) {
        Ok(f) => f,
        Err(_) => {
            return Err(CellError::UnsupportedEncoding);
        },
    };
    let mut parts: Vec<Vec3vl> = Vec::new();
    parts.push(v.clone());
    parts.push(filler);
    proof {
        assert(crate::vector3vl::total_width(parts@, 0) == 0);
        assert(crate::vector3vl::total_width(parts@, 1) == v.bits);
        assert(crate::vector3vl::total_width(parts@, 2) == v.bits + ext);
    }
    let out = match Vec3vl::concat(&parts) {
        Ok(o) => o,
        Err(_) => {
            return Err(CellError::UnsupportedEncoding);
        },
    };
    proof {
        let vv = args@["in"@];
        assert forall|i: nat| i < vv.bits implies #[trigger] out.abit(i) == view_abit(vv, i) by {
            assert(out.abit((crate::vector3vl::total_width(parts@, 0) + i) as nat) == parts@[0].abit(
                i,
            ));
        }
        assert forall|i: nat| i < vv.bits implies #[trigger] out.bbit(i) == view_bbit(vv, i) by {
            assert(out.bbit((crate::vector3vl::total_width(parts@, 0) + i) as nat) == parts@[0].bbit(
                i,
            ));
        }
        assert forall|i: nat| vv.bits <= i < vv.bits + ext implies #[trigger] out.tri_at(i) == (
        match op {
            ExtendKind::Zero => -1i32,
            ExtendKind::Sign => view_tri(vv, (vv.bits - 1) as nat),
        }) by {
            let j: nat = (i - vv.bits) as nat;
            assert(out.abit((crate::vector3vl::total_width(parts@, 1) + j) as nat) == parts@[1].abit(
                j,
            ));
            assert(out.bbit((crate::vector3vl::total_width(parts@, 1) + j) as nat) == parts@[1].bbit(
                j,
            ));
            assert(parts@[1].tri_at(j) == fill);
        }
    }
    ReturnValue::out(out)
}

/// Cut `count` bits out of the `in` signal starting at `first`.  An
/// input with any X bit gives an all-X result of the declared count.
pub fn bus_slice(args: &SigMap, first: u32, count: u32) -> (r: Result<ReturnValue, CellError>)
    requires
        args.wf(),
        args.values_wf(),
    ensures
        r is Ok <==> args@.contains_key("in"@),
        r is Err ==> r->Err_0 == CellError::MissingInput,
        r is Ok ==> {
            let rv = r->Ok_0;
            let v = args@["in"@];
            &&& rv.out is Some
            &&& !rv.clock
            &&& rv.out->0.well_formed()
            &&& !view_defined(v) ==> {
                &&& rv.out->0.bits == count
                &&& forall|i: nat| i < count ==> #[trigger] rv.out->0.tri_at(i) == 0i32
            }
            &&& view_defined(v) ==> {
                let end = if first > v.bits {
                    v.bits as int
                } else if count > v.bits - first {
                    v.bits as int
                } else {
                    first + count
                };
                let width = if first as int > end {
                    0
                } else {
                    end - first
                };
                &&& rv.out->0.bits == width
                &&& forall|i: nat|
                    i < width ==> #[trigger] rv.out->0.abit(i) == view_abit(v, (first + i) as nat)
                &&& forall|i: nat|
                    i < width ==> #[trigger] rv.out->0.bbit(i) == view_bbit(v, (first + i) as nat)
            }
        },
{
    let v = match args.get("in") {
        Some(v) => v,
        None => {
            return Err(CellError::MissingInput);
        },
    };
    if !v.is_fully_defined() {
        return ReturnValue::out(Vec3vl::xes(count));
    }
    let end = if count > u32::MAX - first {
        u32::MAX
    } else {
        first + count
    };
    let out = match v.slice(first, end) {
        Ok(o) => o,
        Err(e) => {
            return Err(e);
        },
    };
    ReturnValue::out(out)
}

/// All numbered input ports `in0 .. in(k-1)` are present.
pub open spec fn group_ok(m: Map<Seq<char>, Vec3vlV>, k: nat) -> bool {
    forall|j: nat| j < k ==> m.contains_key(#[trigger] in_key(j))
}

/// The summed width of the first `k` numbered inputs.
pub open spec fn group_width(m: Map<Seq<char>, Vec3vlV>, k: nat) -> nat
    decreases k,
{
    if k == 0 {
        0
    } else {
        (group_width(m, (k - 1) as nat) + m[in_key((k - 1) as nat)].bits) as nat
    }
}

/// Concatenate the inputs `in0, in1, ...` in ascending index order
/// (lowest index on the least significant side).
pub fn bus_group(args: &SigMap) -> (r: Result<ReturnValue, CellError>)
    requires
        args.wf(),
        args.values_wf(),
    ensures
        r is Ok <==> (group_ok(args@, args.entries@.len()) && group_width(
            args@,
            args.entries@.len(),
        ) <= u32::MAX && args.entries@.len() <= 0x1_0000_0000),
        r is Ok ==> {
            let rv = r->Ok_0;
            let k = args.entries@.len();
            &&& rv.out is Some
            &&& !rv.clock
            &&& rv.out->0.well_formed()
            &&& rv.out->0.bits == group_width(args@, k)
            &&& forall|j: nat, i: nat|
                j < k && i < args@[in_key(j)].bits ==> #[trigger] rv.out->0.abit(
                    (group_width(args@, j) + i) as nat,
                ) == view_abit(args@[in_key(j)], i)
            &&& forall|j: nat, i: nat|
                j < k && i < args@[in_key(j)].bits ==> #[trigger] rv.out->0.bbit(
                    (group_width(args@, j) + i) as nat,
                ) == view_bbit(args@[in_key(j)], i)
        },
        r is Err ==> (r->Err_0 == CellError::MissingInput || r->Err_0
            == CellError::UnsupportedEncoding),
{
    let k = args.len();
    let mut parts: Vec<Vec3vl> = Vec::new();
    let mut total: u32 = 0;
    let mut j: usize = 0;
    while j < k
        invariant
            j <= k,
            j <= 0x1_0000_0000,
            k == args.entries@.len(),
            args.wf(),
            args.values_wf(),
            total == crate::vector3vl::total_width(parts@, j as int),
            parts@.len() == j,
            forall|m: int| 0 <= m < j ==> (#[trigger] parts@[m])@ == args@[in_key(m as nat)],
            forall|m: int| 0 <= m < j ==> (#[trigger] parts@[m]).well_formed(),
            forall|m: nat| m < j ==> args@.contains_key(#[trigger] in_key(m)),
            crate::vector3vl::total_width(parts@, j as int) == group_width(args@, j as nat),
            crate::vector3vl::total_width(parts@, j as int) <= u32::MAX,
        decreases k - j,
    {
        if j > u32::MAX as usize {
            return Err(CellError::UnsupportedEncoding);
        }
        let name = numbered_name("in", j as u32);
        let v = match args.get(name.as_str()) {
            Some(v) => v,
            None => {
                proof {
                    assert(!args@.contains_key(in_key(j as nat)));
                    assert(!group_ok(args@, k as nat));
                }
                return Err(CellError::MissingInput);
            },
        };
        let vb = v.bits;
        let cur = v.clone();
        proof {
            assert(cur@ == args@[in_key(j as nat)]);
        }
        if vb > u32::MAX - total {
            proof {
                lemma_group_width_mono(args@, (j + 1) as nat, k as nat);
            }
            return Err(CellError::UnsupportedEncoding);
        }
        total = total + vb;
        parts.push(cur);
        proof {
            assert(parts@.drop_last() =~= parts@.subrange(0, j as int));
            lemma_total_matches_group(parts@, args@, (j + 1) as nat);
        }
        j = j + 1;
    }
    let out = match Vec3vl::concat(&parts) {
        Ok(o) => o,
        Err(_) => {
            return Err(CellError::UnsupportedEncoding);
        },
    };
    proof {
        assert forall|j2: nat, i: nat|
            j2 < k && i < args@[in_key(j2)].bits implies #[trigger] out.abit(
            (group_width(args@, j2) + i) as nat,
        ) == view_abit(args@[in_key(j2)], i) by {
            lemma_total_matches_group(parts@, args@, j2);
            assert(out.abit((crate::vector3vl::total_width(parts@, j2 as int) + i) as nat)
                == parts@[j2 as int].abit(i));
        }
        assert forall|j2: nat, i: nat|
            j2 < k && i < args@[in_key(j2)].bits implies #[trigger] out.bbit(
            (group_width(args@, j2) + i) as nat,
        ) == view_bbit(args@[in_key(j2)], i) by {
            lemma_total_matches_group(parts@, args@, j2);
            assert(out.bbit((crate::vector3vl::total_width(parts@, j2 as int) + i) as nat)
                == parts@[j2 as int].bbit(i));
        }
    }
    ReturnValue::out(out)
}

/// Prefix widths grow with the number of inputs counted.
pub proof fn lemma_group_width_mono(m: Map<Seq<char>, Vec3vlV>, a: nat, b: nat)
    requires
        a <= b,
    ensures
        group_width(m, a) <= group_width(m, b),
    decreases b,
{
    if b > a {
        lemma_group_width_mono(m, a, (b - 1) as nat);
    }
}

/// Collected parts whose views are the numbered inputs have the same
/// prefix widths as the map.
pub proof fn lemma_total_matches_group(
    parts: Seq<Vec3vl>,
    m: Map<Seq<char>, Vec3vlV>,
    k: nat,
)
    requires
        k <= parts.len(),
        forall|j: int| 0 <= j < k ==> (#[trigger] parts[j])@ == m[in_key(j as nat)],
    ensures
        crate::vector3vl::total_width(parts, k as int) == group_width(m, k),
    decreases k,
{
    if k > 0 {
        lemma_total_matches_group(parts, m, (k - 1) as nat);
    }
}

/// Split the `in` signal into consecutive named outputs
/// `out0 .. out(k-1)` of the given widths (the inverse of grouping).
pub fn bus_ungroup(args: &SigMap, groups: &Vec<u32>) -> (r: Result<ReturnValue, CellError>)
    requires
        args.wf(),
        args.values_wf(),
    ensures
        r is Ok <==> (args@.contains_key("in"@) && groups@.len() <= 0x1_0000_0000),
        !args@.contains_key("in"@) ==> r == Result::<ReturnValue, CellError>::Err(
            CellError::MissingInput,
        ),
        r is Err ==> (r->Err_0 == CellError::MissingInput || r->Err_0
            == CellError::UnsupportedEncoding),
        r is Ok ==> {
            let rv = r->Ok_0;
            &&& rv.out is None
            &&& !rv.clock
            &&& rv.others.wf()
            &&& forall|j: nat| j < groups@.len() ==> rv.others@.contains_key(#[trigger] out_key(j))
        },
{
    let v = match args.get("in") {
        Some(v) => v,
        None => {
            return Err(CellError::MissingInput);
        },
    };
    let mut others = SigMap::new();
    let mut offset: u32 = 0;
    let mut j: usize = 0;
    let k = groups.len();
    while j < k
        invariant
            j <= k,
            j <= 0x1_0000_0000,
            k == groups@.len(),
            args.wf(),
            args.values_wf(),
            args@.contains_key("in"@),
            v@ == args@["in"@],
            v.well_formed(),
            others.wf(),
            forall|m: nat| m < j ==> others@.contains_key(#[trigger] out_key(m)),
        decreases k - j,
    {
        if j > u32::MAX as usize {
            return Err(CellError::UnsupportedEncoding);
        }
        let size = groups[j];
        let end = if size > u32::MAX - offset {
            u32::MAX
        } else {
            offset + size
        };
        let part = match v.slice(offset, end) {
            Ok(p) => p,
            Err(e) => {
                return Err(e);
            },
        };
        let name = numbered_name("out", j as u32);
        others.insert(name, part);
        offset = end;
        j = j + 1;
    }
    ReturnValue::values(None, others)
}

} // verus!

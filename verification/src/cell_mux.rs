//! Multiplexer cells: binary select, one-hot select and sparse select.

use vstd::prelude::*;

use crate::cell_bus::in_key;
use crate::errors::CellError;
use crate::names::numbered_name;
use crate::operations::ReturnValue;
use crate::sigmap::SigMap;
use crate::vector3vl::{
    lemma_uval_stable, view_defined, view_hex_range, view_tri, view_uval, nibble_count, Vec3vl,
    Vec3vlV,
};

verus! {

/// Which selection discipline a multiplexer uses.
pub enum MuxKind {
    Binary,
    OneHot,
}

/// Bit `p` is the one and only high bit of the content.
pub open spec fn one_hot_unique(v: Vec3vlV, p: nat) -> bool {
    &&& p < v.bits
    &&& view_tri(v, p) == 1i32
    &&& forall|i: nat| i < v.bits && i != p ==> #[trigger] view_tri(v, i) != 1i32
}

impl Vec3vl {
    /// The unsigned value of the low `n` bits, as executable code.
    pub fn low_value(&self, n: u32) -> (r: u32)
        requires
            self.well_formed(),
            n <= 32,
            n <= self.bits,
        ensures
            r == self.uval_upto(n as nat),
    {
        let mut v: u32 = 0;
        let mut i: u32 = 0;
        proof {
            vstd::arithmetic::power2::lemma2_to64();
        }
        while i < n
            invariant
                i <= n <= 32,
                n <= self.bits,
                self.well_formed(),
                v == self.uval_upto(i as nat),
                v < vstd::arithmetic::power2::pow2(i as nat),
            decreases n - i,
        {
            proof {
                vstd::arithmetic::power2::lemma_pow2_strictly_increases(i as nat, 32);
                vstd::arithmetic::power2::lemma2_to64();
                vstd::bits::lemma_u32_shl_is_mul(1u32, i);
                vstd::arithmetic::power2::lemma_pow2_adds(i as nat, 1);
            }
            if self.get_abit(i) {
                v = v + (1u32 << i);
            }
            i = i + 1;
        }
        v
    }
}

/// A set `avec` bit pushes the value to at least its weight.
pub proof fn lemma_uval_lower(v: Vec3vl, i: nat, n: nat)
    requires
        i < n,
        v.abit(i),
    ensures
        v.uval_upto(n) >= vstd::arithmetic::power2::pow2(i),
    decreases n,
{
    if i == n - 1 {
    } else {
        lemma_uval_lower(v, i, (n - 1) as nat);
    }
}

/// The binary selector index: the selector's unsigned value, or nothing
/// when the selector has an X bit.  A value beyond `u32` cannot name an
/// input port and fails.
pub fn mux_idx(sel: &Vec3vl) -> (r: Result<Option<u32>, CellError>)
    requires
        sel.well_formed(),
    ensures
        !sel.all_defined() ==> r == Result::<Option<u32>, CellError>::Ok(Option::<u32>::None),
        sel.all_defined() && sel.uval() <= u32::MAX ==> r == Result::<Option<u32>, CellError>::Ok(
            Option::Some(sel.uval() as u32),
        ),
        sel.all_defined() && sel.uval() > u32::MAX ==> r == Result::<Option<u32>, CellError>::Err(
            CellError::UnsupportedEncoding,
        ),
{
    if !sel.is_fully_defined() {
        return Ok(None);
    }
    proof {
        vstd::arithmetic::power2::lemma2_to64();
    }
    if sel.bits <= 32 {
        let v = sel.low_value(sel.bits);
        proof {
            lemma_uval_bound(*sel, sel.bits as nat);
        }
        return Ok(Some(v));
    }
    let mut i: u32 = 32;
    while i < sel.bits
        invariant
            32 <= i <= sel.bits,
            sel.well_formed(),
            sel.all_defined(),
            forall|j: nat| 32 <= j < i ==> !(#[trigger] sel.abit(j)),
        decreases sel.bits - i,
    {
        if sel.get_abit(i) {
            proof {
                lemma_uval_lower(*sel, i as nat, sel.bits as nat);
                vstd::arithmetic::power2::lemma_pow2_adds(32, (i - 32) as nat);
                vstd::arithmetic::power2::lemma_pow2_pos((i - 32) as nat);
                vstd::arithmetic::power2::lemma2_to64();
                assert(vstd::arithmetic::power2::pow2(i as nat) >= 0x1_0000_0000) by (
                nonlinear_arith)
                    requires
                        vstd::arithmetic::power2::pow2(i as nat) == 0x1_0000_0000
                            * vstd::arithmetic::power2::pow2((i - 32) as nat),
                        vstd::arithmetic::power2::pow2((i - 32) as nat) >= 1,
                ;
            }
            return Err(CellError::UnsupportedEncoding);
        }
        i = i + 1;
    }
    let v = sel.low_value(32);
    proof {
        lemma_uval_stable(*sel, 32, sel.bits as nat);
        lemma_uval_bound(*sel, 32);
    }
    Ok(Some(v))
}

/// Prefix values stay below the weight of the next bit.
pub proof fn lemma_uval_bound(v: Vec3vl, n: nat)
    ensures
        v.uval_upto(n) < vstd::arithmetic::power2::pow2(n),
    decreases n,
{
    vstd::arithmetic::power2::lemma_pow2_pos(n);
    if n > 0 {
        lemma_uval_bound(v, (n - 1) as nat);
        vstd::arithmetic::power2::lemma_pow2_adds((n - 1) as nat, 1);
        vstd::arithmetic::power2::lemma2_to64();
    }
}

/// The one-hot selector index: one more than the position of the single
/// high bit; nothing when the selector has an X bit, no high bit, or
/// more than one.
pub fn mux1hot_idx(sel: &Vec3vl) -> (r: Option<u32>)
    requires
        sel.well_formed(),
    ensures
        r is Some ==> sel.all_defined() && one_hot_unique(sel@, (r->0 - 1) as nat) && r->0 >= 1,
        r is None ==> !sel.all_defined() || (forall|p: nat| !one_hot_unique(sel@, p)),
{
    if !sel.is_fully_defined() {
        return None;
    }
    let mut found: Option<u32> = None;
    let mut i: u32 = 0;
    while i < sel.bits
        invariant
            i <= sel.bits,
            sel.well_formed(),
            found is Some ==> {
                &&& found->0 < i
                &&& sel.tri_at(found->0 as nat) == 1i32
                &&& forall|j: nat| j < i && j != found->0 ==> #[trigger] sel.tri_at(j) != 1i32
            },
            found is None ==> forall|j: nat| j < i ==> #[trigger] sel.tri_at(j) != 1i32,
        decreases sel.bits - i,
    {
        if sel.get(i) == 1 {
            if found.is_some() {
                proof {
                    let p0 = found->0 as nat;
                    assert forall|p: nat| !one_hot_unique(sel@, p) by {
                        if p == p0 {
                            assert(view_tri(sel@, i as nat) == 1i32);
                        } else {
                            assert(view_tri(sel@, p0) == 1i32);
                        }
                    }
                }
                return None;
            }
            found = Some(i);
        }
        i = i + 1;
    }
    match found {
        Some(p) => Some(p + 1),
        None => {
            proof {
                assert forall|p: nat| !one_hot_unique(sel@, p) by {
                    if p < sel.bits {
                        assert(sel.tri_at(p) != 1i32);
                    }
                }
            }
            None
        },
    }
}

/// Evaluate a multiplexer: pick the input named by the selector, or
/// emit all-X of the declared width when the selector does not name
/// one.
pub fn mux_op(args: &SigMap, bits: u32, kind: &MuxKind) -> (r: Result<ReturnValue, CellError>)
    requires
        args.wf(),
        args.values_wf(),
    ensures
        r is Ok <==> (args@.contains_key("sel"@) && {
            let sel = args@["sel"@];
            match kind {
                MuxKind::Binary => !view_defined(sel) || (view_uval(sel) <= u32::MAX
                    && args@.contains_key(in_key(view_uval(sel)))),
                MuxKind::OneHot => !view_defined(sel) || (forall|p: nat|
                    !one_hot_unique(sel, p)) || (exists|p: nat|
                    one_hot_unique(sel, p) && args@.contains_key(#[trigger] in_key(p + 1))),
            }
        }),
        !args@.contains_key("sel"@) ==> r == Result::<ReturnValue, CellError>::Err(
            CellError::MissingInput,
        ),
        r is Ok ==> {
            let rv = r->Ok_0;
            let sel = args@["sel"@];
            &&& rv.out is Some
            &&& !rv.clock
            &&& rv.out->0.well_formed()
            &&& !view_defined(sel) ==> rv.out->0.bits == bits && forall|i: nat|
                i < bits ==> #[trigger] rv.out->0.tri_at(i) == 0i32
            &&& (kind is Binary && view_defined(sel) && view_uval(sel) <= u32::MAX
                && args@.contains_key(in_key(view_uval(sel)))) ==> rv.out->0@ == args@[in_key(
                view_uval(sel),
            )]
            &&& (kind is OneHot && view_defined(sel) && (forall|p: nat|
                !one_hot_unique(sel, p))) ==> rv.out->0.bits == bits && forall|i: nat|
                i < bits ==> #[trigger] rv.out->0.tri_at(i) == 0i32
            &&& forall|p: nat|
                (kind is OneHot && view_defined(sel) && one_hot_unique(sel, p)
                    && args@.contains_key(#[trigger] in_key(p + 1))) ==> rv.out->0@ == args@[in_key(
                    p + 1,
                )]
        },
        r is Err ==> (r->Err_0 == CellError::MissingInput || r->Err_0
            == CellError::UnsupportedEncoding),
{
    let sel = match args.get("sel") {
        Some(s) => s,
        None => {
            return Err(CellError::MissingInput);
        },
    };
    proof {
        assert(crate::vector3vl::view_wf(sel@));
    }
    let idx: Option<u32> = match kind {
        MuxKind::Binary => {
            match mux_idx(sel) {
                Ok(i) => i,
                Err(e) => {
                    return Err(e);
                },
            }
        },
        MuxKind::OneHot => mux1hot_idx(sel),
    };
    let i = match idx {
        Some(i) => i,
        None => {
            return ReturnValue::out(Vec3vl::xes(bits));
        },
    };
    let name = numbered_name("in", i);
    let v = match args.get(name.as_str()) {
        Some(v) => v,
        None => {
            proof {
                if kind is OneHot {
                    let p0 = (i - 1) as nat;
                    assert forall|p: nat|
                        one_hot_unique(sel@, p) implies !args@.contains_key(
                        in_key(p + 1),
                    ) by {
                        if p != p0 {
                            assert(view_tri(sel@, p0) == 1i32);
                            assert(view_tri(sel@, p) != 1i32);
                        }
                    }
                }
            }
            return Err(CellError::MissingInput);
        },
    };
    proof {
        assert(args@.contains_key(in_key(i as nat)));
        if kind is OneHot {
            let p0 = (i - 1) as nat;
            assert(one_hot_unique(sel@, p0) && args@.contains_key(in_key(p0 + 1)));
        }
    }
    ReturnValue::out(v.clone())
}

/// The port that a sparse selection table maps a selector rendering to
/// (first match wins).
pub open spec fn smap_lookup(m: Seq<(String, String)>, k: Seq<char>) -> Option<Seq<char>>
    decreases m.len(),
{
    if m.len() == 0 {
        Option::None
    } else if m[0].0@ == k {
        Option::Some(m[0].1@)
    } else {
        smap_lookup(m.drop_first(), k)
    }
}

/// Evaluate a sparse multiplexer: render the selector in hexadecimal,
/// look the rendering up in the selection table, and emit that input
/// (all-X of the declared width when the rendering is not in the
/// table or the selector is X).
pub fn sparse_mux_op(args: &SigMap, bits: u32, map: &Vec<(String, String)>) -> (r: Result<
    ReturnValue,
    CellError,
>)
    requires
        args.wf(),
        args.values_wf(),
    ensures
        r is Ok <==> (args@.contains_key("sel"@) && match smap_lookup(
            map@,
            view_hex_range(args@["sel"@], nibble_count(args@["sel"@].bits), 0),
        ) {
            Option::None => true,
            Option::Some(port) => args@.contains_key(port),
        }),
        !args@.contains_key("sel"@) ==> r == Result::<ReturnValue, CellError>::Err(
            CellError::MissingInput,
        ),
        r is Ok ==> {
            let rv = r->Ok_0;
            let sel = args@["sel"@];
            let key = view_hex_range(sel, nibble_count(sel.bits), 0);
            &&& rv.out is Some
            &&& !rv.clock
            &&& rv.out->0.well_formed()
            &&& match smap_lookup(map@, key) {
                Option::None => rv.out->0.bits == bits && forall|i: nat|
                    i < bits ==> #[trigger] rv.out->0.tri_at(i) == 0i32,
                Option::Some(port) => args@.contains_key(port) && rv.out->0@ == args@[port],
            }
        },
        r is Err ==> r->Err_0 == CellError::MissingInput,
{
    let sel = match args.get("sel") {
        Some(s) => s,
        None => {
            return Err(CellError::MissingInput);
        },
    };
    let key = sel.to_hex();
    let n = map.len();
    proof {
        assert(map@.subrange(0, n as int) =~= map@);
    }
    let mut j: usize = 0;
    while j < n
        invariant
            j <= n,
            n == map@.len(),
            args.wf(),
            args.values_wf(),
            args@.contains_key("sel"@),
            key@ == view_hex_range(
                args@["sel"@],
                nibble_count(args@["sel"@].bits),
                0,
            ),
            smap_lookup(map@, key@) == smap_lookup(map@.subrange(j as int, n as int), key@),
        decreases n - j,
    {
        proof {
            assert(map@.subrange(j as int, n as int)[0] == map@[j as int]);
            assert(map@.subrange(j as int, n as int).drop_first() =~= map@.subrange(
                j as int + 1,
                n as int,
            ));
        }
        if map[j].0 == key {
            let v = match args.get(map[j].1.as_str()) {
                Some(v) => v,
                None => {
                    return Err(CellError::MissingInput);
                },
            };
            return ReturnValue::out(v.clone());
        }
        j = j + 1;
    }
    proof {
        assert(map@.subrange(n as int, n as int) =~= Seq::<(String, String)>::empty());
    }
    ReturnValue::out(Vec3vl::xes(bits))
}

} // verus!

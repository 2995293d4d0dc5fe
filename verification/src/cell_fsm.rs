//! The finite-state-machine cell: a transition table keyed by source
//! state, clock-edge driven, with wildcard matching on X pattern bits
//! and an OR-combined output over all matching transitions.

use vstd::prelude::*;

use crate::cell_dff::{clock_edge, pol};
use crate::errors::CellError;
use crate::operations::{CellEvent, ReturnValue};
use crate::sigmap::SigMap;
use crate::vector3vl::{set_bit_in, filled_vec, view_tri, word_count, Vec3vl, Vec3vlV};

verus! {

/// One row of the transition table.
pub struct FsmTransition {
    pub id: u32,
    pub state_in: u32,
    pub ctrl_in: Vec3vl,
    pub ctrl_out: Vec3vl,
    pub state_out: u32,
}

/// A transition row as the host hands it over, before the literals are
/// parsed.
pub struct FsmTempStruct {
    pub ctrl_in: String,
    pub ctrl_out: String,
    pub state_in: u32,
    pub state_out: u32,
}

/// The persistent state of a finite-state machine.
pub struct FsmState {
    pub bits_in: u32,
    pub bits_out: u32,
    pub clock_polarity: bool,
    pub arst_polarity: bool,
    pub transitions: Vec<FsmTransition>,
    pub init_state: u32,
    pub current_state: u32,
    pub last_clk: i32,
}

/// The input matches the pattern with the pattern's X bits as
/// wildcards (used to pick the next state).
pub open spec fn match_ctrl(inv: Vec3vlV, pat: Vec3vlV) -> bool {
    &&& inv.bits == pat.bits
    &&& forall|i: nat|
        i < pat.bits ==> (#[trigger] view_tri(pat, i) == 0i32 || view_tri(inv, i) == view_tri(
            pat,
            i,
        ))
}

/// The input matches the pattern with both sides' X bits as wildcards
/// (used to combine outputs).
pub open spec fn match_loose(inv: Vec3vlV, pat: Vec3vlV) -> bool {
    &&& inv.bits == pat.bits
    &&& forall|i: nat|
        i < pat.bits ==> (#[trigger] view_tri(pat, i) == 0i32 || view_tri(inv, i) == 0i32
            || view_tri(inv, i) == view_tri(pat, i))
}

/// The first table row out of the given source state whose pattern
/// matches the input.
pub open spec fn first_match(trs: Seq<FsmTransition>, st: u32, inv: Vec3vlV) -> Option<
    FsmTransition,
>
    decreases trs.len(),
{
    if trs.len() == 0 {
        Option::None
    } else if trs[0].state_in == st && match_ctrl(inv, trs[0].ctrl_in@) {
        Option::Some(trs[0])
    } else {
        first_match(trs.drop_first(), st, inv)
    }
}

/// The state the machine moves to on this evaluation.
pub open spec fn next_state(s: FsmState, arst_now: i32, clk_now: i32, inv: Vec3vlV) -> u32 {
    if arst_now == pol(s.arst_polarity) {
        s.init_state
    } else if clock_edge(s.clock_polarity, s.last_clk, clk_now) {
        match first_match(s.transitions@, s.current_state, inv) {
            Option::Some(t) => t.state_out,
            Option::None => s.init_state,
        }
    } else {
        s.current_state
    }
}

/// One built table row comes from the host row at its index: the id is
/// positional, the states are copied, and the control literals are
/// parsed as binary at the declared widths (any `x` character makes
/// the whole vector X).
pub open spec fn row_from(
    t: FsmTransition,
    src: FsmTempStruct,
    j: int,
    bits_in: u32,
    bits_out: u32,
) -> bool {
    &&& t.id == j
    &&& t.state_in == src.state_in
    &&& t.state_out == src.state_out
    &&& t.ctrl_in.well_formed()
    &&& t.ctrl_out.well_formed()
    &&& t.ctrl_in.bits == bits_in
    &&& t.ctrl_out.bits == bits_out
    &&& crate::vector3vl::bin_has_x(src.ctrl_in@) ==> forall|i: nat|
        i < bits_in ==> #[trigger] t.ctrl_in.tri_at(i) == 0i32
    &&& !crate::vector3vl::bin_has_x(src.ctrl_in@) ==> (t.ctrl_in.all_defined() && forall|i: nat|
        i < bits_in ==> #[trigger] t.ctrl_in.abit(i) == crate::vector3vl::from_bin_bit(
            src.ctrl_in@,
            i,
        ))
    &&& crate::vector3vl::bin_has_x(src.ctrl_out@) ==> forall|i: nat|
        i < bits_out ==> #[trigger] t.ctrl_out.tri_at(i) == 0i32
    &&& !crate::vector3vl::bin_has_x(src.ctrl_out@) ==> (t.ctrl_out.all_defined() && forall|i: nat|
        i < bits_out ==> #[trigger] t.ctrl_out.abit(i) == crate::vector3vl::from_bin_bit(
            src.ctrl_out@,
            i,
        ))
}

/// The table rows out of the given source state whose patterns match
/// the input loosely (both sides' X bits wild), in table order.
pub open spec fn matches_from(trs: Seq<FsmTransition>, st: u32, inv: Vec3vlV) -> Seq<FsmTransition>
    decreases trs.len(),
{
    if trs.len() == 0 {
        Seq::empty()
    } else {
        let rest = matches_from(trs.drop_last(), st, inv);
        if trs.last().state_in == st && match_loose(inv, trs.last().ctrl_in@) {
            rest.push(trs.last())
        } else {
            rest
        }
    }
}

/// All matching rows agree on output bit `i`.
pub open spec fn agree_at(ms: Seq<FsmTransition>, i: nat) -> bool {
    forall|j: int|
        0 <= j < ms.len() ==> view_tri((#[trigger] ms[j]).ctrl_out@, i) == view_tri(
            ms[0].ctrl_out@,
            i,
        )
}

/// The machine's output at bit `i`: the common value of all matching
/// rows, X where they disagree or no row matches.
pub open spec fn fsm_out_bit(ms: Seq<FsmTransition>, i: nat) -> i32 {
    if ms.len() == 0 {
        0i32
    } else if agree_at(ms, i) {
        view_tri(ms[0].ctrl_out@, i)
    } else {
        0i32
    }
}

impl FsmState {
    pub open spec fn wf(self) -> bool {
        forall|k: int|
            0 <= k < self.transitions@.len() ==> (#[trigger] self.transitions@[k]).ctrl_in.well_formed()
                && self.transitions@[k].ctrl_out.well_formed() && self.transitions@[k].ctrl_in.bits
                == self.bits_in && self.transitions@[k].ctrl_out.bits == self.bits_out
    }

    /// Build a machine from the host's transition table; the `ctrl`
    /// literals parse as binary at the declared widths.
    pub fn new(
        bits_in: u32,
        bits_out: u32,
        clock_polarity: bool,
        arst_polarity: bool,
        init_state: u32,
        table: &Vec<FsmTempStruct>,
    ) -> (r: Result<FsmState, CellError>)
        ensures
            r is Ok <==> (table@.len() <= u32::MAX && forall|j: int|
                0 <= j < table@.len() ==> crate::vector3vl::bin_chars_ok(
                    (#[trigger] table@[j]).ctrl_in@,
                ) && crate::vector3vl::bin_chars_ok(table@[j].ctrl_out@)),
            r is Ok ==> {
                let s = r->Ok_0;
                &&& s.wf()
                &&& s.bits_in == bits_in
                &&& s.bits_out == bits_out
                &&& s.clock_polarity == clock_polarity
                &&& s.arst_polarity == arst_polarity
                &&& s.init_state == init_state
                &&& s.current_state == init_state
                &&& s.last_clk == 0i32
                &&& s.transitions@.len() == table@.len()
                &&& forall|j: int|
                    0 <= j < table@.len() ==> row_from(
                        #[trigger] s.transitions@[j],
                        table@[j],
                        j,
                        bits_in,
                        bits_out,
                    )
            },
    {
        let mut transitions: Vec<FsmTransition> = Vec::new();
        let n = table.len();
        let mut k: usize = 0;
        while k < n
            invariant
                k <= n,
                n == table@.len(),
                k <= u32::MAX,
                transitions@.len() == k,
                forall|j: int|
                    0 <= j < k ==> crate::vector3vl::bin_chars_ok((#[trigger] table@[j]).ctrl_in@)
                        && crate::vector3vl::bin_chars_ok(table@[j].ctrl_out@),
                forall|j: int|
                    0 <= j < k ==> row_from(
                        #[trigger] transitions@[j],
                        table@[j],
                        j,
                        bits_in,
                        bits_out,
                    ),
            decreases n - k,
        {
            if k >= u32::MAX as usize {
                return Err(CellError::UnsupportedEncoding);
            }
            let row = &table[k];
            let ctrl_in = match Vec3vl::from_binary(row.ctrl_in.as_str(), Some(
                bits_in as usize,
            )) {
                Ok(v) => v,
                Err(e) => {
                    return Err(e);
                },
            };
            let ctrl_out = match Vec3vl::from_binary(row.ctrl_out.as_str(), Some(
                bits_out as usize,
            )) {
                Ok(v) => v,
                Err(e) => {
                    return Err(e);
                },
            };
            transitions.push(
                FsmTransition {
                    id: k as u32,
                    state_in: row.state_in,
                    ctrl_in,
                    ctrl_out,
                    state_out: row.state_out,
                },
            );
            k = k + 1;
        }
        Ok(
            FsmState {
                bits_in,
                bits_out,
                clock_polarity,
                arst_polarity,
                transitions,
                init_state,
                current_state: init_state,
                last_clk: 0,
            },
        )
    }
}

/// Whether the input matches the pattern, with pattern X bits (and,
/// loosely, input X bits) as wildcards.
pub fn ctrl_matches(inv: &Vec3vl, pat: &Vec3vl, loose: bool) -> (r: bool)
    requires
        inv.well_formed(),
        pat.well_formed(),
    ensures
        !loose ==> r == match_ctrl(inv@, pat@),
        loose ==> r == match_loose(inv@, pat@),
{
    if inv.bits != pat.bits {
        return false;
    }
    let mut i: u32 = 0;
    while i < pat.bits
        invariant
            i <= pat.bits,
            inv.well_formed(),
            pat.well_formed(),
            inv.bits == pat.bits,
            !loose ==> forall|j: nat|
                j < i ==> (#[trigger] view_tri(pat@, j) == 0i32 || view_tri(inv@, j) == view_tri(
                    pat@,
                    j,
                )),
            loose ==> forall|j: nat|
                j < i ==> (#[trigger] view_tri(pat@, j) == 0i32 || view_tri(inv@, j) == 0i32
                    || view_tri(inv@, j) == view_tri(pat@, j)),
        decreases pat.bits - i,
    {
        let pt = pat.get(i);
        let it = inv.get(i);
        if pt != 0 {
            if loose {
                if it != 0 && it != pt {
                    return false;
                }
            } else {
                if it != pt {
                    return false;
                }
            }
        }
        i = i + 1;
    }
    true
}

/// Merge two candidate outputs bit by bit: agreeing bits keep their
/// value, disagreeing bits become X (canonically encoded).
pub fn merge_agree(a: &Vec3vl, b: &Vec3vl) -> (r: Vec3vl)
    requires
        a.well_formed(),
        b.well_formed(),
        a.bits == b.bits,
    ensures
        r.bits == a.bits,
        r.well_formed(),
        r.is_normalized(),
        r.canonical(),
        forall|i: nat|
            i < r.bits ==> #[trigger] r.tri_at(i) == (if view_tri(a@, i) == view_tri(b@, i) {
                view_tri(a@, i)
            } else {
                0i32
            }),
{
    let bits = a.bits;
    let words = Vec3vl::word_len(bits);
    let mut avec = filled_vec(0, words);
    let mut bvec = filled_vec(0, words);
    proof {
        assert forall|j: nat| j / 32 < avec@.len() implies !crate::vector3vl::raw_bit(
            #[trigger] avec@[j as int / 32],
            j % 32,
        ) by {
            crate::vector3vl::lemma_raw_bit_const(j % 32);
        }
        assert forall|j: nat| j / 32 < bvec@.len() implies !crate::vector3vl::raw_bit(
            #[trigger] bvec@[j as int / 32],
            j % 32,
        ) by {
            crate::vector3vl::lemma_raw_bit_const(j % 32);
        }
    }
    let mut i: u32 = 0;
    while i < bits
        invariant
            i <= bits,
            a.well_formed(),
            b.well_formed(),
            a.bits == bits,
            b.bits == bits,
            avec@.len() == word_count(bits as nat),
            bvec@.len() == word_count(bits as nat),
            forall|j: nat|
                j < i ==> #[trigger] crate::vector3vl::raw_bit(avec@[j as int / 32], j % 32) == (
                view_tri(a@, j) == view_tri(b@, j) && view_tri(a@, j) == 1i32),
            forall|j: nat|
                j < i ==> #[trigger] crate::vector3vl::raw_bit(bvec@[j as int / 32], j % 32) == (
                view_tri(a@, j) != view_tri(b@, j) || view_tri(a@, j) != -1i32),
            forall|j: nat|
                i <= j && j / 32 < avec@.len() ==> !crate::vector3vl::raw_bit(
                    #[trigger] avec@[j as int / 32],
                    j % 32,
                ),
            forall|j: nat|
                i <= j && j / 32 < bvec@.len() ==> !crate::vector3vl::raw_bit(
                    #[trigger] bvec@[j as int / 32],
                    j % 32,
                ),
        decreases bits - i,
    {
        proof {
            crate::vector3vl::lemma_bit_word_index(bits as nat, i as nat);
        }
        let ta = a.get(i);
        let tb = b.get(i);
        let t: i32 = if ta == tb {
            ta
        } else {
            0
        };
        set_bit_in(&mut avec, i, t == 1);
        set_bit_in(&mut bvec, i, t != -1);
        i = i + 1;
    }
    let r = Vec3vl { bits, avec, bvec };
    proof {
        assert forall|j: int| 0 <= j < r.avec@.len() implies #[trigger] r.avec@[j] & !r.bvec@[j]
            == 0 by {
            assert forall|bb: nat| bb < 32 implies #[trigger] crate::vector3vl::raw_bit(
                r.avec@[j],
                bb,
            ) ==> crate::vector3vl::raw_bit(r.bvec@[j], bb) by {
                crate::vector3vl::lemma_split_index(j, bb);
                let g: nat = (32 * j + bb) as nat;
                assert(crate::vector3vl::raw_bit(r.avec@[g as int / 32], g % 32)
                    ==> crate::vector3vl::raw_bit(r.bvec@[g as int / 32], g % 32));
            }
            lemma_implied_bits_canonical(r.avec@[j], r.bvec@[j]);
        }
        if r.avec@.len() > 0 {
            crate::vector3vl::lemma_normalized_from_bits(r);
        }
    }
    r
}

/// A word whose set bits all recur in another word is canonical
/// against it.
pub proof fn lemma_implied_bits_canonical(x: u32, y: u32)
    requires
        forall|b: nat| b < 32 ==> (#[trigger] crate::vector3vl::raw_bit(x, b) ==> crate::vector3vl::raw_bit(y, b)),
    ensures
        x & !y == 0,
{
    assert forall|b: nat| b < 32 implies #[trigger] crate::vector3vl::raw_bit(x & !y, b)
        == crate::vector3vl::raw_bit(0u32, b) by {
        crate::vector3vl::lemma_raw_bit_ops(x, !y, (b % 32) as u32);
        crate::vector3vl::lemma_raw_bit_ops(y, x, (b % 32) as u32);
        crate::vector3vl::lemma_raw_bit_const(b % 32);
    }
    crate::vector3vl::lemma_words_equal_bitwise(x & !y, 0u32);
}

/// Evaluate a finite-state machine: an active asynchronous reset
/// returns to the initial state; otherwise a clock edge takes the
/// first matching transition out of the current state (or falls back
/// to the initial state).  The output OR-combines the outputs of every
/// loosely matching transition from the new state: bits on which they
/// all agree keep their value, others are X; with no match the output
/// is all-X.
pub fn fsm(args: &SigMap, state: &mut FsmState) -> (r: Result<ReturnValue, CellError>)
    requires
        args.wf(),
        args.values_wf(),
        old(state).wf(),
    ensures
        final(state).wf(),
        final(state).bits_in == old(state).bits_in,
        final(state).bits_out == old(state).bits_out,
        final(state).init_state == old(state).init_state,
        final(state).transitions == old(state).transitions,
        r is Ok <==> (args@.contains_key("arst"@) && args@.contains_key("clk"@)
            && args@.contains_key("in"@) && args@["arst"@].bits > 0 && args@["clk"@].bits > 0),
        r is Err ==> *final(state) == *old(state),
        r is Ok ==> {
            let rv = r->Ok_0;
            let ms = matches_from(
                old(state).transitions@,
                final(state).current_state,
                args@["in"@],
            );
            forall|i: nat|
                i < old(state).bits_out ==> #[trigger] rv.out->0.tri_at(i) == fsm_out_bit(ms, i)
        },
        r is Ok ==> {
            &&& args@.contains_key("arst"@)
            &&& args@.contains_key("clk"@)
            &&& args@.contains_key("in"@)
            &&& final(state).current_state == next_state(
                *old(state),
                view_tri(args@["arst"@], 0),
                view_tri(args@["clk"@], 0),
                args@["in"@],
            )
            &&& final(state).last_clk == view_tri(args@["clk"@], 0)
        },
        r is Ok ==> {
            let rv = r->Ok_0;
            &&& rv.out is Some
            &&& !rv.clock
            &&& rv.out->0.well_formed()
            &&& rv.out->0.bits == old(state).bits_out
        },
        r is Err ==> (r->Err_0 == CellError::MissingInput || r->Err_0
            == CellError::UnsupportedEncoding),
{
    let arst = match args.get("arst") {
        Some(v) => v,
        None => {
            return Err(CellError::MissingInput);
        },
    };
    let clk = match args.get("clk") {
        Some(v) => v,
        None => {
            return Err(CellError::MissingInput);
        },
    };
    let data_in = match args.get("in") {
        Some(v) => v,
        None => {
            return Err(CellError::MissingInput);
        },
    };
    if arst.bits == 0 || clk.bits == 0 {
        return Err(CellError::MissingInput);
    }
    let arst_now = arst.lsb();
    let clk_now = clk.lsb();
    let arst_active = if state.arst_polarity { 1i32 } else { -1i32 };
    let clk_active = if state.clock_polarity { 1i32 } else { -1i32 };

    let mut events: Vec<CellEvent> = Vec::new();
    let old_state_id = state.current_state;

    if arst_now == arst_active {
        state.current_state = state.init_state;
    } else if clk_now == clk_active && state.last_clk == -clk_active {
        let n = state.transitions.len();
        let mut k: usize = 0;
        let mut taken: Option<u32> = None;
        proof {
            assert(state.transitions@.subrange(0, n as int) =~= state.transitions@);
        }
        while k < n
            invariant
                k <= n,
                n == state.transitions@.len(),
                state.wf(),
                data_in.well_formed(),
                taken is None ==> first_match(
                    state.transitions@,
                    state.current_state,
                    data_in@,
                ) == first_match(
                    state.transitions@.subrange(k as int, n as int),
                    state.current_state,
                    data_in@,
                ),
                taken is Some ==> {
                    let fm = first_match(state.transitions@, state.current_state, data_in@);
                    fm is Some && fm->0.state_out == taken->0
                },
            decreases n - k,
        {
            if taken.is_none() {
                proof {
                    assert(state.transitions@.subrange(k as int, n as int)[0]
                        == state.transitions@[k as int]);
                    assert(state.transitions@.subrange(k as int, n as int).drop_first()
                        =~= state.transitions@.subrange(k as int + 1, n as int));
                }
                let t = &state.transitions[k];
                if t.state_in == state.current_state && ctrl_matches(data_in, &t.ctrl_in, false) {
                    taken = Some(t.state_out);
                }
            }
            k = k + 1;
        }
        proof {
            if taken is None {
                assert(state.transitions@.subrange(n as int, n as int)
                    =~= Seq::<FsmTransition>::empty());
            }
        }
        state.current_state = match taken {
            Some(st) => st,
            None => state.init_state,
        };
    }
    state.last_clk = clk_now;

    if state.current_state != old_state_id {
        events.push(CellEvent::FsmCurrentState { state: state.current_state });
    }

    // combine the outputs of every loosely matching transition from
    // the (possibly new) current state
    let n = state.transitions.len();
    let mut merged: Option<Vec3vl> = None;
    let mut next_trans: Option<u32> = None;
    let mut k: usize = 0;
    let ghost st_now = state.current_state;
    let ghost trs = state.transitions@;
    while k < n
        invariant
            k <= n,
            n == state.transitions@.len(),
            state.wf(),
            state.bits_in == old(state).bits_in,
            state.bits_out == old(state).bits_out,
            state.init_state == old(state).init_state,
            state.transitions == old(state).transitions,
            state.current_state == st_now,
            state.last_clk == clk_now,
            trs == state.transitions@,
            data_in.well_formed(),
            merged is Some ==> merged->0.well_formed() && merged->0.bits == state.bits_out,
            merged is None <==> matches_from(trs.take(k as int), st_now, data_in@).len() == 0,
            merged is Some ==> forall|i: nat|
                i < state.bits_out ==> #[trigger] merged->0.tri_at(i) == fsm_out_bit(
                    matches_from(trs.take(k as int), st_now, data_in@),
                    i,
                ),
        decreases n - k,
    {
        let ghost ms = matches_from(trs.take(k as int), st_now, data_in@);
        proof {
            assert(trs.take(k as int + 1).drop_last() =~= trs.take(k as int));
            assert(trs.take(k as int + 1).last() == trs[k as int]);
        }
        let t = &state.transitions[k];
        if t.state_in == state.current_state && ctrl_matches(data_in, &t.ctrl_in, true) {
            let ghost ms1 = matches_from(trs.take(k as int + 1), st_now, data_in@);
            proof {
                assert(ms1 == ms.push(trs[k as int]));
            }
            if t.ctrl_out.bits != state.bits_out {
                return Err(CellError::UnsupportedEncoding);
            }
            if next_trans.is_none() {
                next_trans = Some(t.id);
            }
            merged = match merged {
                Some(acc) => {
                    let m = merge_agree(&acc, &t.ctrl_out);
                    proof {
                        assert forall|i: nat| i < state.bits_out implies #[trigger] m.tri_at(i)
                            == fsm_out_bit(ms1, i) by {
                            let ti = view_tri(trs[k as int].ctrl_out@, i);
                            assert(ms1[0] == ms[0]);
                            assert(forall|j: int| 0 <= j < ms.len() ==> ms1[j] == ms[j]);
                            assert(ms1.last() == trs[k as int]);
                            if agree_at(ms, i) {
                                let v = view_tri(ms[0].ctrl_out@, i);
                                if v == ti {
                                    assert(agree_at(ms1, i));
                                } else {
                                    assert(view_tri(ms1[ms1.len() - 1].ctrl_out@, i) != view_tri(
                                        ms1[0].ctrl_out@,
                                        i,
                                    ));
                                    assert(!agree_at(ms1, i));
                                }
                            } else {
                                let j0 = choose|j: int|
                                    0 <= j < ms.len() && view_tri(
                                        (#[trigger] ms[j]).ctrl_out@,
                                        i,
                                    ) != view_tri(ms[0].ctrl_out@, i);
                                assert(view_tri(ms1[j0].ctrl_out@, i) != view_tri(
                                    ms1[0].ctrl_out@,
                                    i,
                                ));
                                assert(!agree_at(ms1, i));
                            }
                        }
                    }
                    Some(m)
                },
                None => {
                    let c = t.ctrl_out.clone();
                    proof {
                        assert(ms.len() == 0);
                        assert(ms1.len() == 1);
                        assert forall|i: nat| i < state.bits_out implies #[trigger] c.tri_at(i)
                            == fsm_out_bit(ms1, i) by {
                            assert(agree_at(ms1, i));
                            assert(ms1[0] == trs[k as int]);
                        }
                    }
                    Some(c)
                },
            };
        }
        k = k + 1;
    }
    proof {
        assert(trs.take(n as int) =~= trs);
    }
    events.push(CellEvent::FsmNextTrans { trans: next_trans });

    let out = match merged {
        Some(v) => v,
        None => Vec3vl::xes(state.bits_out),
    };
    ReturnValue::values_with_events(Some(out), SigMap::new(), events)
}

} // verus!

//! The D flip-flop cell: edge-triggered (or transparent) latching with
//! optional asynchronous reset, asynchronous load, set and clear.

use vstd::prelude::*;

use crate::errors::CellError;
use crate::operations::ReturnValue;
use crate::sigmap::SigMap;
use crate::vector3vl::{view_tri, Vec3vl};

verus! {

/// Which optional control inputs a flip-flop has, each with its active
/// polarity (`true` = active high / rising).
#[derive(Clone, Copy)]
pub struct PolarityOptions {
    pub aload: Option<bool>,
    pub arst: Option<bool>,
    pub clock: Option<bool>,
    pub clr: Option<bool>,
    pub enable: Option<bool>,
    pub set: Option<bool>,
}

impl PolarityOptions {
    /// Options with no control input present.
    pub fn none() -> (r: PolarityOptions)
        ensures
            r.aload is None,
            r.arst is None,
            r.clock is None,
            r.clr is None,
            r.enable is None,
            r.set is None,
    {
        PolarityOptions { aload: None, arst: None, clock: None, clr: None, enable: None, set: None }
    }
}

/// The three-valued level a polarity flag treats as active.
pub open spec fn pol(what: bool) -> i32 {
    if what {
        1
    } else {
        -1i32
    }
}

/// A clock edge in the polarity's direction: the previous level was the
/// inactive one and the current level is the active one.
pub open spec fn clock_edge(clkpol: bool, prev: i32, cur: i32) -> bool {
    cur == pol(clkpol) && prev == -pol(clkpol)
}

/// The persistent state of a D flip-flop.
pub struct DffState {
    pub arst_value: Option<String>,
    pub bits: u32,
    pub last_clk: i32,
    pub out: Vec3vl,
    pub polarity: PolarityOptions,
}

impl DffState {
    pub open spec fn wf(self) -> bool {
        self.out.well_formed()
    }

    /// A fresh flip-flop: the latch starts all-X (or at the given
    /// initial literal) and the last seen clock level is X.
    pub fn new(bits: u32, initial: Option<&str>, arst_value: Option<String>, polarity:
        PolarityOptions) -> (r: Result<DffState, CellError>)
        ensures
            r is Ok <==> (initial is None || crate::vector3vl::bin_chars_ok(initial->0@)),
            r is Ok ==> r->Ok_0.wf() && r->Ok_0.bits == bits && r->Ok_0.polarity == polarity
                && r->Ok_0.last_clk == 0i32 && r->Ok_0.out.bits == bits && r->Ok_0.arst_value
                == arst_value,
            (r is Ok && (initial is None || crate::vector3vl::bin_has_x(initial->0@)))
                ==> forall|i: nat| i < bits ==> #[trigger] r->Ok_0.out.tri_at(i) == 0i32,
            (r is Ok && initial is Some && !crate::vector3vl::bin_has_x(initial->0@)) ==> {
                let o = r->Ok_0.out;
                &&& o.all_defined()
                &&& forall|i: nat|
                    i < bits ==> #[trigger] o.abit(i) == crate::vector3vl::from_bin_bit(
                        initial->0@,
                        i,
                    )
            },
    {
        let out = match initial {
            Some(ini) => {
                match Vec3vl::from_binary(ini, Some(bits as usize)) {
                    Ok(v) => v,
                    Err(e) => {
                        return Err(e);
                    },
                }
            },
            None => Vec3vl::xes(bits),
        };
        Ok(DffState { arst_value, bits, last_clk: 0, out, polarity })
    }
}

/// The flip-flop has no set, clear, reset or load control: it is a
/// plain (possibly enabled) latch.
pub open spec fn plain_latch(p: PolarityOptions) -> bool {
    p.arst is None && p.aload is None && p.set is None && p.clr is None
}

/// Whether this evaluation latches the data input: always when no
/// clock input exists (a transparent latch), else exactly on a clock
/// edge of the configured polarity.
pub open spec fn latches(p: PolarityOptions, prev_clk: i32, clk_now: i32) -> bool {
    match p.clock {
        Option::None => true,
        Option::Some(cp) => clock_edge(cp, prev_clk, clk_now),
    }
}

/// Whether the enable input (if configured) passes.
pub open spec fn enable_passes(p: PolarityOptions, en_now: i32) -> bool {
    match p.enable {
        Option::None => true,
        Option::Some(ep) => en_now == pol(ep),
    }
}

/// Evaluate a D flip-flop.  In priority order: asynchronous reset loads
/// the reset literal and emits it under the set/clear masks,
/// asynchronous load passes `ain` through, otherwise
/// the data input is latched exactly when the clock shows an edge of
/// the configured polarity (always, for a clockless latch) and the
/// enable input passes; set and clear masks force bits high or low in
/// the emitted value.
pub fn dff(args: &SigMap, state: &mut DffState) -> (r: Result<ReturnValue, CellError>)
    requires
        args.wf(),
        args.values_wf(),
        old(state).wf(),
    ensures
        final(state).wf(),
        final(state).bits == old(state).bits,
        final(state).polarity == old(state).polarity,
        final(state).arst_value == old(state).arst_value,
        r is Ok ==> {
            let rv = r->Ok_0;
            &&& rv.out is Some
            &&& !rv.clock
        },
        (r is Ok && old(state).polarity.clock is Some) ==> args@.contains_key("clk"@)
            && final(state).last_clk == view_tri(args@["clk"@], 0),
        (r is Ok && old(state).polarity.clock is None) ==> final(state).last_clk == old(
            state,
        ).last_clk,
        plain_latch(old(state).polarity) ==> {
            let p = old(state).polarity;
            let prev = old(state).last_clk;
            let clk_now = if p.clock is Some {
                view_tri(args@["clk"@], 0)
            } else {
                prev
            };
            let en_now = if p.enable is Some {
                view_tri(args@["en"@], 0)
            } else {
                0i32
            };
            r is Ok <==> {
                &&& (p.clock is Some ==> args@.contains_key("clk"@) && args@["clk"@].bits > 0)
                &&& ((latches(p, prev, clk_now) && p.enable is Some) ==> args@.contains_key("en"@)
                    && args@["en"@].bits > 0)
                &&& ((latches(p, prev, clk_now) && enable_passes(p, en_now))
                    ==> args@.contains_key("in"@))
            }
        },
        (r is Err && plain_latch(old(state).polarity)) ==> final(state).out == old(state).out,
        (r is Ok && plain_latch(old(state).polarity)) ==> {
            let rv = r->Ok_0;
            let prev = old(state).last_clk;
            let clk_now = if old(state).polarity.clock is Some {
                view_tri(args@["clk"@], 0)
            } else {
                prev
            };
            let en_now = if old(state).polarity.enable is Some {
                view_tri(args@["en"@], 0)
            } else {
                0i32
            };
            &&& (latches(old(state).polarity, prev, clk_now) && enable_passes(
                old(state).polarity,
                en_now,
            )) ==> final(state).out@ == args@["in"@]
            &&& !(latches(old(state).polarity, prev, clk_now) && enable_passes(
                old(state).polarity,
                en_now,
            )) ==> final(state).out@ == old(state).out@
            &&& rv.out->0@ == final(state).out@
        },
        r is Err ==> (r->Err_0 == CellError::MissingInput || r->Err_0 == CellError::ParamMissing
            || r->Err_0 == CellError::UnsupportedEncoding || r->Err_0 == CellError::WidthMismatch),
{
    let ghost prev_clk = state.last_clk;
    let mut lclk: i32 = 1;
    let mut srbits: Option<Vec3vl> = None;
    let mut srbitmask: Option<Vec3vl> = None;

    let clk_now: i32 = if state.polarity.clock.is_some() {
        let clk = match args.get("clk") {
            Some(c) => c,
            None => {
                return Err(CellError::MissingInput);
            },
        };
        if clk.bits == 0 {
            return Err(CellError::MissingInput);
        }
        lclk = state.last_clk;
        let t = clk.lsb();
        state.last_clk = t;
        t
    } else {
        0
    };

    if let Some(set) = state.polarity.set {
        let data_set = match args.get("set") {
            Some(v) => v.clone(),
            None => {
                return Err(CellError::MissingInput);
            },
        };
        if set {
            srbits = Some(data_set.clone());
            srbitmask = Some(data_set.not());
        } else {
            srbits = Some(data_set.not());
            srbitmask = Some(data_set);
        }
    }

    if let Some(clr) = state.polarity.clr {
        let clr_sig = match args.get("clr") {
            Some(v) => v.clone(),
            None => {
                return Err(CellError::MissingInput);
            },
        };
        if srbits.is_none() {
            srbits = Some(Vec3vl::zeros(clr_sig.bits));
        }
        let clrbitmask = if clr {
            clr_sig.not()
        } else {
            clr_sig
        };
        srbitmask = match srbitmask {
            Some(srbm) => {
                match clrbitmask.and(&srbm) {
                    Ok(m) => Some(m),
                    Err(e) => {
                        return Err(e);
                    },
                }
            },
            None => Some(clrbitmask),
        };
    }

    if let Some(arst) = state.polarity.arst {
        let arst_sig = match args.get("arst") {
            Some(a) => a,
            None => {
                return Err(CellError::MissingInput);
            },
        };
        if arst_sig.bits == 0 {
            return Err(CellError::MissingInput);
        }
        let active = if arst { 1i32 } else { -1i32 };
        if arst_sig.lsb() == active {
            let lit = match &state.arst_value {
                Some(v) => v,
                None => {
                    return Err(CellError::ParamMissing);
                },
            };
            let parsed = match Vec3vl::from_binary(lit.as_str(), Some(state.bits as usize)) {
                Ok(v) => v,
                Err(e) => {
                    return Err(e);
                },
            };
            state.out = parsed;
            return match srbits {
                Some(srb) => {
                    let mask = match srbitmask {
                        Some(m) => m,
                        None => {
                            return Err(CellError::MissingInput);
                        },
                    };
                    let masked = match state.out.and(&mask) {
                        Ok(v) => v,
                        Err(e) => {
                            return Err(e);
                        },
                    };
                    let forced = match masked.or(&srb) {
                        Ok(v) => v,
                        Err(e) => {
                            return Err(e);
                        },
                    };
                    ReturnValue::out(forced)
                },
                None => ReturnValue::out(state.out.clone()),
            };
        }
    }

    if let Some(aload) = state.polarity.aload {
        let aload_sig = match args.get("aload") {
            Some(a) => a,
            None => {
                return Err(CellError::MissingInput);
            },
        };
        if aload_sig.bits == 0 {
            return Err(CellError::MissingInput);
        }
        let active = if aload { 1i32 } else { -1i32 };
        if aload_sig.lsb() == active {
            let ain = match args.get("ain") {
                Some(a) => a,
                None => {
                    return Err(CellError::MissingInput);
                },
            };
            return ReturnValue::out(ain.clone());
        }
    }

    let should_latch: bool = match state.polarity.clock {
        None => true,
        Some(cp) => {
            let active = if cp { 1i32 } else { -1i32 };
            clk_now == active && lclk == -active
        },
    };
    if should_latch {
        let enable_ok: bool = match state.polarity.enable {
            None => true,
            Some(ep) => {
                let en = match args.get("en") {
                    Some(e) => e,
                    None => {
                        return Err(CellError::MissingInput);
                    },
                };
                if en.bits == 0 {
                    return Err(CellError::MissingInput);
                }
                let active = if ep { 1i32 } else { -1i32 };
                en.lsb() == active
            },
        };
        if enable_ok {
            let input = match args.get("in") {
                Some(v) => v,
                None => {
                    return Err(CellError::MissingInput);
                },
            };
            state.out = input.clone();
        }
    }

    match srbits {
        Some(srb) => {
            let mask = match srbitmask {
                Some(m) => m,
                None => {
                    return Err(CellError::MissingInput);
                },
            };
            let masked = match state.out.and(&mask) {
                Ok(v) => v,
                Err(e) => {
                    return Err(e);
                },
            };
            let forced = match masked.or(&srb) {
                Ok(v) => v,
                Err(e) => {
                    return Err(e);
                },
            };
            ReturnValue::out(forced)
        },
        None => ReturnValue::out(state.out.clone()),
    }
}

} // verus!

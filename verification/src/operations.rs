//! What a cell evaluation hands back to the scheduler: output signals,
//! a clock flag (the cell asks to run again next tick) and the host events
//! it raised.

use vstd::prelude::*;

use crate::cell_arith;
use crate::cell_bus::ExtendKind;
use crate::cell_dff::{DffState, PolarityOptions};
use crate::cell_fsm::{FsmState, FsmTempStruct};
use crate::cell_gates::{GateBinop, GateMonop, GateReduceOp};
use crate::cell_memory::{MemInit, MemoryPortPolarity, MemoryState};
use crate::cell_mux::MuxKind;
use crate::errors::CellError;
use crate::gate::SliceOptions;
use crate::sigmap::SigMap;
use crate::vector3vl::{str_eq, Vec3vl};

verus! {

/// A host notification raised from inside a cell evaluation.  The
/// scheduler collects these and the embedding delivers them.
pub enum CellEvent {
    /// A memory word changed: its address and the written value.
    MemoryUpdate { addr: u32, bits: u32, avec: Vec<u32>, bvec: Vec<u32> },
    /// A finite-state machine moved to a new current state.
    FsmCurrentState { state: u32 },
    /// The transition a finite-state machine would take next changed.
    FsmNextTrans { trans: Option<u32> },
}

/// The result of one cell evaluation.
pub struct ReturnValue {
    pub out: Option<Vec3vl>,
    pub others: SigMap,
    pub clock: bool,
    pub events: Vec<CellEvent>,
}

impl ReturnValue {
    /// A single `out` signal.
    pub fn out(val: Vec3vl) -> (r: Result<ReturnValue, crate::errors::CellError>)
        ensures
            r is Ok,
            ({
                let rv = r->Ok_0;
                &&& rv.out == Option::Some(val)
                &&& rv.others.entries@.len() == 0
                &&& rv.others.wf()
                &&& !rv.clock
                &&& rv.events@.len() == 0
            }),
    {
        Ok(ReturnValue { out: Some(val), others: SigMap::new(), clock: false, events: Vec::new() })
    }

    /// A single `out` signal from a clock step: after consuming it the
    /// scheduler queues the cell again.
    pub fn clock(val: Vec3vl) -> (r: Result<ReturnValue, crate::errors::CellError>)
        ensures
            r is Ok,
            ({
                let rv = r->Ok_0;
                &&& rv.out == Option::Some(val)
                &&& rv.others.entries@.len() == 0
                &&& rv.others.wf()
                &&& rv.clock
                &&& rv.events@.len() == 0
            }),
    {
        Ok(ReturnValue { out: Some(val), others: SigMap::new(), clock: true, events: Vec::new() })
    }

    /// An optional `out` signal plus further named outputs.
    pub fn values(out: Option<Vec3vl>, others: SigMap) -> (r: Result<
        ReturnValue,
        crate::errors::CellError,
    >)
        ensures
            r is Ok,
            ({
                let rv = r->Ok_0;
                &&& rv.out == out
                &&& rv.others == others
                &&& !rv.clock
                &&& rv.events@.len() == 0
            }),
    {
        Ok(ReturnValue { out, others, clock: false, events: Vec::new() })
    }

    /// As [`ReturnValue::values`], with host events attached.
    pub fn values_with_events(out: Option<Vec3vl>, others: SigMap, events: Vec<CellEvent>) -> (r:
        Result<ReturnValue, crate::errors::CellError>)
        ensures
            r is Ok,
            ({
                let rv = r->Ok_0;
                &&& rv.out == out
                &&& rv.others == others
                &&& !rv.clock
                &&& rv.events == events
            }),
    {
        Ok(ReturnValue { out, others, clock: false, events })
    }

    /// The single `out` signal, if the evaluation produced one.
    pub fn get_out(&self) -> (r: Option<&Vec3vl>)
        ensures
            r is Some <==> self.out is Some,
            r is Some ==> *r->0 == self.out->0,
    {
        match &self.out {
            Some(v) => Some(v),
            None => None,
        }
    }

    /// Whether this was a clock step.
    pub fn is_clock(&self) -> (r: bool)
        ensures
            r == self.clock,
    {
        self.clock
    }

    /// The further named output signals, in insertion order.
    pub fn signals_iter(&self) -> (r: &SigMap)
        ensures
            r == &self.others,
    {
        &self.others
    }
}


/// The plain gate-parameter payload a host hands over when it creates
/// a gate.
pub struct GateParams {
    pub bits: Option<u32>,
    pub bits_in: Option<u32>,
    pub bits_sel: Option<u32>,
    pub bits_out: Option<u32>,
    pub arst_value: Option<String>,
    pub initial: Option<String>,
    pub net: Option<String>,
    pub label: Option<String>,
    pub propagation: Option<u32>,
    pub slice: Option<SliceOptions>,
    pub polarity: Option<PolarityOptions>,
    pub left_op: Option<bool>,
    pub constant_num: Option<i32>,
    pub constant_str: Option<String>,
    pub abits: Option<u32>,
    pub offset: Option<u32>,
    pub words: Option<u32>,
    pub memdata: Option<Vec<MemInit>>,
    pub rdports: Option<Vec<MemoryPortPolarity>>,
    pub wrports: Option<Vec<MemoryPortPolarity>>,
    pub init_state: Option<u32>,
    pub trans_table: Option<Vec<FsmTempStruct>>,
    pub extend_input: Option<u32>,
    pub extend_output: Option<u32>,
    pub sign_in1: Option<bool>,
    pub sign_in2: Option<bool>,
    pub sign_in: Option<bool>,
    pub groups: Option<Vec<u32>>,
    pub inputs: Option<Vec<String>>,
}

impl GateParams {
    /// Parameters with every field absent.
    pub fn empty() -> (r: GateParams)
        ensures
            r.propagation is None,
            r.net is None,
    {
        GateParams {
            bits: None,
            bits_in: None,
            bits_sel: None,
            bits_out: None,
            arst_value: None,
            initial: None,
            net: None,
            label: None,
            propagation: None,
            slice: None,
            polarity: None,
            left_op: None,
            constant_num: None,
            constant_str: None,
            abits: None,
            offset: None,
            words: None,
            memdata: None,
            rdports: None,
            wrports: None,
            init_state: None,
            trans_table: None,
            extend_input: None,
            extend_output: None,
            sign_in1: None,
            sign_in2: None,
            sign_in: None,
            groups: None,
            inputs: None,
        }
    }
}

/// A unary arithmetic operation kind.
pub enum MonopKind {
    Negation,
    UnaryPlus,
}

/// A binary arithmetic operation kind.
pub enum ArithKind {
    Add,
    Sub,
    Mul,
    Div,
    Mod,
    Pow,
}

/// A shift direction.
pub enum ShiftKind {
    Left,
    Right,
}

/// A comparison kind.
pub enum CompKind {
    Lt,
    Le,
    Gt,
    Ge,
    CmpEq,
    CmpNe,
}

/// The operation a gate performs, selected by its cell type, together
/// with the operation's parameters and persistent state.
pub enum Operation {
    Arith11(MonopKind, u32),
    Arith21(ArithKind, u32, (bool, bool)),
    Shift(ShiftKind, u32, (bool, bool)),
    ArithConst(ArithKind, i32, bool, u32, bool),
    ShiftConst(ShiftKind, i32, bool, u32, bool),
    Comp(CompKind, (bool, bool)),
    CompConst(CompKind, i32, bool, bool),
    BitExtend(ExtendKind, u32),
    BusGroup,
    BusUngroup(Vec<u32>),
    BusSlice(SliceOptions),
    Clock(bool),
    Constant(Vec3vl),
    Dff(DffState),
    Fsm(FsmState),
    Gate11(GateMonop),
    GateX1(GateBinop),
    GateReduce(GateReduceOp),
    Mux(u32, MuxKind),
    MuxSparse(u32, Vec<(String, String)>),
    Memory(MemoryState),
    Noop,
}

/// The cell-type names the library knows.
pub open spec fn known_cell_name(n: Seq<char>) -> bool {
    ||| n == "Repeater"@
    ||| n == "Not"@
    ||| n == "And"@
    ||| n == "Or"@
    ||| n == "Xor"@
    ||| n == "Nand"@
    ||| n == "Nor"@
    ||| n == "Xnor"@
    ||| n == "AndReduce"@
    ||| n == "OrReduce"@
    ||| n == "XorReduce"@
    ||| n == "NandReduce"@
    ||| n == "NorReduce"@
    ||| n == "XnorReduce"@
    ||| n == "Clock"@
    ||| n == "NumEntry"@
    ||| n == "NumDisplay"@
    ||| n == "Button"@
    ||| n == "Lamp"@
    ||| n == "Input"@
    ||| n == "Output"@
    ||| n == "Subcircuit"@
    ||| n == "ZeroExtend"@
    ||| n == "SignExtend"@
    ||| n == "BusSlice"@
    ||| n == "BusGroup"@
    ||| n == "BusUngroup"@
    ||| n == "Constant"@
    ||| n == "Dff"@
    ||| n == "FSM"@
    ||| n == "Lt"@
    ||| n == "Le"@
    ||| n == "Gt"@
    ||| n == "Ge"@
    ||| n == "Eq"@
    ||| n == "Ne"@
    ||| n == "LtConst"@
    ||| n == "LeConst"@
    ||| n == "GtConst"@
    ||| n == "GeConst"@
    ||| n == "EqConst"@
    ||| n == "NeConst"@
    ||| n == "Negation"@
    ||| n == "UnaryPlus"@
    ||| n == "Addition"@
    ||| n == "Subtraction"@
    ||| n == "Multiplication"@
    ||| n == "Division"@
    ||| n == "Modulo"@
    ||| n == "Power"@
    ||| n == "ShiftLeft"@
    ||| n == "ShiftRight"@
    ||| n == "AdditionConst"@
    ||| n == "SubtractionConst"@
    ||| n == "MultiplicationConst"@
    ||| n == "DivisionConst"@
    ||| n == "ModuloConst"@
    ||| n == "PowerConst"@
    ||| n == "ShiftLeftConst"@
    ||| n == "ShiftRightConst"@
    ||| n == "Mux"@
    ||| n == "Mux1Hot"@
    ||| n == "MuxSparse"@
    ||| n == "Memory"@
}

impl Operation {
    /// The operation's persistent state is well formed.
    pub open spec fn wf(self) -> bool {
        match self {
            Operation::Dff(s) => s.wf(),
            Operation::Fsm(s) => s.wf(),
            Operation::Memory(s) => s.wf(),
            Operation::Constant(v) => v.well_formed(),
            _ => true,
        }
    }

    /// Build the operation a cell-type name selects, reading its
    /// parameters from the payload.  An unrecognized name fails with
    /// the unknown-cell-type error.
    #[verifier::rlimit(100)]
    #[verifier::spinoff_prover]
    pub fn from_name(name: &str, gate_params: GateParams) -> (r: Result<Operation, CellError>)
        ensures
            r is Ok ==> r->Ok_0.wf(),
            name@ == "Repeater"@ ==> r == Result::<Operation, CellError>::Ok(
                Operation::Gate11(GateMonop::Repeater),
            ),
            name@ == "Not"@ ==> r == Result::<Operation, CellError>::Ok(
                Operation::Gate11(GateMonop::Not),
            ),
            name@ == "And"@ ==> r == Result::<Operation, CellError>::Ok(
                Operation::GateX1(GateBinop::And),
            ),
            name@ == "Or"@ ==> r == Result::<Operation, CellError>::Ok(
                Operation::GateX1(GateBinop::Or),
            ),
            name@ == "Xor"@ ==> r == Result::<Operation, CellError>::Ok(
                Operation::GateX1(GateBinop::Xor),
            ),
            name@ == "Nand"@ ==> r == Result::<Operation, CellError>::Ok(
                Operation::GateX1(GateBinop::Nand),
            ),
            name@ == "Nor"@ ==> r == Result::<Operation, CellError>::Ok(
                Operation::GateX1(GateBinop::Nor),
            ),
            name@ == "Xnor"@ ==> r == Result::<Operation, CellError>::Ok(
                Operation::GateX1(GateBinop::Xnor),
            ),
            name@ == "AndReduce"@ ==> r == Result::<Operation, CellError>::Ok(
                Operation::GateReduce(GateReduceOp::And),
            ),
            name@ == "OrReduce"@ ==> r == Result::<Operation, CellError>::Ok(
                Operation::GateReduce(GateReduceOp::Or),
            ),
            name@ == "XorReduce"@ ==> r == Result::<Operation, CellError>::Ok(
                Operation::GateReduce(GateReduceOp::Xor),
            ),
            name@ == "NandReduce"@ ==> r == Result::<Operation, CellError>::Ok(
                Operation::GateReduce(GateReduceOp::Nand),
            ),
            name@ == "NorReduce"@ ==> r == Result::<Operation, CellError>::Ok(
                Operation::GateReduce(GateReduceOp::Nor),
            ),
            name@ == "XnorReduce"@ ==> r == Result::<Operation, CellError>::Ok(
                Operation::GateReduce(GateReduceOp::Xnor),
            ),
            name@ == "BusGroup"@ ==> r == Result::<Operation, CellError>::Ok(Operation::BusGroup),
            name@ == "Clock"@ ==> r == Result::<Operation, CellError>::Ok(Operation::Clock(false)),
            name@ == "Dff"@ ==> (r is Ok ==> r->Ok_0 is Dff),
            name@ == "FSM"@ ==> (r is Ok ==> r->Ok_0 is Fsm),
            name@ == "Memory"@ ==> (r is Ok ==> r->Ok_0 is Memory),
            (name@ == "NumEntry"@ || name@ == "NumDisplay"@ || name@ == "Button"@ || name@
                == "Lamp"@ || name@ == "Input"@ || name@ == "Output"@ || name@ == "Subcircuit"@)
                ==> r == Result::<Operation, CellError>::Ok(Operation::Noop),
            name@ == "Negation"@ ==> (r is Ok && r->Ok_0 is Arith11 && r->Ok_0->Arith11_0
                == MonopKind::Negation),
            name@ == "UnaryPlus"@ ==> (r is Ok && r->Ok_0 is Arith11 && r->Ok_0->Arith11_0
                == MonopKind::UnaryPlus),
            name@ == "Addition"@ ==> (r is Ok && r->Ok_0 is Arith21 && r->Ok_0->Arith21_0
                == ArithKind::Add),
            name@ == "Subtraction"@ ==> (r is Ok && r->Ok_0 is Arith21 && r->Ok_0->Arith21_0
                == ArithKind::Sub),
            name@ == "Multiplication"@ ==> (r is Ok && r->Ok_0 is Arith21 && r->Ok_0->Arith21_0
                == ArithKind::Mul),
            name@ == "Division"@ ==> (r is Ok && r->Ok_0 is Arith21 && r->Ok_0->Arith21_0
                == ArithKind::Div),
            name@ == "Modulo"@ ==> (r is Ok && r->Ok_0 is Arith21 && r->Ok_0->Arith21_0
                == ArithKind::Mod),
            name@ == "Power"@ ==> (r is Ok && r->Ok_0 is Arith21 && r->Ok_0->Arith21_0
                == ArithKind::Pow),
            name@ == "ShiftLeft"@ ==> (r is Ok && r->Ok_0 is Shift && r->Ok_0->Shift_0
                == ShiftKind::Left),
            name@ == "ShiftRight"@ ==> (r is Ok && r->Ok_0 is Shift && r->Ok_0->Shift_0
                == ShiftKind::Right),
            name@ == "AdditionConst"@ ==> (r is Ok && r->Ok_0 is ArithConst
                && r->Ok_0->ArithConst_0 == ArithKind::Add),
            name@ == "SubtractionConst"@ ==> (r is Ok && r->Ok_0 is ArithConst
                && r->Ok_0->ArithConst_0 == ArithKind::Sub),
            name@ == "MultiplicationConst"@ ==> (r is Ok && r->Ok_0 is ArithConst
                && r->Ok_0->ArithConst_0 == ArithKind::Mul),
            name@ == "DivisionConst"@ ==> (r is Ok && r->Ok_0 is ArithConst
                && r->Ok_0->ArithConst_0 == ArithKind::Div),
            name@ == "ModuloConst"@ ==> (r is Ok && r->Ok_0 is ArithConst
                && r->Ok_0->ArithConst_0 == ArithKind::Mod),
            name@ == "PowerConst"@ ==> (r is Ok && r->Ok_0 is ArithConst
                && r->Ok_0->ArithConst_0 == ArithKind::Pow),
            name@ == "ShiftLeftConst"@ ==> (r is Ok && r->Ok_0 is ShiftConst
                && r->Ok_0->ShiftConst_0 == ShiftKind::Left),
            name@ == "ShiftRightConst"@ ==> (r is Ok && r->Ok_0 is ShiftConst
                && r->Ok_0->ShiftConst_0 == ShiftKind::Right),
            name@ == "Lt"@ ==> (r is Ok && r->Ok_0 is Comp && r->Ok_0->Comp_0 == CompKind::Lt),
            name@ == "Le"@ ==> (r is Ok && r->Ok_0 is Comp && r->Ok_0->Comp_0 == CompKind::Le),
            name@ == "Gt"@ ==> (r is Ok && r->Ok_0 is Comp && r->Ok_0->Comp_0 == CompKind::Gt),
            name@ == "Ge"@ ==> (r is Ok && r->Ok_0 is Comp && r->Ok_0->Comp_0 == CompKind::Ge),
            name@ == "Eq"@ ==> (r is Ok && r->Ok_0 is Comp && r->Ok_0->Comp_0 == CompKind::CmpEq),
            name@ == "Ne"@ ==> (r is Ok && r->Ok_0 is Comp && r->Ok_0->Comp_0 == CompKind::CmpNe),
            name@ == "LtConst"@ ==> (r is Ok && r->Ok_0 is CompConst && r->Ok_0->CompConst_0
                == CompKind::Lt),
            name@ == "LeConst"@ ==> (r is Ok && r->Ok_0 is CompConst && r->Ok_0->CompConst_0
                == CompKind::Le),
            name@ == "GtConst"@ ==> (r is Ok && r->Ok_0 is CompConst && r->Ok_0->CompConst_0
                == CompKind::Gt),
            name@ == "GeConst"@ ==> (r is Ok && r->Ok_0 is CompConst && r->Ok_0->CompConst_0
                == CompKind::Ge),
            name@ == "EqConst"@ ==> (r is Ok && r->Ok_0 is CompConst && r->Ok_0->CompConst_0
                == CompKind::CmpEq),
            name@ == "NeConst"@ ==> (r is Ok && r->Ok_0 is CompConst && r->Ok_0->CompConst_0
                == CompKind::CmpNe),
            name@ == "ZeroExtend"@ ==> (r is Ok && r->Ok_0 is BitExtend && r->Ok_0->BitExtend_0
                == ExtendKind::Zero),
            name@ == "SignExtend"@ ==> (r is Ok && r->Ok_0 is BitExtend && r->Ok_0->BitExtend_0
                == ExtendKind::Sign),
            name@ == "BusSlice"@ ==> (r is Ok && r->Ok_0 is BusSlice),
            name@ == "BusUngroup"@ ==> (r is Ok && r->Ok_0 is BusUngroup),
            name@ == "Constant"@ ==> (r is Ok ==> r->Ok_0 is Constant),
            name@ == "MuxSparse"@ ==> (r is Ok ==> r->Ok_0 is MuxSparse),
            name@ == "Mux"@ ==> (r is Ok && r->Ok_0 is Mux && r->Ok_0->Mux_1 == MuxKind::Binary),
            name@ == "Mux1Hot"@ ==> (r is Ok && r->Ok_0 is Mux && r->Ok_0->Mux_1
                == MuxKind::OneHot),
            !known_cell_name(name@) ==> r == Result::<Operation, CellError>::Err(
                CellError::UnknownCellType,
            ),
    {
        proof {
            reveal_strlit("Repeater");
            assert("Repeater"@ =~= seq!['R', 'e', 'p', 'e', 'a', 't', 'e', 'r']);
            reveal_strlit("Not");
            assert("Not"@ =~= seq!['N', 'o', 't']);
            reveal_strlit("And");
            assert("And"@ =~= seq!['A', 'n', 'd']);
            reveal_strlit("Or");
            assert("Or"@ =~= seq!['O', 'r']);
            reveal_strlit("Xor");
            assert("Xor"@ =~= seq!['X', 'o', 'r']);
            reveal_strlit("Nand");
            assert("Nand"@ =~= seq!['N', 'a', 'n', 'd']);
            reveal_strlit("Nor");
            assert("Nor"@ =~= seq!['N', 'o', 'r']);
            reveal_strlit("Xnor");
            assert("Xnor"@ =~= seq!['X', 'n', 'o', 'r']);
            reveal_strlit("AndReduce");
            assert("AndReduce"@ =~= seq!['A', 'n', 'd', 'R', 'e', 'd', 'u', 'c', 'e']);
            reveal_strlit("OrReduce");
            assert("OrReduce"@ =~= seq!['O', 'r', 'R', 'e', 'd', 'u', 'c', 'e']);
            reveal_strlit("XorReduce");
            assert("XorReduce"@ =~= seq!['X', 'o', 'r', 'R', 'e', 'd', 'u', 'c', 'e']);
            reveal_strlit("NandReduce");
            assert("NandReduce"@ =~= seq!['N', 'a', 'n', 'd', 'R', 'e', 'd', 'u', 'c', 'e']);
            reveal_strlit("NorReduce");
            assert("NorReduce"@ =~= seq!['N', 'o', 'r', 'R', 'e', 'd', 'u', 'c', 'e']);
            reveal_strlit("XnorReduce");
            assert("XnorReduce"@ =~= seq!['X', 'n', 'o', 'r', 'R', 'e', 'd', 'u', 'c', 'e']);
            reveal_strlit("Clock");
            assert("Clock"@ =~= seq!['C', 'l', 'o', 'c', 'k']);
            reveal_strlit("NumEntry");
            assert("NumEntry"@ =~= seq!['N', 'u', 'm', 'E', 'n', 't', 'r', 'y']);
            reveal_strlit("NumDisplay");
            assert("NumDisplay"@ =~= seq!['N', 'u', 'm', 'D', 'i', 's', 'p', 'l', 'a', 'y']);
            reveal_strlit("Button");
            assert("Button"@ =~= seq!['B', 'u', 't', 't', 'o', 'n']);
            reveal_strlit("Lamp");
            assert("Lamp"@ =~= seq!['L', 'a', 'm', 'p']);
            reveal_strlit("Input");
            assert("Input"@ =~= seq!['I', 'n', 'p', 'u', 't']);
            reveal_strlit("Output");
            assert("Output"@ =~= seq!['O', 'u', 't', 'p', 'u', 't']);
            reveal_strlit("Subcircuit");
            assert("Subcircuit"@ =~= seq!['S', 'u', 'b', 'c', 'i', 'r', 'c', 'u', 'i', 't']);
            reveal_strlit("ZeroExtend");
            assert("ZeroExtend"@ =~= seq!['Z', 'e', 'r', 'o', 'E', 'x', 't', 'e', 'n', 'd']);
            reveal_strlit("SignExtend");
            assert("SignExtend"@ =~= seq!['S', 'i', 'g', 'n', 'E', 'x', 't', 'e', 'n', 'd']);
            reveal_strlit("BusSlice");
            assert("BusSlice"@ =~= seq!['B', 'u', 's', 'S', 'l', 'i', 'c', 'e']);
            reveal_strlit("BusGroup");
            assert("BusGroup"@ =~= seq!['B', 'u', 's', 'G', 'r', 'o', 'u', 'p']);
            reveal_strlit("BusUngroup");
            assert("BusUngroup"@ =~= seq!['B', 'u', 's', 'U', 'n', 'g', 'r', 'o', 'u', 'p']);
            reveal_strlit("Constant");
            assert("Constant"@ =~= seq!['C', 'o', 'n', 's', 't', 'a', 'n', 't']);
            reveal_strlit("Dff");
            assert("Dff"@ =~= seq!['D', 'f', 'f']);
            reveal_strlit("FSM");
            assert("FSM"@ =~= seq!['F', 'S', 'M']);
            reveal_strlit("Lt");
            assert("Lt"@ =~= seq!['L', 't']);
            reveal_strlit("Le");
            assert("Le"@ =~= seq!['L', 'e']);
            reveal_strlit("Gt");
            assert("Gt"@ =~= seq!['G', 't']);
            reveal_strlit("Ge");
            assert("Ge"@ =~= seq!['G', 'e']);
            reveal_strlit("Eq");
            assert("Eq"@ =~= seq!['E', 'q']);
            reveal_strlit("Ne");
            assert("Ne"@ =~= seq!['N', 'e']);
            reveal_strlit("LtConst");
            assert("LtConst"@ =~= seq!['L', 't', 'C', 'o', 'n', 's', 't']);
            reveal_strlit("LeConst");
            assert("LeConst"@ =~= seq!['L', 'e', 'C', 'o', 'n', 's', 't']);
            reveal_strlit("GtConst");
            assert("GtConst"@ =~= seq!['G', 't', 'C', 'o', 'n', 's', 't']);
            reveal_strlit("GeConst");
            assert("GeConst"@ =~= seq!['G', 'e', 'C', 'o', 'n', 's', 't']);
            reveal_strlit("EqConst");
            assert("EqConst"@ =~= seq!['E', 'q', 'C', 'o', 'n', 's', 't']);
            reveal_strlit("NeConst");
            assert("NeConst"@ =~= seq!['N', 'e', 'C', 'o', 'n', 's', 't']);
            reveal_strlit("Negation");
            assert("Negation"@ =~= seq!['N', 'e', 'g', 'a', 't', 'i', 'o', 'n']);
            reveal_strlit("UnaryPlus");
            assert("UnaryPlus"@ =~= seq!['U', 'n', 'a', 'r', 'y', 'P', 'l', 'u', 's']);
            reveal_strlit("Addition");
            assert("Addition"@ =~= seq!['A', 'd', 'd', 'i', 't', 'i', 'o', 'n']);
            reveal_strlit("Subtraction");
            assert("Subtraction"@ =~= seq!['S', 'u', 'b', 't', 'r', 'a', 'c', 't', 'i', 'o', 'n']);
            reveal_strlit("Multiplication");
            assert("Multiplication"@ =~= seq!['M', 'u', 'l', 't', 'i', 'p', 'l', 'i', 'c', 'a', 't', 'i', 'o', 'n']);
            reveal_strlit("Division");
            assert("Division"@ =~= seq!['D', 'i', 'v', 'i', 's', 'i', 'o', 'n']);
            reveal_strlit("Modulo");
            assert("Modulo"@ =~= seq!['M', 'o', 'd', 'u', 'l', 'o']);
            reveal_strlit("Power");
            assert("Power"@ =~= seq!['P', 'o', 'w', 'e', 'r']);
            reveal_strlit("ShiftLeft");
            assert("ShiftLeft"@ =~= seq!['S', 'h', 'i', 'f', 't', 'L', 'e', 'f', 't']);
            reveal_strlit("ShiftRight");
            assert("ShiftRight"@ =~= seq!['S', 'h', 'i', 'f', 't', 'R', 'i', 'g', 'h', 't']);
            reveal_strlit("AdditionConst");
            assert("AdditionConst"@ =~= seq!['A', 'd', 'd', 'i', 't', 'i', 'o', 'n', 'C', 'o', 'n', 's', 't']);
            reveal_strlit("SubtractionConst");
            assert("SubtractionConst"@ =~= seq!['S', 'u', 'b', 't', 'r', 'a', 'c', 't', 'i', 'o', 'n', 'C', 'o', 'n', 's', 't']);
            reveal_strlit("MultiplicationConst");
            assert("MultiplicationConst"@ =~= seq!['M', 'u', 'l', 't', 'i', 'p', 'l', 'i', 'c', 'a', 't', 'i', 'o', 'n', 'C', 'o', 'n', 's', 't']);
            reveal_strlit("DivisionConst");
            assert("DivisionConst"@ =~= seq!['D', 'i', 'v', 'i', 's', 'i', 'o', 'n', 'C', 'o', 'n', 's', 't']);
            reveal_strlit("ModuloConst");
            assert("ModuloConst"@ =~= seq!['M', 'o', 'd', 'u', 'l', 'o', 'C', 'o', 'n', 's', 't']);
            reveal_strlit("PowerConst");
            assert("PowerConst"@ =~= seq!['P', 'o', 'w', 'e', 'r', 'C', 'o', 'n', 's', 't']);
            reveal_strlit("ShiftLeftConst");
            assert("ShiftLeftConst"@ =~= seq!['S', 'h', 'i', 'f', 't', 'L', 'e', 'f', 't', 'C', 'o', 'n', 's', 't']);
            reveal_strlit("ShiftRightConst");
            assert("ShiftRightConst"@ =~= seq!['S', 'h', 'i', 'f', 't', 'R', 'i', 'g', 'h', 't', 'C', 'o', 'n', 's', 't']);
            reveal_strlit("Mux");
            assert("Mux"@ =~= seq!['M', 'u', 'x']);
            reveal_strlit("Mux1Hot");
            assert("Mux1Hot"@ =~= seq!['M', 'u', 'x', '1', 'H', 'o', 't']);
            reveal_strlit("MuxSparse");
            assert("MuxSparse"@ =~= seq!['M', 'u', 'x', 'S', 'p', 'a', 'r', 's', 'e']);
            reveal_strlit("Memory");
            assert("Memory"@ =~= seq!['M', 'e', 'm', 'o', 'r', 'y']);
        }
        if str_eq(name, "Repeater") {
            Ok(Operation::Gate11(GateMonop::Repeater))
        } else if str_eq(name, "Not") {
            Ok(Operation::Gate11(GateMonop::Not))
        } else if str_eq(name, "And") {
            Ok(Operation::GateX1(GateBinop::And))
        } else if str_eq(name, "Or") {
            Ok(Operation::GateX1(GateBinop::Or))
        } else if str_eq(name, "Xor") {
            Ok(Operation::GateX1(GateBinop::Xor))
        } else if str_eq(name, "Nand") {
            Ok(Operation::GateX1(GateBinop::Nand))
        } else if str_eq(name, "Nor") {
            Ok(Operation::GateX1(GateBinop::Nor))
        } else if str_eq(name, "Xnor") {
            Ok(Operation::GateX1(GateBinop::Xnor))
        } else if str_eq(name, "AndReduce") {
            Ok(Operation::GateReduce(GateReduceOp::And))
        } else if str_eq(name, "OrReduce") {
            Ok(Operation::GateReduce(GateReduceOp::Or))
        } else if str_eq(name, "XorReduce") {
            Ok(Operation::GateReduce(GateReduceOp::Xor))
        } else if str_eq(name, "NandReduce") {
            Ok(Operation::GateReduce(GateReduceOp::Nand))
        } else if str_eq(name, "NorReduce") {
            Ok(Operation::GateReduce(GateReduceOp::Nor))
        } else if str_eq(name, "XnorReduce") {
            Ok(Operation::GateReduce(GateReduceOp::Xnor))
        } else if str_eq(name, "Clock") {
            Ok(Operation::Clock(false))
        } else if str_eq(name, "NumEntry") || str_eq(name, "NumDisplay") || str_eq(name, "Button")
            || str_eq(name, "Lamp") || str_eq(name, "Input") || str_eq(name, "Output") || str_eq(
            name,
            "Subcircuit",
        ) {
            Ok(Operation::Noop)
        } else if str_eq(name, "ZeroExtend") {
            let ext = extend_width(&gate_params);
            Ok(Operation::BitExtend(ExtendKind::Zero, ext))
        } else if str_eq(name, "SignExtend") {
            let ext = extend_width(&gate_params);
            Ok(Operation::BitExtend(ExtendKind::Sign, ext))
        } else if str_eq(name, "BusSlice") {
            Ok(Operation::BusSlice(SliceOptions::new(&gate_params)))
        } else if str_eq(name, "BusGroup") {
            Ok(Operation::BusGroup)
        } else if str_eq(name, "BusUngroup") {
            let groups = match gate_params.groups {
                Some(g) => g,
                None => {
                    let mut v: Vec<u32> = Vec::new();
                    v.push(1);
                    v
                },
            };
            Ok(Operation::BusUngroup(groups))
        } else if str_eq(name, "Constant") {
            build_constant(&gate_params)
        } else if str_eq(name, "Dff") {
            build_dff(&gate_params)
        } else if str_eq(name, "FSM") {
            build_fsm(&gate_params)
        } else if str_eq(name, "Lt") {
            Ok(Operation::Comp(CompKind::Lt, sign_pair(&gate_params)))
        } else if str_eq(name, "Le") {
            Ok(Operation::Comp(CompKind::Le, sign_pair(&gate_params)))
        } else if str_eq(name, "Gt") {
            Ok(Operation::Comp(CompKind::Gt, sign_pair(&gate_params)))
        } else if str_eq(name, "Ge") {
            Ok(Operation::Comp(CompKind::Ge, sign_pair(&gate_params)))
        } else if str_eq(name, "Eq") {
            Ok(Operation::Comp(CompKind::CmpEq, sign_pair(&gate_params)))
        } else if str_eq(name, "Ne") {
            Ok(Operation::Comp(CompKind::CmpNe, sign_pair(&gate_params)))
        } else if str_eq(name, "LtConst") {
            Ok(comp_const(CompKind::Lt, &gate_params))
        } else if str_eq(name, "LeConst") {
            Ok(comp_const(CompKind::Le, &gate_params))
        } else if str_eq(name, "GtConst") {
            Ok(comp_const(CompKind::Gt, &gate_params))
        } else if str_eq(name, "GeConst") {
            Ok(comp_const(CompKind::Ge, &gate_params))
        } else if str_eq(name, "EqConst") {
            Ok(comp_const(CompKind::CmpEq, &gate_params))
        } else if str_eq(name, "NeConst") {
            Ok(comp_const(CompKind::CmpNe, &gate_params))
        } else if str_eq(name, "Negation") {
            Ok(Operation::Arith11(MonopKind::Negation, bits_out_of(&gate_params)))
        } else if str_eq(name, "UnaryPlus") {
            Ok(Operation::Arith11(MonopKind::UnaryPlus, bits_out_of(&gate_params)))
        } else if str_eq(name, "Addition") {
            Ok(Operation::Arith21(ArithKind::Add, bits_out_of(&gate_params), sign_pair(&gate_params)))
        } else if str_eq(name, "Subtraction") {
            Ok(Operation::Arith21(ArithKind::Sub, bits_out_of(&gate_params), sign_pair(&gate_params)))
        } else if str_eq(name, "Multiplication") {
            Ok(Operation::Arith21(ArithKind::Mul, bits_out_of(&gate_params), sign_pair(&gate_params)))
        } else if str_eq(name, "Division") {
            Ok(Operation::Arith21(ArithKind::Div, bits_out_of(&gate_params), sign_pair(&gate_params)))
        } else if str_eq(name, "Modulo") {
            Ok(Operation::Arith21(ArithKind::Mod, bits_out_of(&gate_params), sign_pair(&gate_params)))
        } else if str_eq(name, "Power") {
            Ok(Operation::Arith21(ArithKind::Pow, bits_out_of(&gate_params), sign_pair(&gate_params)))
        } else if str_eq(name, "ShiftLeft") {
            Ok(Operation::Shift(ShiftKind::Left, bits_out_of(&gate_params), sign_pair(&gate_params)))
        } else if str_eq(name, "ShiftRight") {
            Ok(Operation::Shift(ShiftKind::Right, bits_out_of(&gate_params), sign_pair(&gate_params)))
        } else if str_eq(name, "AdditionConst") {
            Ok(arith_const(ArithKind::Add, &gate_params))
        } else if str_eq(name, "SubtractionConst") {
            Ok(arith_const(ArithKind::Sub, &gate_params))
        } else if str_eq(name, "MultiplicationConst") {
            Ok(arith_const(ArithKind::Mul, &gate_params))
        } else if str_eq(name, "DivisionConst") {
            Ok(arith_const(ArithKind::Div, &gate_params))
        } else if str_eq(name, "ModuloConst") {
            Ok(arith_const(ArithKind::Mod, &gate_params))
        } else if str_eq(name, "PowerConst") {
            Ok(arith_const(ArithKind::Pow, &gate_params))
        } else if str_eq(name, "ShiftLeftConst") {
            Ok(shift_const(ShiftKind::Left, &gate_params))
        } else if str_eq(name, "ShiftRightConst") {
            Ok(shift_const(ShiftKind::Right, &gate_params))
        } else if str_eq(name, "Mux") {
            Ok(Operation::Mux(bits_in_of(&gate_params), MuxKind::Binary))
        } else if str_eq(name, "Mux1Hot") {
            Ok(Operation::Mux(bits_in_of(&gate_params), MuxKind::OneHot))
        } else if str_eq(name, "MuxSparse") {
            build_mux_sparse(&gate_params)
        } else if str_eq(name, "Memory") {
            build_memory(&gate_params)
        } else {
            Err(CellError::UnknownCellType)
        }
    }

    /// Evaluate the operation on the given named inputs.
    pub fn op(&mut self, args: &SigMap) -> (r: Result<ReturnValue, CellError>)
        requires
            args.wf(),
            args.values_wf(),
            old(self).wf(),
        ensures
            final(self).wf(),
            ((*old(self)) is Noop) ==> (*final(self) == *old(self) && r is Ok && r->Ok_0.out is None
                && !r->Ok_0.clock),
            ((*old(self)) is Clock && r is Ok) ==> r->Ok_0.clock,
    {
        proof {
            crate::sigmap::lemma_values_wf_entries(*args);
        }
        match self {
            Operation::Arith11(kind, bits_out) => {
                match kind {
                    MonopKind::Negation => cell_arith::arith_monop::<cell_arith::Negation>(
                        args,
                        *bits_out,
                    ),
                    MonopKind::UnaryPlus => cell_arith::arith_monop::<cell_arith::UnaryPlus>(
                        args,
                        *bits_out,
                    ),
                }
            },
            Operation::Arith21(kind, bits, sgn) => {
                match kind {
                    ArithKind::Add => cell_arith::arith_binop::<cell_arith::Add>(args, *bits, *sgn),
                    ArithKind::Sub => cell_arith::arith_binop::<cell_arith::Sub>(args, *bits, *sgn),
                    ArithKind::Mul => cell_arith::arith_binop::<cell_arith::Mul>(args, *bits, *sgn),
                    ArithKind::Div => cell_arith::arith_binop::<cell_arith::Div>(args, *bits, *sgn),
                    ArithKind::Mod => cell_arith::arith_binop::<cell_arith::Mod>(args, *bits, *sgn),
                    ArithKind::Pow => cell_arith::arith_binop::<cell_arith::Pow>(args, *bits, *sgn),
                }
            },
            Operation::Shift(kind, bits, sgn) => {
                match kind {
                    ShiftKind::Left => cell_arith::arith_shift::<
                        cell_arith::Shl,
                        cell_arith::Shr,
                    >(args, *bits, *sgn),
                    ShiftKind::Right => cell_arith::arith_shift::<
                        cell_arith::Shr,
                        cell_arith::Shl,
                    >(args, *bits, *sgn),
                }
            },
            Operation::ArithConst(kind, constant, left_op, bits, sgn) => {
                match kind {
                    ArithKind::Add => cell_arith::arith_const_binop::<cell_arith::Add>(
                        args,
                        *constant,
                        *left_op,
                        *bits,
                        *sgn,
                    ),
                    ArithKind::Sub => cell_arith::arith_const_binop::<cell_arith::Sub>(
                        args,
                        *constant,
                        *left_op,
                        *bits,
                        *sgn,
                    ),
                    ArithKind::Mul => cell_arith::arith_const_binop::<cell_arith::Mul>(
                        args,
                        *constant,
                        *left_op,
                        *bits,
                        *sgn,
                    ),
                    ArithKind::Div => cell_arith::arith_const_binop::<cell_arith::Div>(
                        args,
                        *constant,
                        *left_op,
                        *bits,
                        *sgn,
                    ),
                    ArithKind::Mod => cell_arith::arith_const_binop::<cell_arith::Mod>(
                        args,
                        *constant,
                        *left_op,
                        *bits,
                        *sgn,
                    ),
                    ArithKind::Pow => cell_arith::arith_const_binop::<cell_arith::Pow>(
                        args,
                        *constant,
                        *left_op,
                        *bits,
                        *sgn,
                    ),
                }
            },
            Operation::ShiftConst(kind, constant, left_op, bits, sgn) => {
                match kind {
                    ShiftKind::Left => cell_arith::arith_shift_const::<
                        cell_arith::Shl,
                        cell_arith::Shr,
                    >(args, *constant, *left_op, *bits, *sgn),
                    ShiftKind::Right => cell_arith::arith_shift_const::<
                        cell_arith::Shr,
                        cell_arith::Shl,
                    >(args, *constant, *left_op, *bits, *sgn),
                }
            },
            Operation::Comp(kind, sgn) => {
                match kind {
                    CompKind::Lt => cell_arith::arith_comp::<cell_arith::Lt>(args, *sgn),
                    CompKind::Le => cell_arith::arith_comp::<cell_arith::Le>(args, *sgn),
                    CompKind::Gt => cell_arith::arith_comp::<cell_arith::Gt>(args, *sgn),
                    CompKind::Ge => cell_arith::arith_comp::<cell_arith::Ge>(args, *sgn),
                    CompKind::CmpEq => cell_arith::arith_comp::<cell_arith::Eq>(args, *sgn),
                    CompKind::CmpNe => cell_arith::arith_comp::<cell_arith::Ne>(args, *sgn),
                }
            },
            Operation::CompConst(kind, constant, left_op, sgn) => {
                match kind {
                    CompKind::Lt => cell_arith::arith_const_comp::<cell_arith::Lt>(
                        args,
                        *constant,
                        *left_op,
                        *sgn,
                    ),
                    CompKind::Le => cell_arith::arith_const_comp::<cell_arith::Le>(
                        args,
                        *constant,
                        *left_op,
                        *sgn,
                    ),
                    CompKind::Gt => cell_arith::arith_const_comp::<cell_arith::Gt>(
                        args,
                        *constant,
                        *left_op,
                        *sgn,
                    ),
                    CompKind::Ge => cell_arith::arith_const_comp::<cell_arith::Ge>(
                        args,
                        *constant,
                        *left_op,
                        *sgn,
                    ),
                    CompKind::CmpEq => cell_arith::arith_const_comp::<cell_arith::Eq>(
                        args,
                        *constant,
                        *left_op,
                        *sgn,
                    ),
                    CompKind::CmpNe => cell_arith::arith_const_comp::<cell_arith::Ne>(
                        args,
                        *constant,
                        *left_op,
                        *sgn,
                    ),
                }
            },
            Operation::BitExtend(kind, ext) => crate::cell_bus::bit_extend(args, kind, *ext),
            Operation::BusGroup => crate::cell_bus::bus_group(args),
            Operation::BusUngroup(groups) => crate::cell_bus::bus_ungroup(args, groups),
            Operation::BusSlice(options) => crate::cell_bus::bus_slice(
                args,
                options.first,
                options.count,
            ),
            Operation::Constant(value) => crate::cell_io::constant(value),
            Operation::Clock(clock_val) => crate::cell_io::clock(clock_val),
            Operation::Dff(state) => crate::cell_dff::dff(args, state),
            Operation::Fsm(state) => crate::cell_fsm::fsm(args, state),
            Operation::Gate11(op) => crate::cell_gates::gate_11(args, op),
            Operation::GateX1(op) => crate::cell_gates::gate_x1(args, op),
            Operation::GateReduce(op) => crate::cell_gates::gate_reduce(args, op),
            Operation::Mux(bits, kind) => crate::cell_mux::mux_op(args, *bits, kind),
            Operation::MuxSparse(bits, map) => crate::cell_mux::sparse_mux_op(args, *bits, map),
            Operation::Memory(state) => crate::cell_memory::memory_op(args, state),
            Operation::Noop => ReturnValue::values(None, SigMap::new()),
        }
    }

    /// A short name for the operation family.
    pub fn get_type(&self) -> (r: &'static str)
    {
        match self {
            Operation::Arith11(_, _) => "Arith11",
            Operation::Arith21(_, _, _) => "Arith21",
            Operation::Shift(_, _, _) => "Shift",
            Operation::ArithConst(_, _, _, _, _) => "ArithConst",
            Operation::ShiftConst(_, _, _, _, _) => "ShiftConst",
            Operation::Comp(_, _) => "Comp",
            Operation::CompConst(_, _, _, _) => "CompConst",
            Operation::BitExtend(_, _) => "BitExtend",
            Operation::BusGroup => "BusGroup",
            Operation::BusUngroup(_) => "BusUngroup",
            Operation::BusSlice(_) => "BusSlice",
            Operation::Clock(_) => "Clock",
            Operation::Constant(_) => "Constant",
            Operation::Dff(_) => "DFF",
            Operation::Fsm(_) => "FSM",
            Operation::Gate11(_) => "Gate11",
            Operation::GateX1(_) => "GateX1",
            Operation::GateReduce(_) => "GateReduce",
            Operation::Mux(_, _) => "Mux",
            Operation::MuxSparse(_, _) => "MuxSparse",
            Operation::Memory(_) => "Memory",
            Operation::Noop => "Noop",
        }
    }
}

/// A constant cell from the parameters: its binary literal parsed at
/// its own width.  The literal is mandatory.
pub fn build_constant(p: &GateParams) -> (r: Result<Operation, CellError>)
    ensures
        r is Ok ==> r->Ok_0.wf() && r->Ok_0 is Constant,
        p.constant_str is None ==> r == Result::<Operation, CellError>::Err(
            CellError::ParamMissing,
        ),
{
    let lit = match &p.constant_str {
        Some(sv) => sv.clone(),
        None => {
            return Err(CellError::ParamMissing);
        },
    };
    let value = match Vec3vl::from_binary(lit.as_str(), None) {
        Ok(v) => v,
        Err(e) => {
            return Err(e);
        },
    };
    Ok(Operation::Constant(value))
}

/// A flip-flop from the parameters.
pub fn build_dff(p: &GateParams) -> (r: Result<Operation, CellError>)
    ensures
        r is Ok ==> r->Ok_0.wf() && r->Ok_0 is Dff,
{
    let bits = match p.bits {
        Some(b) => b,
        None => 1,
    };
    let polarity = match p.polarity {
        Some(pp) => pp,
        None => PolarityOptions::none(),
    };
    let initial: Option<&str> = match &p.initial {
        Some(i) => Some(i.as_str()),
        None => None,
    };
    let arst_value = match &p.arst_value {
        Some(v) => Some(v.clone()),
        None => None,
    };
    let st = match DffState::new(bits, initial, arst_value, polarity) {
        Ok(st) => st,
        Err(e) => {
            return Err(e);
        },
    };
    Ok(Operation::Dff(st))
}

/// A finite-state machine from the parameters; clock and reset
/// polarities and a transition table are mandatory.
pub fn build_fsm(p: &GateParams) -> (r: Result<Operation, CellError>)
    ensures
        r is Ok ==> r->Ok_0.wf() && r->Ok_0 is Fsm,
{
    let bits_in = match p.bits_in {
        Some(b) => b,
        None => 1,
    };
    let bits_out = match p.bits_out {
        Some(b) => b,
        None => 1,
    };
    let polarity = match p.polarity {
        Some(pp) => pp,
        None => PolarityOptions::none(),
    };
    let clock_pol = match polarity.clock {
        Some(c) => c,
        None => {
            return Err(CellError::ParamMissing);
        },
    };
    let arst_pol = match polarity.arst {
        Some(a) => a,
        None => {
            return Err(CellError::ParamMissing);
        },
    };
    let init_state = match p.init_state {
        Some(i) => i,
        None => 0,
    };
    let table = match &p.trans_table {
        Some(t) => t,
        None => {
            return Err(CellError::ParamMissing);
        },
    };
    let st = match FsmState::new(bits_in, bits_out, clock_pol, arst_pol, init_state, table) {
        Ok(st) => st,
        Err(e) => {
            return Err(e);
        },
    };
    Ok(Operation::Fsm(st))
}

/// A sparse multiplexer from the parameters: selector renderings map
/// to numbered input ports in order.
pub fn build_mux_sparse(p: &GateParams) -> (r: Result<Operation, CellError>)
    ensures
        r is Ok ==> r->Ok_0.wf() && r->Ok_0 is MuxSparse,
{
    let bits = bits_in_of(p);
    let mut map: Vec<(String, String)> = Vec::new();
    let keys = match &p.inputs {
        Some(k) => k,
        None => {
            return Err(CellError::ParamMissing);
        },
    };
    let mut idx: usize = 0;
    while idx < keys.len()
        invariant
            idx <= keys@.len(),
        decreases keys@.len() - idx,
    {
        if idx > u32::MAX as usize {
            return Err(CellError::UnsupportedEncoding);
        }
        let port = crate::names::numbered_name("in", idx as u32);
        map.push((keys[idx].clone(), port));
        idx = idx + 1;
    }
    Ok(Operation::MuxSparse(bits, map))
}

/// A memory from the parameters; the address width is mandatory and
/// bounds the default word count.
pub fn build_memory(p: &GateParams) -> (r: Result<Operation, CellError>)
    ensures
        r is Ok ==> r->Ok_0.wf() && r->Ok_0 is Memory,
{
    let bits = match p.bits {
        Some(b) => b,
        None => 1,
    };
    let abits = match p.abits {
        Some(a) => a,
        None => {
            return Err(CellError::ParamMissing);
        },
    };
    let offset = match p.offset {
        Some(o) => o,
        None => 0,
    };
    let words = match p.words {
        Some(w) => w,
        None => {
            if abits >= 32 {
                return Err(CellError::UnsupportedEncoding);
            }
            1u32 << abits
        },
    };
    let memdata_empty: Vec<MemInit> = Vec::new();
    let rdports = match &p.rdports {
        Some(ports) => clone_rdports(ports),
        None => Vec::new(),
    };
    let wrports = match &p.wrports {
        Some(ports) => clone_rdports(ports),
        None => Vec::new(),
    };
    let st = match &p.memdata {
        Some(m) => {
            match MemoryState::new(bits, abits, offset, words, m, rdports, wrports) {
                Ok(st) => st,
                Err(e) => {
                    return Err(e);
                },
            }
        },
        None => {
            match MemoryState::new(bits, abits, offset, words, &memdata_empty, rdports, wrports) {
                Ok(st) => st,
                Err(e) => {
                    return Err(e);
                },
            }
        },
    };
    Ok(Operation::Memory(st))
}

/// Copy a port-configuration list.
pub fn clone_rdports(ports: &Vec<MemoryPortPolarity>) -> (r: Vec<MemoryPortPolarity>)
{
    let mut out: Vec<MemoryPortPolarity> = Vec::new();
    let n = ports.len();
    let mut i: usize = 0;
    while i < n
        invariant
            i <= n,
            n == ports@.len(),
        decreases n - i,
    {
        let q = &ports[i];
        let srst_value = match &q.srst_value {
            Some(v) => Some(v.clone()),
            None => None,
        };
        let arst_value = match &q.arst_value {
            Some(v) => Some(v.clone()),
            None => None,
        };
        out.push(
            MemoryPortPolarity {
                enable: q.enable,
                clock: q.clock,
                transparent: q.transparent,
                collision: q.collision,
                srst: q.srst,
                srst_enable: q.srst_enable,
                srst_value,
                arst: q.arst,
                arst_value,
            },
        );
        i = i + 1;
    }
    out
}

/// The high-bit count a width-extension cell adds.
pub fn extend_width(p: &GateParams) -> (r: u32)
{
    let input = match p.extend_input {
        Some(i) => i,
        None => 1,
    };
    let output = match p.extend_output {
        Some(o) => o,
        None => 1,
    };
    if output >= input {
        output - input
    } else {
        0
    }
}

/// The declared output width, defaulting to one bit.
pub fn bits_out_of(p: &GateParams) -> (r: u32)
{
    match p.bits_out {
        Some(b) => b,
        None => 1,
    }
}

/// The declared input width, defaulting to one bit.
pub fn bits_in_of(p: &GateParams) -> (r: u32)
{
    match p.bits_in {
        Some(b) => b,
        None => 1,
    }
}

/// The signedness flags of the two operands.
pub fn sign_pair(p: &GateParams) -> (r: (bool, bool))
{
    let a = match p.sign_in1 {
        Some(s) => s,
        None => false,
    };
    let b = match p.sign_in2 {
        Some(s) => s,
        None => false,
    };
    (a, b)
}

/// A constant-operand arithmetic operation from the parameters.
pub fn arith_const(kind: ArithKind, p: &GateParams) -> (r: Operation)
    ensures
        r is ArithConst,
        r->ArithConst_0 == kind,
{
    let constant = match p.constant_num {
        Some(c) => c,
        None => 0,
    };
    let left_op = match p.left_op {
        Some(l) => l,
        None => false,
    };
    let sgn = match p.sign_in {
        Some(s) => s,
        None => false,
    };
    let bits = match p.bits_out {
        Some(b) => b,
        None => 1,
    };
    Operation::ArithConst(kind, constant, left_op, bits, sgn)
}

/// A constant-operand shift operation from the parameters.
pub fn shift_const(kind: ShiftKind, p: &GateParams) -> (r: Operation)
    ensures
        r is ShiftConst,
        r->ShiftConst_0 == kind,
{
    let constant = match p.constant_num {
        Some(c) => c,
        None => 0,
    };
    let left_op = match p.left_op {
        Some(l) => l,
        None => false,
    };
    let sgn = match p.sign_in {
        Some(s) => s,
        None => false,
    };
    let bits = match p.bits_out {
        Some(b) => b,
        None => 1,
    };
    Operation::ShiftConst(kind, constant, left_op, bits, sgn)
}

/// A constant-operand comparison from the parameters.
pub fn comp_const(kind: CompKind, p: &GateParams) -> (r: Operation)
    ensures
        r is CompConst,
        r->CompConst_0 == kind,
{
    let constant = match p.constant_num {
        Some(c) => c,
        None => 0,
    };
    let left_op = match p.left_op {
        Some(l) => l,
        None => false,
    };
    let sgn = match p.sign_in {
        Some(s) => s,
        None => false,
    };
    Operation::CompConst(kind, constant, left_op, sgn)
}


} // verus!



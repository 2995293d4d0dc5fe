//! Cell-level scenarios: gates, X propagation, arithmetic, selection,
//! flip-flops and memories on concrete values.

use logicsim3::cell_arith::{arith_binop, arith_comp, arith_shift_const, Add, Lt, Shl, Shr};
use logicsim3::errors::CellError;
use logicsim3::operations::Operation;
use logicsim3::cell_bus::{bit_extend, bus_group, bus_slice, ExtendKind};
use logicsim3::cell_fsm::{fsm, FsmState, FsmTempStruct};
use logicsim3::cell_mux::sparse_mux_op;
use logicsim3::engine::Engine;
use logicsim3::gate::PortParams;
use logicsim3::operations::GateParams;
use logicsim3::cell_dff::{dff, DffState, PolarityOptions};
use logicsim3::cell_gates::{gate_x1, GateBinop};
use logicsim3::cell_memory::{memory_op, MemoryPortPolarity, MemoryState};
use logicsim3::cell_mux::{mux_op, MuxKind};
use logicsim3::sigmap::SigMap;
use logicsim3::vector3vl::Vec3vl;

fn args_of(pairs: Vec<(&str, Vec3vl)>) -> SigMap {
    let mut m = SigMap::new();
    for (k, v) in pairs {
        m.insert(k.to_string(), v);
    }
    m
}

fn bin(s: &str) -> Vec3vl {
    Vec3vl::from_binary(s, None).unwrap()
}

#[test]
fn and_gate_on_nibbles() {
    let args = args_of(vec![("in0", bin("1010")), ("in1", bin("1100"))]);
    let rv = gate_x1(&args, &GateBinop::And).unwrap();
    let out = rv.get_out().unwrap();
    assert!(*out == bin("1000"));
}

#[test]
fn and_gate_propagates_x() {
    let args = args_of(vec![("in0", bin("1x10")), ("in1", bin("1111"))]);
    let rv = gate_x1(&args, &GateBinop::And).unwrap();
    let mut out = rv.get_out().unwrap().clone();
    out.normalize();
    let mut want = bin("1x10");
    want.normalize();
    assert!(out == want);

    let args2 = args_of(vec![("in0", bin("0x10")), ("in1", bin("1111"))]);
    let rv2 = gate_x1(&args2, &GateBinop::And).unwrap();
    let mut out2 = rv2.get_out().unwrap().clone();
    out2.normalize();
    let mut want2 = bin("0x10");
    want2.normalize();
    assert!(out2 == want2);
}

#[test]
fn adder_wraps_at_width() {
    let args = args_of(vec![("in1", bin("1111")), ("in2", bin("0001"))]);
    let rv = arith_binop::<Add>(&args, 4, (false, false)).unwrap();
    let out = rv.get_out().unwrap();
    assert_eq!(out.bits, 4);
    assert_eq!(out.get_number().unwrap(), 0);
}

#[test]
fn wide_addition_uses_big_integers() {
    // 2^40 - 1 plus one carries through all forty bits
    let a = Vec3vl::from_hex("ffffffffff", Some(40)).unwrap();
    let one = Vec3vl::from_number(1, 40);
    let args = args_of(vec![("in1", a), ("in2", one)]);
    let rv = arith_binop::<Add>(&args, 40, (false, false)).unwrap();
    let out = rv.get_out().unwrap();
    assert_eq!(out.to_hex(), "0000000000");
    // and without the wrap the carry is visible one bit higher
    let a2 = Vec3vl::from_hex("ffffffffff", Some(40)).unwrap();
    let one2 = Vec3vl::from_number(1, 40);
    let args2 = args_of(vec![("in1", a2), ("in2", one2)]);
    let rv2 = arith_binop::<Add>(&args2, 41, (false, false)).unwrap();
    let out2 = rv2.get_out().unwrap();
    assert_eq!(out2.to_hex(), "10000000000");
}

#[test]
fn wide_comparison_uses_big_integers() {
    let a = Vec3vl::from_hex("0fffffffff", Some(40)).unwrap();
    let b = Vec3vl::from_hex("8000000000", Some(40)).unwrap();
    let args = args_of(vec![("in1", a), ("in2", b)]);
    let rv = arith_comp::<Lt>(&args, (false, false)).unwrap();
    assert_eq!(rv.get_out().unwrap().get(0), 1);
}

#[test]
fn mux_one_hot_ambiguous_is_x() {
    let args = args_of(vec![
        ("sel", bin("0110")),
        ("in1", bin("0001")),
        ("in2", bin("0010")),
        ("in3", bin("0100")),
        ("in4", bin("1000")),
    ]);
    let rv = mux_op(&args, 4, &MuxKind::OneHot).unwrap();
    let out = rv.get_out().unwrap();
    assert_eq!(out.bits, 4);
    for i in 0..4 {
        assert_eq!(out.get(i), 0);
    }
}

#[test]
fn mux_binary_picks_by_value() {
    let args = args_of(vec![
        ("sel", bin("10")),
        ("in0", bin("0001")),
        ("in1", bin("0010")),
        ("in2", bin("0100")),
        ("in3", bin("1000")),
    ]);
    let rv = mux_op(&args, 4, &MuxKind::Binary).unwrap();
    assert!(*rv.get_out().unwrap() == bin("0100"));
}

#[test]
fn dff_latches_once_per_rising_edge() {
    let polarity = PolarityOptions {
        clock: Some(true),
        ..PolarityOptions::none()
    };
    let mut state = DffState::new(8, None, None, polarity).unwrap();

    // clock low: nothing latches
    let args = args_of(vec![("in", bin("00001111")), ("clk", bin("0"))]);
    let rv = dff(&args, &mut state).unwrap();
    assert_eq!(rv.get_out().unwrap().get(0), 0);

    // rising edge: the input is latched
    let args = args_of(vec![("in", bin("00001111")), ("clk", bin("1"))]);
    let rv = dff(&args, &mut state).unwrap();
    assert!(*rv.get_out().unwrap() == bin("00001111"));

    // clock stays high: a new input does not latch
    let args = args_of(vec![("in", bin("11110000")), ("clk", bin("1"))]);
    let rv = dff(&args, &mut state).unwrap();
    assert!(*rv.get_out().unwrap() == bin("00001111"));

    // falling edge keeps the value, next rising edge takes the update
    let args = args_of(vec![("in", bin("11110000")), ("clk", bin("0"))]);
    let rv = dff(&args, &mut state).unwrap();
    assert!(*rv.get_out().unwrap() == bin("00001111"));
    let args = args_of(vec![("in", bin("11110000")), ("clk", bin("1"))]);
    let rv = dff(&args, &mut state).unwrap();
    assert!(*rv.get_out().unwrap() == bin("11110000"));
}

#[test]
fn memory_write_then_read() {
    // 8 x 4 memory: one rising-edge, enable-high write port and one
    // combinational read port
    let wr = MemoryPortPolarity {
        enable: Some(true),
        clock: Some(true),
        ..MemoryPortPolarity::plain()
    };
    let rd = MemoryPortPolarity::plain();
    let mut state =
        MemoryState::new(4, 3, 0, 8, &Vec::new(), vec![rd], vec![wr]).unwrap();

    // clock low: nothing written yet
    let args = args_of(vec![
        ("wr0addr", bin("010")),
        ("wr0data", bin("1011")),
        ("wr0en", bin("1111")),
        ("wr0clk", bin("0")),
        ("rd0addr", bin("010")),
    ]);
    let rv = memory_op(&args, &mut state).unwrap();
    assert!(rv.events.is_empty());

    // rising edge: the word is written and the update event raised
    let args = args_of(vec![
        ("wr0addr", bin("010")),
        ("wr0data", bin("1011")),
        ("wr0en", bin("1111")),
        ("wr0clk", bin("1")),
        ("rd0addr", bin("010")),
    ]);
    let rv = memory_op(&args, &mut state).unwrap();
    assert_eq!(rv.events.len(), 1);
    let mut read = rv.signals_iter().get("rd0data").unwrap().clone();
    read.normalize();
    assert!(read == bin("1011"));
}

#[test]
fn wide_arithmetic_family() {
    let wide = |n: u32| {
        let mut v = Vec3vl::from_number(n, 40);
        v.normalize();
        v
    };
    let run = |rv: logicsim3::operations::ReturnValue| rv.get_out().unwrap().to_hex();

    let args = args_of(vec![("in1", wide(256)), ("in2", wide(3))]);
    assert_eq!(
        run(arith_binop::<logicsim3::cell_arith::Sub>(&args, 40, (false, false)).unwrap()),
        "00000000fd"
    );
    let args = args_of(vec![("in1", wide(256)), ("in2", wide(3))]);
    assert_eq!(
        run(arith_binop::<logicsim3::cell_arith::Mul>(&args, 40, (false, false)).unwrap()),
        "0000000300"
    );
    let args = args_of(vec![("in1", wide(256)), ("in2", wide(3))]);
    assert_eq!(
        run(arith_binop::<logicsim3::cell_arith::Div>(&args, 40, (false, false)).unwrap()),
        "0000000055"
    );
    let args = args_of(vec![("in1", wide(256)), ("in2", wide(3))]);
    assert_eq!(
        run(arith_binop::<logicsim3::cell_arith::Mod>(&args, 40, (false, false)).unwrap()),
        "0000000001"
    );
    let args = args_of(vec![("in1", wide(256)), ("in2", wide(3))]);
    assert_eq!(
        run(arith_binop::<logicsim3::cell_arith::Pow>(&args, 40, (false, false)).unwrap()),
        "0001000000"
    );
}

#[test]
fn wide_shifts() {
    let mut a = Vec3vl::from_number(256, 40);
    a.normalize();
    let amount = Vec3vl::from_number(4, 8);
    let args = args_of(vec![("in1", a.clone()), ("in2", amount.clone())]);
    let rv = logicsim3::cell_arith::arith_shift::<
        logicsim3::cell_arith::Shl,
        logicsim3::cell_arith::Shr,
    >(&args, 40, (false, false))
    .unwrap();
    assert_eq!(rv.get_out().unwrap().to_hex(), "0000001000");
    let args = args_of(vec![("in1", a), ("in2", amount)]);
    let rv = logicsim3::cell_arith::arith_shift::<
        logicsim3::cell_arith::Shr,
        logicsim3::cell_arith::Shl,
    >(&args, 40, (false, false))
    .unwrap();
    assert_eq!(rv.get_out().unwrap().to_hex(), "0000000010");
}

#[test]
fn wide_equality() {
    let mut a = Vec3vl::from_number(77, 40);
    a.normalize();
    let args = args_of(vec![("in1", a.clone()), ("in2", a.clone())]);
    let rv = arith_comp::<logicsim3::cell_arith::Eq>(&args, (false, false)).unwrap();
    assert_eq!(rv.get_out().unwrap().get(0), 1);
    let mut b = Vec3vl::from_number(78, 40);
    b.normalize();
    let args = args_of(vec![("in1", a), ("in2", b)]);
    let rv = arith_comp::<logicsim3::cell_arith::Ne>(&args, (false, false)).unwrap();
    assert_eq!(rv.get_out().unwrap().get(0), 1);
}

#[test]
fn division_by_zero_returns_the_numerator() {
    let args = args_of(vec![("in1", bin("0110")), ("in2", bin("0000"))]);
    let rv = arith_binop::<logicsim3::cell_arith::Div>(&args, 4, (false, false)).unwrap();
    assert!(*rv.get_out().unwrap() == Vec3vl::from_number(0b0110, 4));
}

#[test]
fn width_mismatch_is_rejected() {
    assert!(Vec3vl::ones(3).and(&Vec3vl::ones(4)).is_err());
}

#[test]
fn signed_comparison_uses_sign_extension() {
    // 1111 as signed 4-bit is -1, which is below 0001
    let args = args_of(vec![("in1", bin("1111")), ("in2", bin("0001"))]);
    let rv = arith_comp::<Lt>(&args, (true, true)).unwrap();
    assert_eq!(rv.get_out().unwrap().get(0), 1);
    // unsigned it is 15, which is not
    let args = args_of(vec![("in1", bin("1111")), ("in2", bin("0001"))]);
    let rv = arith_comp::<Lt>(&args, (false, false)).unwrap();
    assert_eq!(rv.get_out().unwrap().get(0), -1);
}

#[test]
fn gate_queued_once_per_tick() {
    let mut e = Engine::new();
    e.add_graph("g".to_string());
    let ports = vec![PortParams {
        id: "out".to_string(),
        dir: "out".to_string(),
        bits: 1,
        avec: vec![0],
        bvec: vec![1],
    }];
    e.add_gate("g".to_string(), "c".to_string(), "Clock".to_string(), GateParams::empty(), ports)
        .unwrap();
    // queuing the same gate again at the same tick keeps one entry
    e.enqueue("g".to_string(), "c".to_string()).unwrap();
    e.enqueue("g".to_string(), "c".to_string()).unwrap();
    assert_eq!(e.queue.len(), 1);
    assert_eq!(e.queue[0].1.len(), 1);
}

#[test]
fn bus_cells_move_bits_around() {
    // slice
    let args = args_of(vec![("in", bin("110101"))]);
    let rv = bus_slice(&args, 1, 3).unwrap();
    let mut out = rv.get_out().unwrap().clone();
    out.normalize();
    assert!(out == bin("010"));
    // group: in0 is the least significant side
    let args = args_of(vec![("in0", bin("01")), ("in1", bin("11"))]);
    let rv = bus_group(&args).unwrap();
    let mut out = rv.get_out().unwrap().clone();
    out.normalize();
    assert!(out == bin("1101"));
    // zero- and sign-extension
    let args = args_of(vec![("in", bin("10"))]);
    let rv = bit_extend(&args, &ExtendKind::Zero, 2).unwrap();
    let mut out = rv.get_out().unwrap().clone();
    out.normalize();
    assert!(out == bin("0010"));
    let args = args_of(vec![("in", bin("10"))]);
    let rv = bit_extend(&args, &ExtendKind::Sign, 2).unwrap();
    let mut out = rv.get_out().unwrap().clone();
    out.normalize();
    assert!(out == bin("1110"));
}

#[test]
fn fsm_toggles_between_two_states() {
    let table = vec![
        FsmTempStruct {
            ctrl_in: "1".to_string(),
            ctrl_out: "0".to_string(),
            state_in: 0,
            state_out: 1,
        },
        FsmTempStruct {
            ctrl_in: "1".to_string(),
            ctrl_out: "1".to_string(),
            state_in: 1,
            state_out: 0,
        },
    ];
    let mut state = FsmState::new(1, 1, true, true, 0, &table).unwrap();
    // reset inactive, clock low
    let args = args_of(vec![("arst", bin("0")), ("clk", bin("0")), ("in", bin("1"))]);
    let rv = fsm(&args, &mut state).unwrap();
    assert_eq!(state.current_state, 0);
    assert_eq!(rv.get_out().unwrap().get(0), -1);
    // rising edge: move to state one, whose matching row emits one
    let args = args_of(vec![("arst", bin("0")), ("clk", bin("1")), ("in", bin("1"))]);
    let rv = fsm(&args, &mut state).unwrap();
    assert_eq!(state.current_state, 1);
    assert_eq!(rv.get_out().unwrap().get(0), 1);
    // reset returns to the initial state
    let args = args_of(vec![("arst", bin("1")), ("clk", bin("1")), ("in", bin("1"))]);
    fsm(&args, &mut state).unwrap();
    assert_eq!(state.current_state, 0);
}

#[test]
fn sparse_mux_selects_by_hex_rendering() {
    let map = vec![
        ("2".to_string(), "in0".to_string()),
        ("5".to_string(), "in1".to_string()),
    ];
    let args = args_of(vec![
        ("sel", bin("0101")),
        ("in0", bin("01")),
        ("in1", bin("10")),
    ]);
    let rv = sparse_mux_op(&args, 2, &map).unwrap();
    assert!(*rv.get_out().unwrap() == bin("10"));
    // an unmapped rendering gives all-X of the declared width
    let args = args_of(vec![
        ("sel", bin("0011")),
        ("in0", bin("01")),
        ("in1", bin("10")),
    ]);
    let rv = sparse_mux_op(&args, 2, &map).unwrap();
    assert_eq!(rv.get_out().unwrap().get(0), 0);
    assert_eq!(rv.get_out().unwrap().get(1), 0);
}

#[test]
fn shift_const_data_side_keeps_direction_for_unsigned_amounts() {
    // the constant 3 is the data; the 4-bit input 1000 (eight) is the amount
    let args = args_of(vec![("in", bin("1000"))]);
    let rv = arith_shift_const::<Shl, Shr>(&args, 3, true, 12, false).unwrap();
    let out = rv.get_out().unwrap();
    assert_eq!(out.get_number().unwrap(), 3 << 8);
}

#[test]
fn shift_const_data_side_reverses_on_signed_negative_amount() {
    // with a signed amount the 4-bit 1000 reads as minus eight: the
    // left shift turns into a right shift
    let args = args_of(vec![("in", bin("1000"))]);
    let rv = arith_shift_const::<Shl, Shr>(&args, 3, true, 12, true).unwrap();
    let out = rv.get_out().unwrap();
    assert_eq!(out.get_number().unwrap(), 0);
}

#[test]
fn constant_without_literal_is_param_missing() {
    let r = Operation::from_name("Constant", GateParams::empty());
    assert!(matches!(r, Err(CellError::ParamMissing)));
}

#[test]
fn mux_selector_beyond_u32_is_unsupported() {
    let sel = Vec3vl::from_hex("100000000", Some(36)).unwrap();
    let args = args_of(vec![("sel", sel), ("in0", bin("0001"))]);
    let r = mux_op(&args, 4, &MuxKind::Binary);
    assert!(matches!(r, Err(CellError::UnsupportedEncoding)));
}

#[test]
fn dff_reset_applies_clear_mask() {
    let polarity = PolarityOptions {
        clock: Some(true),
        arst: Some(true),
        clr: Some(true),
        ..PolarityOptions::none()
    };
    let mut state = DffState::new(4, None, Some("1111".to_string()), polarity).unwrap();
    let args = args_of(vec![
        ("clk", bin("0")),
        ("arst", bin("1")),
        ("clr", bin("0100")),
    ]);
    let rv = dff(&args, &mut state).unwrap();
    let out = rv.get_out().unwrap();
    assert_eq!(out.get_number().unwrap(), 0b1011);
}

#[test]
fn memory_read_port_resets() {
    // a rising-edge read port with both resets configured
    let rd = MemoryPortPolarity {
        clock: Some(true),
        srst: Some(true),
        srst_value: Some("0101".to_string()),
        arst: Some(true),
        arst_value: Some("0011".to_string()),
        ..MemoryPortPolarity::plain()
    };
    let mut state = MemoryState::new(4, 3, 0, 8, &Vec::new(), vec![rd], Vec::new()).unwrap();
    // an asserted asynchronous reset forces the data with no clock edge
    let args = args_of(vec![
        ("rd0addr", bin("000")),
        ("rd0clk", bin("0")),
        ("rd0arst", bin("1")),
        ("rd0srst", bin("0")),
    ]);
    let rv = memory_op(&args, &mut state).unwrap();
    let mut read = rv.signals_iter().get("rd0data").unwrap().clone();
    read.normalize();
    assert!(read == bin("0011"));
    // on the clock edge with the synchronous reset asserted, the
    // reset value replaces the stored word
    let args = args_of(vec![
        ("rd0addr", bin("000")),
        ("rd0clk", bin("1")),
        ("rd0arst", bin("0")),
        ("rd0srst", bin("1")),
    ]);
    let rv = memory_op(&args, &mut state).unwrap();
    let mut read = rv.signals_iter().get("rd0data").unwrap().clone();
    read.normalize();
    assert!(read == bin("0101"));
}

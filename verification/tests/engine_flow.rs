//! Engine-level scenarios: building circuits over the command surface,
//! running ticks, and observing the update callbacks.

use logicsim3::engine::{Callback, Engine};
use logicsim3::gate::PortParams;
use logicsim3::link::LinkTarget;
use logicsim3::operations::GateParams;
use logicsim3::vector3vl::Vec3vl;

fn port(id: &str, dir: &str, bits: u32, avec: u32, bvec: u32) -> PortParams {
    PortParams {
        id: id.to_string(),
        dir: dir.to_string(),
        bits,
        avec: vec![avec],
        bvec: vec![bvec],
    }
}

fn target(id: &str, p: &str) -> LinkTarget {
    LinkTarget { id: id.to_string(), port: p.to_string(), magnet: String::new() }
}

fn find_update<'a>(cbs: &'a [Callback], gate: &str, port: &str) -> Option<(u32, u32, u32)> {
    for cb in cbs {
        if let Callback::SendUpdates { updates, .. } = cb {
            for u in updates {
                if u.gate_id == gate {
                    for pu in &u.val {
                        if pu.port == port {
                            return Some((pu.bits, pu.avec[0], pu.bvec[0]));
                        }
                    }
                }
            }
        }
    }
    None
}

#[test]
fn and_gate_reports_its_output() {
    let mut e = Engine::new();
    e.add_graph("g".to_string());
    e.observe_graph("g".to_string()).unwrap();
    let ports = vec![
        port("in0", "in", 4, 0b1010, 0b1010),
        port("in1", "in", 4, 0b1100, 0b1100),
        port("out", "out", 4, 0, 0xf),
    ];
    e.add_gate("g".to_string(), "a1".to_string(), "And".to_string(), GateParams::empty(), ports)
        .unwrap();
    e.update_gates(1, true).unwrap();
    e.update_gates(2, true).unwrap();
    let cbs = e.take_callbacks();
    let (bits, avec, bvec) = find_update(&cbs, "a1", "out").expect("update for the AND output");
    assert_eq!(bits, 4);
    assert_eq!(avec, 0b1000);
    assert_eq!(bvec, 0b1000);
}

#[test]
fn unchanged_output_is_reported_once() {
    let mut e = Engine::new();
    e.add_graph("g".to_string());
    e.observe_graph("g".to_string()).unwrap();
    let ports = vec![
        port("in0", "in", 1, 1, 1),
        port("in1", "in", 1, 1, 1),
        port("out", "out", 1, 0, 1),
    ];
    e.add_gate("g".to_string(), "a1".to_string(), "And".to_string(), GateParams::empty(), ports)
        .unwrap();
    // evaluate twice before flushing: the same output value twice
    e.update_gates(1, false).unwrap();
    e.enqueue("g".to_string(), "a1".to_string()).unwrap();
    e.update_gates(2, false).unwrap();
    e.update_gates(3, true).unwrap();
    let cbs = e.take_callbacks();
    let mut seen = 0;
    for cb in &cbs {
        if let Callback::SendUpdates { updates, .. } = cb {
            for u in updates {
                if u.gate_id == "a1" {
                    for pu in &u.val {
                        if pu.port == "out" {
                            seen += 1;
                        }
                    }
                }
            }
        }
    }
    assert_eq!(seen, 1);
}

#[test]
fn ticks_advance_one_at_a_time() {
    let mut e = Engine::new();
    assert_eq!(e.tick, 0);
    e.update_gates(1, false).unwrap();
    assert_eq!(e.tick, 1);
    e.update_gates(2, false).unwrap();
    assert_eq!(e.tick, 2);
}

#[test]
fn subcircuit_passes_its_input_through() {
    let mut e = Engine::new();
    e.add_graph("main".to_string());
    e.add_graph("sub".to_string());
    // pass-through boundary inside the subgraph
    let mut bi_params = GateParams::empty();
    bi_params.net = Some("i".to_string());
    e.add_gate(
        "sub".to_string(),
        "bi".to_string(),
        "Input".to_string(),
        bi_params,
        vec![port("out", "out", 4, 0, 0xf)],
    )
    .unwrap();
    let mut bo_params = GateParams::empty();
    bo_params.net = Some("o".to_string());
    e.add_gate(
        "sub".to_string(),
        "bo".to_string(),
        "Output".to_string(),
        bo_params,
        vec![port("in", "in", 4, 0, 0xf)],
    )
    .unwrap();
    e.add_link(
        "sub".to_string(),
        "w1".to_string(),
        target("bi", "out"),
        target("bo", "in"),
    )
    .unwrap();
    // the subcircuit gate and a source feeding it
    e.add_gate(
        "main".to_string(),
        "sc".to_string(),
        "Subcircuit".to_string(),
        GateParams::empty(),
        vec![port("i", "in", 4, 0, 0xf), port("o", "out", 4, 0, 0xf)],
    )
    .unwrap();
    e.add_subcircuit(
        "main".to_string(),
        "sc".to_string(),
        "sub".to_string(),
        vec![("i".to_string(), "bi".to_string()), ("o".to_string(), "bo".to_string())],
    )
    .unwrap();
    e.add_gate(
        "main".to_string(),
        "src".to_string(),
        "Input".to_string(),
        GateParams::empty(),
        vec![port("out", "out", 4, 0, 0xf)],
    )
    .unwrap();
    e.add_link(
        "main".to_string(),
        "w2".to_string(),
        target("src", "out"),
        target("sc", "i"),
    )
    .unwrap();
    e.change_input("main".to_string(), "src".to_string(), Vec3vl::from_number(0b1010, 4))
        .unwrap();
    e.update_gates(1, false).unwrap();
    // the subcircuit's output mirrors its input
    let gi = e.graph_index("main").unwrap();
    let sc = e.graphs[gi].get_gate("sc").unwrap();
    let out = sc.get_output("o").unwrap();
    assert_eq!(out.get_number().unwrap(), 0b1010);
}

#[test]
fn constant_cell_emits_its_literal() {
    let mut e = Engine::new();
    e.add_graph("g".to_string());
    e.observe_graph("g".to_string()).unwrap();
    let mut params = GateParams::empty();
    params.constant_str = Some("101".to_string());
    e.add_gate(
        "g".to_string(),
        "c1".to_string(),
        "Constant".to_string(),
        params,
        vec![port("out", "out", 3, 0, 0x7)],
    )
    .unwrap();
    e.update_gates(1, true).unwrap();
    let cbs = e.take_callbacks();
    let (bits, avec, _) = find_update(&cbs, "c1", "out").expect("constant update");
    assert_eq!(bits, 3);
    assert_eq!(avec, 0b101);
}

#[test]
fn missing_graph_is_a_lookup_miss() {
    let mut e = Engine::new();
    let r = e.add_gate(
        "nope".to_string(),
        "x".to_string(),
        "And".to_string(),
        GateParams::empty(),
        Vec::new(),
    );
    assert!(r.is_err());
}

#[test]
fn unknown_cell_type_is_rejected() {
    let mut e = Engine::new();
    e.add_graph("g".to_string());
    let r = e.add_gate(
        "g".to_string(),
        "x".to_string(),
        "Frobnicator".to_string(),
        GateParams::empty(),
        Vec::new(),
    );
    assert!(r.is_err());
}

#[test]
fn equal_values_with_junk_encoding_do_not_retrigger() {
    let mut e = Engine::new();
    e.add_graph("g".to_string());
    let ports = vec![port("out", "out", 4, 0, 0xf)];
    e.add_gate("g".to_string(), "i1".to_string(), "Input".to_string(), GateParams::empty(), ports)
        .unwrap();
    let v = Vec3vl::from_binary("1111", Some(4)).unwrap();
    e.change_input("g".to_string(), "i1".to_string(), v).unwrap();
    e.observe_graph("g".to_string()).unwrap();
    e.ping(1, true).unwrap();
    // all-ones again, but carrying set junk bits above the width
    e.change_input("g".to_string(), "i1".to_string(), Vec3vl::ones(4)).unwrap();
    e.ping(2, true).unwrap();
    let cbs = e.take_callbacks();
    let mut seen = 0;
    for cb in &cbs {
        if let Callback::SendUpdates { updates, .. } = cb {
            for u in updates {
                if u.gate_id == "i1" {
                    for pu in &u.val {
                        if pu.port == "out" {
                            seen += 1;
                        }
                    }
                }
            }
        }
    }
    assert_eq!(seen, 1);
}

//! The memory cell: a word array with clocked and combinational read
//! ports and clocked, per-bit-enabled write ports.

use vstd::prelude::*;

use crate::cell_dff::{clock_edge, pol};
use crate::errors::CellError;
use crate::names::port_field_name;
use crate::operations::{CellEvent, ReturnValue};
use crate::sigmap::SigMap;
use crate::vector3vl::{view_defined, view_tri, view_uval, Vec3vl, Vec3vlV};

verus! {

/// The name of one control or data input of a numbered memory port.
pub open spec fn pf_name(prefix: Seq<char>, n: nat, field: Seq<char>) -> Seq<char> {
    prefix + crate::names::dec_str(n) + field
}

/// A port's per-bit enable input is fully at its active level (a port
/// with no enable input is always enabled).
pub open spec fn port_enabled_spec(
    m: Map<Seq<char>, Vec3vlV>,
    prefix: Seq<char>,
    n: nat,
    port: MemoryPortPolarity,
) -> bool {
    match port.enable {
        Option::None => true,
        Option::Some(p) => {
            let sig = m[pf_name(prefix, n, "en"@)];
            forall|i: nat| i < sig.bits ==> #[trigger] view_tri(sig, i) == pol(p)
        },
    }
}

/// A clocked port sees an edge of its polarity this evaluation (a port
/// with no clock input is always active).
pub open spec fn port_active_spec(
    m: Map<Seq<char>, Vec3vlV>,
    prefix: Seq<char>,
    n: nat,
    port: MemoryPortPolarity,
    last_clk: i32,
) -> bool {
    match port.clock {
        Option::None => true,
        Option::Some(p) => clock_edge(p, last_clk, view_tri(m[pf_name(prefix, n, "clk"@)], 0)),
    }
}

/// An address signal selects a stored word: fully defined and, after
/// the offset, within the word count.
pub open spec fn addr_in_range(sig: Vec3vlV, offset: u32, words: u32) -> bool {
    &&& view_defined(sig)
    &&& view_uval(sig) <= u32::MAX
    &&& offset <= view_uval(sig)
    &&& view_uval(sig) - offset < words
}

/// The memory configuration with one write port and one combinational
/// (unclocked) read port without an asynchronous reset.
pub open spec fn simple_config(s: MemoryState) -> bool {
    s.wrports@.len() == 1 && s.rdports@.len() == 1 && s.rdports@[0].clock is None
        && s.rdports@[0].arst is None
}

/// What the write port of a [`simple_config`] memory does to the word
/// array: nothing unless it is enabled, sees its edge and addresses a
/// stored word; otherwise the addressed word becomes the written data,
/// merged per bit under the enable mask for an active-high per-bit
/// enable (canonically encoded inputs pin each bit exactly).
pub open spec fn mem_written(m: Map<Seq<char>, Vec3vlV>, s: MemoryState, mem: Seq<Vec3vl>) -> bool {
    let port = s.wrports@[0];
    let en_ok = port_enabled_spec(m, "wr"@, 0, port);
    let act = port_active_spec(m, "wr"@, 0, port, s.wr_last_clk@[0]);
    let asig = m[pf_name("wr"@, 0, "addr"@)];
    let in_range = m.contains_key(pf_name("wr"@, 0, "addr"@)) && addr_in_range(
        asig,
        s.offset,
        s.words,
    );
    &&& mem.len() == s.memory@.len()
    &&& !(en_ok && act && in_range) ==> mem == s.memory@
    &&& (en_ok && act && in_range) ==> {
        let a = view_uval(asig) - s.offset;
        let val = m[pf_name("wr"@, 0, "data"@)];
        let w = mem[a as int];
        &&& forall|j: int| 0 <= j < mem.len() && j != a ==> #[trigger] mem[j] == s.memory@[j]
        &&& w.well_formed()
        &&& port.enable is None ==> w@ == val
        &&& (port.enable is Some && port.enable->0) ==> {
            let msig = m[pf_name("wr"@, 0, "en"@)];
            &&& w.bits == val.bits
            &&& (view_canonical(val) && view_canonical(msig) && view_defined(msig)
                && crate::vector3vl::view_normalized(msig) && s.memory@[a as int].canonical())
                ==> forall|i: nat|
                i < w.bits ==> #[trigger] w.tri_at(i) == crate::vector3vl::tri_or(
                    crate::vector3vl::tri_and(view_tri(val, i), view_tri(msig, i)),
                    crate::vector3vl::tri_and(
                        view_tri(s.memory@[a as int]@, i),
                        crate::vector3vl::tri_not(view_tri(msig, i)),
                    ),
                )
        }
    }
}

/// No bit of a content view uses the alternate X encoding.
pub open spec fn view_canonical(v: Vec3vlV) -> bool {
    forall|k: int| 0 <= k < v.avec.len() ==> #[trigger] v.avec[k] & !v.bvec[k] == 0
}

/// The write-port inputs a [`simple_config`] memory needs: each
/// configured control input present (the clock not empty), the address
/// when the port acts and the data when it writes a stored word.
pub open spec fn simple_wr_inputs_ok(m: Map<Seq<char>, Vec3vlV>, s: MemoryState) -> bool {
    let wport = s.wrports@[0];
    let en_ok = port_enabled_spec(m, "wr"@, 0, wport);
    let act = port_active_spec(m, "wr"@, 0, wport, s.wr_last_clk@[0]);
    &&& (wport.enable is Some ==> m.contains_key(pf_name("wr"@, 0, "en"@)))
    &&& (wport.clock is Some ==> m.contains_key(pf_name("wr"@, 0, "clk"@)) && m[pf_name(
        "wr"@,
        0,
        "clk"@,
    )].bits > 0)
    &&& ((en_ok && act) ==> m.contains_key(pf_name("wr"@, 0, "addr"@)))
    &&& ((en_ok && act && m.contains_key(pf_name("wr"@, 0, "addr"@)) && addr_in_range(
        m[pf_name("wr"@, 0, "addr"@)],
        s.offset,
        s.words,
    )) ==> m.contains_key(pf_name("wr"@, 0, "data"@)))
    &&& ((en_ok && act && m.contains_key(pf_name("wr"@, 0, "addr"@)) && addr_in_range(
        m[pf_name("wr"@, 0, "addr"@)],
        s.offset,
        s.words,
    ) && wport.enable is Some && 0 <= view_uval(m[pf_name("wr"@, 0, "addr"@)]) - s.offset
        < s.memory@.len()) ==> {
        let a = view_uval(m[pf_name("wr"@, 0, "addr"@)]) - s.offset;
        &&& m[pf_name("wr"@, 0, "data"@)].bits == m[pf_name("wr"@, 0, "en"@)].bits
        &&& s.memory@[a as int].bits == m[pf_name("wr"@, 0, "en"@)].bits
    })
}

/// The read-port inputs a [`simple_config`] memory needs: the enable
/// input when configured, and the address when the port is enabled.
pub open spec fn simple_rd_inputs_ok(m: Map<Seq<char>, Vec3vlV>, s: MemoryState) -> bool {
    let rport = s.rdports@[0];
    &&& (rport.enable is Some ==> m.contains_key(pf_name("rd"@, 0, "en"@)))
    &&& (port_enabled_spec(m, "rd"@, 0, rport) ==> m.contains_key(pf_name("rd"@, 0, "addr"@)))
}

/// The inputs a [`simple_config`] memory needs for an evaluation to
/// succeed.
pub open spec fn simple_inputs_ok(m: Map<Seq<char>, Vec3vlV>, s: MemoryState) -> bool {
    simple_wr_inputs_ok(m, s) && simple_rd_inputs_ok(m, s)
}

/// A memory-update event is raised exactly when the write port of a
/// [`simple_config`] memory changed the stored word.
pub open spec fn simple_events_ok(
    m: Map<Seq<char>, Vec3vlV>,
    s: MemoryState,
    mem: Seq<Vec3vl>,
    evs: Seq<CellEvent>,
) -> bool {
    let port = s.wrports@[0];
    let en_ok = port_enabled_spec(m, "wr"@, 0, port);
    let act = port_active_spec(m, "wr"@, 0, port, s.wr_last_clk@[0]);
    let asig = m[pf_name("wr"@, 0, "addr"@)];
    let in_range = m.contains_key(pf_name("wr"@, 0, "addr"@)) && addr_in_range(
        asig,
        s.offset,
        s.words,
    );
    &&& !(en_ok && act && in_range) ==> evs.len() == 0
    &&& (en_ok && act && in_range && 0 <= view_uval(asig) - s.offset < s.memory@.len() && mem.len()
        == s.memory@.len()) ==> {
        let a = view_uval(asig) - s.offset;
        let oldw = s.memory@[a as int];
        let neww = mem[a as int];
        let changed = !(oldw.bits == neww.bits && oldw.avec@ == neww.avec@ && oldw.bvec@
            == neww.bvec@);
        &&& evs.len() == (if changed {
            1int
        } else {
            0int
        })
        &&& changed ==> (evs[0] is MemoryUpdate && evs[0]->MemoryUpdate_addr == a)
    }
}

/// What an enabled combinational read port of a [`simple_config`]
/// memory puts into the output map, against the post-write word array.
pub open spec fn simple_rd_done(
    m: Map<Seq<char>, Vec3vlV>,
    s: MemoryState,
    mem: Seq<Vec3vl>,
    outs: Map<Seq<char>, Vec3vlV>,
) -> bool {
    let rport = s.rdports@[0];
    let ren = port_enabled_spec(m, "rd"@, 0, rport);
    &&& !ren ==> outs == s.outputs@
    &&& ren ==> {
        let name = pf_name("rd"@, 0, "data"@);
        let asig = m[pf_name("rd"@, 0, "addr"@)];
        let ov = outs[name];
        &&& outs == s.outputs@.insert(name, ov)
        &&& (addr_in_range(asig, s.offset, s.words) && 0 <= view_uval(asig) - s.offset < mem.len())
            ==> ov == mem[view_uval(asig) - s.offset]@
        &&& !addr_in_range(asig, s.offset, s.words) ==> (ov.bits == s.bits && forall|i: nat|
            i < ov.bits ==> #[trigger] view_tri(ov, i) == 0i32)
    }
}

/// The configuration of one memory port: which control inputs it has
/// and their active polarities.
pub struct MemoryPortPolarity {
    pub enable: Option<bool>,
    pub clock: Option<bool>,
    pub transparent: Option<bool>,
    pub collision: Option<bool>,
    pub srst: Option<bool>,
    pub srst_enable: Option<bool>,
    pub srst_value: Option<String>,
    pub arst: Option<bool>,
    pub arst_value: Option<String>,
}

impl MemoryPortPolarity {
    /// A plain port: no control inputs at all.
    pub fn plain() -> (r: MemoryPortPolarity)
        ensures
            r.enable is None,
            r.clock is None,
    {
        MemoryPortPolarity {
            enable: None,
            clock: None,
            transparent: None,
            collision: None,
            srst: None,
            srst_enable: None,
            srst_value: None,
            arst: None,
            arst_value: None,
        }
    }
}

/// One run of initial memory contents: `count` consecutive words all
/// holding the binary literal `value`.
pub struct MemInit {
    pub count: u32,
    pub value: String,
}

/// The number of words the first `k` runs cover.
pub open spec fn runs_words(md: Seq<MemInit>, k: int) -> nat
    decreases k,
{
    if k <= 0 {
        0
    } else {
        (runs_words(md, k - 1) + md[k - 1].count) as nat
    }
}

/// The binary literal of the run that covers word `i`, among the first
/// `k` runs (the last run for a word beyond them all).
pub open spec fn run_literal(md: Seq<MemInit>, k: int, i: nat) -> Seq<char>
    decreases k,
{
    if k <= 0 {
        Seq::empty()
    } else if i < runs_words(md, k - 1) {
        run_literal(md, k - 1, i)
    } else {
        md[k - 1].value@
    }
}

/// The word is all-X over the given width.
pub open spec fn word_all_x(v: Vec3vl, bits: u32) -> bool {
    &&& v.bits == bits
    &&& forall|b: nat| b < bits ==> #[trigger] v.tri_at(b) == 0i32
}

/// The word holds the binary literal, parsed at the given width (any
/// `x` character makes the whole word X).
pub open spec fn word_from_literal(v: Vec3vl, cs: Seq<char>, bits: u32) -> bool {
    &&& v.bits == bits
    &&& crate::vector3vl::bin_has_x(cs) ==> forall|b: nat| b < bits ==> #[trigger] v.tri_at(b)
        == 0i32
    &&& !crate::vector3vl::bin_has_x(cs) ==> (v.all_defined() && forall|b: nat|
        b < bits ==> #[trigger] v.abit(b) == crate::vector3vl::from_bin_bit(cs, b))
}

/// The persistent state of a memory cell.
pub struct MemoryState {
    pub abits: u32,
    pub bits: u32,
    pub memory: Vec<Vec3vl>,
    pub offset: u32,
    pub words: u32,
    pub rdports: Vec<MemoryPortPolarity>,
    pub wrports: Vec<MemoryPortPolarity>,
    pub rd_last_clk: Vec<i32>,
    pub wr_last_clk: Vec<i32>,
    pub outputs: SigMap,
}

impl MemoryState {
    pub open spec fn wf(self) -> bool {
        &&& self.memory@.len() == self.words
        &&& forall|j: int| 0 <= j < self.memory@.len() ==> (#[trigger] self.memory@[j]).well_formed()
        &&& self.rd_last_clk@.len() == self.rdports@.len()
        &&& self.wr_last_clk@.len() == self.wrports@.len()
        &&& self.outputs.wf()
        &&& self.outputs.values_wf()
    }

    /// Build a memory: the initial contents come from runs of binary
    /// literals, missing words start all-X, excess words are dropped.
    pub fn new(
        bits: u32,
        abits: u32,
        offset: u32,
        words: u32,
        memdata: &Vec<MemInit>,
        rdports: Vec<MemoryPortPolarity>,
        wrports: Vec<MemoryPortPolarity>,
    ) -> (r: Result<MemoryState, CellError>)
        ensures
            r is Ok <==> forall|j: int|
                0 <= j < memdata@.len() ==> crate::vector3vl::bin_chars_ok(
                    (#[trigger] memdata@[j]).value@,
                ),
            r is Ok ==> {
                let s = r->Ok_0;
                let covered = runs_words(memdata@, memdata@.len() as int);
                &&& s.wf()
                &&& s.bits == bits
                &&& s.abits == abits
                &&& s.offset == offset
                &&& s.words == words
                &&& s.rdports == rdports
                &&& s.wrports == wrports
                &&& s.rd_last_clk@ =~= Seq::new(rdports@.len(), |j: int| 0i32)
                &&& s.wr_last_clk@ =~= Seq::new(wrports@.len(), |j: int| 0i32)
                &&& s.outputs.entries@.len() == 0
                &&& forall|i: int|
                    0 <= i < words && i < covered ==> word_from_literal(
                        #[trigger] s.memory@[i],
                        run_literal(memdata@, memdata@.len() as int, i as nat),
                        bits,
                    )
                &&& forall|i: int|
                    0 <= i < words && i >= covered ==> word_all_x(#[trigger] s.memory@[i], bits)
            },
    {
        let mut memory: Vec<Vec3vl> = Vec::new();
        let n = memdata.len();
        let mut k: usize = 0;
        while k < n
            invariant
                k <= n,
                n == memdata@.len(),
                forall|j: int| 0 <= j < memory@.len() ==> (#[trigger] memory@[j]).well_formed(),
                memory@.len() <= words,
                forall|j: int|
                    0 <= j < k ==> crate::vector3vl::bin_chars_ok((#[trigger] memdata@[j]).value@),
                memory@.len() == (if runs_words(memdata@, k as int) <= words {
                    runs_words(memdata@, k as int) as int
                } else {
                    words as int
                }),
                forall|i: int|
                    0 <= i < memory@.len() ==> word_from_literal(
                        #[trigger] memory@[i],
                        run_literal(memdata@, k as int, i as nat),
                        bits,
                    ),
            decreases n - k,
        {
            let run = &memdata[k];
            let val = match Vec3vl::from_binary(run.value.as_str(), Some(bits as usize)) {
                Ok(v) => v,
                Err(e) => {
                    return Err(e);
                },
            };
            let ghost base = runs_words(memdata@, k as int);
            let ghost mem0 = memory@;
            let mut c: u32 = 0;
            while c < run.count
                invariant
                    c <= run.count,
                    k < memdata@.len(),
                    run == memdata@[k as int],
                    val.well_formed(),
                    word_from_literal(val, memdata@[k as int].value@, bits),
                    base == runs_words(memdata@, k as int),
                    forall|j: int| 0 <= j < memory@.len() ==> (#[trigger] memory@[j]).well_formed(),
                    memory@.len() <= words,
                    mem0.len() <= memory@.len(),
                    forall|i: int| 0 <= i < mem0.len() ==> #[trigger] memory@[i] == mem0[i],
                    memory@.len() == (if base + c <= words {
                        (base + c) as int
                    } else {
                        words as int
                    }) || (base > words && memory@.len() == words as int),
                    mem0.len() == (if base <= words {
                        base as int
                    } else {
                        words as int
                    }),
                    forall|i: int|
                        mem0.len() <= i < memory@.len() ==> word_from_literal(
                            #[trigger] memory@[i],
                            memdata@[k as int].value@,
                            bits,
                        ),
                decreases run.count - c,
            {
                if memory.len() < words as usize {
                    memory.push(val.clone());
                }
                c = c + 1;
            }
            proof {
                assert(runs_words(memdata@, k as int + 1) == base + memdata@[k as int].count);
                assert forall|i: int| 0 <= i < memory@.len() implies word_from_literal(
                    #[trigger] memory@[i],
                    run_literal(memdata@, k as int + 1, i as nat),
                    bits,
                ) by {
                    if i < mem0.len() {
                        assert(memory@[i] == mem0[i]);
                        assert((i as nat) < base);
                        assert(run_literal(memdata@, k as int + 1, i as nat) == run_literal(
                            memdata@,
                            k as int,
                            i as nat,
                        ));
                    } else {
                        assert(word_from_literal(memory@[i], memdata@[k as int].value@, bits));
                        assert((i as nat) >= base);
                        assert(run_literal(memdata@, k as int + 1, i as nat)
                            == memdata@[k as int].value@);
                    }
                }
            }
            k = k + 1;
        }
        let ghost covered = runs_words(memdata@, n as int);
        let ghost filled_from = memory@.len() as int;
        while memory.len() < words as usize
            invariant
                forall|j: int| 0 <= j < memory@.len() ==> (#[trigger] memory@[j]).well_formed(),
                memory@.len() <= words,
                filled_from <= memory@.len(),
                filled_from == (if covered <= words {
                    covered as int
                } else {
                    words as int
                }),
                forall|i: int|
                    0 <= i < filled_from ==> word_from_literal(
                        #[trigger] memory@[i],
                        run_literal(memdata@, n as int, i as nat),
                        bits,
                    ),
                forall|i: int|
                    filled_from <= i < memory@.len() ==> word_all_x(#[trigger] memory@[i], bits),
            decreases words - memory.len(),
        {
            memory.push(Vec3vl::xes(bits));
        }
        let mut rd_last_clk: Vec<i32> = Vec::new();
        while rd_last_clk.len() < rdports.len()
            invariant
                rd_last_clk@.len() <= rdports@.len(),
                forall|j: int| 0 <= j < rd_last_clk@.len() ==> #[trigger] rd_last_clk@[j] == 0i32,
            decreases rdports.len() - rd_last_clk.len(),
        {
            rd_last_clk.push(0);
        }
        let mut wr_last_clk: Vec<i32> = Vec::new();
        while wr_last_clk.len() < wrports.len()
            invariant
                wr_last_clk@.len() <= wrports@.len(),
                forall|j: int| 0 <= j < wr_last_clk@.len() ==> #[trigger] wr_last_clk@[j] == 0i32,
            decreases wrports.len() - wr_last_clk.len(),
        {
            wr_last_clk.push(0);
        }
        Ok(
            MemoryState {
                abits,
                bits,
                memory,
                offset,
                words,
                rdports,
                wrports,
                rd_last_clk,
                wr_last_clk,
                outputs: SigMap::new(),
            },
        )
    }
}

/// Merge a write into an old word under a per-bit enable mask: masked
/// bits take the new value, others keep the old one.
pub fn write_merge(val: &Vec3vl, mask: &Vec3vl, oldval: &Vec3vl) -> (r: Result<Vec3vl, CellError>)
    requires
        val.well_formed(),
        mask.well_formed(),
        oldval.well_formed(),
    ensures
        r is Ok <==> (val.bits == mask.bits && oldval.bits == mask.bits),
        r is Ok ==> {
            let o = r->Ok_0;
            &&& o.bits == val.bits
            &&& o.well_formed()
            &&& (val.canonical() && mask.canonical() && mask.all_defined() && mask.is_normalized()
                && oldval.canonical()) ==> forall|i: nat|
                i < o.bits ==> #[trigger] o.tri_at(i) == crate::vector3vl::tri_or(
                    crate::vector3vl::tri_and(val.tri_at(i), mask.tri_at(i)),
                    crate::vector3vl::tri_and(
                        oldval.tri_at(i),
                        crate::vector3vl::tri_not(mask.tri_at(i)),
                    ),
                )
        },
        r is Err ==> r->Err_0 == CellError::WidthMismatch,
{
    let picked = match val.and(mask) {
        Ok(v) => v,
        Err(e) => {
            return Err(e);
        },
    };
    let inv = mask.not();
    proof {
        if mask.canonical() && mask.all_defined() && mask.is_normalized() {
            assert forall|k: int| 0 <= k < mask.avec@.len() implies #[trigger] mask.avec@[k]
                == mask.bvec@[k] by {
                assert forall|b: nat| b < 32 implies #[trigger] crate::vector3vl::raw_bit(
                    mask.avec@[k],
                    b,
                ) == crate::vector3vl::raw_bit(mask.bvec@[k], b) by {
                    crate::vector3vl::lemma_split_index(k, b);
                    let g: nat = (32 * k + b) as nat;
                    if g < mask.bits {
                        assert(mask.tri_at(g) != 0i32);
                    } else {
                        crate::vector3vl::lemma_word_count_lower(mask.bits as nat);
                        assert(k == mask.avec@.len() - 1);
                        assert(mask.bits % 32 != 0 && b >= mask.bits % 32) by (nonlinear_arith)
                            requires
                                g == 32 * k + b,
                                b < 32,
                                k == (mask.bits + 31) / 32 - 1,
                                g >= mask.bits,
                                mask.bits > 32 * k,
                        ;
                        crate::vector3vl::lemma_norm_high_bit_zero(
                            mask.avec@[k],
                            mask.bits % 32,
                            b as u32,
                        );
                        crate::vector3vl::lemma_norm_high_bit_zero(
                            mask.bvec@[k],
                            mask.bits % 32,
                            b as u32,
                        );
                    }
                }
                crate::vector3vl::lemma_words_equal_bitwise(mask.avec@[k], mask.bvec@[k]);
            }
            assert forall|k: int| 0 <= k < inv.avec@.len() implies #[trigger] inv.avec@[k]
                & !inv.bvec@[k] == 0 by {
                crate::vector3vl::lemma_self_canonical(inv.avec@[k]);
            }
        }
    }
    let kept = match oldval.and(&inv) {
        Ok(v) => v,
        Err(e) => {
            return Err(e);
        },
    };
    match picked.or(&kept) {
        Ok(v) => Ok(v),
        Err(e) => Err(e),
    }
}

/// The absolute word index an address signal selects, after the
/// offset: nothing when the address has an X bit or falls outside the
/// stored words.
pub fn calc_addr(sig: &Vec3vl, offset: u32, words: u32) -> (r: Option<u32>)
    requires
        sig.well_formed(),
    ensures
        r is Some <==> addr_in_range(sig@, offset, words),
        r is Some ==> {
            &&& sig.all_defined()
            &&& r->0 < words
            &&& sig.uval() == offset + r->0
        },
{
    if !sig.is_fully_defined() {
        return None;
    }
    let idx = match crate::cell_mux::mux_idx(sig) {
        Ok(Some(v)) => v,
        Ok(None) => {
            return None;
        },
        Err(_) => {
            return None;
        },
    };
    if idx >= offset && idx - offset < words {
        Some(idx - offset)
    } else {
        None
    }
}

/// Evaluate a memory cell.  Clocked read ports read on their clock
/// edge when enabled (a colliding simultaneous write makes the read
/// X); write ports merge their data into the addressed word on their
/// clock edge when enabled, raising a memory-update event when the
/// word changes; combinational read ports read afterwards.  An address
/// with an X bit or out of range reads all-X and writes nothing.  An
/// asserted synchronous reset overwrites a clocked port's data at its
/// clock edge with the reset literal; an asserted asynchronous reset
/// forces the port's data immediately.
#[verifier::loop_isolation(false)]
#[verifier::rlimit(60)]
pub fn memory_op(args: &SigMap, state: &mut MemoryState) -> (r: Result<ReturnValue, CellError>)
    requires
        args.wf(),
        args.values_wf(),
        old(state).wf(),
    ensures
        final(state).wf(),
        final(state).bits == old(state).bits,
        final(state).abits == old(state).abits,
        final(state).offset == old(state).offset,
        final(state).words == old(state).words,
        final(state).rdports == old(state).rdports,
        final(state).wrports == old(state).wrports,
        final(state).memory@.len() == old(state).memory@.len(),
        old(state).wrports@.len() == 0 ==> final(state).memory@ == old(state).memory@,
        r is Ok ==> {
            let rv = r->Ok_0;
            &&& rv.out is None
            &&& !rv.clock
            &&& rv.others@ == final(state).outputs@
        },
        r is Ok ==> forall|i: int|
            0 <= i < old(state).rdports@.len() ==> #[trigger] final(state).rd_last_clk@[i] == (
            if old(state).rdports@[i].clock is Some {
                view_tri(args@[pf_name("rd"@, i as nat, "clk"@)], 0)
            } else {
                old(state).rd_last_clk@[i]
            }),
        r is Ok ==> forall|i: int|
            0 <= i < old(state).wrports@.len() ==> #[trigger] final(state).wr_last_clk@[i] == (
            if old(state).wrports@[i].clock is Some {
                view_tri(args@[pf_name("wr"@, i as nat, "clk"@)], 0)
            } else {
                old(state).wr_last_clk@[i]
            }),
        simple_config(*old(state)) ==> (r is Ok <==> simple_inputs_ok(args@, *old(state))),
        (r is Ok && simple_config(*old(state))) ==> mem_written(
            args@,
            *old(state),
            final(state).memory@,
        ),
        (r is Ok && simple_config(*old(state))) ==> simple_events_ok(
            args@,
            *old(state),
            final(state).memory@,
            r->Ok_0.events@,
        ),
        (r is Ok && simple_config(*old(state))) ==> simple_rd_done(
            args@,
            *old(state),
            final(state).memory@,
            final(state).outputs@,
        ),
        r is Err ==> (r->Err_0 == CellError::MissingInput || r->Err_0 == CellError::WidthMismatch
            || r->Err_0 == CellError::UnsupportedEncoding || r->Err_0 == CellError::ParamMissing),
{
    let ghost sc = simple_config(*old(state));
    let mut events: Vec<CellEvent> = Vec::new();

    // clocked read ports first: they see the pre-write contents
    let nrd = state.rdports.len();
    let mut n: usize = 0;
    while n < nrd
        invariant
            n <= nrd,
            args.wf(),
            args.values_wf(),
            state.wf(),
            nrd == state.rdports@.len(),
            state.bits == old(state).bits,
            state.abits == old(state).abits,
            state.offset == old(state).offset,
            state.words == old(state).words,
            state.rdports == old(state).rdports,
            state.wrports == old(state).wrports,
            state.memory@ == old(state).memory@,
            state.rd_last_clk@ == old(state).rd_last_clk@,
            state.wr_last_clk@ == old(state).wr_last_clk@,
            sc ==> state.outputs == old(state).outputs,
        decreases nrd - n,
    {
        if n > u32::MAX as usize {
            return Err(CellError::UnsupportedEncoding);
        }
        let has_clock = state.rdports[n].clock.is_some();
        if has_clock {
            // an asserted asynchronous reset forces the data at once
            let mut forced: Option<Vec3vl> = None;
            if let Some(ap) = state.rdports[n].arst {
                let on = match control_asserted(args, "rd", n as u32, "arst", ap) {
                    Ok(b) => b,
                    Err(e) => {
                        return Err(e);
                    },
                };
                if on {
                    let v = match reset_value(&state.rdports[n].arst_value, state.bits) {
                        Ok(v) => v,
                        Err(e) => {
                            return Err(e);
                        },
                    };
                    forced = Some(v);
                }
            }
            if let Some(v) = forced {
                let name = port_field_name("rd", n as u32, "data");
                state.outputs.insert(name, v);
                n = n + 1;
                continue ;
            }
            let enabled = match port_enabled(args, "rd", n as u32, &state.rdports[n]) {
                Ok(b) => b,
                Err(e) => {
                    return Err(e);
                },
            };
            let active = match port_active(args, "rd", n as u32, &state.rdports[n], state
                .rd_last_clk[n]) {
                Ok(b) => b,
                Err(e) => {
                    return Err(e);
                },
            };
            if enabled && active {
                let mut data = match read_port(args, state, n as u32) {
                    Ok(v) => v,
                    Err(e) => {
                        return Err(e);
                    },
                };
                // a colliding simultaneous write makes the read X
                let nwr = state.wrports.len();
                let mut w: usize = 0;
                while w < nwr
                    invariant
                        w <= nwr,
                        args.wf(),
                        args.values_wf(),
                        state.wf(),
                        nwr == state.wrports@.len(),
                        n < state.rdports@.len(),
                        data.well_formed(),
                        state.bits == old(state).bits,
                        state.abits == old(state).abits,
                        state.offset == old(state).offset,
                        state.words == old(state).words,
                        state.rdports == old(state).rdports,
                        state.wrports == old(state).wrports,
                        state.memory@ == old(state).memory@,
                        state.rd_last_clk@ == old(state).rd_last_clk@,
                        state.wr_last_clk@ == old(state).wr_last_clk@,
                    decreases nwr - w,
                {
                    if w > u32::MAX as usize {
                        return Err(CellError::UnsupportedEncoding);
                    }
                    let wants_collision = match state.rdports[n].collision {
                        Some(c) => c,
                        None => false,
                    };
                    if wants_collision {
                        let wr_enabled = match port_enabled(args, "wr", w as u32, &state.wrports[w])
                            {
                            Ok(b) => b,
                            Err(e) => {
                                return Err(e);
                            },
                        };
                        let wr_active = match port_active(args, "wr", w as u32, &state.wrports[w],
                            state.wr_last_clk[w]) {
                            Ok(b) => b,
                            Err(e) => {
                                return Err(e);
                            },
                        };
                        if wr_enabled && wr_active && same_address(args, n as u32, w as u32) {
                            let xes = Vec3vl::xes(data.bits);
                            let masked = match state.wrports[w].enable {
                                Some(p) => {
                                    let name = port_field_name("wr", w as u32, "en");
                                    let mask0 = match args.get(name.as_str()) {
                                        Some(m) => m.clone(),
                                        None => {
                                            return Err(CellError::MissingInput);
                                        },
                                    };
                                    let mask = if p {
                                        mask0
                                    } else {
                                        mask0.not()
                                    };
                                    match write_merge(&xes, &mask, &data) {
                                        Ok(v) => v,
                                        Err(e) => {
                                            return Err(e);
                                        },
                                    }
                                },
                                None => xes,
                            };
                            data = masked;
                        }
                    }
                    w = w + 1;
                }
                // an asserted synchronous reset overrides the read at
                // this clock edge
                if let Some(sp) = state.rdports[n].srst {
                    let on = match control_asserted(args, "rd", n as u32, "srst", sp) {
                        Ok(b) => b,
                        Err(e) => {
                            return Err(e);
                        },
                    };
                    if on {
                        data = match reset_value(&state.rdports[n].srst_value, state.bits) {
                            Ok(v) => v,
                            Err(e) => {
                                return Err(e);
                            },
                        };
                    }
                }
                let name = port_field_name("rd", n as u32, "data");
                state.outputs.insert(name, data);
            }
        }
        n = n + 1;
    }

    // write ports
    let nwr = state.wrports.len();
    let mut w: usize = 0;
    while w < nwr
        invariant
            w <= nwr,
            args.wf(),
            args.values_wf(),
            state.wf(),
            nwr == state.wrports@.len(),
            state.bits == old(state).bits,
            state.abits == old(state).abits,
            state.offset == old(state).offset,
            state.words == old(state).words,
            state.rdports == old(state).rdports,
            state.wrports == old(state).wrports,
            state.memory@.len() == old(state).memory@.len(),
            nwr == 0 ==> state.memory@ == old(state).memory@,
            state.rd_last_clk@ == old(state).rd_last_clk@,
            state.wr_last_clk@ == old(state).wr_last_clk@,
            sc ==> state.outputs == old(state).outputs,
            (sc && w == 0) ==> (state.memory@ == old(state).memory@ && events@.len() == 0),
            (sc && w >= 1) ==> mem_written(args@, *old(state), state.memory@),
            (sc && w >= 1) ==> simple_events_ok(args@, *old(state), state.memory@, events@),
            (sc && w >= 1) ==> simple_wr_inputs_ok(args@, *old(state)),
        decreases nwr - w,
    {
        if w > u32::MAX as usize {
            return Err(CellError::UnsupportedEncoding);
        }
        let enabled = match port_enabled(args, "wr", w as u32, &state.wrports[w]) {
            Ok(b) => b,
            Err(e) => {
                return Err(e);
            },
        };
        let active = match port_active(args, "wr", w as u32, &state.wrports[w], state.wr_last_clk[w])
            {
            Ok(b) => b,
            Err(e) => {
                return Err(e);
            },
        };
        if enabled && active {
            let addr_name = port_field_name("wr", w as u32, "addr");
            let addr_sig = match args.get(addr_name.as_str()) {
                Some(v) => v,
                None => {
                    return Err(CellError::MissingInput);
                },
            };
            let addr = calc_addr(addr_sig, state.offset, state.words);
            if let Some(a) = addr {
                if (a as usize) < state.memory.len() {
                    let data_name = port_field_name("wr", w as u32, "data");
                    let val = match args.get(data_name.as_str()) {
                        Some(v) => v.clone(),
                        None => {
                            return Err(CellError::MissingInput);
                        },
                    };
                    let oldval = state.memory[a as usize].clone();
                    let newval = match state.wrports[w].enable {
                        Some(p) => {
                            let en_name = port_field_name("wr", w as u32, "en");
                            let mask0 = match args.get(en_name.as_str()) {
                                Some(m) => m.clone(),
                                None => {
                                    return Err(CellError::MissingInput);
                                },
                            };
                            let mask = if p {
                                mask0
                            } else {
                                mask0.not()
                            };
                            match write_merge(&val, &mask, &oldval) {
                                Ok(v) => v,
                                Err(e) => {
                                    return Err(e);
                                },
                            }
                        },
                        None => val.clone(),
                    };
                    let changed = !(oldval == newval);
                    state.memory.set(a as usize, newval);
                    if changed {
                        events.push(
                            CellEvent::MemoryUpdate {
                                addr: a,
                                bits: val.bits,
                                avec: crate::vector3vl::clone_words(&val.avec),
                                bvec: crate::vector3vl::clone_words(&val.bvec),
                            },
                        );
                    }
                }
            }
        }
        w = w + 1;
    }

    // combinational read ports see the post-write contents
    let ghost mem_after = state.memory@;
    let mut n2: usize = 0;
    while n2 < nrd
        invariant
            n2 <= nrd,
            args.wf(),
            args.values_wf(),
            state.wf(),
            nrd == state.rdports@.len(),
            state.bits == old(state).bits,
            state.abits == old(state).abits,
            state.offset == old(state).offset,
            state.words == old(state).words,
            state.rdports == old(state).rdports,
            state.wrports == old(state).wrports,
            state.memory@.len() == old(state).memory@.len(),
            state.wrports@.len() == 0 ==> state.memory@ == old(state).memory@,
            state.rd_last_clk@ == old(state).rd_last_clk@,
            state.wr_last_clk@ == old(state).wr_last_clk@,
            state.memory@ == mem_after,
            (sc && n2 == 0) ==> state.outputs == old(state).outputs,
            (sc && n2 >= 1) ==> simple_rd_done(args@, *old(state), mem_after, state.outputs@),
            (sc && n2 >= 1) ==> simple_rd_inputs_ok(args@, *old(state)),
        decreases nrd - n2,
    {
        if n2 > u32::MAX as usize {
            return Err(CellError::UnsupportedEncoding);
        }
        let has_clock = state.rdports[n2].clock.is_some();
        if !has_clock {
            // an asserted asynchronous reset forces the data at once
            let mut forced: Option<Vec3vl> = None;
            if let Some(ap) = state.rdports[n2].arst {
                let on = match control_asserted(args, "rd", n2 as u32, "arst", ap) {
                    Ok(b) => b,
                    Err(e) => {
                        return Err(e);
                    },
                };
                if on {
                    let v = match reset_value(&state.rdports[n2].arst_value, state.bits) {
                        Ok(v) => v,
                        Err(e) => {
                            return Err(e);
                        },
                    };
                    forced = Some(v);
                }
            }
            if let Some(v) = forced {
                let name = port_field_name("rd", n2 as u32, "data");
                state.outputs.insert(name, v);
                n2 = n2 + 1;
                continue ;
            }
            let enabled = match port_enabled(args, "rd", n2 as u32, &state.rdports[n2]) {
                Ok(b) => b,
                Err(e) => {
                    return Err(e);
                },
            };
            if enabled {
                let data = match read_port(args, state, n2 as u32) {
                    Ok(v) => v,
                    Err(e) => {
                        return Err(e);
                    },
                };
                let name = port_field_name("rd", n2 as u32, "data");
                state.outputs.insert(name, data);
            }
        }
        n2 = n2 + 1;
    }

    // remember the clock levels for the next edge detection
    let ghost outs_after = state.outputs;
    let mut n3: usize = 0;
    while n3 < nrd
        invariant
            n3 <= nrd,
            args.wf(),
            args.values_wf(),
            state.wf(),
            nrd == state.rdports@.len(),
            state.bits == old(state).bits,
            state.abits == old(state).abits,
            state.offset == old(state).offset,
            state.words == old(state).words,
            state.rdports == old(state).rdports,
            state.wrports == old(state).wrports,
            state.memory@.len() == old(state).memory@.len(),
            state.wrports@.len() == 0 ==> state.memory@ == old(state).memory@,
            state.memory@ == mem_after,
            state.outputs == outs_after,
            state.wr_last_clk@ == old(state).wr_last_clk@,
            state.rd_last_clk@.len() == old(state).rd_last_clk@.len(),
            forall|j: int|
                0 <= j < n3 ==> #[trigger] state.rd_last_clk@[j] == (if old(
                    state,
                ).rdports@[j].clock is Some {
                    view_tri(args@[pf_name("rd"@, j as nat, "clk"@)], 0)
                } else {
                    old(state).rd_last_clk@[j]
                }),
            forall|j: int|
                n3 <= j < state.rd_last_clk@.len() ==> #[trigger] state.rd_last_clk@[j] == old(
                    state,
                ).rd_last_clk@[j],
        decreases nrd - n3,
    {
        if n3 > u32::MAX as usize {
            return Err(CellError::UnsupportedEncoding);
        }
        if state.rdports[n3].clock.is_some() {
            let clk_name = port_field_name("rd", n3 as u32, "clk");
            let clk = match args.get(clk_name.as_str()) {
                Some(v) => v,
                None => {
                    return Err(CellError::MissingInput);
                },
            };
            if clk.bits == 0 {
                return Err(CellError::MissingInput);
            }
            let t = clk.lsb();
            state.rd_last_clk.set(n3, t);
        }
        n3 = n3 + 1;
    }
    let ghost rdlc_after = state.rd_last_clk@;
    let nwr2 = state.wrports.len();
    let mut w2: usize = 0;
    while w2 < nwr2
        invariant
            w2 <= nwr2,
            args.wf(),
            args.values_wf(),
            state.wf(),
            nwr2 == state.wrports@.len(),
            state.bits == old(state).bits,
            state.abits == old(state).abits,
            state.offset == old(state).offset,
            state.words == old(state).words,
            state.rdports == old(state).rdports,
            state.wrports == old(state).wrports,
            state.memory@.len() == old(state).memory@.len(),
            state.wrports@.len() == 0 ==> state.memory@ == old(state).memory@,
            state.memory@ == mem_after,
            state.outputs == outs_after,
            state.rd_last_clk@ == rdlc_after,
            state.wr_last_clk@.len() == old(state).wr_last_clk@.len(),
            forall|j: int|
                0 <= j < w2 ==> #[trigger] state.wr_last_clk@[j] == (if old(
                    state,
                ).wrports@[j].clock is Some {
                    view_tri(args@[pf_name("wr"@, j as nat, "clk"@)], 0)
                } else {
                    old(state).wr_last_clk@[j]
                }),
            forall|j: int|
                w2 <= j < state.wr_last_clk@.len() ==> #[trigger] state.wr_last_clk@[j] == old(
                    state,
                ).wr_last_clk@[j],
        decreases nwr2 - w2,
    {
        if w2 > u32::MAX as usize {
            return Err(CellError::UnsupportedEncoding);
        }
        if state.wrports[w2].clock.is_some() {
            let clk_name = port_field_name("wr", w2 as u32, "clk");
            let clk = match args.get(clk_name.as_str()) {
                Some(v) => v,
                None => {
                    return Err(CellError::MissingInput);
                },
            };
            if clk.bits == 0 {
                return Err(CellError::MissingInput);
            }
            let t = clk.lsb();
            state.wr_last_clk.set(w2, t);
        }
        w2 = w2 + 1;
    }

    let outs = state.outputs.clone();
    ReturnValue::values_with_events(None, outs, events)
}

/// A port's reset literal, parsed at the word width; a port with a
/// reset control but no literal is missing a mandatory parameter.
fn reset_value(lit: &Option<String>, bits: u32) -> (r: Result<Vec3vl, CellError>)
    ensures
        r is Ok ==> r->Ok_0.well_formed() && r->Ok_0.bits == bits,
        r is Err ==> (r->Err_0 == CellError::ParamMissing || r->Err_0
            == CellError::UnsupportedEncoding),
{
    match lit {
        Some(v) => Vec3vl::from_binary(v.as_str(), Some(bits as usize)),
        None => Err(CellError::ParamMissing),
    }
}

/// Whether a port's one-bit control input is at the given active level.
fn control_asserted(args: &SigMap, prefix: &str, n: u32, field: &str, pol_high: bool) -> (r: Result<
    bool,
    CellError,
>)
    requires
        args.wf(),
        args.values_wf(),
    ensures
        r is Err ==> r->Err_0 == CellError::MissingInput,
{
    let name = port_field_name(prefix, n, field);
    let sig = match args.get(name.as_str()) {
        Some(v) => v,
        None => {
            return Err(CellError::MissingInput);
        },
    };
    if sig.bits == 0 {
        return Err(CellError::MissingInput);
    }
    let want: i32 = if pol_high {
        1
    } else {
        -1
    };
    Ok(sig.lsb() == want)
}

/// Whether a port's per-bit enable input is fully at its active level
/// (a port with no enable input is always enabled).
pub fn port_enabled(args: &SigMap, prefix: &str, n: u32, port: &MemoryPortPolarity) -> (r: Result<
    bool,
    CellError,
>)
    requires
        args.wf(),
        args.values_wf(),
    ensures
        r is Ok <==> (port.enable is None || args@.contains_key(pf_name(prefix@, n as nat, "en"@))),
        r is Ok ==> r->Ok_0 == port_enabled_spec(args@, prefix@, n as nat, *port),
        r is Err ==> r->Err_0 == CellError::MissingInput,
{
    match port.enable {
        Some(p) => {
            let name = port_field_name(prefix, n, "en");
            let sig = match args.get(name.as_str()) {
                Some(v) => v,
                None => {
                    return Err(CellError::MissingInput);
                },
            };
            let want: i32 = if p {
                1
            } else {
                -1
            };
            let mut i: u32 = 0;
            while i < sig.bits
                invariant
                    i <= sig.bits,
                    sig.well_formed(),
                    args@.contains_key(pf_name(prefix@, n as nat, "en"@)),
                    sig@ == args@[pf_name(prefix@, n as nat, "en"@)],
                    port.enable == Option::Some(want == 1i32),
                    want == 1i32 || want == -1i32,
                    forall|j: nat| j < i ==> #[trigger] sig.tri_at(j) == want,
                decreases sig.bits - i,
            {
                if sig.get(i) != want {
                    return Ok(false);
                }
                i = i + 1;
            }
            Ok(true)
        },
        None => Ok(true),
    }
}

/// Whether a clocked port sees an edge of its polarity this tick (a
/// port with no clock input is always active).
pub fn port_active(
    args: &SigMap,
    prefix: &str,
    n: u32,
    port: &MemoryPortPolarity,
    last_clk: i32,
) -> (r: Result<bool, CellError>)
    requires
        args.wf(),
        args.values_wf(),
    ensures
        r is Ok <==> (port.clock is None || (args@.contains_key(pf_name(prefix@, n as nat, "clk"@))
            && args@[pf_name(prefix@, n as nat, "clk"@)].bits > 0)),
        r is Ok ==> r->Ok_0 == port_active_spec(args@, prefix@, n as nat, *port, last_clk),
        r is Err ==> r->Err_0 == CellError::MissingInput,
{
    match port.clock {
        Some(p) => {
            let name = port_field_name(prefix, n, "clk");
            let sig = match args.get(name.as_str()) {
                Some(v) => v,
                None => {
                    return Err(CellError::MissingInput);
                },
            };
            if sig.bits == 0 {
                return Err(CellError::MissingInput);
            }
            let active: i32 = if p {
                1
            } else {
                -1
            };
            Ok(sig.lsb() == active && last_clk == -active)
        },
        None => Ok(true),
    }
}

/// Whether a read port and a write port are addressed identically
/// (structurally equal address signals).
pub fn same_address(args: &SigMap, rd: u32, wr: u32) -> (r: bool)
    requires
        args.wf(),
        args.values_wf(),
{
    let rd_name = port_field_name("rd", rd, "addr");
    let wr_name = port_field_name("wr", wr, "addr");
    let a = match args.get(rd_name.as_str()) {
        Some(v) => v,
        None => {
            return false;
        },
    };
    let b = match args.get(wr_name.as_str()) {
        Some(v) => v,
        None => {
            return false;
        },
    };
    a == b
}

/// Read the word a port addresses: all-X of the word width when the
/// address has an X bit or is out of range, else the stored word.
pub fn read_port(args: &SigMap, state: &MemoryState, n: u32) -> (r: Result<Vec3vl, CellError>)
    requires
        args.wf(),
        args.values_wf(),
        state.wf(),
    ensures
        r is Ok ==> r->Ok_0.well_formed(),
        r is Err ==> r->Err_0 == CellError::MissingInput,
        r is Ok <==> args@.contains_key(pf_name("rd"@, n as nat, "addr"@)),
        r is Ok ==> {
            let sig = args@[pf_name("rd"@, n as nat, "addr"@)];
            &&& addr_in_range(sig, state.offset, state.words) ==> r->Ok_0@ == state.memory@[view_uval(
                sig,
            ) - state.offset]@
            &&& !addr_in_range(sig, state.offset, state.words) ==> (r->Ok_0.bits == state.bits
                && forall|i: nat| i < state.bits ==> #[trigger] r->Ok_0.tri_at(i) == 0i32)
        },
    {
    let addr_name = port_field_name("rd", n, "addr");
    let sig = match args.get(addr_name.as_str()) {
        Some(v) => v,
        None => {
            return Err(CellError::MissingInput);
        },
    };
    let addr = calc_addr(sig, state.offset, state.words);
    match addr {
        Some(a) => {
            if (a as usize) < state.memory.len() {
                Ok(state.memory[a as usize].clone())
            } else {
                Ok(Vec3vl::xes(state.bits))
            }
        },
        None => Ok(Vec3vl::xes(state.bits)),
    }
}

} // verus!

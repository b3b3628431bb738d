//! The two-pass assembler.
//!
//! Pass 1 walks the line nodes in source order, keeping an instruction-memory
//! cursor and a data-memory cursor, both 8-bit. Label definitions and memory
//! declarations enter their symbol tables (a second definition of a name is
//! fatal); instructions are encoded at the cursor with a zero placeholder for
//! a label operand. A backward reference is patched at once; a forward
//! reference is recorded as a fixup. Pass 2 patches every recorded fixup from
//! the completed tables, failing on a name never defined. Finally the data
//! image is zeroed and every declared initial value written at its label's
//! offset, so the data image holds exactly the declared bytes.
//!
//! Any failure is fatal: the images' contents are then meaningless and no
//! partial result is promised, because every later address depends on the
//! correct layout of every earlier line.

use vstd::prelude::*;

use crate::label::LabelString;
use crate::robot::BIOS_MEM_SIZE;
use crate::robot::DATA_MEM_SIZE;
use crate::line::nodes_view;
use crate::line::AssemblyLine;
use crate::line::LineNode;
use crate::opcode::lemma_placeholder_well_formed;
use crate::opcode::spec_encode;
use crate::opcode::spec_placeholder;

verus! {

/// Why a program cannot be assembled.
#[derive(Debug)]
pub enum AssemblingError {
    DuplicateLabel { name: String, first_defined: usize, redefined: usize },
    DuplicateMemory { name: String, first_defined: usize, redefined: usize },
    MemoryOverflow,
    PointerOverflow,
    InvalidLabel,
    InvalidMemoryLabel,
}

/// The mathematical form of an assembling failure.
pub enum AsmFault {
    DuplicateLabel { name: Seq<char>, first_defined: int, redefined: int },
    DuplicateMemory { name: Seq<char>, first_defined: int, redefined: int },
    MemoryOverflow,
    PointerOverflow,
    InvalidLabel,
    InvalidMemoryLabel,
}

impl View for AssemblingError {
    type V = AsmFault;

    open spec fn view(&self) -> AsmFault {
        match self {
            AssemblingError::DuplicateLabel { name, first_defined, redefined } => (
                AsmFault::DuplicateLabel {
                    name: name@,
                    first_defined: *first_defined as int,
                    redefined: *redefined as int,
                }
            ),
            AssemblingError::DuplicateMemory { name, first_defined, redefined } => (
                AsmFault::DuplicateMemory {
                    name: name@,
                    first_defined: *first_defined as int,
                    redefined: *redefined as int,
                }
            ),
            AssemblingError::MemoryOverflow => AsmFault::MemoryOverflow,
            AssemblingError::PointerOverflow => AsmFault::PointerOverflow,
            AssemblingError::InvalidLabel => AsmFault::InvalidLabel,
            AssemblingError::InvalidMemoryLabel => AsmFault::InvalidMemoryLabel,
        }
    }
}

/// The scratch state of pass 1: the two symbol tables in insertion order,
/// the two pending-fixup lists in emission order, the two cursors, and the
/// instruction image as written so far.
#[verifier::ext_equal]
pub struct Layout {
    /// Program labels: name, defining line, instruction-memory offset.
    pub labels: Seq<(Seq<char>, int, u8)>,
    /// Data labels: name, defining line, data-memory offset, initial value.
    pub mems: Seq<(Seq<char>, int, u8, u8)>,
    /// Pending program-label fixups: name, patch offset in the instruction image.
    pub fix_prog: Seq<(Seq<char>, u8)>,
    /// Pending data-label fixups: name, patch offset in the instruction image.
    pub fix_data: Seq<(Seq<char>, u8)>,
    /// Instruction-memory cursor.
    pub cur: u8,
    /// Data-memory cursor.
    pub data_cur: u8,
    /// The instruction image.
    pub bios: Seq<u8>,
}

/// The program-label table entry for `name`, if one exists.
pub open spec fn find_label(tbl: Seq<(Seq<char>, int, u8)>, name: Seq<char>) -> Option<(int, u8)>
    decreases tbl.len(),
{
    if tbl.len() == 0 {
        None
    } else if tbl[0].0 == name {
        Some((tbl[0].1, tbl[0].2))
    } else {
        find_label(tbl.drop_first(), name)
    }
}

/// The data-label table entry for `name`, if one exists.
pub open spec fn find_mem(tbl: Seq<(Seq<char>, int, u8, u8)>, name: Seq<char>) -> Option<
    (int, u8, u8),
>
    decreases tbl.len(),
{
    if tbl.len() == 0 {
        None
    } else if tbl[0].0 == name {
        Some((tbl[0].1, tbl[0].2, tbl[0].3))
    } else {
        find_mem(tbl.drop_first(), name)
    }
}

/// `image` with `bytes` written at `at`.
pub open spec fn write_bytes(image: Seq<u8>, at: int, bytes: Seq<u8>) -> Seq<u8> {
    Seq::new(
        image.len(),
        |k: int|
            if at <= k < at + bytes.len() {
                bytes[k - at]
            } else {
                image[k]
            },
    )
}

/// The empty layout pass 1 starts from, over the caller's instruction image.
pub open spec fn init_layout(bios0: Seq<u8>) -> Layout {
    Layout {
        labels: Seq::empty(),
        mems: Seq::empty(),
        fix_prog: Seq::empty(),
        fix_data: Seq::empty(),
        cur: 0,
        data_cur: 0,
        bios: bios0,
    }
}

/// Pass 1 on an instruction node, after its placeholder bytes are already
/// written: patch a backward reference at once, or record a fixup; then
/// advance the cursor, rejecting a cursor that would leave 8 bits.
pub open spec fn pass1_op_fixup(st: Layout, bios1: Seq<u8>, fix: Option<(bool, u8, Seq<char>)>, len: int, line_num: int) -> Result<Layout, AsmFault> {
    let patched = match fix {
        None => (bios1, st.fix_prog, st.fix_data),
        Some((is_prog, arg_off, name)) => {
            let off = (st.cur + arg_off) as u8;
            if is_prog {
                match find_label(st.labels, name) {
                    Some(info) => (bios1.update(off as int, info.1), st.fix_prog, st.fix_data),
                    None => (bios1, st.fix_prog.push((name, off)), st.fix_data),
                }
            } else {
                match find_mem(st.mems, name) {
                    Some(info) => (bios1.update(off as int, info.1), st.fix_prog, st.fix_data),
                    None => (bios1, st.fix_prog, st.fix_data.push((name, off))),
                }
            }
        },
    };
    if st.cur + len > 255 {
        Err(AsmFault::PointerOverflow)
    } else {
        Ok(
            Layout {
                fix_prog: patched.1,
                fix_data: patched.2,
                cur: (st.cur + len) as u8,
                bios: patched.0,
                ..st
            },
        )
    }
}

/// One step of pass 1: how the layout changes at one line node.
pub open spec fn pass1_step(st: Layout, node: LineNode, line_num: int) -> Result<Layout, AsmFault> {
    match node {
        LineNode::Empty => Ok(st),
        LineNode::Label { name } => match find_label(st.labels, name) {
            Some(info) => Err(
                AsmFault::DuplicateLabel {
                    name,
                    first_defined: info.0,
                    redefined: line_num,
                },
            ),
            None => Ok(Layout { labels: st.labels.push((name, line_num, st.cur)), ..st }),
        },
        LineNode::MemoryDeclaration { name, value } => match find_mem(st.mems, name) {
            Some(info) => Err(
                AsmFault::DuplicateMemory {
                    name,
                    first_defined: info.0,
                    redefined: line_num,
                },
            ),
            None => {
                if st.data_cur == 255 {
                    Err(AsmFault::PointerOverflow)
                } else {
                    Ok(
                        Layout {
                            mems: st.mems.push((name, line_num, st.data_cur, value)),
                            data_cur: (st.data_cur + 1) as u8,
                            ..st
                        },
                    )
                }
            },
        },
        LineNode::Op(op) => {
            let ph = spec_placeholder(op);
            let bytes = spec_encode(ph.0);
            if st.cur + bytes.len() > 256 {
                Err(AsmFault::MemoryOverflow)
            } else {
                pass1_op_fixup(
                    st,
                    write_bytes(st.bios, st.cur as int, bytes),
                    ph.1,
                    bytes.len() as int,
                    line_num,
                )
            }
        },
    }
}

/// Pass 1 over the first `n` line nodes.
pub open spec fn pass1_upto(code: Seq<LineNode>, n: int, bios0: Seq<u8>) -> Result<
    Layout,
    AsmFault,
>
    decreases n,
{
    if n <= 0 {
        Ok(init_layout(bios0))
    } else {
        match pass1_upto(code, n - 1, bios0) {
            Err(e) => Err(e),
            Ok(st) => pass1_step(st, code[n - 1], n - 1),
        }
    }
}

/// Pass 1 over a whole program.
pub open spec fn spec_pass1(code: Seq<LineNode>, bios0: Seq<u8>) -> Result<Layout, AsmFault> {
    pass1_upto(code, code.len() as int, bios0)
}

/// A failing pass 1 fails with that fault at every longer prefix.
pub proof fn lemma_pass1_error_persists(code: Seq<LineNode>, bios0: Seq<u8>, m: int, n: int)
    requires
        m <= n,
        pass1_upto(code, m, bios0) is Err,
    ensures
        pass1_upto(code, n, bios0) == pass1_upto(code, m, bios0),
    decreases n - m,
{
    if m < n {
        lemma_pass1_error_persists(code, bios0, m, n - 1);
    }
}

/// Pass 2 over the program-label fixups: patch each recorded offset of the
/// instruction image with the label's address, or fail on a name the
/// completed table does not hold.
pub open spec fn apply_prog_fixups(
    bios: Seq<u8>,
    fixes: Seq<(Seq<char>, u8)>,
    labels: Seq<(Seq<char>, int, u8)>,
) -> Result<Seq<u8>, AsmFault>
    decreases fixes.len(),
{
    if fixes.len() == 0 {
        Ok(bios)
    } else {
        match find_label(labels, fixes[0].0) {
            Some(info) => apply_prog_fixups(
                bios.update(fixes[0].1 as int, info.1),
                fixes.drop_first(),
                labels,
            ),
            None => Err(AsmFault::InvalidLabel),
        }
    }
}

/// Pass 2 over the data-label fixups: patch each recorded offset of the
/// instruction image with the data label's data-memory offset.
pub open spec fn apply_data_fixups(
    bios: Seq<u8>,
    fixes: Seq<(Seq<char>, u8)>,
    mems: Seq<(Seq<char>, int, u8, u8)>,
) -> Result<Seq<u8>, AsmFault>
    decreases fixes.len(),
{
    if fixes.len() == 0 {
        Ok(bios)
    } else {
        match find_mem(mems, fixes[0].0) {
            Some(info) => apply_data_fixups(
                bios.update(fixes[0].1 as int, info.1),
                fixes.drop_first(),
                mems,
            ),
            None => Err(AsmFault::InvalidMemoryLabel),
        }
    }
}

/// The 256 zero bytes a data image starts from.
pub open spec fn zero_image() -> Seq<u8> {
    Seq::new(256, |k: int| 0u8)
}

/// The finished data image: zeros everywhere but at the declared labels'
/// offsets, which hold their declared initial values.
pub open spec fn data_image(mems: Seq<(Seq<char>, int, u8, u8)>) -> Seq<u8>
    decreases mems.len(),
{
    if mems.len() == 0 {
        zero_image()
    } else {
        data_image(mems.drop_last()).update(mems.last().2 as int, mems.last().3)
    }
}

/// What assembling a program yields: the finished instruction and data
/// images, or the first fatal fault. The instruction image starts from the
/// caller's buffer `bios0`; bytes no instruction or patch covers keep its
/// contents.
pub open spec fn spec_assemble(code: Seq<LineNode>, bios0: Seq<u8>) -> Result<
    (Seq<u8>, Seq<u8>),
    AsmFault,
> {
    match spec_pass1(code, bios0) {
        Err(e) => Err(e),
        Ok(st) => match apply_prog_fixups(st.bios, st.fix_prog, st.labels) {
            Err(e) => Err(e),
            Ok(b1) => match apply_data_fixups(b1, st.fix_data, st.mems) {
                Err(e) => Err(e),
                Ok(b2) => Ok((b2, data_image(st.mems))),
            },
        },
    }
}

/// The views of a program-label table.
pub open spec fn labels_view(tbl: Seq<(LabelString, usize, u8)>) -> Seq<(Seq<char>, int, u8)> {
    tbl.map_values(|e: (LabelString, usize, u8)| (e.0@, e.1 as int, e.2))
}

/// The views of a data-label table.
pub open spec fn mems_view(tbl: Seq<(LabelString, usize, u8, u8)>) -> Seq<
    (Seq<char>, int, u8, u8),
> {
    tbl.map_values(|e: (LabelString, usize, u8, u8)| (e.0@, e.1 as int, e.2, e.3))
}

/// The views of a fixup list.
pub open spec fn fixes_view(fs: Seq<(LabelString, u8)>) -> Seq<(Seq<char>, u8)> {
    fs.map_values(|e: (LabelString, u8)| (e.0@, e.1))
}

/// Look a name up in the program-label table.
fn find_label_exec(tbl: &Vec<(LabelString, usize, u8)>, name: &LabelString) -> (r: Option<
    (usize, u8),
>)
    ensures
        (match r {
            Some(p) => find_label(labels_view(tbl@), name@) == Some((p.0 as int, p.1)),
            None => find_label(labels_view(tbl@), name@) is None,
        }),
{
    proof {
        assert(labels_view(tbl@).skip(0) =~= labels_view(tbl@));
    }
    let mut j: usize = 0;
    while j < tbl.len()
        invariant
            j <= tbl.len(),
            find_label(labels_view(tbl@), name@) == find_label(
                labels_view(tbl@).skip(j as int),
                name@,
            ),
        decreases tbl.len() - j,
    {
        proof {
            assert(labels_view(tbl@)[j as int] == (tbl@[j as int].0@, tbl@[j as int].1 as int, tbl@[j as int].2));
            assert(labels_view(tbl@).skip(j as int).drop_first() =~= labels_view(tbl@).skip(
                j + 1,
            ));
        }
        if str_equal(&tbl[j].0.0, &name.0) {
            return Some((tbl[j].1, tbl[j].2));
        }
        j = j + 1;
    }
    None
}

/// Look a name up in the data-label table.
fn find_mem_exec(tbl: &Vec<(LabelString, usize, u8, u8)>, name: &LabelString) -> (r: Option<
    (usize, u8, u8),
>)
    ensures
        (match r {
            Some(p) => find_mem(mems_view(tbl@), name@) == Some((p.0 as int, p.1, p.2)),
            None => find_mem(mems_view(tbl@), name@) is None,
        }),
{
    proof {
        assert(mems_view(tbl@).skip(0) =~= mems_view(tbl@));
    }
    let mut j: usize = 0;
    while j < tbl.len()
        invariant
            j <= tbl.len(),
            find_mem(mems_view(tbl@), name@) == find_mem(mems_view(tbl@).skip(j as int), name@),
        decreases tbl.len() - j,
    {
        proof {
            assert(mems_view(tbl@)[j as int] == (tbl@[j as int].0@, tbl@[j as int].1 as int, tbl@[j as int].2, tbl@[j as int].3));
            assert(mems_view(tbl@).skip(j as int).drop_first() =~= mems_view(tbl@).skip(j + 1));
        }
        if str_equal(&tbl[j].0.0, &name.0) {
            return Some((tbl[j].1, tbl[j].2, tbl[j].3));
        }
        j = j + 1;
    }
    None
}

/// Equality of two owned strings, by view.
fn str_equal(a: &String, b: &String) -> (r: bool)
    ensures
        r == (a@ == b@),
{
    crate::text::str_eq(a.as_str(), b.as_str())
}

/// Assemble a classified program into the two 256-byte memory images.
///
/// On success the instruction image holds every instruction's canonical
/// bytes with every label reference patched to its resolved address, and the
/// data image holds exactly the declared initial values over zeros. On
/// failure the images' contents are unspecified scratch, as pass 1 may have
/// partially written them.
#[verifier::loop_isolation(false)]
pub fn assemble(
    code: &[AssemblyLine],
    bios_memory: &mut Vec<u8>,
    data_memory: &mut Vec<u8>,
) -> (r: Result<(), AssemblingError>)
    requires
        old(bios_memory).len() == BIOS_MEM_SIZE,
        old(data_memory).len() == DATA_MEM_SIZE,
    ensures
        final(bios_memory).len() == BIOS_MEM_SIZE,
        final(data_memory).len() == DATA_MEM_SIZE,
        (match spec_assemble(nodes_view(code@), old(bios_memory)@) {
            Ok(images) => r is Ok && final(bios_memory)@ == images.0 && final(data_memory)@
                == images.1,
            Err(fault) => r matches Err(e) && e@ == fault,
        }),
{
    let ghost snodes = nodes_view(code@);
    let ghost bios0 = old(bios_memory)@;
    let mut labels: Vec<(LabelString, usize, u8)> = Vec::new();
    let mut mems: Vec<(LabelString, usize, u8, u8)> = Vec::new();
    let mut fix_prog: Vec<(LabelString, u8)> = Vec::new();
    let mut fix_data: Vec<(LabelString, u8)> = Vec::new();
    let mut cur: u8 = 0;
    let mut data_cur: u8 = 0;
    proof {
        assert(labels_view(labels@) =~= Seq::<(Seq<char>, int, u8)>::empty());
        assert(mems_view(mems@) =~= Seq::<(Seq<char>, int, u8, u8)>::empty());
        assert(fixes_view(fix_prog@) =~= Seq::<(Seq<char>, u8)>::empty());
        assert(fixes_view(fix_data@) =~= Seq::<(Seq<char>, u8)>::empty());
        assert(Layout {
            labels: labels_view(labels@),
            mems: mems_view(mems@),
            fix_prog: fixes_view(fix_prog@),
            fix_data: fixes_view(fix_data@),
            cur: 0u8,
            data_cur: 0u8,
            bios: bios_memory@,
        } =~= init_layout(bios0));
    }
    let mut i: usize = 0;
    while i < code.len()
        invariant
            snodes == nodes_view(code@),
            bios_memory.len() == 256,
            data_memory@ == old(data_memory)@,
            old(data_memory).len() == 256,
            i <= code.len(),
            pass1_upto(snodes, i as int, bios0) == Ok::<Layout, AsmFault>(
                Layout {
                    labels: labels_view(labels@),
                    mems: mems_view(mems@),
                    fix_prog: fixes_view(fix_prog@),
                    fix_data: fixes_view(fix_data@),
                    cur: cur,
                    data_cur: data_cur,
                    bios: bios_memory@,
                },
            ),
        decreases code.len() - i,
    {
        let ghost st = Layout {
            labels: labels_view(labels@),
            mems: mems_view(mems@),
            fix_prog: fixes_view(fix_prog@),
            fix_data: fixes_view(fix_data@),
            cur: cur,
            data_cur: data_cur,
            bios: bios_memory@,
        };
        proof {
            assert(snodes[i as int] == code@[i as int]@);
        }
        match &code[i] {
            AssemblyLine::EmptyLine => {
                proof {
                    assert(pass1_upto(snodes, i + 1, bios0) == Ok::<Layout, AsmFault>(st));
                }
            },
            AssemblyLine::Label { name } => {
                match find_label_exec(&labels, name) {
                    Some(info) => {
                        let e = AssemblingError::DuplicateLabel {
                            name: name.0.clone(),
                            first_defined: info.0,
                            redefined: i,
                        };
                        proof {
                            assert(pass1_upto(snodes, i + 1, bios0) == Err::<Layout, AsmFault>(e@));
                            lemma_pass1_error_persists(snodes, bios0, i + 1, snodes.len() as int);
                        }
                        return Err(e);
                    },
                    None => {
                        let entry = (name.duplicate(), i, cur);
                        proof {
                            assert(labels_view(labels@.push(entry)) =~= labels_view(
                                labels@,
                            ).push((name@, i as int, cur)));
                        }
                        labels.push(entry);
                        proof {
                            assert(pass1_step(st, snodes[i as int], i as int) == Ok::<
                                Layout,
                                AsmFault,
                            >(
                                Layout {
                                    labels: labels_view(labels@),
                                    mems: mems_view(mems@),
                                    fix_prog: fixes_view(fix_prog@),
                                    fix_data: fixes_view(fix_data@),
                                    cur: cur,
                                    data_cur: data_cur,
                                    bios: bios_memory@,
                                },
                            ));
                        }
                    },
                }
            },
            AssemblyLine::MemoryDeclaration { label, value } => {
                match find_mem_exec(&mems, label) {
                    Some(info) => {
                        let e = AssemblingError::DuplicateMemory {
                            name: label.0.clone(),
                            first_defined: info.0,
                            redefined: i,
                        };
                        proof {
                            assert(pass1_upto(snodes, i + 1, bios0) == Err::<Layout, AsmFault>(e@));
                            lemma_pass1_error_persists(snodes, bios0, i + 1, snodes.len() as int);
                        }
                        return Err(e);
                    },
                    None => {
                        if data_cur == 255 {
                            proof {
                                assert(pass1_upto(snodes, i + 1, bios0) == Err::<Layout, AsmFault>(
                                    AsmFault::PointerOverflow,
                                ));
                                lemma_pass1_error_persists(
                                    snodes,
                                    bios0,
                                    i + 1,
                                    snodes.len() as int,
                                );
                            }
                            return Err(AssemblingError::PointerOverflow);
                        }
                        let entry = (label.duplicate(), i, data_cur, *value);
                        proof {
                            assert(mems_view(mems@.push(entry)) =~= mems_view(mems@).push(
                                (label@, i as int, data_cur, *value),
                            ));
                        }
                        mems.push(entry);
                        data_cur = data_cur + 1;
                        proof {
                            assert(pass1_step(st, snodes[i as int], i as int) == Ok::<
                                Layout,
                                AsmFault,
                            >(
                                Layout {
                                    labels: labels_view(labels@),
                                    mems: mems_view(mems@),
                                    fix_prog: fixes_view(fix_prog@),
                                    fix_data: fixes_view(fix_data@),
                                    cur: cur,
                                    data_cur: data_cur,
                                    bios: bios_memory@,
                                },
                            ));
                        }
                    },
                }
            },
            AssemblyLine::Op(op) => {
                let ghost sop = op@;
                let (placeholder, fix) = op.placeholder_labels();
                let bytes = placeholder.encode();
                let len = bytes.len();
                proof {
                    lemma_placeholder_well_formed(sop);
                }
                if cur as usize + len > 256 {
                    proof {
                        assert(pass1_upto(snodes, i + 1, bios0) == Err::<Layout, AsmFault>(
                            AsmFault::MemoryOverflow,
                        ));
                        lemma_pass1_error_persists(snodes, bios0, i + 1, snodes.len() as int);
                    }
                    return Err(AssemblingError::MemoryOverflow);
                }
                let ghost pre_bios = bios_memory@;
                let mut k: usize = 0;
                while k < len
                    invariant
                        bios_memory.len() == 256,
                        len == bytes.len(),
                        cur as int + len <= 256,
                        k <= len,
                        forall|m: int|
                            0 <= m < 256 ==> bios_memory@[m] == (if cur <= m < cur + k {
                                bytes@[m - cur]
                            } else {
                                pre_bios[m]
                            }),
                    decreases len - k,
                {
                    let b = bytes[k];
                    bios_memory[cur as usize + k] = b;
                    k = k + 1;
                }
                proof {
                    assert(bios_memory@ =~= write_bytes(pre_bios, cur as int, bytes@));
                }
                let ghost bios1 = bios_memory@;
                match fix {
                    Some(f) => {
                        let (is_prog, arg_off, fname) = f;
                        let off = cur + arg_off;
                        if is_prog {
                            match find_label_exec(&labels, &fname) {
                                Some(info) => {
                                    bios_memory[off as usize] = info.1;
                                    proof {
                                        assert(bios_memory@ =~= bios1.update(off as int, info.1));
                                    }
                                },
                                None => {
                                    let entry = (fname, off);
                                    proof {
                                        assert(fixes_view(fix_prog@.push(entry)) =~= fixes_view(
                                            fix_prog@,
                                        ).push((entry.0@, off)));
                                    }
                                    fix_prog.push(entry);
                                },
                            }
                        } else {
                            match find_mem_exec(&mems, &fname) {
                                Some(info) => {
                                    bios_memory[off as usize] = info.1;
                                    proof {
                                        assert(bios_memory@ =~= bios1.update(off as int, info.1));
                                    }
                                },
                                None => {
                                    let entry = (fname, off);
                                    proof {
                                        assert(fixes_view(fix_data@.push(entry)) =~= fixes_view(
                                            fix_data@,
                                        ).push((entry.0@, off)));
                                    }
                                    fix_data.push(entry);
                                },
                            }
                        }
                    },
                    None => {},
                }
                if cur as usize + len > 255 {
                    proof {
                        assert(pass1_step(st, snodes[i as int], i as int) == Err::<
                            Layout,
                            AsmFault,
                        >(AsmFault::PointerOverflow));
                        assert(pass1_upto(snodes, i + 1, bios0) == Err::<Layout, AsmFault>(
                            AsmFault::PointerOverflow,
                        ));
                        lemma_pass1_error_persists(snodes, bios0, i + 1, snodes.len() as int);
                    }
                    return Err(AssemblingError::PointerOverflow);
                }
                cur = cur + len as u8;
                proof {
                    assert(pass1_step(st, snodes[i as int], i as int) == Ok::<Layout, AsmFault>(
                        Layout {
                            labels: labels_view(labels@),
                            mems: mems_view(mems@),
                            fix_prog: fixes_view(fix_prog@),
                            fix_data: fixes_view(fix_data@),
                            cur: cur,
                            data_cur: data_cur,
                            bios: bios_memory@,
                        },
                    ));
                }
            },
        }
        i = i + 1;
    }
    let ghost st1 = Layout {
        labels: labels_view(labels@),
        mems: mems_view(mems@),
        fix_prog: fixes_view(fix_prog@),
        fix_data: fixes_view(fix_data@),
        cur: cur,
        data_cur: data_cur,
        bios: bios_memory@,
    };
    proof {
        assert(spec_pass1(snodes, bios0) == Ok::<Layout, AsmFault>(st1));
    }
    // Pass 2: patch the recorded program-label fixups.
    let ghost bios_p1 = bios_memory@;
    proof {
        assert(st1.fix_prog.skip(0) =~= st1.fix_prog);
    }
    let mut j: usize = 0;
    while j < fix_prog.len()
        invariant
            bios_memory.len() == 256,
            data_memory@ == old(data_memory)@,
            old(data_memory).len() == 256,
            j <= fix_prog.len(),
            st1.fix_prog == fixes_view(fix_prog@),
            st1.labels == labels_view(labels@),
            apply_prog_fixups(bios_p1, st1.fix_prog, st1.labels) == apply_prog_fixups(
                bios_memory@,
                st1.fix_prog.skip(j as int),
                st1.labels,
            ),
        decreases fix_prog.len() - j,
    {
        proof {
            assert(st1.fix_prog[j as int] == (fix_prog@[j as int].0@, fix_prog@[j as int].1));
            assert(st1.fix_prog.skip(j as int).drop_first() =~= st1.fix_prog.skip(j + 1));
        }
        let (fname, off) = (&fix_prog[j].0, fix_prog[j].1);
        match find_label_exec(&labels, fname) {
            Some(info) => {
                bios_memory[off as usize] = info.1;
            },
            None => {
                proof {
                    assert(apply_prog_fixups(bios_p1, st1.fix_prog, st1.labels) == Err::<
                        Seq<u8>,
                        AsmFault,
                    >(AsmFault::InvalidLabel));
                }
                return Err(AssemblingError::InvalidLabel);
            },
        }
        j = j + 1;
    }
    proof {
        assert(st1.fix_prog.skip(fix_prog@.len() as int) =~= Seq::<(Seq<char>, u8)>::empty());
        assert(apply_prog_fixups(bios_p1, st1.fix_prog, st1.labels) == Ok::<Seq<u8>, AsmFault>(
            bios_memory@,
        ));
    }
    // Pass 2: patch the recorded data-label fixups.
    let ghost bios_p2 = bios_memory@;
    proof {
        assert(st1.fix_data.skip(0) =~= st1.fix_data);
    }
    let mut j2: usize = 0;
    while j2 < fix_data.len()
        invariant
            bios_memory.len() == 256,
            data_memory@ == old(data_memory)@,
            old(data_memory).len() == 256,
            j2 <= fix_data.len(),
            st1.fix_data == fixes_view(fix_data@),
            st1.mems == mems_view(mems@),
            apply_data_fixups(bios_p2, st1.fix_data, st1.mems) == apply_data_fixups(
                bios_memory@,
                st1.fix_data.skip(j2 as int),
                st1.mems,
            ),
        decreases fix_data.len() - j2,
    {
        proof {
            assert(st1.fix_data[j2 as int] == (fix_data@[j2 as int].0@, fix_data@[j2 as int].1));
            assert(st1.fix_data.skip(j2 as int).drop_first() =~= st1.fix_data.skip(j2 + 1));
        }
        let (fname, off) = (&fix_data[j2].0, fix_data[j2].1);
        match find_mem_exec(&mems, fname) {
            Some(info) => {
                bios_memory[off as usize] = info.1;
            },
            None => {
                proof {
                    assert(apply_data_fixups(bios_p2, st1.fix_data, st1.mems) == Err::<
                        Seq<u8>,
                        AsmFault,
                    >(AsmFault::InvalidMemoryLabel));
                }
                return Err(AssemblingError::InvalidMemoryLabel);
            },
        }
        j2 = j2 + 1;
    }
    proof {
        assert(st1.fix_data.skip(fix_data@.len() as int) =~= Seq::<(Seq<char>, u8)>::empty());
        assert(apply_data_fixups(bios_p2, st1.fix_data, st1.mems) == Ok::<Seq<u8>, AsmFault>(
            bios_memory@,
        ));
    }
    // Finalization: wipe the data image, then write the declared values.
    let mut w: usize = 0;
    while w < DATA_MEM_SIZE
        invariant
            data_memory.len() == 256,
            w <= 256,
            forall|m: int| 0 <= m < w ==> data_memory@[m] == 0u8,
        decreases DATA_MEM_SIZE - w,
    {
        data_memory[w] = 0;
        w = w + 1;
    }
    proof {
        assert(data_memory@ =~= zero_image());
        assert(data_image(st1.mems.take(0)) =~= zero_image());
    }
    let mut v: usize = 0;
    while v < mems.len()
        invariant
            bios_memory.len() == 256,
            data_memory.len() == 256,
            v <= mems.len(),
            st1.mems == mems_view(mems@),
            data_memory@ == data_image(st1.mems.take(v as int)),
        decreases mems.len() - v,
    {
        proof {
            assert(st1.mems[v as int] == (mems@[v as int].0@, mems@[v as int].1 as int, mems@[v as int].2, mems@[v as int].3));
            assert(st1.mems.take(v + 1).drop_last() =~= st1.mems.take(v as int));
            assert(st1.mems.take(v + 1).last() == st1.mems[v as int]);
        }
        let off = mems[v].2;
        let value = mems[v].3;
        data_memory[off as usize] = value;
        v = v + 1;
    }
    proof {
        assert(st1.mems.take(mems@.len() as int) =~= st1.mems);
    }
    Ok(())
}

} // verus!

//! The laws the assembler obeys, stated over the specification functions and
//! proved once for every program.

use vstd::prelude::*;

use crate::assemble::apply_data_fixups;
use crate::assemble::apply_prog_fixups;
use crate::assemble::find_label;
use crate::assemble::find_mem;
use crate::assemble::pass1_step;
use crate::assemble::pass1_upto;
use crate::assemble::lemma_pass1_error_persists;
use crate::opcode::lemma_placeholder_well_formed;
use crate::assemble::spec_assemble;
use crate::assemble::spec_pass1;
use crate::assemble::AsmFault;
use crate::assemble::Layout;
use crate::label::spec_validate_label;
use crate::label::strip_sigils;
use crate::line::collect_parse;
use crate::line::spec_classify;
use crate::line::AssemblyLineParseError;
use crate::line::LineNode;
use crate::text::trim_lead;

verus! {

/// Classifying the same line text always yields the same line node or error:
/// classification is a function of the text alone.
pub proof fn lemma_classify_deterministic(a: Seq<char>, b: Seq<char>)
    requires
        a == b,
    ensures
        spec_classify(a) == spec_classify(b),
{
}

/// A `$`-prefixed and an `@`-prefixed form of one body validate identically:
/// the sigil never influences the normalized label or the error. (A body
/// whose own first character is `$` is the one exception: the `$` sigil
/// absorbs it.)
pub proof fn lemma_sigil_equivalent(body: Seq<char>)
    requires
        !(body.len() > 0 && body[0] == '$'),
    ensures
        spec_validate_label(seq!['$'] + body) == spec_validate_label(seq!['@'] + body),
{
    let d = seq!['$'] + body;
    let a = seq!['@'] + body;
    assert(d.drop_first() =~= body);
    assert(a.drop_first() =~= body);
    assert(trim_lead(d, '$') == trim_lead(body, '$'));
    assert(trim_lead(body, '$') == body);
    assert(trim_lead(a, '$') == a);
    assert(trim_lead(a, '@') == trim_lead(body, '@'));
    assert(strip_sigils(d) == strip_sigils(a));
}

/// Every diagnostic names a real line and carries exactly that line's own
/// classification error: no valid line is ever fused with an error.
pub proof fn lemma_diagnostics_sound(lines: Seq<Seq<char>>, k: int)
    requires
        0 <= k < collect_parse(lines).1.len(),
    ensures
        0 <= collect_parse(lines).1[k].0 < lines.len(),
        spec_classify(lines[collect_parse(lines).1[k].0]) == Err::<
            LineNode,
            AssemblyLineParseError,
        >(collect_parse(lines).1[k].1),
    decreases lines.len(),
{
    let prev = collect_parse(lines.drop_last());
    if k < prev.1.len() {
        lemma_diagnostics_sound(lines.drop_last(), k);
        assert(lines.drop_last()[prev.1[k].0] == lines[prev.1[k].0]);
    }
}

/// Diagnostics come out ordered by line index.
pub proof fn lemma_diagnostics_ordered(lines: Seq<Seq<char>>, k1: int, k2: int)
    requires
        0 <= k1 < k2 < collect_parse(lines).1.len(),
    ensures
        collect_parse(lines).1[k1].0 < collect_parse(lines).1[k2].0,
    decreases lines.len(),
{
    let prev = collect_parse(lines.drop_last());
    if k2 < prev.1.len() {
        lemma_diagnostics_ordered(lines.drop_last(), k1, k2);
    } else {
        lemma_diagnostics_sound(lines.drop_last(), k1);
    }
}

/// Every line that fails to classify appears among the diagnostics, with its
/// own error: classification never stops at the first failure.
pub proof fn lemma_diagnostics_complete(lines: Seq<Seq<char>>, i: int)
    requires
        0 <= i < lines.len(),
        spec_classify(lines[i]) is Err,
    ensures
        exists|k: int|
            0 <= k < collect_parse(lines).1.len() && collect_parse(lines).1[k] == (
            i,
            spec_classify(lines[i])->Err_0,
            ),
    decreases lines.len(),
{
    let prev = collect_parse(lines.drop_last());
    if i == lines.len() - 1 {
        assert(collect_parse(lines).1[prev.1.len() as int] == (
            i,
            spec_classify(lines[i])->Err_0,
        ));
    } else {
        assert(lines.drop_last()[i] == lines[i]);
        lemma_diagnostics_complete(lines.drop_last(), i);
        let k = choose|k: int|
            0 <= k < prev.1.len() && prev.1[k] == (i, spec_classify(lines[i])->Err_0);
        assert(collect_parse(lines).1[k] == (i, spec_classify(lines[i])->Err_0));
    }
}

/// When every line classifies, the node list is complete and in source
/// order: one node per line, each the line's own classification.
pub proof fn lemma_all_valid_nodes(lines: Seq<Seq<char>>, i: int)
    requires
        forall|k: int| 0 <= k < lines.len() ==> spec_classify(lines[k]) is Ok,
        0 <= i < lines.len(),
    ensures
        collect_parse(lines).0.len() == lines.len(),
        collect_parse(lines).0[i] == spec_classify(lines[i])->Ok_0,
    decreases lines.len(),
{
    assert(lines.drop_last().len() == lines.len() - 1);
    assert(forall|k: int|
        0 <= k < lines.drop_last().len() ==> lines.drop_last()[k] == lines[k]);
    if lines.len() > 1 {
        lemma_all_valid_nodes(lines.drop_last(), if i < lines.len() - 1 {
            i
        } else {
            0
        });
    }
}

/// What `find_label` yields on a table extended by one entry.
proof fn lemma_find_label_push(
    tbl: Seq<(Seq<char>, int, u8)>,
    e: (Seq<char>, int, u8),
    name: Seq<char>,
)
    ensures
        find_label(tbl.push(e), name) == (if find_label(tbl, name) is Some {
            find_label(tbl, name)
        } else if e.0 == name {
            Some((e.1, e.2))
        } else {
            None
        }),
    decreases tbl.len(),
{
    if tbl.len() == 0 {
        assert(tbl.push(e)[0] == e);
        assert(tbl.push(e).drop_first() =~= Seq::<(Seq<char>, int, u8)>::empty());
        assert(find_label(Seq::<(Seq<char>, int, u8)>::empty(), name) is None);
    } else {
        assert(tbl.push(e)[0] == tbl[0]);
        assert(tbl.push(e).drop_first() =~= tbl.drop_first().push(e));
        lemma_find_label_push(tbl.drop_first(), e, name);
    }
}

/// What `find_mem` yields on a table extended by one entry.
proof fn lemma_find_mem_push(
    tbl: Seq<(Seq<char>, int, u8, u8)>,
    e: (Seq<char>, int, u8, u8),
    name: Seq<char>,
)
    ensures
        find_mem(tbl.push(e), name) == (if find_mem(tbl, name) is Some {
            find_mem(tbl, name)
        } else if e.0 == name {
            Some((e.1, e.2, e.3))
        } else {
            None
        }),
    decreases tbl.len(),
{
    if tbl.len() == 0 {
        assert(tbl.push(e)[0] == e);
        assert(tbl.push(e).drop_first() =~= Seq::<(Seq<char>, int, u8, u8)>::empty());
        assert(find_mem(Seq::<(Seq<char>, int, u8, u8)>::empty(), name) is None);
    } else {
        assert(tbl.push(e)[0] == tbl[0]);
        assert(tbl.push(e).drop_first() =~= tbl.drop_first().push(e));
        lemma_find_mem_push(tbl.drop_first(), e, name);
    }
}

/// Once pass 1 has walked past a label definition, the program-label table
/// holds its name.
proof fn lemma_label_defined(
    code: Seq<LineNode>,
    bios0: Seq<u8>,
    m: int,
    k: int,
    name: Seq<char>,
)
    requires
        0 <= k < m <= code.len(),
        code[k] == (LineNode::Label { name }),
        pass1_upto(code, m, bios0) is Ok,
    ensures
        find_label(pass1_upto(code, m, bios0)->Ok_0.labels, name) is Some,
    decreases m,
{
    let prev = pass1_upto(code, m - 1, bios0);
    assert(prev is Ok);
    let st = prev->Ok_0;
    if k == m - 1 {
        lemma_find_label_push(st.labels, (name, m - 1, st.cur), name);
    } else {
        lemma_label_defined(code, bios0, m - 1, k, name);
        match code[m - 1] {
            LineNode::Label { name: n2 } => {
                lemma_find_label_push(st.labels, (n2, m - 1, st.cur), name);
            },
            _ => {},
        }
    }
}

/// Once pass 1 has walked past a memory declaration, the data-label table
/// holds its name.
proof fn lemma_mem_defined(code: Seq<LineNode>, bios0: Seq<u8>, m: int, k: int, name: Seq<char>)
    requires
        0 <= k < m <= code.len(),
        (code[k] matches LineNode::MemoryDeclaration { name: n, .. } && n == name),
    ensures
        pass1_upto(code, m, bios0) is Ok ==> find_mem(
            pass1_upto(code, m, bios0)->Ok_0.mems,
            name,
        ) is Some,
    decreases m,
{
    if pass1_upto(code, m, bios0) is Ok {
        let prev = pass1_upto(code, m - 1, bios0);
        assert(prev is Ok);
        let st = prev->Ok_0;
        if k == m - 1 {
            match code[k] {
                LineNode::MemoryDeclaration { name: n, value } => {
                    lemma_find_mem_push(st.mems, (n, m - 1, st.data_cur, value), name);
                },
                _ => {},
            }
        } else {
            lemma_mem_defined(code, bios0, m - 1, k, name);
            match code[m - 1] {
                LineNode::MemoryDeclaration { name: n2, value } => {
                    lemma_find_mem_push(st.mems, (n2, m - 1, st.data_cur, value), name);
                },
                _ => {},
            }
        }
    }
}

/// Two label definitions with one name, on any two lines and with anything
/// between them, make the whole program unassemblable.
pub proof fn lemma_duplicate_label_fails(
    code: Seq<LineNode>,
    bios0: Seq<u8>,
    i: int,
    j: int,
    name: Seq<char>,
)
    requires
        0 <= i < j < code.len(),
        code[i] == (LineNode::Label { name }),
        code[j] == (LineNode::Label { name }),
    ensures
        spec_assemble(code, bios0) is Err,
{
    if pass1_upto(code, j, bios0) is Ok {
        lemma_label_defined(code, bios0, j, i, name);
        assert(pass1_upto(code, j + 1, bios0) is Err);
        lemma_pass1_error_persists(code, bios0, j + 1, code.len() as int);
    } else {
        lemma_pass1_error_persists(code, bios0, j, code.len() as int);
    }
}

/// When pass 1 reaches a label line whose name the table already holds, the
/// whole program fails with a duplicate-label fault citing the first
/// definition's line and the redefining line.
pub proof fn lemma_duplicate_label_fault(code: Seq<LineNode>, bios0: Seq<u8>, j: int, name: Seq<char>)
    requires
        0 <= j < code.len(),
        code[j] == (LineNode::Label { name }),
        pass1_upto(code, j, bios0) is Ok,
        find_label(pass1_upto(code, j, bios0)->Ok_0.labels, name) is Some,
    ensures
        spec_assemble(code, bios0) == Err::<(Seq<u8>, Seq<u8>), AsmFault>(
            AsmFault::DuplicateLabel {
                name: name,
                first_defined: find_label(pass1_upto(code, j, bios0)->Ok_0.labels, name)->Some_0.0,
                redefined: j,
            },
        ),
{
    assert(pass1_upto(code, j + 1, bios0) is Err);
    lemma_pass1_error_persists(code, bios0, j + 1, code.len() as int);
}

/// When pass 1 reaches a memory declaration whose name the table already
/// holds, the whole program fails with a duplicate data-label fault citing
/// the first declaration's line and the redeclaring line.
pub proof fn lemma_duplicate_memory_fault(
    code: Seq<LineNode>,
    bios0: Seq<u8>,
    j: int,
    name: Seq<char>,
)
    requires
        0 <= j < code.len(),
        (code[j] matches LineNode::MemoryDeclaration { name: n, .. } && n == name),
        pass1_upto(code, j, bios0) is Ok,
        find_mem(pass1_upto(code, j, bios0)->Ok_0.mems, name) is Some,
    ensures
        spec_assemble(code, bios0) == Err::<(Seq<u8>, Seq<u8>), AsmFault>(
            AsmFault::DuplicateMemory {
                name: name,
                first_defined: find_mem(pass1_upto(code, j, bios0)->Ok_0.mems, name)->Some_0.0,
                redefined: j,
            },
        ),
{
    assert(pass1_upto(code, j + 1, bios0) is Err);
    lemma_pass1_error_persists(code, bios0, j + 1, code.len() as int);
}

/// Two memory declarations with one name, on any two lines and with anything
/// between them, make the whole program unassemblable.
pub proof fn lemma_duplicate_memory_fails(
    code: Seq<LineNode>,
    bios0: Seq<u8>,
    i: int,
    j: int,
    name: Seq<char>,
)
    requires
        0 <= i < j < code.len(),
        (code[i] matches LineNode::MemoryDeclaration { name: n, .. } && n == name),
        (code[j] matches LineNode::MemoryDeclaration { name: n, .. } && n == name),
    ensures
        spec_assemble(code, bios0) is Err,
{
    if pass1_upto(code, j, bios0) is Ok {
        lemma_mem_defined(code, bios0, j, i, name);
        assert(pass1_upto(code, j + 1, bios0) is Err);
        lemma_pass1_error_persists(code, bios0, j + 1, code.len() as int);
    } else {
        lemma_pass1_error_persists(code, bios0, j, code.len() as int);
    }
}

/// Resolving a fixup list fails with the unresolved-label fault as soon as
/// any recorded name is not in the completed table.
proof fn lemma_apply_prog_missing(
    bios: Seq<u8>,
    fixes: Seq<(Seq<char>, u8)>,
    labels: Seq<(Seq<char>, int, u8)>,
    k: int,
)
    requires
        0 <= k < fixes.len(),
        find_label(labels, fixes[k].0) is None,
    ensures
        apply_prog_fixups(bios, fixes, labels) == Err::<Seq<u8>, AsmFault>(AsmFault::InvalidLabel),
    decreases fixes.len(),
{
    if k > 0 {
        match find_label(labels, fixes[0].0) {
            Some(info) => {
                lemma_apply_prog_missing(
                    bios.update(fixes[0].1 as int, info.1),
                    fixes.drop_first(),
                    labels,
                    k - 1,
                );
            },
            None => {},
        }
    }
}

/// Resolving the data fixup list fails with the unresolved-data-label fault
/// as soon as any recorded name is not in the completed table.
proof fn lemma_apply_data_missing(
    bios: Seq<u8>,
    fixes: Seq<(Seq<char>, u8)>,
    mems: Seq<(Seq<char>, int, u8, u8)>,
    k: int,
)
    requires
        0 <= k < fixes.len(),
        find_mem(mems, fixes[k].0) is None,
    ensures
        apply_data_fixups(bios, fixes, mems) == Err::<Seq<u8>, AsmFault>(
            AsmFault::InvalidMemoryLabel,
        ),
    decreases fixes.len(),
{
    if k > 0 {
        match find_mem(mems, fixes[0].0) {
            Some(info) => {
                lemma_apply_data_missing(
                    bios.update(fixes[0].1 as int, info.1),
                    fixes.drop_first(),
                    mems,
                    k - 1,
                );
            },
            None => {},
        }
    }
}

/// Every recorded fixup offset lies below the cursor, and no two fixups,
/// whether of one list or across the two, share an offset.
pub open spec fn fix_offsets_ok(st: Layout) -> bool {
    &&& (forall|k: int| 0 <= k < st.fix_prog.len() ==> st.fix_prog[k].1 < st.cur)
    &&& (forall|k: int| 0 <= k < st.fix_data.len() ==> st.fix_data[k].1 < st.cur)
    &&& (forall|k1: int, k2: int|
        0 <= k1 < k2 < st.fix_prog.len() ==> st.fix_prog[k1].1 != st.fix_prog[k2].1)
    &&& (forall|k1: int, k2: int|
        0 <= k1 < k2 < st.fix_data.len() ==> st.fix_data[k1].1 != st.fix_data[k2].1)
    &&& (forall|k1: int, k2: int|
        0 <= k1 < st.fix_prog.len() && 0 <= k2 < st.fix_data.len() ==> st.fix_prog[k1].1
            != st.fix_data[k2].1)
}

/// One pass-1 step keeps the fixup offsets distinct: a new fixup's offset
/// lies at or above the old cursor, so above every recorded offset, and the
/// cursor then advances past it.
proof fn lemma_step_fix_offsets(st: Layout, node: LineNode, ln: int)
    requires
        fix_offsets_ok(st),
        pass1_step(st, node, ln) is Ok,
    ensures
        fix_offsets_ok(pass1_step(st, node, ln)->Ok_0),
{
    match node {
        LineNode::Op(op) => {
            lemma_placeholder_well_formed(op);
            let st2 = pass1_step(st, node, ln)->Ok_0;
            assert forall|k: int| 0 <= k < st2.fix_prog.len() implies st2.fix_prog[k].1
                < st2.cur by {
                if k < st.fix_prog.len() {
                    assert(st2.fix_prog[k] == st.fix_prog[k]);
                }
            }
            assert forall|k: int| 0 <= k < st2.fix_data.len() implies st2.fix_data[k].1
                < st2.cur by {
                if k < st.fix_data.len() {
                    assert(st2.fix_data[k] == st.fix_data[k]);
                }
            }
        },
        _ => {},
    }
}

/// Pass 1 always leaves the fixup offsets distinct.
proof fn lemma_pass1_fix_offsets(code: Seq<LineNode>, bios0: Seq<u8>, m: int)
    requires
        0 <= m <= code.len(),
        pass1_upto(code, m, bios0) is Ok,
    ensures
        fix_offsets_ok(pass1_upto(code, m, bios0)->Ok_0),
    decreases m,
{
    if m > 0 {
        lemma_pass1_fix_offsets(code, bios0, m - 1);
        lemma_step_fix_offsets(pass1_upto(code, m - 1, bios0)->Ok_0, code[m - 1], m - 1);
    }
}

/// Pass 1 never changes the instruction image's size.
proof fn lemma_pass1_bios_len(code: Seq<LineNode>, bios0: Seq<u8>, m: int)
    requires
        0 <= m <= code.len(),
        bios0.len() == 256,
        pass1_upto(code, m, bios0) is Ok,
    ensures
        pass1_upto(code, m, bios0)->Ok_0.bios.len() == 256,
    decreases m,
{
    if m > 0 {
        lemma_pass1_bios_len(code, bios0, m - 1);
    }
}

/// Pass 2 never changes the instruction image's size.
proof fn lemma_apply_prog_len(
    bios: Seq<u8>,
    fixes: Seq<(Seq<char>, u8)>,
    labels: Seq<(Seq<char>, int, u8)>,
)
    requires
        bios.len() == 256,
        apply_prog_fixups(bios, fixes, labels) is Ok,
    ensures
        apply_prog_fixups(bios, fixes, labels)->Ok_0.len() == 256,
    decreases fixes.len(),
{
    if fixes.len() > 0 {
        match find_label(labels, fixes[0].0) {
            Some(info) => {
                lemma_apply_prog_len(bios.update(fixes[0].1 as int, info.1), fixes.drop_first(), labels);
            },
            None => {},
        }
    }
}

/// A byte no program-label fixup points at survives pass 2 unchanged.
proof fn lemma_apply_prog_preserves(
    bios: Seq<u8>,
    fixes: Seq<(Seq<char>, u8)>,
    labels: Seq<(Seq<char>, int, u8)>,
    off: int,
)
    requires
        bios.len() == 256,
        forall|k: int| 0 <= k < fixes.len() ==> fixes[k].1 != off,
        apply_prog_fixups(bios, fixes, labels) is Ok,
        0 <= off < 256,
    ensures
        apply_prog_fixups(bios, fixes, labels)->Ok_0[off] == bios[off],
    decreases fixes.len(),
{
    if fixes.len() > 0 {
        match find_label(labels, fixes[0].0) {
            Some(info) => {
                assert(forall|k: int|
                    0 <= k < fixes.drop_first().len() ==> fixes.drop_first()[k] == fixes[k + 1]);
                lemma_apply_prog_preserves(
                    bios.update(fixes[0].1 as int, info.1),
                    fixes.drop_first(),
                    labels,
                    off,
                );
            },
            None => {},
        }
    }
}

/// A byte no data-label fixup points at survives the data fixup pass
/// unchanged.
proof fn lemma_apply_data_preserves(
    bios: Seq<u8>,
    fixes: Seq<(Seq<char>, u8)>,
    mems: Seq<(Seq<char>, int, u8, u8)>,
    off: int,
)
    requires
        bios.len() == 256,
        forall|k: int| 0 <= k < fixes.len() ==> fixes[k].1 != off,
        apply_data_fixups(bios, fixes, mems) is Ok,
        0 <= off < 256,
    ensures
        apply_data_fixups(bios, fixes, mems)->Ok_0[off] == bios[off],
    decreases fixes.len(),
{
    if fixes.len() > 0 {
        match find_mem(mems, fixes[0].0) {
            Some(info) => {
                assert(forall|k: int|
                    0 <= k < fixes.drop_first().len() ==> fixes.drop_first()[k] == fixes[k + 1]);
                lemma_apply_data_preserves(
                    bios.update(fixes[0].1 as int, info.1),
                    fixes.drop_first(),
                    mems,
                    off,
                );
            },
            None => {},
        }
    }
}

/// When pass 2 succeeds over distinct offsets, each program-label fixup's
/// byte holds exactly its label's resolved address.
proof fn lemma_apply_prog_sets(
    bios: Seq<u8>,
    fixes: Seq<(Seq<char>, u8)>,
    labels: Seq<(Seq<char>, int, u8)>,
    k: int,
)
    requires
        0 <= k < fixes.len(),
        forall|k1: int, k2: int| 0 <= k1 < k2 < fixes.len() ==> fixes[k1].1 != fixes[k2].1,
        apply_prog_fixups(bios, fixes, labels) is Ok,
        bios.len() == 256,
    ensures
        find_label(labels, fixes[k].0) is Some,
        apply_prog_fixups(bios, fixes, labels)->Ok_0[fixes[k].1 as int] == find_label(
            labels,
            fixes[k].0,
        )->Some_0.1,
    decreases fixes.len(),
{
    let info = find_label(labels, fixes[0].0);
    assert(info is Some);
    let updated = bios.update(fixes[0].1 as int, info->Some_0.1);
    assert(forall|k1: int|
        0 <= k1 < fixes.drop_first().len() ==> fixes.drop_first()[k1] == fixes[k1 + 1]);
    if k == 0 {
        lemma_apply_prog_preserves(updated, fixes.drop_first(), labels, fixes[0].1 as int);
    } else {
        lemma_apply_prog_sets(updated, fixes.drop_first(), labels, k - 1);
    }
}

/// When the data fixup pass succeeds over distinct offsets, each data-label
/// fixup's byte holds exactly its label's data-memory offset.
proof fn lemma_apply_data_sets(
    bios: Seq<u8>,
    fixes: Seq<(Seq<char>, u8)>,
    mems: Seq<(Seq<char>, int, u8, u8)>,
    k: int,
)
    requires
        0 <= k < fixes.len(),
        forall|k1: int, k2: int| 0 <= k1 < k2 < fixes.len() ==> fixes[k1].1 != fixes[k2].1,
        apply_data_fixups(bios, fixes, mems) is Ok,
        bios.len() == 256,
    ensures
        find_mem(mems, fixes[k].0) is Some,
        apply_data_fixups(bios, fixes, mems)->Ok_0[fixes[k].1 as int] == find_mem(
            mems,
            fixes[k].0,
        )->Some_0.1,
    decreases fixes.len(),
{
    let info = find_mem(mems, fixes[0].0);
    assert(info is Some);
    let updated = bios.update(fixes[0].1 as int, info->Some_0.1);
    assert(forall|k1: int|
        0 <= k1 < fixes.drop_first().len() ==> fixes.drop_first()[k1] == fixes[k1 + 1]);
    if k == 0 {
        lemma_apply_data_preserves(updated, fixes.drop_first(), mems, fixes[0].1 as int);
    } else {
        lemma_apply_data_sets(updated, fixes.drop_first(), mems, k - 1);
    }
}

/// Once assembling succeeds, every forward program-label reference is
/// resolved: the recorded placeholder byte of the finished instruction image
/// holds the referenced label's instruction-memory offset.
pub proof fn lemma_forward_reference_resolved(code: Seq<LineNode>, bios0: Seq<u8>, k: int)
    requires
        bios0.len() == 256,
        spec_assemble(code, bios0) is Ok,
        0 <= k < spec_pass1(code, bios0)->Ok_0.fix_prog.len(),
    ensures
        ({
            let st = spec_pass1(code, bios0)->Ok_0;
            &&& find_label(st.labels, st.fix_prog[k].0) is Some
            &&& spec_assemble(code, bios0)->Ok_0.0[st.fix_prog[k].1 as int] == find_label(
                st.labels,
                st.fix_prog[k].0,
            )->Some_0.1
        }),
{
    let st = spec_pass1(code, bios0)->Ok_0;
    lemma_pass1_fix_offsets(code, bios0, code.len() as int);
    lemma_pass1_bios_len(code, bios0, code.len() as int);
    lemma_apply_prog_sets(st.bios, st.fix_prog, st.labels, k);
    let b1 = apply_prog_fixups(st.bios, st.fix_prog, st.labels)->Ok_0;
    lemma_apply_prog_len(st.bios, st.fix_prog, st.labels);
    lemma_apply_data_preserves(b1, st.fix_data, st.mems, st.fix_prog[k].1 as int);
}

/// Once assembling succeeds, every forward data-label reference is resolved
/// to the label's assigned data-memory offset, not its initial value.
pub proof fn lemma_data_reference_resolved(code: Seq<LineNode>, bios0: Seq<u8>, k: int)
    requires
        bios0.len() == 256,
        spec_assemble(code, bios0) is Ok,
        0 <= k < spec_pass1(code, bios0)->Ok_0.fix_data.len(),
    ensures
        ({
            let st = spec_pass1(code, bios0)->Ok_0;
            &&& find_mem(st.mems, st.fix_data[k].0) is Some
            &&& spec_assemble(code, bios0)->Ok_0.0[st.fix_data[k].1 as int] == find_mem(
                st.mems,
                st.fix_data[k].0,
            )->Some_0.1
        }),
{
    let st = spec_pass1(code, bios0)->Ok_0;
    lemma_pass1_fix_offsets(code, bios0, code.len() as int);
    lemma_pass1_bios_len(code, bios0, code.len() as int);
    let b1 = apply_prog_fixups(st.bios, st.fix_prog, st.labels)->Ok_0;
    lemma_apply_prog_len(st.bios, st.fix_prog, st.labels);
    lemma_apply_data_sets(b1, st.fix_data, st.mems, k);
}

/// A program-label reference whose name is never defined makes the whole
/// program fail with the unresolved-label fault.
pub proof fn lemma_missing_label_fails(code: Seq<LineNode>, bios0: Seq<u8>, k: int)
    requires
        spec_pass1(code, bios0) is Ok,
        0 <= k < spec_pass1(code, bios0)->Ok_0.fix_prog.len(),
        find_label(
            spec_pass1(code, bios0)->Ok_0.labels,
            spec_pass1(code, bios0)->Ok_0.fix_prog[k].0,
        ) is None,
    ensures
        spec_assemble(code, bios0) == Err::<(Seq<u8>, Seq<u8>), AsmFault>(AsmFault::InvalidLabel),
{
    let st = spec_pass1(code, bios0)->Ok_0;
    lemma_apply_prog_missing(st.bios, st.fix_prog, st.labels, k);
}

/// A data-label reference whose name is never declared makes the whole
/// program fail with the unresolved-data-label fault, once every program
/// label resolves.
pub proof fn lemma_missing_memory_label_fails(code: Seq<LineNode>, bios0: Seq<u8>, k: int)
    requires
        spec_pass1(code, bios0) is Ok,
        ({
            let st = spec_pass1(code, bios0)->Ok_0;
            &&& apply_prog_fixups(st.bios, st.fix_prog, st.labels) is Ok
            &&& 0 <= k < st.fix_data.len()
            &&& find_mem(st.mems, st.fix_data[k].0) is None
        }),
    ensures
        spec_assemble(code, bios0) == Err::<(Seq<u8>, Seq<u8>), AsmFault>(
            AsmFault::InvalidMemoryLabel,
        ),
{
    let st = spec_pass1(code, bios0)->Ok_0;
    let b1 = apply_prog_fixups(st.bios, st.fix_prog, st.labels)->Ok_0;
    lemma_apply_data_missing(b1, st.fix_data, st.mems, k);
}

} // verus!

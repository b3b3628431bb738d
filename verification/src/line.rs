//! The line classifier: one source line becomes exactly one typed line node
//! or one structured parse error.
//!
//! The line is split on whitespace; the first token, case-folded, selects the
//! instruction or pseudo-op. A blank line, or one whose first token opens a
//! comment, is empty and never errors. A token ending in `:` that matches no
//! mnemonic is a label definition. Operand-disambiguating mnemonics try, in
//! strict order, register, unsigned 8-bit literal, label; the error of the
//! last attempt wins.

use vstd::prelude::*;
use vstd::string::StrSliceExecFns;
use vstd::string::StringExecFns;

use crate::api::CodeError;
use crate::label::spec_validate_label;
use crate::label::LabelParseError;
use crate::label::LabelString;
use crate::opcode::OpCode;
use crate::register::spec_register_of;
use crate::register::Register;
use crate::register::RegisterParseError;
use crate::text::fold_case;
use crate::text::lower_of;
use crate::text::parse_u8;
use crate::text::skip_trailing;
use crate::text::spec_lines;
use crate::text::spec_parse_u8;
use crate::text::spec_tokens;
use crate::text::split_lines;
use crate::text::str_eq;
use crate::text::strings_view;
use crate::text::tokenize;
use crate::text::trim_trail;

verus! {

/// One classified line of assembly.
#[derive(Debug)]
pub enum AssemblyLine {
    EmptyLine,
    Label { name: LabelString },
    MemoryDeclaration { label: LabelString, value: u8 },
    Op(OpCode<LabelString>),
}

/// The mathematical form of a line node, with label names as character
/// sequences.
pub enum LineNode {
    Empty,
    Label { name: Seq<char> },
    MemoryDeclaration { name: Seq<char>, value: u8 },
    Op(OpCode<Seq<char>>),
}

impl View for AssemblyLine {
    type V = LineNode;

    open spec fn view(&self) -> LineNode {
        match self {
            AssemblyLine::EmptyLine => LineNode::Empty,
            AssemblyLine::Label { name } => LineNode::Label { name: name@ },
            AssemblyLine::MemoryDeclaration { label, value } => LineNode::MemoryDeclaration {
                name: label@,
                value: *value,
            },
            AssemblyLine::Op(op) => LineNode::Op(op@),
        }
    }
}

/// Why a line fails to classify.
#[derive(Clone, Copy, Debug, PartialEq, Eq, Structural)]
pub enum AssemblyLineParseError {
    LetMissingLabel,
    LetInvalidLabel(LabelParseError),
    LetMissingEquals,
    LetInvalidValue,
    JmpMissingArgument,
    JmpInvalidArgument(LabelParseError),
    JmpcMissingArgument,
    JmpcInvalidArgument(LabelParseError),
    MovMissingTo,
    MovInvalidToRegister(RegisterParseError),
    MovMissingFrom,
    MovInvalidFrom(LabelParseError),
    CmpCallMissingComponent,
    InvalidLabel(LabelParseError),
    InvalidInstruction,
}

/// Classification of a `let NAME = VALUE` memory declaration.
pub open spec fn spec_classify_let(toks: Seq<Seq<char>>) -> Result<
    LineNode,
    AssemblyLineParseError,
> {
    if toks.len() < 2 {
        Err(AssemblyLineParseError::LetMissingLabel)
    } else {
        match spec_validate_label(lower_of(toks[1])) {
            Err(e) => Err(AssemblyLineParseError::LetInvalidLabel(e)),
            Ok(name) => {
                if toks.len() < 3 || toks[2] != "="@ {
                    Err(AssemblyLineParseError::LetMissingEquals)
                } else {
                    let vt = if toks.len() >= 4 {
                        toks[3]
                    } else {
                        "0"@
                    };
                    match spec_parse_u8(vt) {
                        Some(value) => Ok(LineNode::MemoryDeclaration { name, value }),
                        None => Err(AssemblyLineParseError::LetInvalidValue),
                    }
                }
            },
        }
    }
}

/// Classification of a `mov` instruction: the source operand tries register,
/// then immediate, then label.
pub open spec fn spec_classify_mov(toks: Seq<Seq<char>>) -> Result<
    LineNode,
    AssemblyLineParseError,
> {
    if toks.len() < 2 {
        Err(AssemblyLineParseError::MovMissingTo)
    } else {
        match spec_register_of(toks[1]) {
            None => Err(
                AssemblyLineParseError::MovInvalidToRegister(RegisterParseError::InvalidRegister),
            ),
            Some(to) => {
                if toks.len() < 3 {
                    Err(AssemblyLineParseError::MovMissingFrom)
                } else {
                    match spec_register_of(toks[2]) {
                        Some(from) => Ok(LineNode::Op(OpCode::MovReg { to, from })),
                        None => match spec_parse_u8(toks[2]) {
                            Some(imm) => Ok(LineNode::Op(OpCode::MovImm { to, from: imm })),
                            None => match spec_validate_label(toks[2]) {
                                Ok(from) => Ok(LineNode::Op(OpCode::MovAddr { to, from })),
                                Err(e) => Err(AssemblyLineParseError::MovInvalidFrom(e)),
                            },
                        },
                    }
                }
            },
        }
    }
}

/// Classification of a `cmp_call` instruction: the component operand tries
/// immediate, then label.
pub open spec fn spec_classify_cmp_call(toks: Seq<Seq<char>>) -> Result<
    LineNode,
    AssemblyLineParseError,
> {
    if toks.len() < 2 {
        Err(AssemblyLineParseError::CmpCallMissingComponent)
    } else {
        match spec_parse_u8(toks[1]) {
            Some(imm) => Ok(LineNode::Op(OpCode::CmpCallImm { component: imm })),
            None => match spec_validate_label(toks[1]) {
                Ok(component) => Ok(LineNode::Op(OpCode::CmpCallAddr { component })),
                Err(e) => Err(AssemblyLineParseError::MovInvalidFrom(e)),
            },
        }
    }
}

/// Classification of a first token that matches no mnemonic: a token ending
/// in `:` is a candidate label definition; anything else is unknown.
pub open spec fn spec_classify_other(t0: Seq<char>) -> Result<LineNode, AssemblyLineParseError> {
    if t0.len() > 0 && t0.last() == ':' {
        match spec_validate_label(seq!['$'] + trim_trail(t0, ':')) {
            Ok(name) => Ok(LineNode::Label { name }),
            Err(e) => Err(AssemblyLineParseError::InvalidLabel(e)),
        }
    } else {
        Err(AssemblyLineParseError::InvalidInstruction)
    }
}

/// What classifying one line of text yields: exactly one line node or one
/// structured error, never both and never neither.
pub open spec fn spec_classify(line: Seq<char>) -> Result<LineNode, AssemblyLineParseError> {
    let toks = spec_tokens(line);
    if toks.len() == 0 {
        Ok(LineNode::Empty)
    } else if toks[0].len() >= 2 && toks[0][0] == '/' && toks[0][1] == '/' {
        Ok(LineNode::Empty)
    } else {
        let t0 = lower_of(toks[0]);
        if t0 == "let"@ {
            spec_classify_let(toks)
        } else if t0 == "add"@ {
            Ok(LineNode::Op(OpCode::Add))
        } else if t0 == "sub"@ {
            Ok(LineNode::Op(OpCode::Sub))
        } else if t0 == "mul"@ {
            Ok(LineNode::Op(OpCode::Mul))
        } else if t0 == "div"@ {
            Ok(LineNode::Op(OpCode::Div))
        } else if t0 == "jmp"@ {
            if toks.len() < 2 {
                Err(AssemblyLineParseError::JmpMissingArgument)
            } else {
                match spec_validate_label(lower_of(toks[1])) {
                    Ok(label) => Ok(LineNode::Op(OpCode::Jmp { label })),
                    Err(e) => Err(AssemblyLineParseError::JmpInvalidArgument(e)),
                }
            }
        } else if t0 == "jmpc"@ {
            if toks.len() < 2 {
                Err(AssemblyLineParseError::JmpcMissingArgument)
            } else {
                match spec_validate_label(lower_of(toks[1])) {
                    Ok(label) => Ok(LineNode::Op(OpCode::JmpCondition { label })),
                    Err(e) => Err(AssemblyLineParseError::JmpcInvalidArgument(e)),
                }
            }
        } else if t0 == "mov"@ {
            spec_classify_mov(toks)
        } else if t0 == "stac_g"@ {
            Ok(LineNode::Op(OpCode::StackGet))
        } else if t0 == "stac_s"@ {
            Ok(LineNode::Op(OpCode::StackSet))
        } else if t0 == "exec"@ {
            Ok(LineNode::Op(OpCode::Exec))
        } else if t0 == "return"@ {
            Ok(LineNode::Op(OpCode::Return))
        } else if t0 == "cmp_call"@ {
            spec_classify_cmp_call(toks)
        } else if t0 == "fwd"@ {
            Ok(LineNode::Op(OpCode::Forward))
        } else if t0 == "rot"@ {
            Ok(LineNode::Op(OpCode::Rotate))
        } else if t0 == "brk"@ {
            Ok(LineNode::Op(OpCode::Break))
        } else if t0 == "bttry"@ {
            Ok(LineNode::Op(OpCode::Battery))
        } else if t0 == "inven"@ {
            Ok(LineNode::Op(OpCode::InventoryGet))
        } else if t0 == "drop"@ {
            Ok(LineNode::Op(OpCode::InventoryDrop))
        } else if t0 == "item"@ {
            Ok(LineNode::Op(OpCode::InventoryItem))
        } else if t0 == "out"@ {
            Ok(LineNode::Op(OpCode::Output))
        } else if t0 == "noop"@ {
            Ok(LineNode::Op(OpCode::Noop))
        } else {
            spec_classify_other(t0)
        }
    }
}

impl AssemblyLine {
    /// Classify one line of source text.
    pub fn from_str(s: &str) -> (r: Result<AssemblyLine, AssemblyLineParseError>)
        ensures
            (match r {
                Ok(l) => spec_classify(s@) == Ok::<LineNode, AssemblyLineParseError>(l@),
                Err(e) => spec_classify(s@) == Err::<LineNode, AssemblyLineParseError>(e),
            }),
    {
        let tokens = tokenize(s);
        let ghost toks = spec_tokens(s@);
        if tokens.len() == 0 {
            return Ok(AssemblyLine::EmptyLine);
        }
        proof {
            assert(toks[0] == tokens@[0]@);
        }
        let t0_raw = &tokens[0];
        if t0_raw.as_str().unicode_len() >= 2 && t0_raw.as_str().get_char(0) == '/'
            && t0_raw.as_str().get_char(1) == '/' {
            return Ok(AssemblyLine::EmptyLine);
        }
        let t0 = fold_case(t0_raw.as_str());
        let t0s = t0.as_str();
        if str_eq(t0s, "let") {
            if tokens.len() < 2 {
                return Err(AssemblyLineParseError::LetMissingLabel);
            }
            proof {
                assert(toks[1] == tokens@[1]@);
            }
            let folded = fold_case(tokens[1].as_str());
            match LabelString::from_str(folded.as_str()) {
                Err(e) => Err(AssemblyLineParseError::LetInvalidLabel(e)),
                Ok(label) => {
                    if tokens.len() < 3 {
                        return Err(AssemblyLineParseError::LetMissingEquals);
                    }
                    proof {
                        assert(toks[2] == tokens@[2]@);
                    }
                    if !str_eq(tokens[2].as_str(), "=") {
                        return Err(AssemblyLineParseError::LetMissingEquals);
                    }
                    let value_r = if tokens.len() >= 4 {
                        proof {
                            assert(toks[3] == tokens@[3]@);
                        }
                        parse_u8(tokens[3].as_str())
                    } else {
                        parse_u8("0")
                    };
                    match value_r {
                        Some(value) => Ok(AssemblyLine::MemoryDeclaration { label, value }),
                        None => Err(AssemblyLineParseError::LetInvalidValue),
                    }
                },
            }
        } else if str_eq(t0s, "add") {
            Ok(AssemblyLine::Op(OpCode::Add))
        } else if str_eq(t0s, "sub") {
            Ok(AssemblyLine::Op(OpCode::Sub))
        } else if str_eq(t0s, "mul") {
            Ok(AssemblyLine::Op(OpCode::Mul))
        } else if str_eq(t0s, "div") {
            Ok(AssemblyLine::Op(OpCode::Div))
        } else if str_eq(t0s, "jmp") {
            if tokens.len() < 2 {
                return Err(AssemblyLineParseError::JmpMissingArgument);
            }
            proof {
                assert(toks[1] == tokens@[1]@);
            }
            let folded = fold_case(tokens[1].as_str());
            match LabelString::from_str(folded.as_str()) {
                Ok(label) => Ok(AssemblyLine::Op(OpCode::Jmp { label })),
                Err(e) => Err(AssemblyLineParseError::JmpInvalidArgument(e)),
            }
        } else if str_eq(t0s, "jmpc") {
            if tokens.len() < 2 {
                return Err(AssemblyLineParseError::JmpcMissingArgument);
            }
            proof {
                assert(toks[1] == tokens@[1]@);
            }
            let folded = fold_case(tokens[1].as_str());
            match LabelString::from_str(folded.as_str()) {
                Ok(label) => Ok(AssemblyLine::Op(OpCode::JmpCondition { label })),
                Err(e) => Err(AssemblyLineParseError::JmpcInvalidArgument(e)),
            }
        } else if str_eq(t0s, "mov") {
            if tokens.len() < 2 {
                return Err(AssemblyLineParseError::MovMissingTo);
            }
            proof {
                assert(toks[1] == tokens@[1]@);
            }
            let to = match Register::from_str(tokens[1].as_str()) {
                Ok(to) => to,
                Err(e) => {
                    return Err(AssemblyLineParseError::MovInvalidToRegister(e));
                },
            };
            if tokens.len() < 3 {
                return Err(AssemblyLineParseError::MovMissingFrom);
            }
            proof {
                assert(toks[2] == tokens@[2]@);
            }
            match Register::from_str(tokens[2].as_str()) {
                Ok(from) => Ok(AssemblyLine::Op(OpCode::MovReg { to, from })),
                Err(_) => match parse_u8(tokens[2].as_str()) {
                    Some(imm) => Ok(AssemblyLine::Op(OpCode::MovImm { to, from: imm })),
                    None => match LabelString::from_str(tokens[2].as_str()) {
                        Ok(from) => Ok(AssemblyLine::Op(OpCode::MovAddr { to, from })),
                        Err(e) => Err(AssemblyLineParseError::MovInvalidFrom(e)),
                    },
                },
            }
        } else if str_eq(t0s, "stac_g") {
            Ok(AssemblyLine::Op(OpCode::StackGet))
        } else if str_eq(t0s, "stac_s") {
            Ok(AssemblyLine::Op(OpCode::StackSet))
        } else if str_eq(t0s, "exec") {
            Ok(AssemblyLine::Op(OpCode::Exec))
        } else if str_eq(t0s, "return") {
            Ok(AssemblyLine::Op(OpCode::Return))
        } else if str_eq(t0s, "cmp_call") {
            if tokens.len() < 2 {
                return Err(AssemblyLineParseError::CmpCallMissingComponent);
            }
            proof {
                assert(toks[1] == tokens@[1]@);
            }
            match parse_u8(tokens[1].as_str()) {
                Some(imm) => Ok(AssemblyLine::Op(OpCode::CmpCallImm { component: imm })),
                None => match LabelString::from_str(tokens[1].as_str()) {
                    Ok(component) => Ok(AssemblyLine::Op(OpCode::CmpCallAddr { component })),
                    Err(e) => Err(AssemblyLineParseError::MovInvalidFrom(e)),
                },
            }
        } else if str_eq(t0s, "fwd") {
            Ok(AssemblyLine::Op(OpCode::Forward))
        } else if str_eq(t0s, "rot") {
            Ok(AssemblyLine::Op(OpCode::Rotate))
        } else if str_eq(t0s, "brk") {
            Ok(AssemblyLine::Op(OpCode::Break))
        } else if str_eq(t0s, "bttry") {
            Ok(AssemblyLine::Op(OpCode::Battery))
        } else if str_eq(t0s, "inven") {
            Ok(AssemblyLine::Op(OpCode::InventoryGet))
        } else if str_eq(t0s, "drop") {
            Ok(AssemblyLine::Op(OpCode::InventoryDrop))
        } else if str_eq(t0s, "item") {
            Ok(AssemblyLine::Op(OpCode::InventoryItem))
        } else if str_eq(t0s, "out") {
            Ok(AssemblyLine::Op(OpCode::Output))
        } else if str_eq(t0s, "noop") {
            Ok(AssemblyLine::Op(OpCode::Noop))
        } else {
            let n = t0s.unicode_len();
            if n > 0 && t0s.get_char(n - 1) == ':' {
                let e = skip_trailing(t0s, n, ':');
                proof {
                    assert(t0s@.subrange(0, n as int) =~= t0s@);
                }
                let body = t0s.substring_char(0, e);
                let mut candidate = String::from_str("$");
                candidate.append(body);
                proof {
                    reveal_strlit("$");
                    assert(candidate@ =~= seq!['$'] + trim_trail(t0@, ':'));
                }
                match LabelString::from_str(candidate.as_str()) {
                    Ok(name) => Ok(AssemblyLine::Label { name }),
                    Err(e) => Err(AssemblyLineParseError::InvalidLabel(e)),
                }
            } else {
                Err(AssemblyLineParseError::InvalidInstruction)
            }
        }
    }
}

/// The nodes and the diagnostics that classifying a list of lines yields,
/// each in source order.
pub open spec fn collect_parse(lines: Seq<Seq<char>>) -> (Seq<LineNode>, Seq<
    (int, AssemblyLineParseError),
>)
    decreases lines.len(),
{
    if lines.len() == 0 {
        (Seq::empty(), Seq::empty())
    } else {
        let prev = collect_parse(lines.drop_last());
        match spec_classify(lines.last()) {
            Ok(node) => (prev.0.push(node), prev.1),
            Err(e) => (prev.0, prev.1.push((lines.len() - 1, e))),
        }
    }
}

/// What parsing a whole source text yields: the complete node list when every
/// line classifies, else the complete, ordered diagnostic list.
pub open spec fn spec_parse_code(src: Seq<char>) -> Result<Seq<LineNode>, Seq<
    (int, AssemblyLineParseError),
>> {
    if collect_parse(spec_lines(src)).1.len() == 0 {
        Ok(collect_parse(spec_lines(src)).0)
    } else {
        Err(collect_parse(spec_lines(src)).1)
    }
}

/// The views of a list of classified lines.
pub open spec fn nodes_view(ls: Seq<AssemblyLine>) -> Seq<LineNode> {
    ls.map_values(|l: AssemblyLine| l@)
}

/// The views of a list of diagnostics.
pub open spec fn errors_view(es: Seq<CodeError>) -> Seq<(int, AssemblyLineParseError)> {
    es.map_values(|c: CodeError| (c.line as int, c.error))
}

/// Classify every line of a source text independently: all nodes if every
/// line is valid, else every diagnostic, in line order.
pub fn parse_code(code: String) -> (r: Result<Vec<AssemblyLine>, Vec<CodeError>>)
    ensures
        (match r {
            Ok(ns) => spec_parse_code(code@) == Ok::<Seq<LineNode>, Seq<
                (int, AssemblyLineParseError),
            >>(nodes_view(ns@)),
            Err(es) => spec_parse_code(code@) == Err::<Seq<LineNode>, Seq<
                (int, AssemblyLineParseError),
            >>(errors_view(es@)),
        }),
{
    let lines = split_lines(code.as_str());
    let ghost slines = spec_lines(code@);
    let mut nodes: Vec<AssemblyLine> = Vec::new();
    let mut errors: Vec<CodeError> = Vec::new();
    let mut i: usize = 0;
    while i < lines.len()
        invariant
            strings_view(lines@) == slines,
            i <= lines.len(),
            (nodes_view(nodes@), errors_view(errors@)) == collect_parse(slines.take(i as int)),
        decreases lines.len() - i,
    {
        proof {
            assert(slines[i as int] == lines@[i as int]@);
            assert(slines.take(i + 1).drop_last() =~= slines.take(i as int));
            assert(slines.take(i + 1).last() == slines[i as int]);
        }
        match AssemblyLine::from_str(lines[i].as_str()) {
            Ok(node) => {
                proof {
                    assert(nodes_view(nodes@.push(node)) =~= nodes_view(nodes@).push(node@));
                }
                nodes.push(node);
            },
            Err(error) => {
                let ce = CodeError { line: i, error };
                proof {
                    assert(errors_view(errors@.push(ce)) =~= errors_view(errors@).push(
                        (i as int, error),
                    ));
                }
                errors.push(ce);
            },
        }
        i = i + 1;
    }
    proof {
        assert(slines.take(i as int) =~= slines);
    }
    if errors.len() == 0 {
        Ok(nodes)
    } else {
        Err(errors)
    }
}

} // verus!

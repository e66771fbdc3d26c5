//! The code generator: walks the syntax tree by structural recursion,
//! one call frame per node, emitting Intel-syntax assembly lines in a
//! fixed order that mirrors source structure. Registers are handed out
//! by the stateless per-context succession policy; exhausting the
//! sequence while an operand still needs placing is the one
//! code-generation error, distinct from every syntax error.

use vstd::prelude::*;
use vstd::string::StringExecFns;
use crate::ast::{deep_seq, lemma_deep_seq_index, lemma_size_list_element, size_s, AstNode, AstS, BinaryOp};
use crate::register::{spec_next_available, spec_register_name, Context, Register};
use crate::text::{i32_to_string, spec_int_dec};

verus! {

/// The code-generation contract error: the fixed register sequence was
/// exhausted while an operand still needed a register.
#[derive(Clone, Copy, Debug, PartialEq, Eq, Structural)]
pub enum EmitError {
    OutOfRegisters,
}

impl EmitError {
    /// A short description of the condition.
    pub fn message(&self) -> (r: &'static str)
        ensures
            r@ == "ran out of registers"@,
    {
        match *self {
            EmitError::OutOfRegisters => "ran out of registers",
        }
    }
}

/// The characters of each assembly line, in order.
pub open spec fn lines_view(v: Seq<String>) -> Seq<Seq<char>> {
    v.map_values(|s: String| s@)
}

/// Appending a line appends its characters to the lines' view.
pub proof fn lemma_lines_view_push(v: Seq<String>, s: String)
    ensures
        lines_view(v.push(s)) == lines_view(v).push(s@),
{
    assert(lines_view(v.push(s)) =~= lines_view(v).push(s@));
}

/// Inserting a line at the front does the same to the lines' view.
pub proof fn lemma_lines_view_insert_front(v: Seq<String>, s: String)
    ensures
        lines_view(v.insert(0, s)) == lines_view(v).insert(0, s@),
{
    assert(lines_view(v.insert(0, s)) =~= lines_view(v).insert(0, s@));
}

/// What emitting one node appends to (or, for the global-entry
/// directive, inserts at the front of) the output `out`, and whether
/// emission succeeds. The second component is the whole output
/// afterwards, including what was already there; on an error the
/// output keeps the lines emitted before the failure.
pub open spec fn spec_emit(
    tree: AstS,
    out: Seq<Seq<char>>,
    in_main: bool,
    context: Context,
    next_register: Option<Register>,
) -> (Result<(), EmitError>, Seq<Seq<char>>)
    decreases tree,
{
    match tree {
        AstS::BinaryOp { op, lhs, rhs } => {
            if next_register is None {
                (Err(EmitError::OutOfRegisters), out)
            } else {
                let dest = next_register->0;
                let r1 = spec_emit(*lhs, out, in_main, context, next_register);
                if r1.0 is Err {
                    r1
                } else {
                    let nxt = spec_next_available(dest, context);
                    let r2 = spec_emit(*rhs, r1.1, in_main, context, nxt);
                    if r2.0 is Err {
                        r2
                    } else if nxt is None {
                        (Err(EmitError::OutOfRegisters), r2.1)
                    } else {
                        let mnemonic = if op == BinaryOp::Minus {
                            "sub "@
                        } else {
                            "add "@
                        };
                        (
                            Ok(()),
                            r2.1.push(
                                mnemonic + spec_register_name(dest) + ", "@ + spec_register_name(
                                    nxt->0,
                                ),
                            ),
                        )
                    }
                }
            }
        },
        AstS::Call { callee } => (Ok(()), out.push("call "@ + callee)),
        AstS::Function { name, statements } => {
            let main = name == "main"@;
            let out1 = if main {
                out.insert(0, ".global _start"@).push("_start:"@)
            } else {
                out.push(name + ":"@)
            };
            spec_emit_list(statements, out1, main, context)
        },
        AstS::IntegerLiteral { value } => {
            if next_register is Some {
                (
                    Ok(()),
                    out.push(
                        "mov "@ + spec_register_name(next_register->0) + ", "@ + spec_int_dec(
                            value,
                        ),
                    ),
                )
            } else {
                (Err(EmitError::OutOfRegisters), out)
            }
        },
        AstS::Program { declarations } => {
            spec_emit_list(declarations, out.push(".section .text"@), in_main, Context::User)
        },
        AstS::ReturnStatement { expression } => {
            let r1 = spec_emit(*expression, out, in_main, Context::User, Some(Register::Rdi));
            if r1.0 is Err {
                r1
            } else if in_main {
                (Ok(()), r1.1.push("mov rax, 60"@).push("syscall"@))
            } else {
                (Ok(()), r1.1.push("ret"@))
            }
        },
    }
}

/// Emits each node in order, each starting from the argument-passing
/// register; the first error stops the walk.
pub open spec fn spec_emit_list(
    nodes: Seq<AstS>,
    out: Seq<Seq<char>>,
    in_main: bool,
    context: Context,
) -> (Result<(), EmitError>, Seq<Seq<char>>)
    decreases nodes,
{
    if nodes.len() == 0 {
        (Ok(()), out)
    } else {
        let r1 = spec_emit(nodes[0], out, in_main, context, Some(Register::Rdi));
        if r1.0 is Err {
            r1
        } else {
            spec_emit_list(nodes.subrange(1, nodes.len() as int), r1.1, in_main, context)
        }
    }
}

/// Whether `name` is exactly the entry-point name `main`.
fn name_is_main(name: &String) -> (r: bool)
    ensures
        r == (name@ == "main"@),
{
    let m: String = "main".to_owned();
    *name == m
}

/// The line `mov <register>, <value>`.
fn mov_line(reg: Register, value: i32) -> (s: String)
    ensures
        s@ == "mov "@ + spec_register_name(reg) + ", "@ + spec_int_dec(value as int),
{
    let mut s = "mov ".to_owned();
    s.append(reg.to_string());
    s.append(", ");
    s.append(i32_to_string(value).as_str());
    proof {
        assert(s@ =~= "mov "@ + spec_register_name(reg) + ", "@ + spec_int_dec(value as int));
    }
    s
}

/// The line `sub <dest>, <src>` or `add <dest>, <src>`.
fn op_line(op: BinaryOp, dest: Register, src: Register) -> (s: String)
    ensures
        s@ == (if op == BinaryOp::Minus {
            "sub "@
        } else {
            "add "@
        }) + spec_register_name(dest) + ", "@ + spec_register_name(src),
{
    let mut s = if let BinaryOp::Minus = op {
        "sub ".to_owned()
    } else {
        "add ".to_owned()
    };
    s.append(dest.to_string());
    s.append(", ");
    s.append(src.to_string());
    proof {
        assert(s@ =~= (if op == BinaryOp::Minus {
            "sub "@
        } else {
            "add "@
        }) + spec_register_name(dest) + ", "@ + spec_register_name(src));
    }
    s
}

/// The line `call <callee>`.
fn call_line(callee: &String) -> (s: String)
    ensures
        s@ == "call "@ + callee@,
{
    let mut s = "call ".to_owned();
    s.append(callee.as_str());
    s
}

/// The label line `<name>:`.
fn label_line(name: &String) -> (s: String)
    ensures
        s@ == name@ + ":"@,
{
    let mut s = name.clone();
    s.append(":");
    s
}

/// Emits assembly for `tree` onto `out` by structural recursion. The
/// `lhs` of a binary operation is fully emitted before its `rhs`;
/// declarations and statements are emitted in source order; entering a
/// function restarts allocation at the argument-passing register, and
/// a `main` function gets the global-entry directive inserted at the
/// very front of the output plus the process-exit sequence instead of
/// a plain return.
pub fn emit_asm(
    tree: &AstNode,
    out: &mut Vec<String>,
    in_main_function: bool,
    context: Context,
    next_register: Option<Register>,
) -> (r: Result<(), EmitError>)
    ensures
        ({
            let res = spec_emit(
                tree@,
                lines_view(old(out)@),
                in_main_function,
                context,
                next_register,
            );
            &&& r == res.0
            &&& lines_view(final(out)@) == res.1
        }),
    decreases size_s(tree@),
{
    match tree {
        AstNode::BinaryOp { op, lhs, rhs } => {
            let dest_register = match next_register {
                Some(reg) => reg,
                None => {
                    return Err(EmitError::OutOfRegisters);
                },
            };
            if let Err(err) = emit_asm(&**lhs, out, in_main_function, context, next_register) {
                return Err(err);
            }
            let nxt = dest_register.next_available(context);
            if let Err(err) = emit_asm(&**rhs, out, in_main_function, context, nxt) {
                return Err(err);
            }
            let src = match nxt {
                Some(reg) => reg,
                None => {
                    return Err(EmitError::OutOfRegisters);
                },
            };
            let ghost before = out@;
            out.push(op_line(*op, dest_register, src));
            proof {
                lemma_lines_view_push(before, out@.last());
            }
            Ok(())
        },
        AstNode::Call { callee } => {
            let ghost before = out@;
            out.push(call_line(callee));
            proof {
                lemma_lines_view_push(before, out@.last());
            }
            Ok(())
        },
        AstNode::Function { name, statements } => {
            let in_main = name_is_main(name);
            if in_main {
                let ghost b0 = out@;
                out.insert(0, ".global _start".to_owned());
                proof {
                    lemma_lines_view_insert_front(b0, out@[0]);
                }
                let ghost b1 = out@;
                out.push("_start:".to_owned());
                proof {
                    lemma_lines_view_push(b1, out@.last());
                }
            } else {
                let ghost b0 = out@;
                out.push(label_line(name));
                proof {
                    lemma_lines_view_push(b0, out@.last());
                }
            }
            let ghost full = deep_seq(statements@);
            let ghost out1 = lines_view(out@);
            proof {
                lemma_deep_seq_index(statements@);
                assert(full.subrange(0, full.len() as int) =~= full);
            }
            let mut i: usize = 0;
            while i < statements.len()
                invariant
                    i <= statements@.len(),
                    full == deep_seq(statements@),
                    full.len() == statements@.len(),
                    forall|j: int| 0 <= j < full.len() ==> full[j] == statements@[j]@,
                    in_main == (tree@->Function_name == "main"@),
                    tree@ == (AstS::Function {
                        name: tree@->Function_name,
                        statements: full,
                    }),
                    spec_emit(
                        tree@,
                        lines_view(old(out)@),
                        in_main_function,
                        context,
                        next_register,
                    ) == spec_emit_list(full, out1, in_main, context),
                    spec_emit_list(full, out1, in_main, context) == spec_emit_list(
                        full.subrange(i as int, full.len() as int),
                        lines_view(out@),
                        in_main,
                        context,
                    ),
                decreases statements@.len() - i,
            {
                let ghost rest = full.subrange(i as int, full.len() as int);
                proof {
                    assert(rest[0] == full[i as int]);
                    assert(rest.subrange(1, rest.len() as int) =~= full.subrange(
                        i + 1,
                        full.len() as int,
                    ));
                    lemma_size_list_element(full, i as int);
                }
                let stmt = &statements[i];
                if let Err(err) = emit_asm(stmt, out, in_main, context, Some(Register::Rdi)) {
                    return Err(err);
                }
                i = i + 1;
            }
            proof {
                assert(full.subrange(full.len() as int, full.len() as int)
                    =~= Seq::<AstS>::empty());
            }
            Ok(())
        },
        AstNode::IntegerLiteral { value } => {
            match next_register {
                Some(reg) => {
                    let ghost before = out@;
                    out.push(mov_line(reg, *value));
                    proof {
                        lemma_lines_view_push(before, out@.last());
                    }
                    Ok(())
                },
                None => Err(EmitError::OutOfRegisters),
            }
        },
        AstNode::Program { declarations } => {
            let ghost b0 = out@;
            out.push(".section .text".to_owned());
            proof {
                lemma_lines_view_push(b0, out@.last());
            }
            let ghost full = deep_seq(declarations@);
            let ghost out1 = lines_view(out@);
            proof {
                lemma_deep_seq_index(declarations@);
                assert(full.subrange(0, full.len() as int) =~= full);
            }
            let mut i: usize = 0;
            while i < declarations.len()
                invariant
                    i <= declarations@.len(),
                    full == deep_seq(declarations@),
                    full.len() == declarations@.len(),
                    forall|j: int| 0 <= j < full.len() ==> full[j] == declarations@[j]@,
                    tree@ == (AstS::Program { declarations: full }),
                    spec_emit(
                        tree@,
                        lines_view(old(out)@),
                        in_main_function,
                        context,
                        next_register,
                    ) == spec_emit_list(full, out1, in_main_function, Context::User),
                    spec_emit_list(full, out1, in_main_function, Context::User) == spec_emit_list(
                        full.subrange(i as int, full.len() as int),
                        lines_view(out@),
                        in_main_function,
                        Context::User,
                    ),
                decreases declarations@.len() - i,
            {
                let ghost rest = full.subrange(i as int, full.len() as int);
                proof {
                    assert(rest[0] == full[i as int]);
                    assert(rest.subrange(1, rest.len() as int) =~= full.subrange(
                        i + 1,
                        full.len() as int,
                    ));
                    lemma_size_list_element(full, i as int);
                }
                let decl = &declarations[i];
                if let Err(err) = emit_asm(
                    decl,
                    out,
                    in_main_function,
                    Context::User,
                    Some(Register::Rdi),
                ) {
                    return Err(err);
                }
                i = i + 1;
            }
            proof {
                assert(full.subrange(full.len() as int, full.len() as int)
                    =~= Seq::<AstS>::empty());
            }
            Ok(())
        },
        AstNode::ReturnStatement { expression } => {
            if let Err(err) = emit_asm(
                &**expression,
                out,
                in_main_function,
                Context::User,
                Some(Register::Rdi),
            ) {
                return Err(err);
            }
            if in_main_function {
                let ghost b0 = out@;
                out.push("mov rax, 60".to_owned());
                proof {
                    lemma_lines_view_push(b0, out@.last());
                }
                let ghost b1 = out@;
                out.push("syscall".to_owned());
                proof {
                    lemma_lines_view_push(b1, out@.last());
                }
            } else {
                let ghost b0 = out@;
                out.push("ret".to_owned());
                proof {
                    lemma_lines_view_push(b0, out@.last());
                }
            }
            Ok(())
        },
    }
}

} // verus!

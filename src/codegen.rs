use vstd::prelude::*;

use crate::ast::Expr;
use crate::x64::{run, Code, MachineState, lemma_run_concat};

verus! {

/// The four instructions that close a binary node: pop the right operand into
/// the auxiliary register, the left one into the accumulator, combine, push.
pub open spec fn combine_code(op: Code) -> Seq<Code> {
    seq![Code::PopAuxiliary, Code::PopAccumulator, op, Code::PushAccumulator]
}

/// The code for an expression, in postorder: left subtree, right subtree, then
/// the combining instructions. `Sub` combines with the subtract instruction.
pub open spec fn code_of(e: Expr) -> Seq<Code>
    decreases e,
{
    match e {
        Expr::IntegerLiteral { value } => seq![Code::PushConstant { value }],
        Expr::Add { lhs, rhs } => code_of(*lhs) + code_of(*rhs) + combine_code(
            Code::AddAuxiliaryIntoAccumulator,
        ),
        Expr::Sub { lhs, rhs } => code_of(*lhs) + code_of(*rhs) + combine_code(
            Code::SubtractAuxiliaryFromAccumulator,
        ),
    }
}

/// The number of nodes of a tree; it bounds the depth of the generator's recursion.
spec fn node_count(e: Expr) -> nat
    decreases e,
{
    match e {
        Expr::IntegerLiteral { .. } => 1,
        Expr::Add { lhs, rhs } => 1 + node_count(*lhs) + node_count(*rhs),
        Expr::Sub { lhs, rhs } => 1 + node_count(*lhs) + node_count(*rhs),
    }
}

/// Compiles an expression tree into stack-machine code.
pub fn codegen(node: Expr) -> (r: Vec<Code>)
    ensures
        r@ == code_of(node),
{
    let r = gen_expr(node, Vec::new());
    assert(r@ =~= code_of(node));
    r
}

fn gen_expr(node: Expr, lirs: Vec<Code>) -> (r: Vec<Code>)
    ensures
        r@ == lirs@ + code_of(node),
    decreases 2 * node_count(node),
{
    let mut lirs = lirs;
    match node {
        Expr::IntegerLiteral { value } => {
            lirs.push(Code::PushConstant { value });
        },
        Expr::Add { lhs, rhs } => {
            lirs = gen_binary_operation('+', lhs, rhs, lirs);
        },
        Expr::Sub { lhs, rhs } => {
            lirs = gen_binary_operation('-', lhs, rhs, lirs);
        },
    }
    lirs
}

fn gen_binary_operation(operator: char, lhs: Box<Expr>, rhs: Box<Expr>, lirs: Vec<Code>) -> (r: Vec<
    Code,
>)
    requires
        operator == '+' || operator == '-',
    ensures
        r@ == lirs@ + code_of(*lhs) + code_of(*rhs) + combine_code(
            if operator == '+' {
                Code::AddAuxiliaryIntoAccumulator
            } else {
                Code::SubtractAuxiliaryFromAccumulator
            },
        ),
    decreases 2 * (node_count(*lhs) + node_count(*rhs)) + 1,
{
    let ghost start = lirs@;
    let lirs = gen_expr(*lhs, lirs);
    let mut lirs = gen_expr(*rhs, lirs);
    lirs.push(Code::PopAuxiliary);
    lirs.push(Code::PopAccumulator);
    if operator == '+' {
        lirs.push(Code::AddAuxiliaryIntoAccumulator);
    } else {
        lirs.push(Code::SubtractAuxiliaryFromAccumulator);
    }
    lirs.push(Code::PushAccumulator);
    assert(lirs@ =~= start + code_of(*lhs) + code_of(*rhs) + combine_code(
        if operator == '+' {
            Code::AddAuxiliaryIntoAccumulator
        } else {
            Code::SubtractAuxiliaryFromAccumulator
        },
    ));
    lirs
}

/// Running the code of an expression pushes the expression's value on top of
/// whatever the stack held, and never pops below it.
pub proof fn lemma_codegen_evaluates(e: Expr, m: MachineState)
    ensures
        run(code_of(e), m) is Some,
        run(code_of(e), m)->0.stack == m.stack.push(e.eval()),
    decreases e,
{
    reveal_with_fuel(run, 2);
    match e {
        Expr::IntegerLiteral { value } => {
            assert(code_of(e).drop_first() =~= Seq::<Code>::empty());
        },
        Expr::Add { lhs, rhs } => {
            lemma_codegen_evaluates(*lhs, m);
            let m1 = run(code_of(*lhs), m)->0;
            lemma_codegen_evaluates(*rhs, m1);
            lemma_binary_run(code_of(*lhs), code_of(*rhs), Code::AddAuxiliaryIntoAccumulator, m, lhs.eval(), rhs.eval());
        },
        Expr::Sub { lhs, rhs } => {
            lemma_codegen_evaluates(*lhs, m);
            let m1 = run(code_of(*lhs), m)->0;
            lemma_codegen_evaluates(*rhs, m1);
            lemma_binary_run(code_of(*lhs), code_of(*rhs), Code::SubtractAuxiliaryFromAccumulator, m, lhs.eval(), rhs.eval());
        },
    }
}

/// Operand code followed by the combining instructions leaves the combined
/// value where the operands were pushed.
proof fn lemma_binary_run(a: Seq<Code>, b: Seq<Code>, op: Code, m: MachineState, x: int, y: int)
    requires
        op is AddAuxiliaryIntoAccumulator || op is SubtractAuxiliaryFromAccumulator,
        run(a, m) is Some,
        run(b, run(a, m)->0) is Some,
        run(b, run(a, m)->0)->0.stack == m.stack.push(x).push(y),
    ensures
        run(a + b + combine_code(op), m) is Some,
        run(a + b + combine_code(op), m)->0.stack == m.stack.push(
            if op is AddAuxiliaryIntoAccumulator {
                x + y
            } else {
                x - y
            },
        ),
{
    lemma_run_concat(a, b, m);
    lemma_run_concat(a + b, combine_code(op), m);
    let m2 = run(b, run(a, m)->0)->0;
    let c = combine_code(op);
    reveal_with_fuel(run, 5);
    assert(c.drop_first() =~= seq![Code::PopAccumulator, op, Code::PushAccumulator]);
    assert(c.drop_first().drop_first() =~= seq![op, Code::PushAccumulator]);
    assert(c.drop_first().drop_first().drop_first() =~= seq![Code::PushAccumulator]);
    assert(c.drop_first().drop_first().drop_first().drop_first() =~= Seq::<Code>::empty());
    assert(m2.stack.drop_last().drop_last() =~= m.stack);
}

} // verus!

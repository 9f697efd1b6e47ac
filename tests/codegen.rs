use arith_compiler::{codegen, parse, to_assembly, tokenize, Code, Expr};

fn lit(value: i128) -> Box<Expr> {
    Box::new(Expr::IntegerLiteral { value })
}

/// Runs code on a stack machine with an accumulator and an auxiliary register.
fn execute(codes: &[Code]) -> Vec<i128> {
    let mut stack = Vec::new();
    let mut accumulator: i128 = 0;
    let mut auxiliary: i128 = 0;
    for c in codes {
        match c {
            Code::PushConstant { value } => stack.push(*value),
            Code::PushAccumulator => stack.push(accumulator),
            Code::PopAccumulator => accumulator = stack.pop().unwrap(),
            Code::PopAuxiliary => auxiliary = stack.pop().unwrap(),
            Code::AddAuxiliaryIntoAccumulator => accumulator += auxiliary,
            Code::SubtractAuxiliaryFromAccumulator => accumulator -= auxiliary,
        }
    }
    stack
}

fn compile(source: &str) -> Vec<Code> {
    codegen(parse(tokenize(source.to_string()).unwrap()).unwrap())
}

#[test]
fn generate_from_addition_test() {
    let node = Expr::Add {
        lhs: Box::new(Expr::IntegerLiteral { value: 100 }),
        rhs: Box::new(Expr::IntegerLiteral { value: 200 }),
    };
    let codes = codegen(node);
    assert_eq!(6, codes.len());
}

#[test]
fn addition_code_in_postorder() {
    let codes = codegen(Expr::Add { lhs: lit(100), rhs: lit(200) });
    assert_eq!(
        vec![
            Code::PushConstant { value: 100 },
            Code::PushConstant { value: 200 },
            Code::PopAuxiliary,
            Code::PopAccumulator,
            Code::AddAuxiliaryIntoAccumulator,
            Code::PushAccumulator,
        ],
        codes
    );
}

#[test]
fn subtraction_uses_the_subtract_instruction() {
    let codes = codegen(Expr::Sub { lhs: lit(9), rhs: lit(4) });
    assert_eq!(Code::SubtractAuxiliaryFromAccumulator, codes[4]);
    assert_eq!(vec![5], execute(&codes));
}

#[test]
fn leaf_is_one_push() {
    assert_eq!(vec![Code::PushConstant { value: 7 }], codegen(Expr::IntegerLiteral { value: 7 }));
}

#[test]
fn code_length_is_sum_plus_four() {
    let codes = compile("1 + 2 - 3 + 4");
    assert_eq!(4 + 3 * 4, codes.len());
}

#[test]
fn running_the_code_gives_the_left_to_right_value() {
    assert_eq!(vec![4], execute(&compile("10 - 3 - 2 - 1")));
    assert_eq!(vec![-6], execute(&compile("1 - 2 - 5")));
    assert_eq!(vec![300], execute(&compile("100 + 200")));
    assert_eq!(vec![17], execute(&compile("17")));
}

#[test]
fn right_nested_tree_evaluates_as_a_tree() {
    let node = Expr::Sub {
        lhs: lit(10),
        rhs: Box::new(Expr::Sub { lhs: lit(4), rhs: lit(1) }),
    };
    assert_eq!(vec![7], execute(&codegen(node)));
}

#[test]
fn instruction_text() {
    assert_eq!("pushq $100", Code::PushConstant { value: 100 }.to_assembly());
    assert_eq!("pushq $0", Code::PushConstant { value: 0 }.to_assembly());
    assert_eq!("pushq $-42", Code::PushConstant { value: -42 }.to_assembly());
    assert_eq!(
        "pushq $-170141183460469231731687303715884105728",
        Code::PushConstant { value: i128::MIN }.to_assembly()
    );
    assert_eq!(
        "pushq $170141183460469231731687303715884105727",
        Code::PushConstant { value: i128::MAX }.to_assembly()
    );
    assert_eq!("pushq %rax", Code::PushAccumulator.to_assembly());
    assert_eq!("pop %rax", Code::PopAccumulator.to_assembly());
    assert_eq!("pop %rdi", Code::PopAuxiliary.to_assembly());
    assert_eq!("addq %rdi, %rax", Code::AddAuxiliaryIntoAccumulator.to_assembly());
    assert_eq!("subq %rdi, %rax", Code::SubtractAuxiliaryFromAccumulator.to_assembly());
}

#[test]
fn assembly_of_an_addition() {
    let text = to_assembly(compile("100 + 200"));
    let expected = ".global main\n\
                    main:\n  \
                    pushq $100\n  \
                    pushq $200\n  \
                    pop %rdi\n  \
                    pop %rax\n  \
                    addq %rdi, %rax\n  \
                    pushq %rax\n  \
                    popq %rax\n  \
                    ret\n";
    assert_eq!(expected, text);
}

#[test]
fn assembly_of_no_code_is_prologue_and_epilogue() {
    assert_eq!(".global main\nmain:\n  popq %rax\n  ret\n", to_assembly(Vec::new()));
}

#[test]
fn rendering_twice_gives_the_same_text() {
    let first = to_assembly(compile("5 - 3 + 8"));
    let second = to_assembly(compile("5 - 3 + 8"));
    assert_eq!(first.as_bytes(), second.as_bytes());
}

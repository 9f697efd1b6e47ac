use vstd::prelude::*;

verus! {

/// One instruction of the stack machine.
///
/// The machine has a last-in-first-out stack of values and two scratch
/// registers: the accumulator (`%rax`) and the auxiliary register (`%rdi`).
#[derive(Debug, PartialEq, Eq, Structural, PartialOrd, Ord, Clone, Copy)]
pub enum Code {
    PushConstant { value: i128 },
    PushAccumulator,
    PopAccumulator,
    PopAuxiliary,
    AddAuxiliaryIntoAccumulator,
    SubtractAuxiliaryFromAccumulator,
}

/// The state of the stack machine, with unbounded values.
pub struct MachineState {
    pub stack: Seq<int>,
    pub accumulator: int,
    pub auxiliary: int,
}

impl Code {
    /// The effect of one instruction; `None` where it pops an empty stack.
    pub open spec fn step(self, m: MachineState) -> Option<MachineState> {
        match self {
            Code::PushConstant { value } => Some(
                MachineState { stack: m.stack.push(value as int), accumulator: m.accumulator, auxiliary: m.auxiliary },
            ),
            Code::PushAccumulator => Some(
                MachineState { stack: m.stack.push(m.accumulator), accumulator: m.accumulator, auxiliary: m.auxiliary },
            ),
            Code::PopAccumulator => if m.stack.len() == 0 {
                None
            } else {
                Some(MachineState { stack: m.stack.drop_last(), accumulator: m.stack.last(), auxiliary: m.auxiliary })
            },
            Code::PopAuxiliary => if m.stack.len() == 0 {
                None
            } else {
                Some(MachineState { stack: m.stack.drop_last(), accumulator: m.accumulator, auxiliary: m.stack.last() })
            },
            Code::AddAuxiliaryIntoAccumulator => Some(
                MachineState { stack: m.stack, accumulator: m.accumulator + m.auxiliary, auxiliary: m.auxiliary },
            ),
            Code::SubtractAuxiliaryFromAccumulator => Some(
                MachineState { stack: m.stack, accumulator: m.accumulator - m.auxiliary, auxiliary: m.auxiliary },
            ),
        }
    }
}

/// Runs a sequence of instructions from the first; `None` once one of them fails.
pub open spec fn run(code: Seq<Code>, m: MachineState) -> Option<MachineState>
    decreases code.len(),
{
    if code.len() == 0 {
        Some(m)
    } else {
        match code[0].step(m) {
            None => None,
            Some(next) => run(code.drop_first(), next),
        }
    }
}

/// Running two sequences one after the other is running their concatenation.
pub proof fn lemma_run_concat(a: Seq<Code>, b: Seq<Code>, m: MachineState)
    ensures
        run(a + b, m) == (match run(a, m) {
            None => None,
            Some(mid) => run(b, mid),
        }),
    decreases a.len(),
{
    if a.len() == 0 {
        assert(a + b =~= b);
    } else {
        assert((a + b).drop_first() =~= a.drop_first() + b);
        match a[0].step(m) {
            None => {},
            Some(next) => lemma_run_concat(a.drop_first(), b, next),
        }
    }
}

/// The character of a decimal digit `d < 10`.
pub open spec fn digit_char(d: nat) -> char {
    ((d + ('0' as u32) as nat) as u32) as char
}

/// The decimal digits of `n`, most significant first, without leading zeros.
pub open spec fn digits_of(n: nat) -> Seq<char>
    decreases n,
{
    if n < 10 {
        seq![digit_char(n)]
    } else {
        digits_of(n / 10).push(digit_char(n % 10))
    }
}

/// The decimal text of `v`: a minus sign before the digits of a negative value.
pub open spec fn decimal_text(v: int) -> Seq<char> {
    if v < 0 {
        seq!['-'] + digits_of((-v) as nat)
    } else {
        digits_of(v as nat)
    }
}

fn digit_str(d: u128) -> (r: &'static str)
    requires
        d < 10,
    ensures
        r@ == seq![digit_char(d as nat)],
{
    proof {
        reveal_strlit("0");
        reveal_strlit("1");
        reveal_strlit("2");
        reveal_strlit("3");
        reveal_strlit("4");
        reveal_strlit("5");
        reveal_strlit("6");
        reveal_strlit("7");
        reveal_strlit("8");
        reveal_strlit("9");
    }
    let r = if d == 0 {
        "0"
    } else if d == 1 {
        "1"
    } else if d == 2 {
        "2"
    } else if d == 3 {
        "3"
    } else if d == 4 {
        "4"
    } else if d == 5 {
        "5"
    } else if d == 6 {
        "6"
    } else if d == 7 {
        "7"
    } else if d == 8 {
        "8"
    } else {
        "9"
    };
    assert(r@ =~= seq![digit_char(d as nat)]);
    r
}

fn push_digits(n: u128, out: &mut String)
    ensures
        final(out)@ == old(out)@ + digits_of(n as nat),
    decreases n,
{
    if n >= 10 {
        push_digits(n / 10, out);
    }
    out.append(digit_str(n % 10));
    proof {
        if n >= 10 {
            assert(old(out)@ + digits_of(n as nat) =~= old(out)@ + digits_of((n / 10) as nat) + seq![
                digit_char((n % 10) as nat),
            ]);
        } else {
            assert(old(out)@ + digits_of(n as nat) =~= old(out)@ + seq![digit_char(n as nat)]);
        }
    }
}

fn push_decimal(v: i128, out: &mut String)
    ensures
        final(out)@ == old(out)@ + decimal_text(v as int),
{
    if v < 0 {
        proof {
            reveal_strlit("-");
        }
        out.append("-");
        let magnitude: u128 = ((-(v + 1)) as u128) + 1;
        push_digits(magnitude, out);
        assert(final(out)@ =~= old(out)@ + decimal_text(v as int));
    } else {
        push_digits(v as u128, out);
    }
}

impl Code {
    /// The assembly text of the instruction.
    pub open spec fn text(self) -> Seq<char> {
        match self {
            Code::PushConstant { value } => "pushq $"@ + decimal_text(value as int),
            Code::PushAccumulator => "pushq %rax"@,
            Code::PopAccumulator => "pop %rax"@,
            Code::PopAuxiliary => "pop %rdi"@,
            Code::AddAuxiliaryIntoAccumulator => "addq %rdi, %rax"@,
            Code::SubtractAuxiliaryFromAccumulator => "subq %rdi, %rax"@,
        }
    }

    /// Renders the instruction as one line of AT&T-syntax assembly, without
    /// indentation or line break.
    pub fn to_assembly(&self) -> (r: String)
        ensures
            r@ == self.text(),
    {
        match self {
            Code::PushConstant { value } => {
                let mut s = String::from_str("pushq $");
                push_decimal(*value, &mut s);
                s
            },
            Code::PushAccumulator => String::from_str("pushq %rax"),
            Code::PopAccumulator => String::from_str("pop %rax"),
            Code::PopAuxiliary => String::from_str("pop %rdi"),
            Code::AddAuxiliaryIntoAccumulator => String::from_str("addq %rdi, %rax"),
            Code::SubtractAuxiliaryFromAccumulator => String::from_str("subq %rdi, %rax"),
        }
    }
}

} // verus!

use vstd::prelude::*;

use crate::x64::Code;

verus! {

/// One indented line per instruction, in order.
pub open spec fn lines_text(codes: Seq<Code>) -> Seq<char>
    decreases codes.len(),
{
    if codes.len() == 0 {
        Seq::empty()
    } else {
        lines_text(codes.drop_last()) + "  "@ + codes.last().text() + "\n"@
    }
}

/// The whole program: the `main` prologue, the instructions, then the
/// epilogue that pops the result into `%rax` and returns.
pub open spec fn assembly_text(codes: Seq<Code>) -> Seq<char> {
    ".global main\n"@ + "main:\n"@ + lines_text(codes) + "  popq %rax\n"@ + "  ret\n"@
}

/// Renders a code list as assembly text.
pub fn to_assembly(codes: Vec<Code>) -> (r: String)
    ensures
        r@ == assembly_text(codes@),
{
    let mut text = String::from_str(".global main\n");
    text.append("main:\n");
    let mut i: usize = 0;
    while i < codes.len()
        invariant
            i <= codes@.len(),
            text@ == ".global main\n"@ + "main:\n"@ + lines_text(codes@.subrange(0, i as int)),
        decreases codes@.len() - i,
    {
        let line = codes[i].to_assembly();
        text.append("  ");
        text.append(line.as_str());
        text.append("\n");
        proof {
            let done = codes@.subrange(0, i + 1);
            assert(done.drop_last() =~= codes@.subrange(0, i as int));
        }
        i = i + 1;
    }
    text.append("  popq %rax\n");
    text.append("  ret\n");
    assert(codes@.subrange(0, codes@.len() as int) =~= codes@);
    text
}

/// Rendering is a function of the code list alone: the same list twice gives
/// the same text, character for character.
pub proof fn lemma_render_deterministic(a: Seq<Code>, b: Seq<Code>)
    requires
        a == b,
    ensures
        assembly_text(a) == assembly_text(b),
{
}

} // verus!

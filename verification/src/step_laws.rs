use vstd::prelude::*;

use crate::ast::{Config, Instr, WBinop, WRelop};
use crate::interpret::{outcome, run_result, step_result, steppable};

verus! {

/// `Const(v)` pushes `v`.
pub proof fn step_pushes_constant(mem: Seq<i32>, c: Config)
    requires
        c.instrs.len() > 0,
        c.instrs[0] is Const,
    ensures
        steppable(c),
        step_result(mem, c).0 == mem,
        step_result(mem, c).1.locals == c.locals,
        step_result(mem, c).1.stack == c.stack.push(c.instrs[0]->Const_0),
        step_result(mem, c).1.instrs == c.instrs.drop_first(),
{
}

/// `Binop(Add)` replaces the two top values `a` (below) and `b` (on top) by
/// `a + b` where that fits in `i32`; where it does not, no step is taken.
pub proof fn step_adds(mem: Seq<i32>, c: Config)
    requires
        c.instrs.len() > 0 && c.instrs[0] == Instr::Binop(WBinop::Add),
        c.stack.len() >= 2,
    ensures
        steppable(c) <==> (i32::MIN <= c.stack[c.stack.len() - 2] + c.stack[c.stack.len() - 1] <= i32::MAX),
        steppable(c) ==> step_result(mem, c).1.stack == c.stack.take(c.stack.len() - 2).push((c.stack[c.stack.len() - 2] + c.stack[c.stack.len() - 1]) as i32),
        steppable(c) ==> step_result(mem, c).1.instrs == c.instrs.drop_first(),
        step_result(mem, c).1.locals == c.locals,
        step_result(mem, c).0 == mem,
{
}

/// `Binop(Sub)` replaces the two top values `a` (below) and `b` (on top) by
/// `a - b` where that fits in `i32`; where it does not, no step is taken.
pub proof fn step_subtracts(mem: Seq<i32>, c: Config)
    requires
        c.instrs.len() > 0 && c.instrs[0] == Instr::Binop(WBinop::Sub),
        c.stack.len() >= 2,
    ensures
        steppable(c) <==> (i32::MIN <= c.stack[c.stack.len() - 2] - c.stack[c.stack.len() - 1] <= i32::MAX),
        steppable(c) ==> step_result(mem, c).1.stack == c.stack.take(c.stack.len() - 2).push((c.stack[c.stack.len() - 2] - c.stack[c.stack.len() - 1]) as i32),
        steppable(c) ==> step_result(mem, c).1.instrs == c.instrs.drop_first(),
        step_result(mem, c).1.locals == c.locals,
        step_result(mem, c).0 == mem,
{
}

/// `Binop(Mul)` replaces the two top values `a` (below) and `b` (on top) by
/// `a * b` where that fits in `i32`; where it does not, no step is taken.
pub proof fn step_multiplies(mem: Seq<i32>, c: Config)
    requires
        c.instrs.len() > 0 && c.instrs[0] == Instr::Binop(WBinop::Mul),
        c.stack.len() >= 2,
    ensures
        steppable(c) <==> (i32::MIN <= c.stack[c.stack.len() - 2] * c.stack[c.stack.len() - 1] <= i32::MAX),
        steppable(c) ==> step_result(mem, c).1.stack == c.stack.take(c.stack.len() - 2).push((c.stack[c.stack.len() - 2] * c.stack[c.stack.len() - 1]) as i32),
        steppable(c) ==> step_result(mem, c).1.instrs == c.instrs.drop_first(),
        step_result(mem, c).1.locals == c.locals,
        step_result(mem, c).0 == mem,
{
}

/// `Binop(DivS)` replaces the two top values `a` (below) and `b` (on top)
/// by their quotient rounded toward zero, and by zero where `b` is zero; the
/// one quotient that does not fit in `i32` (`i32::MIN / -1`) takes no step.
pub proof fn step_divides(mem: Seq<i32>, c: Config)
    requires
        c.instrs.len() > 0 && c.instrs[0] == Instr::Binop(WBinop::DivS),
        c.stack.len() >= 2,
    ensures
        steppable(c) <==> !(c.stack[c.stack.len() - 2] == i32::MIN && c.stack[c.stack.len() - 1] == -1),
        c.stack[c.stack.len() - 1] == 0 ==> step_result(mem, c).1.stack == c.stack.take(c.stack.len() - 2).push(0i32),
        c.stack[c.stack.len() - 2] >= 0 && c.stack[c.stack.len() - 1] > 0 ==> step_result(mem, c).1.stack == c.stack.take(c.stack.len() - 2).push((c.stack[c.stack.len() - 2] / c.stack[c.stack.len() - 1]) as i32),
        c.stack[c.stack.len() - 2] < 0 && c.stack[c.stack.len() - 1] > 0 ==> step_result(mem, c).1.stack == c.stack.take(c.stack.len() - 2).push((-((-(c.stack[c.stack.len() - 2] as int)) / (c.stack[c.stack.len() - 1] as int))) as i32),
        c.stack[c.stack.len() - 2] >= 0 && c.stack[c.stack.len() - 1] < 0 ==> step_result(mem, c).1.stack == c.stack.take(c.stack.len() - 2).push((-((c.stack[c.stack.len() - 2] as int) / (-(c.stack[c.stack.len() - 1] as int)))) as i32),
        c.stack[c.stack.len() - 2] < 0 && c.stack[c.stack.len() - 1] < 0 && steppable(c) ==> step_result(mem, c).1.stack == c.stack.take(c.stack.len() - 2).push(((-(c.stack[c.stack.len() - 2] as int)) / (-(c.stack[c.stack.len() - 1] as int))) as i32),
        step_result(mem, c).1.instrs == c.instrs.drop_first(),
        step_result(mem, c).1.locals == c.locals,
        step_result(mem, c).0 == mem,
{
    let x = c.stack[c.stack.len() - 2] as int;
    let d = c.stack[c.stack.len() - 1] as int;
    if d != 0 {
        let ax = if x >= 0 { x } else { -x };
        let ad = if d >= 0 { d } else { -d };
        assert(0 <= ax / ad <= ax) by (nonlinear_arith)
            requires
                ax >= 0,
                ad >= 1,
        ;
        if ad >= 2 {
            assert(ax / ad <= ax / 2) by (nonlinear_arith)
                requires
                    ax >= 0,
                    ad >= 2,
            ;
        }
        let a = c.stack[c.stack.len() - 2];
        let b = c.stack[c.stack.len() - 1];
        if x > 0 && d > 0 {
            assert(x / d == ax / ad);
        } else if x < 0 && d < 0 {
            assert((x * -1) / (d * -1) == ax / ad);
            if d == -1 {
                assert(ax / ad == ax) by (nonlinear_arith)
                    requires
                        ad == 1,
                ;
            }
        } else if x < 0 {
            assert(((x * -1) / d) * -1 == -(ax / ad));
        } else if x > 0 {
            assert((x / (d * -1)) * -1 == -(ax / ad));
        }
        assert((a.checked_div(b) is Some) <==> !(a == i32::MIN && b == -1));
    }
}

/// `Relop(Eq)` replaces the two top values `a` (below) and `b` (on top) by
/// one where `a == b` and by zero otherwise.
pub proof fn step_compares_equal(mem: Seq<i32>, c: Config)
    requires
        c.instrs.len() > 0 && c.instrs[0] == Instr::Relop(WRelop::Eq),
        c.stack.len() >= 2,
    ensures
        steppable(c),
        step_result(mem, c).0 == mem,
        step_result(mem, c).1.locals == c.locals,
        step_result(mem, c).1.stack == c.stack.take(c.stack.len() - 2).push(if c.stack[c.stack.len() - 2] == c.stack[c.stack.len() - 1] { 1i32 } else { 0i32 }),
        step_result(mem, c).1.instrs == c.instrs.drop_first(),
{
}

/// `Relop(Lt)` replaces the two top values `a` (below) and `b` (on top) by
/// one where `a < b` and by zero otherwise.
pub proof fn step_compares_less(mem: Seq<i32>, c: Config)
    requires
        c.instrs.len() > 0 && c.instrs[0] == Instr::Relop(WRelop::Lt),
        c.stack.len() >= 2,
    ensures
        steppable(c),
        step_result(mem, c).0 == mem,
        step_result(mem, c).1.locals == c.locals,
        step_result(mem, c).1.stack == c.stack.take(c.stack.len() - 2).push(if c.stack[c.stack.len() - 2] < c.stack[c.stack.len() - 1] { 1i32 } else { 0i32 }),
        step_result(mem, c).1.instrs == c.instrs.drop_first(),
{
}

/// `Relop(Gt)` replaces the two top values `a` (below) and `b` (on top) by
/// one where `a > b` and by zero otherwise.
pub proof fn step_compares_greater(mem: Seq<i32>, c: Config)
    requires
        c.instrs.len() > 0 && c.instrs[0] == Instr::Relop(WRelop::Gt),
        c.stack.len() >= 2,
    ensures
        steppable(c),
        step_result(mem, c).0 == mem,
        step_result(mem, c).1.locals == c.locals,
        step_result(mem, c).1.stack == c.stack.take(c.stack.len() - 2).push(if c.stack[c.stack.len() - 2] > c.stack[c.stack.len() - 1] { 1i32 } else { 0i32 }),
        step_result(mem, c).1.instrs == c.instrs.drop_first(),
{
}

/// A binary or comparison operator with fewer than two values on the stack
/// empties the stack and does nothing more.
pub proof fn step_short_stack_empties(mem: Seq<i32>, c: Config)
    requires
        c.instrs.len() > 0,
        c.instrs[0] is Binop || c.instrs[0] is Relop,
        c.stack.len() < 2,
    ensures
        steppable(c),
        step_result(mem, c).0 == mem,
        step_result(mem, c).1.locals == c.locals,
        step_result(mem, c).1.stack == Seq::<i32>::empty(),
        step_result(mem, c).1.instrs == c.instrs.drop_first(),
{
}

/// `GetLocal(i)` pushes local `i`, and nothing where there is no such local.
pub proof fn step_reads_local(mem: Seq<i32>, c: Config)
    requires
        c.instrs.len() > 0,
        c.instrs[0] is GetLocal,
    ensures
        steppable(c),
        step_result(mem, c).0 == mem,
        step_result(mem, c).1.locals == c.locals,
        step_result(mem, c).1.stack == if 0 <= c.instrs[0]->GetLocal_0 < c.locals.len() { c.stack.push(c.locals[c.instrs[0]->GetLocal_0 as int]) } else { c.stack },
        step_result(mem, c).1.instrs == c.instrs.drop_first(),
{
}

/// `SetLocal(i)` pops the top value into local `i`; with an empty stack it
/// does nothing, and where there is no local `i` no step is taken.
pub proof fn step_writes_local(mem: Seq<i32>, c: Config)
    requires
        c.instrs.len() > 0,
        c.instrs[0] is SetLocal,
    ensures
        steppable(c) <==> (c.stack.len() == 0 || 0 <= c.instrs[0]->SetLocal_0 < c.locals.len()),
        c.stack.len() > 0 ==> step_result(mem, c).1.locals == c.locals.update(c.instrs[0]->SetLocal_0 as int, c.stack.last()),
        c.stack.len() > 0 ==> step_result(mem, c).1.stack == c.stack.drop_last(),
        c.stack.len() == 0 ==> step_result(mem, c).1.locals == c.locals && step_result(mem, c).1.stack == c.stack,
        step_result(mem, c).1.instrs == c.instrs.drop_first(),
        step_result(mem, c).0 == mem,
{
}

/// `BrIf(l)` pops the top value and branches (puts `Br(l)` in front) unless
/// that value is zero; with an empty stack it does nothing.
pub proof fn step_branches_if(mem: Seq<i32>, c: Config)
    requires
        c.instrs.len() > 0,
        c.instrs[0] is BrIf,
    ensures
        steppable(c),
        step_result(mem, c).0 == mem,
        step_result(mem, c).1.locals == c.locals,
        c.stack.len() > 0 ==> step_result(mem, c).1.stack == c.stack.drop_last(),
        c.stack.len() > 0 && c.stack.last() != 0 ==> step_result(mem, c).1.instrs == seq![Instr::Br(c.instrs[0]->BrIf_0)] + c.instrs.drop_first(),
        c.stack.len() > 0 && c.stack.last() == 0 ==> step_result(mem, c).1.instrs == c.instrs.drop_first(),
        c.stack.len() == 0 ==> step_result(mem, c).1.stack == c.stack && step_result(mem, c).1.instrs == c.instrs.drop_first(),
{
}

/// `Return` pops the top value `v` and puts `Returning(v)` in front; with an
/// empty stack it does nothing.
pub proof fn step_returns(mem: Seq<i32>, c: Config)
    requires
        c.instrs.len() > 0 && c.instrs[0] == Instr::Return,
    ensures
        steppable(c),
        step_result(mem, c).0 == mem,
        step_result(mem, c).1.locals == c.locals,
        c.stack.len() > 0 ==> step_result(mem, c).1.stack == c.stack.drop_last() && step_result(mem, c).1.instrs == seq![Instr::Returning(c.stack.last())] + c.instrs.drop_first(),
        c.stack.len() == 0 ==> step_result(mem, c).1.stack == c.stack && step_result(mem, c).1.instrs == c.instrs.drop_first(),
{
}

/// `Unreachable`, and a `Br` or `Returning` met outside any label, put the
/// trap `Trapping("Unreachable")` in front.
pub proof fn step_traps(mem: Seq<i32>, c: Config)
    requires
        c.instrs.len() > 0,
        c.instrs[0] is Unreachable || c.instrs[0] is Br || c.instrs[0] is Returning,
    ensures
        steppable(c),
        step_result(mem, c).0 == mem,
        step_result(mem, c).1.locals == c.locals,
        step_result(mem, c).1.stack == c.stack,
        step_result(mem, c).1.instrs == seq![Instr::Trapping("Unreachable"@)] + c.instrs.drop_first(),
{
}

/// `Block(body)` puts a label in front that runs `body` on an empty stack
/// and has no continuation.
pub proof fn step_enters_block(mem: Seq<i32>, c: Config)
    requires
        c.instrs.len() > 0,
        c.instrs[0] is Block,
    ensures
        steppable(c),
        step_result(mem, c).0 == mem,
        step_result(mem, c).1.locals == c.locals,
        step_result(mem, c).1.stack == c.stack,
        step_result(mem, c).1.instrs == seq![Instr::Label { continuation: None, stack: Seq::empty(), instrs: c.instrs[0]->Block_0 }] + c.instrs.drop_first(),
{
}

/// `Loop(body)` puts a label in front that runs `body` on an empty stack
/// and continues with the same loop.
pub proof fn step_enters_loop(mem: Seq<i32>, c: Config)
    requires
        c.instrs.len() > 0,
        c.instrs[0] is Loop,
    ensures
        steppable(c),
        step_result(mem, c).0 == mem,
        step_result(mem, c).1.locals == c.locals,
        step_result(mem, c).1.stack == c.stack,
        step_result(mem, c).1.instrs == seq![Instr::Label { continuation: Some(Box::new(c.instrs[0])), stack: Seq::empty(), instrs: c.instrs[0]->Loop_0 }] + c.instrs.drop_first(),
{
}

/// A label whose last instruction is a trap is replaced by that trap: a trap
/// inside a block or loop is never lost.
pub proof fn step_label_passes_trap_out(mem: Seq<i32>, c: Config)
    requires
        c.instrs.len() > 0,
        c.instrs[0] is Label,
        c.instrs[0]->Label_instrs.len() > 0,
        c.instrs[0]->Label_instrs.last() is Trapping,
    ensures
        steppable(c),
        step_result(mem, c).0 == mem,
        step_result(mem, c).1.locals == c.locals,
        step_result(mem, c).1.stack == c.stack,
        step_result(mem, c).1.instrs == seq![c.instrs[0]->Label_instrs.last()] + c.instrs.drop_first(),
{
}

/// A label whose last instruction is `Returning(v)` is replaced by it.
pub proof fn step_label_passes_return_out(mem: Seq<i32>, c: Config)
    requires
        c.instrs.len() > 0,
        c.instrs[0] is Label,
        c.instrs[0]->Label_instrs.len() > 0,
        c.instrs[0]->Label_instrs.last() is Returning,
    ensures
        steppable(c),
        step_result(mem, c).0 == mem,
        step_result(mem, c).1.locals == c.locals,
        step_result(mem, c).1.stack == c.stack,
        step_result(mem, c).1.instrs == seq![c.instrs[0]->Label_instrs.last()] + c.instrs.drop_first(),
{
}

/// A label whose last instruction is `Br(0)` is replaced by its continuation
/// (none means no step), and one whose last is `Br(k)`, `k > 0`, by `Br(k - 1)`.
pub proof fn step_label_branches(mem: Seq<i32>, c: Config)
    requires
        c.instrs.len() > 0,
        c.instrs[0] is Label,
        c.instrs[0]->Label_instrs.len() > 0,
        c.instrs[0]->Label_instrs.last() is Br,
    ensures
        c.instrs[0]->Label_instrs.last()->Br_0 == 0 ==> (steppable(c) <==> c.instrs[0]->Label_continuation is Some),
        c.instrs[0]->Label_instrs.last()->Br_0 == 0 && steppable(c) ==> step_result(mem, c).1.instrs == seq![*c.instrs[0]->Label_continuation.unwrap()] + c.instrs.drop_first(),
        c.instrs[0]->Label_instrs.last()->Br_0 != 0 ==> (steppable(c) <==> c.instrs[0]->Label_instrs.last()->Br_0 != i32::MIN),
        c.instrs[0]->Label_instrs.last()->Br_0 != 0 && steppable(c) ==> step_result(mem, c).1.instrs == seq![Instr::Br((c.instrs[0]->Label_instrs.last()->Br_0 - 1) as i32)] + c.instrs.drop_first(),
        step_result(mem, c).0 == mem,
        step_result(mem, c).1.locals == c.locals,
        step_result(mem, c).1.stack == c.stack,
{
}

/// A label with no instruction left is taken away.
pub proof fn step_label_ends(mem: Seq<i32>, c: Config)
    requires
        c.instrs.len() > 0,
        c.instrs[0] is Label,
        c.instrs[0]->Label_instrs.len() == 0,
    ensures
        steppable(c),
        step_result(mem, c).0 == mem,
        step_result(mem, c).1.locals == c.locals,
        step_result(mem, c).1.stack == c.stack,
        step_result(mem, c).1.instrs == c.instrs.drop_first(),
{
}

/// `Load` pops an address and pushes the cell there; where there is no such
/// cell it puts the trap in front instead. With an empty stack it does nothing.
pub proof fn step_loads(mem: Seq<i32>, c: Config)
    requires
        c.instrs.len() > 0 && c.instrs[0] == Instr::Load,
    ensures
        steppable(c),
        step_result(mem, c).0 == mem,
        step_result(mem, c).1.locals == c.locals,
        c.stack.len() > 0 && 0 <= c.stack.last() < mem.len() ==> step_result(mem, c).1.stack == c.stack.drop_last().push(mem[c.stack.last() as int]) && step_result(mem, c).1.instrs == c.instrs.drop_first(),
        c.stack.len() > 0 && !(0 <= c.stack.last() < mem.len()) ==> step_result(mem, c).1.stack == c.stack.drop_last() && step_result(mem, c).1.instrs == seq![Instr::Trapping("Unreachable"@)] + c.instrs.drop_first(),
        c.stack.len() == 0 ==> step_result(mem, c).1.stack == c.stack && step_result(mem, c).1.instrs == c.instrs.drop_first(),
{
}

/// `Store` pops a value `v` and then an address `a`, and writes `v` at `a`;
/// where there is no cell `a` it puts the trap in front instead. With fewer
/// than two values it empties the stack and does nothing more.
pub proof fn step_stores(mem: Seq<i32>, c: Config)
    requires
        c.instrs.len() > 0 && c.instrs[0] == Instr::Store,
    ensures
        steppable(c),
        step_result(mem, c).1.locals == c.locals,
        c.stack.len() >= 2 && 0 <= c.stack[c.stack.len() - 2] < mem.len() ==> step_result(mem, c).0 == mem.update(c.stack[c.stack.len() - 2] as int, c.stack[c.stack.len() - 1]) && step_result(mem, c).1.stack == c.stack.take(c.stack.len() - 2) && step_result(mem, c).1.instrs == c.instrs.drop_first(),
        c.stack.len() >= 2 && !(0 <= c.stack[c.stack.len() - 2] < mem.len()) ==> step_result(mem, c).0 == mem && step_result(mem, c).1.stack == c.stack.take(c.stack.len() - 2) && step_result(mem, c).1.instrs == seq![Instr::Trapping("Unreachable"@)] + c.instrs.drop_first(),
        c.stack.len() < 2 ==> step_result(mem, c).0 == mem && step_result(mem, c).1.stack == Seq::<i32>::empty() && step_result(mem, c).1.instrs == c.instrs.drop_first(),
{
}

/// `Size` pushes the number of cells.
pub proof fn step_pushes_size(mem: Seq<i32>, c: Config)
    requires
        c.instrs.len() > 0 && c.instrs[0] == Instr::Size,
    ensures
        steppable(c),
        step_result(mem, c).0 == mem,
        step_result(mem, c).1.locals == c.locals,
        step_result(mem, c).1.stack == c.stack.push(mem.len() as i32),
        step_result(mem, c).1.instrs == c.instrs.drop_first(),
{
}

/// `Grow` adds a page of zeroed cells at the end of memory.
pub proof fn step_grows(mem: Seq<i32>, c: Config)
    requires
        c.instrs.len() > 0 && c.instrs[0] == Instr::Grow,
    ensures
        steppable(c),
        step_result(mem, c).0 == mem + Seq::new(4096, |i: int| 0i32),
        step_result(mem, c).1.locals == c.locals,
        step_result(mem, c).1.stack == c.stack,
        step_result(mem, c).1.instrs == c.instrs.drop_first(),
{
}

/// Calls, frames and a trap in front take no step.
pub proof fn step_refuses_calls_frames_and_traps(mem: Seq<i32>, c: Config)
    requires
        c.instrs.len() > 0,
        c.instrs[0] is Call || c.instrs[0] is Frame || c.instrs[0] is Trapping,
    ensures
        !steppable(c),
{
}

/// With no instruction left no step is taken.
pub proof fn step_needs_an_instruction(mem: Seq<i32>, c: Config)
    requires
        c.instrs.len() == 0,
    ensures
        !steppable(c),
{
}

/// Evaluation that has run out of instructions ends with the value pushed
/// last, one with a trap in front ends with that trap's message, and any
/// other configuration has not ended.
pub proof fn outcome_is_top_or_trap(c: Config, v: i32, t: Seq<char>)
    ensures
        c.instrs.len() == 0 ==> outcome(Config { stack: c.stack.push(v), ..c }) == Some(Ok::<i32, Seq<char>>(v)),
        c.instrs.len() > 0 && c.instrs[0] == Instr::Trapping(t) ==> outcome(c) == Some(Err::<i32, Seq<char>>(t)),
        c.instrs.len() > 0 && !(c.instrs[0] is Trapping) ==> outcome(c) is None,
{
}

/// Running with no fuel changes nothing; running stops at once where no
/// step can be taken; otherwise it takes one step and runs on.
pub proof fn run_takes_steps(mem: Seq<i32>, c: Config, fuel: nat)
    ensures
        run_result(mem, c, 0) == (mem, c),
        !steppable(c) ==> run_result(mem, c, fuel) == (mem, c),
        steppable(c) ==> run_result(mem, c, fuel + 1) == run_result(step_result(mem, c).0, step_result(mem, c).1, fuel),
{
}

/// Running for `f1 + f2` steps is running for `f1` steps and then for `f2`
/// more from where that ended.
pub proof fn run_composes(mem: Seq<i32>, c: Config, f1: nat, f2: nat)
    ensures
        run_result(mem, c, f1 + f2) == run_result(run_result(mem, c, f1).0, run_result(mem, c, f1).1, f2),
    decreases f1,
{
    if f1 > 0 && steppable(c) {
        let (m2, c2) = step_result(mem, c);
        run_composes(m2, c2, (f1 - 1) as nat, f2);
        assert(f1 + f2 == ((f1 - 1) + f2) + 1);
    }
}

} // verus!

use vstd::prelude::*;

use crate::ast::{copy_instrs, copy_values, instrs_model, Config, Instr, WBinop, WConfig, WInstr, WModule, WRelop};
use crate::memory::{cell_at, grown, stored, WMemory};

verus! {

/// The message that a trap carries.
pub open spec fn trap_text() -> Seq<char> {
    "Unreachable"@
}

/// The trap that a faulty instruction leaves in its place.
pub open spec fn trap() -> Instr {
    Instr::Trapping(trap_text())
}

/// The value of `n1 op n2`, or `None` where the `i32` operation overflows.
/// Division by zero gives zero.
pub open spec fn binop_result(op: WBinop, n1: i32, n2: i32) -> Option<i32> {
    match op {
        WBinop::Add => n1.checked_add(n2),
        WBinop::Sub => n1.checked_sub(n2),
        WBinop::Mul => n1.checked_mul(n2),
        WBinop::DivS => if n2 == 0 {
            Some(0i32)
        } else {
            n1.checked_div(n2)
        },
    }
}

/// The value of `n1 op n2`: one where the comparison holds, else zero.
pub open spec fn relop_result(op: WRelop, n1: i32, n2: i32) -> i32 {
    let holds = match op {
        WRelop::Eq => n1 == n2,
        WRelop::Lt => n1 < n2,
        WRelop::Gt => n1 > n2,
    };
    if holds {
        1
    } else {
        0
    }
}

/// The stack after a binary operation: the two top values are replaced by
/// `v`; where fewer than two values are on the stack, it ends up empty.
pub open spec fn combine_top(stack: Seq<i32>, v: i32) -> Seq<i32> {
    if stack.len() >= 2 {
        stack.take(stack.len() - 2).push(v)
    } else {
        Seq::empty()
    }
}

/// Whether one step can be taken from `c`: there is an instruction to run,
/// and running it overflows no arithmetic, writes no local that does not
/// exist, branches out of no label without a continuation, and is not a
/// call, a frame or a trap (which a step does not handle).
pub open spec fn steppable(c: Config) -> bool
    decreases c.instrs,
{
    if c.instrs.len() == 0 {
        false
    } else {
        let s = c.stack;
        match c.instrs[0] {
            Instr::Binop(op) => s.len() >= 2 ==> binop_result(op, s[s.len() - 2], s[s.len() - 1]) is Some,
            Instr::SetLocal(i) => s.len() > 0 ==> 0 <= i < c.locals.len(),
            Instr::Label { continuation, stack, instrs } => {
                if instrs.len() == 0 {
                    true
                } else {
                    match instrs.last() {
                        Instr::Trapping(_) => true,
                        Instr::Returning(_) => true,
                        Instr::Br(k) => if k == 0 {
                            continuation is Some
                        } else {
                            k != i32::MIN
                        },
                        _ => steppable(Config { locals: c.locals, stack, instrs }),
                    }
                }
            },
            Instr::Call(_) => false,
            Instr::Frame(_) => false,
            Instr::Trapping(_) => false,
            _ => true,
        }
    }
}

/// The configuration made of `locals` and `stack`, with `new` (where there
/// is one) put in front of the instructions `rest`.
pub open spec fn rebuild(locals: Seq<i32>, stack: Seq<i32>, new: Option<Instr>, rest: Seq<Instr>) -> Config {
    Config {
        locals,
        stack,
        instrs: match new {
            Some(i) => seq![i] + rest,
            None => rest,
        },
    }
}

/// The memory and configuration after one step from `c` with memory `mem`:
/// the first instruction is taken off and run, and where it produces an
/// instruction, that one is put back in front.
pub open spec fn step_result(mem: Seq<i32>, c: Config) -> (Seq<i32>, Config)
    decreases c.instrs,
{
    if c.instrs.len() == 0 {
        (mem, c)
    } else {
        let l = c.locals;
        let s = c.stack;
        let rest = c.instrs.drop_first();
        match c.instrs[0] {
            Instr::Unreachable => (mem, rebuild(l, s, Some(trap()), rest)),
            Instr::Const(n) => (mem, rebuild(l, s.push(n), None, rest)),
            Instr::Binop(op) => (
                mem,
                rebuild(l, combine_top(s, binop_result(op, s[s.len() - 2], s[s.len() - 1]).unwrap()), None, rest),
            ),
            Instr::Relop(op) => (
                mem,
                rebuild(l, combine_top(s, relop_result(op, s[s.len() - 2], s[s.len() - 1])), None, rest),
            ),
            Instr::GetLocal(i) => (
                mem,
                rebuild(l, if 0 <= i < l.len() { s.push(l[i as int]) } else { s }, None, rest),
            ),
            Instr::SetLocal(i) => if s.len() > 0 {
                (mem, rebuild(l.update(i as int, s.last()), s.drop_last(), None, rest))
            } else {
                (mem, rebuild(l, s, None, rest))
            },
            Instr::BrIf(label) => if s.len() > 0 {
                (mem, rebuild(l, s.drop_last(), if s.last() == 0 { None } else { Some(Instr::Br(label)) }, rest))
            } else {
                (mem, rebuild(l, s, None, rest))
            },
            Instr::Return => if s.len() > 0 {
                (mem, rebuild(l, s.drop_last(), Some(Instr::Returning(s.last())), rest))
            } else {
                (mem, rebuild(l, s, None, rest))
            },
            Instr::Loop(body) => (
                mem,
                rebuild(
                    l,
                    s,
                    Some(Instr::Label { continuation: Some(Box::new(Instr::Loop(body))), stack: Seq::empty(), instrs: body }),
                    rest,
                ),
            ),
            Instr::Block(body) => (
                mem,
                rebuild(l, s, Some(Instr::Label { continuation: None, stack: Seq::empty(), instrs: body }), rest),
            ),
            Instr::Label { continuation, stack, instrs } => {
                if instrs.len() == 0 {
                    (mem, rebuild(l, s, None, rest))
                } else {
                    match instrs.last() {
                        Instr::Trapping(t) => (mem, rebuild(l, s, Some(Instr::Trapping(t)), rest)),
                        Instr::Returning(n) => (mem, rebuild(l, s, Some(Instr::Returning(n)), rest)),
                        Instr::Br(k) => if k == 0 {
                            (mem, rebuild(l, s, Some(*continuation.unwrap()), rest))
                        } else {
                            (mem, rebuild(l, s, Some(Instr::Br((k - 1) as i32)), rest))
                        },
                        _ => {
                            let (mem2, inner) = step_result(mem, Config { locals: l, stack, instrs });
                            (
                                mem2,
                                rebuild(
                                    l,
                                    s,
                                    Some(Instr::Label { continuation, stack: inner.stack, instrs: inner.instrs }),
                                    rest,
                                ),
                            )
                        },
                    }
                }
            },
            Instr::Load => if s.len() > 0 {
                match cell_at(mem, s.last() as int) {
                    Some(v) => (mem, rebuild(l, s.drop_last().push(v), None, rest)),
                    None => (mem, rebuild(l, s.drop_last(), Some(trap()), rest)),
                }
            } else {
                (mem, rebuild(l, s, None, rest))
            },
            Instr::Store => if s.len() > 1 {
                let n = s.last();
                let a = s.drop_last().last();
                let s2 = s.drop_last().drop_last();
                if 0 <= a < mem.len() {
                    (stored(mem, a as int, n), rebuild(l, s2, None, rest))
                } else {
                    (mem, rebuild(l, s2, Some(trap()), rest))
                }
            } else {
                (mem, rebuild(l, Seq::empty(), None, rest))
            },
            Instr::Size => (mem, rebuild(l, s.push(mem.len() as i32), None, rest)),
            Instr::Grow => (grown(mem), rebuild(l, s, None, rest)),
            Instr::Returning(_) => (mem, rebuild(l, s, Some(trap()), rest)),
            Instr::Br(_) => (mem, rebuild(l, s, Some(trap()), rest)),
            _ => (mem, c),
        }
    }
}

/// A step never takes memory away: every cell that was there before is
/// still there afterwards (possibly with another value).
pub proof fn step_keeps_memory_cells(mem: Seq<i32>, c: Config)
    ensures
        step_result(mem, c).0.len() >= mem.len(),
    decreases c.instrs,
{
    if c.instrs.len() > 0 {
        match c.instrs[0] {
            Instr::Label { continuation, stack, instrs } => {
                if instrs.len() > 0 {
                    assert(decreases_to!(c.instrs => c.instrs[0]));
                    step_keeps_memory_cells(mem, Config { locals: c.locals, stack, instrs });
                }
            },
            _ => {},
        }
    }
}

/// How evaluation ends at configuration `c`, where it ends there: with the
/// value on top of the stack once no instruction is left, or with the
/// message of the trap in front; `None` where an instruction is still to run.
pub open spec fn outcome(c: Config) -> Option<Result<i32, Seq<char>>> {
    if c.instrs.len() == 0 {
        Some(Ok(c.stack.last()))
    } else {
        match c.instrs[0] {
            Instr::Trapping(t) => Some(Err(t)),
            _ => None,
        }
    }
}

/// Tells whether evaluation ends at `config`, and with what.
pub fn run_outcome(config: &WConfig) -> (r: Option<Result<i32, String>>)
    requires
        config.instrs.len() > 0 || config.stack.len() > 0,
    ensures
        match r {
            None => outcome(config.model()) is None,
            Some(Ok(v)) => outcome(config.model()) == Some(Ok::<i32, Seq<char>>(v)),
            Some(Err(t)) => outcome(config.model()) == Some(Err::<i32, Seq<char>>(t@)),
        },
{
    if config.instrs.len() == 0 {
        let n = config.stack.len();
        return Some(Ok(config.stack[n - 1]));
    }
    proof {
        assert(config.model().instrs[0] == config.instrs@[0].model());
    }
    match &config.instrs[0] {
        WInstr::Trapping(t) => Some(Err(t.clone())),
        _ => None,
    }
}

fn trap_message() -> (s: String)
    ensures
        s@ == trap_text(),
{
    "Unreachable".to_string()
}

fn apply_binop(op: WBinop, n1: i32, n2: i32) -> (r: i32)
    requires
        binop_result(op, n1, n2) is Some,
    ensures
        binop_result(op, n1, n2) == Some(r),
{
    match op {
        WBinop::Add => n1 + n2,
        WBinop::Sub => n1 - n2,
        WBinop::Mul => n1 * n2,
        WBinop::DivS => if n2 == 0 {
            0
        } else {
            match n1.checked_div(n2) {
                Some(q) => q,
                None => 0,
            }
        },
    }
}

fn apply_relop(op: WRelop, n1: i32, n2: i32) -> (r: i32)
    ensures
        r == relop_result(op, n1, n2),
{
    let holds = match op {
        WRelop::Eq => n1 == n2,
        WRelop::Lt => n1 < n2,
        WRelop::Gt => n1 > n2,
    };
    if holds {
        1
    } else {
        0
    }
}

fn binop_defined(op: WBinop, n1: i32, n2: i32) -> (r: bool)
    ensures
        r == binop_result(op, n1, n2) is Some,
{
    match op {
        WBinop::Add => n1.checked_add(n2).is_some(),
        WBinop::Sub => n1.checked_sub(n2).is_some(),
        WBinop::Mul => n1.checked_mul(n2).is_some(),
        WBinop::DivS => n2 == 0 || n1.checked_div(n2).is_some(),
    }
}

fn steppable_parts(locals: &Vec<i32>, stack: &Vec<i32>, instrs: &Vec<WInstr>) -> (r: bool)
    ensures
        r == steppable(Config { locals: locals@, stack: stack@, instrs: instrs_model(instrs@) }),
    decreases instrs@,
{
    let ghost c = Config { locals: locals@, stack: stack@, instrs: instrs_model(instrs@) };
    if instrs.len() == 0 {
        return false;
    }
    proof {
        assert(c.instrs[0] == instrs@[0].model());
    }
    let sl = stack.len();
    match &instrs[0] {
        WInstr::Binop(op) => sl < 2 || binop_defined(*op, stack[sl - 2], stack[sl - 1]),
        WInstr::SetLocal(i) => sl == 0 || (*i >= 0 && (*i as usize) < locals.len()),
        WInstr::Label { continuation, stack: label_stack, instrs: label_instrs } => {
            let n = label_instrs.len();
            if n == 0 {
                true
            } else {
                proof {
                    assert(instrs_model(label_instrs@).last() == label_instrs@[n - 1].model());
                }
                match &label_instrs[n - 1] {
                    WInstr::Trapping(_) => true,
                    WInstr::Returning(_) => true,
                    WInstr::Br(k) => if *k == 0 {
                        continuation.is_some()
                    } else {
                        *k != i32::MIN
                    },
                    _ => {
                        proof {
                            assert(decreases_to!(instrs@ => instrs@[0]));
                        }
                        steppable_parts(locals, label_stack, label_instrs)
                    },
                }
            }
        },
        WInstr::Call(_) => false,
        WInstr::Frame(_) => false,
        WInstr::Trapping(_) => false,
        _ => true,
    }
}

/// Tells whether `step` may be called on `config`.
pub fn can_step(config: &WConfig) -> (r: bool)
    ensures
        r == steppable(config.model()),
{
    steppable_parts(&config.locals, &config.stack, &config.instrs)
}

/// Takes one step of evaluation: removes the first instruction of `config`,
/// runs it against the operand stack, the locals and the module's memory,
/// and puts the instruction it produces (if any) back in front.
pub fn step<M: WMemory>(module: &mut WModule<M>, config: WConfig) -> (res: WConfig)
    requires
        steppable(config.model()),
    ensures
        final(module).funcs == old(module).funcs,
        step_result(old(module).memory.cells(), config.model()) == (final(module).memory.cells(), res.model()),
    decreases config.instrs@,
{
    let ghost c0 = config.model();
    let ghost mem0 = module.memory.cells();
    let WConfig { mut locals, mut stack, mut instrs } = config;
    let ghost instrs0 = instrs@;
    let instr = instrs.remove(0);
    proof {
        assert(instrs_model(instrs@) =~= c0.instrs.drop_first());
        assert(instr.model() == c0.instrs[0]);
    }
    let new_instr: Option<WInstr> = match instr {
        WInstr::Unreachable => Some(WInstr::Trapping(trap_message())),
        WInstr::Const(n) => {
            stack.push(n);
            None
        },
        WInstr::Binop(op) => {
            if let Some(n2) = stack.pop() {
                if let Some(n1) = stack.pop() {
                    let v = apply_binop(op, n1, n2);
                    stack.push(v);
                }
            }
            None
        },
        WInstr::Relop(op) => {
            if let Some(n2) = stack.pop() {
                if let Some(n1) = stack.pop() {
                    let v = apply_relop(op, n1, n2);
                    stack.push(v);
                }
            }
            None
        },
        WInstr::GetLocal(i) => {
            if i >= 0 && (i as usize) < locals.len() {
                stack.push(locals[i as usize]);
            }
            None
        },
        WInstr::SetLocal(i) => {
            if let Some(n) = stack.pop() {
                locals.set(i as usize, n);
            }
            None
        },
        WInstr::BrIf(label) => {
            match stack.pop() {
                Some(n) => if n == 0 {
                    None
                } else {
                    Some(WInstr::Br(label))
                },
                None => None,
            }
        },
        WInstr::Return => {
            match stack.pop() {
                Some(n) => Some(WInstr::Returning(n)),
                None => None,
            }
        },
        WInstr::Loop(body) => {
            let again = WInstr::Loop(copy_instrs(&body));
            proof {
                assert(again.model() == Instr::Loop(instrs_model(body@)));
            }
            let lab = WInstr::Label {
                continuation: Box::new(Some(again)),
                stack: Vec::new(),
                instrs: body,
            };
            proof {
                let bm = instrs_model(body@);
                assert(lab.model() == Instr::Label { continuation: Some(Box::new(Instr::Loop(bm))), stack: Seq::empty(), instrs: bm });
            }
            Some(lab)
        },
        WInstr::Block(body) => {
            Some(WInstr::Label { continuation: Box::new(None), stack: Vec::new(), instrs: body })
        },
        WInstr::Label { continuation, stack: label_stack, instrs: label_instrs } => {
            let n = label_instrs.len();
            if n == 0 {
                None
            } else {
                proof {
                    assert(instrs_model(label_instrs@).last() == label_instrs@[n - 1].model());
                }
                let last = &label_instrs[n - 1];
                if let WInstr::Trapping(t) = last {
                    Some(WInstr::Trapping(t.clone()))
                } else if let WInstr::Returning(v) = last {
                    Some(WInstr::Returning(*v))
                } else if let WInstr::Br(k) = last {
                    let k = *k;
                    if k == 0 {
                        let c: Option<WInstr> = *continuation;
                        match c {
                            Some(ins) => Some(ins),
                            None => None,
                        }
                    } else {
                        Some(WInstr::Br(k - 1))
                    }
                } else {
                    let inner_locals = copy_values(&locals);
                    let inner_config = WConfig { locals: inner_locals, stack: label_stack, instrs: label_instrs };
                    proof {
                        assert(inner_config.model() == Config { locals: c0.locals, stack: label_stack@, instrs: instrs_model(label_instrs@) });
                        assert(decreases_to!(instrs0 => instrs0[0]));
                    }
                    let inner = step(module, inner_config);
                    Some(WInstr::Label { continuation, stack: inner.stack, instrs: inner.instrs })
                }
            }
        },
        WInstr::Load => {
            match stack.pop() {
                Some(a) => match module.memory.load(a) {
                    Some(v) => {
                        stack.push(v);
                        None
                    },
                    None => Some(WInstr::Trapping(trap_message())),
                },
                None => None,
            }
        },
        WInstr::Store => {
            match stack.pop() {
                Some(v) => match stack.pop() {
                    Some(a) => if module.memory.store(a, v) {
                        None
                    } else {
                        Some(WInstr::Trapping(trap_message()))
                    },
                    None => None,
                },
                None => None,
            }
        },
        WInstr::Size => {
            let n = module.memory.size();
            stack.push(n);
            None
        },
        WInstr::Grow => {
            module.memory.grow();
            None
        },
        WInstr::Returning(_) => Some(WInstr::Trapping(trap_message())),
        WInstr::Br(_) => Some(WInstr::Trapping(trap_message())),
        WInstr::Call(_) => None,
        WInstr::Frame(_) => None,
        WInstr::Trapping(_) => None,
    };
    let ghost rest = instrs@;
    if let Some(ins) = new_instr {
        instrs.insert(0, ins);
        assert(instrs_model(instrs@) =~= seq![ins.model()] + instrs_model(rest));
    }
    let res = WConfig { locals, stack, instrs };
    proof {
        let expected = step_result(mem0, c0);
        assert(res.model().locals =~= expected.1.locals);
        assert(res.model().stack =~= expected.1.stack);
        assert(res.model().instrs =~= expected.1.instrs);
        assert(module.memory.cells() =~= expected.0);
    }
    res
}

/// The memory and configuration after stepping from `c` for as long as a
/// step can be taken (which ends at the last instruction or at a trap in
/// front) and `fuel` lasts: at most `fuel` steps.
pub open spec fn run_result(mem: Seq<i32>, c: Config, fuel: nat) -> (Seq<i32>, Config)
    decreases fuel,
{
    if fuel == 0 || !steppable(c) {
        (mem, c)
    } else {
        let (mem2, c2) = step_result(mem, c);
        run_result(mem2, c2, (fuel - 1) as nat)
    }
}

/// Takes up to `fuel` steps from `config`, stopping early where no step can
/// be taken: where no instruction is left, a trap is in front, or the next
/// instruction is one that a step does not handle.
pub fn run<M: WMemory>(module: &mut WModule<M>, config: WConfig, fuel: usize) -> (res: WConfig)
    ensures
        final(module).funcs == old(module).funcs,
        run_result(old(module).memory.cells(), config.model(), fuel as nat) == (
            final(module).memory.cells(),
            res.model(),
        ),
{
    let ghost mem0 = module.memory.cells();
    let ghost c0 = config.model();
    let mut c = config;
    let mut k = fuel;
    while k > 0 && can_step(&c)
        invariant
            module.funcs == old(module).funcs,
            run_result(mem0, c0, fuel as nat) == run_result(module.memory.cells(), c.model(), k as nat),
        decreases k,
    {
        c = step(module, c);
        k = k - 1;
    }
    c
}

} // verus!

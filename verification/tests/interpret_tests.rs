use assignments::ast::{WBinop, WConfig, WInstr, WModule, WRelop};
use assignments::interpret::{can_step, run, run_outcome, step};
use assignments::memory::{VecMem, WMemory};

fn module() -> WModule<VecMem> {
    WModule { funcs: vec![], memory: VecMem::new(1) }
}

fn config(locals: Vec<i32>, stack: Vec<i32>, instrs: Vec<WInstr>) -> WConfig {
    WConfig { locals, stack, instrs }
}

fn take_steps(m: &mut WModule<VecMem>, mut c: WConfig, steps: usize) -> WConfig {
    for _ in 0..steps {
        assert!(can_step(&c));
        c = step(m, c);
    }
    c
}

fn is_trap(i: &WInstr) -> bool {
    matches!(i, WInstr::Trapping(s) if s == "Unreachable")
}

#[test]
fn arithmetic_on_the_stack() {
    let mut m = module();
    let c = config(vec![], vec![], vec![
        WInstr::Const(7),
        WInstr::Const(3),
        WInstr::Binop(WBinop::Sub),
        WInstr::Const(5),
        WInstr::Binop(WBinop::Mul),
        WInstr::Const(-6),
        WInstr::Binop(WBinop::DivS),
    ]);
    let c = take_steps(&mut m, c, 7);
    assert_eq!(c.stack, vec![-3]);
    assert!(c.instrs.is_empty());
}

#[test]
fn division_by_zero_gives_zero_and_short_stacks_empty() {
    let mut m = module();
    let c = config(vec![], vec![9, 0], vec![WInstr::Binop(WBinop::DivS)]);
    let c = take_steps(&mut m, c, 1);
    assert_eq!(c.stack, vec![0]);
    let c = config(vec![], vec![4], vec![WInstr::Binop(WBinop::Add), WInstr::Relop(WRelop::Lt)]);
    let c = take_steps(&mut m, c, 2);
    assert!(c.stack.is_empty());
}

#[test]
fn comparisons_push_one_or_zero() {
    let mut m = module();
    let c = config(vec![], vec![1, 2, 2, 2, 3, 2], vec![
        WInstr::Relop(WRelop::Gt),
        WInstr::Relop(WRelop::Eq),
    ]);
    let c = take_steps(&mut m, c, 2);
    assert_eq!(c.stack, vec![1, 2, 2, 0]);
    let c = config(vec![], vec![1, 2], vec![WInstr::Relop(WRelop::Lt)]);
    assert_eq!(take_steps(&mut m, c, 1).stack, vec![1]);
}

#[test]
fn overflow_cannot_step() {
    let c = config(vec![], vec![i32::MAX, 1], vec![WInstr::Binop(WBinop::Add)]);
    assert!(!can_step(&c));
    let c = config(vec![], vec![i32::MIN, -1], vec![WInstr::Binop(WBinop::DivS)]);
    assert!(!can_step(&c));
    let c = config(vec![], vec![], vec![WInstr::Call(0)]);
    assert!(!can_step(&c));
    assert!(!can_step(&config(vec![], vec![], vec![])));
}

#[test]
fn locals_read_and_write() {
    let mut m = module();
    let c = config(vec![10, 20], vec![5], vec![
        WInstr::SetLocal(1),
        WInstr::GetLocal(1),
        WInstr::GetLocal(0),
        WInstr::GetLocal(2),
        WInstr::GetLocal(-1),
    ]);
    let c = take_steps(&mut m, c, 5);
    assert_eq!(c.locals, vec![10, 5]);
    assert_eq!(c.stack, vec![5, 10]);
    let bad = config(vec![1], vec![3], vec![WInstr::SetLocal(1)]);
    assert!(!can_step(&bad));
}

#[test]
fn unreachable_and_stray_branches_trap() {
    let mut m = module();
    for i in [WInstr::Unreachable, WInstr::Br(2), WInstr::Returning(4)] {
        let c = take_steps(&mut m, config(vec![], vec![], vec![i, WInstr::Const(1)]), 1);
        assert_eq!(c.instrs.len(), 2);
        assert!(is_trap(&c.instrs[0]));
    }
    let trapped = config(vec![], vec![], vec![WInstr::Trapping("x".to_string())]);
    assert!(!can_step(&trapped));
}

#[test]
fn br_if_and_return() {
    let mut m = module();
    let c = take_steps(&mut m, config(vec![], vec![0], vec![WInstr::BrIf(3)]), 1);
    assert!(c.instrs.is_empty());
    let c = take_steps(&mut m, config(vec![], vec![8], vec![WInstr::BrIf(3)]), 1);
    assert!(matches!(c.instrs[0], WInstr::Br(3)));
    let c = take_steps(&mut m, config(vec![], vec![4, 6], vec![WInstr::Return]), 1);
    assert_eq!(c.stack, vec![4]);
    assert!(matches!(c.instrs[0], WInstr::Returning(6)));
}

#[test]
fn memory_instructions() {
    let mut m = module();
    let c = config(vec![], vec![12, 34], vec![
        WInstr::Store,
        WInstr::Const(12),
        WInstr::Load,
        WInstr::Size,
        WInstr::Grow,
        WInstr::Size,
    ]);
    let c = take_steps(&mut m, c, 6);
    assert_eq!(c.stack, vec![34, 4096, 8192]);
    assert_eq!(m.memory.load(12), Some(34));
    let c = take_steps(&mut m, config(vec![], vec![-1], vec![WInstr::Load]), 1);
    assert!(is_trap(&c.instrs[0]));
    let c = take_steps(&mut m, config(vec![], vec![9000, 1], vec![WInstr::Store]), 1);
    assert!(is_trap(&c.instrs[0]));
    assert!(c.stack.is_empty());
}

#[test]
fn block_runs_inside_a_label() {
    let mut m = module();
    let c = config(vec![], vec![1], vec![WInstr::Block(vec![WInstr::Const(2)]), WInstr::Const(3)]);
    let c = take_steps(&mut m, c, 1);
    match &c.instrs[0] {
        WInstr::Label { continuation, stack, instrs } => {
            assert!(continuation.is_none());
            assert!(stack.is_empty());
            assert_eq!(instrs.len(), 1);
        }
        _ => panic!("expected a label"),
    }
    let c = take_steps(&mut m, c, 1);
    match &c.instrs[0] {
        WInstr::Label { stack, instrs, .. } => {
            assert_eq!(stack, &vec![2]);
            assert!(instrs.is_empty());
        }
        _ => panic!("expected a label"),
    }
    let c = take_steps(&mut m, c, 2);
    assert_eq!(c.stack, vec![1, 3]);
}

#[test]
fn loop_label_keeps_its_continuation() {
    let mut m = module();
    let c = config(vec![], vec![], vec![WInstr::Loop(vec![WInstr::Br(0)])]);
    let c = take_steps(&mut m, c, 1);
    match &c.instrs[0] {
        WInstr::Label { continuation, instrs, .. } => {
            assert!(matches!(&**continuation, Some(WInstr::Loop(body)) if body.len() == 1));
            assert_eq!(instrs.len(), 1);
        }
        _ => panic!("expected a label"),
    }
    let c = take_steps(&mut m, c, 1);
    assert!(matches!(&c.instrs[0], WInstr::Loop(body) if body.len() == 1));
    let c = config(vec![], vec![], vec![WInstr::Block(vec![WInstr::Br(0)])]);
    let c = take_steps(&mut m, c, 1);
    assert!(!can_step(&c));
    let c = config(vec![], vec![], vec![WInstr::Block(vec![WInstr::Br(2)])]);
    let c = take_steps(&mut m, c, 2);
    assert!(matches!(c.instrs.as_slice(), [WInstr::Br(1)]));
}

#[test]
fn run_outcome_stops_on_traps_and_at_the_end() {
    let done = config(vec![], vec![3, 4], vec![]);
    assert_eq!(run_outcome(&done), Some(Ok(4)));
    let trapped = config(vec![], vec![], vec![WInstr::Trapping("Unreachable".to_string()), WInstr::Const(1)]);
    assert_eq!(run_outcome(&trapped), Some(Err("Unreachable".to_string())));
    let going = config(vec![], vec![], vec![WInstr::Const(1)]);
    assert_eq!(run_outcome(&going), None);
    let mut m = module();
    let c = take_steps(&mut m, config(vec![], vec![], vec![WInstr::Unreachable]), 1);
    assert_eq!(run_outcome(&c), Some(Err("Unreachable".to_string())));
}

#[test]
fn run_stops_at_the_end_at_a_trap_or_when_fuel_runs_out() {
    let mut m = module();
    let prog = vec![WInstr::Const(2), WInstr::Const(5), WInstr::Binop(WBinop::Mul), WInstr::Const(1)];
    let c = run(&mut m, config(vec![], vec![], prog), 2);
    assert_eq!(c.stack, vec![2, 5]);
    assert_eq!(c.instrs.len(), 2);
    let c = run(&mut m, c, 100);
    assert_eq!(c.stack, vec![10, 1]);
    assert_eq!(run_outcome(&c), Some(Ok(1)));
    let c = run(&mut m, config(vec![], vec![], vec![WInstr::Const(1), WInstr::Unreachable, WInstr::Const(2)]), 100);
    assert_eq!(c.stack, vec![1]);
    assert_eq!(run_outcome(&c), Some(Err("Unreachable".to_string())));
    let c = run(&mut m, config(vec![], vec![], vec![WInstr::Const(3), WInstr::Call(0)]), 100);
    assert_eq!(c.stack, vec![3]);
    assert!(matches!(c.instrs[0], WInstr::Call(0)));
}

use vstd::prelude::*;

verus! {

/// Binary arithmetic operators on `i32`.
#[derive(Debug, Clone, Copy, PartialEq, Eq, Structural)]
pub enum WBinop {
    Add,
    Sub,
    Mul,
    DivS,
}

/// Comparison operators on `i32`.
#[derive(Debug, Clone, Copy, PartialEq, Eq, Structural)]
pub enum WRelop {
    Eq,
    Lt,
    Gt,
}

/// An instruction of the interpreted language, with the administrative
/// instructions (`Label`, `Frame`, `Returning`, `Br`, `Trapping`) that
/// evaluation introduces.
#[derive(Debug)]
pub enum WInstr {
    Unreachable,
    Const(i32),
    Binop(WBinop),
    Relop(WRelop),
    GetLocal(i32),
    SetLocal(i32),
    BrIf(i32),
    Return,
    Loop(Vec<WInstr>),
    Block(Vec<WInstr>),
    Label { continuation: Box<Option<WInstr>>, stack: Vec<i32>, instrs: Vec<WInstr> },
    Call(i32),
    Frame(WConfig),
    Load,
    Store,
    Size,
    Grow,
    Returning(i32),
    Br(i32),
    Trapping(String),
}

/// A configuration: local variables, operand stack and instructions left to run.
#[derive(Debug)]
pub struct WConfig {
    pub locals: Vec<i32>,
    pub stack: Vec<i32>,
    pub instrs: Vec<WInstr>,
}

/// A function: its parameter and local counts and its body.
#[derive(Debug)]
pub struct WFunc {
    pub params: i32,
    pub locals: i32,
    pub body: Vec<WInstr>,
}

/// A module: its functions and its memory.
pub struct WModule<M> {
    pub funcs: Vec<WFunc>,
    pub memory: M,
}

/// The mathematical value of a `WInstr`.
pub enum Instr {
    Unreachable,
    Const(i32),
    Binop(WBinop),
    Relop(WRelop),
    GetLocal(i32),
    SetLocal(i32),
    BrIf(i32),
    Return,
    Loop(Seq<Instr>),
    Block(Seq<Instr>),
    Label { continuation: Option<Box<Instr>>, stack: Seq<i32>, instrs: Seq<Instr> },
    Call(i32),
    Frame(Config),
    Load,
    Store,
    Size,
    Grow,
    Returning(i32),
    Br(i32),
    Trapping(Seq<char>),
}

/// The mathematical value of a `WConfig`.
pub struct Config {
    pub locals: Seq<i32>,
    pub stack: Seq<i32>,
    pub instrs: Seq<Instr>,
}

impl WInstr {
    pub open spec fn model(&self) -> Instr
        decreases self,
    {
        match self {
            WInstr::Unreachable => Instr::Unreachable,
            WInstr::Const(n) => Instr::Const(*n),
            WInstr::Binop(b) => Instr::Binop(*b),
            WInstr::Relop(r) => Instr::Relop(*r),
            WInstr::GetLocal(i) => Instr::GetLocal(*i),
            WInstr::SetLocal(i) => Instr::SetLocal(*i),
            WInstr::BrIf(l) => Instr::BrIf(*l),
            WInstr::Return => Instr::Return,
            WInstr::Loop(is) => Instr::Loop(instrs_model(is@)),
            WInstr::Block(is) => Instr::Block(instrs_model(is@)),
            WInstr::Label { continuation, stack, instrs } => Instr::Label {
                continuation: match **continuation {
                    Some(c) => Some(Box::new(c.model())),
                    None => None,
                },
                stack: stack@,
                instrs: instrs_model(instrs@),
            },
            WInstr::Call(f) => Instr::Call(*f),
            WInstr::Frame(c) => Instr::Frame(c.model()),
            WInstr::Load => Instr::Load,
            WInstr::Store => Instr::Store,
            WInstr::Size => Instr::Size,
            WInstr::Grow => Instr::Grow,
            WInstr::Returning(n) => Instr::Returning(*n),
            WInstr::Br(l) => Instr::Br(*l),
            WInstr::Trapping(s) => Instr::Trapping(s@),
        }
    }
}

impl WConfig {
    pub open spec fn model(&self) -> Config
        decreases self,
    {
        Config { locals: self.locals@, stack: self.stack@, instrs: instrs_model(self.instrs@) }
    }
}

/// The mathematical values of a sequence of instructions.
pub open spec fn instrs_model(s: Seq<WInstr>) -> Seq<Instr>
    decreases s,
{
    Seq::new(s.len(), |k: int| if 0 <= k < s.len() { s[k].model() } else { Instr::Unreachable })
}

/// A deep copy of `i`.
pub fn copy_instr(i: &WInstr) -> (r: WInstr)
    ensures
        r.model() == i.model(),
    decreases *i,
{
    match i {
        WInstr::Unreachable => WInstr::Unreachable,
        WInstr::Const(n) => WInstr::Const(*n),
        WInstr::Binop(b) => WInstr::Binop(*b),
        WInstr::Relop(r) => WInstr::Relop(*r),
        WInstr::GetLocal(k) => WInstr::GetLocal(*k),
        WInstr::SetLocal(k) => WInstr::SetLocal(*k),
        WInstr::BrIf(l) => WInstr::BrIf(*l),
        WInstr::Return => WInstr::Return,
        WInstr::Loop(is) => WInstr::Loop(copy_instrs(is)),
        WInstr::Block(is) => WInstr::Block(copy_instrs(is)),
        WInstr::Label { continuation, stack, instrs } => {
            let c: Option<WInstr> = match &**continuation {
                Some(x) => Some(copy_instr(x)),
                None => None,
            };
            let st = copy_values(stack);
            let is = copy_instrs(instrs);
            WInstr::Label { continuation: Box::new(c), stack: st, instrs: is }
        },
        WInstr::Call(f) => WInstr::Call(*f),
        WInstr::Frame(c) => WInstr::Frame(copy_config(c)),
        WInstr::Load => WInstr::Load,
        WInstr::Store => WInstr::Store,
        WInstr::Size => WInstr::Size,
        WInstr::Grow => WInstr::Grow,
        WInstr::Returning(n) => WInstr::Returning(*n),
        WInstr::Br(l) => WInstr::Br(*l),
        WInstr::Trapping(s) => WInstr::Trapping(s.clone()),
    }
}

/// A deep copy of `c`.
pub fn copy_config(c: &WConfig) -> (r: WConfig)
    ensures
        r.model() == c.model(),
    decreases *c,
{
    let locals = copy_values(&c.locals);
    let stack = copy_values(&c.stack);
    let instrs = copy_instrs(&c.instrs);
    WConfig { locals, stack, instrs }
}

/// A copy of a vector of values.
pub fn copy_values(v: &Vec<i32>) -> (r: Vec<i32>)
    ensures
        r@ == v@,
{
    let r = v.clone();
    assert(r@ =~= v@);
    r
}

/// A deep copy of each instruction of `v`.
pub fn copy_instrs(v: &Vec<WInstr>) -> (r: Vec<WInstr>)
    ensures
        instrs_model(r@) == instrs_model(v@),
    decreases *v,
{
    let mut r: Vec<WInstr> = Vec::new();
    let mut k: usize = 0;
    while k < v.len()
        invariant
            k <= v.len(),
            r.len() == k,
            forall|j: int| 0 <= j < k ==> (#[trigger] r@[j]).model() == v@[j].model(),
        decreases v.len() - k,
    {
        proof {
            assert(decreases_to!(*v => v@[k as int]));
        }
        let x = copy_instr(&v[k]);
        r.push(x);
        k = k + 1;
    }
    assert(instrs_model(r@) =~= instrs_model(v@));
    r
}

} // verus!

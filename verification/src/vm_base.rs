use vstd::prelude::*;

verus! {

/// The closed instruction set of the stack machine.  Float and string
/// constants carry their literal text; the instructions exist syntactically
/// although the machine defines no execution for them yet.
#[derive(Debug, Clone, PartialEq)]
pub enum VMInst {
    PushI(i64),
    PushF(String),
    PushS(String),
    Pop,
    Call(String),
    Add,
    Sub,
    Mul,
    Div,
    Rem,
    StoreV(usize),
    LoadV(usize),
    Entry(usize),
    Ret,
}

/// Mathematical model of an instruction: carried text becomes a character
/// sequence and slot indices become unbounded integers.
pub enum VMInstView {
    PushI(i64),
    PushF(Seq<char>),
    PushS(Seq<char>),
    Pop,
    Call(Seq<char>),
    Add,
    Sub,
    Mul,
    Div,
    Rem,
    StoreV(int),
    LoadV(int),
    Entry(int),
    Ret,
}

impl View for VMInst {
    type V = VMInstView;

    open spec fn view(&self) -> VMInstView {
        match self {
            VMInst::PushI(n) => VMInstView::PushI(*n),
            VMInst::PushF(t) => VMInstView::PushF(t@),
            VMInst::PushS(t) => VMInstView::PushS(t@),
            VMInst::Pop => VMInstView::Pop,
            VMInst::Call(t) => VMInstView::Call(t@),
            VMInst::Add => VMInstView::Add,
            VMInst::Sub => VMInstView::Sub,
            VMInst::Mul => VMInstView::Mul,
            VMInst::Div => VMInstView::Div,
            VMInst::Rem => VMInstView::Rem,
            VMInst::StoreV(id) => VMInstView::StoreV(*id as int),
            VMInst::LoadV(id) => VMInstView::LoadV(*id as int),
            VMInst::Entry(n) => VMInstView::Entry(*n as int),
            VMInst::Ret => VMInstView::Ret,
        }
    }
}

/// The models of a sequence of instructions.
pub open spec fn insts_view(v: Seq<VMInst>) -> Seq<VMInstView> {
    v.map_values(|i: VMInst| i@)
}

} // verus!

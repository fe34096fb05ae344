use vstd::prelude::*;

use crate::node::{node_size, BinOp, Node, NodeKind};
use crate::parser::{at_end, pmeasure, stmt_step, ParseError, Parser, ParserView};
use crate::token::{span, Span};
use crate::typing::Type;
use crate::vm_base::{insts_view, VMInst, VMInstView};

verus! {

/// Allocator of sequential identifiers, handed out from zero upward.  The
/// code generator owns one and draws a fresh slot index from it on the first
/// write to each variable name.
pub struct IdManager {
    counter: usize,
}

impl View for IdManager {
    type V = int;

    closed spec fn view(&self) -> int {
        self.counter as int
    }
}

impl IdManager {
    pub fn new() -> (m: IdManager)
        ensures
            m@ == 0,
    {
        IdManager { counter: 0 }
    }

    pub fn get_id(&mut self) -> (id: usize)
        requires
            old(self)@ < usize::MAX,
        ensures
            id as int == old(self)@,
            final(self)@ == old(self)@ + 1,
    {
        let id = self.counter;
        self.counter = self.counter + 1;
        id
    }
}

/// A failure of code generation, with the source range that triggered it.
#[derive(Debug, PartialEq)]
pub enum CodegenError {
    /// A variable was read before any assignment wrote it.
    UndeclaredVariable(String, Span),
    /// The left side of an assignment is not a bare variable reference.
    UnsupportedLValue(Span),
    /// A binary operator outside the arithmetic set, which has no lowering
    /// yet.
    UnsupportedOperator(Span),
}

/// Mathematical model of a code generation failure.
pub enum CodegenErrorView {
    Undeclared(Seq<char>, Span),
    BadLValue(Span),
    BadOperator(Span),
}

impl View for CodegenError {
    type V = CodegenErrorView;

    open spec fn view(&self) -> CodegenErrorView {
        match self {
            CodegenError::UndeclaredVariable(name, sp) => CodegenErrorView::Undeclared(name@, *sp),
            CodegenError::UnsupportedLValue(sp) => CodegenErrorView::BadLValue(*sp),
            CodegenError::UnsupportedOperator(sp) => CodegenErrorView::BadOperator(*sp),
        }
    }
}

/// A failure of the whole compilation pipeline.
#[derive(Debug, PartialEq)]
pub enum CompileError {
    Parse(ParseError),
    Codegen(CodegenError),
}

// ---------------------------------------------------------------------------
// The slot table: variable names in first-write order, where a name's slot
// index is its position.
// ---------------------------------------------------------------------------

/// First position of `name` in `env` at or after `i`.
pub open spec fn slot_lookup_from(env: Seq<Seq<char>>, name: Seq<char>, i: int) -> Option<int>
    decreases env.len() - i,
{
    if i < 0 || i >= env.len() {
        None
    } else if env[i] == name {
        Some(i)
    } else {
        slot_lookup_from(env, name, i + 1)
    }
}

/// The slot index bound to `name`: its first position in the table.
pub open spec fn slot_lookup(env: Seq<Seq<char>>, name: Seq<char>) -> Option<int> {
    slot_lookup_from(env, name, 0)
}

/// Mapping from variable names to slot indices, built incrementally during
/// one code-generation pass: a name's index is its position in first-write
/// order.
pub struct SlotTable {
    names: Vec<String>,
}

impl View for SlotTable {
    type V = Seq<Seq<char>>;

    closed spec fn view(&self) -> Seq<Seq<char>> {
        self.names@.map_values(|s: String| s@)
    }
}

impl SlotTable {
    pub fn new() -> (t: SlotTable)
        ensures
            t@ =~= Seq::<Seq<char>>::empty(),
    {
        let t = SlotTable { names: Vec::new() };
        proof {
            assert(t@.len() == 0);
        }
        t
    }

    pub fn len(&self) -> (n: usize)
        ensures
            n as int == self@.len(),
    {
        self.names.len()
    }

    /// The slot index of `name`, if the table holds it.
    pub fn lookup(&self, name: &String) -> (r: Option<usize>)
        ensures
            match slot_lookup(self@, name@) {
                Some(i) => r matches Some(u) && u as int == i,
                None => r is None,
            },
    {
        let count = self.names.len();
        let mut i: usize = 0;
        while i < count
            invariant
                i <= count,
                count == self@.len(),
                slot_lookup(self@, name@) == slot_lookup_from(self@, name@, i as int),
            decreases count - i,
        {
            let candidate: &String = &self.names[i];
            if candidate.eq(name) {
                return Some(i);
            }
            i = i + 1;
        }
        None
    }

    /// Appends a name, binding it to the next index.
    pub fn push_name(&mut self, name: String)
        ensures
            final(self)@ =~= old(self)@.push(name@),
    {
        self.names.push(name);
    }
}

/// The table binds a name to exactly one slot: inserting a name that is
/// already bound changes nothing, so re-assignment reuses the slot that the
/// first write allocated.
pub proof fn lemma_slot_reuse(env: Seq<Seq<char>>, name: Seq<char>)
    requires
        slot_lookup(env, name) is Some,
    ensures
        slot_bind(env, name) == (slot_lookup(env, name)->0, env),
        slot_bind(slot_bind(env, name).1, name) == slot_bind(env, name),
{
}

/// Looking up or allocating a slot: an unbound name is appended and receives
/// the next sequential index; a bound name's table is left unchanged.
pub open spec fn slot_bind(env: Seq<Seq<char>>, name: Seq<char>) -> (int, Seq<Seq<char>>) {
    match slot_lookup(env, name) {
        Some(i) => (i, env),
        None => (env.len() as int, env.push(name)),
    }
}

/// A freshly allocated slot is found by later lookups: after binding, the
/// name is always bound, to the same index, and binding again changes
/// nothing further.
pub proof fn lemma_slot_bind_found(env: Seq<Seq<char>>, name: Seq<char>)
    ensures
        slot_lookup(slot_bind(env, name).1, name) == Some(slot_bind(env, name).0),
        slot_bind(slot_bind(env, name).1, name) == (
            slot_bind(env, name).0,
            slot_bind(env, name).1,
        ),
{
    match slot_lookup(env, name) {
        Some(_) => {},
        None => {
            lemma_lookup_push(env, name, 0);
        },
    }
}

proof fn lemma_lookup_push(env: Seq<Seq<char>>, name: Seq<char>, i: int)
    requires
        0 <= i <= env.len(),
        slot_lookup_from(env, name, i) is None,
    ensures
        slot_lookup_from(env.push(name), name, i) == Some(env.len() as int),
    decreases env.len() - i,
{
    if i < env.len() {
        assert(env.push(name)[i] == env[i]);
        lemma_lookup_push(env, name, i + 1);
    } else {
        assert(env.push(name)[i] == name);
    }
}

// ---------------------------------------------------------------------------
// Lowering: what one node compiles to.
// ---------------------------------------------------------------------------

/// The machine instruction an operator lowers to, for the arithmetic set
/// that has a lowering.
pub open spec fn arith_inst(op: BinOp) -> Option<VMInstView> {
    match op {
        BinOp::Add => Some(VMInstView::Add),
        BinOp::Sub => Some(VMInstView::Sub),
        BinOp::Mul => Some(VMInstView::Mul),
        BinOp::Div => Some(VMInstView::Div),
        BinOp::Rem => Some(VMInstView::Rem),
        _ => None,
    }
}

/// Result of lowering one node under a slot table: the instructions emitted
/// before generation finished or aborted, the table afterwards, and the
/// failure if it aborted.
pub struct GenOut {
    pub insts: Seq<VMInstView>,
    pub env: Seq<Seq<char>>,
    pub err: Option<CodegenErrorView>,
}

/// Lowering rules.  Literals push their constant; a variable reference loads
/// its slot and a read of a never-written name aborts; assignment generates
/// its right side and stores to the left side's slot, allocating it on a
/// first write; any other binary operation generates both sides and emits
/// the matching arithmetic instruction, aborting on operators outside that
/// set; conditional and call nodes have no lowering and are skipped.
pub open spec fn spec_gen(node: Node, env: Seq<Seq<char>>) -> GenOut
    decreases node_size(node),
{
    match node.kind {
        NodeKind::Int(n) => GenOut { insts: seq![VMInstView::PushI(n)], env, err: None },
        NodeKind::Float(t) => GenOut { insts: seq![VMInstView::PushF(t@)], env, err: None },
        NodeKind::Str(t) => GenOut { insts: seq![VMInstView::PushS(t@)], env, err: None },
        NodeKind::Variable(name, _) => match slot_lookup(env, name@) {
            Some(i) => GenOut { insts: seq![VMInstView::LoadV(i)], env, err: None },
            None => GenOut {
                insts: Seq::empty(),
                env,
                err: Some(CodegenErrorView::Undeclared(name@, node.range)),
            },
        },
        NodeKind::BinaryOp(l, r, op) => if op == BinOp::Assign {
            spec_gen_store(*l, *r, env)
        } else {
            spec_gen_binop(*l, *r, op, env)
        },
        _ => GenOut { insts: Seq::empty(), env, err: None },
    }
}

/// Lowering of a non-assignment binary operation: left side, right side,
/// then the operator's instruction.
pub open spec fn spec_gen_binop(l: Node, r: Node, op: BinOp, env: Seq<Seq<char>>) -> GenOut
    decreases node_size(l) + node_size(r),
{
    let left = spec_gen(l, env);
    if left.err is Some {
        left
    } else {
        let right = spec_gen(r, left.env);
        if right.err is Some {
            GenOut { insts: left.insts + right.insts, env: right.env, err: right.err }
        } else {
            match arith_inst(op) {
                Some(inst) => GenOut {
                    insts: left.insts + right.insts + seq![inst],
                    env: right.env,
                    err: None,
                },
                None => GenOut {
                    insts: left.insts + right.insts,
                    env: right.env,
                    err: Some(
                        CodegenErrorView::BadOperator(span(l.range.start as int, r.range.end as int)),
                    ),
                },
            }
        }
    }
}

/// Lowering of an assignment: the left side must be a bare variable, whose
/// slot is looked up or allocated on this first write; the right side is
/// generated and a store to the slot is emitted.  The store reads the top of
/// the stack without popping it, so the assigned value remains the
/// expression's result.
pub open spec fn spec_gen_store(l: Node, r: Node, env: Seq<Seq<char>>) -> GenOut
    decreases node_size(l) + node_size(r),
{
    match l.kind {
        NodeKind::Variable(name, _) => {
            let (id, env1) = slot_bind(env, name@);
            let right = spec_gen(r, env1);
            if right.err is Some {
                right
            } else {
                GenOut {
                    insts: right.insts + seq![VMInstView::StoreV(id)],
                    env: right.env,
                    err: None,
                }
            }
        },
        _ => GenOut {
            insts: Seq::empty(),
            env,
            err: Some(CodegenErrorView::BadLValue(l.range)),
        },
    }
}

/// Lowering of a sequence of statement nodes in order, threading the slot
/// table through; generation stops at the first failing node.
pub open spec fn spec_gen_seq(ns: Seq<Node>, env: Seq<Seq<char>>) -> GenOut
    decreases ns.len(),
{
    if ns.len() == 0 {
        GenOut { insts: Seq::empty(), env, err: None }
    } else {
        let pre = spec_gen_seq(ns.drop_last(), env);
        if pre.err is Some {
            pre
        } else {
            let out = spec_gen(ns.last(), pre.env);
            GenOut { insts: pre.insts + out.insts, env: out.env, err: out.err }
        }
    }
}

/// The parser yields exactly the nodes of `ns`, in order, from state `v0`
/// to state `v1`: each node satisfies everything one `get_node` call
/// guarantees at its state.
pub open spec fn stmts_parse(v0: ParserView, ns: Seq<Node>, v1: ParserView) -> bool
    decreases ns.len(),
{
    if ns.len() == 0 {
        v1 == v0
    } else {
        exists|vmid: ParserView|
            #![trigger stmt_step(vmid, ns.last(), v1)]
            stmts_parse(v0, ns.drop_last(), vmid) && stmt_step(vmid, ns.last(), v1)
    }
}

// ---------------------------------------------------------------------------
// The executable code generator.
// ---------------------------------------------------------------------------

/// Single-pass code generator: drives the parser node by node, lowers each
/// node into the growing instruction buffer, and owns the slot allocator.
pub struct Codegen {
    pub parser: Parser,
    pub id_manager: IdManager,
    pub vm_insts: Vec<VMInst>,
}

impl Codegen {
    pub open spec fn wf(&self) -> bool {
        self.parser.wf()
    }

    pub fn new(parser: Parser) -> (c: Codegen)
        requires
            parser.wf(),
        ensures
            c.wf(),
            c.parser == parser,
            c.id_manager@ == 0,
            c.vm_insts@.len() == 0,
    {
        Codegen { parser, id_manager: IdManager::new(), vm_insts: Vec::new() }
    }

    /// Lowers one node, appending its instructions to the buffer.
    pub fn gen_inst(&mut self, node: &Node, env: &mut SlotTable) -> (r: Result<(), CodegenError>)
        requires
            old(self).wf(),
            old(self).id_manager@ == old(env)@.len(),
        ensures
            final(self).wf(),
            final(self).parser == old(self).parser,
            final(self).id_manager@ == final(env)@.len(),
            ({
                let out = spec_gen(*node, old(env)@);
                &&& final(env)@ == out.env
                &&& insts_view(final(self).vm_insts@) == insts_view(old(self).vm_insts@)
                    + out.insts
                &&& match out.err {
                    None => r is Ok,
                    Some(ev) => r matches Err(e) && e@ == ev,
                }
            }),
        decreases node_size(*node),
    {
        let ghost pre = insts_view(self.vm_insts@);
        match &node.kind {
            NodeKind::Int(n) => {
                self.vm_insts.push(VMInst::PushI(*n));
                proof {
                    assert(insts_view(self.vm_insts@) =~= pre + seq![VMInstView::PushI(*n)]);
                }
                Ok(())
            },
            NodeKind::Float(t) => {
                self.vm_insts.push(VMInst::PushF(t.clone()));
                proof {
                    assert(insts_view(self.vm_insts@) =~= pre + seq![VMInstView::PushF(t@)]);
                }
                Ok(())
            },
            NodeKind::Str(t) => {
                self.vm_insts.push(VMInst::PushS(t.clone()));
                proof {
                    assert(insts_view(self.vm_insts@) =~= pre + seq![VMInstView::PushS(t@)]);
                }
                Ok(())
            },
            NodeKind::Variable(name, ty) => self.gen_variable(name, ty, node.range, env),
            NodeKind::BinaryOp(l, r, op) => {
                if *op == BinOp::Assign {
                    self.gen_store(&**l, &**r, env)
                } else {
                    self.gen_binop(&**l, &**r, op, env)
                }
            },
            NodeKind::If(_, _, _) => {
                // conditionals have no lowering yet
                proof {
                    assert(insts_view(self.vm_insts@) =~= pre + Seq::<VMInstView>::empty());
                }
                Ok(())
            },
            NodeKind::Apply(_, _) => {
                // calls have no lowering yet
                proof {
                    assert(insts_view(self.vm_insts@) =~= pre + Seq::<VMInstView>::empty());
                }
                Ok(())
            },
        }
    }

    /// Lowers a non-assignment binary operation: both sides, then the
    /// matching arithmetic instruction.  Operators without a lowering abort
    /// generation after the sides were emitted, as an explicit failure.
    pub fn gen_binop(
        &mut self,
        lhs: &Node,
        rhs: &Node,
        op: &BinOp,
        env: &mut SlotTable,
    ) -> (r: Result<(), CodegenError>)
        requires
            old(self).wf(),
            old(self).id_manager@ == old(env)@.len(),
        ensures
            final(self).wf(),
            final(self).parser == old(self).parser,
            final(self).id_manager@ == final(env)@.len(),
            ({
                let out = spec_gen_binop(*lhs, *rhs, *op, old(env)@);
                &&& final(env)@ == out.env
                &&& insts_view(final(self).vm_insts@) == insts_view(old(self).vm_insts@)
                    + out.insts
                &&& match out.err {
                    None => r is Ok,
                    Some(ev) => r matches Err(e) && e@ == ev,
                }
            }),
        decreases node_size(*lhs) + node_size(*rhs),
    {
        let ghost pre = insts_view(self.vm_insts@);
        match self.gen_inst(lhs, env) {
            Err(e) => Err(e),
            Ok(()) => {
                match self.gen_inst(rhs, env) {
                    Err(e) => Err(e),
                    Ok(()) => {
                        let inst = match op {
                            BinOp::Add => Some(VMInst::Add),
                            BinOp::Sub => Some(VMInst::Sub),
                            BinOp::Mul => Some(VMInst::Mul),
                            BinOp::Div => Some(VMInst::Div),
                            BinOp::Rem => Some(VMInst::Rem),
                            _ => None,
                        };
                        match inst {
                            Some(i) => {
                                let ghost mid = insts_view(self.vm_insts@);
                                let ghost iv = i@;
                                self.vm_insts.push(i);
                                proof {
                                    assert(insts_view(self.vm_insts@) =~= mid + seq![iv]);
                                }
                                Ok(())
                            },
                            None => Err(
                                CodegenError::UnsupportedOperator(
                                    Span::new(lhs.range.start, rhs.range.end),
                                ),
                            ),
                        }
                    },
                }
            },
        }
    }

    /// Emits the load for a variable reference; reading a name that was
    /// never written fails with the name and its source range.
    pub fn gen_variable(
        &mut self,
        name: &String,
        _ty: &Option<Type>,
        range: Span,
        env: &mut SlotTable,
    ) -> (r: Result<(), CodegenError>)
        requires
            old(self).wf(),
            old(self).id_manager@ == old(env)@.len(),
        ensures
            final(self).wf(),
            final(self).parser == old(self).parser,
            final(self).id_manager@ == final(env)@.len(),
            final(env)@ == old(env)@,
            ({
                let out = spec_gen(
                    Node {
                        kind: NodeKind::Variable(*name, *_ty),
                        range,
                    },
                    old(env)@,
                );
                &&& insts_view(final(self).vm_insts@) == insts_view(old(self).vm_insts@)
                    + out.insts
                &&& match out.err {
                    None => r is Ok,
                    Some(ev) => r matches Err(e) && e@ == ev,
                }
            }),
    {
        let ghost pre = insts_view(self.vm_insts@);
        match env.lookup(name) {
            Some(id) => {
                self.vm_insts.push(VMInst::LoadV(id));
                proof {
                    assert(insts_view(self.vm_insts@) =~= pre + seq![
                        VMInstView::LoadV(id as int),
                    ]);
                }
                Ok(())
            },
            None => {
                proof {
                    assert(insts_view(self.vm_insts@) =~= pre + Seq::<VMInstView>::empty());
                }
                Err(CodegenError::UndeclaredVariable(name.clone(), range))
            },
        }
    }

    /// Lowers an assignment: looks up or allocates the left side's slot,
    /// generates the right side, and emits the store.
    pub fn gen_store(
        &mut self,
        lhs: &Node,
        rhs: &Node,
        env: &mut SlotTable,
    ) -> (r: Result<(), CodegenError>)
        requires
            old(self).wf(),
            old(self).id_manager@ == old(env)@.len(),
        ensures
            final(self).wf(),
            final(self).parser == old(self).parser,
            final(self).id_manager@ == final(env)@.len(),
            ({
                let out = spec_gen_store(*lhs, *rhs, old(env)@);
                &&& final(env)@ == out.env
                &&& insts_view(final(self).vm_insts@) == insts_view(old(self).vm_insts@)
                    + out.insts
                &&& match out.err {
                    None => r is Ok,
                    Some(ev) => r matches Err(e) && e@ == ev,
                }
            }),
        decreases node_size(*lhs) + node_size(*rhs),
    {
        let ghost pre = insts_view(self.vm_insts@);
        match &lhs.kind {
            NodeKind::Variable(name, _) => {
                let var_id = match env.lookup(name) {
                    Some(id) => id,
                    None => {
                        env.push_name(name.clone());
                        let grown = env.len();
                        proof {
                            assert(grown as int <= usize::MAX as int);
                            lemma_slot_bind_found(old(env)@, name@);
                        }
                        let id = self.id_manager.get_id();
                        id
                    },
                };
                match self.gen_inst(rhs, env) {
                    Err(e) => Err(e),
                    Ok(()) => {
                        let ghost mid = insts_view(self.vm_insts@);
                        self.vm_insts.push(VMInst::StoreV(var_id));
                        proof {
                            assert(insts_view(self.vm_insts@) =~= mid + seq![
                                VMInstView::StoreV(var_id as int),
                            ]);
                        }
                        Ok(())
                    },
                }
            },
            _ => {
                proof {
                    assert(insts_view(self.vm_insts@) =~= pre + Seq::<VMInstView>::empty());
                }
                Err(CodegenError::UnsupportedLValue(lhs.range))
            },
        }
    }

    /// Drives generation: requests nodes until the input is exhausted,
    /// lowering each, then prepends a frame-entry instruction carrying the
    /// final count of distinct slots and appends a return instruction.  On
    /// success the buffer holds the frame entry, the lowering of precisely
    /// the statement nodes the parser yielded, in order, and the return,
    /// with the parser at the end of its input; a genuine parse failure or
    /// a lowering failure aborts with that error after a successfully
    /// lowered prefix.
    pub fn gen(&mut self) -> (r: Result<(), CompileError>)
        requires
            old(self).wf(),
            old(self).id_manager@ == 0,
        ensures
            final(self).wf(),
            r is Ok ==> ({
                let iv = insts_view(final(self).vm_insts@);
                &&& iv.len() >= 2
                &&& iv[0] == VMInstView::Entry(final(self).id_manager@)
                &&& iv.last() == VMInstView::Ret
            }),
            r is Ok ==> at_end(final(self).parser@),
            r is Ok ==> (exists|ns: Seq<Node>, vmid: ParserView|
                #![trigger stmts_parse(old(self).parser@, ns, vmid)]
                {
                    let out = spec_gen_seq(ns, Seq::<Seq<char>>::empty());
                    &&& stmts_parse(old(self).parser@, ns, vmid)
                    &&& at_end(vmid)
                    &&& out.err is None
                    &&& out.env.len() == final(self).id_manager@
                    &&& insts_view(final(self).vm_insts@) == seq![
                        VMInstView::Entry(final(self).id_manager@),
                    ] + insts_view(old(self).vm_insts@) + out.insts + seq![VMInstView::Ret]
                }),
            r matches Err(e) ==> (exists|ns: Seq<Node>, vmid: ParserView|
                #![trigger stmts_parse(old(self).parser@, ns, vmid)]
                {
                    let out = spec_gen_seq(ns, Seq::<Seq<char>>::empty());
                    &&& stmts_parse(old(self).parser@, ns, vmid)
                    &&& out.err is None
                    &&& !at_end(vmid)
                    &&& match e {
                        CompileError::Parse(pe) => !(pe is EndOfInput),
                        CompileError::Codegen(ce) => exists|n: Node|
                            #![trigger stmt_step(vmid, n, final(self).parser@)]
                            stmt_step(vmid, n, final(self).parser@) && (spec_gen(
                                n,
                                spec_gen_seq(ns, Seq::<Seq<char>>::empty()).env,
                            ).err matches Some(ev) && ce@ == ev),
                    }
                }),
    {
        let mut env = SlotTable::new();
        proof {
            let out0 = spec_gen_seq(Seq::<Node>::empty(), Seq::<Seq<char>>::empty());
            assert(out0.insts =~= Seq::<VMInstView>::empty());
            assert(out0.env =~= env@);
            assert(insts_view(self.vm_insts@) =~= insts_view(old(self).vm_insts@) + out0.insts);
            assert(stmts_parse(old(self).parser@, Seq::<Node>::empty(), self.parser@));
        }
        loop
            invariant_except_break
                exists|ns: Seq<Node>|
                    #![trigger spec_gen_seq(ns, Seq::<Seq<char>>::empty())]
                    {
                        let out = spec_gen_seq(ns, Seq::<Seq<char>>::empty());
                        &&& out.err is None
                        &&& out.env == env@
                        &&& insts_view(self.vm_insts@) == insts_view(old(self).vm_insts@)
                            + out.insts
                        &&& stmts_parse(old(self).parser@, ns, self.parser@)
                    },
            invariant
                self.wf(),
                self.id_manager@ == env@.len(),
            ensures
                self.wf(),
                self.id_manager@ == env@.len(),
                at_end(self.parser@),
                exists|ns: Seq<Node>, vmid: ParserView|
                    #![trigger stmts_parse(old(self).parser@, ns, vmid)]
                    {
                        let out = spec_gen_seq(ns, Seq::<Seq<char>>::empty());
                        &&& stmts_parse(old(self).parser@, ns, vmid)
                        &&& at_end(vmid)
                        &&& out.err is None
                        &&& out.env == env@
                        &&& insts_view(self.vm_insts@) == insts_view(old(self).vm_insts@)
                            + out.insts
                    },
            decreases pmeasure(self.parser@),
        {
            let ghost vpre = self.parser@;
            let ghost env_pre = env@;
            let ghost insts_pre = insts_view(self.vm_insts@);
            match self.parser.get_node() {
                Ok(node) => {
                    match self.gen_inst(&node, &mut env) {
                        Ok(()) => {
                            proof {
                                let ns = choose|ns: Seq<Node>|
                                    #![trigger spec_gen_seq(ns, Seq::<Seq<char>>::empty())]
                                    {
                                        let out = spec_gen_seq(ns, Seq::<Seq<char>>::empty());
                                        &&& out.err is None
                                        &&& out.env == env_pre
                                        &&& insts_pre == insts_view(old(self).vm_insts@)
                                            + out.insts
                                        &&& stmts_parse(old(self).parser@, ns, vpre)
                                    };
                                let out = spec_gen_seq(ns, Seq::<Seq<char>>::empty());
                                let grown = ns.push(node);
                                assert(grown.drop_last() =~= ns);
                                assert(grown.last() == node);
                                assert(stmt_step(vpre, node, self.parser@));
                                assert(stmts_parse(old(self).parser@, grown, self.parser@));
                                let step = spec_gen(node, out.env);
                                let out2 = spec_gen_seq(grown, Seq::<Seq<char>>::empty());
                                assert(out2.insts == out.insts + step.insts);
                                assert(insts_view(self.vm_insts@) =~= insts_view(
                                    old(self).vm_insts@,
                                ) + out2.insts);
                            }
                        },
                        Err(e) => {
                            proof {
                                let ns = choose|ns: Seq<Node>|
                                    #![trigger spec_gen_seq(ns, Seq::<Seq<char>>::empty())]
                                    {
                                        let out = spec_gen_seq(ns, Seq::<Seq<char>>::empty());
                                        &&& out.err is None
                                        &&& out.env == env_pre
                                        &&& insts_pre == insts_view(old(self).vm_insts@)
                                            + out.insts
                                        &&& stmts_parse(old(self).parser@, ns, vpre)
                                    };
                                assert(stmt_step(vpre, node, self.parser@));
                                assert(!at_end(vpre));
                            }
                            return Err(CompileError::Codegen(e));
                        },
                    }
                },
                Err(e) => {
                    match e {
                        ParseError::EndOfInput => {
                            proof {
                                let ns = choose|ns: Seq<Node>|
                                    #![trigger spec_gen_seq(ns, Seq::<Seq<char>>::empty())]
                                    {
                                        let out = spec_gen_seq(ns, Seq::<Seq<char>>::empty());
                                        &&& out.err is None
                                        &&& out.env == env_pre
                                        &&& insts_pre == insts_view(old(self).vm_insts@)
                                            + out.insts
                                        &&& stmts_parse(old(self).parser@, ns, vpre)
                                    };
                                assert(at_end(vpre));
                                assert(stmts_parse(old(self).parser@, ns, vpre));
                            }
                            break ;
                        },
                        _ => {
                            proof {
                                let ns = choose|ns: Seq<Node>|
                                    #![trigger spec_gen_seq(ns, Seq::<Seq<char>>::empty())]
                                    {
                                        let out = spec_gen_seq(ns, Seq::<Seq<char>>::empty());
                                        &&& out.err is None
                                        &&& out.env == env_pre
                                        &&& insts_pre == insts_view(old(self).vm_insts@)
                                            + out.insts
                                        &&& stmts_parse(old(self).parser@, ns, vpre)
                                    };
                                assert(!at_end(vpre));
                            }
                            return Err(CompileError::Parse(e));
                        },
                    }
                },
            }
        }
        let slot_count = env.len();
        let ghost insts_done = insts_view(self.vm_insts@);
        self.vm_insts.insert(0, VMInst::Entry(slot_count));
        let ghost mid_view = insts_view(self.vm_insts@);
        proof {
            assert(mid_view =~= seq![VMInstView::Entry(slot_count as int)] + insts_done);
        }
        self.vm_insts.push(VMInst::Ret);
        proof {
            let iv = insts_view(self.vm_insts@);
            assert(iv =~= mid_view + seq![VMInstView::Ret]);
            assert(iv[0] == VMInstView::Entry(slot_count as int));
            assert(iv.last() == VMInstView::Ret);
            let (ns, vmid) = choose|ns: Seq<Node>, vmid: ParserView|
                #![trigger stmts_parse(old(self).parser@, ns, vmid)]
                {
                    let out = spec_gen_seq(ns, Seq::<Seq<char>>::empty());
                    &&& stmts_parse(old(self).parser@, ns, vmid)
                    &&& at_end(vmid)
                    &&& out.err is None
                    &&& out.env == env@
                    &&& insts_done == insts_view(old(self).vm_insts@) + out.insts
                };
            let out = spec_gen_seq(ns, Seq::<Seq<char>>::empty());
            assert(iv =~= seq![VMInstView::Entry(slot_count as int)] + insts_view(
                old(self).vm_insts@,
            ) + out.insts + seq![VMInstView::Ret]);
        }
        Ok(())
    }
}

} // verus!

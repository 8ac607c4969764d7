use crate::flags::{PatchFlag, RuntimeHelper, StaticLevel};
use crate::util::spec_is_simple_identifier;
use vstd::prelude::*;

verus! {

/// A piece of JS embedded in the tree. Structural variants hold other
/// pieces in order; the generator concatenates them.
pub enum Js {
    /// A raw source slice, emitted verbatim.
    Src(String),
    /// A string literal, quoted and escaped at emission time.
    StrLit(String),
    /// A single already-flat expression with its static level.
    Simple(String, StaticLevel),
    /// A runtime-helper symbol, resolved to `_<name>` at emission time.
    Symbol(RuntimeHelper),
    /// An object of key/value pairs.
    Props(Vec<(Js, Js)>),
    /// An ordered concatenation with no separator.
    Compound(Vec<Js>),
    /// An array literal.
    Array(Vec<Js>),
    /// A call of a runtime helper.
    Call(RuntimeHelper, Vec<Js>),
    /// A declared function parameter inside a parameter position.
    Param(String),
}

impl Js {
    /// A simple expression at the lowest static level.
    pub fn simple(s: String) -> (r: Js)
        ensures
            r == Js::Simple(s, StaticLevel::NotStatic),
    {
        Js::Simple(s, StaticLevel::NotStatic)
    }
}

/// A directive applied to a vnode: its runtime expression, and the
/// optional bound value, argument and modifiers.
pub struct RuntimeDir {
    pub name: Js,
    pub expr: Option<Js>,
    pub arg: Option<Js>,
    pub mods: Option<Js>,
}

/// The creation call for one element or component vnode.
pub struct VNodeIR {
    pub tag: Js,
    pub props: Option<Js>,
    pub children: Vec<IRNode>,
    pub patch_flag: PatchFlag,
    pub dynamic_props: Vec<String>,
    pub directives: Vec<RuntimeDir>,
    pub is_block: bool,
    pub disable_tracking: bool,
    pub is_component: bool,
}

/// An ordered list of text pieces joined with ` + ` at emission time.
pub struct TextIR {
    pub texts: Vec<Js>,
}

/// One branch of a conditional: no condition means the final else branch.
pub struct IfBranch {
    pub condition: Option<Js>,
    pub child: Box<IRNode>,
}

/// A conditional node emitted as a chain of ternaries.
pub struct IfNodeIR {
    pub branches: Vec<IfBranch>,
}

/// The declared parameters of a loop: iterated value, optional key and
/// optional index.
pub struct ForParseResult {
    pub value: Js,
    pub key: Option<Js>,
    pub index: Option<Js>,
}

/// A loop node: the iterated source and the body repeated per item.
pub struct ForNodeIR {
    pub source: Js,
    pub parse_result: ForParseResult,
    pub child: Box<IRNode>,
}

/// A slot outlet: renders the slot of the given name with optional
/// props, falling back to the given children.
pub struct RenderSlotIR {
    pub slot_name: Js,
    pub slot_props: Option<Js>,
    pub fallbacks: Vec<IRNode>,
}

/// One slot definition: its name, optional declared parameter and body.
pub struct Slot {
    pub name: Js,
    pub param: Option<Js>,
    pub body: Vec<IRNode>,
}

/// Slot definitions attached to a component: the stable ones and the
/// alterable (conditionally present) ones.
pub struct VSlotIR {
    pub stable_slots: Vec<Slot>,
    pub alterable_slots: Vec<IRNode>,
}

/// One node of the optimized tree, exclusively owned by its parent.
pub enum IRNode {
    TextCall(TextIR),
    If(IfNodeIR),
    For(ForNodeIR),
    VNodeCall(VNodeIR),
    RenderSlotCall(RenderSlotIR),
    VSlotUse(VSlotIR),
    CommentCall(String),
    AlterableSlot(Slot),
}

/// The root of one compilation: the body nodes of the template.
pub struct IRRoot {
    pub body: Vec<IRNode>,
}

/// Whether one piece of a broken-down parameter pattern is of a kind the
/// parameter hooks accept: a parameter marker, a raw slice, or an
/// already-rewritten default-value expression.
pub open spec fn legal_param_piece(e: Js) -> bool {
    match e {
        Js::Param(_) => true,
        Js::Src(_) => true,
        Js::Simple(_, _) => true,
        _ => false,
    }
}

/// Whether an expression may stand in a function-parameter position: a
/// bare parameter name, or a broken-down destructuring pattern whose
/// pieces are all legal.
pub open spec fn legal_fn_param(p: Js) -> bool {
    match p {
        Js::Param(s) => spec_is_simple_identifier(s@),
        Js::Compound(es) => forall|i: int|
            0 <= i < es@.len() ==> legal_param_piece(#[trigger] es@[i]),
        _ => false,
    }
}

/// Whether every function-parameter position in the node holds a legal
/// parameter expression; the walker requires this of the whole tree.
pub open spec fn wf_ir(ir: IRNode) -> bool
    decreases ir,
{
    match ir {
        IRNode::TextCall(_) => true,
        IRNode::If(i) => wf_branches(i.branches@),
        IRNode::For(f) => {
            &&& legal_fn_param(f.parse_result.value)
            &&& (f.parse_result.key matches Some(k) ==> legal_fn_param(k))
            &&& (f.parse_result.index matches Some(x) ==> legal_fn_param(x))
            &&& wf_ir(*f.child)
        },
        IRNode::VNodeCall(v) => wf_ir_seq(v.children@),
        IRNode::RenderSlotCall(r) => wf_ir_seq(r.fallbacks@),
        IRNode::VSlotUse(s) => wf_slots(s.stable_slots@) && wf_ir_seq(s.alterable_slots@),
        IRNode::CommentCall(_) => true,
        IRNode::AlterableSlot(s) => wf_slot(s),
    }
}

/// Whether every node of the sequence is well formed.
pub open spec fn wf_ir_seq(s: Seq<IRNode>) -> bool
    decreases s,
{
    if s.len() == 0 {
        true
    } else {
        wf_ir(s[0]) && wf_ir_seq(s.subrange(1, s.len() as int))
    }
}

/// Whether every branch child of a conditional is well formed.
pub open spec fn wf_branches(s: Seq<IfBranch>) -> bool
    decreases s,
{
    if s.len() == 0 {
        true
    } else {
        wf_ir(*s[0].child) && wf_branches(s.subrange(1, s.len() as int))
    }
}

/// Whether a slot's parameter is legal and its body well formed.
pub open spec fn wf_slot(s: Slot) -> bool
    decreases s,
{
    (s.param matches Some(p) ==> legal_fn_param(p)) && wf_ir_seq(s.body@)
}

/// Whether every slot of the sequence is well formed.
pub open spec fn wf_slots(s: Seq<Slot>) -> bool
    decreases s,
{
    if s.len() == 0 {
        true
    } else {
        wf_slot(s[0]) && wf_slots(s.subrange(1, s.len() as int))
    }
}

/// The parameter names of a broken-down parameter pattern, in order:
/// the parameter markers, passing over raw slices and already-rewritten
/// default values.
pub open spec fn spec_param_ids(es: Seq<Js>) -> Seq<Seq<char>>
    decreases es.len(),
{
    if es.len() == 0 {
        Seq::empty()
    } else {
        let rest = spec_param_ids(es.drop_last());
        match es.last() {
            Js::Param(p) => rest.push(p@),
            _ => rest,
        }
    }
}

/// The identifiers a function-parameter expression declares: the bare
/// name, or every parameter marker of a broken-down pattern.
pub open spec fn spec_fn_param_ids(p: Js) -> Seq<Seq<char>> {
    match p {
        Js::Param(s) => seq![s@],
        Js::Compound(es) => spec_param_ids(es@),
        _ => Seq::empty(),
    }
}

/// A node of a well-formed sequence is well formed; spelled out because
/// the recursive definition walks the sequence front to back.
pub proof fn lemma_wf_ir_seq_index(s: Seq<IRNode>, i: int)
    requires
        wf_ir_seq(s),
        0 <= i < s.len(),
    ensures
        wf_ir(s[i]),
    decreases s.len(),
{
    if i > 0 {
        lemma_wf_ir_seq_index(s.subrange(1, s.len() as int), i - 1);
    }
}

} // verus!

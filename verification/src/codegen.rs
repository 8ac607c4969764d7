use crate::flags::{patch_flag_names, spec_flag_names, spec_helper_str, PatchFlag, RuntimeHelper};
use crate::ir::{
    ForNodeIR, ForParseResult, IRNode, IRRoot, IfBranch, IfNodeIR, Js, RenderSlotIR, RuntimeDir,
    Slot, TextIR, VNodeIR, VSlotIR,
};
use vstd::prelude::*;
use vstd::seq_lib::lemma_concat_associative;
use crate::util::str_eq;
use vstd::string::StrSliceExecFns;
use vstd::string::StringExecFns;

verus! {

/// Options of one generation run, passed through by the caller; the
/// text-emission logic here consumes none of them.
pub struct CodeGenerateOption {
    pub is_ts: bool,
    pub source_map: bool,
    pub filename: String,
}

impl Default for CodeGenerateOption {
    /// Plain JS output, no source map, empty file name.
    fn default() -> (r: CodeGenerateOption)
        ensures
            !r.is_ts,
            !r.source_map,
            r.filename@.len() == 0,
    {
        CodeGenerateOption { is_ts: false, source_map: false, filename: String::new() }
    }
}

/// A code generator takes one optimized tree and produces the output
/// format it is built for; what one call emits is fixed by the
/// implementor's post relation.
pub trait CodeGenerator: Sized {
    type IR;

    type Output;

    /// What one generation call does: how the generator's state after
    /// the call and the returned value relate to the state before and
    /// the tree.
    spec fn generate_post(pre: Self, post: Self, node: Self::IR, r: Self::Output) -> bool;

    fn generate(&mut self, node: Self::IR) -> (r: Self::Output)
        ensures
            Self::generate_post(*old(self), *final(self), node, r),
    ;
}

/// The decimal digit character for `d`.
pub open spec fn dec_digit(d: int) -> char {
    ((48 + d) as u8) as char
}

/// The decimal numeral of `n`.
pub open spec fn spec_dec(n: nat) -> Seq<char>
    decreases n,
{
    if n < 10 {
        seq![dec_digit(n as int)]
    } else {
        spec_dec(n / 10) + seq![dec_digit((n % 10) as int)]
    }
}

/// The decimal numeral of `n`.
pub fn u32_dec(n: u32) -> (r: String)
    ensures
        r@ == spec_dec(n as nat),
    decreases n,
{
    if n < 10 {
        let mut s = String::new();
        s.push(((48 + n) as u8) as char);
        proof {
            assert(s@ =~= spec_dec(n as nat));
        }
        s
    } else {
        let mut s = u32_dec(n / 10);
        s.push(((48 + (n % 10)) as u8) as char);
        proof {
            assert(s@ =~= spec_dec(n as nat));
        }
        s
    }
}

/// The escape of one character inside a JS double-quoted string; the
/// paragraph and line separators count because they are line
/// terminators, which a string literal must not contain.
pub open spec fn esc_char(c: char) -> Seq<char> {
    if c == '"' {
        seq!['\\', '"']
    } else if c == '\\' {
        seq!['\\', '\\']
    } else if c == '\n' {
        seq!['\\', 'n']
    } else if c == '\r' {
        seq!['\\', 'r']
    } else if c == '\u{2028}' {
        seq!['\\', 'u', '2', '0', '2', '8']
    } else if c == '\u{2029}' {
        seq!['\\', 'u', '2', '0', '2', '9']
    } else {
        seq![c]
    }
}

/// The escaped content of a JS double-quoted string.
pub open spec fn spec_escape(s: Seq<char>) -> Seq<char>
    decreases s.len(),
{
    if s.len() == 0 {
        Seq::empty()
    } else {
        spec_escape(s.drop_last()) + esc_char(s.last())
    }
}

/// A JS double-quoted string literal holding the characters of `s`.
pub open spec fn spec_str_lit(s: Seq<char>) -> Seq<char> {
    seq!['"'] + spec_escape(s) + seq!['"']
}

/// Quote and escape `s` as a JS string literal.
#[verifier::loop_isolation(false)]
pub fn js_string_lit(s: &str) -> (r: String)
    ensures
        r@ == spec_str_lit(s@),
{
    let mut out = String::new();
    out.push('"');
    let n = s.unicode_len();
    let mut i: usize = 0;
    while i < n
        invariant
            0 <= i <= n,
            n == s@.len(),
            out@ == seq!['"'] + spec_escape(s@.subrange(0, i as int)),
        decreases n - i,
    {
        let c = s.get_char(i);
        if c == '"' {
            out.push('\\');
            out.push('"');
        } else if c == '\\' {
            out.push('\\');
            out.push('\\');
        } else if c == '\n' {
            out.push('\\');
            out.push('n');
        } else if c == '\r' {
            out.push('\\');
            out.push('r');
        } else if c == '\u{2028}' {
            out.push('\\');
            out.push('u');
            out.push('2');
            out.push('0');
            out.push('2');
            out.push('8');
        } else if c == '\u{2029}' {
            out.push('\\');
            out.push('u');
            out.push('2');
            out.push('0');
            out.push('2');
            out.push('9');
        } else {
            out.push(c);
        }
        proof {
            assert(s@.subrange(0, i + 1).drop_last() =~= s@.subrange(0, i as int));
            assert(s@.subrange(0, i + 1).last() == s@[i as int]);
            assert(out@ =~= seq!['"'] + spec_escape(s@.subrange(0, i + 1)));
        }
        i = i + 1;
    }
    proof {
        assert(s@.subrange(0, s@.len() as int) =~= s@);
    }
    out.push('"');
    proof {
        assert(out@ =~= spec_str_lit(s@));
    }
    out
}

/// The emitted name of a runtime helper: `_` then its name.
pub open spec fn spec_helper(h: RuntimeHelper) -> Seq<char> {
    "_"@ + spec_helper_str(h)
}

/// The patch-flag argument: its integer value with a debug comment of
/// its flag names.
pub open spec fn spec_flag_comment(bits: u32) -> Seq<char> {
    spec_dec(bits as nat) + " /*"@ + spec_flag_names(bits) + "*/"@
}

/// The highest 1-based index of a true entry; 0 when none is true.
pub open spec fn spec_last_true(p: Seq<bool>) -> int
    decreases p.len(),
{
    if p.len() == 0 {
        0
    } else if p.last() {
        p.len() as int
    } else {
        spec_last_true(p.drop_last())
    }
}

/// The trailing-argument-elision plan over ordered argument slots:
/// entry `j` of the plan says whether slot `j` emits its value (true)
/// or a `null` placeholder (false), and the plan stops at the last
/// present slot. For every presence vector the emitted argument count
/// equals the highest 1-based present index, and a placeholder can
/// only stand below that index, which yields the shortest valid
/// positional call.
#[verifier::loop_isolation(false)]
pub fn elide_trailing_args(present: &Vec<bool>) -> (plan: Vec<bool>)
    ensures
        plan@.len() == spec_last_true(present@),
        forall|j: int| 0 <= j < plan@.len() ==> plan@[j] == present@[j],
{
    // first pass: the last index that must be written
    let mut last: usize = 0;
    let mut j: usize = 0;
    while j < present.len()
        invariant
            0 <= j <= present@.len(),
            last as int == spec_last_true(present@.subrange(0, j as int)),
            last <= j,
        decreases present@.len() - j,
    {
        if present[j] {
            last = j + 1;
        }
        proof {
            assert(present@.subrange(0, j + 1).drop_last() =~= present@.subrange(0, j as int));
            assert(present@.subrange(0, j + 1).last() == present@[j as int]);
        }
        j = j + 1;
    }
    proof {
        assert(present@.subrange(0, present@.len() as int) =~= present@);
    }
    // second pass: emit a value or a placeholder up to that index
    let mut plan: Vec<bool> = Vec::new();
    let mut j: usize = 0;
    while j < last
        invariant
            0 <= j <= last,
            last as int == spec_last_true(present@),
            last <= present@.len(),
            plan@.len() == j,
            forall|k: int| 0 <= k < j ==> plan@[k] == present@[k],
        decreases last - j,
    {
        plan.push(present[j]);
        j = j + 1;
    }
    plan
}

/// The highest present index is within the vector, and at least one
/// when the first slot is present.
pub proof fn lemma_last_true_bounds(p: Seq<bool>)
    ensures
        0 <= spec_last_true(p) <= p.len(),
        p.len() > 0 && p[0] ==> 1 <= spec_last_true(p),
    decreases p.len(),
{
    if p.len() > 0 {
        lemma_last_true_bounds(p.drop_last());
    }
}

/// The generated text of one embedded JS expression.
pub open spec fn spec_gen_js(e: Js) -> Seq<char>
    decreases e, 1int,
{
    match e {
        Js::Src(s) => s@,
        Js::StrLit(s) => spec_str_lit(s@),
        Js::Simple(s, _) => s@,
        Js::Symbol(h) => spec_helper(h),
        Js::Props(ps) => spec_props_text(ps@),
        Js::Compound(v) => spec_cat_list(v@),
        Js::Array(v) => "["@ + spec_gen_list(v@) + "]"@,
        Js::Call(h, args) => spec_helper(h) + "("@ + spec_gen_list(args@) + ")"@,
        Js::Param(s) => s@,
    }
}

/// The comma-joined generated text of a list of expressions.
pub open spec fn spec_gen_list(v: Seq<Js>) -> Seq<char>
    decreases v, 0int,
{
    if v.len() == 0 {
        Seq::empty()
    } else if v.len() == 1 {
        spec_gen_js(v[0])
    } else {
        spec_gen_list(v.drop_last()) + ", "@ + spec_gen_js(v.last())
    }
}

/// The concatenated generated text of a list of expressions, with no
/// separator.
pub open spec fn spec_cat_list(v: Seq<Js>) -> Seq<char>
    decreases v, 0int,
{
    if v.len() == 0 {
        Seq::empty()
    } else {
        spec_cat_list(v.drop_last()) + spec_gen_js(v.last())
    }
}

/// The generated text of a properties object.
pub open spec fn spec_props_text(ps: Seq<(Js, Js)>) -> Seq<char>
    decreases ps, 1int,
{
    if ps.len() == 0 {
        "{}"@
    } else {
        "{ "@ + spec_props_entries(ps) + " }"@
    }
}

/// The comma-joined `key: value` entries of a properties object.
pub open spec fn spec_props_entries(ps: Seq<(Js, Js)>) -> Seq<char>
    decreases ps, 0int,
{
    if ps.len() == 0 {
        Seq::empty()
    } else if ps.len() == 1 {
        spec_gen_js(ps[0].0) + ": "@ + spec_gen_js(ps[0].1)
    } else {
        spec_props_entries(ps.drop_last()) + ", "@ + spec_gen_js(ps.last().0) + ": "@ + spec_gen_js(
            ps.last().1,
        )
    }
}

/// The generated text of the texts of a text node, joined by ` + `;
/// nothing for an empty list.
pub open spec fn spec_texts(v: Seq<Js>) -> Seq<char>
    decreases v,
{
    if v.len() == 0 {
        Seq::empty()
    } else if v.len() == 1 {
        spec_gen_js(v[0])
    } else {
        spec_texts(v.drop_last()) + " + "@ + spec_gen_js(v.last())
    }
}

/// The generated text of the children of a vnode call, concatenated.
pub open spec fn spec_children(cs: Seq<IRNode>) -> Seq<char>
    decreases cs, 5int,
{
    if cs.len() == 0 {
        Seq::empty()
    } else {
        spec_children(cs.drop_last()) + spec_gen_ir(cs.last())
    }
}

/// The comma-joined generated text of a list of nodes.
pub open spec fn spec_node_list(cs: Seq<IRNode>) -> Seq<char>
    decreases cs, 5int,
{
    if cs.len() == 0 {
        Seq::empty()
    } else if cs.len() == 1 {
        spec_gen_ir(cs[0])
    } else {
        spec_node_list(cs.drop_last()) + ", "@ + spec_gen_ir(cs.last())
    }
}

/// The dynamic-prop-name array content: the names as string literals.
pub open spec fn spec_dyn_props(names: Seq<String>) -> Seq<char>
    decreases names,
{
    if names.len() == 0 {
        Seq::empty()
    } else if names.len() == 1 {
        spec_str_lit(names[0]@)
    } else {
        spec_dyn_props(names.drop_last()) + ", "@ + spec_str_lit(names.last()@)
    }
}

/// The elided argument list of one vnode creation call: tag always,
/// then props, children, patch flag and dynamic prop names, each only
/// as far as a later argument is present.
pub open spec fn spec_vnode_args(
    tag: Js,
    props: Option<Js>,
    children: Seq<IRNode>,
    patch_flag: PatchFlag,
    dynamic_props: Seq<String>,
) -> Seq<char>
    decreases children, 6int,
{
    let t0 = spec_gen_js(tag);
    let t1 = if props is Some {
        spec_gen_js(props.unwrap())
    } else {
        Seq::<char>::empty()
    };
    let t2 = spec_children(children);
    let t3 = spec_flag_comment(patch_flag.0);
    let t4 = "["@ + spec_dyn_props(dynamic_props) + "]"@;
    let p = seq![
        true,
        props is Some,
        children.len() > 0,
        patch_flag.0 != 0,
        dynamic_props.len() > 0,
    ];
    let n = spec_last_true(p);
    (if n > 0 {
        t0
    } else {
        Seq::<char>::empty()
    }) + (if n > 1 {
        ", "@ + (if p[1] {
            t1
        } else {
            "null"@
        })
    } else {
        Seq::<char>::empty()
    }) + (if n > 2 {
        ", "@ + (if p[2] {
            t2
        } else {
            "null"@
        })
    } else {
        Seq::<char>::empty()
    }) + (if n > 3 {
        ", "@ + (if p[3] {
            t3
        } else {
            "null"@
        })
    } else {
        Seq::<char>::empty()
    }) + (if n > 4 {
        ", "@ + (if p[4] {
            t4
        } else {
            "null"@
        })
    } else {
        Seq::<char>::empty()
    })
}

/// The creation call of one vnode, helper chosen from the block and
/// component flags.
pub open spec fn spec_vnode_real(v: VNodeIR) -> Seq<char>
    decreases v, 7int,
{
    let helper = if v.is_block {
        if v.is_component {
            RuntimeHelper::CreateBlock
        } else {
            RuntimeHelper::CreateElementBlock
        }
    } else {
        if v.is_component {
            RuntimeHelper::CreateVnode
        } else {
            RuntimeHelper::CreateElementVnode
        }
    };
    spec_helper(helper) + "("@ + spec_vnode_args(
        v.tag,
        v.props,
        v.children@,
        v.patch_flag,
        v.dynamic_props@,
    ) + ")"@
}

/// A block vnode opens its block before construction.
pub open spec fn spec_vnode_block(v: VNodeIR) -> Seq<char>
    decreases v, 8int,
{
    if !v.is_block {
        spec_vnode_real(v)
    } else {
        "("@ + spec_helper(RuntimeHelper::OpenBlock) + "("@ + (if v.disable_tracking {
            "true"@
        } else {
            Seq::<char>::empty()
        }) + "), "@ + spec_vnode_real(v) + ")"@
    }
}

/// The elided entry of one directive: its expression, then value,
/// argument and modifiers as far as present.
pub open spec fn spec_dir_entry(d: RuntimeDir) -> Seq<char>
    decreases d,
{
    let t0 = spec_gen_js(d.name);
    let t1 = if d.expr is Some {
        spec_gen_js(d.expr.unwrap())
    } else {
        Seq::<char>::empty()
    };
    let t2 = if d.arg is Some {
        spec_gen_js(d.arg.unwrap())
    } else {
        Seq::<char>::empty()
    };
    let t3 = if d.mods is Some {
        spec_gen_js(d.mods.unwrap())
    } else {
        Seq::<char>::empty()
    };
    let p = seq![true, d.expr is Some, d.arg is Some, d.mods is Some];
    let n = spec_last_true(p);
    "["@ + ((if n > 0 {
        t0
    } else {
        Seq::<char>::empty()
    }) + (if n > 1 {
        ", "@ + (if p[1] {
            t1
        } else {
            "null"@
        })
    } else {
        Seq::<char>::empty()
    }) + (if n > 2 {
        ", "@ + (if p[2] {
            t2
        } else {
            "null"@
        })
    } else {
        Seq::<char>::empty()
    }) + (if n > 3 {
        ", "@ + (if p[3] {
            t3
        } else {
            "null"@
        })
    } else {
        Seq::<char>::empty()
    })) + "]"@
}

/// The directive array content: one elided entry per directive.
pub open spec fn spec_dirs_text(dirs: Seq<RuntimeDir>) -> Seq<char>
    decreases dirs,
{
    if dirs.len() == 0 {
        Seq::empty()
    } else if dirs.len() == 1 {
        spec_dir_entry(dirs[0])
    } else {
        spec_dirs_text(dirs.drop_last()) + ", "@ + spec_dir_entry(dirs.last())
    }
}

/// A vnode with directives is wrapped in a `withDirectives` call
/// carrying the directive array.
pub open spec fn spec_vnode(v: VNodeIR) -> Seq<char>
    decreases v, 9int,
{
    if v.directives@.len() == 0 {
        spec_vnode_block(v)
    } else {
        spec_helper(RuntimeHelper::WithDirectives) + "("@ + spec_vnode_block(v) + ", "@ + "["@
            + spec_dirs_text(v.directives@) + "]"@ + ")"@
    }
}

/// The ternary chain of a conditional: each conditioned branch guards
/// its child, the first unconditioned branch ends the chain, and a
/// chain with no unconditioned branch falls back to `null`.
pub open spec fn spec_if_chain(branches: Seq<IfBranch>) -> Seq<char>
    decreases branches, 5int,
{
    if branches.len() == 0 {
        "null"@
    } else {
        match branches[0].condition {
            Some(c) => spec_gen_js(c) + " ? "@ + spec_gen_ir(*branches[0].child) + " : "@
                + spec_if_chain(branches.subrange(1, branches.len() as int)),
            None => spec_gen_ir(*branches[0].child),
        }
    }
}

/// The declared parameters of a loop callback: the value, then the key
/// and the index as far as present, with `_` holding an elided key's
/// position when only the index follows it.
pub open spec fn spec_for_params(pr: ForParseResult) -> Seq<char> {
    spec_gen_js(pr.value) + (if pr.key is Some {
        ", "@ + spec_gen_js(pr.key.unwrap())
    } else if pr.index is Some {
        ", _"@
    } else {
        Seq::<char>::empty()
    }) + (if pr.index is Some {
        ", "@ + spec_gen_js(pr.index.unwrap())
    } else {
        Seq::<char>::empty()
    })
}

/// The loop emission: a list-rendering helper call whose inline
/// callback takes the declared parameters and returns the body.
pub open spec fn spec_for(f: ForNodeIR) -> Seq<char>
    decreases f, 5int,
{
    spec_helper(RuntimeHelper::RenderList) + "("@ + spec_gen_js(f.source) + ", ("@
        + spec_for_params(f.parse_result) + ") => "@ + spec_gen_ir(*f.child) + ")"@
}

/// The slot-outlet emission: render the named slot of the context with
/// the optional props, falling back to the given children.
pub open spec fn spec_render_slot(r: RenderSlotIR) -> Seq<char>
    decreases r, 6int,
{
    let props_part = if r.slot_props is Some {
        ", "@ + spec_gen_js(r.slot_props.unwrap())
    } else if r.fallbacks@.len() > 0 {
        ", null"@
    } else {
        Seq::<char>::empty()
    };
    let fallback_part = if r.fallbacks@.len() > 0 {
        ", () => ["@ + spec_node_list(r.fallbacks@) + "]"@
    } else {
        Seq::<char>::empty()
    };
    spec_helper(RuntimeHelper::RenderSlot) + "(_ctx.$slots, "@ + spec_gen_js(r.slot_name)
        + props_part + fallback_part + ")"@
}

/// One entry of a slots object: the slot's name, an inline callback
/// over its declared parameter, and its body as an array.
pub open spec fn spec_slot_entry(s: Slot) -> Seq<char>
    decreases s, 6int,
{
    spec_gen_js(s.name) + ": ("@ + (if s.param is Some {
        spec_gen_js(s.param.unwrap())
    } else {
        Seq::<char>::empty()
    }) + ") => ["@ + spec_node_list(s.body@) + "]"@
}

/// The comma-joined entries of the stable slots.
pub open spec fn spec_slot_entries(slots: Seq<Slot>) -> Seq<char>
    decreases slots, 7int,
{
    if slots.len() == 0 {
        Seq::empty()
    } else if slots.len() == 1 {
        spec_slot_entry(slots[0])
    } else {
        spec_slot_entries(slots.drop_last()) + ", "@ + spec_slot_entry(slots.last())
    }
}

/// The slots object of a component: the stable entries, then the
/// generated alterable entries.
pub open spec fn spec_v_slot(s: VSlotIR) -> Seq<char>
    decreases s, 8int,
{
    let stable = spec_slot_entries(s.stable_slots@);
    let alterable = spec_node_list(s.alterable_slots@);
    if s.stable_slots@.len() == 0 && s.alterable_slots@.len() == 0 {
        "{}"@
    } else if s.stable_slots@.len() == 0 {
        "{ "@ + alterable + " }"@
    } else if s.alterable_slots@.len() == 0 {
        "{ "@ + stable + " }"@
    } else {
        "{ "@ + stable + ", "@ + alterable + " }"@
    }
}

/// The generated text of one node of the optimized tree.
pub open spec fn spec_gen_ir(ir: IRNode) -> Seq<char>
    decreases ir, 10int,
{
    match ir {
        IRNode::TextCall(t) => spec_texts(t.texts@),
        IRNode::If(i) => spec_if_chain(i.branches@),
        IRNode::For(f) => spec_for(f),
        IRNode::VNodeCall(v) => spec_vnode(v),
        IRNode::RenderSlotCall(r) => spec_render_slot(r),
        IRNode::VSlotUse(s) => spec_v_slot(s),
        IRNode::CommentCall(c) => spec_helper(RuntimeHelper::CreateComment) + "("@ + spec_str_lit(
            c@,
        ) + ")"@,
        IRNode::AlterableSlot(s) => spec_slot_entry(s),
    }
}

/// Two spaces per indentation level.
pub open spec fn spec_spaces(n: int) -> Seq<char>
    decreases n,
{
    if n <= 0 {
        Seq::empty()
    } else {
        spec_spaces(n - 1) + "  "@
    }
}

/// The fixed opening of the render function: the returned function
/// declaration, the `with (_ctx)` scope, and the `return` of the root.
pub open spec fn spec_prologue() -> Seq<char> {
    "return "@ + "function render(_ctx, _cache) {"@ + "\n"@ + spec_spaces(1) + "with (_ctx) {"@
        + "\n"@ + spec_spaces(2) + "return "@
}

/// The closing braces of `n` open blocks, each on its own line,
/// deindenting down to level zero.
pub open spec fn spec_close(n: int) -> Seq<char>
    decreases n,
{
    if n <= 0 {
        Seq::empty()
    } else {
        "\n"@ + spec_spaces(n - 1) + "}"@ + spec_close(n - 1)
    }
}

/// The root's own emission: `null` for an empty body, the sole child's
/// form, or a synthetic fragment vnode wrapping all children.
pub open spec fn spec_root_body(body: Seq<IRNode>) -> Seq<char> {
    if body.len() == 0 {
        "null"@
    } else if body.len() == 1 {
        spec_gen_ir(body[0])
    } else {
        spec_helper(RuntimeHelper::CreateElementVnode) + "("@ + spec_vnode_args(
            Js::Symbol(RuntimeHelper::Fragment),
            None,
            body,
            PatchFlag(0),
            Seq::empty(),
        ) + ")"@
    }
}

/// The whole generated artifact for one tree.
pub open spec fn spec_render(root: IRRoot) -> Seq<char> {
    spec_prologue() + spec_root_body(root.body@) + spec_close(2)
}

/// The writer: emits JS text for one optimized tree into its buffer,
/// tracking the indentation and the blocks still to close.
pub struct CodeWriter {
    pub out: String,
    pub option: CodeGenerateOption,
    pub indent_level: usize,
    pub closing_brackets: usize,
}

/// Everything of the writer but its buffer is as it was.
pub open spec fn writer_keeps(a: CodeWriter, b: CodeWriter) -> bool {
    &&& b.indent_level == a.indent_level
    &&& b.closing_brackets == a.closing_brackets
    &&& b.option == a.option
}

impl CodeGenerator for CodeWriter {
    type IR = IRRoot;

    type Output = ();

    /// At the top level the buffer grows by exactly the render text of
    /// the tree — the output is a function of the tree alone — and the
    /// indentation provably returns to zero; a writer that is not at
    /// the top level is left exactly as it was.
    open spec fn generate_post(pre: CodeWriter, post: CodeWriter, node: IRRoot, r: ()) -> bool {
        if pre.indent_level == 0 && pre.closing_brackets == 0 {
            &&& post.out@ == pre.out@ + spec_render(node)
            &&& post.indent_level == 0
            &&& post.option == pre.option
        } else {
            post == pre
        }
    }

    /// Emit the whole artifact into the buffer; a writer that is not
    /// at the top level emits nothing.
    fn generate(&mut self, node: IRRoot) {
        if self.indent_level == 0 && self.closing_brackets == 0 {
            self.generate_root(node);
        }
    }
}

impl CodeWriter {
    /// A fresh writer at the top level with an empty buffer.
    pub fn new(option: CodeGenerateOption) -> (r: CodeWriter)
        ensures
            r.out@.len() == 0,
            r.indent_level == 0,
            r.closing_brackets == 0,
    {
        CodeWriter { out: String::new(), option, indent_level: 0, closing_brackets: 0 }
    }

    /// Append a fixed piece of text.
    pub fn write_str(&mut self, s: &str)
        ensures
            final(self).out@ == old(self).out@ + s@,
            writer_keeps(*old(self), *final(self)),
    {
        self.out.append(s);
    }

    /// Append a runtime helper as `_` and its name.
    pub fn write_helper(&mut self, h: RuntimeHelper)
        ensures
            final(self).out@ == old(self).out@ + spec_helper(h),
            writer_keeps(*old(self), *final(self)),
    {
        self.write_str("_");
        self.write_str(h.helper_str());
        proof {
            assert(self.out@ =~= old(self).out@ + spec_helper(h));
        }
    }

    /// Begin a new line at the current indentation.
    #[verifier::loop_isolation(false)]
    pub fn newline(&mut self)
        ensures
            final(self).out@ == old(self).out@ + "\n"@ + spec_spaces(old(self).indent_level as int),
            writer_keeps(*old(self), *final(self)),
    {
        self.write_str("\n");
        let n = self.indent_level;
        let mut i: usize = 0;
        while i < n
            invariant
                0 <= i <= n,
                self.out@ == old(self).out@ + "\n"@ + spec_spaces(i as int),
                writer_keeps(*old(self), *self),
            decreases n - i,
        {
            self.write_str("  ");
            i = i + 1;
        }
    }

    /// One level deeper, on a new line.
    pub fn indent(&mut self)
        requires
            old(self).indent_level < 1000,
        ensures
            final(self).out@ == old(self).out@ + "\n"@ + spec_spaces(old(self).indent_level + 1),
            final(self).indent_level == old(self).indent_level + 1,
            final(self).closing_brackets == old(self).closing_brackets,
            final(self).option == old(self).option,
    {
        self.indent_level = self.indent_level + 1;
        self.newline();
    }

    /// One level shallower, on a new line when asked.
    pub fn deindent(&mut self, with_new_line: bool)
        requires
            old(self).indent_level >= 1,
        ensures
            final(self).out@ == old(self).out@ + (if with_new_line {
                "\n"@ + spec_spaces(old(self).indent_level - 1)
            } else {
                Seq::<char>::empty()
            }),
            final(self).indent_level == old(self).indent_level - 1,
            final(self).closing_brackets == old(self).closing_brackets,
            final(self).option == old(self).option,
    {
        self.indent_level = self.indent_level - 1;
        if with_new_line {
            self.newline();
        } else {
            proof {
                assert(self.out@ =~= old(self).out@ + Seq::<char>::empty());
            }
        }
    }
}


impl CodeWriter {
    /// Emit a comma-separated list of expressions.
    #[verifier::loop_isolation(false)]
    pub fn gen_list(&mut self, exprs: Vec<Js>)
        ensures
            final(self).out@ == old(self).out@ + spec_gen_list(exprs@),
            writer_keeps(*old(self), *final(self)),
        decreases exprs, 2int,
    {
        let ghost es0 = exprs@;
        let mut exprs = exprs;
        let mut i: usize = 0;
        while i < exprs.len()
            invariant
                0 <= i <= es0.len(),
                exprs@.len() == es0.len(),
                forall|j: int| i <= j < es0.len() ==> exprs@[j] == es0[j],
                self.out@ == old(self).out@ + spec_gen_list(es0.subrange(0, i as int)),
                writer_keeps(*old(self), *self),
            decreases es0.len() - i,
        {
            let e = exprs.remove(i);
            exprs.insert(i, Js::Src(String::new()));
            proof {
                assert(e == es0[i as int]);
                assert(decreases_to!(es0 => es0[i as int]));
            }
            if i > 0 {
                self.write_str(", ");
            }
            self.generate_js_expr(e);
            proof {
                assert(es0.subrange(0, i + 1).drop_last() =~= es0.subrange(0, i as int));
                assert(es0.subrange(0, i + 1).last() == es0[i as int]);
                assert(self.out@ =~= old(self).out@ + spec_gen_list(es0.subrange(0, i + 1)));
            }
            i = i + 1;
        }
        proof {
            assert(es0.subrange(0, es0.len() as int) =~= es0);
        }
    }

    /// Emit one embedded JS expression.
    #[verifier::loop_isolation(false)]
    pub fn generate_js_expr(&mut self, expr: Js)
        ensures
            final(self).out@ == old(self).out@ + spec_gen_js(expr),
            writer_keeps(*old(self), *final(self)),
        decreases expr, 3int,
    {
        let ghost e0 = expr;
        match expr {
            Js::Src(s) => {
                self.write_str(s.as_str());
            },
            Js::StrLit(l) => {
                let lit = js_string_lit(l.as_str());
                self.write_str(lit.as_str());
            },
            Js::Simple(s, _) => {
                self.write_str(s.as_str());
            },
            Js::Symbol(h) => {
                self.write_helper(h);
            },
            Js::Param(s) => {
                self.write_str(s.as_str());
            },
            Js::Props(ps) => {
                if ps.len() == 0 {
                    self.write_str("{}");
                    proof {
                        assert(self.out@ =~= old(self).out@ + spec_gen_js(e0));
                    }
                } else {
                    self.write_str("{ ");
                    let ghost ps0 = ps@;
                    let mut ps = ps;
                    let mut i: usize = 0;
                    while i < ps.len()
                        invariant
                            1 <= ps0.len(),
                            0 <= i <= ps0.len(),
                            ps@.len() == ps0.len(),
                            forall|j: int| i <= j < ps0.len() ==> ps@[j] == ps0[j],
                            self.out@ == old(self).out@ + "{ "@ + spec_props_entries(
                                ps0.subrange(0, i as int),
                            ),
                            writer_keeps(*old(self), *self),
                        decreases ps0.len() - i,
                    {
                        let (k, v) = ps.remove(i);
                        ps.insert(i, (Js::Src(String::new()), Js::Src(String::new())));
                        proof {
                            assert((k, v) == ps0[i as int]);
                            assert(e0->Props_0@ == ps0);
                            assert(decreases_to!(e0 => e0->Props_0));
                            assert(decreases_to!(e0->Props_0 => e0->Props_0@));
                            assert(decreases_to!(e0->Props_0@ => e0->Props_0@[i as int]));
                            assert(decreases_to!(ps0[i as int] => ps0[i as int].0));
                            assert(decreases_to!(ps0[i as int] => ps0[i as int].1));
                        }
                        if i > 0 {
                            self.write_str(", ");
                        }
                        self.generate_js_expr(k);
                        self.write_str(": ");
                        self.generate_js_expr(v);
                        proof {
                            assert(ps0.subrange(0, i + 1).drop_last() =~= ps0.subrange(
                                0,
                                i as int,
                            ));
                            assert(ps0.subrange(0, i + 1).last() == ps0[i as int]);
                            assert(self.out@ =~= old(self).out@ + "{ "@ + spec_props_entries(
                                ps0.subrange(0, i + 1),
                            ));
                        }
                        i = i + 1;
                    }
                    proof {
                        assert(ps0.subrange(0, ps0.len() as int) =~= ps0);
                    }
                    self.write_str(" }");
                    proof {
                        assert(self.out@ =~= old(self).out@ + spec_gen_js(e0));
                    }
                }
            },
            Js::Compound(v) => {
                let ghost vs0 = v@;
                let mut v = v;
                let mut i: usize = 0;
                while i < v.len()
                    invariant
                        0 <= i <= vs0.len(),
                        v@.len() == vs0.len(),
                        forall|j: int| i <= j < vs0.len() ==> v@[j] == vs0[j],
                        self.out@ == old(self).out@ + spec_cat_list(vs0.subrange(0, i as int)),
                        writer_keeps(*old(self), *self),
                    decreases vs0.len() - i,
                {
                    let e = v.remove(i);
                    v.insert(i, Js::Src(String::new()));
                    proof {
                        assert(e == vs0[i as int]);
                        assert(e0->Compound_0@ == vs0);
                        assert(decreases_to!(e0 => e0->Compound_0));
                        assert(decreases_to!(e0->Compound_0 => e0->Compound_0@));
                        assert(decreases_to!(e0->Compound_0@ => e0->Compound_0@[i as int]));
                    }
                    self.generate_js_expr(e);
                    proof {
                        assert(vs0.subrange(0, i + 1).drop_last() =~= vs0.subrange(0, i as int));
                        assert(vs0.subrange(0, i + 1).last() == vs0[i as int]);
                        assert(self.out@ =~= old(self).out@ + spec_cat_list(
                            vs0.subrange(0, i + 1),
                        ));
                    }
                    i = i + 1;
                }
                proof {
                    assert(vs0.subrange(0, vs0.len() as int) =~= vs0);
                }
            },
            Js::Array(a) => {
                proof {
                    assert(decreases_to!(e0 => e0->Array_0));
                }
                self.write_str("[");
                self.gen_list(a);
                self.write_str("]");
                proof {
                    assert(self.out@ =~= old(self).out@ + spec_gen_js(e0));
                }
            },
            Js::Call(c, args) => {
                proof {
                    assert(decreases_to!(e0 => e0->Call_1));
                }
                self.write_helper(c);
                self.write_str("(");
                self.gen_list(args);
                self.write_str(")");
                proof {
                    assert(self.out@ =~= old(self).out@ + spec_gen_js(e0));
                }
            },
        }
    }

    /// Emit the texts of a text node, joined with ` + `; callers must
    /// hand at least one entry for visible output.
    #[verifier::loop_isolation(false)]
    pub fn generate_text(&mut self, t: TextIR)
        ensures
            final(self).out@ == old(self).out@ + spec_texts(t.texts@),
            writer_keeps(*old(self), *final(self)),
    {
        let TextIR { texts } = t;
        let ghost ts0 = texts@;
        let mut texts = texts;
        let mut i: usize = 0;
        while i < texts.len()
            invariant
                0 <= i <= ts0.len(),
                texts@.len() == ts0.len(),
                forall|j: int| i <= j < ts0.len() ==> texts@[j] == ts0[j],
                self.out@ == old(self).out@ + spec_texts(ts0.subrange(0, i as int)),
                writer_keeps(*old(self), *self),
            decreases ts0.len() - i,
        {
            let e = texts.remove(i);
            texts.insert(i, Js::Src(String::new()));
            proof {
                assert(e == ts0[i as int]);
            }
            if i > 0 {
                self.write_str(" + ");
            }
            self.generate_js_expr(e);
            proof {
                assert(ts0.subrange(0, i + 1).drop_last() =~= ts0.subrange(0, i as int));
                assert(ts0.subrange(0, i + 1).last() == ts0[i as int]);
                assert(self.out@ =~= old(self).out@ + spec_texts(ts0.subrange(0, i + 1)));
            }
            i = i + 1;
        }
        proof {
            assert(ts0.subrange(0, ts0.len() as int) =~= ts0);
        }
    }

    /// Emit a comma-separated list of nodes.
    #[verifier::loop_isolation(false)]
    pub fn gen_node_list(&mut self, nodes: Vec<IRNode>)
        ensures
            final(self).out@ == old(self).out@ + spec_node_list(nodes@),
            writer_keeps(*old(self), *final(self)),
        decreases nodes, 0int,
    {
        let ghost cs0 = nodes@;
        let mut nodes = nodes;
        let mut i: usize = 0;
        while i < nodes.len()
            invariant
                0 <= i <= cs0.len(),
                nodes@.len() == cs0.len(),
                forall|j: int| i <= j < cs0.len() ==> nodes@[j] == cs0[j],
                self.out@ == old(self).out@ + spec_node_list(cs0.subrange(0, i as int)),
                writer_keeps(*old(self), *self),
            decreases cs0.len() - i,
        {
            let node = nodes.remove(i);
            nodes.insert(i, IRNode::CommentCall(String::new()));
            proof {
                assert(node == cs0[i as int]);
                assert(decreases_to!(cs0 => cs0[i as int]));
            }
            if i > 0 {
                self.write_str(", ");
            }
            self.generate_ir(node);
            proof {
                assert(cs0.subrange(0, i + 1).drop_last() =~= cs0.subrange(0, i as int));
                assert(cs0.subrange(0, i + 1).last() == cs0[i as int]);
                assert(self.out@ =~= old(self).out@ + spec_node_list(cs0.subrange(0, i + 1)));
            }
            i = i + 1;
        }
        proof {
            assert(cs0.subrange(0, cs0.len() as int) =~= cs0);
        }
    }

    /// Emit one node of the optimized tree.
    pub fn generate_ir(&mut self, ir: IRNode)
        ensures
            final(self).out@ == old(self).out@ + spec_gen_ir(ir),
            writer_keeps(*old(self), *final(self)),
        decreases ir, 10int,
    {
        let ghost ir0 = ir;
        match ir {
            IRNode::TextCall(t) => {
                self.generate_text(t);
            },
            IRNode::If(v_if) => {
                proof {
                    assert(decreases_to!(ir0 => ir0->If_0));
                }
                self.generate_if(v_if);
            },
            IRNode::For(v_for) => {
                proof {
                    assert(decreases_to!(ir0 => ir0->For_0));
                }
                self.generate_for(v_for);
            },
            IRNode::VNodeCall(vnode) => {
                proof {
                    assert(decreases_to!(ir0 => ir0->VNodeCall_0));
                }
                self.generate_vnode(vnode);
            },
            IRNode::RenderSlotCall(r) => {
                proof {
                    assert(decreases_to!(ir0 => ir0->RenderSlotCall_0));
                }
                self.generate_slot_outlet(r);
            },
            IRNode::VSlotUse(s) => {
                proof {
                    assert(decreases_to!(ir0 => ir0->VSlotUse_0));
                }
                self.generate_v_slot(s);
            },
            IRNode::CommentCall(c) => {
                self.generate_comment(c);
            },
            IRNode::AlterableSlot(a) => {
                proof {
                    assert(decreases_to!(ir0 => ir0->AlterableSlot_0));
                }
                self.generate_alterable_slot(a);
            },
        }
    }

    /// Emit a conditional as a chain of ternaries; without a final
    /// unconditioned branch the chain ends in `null`.
    #[verifier::loop_isolation(false)]
    #[verifier::rlimit(100)]
    pub fn generate_if(&mut self, i: IfNodeIR)
        ensures
            final(self).out@ == old(self).out@ + spec_if_chain(i.branches@),
            writer_keeps(*old(self), *final(self)),
        decreases i, 0int,
    {
        let ghost if0 = i;
        let IfNodeIR { branches } = i;
        let ghost bs0 = branches@;
        let mut branches = branches;
        let mut idx: usize = 0;
        let mut done = false;
        proof {
            assert(bs0.subrange(0, bs0.len() as int) =~= bs0);
        }
        while idx < branches.len() && !done
            invariant
                0 <= idx <= bs0.len(),
                branches@.len() == bs0.len(),
                forall|j: int| idx <= j < bs0.len() ==> branches@[j] == bs0[j],
                !done ==> self.out@ + spec_if_chain(
                    bs0.subrange(idx as int, bs0.len() as int),
                ) == old(self).out@ + spec_if_chain(bs0),
                done ==> self.out@ == old(self).out@ + spec_if_chain(bs0),
                writer_keeps(*old(self), *self),
            decreases bs0.len() - idx,
        {
            let IfBranch { condition, child } = branches.remove(idx);
            branches.insert(
                idx,
                IfBranch { condition: None, child: Box::new(IRNode::CommentCall(String::new())) },
            );
            proof {
                assert(IfBranch { condition, child } == bs0[idx as int]);
                assert(if0.branches@ == bs0);
                assert(decreases_to!(if0 => if0.branches));
                assert(decreases_to!(if0.branches => if0.branches@));
                assert(decreases_to!(if0.branches@ => if0.branches@[idx as int]));
                assert(decreases_to!(bs0[idx as int] => *bs0[idx as int].child));
                assert(bs0.subrange(idx as int, bs0.len() as int)[0] == bs0[idx as int]);
                assert(bs0.subrange(idx as int, bs0.len() as int).subrange(
                    1,
                    bs0.len() - idx,
                ) =~= bs0.subrange(idx + 1, bs0.len() as int));
            }
            match condition {
                Some(c) => {
                    self.generate_js_expr(c);
                    self.write_str(" ? ");
                    self.generate_ir(*child);
                    self.write_str(" : ");
                    proof {
                        assert(self.out@ + spec_if_chain(
                            bs0.subrange(idx + 1, bs0.len() as int),
                        ) =~= old(self).out@ + spec_if_chain(bs0));
                    }
                },
                None => {
                    self.generate_ir(*child);
                    done = true;
                    proof {
                        assert(self.out@ =~= old(self).out@ + spec_if_chain(bs0));
                    }
                },
            }
            idx = idx + 1;
        }
        if !done {
            proof {
                assert(bs0.subrange(bs0.len() as int, bs0.len() as int).len() == 0);
            }
            self.write_str("null");
            proof {
                assert(self.out@ =~= old(self).out@ + spec_if_chain(bs0));
            }
        }
    }

    /// Emit a loop as a list-rendering helper call with an inline
    /// callback over the declared parameters.
    pub fn generate_for(&mut self, f: ForNodeIR)
        ensures
            final(self).out@ == old(self).out@ + spec_for(f),
            writer_keeps(*old(self), *final(self)),
        decreases f, 0int,
    {
        let ghost f0 = f;
        proof {
            assert(decreases_to!(f0 => *f0.child));
        }
        let ForNodeIR { source, parse_result, child } = f;
        let ForParseResult { value, key, index } = parse_result;
        self.write_helper(RuntimeHelper::RenderList);
        self.write_str("(");
        self.generate_js_expr(source);
        self.write_str(", (");
        let ghost pr0 = f0.parse_result;
        self.generate_js_expr(value);
        let has_index = index.is_some();
        match key {
            Some(k) => {
                self.write_str(", ");
                self.generate_js_expr(k);
            },
            None => {
                if has_index {
                    self.write_str(", _");
                }
            },
        }
        match index {
            Some(x) => {
                self.write_str(", ");
                self.generate_js_expr(x);
            },
            None => (),
        }
        self.write_str(") => ");
        self.generate_ir(*child);
        self.write_str(")");
        proof {
            assert(self.out@ =~= old(self).out@ + spec_for(f0));
        }
    }

    /// Emit a slot outlet as a render call on the context's slots with
    /// the optional props and fallback children.
    pub fn generate_slot_outlet(&mut self, r: RenderSlotIR)
        ensures
            final(self).out@ == old(self).out@ + spec_render_slot(r),
            writer_keeps(*old(self), *final(self)),
        decreases r, 0int,
    {
        let ghost r0 = r;
        proof {
            assert(decreases_to!(r0 => r0.fallbacks));
        }
        let RenderSlotIR { slot_name, slot_props, fallbacks } = r;
        self.write_helper(RuntimeHelper::RenderSlot);
        self.write_str("(_ctx.$slots, ");
        self.generate_js_expr(slot_name);
        let has_fallback = fallbacks.len() > 0;
        match slot_props {
            Some(p) => {
                self.write_str(", ");
                self.generate_js_expr(p);
            },
            None => {
                if has_fallback {
                    self.write_str(", null");
                }
            },
        }
        if has_fallback {
            self.write_str(", () => [");
            self.gen_node_list(fallbacks);
            self.write_str("]");
        }
        self.write_str(")");
        proof {
            assert(self.out@ =~= old(self).out@ + spec_render_slot(r0));
        }
    }

    /// Emit one slot definition entry of a slots object.
    pub fn gen_slot_entry(&mut self, s: Slot)
        ensures
            final(self).out@ == old(self).out@ + spec_slot_entry(s),
            writer_keeps(*old(self), *final(self)),
        decreases s, 0int,
    {
        let ghost s0 = s;
        proof {
            assert(decreases_to!(s0 => s0.body));
        }
        let Slot { name, param, body } = s;
        self.generate_js_expr(name);
        self.write_str(": (");
        match param {
            Some(p) => {
                self.generate_js_expr(p);
            },
            None => (),
        }
        self.write_str(") => [");
        self.gen_node_list(body);
        self.write_str("]");
        proof {
            assert(self.out@ =~= old(self).out@ + spec_slot_entry(s0));
        }
    }

    /// Emit the slots object of a component: the stable entries, then
    /// the alterable ones.
    #[verifier::loop_isolation(false)]
    #[verifier::rlimit(100)]
    pub fn generate_v_slot(&mut self, s: VSlotIR)
        ensures
            final(self).out@ == old(self).out@ + spec_v_slot(s),
            writer_keeps(*old(self), *final(self)),
        decreases s, 0int,
    {
        let ghost s0 = s;
        let VSlotIR { stable_slots, alterable_slots } = s;
        let no_stable = stable_slots.len() == 0;
        let no_alterable = alterable_slots.len() == 0;
        if no_stable && no_alterable {
            self.write_str("{}");
            proof {
                assert(self.out@ =~= old(self).out@ + spec_v_slot(s0));
            }
            return ;
        }
        self.write_str("{ ");
        let ghost ss0 = stable_slots@;
        let mut stable_slots = stable_slots;
        let mut i: usize = 0;
        while i < stable_slots.len()
            invariant
                0 <= i <= ss0.len(),
                stable_slots@.len() == ss0.len(),
                forall|j: int| i <= j < ss0.len() ==> stable_slots@[j] == ss0[j],
                self.out@ == old(self).out@ + "{ "@ + spec_slot_entries(
                    ss0.subrange(0, i as int),
                ),
                writer_keeps(*old(self), *self),
            decreases ss0.len() - i,
        {
            let slot = stable_slots.remove(i);
            stable_slots.insert(
                i,
                Slot { name: Js::Src(String::new()), param: None, body: Vec::new() },
            );
            proof {
                assert(slot == ss0[i as int]);
                assert(s0.stable_slots@ == ss0);
                assert(decreases_to!(s0 => s0.stable_slots));
                assert(decreases_to!(s0.stable_slots => s0.stable_slots@));
                assert(decreases_to!(s0.stable_slots@ => s0.stable_slots@[i as int]));
            }
            if i > 0 {
                self.write_str(", ");
            }
            self.gen_slot_entry(slot);
            proof {
                assert(ss0.subrange(0, i + 1).drop_last() =~= ss0.subrange(0, i as int));
                assert(ss0.subrange(0, i + 1).last() == ss0[i as int]);
                assert(self.out@ =~= old(self).out@ + "{ "@ + spec_slot_entries(
                    ss0.subrange(0, i + 1),
                ));
            }
            i = i + 1;
        }
        proof {
            assert(ss0.subrange(0, ss0.len() as int) =~= ss0);
        }
        if !no_stable && !no_alterable {
            self.write_str(", ");
        }
        let ghost as0 = alterable_slots@;
        let ghost mid = self.out@;
        let mut alterable_slots = alterable_slots;
        let mut i: usize = 0;
        while i < alterable_slots.len()
            invariant
                0 <= i <= as0.len(),
                alterable_slots@.len() == as0.len(),
                forall|j: int| i <= j < as0.len() ==> alterable_slots@[j] == as0[j],
                self.out@ == mid + spec_node_list(as0.subrange(0, i as int)),
                writer_keeps(*old(self), *self),
            decreases as0.len() - i,
        {
            let node = alterable_slots.remove(i);
            alterable_slots.insert(i, IRNode::CommentCall(String::new()));
            proof {
                assert(node == as0[i as int]);
                assert(s0.alterable_slots@ == as0);
                assert(decreases_to!(s0 => s0.alterable_slots));
                assert(decreases_to!(s0.alterable_slots => s0.alterable_slots@));
                assert(decreases_to!(s0.alterable_slots@ => s0.alterable_slots@[i as int]));
            }
            if i > 0 {
                self.write_str(", ");
            }
            self.generate_ir(node);
            proof {
                assert(as0.subrange(0, i + 1).drop_last() =~= as0.subrange(0, i as int));
                assert(as0.subrange(0, i + 1).last() == as0[i as int]);
                assert(self.out@ =~= mid + spec_node_list(as0.subrange(0, i + 1)));
            }
            i = i + 1;
        }
        proof {
            assert(as0.subrange(0, as0.len() as int) =~= as0);
        }
        self.write_str(" }");
        proof {
            assert(self.out@ =~= old(self).out@ + spec_v_slot(s0));
        }
    }

    /// Emit one alterable slot as a slots-object entry.
    pub fn generate_alterable_slot(&mut self, s: Slot)
        ensures
            final(self).out@ == old(self).out@ + spec_slot_entry(s),
            writer_keeps(*old(self), *final(self)),
        decreases s, 1int,
    {
        self.gen_slot_entry(s);
    }

    /// Emit a comment node as a comment-creation call.
    pub fn generate_comment(&mut self, c: String)
        ensures
            final(self).out@ == old(self).out@ + spec_helper(RuntimeHelper::CreateComment) + "("@
                + spec_str_lit(c@) + ")"@,
            writer_keeps(*old(self), *final(self)),
    {
        self.write_helper(RuntimeHelper::CreateComment);
        self.write_str("(");
        let lit = js_string_lit(c.as_str());
        self.write_str(lit.as_str());
        self.write_str(")");
        proof {
            assert(self.out@ =~= old(self).out@ + spec_helper(RuntimeHelper::CreateComment) + "("@
                + spec_str_lit(c@) + ")"@);
        }
    }

    /// Emit a vnode, wrapping it in `withDirectives` when directives
    /// are present.
    pub fn generate_vnode(&mut self, v: VNodeIR)
        ensures
            final(self).out@ == old(self).out@ + spec_vnode(v),
            writer_keeps(*old(self), *final(self)),
        decreases v.children, 5int,
    {
        self.gen_vnode_with_dir(v);
    }

    /// The `withDirectives` wrapper around the block form.
    pub fn gen_vnode_with_dir(&mut self, v: VNodeIR)
        ensures
            final(self).out@ == old(self).out@ + spec_vnode(v),
            writer_keeps(*old(self), *final(self)),
        decreases v.children, 4int,
    {
        let ghost v0 = v;
        if v.directives.len() == 0 {
            self.gen_vnode_with_block(v);
            return ;
        }
        let mut v = v;
        let mut dirs: Vec<RuntimeDir> = Vec::new();
        core::mem::swap(&mut v.directives, &mut dirs);
        proof {
            assert(v.children == v0.children);
            assert(dirs@ == v0.directives@);
            assert(spec_vnode_block(v) == spec_vnode_block(v0)) by {
                assert(spec_vnode_args(
                    v.tag,
                    v.props,
                    v.children@,
                    v.patch_flag,
                    v.dynamic_props@,
                ) == spec_vnode_args(
                    v0.tag,
                    v0.props,
                    v0.children@,
                    v0.patch_flag,
                    v0.dynamic_props@,
                ));
            }
        }
        self.write_helper(RuntimeHelper::WithDirectives);
        self.write_str("(");
        self.gen_vnode_with_block(v);
        self.write_str(", ");
        let dir_arr = runtime_dirs_to_js_arr(dirs);
        self.generate_js_expr(dir_arr);
        self.write_str(")");
        proof {
            assert(self.out@ =~= old(self).out@ + spec_vnode(v0));
        }
    }

    /// The block form: a block vnode sequences a block-open call
    /// before its construction.
    pub fn gen_vnode_with_block(&mut self, v: VNodeIR)
        ensures
            final(self).out@ == old(self).out@ + spec_vnode_block(v),
            writer_keeps(*old(self), *final(self)),
        decreases v.children, 3int,
    {
        let ghost v0 = v;
        if !v.is_block {
            self.gen_vnode_real(v);
            return ;
        }
        self.write_str("(");
        self.write_helper(RuntimeHelper::OpenBlock);
        self.write_str("(");
        if v.disable_tracking {
            self.write_str("true");
        }
        self.write_str("), ");
        self.gen_vnode_real(v);
        self.write_str(")");
        proof {
            assert(self.out@ =~= old(self).out@ + spec_vnode_block(v0));
        }
    }

    /// The creation call itself, helper chosen from the block and
    /// component flags.
    pub fn gen_vnode_real(&mut self, v: VNodeIR)
        ensures
            final(self).out@ == old(self).out@ + spec_vnode_real(v),
            writer_keeps(*old(self), *final(self)),
        decreases v.children, 2int,
    {
        let ghost v0 = v;
        let VNodeIR {
            tag,
            props,
            children,
            patch_flag,
            dynamic_props,
            directives,
            is_block,
            disable_tracking,
            is_component,
        } = v;
        proof {
            assert(children == v0.children);
        }
        let call_helper = if is_block {
            if is_component {
                RuntimeHelper::CreateBlock
            } else {
                RuntimeHelper::CreateElementBlock
            }
        } else {
            if is_component {
                RuntimeHelper::CreateVnode
            } else {
                RuntimeHelper::CreateElementVnode
            }
        };
        self.write_helper(call_helper);
        self.write_str("(");
        self.gen_vnode_call_args(tag, props, children, patch_flag, dynamic_props);
        self.write_str(")");
        proof {
            assert(self.out@ =~= old(self).out@ + spec_vnode_real(v0));
        }
    }

    /// Emit the variadic argument list of a vnode creation call by the
    /// trailing-argument-elision plan.
    #[verifier::loop_isolation(false)]
    #[verifier::rlimit(100)]
    #[verifier::spinoff_prover]
    pub fn gen_vnode_call_args(
        &mut self,
        tag: Js,
        props: Option<Js>,
        children: Vec<IRNode>,
        patch_flag: PatchFlag,
        dynamic_props: Vec<String>,
    )
        ensures
            final(self).out@ == old(self).out@ + spec_vnode_args(
                tag,
                props,
                children@,
                patch_flag,
                dynamic_props@,
            ),
            writer_keeps(*old(self), *final(self)),
        decreases children, 1int,
    {
        let ghost t0 = spec_gen_js(tag);
        let ghost t1 = if props is Some {
            spec_gen_js(props.unwrap())
        } else {
            Seq::<char>::empty()
        };
        let ghost t2 = spec_children(children@);
        let ghost t3 = spec_flag_comment(patch_flag.0);
        let ghost t4 = "["@ + spec_dyn_props(dynamic_props@) + "]"@;
        let ghost p = seq![
            true,
            props is Some,
            children@.len() > 0,
            patch_flag.0 != 0,
            dynamic_props@.len() > 0,
        ];
        let mut present: Vec<bool> = Vec::new();
        present.push(true);
        present.push(props.is_some());
        present.push(children.len() > 0);
        present.push(patch_flag.0 != 0);
        present.push(dynamic_props.len() > 0);
        proof {
            assert(present@ =~= p);
        }
        let plan = elide_trailing_args(&present);
        let ghost n = spec_last_true(p);
        let ghost g1 = (if n > 0 {
            t0
        } else {
            Seq::<char>::empty()
        });
        let ghost g2 = g1 + (if n > 1 {
            ", "@ + (if p[1] {
                t1
            } else {
                "null"@
            })
        } else {
            Seq::<char>::empty()
        });
        let ghost g3 = g2 + (if n > 2 {
            ", "@ + (if p[2] {
                t2
            } else {
                "null"@
            })
        } else {
            Seq::<char>::empty()
        });
        let ghost g4 = g3 + (if n > 3 {
            ", "@ + (if p[3] {
                t3
            } else {
                "null"@
            })
        } else {
            Seq::<char>::empty()
        });
        let ghost g5 = g4 + (if n > 4 {
            ", "@ + (if p[4] {
                t4
            } else {
                "null"@
            })
        } else {
            Seq::<char>::empty()
        });
        proof {
            lemma_last_true_bounds(p);
            assert(n == plan@.len());
        }
        if plan.len() > 0 {
            // the tag is always present
            self.generate_js_expr(tag);
        }
        proof {
            assert(self.out@ == old(self).out@ + g1);
        }
        if plan.len() > 1 {
            self.write_str(", ");
            if plan[1] {
                match props {
                    Some(pr) => {
                        self.generate_js_expr(pr);
                        proof {
                            lemma_concat_associative(old(self).out@ + g1, ", "@, t1);
                            lemma_concat_associative(old(self).out@, g1, ", "@ + t1);
                        }
                    },
                    None => {
                        proof {
                            assert(false);
                        }
                    },
                }
            } else {
                self.write_str("null");
                proof {
                    lemma_concat_associative(old(self).out@ + g1, ", "@, "null"@);
                    lemma_concat_associative(old(self).out@, g1, ", "@ + "null"@);
                }
            }
        }
        proof {
            assert(self.out@ == old(self).out@ + g2);
        }
        if plan.len() > 2 {
            self.write_str(", ");
            if plan[2] {
                self.gen_children(children);
                proof {
                    lemma_concat_associative(old(self).out@ + g2, ", "@, t2);
                    lemma_concat_associative(old(self).out@, g2, ", "@ + t2);
                }
            } else {
                self.write_str("null");
                proof {
                    lemma_concat_associative(old(self).out@ + g2, ", "@, "null"@);
                    lemma_concat_associative(old(self).out@, g2, ", "@ + "null"@);
                }
            }
        }
        proof {
            assert(self.out@ == old(self).out@ + g3);
        }
        if plan.len() > 3 {
            self.write_str(", ");
            if plan[3] {
                let mut ftext = u32_dec(patch_flag.0);
                ftext.append(" /*");
                let names = patch_flag_names(patch_flag.0);
                ftext.append(names.as_str());
                ftext.append("*/");
                proof {
                    assert(ftext@ == t3);
                }
                self.write_str(ftext.as_str());
                proof {
                    lemma_concat_associative(old(self).out@ + g3, ", "@, t3);
                    lemma_concat_associative(old(self).out@, g3, ", "@ + t3);
                }
            } else {
                self.write_str("null");
                proof {
                    lemma_concat_associative(old(self).out@ + g3, ", "@, "null"@);
                    lemma_concat_associative(old(self).out@, g3, ", "@ + "null"@);
                }
            }
        }
        proof {
            assert(self.out@ == old(self).out@ + g4);
        }
        if plan.len() > 4 {
            self.write_str(", ");
            if plan[4] {
                let mut dtext = String::from_str("[");
                let names_text = dyn_props_text(&dynamic_props);
                dtext.append(names_text.as_str());
                dtext.append("]");
                proof {
                    assert(dtext@ == t4);
                }
                let ghost before = self.out@;
                self.write_str(dtext.as_str());
                proof {
                    lemma_concat_associative(old(self).out@ + g4, ", "@, t4);
                    lemma_concat_associative(old(self).out@, g4, ", "@ + t4);
                }
            } else {
                let ghost before = self.out@;
                self.write_str("null");
                proof {
                    lemma_concat_associative(old(self).out@ + g4, ", "@, "null"@);
                    lemma_concat_associative(old(self).out@, g4, ", "@ + "null"@);
                }
            }
        }
        proof {
            assert(self.out@ == old(self).out@ + g5);
            assert(spec_vnode_args(tag, props, children@, patch_flag, dynamic_props@) == g5);
        }
    }
}

/// Build the runtime directive array: a Js array holding, for each
/// directive in input order, one elided `[expression, value, argument,
/// modifiers]` entry, generating exactly the directive-array text.
#[verifier::loop_isolation(false)]
#[verifier::rlimit(100)]
pub fn runtime_dirs_to_js_arr(dirs: Vec<RuntimeDir>) -> (r: Js)
    ensures
        r is Array,
        r->Array_0@.len() == dirs@.len(),
        forall|i: int|
            0 <= i < dirs@.len() ==> spec_gen_js(#[trigger] r->Array_0@[i]) == spec_dir_entry(
                dirs@[i],
            ),
        spec_gen_js(r) == "["@ + spec_dirs_text(dirs@) + "]"@,
{
    let ghost ds0 = dirs@;
    let mut dirs = dirs;
    let mut entries: Vec<Js> = Vec::new();
    let mut i: usize = 0;
    while i < dirs.len()
        invariant
            0 <= i <= ds0.len(),
            dirs@.len() == ds0.len(),
            forall|j: int| i <= j < ds0.len() ==> dirs@[j] == ds0[j],
            entries@.len() == i,
            forall|j: int|
                0 <= j < i ==> spec_gen_js(#[trigger] entries@[j]) == spec_dir_entry(ds0[j]),
            spec_gen_list(entries@) == spec_dirs_text(ds0.subrange(0, i as int)),
        decreases ds0.len() - i,
    {
        let RuntimeDir { name, expr, arg, mods } = dirs.remove(i);
        dirs.insert(
            i,
            RuntimeDir { name: Js::Src(String::new()), expr: None, arg: None, mods: None },
        );
        proof {
            assert(RuntimeDir { name, expr, arg, mods } == ds0[i as int]);
        }
        let ghost d = ds0[i as int];
        let ghost t0 = spec_gen_js(d.name);
        let ghost t1 = if d.expr is Some {
            spec_gen_js(d.expr.unwrap())
        } else {
            Seq::<char>::empty()
        };
        let ghost t2 = if d.arg is Some {
            spec_gen_js(d.arg.unwrap())
        } else {
            Seq::<char>::empty()
        };
        let ghost t3 = if d.mods is Some {
            spec_gen_js(d.mods.unwrap())
        } else {
            Seq::<char>::empty()
        };
        let ghost p = seq![true, d.expr is Some, d.arg is Some, d.mods is Some];
        let mut present: Vec<bool> = Vec::new();
        present.push(true);
        present.push(expr.is_some());
        present.push(arg.is_some());
        present.push(mods.is_some());
        proof {
            assert(present@ =~= p);
        }
        let plan = elide_trailing_args(&present);
        let mut items: Vec<Js> = Vec::new();
        proof {
            lemma_last_true_bounds(p);
        }
        let ghost n = spec_last_true(p);
        let ghost h1 = (if n > 0 {
            t0
        } else {
            Seq::<char>::empty()
        });
        let ghost h2 = h1 + (if n > 1 {
            ", "@ + (if p[1] {
                t1
            } else {
                "null"@
            })
        } else {
            Seq::<char>::empty()
        });
        let ghost h3 = h2 + (if n > 2 {
            ", "@ + (if p[2] {
                t2
            } else {
                "null"@
            })
        } else {
            Seq::<char>::empty()
        });
        let ghost h4 = h3 + (if n > 3 {
            ", "@ + (if p[3] {
                t3
            } else {
                "null"@
            })
        } else {
            Seq::<char>::empty()
        });
        proof {
            assert(n == plan@.len());
        }
        if plan.len() > 0 {
            items.push(name);
            proof {
                assert(spec_gen_js(items@[0]) == t0);
                assert(spec_gen_list(items@) == h1);
            }
        }
        if plan.len() > 1 {
            let it = if plan[1] {
                match expr {
                    Some(e) => e,
                    None => {
                        proof {
                            assert(false);
                        }
                        Js::Src(String::new())
                    },
                }
            } else {
                Js::Src(string_of("null"))
            };
            let ghost items0 = items@;
            items.push(it);
            proof {
                assert(items@.drop_last() =~= items0);
                assert(p[1] == (d.expr is Some));
                assert(spec_gen_js(it) == (if p[1] { t1 } else { "null"@ }));
                assert(spec_gen_list(items@) == spec_gen_list(items@.drop_last()) + ", "@
                    + spec_gen_js(items@.last()));
                lemma_concat_associative(h1, ", "@, (if p[1] { t1 } else { "null"@ }));
                assert(spec_gen_list(items@) == h2);
            }
        }
        if plan.len() > 2 {
            let it = if plan[2] {
                match arg {
                    Some(a) => a,
                    None => {
                        proof {
                            assert(false);
                        }
                        Js::Src(String::new())
                    },
                }
            } else {
                Js::Src(string_of("null"))
            };
            let ghost items0 = items@;
            items.push(it);
            proof {
                assert(items@.drop_last() =~= items0);
                assert(p[2] == (d.arg is Some));
                assert(spec_gen_js(it) == (if p[2] { t2 } else { "null"@ }));
                assert(spec_gen_list(items@) == spec_gen_list(items@.drop_last()) + ", "@
                    + spec_gen_js(items@.last()));
                lemma_concat_associative(h2, ", "@, (if p[2] { t2 } else { "null"@ }));
                assert(spec_gen_list(items@) == h3);
            }
        }
        if plan.len() > 3 {
            let it = if plan[3] {
                match mods {
                    Some(m) => m,
                    None => {
                        proof {
                            assert(false);
                        }
                        Js::Src(String::new())
                    },
                }
            } else {
                Js::Src(string_of("null"))
            };
            let ghost items0 = items@;
            items.push(it);
            proof {
                assert(items@.drop_last() =~= items0);
                assert(p[3] == (d.mods is Some));
                assert(spec_gen_js(it) == (if p[3] { t3 } else { "null"@ }));
                assert(spec_gen_list(items@) == spec_gen_list(items@.drop_last()) + ", "@
                    + spec_gen_js(items@.last()));
                lemma_concat_associative(h3, ", "@, (if p[3] { t3 } else { "null"@ }));
                assert(spec_gen_list(items@) == h4);
            }
        }
        let entry = Js::Array(items);
        proof {
            lemma_last_true_bounds(p);
            assert(spec_gen_list(items@) == h4);
            assert(spec_gen_js(entry) == spec_dir_entry(d));
        }
        let ghost entries0 = entries@;
        entries.push(entry);
        proof {
            assert(entries@.last() == entry);
            assert(entries@.drop_last() =~= entries0);
            assert(ds0.subrange(0, i + 1).drop_last() =~= ds0.subrange(0, i as int));
            assert(ds0.subrange(0, i + 1).last() == ds0[i as int]);
            assert(spec_gen_list(entries@) =~= spec_dirs_text(ds0.subrange(0, i + 1)));
        }
        i = i + 1;
    }
    proof {
        assert(ds0.subrange(0, ds0.len() as int) =~= ds0);
    }
    Js::Array(entries)
}

/// The names kept in first-seen order: a name stays only where no
/// earlier occurrence exists.
pub open spec fn spec_first_seen(vs: Seq<Seq<char>>) -> Seq<Seq<char>>
    decreases vs.len(),
{
    if vs.len() == 0 {
        Seq::empty()
    } else {
        let pre = spec_first_seen(vs.drop_last());
        if pre.contains(vs.last()) {
            pre
        } else {
            pre.push(vs.last())
        }
    }
}

/// `js` is an array of string literals holding exactly `names`.
pub open spec fn strlit_array_is(js: Js, names: Seq<Seq<char>>) -> bool {
    match js {
        Js::Array(a) => a@.len() == names.len() && forall|i: int|
            0 <= i < a@.len() ==> (#[trigger] a@[i]) is StrLit && a@[i]->StrLit_0@ == names[i],
        _ => false,
    }
}

/// The dynamic-prop-name array of a vnode: the given names
/// de-duplicated deterministically in first-seen order, as string
/// literals; nothing for an empty list. This is the collection step a
/// converter runs while gathering names; the emission path receives
/// the node's list already assembled and emits it as it stands.
#[verifier::loop_isolation(false)]
pub fn stringify_dynamic_prop_names(prop_names: Vec<String>) -> (r: Option<Js>)
    ensures
        r is Some <==> prop_names@.len() > 0,
        r matches Some(js) ==> strlit_array_is(js, spec_first_seen(prop_names.deep_view())),
{
    if prop_names.len() == 0 {
        return None;
    }
    let ghost dv = prop_names.deep_view();
    let mut out: Vec<Js> = Vec::new();
    let ghost mut kept: Seq<Seq<char>> = Seq::empty();
    let mut i: usize = 0;
    while i < prop_names.len()
        invariant
            0 <= i <= dv.len(),
            prop_names.deep_view() == dv,
            kept == spec_first_seen(dv.subrange(0, i as int)),
            out@.len() == kept.len(),
            forall|k: int|
                0 <= k < out@.len() ==> (#[trigger] out@[k]) is StrLit && out@[k]->StrLit_0@
                    == kept[k],
        decreases dv.len() - i,
    {
        let mut seen = false;
        let mut j: usize = 0;
        while j < out.len()
            invariant
                0 <= j <= out@.len(),
                seen <==> exists|k: int| 0 <= k < j && kept[k] == dv[i as int],
            decreases out@.len() - j,
        {
            let existing = match &out[j] {
                Js::StrLit(s) => s,
                _ => {
                    proof {
                        assert(false);
                    }
                    &prop_names[i]
                },
            };
            if str_eq(existing.as_str(), prop_names[i].as_str()) {
                seen = true;
                proof {
                    assert(kept[j as int] == dv[i as int]);
                }
            }
            j = j + 1;
        }
        proof {
            assert(seen <==> kept.contains(dv[i as int]));
            assert(dv.subrange(0, i + 1).drop_last() =~= dv.subrange(0, i as int));
            assert(dv.subrange(0, i + 1).last() == dv[i as int]);
        }
        if !seen {
            out.push(Js::StrLit(prop_names[i].clone()));
            proof {
                kept = kept.push(dv[i as int]);
            }
        }
        i = i + 1;
    }
    proof {
        assert(dv.subrange(0, dv.len() as int) =~= dv);
    }
    Some(Js::Array(out))
}

/// The dynamic prop names as a comma-separated run of string
/// literals.
#[verifier::loop_isolation(false)]
pub fn dyn_props_text(names: &Vec<String>) -> (r: String)
    ensures
        r@ == spec_dyn_props(names@),
{
    let ghost ds0 = names@;
    let mut out = String::new();
    let mut i: usize = 0;
    while i < names.len()
        invariant
            0 <= i <= ds0.len(),
            names@ == ds0,
            out@ == spec_dyn_props(ds0.subrange(0, i as int)),
        decreases ds0.len() - i,
    {
        if i > 0 {
            out.append(", ");
        }
        let lit = js_string_lit(names[i].as_str());
        out.append(lit.as_str());
        proof {
            assert(ds0.subrange(0, i + 1).drop_last() =~= ds0.subrange(0, i as int));
            assert(ds0.subrange(0, i + 1).last() == ds0[i as int]);
            assert(out@ =~= spec_dyn_props(ds0.subrange(0, i + 1)));
        }
        i = i + 1;
    }
    proof {
        assert(ds0.subrange(0, ds0.len() as int) =~= ds0);
    }
    out
}

/// The text `s` as an owned string.
fn string_of(s: &str) -> (r: String)
    ensures
        r@ == s@,
{
    String::from_str(s)
}

impl CodeWriter {
    /// Emit the children of a vnode call, each recursively generated,
    /// concatenated with no separator.
    #[verifier::loop_isolation(false)]
    pub fn gen_children(&mut self, children: Vec<IRNode>)
        ensures
            final(self).out@ == old(self).out@ + spec_children(children@),
            writer_keeps(*old(self), *final(self)),
        decreases children, 0int,
    {
        let ghost cs0 = children@;
        let mut children = children;
        let mut i: usize = 0;
        while i < children.len()
            invariant
                0 <= i <= cs0.len(),
                children@.len() == cs0.len(),
                forall|j: int| i <= j < cs0.len() ==> children@[j] == cs0[j],
                self.out@ == old(self).out@ + spec_children(cs0.subrange(0, i as int)),
                writer_keeps(*old(self), *self),
            decreases cs0.len() - i,
        {
            let node = children.remove(i);
            children.insert(i, IRNode::CommentCall(String::new()));
            proof {
                assert(node == cs0[i as int]);
                assert(decreases_to!(cs0 => cs0[i as int]));
            }
            self.generate_ir(node);
            proof {
                assert(cs0.subrange(0, i + 1).drop_last() =~= cs0.subrange(0, i as int));
                assert(cs0.subrange(0, i + 1).last() == cs0[i as int]);
                assert(self.out@ =~= old(self).out@ + spec_children(cs0.subrange(0, i + 1)));
            }
            i = i + 1;
        }
        proof {
            assert(cs0.subrange(0, cs0.len() as int) =~= cs0);
        }
    }

    /// The fixed text before the root expression: the preamble, the
    /// render-function signature, the `with` scope, the asset hooks and
    /// the `return`.
    pub fn generate_prologue(&mut self)
        requires
            old(self).indent_level == 0,
            old(self).closing_brackets == 0,
        ensures
            final(self).out@ == old(self).out@ + spec_prologue(),
            final(self).indent_level == 2,
            final(self).closing_brackets == 2,
            final(self).option == old(self).option,
    {
        self.generate_preamble();
        self.generate_function_signature();
        self.generate_with_block();
        self.generate_assets();
        self.write_str("return ");
        proof {
            assert(self.out@ =~= old(self).out@ + spec_prologue());
        }
    }

    /// The hook for helper imports and hoisted constants outside the
    /// function; nothing is hoisted here yet.
    pub fn generate_preamble(&mut self)
        ensures
            final(self).out@ == old(self).out@ + "return "@,
            writer_keeps(*old(self), *final(self)),
    {
        self.write_str("return ");
    }

    /// The render-function declaration, opening one block.
    pub fn generate_function_signature(&mut self)
        requires
            old(self).indent_level < 1000,
            old(self).closing_brackets < 1000,
        ensures
            final(self).out@ == old(self).out@ + "function render(_ctx, _cache) {"@ + "
"@
                + spec_spaces(old(self).indent_level + 1),
            final(self).indent_level == old(self).indent_level + 1,
            final(self).closing_brackets == old(self).closing_brackets + 1,
            final(self).option == old(self).option,
    {
        self.write_str("function render(_ctx, _cache) {");
        self.closing_brackets = self.closing_brackets + 1;
        self.indent();
    }

    /// The `with (_ctx)` scope used without identifier prefixing,
    /// opening one block.
    pub fn generate_with_block(&mut self)
        requires
            old(self).indent_level < 1000,
            old(self).closing_brackets < 1000,
        ensures
            final(self).out@ == old(self).out@ + "with (_ctx) {"@ + "
"@ + spec_spaces(
                old(self).indent_level + 1,
            ),
            final(self).indent_level == old(self).indent_level + 1,
            final(self).closing_brackets == old(self).closing_brackets + 1,
            final(self).option == old(self).option,
    {
        self.write_str("with (_ctx) {");
        self.closing_brackets = self.closing_brackets + 1;
        self.indent();
    }

    /// The hook for component and directive resolution inside the
    /// render function; asset bookkeeping lives outside this core.
    pub fn generate_assets(&mut self)
        ensures
            final(self).out@ == old(self).out@,
            writer_keeps(*old(self), *final(self)),
    {
    }

    /// Close every open block in reverse order, returning the
    /// indentation to zero.
    #[verifier::loop_isolation(false)]
    pub fn generate_epilogue(&mut self)
        requires
            old(self).indent_level == old(self).closing_brackets,
        ensures
            final(self).out@ == old(self).out@ + spec_close(old(self).closing_brackets as int),
            final(self).indent_level == 0,
            final(self).closing_brackets == old(self).closing_brackets,
            final(self).option == old(self).option,
    {
        let n = self.closing_brackets;
        let mut k: usize = 0;
        while k < n
            invariant
                0 <= k <= n,
                self.indent_level == n - k,
                self.closing_brackets == n,
                self.option == old(self).option,
                self.out@ + spec_close((n - k) as int) == old(self).out@ + spec_close(n as int),
            decreases n - k,
        {
            let ghost before = self.out@;
            self.deindent(true);
            self.write_str("}");
            proof {
                assert(self.out@ =~= before + ("
"@ + spec_spaces((n - k - 1) as int) + "}"@));
                assert(spec_close((n - k) as int) == "
"@ + spec_spaces((n - k - 1) as int)
                    + "}"@ + spec_close((n - k - 1) as int));
                assert(self.out@ + spec_close((n - k - 1) as int) =~= old(self).out@ + spec_close(
                    n as int,
                ));
            }
            k = k + 1;
        }
        proof {
            assert(spec_close(0) =~= Seq::<char>::empty());
            assert(self.out@ =~= self.out@ + spec_close(0));
            assert(self.out@ =~= old(self).out@ + spec_close(n as int));
        }
    }

    /// Emit the whole artifact: the prologue, then `null`, the sole
    /// child, or a synthetic fragment vnode over all children, then the
    /// closing braces; the indentation provably returns to zero.
    pub fn generate_root(&mut self, root: IRRoot)
        requires
            old(self).indent_level == 0,
            old(self).closing_brackets == 0,
        ensures
            final(self).out@ == old(self).out@ + spec_render(root),
            final(self).indent_level == 0,
            final(self).option == old(self).option,
    {
        let ghost body0 = root.body@;
        self.generate_prologue();
        let IRRoot { mut body } = root;
        if body.len() == 0 {
            self.write_str("null");
        } else if body.len() == 1 {
            let ir = body.remove(0);
            proof {
                assert(ir == body0[0]);
            }
            self.generate_ir(ir);
        } else {
            self.write_helper(RuntimeHelper::CreateElementVnode);
            self.write_str("(");
            self.gen_vnode_call_args(
                Js::Symbol(RuntimeHelper::Fragment),
                None,
                body,
                PatchFlag(0),
                Vec::new(),
            );
            self.write_str(")");
        }
        self.generate_epilogue();
        proof {
            assert(self.out@ =~= old(self).out@ + spec_render(IRRoot { body: root.body }));
        }
    }
}

} // verus!

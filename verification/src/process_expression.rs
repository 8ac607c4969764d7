use crate::flags::{level_rank, BindingTypes, RuntimeHelper, StaticLevel};
use crate::ir::{legal_param_piece, spec_fn_param_ids, spec_param_ids, Js};
use crate::rslint::{js_name_refs, parse_name_refs, span_ok, wf_spans};
use crate::transformer::{spec_binding_lookup, spec_remove_last, spec_unwind_ids, CorePassExt, Scope, TransformOption};
use crate::util::{
    is_global_allow_listed, is_literal_keyword, is_simple_identifier, slice_chars,
    spec_is_global_allow_listed, spec_is_literal_keyword, spec_is_simple_identifier, str_eq,
    str_starts_with, substr_by_bytes,
};
use vstd::prelude::*;
use vstd::string::{StringExecFns, StringSliceAdditionalSpecFns};
use vstd::utf8::{encode_utf8_valid_utf8, is_ascii_chars, is_char_boundary_start_end_of_seq};

verus! {

/// How a rewritten identifier is used at its site: assigned to, updated
/// by an operator (prefix or postfix), bound by a destructuring target,
/// or plainly read.
pub enum CtxType {
    /// `x = value`, `x += value`: the trailing assignment text.
    Assign(Js),
    /// `x++`, `++x`: whether the operator is prefix, and its text.
    Update(bool, Js),
    /// `({ x }) = y`
    Destructure,
    /// A plain read.
    NoWrite,
}

/// Structural likeness of two expressions: same shape, same texts, same
/// levels and symbols. Duplicating an expression preserves it.
pub open spec fn js_sim(a: Js, b: Js) -> bool
    decreases a,
{
    match (a, b) {
        (Js::Src(x), Js::Src(y)) => x@ == y@,
        (Js::StrLit(x), Js::StrLit(y)) => x@ == y@,
        (Js::Simple(x, la), Js::Simple(y, lb)) => x@ == y@ && la == lb,
        (Js::Symbol(h1), Js::Symbol(h2)) => h1 == h2,
        (Js::Props(p1), Js::Props(p2)) => js_sim_pairs(p1@, p2@),
        (Js::Compound(v1), Js::Compound(v2)) => js_sim_seq(v1@, v2@),
        (Js::Array(v1), Js::Array(v2)) => js_sim_seq(v1@, v2@),
        (Js::Call(h1, v1), Js::Call(h2, v2)) => h1 == h2 && js_sim_seq(v1@, v2@),
        (Js::Param(x), Js::Param(y)) => x@ == y@,
        _ => false,
    }
}

/// Elementwise likeness of two expression sequences.
pub open spec fn js_sim_seq(x: Seq<Js>, y: Seq<Js>) -> bool
    decreases x,
{
    &&& x.len() == y.len()
    &&& (x.len() > 0 ==> js_sim_seq(x.drop_last(), y.drop_last()) && js_sim(x.last(), y.last()))
}

/// Pairwise likeness of two key/value sequences.
pub open spec fn js_sim_pairs(x: Seq<(Js, Js)>, y: Seq<(Js, Js)>) -> bool
    decreases x,
{
    &&& x.len() == y.len()
    &&& (x.len() > 0 ==> js_sim_pairs(x.drop_last(), y.drop_last()) && js_sim(
        x.last().0,
        y.last().0,
    ) && js_sim(x.last().1, y.last().1))
}

/// Likeness is reflexive.
pub proof fn lemma_js_sim_refl(a: Js)
    ensures
        js_sim(a, a),
    decreases a,
{
    match a {
        Js::Props(p) => lemma_js_sim_pairs_refl(p@),
        Js::Compound(v) => lemma_js_sim_seq_refl(v@),
        Js::Array(v) => lemma_js_sim_seq_refl(v@),
        Js::Call(_, v) => lemma_js_sim_seq_refl(v@),
        _ => (),
    }
}

proof fn lemma_js_sim_seq_refl(x: Seq<Js>)
    ensures
        js_sim_seq(x, x),
    decreases x,
{
    if x.len() > 0 {
        lemma_js_sim_seq_refl(x.drop_last());
        lemma_js_sim_refl(x.last());
    }
}

proof fn lemma_js_sim_pairs_refl(x: Seq<(Js, Js)>)
    ensures
        js_sim_pairs(x, x),
    decreases x,
{
    if x.len() > 0 {
        lemma_js_sim_pairs_refl(x.drop_last());
        lemma_js_sim_refl(x.last().0);
        lemma_js_sim_refl(x.last().1);
    }
}

impl Js {
    /// A structurally identical copy of the expression.
    #[verifier::loop_isolation(false)]
    pub fn clone_js(&self) -> (r: Js)
        ensures
            js_sim(r, *self),
        decreases *self,
    {
        match self {
            Js::Src(s) => Js::Src(s.clone()),
            Js::StrLit(s) => Js::StrLit(s.clone()),
            Js::Simple(s, l) => Js::Simple(s.clone(), *l),
            Js::Symbol(h) => Js::Symbol(*h),
            Js::Param(s) => Js::Param(s.clone()),
            Js::Props(ps) => {
                let mut out: Vec<(Js, Js)> = Vec::new();
                let mut i: usize = 0;
                while i < ps.len()
                    invariant
                        0 <= i <= ps@.len(),
                        js_sim_pairs(out@, ps@.subrange(0, i as int)),
                    decreases ps@.len() - i,
                {
                    proof {
                        assert((*self)->Props_0 == *ps);
                        assert(decreases_to!(*self => (*self)->Props_0));
                        assert(decreases_to!(*ps => ps@));
                        assert(decreases_to!(ps@ => ps@[i as int]));
                        assert(decreases_to!(ps@[i as int] => ps@[i as int].0));
                        assert(decreases_to!(ps@[i as int] => ps@[i as int].1));
                    }
                    let k = ps[i].0.clone_js();
                    let v = ps[i].1.clone_js();
                    let ghost out0 = out@;
                    out.push((k, v));
                    proof {
                        assert(ps@.subrange(0, i + 1).drop_last() =~= ps@.subrange(0, i as int));
                        assert(out@.drop_last() =~= out0);
                    }
                    i = i + 1;
                }
                proof {
                    assert(ps@.subrange(0, ps@.len() as int) =~= ps@);
                }
                Js::Props(out)
            },
            Js::Compound(v) => Js::Compound(clone_js_vec(v)),
            Js::Array(v) => Js::Array(clone_js_vec(v)),
            Js::Call(h, v) => Js::Call(*h, clone_js_vec(v)),
        }
    }
}

/// A structurally identical copy of each expression in the list.
#[verifier::loop_isolation(false)]
fn clone_js_vec(v: &Vec<Js>) -> (r: Vec<Js>)
    ensures
        js_sim_seq(r@, v@),
    decreases v@,
{
    let mut out: Vec<Js> = Vec::new();
    let mut i: usize = 0;
    while i < v.len()
        invariant
            0 <= i <= v@.len(),
            js_sim_seq(out@, v@.subrange(0, i as int)),
        decreases v@.len() - i,
    {
        proof {
            assert(decreases_to!(v@ => v@[i as int]));
        }
        let x = v[i].clone_js();
        let ghost out0 = out@;
        out.push(x);
        proof {
            assert(v@.subrange(0, i + 1).drop_last() =~= v@.subrange(0, i as int));
            assert(out@.drop_last() =~= out0);
        }
        i = i + 1;
    }
    proof {
        assert(v@.subrange(0, v@.len() as int) =~= v@);
    }
    out
}

/// `e` is the raw slice `t`.
pub open spec fn src_is(e: Js, t: Seq<char>) -> bool {
    e matches Js::Src(s) && s@ == t
}

/// `e` is the simple expression `t` at level `lv`.
pub open spec fn simple_is(e: Js, t: Seq<char>, lv: StaticLevel) -> bool {
    e matches Js::Simple(s, l) && s@ == t && l == lv
}

/// `e` is `<raw>.value`.
pub open spec fn dot_value_rel(e: Js, raw: Seq<char>, lv: StaticLevel) -> bool {
    e matches Js::Compound(v) && v@.len() == 2 && simple_is(v@[0], raw, lv) && src_is(
        v@[1],
        ".value"@,
    )
}

/// `e` is `unref(<raw>)`.
pub open spec fn unref_rel(e: Js, raw: Seq<char>, lv: StaticLevel) -> bool {
    e matches Js::Call(RuntimeHelper::Unref, a) && a@.len() == 1 && simple_is(a@[0], raw, lv)
}

/// `e` is `isRef(<raw>)`.
pub open spec fn isref_rel(e: Js, raw: Seq<char>, lv: StaticLevel) -> bool {
    e matches Js::Call(RuntimeHelper::IsRef, a) && a@.len() == 1 && simple_is(a@[0], raw, lv)
}

/// `e` is `<prefix><raw>` as a compound of the raw prefix and the name.
pub open spec fn prefix_rel(e: Js, prefix: Seq<char>, raw: Seq<char>, lv: StaticLevel) -> bool {
    e matches Js::Compound(v) && v@.len() == 2 && src_is(v@[0], prefix) && simple_is(v@[1], raw, lv)
}

/// The rewrite of a `SetupLet` binding for each write context: an
/// `isRef` ternary for writes, `unref` for reads, and the identifier
/// itself for a destructuring target (a documented limitation).
pub open spec fn setup_let_rel(ctx: CtxType, raw: Seq<char>, lv: StaticLevel, r: Js) -> bool {
    match ctx {
        CtxType::Assign(assign) => r matches Js::Compound(v) && v@.len() == 7 && isref_rel(
            v@[0],
            raw,
            lv,
        ) && src_is(v@[1], "? "@) && dot_value_rel(v@[2], raw, lv) && js_sim(v@[3], assign)
            && src_is(v@[4], ": "@) && simple_is(v@[5], raw, lv) && js_sim(v@[6], assign),
        CtxType::Update(is_pre, op) => r matches Js::Compound(v) && v@.len() == 7 && isref_rel(
            v@[0],
            raw,
            lv,
        ) && src_is(v@[1], "? "@) && src_is(v@[4], ": "@) && (if is_pre {
            js_sim(v@[2], op) && dot_value_rel(v@[3], raw, lv) && js_sim(v@[5], op) && simple_is(
                v@[6],
                raw,
                lv,
            )
        } else {
            dot_value_rel(v@[2], raw, lv) && js_sim(v@[3], op) && simple_is(v@[5], raw, lv)
                && js_sim(v@[6], op)
        }),
        CtxType::Destructure => simple_is(r, raw, lv),
        CtxType::NoWrite => unref_rel(r, raw, lv),
    }
}

/// The binding-rewrite table for a plain read of a classified binding.
pub open spec fn js_prop_rel(b: BindingTypes, raw: Seq<char>, lv: StaticLevel, r: Js) -> bool {
    match b {
        BindingTypes::SetupConst => simple_is(r, raw, lv),
        BindingTypes::SetupRef => dot_value_rel(r, raw, lv),
        BindingTypes::SetupMaybeRef => unref_rel(r, raw, lv),
        BindingTypes::SetupLet => unref_rel(r, raw, lv),
        BindingTypes::Props => prefix_rel(r, "__props."@, raw, lv),
        BindingTypes::Data => prefix_rel(r, "_ctx."@, raw, lv),
        BindingTypes::Options => prefix_rel(r, "_ctx."@, raw, lv),
    }
}

/// The binding-rewrite table under inline emission, which honours the
/// write context of the site.
pub open spec fn inline_rel(
    b: BindingTypes,
    raw: Seq<char>,
    lv: StaticLevel,
    ctx: CtxType,
    r: Js,
) -> bool {
    match b {
        BindingTypes::SetupConst => simple_is(r, raw, lv),
        BindingTypes::SetupRef => dot_value_rel(r, raw, lv),
        BindingTypes::SetupMaybeRef => if !(ctx matches CtxType::NoWrite) {
            dot_value_rel(r, raw, lv)
        } else {
            unref_rel(r, raw, lv)
        },
        BindingTypes::SetupLet => setup_let_rel(ctx, raw, lv, r),
        BindingTypes::Props => prefix_rel(r, "__props."@, raw, lv),
        BindingTypes::Data => prefix_rel(r, "_ctx."@, raw, lv),
        BindingTypes::Options => prefix_rel(r, "_ctx."@, raw, lv),
    }
}

/// The whole rewrite of one identifier: an unknown name becomes
/// `_ctx.<name>` at the lowest level; a classified name follows the
/// binding-rewrite table, honouring the write context when emitting
/// inline.
pub open spec fn rewrite_rel(
    entries: Seq<(String, BindingTypes)>,
    inline: bool,
    raw: Seq<char>,
    lv: StaticLevel,
    ctx: CtxType,
    r: Js,
) -> bool {
    match spec_binding_lookup(entries, raw) {
        None => r matches Js::Simple(s, l) && s@ == "_ctx."@ + raw && l == StaticLevel::NotStatic,
        Some(b) => if inline {
            inline_rel(b, raw, lv, ctx, r)
        } else {
            js_prop_rel(b, raw, lv, r)
        },
    }
}

/// `<raw>.value`.
fn dot_value(raw: String, level: StaticLevel) -> (r: Js)
    ensures
        dot_value_rel(r, raw@, level),
{
    let mut v: Vec<Js> = Vec::new();
    v.push(Js::Simple(raw, level));
    v.push(Js::Src(String::from_str(".value")));
    Js::Compound(v)
}

/// `<helper>(<raw>)` for a unary runtime-helper call.
fn helper_call(h: RuntimeHelper, raw: String, level: StaticLevel) -> (r: Js)
    ensures
        r matches Js::Call(h2, a) && h2 == h && a@.len() == 1 && simple_is(a@[0], raw@, level),
{
    let mut a: Vec<Js> = Vec::new();
    a.push(Js::Simple(raw, level));
    Js::Call(h, a)
}

/// The rewrite of a `SetupLet` binding: writes must go through the ref
/// when the value is one, so assignments and updates become an `isRef`
/// ternary; plain reads unwrap with `unref`; a destructuring target is
/// left as it is, a documented limitation.
pub fn rewrite_setup_let(raw: String, level: StaticLevel, ctx: CtxType) -> (r: Js)
    ensures
        setup_let_rel(ctx, raw@, level, r),
{
    match ctx {
        CtxType::Assign(assign) => {
            let assign_copy = assign.clone_js();
            let mut v: Vec<Js> = Vec::new();
            v.push(helper_call(RuntimeHelper::IsRef, raw.clone(), level));
            v.push(Js::Src(String::from_str("? ")));
            v.push(dot_value(raw.clone(), level));
            v.push(assign_copy);
            v.push(Js::Src(String::from_str(": ")));
            v.push(Js::Simple(raw, level));
            proof {
                lemma_js_sim_refl(assign);
            }
            v.push(assign);
            Js::Compound(v)
        },
        CtxType::Update(is_pre, op) => {
            let op_copy = op.clone_js();
            let mut v: Vec<Js> = Vec::new();
            v.push(helper_call(RuntimeHelper::IsRef, raw.clone(), level));
            v.push(Js::Src(String::from_str("? ")));
            if is_pre {
                v.push(op_copy);
                v.push(dot_value(raw.clone(), level));
            } else {
                v.push(dot_value(raw.clone(), level));
                v.push(op_copy);
            }
            v.push(Js::Src(String::from_str(": ")));
            proof {
                lemma_js_sim_refl(op);
            }
            if is_pre {
                v.push(op);
                v.push(Js::Simple(raw, level));
            } else {
                v.push(Js::Simple(raw, level));
                v.push(op);
            }
            Js::Compound(v)
        },
        CtxType::Destructure => Js::Simple(raw, level),
        CtxType::NoWrite => helper_call(RuntimeHelper::Unref, raw, level),
    }
}

/// The rewrite of a classified binding under inline emission.
pub fn rewrite_inline_identifier(
    raw: String,
    level: StaticLevel,
    bind: BindingTypes,
    ctx: CtxType,
) -> (r: Js)
    ensures
        inline_rel(bind, raw@, level, ctx, r),
{
    match bind {
        BindingTypes::SetupConst => Js::Simple(raw, level),
        BindingTypes::SetupRef => dot_value(raw, level),
        BindingTypes::SetupMaybeRef => {
            if matches!(ctx, CtxType::NoWrite) {
                helper_call(RuntimeHelper::Unref, raw, level)
            } else {
                dot_value(raw, level)
            }
        },
        BindingTypes::SetupLet => rewrite_setup_let(raw, level, ctx),
        BindingTypes::Props => {
            let mut v: Vec<Js> = Vec::new();
            v.push(Js::Src(String::from_str("__props.")));
            v.push(Js::Simple(raw, level));
            Js::Compound(v)
        },
        BindingTypes::Data | BindingTypes::Options => {
            let mut v: Vec<Js> = Vec::new();
            v.push(Js::Src(String::from_str("_ctx.")));
            v.push(Js::Simple(raw, level));
            Js::Compound(v)
        },
    }
}

impl BindingTypes {
    /// The rewrite of this binding kind for a plain read through the
    /// render context.
    pub fn get_js_prop(&self, raw: String, level: StaticLevel) -> (r: Js)
        ensures
            js_prop_rel(*self, raw@, level, r),
    {
        match self {
            BindingTypes::SetupConst => Js::Simple(raw, level),
            BindingTypes::SetupRef => dot_value(raw, level),
            BindingTypes::SetupMaybeRef | BindingTypes::SetupLet => helper_call(
                RuntimeHelper::Unref,
                raw,
                level,
            ),
            BindingTypes::Props => {
                let mut v: Vec<Js> = Vec::new();
                v.push(Js::Src(String::from_str("__props.")));
                v.push(Js::Simple(raw, level));
                Js::Compound(v)
            },
            BindingTypes::Data | BindingTypes::Options => {
                let mut v: Vec<Js> = Vec::new();
                v.push(Js::Src(String::from_str("_ctx.")));
                v.push(Js::Simple(raw, level));
                Js::Compound(v)
            },
        }
    }
}

/// A prefix of `a`'s characters equal to `p`.
pub open spec fn spec_starts_with(a: Seq<char>, p: Seq<char>) -> bool {
    a.len() >= p.len() && a.subrange(0, p.len() as int) == p
}

/// The text of a simple expression.
pub open spec fn simple_text(e: Js) -> Seq<char> {
    e->Simple_0@
}

/// Whether the expression is a resolved-asset lookup, which the
/// expression pass leaves alone: a simple expression named by the asset
/// convention.
pub open spec fn spec_is_hoisted_asset(e: Js) -> bool {
    e matches Js::Simple(s, _) && (spec_starts_with(s@, "_component_"@) || spec_starts_with(
        s@,
        "_directive_"@,
    ))
}

/// Whether the expression is a resolved-asset lookup.
pub fn is_hoisted_asset(e: &Js) -> (r: bool)
    ensures
        r == spec_is_hoisted_asset(*e),
{
    match e {
        Js::Simple(s, _) => str_starts_with(s.as_str(), "_component_") || str_starts_with(
            s.as_str(),
            "_directive_",
        ),
        _ => false,
    }
}

/// One genuine reference inside a complex expression: the name, its
/// byte span in the original text, and how the site writes to it.
pub struct Atom {
    pub name: String,
    pub start: usize,
    pub end: usize,
    pub ctx_type: CtxType,
}

/// The mathematical content of an atom list.
pub open spec fn atom_quads(v: Seq<Atom>) -> Seq<(Seq<char>, int, int, CtxType)> {
    Seq::new(v.len(), |i: int| (v[i].name@, v[i].start as int, v[i].end as int, v[i].ctx_type))
}

/// Every atom span is sound for `bytes`, and the spans are disjoint and
/// ascending.
pub open spec fn wf_quads(qs: Seq<(Seq<char>, int, int, CtxType)>, bytes: Seq<u8>) -> bool {
    &&& forall|i: int|
        0 <= i < qs.len() ==> span_ok(((#[trigger] qs[i]).0, qs[i].1, qs[i].2), bytes)
    &&& forall|i: int, j: int| 0 <= i < j < qs.len() ==> #[trigger] qs[i].2 <= #[trigger] qs[j].1
}

/// A reference survives the discard step: it is not an allow-listed
/// global, not `require`, and not among the identifiers in scope.
pub open spec fn keep_ref_v(name: Seq<char>, sc: Seq<Seq<char>>) -> bool {
    &&& !spec_is_global_allow_listed(name)
    &&& name != "require"@
    &&& !sc.contains(name)
}

/// A reference survives the discard step, against the scope itself.
pub open spec fn keep_ref(name: Seq<char>, scope: Scope) -> bool {
    keep_ref_v(name, scope.ids.deep_view())
}

/// The surviving references of a span list, in order, each tagged as a
/// plain read.
pub open spec fn spec_kept_v(spans: Seq<(Seq<char>, int, int)>, sc: Seq<Seq<char>>) -> Seq<
    (Seq<char>, int, int, CtxType),
>
    decreases spans.len(),
{
    if spans.len() == 0 {
        Seq::empty()
    } else {
        let rest = spec_kept_v(spans.drop_last(), sc);
        if keep_ref_v(spans.last().0, sc) {
            rest.push((spans.last().0, spans.last().1, spans.last().2, CtxType::NoWrite))
        } else {
            rest
        }
    }
}

/// The surviving references, against the scope itself.
pub open spec fn spec_kept(spans: Seq<(Seq<char>, int, int)>, scope: Scope) -> Seq<
    (Seq<char>, int, int, CtxType),
> {
    spec_kept_v(spans, scope.ids.deep_view())
}

/// Surviving references of a sound span list are sound, disjoint and
/// ascending, and each comes from the list.
pub proof fn lemma_kept_wf(spans: Seq<(Seq<char>, int, int)>, scope: Scope, bytes: Seq<u8>)
    requires
        wf_spans(spans, bytes),
    ensures
        wf_quads(spec_kept(spans, scope), bytes),
        forall|i: int|
            0 <= i < spec_kept(spans, scope).len() ==> exists|m: int|
                0 <= m < spans.len() && #[trigger] spec_kept(spans, scope)[i] == (
                spans[m].0,
                spans[m].1,
                spans[m].2,
                CtxType::NoWrite,
                ),
    decreases spans.len(),
{
    if spans.len() > 0 {
        let pre = spans.drop_last();
        assert(wf_spans(pre, bytes)) by {
            assert(forall|i: int| 0 <= i < pre.len() ==> pre[i] == spans[i]);
        }
        lemma_kept_wf(pre, scope, bytes);
        let kpre = spec_kept(pre, scope);
        let k = spec_kept(spans, scope);
        if keep_ref(spans.last().0, scope) {
            let lastq = (spans.last().0, spans.last().1, spans.last().2, CtxType::NoWrite);
            assert(k == kpre.push(lastq));
            assert(span_ok((lastq.0, lastq.1, lastq.2), bytes));
            assert forall|i: int, j: int| 0 <= i < j < k.len() implies #[trigger] k[i].2
                <= #[trigger] k[j].1 by {
                if j == k.len() - 1 {
                    let m = choose|m: int|
                        0 <= m < pre.len() && kpre[i] == (
                        pre[m].0,
                        pre[m].1,
                        pre[m].2,
                        CtxType::NoWrite,
                        );
                    assert(spans[m] == pre[m]);
                    assert(spans[m].2 <= spans[spans.len() - 1].1);
                }
            }
        }
    }
}

/// One step of the rebuilt expression: the parts for the given
/// references are, for each reference in order, the raw slice since the
/// previous reference (when non-empty) followed by its rewrite.
pub open spec fn reunite_prefix(
    entries: Seq<(String, BindingTypes)>,
    inline: bool,
    bytes: Seq<u8>,
    qs: Seq<(Seq<char>, int, int, CtxType)>,
    parts: Seq<Js>,
) -> bool
    decreases qs.len(),
{
    if qs.len() == 0 {
        parts.len() == 0
    } else {
        let a = qs.last();
        let prev_end: int = if qs.len() >= 2 {
            qs[qs.len() - 2].2
        } else {
            0
        };
        if prev_end < a.1 {
            &&& parts.len() >= 2
            &&& reunite_prefix(
                entries,
                inline,
                bytes,
                qs.drop_last(),
                parts.subrange(0, parts.len() - 2),
            )
            &&& src_is(parts[parts.len() - 2], slice_chars(bytes, prev_end, a.1))
            &&& rewrite_rel(entries, inline, a.0, StaticLevel::NotStatic, a.3, parts.last())
        } else {
            &&& parts.len() >= 1
            &&& reunite_prefix(entries, inline, bytes, qs.drop_last(), parts.drop_last())
            &&& rewrite_rel(entries, inline, a.0, StaticLevel::NotStatic, a.3, parts.last())
        }
    }
}

/// The whole rebuilt expression: the parts for all references, then the
/// raw tail after the last reference when non-empty.
pub open spec fn reunited(
    entries: Seq<(String, BindingTypes)>,
    inline: bool,
    bytes: Seq<u8>,
    qs: Seq<(Seq<char>, int, int, CtxType)>,
    r: Js,
) -> bool {
    let last_end: int = if qs.len() > 0 {
        qs.last().2
    } else {
        0
    };
    &&& r matches Js::Compound(parts)
    &&& if last_end < bytes.len() {
        &&& parts@.len() >= 1
        &&& reunite_prefix(entries, inline, bytes, qs, parts@.drop_last())
        &&& src_is(parts@.last(), slice_chars(bytes, last_end, bytes.len() as int))
    } else {
        reunite_prefix(entries, inline, bytes, qs, parts@)
    }
}

/// The fast path's outcome for a bare identifier: in scope it stays
/// exactly as it was; an allow-listed global or literal keyword keeps
/// its text and moves to the level it can be optimized at; anything
/// else is a genuine binding reference and follows the rewrite table,
/// relaxed to `CanSkipPatch` for a constant setup binding.
pub open spec fn fast_rel_v(
    entries: Seq<(String, BindingTypes)>,
    inline: bool,
    old_e: Js,
    sc: Seq<Seq<char>>,
    r: Js,
) -> bool {
    match old_e {
        Js::Simple(v, level) => {
            if sc.contains(v@) {
                r == old_e
            } else if spec_is_global_allow_listed(v@) || spec_is_literal_keyword(v@) {
                r matches Js::Simple(s, l) && s == v && l == (if spec_is_literal_keyword(v@) {
                    StaticLevel::CanStringify
                } else {
                    StaticLevel::CanHoist
                })
            } else {
                let lv = if spec_binding_lookup(entries, v@) == Some(BindingTypes::SetupConst) {
                    StaticLevel::CanSkipPatch
                } else {
                    level
                };
                rewrite_rel(entries, inline, v@, lv, CtxType::NoWrite, r)
            }
        },
        _ => false,
    }
}

/// The fast path's outcome, stated against the scope itself.
pub open spec fn fast_rel(
    entries: Seq<(String, BindingTypes)>,
    inline: bool,
    old_e: Js,
    scope: Scope,
    r: Js,
) -> bool {
    fast_rel_v(entries, inline, old_e, scope.ids.deep_view(), r)
}

/// The whole effect of processing one expression on the expression
/// itself, as a function of the options and the identifiers in scope:
/// the no-op cases, the fast path for a bare identifier, and the
/// parse-and-rebuild slow path.
pub open spec fn processed_rel(cfg: TransformOption, e0: Js, e1: Js, sc: Seq<Seq<char>>) -> bool {
    &&& (!cfg.prefix_identifier ==> e1 == e0)
    &&& (spec_is_hoisted_asset(e0) ==> e1 == e0)
    &&& (!(e0 is Simple) ==> e1 == e0)
    &&& (cfg.prefix_identifier && !spec_is_hoisted_asset(e0) && e0 is Simple
        && spec_is_simple_identifier(simple_text(e0)) ==> fast_rel_v(
        cfg.binding_metadata.entries@,
        cfg.inline,
        e0,
        sc,
        e1,
    ))
    &&& (cfg.prefix_identifier && !spec_is_hoisted_asset(e0) && e0 is Simple
        && !spec_is_simple_identifier(simple_text(e0)) && (!is_ascii_chars(simple_text(e0))
        || js_name_refs(simple_text(e0)) is None) ==> e1 == e0)
    &&& (cfg.prefix_identifier && !spec_is_hoisted_asset(e0) && e0 is Simple
        && !spec_is_simple_identifier(simple_text(e0)) && is_ascii_chars(simple_text(e0))
        && js_name_refs(simple_text(e0)) is Some ==> reunited(
        cfg.binding_metadata.entries@,
        cfg.inline,
        vstd::utf8::encode_utf8(simple_text(e0)),
        spec_kept_v(js_name_refs(simple_text(e0)).unwrap(), sc),
        e1,
    ))
}

/// The pass in scope: tracks template-introduced identifiers through
/// the parameter hooks and rewrites embedded expressions bottom-up
/// against the binding table. Expression texts that fail to parse are
/// collected as the compilation's diagnostics.
pub struct ExpressionProcessor {
    pub option: TransformOption,
    pub errors: Vec<String>,
}

impl ExpressionProcessor {
    /// A processor for the given options, with no diagnostics yet.
    pub fn new(option: TransformOption) -> (r: ExpressionProcessor)
        ensures
            r.option == option,
            r.errors@.len() == 0,
    {
        ExpressionProcessor { option, errors: Vec::new() }
    }

    /// Rewrite one identifier against its recorded binding origin: an
    /// unknown name is reached through the render context as
    /// `_ctx.<name>`; a classified name follows the binding-rewrite
    /// table, which honours the write context when emitting inline.
    pub fn rewrite_identifier(&self, raw: String, level: StaticLevel, ctx: CtxType) -> (r: Js)
        ensures
            rewrite_rel(
                self.option.binding_metadata.entries@,
                self.option.inline,
                raw@,
                level,
                ctx,
                r,
            ),
    {
        match self.option.binding_metadata.get(raw.as_str()) {
            Some(bind) => {
                if self.option.inline {
                    rewrite_inline_identifier(raw, level, bind, ctx)
                } else {
                    bind.get_js_prop(raw, level)
                }
            },
            None => {
                let mut s = String::from_str("_ctx.");
                s.append(raw.as_str());
                Js::simple(s)
            },
        }
    }

    /// Break a complex expression into its surviving value references:
    /// `None` when the text is not ASCII (the parse is relied on for
    /// ASCII text only) or does not parse as one JS expression, else
    /// the references that are neither allow-listed globals, `require`,
    /// nor bound in scope, ascending by start offset and tagged as
    /// plain reads.
    #[verifier::loop_isolation(false)]
    pub fn break_down_complex_expression(&self, raw: &str, scope: &Scope) -> (r: Option<Vec<Atom>>)
        ensures
            r is Some <==> raw.is_ascii() && js_name_refs(raw@) is Some,
            r matches Some(atoms) ==> atom_quads(atoms@) == spec_kept(
                js_name_refs(raw@).unwrap(),
                *scope,
            ),
            r matches Some(atoms) ==> wf_quads(atom_quads(atoms@), raw.spec_bytes()),
    {
        if !raw.is_ascii() {
            return None;
        }
        match parse_name_refs(raw) {
            None => None,
            Some(spans) => {
                let ghost vs = crate::rslint::span_views(spans@);
                let mut atoms: Vec<Atom> = Vec::new();
                let mut i: usize = 0;
                while i < spans.len()
                    invariant
                        0 <= i <= vs.len(),
                        spans@.len() == vs.len(),
                        forall|j: int|
                            0 <= j < vs.len() ==> ((#[trigger] spans@[j]).name@, spans@[j].start as int, spans@[j].end as int) == vs[j],
                        atom_quads(atoms@) == spec_kept(vs.subrange(0, i as int), *scope),
                    decreases vs.len() - i,
                {
                    let keep = !is_global_allow_listed(spans[i].name.as_str()) && !str_eq(
                        spans[i].name.as_str(),
                        "require",
                    ) && !scope.has_identifier(spans[i].name.as_str());
                    let ghost atoms0 = atom_quads(atoms@);
                    if keep {
                        let name = spans[i].name.clone();
                        let start = spans[i].start;
                        let end = spans[i].end;
                        atoms.push(Atom { name, start, end, ctx_type: CtxType::NoWrite });
                        proof {
                            assert(atom_quads(atoms@) =~= atoms0.push(
                                (vs[i as int].0, vs[i as int].1, vs[i as int].2, CtxType::NoWrite),
                            ));
                        }
                    }
                    proof {
                        assert(vs.subrange(0, i + 1).drop_last() =~= vs.subrange(0, i as int));
                        assert(vs.subrange(0, i + 1).last() == vs[i as int]);
                        assert(atom_quads(atoms@) =~= spec_kept(vs.subrange(0, i + 1), *scope));
                    }
                    i = i + 1;
                }
                proof {
                    assert(vs.subrange(0, vs.len() as int) =~= vs);
                    lemma_kept_wf(vs, *scope, raw.spec_bytes());
                }
                Some(atoms)
            },
        }
    }

    /// Rebuild a broken-down expression: raw slices of the original
    /// text interleaved, in source order, with the rewritten surviving
    /// references.
    #[verifier::loop_isolation(false)]
    #[verifier::rlimit(60)]
    pub fn reunite_atoms(&self, raw: &str, atoms: Vec<Atom>) -> (r: Js)
        requires
            wf_quads(atom_quads(atoms@), raw.spec_bytes()),
        ensures
            reunited(
                self.option.binding_metadata.entries@,
                self.option.inline,
                raw.spec_bytes(),
                atom_quads(atoms@),
                r,
            ),
    {
        let ghost qs0 = atom_quads(atoms@);
        let ghost entries = self.option.binding_metadata.entries@;
        let ghost inline = self.option.inline;
        proof {
            encode_utf8_valid_utf8(raw@);
            is_char_boundary_start_end_of_seq(raw.spec_bytes());
        }
        let nbytes = raw.as_bytes().len();
        let mut atoms = atoms;
        let mut inner: Vec<Js> = Vec::new();
        let mut last: usize = 0;
        let mut i: usize = 0;
        while i < atoms.len()
            invariant
                0 <= i <= qs0.len(),
                atoms@.len() == qs0.len(),
                forall|j: int| i <= j < qs0.len() ==> atom_quads(atoms@)[j] == qs0[j],
                last as int == (if i > 0 {
                    qs0[i - 1].2
                } else {
                    0
                }),
                reunite_prefix(entries, inline, raw.spec_bytes(), qs0.subrange(0, i as int), inner@),
            decreases qs0.len() - i,
        {
            let Atom { name, start, end, ctx_type } = atoms.remove(i);
            atoms.insert(i, Atom { name: String::new(), start, end, ctx_type: CtxType::NoWrite });
            let ghost inner0 = inner@;
            proof {
                assert((name@, start as int, end as int, ctx_type) == qs0[i as int]);
                assert(span_ok((qs0[i as int].0, qs0[i as int].1, qs0[i as int].2), raw.spec_bytes()));
                if i > 0 {
                    assert(span_ok(
                        (qs0[i - 1].0, qs0[i - 1].1, qs0[i - 1].2),
                        raw.spec_bytes(),
                    ));
                    assert(qs0[i - 1].2 <= qs0[i as int].1);
                }
            }
            if last < start {
                let gap = substr_by_bytes(raw, last, start);
                inner.push(Js::Src(gap));
            }
            let rewritten = self.rewrite_identifier(name, StaticLevel::NotStatic, ctx_type);
            inner.push(rewritten);
            proof {
                assert(qs0.subrange(0, i + 1).drop_last() =~= qs0.subrange(0, i as int));
                assert(qs0.subrange(0, i + 1).last() == qs0[i as int]);
                if last < start {
                    assert(inner@.subrange(0, inner@.len() - 2) =~= inner0);
                } else {
                    assert(inner@.drop_last() =~= inner0);
                }
                assert(reunite_prefix(
                    entries,
                    inline,
                    raw.spec_bytes(),
                    qs0.subrange(0, i + 1),
                    inner@,
                ));
            }
            last = end;
            i = i + 1;
        }
        proof {
            assert(qs0.subrange(0, qs0.len() as int) =~= qs0);
            assert(reunite_prefix(entries, inline, raw.spec_bytes(), qs0, inner@));
        }
        let ghost inner1 = inner@;
        proof {
            encode_utf8_valid_utf8(raw@);
            is_char_boundary_start_end_of_seq(raw.spec_bytes());
            if qs0.len() > 0 {
                assert(span_ok(
                    (qs0[qs0.len() - 1].0, qs0[qs0.len() - 1].1, qs0[qs0.len() - 1].2),
                    raw.spec_bytes(),
                ));
            }
        }
        if last < nbytes {
            let tail = substr_by_bytes(raw, last, nbytes);
            inner.push(Js::Src(tail));
            proof {
                assert(inner@.drop_last() =~= inner1);
                assert(src_is(
                    inner@.last(),
                    slice_chars(raw.spec_bytes(), last as int, raw.spec_bytes().len() as int),
                ));
            }
        }
        Js::Compound(inner)
    }

    /// The fast path: classify and rewrite a bare identifier without
    /// parsing JS. Leaves any other expression alone and says so.
    pub fn process_expr_fast(&self, e: &mut Js, scope: &Scope) -> (r: bool)
        ensures
            r == (*old(e) is Simple && spec_is_simple_identifier(simple_text(*old(e)))),
            r ==> fast_rel(
                self.option.binding_metadata.entries@,
                self.option.inline,
                *old(e),
                *scope,
                *final(e),
            ),
            !r ==> *final(e) == *old(e),
    {
        let mut tmp = Js::Src(String::new());
        core::mem::swap(e, &mut tmp);
        let (res, hit) = self.fast_core(tmp, scope);
        let mut res = res;
        core::mem::swap(e, &mut res);
        hit
    }

    fn fast_core(&self, e: Js, scope: &Scope) -> (r: (Js, bool))
        ensures
            r.1 == (e is Simple && spec_is_simple_identifier(simple_text(e))),
            r.1 ==> fast_rel(
                self.option.binding_metadata.entries@,
                self.option.inline,
                e,
                *scope,
                r.0,
            ),
            !r.1 ==> r.0 == e,
    {
        match e {
            Js::Simple(v, level) => {
                if !is_simple_identifier(v.as_str()) {
                    return (Js::Simple(v, level), false);
                }
                let in_scope = scope.has_identifier(v.as_str());
                let allowed = is_global_allow_listed(v.as_str());
                let lit = is_literal_keyword(v.as_str());
                if !in_scope && !allowed && !lit {
                    // a constant setup binding can skip patching but
                    // cannot be hoisted
                    let lvl = match self.option.binding_metadata.get(v.as_str()) {
                        Some(BindingTypes::SetupConst) => StaticLevel::CanSkipPatch,
                        _ => level,
                    };
                    (self.rewrite_identifier(v, lvl, CtxType::NoWrite), true)
                } else if !in_scope {
                    let nl = if lit {
                        StaticLevel::CanStringify
                    } else {
                        StaticLevel::CanHoist
                    };
                    (Js::Simple(v, nl), true)
                } else {
                    (Js::Simple(v, level), true)
                }
            },
            other => (other, false),
        }
    }

    /// The slow path: parse the text as JS, discard allow-listed,
    /// `require` and in-scope references, and rebuild the expression
    /// with the survivors rewritten. A text that is not ASCII or does
    /// not parse is recorded as a diagnostic and left as it is.
    pub fn process_with_js_parser(&mut self, e: &mut Js, scope: &Scope)
        ensures
            final(self).option == old(self).option,
            !(*old(e) is Simple) ==> *final(e) == *old(e) && final(self).errors@ == old(self).errors@,
            *old(e) is Simple && (!is_ascii_chars(simple_text(*old(e))) || js_name_refs(
                simple_text(*old(e)),
            ) is None) ==> *final(e) == *old(e) && final(self).errors.deep_view() == old(self).errors.deep_view().push(simple_text(*old(e))),
            *old(e) is Simple && is_ascii_chars(simple_text(*old(e))) && js_name_refs(
                simple_text(*old(e)),
            ) is Some ==> final(self).errors@ == old(self).errors@ && reunited(
                old(self).option.binding_metadata.entries@,
                old(self).option.inline,
                vstd::utf8::encode_utf8(simple_text(*old(e))),
                spec_kept(js_name_refs(simple_text(*old(e))).unwrap(), *scope),
                *final(e),
            ),
    {
        let mut tmp = Js::Src(String::new());
        core::mem::swap(e, &mut tmp);
        let res = self.slow_core(tmp, scope);
        let mut res = res;
        core::mem::swap(e, &mut res);
    }

    fn slow_core(&mut self, e: Js, scope: &Scope) -> (r: Js)
        ensures
            final(self).option == old(self).option,
            !(e is Simple) ==> r == e && final(self).errors@ == old(self).errors@,
            e is Simple && (!is_ascii_chars(simple_text(e)) || js_name_refs(simple_text(e))
                is None) ==> r == e && final(self).errors.deep_view() == old(self).errors.deep_view().push(simple_text(e)),
            e is Simple && is_ascii_chars(simple_text(e)) && js_name_refs(simple_text(e))
                is Some ==> final(self).errors@ == old(self).errors@ && reunited(
                old(self).option.binding_metadata.entries@,
                old(self).option.inline,
                vstd::utf8::encode_utf8(simple_text(e)),
                spec_kept(js_name_refs(simple_text(e)).unwrap(), *scope),
                r,
            ),
    {
        match e {
            Js::Simple(raw, level) => {
                match self.break_down_complex_expression(raw.as_str(), scope) {
                    Some(atoms) => {
                        let r = self.reunite_atoms(raw.as_str(), atoms);
                        r
                    },
                    None => {
                        // surfaced diagnostic: the offending text
                        let ghost errs0 = self.errors.deep_view();
                        self.errors.push(raw.clone());
                        proof {
                            assert(self.errors.deep_view() =~= errs0.push(raw@));
                        }
                        Js::Simple(raw, level)
                    },
                }
            },
            other => other,
        }
    }

    /// Process one expression bottom-up: a no-op unless identifier
    /// rewriting is enabled, for resolved-asset lookups, and for
    /// structural expressions (their parts were already processed); a
    /// bare identifier goes through the fast path, anything else
    /// through the JS parser.
    pub fn process_expression(&mut self, e: &mut Js, scope: &Scope)
        ensures
            final(self).option == old(self).option,
            !old(self).option.prefix_identifier ==> *final(e) == *old(e) && final(self).errors@
                == old(self).errors@,
            spec_is_hoisted_asset(*old(e)) ==> *final(e) == *old(e) && final(self).errors@ == old(self).errors@,
            !(*old(e) is Simple) ==> *final(e) == *old(e) && final(self).errors@ == old(self).errors@,
            old(self).option.prefix_identifier && !spec_is_hoisted_asset(*old(e)) && *old(e)
                is Simple && spec_is_simple_identifier(simple_text(*old(e))) ==> fast_rel(
                old(self).option.binding_metadata.entries@,
                old(self).option.inline,
                *old(e),
                *scope,
                *final(e),
            ) && final(self).errors@ == old(self).errors@,
            old(self).option.prefix_identifier && !spec_is_hoisted_asset(*old(e)) && *old(e)
                is Simple && !spec_is_simple_identifier(simple_text(*old(e))) && (!is_ascii_chars(
                simple_text(*old(e)),
            ) || js_name_refs(simple_text(*old(e))) is None) ==> *final(e) == *old(e) && final(self).errors.deep_view() == old(self).errors.deep_view().push(simple_text(*old(e))),
            old(self).option.prefix_identifier && !spec_is_hoisted_asset(*old(e)) && *old(e)
                is Simple && !spec_is_simple_identifier(simple_text(*old(e))) && is_ascii_chars(
                simple_text(*old(e)),
            ) && js_name_refs(simple_text(*old(e))) is Some ==> final(self).errors@ == old(self).errors@ && reunited(
                old(self).option.binding_metadata.entries@,
                old(self).option.inline,
                vstd::utf8::encode_utf8(simple_text(*old(e))),
                spec_kept(js_name_refs(simple_text(*old(e))).unwrap(), *scope),
                *final(e),
            ),
    {
        if !self.option.prefix_identifier {
            return ;
        }
        // resolved assets are reached through their own declarations
        if is_hoisted_asset(e) {
            return ;
        }
        // structural expressions were already rewritten bottom-up
        // through their parts
        let simple = matches!(&*e, Js::Simple(..));
        if !simple {
            return ;
        }
        if self.process_expr_fast(e, scope) {
            return ;
        }
        self.process_with_js_parser(e, scope);
    }
}

/// The parameter names declared by a broken-down parameter pattern.
#[verifier::loop_isolation(false)]
pub fn only_param_ids(ids: &Vec<Js>) -> (r: Vec<String>)
    requires
        forall|i: int| 0 <= i < ids@.len() ==> legal_param_piece(#[trigger] ids@[i]),
    ensures
        r.deep_view() == spec_param_ids(ids@),
{
    let mut out: Vec<String> = Vec::new();
    let mut i: usize = 0;
    while i < ids.len()
        invariant
            0 <= i <= ids@.len(),
            out.deep_view() == spec_param_ids(ids@.subrange(0, i as int)),
        decreases ids@.len() - i,
    {
        let ghost out0 = out.deep_view();
        match &ids[i] {
            Js::Param(p) => {
                out.push(p.clone());
                proof {
                    assert(out.deep_view() =~= out0.push(ids@[i as int]->Param_0@));
                }
            },
            Js::Src(_) => (),
            Js::Simple(_, _) => (),
            _ => {
                proof {
                    assert(false);
                }
            },
        }
        proof {
            assert(ids@.subrange(0, i + 1).drop_last() =~= ids@.subrange(0, i as int));
            assert(ids@.subrange(0, i + 1).last() == ids@[i as int]);
            assert(out.deep_view() =~= spec_param_ids(ids@.subrange(0, i + 1)));
        }
        i = i + 1;
    }
    proof {
        assert(ids@.subrange(0, ids@.len() as int) =~= ids@);
    }
    out
}

/// Patch one declared parameter before registration. A bare name needs
/// nothing; breaking down patterns and default values happens before
/// the pass sees the parameter, so only bare names reach it.
pub fn process_fn_param(p: &mut Js)
    requires
        *old(p) matches Js::Param(n) && spec_is_simple_identifier(n@),
    ensures
        *final(p) == *old(p),
{
    match &*p {
        Js::Param(n) => {
            if !is_simple_identifier(n.as_str()) {
                proof {
                    assert(false);
                }
            }
        },
        _ => {
            proof {
                assert(false);
            }
        },
    }
}

impl CorePassExt for ExpressionProcessor {
    type Config = TransformOption;

    /// The options the pass was built with.
    open spec fn config(&self) -> TransformOption {
        self.option
    }

    /// The pass's expression relation is exactly what processing one
    /// expression does to it.
    open spec fn expr_rel(cfg: TransformOption, e0: Js, e1: Js, sc: Seq<Seq<char>>) -> bool {
        processed_rel(cfg, e0, e1, sc)
    }

    /// Register the parameter's identifiers, in declaration order, as
    /// the walker enters the construct declaring them.
    #[verifier::loop_isolation(false)]
    fn enter_fn_param(&mut self, p: &mut Js, shared: &mut Scope) {
        match &*p {
            Js::Param(_) => {
                process_fn_param(p);
                if let Js::Param(id) = &*p {
                    shared.add_identifier(id.as_str());
                    proof {
                        assert(shared.ids.deep_view() =~= old(shared).ids.deep_view()
                            + spec_fn_param_ids(*old(p)));
                    }
                }
            },
            Js::Compound(_) => {
                if let Js::Compound(ids) = &*p {
                    let names = only_param_ids(ids);
                    let ghost ndv = names.deep_view();
                    let mut i: usize = 0;
                    while i < names.len()
                        invariant
                            0 <= i <= ndv.len(),
                            names.deep_view() == ndv,
                            shared.ids.deep_view() == old(shared).ids.deep_view() + ndv.subrange(
                                0,
                                i as int,
                            ),
                        decreases ndv.len() - i,
                    {
                        shared.add_identifier(names[i].as_str());
                        proof {
                            assert(ndv.subrange(0, i + 1).drop_last() =~= ndv.subrange(
                                0,
                                i as int,
                            ));
                            assert(ndv.subrange(0, i + 1).last() == ndv[i as int]);
                            assert(shared.ids.deep_view() =~= old(shared).ids.deep_view()
                                + ndv.subrange(0, i + 1));
                        }
                        i = i + 1;
                    }
                    proof {
                        assert(ndv.subrange(0, ndv.len() as int) =~= ndv);
                    }
                }
            },
            _ => {
                proof {
                    assert(false);
                }
            },
        }
    }

    /// Remove the same identifiers as the walker leaves the construct,
    /// most recent registration first.
    #[verifier::loop_isolation(false)]
    fn exit_fn_param(&mut self, p: &mut Js, shared: &mut Scope) {
        match &*p {
            Js::Param(_) => {
                if let Js::Param(id) = &*p {
                    shared.remove_identifier(id.as_str());
                    proof {
                        let ids = spec_fn_param_ids(*old(p));
                        assert(ids =~= seq![id@]);
                        assert(ids.last() == id@);
                        assert(ids.drop_last() =~= Seq::<Seq<char>>::empty());
                        assert(spec_unwind_ids(
                            spec_remove_last(old(shared).ids.deep_view(), id@),
                            Seq::<Seq<char>>::empty(),
                        ) == spec_remove_last(old(shared).ids.deep_view(), id@));
                        assert(spec_unwind_ids(old(shared).ids.deep_view(), ids)
                            == spec_remove_last(old(shared).ids.deep_view(), id@));
                    }
                }
            },
            Js::Compound(_) => {
                if let Js::Compound(ids) = &*p {
                    let names = only_param_ids(ids);
                    let ghost ndv = names.deep_view();
                    proof {
                        assert(ndv.subrange(0, ndv.len() as int) =~= ndv);
                    }
                    let mut i: usize = names.len();
                    while i > 0
                        invariant
                            0 <= i <= ndv.len(),
                            names.deep_view() == ndv,
                            spec_unwind_ids(old(shared).ids.deep_view(), ndv) == spec_unwind_ids(
                                shared.ids.deep_view(),
                                ndv.subrange(0, i as int),
                            ),
                        decreases i,
                    {
                        i = i - 1;
                        let ghost before = shared.ids.deep_view();
                        shared.remove_identifier(names[i].as_str());
                        proof {
                            assert(ndv.subrange(0, i + 1).last() == ndv[i as int]);
                            assert(ndv.subrange(0, i + 1).drop_last() =~= ndv.subrange(
                                0,
                                i as int,
                            ));
                            assert(spec_unwind_ids(before, ndv.subrange(0, i + 1))
                                == spec_unwind_ids(shared.ids.deep_view(), ndv.subrange(
                                0,
                                i as int,
                            )));
                        }
                    }
                }
            },
            _ => {
                proof {
                    assert(false);
                }
            },
        }
    }

    /// Nothing happens on entering an expression: rewriting is
    /// strictly bottom-up, and only parameter hooks touch the scope.
    fn enter_js_expr(&mut self, e: &Js, shared: &mut Scope) {
    }

    /// Process the expression once all its parts have been processed;
    /// the scope is read, never changed.
    fn exit_js_expr(&mut self, e: &mut Js, shared: &mut Scope) {
        let ghost e0 = *e;
        let ghost cfg = self.option;
        let scope: &Scope = shared;
        self.process_expression(e, scope);
        proof {
            assert(processed_rel(cfg, e0, *e, old(shared).ids.deep_view()));
        }
    }
}

/// Law: an identifier bound in the template scope passes through the
/// fast path exactly as it was — its text and its level are unchanged,
/// so its level could only move if the name were also allow-listed or a
/// literal keyword.
pub proof fn lemma_scope_reference_untouched(
    entries: Seq<(String, BindingTypes)>,
    inline: bool,
    e: Js,
    scope: Scope,
    r: Js,
)
    requires
        e matches Js::Simple(v, _) && spec_is_simple_identifier(v@) && scope.spec_has(v@),
        fast_rel(entries, inline, e, scope, r),
    ensures
        r == e,
{
}

/// Law: an allow-listed global or literal keyword that is not in
/// scope keeps its text, and its level lands strictly above the
/// non-static rank: a literal keyword can be stringified, another
/// global can be hoisted.
pub proof fn lemma_global_literal_level(
    entries: Seq<(String, BindingTypes)>,
    inline: bool,
    e: Js,
    scope: Scope,
    r: Js,
)
    requires
        e matches Js::Simple(v, _) && spec_is_simple_identifier(v@) && !scope.spec_has(v@) && (
        spec_is_global_allow_listed(v@) || spec_is_literal_keyword(v@)),
        fast_rel(entries, inline, e, scope, r),
    ensures
        e matches Js::Simple(v, _) ==> r matches Js::Simple(s, l) && s@ == v@ && level_rank(l)
            > level_rank(StaticLevel::NotStatic),
{
}

/// Law: a bare identifier that is not in scope, not allow-listed and
/// not a literal keyword is rewritten exactly by the binding-rewrite
/// table, at the level relaxed to `CanSkipPatch` for a constant setup
/// binding.
pub proof fn lemma_binding_rewrite_table(
    entries: Seq<(String, BindingTypes)>,
    inline: bool,
    e: Js,
    scope: Scope,
    r: Js,
)
    requires
        e matches Js::Simple(v, _) && spec_is_simple_identifier(v@) && !scope.spec_has(v@)
            && !spec_is_global_allow_listed(v@) && !spec_is_literal_keyword(v@),
        fast_rel(entries, inline, e, scope, r),
    ensures
        e matches Js::Simple(v, level) ==> rewrite_rel(
            entries,
            inline,
            v@,
            if spec_binding_lookup(entries, v@) == Some(BindingTypes::SetupConst) {
                StaticLevel::CanSkipPatch
            } else {
                level
            },
            CtxType::NoWrite,
            r,
        ),
{
}

} // verus!

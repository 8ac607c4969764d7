use crate::flags::BindingTypes;
use crate::ir::{
    legal_fn_param, wf_ir, wf_ir_seq, wf_slot, wf_slots, wf_branches, lemma_wf_ir_seq_index,
    spec_fn_param_ids, ForNodeIR, ForParseResult, IRNode, IRRoot, IfBranch, IfNodeIR, Js,
    RenderSlotIR, Slot, TextIR, VNodeIR, VSlotIR,
};
use crate::util::str_eq;
use vstd::prelude::*;

verus! {

/// The identifiers a template construct has brought into scope at the
/// current point of the walk, innermost last.
pub struct Scope {
    pub ids: Vec<String>,
}

/// Removing the last occurrence of `x` from `s`; `s` itself when `x`
/// does not occur.
pub open spec fn spec_remove_last(s: Seq<Seq<char>>, x: Seq<char>) -> Seq<Seq<char>>
    decreases s.len(),
{
    if s.len() == 0 {
        s
    } else if s.last() == x {
        s.drop_last()
    } else {
        spec_remove_last(s.drop_last(), x).push(s.last())
    }
}

proof fn lemma_remove_last_absent(s: Seq<Seq<char>>, x: Seq<char>)
    requires
        forall|j: int| 0 <= j < s.len() ==> s[j] != x,
    ensures
        spec_remove_last(s, x) == s,
    decreases s.len(),
{
    if s.len() > 0 {
        lemma_remove_last_absent(s.drop_last(), x);
        assert(spec_remove_last(s, x) =~= s);
    }
}

proof fn lemma_remove_last_at(s: Seq<Seq<char>>, x: Seq<char>, k: int)
    requires
        0 <= k < s.len(),
        s[k] == x,
        forall|j: int| k < j < s.len() ==> s[j] != x,
    ensures
        spec_remove_last(s, x) == s.remove(k),
    decreases s.len(),
{
    if k == s.len() - 1 {
        assert(spec_remove_last(s, x) =~= s.remove(k));
    } else {
        lemma_remove_last_at(s.drop_last(), x, k);
        assert(spec_remove_last(s, x) =~= s.remove(k));
    }
}

/// Unwinding a parameter registration: the declared identifiers leave
/// scope most recent first, each by removing its last registration.
pub open spec fn spec_unwind_ids(s: Seq<Seq<char>>, ids: Seq<Seq<char>>) -> Seq<Seq<char>>
    decreases ids.len(),
{
    if ids.len() == 0 {
        s
    } else {
        spec_unwind_ids(spec_remove_last(s, ids.last()), ids.drop_last())
    }
}

/// Law: the scope never leaks across sibling subtrees — unwinding
/// exactly the identifiers a parameter registered returns the scope to
/// its value before the registration, whatever it held.
pub proof fn lemma_scope_bracketing(s: Seq<Seq<char>>, ids: Seq<Seq<char>>)
    ensures
        spec_unwind_ids(s + ids, ids) == s,
    decreases ids.len(),
{
    if ids.len() == 0 {
        assert(s + ids =~= s);
    } else {
        assert((s + ids).last() == ids.last());
        assert(spec_remove_last(s + ids, ids.last()) =~= s + ids.drop_last());
        lemma_scope_bracketing(s, ids.drop_last());
    }
}

impl Scope {
    /// A scope with nothing in it.
    pub fn new() -> (r: Scope)
        ensures
            r.ids@.len() == 0,
    {
        Scope { ids: Vec::new() }
    }

    /// Whether `name` is in scope.
    pub open spec fn spec_has(&self, name: Seq<char>) -> bool {
        self.ids.deep_view().contains(name)
    }

    /// Whether `id` is in scope.
    #[verifier::loop_isolation(false)]
    pub fn has_identifier(&self, id: &str) -> (r: bool)
        ensures
            r == self.spec_has(id@),
    {
        let mut i: usize = 0;
        while i < self.ids.len()
            invariant
                0 <= i <= self.ids@.len(),
                forall|j: int| 0 <= j < i ==> self.ids.deep_view()[j] != id@,
            decreases self.ids@.len() - i,
        {
            if str_eq(self.ids[i].as_str(), id) {
                assert(self.ids.deep_view()[i as int] == id@);
                return true;
            }
            i = i + 1;
        }
        false
    }

    /// Register an identifier entering scope.
    pub fn add_identifier(&mut self, id: &str)
        ensures
            final(self).ids.deep_view() == old(self).ids.deep_view().push(id@),
    {
        self.ids.push(id.to_owned());
        proof {
            assert(self.ids.deep_view() =~= old(self).ids.deep_view().push(id@));
        }
    }

    /// Remove the most recent registration of an identifier leaving
    /// scope; without one, the scope stays as it is.
    #[verifier::loop_isolation(false)]
    pub fn remove_identifier(&mut self, id: &str)
        ensures
            final(self).ids.deep_view() == spec_remove_last(old(self).ids.deep_view(), id@),
    {
        let ghost dv = self.ids.deep_view();
        let mut i: usize = self.ids.len();
        while i > 0
            invariant
                0 <= i <= self.ids@.len(),
                self.ids.deep_view() == dv,
                forall|j: int| i <= j < dv.len() ==> dv[j] != id@,
            decreases i,
        {
            i = i - 1;
            if str_eq(self.ids[i].as_str(), id) {
                assert(dv[i as int] == id@);
                self.ids.remove(i);
                proof {
                    lemma_remove_last_at(dv, id@, i as int);
                    assert(self.ids.deep_view() =~= dv.remove(i as int));
                }
                return ;
            }
            assert(dv[i as int] != id@);
        }
        proof {
            lemma_remove_last_absent(dv, id@);
            assert(self.ids.deep_view() =~= dv);
        }
    }
}

/// The read-only table classifying where each identifier of the
/// component comes from.
pub struct BindingMetadata {
    pub entries: Vec<(String, BindingTypes)>,
}

/// The first entry of `s` whose name is `name`, if any.
pub open spec fn spec_binding_lookup(s: Seq<(String, BindingTypes)>, name: Seq<char>) -> Option<
    BindingTypes,
>
    decreases s.len(),
{
    if s.len() == 0 {
        None
    } else if s[0].0@ == name {
        Some(s[0].1)
    } else {
        spec_binding_lookup(s.subrange(1, s.len() as int), name)
    }
}

proof fn lemma_binding_lookup_skip(s: Seq<(String, BindingTypes)>, name: Seq<char>, i: int)
    requires
        0 <= i <= s.len(),
        forall|j: int| 0 <= j < i ==> #[trigger] s[j].0@ != name,
    ensures
        spec_binding_lookup(s, name) == spec_binding_lookup(s.subrange(i, s.len() as int), name),
    decreases i,
{
    if i > 0 {
        assert(s.subrange(1, s.len() as int).subrange(i - 1, s.len() - 1) =~= s.subrange(
            i,
            s.len() as int,
        ));
        lemma_binding_lookup_skip(s.subrange(1, s.len() as int), name, i - 1);
        assert(spec_binding_lookup(s, name) == spec_binding_lookup(
            s.subrange(1, s.len() as int),
            name,
        ));
    } else {
        assert(s.subrange(0, s.len() as int) =~= s);
    }
}

impl BindingMetadata {
    /// A table with no entries.
    pub fn new() -> (r: BindingMetadata)
        ensures
            r.entries@.len() == 0,
    {
        BindingMetadata { entries: Vec::new() }
    }

    /// Record one identifier's origin, after any existing entries.
    pub fn insert(&mut self, name: &str, kind: BindingTypes)
        ensures
            final(self).entries@.len() == old(self).entries@.len() + 1,
            final(self).entries@.last().0@ == name@,
            final(self).entries@.last().1 == kind,
            forall|j: int|
                0 <= j < old(self).entries@.len() ==> final(self).entries@[j] == old(
                    self,
                ).entries@[j],
    {
        self.entries.push((name.to_owned(), kind));
    }

    /// The recorded origin of `name`: the first entry with that name.
    #[verifier::loop_isolation(false)]
    pub fn get(&self, name: &str) -> (r: Option<BindingTypes>)
        ensures
            r == spec_binding_lookup(self.entries@, name@),
    {
        let mut i: usize = 0;
        while i < self.entries.len()
            invariant
                0 <= i <= self.entries@.len(),
                forall|j: int| 0 <= j < i ==> #[trigger] self.entries@[j].0@ != name@,
            decreases self.entries@.len() - i,
        {
            if str_eq(self.entries[i].0.as_str(), name) {
                proof {
                    lemma_binding_lookup_skip(self.entries@, name@, i as int);
                    assert(self.entries@.subrange(i as int, self.entries@.len() as int)[0]
                        == self.entries@[i as int]);
                }
                return Some(self.entries[i].1);
            }
            i = i + 1;
        }
        proof {
            lemma_binding_lookup_skip(self.entries@, name@, self.entries@.len() as int);
        }
        None
    }
}

/// Options of one transform run.
pub struct TransformOption {
    /// Rewrite identifiers against their binding origin; without it the
    /// expression pass leaves every expression untouched.
    pub prefix_identifier: bool,
    /// Emit setup bindings for inlined render code rather than through
    /// the render context.
    pub inline: bool,
    /// Where each identifier of the component comes from.
    pub binding_metadata: BindingMetadata,
}

impl Default for TransformOption {
    /// Rewriting disabled, inline emission disabled, no binding entries.
    fn default() -> (r: TransformOption)
        ensures
            !r.prefix_identifier,
            !r.inline,
            r.binding_metadata.entries@.len() == 0,
    {
        TransformOption {
            prefix_identifier: false,
            inline: false,
            binding_metadata: BindingMetadata { entries: Vec::new() },
        }
    }
}

/// One pass run by the walker: enter hooks fire pre-order, exit hooks
/// post-order. Function-parameter hooks bracket the body subtree of the
/// construct declaring the parameter and must keep the parameter legal;
/// a pass given a parameter of an unexpected shape would have to abort
/// the compilation, so that shape is excluded up front.
pub trait CorePassExt: Sized {
    /// The configuration the pass's expression relation reads; no hook
    /// changes it.
    type Config;

    /// The pass's configuration.
    spec fn config(&self) -> Self::Config;

    /// What the pass's exit hook does to one expression: how the new
    /// expression relates to the old one under the given configuration
    /// and the identifiers in scope at the site.
    spec fn expr_rel(cfg: Self::Config, e0: Js, e1: Js, sc: Seq<Seq<char>>) -> bool;

    fn enter_fn_param(&mut self, p: &mut Js, shared: &mut Scope)
        requires
            legal_fn_param(*old(p)),
        ensures
            *final(p) == *old(p),
            final(shared).ids.deep_view() == old(shared).ids.deep_view() + spec_fn_param_ids(
                *old(p),
            ),
            final(self).config() == old(self).config(),
    ;

    fn exit_fn_param(&mut self, p: &mut Js, shared: &mut Scope)
        requires
            legal_fn_param(*old(p)),
        ensures
            *final(p) == *old(p),
            final(shared).ids.deep_view() == spec_unwind_ids(
                old(shared).ids.deep_view(),
                spec_fn_param_ids(*old(p)),
            ),
            final(self).config() == old(self).config(),
    ;

    fn enter_js_expr(&mut self, e: &Js, shared: &mut Scope)
        ensures
            final(shared).ids.deep_view() == old(shared).ids.deep_view(),
            final(self).config() == old(self).config(),
    ;

    fn exit_js_expr(&mut self, e: &mut Js, shared: &mut Scope)
        ensures
            final(shared).ids.deep_view() == old(shared).ids.deep_view(),
            final(self).config() == old(self).config(),
            Self::expr_rel(old(self).config(), *old(e), *final(e), old(shared).ids.deep_view()),
    ;
}


/// The walk's effect on one expression: its parts walked in order,
/// bottom-up, then the pass's exit relation applied to the rebuilt
/// expression under the identifiers in scope.
pub open spec fn walked_js<P: CorePassExt>(
    cfg: P::Config,
    e0: Js,
    e1: Js,
    sc: Seq<Seq<char>>,
) -> bool
    decreases e0, 1int,
{
    match e0 {
        Js::Compound(v0) => exists|mid: Js|
            #[trigger] P::expr_rel(cfg, mid, e1, sc) && mid is Compound && walked_js_seq::<P>(
                cfg,
                v0@,
                mid->Compound_0@,
                sc,
            ),
        Js::Array(v0) => exists|mid: Js|
            #[trigger] P::expr_rel(cfg, mid, e1, sc) && mid is Array && walked_js_seq::<P>(
                cfg,
                v0@,
                mid->Array_0@,
                sc,
            ),
        Js::Call(h, v0) => exists|mid: Js|
            #[trigger] P::expr_rel(cfg, mid, e1, sc) && mid is Call && mid->Call_0 == h
                && walked_js_seq::<P>(cfg, v0@, mid->Call_1@, sc),
        Js::Props(ps0) => exists|mid: Js|
            #[trigger] P::expr_rel(cfg, mid, e1, sc) && mid is Props && walked_js_pairs::<P>(
                cfg,
                ps0@,
                mid->Props_0@,
                sc,
            ),
        _ => P::expr_rel(cfg, e0, e1, sc),
    }
}

/// Each expression of the list walked, in order.
pub open spec fn walked_js_seq<P: CorePassExt>(
    cfg: P::Config,
    s0: Seq<Js>,
    s1: Seq<Js>,
    sc: Seq<Seq<char>>,
) -> bool
    decreases s0, 0int,
{
    &&& s0.len() == s1.len()
    &&& (s0.len() > 0 ==> walked_js_seq::<P>(cfg, s0.drop_last(), s1.drop_last(), sc)
        && walked_js::<P>(cfg, s0.last(), s1.last(), sc))
}

/// Each key and value of the list walked, in order.
pub open spec fn walked_js_pairs<P: CorePassExt>(
    cfg: P::Config,
    s0: Seq<(Js, Js)>,
    s1: Seq<(Js, Js)>,
    sc: Seq<Seq<char>>,
) -> bool
    decreases s0, 0int,
{
    &&& s0.len() == s1.len()
    &&& (s0.len() > 0 ==> walked_js_pairs::<P>(cfg, s0.drop_last(), s1.drop_last(), sc)
        && walked_js::<P>(cfg, s0.last().0, s1.last().0, sc) && walked_js::<P>(
        cfg,
        s0.last().1,
        s1.last().1,
        sc,
    ))
}

/// An optional expression walked: present exactly when it was, and
/// walked where present.
pub open spec fn walked_opt_js<P: CorePassExt>(
    cfg: P::Config,
    o0: Option<Js>,
    o1: Option<Js>,
    sc: Seq<Seq<char>>,
) -> bool {
    &&& (o0 is Some <==> o1 is Some)
    &&& (o0 is Some ==> walked_js::<P>(cfg, o0.unwrap(), o1.unwrap(), sc))
}

/// The identifiers in scope inside a loop's body: the surrounding ones,
/// then the declared value, key and index.
pub open spec fn for_scope(sc: Seq<Seq<char>>, pr: ForParseResult) -> Seq<Seq<char>> {
    let s1 = sc + spec_fn_param_ids(pr.value);
    let s2 = if pr.key is Some {
        s1 + spec_fn_param_ids(pr.key.unwrap())
    } else {
        s1
    };
    if pr.index is Some {
        s2 + spec_fn_param_ids(pr.index.unwrap())
    } else {
        s2
    }
}

/// The identifiers in scope inside a slot's body: the surrounding ones,
/// then the slot's declared parameter.
pub open spec fn slot_scope(sc: Seq<Seq<char>>, param: Option<Js>) -> Seq<Seq<char>> {
    if param is Some {
        sc + spec_fn_param_ids(param.unwrap())
    } else {
        sc
    }
}

/// The walk's effect on one node: every expression position rewritten
/// by the pass's exit relation under the scope in force there,
/// parameters bracketing their body subtrees, everything else kept.
pub open spec fn walked_ir<P: CorePassExt>(
    cfg: P::Config,
    ir0: IRNode,
    ir1: IRNode,
    sc: Seq<Seq<char>>,
) -> bool
    decreases ir0, 3int,
{
    match ir0 {
        IRNode::TextCall(t0) => ir1 is TextCall && walked_js_seq::<P>(
            cfg,
            t0.texts@,
            ir1->TextCall_0.texts@,
            sc,
        ),
        IRNode::If(i0) => ir1 is If && walked_branches::<P>(
            cfg,
            i0.branches@,
            ir1->If_0.branches@,
            sc,
        ),
        IRNode::For(f0) => {
            &&& ir1 is For
            &&& ir1->For_0.parse_result == f0.parse_result
            &&& walked_js::<P>(cfg, f0.source, ir1->For_0.source, sc)
            &&& walked_ir::<P>(cfg, *f0.child, *ir1->For_0.child, for_scope(sc, f0.parse_result))
        },
        IRNode::VNodeCall(v0) => {
            &&& ir1 is VNodeCall
            &&& walked_js::<P>(cfg, v0.tag, ir1->VNodeCall_0.tag, sc)
            &&& walked_opt_js::<P>(cfg, v0.props, ir1->VNodeCall_0.props, sc)
            &&& walked_ir_seq::<P>(cfg, v0.children@, ir1->VNodeCall_0.children@, sc)
            &&& ir1->VNodeCall_0.patch_flag == v0.patch_flag
            &&& ir1->VNodeCall_0.dynamic_props == v0.dynamic_props
            &&& ir1->VNodeCall_0.directives == v0.directives
            &&& ir1->VNodeCall_0.is_block == v0.is_block
            &&& ir1->VNodeCall_0.disable_tracking == v0.disable_tracking
            &&& ir1->VNodeCall_0.is_component == v0.is_component
        },
        IRNode::RenderSlotCall(r0) => {
            &&& ir1 is RenderSlotCall
            &&& walked_js::<P>(cfg, r0.slot_name, ir1->RenderSlotCall_0.slot_name, sc)
            &&& walked_opt_js::<P>(cfg, r0.slot_props, ir1->RenderSlotCall_0.slot_props, sc)
            &&& walked_ir_seq::<P>(cfg, r0.fallbacks@, ir1->RenderSlotCall_0.fallbacks@, sc)
        },
        IRNode::VSlotUse(s0) => {
            &&& ir1 is VSlotUse
            &&& walked_slots::<P>(cfg, s0.stable_slots@, ir1->VSlotUse_0.stable_slots@, sc)
            &&& walked_ir_seq::<P>(cfg, s0.alterable_slots@, ir1->VSlotUse_0.alterable_slots@, sc)
        },
        IRNode::CommentCall(_) => ir1 == ir0,
        IRNode::AlterableSlot(s0) => ir1 is AlterableSlot && walked_slot::<P>(
            cfg,
            s0,
            ir1->AlterableSlot_0,
            sc,
        ),
    }
}

/// Each node of the list walked, in order.
pub open spec fn walked_ir_seq<P: CorePassExt>(
    cfg: P::Config,
    s0: Seq<IRNode>,
    s1: Seq<IRNode>,
    sc: Seq<Seq<char>>,
) -> bool
    decreases s0, 0int,
{
    &&& s0.len() == s1.len()
    &&& (s0.len() > 0 ==> walked_ir_seq::<P>(cfg, s0.drop_last(), s1.drop_last(), sc)
        && walked_ir::<P>(cfg, s0.last(), s1.last(), sc))
}

/// Each branch walked: its condition where present, its child below.
pub open spec fn walked_branches<P: CorePassExt>(
    cfg: P::Config,
    s0: Seq<IfBranch>,
    s1: Seq<IfBranch>,
    sc: Seq<Seq<char>>,
) -> bool
    decreases s0, 0int,
{
    &&& s0.len() == s1.len()
    &&& (s0.len() > 0 ==> walked_branches::<P>(cfg, s0.drop_last(), s1.drop_last(), sc)
        && walked_opt_js::<P>(cfg, s0.last().condition, s1.last().condition, sc) && walked_ir::<
        P,
    >(cfg, *s0.last().child, *s1.last().child, sc))
}

/// One slot walked: its name under the surrounding scope, its body
/// inside the window its parameter is visible in, the parameter kept.
pub open spec fn walked_slot<P: CorePassExt>(
    cfg: P::Config,
    s0: Slot,
    s1: Slot,
    sc: Seq<Seq<char>>,
) -> bool
    decreases s0, 1int,
{
    &&& walked_js::<P>(cfg, s0.name, s1.name, sc)
    &&& s1.param == s0.param
    &&& walked_ir_seq::<P>(cfg, s0.body@, s1.body@, slot_scope(sc, s0.param))
}

/// Each slot of the list walked, in order.
pub open spec fn walked_slots<P: CorePassExt>(
    cfg: P::Config,
    s0: Seq<Slot>,
    s1: Seq<Slot>,
    sc: Seq<Seq<char>>,
) -> bool
    decreases s0, 2int,
{
    &&& s0.len() == s1.len()
    &&& (s0.len() > 0 ==> walked_slots::<P>(cfg, s0.drop_last(), s1.drop_last(), sc)
        && walked_slot::<P>(cfg, s0.last(), s1.last(), sc))
}

/// The depth-first walker: replays enter and exit hooks over the tree,
/// threading one shared scope through the whole walk.
pub struct Transformer<P: CorePassExt> {
    pub pass: P,
}

impl<P: CorePassExt> Transformer<P> {
    /// A walker running the given pass.
    pub fn new(pass: P) -> (r: Transformer<P>)
        ensures
            r.pass == pass,
    {
        Transformer { pass }
    }

    /// Walk the whole tree with a fresh scope, mutating it in place:
    /// every expression position of the result is the pass's rewrite of
    /// the one before it, under the scope in force at that position.
    #[verifier::loop_isolation(false)]
    pub fn transform(&mut self, root: &mut IRRoot)
        requires
            wf_ir_seq(old(root).body@),
        ensures
            final(self).pass.config() == old(self).pass.config(),
            walked_ir_seq::<P>(
                old(self).pass.config(),
                old(root).body@,
                final(root).body@,
                Seq::empty(),
            ),
    {
        let ghost cfg = self.pass.config();
        let mut scope = Scope::new();
        proof {
            assert(scope.ids.deep_view() =~= Seq::<Seq<char>>::empty());
        }
        let mut i: usize = 0;
        let ghost body0 = old(root).body@;
        while i < root.body.len()
            invariant
                0 <= i <= root.body@.len(),
                root.body@.len() == body0.len(),
                forall|j: int| i <= j < body0.len() ==> root.body@[j] == body0[j],
                self.pass.config() == cfg,
                scope.ids.deep_view() == Seq::<Seq<char>>::empty(),
                walked_ir_seq::<P>(
                    cfg,
                    body0.subrange(0, i as int),
                    root.body@.subrange(0, i as int),
                    Seq::empty(),
                ),
            decreases root.body@.len() - i,
        {
            let ghost pre = root.body@.subrange(0, i as int);
            let node = root.body.remove(i);
            proof {
                lemma_wf_ir_seq_index(body0, i as int);
                assert(node == body0[i as int]);
            }
            let node = self.walk_ir(node, &mut scope);
            root.body.insert(i, node);
            proof {
                assert(root.body@.subrange(0, i as int) =~= pre);
                assert(body0.subrange(0, i + 1).drop_last() =~= body0.subrange(0, i as int));
                assert(body0.subrange(0, i + 1).last() == body0[i as int]);
                assert(root.body@.subrange(0, i + 1).drop_last() =~= root.body@.subrange(
                    0,
                    i as int,
                ));
                assert(root.body@.subrange(0, i + 1).last() == root.body@[i as int]);
                assert(walked_ir_seq::<P>(
                    cfg,
                    body0.subrange(0, i + 1),
                    root.body@.subrange(0, i + 1),
                    Seq::empty(),
                ));
            }
            i = i + 1;
        }
        proof {
            assert(body0.subrange(0, body0.len() as int) =~= body0);
            assert(root.body@.subrange(0, root.body@.len() as int) =~= root.body@);
        }
    }

    /// Walk one node: expressions bottom-up, parameters bracketing the
    /// body subtree they bind; the scope comes back as it went in.
    #[verifier::loop_isolation(false)]
    fn walk_ir(&mut self, ir: IRNode, scope: &mut Scope) -> (r: IRNode)
        requires
            wf_ir(ir),
        ensures
            final(self).pass.config() == old(self).pass.config(),
            final(scope).ids.deep_view() == old(scope).ids.deep_view(),
            walked_ir::<P>(old(self).pass.config(), ir, r, old(scope).ids.deep_view()),
        decreases ir,
    {
        let ghost ir0 = ir;
        let ghost cfg = self.pass.config();
        let ghost sc0 = scope.ids.deep_view();
        match ir {
            IRNode::TextCall(t) => {
                let ghost t0 = t;
                let TextIR { mut texts } = t;
                let ghost ts0 = texts@;
                let mut i: usize = 0;
                while i < texts.len()
                    invariant
                        0 <= i <= texts@.len(),
                        texts@.len() == ts0.len(),
                        forall|j: int| i <= j < ts0.len() ==> texts@[j] == ts0[j],
                        self.pass.config() == cfg,
                        scope.ids.deep_view() == sc0,
                        walked_js_seq::<P>(
                            cfg,
                            ts0.subrange(0, i as int),
                            texts@.subrange(0, i as int),
                            sc0,
                        ),
                    decreases texts@.len() - i,
                {
                    let ghost pre = texts@.subrange(0, i as int);
                    let e = texts.remove(i);
                    proof {
                        assert(e == ts0[i as int]);
                    }
                    let e = self.walk_js(e, scope);
                    texts.insert(i, e);
                    proof {
                        assert(texts@.subrange(0, i as int) =~= pre);
                        assert(ts0.subrange(0, i + 1).drop_last() =~= ts0.subrange(0, i as int));
                        assert(ts0.subrange(0, i + 1).last() == ts0[i as int]);
                        assert(texts@.subrange(0, i + 1).drop_last() =~= texts@.subrange(
                            0,
                            i as int,
                        ));
                        assert(texts@.subrange(0, i + 1).last() == texts@[i as int]);
                        assert(walked_js_seq::<P>(
                            cfg,
                            ts0.subrange(0, i + 1),
                            texts@.subrange(0, i + 1),
                            sc0,
                        ));
                    }
                    i = i + 1;
                }
                proof {
                    assert(ts0.subrange(0, ts0.len() as int) =~= ts0);
                    assert(texts@.subrange(0, texts@.len() as int) =~= texts@);
                }
                let out = IRNode::TextCall(TextIR { texts });
                proof {
                    assert(walked_ir::<P>(cfg, ir0, out, sc0));
                }
                out
            },
            IRNode::If(f) => {
                let ghost f0 = f;
                let IfNodeIR { mut branches } = f;
                let ghost bs0 = branches@;
                let mut i: usize = 0;
                while i < branches.len()
                    invariant
                        0 <= i <= branches@.len(),
                        branches@.len() == bs0.len(),
                        forall|j: int| i <= j < bs0.len() ==> branches@[j] == bs0[j],
                        self.pass.config() == cfg,
                        scope.ids.deep_view() == sc0,
                        walked_branches::<P>(
                            cfg,
                            bs0.subrange(0, i as int),
                            branches@.subrange(0, i as int),
                            sc0,
                        ),
                    decreases branches@.len() - i,
                {
                    let ghost pre = branches@.subrange(0, i as int);
                    let b = branches.remove(i);
                    let ghost b0 = b;
                    proof {
                        lemma_wf_branches_index(bs0, i as int);
                        assert(f0 == ir0->If_0);
                        assert(decreases_to!(ir0 => ir0->If_0));
                        assert(decreases_to!(f0 => f0.branches));
                        assert(decreases_to!(f0.branches => f0.branches@));
                        assert(decreases_to!(f0.branches@ => f0.branches@[i as int]));
                        assert(b0 == f0.branches@[i as int]);
                        assert(decreases_to!(b0 => *b0.child));
                    }
                    let IfBranch { condition, child } = b;
                    let condition = match condition {
                        Some(c) => Some(self.walk_js(c, scope)),
                        None => None,
                    };
                    let child = Box::new(self.walk_ir(*child, scope));
                    let nb = IfBranch { condition, child };
                    let ghost nb0 = nb;
                    branches.insert(i, nb);
                    proof {
                        assert(branches@.subrange(0, i as int) =~= pre);
                        assert(walked_opt_js::<P>(cfg, b0.condition, nb0.condition, sc0));
                        assert(walked_ir::<P>(cfg, *b0.child, *nb0.child, sc0));
                        assert(bs0.subrange(0, i + 1).drop_last() =~= bs0.subrange(0, i as int));
                        assert(bs0.subrange(0, i + 1).last() == bs0[i as int]);
                        assert(branches@.subrange(0, i + 1).drop_last() =~= branches@.subrange(
                            0,
                            i as int,
                        ));
                        assert(branches@.subrange(0, i + 1).last() == branches@[i as int]);
                        assert(walked_branches::<P>(
                            cfg,
                            bs0.subrange(0, i + 1),
                            branches@.subrange(0, i + 1),
                            sc0,
                        ));
                    }
                    i = i + 1;
                }
                proof {
                    assert(bs0.subrange(0, bs0.len() as int) =~= bs0);
                    assert(branches@.subrange(0, branches@.len() as int) =~= branches@);
                }
                let out = IRNode::If(IfNodeIR { branches });
                proof {
                    assert(walked_ir::<P>(cfg, ir0, out, sc0));
                }
                out
            },
            IRNode::For(f) => {
                let ghost f0 = f;
                proof {
                    assert(f0 == ir0->For_0);
                    assert(decreases_to!(ir0 => ir0->For_0));
                    assert(decreases_to!(f0 => *f0.child));
                }
                let ForNodeIR { source, parse_result, child } = f;
                let ForParseResult { mut value, key, index } = parse_result;
                // the iterated source sits outside the loop's own scope
                let source = self.walk_js(source, scope);
                let ghost ids_v = spec_fn_param_ids(value);
                let ghost s1 = sc0 + ids_v;
                self.pass.enter_fn_param(&mut value, scope);
                let mut key = key;
                if let Some(mut k) = key {
                    self.pass.enter_fn_param(&mut k, scope);
                    key = Some(k);
                } else {
                    key = None;
                }
                let ghost ids_k = if key is Some {
                    spec_fn_param_ids(key.unwrap())
                } else {
                    Seq::empty()
                };
                let ghost s2 = if key is Some {
                    s1 + ids_k
                } else {
                    s1
                };
                let mut index = index;
                if let Some(mut x) = index {
                    self.pass.enter_fn_param(&mut x, scope);
                    index = Some(x);
                } else {
                    index = None;
                }
                let ghost ids_x = if index is Some {
                    spec_fn_param_ids(index.unwrap())
                } else {
                    Seq::empty()
                };
                let ghost s3 = if index is Some {
                    s2 + ids_x
                } else {
                    s2
                };
                proof {
                    assert(scope.ids.deep_view() == s3);
                    assert(s3 == for_scope(sc0, f0.parse_result));
                }
                let child = Box::new(self.walk_ir(*child, scope));
                if let Some(mut x) = index {
                    self.pass.exit_fn_param(&mut x, scope);
                    proof {
                        lemma_scope_bracketing(s2, ids_x);
                    }
                    index = Some(x);
                } else {
                    index = None;
                }
                proof {
                    assert(scope.ids.deep_view() == s2);
                }
                if let Some(mut k) = key {
                    self.pass.exit_fn_param(&mut k, scope);
                    proof {
                        lemma_scope_bracketing(s1, ids_k);
                    }
                    key = Some(k);
                } else {
                    key = None;
                }
                proof {
                    assert(scope.ids.deep_view() == s1);
                }
                self.pass.exit_fn_param(&mut value, scope);
                proof {
                    lemma_scope_bracketing(sc0, ids_v);
                    assert(scope.ids.deep_view() == sc0);
                }
                let out = IRNode::For(
                    ForNodeIR { source, parse_result: ForParseResult { value, key, index }, child },
                );
                proof {
                    assert(walked_ir::<P>(cfg, ir0, out, sc0));
                }
                out
            },
            IRNode::VNodeCall(v) => {
                let ghost v0 = v;
                proof {
                    assert(v0 == ir0->VNodeCall_0);
                    assert(decreases_to!(ir0 => ir0->VNodeCall_0));
                }
                let VNodeIR {
                    tag,
                    props,
                    mut children,
                    patch_flag,
                    dynamic_props,
                    directives,
                    is_block,
                    disable_tracking,
                    is_component,
                } = v;
                let tag = self.walk_js(tag, scope);
                let props = match props {
                    Some(p) => Some(self.walk_js(p, scope)),
                    None => None,
                };
                let ghost cs0 = children@;
                let mut i: usize = 0;
                while i < children.len()
                    invariant
                        0 <= i <= children@.len(),
                        children@.len() == cs0.len(),
                        forall|j: int| i <= j < cs0.len() ==> children@[j] == cs0[j],
                        self.pass.config() == cfg,
                        scope.ids.deep_view() == sc0,
                        walked_ir_seq::<P>(
                            cfg,
                            cs0.subrange(0, i as int),
                            children@.subrange(0, i as int),
                            sc0,
                        ),
                    decreases children@.len() - i,
                {
                    let ghost pre = children@.subrange(0, i as int);
                    let node = children.remove(i);
                    proof {
                        lemma_wf_ir_seq_index(cs0, i as int);
                        assert(decreases_to!(v0 => v0.children));
                        assert(decreases_to!(v0.children => v0.children@));
                        assert(decreases_to!(v0.children@ => v0.children@[i as int]));
                        assert(node == v0.children@[i as int]);
                    }
                    let node = self.walk_ir(node, scope);
                    children.insert(i, node);
                    proof {
                        assert(children@.subrange(0, i as int) =~= pre);
                        assert(cs0.subrange(0, i + 1).drop_last() =~= cs0.subrange(0, i as int));
                        assert(cs0.subrange(0, i + 1).last() == cs0[i as int]);
                        assert(children@.subrange(0, i + 1).drop_last() =~= children@.subrange(
                            0,
                            i as int,
                        ));
                        assert(children@.subrange(0, i + 1).last() == children@[i as int]);
                        assert(walked_ir_seq::<P>(
                            cfg,
                            cs0.subrange(0, i + 1),
                            children@.subrange(0, i + 1),
                            sc0,
                        ));
                    }
                    i = i + 1;
                }
                proof {
                    assert(cs0.subrange(0, cs0.len() as int) =~= cs0);
                    assert(children@.subrange(0, children@.len() as int) =~= children@);
                }
                let out = IRNode::VNodeCall(
                    VNodeIR {
                        tag,
                        props,
                        children,
                        patch_flag,
                        dynamic_props,
                        directives,
                        is_block,
                        disable_tracking,
                        is_component,
                    },
                );
                proof {
                    assert(walked_ir::<P>(cfg, ir0, out, sc0));
                }
                out
            },
            IRNode::RenderSlotCall(r) => {
                let ghost r0 = r;
                proof {
                    assert(r0 == ir0->RenderSlotCall_0);
                    assert(decreases_to!(ir0 => ir0->RenderSlotCall_0));
                }
                let RenderSlotIR { slot_name, slot_props, mut fallbacks } = r;
                let slot_name = self.walk_js(slot_name, scope);
                let slot_props = match slot_props {
                    Some(p) => Some(self.walk_js(p, scope)),
                    None => None,
                };
                let ghost fs0 = fallbacks@;
                let mut i: usize = 0;
                while i < fallbacks.len()
                    invariant
                        0 <= i <= fallbacks@.len(),
                        fallbacks@.len() == fs0.len(),
                        forall|j: int| i <= j < fs0.len() ==> fallbacks@[j] == fs0[j],
                        self.pass.config() == cfg,
                        scope.ids.deep_view() == sc0,
                        walked_ir_seq::<P>(
                            cfg,
                            fs0.subrange(0, i as int),
                            fallbacks@.subrange(0, i as int),
                            sc0,
                        ),
                    decreases fallbacks@.len() - i,
                {
                    let ghost pre = fallbacks@.subrange(0, i as int);
                    let node = fallbacks.remove(i);
                    proof {
                        lemma_wf_ir_seq_index(fs0, i as int);
                        assert(decreases_to!(r0 => r0.fallbacks));
                        assert(decreases_to!(r0.fallbacks => r0.fallbacks@));
                        assert(decreases_to!(r0.fallbacks@ => r0.fallbacks@[i as int]));
                        assert(node == r0.fallbacks@[i as int]);
                    }
                    let node = self.walk_ir(node, scope);
                    fallbacks.insert(i, node);
                    proof {
                        assert(fallbacks@.subrange(0, i as int) =~= pre);
                        assert(fs0.subrange(0, i + 1).drop_last() =~= fs0.subrange(0, i as int));
                        assert(fs0.subrange(0, i + 1).last() == fs0[i as int]);
                        assert(fallbacks@.subrange(0, i + 1).drop_last() =~= fallbacks@.subrange(
                            0,
                            i as int,
                        ));
                        assert(fallbacks@.subrange(0, i + 1).last() == fallbacks@[i as int]);
                        assert(walked_ir_seq::<P>(
                            cfg,
                            fs0.subrange(0, i + 1),
                            fallbacks@.subrange(0, i + 1),
                            sc0,
                        ));
                    }
                    i = i + 1;
                }
                proof {
                    assert(fs0.subrange(0, fs0.len() as int) =~= fs0);
                    assert(fallbacks@.subrange(0, fallbacks@.len() as int) =~= fallbacks@);
                }
                let out = IRNode::RenderSlotCall(RenderSlotIR { slot_name, slot_props, fallbacks });
                proof {
                    assert(walked_ir::<P>(cfg, ir0, out, sc0));
                }
                out
            },
            IRNode::VSlotUse(s) => {
                let ghost s0 = s;
                proof {
                    assert(s0 == ir0->VSlotUse_0);
                    assert(decreases_to!(ir0 => ir0->VSlotUse_0));
                }
                let VSlotIR { mut stable_slots, mut alterable_slots } = s;
                let ghost ss0 = stable_slots@;
                let mut i: usize = 0;
                while i < stable_slots.len()
                    invariant
                        0 <= i <= stable_slots@.len(),
                        stable_slots@.len() == ss0.len(),
                        forall|j: int| i <= j < ss0.len() ==> stable_slots@[j] == ss0[j],
                        self.pass.config() == cfg,
                        scope.ids.deep_view() == sc0,
                        walked_slots::<P>(
                            cfg,
                            ss0.subrange(0, i as int),
                            stable_slots@.subrange(0, i as int),
                            sc0,
                        ),
                    decreases stable_slots@.len() - i,
                {
                    let ghost pre = stable_slots@.subrange(0, i as int);
                    let slot = stable_slots.remove(i);
                    proof {
                        lemma_wf_slots_index(ss0, i as int);
                        assert(decreases_to!(s0 => s0.stable_slots));
                        assert(decreases_to!(s0.stable_slots => s0.stable_slots@));
                        assert(decreases_to!(s0.stable_slots@ => s0.stable_slots@[i as int]));
                        assert(slot == s0.stable_slots@[i as int]);
                    }
                    let slot = self.walk_slot(slot, scope);
                    stable_slots.insert(i, slot);
                    proof {
                        assert(stable_slots@.subrange(0, i as int) =~= pre);
                        assert(ss0.subrange(0, i + 1).drop_last() =~= ss0.subrange(0, i as int));
                        assert(ss0.subrange(0, i + 1).last() == ss0[i as int]);
                        assert(stable_slots@.subrange(0, i + 1).drop_last()
                            =~= stable_slots@.subrange(0, i as int));
                        assert(stable_slots@.subrange(0, i + 1).last()
                            == stable_slots@[i as int]);
                        assert(walked_slots::<P>(
                            cfg,
                            ss0.subrange(0, i + 1),
                            stable_slots@.subrange(0, i + 1),
                            sc0,
                        ));
                    }
                    i = i + 1;
                }
                proof {
                    assert(ss0.subrange(0, ss0.len() as int) =~= ss0);
                    assert(stable_slots@.subrange(0, stable_slots@.len() as int)
                        =~= stable_slots@);
                }
                let ghost as0 = alterable_slots@;
                let mut i: usize = 0;
                while i < alterable_slots.len()
                    invariant
                        0 <= i <= alterable_slots@.len(),
                        alterable_slots@.len() == as0.len(),
                        forall|j: int| i <= j < as0.len() ==> alterable_slots@[j] == as0[j],
                        self.pass.config() == cfg,
                        scope.ids.deep_view() == sc0,
                        walked_ir_seq::<P>(
                            cfg,
                            as0.subrange(0, i as int),
                            alterable_slots@.subrange(0, i as int),
                            sc0,
                        ),
                    decreases alterable_slots@.len() - i,
                {
                    let ghost pre = alterable_slots@.subrange(0, i as int);
                    let node = alterable_slots.remove(i);
                    proof {
                        lemma_wf_ir_seq_index(as0, i as int);
                        assert(decreases_to!(s0 => s0.alterable_slots));
                        assert(decreases_to!(s0.alterable_slots => s0.alterable_slots@));
                        assert(decreases_to!(s0.alterable_slots@ => s0.alterable_slots@[i as int]));
                        assert(node == s0.alterable_slots@[i as int]);
                    }
                    let node = self.walk_ir(node, scope);
                    alterable_slots.insert(i, node);
                    proof {
                        assert(alterable_slots@.subrange(0, i as int) =~= pre);
                        assert(as0.subrange(0, i + 1).drop_last() =~= as0.subrange(0, i as int));
                        assert(as0.subrange(0, i + 1).last() == as0[i as int]);
                        assert(alterable_slots@.subrange(0, i + 1).drop_last()
                            =~= alterable_slots@.subrange(0, i as int));
                        assert(alterable_slots@.subrange(0, i + 1).last()
                            == alterable_slots@[i as int]);
                        assert(walked_ir_seq::<P>(
                            cfg,
                            as0.subrange(0, i + 1),
                            alterable_slots@.subrange(0, i + 1),
                            sc0,
                        ));
                    }
                    i = i + 1;
                }
                proof {
                    assert(as0.subrange(0, as0.len() as int) =~= as0);
                    assert(alterable_slots@.subrange(0, alterable_slots@.len() as int)
                        =~= alterable_slots@);
                }
                let out = IRNode::VSlotUse(VSlotIR { stable_slots, alterable_slots });
                proof {
                    assert(walked_ir::<P>(cfg, ir0, out, sc0));
                }
                out
            },
            IRNode::CommentCall(c) => IRNode::CommentCall(c),
            IRNode::AlterableSlot(slot) => {
                let ghost sl0 = slot;
                proof {
                    assert(sl0 == ir0->AlterableSlot_0);
                    assert(decreases_to!(ir0 => ir0->AlterableSlot_0));
                }
                let slot = self.walk_slot(slot, scope);
                let out = IRNode::AlterableSlot(slot);
                proof {
                    assert(walked_ir::<P>(cfg, ir0, out, sc0));
                }
                out
            },
        }
    }

    /// Walk one slot definition: its name under the surrounding scope,
    /// then the body inside the window its parameter is visible in.
    #[verifier::loop_isolation(false)]
    fn walk_slot(&mut self, slot: Slot, scope: &mut Scope) -> (r: Slot)
        requires
            wf_slot(slot),
        ensures
            final(self).pass.config() == old(self).pass.config(),
            final(scope).ids.deep_view() == old(scope).ids.deep_view(),
            walked_slot::<P>(old(self).pass.config(), slot, r, old(scope).ids.deep_view()),
        decreases slot,
    {
        let ghost s0 = slot;
        let ghost cfg = self.pass.config();
        let ghost sc0 = scope.ids.deep_view();
        let Slot { name, param, mut body } = slot;
        let name = self.walk_js(name, scope);
        let mut param = param;
        if let Some(mut p) = param {
            self.pass.enter_fn_param(&mut p, scope);
            param = Some(p);
        } else {
            param = None;
        }
        let ghost ids_p = if param is Some {
            spec_fn_param_ids(param.unwrap())
        } else {
            Seq::empty()
        };
        let ghost sc1 = slot_scope(sc0, s0.param);
        proof {
            assert(scope.ids.deep_view() == sc1);
        }
        let ghost bs0 = body@;
        let mut i: usize = 0;
        while i < body.len()
            invariant
                0 <= i <= body@.len(),
                body@.len() == bs0.len(),
                forall|j: int| i <= j < bs0.len() ==> body@[j] == bs0[j],
                self.pass.config() == cfg,
                scope.ids.deep_view() == sc1,
                walked_ir_seq::<P>(
                    cfg,
                    bs0.subrange(0, i as int),
                    body@.subrange(0, i as int),
                    sc1,
                ),
            decreases body@.len() - i,
        {
            let ghost pre = body@.subrange(0, i as int);
            let node = body.remove(i);
            proof {
                lemma_wf_ir_seq_index(bs0, i as int);
                assert(decreases_to!(s0 => s0.body));
                assert(decreases_to!(s0.body => s0.body@));
                assert(decreases_to!(s0.body@ => s0.body@[i as int]));
                assert(node == s0.body@[i as int]);
            }
            let node = self.walk_ir(node, scope);
            body.insert(i, node);
            proof {
                assert(body@.subrange(0, i as int) =~= pre);
                assert(bs0.subrange(0, i + 1).drop_last() =~= bs0.subrange(0, i as int));
                assert(bs0.subrange(0, i + 1).last() == bs0[i as int]);
                assert(body@.subrange(0, i + 1).drop_last() =~= body@.subrange(0, i as int));
                assert(body@.subrange(0, i + 1).last() == body@[i as int]);
                assert(walked_ir_seq::<P>(
                    cfg,
                    bs0.subrange(0, i + 1),
                    body@.subrange(0, i + 1),
                    sc1,
                ));
            }
            i = i + 1;
        }
        proof {
            assert(bs0.subrange(0, bs0.len() as int) =~= bs0);
            assert(body@.subrange(0, body@.len() as int) =~= body@);
        }
        if let Some(mut p) = param {
            self.pass.exit_fn_param(&mut p, scope);
            proof {
                lemma_scope_bracketing(sc0, ids_p);
            }
            param = Some(p);
        } else {
            param = None;
        }
        let out = Slot { name, param, body };
        proof {
            assert(scope.ids.deep_view() == sc0);
            assert(walked_slot::<P>(cfg, s0, out, sc0));
        }
        out
    }

    /// Walk one expression: enter pre-order (observing only), then the
    /// sub-expressions in order, then exit post-order.
    #[verifier::loop_isolation(false)]
    fn walk_js(&mut self, e: Js, scope: &mut Scope) -> (r: Js)
        ensures
            final(self).pass.config() == old(self).pass.config(),
            final(scope).ids.deep_view() == old(scope).ids.deep_view(),
            walked_js::<P>(old(self).pass.config(), e, r, old(scope).ids.deep_view()),
        decreases e,
    {
        let ghost e0 = e;
        let ghost cfg = self.pass.config();
        let ghost sc0 = scope.ids.deep_view();
        self.pass.enter_js_expr(&e, scope);
        match e {
            Js::Compound(es) => {
                let ghost es0v = es;
                let mut es = es;
                let ghost es0 = es@;
                let mut i: usize = 0;
                while i < es.len()
                    invariant
                        0 <= i <= es@.len(),
                        es@.len() == es0.len(),
                        forall|j: int| i <= j < es0.len() ==> es@[j] == es0[j],
                        self.pass.config() == cfg,
                        scope.ids.deep_view() == sc0,
                        walked_js_seq::<P>(
                            cfg,
                            es0.subrange(0, i as int),
                            es@.subrange(0, i as int),
                            sc0,
                        ),
                    decreases es@.len() - i,
                {
                    let ghost pre = es@.subrange(0, i as int);
                    let x = es.remove(i);
                    proof {
                        assert(es0v == e0->Compound_0);
                        assert(decreases_to!(e0 => e0->Compound_0));
                        assert(decreases_to!(es0v => es0v@));
                        assert(decreases_to!(es0v@ => es0v@[i as int]));
                        assert(x == es0v@[i as int]);
                    }
                    let x = self.walk_js(x, scope);
                    es.insert(i, x);
                    proof {
                        assert(es@.subrange(0, i as int) =~= pre);
                        assert(es0.subrange(0, i + 1).drop_last() =~= es0.subrange(0, i as int));
                        assert(es0.subrange(0, i + 1).last() == es0[i as int]);
                        assert(es@.subrange(0, i + 1).drop_last() =~= es@.subrange(0, i as int));
                        assert(es@.subrange(0, i + 1).last() == es@[i as int]);
                        assert(walked_js_seq::<P>(
                            cfg,
                            es0.subrange(0, i + 1),
                            es@.subrange(0, i + 1),
                            sc0,
                        ));
                    }
                    i = i + 1;
                }
                proof {
                    assert(es0.subrange(0, es0.len() as int) =~= es0);
                    assert(es@.subrange(0, es@.len() as int) =~= es@);
                }
                let mut out = Js::Compound(es);
                let ghost mid = out;
                self.pass.exit_js_expr(&mut out, scope);
                proof {
                    assert(P::expr_rel(cfg, mid, out, sc0));
                    assert(walked_js_seq::<P>(cfg, e0->Compound_0@, mid->Compound_0@, sc0));
                    assert(walked_js::<P>(cfg, e0, out, sc0));
                }
                out
            },
            Js::Array(es) => {
                let ghost es0v = es;
                let mut es = es;
                let ghost es0 = es@;
                let mut i: usize = 0;
                while i < es.len()
                    invariant
                        0 <= i <= es@.len(),
                        es@.len() == es0.len(),
                        forall|j: int| i <= j < es0.len() ==> es@[j] == es0[j],
                        self.pass.config() == cfg,
                        scope.ids.deep_view() == sc0,
                        walked_js_seq::<P>(
                            cfg,
                            es0.subrange(0, i as int),
                            es@.subrange(0, i as int),
                            sc0,
                        ),
                    decreases es@.len() - i,
                {
                    let ghost pre = es@.subrange(0, i as int);
                    let x = es.remove(i);
                    proof {
                        assert(es0v == e0->Array_0);
                        assert(decreases_to!(e0 => e0->Array_0));
                        assert(decreases_to!(es0v => es0v@));
                        assert(decreases_to!(es0v@ => es0v@[i as int]));
                        assert(x == es0v@[i as int]);
                    }
                    let x = self.walk_js(x, scope);
                    es.insert(i, x);
                    proof {
                        assert(es@.subrange(0, i as int) =~= pre);
                        assert(es0.subrange(0, i + 1).drop_last() =~= es0.subrange(0, i as int));
                        assert(es0.subrange(0, i + 1).last() == es0[i as int]);
                        assert(es@.subrange(0, i + 1).drop_last() =~= es@.subrange(0, i as int));
                        assert(es@.subrange(0, i + 1).last() == es@[i as int]);
                        assert(walked_js_seq::<P>(
                            cfg,
                            es0.subrange(0, i + 1),
                            es@.subrange(0, i + 1),
                            sc0,
                        ));
                    }
                    i = i + 1;
                }
                proof {
                    assert(es0.subrange(0, es0.len() as int) =~= es0);
                    assert(es@.subrange(0, es@.len() as int) =~= es@);
                }
                let mut out = Js::Array(es);
                let ghost mid = out;
                self.pass.exit_js_expr(&mut out, scope);
                proof {
                    assert(P::expr_rel(cfg, mid, out, sc0));
                    assert(walked_js_seq::<P>(cfg, e0->Array_0@, mid->Array_0@, sc0));
                    assert(walked_js::<P>(cfg, e0, out, sc0));
                }
                out
            },
            Js::Call(h, es) => {
                let ghost es0v = es;
                let mut es = es;
                let ghost es0 = es@;
                let mut i: usize = 0;
                while i < es.len()
                    invariant
                        0 <= i <= es@.len(),
                        es@.len() == es0.len(),
                        forall|j: int| i <= j < es0.len() ==> es@[j] == es0[j],
                        self.pass.config() == cfg,
                        scope.ids.deep_view() == sc0,
                        walked_js_seq::<P>(
                            cfg,
                            es0.subrange(0, i as int),
                            es@.subrange(0, i as int),
                            sc0,
                        ),
                    decreases es@.len() - i,
                {
                    let ghost pre = es@.subrange(0, i as int);
                    let x = es.remove(i);
                    proof {
                        assert(es0v == e0->Call_1);
                        assert(decreases_to!(e0 => e0->Call_1));
                        assert(decreases_to!(es0v => es0v@));
                        assert(decreases_to!(es0v@ => es0v@[i as int]));
                        assert(x == es0v@[i as int]);
                    }
                    let x = self.walk_js(x, scope);
                    es.insert(i, x);
                    proof {
                        assert(es@.subrange(0, i as int) =~= pre);
                        assert(es0.subrange(0, i + 1).drop_last() =~= es0.subrange(0, i as int));
                        assert(es0.subrange(0, i + 1).last() == es0[i as int]);
                        assert(es@.subrange(0, i + 1).drop_last() =~= es@.subrange(0, i as int));
                        assert(es@.subrange(0, i + 1).last() == es@[i as int]);
                        assert(walked_js_seq::<P>(
                            cfg,
                            es0.subrange(0, i + 1),
                            es@.subrange(0, i + 1),
                            sc0,
                        ));
                    }
                    i = i + 1;
                }
                proof {
                    assert(es0.subrange(0, es0.len() as int) =~= es0);
                    assert(es@.subrange(0, es@.len() as int) =~= es@);
                }
                let mut out = Js::Call(h, es);
                let ghost mid = out;
                self.pass.exit_js_expr(&mut out, scope);
                proof {
                    assert(P::expr_rel(cfg, mid, out, sc0));
                    assert(mid->Call_0 == h);
                    assert(walked_js_seq::<P>(cfg, e0->Call_1@, mid->Call_1@, sc0));
                    assert(walked_js::<P>(cfg, e0, out, sc0));
                }
                out
            },
            Js::Props(ps) => {
                let ghost ps0v = ps;
                let mut ps = ps;
                let ghost ps0 = ps@;
                let mut i: usize = 0;
                while i < ps.len()
                    invariant
                        0 <= i <= ps@.len(),
                        ps@.len() == ps0.len(),
                        forall|j: int| i <= j < ps0.len() ==> ps@[j] == ps0[j],
                        self.pass.config() == cfg,
                        scope.ids.deep_view() == sc0,
                        walked_js_pairs::<P>(
                            cfg,
                            ps0.subrange(0, i as int),
                            ps@.subrange(0, i as int),
                            sc0,
                        ),
                    decreases ps@.len() - i,
                {
                    let ghost pre = ps@.subrange(0, i as int);
                    let (k, v) = ps.remove(i);
                    proof {
                        assert(ps0v == e0->Props_0);
                        assert(decreases_to!(e0 => e0->Props_0));
                        assert(decreases_to!(ps0v => ps0v@));
                        assert(decreases_to!(ps0v@ => ps0v@[i as int]));
                        assert((k, v) == ps0v@[i as int]);
                        assert(decreases_to!(ps0v@[i as int] => ps0v@[i as int].0));
                        assert(decreases_to!(ps0v@[i as int] => ps0v@[i as int].1));
                    }
                    let k = self.walk_js(k, scope);
                    let v = self.walk_js(v, scope);
                    ps.insert(i, (k, v));
                    proof {
                        assert(ps@.subrange(0, i as int) =~= pre);
                        assert(ps0.subrange(0, i + 1).drop_last() =~= ps0.subrange(0, i as int));
                        assert(ps0.subrange(0, i + 1).last() == ps0[i as int]);
                        assert(ps@.subrange(0, i + 1).drop_last() =~= ps@.subrange(0, i as int));
                        assert(ps@.subrange(0, i + 1).last() == ps@[i as int]);
                        assert(walked_js_pairs::<P>(
                            cfg,
                            ps0.subrange(0, i + 1),
                            ps@.subrange(0, i + 1),
                            sc0,
                        ));
                    }
                    i = i + 1;
                }
                proof {
                    assert(ps0.subrange(0, ps0.len() as int) =~= ps0);
                    assert(ps@.subrange(0, ps@.len() as int) =~= ps@);
                }
                let mut out = Js::Props(ps);
                let ghost mid = out;
                self.pass.exit_js_expr(&mut out, scope);
                proof {
                    assert(P::expr_rel(cfg, mid, out, sc0));
                    assert(walked_js_pairs::<P>(cfg, e0->Props_0@, mid->Props_0@, sc0));
                    assert(walked_js::<P>(cfg, e0, out, sc0));
                }
                out
            },
            other => {
                let mut out = other;
                self.pass.exit_js_expr(&mut out, scope);
                proof {
                    assert(P::expr_rel(cfg, e0, out, sc0));
                    assert(walked_js::<P>(cfg, e0, out, sc0));
                }
                out
            },
        }
    }
}

/// A branch of a well-formed branch sequence is well formed.
pub proof fn lemma_wf_branches_index(s: Seq<IfBranch>, i: int)
    requires
        wf_branches(s),
        0 <= i < s.len(),
    ensures
        wf_ir(*s[i].child),
    decreases s.len(),
{
    if i > 0 {
        lemma_wf_branches_index(s.subrange(1, s.len() as int), i - 1);
    }
}

/// A slot of a well-formed slot sequence is well formed.
pub proof fn lemma_wf_slots_index(s: Seq<Slot>, i: int)
    requires
        wf_slots(s),
        0 <= i < s.len(),
    ensures
        wf_slot(s[i]),
    decreases s.len(),
{
    if i > 0 {
        lemma_wf_slots_index(s.subrange(1, s.len() as int), i - 1);
    }
}

} // verus!

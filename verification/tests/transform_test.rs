use render_core::flags::{BindingTypes, RuntimeHelper, StaticLevel};
use render_core::ir::{ForNodeIR, ForParseResult, IRNode, IRRoot, Js, TextIR, VNodeIR};
use render_core::process_expression::{
    rewrite_inline_identifier, rewrite_setup_let, CtxType, ExpressionProcessor,
};
use render_core::codegen::{CodeGenerateOption, CodeWriter};
use render_core::flags::PatchFlag;
use render_core::transformer::{BindingMetadata, Scope, TransformOption, Transformer};

fn simple(s: &str) -> Js {
    Js::Simple(s.to_string(), StaticLevel::NotStatic)
}

fn plain_vnode(tag: &str, props: Option<Js>) -> VNodeIR {
    VNodeIR {
        tag: Js::StrLit(tag.to_string()),
        props,
        children: Vec::new(),
        patch_flag: PatchFlag(0),
        dynamic_props: Vec::new(),
        directives: Vec::new(),
        is_block: false,
        disable_tracking: false,
        is_component: false,
    }
}

/// Run the expression pass with identifier rewriting enabled, the way
/// a converted template would be transformed.
fn transform(mut ir: IRRoot) -> IRRoot {
    let option = TransformOption {
        prefix_identifier: true,
        inline: false,
        binding_metadata: BindingMetadata::new(),
    };
    let exp = ExpressionProcessor::new(option);
    let mut transformer = Transformer::new(exp);
    transformer.transform(&mut ir);
    ir
}

fn js_text(e: Js) -> String {
    let mut w = CodeWriter::new(CodeGenerateOption::default());
    w.generate_js_expr(e);
    w.out
}

fn first_child(ir: IRRoot) -> IRNode {
    ir.body.into_iter().next().unwrap()
}

/// The interpolation `{{test}}` converts to a display call around the
/// simple expression `test`.
fn interpolation(name: &str) -> IRRoot {
    IRRoot {
        body: vec![IRNode::TextCall(TextIR {
            texts: vec![Js::Call(RuntimeHelper::ToDisplayString, vec![simple(name)])],
        })],
    }
}

#[test]
fn test_interpolation_prefix() {
    // the tree a converter builds for "{{test}}"
    let ir = transform(interpolation("test"));
    let text = match first_child(ir) {
        IRNode::TextCall(t) => t,
        _ => panic!("wrong node"),
    };
    let texts = text.texts;
    let expr = match texts.into_iter().next().unwrap() {
        Js::Call(_, r) => r.into_iter().next().unwrap(),
        _ => panic!("wrong interpolation"),
    };
    match &expr {
        Js::Simple(s, _) => assert_eq!(s.as_str(), "_ctx.test"),
        _ => panic!("wrong interpolation"),
    }
}

#[test]
fn test_prop_prefix() {
    // the tree a converter builds for "<p :test='a'/>"
    let props = Js::Props(vec![(Js::StrLit("test".to_string()), simple("a"))]);
    let ir = transform(IRRoot { body: vec![IRNode::VNodeCall(plain_vnode("p", Some(props)))] });
    let vn = match first_child(ir) {
        IRNode::VNodeCall(v) => v,
        _ => panic!("wrong node"),
    };
    let props = vn.props.unwrap();
    let mut props = match props {
        Js::Props(p) => p,
        _ => panic!("wrong props"),
    };
    let (key, value) = props.remove(0);
    match &key {
        Js::StrLit(s) => assert_eq!(s.as_str(), "test"),
        _ => panic!("wrong key"),
    }
    match &value {
        Js::Simple(s, _) => assert_eq!(s.as_str(), "_ctx.a"),
        _ => panic!("wrong value"),
    }
}

#[test]
fn test_v_bind_prefix() {
    // the tree a converter builds for "<p v-bind='b'/>"
    let ir = transform(IRRoot {
        body: vec![IRNode::VNodeCall(plain_vnode("p", Some(simple("b"))))],
    });
    let vn = match first_child(ir) {
        IRNode::VNodeCall(v) => v,
        _ => panic!("wrong node"),
    };
    match vn.props.as_ref().unwrap() {
        Js::Simple(s, _) => assert_eq!(s.as_str(), "_ctx.b"),
        _ => panic!("wrong props"),
    }
}

#[test]
fn test_prefix_v_for() {
    // the tree a converter builds for "<p v-for='a in b'/>"
    let v_for = ForNodeIR {
        source: simple("b"),
        parse_result: ForParseResult {
            value: Js::Param("a".to_string()),
            key: None,
            index: None,
        },
        child: Box::new(IRNode::VNodeCall(plain_vnode("p", None))),
    };
    let ir = transform(IRRoot { body: vec![IRNode::For(v_for)] });
    let v_for = match first_child(ir) {
        IRNode::For(f) => f,
        _ => panic!("wrong node"),
    };
    match &v_for.parse_result.value {
        Js::Param(a) => assert_eq!(a.as_str(), "a"),
        _ => panic!("wrong param"),
    }
    match &v_for.source {
        Js::Simple(b, _) => assert_eq!(b.as_str(), "_ctx.b"),
        _ => panic!("wrong source"),
    }
}

#[test]
fn test_complex_expression() {
    // the tree a converter builds for "{{a + b}}"
    let ir = transform(interpolation("a + b"));
    let text = match first_child(ir) {
        IRNode::TextCall(t) => t,
        _ => panic!("wrong node"),
    };
    let expr = match text.texts.into_iter().next().unwrap() {
        Js::Call(_, r) => r.into_iter().next().unwrap(),
        _ => panic!("wrong interpolation"),
    };
    let parts = match expr {
        Js::Compound(v) => v,
        _ => panic!("wrong expression shape"),
    };
    match &parts[0] {
        Js::Simple(a, _) => assert_eq!(a.as_str(), "_ctx.a"),
        _ => panic!("wrong first part"),
    }
    match &parts[1] {
        Js::Src(op) => assert_eq!(op.as_str(), " + "),
        _ => panic!("wrong middle part"),
    }
    match &parts[2] {
        Js::Simple(b, _) => assert_eq!(b.as_str(), "_ctx.b"),
        _ => panic!("wrong third part"),
    }
}

#[test]
fn scope_reference_left_untouched() {
    // a name bound by the template stays exactly as it is, even inside
    // the construct's own expressions
    let v_for = ForNodeIR {
        source: simple("a"),
        parse_result: ForParseResult {
            value: Js::Param("a".to_string()),
            key: None,
            index: None,
        },
        child: Box::new(IRNode::VNodeCall(plain_vnode("p", Some(simple("a"))))),
    };
    let ir = transform(IRRoot { body: vec![IRNode::For(v_for)] });
    let v_for = match first_child(ir) {
        IRNode::For(f) => f,
        _ => panic!("wrong node"),
    };
    // the source sits outside the loop scope and is rewritten
    match &v_for.source {
        Js::Simple(s, _) => assert_eq!(s.as_str(), "_ctx.a"),
        _ => panic!("wrong source"),
    }
    // the child's reference is in scope and untouched
    let child = *v_for.child;
    let vn = match child {
        IRNode::VNodeCall(v) => v,
        _ => panic!("wrong child"),
    };
    match vn.props.as_ref().unwrap() {
        Js::Simple(s, level) => {
            assert_eq!(s.as_str(), "a");
            assert_eq!(*level, StaticLevel::NotStatic);
        },
        _ => panic!("wrong props"),
    }
}

#[test]
fn literal_and_global_levels() {
    // literal keywords can be stringified; allow-listed globals can be
    // hoisted; neither text changes
    let ir = transform(interpolation("true"));
    let text = match first_child(ir) {
        IRNode::TextCall(t) => t,
        _ => panic!("wrong node"),
    };
    match text.texts.into_iter().next().unwrap() {
        Js::Call(_, r) => match &r[0] {
            Js::Simple(s, level) => {
                assert_eq!(s.as_str(), "true");
                assert_eq!(*level, StaticLevel::CanStringify);
            },
            _ => panic!("wrong expression"),
        },
        _ => panic!("wrong interpolation"),
    }
    let ir = transform(interpolation("Math"));
    let text = match first_child(ir) {
        IRNode::TextCall(t) => t,
        _ => panic!("wrong node"),
    };
    match text.texts.into_iter().next().unwrap() {
        Js::Call(_, r) => match &r[0] {
            Js::Simple(s, level) => {
                assert_eq!(s.as_str(), "Math");
                assert_eq!(*level, StaticLevel::CanHoist);
            },
            _ => panic!("wrong expression"),
        },
        _ => panic!("wrong interpolation"),
    }
}

#[test]
fn rewriting_disabled_is_no_op() {
    // with identifier rewriting off the pass changes nothing at all
    let mut ir = interpolation("test");
    let exp = ExpressionProcessor::new(TransformOption::default());
    let mut transformer = Transformer::new(exp);
    transformer.transform(&mut ir);
    let text = match first_child(ir) {
        IRNode::TextCall(t) => t,
        _ => panic!("wrong node"),
    };
    match text.texts.into_iter().next().unwrap() {
        Js::Call(_, r) => match &r[0] {
            Js::Simple(s, _) => assert_eq!(s.as_str(), "test"),
            _ => panic!("wrong expression"),
        },
        _ => panic!("wrong interpolation"),
    }
}

#[test]
fn binding_rewrite_table() {
    // each binding kind rewrites as the table says
    let mk = |kind: BindingTypes| {
        let mut metadata = BindingMetadata::new();
        metadata.insert("v", kind);
        ExpressionProcessor::new(TransformOption {
            prefix_identifier: true,
            inline: true,
            binding_metadata: metadata,
        })
    };
    let rewrite = |kind: BindingTypes| {
        let p = mk(kind);
        js_text(p.rewrite_identifier("v".to_string(), StaticLevel::NotStatic, CtxType::NoWrite))
    };
    assert_eq!(rewrite(BindingTypes::SetupConst), "v");
    assert_eq!(rewrite(BindingTypes::SetupRef), "v.value");
    assert_eq!(rewrite(BindingTypes::SetupMaybeRef), "_unref(v)");
    assert_eq!(rewrite(BindingTypes::SetupLet), "_unref(v)");
    assert_eq!(rewrite(BindingTypes::Props), "__props.v");
    assert_eq!(rewrite(BindingTypes::Data), "_ctx.v");
    assert_eq!(rewrite(BindingTypes::Options), "_ctx.v");
    // an unknown name falls back to the render context
    let p = ExpressionProcessor::new(TransformOption {
        prefix_identifier: true,
        inline: false,
        binding_metadata: BindingMetadata::new(),
    });
    assert_eq!(
        js_text(p.rewrite_identifier("v".to_string(), StaticLevel::NotStatic, CtxType::NoWrite)),
        "_ctx.v"
    );
}

#[test]
fn setup_let_write_contexts() {
    let assign = rewrite_setup_let(
        "v".to_string(),
        StaticLevel::NotStatic,
        CtxType::Assign(Js::Src(" = 1".to_string())),
    );
    assert_eq!(js_text(assign), "_isRef(v)? v.value = 1: v = 1");
    let update = rewrite_setup_let(
        "v".to_string(),
        StaticLevel::NotStatic,
        CtxType::Update(false, Js::Src("++".to_string())),
    );
    assert_eq!(js_text(update), "_isRef(v)? v.value++: v++");
    let destructure =
        rewrite_setup_let("v".to_string(), StaticLevel::NotStatic, CtxType::Destructure);
    assert_eq!(js_text(destructure), "v");
    let maybe = rewrite_inline_identifier(
        "v".to_string(),
        StaticLevel::NotStatic,
        BindingTypes::SetupMaybeRef,
        CtxType::Assign(Js::Src(" = 1".to_string())),
    );
    assert_eq!(js_text(maybe), "v.value");
}

#[test]
fn parse_failure_is_surfaced() {
    // a text that is not one JS expression is kept and recorded as a
    // diagnostic
    let option = TransformOption {
        prefix_identifier: true,
        inline: false,
        binding_metadata: BindingMetadata::new(),
    };
    let mut p = ExpressionProcessor::new(option);
    let mut e = simple("a +");
    let scope = Scope::new();
    p.process_expression(&mut e, &scope);
    assert_eq!(p.errors.len(), 1);
    assert_eq!(p.errors[0].as_str(), "a +");
    match &e {
        Js::Simple(s, _) => assert_eq!(s.as_str(), "a +"),
        _ => panic!("expression should be unchanged"),
    }
}

#[test]
fn slow_path_keeps_globals_and_scope() {
    // in "Math.max(a, n)" with n in scope, only `a` is rewritten
    let option = TransformOption {
        prefix_identifier: true,
        inline: false,
        binding_metadata: BindingMetadata::new(),
    };
    let mut p = ExpressionProcessor::new(option);
    let mut scope = Scope::new();
    scope.add_identifier("n");
    let mut e = simple("Math.max(a, n)");
    p.process_expression(&mut e, &scope);
    assert_eq!(js_text(e), "Math.max(_ctx.a, n)");
    assert_eq!(p.errors.len(), 0);
}

#[test]
fn scope_tracks_nesting() {
    let mut scope = Scope::new();
    assert!(!scope.has_identifier("x"));
    scope.add_identifier("x");
    scope.add_identifier("x");
    scope.remove_identifier("x");
    assert!(scope.has_identifier("x"));
    scope.remove_identifier("x");
    assert!(!scope.has_identifier("x"));
}

#[test]
fn binding_metadata_first_entry_wins() {
    let mut metadata = BindingMetadata::new();
    metadata.insert("x", BindingTypes::Props);
    metadata.insert("x", BindingTypes::Data);
    assert_eq!(metadata.get("x"), Some(BindingTypes::Props));
    assert_eq!(metadata.get("y"), None);
}

#[test]
fn scope_does_not_leak_across_siblings() {
    // the first loop declares `a`; a sibling after it sees no `a`, so
    // the same name is rewritten there
    let loop1 = IRNode::For(ForNodeIR {
        source: simple("b"),
        parse_result: ForParseResult {
            value: Js::Param("a".to_string()),
            key: None,
            index: None,
        },
        child: Box::new(IRNode::VNodeCall(plain_vnode("p", Some(simple("a"))))),
    });
    let after = IRNode::TextCall(TextIR {
        texts: vec![Js::Call(RuntimeHelper::ToDisplayString, vec![simple("a")])],
    });
    let ir = transform(IRRoot { body: vec![loop1, after] });
    let second = ir.body.into_iter().nth(1).unwrap();
    let text = match second {
        IRNode::TextCall(t) => t,
        _ => panic!("wrong node"),
    };
    match text.texts.into_iter().next().unwrap() {
        Js::Call(_, r) => match &r[0] {
            Js::Simple(s, _) => assert_eq!(s.as_str(), "_ctx.a"),
            _ => panic!("wrong expression"),
        },
        _ => panic!("wrong interpolation"),
    }
}

#[test]
fn non_ascii_expression_is_surfaced() {
    // the JS-parse capability is relied on for ASCII text only; any
    // other expression text is kept and recorded as a diagnostic
    let option = TransformOption {
        prefix_identifier: true,
        inline: false,
        binding_metadata: BindingMetadata::new(),
    };
    let mut p = ExpressionProcessor::new(option);
    let mut e = simple("x => { \u{e9} }");
    let scope = Scope::new();
    p.process_expression(&mut e, &scope);
    assert_eq!(p.errors.len(), 1);
    assert_eq!(p.errors[0].as_str(), "x => { \u{e9} }");
    match &e {
        Js::Simple(s, _) => assert_eq!(s.as_str(), "x => { \u{e9} }"),
        _ => panic!("expression should be unchanged"),
    }
}

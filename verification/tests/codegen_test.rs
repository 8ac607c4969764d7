use render_core::codegen::{
    elide_trailing_args, runtime_dirs_to_js_arr, stringify_dynamic_prop_names, u32_dec,
    CodeGenerateOption, CodeWriter,
};
use render_core::flags::{patch_flag_names, PatchFlag, RuntimeHelper, StaticLevel};
use render_core::ir::{
    ForNodeIR, ForParseResult, IRNode, IRRoot, IfBranch, IfNodeIR, Js, RenderSlotIR, RuntimeDir,
    Slot, TextIR, VNodeIR, VSlotIR,
};

fn simple(s: &str) -> Js {
    Js::Simple(s.to_string(), StaticLevel::NotStatic)
}

fn writer() -> CodeWriter {
    CodeWriter::new(CodeGenerateOption::default())
}

fn gen_root(body: Vec<IRNode>) -> String {
    let mut w = writer();
    w.generate_root(IRRoot { body });
    w.out
}

fn gen_node(ir: IRNode) -> String {
    let mut w = writer();
    w.generate_ir(ir);
    w.out
}

fn text_node(texts: Vec<Js>) -> IRNode {
    IRNode::TextCall(TextIR { texts })
}

fn vnode(tag: &str) -> VNodeIR {
    VNodeIR {
        tag: Js::StrLit(tag.to_string()),
        props: None,
        children: Vec::new(),
        patch_flag: PatchFlag(0),
        dynamic_props: Vec::new(),
        directives: Vec::new(),
        is_block: false,
        disable_tracking: false,
        is_component: false,
    }
}

#[test]
fn test_text() {
    // a converter collapses the whitespace of "hello       world"
    // before the tree reaches the generator
    let s = gen_root(vec![text_node(vec![Js::StrLit("hello world".to_string())])]);
    assert!(s.contains("\"hello world\""));
}

#[test]
fn test_basic_cases() {
    let cases = ["Hello world"];
    for case in cases {
        let out = gen_root(vec![text_node(vec![Js::StrLit(case.to_string())])]);
        assert!(out.contains(case));
        // the `function` target has its return outside a function
        let wrap_in_func = format!("function () {{ {} }}", out);
        let parsed = rslint_parser::parse_text(&wrap_in_func, 0);
        assert!(parsed.errors().is_empty());
    }
}

#[test]
fn whole_render_function_shape() {
    let s = gen_root(vec![text_node(vec![Js::StrLit("hi".to_string())])]);
    assert_eq!(
        s,
        "return function render(_ctx, _cache) {\n  with (_ctx) {\n    return \"hi\"\n  }\n}"
    );
}

#[test]
fn empty_root_returns_null() {
    let s = gen_root(Vec::new());
    assert!(s.contains("return null"));
}

#[test]
fn multiple_roots_wrap_in_fragment() {
    let s = gen_root(vec![
        text_node(vec![Js::StrLit("a".to_string())]),
        text_node(vec![Js::StrLit("b".to_string())]),
    ]);
    assert!(s.contains("_createElementVNode(_Fragment, null, "));
}

#[test]
fn text_pieces_join_with_plus() {
    let s = gen_node(text_node(vec![
        Js::StrLit("hello ".to_string()),
        Js::Call(RuntimeHelper::ToDisplayString, vec![simple("_ctx.world")]),
    ]));
    assert_eq!(s, "\"hello \" + _toDisplayString(_ctx.world)");
}

#[test]
fn string_literals_are_escaped() {
    let s = gen_node(text_node(vec![Js::StrLit("a\"b\\c\nd".to_string())]));
    assert_eq!(s, "\"a\\\"b\\\\c\\nd\"");
}

#[test]
fn vnode_args_elide_trailing() {
    // only the tag: one argument
    let s = gen_node(IRNode::VNodeCall(vnode("div")));
    assert_eq!(s, "_createElementVNode(\"div\")");
    // a patch flag back-fills the absent props and children with null
    let mut v = vnode("div");
    v.patch_flag = PatchFlag(8);
    let s = gen_node(IRNode::VNodeCall(v));
    assert_eq!(s, "_createElementVNode(\"div\", null, null, 8 /*PROPS*/)");
    // dynamic prop names occupy the fifth slot
    let mut v = vnode("div");
    v.patch_flag = PatchFlag(8);
    v.dynamic_props = vec!["foo".to_string()];
    let s = gen_node(IRNode::VNodeCall(v));
    assert_eq!(
        s,
        "_createElementVNode(\"div\", null, null, 8 /*PROPS*/, [\"foo\"])"
    );
    // present middle arguments are emitted in place
    let mut v = vnode("div");
    v.props = Some(Js::Props(vec![(Js::StrLit("id".to_string()), simple("_ctx.a"))]));
    let s = gen_node(IRNode::VNodeCall(v));
    assert_eq!(s, "_createElementVNode(\"div\", { \"id\": _ctx.a })");
}

#[test]
fn elision_plan_matches_highest_present_index() {
    let plan = elide_trailing_args(&vec![true, false, true, false, false]);
    assert_eq!(plan, vec![true, false, true]);
    let plan = elide_trailing_args(&vec![true]);
    assert_eq!(plan, vec![true]);
    let plan = elide_trailing_args(&vec![false, false]);
    assert_eq!(plan.len(), 0);
}

#[test]
fn block_vnode_opens_block() {
    let mut v = vnode("div");
    v.is_block = true;
    let s = gen_node(IRNode::VNodeCall(v));
    assert_eq!(s, "(_openBlock(), _createElementBlock(\"div\"))");
    let mut v = vnode("div");
    v.is_block = true;
    v.disable_tracking = true;
    v.is_component = true;
    let s = gen_node(IRNode::VNodeCall(v));
    assert_eq!(s, "(_openBlock(true), _createBlock(\"div\"))");
}

#[test]
fn component_vnode_uses_component_helper() {
    let mut v = vnode("Comp");
    v.is_component = true;
    let s = gen_node(IRNode::VNodeCall(v));
    assert_eq!(s, "_createVNode(\"Comp\")");
}

#[test]
fn directives_wrap_the_call() {
    let mut v = vnode("div");
    v.directives = vec![RuntimeDir {
        name: Js::Src("_directive_focus".to_string()),
        expr: Some(simple("_ctx.ok")),
        arg: None,
        mods: None,
    }];
    let s = gen_node(IRNode::VNodeCall(v));
    assert_eq!(
        s,
        "_withDirectives(_createElementVNode(\"div\"), [[_directive_focus, _ctx.ok]])"
    );
}

#[test]
fn directive_entries_elide_and_backfill() {
    let dirs = vec![RuntimeDir {
        name: Js::Src("_directive_pin".to_string()),
        expr: None,
        arg: Some(Js::StrLit("top".to_string())),
        mods: None,
    }];
    let arr = runtime_dirs_to_js_arr(dirs);
    let mut w = writer();
    w.generate_js_expr(arr);
    assert_eq!(w.out, "[[_directive_pin, null, \"top\"]]");
}

#[test]
fn if_chain_emits_ternaries() {
    let branches = vec![
        IfBranch {
            condition: Some(simple("_ctx.ok")),
            child: Box::new(text_node(vec![Js::StrLit("yes".to_string())])),
        },
        IfBranch {
            condition: None,
            child: Box::new(text_node(vec![Js::StrLit("no".to_string())])),
        },
    ];
    let s = gen_node(IRNode::If(IfNodeIR { branches }));
    assert_eq!(s, "_ctx.ok ? \"yes\" : \"no\"");
}

#[test]
fn if_chain_without_else_falls_back_to_null() {
    let branches = vec![IfBranch {
        condition: Some(simple("_ctx.ok")),
        child: Box::new(text_node(vec![Js::StrLit("yes".to_string())])),
    }];
    let s = gen_node(IRNode::If(IfNodeIR { branches }));
    assert_eq!(s, "_ctx.ok ? \"yes\" : null");
}

#[test]
fn for_emits_render_list_callback() {
    let v_for = ForNodeIR {
        source: simple("_ctx.items"),
        parse_result: ForParseResult {
            value: Js::Param("item".to_string()),
            key: Some(Js::Param("key".to_string())),
            index: None,
        },
        child: Box::new(text_node(vec![simple("item")])),
    };
    let s = gen_node(IRNode::For(v_for));
    assert_eq!(s, "_renderList(_ctx.items, (item, key) => item)");
}

#[test]
fn slot_outlet_emits_render_slot() {
    let r = RenderSlotIR {
        slot_name: Js::StrLit("default".to_string()),
        slot_props: None,
        fallbacks: vec![text_node(vec![Js::StrLit("fallback".to_string())])],
    };
    let s = gen_node(IRNode::RenderSlotCall(r));
    assert_eq!(
        s,
        "_renderSlot(_ctx.$slots, \"default\", null, () => [\"fallback\"])"
    );
}

#[test]
fn slots_object_holds_entries() {
    let v_slot = VSlotIR {
        stable_slots: vec![Slot {
            name: Js::StrLit("default".to_string()),
            param: Some(Js::Param("props".to_string())),
            body: vec![text_node(vec![Js::StrLit("body".to_string())])],
        }],
        alterable_slots: Vec::new(),
    };
    let s = gen_node(IRNode::VSlotUse(v_slot));
    assert_eq!(s, "{ \"default\": (props) => [\"body\"] }");
}

#[test]
fn comment_emits_creation_call() {
    let s = gen_node(IRNode::CommentCall("hi there".to_string()));
    assert_eq!(s, "_createCommentVNode(\"hi there\")");
}

#[test]
fn patch_flag_renders_decimal_and_names() {
    assert_eq!(u32_dec(0).as_str(), "0");
    assert_eq!(u32_dec(65535).as_str(), "65535");
    assert_eq!(patch_flag_names(1).as_str(), "TEXT");
    assert_eq!(patch_flag_names(9).as_str(), "TEXT | PROPS");
    assert_eq!(patch_flag_names(2048).as_str(), "DEV_ROOT_FRAGMENT");
}

#[test]
fn nested_children_concatenate() {
    let mut outer = vnode("div");
    outer.children = vec![text_node(vec![Js::StrLit("a".to_string())])];
    let s = gen_node(IRNode::VNodeCall(outer));
    assert_eq!(s, "_createElementVNode(\"div\", null, \"a\")");
}

#[test]
fn dynamic_prop_names_dedup_first_seen() {
    assert!(stringify_dynamic_prop_names(Vec::new()).is_none());
    let names = vec![
        "a".to_string(),
        "b".to_string(),
        "a".to_string(),
        "c".to_string(),
        "b".to_string(),
    ];
    let js = stringify_dynamic_prop_names(names).unwrap();
    let mut w = writer();
    w.generate_js_expr(js);
    assert_eq!(w.out, "[\"a\", \"b\", \"c\"]");
}

#[test]
fn line_separators_are_escaped() {
    let s = gen_node(text_node(vec![Js::StrLit("a\u{2028}b\u{2029}c".to_string())]));
    assert_eq!(s, "\"a\\u2028b\\u2029c\"");
}

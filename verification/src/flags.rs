use vstd::prelude::*;

verus! {

/// How aggressively a simple expression may be cached or hoisted.
/// Ordered: `NotStatic < CanSkipPatch < CanHoist < CanStringify`;
/// a level must never overstate how optimizable the expression is.
#[derive(Clone, Copy, PartialEq, Eq, Structural, Debug)]
pub enum StaticLevel {
    NotStatic,
    CanSkipPatch,
    CanHoist,
    CanStringify,
}

/// Numeric rank of a static level, for stating ordering facts.
pub open spec fn level_rank(l: StaticLevel) -> int {
    match l {
        StaticLevel::NotStatic => 0,
        StaticLevel::CanSkipPatch => 1,
        StaticLevel::CanHoist => 2,
        StaticLevel::CanStringify => 3,
    }
}

/// Where an identifier used by a template gets its value from, fixed
/// per compilation before the transform runs.
#[derive(Clone, Copy, PartialEq, Eq, Structural, Debug)]
pub enum BindingTypes {
    SetupConst,
    SetupRef,
    SetupMaybeRef,
    SetupLet,
    Props,
    Data,
    Options,
}

/// Symbols of the reactive runtime that generated code may call; each is
/// emitted as `_` followed by its name only at generation time.
#[derive(Clone, Copy, PartialEq, Eq, Structural, Debug)]
pub enum RuntimeHelper {
    Fragment,
    OpenBlock,
    CreateBlock,
    CreateElementBlock,
    CreateVnode,
    CreateElementVnode,
    WithDirectives,
    Unref,
    IsRef,
    ToDisplayString,
    RenderList,
    RenderSlot,
    CreateComment,
    WithCtx,
}

/// The runtime-library name of each helper symbol.
pub open spec fn spec_helper_str(h: RuntimeHelper) -> Seq<char> {
    match h {
        RuntimeHelper::Fragment => "Fragment"@,
        RuntimeHelper::OpenBlock => "openBlock"@,
        RuntimeHelper::CreateBlock => "createBlock"@,
        RuntimeHelper::CreateElementBlock => "createElementBlock"@,
        RuntimeHelper::CreateVnode => "createVNode"@,
        RuntimeHelper::CreateElementVnode => "createElementVNode"@,
        RuntimeHelper::WithDirectives => "withDirectives"@,
        RuntimeHelper::Unref => "unref"@,
        RuntimeHelper::IsRef => "isRef"@,
        RuntimeHelper::ToDisplayString => "toDisplayString"@,
        RuntimeHelper::RenderList => "renderList"@,
        RuntimeHelper::RenderSlot => "renderSlot"@,
        RuntimeHelper::CreateComment => "createCommentVNode"@,
        RuntimeHelper::WithCtx => "withCtx"@,
    }
}

impl RuntimeHelper {
    /// The runtime-library name of this helper symbol.
    pub fn helper_str(&self) -> (r: &'static str)
        ensures
            r@ == spec_helper_str(*self),
    {
        match self {
            RuntimeHelper::Fragment => "Fragment",
            RuntimeHelper::OpenBlock => "openBlock",
            RuntimeHelper::CreateBlock => "createBlock",
            RuntimeHelper::CreateElementBlock => "createElementBlock",
            RuntimeHelper::CreateVnode => "createVNode",
            RuntimeHelper::CreateElementVnode => "createElementVNode",
            RuntimeHelper::WithDirectives => "withDirectives",
            RuntimeHelper::Unref => "unref",
            RuntimeHelper::IsRef => "isRef",
            RuntimeHelper::ToDisplayString => "toDisplayString",
            RuntimeHelper::RenderList => "renderList",
            RuntimeHelper::RenderSlot => "renderSlot",
            RuntimeHelper::CreateComment => "createCommentVNode",
            RuntimeHelper::WithCtx => "withCtx",
        }
    }
}

/// A change reason a vnode is marked with; reasons are combined by
/// bitwise or. The names follow the runtime's patch-flag table.
pub const PF_TEXT: u32 = 1;

pub const PF_CLASS: u32 = 2;

pub const PF_STYLE: u32 = 4;

pub const PF_PROPS: u32 = 8;

pub const PF_FULL_PROPS: u32 = 16;

pub const PF_HYDRATE_EVENTS: u32 = 32;

pub const PF_STABLE_FRAGMENT: u32 = 64;

pub const PF_KEYED_FRAGMENT: u32 = 128;

pub const PF_UNKEYED_FRAGMENT: u32 = 256;

pub const PF_NEED_PATCH: u32 = 512;

pub const PF_DYNAMIC_SLOTS: u32 = 1024;

pub const PF_DEV_ROOT_FRAGMENT: u32 = 2048;

/// Bitset of change reasons for one vnode; an empty set means the node
/// is static.
#[derive(Clone, Copy, PartialEq, Eq, Structural, Debug)]
pub struct PatchFlag(pub u32);

impl PatchFlag {
    /// The set with no change reason.
    pub fn empty() -> (r: PatchFlag)
        ensures
            r.0 == 0,
    {
        PatchFlag(0)
    }

    /// The raw bits of the set.
    pub fn bits(&self) -> (r: u32)
        ensures
            r == self.0,
    {
        self.0
    }

    /// Whether no change reason is set.
    pub fn is_empty(&self) -> (r: bool)
        ensures
            r == (self.0 == 0),
    {
        self.0 == 0
    }
}

/// One step of assembling the debug names of a patch flag: append `name`
/// (preceded by a separator if something was already written) when `set`
/// holds. The boolean tracks whether any name was written so far.
pub open spec fn flag_step(st: (Seq<char>, bool), set: bool, name: Seq<char>) -> (Seq<char>, bool) {
    if set {
        if st.1 {
            (st.0 + " | "@ + name, true)
        } else {
            (st.0 + name, true)
        }
    } else {
        st
    }
}

/// The debug names of all change reasons set in `bits`, joined by ` | `,
/// in the fixed table order.
pub open spec fn spec_flag_names(bits: u32) -> Seq<char> {
    flag_step(
        flag_step(
            flag_step(
                flag_step(
                    flag_step(
                        flag_step(
                            flag_step(
                                flag_step(
                                    flag_step(
                                        flag_step(
                                            flag_step(
                                                flag_step(
                                                    (Seq::<char>::empty(), false),
                                                    bits & PF_TEXT != 0,
                                                    "TEXT"@,
                                                ),
                                                bits & PF_CLASS != 0,
                                                "CLASS"@,
                                            ),
                                            bits & PF_STYLE != 0,
                                            "STYLE"@,
                                        ),
                                        bits & PF_PROPS != 0,
                                        "PROPS"@,
                                    ),
                                    bits & PF_FULL_PROPS != 0,
                                    "FULL_PROPS"@,
                                ),
                                bits & PF_HYDRATE_EVENTS != 0,
                                "HYDRATE_EVENTS"@,
                            ),
                            bits & PF_STABLE_FRAGMENT != 0,
                            "STABLE_FRAGMENT"@,
                        ),
                        bits & PF_KEYED_FRAGMENT != 0,
                        "KEYED_FRAGMENT"@,
                    ),
                    bits & PF_UNKEYED_FRAGMENT != 0,
                    "UNKEYED_FRAGMENT"@,
                ),
                bits & PF_NEED_PATCH != 0,
                "NEED_PATCH"@,
            ),
            bits & PF_DYNAMIC_SLOTS != 0,
            "DYNAMIC_SLOTS"@,
        ),
        bits & PF_DEV_ROOT_FRAGMENT != 0,
        "DEV_ROOT_FRAGMENT"@,
    ).0
}

/// The debug names of the change reasons set in `bits`, joined by ` | `.
pub fn patch_flag_names(bits: u32) -> (r: String)
    ensures
        r@ == spec_flag_names(bits),
{
    let mut s = String::new();
    let mut any = false;
    if bits & PF_TEXT != 0 {
        if any {
            s.append(" | ");
        }
        s.append("TEXT");
        any = true;
    }
    if bits & PF_CLASS != 0 {
        if any {
            s.append(" | ");
        }
        s.append("CLASS");
        any = true;
    }
    if bits & PF_STYLE != 0 {
        if any {
            s.append(" | ");
        }
        s.append("STYLE");
        any = true;
    }
    if bits & PF_PROPS != 0 {
        if any {
            s.append(" | ");
        }
        s.append("PROPS");
        any = true;
    }
    if bits & PF_FULL_PROPS != 0 {
        if any {
            s.append(" | ");
        }
        s.append("FULL_PROPS");
        any = true;
    }
    if bits & PF_HYDRATE_EVENTS != 0 {
        if any {
            s.append(" | ");
        }
        s.append("HYDRATE_EVENTS");
        any = true;
    }
    if bits & PF_STABLE_FRAGMENT != 0 {
        if any {
            s.append(" | ");
        }
        s.append("STABLE_FRAGMENT");
        any = true;
    }
    if bits & PF_KEYED_FRAGMENT != 0 {
        if any {
            s.append(" | ");
        }
        s.append("KEYED_FRAGMENT");
        any = true;
    }
    if bits & PF_UNKEYED_FRAGMENT != 0 {
        if any {
            s.append(" | ");
        }
        s.append("UNKEYED_FRAGMENT");
        any = true;
    }
    if bits & PF_NEED_PATCH != 0 {
        if any {
            s.append(" | ");
        }
        s.append("NEED_PATCH");
        any = true;
    }
    if bits & PF_DYNAMIC_SLOTS != 0 {
        if any {
            s.append(" | ");
        }
        s.append("DYNAMIC_SLOTS");
        any = true;
    }
    if bits & PF_DEV_ROOT_FRAGMENT != 0 {
        if any {
            s.append(" | ");
        }
        s.append("DEV_ROOT_FRAGMENT");
        any = true;
    }
    s
}

} // verus!

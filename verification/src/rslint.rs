use rslint_parser::AstNode;
use vstd::prelude::*;
use vstd::string::StringSliceAdditionalSpecFns;
use vstd::utf8::{encode_utf8, is_char_boundary};

verus! {

/// One value reference found in a JS expression: the referenced name
/// and its byte span within the parsed text. Every name in value
/// position is reported, including names that parameters declared
/// inside the expression itself bind; property names are not.
pub struct NameSpan {
    pub name: String,
    pub start: usize,
    pub end: usize,
}

/// The mathematical content of a span list: for each reference its
/// characters and its byte offsets.
pub open spec fn span_views(v: Seq<NameSpan>) -> Seq<(Seq<char>, int, int)> {
    Seq::new(v.len(), |i: int| (v[i].name@, v[i].start as int, v[i].end as int))
}

/// What the JS parser finds in `text`: `None` when the text does not
/// parse as one expression, otherwise every value reference with its
/// byte span, in source order. The parser is a pure function of the
/// text, so its outcome is named rather than written out.
pub uninterp spec fn js_name_refs(text: Seq<char>) -> Option<Seq<(Seq<char>, int, int)>>;

/// One span is sound for `bytes`: a non-empty range inside the text,
/// cut at character boundaries, whose bytes encode exactly the name.
pub open spec fn span_ok(t: (Seq<char>, int, int), bytes: Seq<u8>) -> bool {
    &&& 0 <= t.1 < t.2 <= bytes.len()
    &&& is_char_boundary(bytes, t.1)
    &&& is_char_boundary(bytes, t.2)
    &&& encode_utf8(t.0) == bytes.subrange(t.1, t.2)
}

/// Every span is sound and the spans are disjoint and ascending.
pub open spec fn wf_spans(vs: Seq<(Seq<char>, int, int)>, bytes: Seq<u8>) -> bool {
    &&& forall|i: int| 0 <= i < vs.len() ==> span_ok(#[trigger] vs[i], bytes)
    &&& forall|i: int, j: int| 0 <= i < j < vs.len() ==> #[trigger] vs[i].2 <= #[trigger] vs[j].1
}

/// Relies on `rslint_parser::parse_expr` and the `NAME_REF` nodes of
/// the syntax tree it builds: a reported error means the text is not
/// one well-formed JS expression; otherwise each `NAME_REF` node is a
/// value reference to a name (property names are `NAME` nodes), the
/// tree's preorder yields them in source order with disjoint spans, and
/// a node's trimmed range delimits exactly the bytes of its trimmed
/// text within the input. The call is relied on for ASCII text only:
/// while attaching leading trivia to a statement node, this parser
/// build slices the input one byte past the trivia and unwraps, which
/// panics when that byte falls inside a multibyte character; on ASCII
/// text every byte index is a character boundary and the slice stays
/// inside the input, so the `requires` leaves the panicking inputs out.
/// The enumeration approximates the design's free-variable walk: every
/// name in value position is reported, so a name bound by a parameter
/// declared inside the expression itself is not excluded, and an
/// object-literal shorthand value (a `NAME` node here) is not reported.
#[verifier::external_body]
pub(crate) fn parse_name_refs(text: &str) -> (r: Option<Vec<NameSpan>>)
    requires
        text.is_ascii(),
    ensures
        r is Some <==> js_name_refs(text@) is Some,
        r matches Some(v) ==> js_name_refs(text@) == Some(span_views(v@)),
        r matches Some(v) ==> wf_spans(span_views(v@), text.spec_bytes()),
{
    let parsed = rslint_parser::parse_expr(text, 0);
    if !parsed.errors().is_empty() {
        return None;
    }
    let to_span = |n: rslint_parser::ast::NameRef| {
        let r = rslint_parser::SyntaxNodeExt::trimmed_range(n.syntax());
        let name = rslint_parser::SyntaxNodeExt::trimmed_text(n.syntax()).to_string();
        NameSpan { name, start: r.start().into(), end: r.end().into() }
    };
    let refs = parsed.syntax().descendants().filter_map(rslint_parser::ast::NameRef::cast);
    Some(refs.map(to_span).collect())
}

} // verus!

//! Binding a document's line nodes to IR rows: which lines become rows, the
//! row ids and line numbers they carry, and the pieces every plugin's rows
//! are made of.
use vstd::prelude::*;

use crate::cst::{cst_children, cst_kind, kind_name, lemma_view_nodes, view_node, view_nodes, CstNode, CstV, KindV, SourceSpan, SyntaxKind};
use crate::ir::{field_views, row_views, ConfigDocumentIr, DocumentIrV, FieldIr, FieldIrV, RowIr, RowIrV, ShapeIr, ShapeIrV};
use crate::json::{view_jsons, JsonV, JsonValue};
use crate::rows::{count_newlines_in_node, lemma_line_no_mono, line_no, node_lines, count_nl};
use crate::schema::{check_view, field_value_check, opt_text, clone_opt_string, validate_field_value, FieldDef, PluginManifest};
use crate::text::{dec, push_dec, push_str, str_eq, string_views};

verus! {

/// Binds one line node to its IR row.
pub trait RowBinder {
    /// The row a line node at line `ln` becomes.
    spec fn row_spec(&self, line: CstV, ln: int) -> RowIrV;

    fn bind_row(&self, line: &CstNode, ln: usize) -> (r: RowIr)
        ensures
            r@ == self.row_spec(line@, ln as int),
    ;
}

/// The rows of a document's children: one for each `Entry` node, in order.
pub open spec fn entry_rows<B: RowBinder>(b: B, cs: Seq<CstV>) -> Seq<RowIrV>
    decreases cs.len(),
{
    if cs.len() == 0 {
        Seq::empty()
    } else {
        let i = cs.len() - 1;
        entry_rows(b, cs.drop_last()) + if cst_kind(cs[i]) == KindV::Entry {
            seq![b.row_spec(cs[i], line_no(cs, i))]
        } else {
            Seq::<RowIrV>::empty()
        }
    }
}

/// Every line number of the document fits in a `usize`.
pub open spec fn lines_fit(v: CstV) -> bool {
    line_no(cst_children(v), cst_children(v).len() as int) <= usize::MAX
}

pub proof fn lemma_line_no_prefix(cs: Seq<CstV>, k: int, i: int)
    requires
        0 <= i <= k <= cs.len(),
    ensures
        line_no(cs.subrange(0, k), i) == line_no(cs, i),
    decreases i,
{
    if i > 0 {
        lemma_line_no_prefix(cs, k, i - 1);
    }
}

/// The rows of a document, one for each `Entry` line node.
#[verifier::loop_isolation(false)]
pub fn bind_rows<B: RowBinder>(b: &B, cst: &CstNode) -> (r: Vec<RowIr>)
    requires
        lines_fit(cst@),
    ensures
        row_views(r@) == entry_rows(*b, cst_children(cst@)),
{
    let children = cst.children();
    proof {
        lemma_view_nodes(children@);
    }
    let ghost cs = cst_children(cst@);
    let mut rows: Vec<RowIr> = Vec::new();
    let mut cur: usize = 1;
    let mut i: usize = 0;
    assert(cs.subrange(0, 0) =~= Seq::<CstV>::empty());
    assert(row_views(rows@) =~= Seq::<RowIrV>::empty());
    while i < children.len()
        invariant
            i <= children@.len(),
            cs == view_nodes(children@),
            cs.len() == children@.len(),
            cur as int == line_no(cs, i as int),
            row_views(rows@) == entry_rows(*b, cs.subrange(0, i as int)),
        decreases children@.len() - i,
    {
        let ghost before = rows@;
        let line = &children[i];
        assert(cs[i as int] == line@);
        proof {
            let sub = cs.subrange(0, i + 1);
            assert(sub.drop_last() =~= cs.subrange(0, i as int));
            lemma_line_no_prefix(cs, i + 1, i as int);
            assert(sub[i as int] == cs[i as int]);
        }
        if line.kind().same_kind(&SyntaxKind::Entry) {
            let row = b.bind_row(line, cur);
            rows.push(row);
            assert(row_views(rows@) =~= row_views(before).push(row@));
        } else {
            assert(row_views(rows@) =~= row_views(before));
        }
        assert(row_views(rows@) =~= entry_rows(*b, cs.subrange(0, i + 1)));
        let nl = count_newlines_in_node(line);
        proof {
            lemma_line_no_mono(cs, i + 1, cs.len() as int);
            assert(line_no(cs, i + 1) == line_no(cs, i as int) + node_lines(cs[i as int]));
            assert(count_nl(crate::cst::cst_text(cs[i as int])) <= usize::MAX);
        }
        let inc: usize = if nl == 0 {
            1
        } else {
            nl
        };
        cur = cur + inc;
        i = i + 1;
    }
    assert(cs.subrange(0, cs.len() as int) =~= cs);
    rows
}

/// The IR a plugin's manifest and its rows make.
pub open spec fn doc_ir_spec(m: PluginManifest, rows: Seq<RowIrV>) -> DocumentIrV {
    DocumentIrV {
        plugin_name: m.plugin.name@,
        shape: ShapeIrV { kind: m.shape.kind, order_sensitive: m.shape.order_sensitive, order_note: opt_text(m.shape.order_note) },
        rows,
    }
}

pub fn doc_ir(m: &PluginManifest, rows: Vec<RowIr>) -> (r: ConfigDocumentIr)
    ensures
        r@ == doc_ir_spec(*m, row_views(rows@)),
{
    ConfigDocumentIr {
        plugin_name: m.plugin.name.clone(),
        shape: ShapeIr { kind: m.shape.kind, order_sensitive: m.shape.order_sensitive, order_note: clone_opt_string(&m.shape.order_note) },
        rows,
    }
}

/// `line-<n>`.
pub open spec fn row_id_text(ln: int) -> Seq<char> {
    "line-"@ + dec(ln as nat)
}

pub fn row_id_string(ln: usize) -> (r: String)
    ensures
        r@ == row_id_text(ln as int),
{
    let mut s = String::new();
    push_str(&mut s, "line-");
    push_dec(&mut s, ln as u64);
    assert(s@ =~= row_id_text(ln as int));
    s
}

/// The span of a one-line row.
pub open spec fn line_span(ln: int) -> SourceSpan {
    SourceSpan { start_line: ln as usize, end_line: ln as usize }
}

/// A row at line `ln` with the given widget and fields.
pub open spec fn row_at(ln: int, widget: Seq<char>, fields: Seq<FieldIrV>) -> RowIrV {
    RowIrV { row_id: row_id_text(ln), widget, fields, source_span: line_span(ln), is_comment_only: None, is_blank: None }
}

/// The text of the last token child whose kind satisfies `k`.
pub open spec fn last_token_text(cs: Seq<CstV>, k: KindV) -> Option<Seq<char>>
    decreases cs.len(),
{
    if cs.len() == 0 {
        None
    } else {
        match cs.last() {
            CstV::Token { kind, text, .. } => if kind == k {
                Some(text)
            } else {
                last_token_text(cs.drop_last(), k)
            },
            _ => last_token_text(cs.drop_last(), k),
        }
    }
}

/// The text of the last token child whose kind is written `name`.
pub open spec fn last_named_text(cs: Seq<CstV>, name: Seq<char>) -> Option<Seq<char>>
    decreases cs.len(),
{
    if cs.len() == 0 {
        None
    } else {
        match cs.last() {
            CstV::Token { kind, text, .. } => if kind_name(kind) == name {
                Some(text)
            } else {
                last_named_text(cs.drop_last(), name)
            },
            _ => last_named_text(cs.drop_last(), name),
        }
    }
}

/// The texts of the token children of kind `k`, in order.
pub open spec fn texts_of_kind(cs: Seq<CstV>, k: KindV) -> Seq<Seq<char>>
    decreases cs.len(),
{
    if cs.len() == 0 {
        Seq::empty()
    } else {
        texts_of_kind(cs.drop_last(), k) + match cs.last() {
            CstV::Token { kind, text, .. } => if kind == k {
                seq![text]
            } else {
                Seq::<Seq<char>>::empty()
            },
            _ => Seq::<Seq<char>>::empty(),
        }
    }
}

pub fn last_text_of_kind(children: &[CstNode], k: &SyntaxKind) -> (r: Option<String>)
    ensures
        opt_text(r) == last_token_text(view_nodes(children@), k@),
{
    proof {
        lemma_view_nodes(children@);
    }
    let ghost cs = view_nodes(children@);
    let mut out: Option<String> = None;
    let mut i: usize = 0;
    while i < children.len()
        invariant
            i <= children@.len(),
            cs == view_nodes(children@),
            cs.len() == children@.len(),
            forall|j: int| 0 <= j < cs.len() ==> #[trigger] cs[j] == view_node(children@[j]),
            opt_text(out) == last_token_text(cs.subrange(0, i as int), k@),
        decreases children@.len() - i,
    {
        assert(cs.subrange(0, i + 1).drop_last() =~= cs.subrange(0, i as int));
        assert(cs[i as int] == view_node(children@[i as int]));
        match &children[i] {
            CstNode::Token { kind, text, .. } => {
                if kind.same_kind(k) {
                    out = Some(text.clone());
                }
            },
            CstNode::Rule { .. } => {},
        }
        i = i + 1;
    }
    assert(cs.subrange(0, cs.len() as int) =~= cs);
    out
}

pub fn last_text_named(children: &[CstNode], name: &str) -> (r: Option<String>)
    ensures
        opt_text(r) == last_named_text(view_nodes(children@), name@),
{
    proof {
        lemma_view_nodes(children@);
    }
    let ghost cs = view_nodes(children@);
    let mut out: Option<String> = None;
    let mut i: usize = 0;
    while i < children.len()
        invariant
            i <= children@.len(),
            cs == view_nodes(children@),
            cs.len() == children@.len(),
            forall|j: int| 0 <= j < cs.len() ==> #[trigger] cs[j] == view_node(children@[j]),
            opt_text(out) == last_named_text(cs.subrange(0, i as int), name@),
        decreases children@.len() - i,
    {
        assert(cs.subrange(0, i + 1).drop_last() =~= cs.subrange(0, i as int));
        assert(cs[i as int] == view_node(children@[i as int]));
        match &children[i] {
            CstNode::Token { kind, text, .. } => {
                if str_eq(kind.as_str(), name) {
                    out = Some(text.clone());
                }
            },
            CstNode::Rule { .. } => {},
        }
        i = i + 1;
    }
    assert(cs.subrange(0, cs.len() as int) =~= cs);
    out
}

pub fn texts_of_kind_exec(children: &[CstNode], k: &SyntaxKind) -> (r: Vec<String>)
    ensures
        string_views(r@) == texts_of_kind(view_nodes(children@), k@),
{
    proof {
        lemma_view_nodes(children@);
    }
    let ghost cs = view_nodes(children@);
    let mut out: Vec<String> = Vec::new();
    let mut i: usize = 0;
    while i < children.len()
        invariant
            i <= children@.len(),
            cs == view_nodes(children@),
            cs.len() == children@.len(),
            forall|j: int| 0 <= j < cs.len() ==> #[trigger] cs[j] == view_node(children@[j]),
            string_views(out@) == texts_of_kind(cs.subrange(0, i as int), k@),
        decreases children@.len() - i,
    {
        assert(cs.subrange(0, i + 1).drop_last() =~= cs.subrange(0, i as int));
        assert(cs[i as int] == view_node(children@[i as int]));
        let ghost before = out@;
        match &children[i] {
            CstNode::Token { kind, text, .. } => {
                if kind.same_kind(k) {
                    let t = text.clone();
                    out.push(t);
                    proof {
                        crate::text::lemma_string_views_push(before, t);
                    }
                }
            },
            CstNode::Rule { .. } => {},
        }
        assert(string_views(out@) =~= texts_of_kind(cs.subrange(0, i + 1), k@));
        i = i + 1;
    }
    assert(cs.subrange(0, cs.len() as int) =~= cs);
    out
}

/// A JSON array of JSON strings.
pub open spec fn json_strings(v: Seq<Seq<char>>) -> JsonV {
    JsonV::Array(str_jsons(v))
}

pub open spec fn str_jsons(v: Seq<Seq<char>>) -> Seq<JsonV> {
    v.map_values(|s: Seq<char>| JsonV::String(s))
}

pub fn strings_to_json(v: &Vec<String>) -> (r: JsonValue)
    ensures
        r@ == json_strings(string_views(v@)),
{
    let ghost sv = string_views(v@);
    let mut items: Vec<JsonValue> = Vec::new();
    let mut i: usize = 0;
    while i < v.len()
        invariant
            i <= v@.len(),
            sv == string_views(v@),
            sv.len() == v@.len(),
            view_jsons(items@) == str_jsons(sv.subrange(0, i as int)),
        decreases v@.len() - i,
    {
        let ghost before = items@;
        let j = JsonValue::String(v[i].clone());
        items.push(j);
        proof {
            crate::json::lemma_view_jsons(before);
            crate::json::lemma_view_jsons(items@);
            assert(sv[i as int] == v@[i as int]@);
            assert forall|k: int| 0 <= k <= i implies #[trigger] view_jsons(items@)[k] == str_jsons(sv.subrange(0, i + 1))[k] by {
                if k < i {
                    assert(items@[k] == before[k]);
                    assert(view_jsons(before)[k] == str_jsons(sv.subrange(0, i as int))[k]);
                }
            }
            assert(view_jsons(items@) =~= str_jsons(sv.subrange(0, i + 1)));
        }
        i = i + 1;
    }
    assert(sv.subrange(0, v@.len() as int) =~= sv);
    JsonValue::Array(items)
}

/// A field checked against its definition, when the manifest has one:
/// valid, or invalid with the error.
pub open spec fn validated(f: FieldIrV, def: Option<FieldDef>, v: JsonV) -> FieldIrV {
    match def {
        None => f,
        Some(d) => match field_value_check(d, v) {
            Ok(()) => FieldIrV { valid: Some(true), ..f },
            Err(e) => FieldIrV { valid: Some(false), validation_error: Some(e), ..f },
        },
    }
}

pub fn validate_into(f: FieldIr, def: &FieldDef, v: &JsonValue) -> (r: FieldIr)
    ensures
        r@ == validated(f@, Some(*def), v@),
{
    match validate_field_value(def, v) {
        Ok(()) => f.with_validity(true),
        Err(e) => f.with_error(e),
    }
}

/// A field marked valid when its value passes the check, and left unmarked
/// otherwise.
pub open spec fn marked_if_valid(f: FieldIrV, def: FieldDef, v: JsonV) -> FieldIrV {
    match field_value_check(def, v) {
        Ok(()) => FieldIrV { valid: Some(true), ..f },
        Err(_) => f,
    }
}

pub fn mark_if_valid(f: FieldIr, def: &FieldDef, v: &JsonValue) -> (r: FieldIr)
    ensures
        r@ == marked_if_valid(f@, *def, v@),
{
    match validate_field_value(def, v) {
        Ok(()) => f.with_validity(true),
        Err(_) => f,
    }
}

pub fn push_field(fields: &mut Vec<FieldIr>, f: FieldIr)
    ensures
        field_views(final(fields)@) == field_views(old(fields)@).push(f@),
{
    fields.push(f);
    assert(field_views(fields@) =~= field_views(old(fields)@).push(f@));
}


/// A plain string column, when the line has one.
pub open spec fn str_col(name: Seq<char>, t: Option<Seq<char>>) -> Seq<FieldIrV> {
    match t {
        Some(x) => seq![crate::ir::plain_field(name, crate::schema::FieldTypeV::String, JsonV::String(x))],
        None => Seq::empty(),
    }
}

/// The comment field, when the line has a comment.
pub open spec fn comment_col(t: Option<Seq<char>>) -> Seq<FieldIrV> {
    match t {
        Some(c) => seq![
            crate::ir::plain_field("comment"@, crate::schema::FieldTypeV::String, JsonV::String(crate::text::comment_value(c))),
        ],
        None => Seq::empty(),
    }
}

/// An enum column: marked valid when the manifest's field accepts it, with
/// the field's options (and, with `docs`, its documentation and help).
pub open spec fn enum_col(m: PluginManifest, name: Seq<char>, t: Option<Seq<char>>, docs: bool) -> Seq<FieldIrV> {
    match t {
        None => Seq::empty(),
        Some(x) => {
            let f = crate::ir::plain_field(name, crate::schema::FieldTypeV::Enum, JsonV::String(x));
            seq![
                match crate::schema::find_field_spec(m, name) {
                    None => f,
                    Some(d) => {
                        let g = FieldIrV { options: crate::ir::opt_options(d.options), ..marked_if_valid(f, d, JsonV::String(x)) };
                        if docs {
                            FieldIrV { docs_source: opt_text(d.docs_source), help: opt_text(d.help), ..g }
                        } else {
                            g
                        }
                    },
                },
            ]
        },
    }
}

pub fn push_str_col(fields: &mut Vec<FieldIr>, name: &str, t: Option<String>)
    ensures
        field_views(final(fields)@) == field_views(old(fields)@) + str_col(name@, opt_text(t)),
{
    match t {
        Some(x) => {
            push_field(fields, FieldIr::new(name, crate::schema::FieldType::String, JsonValue::String(x)));
        },
        None => {},
    }
    assert(field_views(fields@) =~= field_views(old(fields)@) + str_col(name@, opt_text(t)));
}

pub fn push_comment_col(fields: &mut Vec<FieldIr>, t: Option<String>)
    ensures
        field_views(final(fields)@) == field_views(old(fields)@) + comment_col(opt_text(t)),
{
    match t {
        Some(c) => {
            let cv = crate::text::comment_value_exec(c.as_str());
            push_field(fields, FieldIr::new("comment", crate::schema::FieldType::String, JsonValue::String(cv)));
        },
        None => {},
    }
    assert(field_views(fields@) =~= field_views(old(fields)@) + comment_col(opt_text(t)));
}

pub fn push_enum_col(fields: &mut Vec<FieldIr>, m: &PluginManifest, name: &str, t: Option<String>, docs: bool)
    ensures
        field_views(final(fields)@) == field_views(old(fields)@) + enum_col(*m, name@, opt_text(t), docs),
{
    match t {
        Some(x) => {
            let v = JsonValue::String(x.clone());
            let mut f = FieldIr::new(name, crate::schema::FieldType::Enum, JsonValue::String(x));
            match m.find_field(name) {
                Some(def) => {
                    f = mark_if_valid(f, def, &v);
                    f.options = crate::schema::clone_options(&def.options);
                    if docs {
                        f.docs_source = clone_opt_string(&def.docs_source);
                        f.help = clone_opt_string(&def.help);
                    }
                },
                None => {},
            }
            push_field(fields, f);
        },
        None => {},
    }
    assert(field_views(fields@) =~= field_views(old(fields)@) + enum_col(*m, name@, opt_text(t), docs));
}

} // verus!

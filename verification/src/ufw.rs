//! UFW rules: `ACTION DIRECTION PROTO FROM TO PORT` per line.
use vstd::prelude::*;

use crate::columns::{
    blank_or_comment, blank_or_comment_exec, columns_line_exec, columns_shape, lemma_blank_or_comment_covers,
    lemma_columns_covers, words, words_exec, Columns,
};
use crate::cst::CstNode;
use crate::grammar::{
    content_end, content_end_exec, covers, line_view, offsets_ok, scan, scan_exec, LineShape, Stop,
};
use crate::hosts::lemma_content_end;
use crate::sshd::lemma_lead_within_content;

verus! {

/// The tokens of the UFW rule line `s[ls..le]`; a rule needs six columns.
pub open spec fn ufw_shape(s: Seq<char>, ls: int, le: int) -> LineShape {
    let w = scan(s, ls, le, Stop::NonBlank);
    let ce = content_end(s, ls, le);
    let r = words(s, w, ce, false);
    blank_or_comment(s, ls, le, columns_shape(s, ls, le, r.0, r.1, Columns::Ufw, 6))
}

pub proof fn lemma_ufw_covers(s: Seq<char>, ls: int, le: int)
    requires
        0 <= ls < le <= s.len(),
    ensures
        covers(ufw_shape(s, ls, le).toks, ls, le),
{
    let w = scan(s, ls, le, Stop::NonBlank);
    let ce = content_end(s, ls, le);
    let r = words(s, w, ce, false);
    if w < ce {
        lemma_columns_covers(s, ls, le, false, Columns::Ufw, 6);
    }
    lemma_blank_or_comment_covers(s, ls, le, columns_shape(s, ls, le, r.0, r.1, Columns::Ufw, 6));
}

/// Parses the UFW rule line `chars[ls..le]`.
pub fn ufw_line(chars: &Vec<char>, offs: &Vec<usize>, ls: usize, le: usize) -> (r: CstNode)
    requires
        offsets_ok(chars@, offs@),
        ls < le <= chars@.len(),
    ensures
        r@ == line_view(chars@, ls as int, le as int, ufw_shape(chars@, ls as int, le as int)),
{
    let ghost s = chars@;
    proof {
        lemma_content_end(s, ls as int, le as int);
        lemma_lead_within_content(s, ls as int, le as int);
    }
    let ce = content_end_exec(chars, ls, le);
    let w = scan_exec(chars, ls, le, Stop::NonBlank);
    if !(w < ce && chars[w] != '#') {
        return blank_or_comment_exec(chars, offs, ls, le, Ghost(ufw_shape(s, ls as int, le as int)));
    }
    let (ws, cs) = words_exec(chars, w, ce, false);
    columns_line_exec(chars, offs, ls, le, &ws, cs, Columns::Ufw, 6)
}

} // verus!

verus! {

use crate::bind::{
    bind_rows, comment_col, doc_ir, doc_ir_spec, entry_rows, enum_col, last_text_named, last_named_text, lines_fit,
    push_comment_col, push_enum_col, push_str_col, row_at, row_id_string, str_col, RowBinder,
};
use crate::cst::{cst_children, view_nodes, CstV, KindV, SourceSpan, Span, SyntaxKind};
use crate::edit::{BindError, ConfigPlugin, EditError, EditErrorV, EditOp, EditOpV, ParseError};
use crate::grammar::{parse_doc, parse_doc_spec, Grammar};
use crate::hosts::document;
use crate::ir::{ConfigDocumentIr, DocumentIrV, RowIr, RowIrV};
use crate::json::{view_members, JsonV, JsonValue};
use crate::rows::{
    col, column_line_edit, column_update, comment_toks, delete_row, field_or, finish_entry, insert_row, insert_spec,
    lookup_field_str, lookup_str, move_row, new_entry, or_default, push_col_tab, push_comment, push_plain, tab,
    update_spec,
};
use crate::schema::{opt_text, PluginManifest};
use crate::text::utf8_len;

/// The row a UFW rule line becomes.
pub open spec fn ufw_row(m: PluginManifest, line: CstV, ln: int) -> RowIrV {
    let cs = cst_children(line);
    row_at(
        ln,
        "rule_table_row"@,
        enum_col(m, "action"@, last_named_text(cs, "action"@), false) + enum_col(
            m,
            "direction"@,
            last_named_text(cs, "direction"@),
            false,
        ) + enum_col(m, "proto"@, last_named_text(cs, "proto"@), false) + str_col("from"@, last_named_text(cs, "from"@))
            + str_col("to"@, last_named_text(cs, "to"@)) + str_col("port"@, last_named_text(cs, "port"@)) + comment_col(
            last_named_text(cs, "comment"@),
        ),
    )
}

/// The rule line an insertion adds, with defaults for the columns not given.
pub open spec fn ufw_new_line(fields: Seq<(Seq<char>, JsonV)>) -> CstV {
    new_entry(
        seq![
            col("action"@, or_default(lookup_str(fields, "action"@), "ALLOW"@)),
            tab(),
            col("direction"@, or_default(lookup_str(fields, "direction"@), "in"@)),
            tab(),
            col("proto"@, or_default(lookup_str(fields, "proto"@), "tcp"@)),
            tab(),
            col("from"@, or_default(lookup_str(fields, "from"@), "any"@)),
            tab(),
            col("to"@, or_default(lookup_str(fields, "to"@), "any"@)),
            tab(),
            col("port"@, or_default(lookup_str(fields, "port"@), "any"@)),
        ] + comment_toks(lookup_str(fields, "comment"@)),
    )
}

/// What an edit does to a UFW rules document.
pub open spec fn ufw_edit(v: CstV, op: EditOpV) -> (CstV, Result<(), EditErrorV>) {
    match op {
        EditOpV::UpdateField { row_id, field_name, new_value } => update_spec(
            v,
            row_id,
            column_line_edit(field_name, row_id, new_value),
        ),
        EditOpV::DeleteRow { row_id } => crate::rows::delete_spec(v, row_id),
        EditOpV::InsertRow { after_row_id, fields } => insert_spec(v, after_row_id, ufw_new_line(fields)),
        EditOpV::MoveRow { row_id, after_row_id, before_row_id } => crate::rows::move_spec(
            v,
            row_id,
            after_row_id,
            before_row_id,
        ),
    }
}

fn ufw_insert(cst: &mut CstNode, after: &Option<String>, fields: &Vec<(String, JsonValue)>) -> (r: Result<(), EditError>)
    ensures
        (final(cst)@, crate::edit::edit_result(r)) == insert_spec(old(cst)@, opt_text(*after), ufw_new_line(view_members(fields@))),
{
    let action = field_or(fields, "action", "ALLOW");
    let direction = field_or(fields, "direction", "in");
    let proto = field_or(fields, "proto", "tcp");
    let from_val = field_or(fields, "from", "any");
    let to_val = field_or(fields, "to", "any");
    let port = field_or(fields, "port", "any");
    let comment = lookup_field_str(fields, "comment");
    let mut toks: Vec<CstNode> = Vec::new();
    push_col_tab(&mut toks, "action", action);
    push_col_tab(&mut toks, "direction", direction);
    push_col_tab(&mut toks, "proto", proto);
    push_col_tab(&mut toks, "from", from_val);
    push_col_tab(&mut toks, "to", to_val);
    push_plain(&mut toks, SyntaxKind::custom("port"), port);
    push_comment(&mut toks, comment);
    proof {
        let fv = view_members(fields@);
        assert(view_nodes(toks@) =~= seq![
            col("action"@, action@),
            tab(),
            col("direction"@, direction@),
            tab(),
            col("proto"@, proto@),
            tab(),
            col("from"@, from_val@),
            tab(),
            col("to"@, to_val@),
            tab(),
            col("port"@, port@),
        ] + comment_toks(lookup_str(fv, "comment"@)));
    }
    let line = finish_entry(toks);
    insert_row(cst, after, line)
}

/// Lossless parser and plugin for UFW firewall rules.
#[derive(Debug, Clone)]
pub struct UfwPlugin {
    manifest: PluginManifest,
}

impl UfwPlugin {
    pub fn new() -> (r: Self)
        ensures
            r.manifest_spec().plugin.name@ == "ufw"@,
    {
        UfwPlugin { manifest: crate::manifests::ufw_manifest() }
    }
}

impl Default for UfwPlugin {
    fn default() -> (r: Self)
        ensures
            r.manifest_spec().plugin.name@ == "ufw"@,
    {
        UfwPlugin::new()
    }
}

impl RowBinder for UfwPlugin {
    open spec fn row_spec(&self, line: CstV, ln: int) -> RowIrV {
        ufw_row(self.manifest_spec(), line, ln)
    }

    fn bind_row(&self, line: &CstNode, ln: usize) -> (r: RowIr) {
        let cs = line.children();
        let id = row_id_string(ln);
        let mut row = RowIr::new(id.as_str(), "rule_table_row", SourceSpan::single_line(ln));
        push_enum_col(&mut row.fields, &self.manifest, "action", last_text_named(cs, "action"), false);
        push_enum_col(&mut row.fields, &self.manifest, "direction", last_text_named(cs, "direction"), false);
        push_enum_col(&mut row.fields, &self.manifest, "proto", last_text_named(cs, "proto"), false);
        push_str_col(&mut row.fields, "from", last_text_named(cs, "from"));
        push_str_col(&mut row.fields, "to", last_text_named(cs, "to"));
        push_str_col(&mut row.fields, "port", last_text_named(cs, "port"));
        push_comment_col(&mut row.fields, last_text_named(cs, "comment"));
        proof {
            assert(crate::ir::field_views(row.fields@) =~= ufw_row(self.manifest, line@, ln as int).fields);
        }
        row
    }
}

/// Parses UFW rules text into one node per line, losslessly.
pub fn parse_ufw_cst(input: &str) -> (r: Vec<CstNode>)
    requires
        utf8_len(input@) <= usize::MAX,
    ensures
        view_nodes(r@) == parse_doc_spec(input@, Grammar::Ufw),
        crate::cst::cst_texts(view_nodes(r@)) == input@,
{
    parse_doc(input, Grammar::Ufw)
}

impl ConfigPlugin for UfwPlugin {
    closed spec fn manifest_spec(&self) -> PluginManifest {
        self.manifest
    }

    open spec fn parses(&self, text: Seq<char>) -> bool {
        true
    }

    open spec fn parsed(&self, text: Seq<char>) -> CstV {
        document(text, parse_doc_spec(text, Grammar::Ufw))
    }

    open spec fn bindable(&self, cst: CstV) -> bool {
        lines_fit(cst)
    }

    open spec fn binds(&self, cst: CstV) -> bool {
        true
    }

    open spec fn bound(&self, cst: CstV) -> DocumentIrV {
        doc_ir_spec(self.manifest_spec(), entry_rows(*self, cst_children(cst)))
    }

    open spec fn edited(&self, cst: CstV, op: EditOpV) -> (CstV, Result<(), EditErrorV>) {
        ufw_edit(cst, op)
    }

    fn manifest(&self) -> (r: &PluginManifest) {
        &self.manifest
    }

    fn parse(&self, text: &str) -> (r: Result<CstNode, ParseError>) {
        let lines = parse_ufw_cst(text);
        proof {
            crate::text::lemma_utf8_len_is_encoding_len(text@);
        }
        Ok(CstNode::rule(SyntaxKind::Document, lines, Span::new(0, text.len())))
    }

    fn to_ir(&self, cst: &CstNode) -> (r: Result<ConfigDocumentIr, BindError>) {
        let rows = bind_rows(self, cst);
        Ok(doc_ir(&self.manifest, rows))
    }

    fn apply_edit(&self, cst: &mut CstNode, op: &EditOp) -> (r: Result<(), EditError>) {
        match op {
            EditOp::UpdateField { row_id, field_name, new_value } => column_update(cst, row_id, field_name, new_value),
            EditOp::DeleteRow { row_id } => delete_row(cst, row_id),
            EditOp::InsertRow { after_row_id, fields } => ufw_insert(cst, after_row_id, fields),
            EditOp::MoveRow { row_id, after_row_id, before_row_id } => move_row(cst, row_id, after_row_id, before_row_id),
        }
    }
}

} // verus!

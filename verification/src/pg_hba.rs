//! PostgreSQL `pg_hba.conf`: `type database user [address] method [options]`.
use vstd::prelude::*;

use crate::columns::{
    blank_or_comment, blank_or_comment_exec, columns_line_exec, columns_shape, lemma_blank_or_comment_covers,
    lemma_columns_covers, lemma_words, words, words_exec, word_views, Columns,
};
use crate::cst::CstNode;
use crate::grammar::{
    content_end, content_end_exec, covers, line_view, offsets_ok, scan, scan_exec, LineShape, Stop,
};
use crate::hosts::lemma_content_end;
use crate::sshd::lemma_lead_within_content;

verus! {

/// The word `s[a..b]` is `local`.
pub open spec fn is_local_word(s: Seq<char>, a: int, b: int) -> bool {
    s.subrange(a, b) == "local"@
}

/// The tokens of the pg_hba.conf line `s[ls..le]`.
pub open spec fn pg_hba_shape(s: Seq<char>, ls: int, le: int) -> LineShape {
    let w = scan(s, ls, le, Stop::NonBlank);
    let ce = content_end(s, ls, le);
    let r = words(s, w, ce, true);
    let local = r.0.len() > 0 && is_local_word(s, r.0[0].0, r.0[0].1);
    blank_or_comment(
        s,
        ls,
        le,
        columns_shape(
            s,
            ls,
            le,
            r.0,
            r.1,
            if local {
                Columns::PgLocal
            } else {
                Columns::PgHost
            },
            if local {
                4
            } else {
                5
            },
        ),
    )
}

pub proof fn lemma_pg_hba_covers(s: Seq<char>, ls: int, le: int)
    requires
        0 <= ls < le <= s.len(),
    ensures
        covers(pg_hba_shape(s, ls, le).toks, ls, le),
{
    let w = scan(s, ls, le, Stop::NonBlank);
    let ce = content_end(s, ls, le);
    let r = words(s, w, ce, true);
    let local = r.0.len() > 0 && is_local_word(s, r.0[0].0, r.0[0].1);
    let c = if local {
        Columns::PgLocal
    } else {
        Columns::PgHost
    };
    let min: nat = if local {
        4
    } else {
        5
    };
    if w < ce {
        lemma_columns_covers(s, ls, le, true, c, min);
    }
    lemma_blank_or_comment_covers(s, ls, le, columns_shape(s, ls, le, r.0, r.1, c, min));
}

/// Parses the pg_hba.conf line `chars[ls..le]`.
pub fn pg_hba_line(chars: &Vec<char>, offs: &Vec<usize>, ls: usize, le: usize) -> (r: CstNode)
    requires
        offsets_ok(chars@, offs@),
        ls < le <= chars@.len(),
    ensures
        r@ == line_view(chars@, ls as int, le as int, pg_hba_shape(chars@, ls as int, le as int)),
{
    let ghost s = chars@;
    proof {
        lemma_content_end(s, ls as int, le as int);
        lemma_lead_within_content(s, ls as int, le as int);
    }
    let ce = content_end_exec(chars, ls, le);
    let w = scan_exec(chars, ls, le, Stop::NonBlank);
    if !(w < ce && chars[w] != '#') {
        return blank_or_comment_exec(chars, offs, ls, le, Ghost(pg_hba_shape(s, ls as int, le as int)));
    }
    let (ws, cs) = words_exec(chars, w, ce, true);
    proof {
        lemma_words(s, w as int, ce as int, true);
    }
    let mut local = false;
    if ws.len() > 0 {
        let (a, b, _e) = ws[0];
        assert(word_views(ws@)[0] == (a as int, b as int, _e as int));
        proof {
            reveal_strlit("local");
        }
        if b - a == 5 && chars[a] == 'l' && chars[a + 1] == 'o' && chars[a + 2] == 'c' && chars[a
            + 3] == 'a' && chars[a + 4] == 'l' {
            local = true;
            assert(s.subrange(a as int, b as int) =~= "local"@);
        } else {
            assert(s.subrange(a as int, b as int) != "local"@) by {
                if s.subrange(a as int, b as int) == "local"@ {
                    assert(s.subrange(a as int, b as int).len() == 5);
                    assert(s.subrange(a as int, b as int)[0] == s[a as int]);
                    assert(s.subrange(a as int, b as int)[1] == s[a + 1]);
                    assert(s.subrange(a as int, b as int)[2] == s[a + 2]);
                    assert(s.subrange(a as int, b as int)[3] == s[a + 3]);
                    assert(s.subrange(a as int, b as int)[4] == s[a + 4]);
                }
            }
        }
    }
    let c = if local {
        Columns::PgLocal
    } else {
        Columns::PgHost
    };
    let min: usize = if local {
        4
    } else {
        5
    };
    columns_line_exec(chars, offs, ls, le, &ws, cs, c, min)
}

} // verus!

verus! {

use crate::bind::{
    bind_rows, comment_col, doc_ir, doc_ir_spec, entry_rows, enum_col, last_text_named, last_named_text, lines_fit,
    push_comment_col, push_enum_col, push_str_col, row_at, row_id_string, str_col, RowBinder,
};
use crate::cst::{cst_children, view_nodes, CstV, KindV, SourceSpan, Span, SyntaxKind};
use crate::edit::{BindError, ConfigPlugin, EditError, EditErrorV, EditOp, EditOpV, ParseError};
use crate::grammar::{parse_doc, parse_doc_spec, Grammar};
use crate::hosts::document;
use crate::ir::{ConfigDocumentIr, DocumentIrV, RowIr, RowIrV};
use crate::json::{view_members, JsonV, JsonValue};
use crate::rows::{
    col, column_line_edit, column_update, comment_toks, delete_row, field_or, finish_entry, insert_row, insert_spec,
    lookup_field_str, lookup_str, move_row, new_entry, or_default, push_col_tab, push_comment, push_plain, tab,
    update_spec,
};
use crate::schema::{opt_text, PluginManifest};
use crate::text::{str_eq, utf8_len};

/// The row a `pg_hba.conf` rule line becomes.
pub open spec fn pg_hba_row(m: PluginManifest, line: CstV, ln: int) -> RowIrV {
    let cs = cst_children(line);
    row_at(
        ln,
        "rule_table_row"@,
        enum_col(m, "type"@, last_named_text(cs, "type"@), false) + str_col("database"@, last_named_text(cs, "database"@))
            + str_col("user"@, last_named_text(cs, "user"@)) + str_col("address"@, last_named_text(cs, "address"@))
            + enum_col(m, "method"@, last_named_text(cs, "method"@), true) + str_col(
            "options"@,
            last_named_text(cs, "options"@),
        ) + comment_col(last_named_text(cs, "comment"@)),
    )
}

/// The rule line an insertion adds, with defaults for the columns not given.
pub open spec fn pg_hba_new_line(fields: Seq<(Seq<char>, JsonV)>) -> CstV {
    let t = or_default(lookup_str(fields, "type"@), "host"@);
    let address = if t != "local"@ {
        seq![col("address"@, or_default(lookup_str(fields, "address"@), "127.0.0.1/32"@)), tab()]
    } else {
        Seq::empty()
    };
    let options = match lookup_str(fields, "options"@) {
        Some(o) => seq![tab(), col("options"@, o)],
        None => Seq::empty(),
    };
    new_entry(
        seq![
            col("type"@, t),
            tab(),
            col("database"@, or_default(lookup_str(fields, "database"@), "all"@)),
            tab(),
            col("user"@, or_default(lookup_str(fields, "user"@), "all"@)),
            tab(),
        ] + address + seq![col("method"@, or_default(lookup_str(fields, "method"@), "scram-sha-256"@))] + options
            + comment_toks(lookup_str(fields, "comment"@)),
    )
}

/// What an edit does to a `pg_hba.conf` document.
pub open spec fn pg_hba_edit(v: CstV, op: EditOpV) -> (CstV, Result<(), EditErrorV>) {
    match op {
        EditOpV::UpdateField { row_id, field_name, new_value } => update_spec(
            v,
            row_id,
            column_line_edit(field_name, row_id, new_value),
        ),
        EditOpV::DeleteRow { row_id } => crate::rows::delete_spec(v, row_id),
        EditOpV::InsertRow { after_row_id, fields } => insert_spec(v, after_row_id, pg_hba_new_line(fields)),
        EditOpV::MoveRow { row_id, after_row_id, before_row_id } => crate::rows::move_spec(
            v,
            row_id,
            after_row_id,
            before_row_id,
        ),
    }
}

fn pg_hba_insert(cst: &mut CstNode, after: &Option<String>, fields: &Vec<(String, JsonValue)>) -> (r: Result<(), EditError>)
    ensures
        (final(cst)@, crate::edit::edit_result(r)) == insert_spec(old(cst)@, opt_text(*after), pg_hba_new_line(view_members(fields@))),
{
    let conn_type = field_or(fields, "type", "host");
    let database = field_or(fields, "database", "all");
    let user = field_or(fields, "user", "all");
    let method = field_or(fields, "method", "scram-sha-256");
    let options = lookup_field_str(fields, "options");
    let comment = lookup_field_str(fields, "comment");
    let mut toks: Vec<CstNode> = Vec::new();
    push_col_tab(&mut toks, "type", conn_type);
    push_col_tab(&mut toks, "database", database);
    push_col_tab(&mut toks, "user", user);
    let ghost t0 = view_nodes(toks@);
    let local = str_eq(conn_type, "local");
    if !local {
        let address = field_or(fields, "address", "127.0.0.1/32");
        push_col_tab(&mut toks, "address", address);
    }
    let ghost t1 = view_nodes(toks@);
    push_plain(&mut toks, SyntaxKind::custom("method"), method);
    let ghost t2 = view_nodes(toks@);
    match options {
        Some(o) => {
            push_plain(&mut toks, SyntaxKind::Whitespace, "\t");
            push_plain(&mut toks, SyntaxKind::custom("options"), o);
        },
        None => {},
    }
    let ghost t3 = view_nodes(toks@);
    push_comment(&mut toks, comment);
    proof {
        let fv = view_members(fields@);
        let address = if conn_type@ != "local"@ {
            seq![col("address"@, or_default(lookup_str(fv, "address"@), "127.0.0.1/32"@)), tab()]
        } else {
            Seq::empty()
        };
        let opts = match lookup_str(fv, "options"@) {
            Some(o) => seq![tab(), col("options"@, o)],
            None => Seq::empty(),
        };
        assert(t1 =~= t0 + address);
        assert(t2 =~= t1 + seq![col("method"@, method@)]);
        assert(t3 =~= t2 + opts);
        assert(t0 =~= seq![
            col("type"@, conn_type@),
            tab(),
            col("database"@, database@),
            tab(),
            col("user"@, user@),
            tab(),
        ]);
        assert(view_nodes(toks@) =~= seq![
            col("type"@, conn_type@),
            tab(),
            col("database"@, database@),
            tab(),
            col("user"@, user@),
            tab(),
        ] + address + seq![col("method"@, method@)] + opts + comment_toks(lookup_str(fv, "comment"@)));
    }
    let line = finish_entry(toks);
    insert_row(cst, after, line)
}

/// Lossless parser and plugin for PostgreSQL `pg_hba.conf`.
#[derive(Debug, Clone)]
pub struct PgHbaPlugin {
    manifest: PluginManifest,
}

impl PgHbaPlugin {
    pub fn new() -> (r: Self)
        ensures
            r.manifest_spec().plugin.name@ == "pg_hba"@,
    {
        PgHbaPlugin { manifest: crate::manifests::pg_hba_manifest() }
    }
}

impl Default for PgHbaPlugin {
    fn default() -> (r: Self)
        ensures
            r.manifest_spec().plugin.name@ == "pg_hba"@,
    {
        PgHbaPlugin::new()
    }
}

impl RowBinder for PgHbaPlugin {
    open spec fn row_spec(&self, line: CstV, ln: int) -> RowIrV {
        pg_hba_row(self.manifest_spec(), line, ln)
    }

    fn bind_row(&self, line: &CstNode, ln: usize) -> (r: RowIr) {
        let cs = line.children();
        let id = row_id_string(ln);
        let mut row = RowIr::new(id.as_str(), "rule_table_row", SourceSpan::single_line(ln));
        push_enum_col(&mut row.fields, &self.manifest, "type", last_text_named(cs, "type"), false);
        push_str_col(&mut row.fields, "database", last_text_named(cs, "database"));
        push_str_col(&mut row.fields, "user", last_text_named(cs, "user"));
        push_str_col(&mut row.fields, "address", last_text_named(cs, "address"));
        push_enum_col(&mut row.fields, &self.manifest, "method", last_text_named(cs, "method"), true);
        push_str_col(&mut row.fields, "options", last_text_named(cs, "options"));
        push_comment_col(&mut row.fields, last_text_named(cs, "comment"));
        proof {
            assert(crate::ir::field_views(row.fields@) =~= pg_hba_row(self.manifest, line@, ln as int).fields);
        }
        row
    }
}

/// Parses `pg_hba.conf` text into one node per line, losslessly.
pub fn parse_pg_hba_cst(input: &str) -> (r: Vec<CstNode>)
    requires
        utf8_len(input@) <= usize::MAX,
    ensures
        view_nodes(r@) == parse_doc_spec(input@, Grammar::PgHba),
        crate::cst::cst_texts(view_nodes(r@)) == input@,
{
    parse_doc(input, Grammar::PgHba)
}

impl ConfigPlugin for PgHbaPlugin {
    closed spec fn manifest_spec(&self) -> PluginManifest {
        self.manifest
    }

    open spec fn parses(&self, text: Seq<char>) -> bool {
        true
    }

    open spec fn parsed(&self, text: Seq<char>) -> CstV {
        document(text, parse_doc_spec(text, Grammar::PgHba))
    }

    open spec fn bindable(&self, cst: CstV) -> bool {
        lines_fit(cst)
    }

    open spec fn binds(&self, cst: CstV) -> bool {
        true
    }

    open spec fn bound(&self, cst: CstV) -> DocumentIrV {
        doc_ir_spec(self.manifest_spec(), entry_rows(*self, cst_children(cst)))
    }

    open spec fn edited(&self, cst: CstV, op: EditOpV) -> (CstV, Result<(), EditErrorV>) {
        pg_hba_edit(cst, op)
    }

    fn manifest(&self) -> (r: &PluginManifest) {
        &self.manifest
    }

    fn parse(&self, text: &str) -> (r: Result<CstNode, ParseError>) {
        let lines = parse_pg_hba_cst(text);
        proof {
            crate::text::lemma_utf8_len_is_encoding_len(text@);
        }
        Ok(CstNode::rule(SyntaxKind::Document, lines, Span::new(0, text.len())))
    }

    fn to_ir(&self, cst: &CstNode) -> (r: Result<ConfigDocumentIr, BindError>) {
        let rows = bind_rows(self, cst);
        Ok(doc_ir(&self.manifest, rows))
    }

    fn apply_edit(&self, cst: &mut CstNode, op: &EditOp) -> (r: Result<(), EditError>) {
        match op {
            EditOp::UpdateField { row_id, field_name, new_value } => column_update(cst, row_id, field_name, new_value),
            EditOp::DeleteRow { row_id } => delete_row(cst, row_id),
            EditOp::InsertRow { after_row_id, fields } => pg_hba_insert(cst, after_row_id, fields),
            EditOp::MoveRow { row_id, after_row_id, before_row_id } => move_row(cst, row_id, after_row_id, before_row_id),
        }
    }
}

} // verus!

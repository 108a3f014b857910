//! OpenSSH `sshd_config`: `Keyword value` or `Keyword = value` per line.
use vstd::prelude::*;

use crate::cst::{view_nodes, CstNode, KindV, SyntaxKind};
use crate::grammar::{
    error_line, error_line_exec, lemma_error_line_covers, content_end, content_end_exec, covers, is_stop, lemma_covers_concat, lemma_covers_tok, lemma_scan,
    line_view, make_line, offsets_ok, one_tok, opt_tok, push_opt_tok, push_tok, scan, scan_exec,
    toks_views, LineShape, Stop, Tok,
};
use crate::hosts::lemma_content_end;
use crate::text::{is_unicode_ws, is_unicode_ws_exec};

verus! {

/// Where the value ends: the first `#` outside double quotes, or `ce`.
pub open spec fn sshd_hash(s: Seq<char>, i: int, ce: int, in_quotes: bool) -> int
    decreases ce - i,
{
    if i >= ce {
        ce
    } else if s[i] == '"' {
        sshd_hash(s, i + 1, ce, !in_quotes)
    } else if s[i] == '#' && !in_quotes {
        i
    } else {
        sshd_hash(s, i + 1, ce, in_quotes)
    }
}

/// `b`, moved back over trailing Unicode whitespace, but not before `a`.
pub open spec fn trim_end_pos(s: Seq<char>, a: int, b: int) -> int
    decreases b - a,
{
    if b <= a {
        a
    } else if is_unicode_ws(s[b - 1]) {
        trim_end_pos(s, a, b - 1)
    } else {
        b
    }
}

/// Where the separator after the keyword (blanks, an optional `=`, blanks) ends.
pub open spec fn sshd_sep_end(s: Seq<char>, k: int, ce: int) -> int {
    let a = scan(s, k, ce, Stop::NonBlank);
    if a < ce && s[a] == '=' {
        scan(s, a + 1, ce, Stop::NonBlank)
    } else {
        a
    }
}

/// The tokens of the sshd_config line `s[ls..le]`.
pub open spec fn sshd_shape(s: Seq<char>, ls: int, le: int) -> LineShape {
    let ce = content_end(s, ls, le);
    let nl = opt_tok(KindV::Newline, ce, le);
    let w = scan(s, ls, le, Stop::NonBlank);
    let lead = opt_tok(KindV::Whitespace, ls, w);
    if ls >= le {
        LineShape { kind: KindV::BlankLine, toks: Seq::empty() }
    } else if w >= ce {
        LineShape { kind: KindV::BlankLine, toks: lead + nl }
    } else if s[w] == '#' {
        LineShape { kind: KindV::CommentLine, toks: lead + one_tok(KindV::Comment, w, ce) + nl }
    } else {
        let k = scan(s, w, ce, Stop::SshdKey);
        let a = scan(s, k, ce, Stop::NonBlank);
        let se = sshd_sep_end(s, k, ce);
        let saw = a > k || (a < ce && s[a] == '=');
        if k == w || !saw || se >= ce {
            error_line(s, ls, le, w)
        } else {
            let vse = sshd_hash(s, se, ce, false);
            let te = trim_end_pos(s, se, vse);
            if te == se {
                error_line(s, ls, le, w)
            } else {
                LineShape {
                    kind: KindV::Entry,
                    toks: lead + one_tok(KindV::Key, w, k) + one_tok(KindV::Whitespace, k, se)
                        + one_tok(KindV::Value, se, te) + opt_tok(KindV::Whitespace, te, vse)
                        + opt_tok(KindV::Comment, vse, ce) + nl,
                }
            }
        }
    }
}

pub proof fn lemma_sshd_hash(s: Seq<char>, i: int, ce: int, q: bool)
    requires
        i <= ce,
    ensures
        i <= sshd_hash(s, i, ce, q) <= ce,
    decreases ce - i,
{
    if i < ce {
        if s[i] == '"' {
            lemma_sshd_hash(s, i + 1, ce, !q);
        } else if !(s[i] == '#' && !q) {
            lemma_sshd_hash(s, i + 1, ce, q);
        }
    }
}

pub proof fn lemma_trim_end_pos(s: Seq<char>, a: int, b: int)
    requires
        a <= b,
    ensures
        a <= trim_end_pos(s, a, b) <= b,
    decreases b - a,
{
    if b > a && is_unicode_ws(s[b - 1]) {
        lemma_trim_end_pos(s, a, b - 1);
    }
}

/// The first non-blank character of a line does not come after its content.
pub proof fn lemma_lead_within_content(s: Seq<char>, ls: int, le: int)
    requires
        0 <= ls <= le <= s.len(),
    ensures
        ls <= scan(s, ls, le, Stop::NonBlank) <= content_end(s, ls, le),
{
    lemma_scan(s, ls, le, Stop::NonBlank);
    lemma_content_end(s, ls, le);
    let w = scan(s, ls, le, Stop::NonBlank);
    let ce = content_end(s, ls, le);
    if w > ce {
        assert(!is_stop(Stop::NonBlank, s[ce]));
    }
}

/// The tokens of every sshd_config line cover the line.
pub proof fn lemma_sshd_covers(s: Seq<char>, ls: int, le: int)
    requires
        0 <= ls < le <= s.len(),
    ensures
        covers(sshd_shape(s, ls, le).toks, ls, le),
{
    let ce = content_end(s, ls, le);
    lemma_content_end(s, ls, le);
    lemma_lead_within_content(s, ls, le);
    let nl = opt_tok(KindV::Newline, ce, le);
    lemma_covers_tok(KindV::Newline, ce, le);
    let w = scan(s, ls, le, Stop::NonBlank);
    let lead = opt_tok(KindV::Whitespace, ls, w);
    lemma_covers_tok(KindV::Whitespace, ls, w);
    if w >= ce {
        lemma_covers_concat(lead, nl, ls, ce, le);
    } else if s[w] == '#' {
        lemma_covers_tok(KindV::Comment, w, ce);
        lemma_covers_concat(lead, one_tok(KindV::Comment, w, ce), ls, w, ce);
        lemma_covers_concat(lead + one_tok(KindV::Comment, w, ce), nl, ls, ce, le);
    } else {
        let k = scan(s, w, ce, Stop::SshdKey);
        lemma_scan(s, w, ce, Stop::SshdKey);
        let a = scan(s, k, ce, Stop::NonBlank);
        lemma_scan(s, k, ce, Stop::NonBlank);
        let se = sshd_sep_end(s, k, ce);
        if a < ce && s[a] == '=' {
            lemma_scan(s, a + 1, ce, Stop::NonBlank);
        }
        let saw = a > k || (a < ce && s[a] == '=');
        if k == w || !saw || se >= ce {
            lemma_error_line_covers(s, ls, le, w);
        } else {
            let vse = sshd_hash(s, se, ce, false);
            lemma_sshd_hash(s, se, ce, false);
            let te = trim_end_pos(s, se, vse);
            lemma_trim_end_pos(s, se, vse);
            if te == se {
                lemma_error_line_covers(s, ls, le, w);
            } else {
                let t1 = lead + one_tok(KindV::Key, w, k);
                lemma_covers_tok(KindV::Key, w, k);
                lemma_covers_concat(lead, one_tok(KindV::Key, w, k), ls, w, k);
                let t2 = t1 + one_tok(KindV::Whitespace, k, se);
                lemma_covers_tok(KindV::Whitespace, k, se);
                lemma_covers_concat(t1, one_tok(KindV::Whitespace, k, se), ls, k, se);
                let t3 = t2 + one_tok(KindV::Value, se, te);
                lemma_covers_tok(KindV::Value, se, te);
                lemma_covers_concat(t2, one_tok(KindV::Value, se, te), ls, se, te);
                let t4 = t3 + opt_tok(KindV::Whitespace, te, vse);
                lemma_covers_tok(KindV::Whitespace, te, vse);
                lemma_covers_concat(t3, opt_tok(KindV::Whitespace, te, vse), ls, te, vse);
                let t5 = t4 + opt_tok(KindV::Comment, vse, ce);
                lemma_covers_tok(KindV::Comment, vse, ce);
                lemma_covers_concat(t4, opt_tok(KindV::Comment, vse, ce), ls, vse, ce);
                lemma_covers_concat(t5, nl, ls, ce, le);
            }
        }
    }
}

/// Parses the sshd_config line `chars[ls..le]`.
pub fn sshd_line(chars: &Vec<char>, offs: &Vec<usize>, ls: usize, le: usize) -> (r: CstNode)
    requires
        offsets_ok(chars@, offs@),
        ls < le <= chars@.len(),
    ensures
        r@ == line_view(chars@, ls as int, le as int, sshd_shape(chars@, ls as int, le as int)),
{
    let ghost s = chars@;
    proof {
        lemma_content_end(s, ls as int, le as int);
        lemma_lead_within_content(s, ls as int, le as int);
    }
    let ce = content_end_exec(chars, ls, le);
    let w = scan_exec(chars, ls, le, Stop::NonBlank);
    if w < ce && chars[w] != '#' {
        let k = scan_exec(chars, w, ce, Stop::SshdKey);
        let a = scan_exec(chars, k, ce, Stop::NonBlank);
        let mut saw = a > k;
        let mut se = a;
        if a < ce && chars[a] == '=' {
            saw = true;
            se = scan_exec(chars, a + 1, ce, Stop::NonBlank);
        }
        if k == w || !saw || se >= ce {
            return error_line_exec(chars, offs, ls, le, w);
        }
        // the value, up to a '#' outside quotes
        let mut i = se;
        let mut in_q = false;
        while i < ce && !(chars[i] == '#' && !in_q)
            invariant
                se <= i <= ce <= chars@.len(),
                chars@ == s,
                sshd_hash(s, i as int, ce as int, in_q) == sshd_hash(s, se as int, ce as int, false),
            decreases ce - i,
        {
            if chars[i] == '"' {
                in_q = !in_q;
            }
            i = i + 1;
        }
        let vse = i;
        let mut te = vse;
        while te > se && is_unicode_ws_exec(chars[te - 1])
            invariant
                se <= te <= vse <= chars@.len(),
                chars@ == s,
                trim_end_pos(s, se as int, te as int) == trim_end_pos(s, se as int, vse as int),
            decreases te,
        {
            te = te - 1;
        }
        if te == se {
            return error_line_exec(chars, offs, ls, le, w);
        }
        let mut toks: Vec<CstNode> = Vec::new();
        assert(view_nodes(toks@) =~= toks_views(s, Seq::<Tok>::empty()));
        push_opt_tok(&mut toks, Ghost(Seq::empty()), SyntaxKind::Whitespace, chars, offs, ls, w);
        let ghost t0 = Seq::<Tok>::empty() + opt_tok(KindV::Whitespace, ls as int, w as int);
        push_tok(&mut toks, Ghost(t0), SyntaxKind::Key, chars, offs, w, k);
        let ghost t1 = t0.push(Tok { kind: KindV::Key, start: w as int, end: k as int });
        push_tok(&mut toks, Ghost(t1), SyntaxKind::Whitespace, chars, offs, k, se);
        let ghost t2 = t1.push(Tok { kind: KindV::Whitespace, start: k as int, end: se as int });
        push_tok(&mut toks, Ghost(t2), SyntaxKind::Value, chars, offs, se, te);
        let ghost t3 = t2.push(Tok { kind: KindV::Value, start: se as int, end: te as int });
        push_opt_tok(&mut toks, Ghost(t3), SyntaxKind::Whitespace, chars, offs, te, vse);
        let ghost t4 = t3 + opt_tok(KindV::Whitespace, te as int, vse as int);
        push_opt_tok(&mut toks, Ghost(t4), SyntaxKind::Comment, chars, offs, vse, ce);
        let ghost t5 = t4 + opt_tok(KindV::Comment, vse as int, ce as int);
        push_opt_tok(&mut toks, Ghost(t5), SyntaxKind::Newline, chars, offs, ce, le);
        let ghost t6 = t5 + opt_tok(KindV::Newline, ce as int, le as int);
        assert(t6 =~= sshd_shape(s, ls as int, le as int).toks);
        return make_line(SyntaxKind::Entry, toks, Ghost(t6), chars, offs, ls, le);
    }
    let mut toks: Vec<CstNode> = Vec::new();
    assert(view_nodes(toks@) =~= toks_views(s, Seq::<Tok>::empty()));
    push_opt_tok(&mut toks, Ghost(Seq::empty()), SyntaxKind::Whitespace, chars, offs, ls, w);
    let ghost lead = Seq::<Tok>::empty() + opt_tok(KindV::Whitespace, ls as int, w as int);
    assert(lead =~= opt_tok(KindV::Whitespace, ls as int, w as int));
    if w >= ce {
        push_opt_tok(&mut toks, Ghost(lead), SyntaxKind::Newline, chars, offs, ce, le);
        return make_line(
            SyntaxKind::BlankLine,
            toks,
            Ghost(lead + opt_tok(KindV::Newline, ce as int, le as int)),
            chars,
            offs,
            ls,
            le,
        );
    }
    push_tok(&mut toks, Ghost(lead), SyntaxKind::Comment, chars, offs, w, ce);
    let ghost t = lead.push(Tok { kind: KindV::Comment, start: w as int, end: ce as int });
    push_opt_tok(&mut toks, Ghost(t), SyntaxKind::Newline, chars, offs, ce, le);
    assert(t =~= lead + one_tok(KindV::Comment, w as int, ce as int));
    make_line(
        SyntaxKind::CommentLine,
        toks,
        Ghost(t + opt_tok(KindV::Newline, ce as int, le as int)),
        chars,
        offs,
        ls,
        le,
    )
}

} // verus!

verus! {

use crate::bind::{
    bind_rows, doc_ir, doc_ir_spec, entry_rows, json_strings, last_text_of_kind, last_token_text, lines_fit,
    push_field, row_at, row_id_string, strings_to_json, validate_into, validated, RowBinder,
};
use crate::cst::{cst_children, cst_kind, lemma_view_nodes, replace_first, view_node, CstV, SourceSpan, Span};
use crate::edit::{edit_result, BindError, ConfigPlugin, EditError, EditErrorV, EditOp, EditOpV, ParseError};
use crate::grammar::{parse_doc, parse_doc_spec, Grammar};
use crate::hosts::{document, string_items};
use crate::ir::{opt_options, plain_field, ConfigDocumentIr, DocumentIrV, FieldIr, FieldIrV, RowIr, RowIrV};
use crate::json::{num_text, view_jsons, view_members, JsonV, JsonValue};
use crate::plugin::join;
use crate::rows::{
    comment_edit, comment_toks, delete_row, find_line_node_mut, finish_entry, first_kind, insert_row, insert_spec,
    invalid, invalid_err, lemma_view_nodes_update, move_row, new_entry, parse_row_id_line, plain_tok, push_comment,
    push_plain, push_plain_string, replace_or_set_comment_in_line, update_spec,
};
use crate::schema::{clone_opt_string, clone_options, json_str, opt_text, FieldDef, FieldType, FieldTypeV, PluginManifest};
use crate::text::{
    comment_value, comment_value_exec, eq_ignore_ascii_case, eq_ignore_ascii_case_exec, split_whitespace_exec, split_ws,
    str_eq, string_views, utf8_len,
};

/// Field `i` is the first whose name matches `key` up to ASCII case.
pub open spec fn is_first_ci(fields: Seq<FieldDef>, key: Seq<char>, i: int) -> bool {
    &&& 0 <= i < fields.len()
    &&& eq_ignore_ascii_case(fields[i].name@, key)
    &&& forall|j: int| 0 <= j < i ==> !eq_ignore_ascii_case(#[trigger] fields[j].name@, key)
}

/// The manifest field a directive keyword names, matched without regard to
/// ASCII case.
pub open spec fn sshd_def(m: PluginManifest, key: Seq<char>) -> Option<FieldDef> {
    if exists|i: int| #[trigger] is_first_ci(m.fields@, key, i) {
        Some(m.fields@[choose|i: int| #[trigger] is_first_ci(m.fields@, key, i)])
    } else {
        None
    }
}

fn find_def_ci<'a>(m: &'a PluginManifest, key: &str) -> (r: Option<&'a FieldDef>)
    ensures
        match sshd_def(*m, key@) {
            Some(d) => r matches Some(x) && *x == d,
            None => r is None,
        },
{
    let mut i: usize = 0;
    while i < m.fields.len()
        invariant
            i <= m.fields@.len(),
            forall|j: int| 0 <= j < i ==> !eq_ignore_ascii_case(#[trigger] m.fields@[j].name@, key@),
        decreases m.fields@.len() - i,
    {
        if eq_ignore_ascii_case_exec(m.fields[i].name.as_str(), key) {
            proof {
                let c = choose|c: int| #[trigger] is_first_ci(m.fields@, key@, c);
                assert(is_first_ci(m.fields@, key@, i as int));
                assert(is_first_ci(m.fields@, key@, c));
                if c < i {
                    assert(!eq_ignore_ascii_case(m.fields@[c].name@, key@));
                } else if c > i {
                    assert(!eq_ignore_ascii_case(m.fields@[i as int].name@, key@));
                }
            }
            return Some(&m.fields[i]);
        }
        i = i + 1;
    }
    None
}

/// The value a directive field is shown with: a list of words for
/// `string_list` fields, else the text.
pub open spec fn directive_json(t: FieldTypeV, v: Seq<char>) -> JsonV {
    if t == FieldTypeV::StringList {
        json_strings(split_ws(v))
    } else {
        JsonV::String(v)
    }
}

/// The row an sshd directive line becomes.
pub open spec fn sshd_row(m: PluginManifest, line: CstV, ln: int) -> RowIrV {
    let cs = cst_children(line);
    let kv = match (last_token_text(cs, KindV::Key), last_token_text(cs, KindV::Value)) {
        (Some(k), Some(v)) => match sshd_def(m, k) {
            Some(d) => {
                let jv = directive_json(d.field_type@, v);
                let f = validated(plain_field(d.name@, d.field_type@, jv), Some(d), jv);
                seq![FieldIrV { options: opt_options(d.options), docs_source: opt_text(d.docs_source), help: opt_text(d.help), ..f }]
            },
            None => seq![plain_field(k, FieldTypeV::String, JsonV::String(v))],
        },
        _ => Seq::empty(),
    };
    let comment = match last_token_text(cs, KindV::Comment) {
        Some(c) => seq![plain_field("comment"@, FieldTypeV::String, JsonV::String(comment_value(c)))],
        None => Seq::empty(),
    };
    row_at(ln, "key_value_list_row"@, kv + comment)
}

/// The text a JSON value sets a directive to.
pub open spec fn directive_text(v: JsonV) -> Option<Seq<char>> {
    match v {
        JsonV::String(s) => Some(s),
        JsonV::Number(n) => Some(num_text(n)),
        JsonV::Bool(b) => Some(if b { "yes"@ } else { "no"@ }),
        JsonV::Array(items) => Some(join(string_items(items), " "@)),
        _ => None,
    }
}

/// The line's first keyword token names `field` (ASCII case aside).
pub open spec fn key_matches(line: CstV, field: Seq<char>) -> bool {
    let cs = cst_children(line);
    match first_kind(cs, KindV::Key) {
        Some(i) => match cs[i] {
            CstV::Token { text, .. } => eq_ignore_ascii_case(text, field),
            _ => false,
        },
        None => false,
    }
}

/// Editing one field of an sshd line: the comment, or the value of the
/// directive the line sets.
pub open spec fn sshd_line_edit(field: Seq<char>, row_id: Seq<char>, new: JsonV) -> spec_fn(CstV) -> (CstV, Result<(), EditErrorV>) {
    |line: CstV|
        if field == "comment"@ {
            comment_edit(line, new)
        } else {
            match directive_text(new) {
                None => (line, Err(invalid(field, "Unsupported JSON value type for directive"@))),
                Some(val) => if !key_matches(line, field) {
                    (line, Err(EditErrorV::FieldNotFound(field, row_id)))
                } else {
                    match replace_first(line, KindV::Value, val) {
                        Some(l2) => (l2, Ok(())),
                        None => (line, Err(EditErrorV::FieldNotFound(field, row_id))),
                    }
                },
            }
        }
}

/// The directive, value and comment an insertion names: the last pair
/// named `comment` gives the comment, the last other pair the directive.
pub open spec fn sshd_fold(fields: Seq<(Seq<char>, JsonV)>) -> (Option<Seq<char>>, Option<Seq<char>>, Option<Seq<char>>)
    decreases fields.len(),
{
    if fields.len() == 0 {
        (None, None, None)
    } else {
        let (k, v, c) = sshd_fold(fields.drop_last());
        let (name, val) = fields.last();
        if name == "comment"@ {
            (k, v, json_str(val))
        } else {
            (Some(name), directive_text(val), c)
        }
    }
}

/// Inserting a directive line.
pub open spec fn sshd_insert_spec(v: CstV, after: Option<Seq<char>>, fields: Seq<(Seq<char>, JsonV)>) -> (CstV, Result<(), EditErrorV>) {
    let (k, val, c) = sshd_fold(fields);
    match k {
        None => (v, Err(invalid("directive"@, "Directive key is required for insertion"@))),
        Some(key) => match val {
            None => (v, Err(invalid(key, "Directive value is required for insertion"@))),
            Some(value) => insert_spec(
                v,
                after,
                new_entry(
                    seq![
                        plain_tok(KindV::Key, key),
                        plain_tok(KindV::Whitespace, " "@),
                        plain_tok(KindV::Value, value),
                    ] + comment_toks(c),
                ),
            ),
        },
    }
}

/// What an edit does to an sshd document.
pub open spec fn sshd_edit(v: CstV, op: EditOpV) -> (CstV, Result<(), EditErrorV>) {
    match op {
        EditOpV::UpdateField { row_id, field_name, new_value } => update_spec(
            v,
            row_id,
            sshd_line_edit(field_name, row_id, new_value),
        ),
        EditOpV::DeleteRow { row_id } => crate::rows::delete_spec(v, row_id),
        EditOpV::InsertRow { after_row_id, fields } => sshd_insert_spec(v, after_row_id, fields),
        EditOpV::MoveRow { row_id, after_row_id, before_row_id } => crate::rows::move_spec(
            v,
            row_id,
            after_row_id,
            before_row_id,
        ),
    }
}

fn directive_value(v: &JsonValue) -> (r: Option<String>)
    ensures
        opt_text(r) == directive_text(v@),
{
    match v {
        JsonValue::String(s) => Some(s.clone()),
        JsonValue::Number(n) => Some(n.to_text()),
        JsonValue::Bool(b) => {
            if *b {
                Some("yes".to_owned())
            } else {
                Some("no".to_owned())
            }
        },
        JsonValue::Array(items) => {
            let words = crate::hosts::string_items_exec(items);
            let mut s = String::new();
            crate::plugin::push_joined(&mut s, &words, " ");
            assert(s@ =~= join(string_items(view_jsons(items@)), " "@));
            Some(s)
        },
        _ => None,
    }
}

/// Whether the line's first keyword token names `field` (ASCII case aside).
fn key_matches_exec(line: &CstNode, field: &str) -> (r: bool)
    ensures
        r == key_matches(line@, field@),
{
    let cs = line.children();
    proof {
        lemma_view_nodes(cs@);
    }
    let ghost vc = view_nodes(cs@);
    let mut i: usize = 0;
    while i < cs.len()
        invariant
            i <= cs@.len(),
            vc == view_nodes(cs@),
            vc == cst_children(line@),
            vc.len() == cs@.len(),
            forall|j: int| 0 <= j < vc.len() ==> #[trigger] vc[j] == view_node(cs@[j]),
            forall|j: int| 0 <= j < i ==> cst_kind(#[trigger] vc[j]) != KindV::Key,
        decreases cs@.len() - i,
    {
        assert(vc[i as int] == view_node(cs@[i as int]));
        if cs[i].kind().same_kind(&SyntaxKind::Key) {
            proof {
                crate::rows::lemma_first_kind(vc, KindV::Key, i as int);
            }
            return match &cs[i] {
                CstNode::Token { text, .. } => eq_ignore_ascii_case_exec(text.as_str(), field),
                CstNode::Rule { .. } => false,
            };
        }
        i = i + 1;
    }
    assert(!exists|i: int| #[trigger] crate::rows::is_first_kind(vc, KindV::Key, i));
    false
}

fn sshd_line_update(line: &mut CstNode, row_id: &String, field_name: &String, new_value: &JsonValue) -> (r: Result<(), EditError>)
    ensures
        (final(line)@, edit_result(r)) == (sshd_line_edit(field_name@, row_id@, new_value@))(old(line)@),
{
    if str_eq(field_name.as_str(), "comment") {
        return replace_or_set_comment_in_line(line, new_value);
    }
    let val = match directive_value(new_value) {
        Some(v) => v,
        None => return Err(invalid_err(field_name.as_str(), "Unsupported JSON value type for directive")),
    };
    if !key_matches_exec(line, field_name.as_str()) {
        return Err(EditError::FieldNotFound(field_name.clone(), row_id.clone()));
    }
    if !line.replace_first_token_text(&SyntaxKind::Value, val.as_str()) {
        return Err(EditError::FieldNotFound(field_name.clone(), row_id.clone()));
    }
    Ok(())
}

fn sshd_update(cst: &mut CstNode, row_id: &String, field_name: &String, new_value: &JsonValue) -> (r: Result<(), EditError>)
    ensures
        (final(cst)@, edit_result(r)) == update_spec(old(cst)@, row_id@, sshd_line_edit(field_name@, row_id@, new_value@)),
{
    let ln = match parse_row_id_line(row_id.as_str()) {
        Ok(n) => n,
        Err(e) => return Err(e),
    };
    let ghost old_cst = *cst;
    let line = match find_line_node_mut(cst, ln) {
        Some(l) => l,
        None => return Err(EditError::RowNotFound(row_id.clone())),
    };
    let r = sshd_line_update(line, row_id, field_name, new_value);
    proof {
        let i = crate::rows::row_index(view_nodes(old_cst->Rule_children@), ln as int)->Some_0;
        lemma_view_nodes(old_cst->Rule_children@);
        lemma_view_nodes_update(old_cst->Rule_children@, i, *final(line));
    }
    r
}

fn sshd_insert(cst: &mut CstNode, after: &Option<String>, fields: &Vec<(String, JsonValue)>) -> (r: Result<(), EditError>)
    ensures
        (final(cst)@, edit_result(r)) == sshd_insert_spec(old(cst)@, opt_text(*after), view_members(fields@)),
{
    proof {
        crate::json::lemma_view_members(fields@);
    }
    let ghost fv = view_members(fields@);
    let mut key: Option<&str> = None;
    let mut value: Option<String> = None;
    let mut comment: Option<&str> = None;
    let mut i: usize = 0;
    while i < fields.len()
        invariant
            i <= fields@.len(),
            fv == view_members(fields@),
            fv.len() == fields@.len(),
            forall|j: int| 0 <= j < fv.len() ==> #[trigger] fv[j] == (fields@[j].0@, fields@[j].1@),
            ({
                let (k, v, c) = sshd_fold(fv.subrange(0, i as int));
                &&& k == match key {
                    Some(x) => Some(x@),
                    None => None::<Seq<char>>,
                }
                &&& v == opt_text(value)
                &&& c == match comment {
                    Some(x) => Some(x@),
                    None => None::<Seq<char>>,
                }
            }),
        decreases fields@.len() - i,
    {
        let ghost sub = fv.subrange(0, i + 1);
        assert(sub.drop_last() =~= fv.subrange(0, i as int));
        assert(sub.last() == fv[i as int]);
        let (k, v) = &fields[i];
        if str_eq(k.as_str(), "comment") {
            comment = v.as_str();
        } else {
            key = Some(k.as_str());
            value = directive_value(v);
        }
        i = i + 1;
    }
    assert(fv.subrange(0, fields@.len() as int) =~= fv);
    let key_str = match key {
        Some(k) => k,
        None => return Err(invalid_err("directive", "Directive key is required for insertion")),
    };
    let val_str = match value {
        Some(v) => v,
        None => return Err(invalid_err(key_str, "Directive value is required for insertion")),
    };
    let mut toks: Vec<CstNode> = Vec::new();
    push_plain(&mut toks, SyntaxKind::Key, key_str);
    push_plain(&mut toks, SyntaxKind::Whitespace, " ");
    push_plain_string(&mut toks, SyntaxKind::Value, val_str);
    let ghost t0 = view_nodes(toks@);
    push_comment(&mut toks, comment);
    proof {
        assert(t0 =~= seq![
            plain_tok(KindV::Key, key_str@),
            plain_tok(KindV::Whitespace, " "@),
            plain_tok(KindV::Value, val_str@),
        ]);
    }
    let line = finish_entry(toks);
    insert_row(cst, after, line)
}

/// Lossless parser and plugin for OpenSSH `sshd_config`.
#[derive(Debug, Clone)]
pub struct SshdPlugin {
    manifest: PluginManifest,
}

impl SshdPlugin {
    pub fn new() -> (r: Self)
        ensures
            r.manifest_spec().plugin.name@ == "sshd_config"@,
    {
        SshdPlugin { manifest: crate::manifests::sshd_manifest() }
    }
}

impl Default for SshdPlugin {
    fn default() -> (r: Self)
        ensures
            r.manifest_spec().plugin.name@ == "sshd_config"@,
    {
        SshdPlugin::new()
    }
}

impl RowBinder for SshdPlugin {
    open spec fn row_spec(&self, line: CstV, ln: int) -> RowIrV {
        sshd_row(self.manifest_spec(), line, ln)
    }

    fn bind_row(&self, line: &CstNode, ln: usize) -> (r: RowIr) {
        let cs = line.children();
        let key = last_text_of_kind(cs, &SyntaxKind::Key);
        let val = last_text_of_kind(cs, &SyntaxKind::Value);
        let comment = last_text_of_kind(cs, &SyntaxKind::Comment);
        let id = row_id_string(ln);
        let mut row = RowIr::new(id.as_str(), "key_value_list_row", SourceSpan::single_line(ln));
        match (key, val) {
            (Some(k), Some(v)) => match find_def_ci(&self.manifest, k.as_str()) {
                Some(def) => {
                    let jv = if def.field_type.is_string_list() {
                        let words = split_whitespace_exec(v.as_str());
                        strings_to_json(&words)
                    } else {
                        JsonValue::String(v)
                    };
                    let jv2 = jv.duplicate();
                    let f = FieldIr::new(def.name.as_str(), def.field_type.duplicate(), jv);
                    let mut f = validate_into(f, def, &jv2);
                    f.options = clone_options(&def.options);
                    f.docs_source = clone_opt_string(&def.docs_source);
                    f.help = clone_opt_string(&def.help);
                    push_field(&mut row.fields, f);
                },
                None => {
                    push_field(&mut row.fields, FieldIr::new(k.as_str(), FieldType::String, JsonValue::String(v)));
                },
            },
            _ => {},
        }
        match comment {
            Some(c) => {
                let cv = comment_value_exec(c.as_str());
                push_field(&mut row.fields, FieldIr::new("comment", FieldType::String, JsonValue::String(cv)));
            },
            None => {},
        }
        proof {
            assert(crate::ir::field_views(row.fields@) =~= sshd_row(self.manifest, line@, ln as int).fields);
        }
        row
    }
}

/// Parses `sshd_config` text into one node per line, losslessly.
pub fn parse_sshd_cst(input: &str) -> (r: Vec<CstNode>)
    requires
        utf8_len(input@) <= usize::MAX,
    ensures
        view_nodes(r@) == parse_doc_spec(input@, Grammar::Sshd),
        crate::cst::cst_texts(view_nodes(r@)) == input@,
{
    parse_doc(input, Grammar::Sshd)
}

impl ConfigPlugin for SshdPlugin {
    closed spec fn manifest_spec(&self) -> PluginManifest {
        self.manifest
    }

    open spec fn parses(&self, text: Seq<char>) -> bool {
        true
    }

    open spec fn parsed(&self, text: Seq<char>) -> CstV {
        document(text, parse_doc_spec(text, Grammar::Sshd))
    }

    open spec fn bindable(&self, cst: CstV) -> bool {
        lines_fit(cst)
    }

    open spec fn binds(&self, cst: CstV) -> bool {
        true
    }

    open spec fn bound(&self, cst: CstV) -> DocumentIrV {
        doc_ir_spec(self.manifest_spec(), entry_rows(*self, cst_children(cst)))
    }

    open spec fn edited(&self, cst: CstV, op: EditOpV) -> (CstV, Result<(), EditErrorV>) {
        sshd_edit(cst, op)
    }

    fn manifest(&self) -> (r: &PluginManifest) {
        &self.manifest
    }

    fn parse(&self, text: &str) -> (r: Result<CstNode, ParseError>) {
        let lines = parse_sshd_cst(text);
        proof {
            crate::text::lemma_utf8_len_is_encoding_len(text@);
        }
        Ok(CstNode::rule(SyntaxKind::Document, lines, Span::new(0, text.len())))
    }

    fn to_ir(&self, cst: &CstNode) -> (r: Result<ConfigDocumentIr, BindError>) {
        let rows = bind_rows(self, cst);
        Ok(doc_ir(&self.manifest, rows))
    }

    fn apply_edit(&self, cst: &mut CstNode, op: &EditOp) -> (r: Result<(), EditError>) {
        match op {
            EditOp::UpdateField { row_id, field_name, new_value } => sshd_update(cst, row_id, field_name, new_value),
            EditOp::DeleteRow { row_id } => delete_row(cst, row_id),
            EditOp::InsertRow { after_row_id, fields } => sshd_insert(cst, after_row_id, fields),
            EditOp::MoveRow { row_id, after_row_id, before_row_id } => move_row(cst, row_id, after_row_id, before_row_id),
        }
    }
}

} // verus!

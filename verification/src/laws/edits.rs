//! Edits touch only what they target: a field edit changes one line and,
//! for a value, one stretch of text; inserts add one line, deletes take one
//! out, moves keep every line, and refused edits leave the document alone.
use vstd::prelude::*;

use crate::cst::{CstV, KindV, cst_children, cst_text, cst_texts, replace_first, replace_first_in, token_texts, token_texts_in};
use crate::edit::{ConfigPlugin, EditErrorV, EditOpV};
use crate::hosts::HostsPlugin;
use crate::json::JsonV;
use crate::pg_hba::PgHbaPlugin;
use crate::rows::{delete_spec, lookup, move_spec, place_in, row_index, row_line, update_spec, with_children};
use crate::sshd::SshdPlugin;
use crate::ufw::UfwPlugin;

verus! {

/// The lines of `v2` are those of `v`, but for line `i`.
pub open spec fn only_line_changed(v: CstV, v2: CstV, i: int) -> bool {
    &&& cst_children(v2).len() == cst_children(v).len()
    &&& forall|j: int| 0 <= j < cst_children(v).len() && j != i ==> #[trigger] cst_children(v2)[j] == cst_children(v)[j]
}

/// Editing a field changes at most the one line the row id names: every
/// other line stays as it was.
pub proof fn lemma_update_touches_one_line(
    v: CstV,
    row_id: Seq<char>,
    f: spec_fn(CstV) -> (CstV, Result<(), EditErrorV>),
)
    requires
        v is Rule,
    ensures
        match row_line(row_id) {
            Some(ln) => match row_index(cst_children(v), ln as int) {
                Some(i) => only_line_changed(v, update_spec(v, row_id, f).0, i),
                None => update_spec(v, row_id, f).0 == v,
            },
            None => update_spec(v, row_id, f).0 == v,
        },
{
}

/// Deleting a row removes exactly the line the row id names.
pub proof fn lemma_delete_removes_one_line(v: CstV, row_id: Seq<char>)
    requires
        delete_spec(v, row_id).1 is Ok,
    ensures
        exists|i: int|
            0 <= i < cst_children(v).len() && #[trigger] cst_children(delete_spec(v, row_id).0) == cst_children(v).remove(i),
{
    let ln = row_line(row_id)->Some_0;
    let i = row_index(cst_children(v), ln as int)->Some_0;
    assert(cst_children(delete_spec(v, row_id).0) == cst_children(v).remove(i));
}

/// Moving a row keeps every line: the lines after the move are the lines
/// before it, only in another order.
pub proof fn lemma_move_keeps_every_line(v: CstV, row_id: Seq<char>, after: Option<Seq<char>>, before: Option<Seq<char>>)
    requires
        move_spec(v, row_id, after, before).1 is Ok,
    ensures
        cst_children(move_spec(v, row_id, after, before).0).to_multiset() == cst_children(v).to_multiset(),
{
    broadcast use vstd::seq_lib::group_to_multiset_ensures;
    broadcast use vstd::seq_lib::to_multiset_insert;

    let cs = cst_children(v);
    let ln = row_line(row_id)->Some_0;
    let i = row_index(cs, ln as int)->Some_0;
    let node = cs[i];
    let rest = cs.remove(i);
    assert(cs.to_multiset().count(node) > 0) by {
        assert(cs.contains(node));
    }
    let placed = place_in(rest, node, after, before).0;
    assert(placed.to_multiset() =~= rest.to_multiset().insert(node));
    assert(rest.to_multiset().insert(node) =~= cs.to_multiset());
}

/// What an edit of a field leaves of the document: the line the row id
/// names may change, every other line stays as it was.
pub open spec fn touches_only_row(v: CstV, v2: CstV, row_id: Seq<char>) -> bool {
    match row_line(row_id) {
        Some(ln) => match row_index(cst_children(v), ln as int) {
            Some(i) => only_line_changed(v, v2, i),
            None => v2 == v,
        },
        None => v2 == v,
    }
}

/// For every shipped plugin, editing a field of a row changes at most that
/// row's line.
pub proof fn lemma_plugin_field_edits_touch_one_line(
    hosts: HostsPlugin,
    sshd: SshdPlugin,
    pg_hba: PgHbaPlugin,
    ufw: UfwPlugin,
    v: CstV,
    row_id: Seq<char>,
    field_name: Seq<char>,
    new_value: JsonV,
)
    requires
        v is Rule,
    ensures
        touches_only_row(v, hosts.edited(v, EditOpV::UpdateField { row_id, field_name, new_value }).0, row_id),
        touches_only_row(v, sshd.edited(v, EditOpV::UpdateField { row_id, field_name, new_value }).0, row_id),
        touches_only_row(v, pg_hba.edited(v, EditOpV::UpdateField { row_id, field_name, new_value }).0, row_id),
        touches_only_row(v, ufw.edited(v, EditOpV::UpdateField { row_id, field_name, new_value }).0, row_id),
{
    lemma_update_touches_one_line(v, row_id, crate::hosts::hosts_line_edit(field_name, row_id, new_value));
    lemma_update_touches_one_line(v, row_id, crate::sshd::sshd_line_edit(field_name, row_id, new_value));
    lemma_update_touches_one_line(v, row_id, crate::rows::column_line_edit(field_name, row_id, new_value));
}

proof fn lemma_token_texts_concat(a: Seq<CstV>, b: Seq<CstV>, k: KindV)
    ensures
        token_texts_in(a + b, k) == token_texts_in(a, k) + token_texts_in(b, k),
    decreases b.len(),
{
    if b.len() == 0 {
        assert(a + b =~= a);
        assert(token_texts_in(a, k) + token_texts_in(b, k) =~= token_texts_in(a, k));
    } else {
        let bl = b.subrange(0, b.len() - 1);
        lemma_token_texts_concat(a, bl, k);
        assert((a + b).subrange(0, (a + b).len() - 1) =~= a + bl);
        assert(token_texts_in(a, k) + token_texts_in(b, k) =~= token_texts_in(a, k) + token_texts_in(bl, k)
            + token_texts(b[b.len() - 1], k));
    }
}

proof fn lemma_texts_cons(a: CstV, rest: Seq<CstV>, k: KindV)
    ensures
        cst_texts(seq![a] + rest) == cst_text(a) + cst_texts(rest),
        token_texts_in(seq![a] + rest, k) == token_texts(a, k) + token_texts_in(rest, k),
{
    crate::cst::lemma_cst_texts_concat(seq![a], rest);
    crate::cst::lemma_cst_texts_push(Seq::<CstV>::empty(), a);
    assert(Seq::<CstV>::empty().push(a) =~= seq![a]);
    assert(cst_texts(Seq::<CstV>::empty()) + cst_text(a) =~= cst_text(a));
    lemma_token_texts_concat(seq![a], rest, k);
    let one: Seq<CstV> = seq![a];
    assert(one.subrange(0, 0) =~= Seq::<CstV>::empty());
    assert(one[0] == a);
    assert(token_texts_in(Seq::<CstV>::empty(), k) =~= Seq::<Seq<char>>::empty());
    assert(token_texts_in(one, k) == token_texts_in(one.subrange(0, 0), k) + token_texts(one[0], k));
    assert(Seq::<Seq<char>>::empty() + token_texts(a, k) =~= token_texts(a, k));
}

proof fn lemma_no_match_no_tokens(v: CstV, k: KindV, t: Seq<char>)
    ensures
        (replace_first(v, k, t) is None) == (token_texts(v, k).len() == 0),
    decreases v,
{
    match v {
        CstV::Token { .. } => {},
        CstV::Rule { children, .. } => {
            lemma_no_match_no_tokens_in(children, k, t);
        },
    }
}

proof fn lemma_no_match_no_tokens_in(s: Seq<CstV>, k: KindV, t: Seq<char>)
    ensures
        (replace_first_in(s, k, t) is None) == (token_texts_in(s, k).len() == 0),
    decreases s,
{
    if s.len() > 0 {
        let rest = s.subrange(1, s.len() as int);
        assert(s == seq![s[0]] + rest);
        lemma_texts_cons(s[0], rest, k);
        lemma_no_match_no_tokens(s[0], k, t);
        lemma_no_match_no_tokens_in(rest, k, t);
    }
}

proof fn lemma_replace_witness(v: CstV, k: KindV, t: Seq<char>) -> (r: (Seq<char>, Seq<char>, Seq<char>))
    requires
        replace_first(v, k, t) is Some,
    ensures
        cst_text(v) == r.0 + r.1 + r.2,
        cst_text(replace_first(v, k, t)->Some_0) == r.0 + t + r.2,
        token_texts(v, k).len() > 0,
        token_texts(replace_first(v, k, t)->Some_0, k) == token_texts(v, k).update(0, t),
    decreases v,
{
    match v {
        CstV::Token { text, .. } => {
            assert(text =~= Seq::<char>::empty() + text + Seq::<char>::empty());
            assert(t =~= Seq::<char>::empty() + t + Seq::<char>::empty());
            assert(seq![t] =~= seq![text].update(0, t));
            (Seq::empty(), text, Seq::empty())
        },
        CstV::Rule { children, .. } => lemma_replace_witness_in(children, k, t),
    }
}

#[verifier::spinoff_prover]
#[verifier::rlimit(30)]
proof fn lemma_replace_witness_in(s: Seq<CstV>, k: KindV, t: Seq<char>) -> (r: (Seq<char>, Seq<char>, Seq<char>))
    requires
        replace_first_in(s, k, t) is Some,
    ensures
        cst_texts(s) == r.0 + r.1 + r.2,
        cst_texts(replace_first_in(s, k, t)->Some_0) == r.0 + t + r.2,
        token_texts_in(s, k).len() > 0,
        token_texts_in(replace_first_in(s, k, t)->Some_0, k) == token_texts_in(s, k).update(0, t),
    decreases s,
{
    let rest = s.subrange(1, s.len() as int);
    assert(s == seq![s[0]] + rest);
    lemma_texts_cons(s[0], rest, k);
    match replace_first(s[0], k, t) {
        Some(c) => {
            let w = lemma_replace_witness(s[0], k, t);
            let new = s.update(0, c);
            assert(new =~= seq![c] + rest);
            lemma_texts_cons(c, rest, k);
            assert(cst_texts(s) =~= w.0 + w.1 + (w.2 + cst_texts(rest)));
            assert(cst_texts(new) =~= w.0 + t + (w.2 + cst_texts(rest)));
            assert(token_texts_in(new, k) =~= token_texts_in(s, k).update(0, t));
            (w.0, w.1, w.2 + cst_texts(rest))
        },
        None => {
            lemma_no_match_no_tokens(s[0], k, t);
            let w = lemma_replace_witness_in(rest, k, t);
            let rr = replace_first_in(rest, k, t)->Some_0;
            let new = seq![s[0]] + rr;
            lemma_texts_cons(s[0], rr, k);
            assert(token_texts(s[0], k) =~= Seq::<Seq<char>>::empty());
            assert(cst_texts(s) =~= (cst_text(s[0]) + w.0) + w.1 + w.2);
            assert(cst_texts(new) =~= (cst_text(s[0]) + w.0) + t + w.2);
            assert(token_texts_in(new, k) =~= token_texts_in(s, k).update(0, t));
            (cst_text(s[0]) + w.0, w.1, w.2)
        },
    }
}

/// Replacing the text of the first token of a kind is surgical: the tree's
/// text changes only where that token stood, and the tokens of that kind
/// read back as before, but for the first, which now has the new text.
pub proof fn lemma_replace_first_is_surgical(v: CstV, k: KindV, t: Seq<char>)
    requires
        replace_first(v, k, t) is Some,
    ensures
        exists|p: Seq<char>, o: Seq<char>, s: Seq<char>|
            #![trigger p + o + s]
            cst_text(v) == p + o + s && cst_text(replace_first(v, k, t)->Some_0) == p + t + s,
        token_texts(replace_first(v, k, t)->Some_0, k) == token_texts(v, k).update(0, t),
        token_texts(replace_first(v, k, t)->Some_0, k)[0] == t,
{
    let w = lemma_replace_witness(v, k, t);
    assert(cst_text(v) == w.0 + w.1 + w.2);
}

/// The text of `after` is that of `before` with one stretch replaced by `t`.
pub open spec fn replaced_once(before: CstV, after: CstV, t: Seq<char>) -> bool {
    exists|p: Seq<char>, o: Seq<char>, s: Seq<char>|
        #![trigger p + o + s]
        cst_text(before) == p + o + s && cst_text(after) == p + t + s
}

proof fn lemma_texts_update(cs: Seq<CstV>, i: int, x: CstV)
    requires
        0 <= i < cs.len(),
    ensures
        cst_texts(cs) == cst_texts(cs.subrange(0, i)) + (cst_text(cs[i]) + cst_texts(cs.subrange(i + 1, cs.len() as int))),
        cst_texts(cs.update(i, x)) == cst_texts(cs.subrange(0, i)) + (cst_text(x) + cst_texts(
            cs.subrange(i + 1, cs.len() as int),
        )),
{
    let pre = cs.subrange(0, i);
    let post = cs.subrange(i + 1, cs.len() as int);
    assert(cs =~= pre + (seq![cs[i]] + post));
    assert(cs.update(i, x) =~= pre + (seq![x] + post));
    crate::cst::lemma_cst_texts_concat(pre, seq![cs[i]] + post);
    crate::cst::lemma_cst_texts_concat(pre, seq![x] + post);
    lemma_texts_cons(cs[i], post, KindV::Whitespace);
    lemma_texts_cons(x, post, KindV::Whitespace);
}

proof fn lemma_row_replace_surgical(
    v: CstV,
    row_id: Seq<char>,
    f: spec_fn(CstV) -> (CstV, Result<(), EditErrorV>),
    k: KindV,
    t: Seq<char>,
)
    requires
        update_spec(v, row_id, f).1 is Ok,
        forall|line: CstV|
            (#[trigger] f(line)).1 is Ok ==> replace_first(line, k, t) is Some && f(line).0 == replace_first(
                line,
                k,
                t,
            )->Some_0,
    ensures
        replaced_once(v, update_spec(v, row_id, f).0, t),
{
    let cs = cst_children(v);
    let i = row_index(cs, row_line(row_id)->Some_0 as int)->Some_0;
    let line = cs[i];
    let l2 = f(line).0;
    let w = lemma_replace_witness(line, k, t);
    lemma_texts_update(cs, i, l2);
    let pre = cst_texts(cs.subrange(0, i));
    let post = cst_texts(cs.subrange(i + 1, cs.len() as int));
    assert(cst_text(v) =~= (pre + w.0) + w.1 + (w.2 + post));
    assert(cst_text(update_spec(v, row_id, f).0) =~= (pre + w.0) + t + (w.2 + post));
}

/// Edits are surgical: setting a field to a string value that a shipped
/// plugin accepts rewrites only the text of that field's token. The new
/// document reads as the old one with one stretch of text replaced by the
/// new value, and every other byte, whitespace and comments included, stays.
pub proof fn lemma_value_edits_are_surgical(
    hosts: HostsPlugin,
    sshd: SshdPlugin,
    pg_hba: PgHbaPlugin,
    ufw: UfwPlugin,
    v: CstV,
    row_id: Seq<char>,
    field_name: Seq<char>,
    t: Seq<char>,
)
    requires
        field_name != "comment"@,
    ensures
        ({
            let e = hosts.edited(v, EditOpV::UpdateField { row_id, field_name: "address"@, new_value: JsonV::String(t) });
            e.1 is Ok ==> replaced_once(v, e.0, t)
        }),
        ({
            let e = sshd.edited(v, EditOpV::UpdateField { row_id, field_name, new_value: JsonV::String(t) });
            e.1 is Ok ==> replaced_once(v, e.0, t)
        }),
        ({
            let e = pg_hba.edited(v, EditOpV::UpdateField { row_id, field_name, new_value: JsonV::String(t) });
            e.1 is Ok ==> replaced_once(v, e.0, t)
        }),
        ({
            let e = ufw.edited(v, EditOpV::UpdateField { row_id, field_name, new_value: JsonV::String(t) });
            e.1 is Ok ==> replaced_once(v, e.0, t)
        }),
{
    let new = JsonV::String(t);
    let fh = crate::hosts::hosts_line_edit("address"@, row_id, new);
    if update_spec(v, row_id, fh).1 is Ok {
        lemma_row_replace_surgical(v, row_id, fh, KindV::IpAddress, t);
    }
    let fs = crate::sshd::sshd_line_edit(field_name, row_id, new);
    if update_spec(v, row_id, fs).1 is Ok {
        lemma_row_replace_surgical(v, row_id, fs, KindV::Value, t);
    }
    let fc = crate::rows::column_line_edit(field_name, row_id, new);
    if update_spec(v, row_id, fc).1 is Ok {
        lemma_row_replace_surgical(v, row_id, fc, KindV::Custom(field_name), t);
    }
}

/// The lines of `after` are those of `before` with one line put in at some
/// place, in their order.
pub open spec fn one_line_added(before: CstV, after: CstV) -> bool {
    exists|j: int, n: CstV|
        0 <= j <= cst_children(before).len() && #[trigger] cst_children(before).insert(j, n) == cst_children(after)
}

/// The lines of `after` are those of `before` with one line taken out.
pub open spec fn one_line_removed(before: CstV, after: CstV) -> bool {
    exists|i: int|
        0 <= i < cst_children(before).len() && #[trigger] cst_children(before).remove(i) == cst_children(after)
}

proof fn lemma_insert_spec_adds_one(v: CstV, after: Option<Seq<char>>, node: CstV)
    requires
        crate::rows::insert_spec(v, after, node).1 is Ok,
    ensures
        one_line_added(v, crate::rows::insert_spec(v, after, node).0),
{
    let cs = cst_children(v);
    let r = crate::rows::insert_spec(v, after, node).0;
    match after {
        Some(a) => {
            let j = row_index(cs, row_line(a)->Some_0 as int)->Some_0;
            assert(cs.insert(j + 1, node) == cst_children(r));
        },
        None => {
            assert(cs.insert(cs.len() as int, node) =~= cs.push(node));
        },
    }
}

/// Inserting a row adds exactly one line: every line that was there stays,
/// in its order, and the new one stands at one place among them.
pub proof fn lemma_inserts_add_one_line(
    hosts: HostsPlugin,
    sshd: SshdPlugin,
    pg_hba: PgHbaPlugin,
    ufw: UfwPlugin,
    v: CstV,
    after_row_id: Option<Seq<char>>,
    fields: Seq<(Seq<char>, JsonV)>,
)
    ensures
        ({
            let e = hosts.edited(v, EditOpV::InsertRow { after_row_id, fields });
            e.1 is Ok ==> one_line_added(v, e.0)
        }),
        ({
            let e = sshd.edited(v, EditOpV::InsertRow { after_row_id, fields });
            e.1 is Ok ==> one_line_added(v, e.0)
        }),
        ({
            let e = pg_hba.edited(v, EditOpV::InsertRow { after_row_id, fields });
            e.1 is Ok ==> one_line_added(v, e.0)
        }),
        ({
            let e = ufw.edited(v, EditOpV::InsertRow { after_row_id, fields });
            e.1 is Ok ==> one_line_added(v, e.0)
        }),
{
    let op = EditOpV::InsertRow { after_row_id, fields };
    if hosts.edited(v, op).1 is Ok {
        let addr = crate::rows::lookup_str(fields, "address"@)->Some_0;
        let names = crate::hosts::string_items(crate::rows::lookup(fields, "hostnames"@)->Some_0->Array_0);
        let node = crate::hosts::hosts_new_line(addr, names, crate::rows::lookup_str(fields, "comment"@));
        lemma_insert_spec_adds_one(v, after_row_id, node);
    }
    if sshd.edited(v, op).1 is Ok {
        let (k, val, c) = crate::sshd::sshd_fold(fields);
        let node = crate::rows::new_entry(
            seq![
                crate::rows::plain_tok(KindV::Key, k->Some_0),
                crate::rows::plain_tok(KindV::Whitespace, " "@),
                crate::rows::plain_tok(KindV::Value, val->Some_0),
            ] + crate::rows::comment_toks(c),
        );
        lemma_insert_spec_adds_one(v, after_row_id, node);
    }
    if pg_hba.edited(v, op).1 is Ok {
        lemma_insert_spec_adds_one(v, after_row_id, crate::pg_hba::pg_hba_new_line(fields));
    }
    if ufw.edited(v, op).1 is Ok {
        lemma_insert_spec_adds_one(v, after_row_id, crate::ufw::ufw_new_line(fields));
    }
}

/// What a plugin's refused edit leaves of the document: the document as it
/// was, but for a move whose row was found and whose target was not, which
/// has taken the row out.
pub open spec fn refused_edit_leaves(v: CstV, op: EditOpV, after: CstV) -> bool {
    if op is MoveRow {
        after == v || one_line_removed(v, after)
    } else {
        after == v
    }
}

proof fn lemma_refused_update_leaves(v: CstV, row_id: Seq<char>, f: spec_fn(CstV) -> (CstV, Result<(), EditErrorV>))
    requires
        update_spec(v, row_id, f).1 is Err,
        forall|line: CstV| (#[trigger] f(line)).1 is Err ==> f(line).0 == line,
    ensures
        update_spec(v, row_id, f).0 == v,
{
    if let Some(ln) = row_line(row_id) {
        if let CstV::Rule { children, .. } = v {
            if let Some(i) = row_index(children, ln as int) {
                assert(children.update(i, f(children[i]).0) =~= children);
            }
        }
    }
}

proof fn lemma_refused_move_leaves(v: CstV, row_id: Seq<char>, after: Option<Seq<char>>, before: Option<Seq<char>>)
    requires
        move_spec(v, row_id, after, before).1 is Err,
    ensures
        move_spec(v, row_id, after, before).0 == v || one_line_removed(v, move_spec(v, row_id, after, before).0),
{
    if let Some(ln) = row_line(row_id) {
        if let CstV::Rule { children, .. } = v {
            if let Some(i) = row_index(children, ln as int) {
                assert(0 <= i < children.len());
                assert(cst_children(v) == children);
                assert(cst_children(v).remove(i) == cst_children(move_spec(v, row_id, after, before).0));
            }
        }
    }
}

/// A refused edit leaves the document as it was. The one exception is a move
/// whose row is found but whose target is not: it reports the missing target
/// with the row already taken out.
pub proof fn lemma_refused_edits_leave_document(
    hosts: HostsPlugin,
    sshd: SshdPlugin,
    pg_hba: PgHbaPlugin,
    ufw: UfwPlugin,
    v: CstV,
    op: EditOpV,
)
    ensures
        hosts.edited(v, op).1 is Err ==> refused_edit_leaves(v, op, hosts.edited(v, op).0),
        sshd.edited(v, op).1 is Err ==> refused_edit_leaves(v, op, sshd.edited(v, op).0),
        pg_hba.edited(v, op).1 is Err ==> refused_edit_leaves(v, op, pg_hba.edited(v, op).0),
        ufw.edited(v, op).1 is Err ==> refused_edit_leaves(v, op, ufw.edited(v, op).0),
{
    match op {
        EditOpV::UpdateField { row_id, field_name, new_value } => {
            let fh = crate::hosts::hosts_line_edit(field_name, row_id, new_value);
            let fs = crate::sshd::sshd_line_edit(field_name, row_id, new_value);
            let fc = crate::rows::column_line_edit(field_name, row_id, new_value);
            if update_spec(v, row_id, fh).1 is Err {
                lemma_refused_update_leaves(v, row_id, fh);
            }
            if update_spec(v, row_id, fs).1 is Err {
                lemma_refused_update_leaves(v, row_id, fs);
            }
            if update_spec(v, row_id, fc).1 is Err {
                lemma_refused_update_leaves(v, row_id, fc);
            }
        },
        EditOpV::MoveRow { row_id, after_row_id, before_row_id } => {
            if move_spec(v, row_id, after_row_id, before_row_id).1 is Err {
                lemma_refused_move_leaves(v, row_id, after_row_id, before_row_id);
            }
        },
        EditOpV::InsertRow { .. } => {
            if let CstV::Rule { children, .. } = v {
                assert(with_children(v, children) == v);
            }
        },
        EditOpV::DeleteRow { .. } => {},
    }
}

/// The lines of `after` are those of `before` with the line `row_id` names
/// taken from its place and put last, the others keeping their order.
pub open spec fn moved_to_end(before: CstV, after: CstV, row_id: Seq<char>) -> bool {
    exists|i: int|
        0 <= i < cst_children(before).len() && #[trigger] crate::rows::line_no(cst_children(before), i) == row_line(row_id)->Some_0
            && cst_children(after) == cst_children(before).remove(i).push(cst_children(before)[i])
}

proof fn lemma_move_without_target(v: CstV, row_id: Seq<char>)
    requires
        move_spec(v, row_id, None, None).1 is Ok,
    ensures
        moved_to_end(v, move_spec(v, row_id, None, None).0, row_id),
{
    let cs = cst_children(v);
    let ln = row_line(row_id)->Some_0 as int;
    let i = row_index(cs, ln)->Some_0;
    assert(0 <= i < cs.len() && crate::rows::line_no(cs, i) == ln);
    assert(cst_children(move_spec(v, row_id, None, None).0) == cs.remove(i).push(cs[i]));
}

/// A move with neither `after_row_id` nor `before_row_id` puts the row last:
/// when it succeeds, the moved line is the document's last line and the
/// other lines keep their order.
pub proof fn lemma_moves_without_target_go_last(
    hosts: HostsPlugin,
    sshd: SshdPlugin,
    pg_hba: PgHbaPlugin,
    ufw: UfwPlugin,
    v: CstV,
    row_id: Seq<char>,
)
    ensures
        ({
            let e = hosts.edited(v, EditOpV::MoveRow { row_id, after_row_id: None, before_row_id: None });
            e.1 is Ok ==> moved_to_end(v, e.0, row_id)
        }),
        ({
            let e = sshd.edited(v, EditOpV::MoveRow { row_id, after_row_id: None, before_row_id: None });
            e.1 is Ok ==> moved_to_end(v, e.0, row_id)
        }),
        ({
            let e = pg_hba.edited(v, EditOpV::MoveRow { row_id, after_row_id: None, before_row_id: None });
            e.1 is Ok ==> moved_to_end(v, e.0, row_id)
        }),
        ({
            let e = ufw.edited(v, EditOpV::MoveRow { row_id, after_row_id: None, before_row_id: None });
            e.1 is Ok ==> moved_to_end(v, e.0, row_id)
        }),
{
    if move_spec(v, row_id, None, None).1 is Ok {
        lemma_move_without_target(v, row_id);
    }
}

/// Where a successful move puts the row `row_id` names: the row is taken
/// out, then put just before the line `before` names (when given), else
/// just after the line `after` names (when given), else last. The target
/// lines are found among the lines as they stand once the row is out.
pub open spec fn moved_to(v: CstV, e: CstV, row_id: Seq<char>, after: Option<Seq<char>>, before: Option<Seq<char>>) -> bool {
    exists|i: int|
        0 <= i < cst_children(v).len() && #[trigger] crate::rows::line_no(cst_children(v), i) == row_line(row_id)->Some_0 && {
            let rest = cst_children(v).remove(i);
            let node = cst_children(v)[i];
            match before {
                Some(b) => exists|j: int|
                    0 <= j < rest.len() && #[trigger] crate::rows::line_no(rest, j) == row_line(b)->Some_0
                        && cst_children(e) == rest.insert(j, node),
                None => match after {
                    Some(a) => exists|j: int|
                        0 <= j < rest.len() && #[trigger] crate::rows::line_no(rest, j) == row_line(a)->Some_0
                            && cst_children(e) == rest.insert(j + 1, node),
                    None => cst_children(e) == rest.push(node),
                },
            }
        }
}

proof fn lemma_move_places(v: CstV, row_id: Seq<char>, after: Option<Seq<char>>, before: Option<Seq<char>>)
    requires
        move_spec(v, row_id, after, before).1 is Ok,
    ensures
        moved_to(v, move_spec(v, row_id, after, before).0, row_id, after, before),
{
    let cs = cst_children(v);
    let ln = row_line(row_id)->Some_0 as int;
    let i = row_index(cs, ln)->Some_0;
    assert(0 <= i < cs.len() && crate::rows::line_no(cs, i) == ln);
    let rest = cs.remove(i);
    let e = move_spec(v, row_id, after, before).0;
    match before {
        Some(b) => {
            let j = row_index(rest, row_line(b)->Some_0 as int)->Some_0;
            assert(crate::rows::line_no(rest, j) == row_line(b)->Some_0);
            assert(cst_children(e) == rest.insert(j, cs[i]));
        },
        None => match after {
            Some(a) => {
                let j = row_index(rest, row_line(a)->Some_0 as int)->Some_0;
                assert(crate::rows::line_no(rest, j) == row_line(a)->Some_0);
                assert(cst_children(e) == rest.insert(j + 1, cs[i]));
            },
            None => {
                assert(cst_children(e) == rest.push(cs[i]));
            },
        },
    }
}

/// A successful move puts the row where it was asked to go: just before
/// the `before` line, else just after the `after` line, else last, with
/// every other line kept in its order.
pub proof fn lemma_moves_place_the_row(
    hosts: HostsPlugin,
    sshd: SshdPlugin,
    pg_hba: PgHbaPlugin,
    ufw: UfwPlugin,
    v: CstV,
    row_id: Seq<char>,
    after_row_id: Option<Seq<char>>,
    before_row_id: Option<Seq<char>>,
)
    ensures
        ({
            let e = hosts.edited(v, EditOpV::MoveRow { row_id, after_row_id, before_row_id });
            e.1 is Ok ==> moved_to(v, e.0, row_id, after_row_id, before_row_id)
        }),
        ({
            let e = sshd.edited(v, EditOpV::MoveRow { row_id, after_row_id, before_row_id });
            e.1 is Ok ==> moved_to(v, e.0, row_id, after_row_id, before_row_id)
        }),
        ({
            let e = pg_hba.edited(v, EditOpV::MoveRow { row_id, after_row_id, before_row_id });
            e.1 is Ok ==> moved_to(v, e.0, row_id, after_row_id, before_row_id)
        }),
        ({
            let e = ufw.edited(v, EditOpV::MoveRow { row_id, after_row_id, before_row_id });
            e.1 is Ok ==> moved_to(v, e.0, row_id, after_row_id, before_row_id)
        }),
{
    if move_spec(v, row_id, after_row_id, before_row_id).1 is Ok {
        lemma_move_places(v, row_id, after_row_id, before_row_id);
    }
}

} // verus!

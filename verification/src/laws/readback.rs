//! What is written reads back: after an edit the IR shows the new value,
//! and the row ids the IR hands out address the lines their rows came from.
use vstd::prelude::*;

use crate::bind::{RowBinder, entry_rows, row_id_text, texts_of_kind};
use crate::cst::{CstV, KindV, cst_children, replace_first, replace_first_in};
use crate::edit::{ConfigPlugin, EditOpV};
use crate::grammar::{Grammar, Stop, Tok, content_end, one_tok, opt_tok, parse_doc_spec, scan};
use crate::hosts::{HostsPlugin, document};
use crate::ir::{DocumentIrV, RowIrV};
use crate::json::JsonV;
use crate::pg_hba::PgHbaPlugin;
use crate::rows::{line_no, row_index, row_line, update_spec};
use crate::schema::PluginManifest;
use crate::sshd::SshdPlugin;
use crate::text::{all_digits, dec, digit_char, digit_value, digits_value, is_digit};
use crate::ufw::UfwPlugin;

verus! {

/// No planned token is of kind `k`.
pub open spec fn no_kind(t: Seq<Tok>, k: KindV) -> bool {
    forall|j: int| 0 <= j < t.len() ==> (#[trigger] t[j]).kind != k
}

/// At most one planned token is of kind `k`.
pub open spec fn one_kind_at_most(t: Seq<Tok>, k: KindV) -> bool {
    forall|a: int, b: int|
        0 <= a < t.len() && 0 <= b < t.len() && (#[trigger] t[a]).kind == k && (#[trigger] t[b]).kind == k ==> a == b
}

proof fn lemma_no_kind_concat(a: Seq<Tok>, b: Seq<Tok>, k: KindV)
    requires
        no_kind(a, k),
        no_kind(b, k),
    ensures
        no_kind(a + b, k),
{
    assert forall|j: int| 0 <= j < (a + b).len() implies (#[trigger] (a + b)[j]).kind != k by {
        if j < a.len() {
            assert((a + b)[j] == a[j]);
        } else {
            assert((a + b)[j] == b[j - a.len()]);
        }
    }
}

proof fn lemma_one_kind(a: Seq<Tok>, x: Tok, c: Seq<Tok>, k: KindV)
    requires
        no_kind(a, k),
        no_kind(c, k),
    ensures
        one_kind_at_most(a + seq![x] + c, k),
{
    let t = a + seq![x] + c;
    assert forall|i: int, j: int|
        0 <= i < t.len() && 0 <= j < t.len() && (#[trigger] t[i]).kind == k && (#[trigger] t[j]).kind
            == k implies i == j by {
        if i < a.len() {
            assert(t[i] == a[i]);
        } else if i > a.len() {
            assert(t[i] == c[i - a.len() - 1]);
        }
        if j < a.len() {
            assert(t[j] == a[j]);
        } else if j > a.len() {
            assert(t[j] == c[j - a.len() - 1]);
        }
    }
}

proof fn lemma_names_no_kind(s: Seq<char>, i: int, le: int, k: KindV)
    requires
        k != KindV::Hostname,
        k != KindV::Whitespace,
    ensures
        no_kind(crate::hosts::hosts_names(s, i, le).0, k),
    decreases le - i,
{
    if i >= le || s[i] == '#' || s[i] == '\r' || s[i] == '\n' {
    } else {
        let h = crate::grammar::scan(s, i, le, crate::grammar::Stop::HostsWord);
        let b = crate::grammar::scan(s, h, le, crate::grammar::Stop::NonBlank);
        if b <= i || b > le {
        } else {
            lemma_names_no_kind(s, b, le, k);
            let head = crate::grammar::one_tok(KindV::Hostname, i, h) + crate::grammar::opt_tok(KindV::Whitespace, h, b);
            assert(no_kind(head, k));
            lemma_no_kind_concat(head, crate::hosts::hosts_names(s, b, le).0, k);
        }
    }
}

/// A hosts line has at most one address token.
proof fn lemma_hosts_line_one_address(s: Seq<char>, ls: int, le: int)
    ensures
        one_kind_at_most(crate::hosts::hosts_shape(s, ls, le).toks, KindV::IpAddress),
{
    let toks = crate::hosts::hosts_shape(s, ls, le).toks;
    let ce = content_end(s, ls, le);
    let nl = opt_tok(KindV::Newline, ce, le);
    let w = scan(s, ls, le, Stop::NonBlank);
    let lead = opt_tok(KindV::Whitespace, ls, w);
    assert(no_kind(lead, KindV::IpAddress));
    assert(no_kind(nl, KindV::IpAddress));
    if ls >= le {
    } else if w >= le || s[w] == '\n' || s[w] == '\r' {
        lemma_no_kind_concat(lead, opt_tok(KindV::Newline, w, le), KindV::IpAddress);
    } else if s[w] == '#' {
        lemma_no_kind_concat(lead, one_tok(KindV::Comment, w, ce), KindV::IpAddress);
        lemma_no_kind_concat(lead + one_tok(KindV::Comment, w, ce), nl, KindV::IpAddress);
    } else {
        let ip = scan(s, w, le, Stop::HostsWord);
        let x = Tok { kind: KindV::IpAddress, start: w, end: ip };
        assert(one_tok(KindV::IpAddress, w, ip) == seq![x]);
        let b = scan(s, ip, le, Stop::NonBlank);
        if b == ip {
            let post = opt_tok(KindV::Error, ip, ce) + opt_tok(KindV::Newline, ce, le);
            lemma_no_kind_concat(opt_tok(KindV::Error, ip, ce), opt_tok(KindV::Newline, ce, le), KindV::IpAddress);
            assert(toks =~= lead + seq![x] + post);
            lemma_one_kind(lead, x, post, KindV::IpAddress);
        } else {
            let ws = one_tok(KindV::Whitespace, ip, b);
            let names = crate::hosts::hosts_names(s, b, le);
            lemma_names_no_kind(s, b, le, KindV::IpAddress);
            if names.0.len() == 0 {
                let post = ws + (opt_tok(KindV::Error, names.1, ce) + opt_tok(KindV::Newline, ce, le));
                lemma_no_kind_concat(opt_tok(KindV::Error, names.1, ce), opt_tok(KindV::Newline, ce, le), KindV::IpAddress);
                lemma_no_kind_concat(ws, opt_tok(KindV::Error, names.1, ce) + opt_tok(KindV::Newline, ce, le), KindV::IpAddress);
                assert(toks =~= lead + seq![x] + post);
                lemma_one_kind(lead, x, post, KindV::IpAddress);
            } else {
                let tail = if names.1 < le && s[names.1] == '#' {
                    one_tok(KindV::Comment, names.1, ce)
                } else {
                    opt_tok(KindV::Error, names.1, ce)
                };
                assert(no_kind(tail, KindV::IpAddress));
                lemma_no_kind_concat(ws, names.0, KindV::IpAddress);
                lemma_no_kind_concat(ws + names.0, tail, KindV::IpAddress);
                lemma_no_kind_concat(ws + names.0 + tail, nl, KindV::IpAddress);
                let post = ws + names.0 + tail + nl;
                assert(toks =~= lead + seq![x] + post);
                lemma_one_kind(lead, x, post, KindV::IpAddress);
            }
        }
    }
}

/// `v` is a token of kind `k`.
pub open spec fn token_of(v: CstV, k: KindV) -> bool {
    v matches CstV::Token { kind, .. } && kind == k
}

proof fn lemma_last_token_text(cs: Seq<CstV>, k: KindV, idx: int, t: Seq<char>)
    requires
        0 <= idx < cs.len(),
        cs[idx] matches CstV::Token { kind, text, .. } && kind == k && text == t,
        forall|j: int| idx < j < cs.len() ==> !token_of(#[trigger] cs[j], k),
    ensures
        crate::bind::last_token_text(cs, k) == Some(t),
    decreases cs.len(),
{
    if idx < cs.len() - 1 {
        let d = cs.drop_last();
        assert(!token_of(cs[cs.len() - 1], k));
        assert forall|j: int| idx < j < d.len() implies !token_of(#[trigger] d[j], k) by {
            assert(d[j] == cs[j]);
        }
        lemma_last_token_text(d, k, idx, t);
    }
}

/// In a row of tokens with at most one of kind `k`, replacing the first
/// token of kind `k` with `t` makes `t` the text the last one reads.
proof fn lemma_replace_reads_back(cs: Seq<CstV>, k: KindV, t: Seq<char>)
    requires
        forall|j: int| 0 <= j < cs.len() ==> (#[trigger] cs[j]) is Token,
        forall|a: int, b: int|
            0 <= a < cs.len() && 0 <= b < cs.len() && token_of(#[trigger] cs[a], k) && token_of(#[trigger] cs[b], k)
                ==> a == b,
        replace_first_in(cs, k, t) is Some,
    ensures
        crate::bind::last_token_text(replace_first_in(cs, k, t)->Some_0, k) == Some(t),
{
    if !(exists|j: int| 0 <= j < cs.len() && token_of(#[trigger] cs[j], k)) {
        assert forall|j: int| 0 <= j < cs.len() implies (#[trigger] replace_first(cs[j], k, t)) is None by {
            assert(!token_of(cs[j], k));
        }
        crate::cst::lemma_replace_first_in(cs, k, t, cs.len() as int);
    } else {
        let idx = choose|j: int| 0 <= j < cs.len() && token_of(#[trigger] cs[j], k);
        assert forall|j: int| 0 <= j < idx implies (#[trigger] replace_first(cs[j], k, t)) is None by {
            assert(!token_of(cs[j], k));
        }
        crate::cst::lemma_replace_first_in(cs, k, t, idx);
        let c = replace_first(cs[idx], k, t)->Some_0;
        let r = cs.update(idx, c);
        assert(replace_first_in(cs, k, t)->Some_0 == r);
        assert forall|j: int| idx < j < r.len() implies !token_of(#[trigger] r[j], k) by {
            assert(r[j] == cs[j]);
        }
        lemma_last_token_text(r, k, idx, t);
    }
}

proof fn lemma_entry_rows_has<B: RowBinder>(h: B, cs: Seq<CstV>, i: int)
    requires
        0 <= i < cs.len(),
        crate::cst::cst_kind(cs[i]) == KindV::Entry,
    ensures
        exists|k: int|
            0 <= k < entry_rows(h, cs).len() && #[trigger] entry_rows(h, cs)[k] == h.row_spec(cs[i], line_no(cs, i)),
    decreases cs.len(),
{
    let d = cs.drop_last();
    if i == cs.len() - 1 {
        let k = entry_rows(h, d).len() as int;
        assert(entry_rows(h, cs)[k] == h.row_spec(cs[i], line_no(cs, i)));
    } else {
        lemma_entry_rows_has(h, d, i);
        crate::bind::lemma_line_no_prefix(cs, cs.len() - 1, i);
        assert(d =~= cs.subrange(0, cs.len() - 1));
        assert(d[i] == cs[i]);
        let k = choose|k: int| 0 <= k < entry_rows(h, d).len() && #[trigger] entry_rows(h, d)[k] == h.row_spec(d[i], line_no(d, i));
        assert(entry_rows(h, cs)[k] == entry_rows(h, d)[k]);
    }
}

/// The IR `d` has a row for line `ln` whose first field is the address `t`.
pub open spec fn shows_address(d: DocumentIrV, ln: int, t: Seq<char>) -> bool {
    exists|k: int|
        0 <= k < d.rows.len() && (#[trigger] d.rows[k]).row_id == row_id_text(ln) && d.rows[k].fields.len() > 0
            && d.rows[k].fields[0].name == "address"@ && d.rows[k].fields[0].value == JsonV::String(t)
}

/// An address that is written reads back: after the hosts plugin sets the
/// address of an entry row of a parsed file to `t`, the document's IR shows
/// that row with the address `t`.
pub proof fn lemma_address_reads_back(hosts: HostsPlugin, text: Seq<char>, row_id: Seq<char>, t: Seq<char>)
    requires
        hosts.edited(
            hosts.parsed(text),
            EditOpV::UpdateField { row_id, field_name: "address"@, new_value: JsonV::String(t) },
        ).1 is Ok,
        crate::cst::cst_kind(
            cst_children(hosts.parsed(text))[row_index(cst_children(hosts.parsed(text)), row_line(row_id)->Some_0 as int)->Some_0],
        ) == KindV::Entry,
    ensures
        shows_address(
            hosts.bound(
                hosts.edited(
                    hosts.parsed(text),
                    EditOpV::UpdateField { row_id, field_name: "address"@, new_value: JsonV::String(t) },
                ).0,
            ),
            row_line(row_id)->Some_0 as int,
            t,
        ),
{
    let v = hosts.parsed(text);
    let cs = cst_children(v);
    let ln = row_line(row_id)->Some_0 as int;
    let i = row_index(cs, ln)->Some_0;
    let line = cs[i];
    let l2 = replace_first(line, KindV::IpAddress, t)->Some_0;
    let cs2 = cs.update(i, l2);
    let e = hosts.edited(v, EditOpV::UpdateField { row_id, field_name: "address"@, new_value: JsonV::String(t) }).0;
    assert(cst_children(e) == cs2);
    lemma_parsed_hosts_line(text, i);
    lemma_replace_reads_back(cst_children(line), KindV::IpAddress, t);
    assert(crate::bind::last_token_text(cst_children(l2), KindV::IpAddress) == Some(t));
    // Its line number is unchanged, and it is still an entry.
    crate::bind::lemma_line_no_prefix(cs, i, i);
    crate::bind::lemma_line_no_prefix(cs2, i, i);
    assert(cs.subrange(0, i) =~= cs2.subrange(0, i));
    assert(line_no(cs2, i) == ln);
    assert(cs2[i] == l2);
    lemma_entry_rows_has(hosts, cs2, i);
    let k = choose|k: int|
        0 <= k < entry_rows(hosts, cs2).len() && #[trigger] entry_rows(hosts, cs2)[k] == hosts.row_spec(cs2[i], line_no(cs2, i));
    let d = hosts.bound(e);
    assert(d.rows[k] == crate::hosts::hosts_row(hosts.manifest_spec(), l2, ln));
}

proof fn lemma_last_kind_exists(cs: Seq<CstV>, k: KindV, a: int)
    requires
        0 <= a < cs.len(),
        crate::cst::cst_kind(cs[a]) == k,
    ensures
        exists|i: int| #[trigger] crate::rows::is_last_kind(cs, k, i),
    decreases cs.len() - a,
{
    if exists|j: int| a < j < cs.len() && crate::cst::cst_kind(#[trigger] cs[j]) == k {
        let j = choose|j: int| a < j < cs.len() && crate::cst::cst_kind(#[trigger] cs[j]) == k;
        lemma_last_kind_exists(cs, k, j);
    } else {
        assert(crate::rows::is_last_kind(cs, k, a));
    }
}

proof fn lemma_texts_of_kind_concat(x: Seq<CstV>, y: Seq<CstV>, k: KindV)
    ensures
        texts_of_kind(x + y, k) == texts_of_kind(x, k) + texts_of_kind(y, k),
    decreases y.len(),
{
    if y.len() == 0 {
        assert(x + y =~= x);
        assert(texts_of_kind(x, k) + texts_of_kind(y, k) =~= texts_of_kind(x, k));
    } else {
        lemma_texts_of_kind_concat(x, y.drop_last(), k);
        assert((x + y).drop_last() =~= x + y.drop_last());
        assert((x + y).last() == y.last());
        let tail = texts_of_kind(y, k).subrange(texts_of_kind(y.drop_last(), k).len() as int, texts_of_kind(y, k).len() as int);
        assert(texts_of_kind(x, k) + texts_of_kind(y, k) =~= texts_of_kind(x, k) + texts_of_kind(y.drop_last(), k) + tail);
    }
}

proof fn lemma_texts_of_kind_none(cs: Seq<CstV>, k: KindV)
    requires
        forall|j: int| 0 <= j < cs.len() ==> crate::cst::cst_kind(#[trigger] cs[j]) != k,
    ensures
        texts_of_kind(cs, k) == Seq::<Seq<char>>::empty(),
    decreases cs.len(),
{
    if cs.len() > 0 {
        let d = cs.drop_last();
        assert forall|j: int| 0 <= j < d.len() implies crate::cst::cst_kind(#[trigger] d[j]) != k by {
            assert(d[j] == cs[j]);
        }
        lemma_texts_of_kind_none(d, k);
        assert(crate::cst::cst_kind(cs[cs.len() - 1]) != k);
    }
}

proof fn lemma_hostname_toks_texts(names: Seq<Seq<char>>)
    ensures
        texts_of_kind(crate::hosts::hostname_toks(names), KindV::Hostname) == names,
    decreases names.len(),
{
    let h = crate::hosts::hostname_toks(names);
    if names.len() == 0 {
    } else if names.len() == 1 {
        assert(h.drop_last() =~= Seq::<CstV>::empty());
        assert(h.last() == crate::rows::plain_tok(KindV::Hostname, names[0]));
        assert(texts_of_kind(h, KindV::Hostname) == texts_of_kind(h.drop_last(), KindV::Hostname) + seq![names[0]]);
        assert(seq![names[0]] =~= names);
    } else {
        let d = names.drop_last();
        lemma_hostname_toks_texts(d);
        let pair = seq![
            crate::rows::plain_tok(KindV::Whitespace, " "@),
            crate::rows::plain_tok(KindV::Hostname, names.last()),
        ];
        lemma_texts_of_kind_concat(crate::hosts::hostname_toks(d), pair, KindV::Hostname);
        let w = seq![crate::rows::plain_tok(KindV::Whitespace, " "@)];
        assert(pair.drop_last() =~= w);
        assert(w.drop_last() =~= Seq::<CstV>::empty());
        assert(w.last() == crate::rows::plain_tok(KindV::Whitespace, " "@));
        assert(texts_of_kind(Seq::<CstV>::empty(), KindV::Hostname) =~= Seq::<Seq<char>>::empty());
        assert(texts_of_kind(w, KindV::Hostname) == texts_of_kind(w.drop_last(), KindV::Hostname) + Seq::<Seq<char>>::empty());
        assert(texts_of_kind(w, KindV::Hostname) =~= Seq::<Seq<char>>::empty());
        assert(pair.last() == crate::rows::plain_tok(KindV::Hostname, names.last()));
        assert(texts_of_kind(pair, KindV::Hostname) == texts_of_kind(w, KindV::Hostname) + seq![names.last()]);
        assert(texts_of_kind(pair, KindV::Hostname) =~= seq![names.last()]);
        assert(d + seq![names.last()] =~= names);
    }
}

/// The IR `d` has a row for line `ln` with a field `hostnames` whose value
/// is the array `items`.
pub open spec fn shows_hostnames(d: DocumentIrV, ln: int, items: Seq<JsonV>) -> bool {
    exists|k: int, f: int|
        0 <= k < d.rows.len() && (#[trigger] d.rows[k]).row_id == row_id_text(ln) && 0 <= f < d.rows[k].fields.len()
            && #[trigger] d.rows[k].fields[f].name == "hostnames"@ && d.rows[k].fields[f].value == JsonV::Array(items)
}

/// Host names that are written read back: after the hosts plugin sets the
/// host names of an entry row to `items`, the document's IR shows that row
/// with exactly those names.
pub proof fn lemma_hostnames_read_back(hosts: HostsPlugin, v: CstV, row_id: Seq<char>, items: Seq<JsonV>)
    requires
        hosts.edited(v, EditOpV::UpdateField { row_id, field_name: "hostnames"@, new_value: JsonV::Array(items) }).1 is Ok,
        crate::cst::cst_kind(cst_children(v)[row_index(cst_children(v), row_line(row_id)->Some_0 as int)->Some_0])
            == KindV::Entry,
    ensures
        shows_hostnames(
            hosts.bound(
                hosts.edited(v, EditOpV::UpdateField { row_id, field_name: "hostnames"@, new_value: JsonV::Array(items) }).0,
            ),
            row_line(row_id)->Some_0 as int,
            items,
        ),
{
    let cs = cst_children(v);
    let ln = row_line(row_id)->Some_0 as int;
    let i = row_index(cs, ln)->Some_0;
    let line = cs[i];
    let names = crate::hosts::json_texts(items);
    let l2 = crate::hosts::hostnames_edit(line, names).0;
    let cs2 = cs.update(i, l2);
    let e = hosts.edited(v, EditOpV::UpdateField { row_id, field_name: "hostnames"@, new_value: JsonV::Array(items) }).0;
    assert(cst_children(e) == cs2);
    let lc = cst_children(line);
    let a = crate::rows::first_kind(lc, KindV::Hostname)->Some_0;
    assert(crate::rows::is_first_kind(lc, KindV::Hostname, a));
    lemma_last_kind_exists(lc, KindV::Hostname, a);
    let b = crate::rows::last_kind(lc, KindV::Hostname)->Some_0;
    assert(crate::rows::is_last_kind(lc, KindV::Hostname, b));
    let pre = lc.subrange(0, a);
    let post = lc.subrange(b + 1, lc.len() as int);
    let mid = crate::hosts::hostname_toks(names);
    assert(cst_children(l2) == pre + mid + post);
    assert forall|j: int| 0 <= j < pre.len() implies crate::cst::cst_kind(#[trigger] pre[j]) != KindV::Hostname by {
        assert(pre[j] == lc[j]);
    }
    assert forall|j: int| 0 <= j < post.len() implies crate::cst::cst_kind(#[trigger] post[j]) != KindV::Hostname by {
        assert(post[j] == lc[b + 1 + j]);
    }
    lemma_texts_of_kind_none(pre, KindV::Hostname);
    lemma_texts_of_kind_none(post, KindV::Hostname);
    lemma_texts_of_kind_concat(pre, mid, KindV::Hostname);
    lemma_texts_of_kind_concat(pre + mid, post, KindV::Hostname);
    lemma_hostname_toks_texts(names);
    assert(texts_of_kind(cst_children(l2), KindV::Hostname) =~= names);
    assert(crate::bind::str_jsons(names) =~= items);
    // Its line number is unchanged, and it is still an entry.
    crate::bind::lemma_line_no_prefix(cs, i, i);
    crate::bind::lemma_line_no_prefix(cs2, i, i);
    assert(cs.subrange(0, i) =~= cs2.subrange(0, i));
    assert(line_no(cs2, i) == ln);
    assert(cs2[i] == l2);
    lemma_entry_rows_has(hosts, cs2, i);
    let k = choose|k: int|
        0 <= k < entry_rows(hosts, cs2).len() && #[trigger] entry_rows(hosts, cs2)[k] == hosts.row_spec(cs2[i], line_no(cs2, i));
    let d = hosts.bound(e);
    let row = crate::hosts::hosts_row(hosts.manifest_spec(), l2, ln);
    assert(d.rows[k] == row);
    let f = match crate::bind::last_token_text(cst_children(l2), KindV::IpAddress) {
        Some(_) => 1int,
        None => 0int,
    };
    assert(row.fields[f].name == "hostnames"@);
    assert(row.fields[f].value == JsonV::Array(items));
}

proof fn lemma_no_kind_one(t: Seq<Tok>, k: KindV)
    requires
        no_kind(t, k),
    ensures
        one_kind_at_most(t, k),
{
}

/// A hosts line has at most one comment token.
proof fn lemma_hosts_line_one_comment(s: Seq<char>, ls: int, le: int)
    ensures
        one_kind_at_most(crate::hosts::hosts_shape(s, ls, le).toks, KindV::Comment),
{
    let k = KindV::Comment;
    let toks = crate::hosts::hosts_shape(s, ls, le).toks;
    let ce = content_end(s, ls, le);
    let nl = opt_tok(KindV::Newline, ce, le);
    let w = scan(s, ls, le, Stop::NonBlank);
    let lead = opt_tok(KindV::Whitespace, ls, w);
    assert(no_kind(lead, k));
    assert(no_kind(nl, k));
    if ls >= le {
    } else if w >= le || s[w] == '\n' || s[w] == '\r' {
        lemma_no_kind_concat(lead, opt_tok(KindV::Newline, w, le), k);
    } else if s[w] == '#' {
        let x = Tok { kind: k, start: w, end: ce };
        assert(toks =~= lead + seq![x] + nl);
        lemma_one_kind(lead, x, nl, k);
    } else {
        let ip = scan(s, w, le, Stop::HostsWord);
        let t1 = lead + one_tok(KindV::IpAddress, w, ip);
        lemma_no_kind_concat(lead, one_tok(KindV::IpAddress, w, ip), k);
        let b = scan(s, ip, le, Stop::NonBlank);
        let err_nl = |x: int| opt_tok(KindV::Error, x, ce) + opt_tok(KindV::Newline, ce, le);
        if b == ip {
            lemma_no_kind_concat(opt_tok(KindV::Error, ip, ce), opt_tok(KindV::Newline, ce, le), k);
            lemma_no_kind_concat(t1, err_nl(ip), k);
            assert(toks =~= t1 + err_nl(ip));
            lemma_no_kind_one(toks, k);
        } else {
            let t2 = t1 + one_tok(KindV::Whitespace, ip, b);
            lemma_no_kind_concat(t1, one_tok(KindV::Whitespace, ip, b), k);
            let names = crate::hosts::hosts_names(s, b, le);
            lemma_names_no_kind(s, b, le, k);
            lemma_no_kind_concat(t2, names.0, k);
            if names.0.len() == 0 {
                lemma_no_kind_concat(opt_tok(KindV::Error, names.1, ce), opt_tok(KindV::Newline, ce, le), k);
                lemma_no_kind_concat(t2, err_nl(names.1), k);
                assert(toks =~= t2 + err_nl(names.1));
                lemma_no_kind_one(toks, k);
            } else if names.1 < le && s[names.1] == '#' {
                let x = Tok { kind: k, start: names.1, end: ce };
                assert(toks =~= (t2 + names.0) + seq![x] + nl);
                lemma_one_kind(t2 + names.0, x, nl, k);
            } else {
                lemma_no_kind_concat(t2 + names.0, opt_tok(KindV::Error, names.1, ce), k);
                lemma_no_kind_concat(t2 + names.0 + opt_tok(KindV::Error, names.1, ce), nl, k);
                lemma_no_kind_one(toks, k);
            }
        }
    }
}

proof fn lemma_first_kind_exists(cs: Seq<CstV>, k: KindV, a: int)
    requires
        0 <= a < cs.len(),
        crate::cst::cst_kind(cs[a]) == k,
    ensures
        exists|i: int| #[trigger] crate::rows::is_first_kind(cs, k, i),
    decreases a,
{
    if exists|j: int| 0 <= j < a && crate::cst::cst_kind(#[trigger] cs[j]) == k {
        let j = choose|j: int| 0 <= j < a && crate::cst::cst_kind(#[trigger] cs[j]) == k;
        lemma_first_kind_exists(cs, k, j);
    } else {
        assert(crate::rows::is_first_kind(cs, k, a));
    }
}

proof fn lemma_last_token_text_none(cs: Seq<CstV>, k: KindV)
    requires
        forall|j: int| 0 <= j < cs.len() ==> !token_of(#[trigger] cs[j], k),
    ensures
        crate::bind::last_token_text(cs, k) is None,
    decreases cs.len(),
{
    if cs.len() > 0 {
        let d = cs.drop_last();
        assert(!token_of(cs[cs.len() - 1], k));
        assert forall|j: int| 0 <= j < d.len() implies !token_of(#[trigger] d[j], k) by {
            assert(d[j] == cs[j]);
        }
        lemma_last_token_text_none(d, k);
    }
}

proof fn lemma_comment_value_of_written(t: Seq<char>)
    ensures
        crate::text::comment_value("# "@ + t) == crate::text::trim_ws(t),
{
    reveal_strlit("# ");
    let f = "# "@ + t;
    assert(f[0] == '#');
    assert(f.subrange(1, f.len() as int) =~= seq![' '] + t);
    assert((seq![' '] + t)[0] == ' ');
    assert(crate::text::trim_start_char(seq![' '] + t, '#') == seq![' '] + t);
    assert(crate::text::trim_start_char(f, '#') == crate::text::trim_start_char(f.subrange(1, f.len() as int), '#'));
    assert(crate::text::trim_start_char(f, '#') == seq![' '] + t);
    assert((seq![' '] + t).subrange(1, t.len() as int + 1) =~= t);
    assert(crate::text::is_unicode_ws(' '));
    assert(crate::text::trim_ws_start(seq![' '] + t) == crate::text::trim_ws_start(t));
}

/// What a hosts line's comment reads as after `comment_edit` sets or clears
/// it, for a line of tokens with at most one comment.
proof fn lemma_comment_edit_reads_back(line: CstV, new: JsonV)
    requires
        line is Rule,
        forall|j: int| 0 <= j < cst_children(line).len() ==> (#[trigger] cst_children(line)[j]) is Token,
        forall|a: int, b: int|
            0 <= a < cst_children(line).len() && 0 <= b < cst_children(line).len() && crate::cst::cst_kind(
                #[trigger] cst_children(line)[a],
            ) == KindV::Comment && crate::cst::cst_kind(#[trigger] cst_children(line)[b]) == KindV::Comment ==> a == b,
        crate::rows::comment_edit(line, new).1 is Ok,
    ensures
        crate::cst::cst_kind(crate::rows::comment_edit(line, new).0) == crate::cst::cst_kind(line),
        new matches JsonV::String(t) ==> (t.len() > 0 ==> crate::bind::last_token_text(
            cst_children(crate::rows::comment_edit(line, new).0),
            KindV::Comment,
        ) == Some("# "@ + t)),
        crate::rows::clears_comment(new) ==> crate::bind::last_token_text(
            cst_children(crate::rows::comment_edit(line, new).0),
            KindV::Comment,
        ) is None,
{
    let k = KindV::Comment;
    let lc = cst_children(line);
    let r = cst_children(crate::rows::comment_edit(line, new).0);
    let none_before = forall|j: int| 0 <= j < lc.len() ==> crate::cst::cst_kind(#[trigger] lc[j]) != k;
    if crate::rows::first_kind(lc, k) is None {
        if !none_before {
            let a = choose|j: int| 0 <= j < lc.len() && crate::cst::cst_kind(#[trigger] lc[j]) == k;
            lemma_first_kind_exists(lc, k, a);
        }
        assert(none_before);
    }
    if crate::rows::clears_comment(new) {
        match crate::rows::first_kind(lc, k) {
            None => {
                lemma_last_token_text_none(lc, k);
            },
            Some(i) => {
                assert(crate::rows::is_first_kind(lc, k, i));
                assert forall|j: int| 0 <= j < r.len() implies !token_of(#[trigger] r[j], k) by {
                    if i > 0 && crate::cst::cst_kind(lc[i - 1]) == KindV::Whitespace {
                        let m = if j < i - 1 { j } else { j + 2 };
                        assert(r[j] == lc[m]);
                    } else {
                        let m = if j < i { j } else { j + 1 };
                        assert(r[j] == lc[m]);
                    }
                }
                lemma_last_token_text_none(r, k);
            },
        }
    } else {
        let t = new->String_0;
        let f = "# "@ + t;
        match crate::rows::first_kind(lc, k) {
            Some(i) => {
                assert(crate::rows::is_first_kind(lc, k, i));
                assert forall|j: int| i < j < r.len() implies !token_of(#[trigger] r[j], k) by {
                    assert(r[j] == lc[j]);
                }
                lemma_last_token_text(r, k, i, f);
            },
            None => {
                let j = match crate::rows::first_kind(lc, KindV::Newline) {
                    Some(j) => j,
                    None => lc.len() as int,
                };
                if let Some(jj) = crate::rows::first_kind(lc, KindV::Newline) {
                    assert(crate::rows::is_first_kind(lc, KindV::Newline, jj));
                }
                assert forall|m: int| j + 1 < m < r.len() implies !token_of(#[trigger] r[m], k) by {
                    assert(r[m] == lc[m - 2]);
                }
                lemma_last_token_text(r, k, j + 1, f);
            },
        }
    }
}

proof fn lemma_comment_field_edit(row_id: Seq<char>, new: JsonV, line: CstV)
    ensures
        crate::hosts::hosts_line_edit("comment"@, row_id, new)(line) == crate::rows::comment_edit(line, new),
{
    reveal_strlit("comment");
    reveal_strlit("address");
    reveal_strlit("hostnames");
    assert("comment"@[0] != "address"@[0]);
    assert("comment"@ != "address"@);
    assert("comment"@.len() != "hostnames"@.len());
    assert("comment"@ != "hostnames"@);
}

/// A line of a parsed hosts file is a rule of tokens with at most one
/// address and at most one comment.
proof fn lemma_parsed_hosts_line(text: Seq<char>, i: int)
    requires
        0 <= i < parse_doc_spec(text, Grammar::Hosts).len(),
    ensures
        ({
            let line = parse_doc_spec(text, Grammar::Hosts)[i];
            let lc = cst_children(line);
            &&& line is Rule
            &&& forall|j: int| 0 <= j < lc.len() ==> (#[trigger] lc[j]) is Token
            &&& forall|a: int, b: int|
                0 <= a < lc.len() && 0 <= b < lc.len() && crate::cst::cst_kind(#[trigger] lc[a]) == KindV::Comment
                    && crate::cst::cst_kind(#[trigger] lc[b]) == KindV::Comment ==> a == b
            &&& forall|a: int, b: int|
                0 <= a < lc.len() && 0 <= b < lc.len() && token_of(#[trigger] lc[a], KindV::IpAddress) && token_of(
                    #[trigger] lc[b],
                    KindV::IpAddress,
                ) ==> a == b
        }),
{
    let lines = crate::grammar::lines_from(text, 0);
    reveal(crate::grammar::shape_of);
    let sh = crate::hosts::hosts_shape(text, lines[i].0, lines[i].1);
    let line = parse_doc_spec(text, Grammar::Hosts)[i];
    assert(line == crate::grammar::line_view(text, lines[i].0, lines[i].1, sh));
    lemma_hosts_line_one_comment(text, lines[i].0, lines[i].1);
    lemma_hosts_line_one_address(text, lines[i].0, lines[i].1);
    let lc = crate::grammar::toks_views(text, sh.toks);
    assert forall|a: int, b: int|
        0 <= a < lc.len() && 0 <= b < lc.len() && crate::cst::cst_kind(#[trigger] lc[a]) == KindV::Comment
            && crate::cst::cst_kind(#[trigger] lc[b]) == KindV::Comment implies a == b by {
        assert(sh.toks[a].kind == KindV::Comment);
        assert(sh.toks[b].kind == KindV::Comment);
    }
    assert forall|a: int, b: int|
        0 <= a < lc.len() && 0 <= b < lc.len() && token_of(#[trigger] lc[a], KindV::IpAddress) && token_of(
            #[trigger] lc[b],
            KindV::IpAddress,
        ) implies a == b by {
        assert(sh.toks[a].kind == KindV::IpAddress);
        assert(sh.toks[b].kind == KindV::IpAddress);
    }
}

/// The IR `d` has a row for line `ln` whose last field is the comment `c`.
pub open spec fn shows_comment(d: DocumentIrV, ln: int, c: Seq<char>) -> bool {
    exists|k: int|
        0 <= k < d.rows.len() && (#[trigger] d.rows[k]).row_id == row_id_text(ln) && d.rows[k].fields.len() > 0
            && d.rows[k].fields.last().name == "comment"@ && d.rows[k].fields.last().value == JsonV::String(c)
}

/// The IR `d` has a row for line `ln` with no comment field.
pub open spec fn shows_no_comment(d: DocumentIrV, ln: int) -> bool {
    exists|k: int|
        0 <= k < d.rows.len() && (#[trigger] d.rows[k]).row_id == row_id_text(ln) && forall|f: int|
            0 <= f < d.rows[k].fields.len() ==> #[trigger] d.rows[k].fields[f].name != "comment"@
}

/// A comment that is written reads back, trimmed: after the hosts plugin
/// sets the comment of an entry row of a parsed file to a non-empty string
/// `t`, the document's IR shows that row with the comment `t` without its
/// surrounding whitespace; after it clears the comment (`null` or `""`),
/// the row shows no comment.
pub proof fn lemma_comment_reads_back(hosts: HostsPlugin, text: Seq<char>, row_id: Seq<char>, new: JsonV)
    requires
        hosts.edited(hosts.parsed(text), EditOpV::UpdateField { row_id, field_name: "comment"@, new_value: new }).1 is Ok,
        crate::cst::cst_kind(
            cst_children(hosts.parsed(text))[row_index(cst_children(hosts.parsed(text)), row_line(row_id)->Some_0 as int)->Some_0],
        ) == KindV::Entry,
    ensures
        new matches JsonV::String(t) ==> (t.len() > 0 ==> shows_comment(
            hosts.bound(hosts.edited(hosts.parsed(text), EditOpV::UpdateField { row_id, field_name: "comment"@, new_value: new }).0),
            row_line(row_id)->Some_0 as int,
            crate::text::trim_ws(t),
        )),
        crate::rows::clears_comment(new) ==> shows_no_comment(
            hosts.bound(hosts.edited(hosts.parsed(text), EditOpV::UpdateField { row_id, field_name: "comment"@, new_value: new }).0),
            row_line(row_id)->Some_0 as int,
        ),
{
    let v = hosts.parsed(text);
    let cs = cst_children(v);
    let ln = row_line(row_id)->Some_0 as int;
    let i = row_index(cs, ln)->Some_0;
    let line = cs[i];
    let l2 = crate::rows::comment_edit(line, new).0;
    let cs2 = cs.update(i, l2);
    let e = hosts.edited(v, EditOpV::UpdateField { row_id, field_name: "comment"@, new_value: new }).0;
    lemma_comment_field_edit(row_id, new, line);
    assert(cst_children(e) == cs2);
    lemma_parsed_hosts_line(text, i);
    lemma_comment_edit_reads_back(line, new);
    // Its line number is unchanged, and it is still an entry.
    crate::bind::lemma_line_no_prefix(cs, i, i);
    crate::bind::lemma_line_no_prefix(cs2, i, i);
    assert(cs.subrange(0, i) =~= cs2.subrange(0, i));
    assert(line_no(cs2, i) == ln);
    assert(cs2[i] == l2);
    lemma_entry_rows_has(hosts, cs2, i);
    let k = choose|k: int|
        0 <= k < entry_rows(hosts, cs2).len() && #[trigger] entry_rows(hosts, cs2)[k] == hosts.row_spec(cs2[i], line_no(cs2, i));
    let d = hosts.bound(e);
    let row = crate::hosts::hosts_row(hosts.manifest_spec(), l2, ln);
    assert(d.rows[k] == row);
    if new matches JsonV::String(t) && t.len() > 0 {
        let t = new->String_0;
        lemma_comment_value_of_written(t);
        assert(row.fields.last().name == "comment"@);
    }
    if crate::rows::clears_comment(new) {
        assert forall|f: int| 0 <= f < row.fields.len() implies #[trigger] row.fields[f].name != "comment"@ by {
            reveal_strlit("comment");
            reveal_strlit("address");
            reveal_strlit("hostnames");
            assert("comment"@[0] != "address"@[0]);
            assert("comment"@.len() != "hostnames"@.len());
        }
    }
}

proof fn lemma_dec_parses(n: nat)
    ensures
        dec(n).len() > 0,
        dec(n)[0] != '+',
        all_digits(dec(n)),
        digits_value(dec(n)) == n,
    decreases n,
{
    if n < 10 {
        let d = dec(n);
        assert(d.drop_last() =~= Seq::<char>::empty());
        assert(digits_value(d) == digits_value(d.drop_last()) * 10 + digit_value(d.last()));
    } else {
        lemma_dec_parses(n / 10);
        let p = dec(n / 10);
        let d = dec(n);
        assert(d == p.push(digit_char(n % 10)));
        assert(d.drop_last() =~= p);
        assert(d[0] == p[0]);
        assert forall|i: int| 0 <= i < d.len() implies #[trigger] is_digit(d[i]) by {
            if i < p.len() {
                assert(d[i] == p[i]);
                assert(is_digit(p[i]));
            }
        }
        assert(digit_value(digit_char(n % 10)) == n % 10);
        assert((n / 10) * 10 + n % 10 == n) by (nonlinear_arith);
    }
}

proof fn lemma_row_line_of_id(ln: nat)
    requires
        ln <= usize::MAX,
    ensures
        row_line(row_id_text(ln as int)) == Some(ln),
{
    reveal_strlit("line-");
    let id = row_id_text(ln as int);
    assert(ln as int as nat == ln);
    lemma_dec_parses(ln);
    assert(id.subrange(0, 5) =~= "line-"@);
    assert(id.subrange(5, id.len() as int) =~= dec(ln));
}

proof fn lemma_entry_rows_from<B: RowBinder>(b: B, cs: Seq<CstV>, k: int)
    requires
        0 <= k < entry_rows(b, cs).len(),
    ensures
        exists|i: int|
            #![trigger cs[i]]
            0 <= i < cs.len() && crate::cst::cst_kind(cs[i]) == KindV::Entry && entry_rows(b, cs)[k] == b.row_spec(
                cs[i],
                line_no(cs, i),
            ),
    decreases cs.len(),
{
    let d = cs.drop_last();
    let n = entry_rows(b, d).len();
    if k < n {
        lemma_entry_rows_from(b, d, k);
        let i = choose|i: int|
            #![trigger d[i]]
            0 <= i < d.len() && crate::cst::cst_kind(d[i]) == KindV::Entry && entry_rows(b, d)[k] == b.row_spec(
                d[i],
                line_no(d, i),
            );
        crate::bind::lemma_line_no_prefix(cs, cs.len() - 1, i);
        assert(d =~= cs.subrange(0, cs.len() - 1));
        assert(d[i] == cs[i]);
        assert(entry_rows(b, cs)[k] == entry_rows(b, d)[k]);
    } else {
        let i = cs.len() - 1;
        assert(cs[i] == cs[i]);
    }
}

/// Every row of `rows` was bound from an entry line of `v`, and its id,
/// handed to an edit, finds that very line.
pub open spec fn row_ids_address_lines<B: RowBinder>(b: B, v: CstV, rows: Seq<RowIrV>) -> bool {
    forall|k: int|
        0 <= k < rows.len() ==> exists|i: int|
            #![trigger cst_children(v)[i]]
            0 <= i < cst_children(v).len() && crate::cst::cst_kind(cst_children(v)[i]) == KindV::Entry && rows[k]
                == b.row_spec(cst_children(v)[i], line_no(cst_children(v), i)) && row_line(#[trigger] rows[k].row_id)
                == Some(line_no(cst_children(v), i) as nat) && row_index(cst_children(v), line_no(cst_children(v), i))
                == Some(i)
}

proof fn lemma_ids_address<B: RowBinder>(b: B, v: CstV)
    requires
        crate::bind::lines_fit(v),
        forall|line: CstV, ln: int| (#[trigger] b.row_spec(line, ln)).row_id == row_id_text(ln),
    ensures
        row_ids_address_lines(b, v, entry_rows(b, cst_children(v))),
{
    let cs = cst_children(v);
    let rows = entry_rows(b, cs);
    assert forall|k: int| 0 <= k < rows.len() implies exists|i: int|
        #![trigger cs[i]]
        0 <= i < cs.len() && crate::cst::cst_kind(cs[i]) == KindV::Entry && rows[k] == b.row_spec(cs[i], line_no(cs, i))
            && row_line(#[trigger] rows[k].row_id) == Some(line_no(cs, i) as nat) && row_index(cs, line_no(cs, i))
            == Some(i) by {
        lemma_entry_rows_from(b, cs, k);
        let i = choose|i: int|
            #![trigger cs[i]]
            0 <= i < cs.len() && crate::cst::cst_kind(cs[i]) == KindV::Entry && rows[k] == b.row_spec(
                cs[i],
                line_no(cs, i),
            );
        let ln = line_no(cs, i);
        crate::rows::lemma_line_no_mono(cs, i, cs.len() as int);
        assert(ln >= 1);
        assert(rows[k].row_id == row_id_text(ln));
        lemma_row_line_of_id(ln as nat);
        crate::rows::lemma_row_index(cs, ln, i);
    }
}

/// The ids the IR hands out address their rows: every row a shipped plugin
/// binds comes from an entry line, and an edit given that row's id edits
/// that very line.
pub proof fn lemma_row_ids_address_their_lines(
    hosts: HostsPlugin,
    sshd: SshdPlugin,
    pg_hba: PgHbaPlugin,
    ufw: UfwPlugin,
    v: CstV,
)
    requires
        crate::bind::lines_fit(v),
    ensures
        row_ids_address_lines(hosts, v, hosts.bound(v).rows),
        row_ids_address_lines(sshd, v, sshd.bound(v).rows),
        row_ids_address_lines(pg_hba, v, pg_hba.bound(v).rows),
        row_ids_address_lines(ufw, v, ufw.bound(v).rows),
{
    lemma_ids_address(hosts, v);
    lemma_ids_address(sshd, v);
    lemma_ids_address(pg_hba, v);
    lemma_ids_address(ufw, v);
}

/// An sshd line has at most one value token, and an entry line has a
/// keyword token.
proof fn lemma_sshd_line_one_value(s: Seq<char>, ls: int, le: int)
    ensures
        one_kind_at_most(crate::sshd::sshd_shape(s, ls, le).toks, KindV::Value),
        crate::sshd::sshd_shape(s, ls, le).kind == KindV::Entry ==> exists|j: int|
            0 <= j < crate::sshd::sshd_shape(s, ls, le).toks.len() && (#[trigger] crate::sshd::sshd_shape(
                s,
                ls,
                le,
            ).toks[j]).kind == KindV::Key,
{
    let k = KindV::Value;
    let sh = crate::sshd::sshd_shape(s, ls, le);
    let toks = sh.toks;
    let ce = content_end(s, ls, le);
    let nl = opt_tok(KindV::Newline, ce, le);
    let w = scan(s, ls, le, Stop::NonBlank);
    let lead = opt_tok(KindV::Whitespace, ls, w);
    assert(no_kind(lead, k));
    assert(no_kind(nl, k));
    if ls >= le || w >= ce {
        lemma_no_kind_concat(lead, nl, k);
    } else if s[w] == '#' {
        lemma_no_kind_concat(lead, one_tok(KindV::Comment, w, ce), k);
        lemma_no_kind_concat(lead + one_tok(KindV::Comment, w, ce), nl, k);
    } else if sh.kind != KindV::Entry {
        let ws = opt_tok(KindV::Whitespace, ls, w);
        lemma_no_kind_concat(ws, opt_tok(KindV::Error, w, ce), k);
        lemma_no_kind_concat(ws + opt_tok(KindV::Error, w, ce), opt_tok(KindV::Newline, ce, le), k);
        lemma_no_kind_one(toks, k);
    } else {
        let key_end = scan(s, w, ce, Stop::SshdKey);
        let se = crate::sshd::sshd_sep_end(s, key_end, ce);
        let vse = crate::sshd::sshd_hash(s, se, ce, false);
        let te = crate::sshd::trim_end_pos(s, se, vse);
        let pre = lead + one_tok(KindV::Key, w, key_end) + one_tok(KindV::Whitespace, key_end, se);
        lemma_no_kind_concat(lead, one_tok(KindV::Key, w, key_end), k);
        lemma_no_kind_concat(lead + one_tok(KindV::Key, w, key_end), one_tok(KindV::Whitespace, key_end, se), k);
        let post = opt_tok(KindV::Whitespace, te, vse) + opt_tok(KindV::Comment, vse, ce) + nl;
        lemma_no_kind_concat(opt_tok(KindV::Whitespace, te, vse), opt_tok(KindV::Comment, vse, ce), k);
        lemma_no_kind_concat(opt_tok(KindV::Whitespace, te, vse) + opt_tok(KindV::Comment, vse, ce), nl, k);
        let x = Tok { kind: k, start: se, end: te };
        assert(toks =~= pre + seq![x] + post);
        lemma_one_kind(pre, x, post, k);
        assert(toks[lead.len() as int].kind == KindV::Key);
    }
}

/// A line of a parsed sshd file is a rule of tokens with at most one value;
/// an entry line has a keyword.
proof fn lemma_parsed_sshd_line(text: Seq<char>, i: int)
    requires
        0 <= i < parse_doc_spec(text, Grammar::Sshd).len(),
    ensures
        ({
            let line = parse_doc_spec(text, Grammar::Sshd)[i];
            let lc = cst_children(line);
            &&& line is Rule
            &&& forall|j: int| 0 <= j < lc.len() ==> (#[trigger] lc[j]) is Token
            &&& forall|a: int, b: int|
                0 <= a < lc.len() && 0 <= b < lc.len() && token_of(#[trigger] lc[a], KindV::Value) && token_of(
                    #[trigger] lc[b],
                    KindV::Value,
                ) ==> a == b
            &&& crate::cst::cst_kind(line) == KindV::Entry ==> exists|j: int| 0 <= j < lc.len() && token_of(#[trigger] lc[j], KindV::Key)
        }),
{
    let lines = crate::grammar::lines_from(text, 0);
    reveal(crate::grammar::shape_of);
    let sh = crate::sshd::sshd_shape(text, lines[i].0, lines[i].1);
    let line = parse_doc_spec(text, Grammar::Sshd)[i];
    assert(line == crate::grammar::line_view(text, lines[i].0, lines[i].1, sh));
    lemma_sshd_line_one_value(text, lines[i].0, lines[i].1);
    let lc = crate::grammar::toks_views(text, sh.toks);
    assert forall|a: int, b: int|
        0 <= a < lc.len() && 0 <= b < lc.len() && token_of(#[trigger] lc[a], KindV::Value) && token_of(
            #[trigger] lc[b],
            KindV::Value,
        ) implies a == b by {
        assert(sh.toks[a].kind == KindV::Value);
        assert(sh.toks[b].kind == KindV::Value);
    }
    if sh.kind == KindV::Entry {
        let j = choose|j: int| 0 <= j < sh.toks.len() && (#[trigger] sh.toks[j]).kind == KindV::Key;
        assert(token_of(lc[j], KindV::Key));
    }
}

proof fn lemma_last_token_text_some(cs: Seq<CstV>, k: KindV, idx: int)
    requires
        0 <= idx < cs.len(),
        token_of(cs[idx], k),
    ensures
        crate::bind::last_token_text(cs, k) is Some,
    decreases cs.len(),
{
    if idx < cs.len() - 1 && !token_of(cs[cs.len() - 1], k) {
        let d = cs.drop_last();
        assert(d[idx] == cs[idx]);
        lemma_last_token_text_some(d, k, idx);
    }
}

proof fn lemma_last_token_text_update(cs: Seq<CstV>, k: KindV, idx: int, c: CstV)
    requires
        0 <= idx < cs.len(),
        !token_of(cs[idx], k),
        !token_of(c, k),
    ensures
        crate::bind::last_token_text(cs.update(idx, c), k) == crate::bind::last_token_text(cs, k),
    decreases cs.len(),
{
    let u = cs.update(idx, c);
    if idx < cs.len() - 1 {
        assert(u.last() == cs.last());
        if !token_of(cs.last(), k) {
            assert(u.drop_last() =~= cs.drop_last().update(idx, c));
            lemma_last_token_text_update(cs.drop_last(), k, idx, c);
        }
    } else {
        assert(u.drop_last() =~= cs.drop_last());
    }
}

/// The keyword of the line the row id names in `v`.
pub open spec fn row_key(v: CstV, row_id: Seq<char>) -> Seq<char> {
    crate::bind::last_token_text(
        cst_children(cst_children(v)[row_index(cst_children(v), row_line(row_id)->Some_0 as int)->Some_0]),
        KindV::Key,
    )->Some_0
}

/// The IR value sshd binds the directive `key` set to the text `t` to.
pub open spec fn directive_value(m: crate::schema::PluginManifest, key: Seq<char>, t: Seq<char>) -> JsonV {
    match crate::sshd::sshd_def(m, key) {
        Some(d) => crate::sshd::directive_json(d.field_type@, t),
        None => JsonV::String(t),
    }
}

/// The IR `d` has a row for line `ln` whose first field has the value `value`.
pub open spec fn shows_value(d: DocumentIrV, ln: int, value: JsonV) -> bool {
    exists|k: int|
        0 <= k < d.rows.len() && (#[trigger] d.rows[k]).row_id == row_id_text(ln) && d.rows[k].fields.len() > 0
            && d.rows[k].fields[0].value == value
}

/// A directive that is written reads back: after the sshd plugin sets the
/// directive of an entry row of a parsed file to a value whose text is `t`,
/// the document's IR shows that row with the value the directive's type
/// makes of `t`.
pub proof fn lemma_directive_reads_back(
    sshd: SshdPlugin,
    text: Seq<char>,
    row_id: Seq<char>,
    field_name: Seq<char>,
    new: JsonV,
)
    requires
        field_name != "comment"@,
        sshd.edited(sshd.parsed(text), EditOpV::UpdateField { row_id, field_name, new_value: new }).1 is Ok,
        crate::cst::cst_kind(
            cst_children(sshd.parsed(text))[row_index(cst_children(sshd.parsed(text)), row_line(row_id)->Some_0 as int)->Some_0],
        ) == KindV::Entry,
    ensures
        shows_value(
            sshd.bound(sshd.edited(sshd.parsed(text), EditOpV::UpdateField { row_id, field_name, new_value: new }).0),
            row_line(row_id)->Some_0 as int,
            directive_value(sshd.manifest_spec(), row_key(sshd.parsed(text), row_id), crate::sshd::directive_text(new)->Some_0),
        ),
{
    let v = sshd.parsed(text);
    let cs = cst_children(v);
    let ln = row_line(row_id)->Some_0 as int;
    let i = row_index(cs, ln)->Some_0;
    let line = cs[i];
    let t = crate::sshd::directive_text(new)->Some_0;
    let l2 = replace_first(line, KindV::Value, t)->Some_0;
    let cs2 = cs.update(i, l2);
    let e = sshd.edited(v, EditOpV::UpdateField { row_id, field_name, new_value: new }).0;
    assert(cst_children(e) == cs2);
    lemma_parsed_sshd_line(text, i);
    let lc = cst_children(line);
    lemma_replace_reads_back(lc, KindV::Value, t);
    assert(crate::bind::last_token_text(cst_children(l2), KindV::Value) == Some(t));
    // The keyword is untouched.
    let a = choose|j: int| 0 <= j < lc.len() && token_of(#[trigger] lc[j], KindV::Key);
    lemma_last_token_text_some(lc, KindV::Key, a);
    if !(exists|j: int| 0 <= j < lc.len() && token_of(#[trigger] lc[j], KindV::Value)) {
        assert forall|j: int| 0 <= j < lc.len() implies (#[trigger] replace_first(lc[j], KindV::Value, t)) is None by {
            assert(!token_of(lc[j], KindV::Value));
        }
        crate::cst::lemma_replace_first_in(lc, KindV::Value, t, lc.len() as int);
    }
    let idx = choose|j: int| 0 <= j < lc.len() && token_of(#[trigger] lc[j], KindV::Value);
    assert(token_of(lc[idx], KindV::Value));
    assert forall|j: int| 0 <= j < idx implies (#[trigger] replace_first(lc[j], KindV::Value, t)) is None by {
        if token_of(lc[j], KindV::Value) {
            assert(j == idx);
        }
    }
    crate::cst::lemma_replace_first_in(lc, KindV::Value, t, idx);
    let c = replace_first(lc[idx], KindV::Value, t)->Some_0;
    assert(cst_children(l2) == lc.update(idx, c));
    lemma_last_token_text_update(lc, KindV::Key, idx, c);
    // Its line number is unchanged, and it is still an entry.
    crate::bind::lemma_line_no_prefix(cs, i, i);
    crate::bind::lemma_line_no_prefix(cs2, i, i);
    assert(cs.subrange(0, i) =~= cs2.subrange(0, i));
    assert(line_no(cs2, i) == ln);
    assert(cs2[i] == l2);
    lemma_entry_rows_has(sshd, cs2, i);
    let k = choose|k: int|
        0 <= k < entry_rows(sshd, cs2).len() && #[trigger] entry_rows(sshd, cs2)[k] == sshd.row_spec(cs2[i], line_no(cs2, i));
    let d = sshd.bound(e);
    assert(d.rows[k] == crate::sshd::sshd_row(sshd.manifest_spec(), l2, ln));
}

/// The named columns of a `pg_hba.conf` rule (all but `options`).
pub open spec fn is_pg_hba_column(f: Seq<char>) -> bool {
    f == "type"@ || f == "database"@ || f == "user"@ || f == "address"@ || f == "method"@
}

/// The named columns of a UFW rule (all but `extra`).
pub open spec fn is_ufw_column(f: Seq<char>) -> bool {
    f == "action"@ || f == "direction"@ || f == "proto"@ || f == "from"@ || f == "to"@ || f == "port"@
}

proof fn lemma_column_names()
    ensures
        "type"@.len() == 4 && "type"@[0] == 't',
        "database"@.len() == 8 && "database"@[0] == 'd',
        "user"@.len() == 4 && "user"@[0] == 'u',
        "address"@.len() == 7 && "address"@[0] == 'a',
        "method"@.len() == 6 && "method"@[0] == 'm',
        "options"@.len() == 7 && "options"@[0] == 'o',
        "action"@.len() == 6 && "action"@[0] == 'a',
        "direction"@.len() == 9 && "direction"@[0] == 'd',
        "proto"@.len() == 5 && "proto"@[0] == 'p',
        "from"@.len() == 4 && "from"@[0] == 'f',
        "to"@.len() == 2 && "to"@[0] == 't',
        "port"@.len() == 4 && "port"@[0] == 'p',
        "extra"@.len() == 5 && "extra"@[0] == 'e',
        "whitespace"@.len() == 10 && "whitespace"@[0] == 'w',
        "comment"@.len() == 7 && "comment"@[0] == 'c',
        "newline"@.len() == 7 && "newline"@[0] == 'n',
        "error"@.len() == 5 && "error"@[0] == 'e',
{
    reveal_strlit("type");
    reveal_strlit("database");
    reveal_strlit("user");
    reveal_strlit("address");
    reveal_strlit("method");
    reveal_strlit("options");
    reveal_strlit("action");
    reveal_strlit("direction");
    reveal_strlit("proto");
    reveal_strlit("from");
    reveal_strlit("to");
    reveal_strlit("port");
    reveal_strlit("extra");
    reveal_strlit("whitespace");
    reveal_strlit("comment");
    reveal_strlit("newline");
    reveal_strlit("error");
}

/// The column grammar `c` and the column name `f` fit: `f` is one of the
/// named columns `c` gives out.
pub open spec fn column_of(c: crate::columns::Columns, f: Seq<char>) -> bool {
    match c {
        crate::columns::Columns::Ufw => is_ufw_column(f),
        _ => is_pg_hba_column(f),
    }
}

proof fn lemma_col_unique(c: crate::columns::Columns, f: Seq<char>, a: int, b: int)
    requires
        column_of(c, f),
        crate::cst::kind_name(crate::columns::col_kind(c, a)) == f,
        crate::cst::kind_name(crate::columns::col_kind(c, b)) == f,
    ensures
        a == b,
{
    lemma_column_names();
}

/// No planned token is named `f`.
pub open spec fn no_named(t: Seq<Tok>, f: Seq<char>) -> bool {
    forall|j: int| 0 <= j < t.len() ==> crate::cst::kind_name((#[trigger] t[j]).kind) != f
}

/// At most one planned token is named `f`.
pub open spec fn one_named_at_most(t: Seq<Tok>, f: Seq<char>) -> bool {
    forall|a: int, b: int|
        0 <= a < t.len() && 0 <= b < t.len() && crate::cst::kind_name((#[trigger] t[a]).kind) == f
            && crate::cst::kind_name((#[trigger] t[b]).kind) == f ==> a == b
}

proof fn lemma_no_named_concat(a: Seq<Tok>, b: Seq<Tok>, f: Seq<char>)
    requires
        no_named(a, f),
        no_named(b, f),
    ensures
        no_named(a + b, f),
{
    assert forall|j: int| 0 <= j < (a + b).len() implies crate::cst::kind_name((#[trigger] (a + b)[j]).kind) != f by {
        if j < a.len() {
            assert((a + b)[j] == a[j]);
        } else {
            assert((a + b)[j] == b[j - a.len()]);
        }
    }
}

proof fn lemma_one_named_concat(a: Seq<Tok>, b: Seq<Tok>, f: Seq<char>)
    requires
        one_named_at_most(a, f),
        no_named(b, f),
    ensures
        one_named_at_most(a + b, f),
{
    let t = a + b;
    assert forall|i: int, j: int|
        0 <= i < t.len() && 0 <= j < t.len() && crate::cst::kind_name((#[trigger] t[i]).kind) == f
            && crate::cst::kind_name((#[trigger] t[j]).kind) == f implies i == j by {
        if i >= a.len() {
            assert(t[i] == b[i - a.len()]);
        }
        if j >= a.len() {
            assert(t[j] == b[j - a.len()]);
        }
        assert(t[i] == a[i]);
        assert(t[j] == a[j]);
    }
}

proof fn lemma_one_named(a: Seq<Tok>, x: Tok, c: Seq<Tok>, f: Seq<char>)
    requires
        no_named(a, f),
        no_named(c, f),
    ensures
        one_named_at_most(a + seq![x] + c, f),
{
    let t = a + seq![x] + c;
    assert forall|i: int, j: int|
        0 <= i < t.len() && 0 <= j < t.len() && crate::cst::kind_name((#[trigger] t[i]).kind) == f
            && crate::cst::kind_name((#[trigger] t[j]).kind) == f implies i == j by {
        if i < a.len() {
            assert(t[i] == a[i]);
        } else if i > a.len() {
            assert(t[i] == c[i - a.len() - 1]);
        }
        if j < a.len() {
            assert(t[j] == a[j]);
        } else if j > a.len() {
            assert(t[j] == c[j - a.len() - 1]);
        }
    }
}

proof fn lemma_word_toks_named(ws: Seq<(int, int, int)>, c: crate::columns::Columns, f: Seq<char>)
    requires
        column_of(c, f),
    ensures
        one_named_at_most(crate::columns::word_toks(ws, c), f),
        (forall|k: int| 0 <= k < ws.len() ==> crate::cst::kind_name(#[trigger] crate::columns::col_kind(c, k)) != f)
            ==> no_named(crate::columns::word_toks(ws, c), f),
    decreases ws.len(),
{
    lemma_column_names();
    if ws.len() > 0 {
        let n = ws.len() - 1;
        let pre = ws.subrange(0, n);
        let l = ws[n];
        lemma_word_toks_named(pre, c, f);
        let wp = crate::columns::word_toks(pre, c);
        let x = Tok { kind: crate::columns::col_kind(c, n), start: l.0, end: l.1 };
        let tail = opt_tok(KindV::Whitespace, l.1, l.2);
        assert(no_named(tail, f));
        assert(crate::columns::word_toks(ws, c) == wp + seq![x] + tail);
        if crate::cst::kind_name(crate::columns::col_kind(c, n)) == f {
            assert forall|k: int| 0 <= k < pre.len() implies crate::cst::kind_name(
                #[trigger] crate::columns::col_kind(c, k),
            ) != f by {
                if crate::cst::kind_name(crate::columns::col_kind(c, k)) == f {
                    lemma_col_unique(c, f, k, n);
                }
            }
            lemma_one_named(wp, x, tail, f);
        } else {
            assert(no_named(seq![x] + tail, f)) by {
                assert(no_named(seq![x], f));
                lemma_no_named_concat(seq![x], tail, f);
            }
            assert(wp + seq![x] + tail == wp + (seq![x] + tail));
            lemma_one_named_concat(wp, seq![x] + tail, f);
            if forall|k: int| 0 <= k < ws.len() ==> crate::cst::kind_name(#[trigger] crate::columns::col_kind(c, k)) != f {
                assert forall|k: int| 0 <= k < pre.len() implies crate::cst::kind_name(
                    #[trigger] crate::columns::col_kind(c, k),
                ) != f by {
                    assert(0 <= k < ws.len());
                }
                lemma_no_named_concat(wp, seq![x] + tail, f);
            }
        }
    }
}

proof fn lemma_no_one_named_concat(a: Seq<Tok>, b: Seq<Tok>, f: Seq<char>)
    requires
        no_named(a, f),
        one_named_at_most(b, f),
    ensures
        one_named_at_most(a + b, f),
{
    let t = a + b;
    assert forall|i: int, j: int|
        0 <= i < t.len() && 0 <= j < t.len() && crate::cst::kind_name((#[trigger] t[i]).kind) == f
            && crate::cst::kind_name((#[trigger] t[j]).kind) == f implies i == j by {
        if i < a.len() {
            assert(t[i] == a[i]);
        }
        if j < a.len() {
            assert(t[j] == a[j]);
        }
        assert(t[i] == b[i - a.len()]);
        assert(t[j] == b[j - a.len()]);
    }
}

/// A line of a column grammar has at most one token of each named column.
proof fn lemma_column_line_named(s: Seq<char>, ls: int, le: int, ws: Seq<(int, int, int)>, cm: int, c: crate::columns::Columns, min: nat, f: Seq<char>)
    requires
        column_of(c, f),
    ensures
        one_named_at_most(
            crate::columns::blank_or_comment(s, ls, le, crate::columns::columns_shape(s, ls, le, ws, cm, c, min)).toks,
            f,
        ),
{
    lemma_column_names();
    let ce = content_end(s, ls, le);
    let nl = opt_tok(KindV::Newline, ce, le);
    let w = scan(s, ls, le, Stop::NonBlank);
    let lead = opt_tok(KindV::Whitespace, ls, w);
    assert(no_named(lead, f));
    assert(no_named(nl, f));
    let body = crate::columns::columns_shape(s, ls, le, ws, cm, c, min);
    if ws.len() == 0 || ws.len() < min {
        let e = opt_tok(KindV::Error, w, ce);
        assert(no_named(e, f));
        lemma_no_named_concat(lead, e, f);
        lemma_no_named_concat(lead + e, nl, f);
    } else {
        lemma_word_toks_named(ws, c, f);
        let wt = crate::columns::word_toks(ws, c);
        let cmt = opt_tok(KindV::Comment, cm, ce);
        assert(no_named(cmt, f));
        lemma_no_one_named_concat(lead, wt, f);
        lemma_one_named_concat(lead + wt, cmt, f);
        lemma_one_named_concat(lead + wt + cmt, nl, f);
    }
    let t = crate::columns::blank_or_comment(s, ls, le, body).toks;
    if ls >= le {
    } else if w >= ce {
        lemma_no_named_concat(lead, nl, f);
        lemma_no_one_named_concat(lead + nl, Seq::<Tok>::empty(), f);
        assert(lead + nl + Seq::<Tok>::empty() =~= lead + nl);
    } else if s[w] == '#' {
        let x = one_tok(KindV::Comment, w, ce);
        assert(no_named(x, f));
        lemma_no_named_concat(lead, x, f);
        lemma_no_named_concat(lead + x, nl, f);
        lemma_no_one_named_concat(lead + x + nl, Seq::<Tok>::empty(), f);
        assert(lead + x + nl + Seq::<Tok>::empty() =~= lead + x + nl);
    }
}

/// `v` is a token whose kind is named `f`.
pub open spec fn named_token(v: CstV, f: Seq<char>) -> bool {
    v matches CstV::Token { kind, .. } && crate::cst::kind_name(kind) == f
}

/// A line of a parsed `pg_hba.conf` or UFW file is a rule of tokens with at
/// most one token of each named column.
proof fn lemma_parsed_column_line(text: Seq<char>, g: Grammar, i: int, f: Seq<char>)
    requires
        0 <= i < parse_doc_spec(text, g).len(),
        g is PgHba ==> is_pg_hba_column(f),
        g is Ufw ==> is_ufw_column(f),
        g is PgHba || g is Ufw,
    ensures
        ({
            let line = parse_doc_spec(text, g)[i];
            let lc = cst_children(line);
            &&& line is Rule
            &&& forall|j: int| 0 <= j < lc.len() ==> (#[trigger] lc[j]) is Token
            &&& forall|a: int, b: int|
                0 <= a < lc.len() && 0 <= b < lc.len() && named_token(#[trigger] lc[a], f) && named_token(#[trigger] lc[b], f)
                    ==> a == b
        }),
{
    let lines = crate::grammar::lines_from(text, 0);
    reveal(crate::grammar::shape_of);
    let (ls, le) = (lines[i].0, lines[i].1);
    let w = scan(text, ls, le, Stop::NonBlank);
    let ce = content_end(text, ls, le);
    let sh = crate::grammar::shape_of(g, text, ls, le);
    if g is PgHba {
        let r = crate::columns::words(text, w, ce, true);
        let local = r.0.len() > 0 && crate::pg_hba::is_local_word(text, r.0[0].0, r.0[0].1);
        let c = if local { crate::columns::Columns::PgLocal } else { crate::columns::Columns::PgHost };
        let min: nat = if local { 4 } else { 5 };
        assert(sh == crate::columns::blank_or_comment(text, ls, le, crate::columns::columns_shape(text, ls, le, r.0, r.1, c, min)));
        lemma_column_line_named(text, ls, le, r.0, r.1, c, min, f);
    } else {
        let r = crate::columns::words(text, w, ce, false);
        let c = crate::columns::Columns::Ufw;
        assert(sh == crate::columns::blank_or_comment(text, ls, le, crate::columns::columns_shape(text, ls, le, r.0, r.1, c, 6)));
        lemma_column_line_named(text, ls, le, r.0, r.1, c, 6, f);
    }
    let line = parse_doc_spec(text, g)[i];
    assert(line == crate::grammar::line_view(text, ls, le, sh));
    let lc = crate::grammar::toks_views(text, sh.toks);
    assert forall|a: int, b: int|
        0 <= a < lc.len() && 0 <= b < lc.len() && named_token(#[trigger] lc[a], f) && named_token(#[trigger] lc[b], f)
            implies a == b by {
        assert(crate::cst::kind_name(sh.toks[a].kind) == f);
        assert(crate::cst::kind_name(sh.toks[b].kind) == f);
    }
}

proof fn lemma_last_named_text(cs: Seq<CstV>, f: Seq<char>, idx: int, t: Seq<char>)
    requires
        0 <= idx < cs.len(),
        named_token(cs[idx], f),
        cs[idx] matches CstV::Token { text, .. } && text == t,
        forall|j: int| idx < j < cs.len() ==> !named_token(#[trigger] cs[j], f),
    ensures
        crate::bind::last_named_text(cs, f) == Some(t),
    decreases cs.len(),
{
    if idx < cs.len() - 1 {
        let d = cs.drop_last();
        assert(!named_token(cs[cs.len() - 1], f));
        assert forall|j: int| idx < j < d.len() implies !named_token(#[trigger] d[j], f) by {
            assert(d[j] == cs[j]);
        }
        lemma_last_named_text(d, f, idx, t);
    }
}

/// In a row of tokens with at most one named `f`, setting the first token of
/// kind `f` to `t` makes `t` the text read under the name `f`.
proof fn lemma_replace_named_reads_back(cs: Seq<CstV>, f: Seq<char>, t: Seq<char>)
    requires
        forall|j: int| 0 <= j < cs.len() ==> (#[trigger] cs[j]) is Token,
        forall|a: int, b: int|
            0 <= a < cs.len() && 0 <= b < cs.len() && named_token(#[trigger] cs[a], f) && named_token(#[trigger] cs[b], f)
                ==> a == b,
        replace_first_in(cs, KindV::Custom(f), t) is Some,
    ensures
        crate::bind::last_named_text(replace_first_in(cs, KindV::Custom(f), t)->Some_0, f) == Some(t),
{
    let k = KindV::Custom(f);
    if !(exists|j: int| 0 <= j < cs.len() && token_of(#[trigger] cs[j], k)) {
        assert forall|j: int| 0 <= j < cs.len() implies (#[trigger] replace_first(cs[j], k, t)) is None by {
            assert(!token_of(cs[j], k));
        }
        crate::cst::lemma_replace_first_in(cs, k, t, cs.len() as int);
    }
    let idx = choose|j: int| 0 <= j < cs.len() && token_of(#[trigger] cs[j], k);
    assert(named_token(cs[idx], f));
    assert forall|j: int| 0 <= j < idx implies (#[trigger] replace_first(cs[j], k, t)) is None by {
        if token_of(cs[j], k) {
            assert(named_token(cs[j], f));
        }
    }
    crate::cst::lemma_replace_first_in(cs, k, t, idx);
    let c = replace_first(cs[idx], k, t)->Some_0;
    let r = cs.update(idx, c);
    assert(replace_first_in(cs, k, t)->Some_0 == r);
    assert forall|j: int| idx < j < r.len() implies !named_token(#[trigger] r[j], f) by {
        assert(r[j] == cs[j]);
        if named_token(cs[j], f) {
            assert(j == idx);
        }
    }
    lemma_last_named_text(r, f, idx, t);
}

/// What setting a named column of an entry row of a parsed rule-table file
/// leaves: the row the binder makes of the edited line stands in the rows,
/// and the line reads `t` under the column's name.
proof fn lemma_column_edit_reads<B: RowBinder>(b: B, g: Grammar, text: Seq<char>, row_id: Seq<char>, f: Seq<char>, t: Seq<char>) -> (r: (int, CstV))
    requires
        g is PgHba ==> is_pg_hba_column(f),
        g is Ufw ==> is_ufw_column(f),
        g is PgHba || g is Ufw,
        update_spec(document(text, parse_doc_spec(text, g)), row_id, crate::rows::column_line_edit(f, row_id, JsonV::String(t))).1 is Ok,
        crate::cst::cst_kind(
            parse_doc_spec(text, g)[row_index(parse_doc_spec(text, g), row_line(row_id)->Some_0 as int)->Some_0],
        ) == KindV::Entry,
    ensures
        ({
            let e = update_spec(document(text, parse_doc_spec(text, g)), row_id, crate::rows::column_line_edit(f, row_id, JsonV::String(t))).0;
            let rows = entry_rows(b, cst_children(e));
            &&& 0 <= r.0 < rows.len()
            &&& rows[r.0] == b.row_spec(r.1, row_line(row_id)->Some_0 as int)
            &&& crate::bind::last_named_text(cst_children(r.1), f) == Some(t)
        }),
{
    lemma_column_names();
    let v = document(text, parse_doc_spec(text, g));
    let cs = cst_children(v);
    let ln = row_line(row_id)->Some_0 as int;
    let i = row_index(cs, ln)->Some_0;
    let line = cs[i];
    assert(f != "comment"@);
    let l2 = replace_first(line, KindV::Custom(f), t)->Some_0;
    let cs2 = cs.update(i, l2);
    let e = update_spec(v, row_id, crate::rows::column_line_edit(f, row_id, JsonV::String(t))).0;
    assert(cst_children(e) == cs2);
    lemma_parsed_column_line(text, g, i, f);
    lemma_replace_named_reads_back(cst_children(line), f, t);
    crate::bind::lemma_line_no_prefix(cs, i, i);
    crate::bind::lemma_line_no_prefix(cs2, i, i);
    assert(cs.subrange(0, i) =~= cs2.subrange(0, i));
    assert(line_no(cs2, i) == ln);
    assert(cs2[i] == l2);
    lemma_entry_rows_has(b, cs2, i);
    let k = choose|k: int|
        0 <= k < entry_rows(b, cs2).len() && #[trigger] entry_rows(b, cs2)[k] == b.row_spec(cs2[i], line_no(cs2, i));
    (k, l2)
}

/// The IR `d` has a row for line `ln` with a field named `f` whose value is
/// `value`.
pub open spec fn shows_field(d: DocumentIrV, ln: int, f: Seq<char>, value: JsonV) -> bool {
    exists|k: int, j: int|
        0 <= k < d.rows.len() && (#[trigger] d.rows[k]).row_id == row_id_text(ln) && 0 <= j < d.rows[k].fields.len()
            && #[trigger] d.rows[k].fields[j].name == f && d.rows[k].fields[j].value == value
}

/// What a `pg_hba.conf` row made of a line shows of a named column.
#[verifier::rlimit(40)]
proof fn lemma_pg_hba_row_shows(m: crate::schema::PluginManifest, l2: CstV, ln: int, f: Seq<char>, t: Seq<char>)
    requires
        is_pg_hba_column(f),
        crate::bind::last_named_text(cst_children(l2), f) == Some(t),
    ensures
        exists|j: int|
            0 <= j < crate::pg_hba::pg_hba_row(m, l2, ln).fields.len() && #[trigger] crate::pg_hba::pg_hba_row(m, l2, ln).fields[j].name
                == f && crate::pg_hba::pg_hba_row(m, l2, ln).fields[j].value == JsonV::String(t),
{
    let lc = cst_children(l2);
    let p0 = crate::bind::enum_col(m, "type"@, crate::bind::last_named_text(lc, "type"@), false);
    let p1 = crate::bind::str_col("database"@, crate::bind::last_named_text(lc, "database"@));
    let p2 = crate::bind::str_col("user"@, crate::bind::last_named_text(lc, "user"@));
    let p3 = crate::bind::str_col("address"@, crate::bind::last_named_text(lc, "address"@));
    let p4 = crate::bind::enum_col(m, "method"@, crate::bind::last_named_text(lc, "method"@), true);
    let rest = crate::bind::str_col("options"@, crate::bind::last_named_text(lc, "options"@)) + crate::bind::comment_col(
        crate::bind::last_named_text(lc, "comment"@),
    );
    let fs = crate::pg_hba::pg_hba_row(m, l2, ln).fields;
    assert(fs == p0 + p1 + p2 + p3 + p4 + rest);
    if f == "type"@ {
        assert(fs[0].name == f);
    } else if f == "database"@ {
        assert(fs[p0.len() as int].name == f);
    } else if f == "user"@ {
        assert(fs[(p0 + p1).len() as int].name == f);
    } else if f == "address"@ {
        assert(fs[(p0 + p1 + p2).len() as int].name == f);
    } else {
        assert(fs[(p0 + p1 + p2 + p3).len() as int].name == f);
    }
}

/// What a UFW row made of a line shows of a named column.
#[verifier::rlimit(40)]
proof fn lemma_ufw_row_shows(m: crate::schema::PluginManifest, l2: CstV, ln: int, f: Seq<char>, t: Seq<char>)
    requires
        is_ufw_column(f),
        crate::bind::last_named_text(cst_children(l2), f) == Some(t),
    ensures
        exists|j: int|
            0 <= j < crate::ufw::ufw_row(m, l2, ln).fields.len() && #[trigger] crate::ufw::ufw_row(m, l2, ln).fields[j].name == f
                && crate::ufw::ufw_row(m, l2, ln).fields[j].value == JsonV::String(t),
{
    let lc = cst_children(l2);
    let p0 = crate::bind::enum_col(m, "action"@, crate::bind::last_named_text(lc, "action"@), false);
    let p1 = crate::bind::enum_col(m, "direction"@, crate::bind::last_named_text(lc, "direction"@), false);
    let p2 = crate::bind::enum_col(m, "proto"@, crate::bind::last_named_text(lc, "proto"@), false);
    let p3 = crate::bind::str_col("from"@, crate::bind::last_named_text(lc, "from"@));
    let p4 = crate::bind::str_col("to"@, crate::bind::last_named_text(lc, "to"@));
    let p5 = crate::bind::str_col("port"@, crate::bind::last_named_text(lc, "port"@));
    let rest = crate::bind::comment_col(crate::bind::last_named_text(lc, "comment"@));
    let fs = crate::ufw::ufw_row(m, l2, ln).fields;
    assert(fs == p0 + p1 + p2 + p3 + p4 + p5 + rest);
    if f == "action"@ {
        assert(fs[0].name == f);
    } else if f == "direction"@ {
        assert(fs[p0.len() as int].name == f);
    } else if f == "proto"@ {
        assert(fs[(p0 + p1).len() as int].name == f);
    } else if f == "from"@ {
        assert(fs[(p0 + p1 + p2).len() as int].name == f);
    } else if f == "to"@ {
        assert(fs[(p0 + p1 + p2 + p3).len() as int].name == f);
    } else {
        assert(fs[(p0 + p1 + p2 + p3 + p4).len() as int].name == f);
    }
}

/// A `pg_hba.conf` column that is written reads back: after the plugin sets
/// a named column (any but `options`, which may span several words) of an
/// entry row of a parsed file to `t`, the document's IR shows that row with
/// that column `t`.
pub proof fn lemma_pg_hba_columns_read_back(pg_hba: PgHbaPlugin, text: Seq<char>, row_id: Seq<char>, field_name: Seq<char>, t: Seq<char>)
    requires
        is_pg_hba_column(field_name),
        pg_hba.edited(pg_hba.parsed(text), EditOpV::UpdateField { row_id, field_name, new_value: JsonV::String(t) }).1 is Ok,
        crate::cst::cst_kind(
            cst_children(pg_hba.parsed(text))[row_index(cst_children(pg_hba.parsed(text)), row_line(row_id)->Some_0 as int)->Some_0],
        ) == KindV::Entry,
    ensures
        shows_field(
            pg_hba.bound(pg_hba.edited(pg_hba.parsed(text), EditOpV::UpdateField { row_id, field_name, new_value: JsonV::String(t) }).0),
            row_line(row_id)->Some_0 as int,
            field_name,
            JsonV::String(t),
        ),
{
    let ln = row_line(row_id)->Some_0 as int;
    let (k, l2) = lemma_column_edit_reads(pg_hba, Grammar::PgHba, text, row_id, field_name, t);
    let d = pg_hba.bound(pg_hba.edited(pg_hba.parsed(text), EditOpV::UpdateField { row_id, field_name, new_value: JsonV::String(t) }).0);
    assert(d.rows[k] == crate::pg_hba::pg_hba_row(pg_hba.manifest_spec(), l2, ln));
    lemma_pg_hba_row_shows(pg_hba.manifest_spec(), l2, ln, field_name, t);
}

/// A UFW column that is written reads back: after the plugin sets a named
/// column (any but `extra`, which may span several words) of an entry row of
/// a parsed file to `t`, the document's IR shows that row with that column
/// `t`.
pub proof fn lemma_ufw_columns_read_back(ufw: UfwPlugin, text: Seq<char>, row_id: Seq<char>, field_name: Seq<char>, t: Seq<char>)
    requires
        is_ufw_column(field_name),
        ufw.edited(ufw.parsed(text), EditOpV::UpdateField { row_id, field_name, new_value: JsonV::String(t) }).1 is Ok,
        crate::cst::cst_kind(
            cst_children(ufw.parsed(text))[row_index(cst_children(ufw.parsed(text)), row_line(row_id)->Some_0 as int)->Some_0],
        ) == KindV::Entry,
    ensures
        shows_field(
            ufw.bound(ufw.edited(ufw.parsed(text), EditOpV::UpdateField { row_id, field_name, new_value: JsonV::String(t) }).0),
            row_line(row_id)->Some_0 as int,
            field_name,
            JsonV::String(t),
        ),
{
    let ln = row_line(row_id)->Some_0 as int;
    let (k, l2) = lemma_column_edit_reads(ufw, Grammar::Ufw, text, row_id, field_name, t);
    let d = ufw.bound(ufw.edited(ufw.parsed(text), EditOpV::UpdateField { row_id, field_name, new_value: JsonV::String(t) }).0);
    assert(d.rows[k] == crate::ufw::ufw_row(ufw.manifest_spec(), l2, ln));
    lemma_ufw_row_shows(ufw.manifest_spec(), l2, ln, field_name, t);
}

/// The text an inserted rule gives a column: the string given under its
/// name, or the column's default.
pub open spec fn given_or(fields: Seq<(Seq<char>, JsonV)>, name: Seq<char>, default: Seq<char>) -> Seq<char> {
    match crate::rows::lookup_str(fields, name) {
        Some(x) => x,
        None => default,
    }
}

/// Every named column of the UFW rule `n` reads the value `fields` gives
/// under that name, or the column's default (`ALLOW`, `in`, `tcp`, `any`,
/// `any`, `any`).
pub open spec fn ufw_rule_reads(n: CstV, fields: Seq<(Seq<char>, JsonV)>) -> bool {
    let cs = cst_children(n);
    &&& crate::bind::last_named_text(cs, "action"@) == Some(given_or(fields, "action"@, "ALLOW"@))
    &&& crate::bind::last_named_text(cs, "direction"@) == Some(given_or(fields, "direction"@, "in"@))
    &&& crate::bind::last_named_text(cs, "proto"@) == Some(given_or(fields, "proto"@, "tcp"@))
    &&& crate::bind::last_named_text(cs, "from"@) == Some(given_or(fields, "from"@, "any"@))
    &&& crate::bind::last_named_text(cs, "to"@) == Some(given_or(fields, "to"@, "any"@))
    &&& crate::bind::last_named_text(cs, "port"@) == Some(given_or(fields, "port"@, "any"@))
}

proof fn lemma_column_reads_at(cs: Seq<CstV>, f: Seq<char>, idx: int, t: Seq<char>)
    requires
        0 <= idx < cs.len(),
        cs[idx] == crate::rows::col(f, t),
        is_ufw_column(f),
        forall|j: int| idx < j < cs.len() ==> (#[trigger] cs[j]) is Token && (crate::cst::kind_name(cs[j]->Token_kind) == "whitespace"@
            || crate::cst::kind_name(cs[j]->Token_kind) == "comment"@ || crate::cst::kind_name(cs[j]->Token_kind) == "newline"@
            || (is_ufw_column(crate::cst::kind_name(cs[j]->Token_kind)) && crate::cst::kind_name(cs[j]->Token_kind) != f)),
    ensures
        crate::bind::last_named_text(cs, f) == Some(t),
{
    lemma_column_names();
    assert forall|j: int| idx < j < cs.len() implies !named_token(#[trigger] cs[j], f) by {
        lemma_column_names();
    }
    lemma_last_named_text(cs, f, idx, t);
}

/// The UFW rule an insertion adds reads back every named column it was
/// given, and the default for the ones it was not.
proof fn lemma_ufw_new_line_reads(fields: Seq<(Seq<char>, JsonV)>)
    ensures
        ufw_rule_reads(crate::ufw::ufw_new_line(fields), fields),
        crate::cst::cst_kind(crate::ufw::ufw_new_line(fields)) == KindV::Entry,
{
    lemma_column_names();
    reveal_strlit("\t");
    let n = crate::ufw::ufw_new_line(fields);
    let cs = cst_children(n);
    let tail = crate::rows::comment_toks(crate::rows::lookup_str(fields, "comment"@)) + seq![
        crate::rows::plain_tok(KindV::Newline, "\n"@),
    ];
    assert(forall|j: int| 0 <= j < tail.len() ==> (#[trigger] tail[j]) is Token && (crate::cst::kind_name(tail[j]->Token_kind) == "whitespace"@
        || crate::cst::kind_name(tail[j]->Token_kind) == "comment"@ || crate::cst::kind_name(tail[j]->Token_kind) == "newline"@));
    assert(cs.len() == 11 + tail.len());
    assert forall|j: int| 11 <= j < cs.len() implies cs[j] == tail[j - 11] by {}
    lemma_column_reads_at(cs, "action"@, 0, given_or(fields, "action"@, "ALLOW"@));
    lemma_column_reads_at(cs, "direction"@, 2, given_or(fields, "direction"@, "in"@));
    lemma_column_reads_at(cs, "proto"@, 4, given_or(fields, "proto"@, "tcp"@));
    lemma_column_reads_at(cs, "from"@, 6, given_or(fields, "from"@, "any"@));
    lemma_column_reads_at(cs, "to"@, 8, given_or(fields, "to"@, "any"@));
    lemma_column_reads_at(cs, "port"@, 10, given_or(fields, "port"@, "any"@));
}

/// An inserted UFW rule reads back the fields it was given: the insert adds
/// one line, at one place among the others, and every named column of that
/// line (`action`, `direction`, `proto`, `from`, `to`, `port`) reads the
/// string given under its name, or the column's default.
pub proof fn lemma_ufw_inserts_read_back(
    ufw: UfwPlugin,
    v: CstV,
    after_row_id: Option<Seq<char>>,
    fields: Seq<(Seq<char>, JsonV)>,
)
    requires
        ufw.edited(v, EditOpV::InsertRow { after_row_id, fields }).1 is Ok,
    ensures
        exists|j: int, n: CstV|
            0 <= j <= cst_children(v).len() && #[trigger] cst_children(v).insert(j, n) == cst_children(
                ufw.edited(v, EditOpV::InsertRow { after_row_id, fields }).0,
            ) && crate::cst::cst_kind(n) == KindV::Entry && ufw_rule_reads(n, fields),
{
    let n = crate::ufw::ufw_new_line(fields);
    lemma_ufw_new_line_reads(fields);
    let cs = cst_children(v);
    let e = ufw.edited(v, EditOpV::InsertRow { after_row_id, fields }).0;
    match after_row_id {
        Some(a) => {
            let j = row_index(cs, row_line(a)->Some_0 as int)->Some_0;
            assert(cs.insert(j + 1, n) == cst_children(e));
        },
        None => {
            assert(cs.insert(cs.len() as int, n) =~= cs.push(n));
            assert(cs.insert(cs.len() as int, n) == cst_children(e));
        },
    }
}

/// The names UFW gives the first six words of a rule, in order.
pub open spec fn ufw_word_names() -> Seq<Seq<char>> {
    seq!["action"@, "direction"@, "proto"@, "from"@, "to"@, "port"@]
}

proof fn lemma_word_tok_at(ws: Seq<(int, int, int)>, c: crate::columns::Columns, k: int) -> (p: int)
    requires
        0 <= k < ws.len(),
    ensures
        0 <= p < crate::columns::word_toks(ws, c).len(),
        crate::columns::word_toks(ws, c)[p] == (Tok { kind: crate::columns::col_kind(c, k), start: ws[k].0, end: ws[k].1 }),
    decreases ws.len(),
{
    let n = ws.len() - 1;
    let pre = ws.subrange(0, n);
    let wp = crate::columns::word_toks(pre, c);
    let l = ws[n];
    let x = Tok { kind: crate::columns::col_kind(c, n), start: l.0, end: l.1 };
    let tail = opt_tok(KindV::Whitespace, l.1, l.2);
    assert(crate::columns::word_toks(ws, c) == wp + one_tok(crate::columns::col_kind(c, n), l.0, l.1) + tail);
    if k == n {
        assert(crate::columns::word_toks(ws, c)[wp.len() as int] == x);
        wp.len() as int
    } else {
        let p = lemma_word_tok_at(pre, c, k);
        assert(pre[k] == ws[k]);
        assert(crate::columns::word_toks(ws, c)[p] == wp[p]);
        p
    }
}

/// Each word of a parsed UFW rule is read under its column's name: the k-th
/// word of an entry line (counting from 0, words being the blank-separated
/// runs before any comment) reads under the k-th of `action`, `direction`,
/// `proto`, `from`, `to`, `port`.
pub proof fn lemma_ufw_words_read_under_their_columns(ufw: UfwPlugin, text: Seq<char>, i: int)
    requires
        0 <= i < cst_children(ufw.parsed(text)).len(),
        crate::cst::cst_kind(cst_children(ufw.parsed(text))[i]) == KindV::Entry,
    ensures
        ({
            let ls = crate::grammar::lines_from(text, 0)[i].0;
            let le = crate::grammar::lines_from(text, 0)[i].1;
            let ws = crate::columns::words(text, scan(text, ls, le, Stop::NonBlank), content_end(text, ls, le), false).0;
            &&& ws.len() >= 6
            &&& forall|k: int|
                0 <= k < 6 ==> crate::bind::last_named_text(cst_children(cst_children(ufw.parsed(text))[i]), #[trigger] ufw_word_names()[k])
                    == Some(text.subrange(ws[k].0, ws[k].1))
        }),
{
    lemma_column_names();
    let lines = crate::grammar::lines_from(text, 0);
    crate::grammar::lemma_lines_from(text, 0);
    let (ls, le) = (lines[i].0, lines[i].1);
    let w = scan(text, ls, le, Stop::NonBlank);
    let ce = content_end(text, ls, le);
    let r = crate::columns::words(text, w, ce, false);
    let ws = r.0;
    reveal(crate::grammar::shape_of);
    let sh = crate::grammar::shape_of(Grammar::Ufw, text, ls, le);
    let line = cst_children(ufw.parsed(text))[i];
    assert(line == crate::grammar::line_view(text, ls, le, sh));
    assert(sh.kind == KindV::Entry);
    assert(ws.len() >= 6);
    let lead = opt_tok(KindV::Whitespace, ls, w);
    let wt = crate::columns::word_toks(ws, crate::columns::Columns::Ufw);
    assert(sh.toks == lead + wt + opt_tok(KindV::Comment, r.1, ce) + opt_tok(KindV::Newline, ce, le));
    let lc = cst_children(line);
    assert forall|k: int| 0 <= k < 6 implies crate::bind::last_named_text(lc, #[trigger] ufw_word_names()[k]) == Some(
        text.subrange(ws[k].0, ws[k].1),
    ) by {
        let f = ufw_word_names()[k];
        assert(is_ufw_column(f));
        let p = lemma_word_tok_at(ws, crate::columns::Columns::Ufw, k);
        let q = lead.len() + p;
        assert(sh.toks[q] == wt[p]);
        assert(crate::cst::kind_name(crate::columns::col_kind(crate::columns::Columns::Ufw, k)) == f);
        assert(named_token(lc[q], f));
        lemma_parsed_column_line(text, Grammar::Ufw, i, f);
        assert forall|j: int| q < j < lc.len() implies !named_token(#[trigger] lc[j], f) by {
            if named_token(lc[j], f) {
                assert(j == q);
            }
        }
        lemma_last_named_text(lc, f, q, text.subrange(ws[k].0, ws[k].1));
    }
}

/// A directive keyword binds to the manifest field whose name equals it up
/// to ASCII case (the first such field): the row the sshd binder makes of a
/// `keyword value` line carries that field's name and type, however the
/// keyword is cased in the file.
pub proof fn lemma_keywords_bind_ignoring_ascii_case(m: PluginManifest, line: CstV, ln: int, j: int)
    requires
        0 <= j < m.fields@.len(),
        crate::bind::last_token_text(cst_children(line), KindV::Key) is Some,
        crate::bind::last_token_text(cst_children(line), KindV::Value) is Some,
        crate::text::eq_ignore_ascii_case(
            m.fields@[j].name@,
            crate::bind::last_token_text(cst_children(line), KindV::Key)->Some_0,
        ),
        forall|i: int|
            0 <= i < j ==> !crate::text::eq_ignore_ascii_case(
                #[trigger] m.fields@[i].name@,
                crate::bind::last_token_text(cst_children(line), KindV::Key)->Some_0,
            ),
    ensures
        crate::sshd::sshd_def(m, crate::bind::last_token_text(cst_children(line), KindV::Key)->Some_0) == Some(m.fields@[j]),
        crate::sshd::sshd_row(m, line, ln).fields.len() > 0,
        crate::sshd::sshd_row(m, line, ln).fields[0].name == m.fields@[j].name@,
        crate::sshd::sshd_row(m, line, ln).fields[0].field_type == m.fields@[j].field_type@,
{
    let key = crate::bind::last_token_text(cst_children(line), KindV::Key)->Some_0;
    assert(crate::sshd::is_first_ci(m.fields@, key, j));
    let c = choose|i: int| #[trigger] crate::sshd::is_first_ci(m.fields@, key, i);
    assert(crate::sshd::is_first_ci(m.fields@, key, c));
    if c < j {
        assert(!crate::text::eq_ignore_ascii_case(m.fields@[c].name@, key));
    } else if c > j {
        assert(!crate::text::eq_ignore_ascii_case(m.fields@[j].name@, key));
    }
}

proof fn lemma_reads_at(cs: Seq<CstV>, f: Seq<char>, idx: int, t: Seq<char>)
    requires
        0 <= idx < cs.len(),
        cs[idx] == crate::rows::col(f, t),
        forall|j: int| idx < j < cs.len() ==> (#[trigger] cs[j]) is Token && crate::cst::kind_name(cs[j]->Token_kind) != f,
    ensures
        crate::bind::last_named_text(cs, f) == Some(t),
{
    lemma_last_named_text(cs, f, idx, t);
}

proof fn lemma_no_named_in(cs: Seq<CstV>, f: Seq<char>)
    requires
        forall|j: int| 0 <= j < cs.len() ==> (#[trigger] cs[j]) is Token && crate::cst::kind_name(cs[j]->Token_kind) != f,
    ensures
        crate::bind::last_named_text(cs, f) is None,
    decreases cs.len(),
{
    if cs.len() > 0 {
        let d = cs.drop_last();
        assert forall|j: int| 0 <= j < d.len() implies (#[trigger] d[j]) is Token && crate::cst::kind_name(d[j]->Token_kind) != f by {
            assert(d[j] == cs[j]);
        }
        lemma_no_named_in(d, f);
        assert(cs[cs.len() - 1] is Token);
    }
}

/// Every named column of the `pg_hba.conf` rule `n` reads the value `fields`
/// gives under that name, or the column's default (`host`, `all`, `all`,
/// `127.0.0.1/32`, `scram-sha-256`); a `local` rule has no address, and the
/// options read what was given, if anything.
pub open spec fn pg_hba_rule_reads(n: CstV, fields: Seq<(Seq<char>, JsonV)>) -> bool {
    let cs = cst_children(n);
    let t = given_or(fields, "type"@, "host"@);
    &&& crate::bind::last_named_text(cs, "type"@) == Some(t)
    &&& crate::bind::last_named_text(cs, "database"@) == Some(given_or(fields, "database"@, "all"@))
    &&& crate::bind::last_named_text(cs, "user"@) == Some(given_or(fields, "user"@, "all"@))
    &&& crate::bind::last_named_text(cs, "address"@) == (if t == "local"@ {
        None
    } else {
        Some(given_or(fields, "address"@, "127.0.0.1/32"@))
    })
    &&& crate::bind::last_named_text(cs, "method"@) == Some(given_or(fields, "method"@, "scram-sha-256"@))
    &&& crate::bind::last_named_text(cs, "options"@) == crate::rows::lookup_str(fields, "options"@)
}

proof fn lemma_pg_hba_new_line_reads(fields: Seq<(Seq<char>, JsonV)>)
    ensures
        pg_hba_rule_reads(crate::pg_hba::pg_hba_new_line(fields), fields),
        crate::cst::cst_kind(crate::pg_hba::pg_hba_new_line(fields)) == KindV::Entry,
{
    lemma_column_names();
    reveal_strlit("\t");
    let n = crate::pg_hba::pg_hba_new_line(fields);
    let cs = cst_children(n);
    let t = given_or(fields, "type"@, "host"@);
    let local = t == "local"@;
    let a: int = if local { 0 } else { 2 };
    let opts = crate::rows::lookup_str(fields, "options"@);
    let o: int = if opts is Some { 2 } else { 0 };
    let tail = crate::rows::comment_toks(crate::rows::lookup_str(fields, "comment"@)) + seq![
        crate::rows::plain_tok(KindV::Newline, "\n"@),
    ];
    assert(forall|j: int| 0 <= j < tail.len() ==> (#[trigger] tail[j]) is Token && (crate::cst::kind_name(tail[j]->Token_kind) == "whitespace"@
        || crate::cst::kind_name(tail[j]->Token_kind) == "comment"@ || crate::cst::kind_name(tail[j]->Token_kind) == "newline"@));
    assert(cs.len() == 7 + a + o + tail.len());
    assert forall|j: int| 7 + a + o <= j < cs.len() implies cs[j] == tail[j - 7 - a - o] by {}
    lemma_reads_at(cs, "type"@, 0, t);
    lemma_reads_at(cs, "database"@, 2, given_or(fields, "database"@, "all"@));
    lemma_reads_at(cs, "user"@, 4, given_or(fields, "user"@, "all"@));
    if local {
        lemma_no_named_in(cs, "address"@);
    } else {
        lemma_reads_at(cs, "address"@, 6, given_or(fields, "address"@, "127.0.0.1/32"@));
    }
    lemma_reads_at(cs, "method"@, 6 + a, given_or(fields, "method"@, "scram-sha-256"@));
    if opts is Some {
        lemma_reads_at(cs, "options"@, 8 + a, opts->Some_0);
    } else {
        lemma_no_named_in(cs, "options"@);
    }
}

/// An inserted `pg_hba.conf` rule reads back the fields it was given: the
/// insert adds one line, at one place among the others, and every named
/// column of that line reads the string given under its name, or the
/// column's default.
pub proof fn lemma_pg_hba_inserts_read_back(
    pg_hba: PgHbaPlugin,
    v: CstV,
    after_row_id: Option<Seq<char>>,
    fields: Seq<(Seq<char>, JsonV)>,
)
    requires
        pg_hba.edited(v, EditOpV::InsertRow { after_row_id, fields }).1 is Ok,
    ensures
        exists|j: int, n: CstV|
            0 <= j <= cst_children(v).len() && #[trigger] cst_children(v).insert(j, n) == cst_children(
                pg_hba.edited(v, EditOpV::InsertRow { after_row_id, fields }).0,
            ) && crate::cst::cst_kind(n) == KindV::Entry && pg_hba_rule_reads(n, fields),
{
    let n = crate::pg_hba::pg_hba_new_line(fields);
    lemma_pg_hba_new_line_reads(fields);
    let cs = cst_children(v);
    let e = pg_hba.edited(v, EditOpV::InsertRow { after_row_id, fields }).0;
    match after_row_id {
        Some(a) => {
            let j = row_index(cs, row_line(a)->Some_0 as int)->Some_0;
            assert(cs.insert(j + 1, n) == cst_children(e));
        },
        None => {
            assert(cs.insert(cs.len() as int, n) =~= cs.push(n));
            assert(cs.insert(cs.len() as int, n) == cst_children(e));
        },
    }
}

/// The names `pg_hba.conf` gives the leading words of a rule, in order: a
/// `local` rule has no address column.
pub open spec fn pg_hba_word_names(local: bool) -> Seq<Seq<char>> {
    if local {
        seq!["type"@, "database"@, "user"@, "method"@]
    } else {
        seq!["type"@, "database"@, "user"@, "address"@, "method"@]
    }
}

/// Each word of a parsed `pg_hba.conf` rule is read under its column's
/// name: the k-th word of an entry line (counting from 0; words are the
/// blank-separated runs before any comment, double quotes keeping blanks
/// inside a word) reads under the k-th of `type`, `database`, `user`,
/// `address`, `method`, where a rule whose first word is `local` skips
/// `address`.
pub proof fn lemma_pg_hba_words_read_under_their_columns(pg_hba: PgHbaPlugin, text: Seq<char>, i: int)
    requires
        0 <= i < cst_children(pg_hba.parsed(text)).len(),
        crate::cst::cst_kind(cst_children(pg_hba.parsed(text))[i]) == KindV::Entry,
    ensures
        ({
            let ls = crate::grammar::lines_from(text, 0)[i].0;
            let le = crate::grammar::lines_from(text, 0)[i].1;
            let ws = crate::columns::words(text, scan(text, ls, le, Stop::NonBlank), content_end(text, ls, le), true).0;
            let names = pg_hba_word_names(ws.len() > 0 && text.subrange(ws[0].0, ws[0].1) == "local"@);
            &&& ws.len() >= names.len()
            &&& forall|k: int|
                0 <= k < names.len() ==> crate::bind::last_named_text(cst_children(cst_children(pg_hba.parsed(text))[i]), #[trigger] names[k])
                    == Some(text.subrange(ws[k].0, ws[k].1))
        }),
{
    lemma_column_names();
    let lines = crate::grammar::lines_from(text, 0);
    crate::grammar::lemma_lines_from(text, 0);
    let (ls, le) = (lines[i].0, lines[i].1);
    let w = scan(text, ls, le, Stop::NonBlank);
    let ce = content_end(text, ls, le);
    let r = crate::columns::words(text, w, ce, true);
    let ws = r.0;
    let local = ws.len() > 0 && crate::pg_hba::is_local_word(text, ws[0].0, ws[0].1);
    let c = if local { crate::columns::Columns::PgLocal } else { crate::columns::Columns::PgHost };
    let names = pg_hba_word_names(local);
    reveal(crate::grammar::shape_of);
    let sh = crate::grammar::shape_of(Grammar::PgHba, text, ls, le);
    let line = cst_children(pg_hba.parsed(text))[i];
    assert(line == crate::grammar::line_view(text, ls, le, sh));
    assert(sh.kind == KindV::Entry);
    assert(ws.len() >= names.len());
    let lead = opt_tok(KindV::Whitespace, ls, w);
    let wt = crate::columns::word_toks(ws, c);
    assert(sh.toks == lead + wt + opt_tok(KindV::Comment, r.1, ce) + opt_tok(KindV::Newline, ce, le));
    let lc = cst_children(line);
    assert forall|k: int| 0 <= k < names.len() implies crate::bind::last_named_text(lc, #[trigger] names[k]) == Some(
        text.subrange(ws[k].0, ws[k].1),
    ) by {
        let f = names[k];
        assert(is_pg_hba_column(f));
        let p = lemma_word_tok_at(ws, c, k);
        let q = lead.len() + p;
        assert(sh.toks[q] == wt[p]);
        assert(crate::cst::kind_name(crate::columns::col_kind(c, k)) == f);
        assert(named_token(lc[q], f));
        lemma_parsed_column_line(text, Grammar::PgHba, i, f);
        assert forall|j: int| q < j < lc.len() implies !named_token(#[trigger] lc[j], f) by {
            if named_token(lc[j], f) {
                assert(j == q);
            }
        }
        lemma_last_named_text(lc, f, q, text.subrange(ws[k].0, ws[k].1));
    }
}

proof fn lemma_hostname_toks_kinds(names: Seq<Seq<char>>)
    ensures
        forall|j: int|
            0 <= j < crate::hosts::hostname_toks(names).len() ==> (#[trigger] crate::hosts::hostname_toks(names)[j]) is Token
                && (crate::hosts::hostname_toks(names)[j]->Token_kind == KindV::Hostname
                || crate::hosts::hostname_toks(names)[j]->Token_kind == KindV::Whitespace),
    decreases names.len(),
{
    if names.len() > 1 {
        lemma_hostname_toks_kinds(names.drop_last());
        let d = crate::hosts::hostname_toks(names.drop_last());
        let pair = seq![
            crate::rows::plain_tok(KindV::Whitespace, " "@),
            crate::rows::plain_tok(KindV::Hostname, names.last()),
        ];
        assert forall|j: int| 0 <= j < (d + pair).len() implies (#[trigger] (d + pair)[j]) is Token && ((d + pair)[j]->Token_kind
            == KindV::Hostname || (d + pair)[j]->Token_kind == KindV::Whitespace) by {
            if j < d.len() {
                assert((d + pair)[j] == d[j]);
            } else {
                assert((d + pair)[j] == pair[j - d.len()]);
            }
        }
    }
}

/// What the hosts line `n` reads: the address `addr`, the host names
/// `names` in order, and the comment `# c` when one is given.
pub open spec fn hosts_line_reads(n: CstV, addr: Seq<char>, names: Seq<Seq<char>>, comment: Option<Seq<char>>) -> bool {
    let cs = cst_children(n);
    &&& crate::bind::last_token_text(cs, KindV::IpAddress) == Some(addr)
    &&& texts_of_kind(cs, KindV::Hostname) == names
    &&& crate::bind::last_token_text(cs, KindV::Comment) == (match comment {
        Some(c) => Some("# "@ + c),
        None => None,
    })
}

proof fn lemma_hosts_new_line_reads(addr: Seq<char>, names: Seq<Seq<char>>, comment: Option<Seq<char>>)
    ensures
        hosts_line_reads(crate::hosts::hosts_new_line(addr, names, comment), addr, names, comment),
        crate::cst::cst_kind(crate::hosts::hosts_new_line(addr, names, comment)) == KindV::Entry,
{
    let head = seq![crate::rows::plain_tok(KindV::IpAddress, addr), crate::rows::plain_tok(KindV::Whitespace, "\t"@)];
    let h = crate::hosts::hostname_toks(names);
    let ct = crate::rows::comment_toks(comment);
    let nl = seq![crate::rows::plain_tok(KindV::Newline, "\n"@)];
    let cs = cst_children(crate::hosts::hosts_new_line(addr, names, comment));
    assert(cs == head + h + ct + nl);
    lemma_hostname_toks_kinds(names);
    assert forall|j: int| 0 < j < cs.len() implies !token_of(#[trigger] cs[j], KindV::IpAddress) by {
        if j >= 2 && j < 2 + h.len() {
            assert(cs[j] == h[j - 2]);
        } else if j >= 2 + h.len() && j < 2 + h.len() + ct.len() {
            assert(cs[j] == ct[j - 2 - h.len()]);
        }
    }
    lemma_last_token_text(cs, KindV::IpAddress, 0, addr);
    // Host names.
    lemma_hostname_toks_texts(names);
    assert forall|j: int| 0 <= j < head.len() implies crate::cst::cst_kind(#[trigger] head[j]) != KindV::Hostname by {}
    assert forall|j: int| 0 <= j < (ct + nl).len() implies crate::cst::cst_kind(#[trigger] (ct + nl)[j]) != KindV::Hostname by {
        if j < ct.len() {
            assert((ct + nl)[j] == ct[j]);
        } else {
            assert((ct + nl)[j] == nl[j - ct.len()]);
        }
    }
    lemma_texts_of_kind_none(head, KindV::Hostname);
    lemma_texts_of_kind_none(ct + nl, KindV::Hostname);
    lemma_texts_of_kind_concat(head, h, KindV::Hostname);
    lemma_texts_of_kind_concat(head + h, ct + nl, KindV::Hostname);
    assert(cs =~= (head + h) + (ct + nl));
    assert(texts_of_kind(cs, KindV::Hostname) =~= names);
    // Comment.
    match comment {
        Some(c) => {
            let idx = cs.len() - 2;
            assert(cs[idx] == ct[1]);
            assert(cs[cs.len() - 1] == nl[0]);
            lemma_last_token_text(cs, KindV::Comment, idx, "# "@ + c);
        },
        None => {
            assert forall|j: int| 0 <= j < cs.len() implies !token_of(#[trigger] cs[j], KindV::Comment) by {
                if j >= 2 && j < 2 + h.len() {
                    assert(cs[j] == h[j - 2]);
                }
            }
            lemma_last_token_text_none(cs, KindV::Comment);
        },
    }
}

/// An inserted hosts entry reads back the fields it was given: the insert
/// adds one line, at one place among the others, whose address is the
/// `address` given, whose host names are the strings of `hostnames` in
/// order, and whose comment is `# ` and the `comment` given, if any.
pub proof fn lemma_hosts_inserts_read_back(
    hosts: HostsPlugin,
    v: CstV,
    after_row_id: Option<Seq<char>>,
    fields: Seq<(Seq<char>, JsonV)>,
)
    requires
        hosts.edited(v, EditOpV::InsertRow { after_row_id, fields }).1 is Ok,
    ensures
        exists|j: int, n: CstV|
            0 <= j <= cst_children(v).len() && #[trigger] cst_children(v).insert(j, n) == cst_children(
                hosts.edited(v, EditOpV::InsertRow { after_row_id, fields }).0,
            ) && crate::cst::cst_kind(n) == KindV::Entry && hosts_line_reads(
                n,
                crate::rows::lookup_str(fields, "address"@)->Some_0,
                crate::hosts::string_items(crate::rows::lookup(fields, "hostnames"@)->Some_0->Array_0),
                crate::rows::lookup_str(fields, "comment"@),
            ),
{
    let addr = crate::rows::lookup_str(fields, "address"@)->Some_0;
    let names = crate::hosts::string_items(crate::rows::lookup(fields, "hostnames"@)->Some_0->Array_0);
    let c = crate::rows::lookup_str(fields, "comment"@);
    let n = crate::hosts::hosts_new_line(addr, names, c);
    lemma_hosts_new_line_reads(addr, names, c);
    let cs = cst_children(v);
    let e = hosts.edited(v, EditOpV::InsertRow { after_row_id, fields }).0;
    match after_row_id {
        Some(a) => {
            let j = row_index(cs, row_line(a)->Some_0 as int)->Some_0;
            assert(cs.insert(j + 1, n) == cst_children(e));
        },
        None => {
            assert(cs.insert(cs.len() as int, n) =~= cs.push(n));
            assert(cs.insert(cs.len() as int, n) == cst_children(e));
        },
    }
}

/// What the sshd line `n` reads: the keyword `key`, the value `value`, and
/// the comment `# c` when one is given.
pub open spec fn sshd_line_reads(n: CstV, key: Seq<char>, value: Seq<char>, comment: Option<Seq<char>>) -> bool {
    let cs = cst_children(n);
    &&& crate::bind::last_token_text(cs, KindV::Key) == Some(key)
    &&& crate::bind::last_token_text(cs, KindV::Value) == Some(value)
    &&& crate::bind::last_token_text(cs, KindV::Comment) == (match comment {
        Some(c) => Some("# "@ + c),
        None => None,
    })
}

/// An inserted sshd directive reads back the fields it was given: the insert
/// adds one line, at one place among the others, whose keyword is the name
/// of the last pair given other than `comment`, whose value is that pair's
/// text, and whose comment is `# ` and the `comment` given, if any.
pub proof fn lemma_sshd_inserts_read_back(
    sshd: SshdPlugin,
    v: CstV,
    after_row_id: Option<Seq<char>>,
    fields: Seq<(Seq<char>, JsonV)>,
)
    requires
        sshd.edited(v, EditOpV::InsertRow { after_row_id, fields }).1 is Ok,
    ensures
        exists|j: int, n: CstV|
            0 <= j <= cst_children(v).len() && #[trigger] cst_children(v).insert(j, n) == cst_children(
                sshd.edited(v, EditOpV::InsertRow { after_row_id, fields }).0,
            ) && crate::cst::cst_kind(n) == KindV::Entry && sshd_line_reads(
                n,
                crate::sshd::sshd_fold(fields).0->Some_0,
                crate::sshd::sshd_fold(fields).1->Some_0,
                crate::sshd::sshd_fold(fields).2,
            ),
{
    let (k, val, c) = crate::sshd::sshd_fold(fields);
    let key = k->Some_0;
    let value = val->Some_0;
    let head = seq![
        crate::rows::plain_tok(KindV::Key, key),
        crate::rows::plain_tok(KindV::Whitespace, " "@),
        crate::rows::plain_tok(KindV::Value, value),
    ];
    let ct = crate::rows::comment_toks(c);
    let nl = seq![crate::rows::plain_tok(KindV::Newline, "\n"@)];
    let n = crate::rows::new_entry(head + ct);
    let cs = cst_children(n);
    assert(cs == head + ct + nl);
    assert forall|j: int| 0 < j < cs.len() implies !token_of(#[trigger] cs[j], KindV::Key) by {
        if j >= 3 && j < 3 + ct.len() {
            assert(cs[j] == ct[j - 3]);
        }
    }
    lemma_last_token_text(cs, KindV::Key, 0, key);
    assert forall|j: int| 2 < j < cs.len() implies !token_of(#[trigger] cs[j], KindV::Value) by {
        if j < 3 + ct.len() {
            assert(cs[j] == ct[j - 3]);
        }
    }
    lemma_last_token_text(cs, KindV::Value, 2, value);
    match c {
        Some(t) => {
            assert(cs[cs.len() - 2] == ct[1]);
            lemma_last_token_text(cs, KindV::Comment, cs.len() - 2, "# "@ + t);
        },
        None => {
            lemma_last_token_text_none(cs, KindV::Comment);
        },
    }
    let vs = cst_children(v);
    let e = sshd.edited(v, EditOpV::InsertRow { after_row_id, fields }).0;
    match after_row_id {
        Some(a) => {
            let j = row_index(vs, row_line(a)->Some_0 as int)->Some_0;
            assert(vs.insert(j + 1, n) == cst_children(e));
        },
        None => {
            assert(vs.insert(vs.len() as int, n) =~= vs.push(n));
            assert(vs.insert(vs.len() as int, n) == cst_children(e));
        },
    }
}

/// `s` with its ASCII capital letters made small.
pub open spec fn ascii_lowercase(s: Seq<char>) -> Seq<char> {
    Seq::new(s.len(), |i: int| if 'A' <= s[i] && s[i] <= 'Z' { ((s[i] as u32) + 32) as char } else { s[i] })
}

/// Keywords match manifest names up to ASCII case: every
/// text matches its ASCII-lowercase form (so `passwordauthentication`
/// matches `PasswordAuthentication`), and texts that match have the same
/// length.
pub proof fn lemma_keyword_case_matching(s: Seq<char>, a: Seq<char>, b: Seq<char>)
    ensures
        crate::text::eq_ignore_ascii_case(s, ascii_lowercase(s)),
        crate::text::eq_ignore_ascii_case(ascii_lowercase(s), s),
        crate::text::eq_ignore_ascii_case(a, b) ==> a.len() == b.len(),
{
    let l = ascii_lowercase(s);
    assert forall|i: int| 0 <= i < s.len() implies #[trigger] crate::text::ascii_lower(s[i]) == crate::text::ascii_lower(l[i]) by {
        if 'A' <= s[i] && s[i] <= 'Z' {
            assert(('a' as u32) <= (l[i] as u32) <= ('z' as u32));
        }
    }
}

} // verus!

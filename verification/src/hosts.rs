//! `/etc/hosts`: one address and its host names per line, with comments.
use vstd::prelude::*;

use crate::cst::{view_nodes, CstNode, KindV, SyntaxKind};
use crate::grammar::{
    content_end, content_end_exec, covers, is_stop, lemma_covers_concat, lemma_covers_tok, lemma_scan,
    line_view, make_line, offsets_ok, one_tok, opt_tok, push_opt_tok, push_tok, scan, scan_exec,
    toks_views, LineShape, Stop, Tok,
};

verus! {

/// Host names (and the blanks after each) from `i` on, and where they stop.
pub open spec fn hosts_names(s: Seq<char>, i: int, le: int) -> (Seq<Tok>, int)
    decreases le - i,
{
    if i >= le || s[i] == '#' || s[i] == '\r' || s[i] == '\n' {
        (Seq::empty(), i)
    } else {
        let h = scan(s, i, le, Stop::HostsWord);
        let b = scan(s, h, le, Stop::NonBlank);
        if b <= i || b > le {
            (Seq::empty(), i)
        } else {
            let r = hosts_names(s, b, le);
            (one_tok(KindV::Hostname, i, h) + opt_tok(KindV::Whitespace, h, b) + r.0, r.1)
        }
    }
}

/// A line that is not a well-formed entry: what was recognised, then the
/// rest as an error token.
pub open spec fn hosts_malformed(s: Seq<char>, ls: int, le: int, start: int, t: Seq<Tok>) -> LineShape {
    let ce = content_end(s, ls, le);
    LineShape {
        kind: KindV::Error,
        toks: t + opt_tok(KindV::Error, start, ce) + opt_tok(KindV::Newline, ce, le),
    }
}

/// The tokens of the hosts line `s[ls..le]`.
pub open spec fn hosts_shape(s: Seq<char>, ls: int, le: int) -> LineShape {
    let ce = content_end(s, ls, le);
    let nl = opt_tok(KindV::Newline, ce, le);
    let w = scan(s, ls, le, Stop::NonBlank);
    let lead = opt_tok(KindV::Whitespace, ls, w);
    if ls >= le {
        LineShape { kind: KindV::BlankLine, toks: Seq::empty() }
    } else if w >= le || s[w] == '\n' || s[w] == '\r' {
        LineShape { kind: KindV::BlankLine, toks: lead + opt_tok(KindV::Newline, w, le) }
    } else if s[w] == '#' {
        LineShape { kind: KindV::CommentLine, toks: lead + one_tok(KindV::Comment, w, ce) + nl }
    } else {
        let ip = scan(s, w, le, Stop::HostsWord);
        let t1 = lead + one_tok(KindV::IpAddress, w, ip);
        let b = scan(s, ip, le, Stop::NonBlank);
        if b == ip {
            hosts_malformed(s, ls, le, ip, t1)
        } else {
            let t2 = t1 + one_tok(KindV::Whitespace, ip, b);
            let names = hosts_names(s, b, le);
            if names.0.len() == 0 {
                hosts_malformed(s, ls, le, names.1, t2)
            } else if names.1 < le && s[names.1] == '#' {
                LineShape {
                    kind: KindV::Entry,
                    toks: t2 + names.0 + one_tok(KindV::Comment, names.1, ce) + nl,
                }
            } else {
                LineShape {
                    kind: KindV::Entry,
                    toks: t2 + names.0 + opt_tok(KindV::Error, names.1, ce) + nl,
                }
            }
        }
    }
}

pub proof fn lemma_content_end(s: Seq<char>, ls: int, le: int)
    requires
        0 <= ls <= le <= s.len(),
    ensures
        ls <= content_end(s, ls, le) <= le,
        content_end(s, ls, le) < le ==> (s[content_end(s, ls, le)] == '\r' || s[content_end(
            s,
            ls,
            le,
        )] == '\n'),
        forall|k: int| content_end(s, ls, le) <= k < le ==> (#[trigger] s[k] == '\r' || s[k] == '\n'),
{
}

/// A run free of line breaks that starts inside the content stays inside it.
pub proof fn lemma_before_content_end(s: Seq<char>, ls: int, le: int, a: int, b: int)
    requires
        0 <= ls <= a <= b <= le <= s.len(),
        a <= content_end(s, ls, le),
        forall|k: int| a <= k < b ==> (#[trigger] s[k] != '\r' && s[k] != '\n'),
    ensures
        b <= content_end(s, ls, le),
{
    lemma_content_end(s, ls, le);
    let ce = content_end(s, ls, le);
    if b > ce {
        assert(s[ce] != '\r' && s[ce] != '\n');
    }
}

pub proof fn lemma_hosts_names(s: Seq<char>, i: int, le: int)
    requires
        0 <= i <= le <= s.len(),
    ensures
        i <= hosts_names(s, i, le).1 <= le,
        covers(hosts_names(s, i, le).0, i, hosts_names(s, i, le).1),
        forall|k: int|
            i <= k < hosts_names(s, i, le).1 ==> (#[trigger] s[k] != '\r' && s[k] != '\n' && s[k]
                != '#'),
        hosts_names(s, i, le).1 < le ==> (s[hosts_names(s, i, le).1] == '#' || s[hosts_names(
            s,
            i,
            le,
        ).1] == '\r' || s[hosts_names(s, i, le).1] == '\n'),
        hosts_names(s, i, le).0.len() == 0 <==> hosts_names(s, i, le).1 == i,
    decreases le - i,
{
    if i >= le || s[i] == '#' || s[i] == '\r' || s[i] == '\n' {
    } else {
        let h = scan(s, i, le, Stop::HostsWord);
        lemma_scan(s, i, le, Stop::HostsWord);
        let b = scan(s, h, le, Stop::NonBlank);
        lemma_scan(s, h, le, Stop::NonBlank);
        assert(b > i);
        lemma_hosts_names(s, b, le);
        let r = hosts_names(s, b, le);
        lemma_covers_tok(KindV::Hostname, i, h);
        lemma_covers_tok(KindV::Whitespace, h, b);
        lemma_covers_concat(one_tok(KindV::Hostname, i, h), opt_tok(KindV::Whitespace, h, b), i, h, b);
        lemma_covers_concat(
            one_tok(KindV::Hostname, i, h) + opt_tok(KindV::Whitespace, h, b),
            r.0,
            i,
            b,
            r.1,
        );
        assert forall|k: int| i <= k < r.1 implies (#[trigger] s[k] != '\r' && s[k] != '\n' && s[k]
            != '#') by {
            if k < h {
                assert(!is_stop(Stop::HostsWord, s[k]));
            } else if k < b {
                assert(!is_stop(Stop::NonBlank, s[k]));
            }
        }
    }
}

/// The tokens of every hosts line cover the line.
pub proof fn lemma_hosts_covers(s: Seq<char>, ls: int, le: int)
    requires
        0 <= ls < le <= s.len(),
    ensures
        covers(hosts_shape(s, ls, le).toks, ls, le),
{
    let ce = content_end(s, ls, le);
    lemma_content_end(s, ls, le);
    let nl = opt_tok(KindV::Newline, ce, le);
    lemma_covers_tok(KindV::Newline, ce, le);
    let w = scan(s, ls, le, Stop::NonBlank);
    lemma_scan(s, ls, le, Stop::NonBlank);
    let lead = opt_tok(KindV::Whitespace, ls, w);
    lemma_covers_tok(KindV::Whitespace, ls, w);
    assert forall|k: int| ls <= k < w implies (#[trigger] s[k] != '\r' && s[k] != '\n') by {
        assert(!is_stop(Stop::NonBlank, s[k]));
    }
    lemma_before_content_end(s, ls, le, ls, w);
    if w >= le || s[w] == '\n' || s[w] == '\r' {
        lemma_covers_tok(KindV::Newline, w, le);
        lemma_covers_concat(lead, opt_tok(KindV::Newline, w, le), ls, w, le);
    } else if s[w] == '#' {
        assert(w < ce);
        lemma_covers_tok(KindV::Comment, w, ce);
        lemma_covers_concat(lead, one_tok(KindV::Comment, w, ce), ls, w, ce);
        lemma_covers_concat(lead + one_tok(KindV::Comment, w, ce), nl, ls, ce, le);
    } else {
        assert(w < ce);
        let ip = scan(s, w, le, Stop::HostsWord);
        lemma_scan(s, w, le, Stop::HostsWord);
        assert forall|k: int| w <= k < ip implies (#[trigger] s[k] != '\r' && s[k] != '\n') by {
            assert(!is_stop(Stop::HostsWord, s[k]));
        }
        lemma_before_content_end(s, ls, le, w, ip);
        let t1 = lead + one_tok(KindV::IpAddress, w, ip);
        lemma_covers_tok(KindV::IpAddress, w, ip);
        lemma_covers_concat(lead, one_tok(KindV::IpAddress, w, ip), ls, w, ip);
        let b = scan(s, ip, le, Stop::NonBlank);
        lemma_scan(s, ip, le, Stop::NonBlank);
        if b == ip {
            lemma_covers_tok(KindV::Error, ip, ce);
            lemma_covers_concat(t1, opt_tok(KindV::Error, ip, ce), ls, ip, ce);
            lemma_covers_concat(t1 + opt_tok(KindV::Error, ip, ce), nl, ls, ce, le);
        } else {
            assert forall|k: int| ip <= k < b implies (#[trigger] s[k] != '\r' && s[k] != '\n') by {
                assert(!is_stop(Stop::NonBlank, s[k]));
            }
            lemma_before_content_end(s, ls, le, ip, b);
            let t2 = t1 + one_tok(KindV::Whitespace, ip, b);
            lemma_covers_tok(KindV::Whitespace, ip, b);
            lemma_covers_concat(t1, one_tok(KindV::Whitespace, ip, b), ls, ip, b);
            let names = hosts_names(s, b, le);
            lemma_hosts_names(s, b, le);
            lemma_before_content_end(s, ls, le, b, names.1);
            let idx = names.1;
            if names.0.len() == 0 {
                lemma_covers_tok(KindV::Error, idx, ce);
                lemma_covers_concat(t2, opt_tok(KindV::Error, idx, ce), ls, idx, ce);
                lemma_covers_concat(t2 + opt_tok(KindV::Error, idx, ce), nl, ls, ce, le);
            } else {
                lemma_covers_concat(t2, names.0, ls, b, idx);
                if idx < le && s[idx] == '#' {
                    assert(idx < ce);
                    lemma_covers_tok(KindV::Comment, idx, ce);
                    lemma_covers_concat(t2 + names.0, one_tok(KindV::Comment, idx, ce), ls, idx, ce);
                    lemma_covers_concat(
                        t2 + names.0 + one_tok(KindV::Comment, idx, ce),
                        nl,
                        ls,
                        ce,
                        le,
                    );
                } else {
                    lemma_covers_tok(KindV::Error, idx, ce);
                    lemma_covers_concat(t2 + names.0, opt_tok(KindV::Error, idx, ce), ls, idx, ce);
                    lemma_covers_concat(
                        t2 + names.0 + opt_tok(KindV::Error, idx, ce),
                        nl,
                        ls,
                        ce,
                        le,
                    );
                }
            }
        }
    }
}

/// Parses the hosts line `chars[ls..le]`.
pub fn hosts_line(chars: &Vec<char>, offs: &Vec<usize>, ls: usize, le: usize) -> (r: CstNode)
    requires
        offsets_ok(chars@, offs@),
        ls < le <= chars@.len(),
    ensures
        r@ == line_view(chars@, ls as int, le as int, hosts_shape(chars@, ls as int, le as int)),
{
    let ghost s = chars@;
    let ce = content_end_exec(chars, ls, le);
    let w = scan_exec(chars, ls, le, Stop::NonBlank);
    let mut toks: Vec<CstNode> = Vec::new();
    assert(view_nodes(toks@) =~= toks_views(s, Seq::<Tok>::empty()));
    push_opt_tok(&mut toks, Ghost(Seq::empty()), SyntaxKind::Whitespace, chars, offs, ls, w);
    let ghost lead = Seq::<Tok>::empty() + opt_tok(KindV::Whitespace, ls as int, w as int);
    assert(lead =~= opt_tok(KindV::Whitespace, ls as int, w as int));
    if w >= le || chars[w] == '\n' || chars[w] == '\r' {
        push_opt_tok(&mut toks, Ghost(lead), SyntaxKind::Newline, chars, offs, w, le);
        return make_line(
            SyntaxKind::BlankLine,
            toks,
            Ghost(lead + opt_tok(KindV::Newline, w as int, le as int)),
            chars,
            offs,
            ls,
            le,
        );
    }
    proof {
        lemma_content_end(s, ls as int, le as int);
    }
    if chars[w] == '#' {
        push_tok(&mut toks, Ghost(lead), SyntaxKind::Comment, chars, offs, w, ce);
        let ghost t = lead.push(Tok { kind: KindV::Comment, start: w as int, end: ce as int });
        push_opt_tok(&mut toks, Ghost(t), SyntaxKind::Newline, chars, offs, ce, le);
        assert(t =~= lead + one_tok(KindV::Comment, w as int, ce as int));
        return make_line(
            SyntaxKind::CommentLine,
            toks,
            Ghost(t + opt_tok(KindV::Newline, ce as int, le as int)),
            chars,
            offs,
            ls,
            le,
        );
    }
    let ip = scan_exec(chars, w, le, Stop::HostsWord);
    push_tok(&mut toks, Ghost(lead), SyntaxKind::IpAddress, chars, offs, w, ip);
    let ghost t1 = lead.push(Tok { kind: KindV::IpAddress, start: w as int, end: ip as int });
    assert(t1 =~= lead + one_tok(KindV::IpAddress, w as int, ip as int));
    let b = scan_exec(chars, ip, le, Stop::NonBlank);
    if b == ip {
        return hosts_malformed_exec(chars, offs, ls, le, ip, toks, Ghost(t1));
    }
    push_tok(&mut toks, Ghost(t1), SyntaxKind::Whitespace, chars, offs, ip, b);
    let ghost t2 = t1.push(Tok { kind: KindV::Whitespace, start: ip as int, end: b as int });
    assert(t2 =~= t1 + one_tok(KindV::Whitespace, ip as int, b as int));
    // host names
    let mut idx = b;
    let ghost mut names = Seq::<Tok>::empty();
    proof {
        lemma_hosts_names(s, b as int, le as int);
    }
    while idx < le && chars[idx] != '#' && chars[idx] != '\r' && chars[idx] != '\n'
        invariant
            offsets_ok(s, offs@),
            chars@ == s,
            b <= idx <= le <= s.len(),
            view_nodes(toks@) == toks_views(s, t2 + names),
            hosts_names(s, b as int, le as int) == (
                names + hosts_names(s, idx as int, le as int).0,
                hosts_names(s, idx as int, le as int).1,
            ),
            names.len() == 0 <==> idx == b,
        decreases le - idx,
    {
        let h = scan_exec(chars, idx, le, Stop::HostsWord);
        let nb = scan_exec(chars, h, le, Stop::NonBlank);
        proof {
            lemma_scan(s, idx as int, le as int, Stop::HostsWord);
            lemma_scan(s, h as int, le as int, Stop::NonBlank);
            assert(nb > idx);
        }
        push_tok(&mut toks, Ghost(t2 + names), SyntaxKind::Hostname, chars, offs, idx, h);
        let ghost n1 = (t2 + names).push(Tok { kind: KindV::Hostname, start: idx as int, end: h as int });
        push_opt_tok(&mut toks, Ghost(n1), SyntaxKind::Whitespace, chars, offs, h, nb);
        proof {
            let step = one_tok(KindV::Hostname, idx as int, h as int) + opt_tok(
                KindV::Whitespace,
                h as int,
                nb as int,
            );
            assert(n1 + opt_tok(KindV::Whitespace, h as int, nb as int) =~= t2 + (names + step));
            assert(hosts_names(s, b as int, le as int).0 =~= (names + step) + hosts_names(
                s,
                nb as int,
                le as int,
            ).0);
            names = names + step;
        }
        idx = nb;
    }
    if idx == b {
        assert(names =~= Seq::<Tok>::empty());
        assert(t2 + names =~= t2);
        return hosts_malformed_exec(chars, offs, ls, le, idx, toks, Ghost(t2));
    }
    let ghost t3 = t2 + names;
    assert(hosts_names(s, idx as int, le as int).0 =~= Seq::<Tok>::empty());
    assert(names =~= hosts_names(s, b as int, le as int).0);
    if idx < le && chars[idx] == '#' {
        proof {
            lemma_scan(s, ls as int, le as int, Stop::NonBlank);
            lemma_scan(s, w as int, le as int, Stop::HostsWord);
            lemma_scan(s, ip as int, le as int, Stop::NonBlank);
            assert forall|k: int| ls <= k < w implies (#[trigger] s[k] != '\r' && s[k] != '\n') by {
                assert(!is_stop(Stop::NonBlank, s[k]));
            }
            lemma_before_content_end(s, ls as int, le as int, ls as int, w as int);
            assert forall|k: int| w <= k < ip implies (#[trigger] s[k] != '\r' && s[k] != '\n') by {
                assert(!is_stop(Stop::HostsWord, s[k]));
            }
            lemma_before_content_end(s, ls as int, le as int, w as int, ip as int);
            assert forall|k: int| ip <= k < b implies (#[trigger] s[k] != '\r' && s[k] != '\n') by {
                assert(!is_stop(Stop::NonBlank, s[k]));
            }
            lemma_before_content_end(s, ls as int, le as int, ip as int, b as int);
            lemma_hosts_names(s, b as int, le as int);
            lemma_before_content_end(s, ls as int, le as int, b as int, idx as int);
        }
        push_tok(&mut toks, Ghost(t3), SyntaxKind::Comment, chars, offs, idx, ce);
        let ghost t4 = t3.push(Tok { kind: KindV::Comment, start: idx as int, end: ce as int });
        assert(t4 =~= t3 + one_tok(KindV::Comment, idx as int, ce as int));
        push_opt_tok(&mut toks, Ghost(t4), SyntaxKind::Newline, chars, offs, ce, le);
        make_line(
            SyntaxKind::Entry,
            toks,
            Ghost(t4 + opt_tok(KindV::Newline, ce as int, le as int)),
            chars,
            offs,
            ls,
            le,
        )
    } else {
        let e = if idx < ce {
            ce
        } else {
            idx
        };
        push_opt_tok(&mut toks, Ghost(t3), SyntaxKind::Error, chars, offs, idx, e);
        assert(opt_tok(KindV::Error, idx as int, e as int) =~= opt_tok(
            KindV::Error,
            idx as int,
            ce as int,
        ));
        let ghost t4 = t3 + opt_tok(KindV::Error, idx as int, ce as int);
        push_opt_tok(&mut toks, Ghost(t4), SyntaxKind::Newline, chars, offs, ce, le);
        make_line(
            SyntaxKind::Entry,
            toks,
            Ghost(t4 + opt_tok(KindV::Newline, ce as int, le as int)),
            chars,
            offs,
            ls,
            le,
        )
    }
}

fn hosts_malformed_exec(
    chars: &Vec<char>,
    offs: &Vec<usize>,
    ls: usize,
    le: usize,
    start: usize,
    toks: Vec<CstNode>,
    Ghost(t): Ghost<Seq<Tok>>,
) -> (r: CstNode)
    requires
        offsets_ok(chars@, offs@),
        ls < le <= chars@.len(),
        start <= le,
        view_nodes(toks@) == toks_views(chars@, t),
    ensures
        r@ == line_view(
            chars@,
            ls as int,
            le as int,
            hosts_malformed(chars@, ls as int, le as int, start as int, t),
        ),
{
    let mut toks = toks;
    let ce = content_end_exec(chars, ls, le);
    let e = if start < ce {
        ce
    } else {
        start
    };
    push_opt_tok(&mut toks, Ghost(t), SyntaxKind::Error, chars, offs, start, e);
    assert(opt_tok(KindV::Error, start as int, e as int) =~= opt_tok(
        KindV::Error,
        start as int,
        ce as int,
    ));
    let ghost t2 = t + opt_tok(KindV::Error, start as int, ce as int);
    push_opt_tok(&mut toks, Ghost(t2), SyntaxKind::Newline, chars, offs, ce, le);
    make_line(
        SyntaxKind::Error,
        toks,
        Ghost(t2 + opt_tok(KindV::Newline, ce as int, le as int)),
        chars,
        offs,
        ls,
        le,
    )
}

} // verus!

verus! {

/// Hostname tokens with a single space between them.
pub open spec fn hostname_toks(names: Seq<Seq<char>>) -> Seq<crate::cst::CstV>
    decreases names.len(),
{
    if names.len() == 0 {
        Seq::empty()
    } else if names.len() == 1 {
        seq![crate::rows::plain_tok(KindV::Hostname, names[0])]
    } else {
        hostname_toks(names.drop_last()) + seq![
            crate::rows::plain_tok(KindV::Whitespace, " "@),
            crate::rows::plain_tok(KindV::Hostname, names.last()),
        ]
    }
}

/// Replacing the host names of a line: everything from its first to its
/// last hostname token gives way to the new names.
pub open spec fn hostnames_edit(line: crate::cst::CstV, names: Seq<Seq<char>>) -> (crate::cst::CstV, Result<(), crate::edit::EditErrorV>) {
    match line {
        crate::cst::CstV::Token { .. } => (line, Err(crate::rows::line_not_rule())),
        crate::cst::CstV::Rule { kind, children: cs, span } => match crate::rows::first_kind(cs, KindV::Hostname) {
            None => (line, Err(crate::edit::EditErrorV::FieldNotFound("hostnames"@, "unknown"@))),
            Some(a) => {
                let b = match crate::rows::last_kind(cs, KindV::Hostname) {
                    Some(b) => b,
                    None => a,
                };
                (
                    crate::cst::CstV::Rule {
                        kind,
                        children: cs.subrange(0, a) + hostname_toks(names) + cs.subrange(b + 1, cs.len() as int),
                        span,
                    },
                    Ok(()),
                )
            },
        },
    }
}

/// The texts of JSON strings (meaningful where every item is one).
pub open spec fn json_texts(items: Seq<crate::json::JsonV>) -> Seq<Seq<char>> {
    items.map_values(|j: crate::json::JsonV| j->String_0)
}

/// The texts of the JSON strings among `items`, in order.
pub open spec fn string_items(items: Seq<crate::json::JsonV>) -> Seq<Seq<char>>
    decreases items.len(),
{
    if items.len() == 0 {
        Seq::empty()
    } else {
        string_items(items.drop_last()) + match items.last() {
            crate::json::JsonV::String(s) => seq![s],
            _ => Seq::<Seq<char>>::empty(),
        }
    }
}

/// Editing one field of a hosts line.
pub open spec fn hosts_line_edit(field: Seq<char>, row_id: Seq<char>, new: crate::json::JsonV) -> spec_fn(crate::cst::CstV) -> (crate::cst::CstV, Result<(), crate::edit::EditErrorV>) {
    |line: crate::cst::CstV|
        if field == "address"@ {
            match crate::schema::json_str(new) {
                None => (line, Err(crate::rows::invalid("address"@, "Expected string IP address"@))),
                Some(ip) => match crate::cst::replace_first(line, KindV::IpAddress, ip) {
                    Some(l2) => (l2, Ok(())),
                    None => (line, Err(crate::edit::EditErrorV::FieldNotFound("address"@, row_id))),
                },
            }
        } else if field == "hostnames"@ {
            match new {
                crate::json::JsonV::Array(items) => if !crate::schema::all_strings(items) {
                    (line, Err(crate::rows::invalid("hostnames"@, "All hostnames must be strings"@)))
                } else if items.len() == 0 {
                    (line, Err(crate::rows::invalid("hostnames"@, "At least one hostname is required"@)))
                } else {
                    hostnames_edit(line, json_texts(items))
                },
                _ => (line, Err(crate::rows::invalid("hostnames"@, "Expected array of hostnames"@))),
            }
        } else if field == "comment"@ {
            crate::rows::comment_edit(line, new)
        } else {
            (line, Err(crate::edit::EditErrorV::FieldNotFound(field, row_id)))
        }
}

/// The line an insertion adds: address, a tab, the names, an optional comment.
pub open spec fn hosts_new_line(addr: Seq<char>, names: Seq<Seq<char>>, comment: Option<Seq<char>>) -> crate::cst::CstV {
    crate::rows::new_entry(
        seq![crate::rows::plain_tok(KindV::IpAddress, addr), crate::rows::plain_tok(KindV::Whitespace, "\t"@)]
            + hostname_toks(names) + crate::rows::comment_toks(comment),
    )
}

/// Inserting a hosts line built from `fields`.
pub open spec fn hosts_insert_spec(
    v: crate::cst::CstV,
    after: Option<Seq<char>>,
    fields: Seq<(Seq<char>, crate::json::JsonV)>,
) -> (crate::cst::CstV, Result<(), crate::edit::EditErrorV>) {
    match crate::rows::lookup_str(fields, "address"@) {
        None => (v, Err(crate::rows::invalid("address"@, "Field 'address' is required for insertion"@))),
        Some(addr) => match crate::rows::lookup(fields, "hostnames"@) {
            Some(crate::json::JsonV::Array(items)) => {
                let names = string_items(items);
                if names.len() == 0 {
                    (v, Err(crate::rows::invalid("hostnames"@, "At least one hostname is required"@)))
                } else {
                    crate::rows::insert_spec(v, after, hosts_new_line(addr, names, crate::rows::lookup_str(fields, "comment"@)))
                }
            },
            _ => (v, Err(crate::rows::invalid("hostnames"@, "Field 'hostnames' is required for insertion"@))),
        },
    }
}

/// What an edit does to a hosts document.
pub open spec fn hosts_edit(v: crate::cst::CstV, op: crate::edit::EditOpV) -> (crate::cst::CstV, Result<(), crate::edit::EditErrorV>) {
    match op {
        crate::edit::EditOpV::UpdateField { row_id, field_name, new_value } => crate::rows::update_spec(
            v,
            row_id,
            hosts_line_edit(field_name, row_id, new_value),
        ),
        crate::edit::EditOpV::DeleteRow { row_id } => crate::rows::delete_spec(v, row_id),
        crate::edit::EditOpV::InsertRow { after_row_id, fields } => hosts_insert_spec(v, after_row_id, fields),
        crate::edit::EditOpV::MoveRow { row_id, after_row_id, before_row_id } => crate::rows::move_spec(
            v,
            row_id,
            after_row_id,
            before_row_id,
        ),
    }
}

} // verus!

verus! {

use crate::bind::{
    bind_rows, doc_ir, doc_ir_spec, entry_rows, json_strings, last_text_of_kind, last_token_text, lines_fit,
    push_field, row_at, row_id_string, strings_to_json, texts_of_kind, texts_of_kind_exec, validate_into, validated,
    RowBinder,
};
use crate::cst::{cst_children, cst_text, lemma_view_nodes, CstV, Span, SourceSpan};
use crate::edit::{edit_result, ConfigPlugin, EditError, EditErrorV, EditOp, EditOpV, ParseError, BindError};
use crate::grammar::{parse_doc, parse_doc_spec, Grammar};
use crate::ir::{plain_field, ConfigDocumentIr, DocumentIrV, FieldIr, RowIr, RowIrV};
use crate::json::{view_jsons, view_members, JsonV, JsonValue};
use crate::rows::{
    comment_edit, delete_row, find_line_node_mut, finish_entry, insert_row, invalid, invalid_err, lemma_view_nodes_insert,
    lemma_view_nodes_remove, lemma_view_nodes_update, lookup_field, lookup_field_str, move_row, parse_row_id_line,
    plain_tok, position_of_kind, push_comment, push_plain, push_plain_string, replace_or_set_comment_in_line,
    rposition_of_kind, update_spec, with_children,
};
use crate::schema::{find_field_spec, opt_text, FieldType, FieldTypeV, PluginManifest};
use crate::text::{comment_value, comment_value_exec, str_eq, string_views, utf8_len};

/// Token nodes for host names, a space between each two.
fn hostname_nodes(names: &Vec<String>) -> (r: Vec<CstNode>)
    ensures
        view_nodes(r@) == hostname_toks(string_views(names@)),
{
    let ghost sv = string_views(names@);
    let mut out: Vec<CstNode> = Vec::new();
    let mut i: usize = 0;
    assert(view_nodes(out@) =~= hostname_toks(sv.subrange(0, 0)));
    while i < names.len()
        invariant
            i <= names@.len(),
            sv == string_views(names@),
            sv.len() == names@.len(),
            view_nodes(out@) == hostname_toks(sv.subrange(0, i as int)),
        decreases names@.len() - i,
    {
        let ghost before = view_nodes(out@);
        if i > 0 {
            push_plain(&mut out, SyntaxKind::Whitespace, " ");
        }
        push_plain_string(&mut out, SyntaxKind::Hostname, names[i].clone());
        proof {
            let sub = sv.subrange(0, i + 1);
            assert(sub.drop_last() =~= sv.subrange(0, i as int));
            assert(sub.last() == names@[i as int]@);
            if i == 0 {
                assert(view_nodes(out@) =~= hostname_toks(sub));
            } else {
                assert(view_nodes(out@) =~= hostname_toks(sub));
            }
        }
        i = i + 1;
    }
    assert(sv.subrange(0, names@.len() as int) =~= sv);
    out
}

/// Replaces everything from the first to the last hostname token of a line
/// with the new names.
fn replace_hostnames_in_line(line_node: &mut CstNode, new_hostnames: &Vec<String>) -> (r: Result<(), EditError>)
    ensures
        (final(line_node)@, edit_result(r)) == hostnames_edit(old(line_node)@, string_views(new_hostnames@)),
{
    let children = match line_node.children_mut() {
        Some(c) => c,
        None => return Err(EditError::Unsupported("Line node is not a rule".to_owned())),
    };
    let ghost v0 = view_nodes(children@);
    proof {
        lemma_view_nodes(children@);
    }
    let first = match position_of_kind(children, &SyntaxKind::Hostname) {
        Some(f) => f,
        None => return Err(EditError::FieldNotFound("hostnames".to_owned(), "unknown".to_owned())),
    };
    let last = match rposition_of_kind(children, &SyntaxKind::Hostname) {
        Some(l) => l,
        None => first,
    };
    proof {
        if last < first {
            assert(crate::rows::is_last_kind(v0, KindV::Hostname, last as int));
            assert(crate::cst::cst_kind(v0[first as int]) == KindV::Hostname);
        }
    }
    let n = children.len();
    let mut k: usize = first;
    assert(v0.subrange(0, first as int) + v0.subrange(first as int, n as int) =~= v0);
    while k <= last
        invariant
            first <= k <= last + 1,
            last < n,
            n == v0.len(),
            view_nodes(children@) == v0.subrange(0, first as int) + v0.subrange(k as int, n as int),
        decreases last + 1 - k,
    {
        proof {
            lemma_view_nodes(children@);
            lemma_view_nodes_remove(children@, first as int);
        }
        children.remove(first);
        proof {
            assert(view_nodes(children@) =~= v0.subrange(0, first as int) + v0.subrange(k + 1, n as int));
        }
        k = k + 1;
    }
    let mut repl = hostname_nodes(new_hostnames);
    let ghost rv = view_nodes(repl@);
    let ghost m = repl@.len();
    proof {
        lemma_view_nodes(repl@);
        lemma_view_nodes(children@);
        assert(rv.subrange(m as int, m as int) =~= Seq::<CstV>::empty());
        assert(view_nodes(children@) =~= v0.subrange(0, first as int) + rv.subrange(m as int, m as int) + v0.subrange(last + 1, n as int));
    }
    while repl.len() > 0
        invariant
            repl@.len() <= m,
            rv.len() == m,
            first <= last,
            last < n,
            n == v0.len(),
            view_nodes(repl@) == rv.subrange(0, repl@.len() as int),
            view_nodes(children@) == v0.subrange(0, first as int) + rv.subrange(repl@.len() as int, m as int)
                + v0.subrange(last + 1, n as int),
            first <= children@.len(),
        decreases repl@.len(),
    {
        let ghost rb = repl@;
        let node = repl.pop().unwrap();
        proof {
            lemma_view_nodes(rb);
            lemma_view_nodes(repl@);
            assert(rb == repl@.push(node));
            assert(view_nodes(repl@) =~= rv.subrange(0, repl@.len() as int));
            lemma_view_nodes_insert(children@, first as int, node);
            assert(view_nodes(rb)[repl@.len() as int] == rv[repl@.len() as int]);
            assert(node@ == rv[repl@.len() as int]);
        }
        children.insert(first, node);
        proof {
            assert(view_nodes(children@) =~= v0.subrange(0, first as int) + rv.subrange(repl@.len() as int, m as int)
                + v0.subrange(last + 1, n as int));
        }
    }
    assert(rv.subrange(0, m as int) =~= rv);
    Ok(())
}

/// Edits one field of a hosts line.
#[verifier::loop_isolation(false)]
fn hosts_line_update(line: &mut CstNode, row_id: &String, field_name: &String, new_value: &JsonValue) -> (r: Result<(), EditError>)
    ensures
        (final(line)@, edit_result(r)) == (hosts_line_edit(field_name@, row_id@, new_value@))(old(line)@),
{
    if str_eq(field_name.as_str(), "address") {
        let new_ip = match new_value.as_str() {
            Some(s) => s,
            None => return Err(invalid_err("address", "Expected string IP address")),
        };
        if !line.replace_first_token_text(&SyntaxKind::IpAddress, new_ip) {
            return Err(EditError::FieldNotFound("address".to_owned(), row_id.clone()));
        }
        Ok(())
    } else if str_eq(field_name.as_str(), "hostnames") {
        let arr = match new_value.as_array() {
            Some(a) => a,
            None => return Err(invalid_err("hostnames", "Expected array of hostnames")),
        };
        let ghost items = new_value@->Array_0;
        proof {
            crate::json::lemma_view_jsons(arr@);
        }
        let mut names: Vec<String> = Vec::new();
        let mut i: usize = 0;
        while i < arr.len()
            invariant
                i <= arr@.len(),
                items == view_jsons(arr@),
                items.len() == arr@.len(),
                forall|j: int| 0 <= j < items.len() ==> #[trigger] items[j] == arr@[j]@,
                forall|j: int| 0 <= j < i ==> (#[trigger] items[j]) is String,
                string_views(names@) == json_texts(items.subrange(0, i as int)),
            decreases arr@.len() - i,
        {
            assert(items[i as int] == arr@[i as int]@);
            match arr[i].as_str() {
                Some(s) => {
                    let ghost before = names@;
                    let t = s.to_owned();
                    names.push(t);
                    proof {
                        crate::text::lemma_string_views_push(before, t);
                        assert(string_views(names@) =~= json_texts(items.subrange(0, i + 1)));
                    }
                },
                None => {
                    assert(!crate::schema::all_strings(items));
                    return Err(invalid_err("hostnames", "All hostnames must be strings"));
                },
            }
            i = i + 1;
        }
        assert(items.subrange(0, items.len() as int) =~= items);
        if names.len() == 0 {
            return Err(invalid_err("hostnames", "At least one hostname is required"));
        }
        replace_hostnames_in_line(line, &names)
    } else if str_eq(field_name.as_str(), "comment") {
        replace_or_set_comment_in_line(line, new_value)
    } else {
        Err(EditError::FieldNotFound(field_name.clone(), row_id.clone()))
    }
}

fn hosts_update(cst: &mut CstNode, row_id: &String, field_name: &String, new_value: &JsonValue) -> (r: Result<(), EditError>)
    ensures
        (final(cst)@, edit_result(r)) == update_spec(old(cst)@, row_id@, hosts_line_edit(field_name@, row_id@, new_value@)),
{
    let ln = match parse_row_id_line(row_id.as_str()) {
        Ok(n) => n,
        Err(e) => return Err(e),
    };
    let ghost old_cst = *cst;
    let line = match find_line_node_mut(cst, ln) {
        Some(l) => l,
        None => return Err(EditError::RowNotFound(row_id.clone())),
    };
    let r = hosts_line_update(line, row_id, field_name, new_value);
    proof {
        let i = crate::rows::row_index(view_nodes(old_cst->Rule_children@), ln as int)->Some_0;
        lemma_view_nodes(old_cst->Rule_children@);
        lemma_view_nodes_update(old_cst->Rule_children@, i, *final(line));
    }
    r
}

/// The JSON strings among `items`, as texts.
pub fn string_items_exec(arr: &Vec<JsonValue>) -> (r: Vec<String>)
    ensures
        string_views(r@) == string_items(view_jsons(arr@)),
{
    proof {
        crate::json::lemma_view_jsons(arr@);
    }
    let ghost items = view_jsons(arr@);
    let mut names: Vec<String> = Vec::new();
    let mut i: usize = 0;
    while i < arr.len()
        invariant
            i <= arr@.len(),
            items == view_jsons(arr@),
            items.len() == arr@.len(),
            forall|j: int| 0 <= j < items.len() ==> #[trigger] items[j] == arr@[j]@,
            string_views(names@) == string_items(items.subrange(0, i as int)),
        decreases arr@.len() - i,
    {
        assert(items.subrange(0, i + 1).drop_last() =~= items.subrange(0, i as int));
        assert(items[i as int] == arr@[i as int]@);
        let ghost before = names@;
        match arr[i].as_str() {
            Some(s) => {
                let t = s.to_owned();
                names.push(t);
                proof {
                    crate::text::lemma_string_views_push(before, t);
                }
            },
            None => {},
        }
        assert(string_views(names@) =~= string_items(items.subrange(0, i + 1)));
        i = i + 1;
    }
    assert(items.subrange(0, items.len() as int) =~= items);
    names
}

fn hosts_insert(cst: &mut CstNode, after: &Option<String>, fields: &Vec<(String, JsonValue)>) -> (r: Result<(), EditError>)
    ensures
        (final(cst)@, edit_result(r)) == hosts_insert_spec(old(cst)@, opt_text(*after), view_members(fields@)),
{
    let address = match lookup_field_str(fields, "address") {
        Some(a) => a,
        None => return Err(invalid_err("address", "Field 'address' is required for insertion")),
    };
    let arr = match lookup_field(fields, "hostnames") {
        Some(v) => match v.as_array() {
            Some(a) => a,
            None => return Err(invalid_err("hostnames", "Field 'hostnames' is required for insertion")),
        },
        None => return Err(invalid_err("hostnames", "Field 'hostnames' is required for insertion")),
    };
    let names = string_items_exec(arr);
    if names.len() == 0 {
        return Err(invalid_err("hostnames", "At least one hostname is required"));
    }
    let comment = lookup_field_str(fields, "comment");
    let mut toks: Vec<CstNode> = Vec::new();
    push_plain(&mut toks, SyntaxKind::IpAddress, address);
    push_plain(&mut toks, SyntaxKind::Whitespace, "\t");
    let ghost t0 = view_nodes(toks@);
    let mut hs = hostname_nodes(&names);
    let ghost hv = view_nodes(hs@);
    let ghost ts0 = toks@;
    let ghost hs0 = hs@;
    toks.append(&mut hs);
    proof {
        crate::rows::lemma_view_nodes_concat(ts0, hs0);
    }
    push_comment(&mut toks, comment);
    let line = finish_entry(toks);
    proof {
        assert(seq![plain_tok(KindV::IpAddress, address@), plain_tok(KindV::Whitespace, "\t"@)] =~= t0);
    }
    insert_row(cst, after, line)
}

/// Lossless parser and plugin for `/etc/hosts`.
#[derive(Debug, Clone)]
pub struct HostsPlugin {
    manifest: PluginManifest,
}

/// The row an `/etc/hosts` entry line becomes.
pub open spec fn hosts_row(m: PluginManifest, line: CstV, ln: int) -> RowIrV {
    let cs = cst_children(line);
    let addr = match last_token_text(cs, KindV::IpAddress) {
        Some(t) => seq![
            validated(
                plain_field("address"@, FieldTypeV::IpAddress, JsonV::String(t)),
                find_field_spec(m, "address"@),
                JsonV::String(t),
            ),
        ],
        None => Seq::empty(),
    };
    let names = seq![plain_field("hostnames"@, FieldTypeV::StringList, json_strings(texts_of_kind(cs, KindV::Hostname)))];
    let comment = match last_token_text(cs, KindV::Comment) {
        Some(c) => seq![plain_field("comment"@, FieldTypeV::String, JsonV::String(comment_value(c)))],
        None => Seq::empty(),
    };
    row_at(ln, "key_value_list_row"@, addr + names + comment)
}

impl HostsPlugin {
    pub fn new() -> (r: Self)
        ensures
            r.manifest_spec().plugin.name@ == "hosts"@,
    {
        HostsPlugin { manifest: crate::manifests::hosts_manifest() }
    }
}

impl Default for HostsPlugin {
    fn default() -> (r: Self)
        ensures
            r.manifest_spec().plugin.name@ == "hosts"@,
    {
        HostsPlugin::new()
    }
}

impl RowBinder for HostsPlugin {
    open spec fn row_spec(&self, line: CstV, ln: int) -> RowIrV {
        hosts_row(self.manifest_spec(), line, ln)
    }

    fn bind_row(&self, line: &CstNode, ln: usize) -> (r: RowIr) {
        let cs = line.children();
        let ip = last_text_of_kind(cs, &SyntaxKind::IpAddress);
        let names = texts_of_kind_exec(cs, &SyntaxKind::Hostname);
        let comment = last_text_of_kind(cs, &SyntaxKind::Comment);
        let id = row_id_string(ln);
        let mut row = RowIr::new(id.as_str(), "key_value_list_row", SourceSpan::single_line(ln));
        match ip {
            Some(t) => {
                let v = JsonValue::String(t.clone());
                let mut f = FieldIr::new("address", FieldType::IpAddress, JsonValue::String(t));
                match self.manifest.find_field("address") {
                    Some(def) => {
                        f = validate_into(f, def, &v);
                    },
                    None => {},
                }
                push_field(&mut row.fields, f);
            },
            None => {},
        }
        let arr = strings_to_json(&names);
        push_field(&mut row.fields, FieldIr::new("hostnames", FieldType::StringList, arr));
        match comment {
            Some(c) => {
                let cv = comment_value_exec(c.as_str());
                push_field(&mut row.fields, FieldIr::new("comment", FieldType::String, JsonValue::String(cv)));
            },
            None => {},
        }
        proof {
            assert(crate::ir::field_views(row.fields@) =~= hosts_row(self.manifest, line@, ln as int).fields);
        }
        row
    }
}

/// Parses `/etc/hosts` text into one node per line.
///
/// Every character (spaces, tabs, `#`, line breaks) lands in a token, so the
/// nodes' texts put together give the input back; a line that is not a
/// well-formed entry keeps its unrecognised rest as an error token.
pub fn parse_hosts_cst(input: &str) -> (r: Vec<CstNode>)
    requires
        utf8_len(input@) <= usize::MAX,
    ensures
        view_nodes(r@) == parse_doc_spec(input@, Grammar::Hosts),
        crate::cst::cst_texts(view_nodes(r@)) == input@,
{
    parse_doc(input, Grammar::Hosts)
}

/// The document node a parser makes of `text` from its line nodes.
pub open spec fn document(text: Seq<char>, lines: Seq<CstV>) -> CstV {
    CstV::Rule { kind: KindV::Document, children: lines, span: Span { start: 0, end: utf8_len(text) as usize } }
}

impl ConfigPlugin for HostsPlugin {
    closed spec fn manifest_spec(&self) -> PluginManifest {
        self.manifest
    }

    open spec fn parses(&self, text: Seq<char>) -> bool {
        true
    }

    open spec fn parsed(&self, text: Seq<char>) -> CstV {
        document(text, parse_doc_spec(text, Grammar::Hosts))
    }

    open spec fn bindable(&self, cst: CstV) -> bool {
        lines_fit(cst)
    }

    open spec fn binds(&self, cst: CstV) -> bool {
        true
    }

    open spec fn bound(&self, cst: CstV) -> DocumentIrV {
        doc_ir_spec(self.manifest_spec(), entry_rows(*self, cst_children(cst)))
    }

    open spec fn edited(&self, cst: CstV, op: EditOpV) -> (CstV, Result<(), EditErrorV>) {
        hosts_edit(cst, op)
    }

    fn manifest(&self) -> (r: &PluginManifest) {
        &self.manifest
    }

    fn parse(&self, text: &str) -> (r: Result<CstNode, ParseError>) {
        let lines = parse_hosts_cst(text);
        proof {
            crate::text::lemma_utf8_len_is_encoding_len(text@);
        }
        Ok(CstNode::rule(SyntaxKind::Document, lines, Span::new(0, text.len())))
    }

    fn to_ir(&self, cst: &CstNode) -> (r: Result<ConfigDocumentIr, BindError>) {
        let rows = bind_rows(self, cst);
        Ok(doc_ir(&self.manifest, rows))
    }

    fn apply_edit(&self, cst: &mut CstNode, op: &EditOp) -> (r: Result<(), EditError>) {
        match op {
            EditOp::UpdateField { row_id, field_name, new_value } => hosts_update(cst, row_id, field_name, new_value),
            EditOp::DeleteRow { row_id } => delete_row(cst, row_id),
            EditOp::InsertRow { after_row_id, fields } => hosts_insert(cst, after_row_id, fields),
            EditOp::MoveRow { row_id, after_row_id, before_row_id } => move_row(cst, row_id, after_row_id, before_row_id),
        }
    }
}

} // verus!

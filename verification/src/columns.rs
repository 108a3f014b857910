//! Whitespace-separated columns, the shape of `pg_hba.conf` and UFW rule
//! lines: each word becomes a token named after its column.
use vstd::prelude::*;

use crate::cst::{view_nodes, CstNode, KindV, SyntaxKind};
use crate::grammar::{
    content_end, content_end_exec, covers, error_line, error_line_exec, is_stop, lemma_covers_concat,
    lemma_covers_tok, lemma_error_line_covers, lemma_scan, line_view, make_line, offsets_ok,
    one_tok, opt_tok, push_opt_tok, push_tok, scan, scan_exec, toks_views, LineShape, Stop, Tok,
};
use crate::hosts::lemma_content_end;
use crate::sshd::lemma_lead_within_content;

verus! {

/// End of a `pg_hba.conf` word: a blank or `#` outside double quotes, or `ce`.
pub open spec fn quoted_word_end(s: Seq<char>, i: int, ce: int, in_quotes: bool) -> int
    decreases ce - i,
{
    if i >= ce {
        ce
    } else if s[i] == '"' {
        quoted_word_end(s, i + 1, ce, !in_quotes)
    } else if !in_quotes && (s[i] == ' ' || s[i] == '\t' || s[i] == '#') {
        i
    } else {
        quoted_word_end(s, i + 1, ce, in_quotes)
    }
}

pub open spec fn word_end(s: Seq<char>, i: int, ce: int, quoted: bool) -> int {
    if quoted {
        quoted_word_end(s, i, ce, false)
    } else {
        scan(s, i, ce, Stop::UfwWord)
    }
}

/// The words from `i` on, each as (start, end, end of the blanks after
/// it), and where a trailing comment starts (`ce` when there is none).
pub open spec fn words(s: Seq<char>, i: int, ce: int, quoted: bool) -> (Seq<(int, int, int)>, int)
    decreases ce - i,
{
    if i >= ce {
        (Seq::empty(), ce)
    } else if s[i] == '#' {
        (Seq::empty(), i)
    } else {
        let we = word_end(s, i, ce, quoted);
        let se = scan(s, we, ce, Stop::NonBlank);
        if se <= i || se > ce {
            (Seq::empty(), i)
        } else {
            let r = words(s, se, ce, quoted);
            (seq![(i, we, se)] + r.0, r.1)
        }
    }
}

/// Which column names a line's words get.
pub enum Columns {
    /// `pg_hba.conf`, connection type `local`: no address column.
    PgLocal,
    /// `pg_hba.conf`, other connection types.
    PgHost,
    /// UFW rules.
    Ufw,
}

pub open spec fn col_kind(c: Columns, k: int) -> KindV {
    match c {
        Columns::PgLocal => KindV::Custom(
            if k == 0 {
                "type"@
            } else if k == 1 {
                "database"@
            } else if k == 2 {
                "user"@
            } else if k == 3 {
                "method"@
            } else {
                "options"@
            },
        ),
        Columns::PgHost => KindV::Custom(
            if k == 0 {
                "type"@
            } else if k == 1 {
                "database"@
            } else if k == 2 {
                "user"@
            } else if k == 3 {
                "address"@
            } else if k == 4 {
                "method"@
            } else {
                "options"@
            },
        ),
        Columns::Ufw => KindV::Custom(
            if k == 0 {
                "action"@
            } else if k == 1 {
                "direction"@
            } else if k == 2 {
                "proto"@
            } else if k == 3 {
                "from"@
            } else if k == 4 {
                "to"@
            } else if k == 5 {
                "port"@
            } else {
                "extra"@
            },
        ),
    }
}

/// The tokens of the words: each word, then the blanks after it if any.
pub open spec fn word_toks(ws: Seq<(int, int, int)>, c: Columns) -> Seq<Tok>
    decreases ws.len(),
{
    if ws.len() == 0 {
        Seq::empty()
    } else {
        let l = ws[ws.len() - 1];
        word_toks(ws.subrange(0, ws.len() - 1), c) + one_tok(col_kind(c, ws.len() - 1), l.0, l.1)
            + opt_tok(KindV::Whitespace, l.1, l.2)
    }
}

/// A line of columns: leading blanks, the words, an optional comment, the
/// line break; or an error line when there are fewer than `min` words.
pub open spec fn columns_shape(s: Seq<char>, ls: int, le: int, ws: Seq<(int, int, int)>, cs: int, c: Columns, min: nat) -> LineShape {
    let ce = content_end(s, ls, le);
    let w = scan(s, ls, le, Stop::NonBlank);
    if ws.len() == 0 || ws.len() < min {
        error_line(s, ls, le, w)
    } else {
        LineShape {
            kind: KindV::Entry,
            toks: opt_tok(KindV::Whitespace, ls, w) + word_toks(ws, c) + opt_tok(KindV::Comment, cs, ce)
                + opt_tok(KindV::Newline, ce, le),
        }
    }
}

/// The blank-line and comment-line cases every column grammar shares, then
/// `body` for everything else.
pub open spec fn blank_or_comment(s: Seq<char>, ls: int, le: int, body: LineShape) -> LineShape {
    let ce = content_end(s, ls, le);
    let nl = opt_tok(KindV::Newline, ce, le);
    let w = scan(s, ls, le, Stop::NonBlank);
    let lead = opt_tok(KindV::Whitespace, ls, w);
    if ls >= le {
        LineShape { kind: KindV::BlankLine, toks: Seq::empty() }
    } else if w >= ce {
        LineShape { kind: KindV::BlankLine, toks: lead + nl }
    } else if s[w] == '#' {
        LineShape { kind: KindV::CommentLine, toks: lead + one_tok(KindV::Comment, w, ce) + nl }
    } else {
        body
    }
}

pub proof fn lemma_quoted_word_end(s: Seq<char>, i: int, ce: int, q: bool)
    requires
        i <= ce,
    ensures
        i <= quoted_word_end(s, i, ce, q) <= ce,
        i < ce && s[i] == '"' ==> i < quoted_word_end(s, i, ce, q),
        i < ce && !q && !(s[i] == ' ' || s[i] == '\t' || s[i] == '#') ==> i < quoted_word_end(s, i, ce, q),
    decreases ce - i,
{
    if i < ce {
        if s[i] == '"' {
            lemma_quoted_word_end(s, i + 1, ce, !q);
        } else if !(!q && (s[i] == ' ' || s[i] == '\t' || s[i] == '#')) {
            lemma_quoted_word_end(s, i + 1, ce, q);
        }
    }
}

pub proof fn lemma_word_end(s: Seq<char>, i: int, ce: int, quoted: bool)
    requires
        i <= ce,
    ensures
        i <= word_end(s, i, ce, quoted) <= ce,
{
    if quoted {
        lemma_quoted_word_end(s, i, ce, false);
    } else {
        lemma_scan(s, i, ce, Stop::UfwWord);
    }
}

/// Consecutive word ranges from `i` to `e`.
pub open spec fn chained(ws: Seq<(int, int, int)>, i: int, e: int) -> bool {
    &&& ws.len() == 0 ==> i == e
    &&& ws.len() > 0 ==> ws[0].0 == i && ws[ws.len() - 1].2 == e
    &&& forall|k: int| 0 <= k < ws.len() ==> (#[trigger] ws[k]).0 <= ws[k].1 <= ws[k].2
    &&& forall|k: int| 0 <= k < ws.len() - 1 ==> (#[trigger] ws[k]).2 == ws[k + 1].0
}

pub proof fn lemma_words(s: Seq<char>, i: int, ce: int, quoted: bool)
    requires
        i <= ce,
    ensures
        i <= words(s, i, ce, quoted).1 <= ce,
        words(s, i, ce, quoted).1 < ce ==> s[words(s, i, ce, quoted).1] == '#',
        chained(words(s, i, ce, quoted).0, i, words(s, i, ce, quoted).1),
    decreases ce - i,
{
    if i < ce && s[i] != '#' {
        let we = word_end(s, i, ce, quoted);
        lemma_word_end(s, i, ce, quoted);
        let se = scan(s, we, ce, Stop::NonBlank);
        lemma_scan(s, we, ce, Stop::NonBlank);
        if quoted {
            lemma_quoted_word_end(s, i, ce, false);
        } else {
            lemma_scan(s, i, ce, Stop::UfwWord);
        }
        assert(se > i);
        if !(se <= i || se > ce) {
            lemma_words(s, se, ce, quoted);
            let r = words(s, se, ce, quoted);
            let ws = seq![(i, we, se)] + r.0;
            assert forall|k: int| 0 <= k < ws.len() implies (#[trigger] ws[k]).0 <= ws[k].1 <= ws[k].2 by {
                if k > 0 {
                    assert(ws[k] == r.0[k - 1]);
                }
            }
            assert forall|k: int| 0 <= k < ws.len() - 1 implies (#[trigger] ws[k]).2 == ws[k + 1].0 by {
                assert(ws[k + 1] == r.0[k]);
                if k > 0 {
                    assert(ws[k] == r.0[k - 1]);
                }
            }
        }
    }
}

/// The tokens of the first `j` words cover them.
pub proof fn lemma_word_toks_covers(ws: Seq<(int, int, int)>, c: Columns, i: int, e: int)
    requires
        chained(ws, i, e),
    ensures
        covers(word_toks(ws, c), i, e),
    decreases ws.len(),
{
    if ws.len() > 0 {
        let n = ws.len() - 1;
        let pre = ws.subrange(0, n);
        let l = ws[n];
        let pe = if n == 0 { i } else { ws[n - 1].2 };
        assert(chained(pre, i, pe)) by {
            assert forall|k: int| 0 <= k < pre.len() implies (#[trigger] pre[k]).0 <= pre[k].1 <= pre[k].2 by {
                assert(pre[k] == ws[k]);
            }
            assert forall|k: int| 0 <= k < pre.len() - 1 implies (#[trigger] pre[k]).2 == pre[k + 1].0 by {
                assert(pre[k] == ws[k]);
                assert(pre[k + 1] == ws[k + 1]);
            }
        }
        lemma_word_toks_covers(pre, c, i, pe);
        assert(l.0 == pe);
        lemma_covers_tok(col_kind(c, n), l.0, l.1);
        lemma_covers_tok(KindV::Whitespace, l.1, l.2);
        lemma_covers_concat(word_toks(pre, c), one_tok(col_kind(c, n), l.0, l.1), i, pe, l.1);
        lemma_covers_concat(
            word_toks(pre, c) + one_tok(col_kind(c, n), l.0, l.1),
            opt_tok(KindV::Whitespace, l.1, l.2),
            i,
            l.1,
            l.2,
        );
    }
}

pub proof fn lemma_blank_or_comment_covers(s: Seq<char>, ls: int, le: int, body: LineShape)
    requires
        0 <= ls < le <= s.len(),
        scan(s, ls, le, Stop::NonBlank) < content_end(s, ls, le) && s[scan(s, ls, le, Stop::NonBlank)]
            != '#' ==> covers(body.toks, ls, le),
    ensures
        covers(blank_or_comment(s, ls, le, body).toks, ls, le),
{
    let ce = content_end(s, ls, le);
    lemma_content_end(s, ls, le);
    lemma_lead_within_content(s, ls, le);
    let nl = opt_tok(KindV::Newline, ce, le);
    lemma_covers_tok(KindV::Newline, ce, le);
    let w = scan(s, ls, le, Stop::NonBlank);
    let lead = opt_tok(KindV::Whitespace, ls, w);
    lemma_covers_tok(KindV::Whitespace, ls, w);
    if w >= ce {
        lemma_covers_concat(lead, nl, ls, ce, le);
    } else if s[w] == '#' {
        lemma_covers_tok(KindV::Comment, w, ce);
        lemma_covers_concat(lead, one_tok(KindV::Comment, w, ce), ls, w, ce);
        lemma_covers_concat(lead + one_tok(KindV::Comment, w, ce), nl, ls, ce, le);
    }
}

pub proof fn lemma_columns_covers(s: Seq<char>, ls: int, le: int, quoted: bool, c: Columns, min: nat)
    requires
        0 <= ls < le <= s.len(),
        scan(s, ls, le, Stop::NonBlank) < content_end(s, ls, le),
    ensures
        ({
            let w = scan(s, ls, le, Stop::NonBlank);
            let ce = content_end(s, ls, le);
            let r = words(s, w, ce, quoted);
            covers(columns_shape(s, ls, le, r.0, r.1, c, min).toks, ls, le)
        }),
{
    let w = scan(s, ls, le, Stop::NonBlank);
    let ce = content_end(s, ls, le);
    lemma_content_end(s, ls, le);
    lemma_lead_within_content(s, ls, le);
    let r = words(s, w, ce, quoted);
    lemma_words(s, w, ce, quoted);
    if r.0.len() == 0 || r.0.len() < min {
        lemma_error_line_covers(s, ls, le, w);
    } else {
        let lead = opt_tok(KindV::Whitespace, ls, w);
        lemma_covers_tok(KindV::Whitespace, ls, w);
        lemma_word_toks_covers(r.0, c, w, r.1);
        lemma_covers_concat(lead, word_toks(r.0, c), ls, w, r.1);
        lemma_covers_tok(KindV::Comment, r.1, ce);
        lemma_covers_concat(lead + word_toks(r.0, c), opt_tok(KindV::Comment, r.1, ce), ls, r.1, ce);
        lemma_covers_tok(KindV::Newline, ce, le);
        lemma_covers_concat(
            lead + word_toks(r.0, c) + opt_tok(KindV::Comment, r.1, ce),
            opt_tok(KindV::Newline, ce, le),
            ls,
            ce,
            le,
        );
    }
}

pub open spec fn word_views(v: Seq<(usize, usize, usize)>) -> Seq<(int, int, int)> {
    v.map_values(|t: (usize, usize, usize)| (t.0 as int, t.1 as int, t.2 as int))
}

/// Runs `words(chars, i, ce, quoted)`.
pub fn words_exec(chars: &Vec<char>, i: usize, ce: usize, quoted: bool) -> (r: (Vec<(usize, usize, usize)>, usize))
    requires
        i <= ce <= chars@.len(),
    ensures
        (word_views(r.0@), r.1 as int) == words(chars@, i as int, ce as int, quoted),
{
    let ghost s = chars@;
    let mut out: Vec<(usize, usize, usize)> = Vec::new();
    let mut idx = i;
    proof {
        assert(word_views(out@) =~= Seq::<(int, int, int)>::empty());
        assert(words(s, i as int, ce as int, quoted).0 =~= word_views(out@) + words(s, idx as int, ce as int, quoted).0);
    }
    while idx < ce && chars[idx] != '#'
        invariant
            i <= idx <= ce <= chars@.len(),
            chars@ == s,
            words(s, i as int, ce as int, quoted) == (
                word_views(out@) + words(s, idx as int, ce as int, quoted).0,
                words(s, idx as int, ce as int, quoted).1,
            ),
        decreases ce - idx,
    {
        let we = if quoted {
            let mut k = idx;
            let mut in_q = false;
            while k < ce && !(!in_q && (chars[k] == ' ' || chars[k] == '\t' || chars[k] == '#'))
                invariant
                    idx <= k <= ce <= chars@.len(),
                    chars@ == s,
                    quoted_word_end(s, k as int, ce as int, in_q) == quoted_word_end(
                        s,
                        idx as int,
                        ce as int,
                        false,
                    ),
                decreases ce - k,
            {
                if chars[k] == '"' {
                    in_q = !in_q;
                }
                k = k + 1;
            }
            k
        } else {
            scan_exec(chars, idx, ce, Stop::UfwWord)
        };
        proof {
            lemma_word_end(s, idx as int, ce as int, quoted);
        }
        let se = scan_exec(chars, we, ce, Stop::NonBlank);
        proof {
            lemma_scan(s, we as int, ce as int, Stop::NonBlank);
            if quoted {
                lemma_quoted_word_end(s, idx as int, ce as int, false);
            } else {
                lemma_scan(s, idx as int, ce as int, Stop::UfwWord);
            }
            assert(se > idx);
        }
        let ghost before = out@;
        out.push((idx, we, se));
        proof {
            assert(word_views(out@) =~= word_views(before) + seq![(idx as int, we as int, se as int)]);
        }
        idx = se;
    }
    proof {
        assert(words(s, idx as int, ce as int, quoted).0 =~= Seq::<(int, int, int)>::empty());
        assert(word_views(out@) + Seq::<(int, int, int)>::empty() =~= word_views(out@));
    }
    (out, idx)
}

pub fn col_kind_exec(c: &Columns, k: usize) -> (r: SyntaxKind)
    ensures
        r@ == col_kind(*c, k as int),
{
    let name = match c {
        Columns::PgLocal => if k == 0 {
            "type"
        } else if k == 1 {
            "database"
        } else if k == 2 {
            "user"
        } else if k == 3 {
            "method"
        } else {
            "options"
        },
        Columns::PgHost => if k == 0 {
            "type"
        } else if k == 1 {
            "database"
        } else if k == 2 {
            "user"
        } else if k == 3 {
            "address"
        } else if k == 4 {
            "method"
        } else {
            "options"
        },
        Columns::Ufw => if k == 0 {
            "action"
        } else if k == 1 {
            "direction"
        } else if k == 2 {
            "proto"
        } else if k == 3 {
            "from"
        } else if k == 4 {
            "to"
        } else if k == 5 {
            "port"
        } else {
            "extra"
        },
    };
    SyntaxKind::custom(name)
}

/// The node of a column line whose words are known.
pub fn columns_line_exec(
    chars: &Vec<char>,
    offs: &Vec<usize>,
    ls: usize,
    le: usize,
    ws: &Vec<(usize, usize, usize)>,
    cs: usize,
    c: Columns,
    min: usize,
) -> (r: CstNode)
    requires
        offsets_ok(chars@, offs@),
        0 <= ls < le <= chars@.len(),
        scan(chars@, ls as int, le as int, Stop::NonBlank) < content_end(chars@, ls as int, le as int),
        (word_views(ws@), cs as int) == words(
            chars@,
            scan(chars@, ls as int, le as int, Stop::NonBlank),
            content_end(chars@, ls as int, le as int),
            c !is Ufw,
        ),
    ensures
        r@ == line_view(
            chars@,
            ls as int,
            le as int,
            columns_shape(chars@, ls as int, le as int, word_views(ws@), cs as int, c, min as nat),
        ),
{
    let ghost s = chars@;
    proof {
        lemma_content_end(s, ls as int, le as int);
        lemma_lead_within_content(s, ls as int, le as int);
    }
    let ce = content_end_exec(chars, ls, le);
    let w = scan_exec(chars, ls, le, Stop::NonBlank);
    proof {
        lemma_words(s, w as int, ce as int, c !is Ufw);
    }
    if ws.len() == 0 || ws.len() < min {
        return error_line_exec(chars, offs, ls, le, w);
    }
    let mut toks: Vec<CstNode> = Vec::new();
    assert(view_nodes(toks@) =~= toks_views(s, Seq::<Tok>::empty()));
    push_opt_tok(&mut toks, Ghost(Seq::empty()), SyntaxKind::Whitespace, chars, offs, ls, w);
    let ghost lead = Seq::<Tok>::empty() + opt_tok(KindV::Whitespace, ls as int, w as int);
    let ghost wv = word_views(ws@);
    let mut j: usize = 0;
    assert(wv.subrange(0, 0) =~= Seq::<(int, int, int)>::empty());
    while j < ws.len()
        invariant
            offsets_ok(s, offs@),
            chars@ == s,
            j <= ws@.len(),
            wv == word_views(ws@),
            chained(wv, w as int, cs as int),
            cs <= ce <= s.len(),
            view_nodes(toks@) == toks_views(s, lead + word_toks(wv.subrange(0, j as int), c)),
        decreases ws@.len() - j,
    {
        let (a, b, e) = ws[j];
        assert(wv[j as int] == (a as int, b as int, e as int));
        assert(e <= cs) by {
            if j + 1 < ws.len() {
                assert(wv[j as int].2 == wv[j + 1].0);
                assert(wv[j + 1].0 <= wv[j + 1].1 <= wv[j + 1].2);
            }
            assert forall|k: int| j <= k < wv.len() implies #[trigger] wv[k].2 <= cs by {
                lemma_chain_bound(wv, w as int, cs as int, k);
            }
        }
        let kind = col_kind_exec(&c, j);
        let ghost t0 = lead + word_toks(wv.subrange(0, j as int), c);
        push_tok(&mut toks, Ghost(t0), kind, chars, offs, a, b);
        let ghost t1 = t0.push(Tok { kind: col_kind(c, j as int), start: a as int, end: b as int });
        push_opt_tok(&mut toks, Ghost(t1), SyntaxKind::Whitespace, chars, offs, b, e);
        proof {
            let sub = wv.subrange(0, j + 1);
            assert(sub.subrange(0, j as int) =~= wv.subrange(0, j as int));
            assert(sub[j as int] == wv[j as int]);
            assert(t1 + opt_tok(KindV::Whitespace, b as int, e as int) =~= lead + word_toks(sub, c));
        }
        j = j + 1;
    }
    assert(wv.subrange(0, ws@.len() as int) =~= wv);
    let ghost t2 = lead + word_toks(wv, c);
    push_opt_tok(&mut toks, Ghost(t2), SyntaxKind::Comment, chars, offs, cs, ce);
    let ghost t3 = t2 + opt_tok(KindV::Comment, cs as int, ce as int);
    push_opt_tok(&mut toks, Ghost(t3), SyntaxKind::Newline, chars, offs, ce, le);
    let ghost t4 = t3 + opt_tok(KindV::Newline, ce as int, le as int);
    assert(lead =~= opt_tok(KindV::Whitespace, ls as int, w as int));
    assert(t4 =~= columns_shape(s, ls as int, le as int, wv, cs as int, c, min as nat).toks);
    make_line(SyntaxKind::Entry, toks, Ghost(t4), chars, offs, ls, le)
}

proof fn lemma_chain_bound(ws: Seq<(int, int, int)>, i: int, e: int, k: int)
    requires
        chained(ws, i, e),
        0 <= k < ws.len(),
    ensures
        ws[k].2 <= e,
    decreases ws.len() - k,
{
    if k < ws.len() - 1 {
        lemma_chain_bound(ws, i, e, k + 1);
        assert(ws[k].2 == ws[k + 1].0);
    }
}

/// The blank-line and comment-line nodes every column grammar shares.
pub fn blank_or_comment_exec(chars: &Vec<char>, offs: &Vec<usize>, ls: usize, le: usize, Ghost(body): Ghost<LineShape>) -> (r: CstNode)
    requires
        offsets_ok(chars@, offs@),
        0 <= ls < le <= chars@.len(),
        !(scan(chars@, ls as int, le as int, Stop::NonBlank) < content_end(chars@, ls as int, le as int)
            && chars@[scan(chars@, ls as int, le as int, Stop::NonBlank)] != '#'),
    ensures
        r@ == line_view(chars@, ls as int, le as int, blank_or_comment(chars@, ls as int, le as int, body)),
{
    let ghost s = chars@;
    proof {
        lemma_content_end(s, ls as int, le as int);
        lemma_lead_within_content(s, ls as int, le as int);
    }
    let ce = content_end_exec(chars, ls, le);
    let w = scan_exec(chars, ls, le, Stop::NonBlank);
    let mut toks: Vec<CstNode> = Vec::new();
    assert(view_nodes(toks@) =~= toks_views(s, Seq::<Tok>::empty()));
    push_opt_tok(&mut toks, Ghost(Seq::empty()), SyntaxKind::Whitespace, chars, offs, ls, w);
    let ghost lead = Seq::<Tok>::empty() + opt_tok(KindV::Whitespace, ls as int, w as int);
    assert(lead =~= opt_tok(KindV::Whitespace, ls as int, w as int));
    if w >= ce {
        push_opt_tok(&mut toks, Ghost(lead), SyntaxKind::Newline, chars, offs, ce, le);
        return make_line(
            SyntaxKind::BlankLine,
            toks,
            Ghost(lead + opt_tok(KindV::Newline, ce as int, le as int)),
            chars,
            offs,
            ls,
            le,
        );
    }
    push_tok(&mut toks, Ghost(lead), SyntaxKind::Comment, chars, offs, w, ce);
    let ghost t = lead.push(Tok { kind: KindV::Comment, start: w as int, end: ce as int });
    push_opt_tok(&mut toks, Ghost(t), SyntaxKind::Newline, chars, offs, ce, le);
    assert(t =~= lead + one_tok(KindV::Comment, w as int, ce as int));
    make_line(
        SyntaxKind::CommentLine,
        toks,
        Ghost(t + opt_tok(KindV::Newline, ce as int, le as int)),
        chars,
        offs,
        ls,
        le,
    )
}

} // verus!

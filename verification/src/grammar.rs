//! What the line-oriented grammars share: splitting a document into lines,
//! scanning runs of characters, and turning a planned list of token ranges
//! into CST nodes. The lossless property of every grammar rests on
//! [`lemma_doc_lossless`].
use vstd::prelude::*;

use crate::cst::{
    cst_text, cst_texts, lemma_cst_texts_concat, lemma_cst_texts_push, lemma_view_nodes, view_node,
    view_nodes, CstNode, CstV, KindV, Span, SyntaxKind,
};
use crate::text::{lemma_utf8_len_prefix, utf8_len};

verus! {

/// A planned token: its kind and the character range `start..end` it covers.
pub struct Tok {
    pub kind: KindV,
    pub start: int,
    pub end: int,
}

/// A planned line node: its kind and its tokens.
pub struct LineShape {
    pub kind: KindV,
    pub toks: Seq<Tok>,
}

/// Which characters stop a scan.
pub enum Stop {
    /// Anything but a space or a tab.
    NonBlank,
    /// A space, tab, `#`, `\r` or `\n` (hosts addresses and names).
    HostsWord,
    /// A space, tab, `=` or `#` (sshd keywords).
    SshdKey,
    /// A space, tab or `#` (ufw columns).
    UfwWord,
}

pub open spec fn is_stop(set: Stop, c: char) -> bool {
    match set {
        Stop::NonBlank => !(c == ' ' || c == '\t'),
        Stop::HostsWord => c == ' ' || c == '\t' || c == '#' || c == '\r' || c == '\n',
        Stop::SshdKey => c == ' ' || c == '\t' || c == '=' || c == '#',
        Stop::UfwWord => c == ' ' || c == '\t' || c == '#',
    }
}

/// The first index at or after `i` (and before `end`) whose character stops
/// the scan, or `end`.
pub open spec fn scan(s: Seq<char>, i: int, end: int, set: Stop) -> int
    decreases end - i,
{
    if i >= end {
        i
    } else if is_stop(set, s[i]) {
        i
    } else {
        scan(s, i + 1, end, set)
    }
}

pub proof fn lemma_scan(s: Seq<char>, i: int, end: int, set: Stop)
    requires
        i <= end,
    ensures
        i <= scan(s, i, end, set) <= end,
        forall|k: int| i <= k < scan(s, i, end, set) ==> !is_stop(set, #[trigger] s[k]),
        scan(s, i, end, set) < end ==> is_stop(set, s[scan(s, i, end, set)]),
    decreases end - i,
{
    if i < end && !is_stop(set, s[i]) {
        lemma_scan(s, i + 1, end, set);
    }
}

/// Index just past the first `\n` at or after `i`, or the end of `s`.
pub open spec fn line_end(s: Seq<char>, i: int) -> int
    decreases s.len() - i,
{
    if i >= s.len() {
        s.len() as int
    } else if s[i] == '\n' {
        i + 1
    } else {
        line_end(s, i + 1)
    }
}

pub proof fn lemma_line_end(s: Seq<char>, i: int)
    requires
        0 <= i <= s.len(),
    ensures
        line_end(s, i) <= s.len(),
        i < s.len() ==> i < line_end(s, i),
    decreases s.len() - i,
{
    if i < s.len() && s[i] != '\n' {
        lemma_line_end(s, i + 1);
    }
}

/// The `(start, end)` ranges of the lines of `s` from `i` on; each line
/// keeps its `\n`.
pub open spec fn lines_from(s: Seq<char>, i: int) -> Seq<(int, int)>
    decreases s.len() - i,
{
    if i < 0 || i >= s.len() {
        Seq::empty()
    } else {
        let e = line_end(s, i);
        if e <= i || e > s.len() {
            Seq::empty()
        } else {
            seq![(i, e)] + lines_from(s, e)
        }
    }
}

/// Where the text of a line stops: before a trailing `\r\n`, before a
/// trailing `\n`, or at its end.
pub open spec fn content_end(s: Seq<char>, ls: int, le: int) -> int {
    if le - ls >= 2 && s[le - 2] == '\r' && s[le - 1] == '\n' {
        le - 2
    } else if le - ls >= 1 && s[le - 1] == '\n' {
        le - 1
    } else {
        le
    }
}

/// Byte offset of character `i`.
pub open spec fn boff(s: Seq<char>, i: int) -> usize {
    utf8_len(s.subrange(0, i)) as usize
}

pub open spec fn tok_view(s: Seq<char>, t: Tok) -> CstV {
    CstV::Token {
        kind: t.kind,
        text: s.subrange(t.start, t.end),
        span: Span { start: boff(s, t.start), end: boff(s, t.end) },
    }
}

pub open spec fn toks_views(s: Seq<char>, t: Seq<Tok>) -> Seq<CstV> {
    Seq::new(t.len(), |i: int| tok_view(s, t[i]))
}

/// The node a planned line becomes.
pub open spec fn line_view(s: Seq<char>, ls: int, le: int, shape: LineShape) -> CstV {
    CstV::Rule {
        kind: shape.kind,
        children: toks_views(s, shape.toks),
        span: Span { start: boff(s, ls), end: boff(s, le) },
    }
}

/// A one-token plan, or nothing when the range is empty.
pub open spec fn opt_tok(kind: KindV, a: int, b: int) -> Seq<Tok> {
    if a < b {
        seq![Tok { kind, start: a, end: b }]
    } else {
        Seq::empty()
    }
}

pub open spec fn one_tok(kind: KindV, a: int, b: int) -> Seq<Tok> {
    seq![Tok { kind, start: a, end: b }]
}

/// The tokens follow one another without gap or overlap from `x` to `y`.
pub open spec fn covers(t: Seq<Tok>, x: int, y: int) -> bool
    decreases t.len(),
{
    if t.len() == 0 {
        x == y
    } else {
        &&& t[0].start == x
        &&& t[0].start <= t[0].end
        &&& covers(t.subrange(1, t.len() as int), t[0].end, y)
    }
}

pub proof fn lemma_covers_concat(a: Seq<Tok>, b: Seq<Tok>, x: int, y: int, z: int)
    requires
        covers(a, x, y),
        covers(b, y, z),
    ensures
        covers(a + b, x, z),
    decreases a.len(),
{
    if a.len() == 0 {
        assert(a + b =~= b);
    } else {
        lemma_covers_concat(a.subrange(1, a.len() as int), b, a[0].end, y, z);
        assert((a + b).subrange(1, (a + b).len() as int) =~= a.subrange(1, a.len() as int) + b);
    }
}

pub proof fn lemma_covers_tok(kind: KindV, a: int, b: int)
    requires
        a <= b,
    ensures
        covers(one_tok(kind, a, b), a, b),
        covers(opt_tok(kind, a, b), a, b),
{
    let t = one_tok(kind, a, b);
    assert(t.subrange(1, 1) =~= Seq::<Tok>::empty());
    assert(covers(Seq::<Tok>::empty(), b, b));
    assert(covers(t, a, b));
    if a < b {
        assert(opt_tok(kind, a, b) == t);
    }
}

/// Planned tokens that cover a range stand for exactly that range's text.
pub proof fn lemma_covers_text(s: Seq<char>, t: Seq<Tok>, x: int, y: int)
    requires
        covers(t, x, y),
        0 <= x,
        y <= s.len(),
    ensures
        x <= y,
        cst_texts(toks_views(s, t)) == s.subrange(x, y),
    decreases t.len(),
{
    if t.len() == 0 {
        assert(toks_views(s, t) =~= Seq::<CstV>::empty());
        assert(s.subrange(x, y) =~= Seq::<char>::empty());
    } else {
        let rest = t.subrange(1, t.len() as int);
        lemma_covers_text(s, rest, t[0].end, y);
        assert(toks_views(s, t) =~= seq![tok_view(s, t[0])] + toks_views(s, rest));
        lemma_cst_texts_concat(seq![tok_view(s, t[0])], toks_views(s, rest));
        assert(cst_texts(seq![tok_view(s, t[0])]) =~= cst_text(tok_view(s, t[0]))) by {
            lemma_cst_texts_push(Seq::<CstV>::empty(), tok_view(s, t[0]));
            assert(Seq::<CstV>::empty().push(tok_view(s, t[0])) =~= seq![tok_view(s, t[0])]);
        }
        assert(s.subrange(x, y) =~= s.subrange(x, t[0].end) + s.subrange(t[0].end, y));
    }
}

/// The four line grammars.
pub enum Grammar {
    Hosts,
    Sshd,
    PgHba,
    Ufw,
}

/// The plan a grammar makes for the line `s[ls..le]`.
#[verifier::opaque]
pub open spec fn shape_of(g: Grammar, s: Seq<char>, ls: int, le: int) -> LineShape {
    match g {
        Grammar::Hosts => crate::hosts::hosts_shape(s, ls, le),
        Grammar::Sshd => crate::sshd::sshd_shape(s, ls, le),
        Grammar::PgHba => crate::pg_hba::pg_hba_shape(s, ls, le),
        Grammar::Ufw => crate::ufw::ufw_shape(s, ls, le),
    }
}

/// The nodes a grammar makes of the given lines of `s`.
pub open spec fn doc_views(s: Seq<char>, lines: Seq<(int, int)>, g: Grammar) -> Seq<CstV> {
    Seq::new(
        lines.len(),
        |k: int| line_view(s, lines[k].0, lines[k].1, shape_of(g, s, lines[k].0, lines[k].1)),
    )
}

/// What a grammar's document parser returns for `s`: one node per line.
pub open spec fn parse_doc_spec(s: Seq<char>, g: Grammar) -> Seq<CstV> {
    doc_views(s, lines_from(s, 0), g)
}

pub proof fn lemma_lines_from(s: Seq<char>, i: int)
    requires
        0 <= i <= s.len(),
    ensures
        forall|k: int| 0 <= k < lines_from(s, i).len() ==> i <= (#[trigger] lines_from(s, i)[k]).0
            < lines_from(s, i)[k].1 <= s.len(),
        forall|k: int|
            0 <= k < lines_from(s, i).len() - 1 ==> (#[trigger] lines_from(s, i)[k]).1 == lines_from(
                s,
                i,
            )[k + 1].0,
        lines_from(s, i).len() == 0 <==> i == s.len(),
        lines_from(s, i).len() > 0 ==> lines_from(s, i)[0].0 == i && lines_from(s, i)[lines_from(
            s,
            i,
        ).len() - 1].1 == s.len(),
    decreases s.len() - i,
{
    if i < s.len() {
        lemma_line_end(s, i);
        let e = line_end(s, i);
        lemma_lines_from(s, e);
        let rest = lines_from(s, e);
        assert(lines_from(s, i) == seq![(i, e)] + rest);
        assert forall|k: int| 0 <= k < lines_from(s, i).len() implies i <= (#[trigger] lines_from(
            s,
            i,
        )[k]).0 < lines_from(s, i)[k].1 <= s.len() by {
            if k > 0 {
                assert(lines_from(s, i)[k] == rest[k - 1]);
            }
        }
        assert forall|k: int| 0 <= k < lines_from(s, i).len() - 1 implies (#[trigger] lines_from(
            s,
            i,
        )[k]).1 == lines_from(s, i)[k + 1].0 by {
            if k > 0 {
                assert(lines_from(s, i)[k] == rest[k - 1]);
            }
            assert(lines_from(s, i)[k + 1] == rest[k]);
        }
    }
}

/// Every character of `s` lands in exactly one token, in order, as long as
/// each planned line covers its own range.
pub proof fn lemma_doc_lossless(s: Seq<char>, g: Grammar)
    requires
        forall|a: int, b: int| 0 <= a < b <= s.len() ==> covers(#[trigger] shape_of(g, s, a, b).toks, a, b),
    ensures
        cst_texts(parse_doc_spec(s, g)) == s,
{
    lemma_doc_lossless_from(s, g, 0);
    assert(s.subrange(0, s.len() as int) =~= s);
}

proof fn lemma_doc_lossless_from(s: Seq<char>, g: Grammar, i: int)
    requires
        0 <= i <= s.len(),
        forall|a: int, b: int| 0 <= a < b <= s.len() ==> covers(#[trigger] shape_of(g, s, a, b).toks, a, b),
    ensures
        cst_texts(doc_views(s, lines_from(s, i), g)) == s.subrange(i, s.len() as int),
    decreases s.len() - i,
{
    lemma_lines_from(s, i);
    if i == s.len() {
        assert(doc_views(s, lines_from(s, i), g) =~= Seq::<CstV>::empty());
        assert(s.subrange(i, s.len() as int) =~= Seq::<char>::empty());
    } else {
        lemma_line_end(s, i);
        let e = line_end(s, i);
        lemma_doc_lossless_from(s, g, e);
        let ls = lines_from(s, i);
        assert(ls == seq![(i, e)] + lines_from(s, e));
        let first = line_view(s, i, e, shape_of(g, s, i, e));
        assert(doc_views(s, ls, g) =~= seq![first] + doc_views(s, lines_from(s, e), g));
        lemma_cst_texts_concat(seq![first], doc_views(s, lines_from(s, e), g));
        lemma_cst_texts_push(Seq::<CstV>::empty(), first);
        assert(Seq::<CstV>::empty().push(first) =~= seq![first]);
        lemma_covers_text(s, shape_of(g, s, i, e).toks, i, e);
        assert(s.subrange(i, s.len() as int) =~= s.subrange(i, e) + s.subrange(e, s.len() as int));
    }
}

/// `offs[i]` is the byte offset of character `i` of `s`.
pub open spec fn offsets_ok(s: Seq<char>, offs: Seq<usize>) -> bool {
    &&& offs.len() == s.len() + 1
    &&& forall|i: int| 0 <= i <= s.len() ==> #[trigger] offs[i] == utf8_len(s.subrange(0, i))
}

/// Appends the token a plan entry stands for.
pub fn push_tok(
    out: &mut Vec<CstNode>,
    Ghost(toks): Ghost<Seq<Tok>>,
    kind: SyntaxKind,
    chars: &Vec<char>,
    offs: &Vec<usize>,
    a: usize,
    b: usize,
)
    requires
        view_nodes(old(out)@) == toks_views(chars@, toks),
        offsets_ok(chars@, offs@),
        a <= b <= chars@.len(),
    ensures
        view_nodes(final(out)@) == toks_views(
            chars@,
            toks.push(Tok { kind: kind@, start: a as int, end: b as int }),
        ),
{
    let text = crate::text::string_of(chars, a, b);
    let node = CstNode::Token { kind, text, span: Span { start: offs[a], end: offs[b] } };
    let ghost before = out@;
    out.push(node);
    proof {
        lemma_view_nodes(out@);
        lemma_view_nodes(before);
        let t2 = toks.push(Tok { kind: kind@, start: a as int, end: b as int });
        assert(out@[out@.len() - 1] == node);
        assert forall|i: int| 0 <= i < t2.len() implies #[trigger] view_nodes(out@)[i] == tok_view(
            chars@,
            t2[i],
        ) by {
            if i < toks.len() {
                assert(out@[i] == before[i]);
                assert(view_nodes(before)[i] == toks_views(chars@, toks)[i]);
            }
        }
        assert(view_nodes(out@) =~= toks_views(chars@, t2));
    }
}

/// Appends the planned tokens of an optional range.
pub fn push_opt_tok(
    out: &mut Vec<CstNode>,
    Ghost(toks): Ghost<Seq<Tok>>,
    kind: SyntaxKind,
    chars: &Vec<char>,
    offs: &Vec<usize>,
    a: usize,
    b: usize,
)
    requires
        view_nodes(old(out)@) == toks_views(chars@, toks),
        offsets_ok(chars@, offs@),
        a <= b <= chars@.len(),
    ensures
        view_nodes(final(out)@) == toks_views(chars@, toks + opt_tok(kind@, a as int, b as int)),
{
    if a < b {
        push_tok(out, Ghost(toks), kind, chars, offs, a, b);
        assert(toks.push(Tok { kind: kind@, start: a as int, end: b as int }) =~= toks + opt_tok(
            kind@,
            a as int,
            b as int,
        ));
    } else {
        assert(toks + opt_tok(kind@, a as int, b as int) =~= toks);
    }
}

/// The node of a planned line.
pub fn make_line(
    kind: SyntaxKind,
    tokens: Vec<CstNode>,
    Ghost(toks): Ghost<Seq<Tok>>,
    chars: &Vec<char>,
    offs: &Vec<usize>,
    ls: usize,
    le: usize,
) -> (r: CstNode)
    requires
        view_nodes(tokens@) == toks_views(chars@, toks),
        offsets_ok(chars@, offs@),
        ls <= le <= chars@.len(),
    ensures
        r@ == line_view(chars@, ls as int, le as int, LineShape { kind: kind@, toks }),
{
    CstNode::rule(kind, tokens, Span { start: offs[ls], end: offs[le] })
}

/// Runs the scan `scan(s, i, end, set)`.
pub fn scan_exec(chars: &Vec<char>, i: usize, end: usize, set: Stop) -> (r: usize)
    requires
        i <= end <= chars@.len(),
    ensures
        r == scan(chars@, i as int, end as int, set),
        i <= r <= end,
{
    proof {
        lemma_scan(chars@, i as int, end as int, set);
    }
    let mut k = i;
    while k < end && !stop_exec(&set, chars[k])
        invariant
            i <= k <= end <= chars@.len(),
            scan(chars@, k as int, end as int, set) == scan(chars@, i as int, end as int, set),
        decreases end - k,
    {
        k = k + 1;
    }
    k
}

pub fn stop_exec(set: &Stop, c: char) -> (r: bool)
    ensures
        r == is_stop(*set, c),
{
    match set {
        Stop::NonBlank => !(c == ' ' || c == '\t'),
        Stop::HostsWord => c == ' ' || c == '\t' || c == '#' || c == '\r' || c == '\n',
        Stop::SshdKey => c == ' ' || c == '\t' || c == '=' || c == '#',
        Stop::UfwWord => c == ' ' || c == '\t' || c == '#',
    }
}

pub fn content_end_exec(chars: &Vec<char>, ls: usize, le: usize) -> (r: usize)
    requires
        ls <= le <= chars@.len(),
    ensures
        r == content_end(chars@, ls as int, le as int),
        ls <= r <= le,
{
    if le - ls >= 2 && chars[le - 2] == '\r' && chars[le - 1] == '\n' {
        le - 2
    } else if le - ls >= 1 && chars[le - 1] == '\n' {
        le - 1
    } else {
        le
    }
}

pub fn line_end_exec(chars: &Vec<char>, i: usize) -> (r: usize)
    requires
        i < chars@.len(),
    ensures
        r == line_end(chars@, i as int),
        i < r <= chars@.len(),
{
    proof {
        lemma_line_end(chars@, i as int);
    }
    let mut k = i;
    while k < chars.len() && chars[k] != '\n'
        invariant
            i <= k <= chars@.len(),
            line_end(chars@, k as int) == line_end(chars@, i as int),
        decreases chars@.len() - k,
    {
        k = k + 1;
    }
    if k < chars.len() {
        k + 1
    } else {
        k
    }
}

} // verus!

verus! {

/// Every grammar's plan covers its line.
pub proof fn lemma_grammar_covers(g: Grammar, s: Seq<char>)
    ensures
        forall|a: int, b: int| 0 <= a < b <= s.len() ==> covers(#[trigger] shape_of(g, s, a, b).toks, a, b),
{
    assert forall|a: int, b: int| 0 <= a < b <= s.len() implies covers(
        #[trigger] shape_of(g, s, a, b).toks,
        a,
        b,
    ) by {
        reveal(shape_of);
        match g {
            Grammar::Hosts => crate::hosts::lemma_hosts_covers(s, a, b),
            Grammar::Sshd => crate::sshd::lemma_sshd_covers(s, a, b),
            Grammar::PgHba => crate::pg_hba::lemma_pg_hba_covers(s, a, b),
            Grammar::Ufw => crate::ufw::lemma_ufw_covers(s, a, b),
        }
    }
}

fn parse_line(g: &Grammar, chars: &Vec<char>, offs: &Vec<usize>, ls: usize, le: usize) -> (r: CstNode)
    requires
        offsets_ok(chars@, offs@),
        ls < le <= chars@.len(),
    ensures
        r@ == line_view(chars@, ls as int, le as int, shape_of(*g, chars@, ls as int, le as int)),
{
    proof {
        reveal(shape_of);
    }
    match g {
        Grammar::Hosts => crate::hosts::hosts_line(chars, offs, ls, le),
        Grammar::Sshd => crate::sshd::sshd_line(chars, offs, ls, le),
        Grammar::PgHba => crate::pg_hba::pg_hba_line(chars, offs, ls, le),
        Grammar::Ufw => crate::ufw::ufw_line(chars, offs, ls, le),
    }
}

/// Splits `input` into lines (each keeping its `\n`) and parses each with
/// the grammar `g`.
pub fn parse_doc(input: &str, g: Grammar) -> (r: Vec<CstNode>)
    requires
        utf8_len(input@) <= usize::MAX,
    ensures
        view_nodes(r@) == parse_doc_spec(input@, g),
        cst_texts(view_nodes(r@)) == input@,
{
    let chars = crate::text::chars_of(input);
    let offs = crate::text::byte_offsets(&chars);
    let ghost s = chars@;
    let mut lines: Vec<CstNode> = Vec::new();
    let mut off: usize = 0;
    proof {
        lemma_lines_from(s, 0);
        assert(view_nodes(lines@) =~= Seq::<CstV>::empty());
        assert(parse_doc_spec(s, g) =~= view_nodes(lines@) + doc_views(s, lines_from(s, 0), g));
    }
    while off < chars.len()
        invariant
            chars@ == s,
            offsets_ok(s, offs@),
            off <= s.len(),
            parse_doc_spec(s, g) == view_nodes(lines@) + doc_views(s, lines_from(s, off as int), g),
        decreases s.len() - off,
    {
        let e = line_end_exec(&chars, off);
        let node = parse_line(&g, &chars, &offs, off, e);
        let ghost before = lines@;
        lines.push(node);
        proof {
            lemma_line_end(s, off as int);
            let lf = lines_from(s, off as int);
            assert(lf == seq![(off as int, e as int)] + lines_from(s, e as int));
            assert(doc_views(s, lf, g) =~= seq![node@] + doc_views(s, lines_from(s, e as int), g));
            assert(lines@ == before.push(node));
            assert(lines@.subrange(0, lines@.len() - 1) =~= before);
            assert(view_nodes(lines@) == view_nodes(before).push(node@));
            assert(parse_doc_spec(s, g) =~= view_nodes(lines@) + doc_views(
                s,
                lines_from(s, e as int),
                g,
            ));
        }
        off = e;
    }
    proof {
        assert(lines_from(s, off as int) =~= Seq::<(int, int)>::empty());
        assert(doc_views(s, lines_from(s, off as int), g) =~= Seq::<CstV>::empty());
        assert(parse_doc_spec(s, g) =~= view_nodes(lines@));
        lemma_grammar_covers(g, s);
        lemma_doc_lossless(s, g);
    }
    lines
}

} // verus!

verus! {

/// A line the grammar does not accept: leading blanks, its content as one
/// error token, and its line break.
pub open spec fn error_line(s: Seq<char>, ls: int, le: int, w: int) -> LineShape {
    let ce = content_end(s, ls, le);
    LineShape {
        kind: KindV::Error,
        toks: opt_tok(KindV::Whitespace, ls, w) + opt_tok(KindV::Error, w, ce) + opt_tok(
            KindV::Newline,
            ce,
            le,
        ),
    }
}

pub proof fn lemma_error_line_covers(s: Seq<char>, ls: int, le: int, w: int)
    requires
        0 <= ls <= w <= content_end(s, ls, le),
        le <= s.len(),
    ensures
        covers(error_line(s, ls, le, w).toks, ls, le),
{
    let ce = content_end(s, ls, le);
    crate::hosts::lemma_content_end(s, ls, le);
    lemma_covers_tok(KindV::Whitespace, ls, w);
    lemma_covers_tok(KindV::Error, w, ce);
    lemma_covers_tok(KindV::Newline, ce, le);
    lemma_covers_concat(opt_tok(KindV::Whitespace, ls, w), opt_tok(KindV::Error, w, ce), ls, w, ce);
    lemma_covers_concat(
        opt_tok(KindV::Whitespace, ls, w) + opt_tok(KindV::Error, w, ce),
        opt_tok(KindV::Newline, ce, le),
        ls,
        ce,
        le,
    );
}

pub fn error_line_exec(chars: &Vec<char>, offs: &Vec<usize>, ls: usize, le: usize, w: usize) -> (r: CstNode)
    requires
        offsets_ok(chars@, offs@),
        ls <= w <= content_end(chars@, ls as int, le as int),
        le <= chars@.len(),
    ensures
        r@ == line_view(chars@, ls as int, le as int, error_line(chars@, ls as int, le as int, w as int)),
{
    proof {
        crate::hosts::lemma_content_end(chars@, ls as int, le as int);
    }
    let ce = content_end_exec(chars, ls, le);
    let mut toks: Vec<CstNode> = Vec::new();
    assert(view_nodes(toks@) =~= toks_views(chars@, Seq::<Tok>::empty()));
    push_opt_tok(&mut toks, Ghost(Seq::empty()), SyntaxKind::Whitespace, chars, offs, ls, w);
    let ghost t0 = Seq::<Tok>::empty() + opt_tok(KindV::Whitespace, ls as int, w as int);
    assert(t0 =~= opt_tok(KindV::Whitespace, ls as int, w as int));
    push_opt_tok(&mut toks, Ghost(t0), SyntaxKind::Error, chars, offs, w, ce);
    let ghost t1 = t0 + opt_tok(KindV::Error, w as int, ce as int);
    push_opt_tok(&mut toks, Ghost(t1), SyntaxKind::Newline, chars, offs, ce, le);
    make_line(
        SyntaxKind::Error,
        toks,
        Ghost(t1 + opt_tok(KindV::Newline, ce as int, le as int)),
        chars,
        offs,
        ls,
        le,
    )
}

} // verus!

//! The lossless concrete syntax tree: every character of the source,
//! whitespace, comments and newlines included, sits in exactly one token.
use vstd::prelude::*;

use crate::text::{lemma_utf8_len_is_encoding_len, string_views, utf8_len};

verus! {

/// A byte span (start..end) in the parsed text.
#[derive(Debug, Clone, Copy, PartialEq, Eq, Hash, Structural)]
pub struct Span {
    pub start: usize,
    pub end: usize,
}

impl Default for Span {
    fn default() -> (r: Self)
        ensures
            r == (Span { start: 0, end: 0 }),
    {
        Span { start: 0, end: 0 }
    }
}

impl Span {
    pub fn new(start: usize, end: usize) -> (r: Self)
        ensures
            r == (Span { start, end }),
    {
        Span { start, end }
    }

    /// `end - start`, or 0 when `end` comes first.
    pub fn len(&self) -> (r: usize)
        ensures
            r == if self.end >= self.start { (self.end - self.start) as usize } else { 0usize },
    {
        if self.end >= self.start {
            self.end - self.start
        } else {
            0
        }
    }

    pub fn is_empty(&self) -> (r: bool)
        ensures
            r == (self.start >= self.end),
    {
        self.start >= self.end
    }

    /// The smallest span covering both.
    pub fn merge(&self, other: &Span) -> (r: Span)
        ensures
            r.start == if self.start <= other.start { self.start } else { other.start },
            r.end == if self.end >= other.end { self.end } else { other.end },
    {
        Span {
            start: if self.start <= other.start { self.start } else { other.start },
            end: if self.end >= other.end { self.end } else { other.end },
        }
    }
}

/// A 1-indexed line range representing the visual/source position of a row or rule.
#[derive(Debug, Clone, Copy, PartialEq, Eq, Hash, Structural)]
pub struct SourceSpan {
    pub start_line: usize,
    pub end_line: usize,
}

impl SourceSpan {
    pub fn new(start_line: usize, end_line: usize) -> (r: Self)
        ensures
            r == (SourceSpan { start_line, end_line }),
    {
        SourceSpan { start_line, end_line }
    }

    pub fn single_line(line: usize) -> (r: Self)
        ensures
            r == (SourceSpan { start_line: line, end_line: line }),
    {
        SourceSpan { start_line: line, end_line: line }
    }
}

/// Identifies the kind of syntax node or token.
#[derive(Debug, Clone, PartialEq, Eq, Hash)]
pub enum SyntaxKind {
    Document,
    Line,
    BlankLine,
    CommentLine,
    Entry,
    Whitespace,
    Comment,
    Newline,
    Key,
    Value,
    IpAddress,
    Hostname,
    Error,
    Custom(String),
}

/// The mathematical value of a [`SyntaxKind`].
pub enum KindV {
    Document,
    Line,
    BlankLine,
    CommentLine,
    Entry,
    Whitespace,
    Comment,
    Newline,
    Key,
    Value,
    IpAddress,
    Hostname,
    Error,
    Custom(Seq<char>),
}

impl View for SyntaxKind {
    type V = KindV;

    open spec fn view(&self) -> KindV {
        match self {
            SyntaxKind::Document => KindV::Document,
            SyntaxKind::Line => KindV::Line,
            SyntaxKind::BlankLine => KindV::BlankLine,
            SyntaxKind::CommentLine => KindV::CommentLine,
            SyntaxKind::Entry => KindV::Entry,
            SyntaxKind::Whitespace => KindV::Whitespace,
            SyntaxKind::Comment => KindV::Comment,
            SyntaxKind::Newline => KindV::Newline,
            SyntaxKind::Key => KindV::Key,
            SyntaxKind::Value => KindV::Value,
            SyntaxKind::IpAddress => KindV::IpAddress,
            SyntaxKind::Hostname => KindV::Hostname,
            SyntaxKind::Error => KindV::Error,
            SyntaxKind::Custom(s) => KindV::Custom(s@),
        }
    }
}

/// The name a kind is written as (its snake_case form, or a custom name).
pub open spec fn kind_name(k: KindV) -> Seq<char> {
    match k {
        KindV::Document => "document"@,
        KindV::Line => "line"@,
        KindV::BlankLine => "blank_line"@,
        KindV::CommentLine => "comment_line"@,
        KindV::Entry => "entry"@,
        KindV::Whitespace => "whitespace"@,
        KindV::Comment => "comment"@,
        KindV::Newline => "newline"@,
        KindV::Key => "key"@,
        KindV::Value => "value"@,
        KindV::IpAddress => "ip_address"@,
        KindV::Hostname => "hostname"@,
        KindV::Error => "error"@,
        KindV::Custom(s) => s,
    }
}

pub open spec fn kind_tag(k: KindV) -> u8 {
    match k {
        KindV::Document => 0,
        KindV::Line => 1,
        KindV::BlankLine => 2,
        KindV::CommentLine => 3,
        KindV::Entry => 4,
        KindV::Whitespace => 5,
        KindV::Comment => 6,
        KindV::Newline => 7,
        KindV::Key => 8,
        KindV::Value => 9,
        KindV::IpAddress => 10,
        KindV::Hostname => 11,
        KindV::Error => 12,
        KindV::Custom(_) => 13,
    }
}

impl SyntaxKind {
    fn tag(&self) -> (r: u8)
        ensures
            r == kind_tag(self@),
    {
        match self {
            SyntaxKind::Document => 0,
            SyntaxKind::Line => 1,
            SyntaxKind::BlankLine => 2,
            SyntaxKind::CommentLine => 3,
            SyntaxKind::Entry => 4,
            SyntaxKind::Whitespace => 5,
            SyntaxKind::Comment => 6,
            SyntaxKind::Newline => 7,
            SyntaxKind::Key => 8,
            SyntaxKind::Value => 9,
            SyntaxKind::IpAddress => 10,
            SyntaxKind::Hostname => 11,
            SyntaxKind::Error => 12,
            SyntaxKind::Custom(_) => 13,
        }
    }

    /// Whether the two kinds are the same (what `==` on kinds compares).
    pub fn same_kind(&self, other: &SyntaxKind) -> (r: bool)
        ensures
            r == (self@ == other@),
    {
        let t = self.tag();
        if t != other.tag() {
            return false;
        }
        match self {
            SyntaxKind::Custom(a) => match other {
                SyntaxKind::Custom(b) => *a == *b,
                _ => false,
            },
            _ => true,
        }
    }

    pub fn custom(name: &str) -> (r: Self)
        ensures
            r@ == KindV::Custom(name@),
    {
        SyntaxKind::Custom(name.to_owned())
    }

    /// A copy of this kind.
    pub fn duplicate(&self) -> (r: Self)
        ensures
            r@ == self@,
    {
        match self {
            SyntaxKind::Document => SyntaxKind::Document,
            SyntaxKind::Line => SyntaxKind::Line,
            SyntaxKind::BlankLine => SyntaxKind::BlankLine,
            SyntaxKind::CommentLine => SyntaxKind::CommentLine,
            SyntaxKind::Entry => SyntaxKind::Entry,
            SyntaxKind::Whitespace => SyntaxKind::Whitespace,
            SyntaxKind::Comment => SyntaxKind::Comment,
            SyntaxKind::Newline => SyntaxKind::Newline,
            SyntaxKind::Key => SyntaxKind::Key,
            SyntaxKind::Value => SyntaxKind::Value,
            SyntaxKind::IpAddress => SyntaxKind::IpAddress,
            SyntaxKind::Hostname => SyntaxKind::Hostname,
            SyntaxKind::Error => SyntaxKind::Error,
            SyntaxKind::Custom(s) => SyntaxKind::Custom(s.clone()),
        }
    }

    pub fn as_str(&self) -> (r: &str)
        ensures
            r@ == kind_name(self@),
    {
        match self {
            SyntaxKind::Document => "document",
            SyntaxKind::Line => "line",
            SyntaxKind::BlankLine => "blank_line",
            SyntaxKind::CommentLine => "comment_line",
            SyntaxKind::Entry => "entry",
            SyntaxKind::Whitespace => "whitespace",
            SyntaxKind::Comment => "comment",
            SyntaxKind::Newline => "newline",
            SyntaxKind::Key => "key",
            SyntaxKind::Value => "value",
            SyntaxKind::IpAddress => "ip_address",
            SyntaxKind::Hostname => "hostname",
            SyntaxKind::Error => "error",
            SyntaxKind::Custom(s) => s.as_str(),
        }
    }
}

/// A node in the Concrete Syntax Tree (CST).
///
/// CST nodes are either leaf `Token`s (carrying exact text slices) or `Rule`s
/// (containers of child nodes). Every whitespace character, comment, and newline
/// is preserved in the tree, guaranteeing 100% lossless serialization.
#[derive(Debug, PartialEq, Eq)]
pub enum CstNode {
    Token { kind: SyntaxKind, text: String, span: Span },
    Rule { kind: SyntaxKind, children: Vec<CstNode>, span: Span },
}

/// The mathematical value of a [`CstNode`].
pub enum CstV {
    Token { kind: KindV, text: Seq<char>, span: Span },
    Rule { kind: KindV, children: Seq<CstV>, span: Span },
}

pub open spec fn view_node(n: CstNode) -> CstV
    decreases n,
{
    match n {
        CstNode::Token { kind, text, span } => CstV::Token { kind: kind@, text: text@, span },
        CstNode::Rule { kind, children, span } => CstV::Rule {
            kind: kind@,
            children: view_nodes(children@),
            span,
        },
    }
}

pub open spec fn view_nodes(s: Seq<CstNode>) -> Seq<CstV>
    decreases s,
{
    if s.len() == 0 {
        Seq::empty()
    } else {
        view_nodes(s.subrange(0, s.len() - 1)).push(view_node(s[s.len() - 1]))
    }
}

impl View for CstNode {
    type V = CstV;

    open spec fn view(&self) -> CstV {
        view_node(*self)
    }
}

pub proof fn lemma_view_nodes(s: Seq<CstNode>)
    ensures
        view_nodes(s).len() == s.len(),
        forall|i: int| 0 <= i < s.len() ==> #[trigger] view_nodes(s)[i] == view_node(s[i]),
    decreases s.len(),
{
    if s.len() > 0 {
        lemma_view_nodes(s.subrange(0, s.len() - 1));
    }
}

pub open spec fn cst_kind(v: CstV) -> KindV {
    match v {
        CstV::Token { kind, .. } => kind,
        CstV::Rule { kind, .. } => kind,
    }
}

pub open spec fn cst_span(v: CstV) -> Span {
    match v {
        CstV::Token { span, .. } => span,
        CstV::Rule { span, .. } => span,
    }
}

pub open spec fn cst_children(v: CstV) -> Seq<CstV> {
    match v {
        CstV::Token { .. } => Seq::empty(),
        CstV::Rule { children, .. } => children,
    }
}

/// The text a tree stands for: its tokens' texts in order.
pub open spec fn cst_text(v: CstV) -> Seq<char>
    decreases v,
{
    match v {
        CstV::Token { text, .. } => text,
        CstV::Rule { children, .. } => cst_texts(children),
    }
}

pub open spec fn cst_texts(s: Seq<CstV>) -> Seq<char>
    decreases s,
{
    if s.len() == 0 {
        Seq::empty()
    } else {
        cst_texts(s.subrange(0, s.len() - 1)) + cst_text(s[s.len() - 1])
    }
}

pub proof fn lemma_cst_texts_push(s: Seq<CstV>, v: CstV)
    ensures
        cst_texts(s.push(v)) == cst_texts(s) + cst_text(v),
{
    assert(s.push(v).subrange(0, s.len() as int) =~= s);
}

pub proof fn lemma_cst_texts_concat(a: Seq<CstV>, b: Seq<CstV>)
    ensures
        cst_texts(a + b) == cst_texts(a) + cst_texts(b),
    decreases b.len(),
{
    if b.len() == 0 {
        assert(a + b =~= a);
        assert(cst_texts(a) + cst_texts(b) =~= cst_texts(a));
    } else {
        let bl = b.subrange(0, b.len() - 1);
        lemma_cst_texts_concat(a, bl);
        assert((a + b).subrange(0, (a + b).len() - 1) =~= a + bl);
        assert(cst_texts(a) + cst_texts(b) =~= cst_texts(a) + cst_texts(bl) + cst_text(b[b.len() - 1]));
    }
}

/// Keeps a token's end offset in step with a change of its text (byte lengths,
/// in wrapping arithmetic, as a signed shift would).
pub open spec fn shift_end(end: usize, old_text: Seq<char>, new_text: Seq<char>) -> usize {
    vstd::wrapping::usize_specs::wrapping_sub(
        vstd::wrapping::usize_specs::wrapping_add(end, utf8_len(new_text) as usize),
        utf8_len(old_text) as usize,
    )
}

/// The tree with the first token of kind `k` (in document order) given the
/// text `t`; `None` when there is no such token.
pub open spec fn replace_first(v: CstV, k: KindV, t: Seq<char>) -> Option<CstV>
    decreases v,
{
    match v {
        CstV::Token { kind, text, span } => if kind == k {
            Some(
                CstV::Token {
                    kind,
                    text: t,
                    span: Span { start: span.start, end: shift_end(span.end, text, t) },
                },
            )
        } else {
            None
        },
        CstV::Rule { kind, children, span } => match replace_first_in(children, k, t) {
            Some(cs) => Some(CstV::Rule { kind, children: cs, span }),
            None => None,
        },
    }
}

pub open spec fn replace_first_in(s: Seq<CstV>, k: KindV, t: Seq<char>) -> Option<Seq<CstV>>
    decreases s,
{
    if s.len() == 0 {
        None
    } else {
        match replace_first(s[0], k, t) {
            Some(c) => Some(s.update(0, c)),
            None => match replace_first_in(s.subrange(1, s.len() as int), k, t) {
                Some(r) => Some(seq![s[0]] + r),
                None => None,
            },
        }
    }
}

/// Texts of the tokens of kind `k`, in document order.
pub open spec fn token_texts(v: CstV, k: KindV) -> Seq<Seq<char>>
    decreases v,
{
    match v {
        CstV::Token { kind, text, .. } => if kind == k {
            seq![text]
        } else {
            Seq::empty()
        },
        CstV::Rule { children, .. } => token_texts_in(children, k),
    }
}

pub open spec fn token_texts_in(s: Seq<CstV>, k: KindV) -> Seq<Seq<char>>
    decreases s,
{
    if s.len() == 0 {
        Seq::empty()
    } else {
        token_texts_in(s.subrange(0, s.len() - 1), k) + token_texts(s[s.len() - 1], k)
    }
}

pub proof fn lemma_replace_first_in(s: Seq<CstV>, k: KindV, t: Seq<char>, i: int)
    requires
        0 <= i <= s.len(),
        forall|j: int| 0 <= j < i ==> (#[trigger] replace_first(s[j], k, t)) is None,
    ensures
        i == s.len() ==> replace_first_in(s, k, t) is None,
        i < s.len() ==> match replace_first(s[i], k, t) {
            Some(c) => replace_first_in(s, k, t) == Some(s.update(i, c)),
            None => true,
        },
    decreases i,
{
    if s.len() == 0 {
    } else if i == 0 {
    } else {
        let rest = s.subrange(1, s.len() as int);
        assert forall|j: int| 0 <= j < i - 1 implies (#[trigger] replace_first(rest[j], k, t)) is None by {
            assert(rest[j] == s[j + 1]);
        }
        assert(replace_first(s[0], k, t) is None);
        lemma_replace_first_in(rest, k, t, i - 1);
        if i < s.len() {
            assert(rest[i - 1] == s[i]);
            match replace_first(s[i], k, t) {
                Some(c) => {
                    assert(seq![s[0]] + rest.update(i - 1, c) =~= s.update(i, c));
                },
                None => {},
            }
        }
    }
}

impl CstNode {
    pub fn token(kind: SyntaxKind, text: &str, span: Span) -> (r: Self)
        ensures
            r@ == (CstV::Token { kind: kind@, text: text@, span }),
    {
        CstNode::Token { kind, text: text.to_owned(), span }
    }

    pub fn rule(kind: SyntaxKind, children: Vec<CstNode>, span: Span) -> (r: Self)
        ensures
            r == (CstNode::Rule { kind, children, span }),
            r@ == (CstV::Rule { kind: kind@, children: view_nodes(children@), span }),
    {
        CstNode::Rule { kind, children, span }
    }

    pub fn kind(&self) -> (r: &SyntaxKind)
        ensures
            r@ == cst_kind(self@),
    {
        match self {
            CstNode::Token { kind, .. } => kind,
            CstNode::Rule { kind, .. } => kind,
        }
    }

    pub fn span(&self) -> (r: Span)
        ensures
            r == cst_span(self@),
    {
        match self {
            CstNode::Token { span, .. } => *span,
            CstNode::Rule { span, .. } => *span,
        }
    }

    pub fn children(&self) -> (r: &[CstNode])
        ensures
            view_nodes(r@) == cst_children(self@),
            self matches CstNode::Rule { children, .. } ==> r@ == children@,
            self is Token ==> r@.len() == 0,
    {
        match self {
            CstNode::Token { .. } => &[],
            CstNode::Rule { children, .. } => children.as_slice(),
        }
    }

    /// The children of a rule, for in-place editing; `None` for a token.
    pub fn children_mut(&mut self) -> (r: Option<&mut Vec<CstNode>>)
        ensures
            *old(self) is Token ==> r is None && *final(self) == *old(self),
            *old(self) is Rule ==> r is Some && *r->0 == (*old(self))->children && *final(self)
                == (CstNode::Rule {
                kind: (*old(self))->Rule_kind,
                children: *final(r->0),
                span: (*old(self))->Rule_span,
            }),
    {
        match self {
            CstNode::Token { .. } => None,
            CstNode::Rule { children, .. } => Some(children),
        }
    }

    /// Recursively finds the first token of `target_kind` and replaces its text.
    /// Returns true if replaced.
    #[verifier::loop_isolation(false)]
    pub fn replace_first_token_text(&mut self, target_kind: &SyntaxKind, new_text: &str) -> (r: bool)
        ensures
            r == replace_first(old(self)@, target_kind@, new_text@) is Some,
            final(self)@ == match replace_first(old(self)@, target_kind@, new_text@) {
                Some(v) => v,
                None => old(self)@,
            },
        decreases *old(self),
    {
        match self {
            CstNode::Token { kind, text, span } => {
                if kind.same_kind(target_kind) {
                    let old_len = text.as_str().len();
                    proof {
                        lemma_utf8_len_is_encoding_len(text@);
                        lemma_utf8_len_is_encoding_len(new_text@);
                    }
                    *text = new_text.to_owned();
                    span.end = span.end.wrapping_add(new_text.len()).wrapping_sub(old_len);
                    true
                } else {
                    false
                }
            },
            CstNode::Rule { children, .. } => {
                let ghost orig = children@;
                proof {
                    lemma_view_nodes(orig);
                }
                let mut i: usize = 0;
                while i < children.len()
                    invariant
                        i <= children.len(),
                        children@ == orig,
                        forall|j: int|
                            0 <= j < i ==> (#[trigger] replace_first(
                                view_nodes(orig)[j],
                                target_kind@,
                                new_text@,
                            )) is None,
                    decreases children.len() - i,
                {
                    proof {
                        assert(decreases_to!(*children => children@));
                        assert(decreases_to!(children@ => children@[i as int]));
                    }
                    if children[i].contains_kind(target_kind, Ghost(new_text@)) {
                        break;
                    }
                    i = i + 1;
                }
                proof {
                    lemma_replace_first_in(view_nodes(orig), target_kind@, new_text@, i as int);
                }
                if i == children.len() {
                    return false;
                }
                proof {
                    assert(decreases_to!(*old(self) => (*old(self))->children));
                    assert(decreases_to!((*old(self))->children => orig));
                    assert(decreases_to!(orig => orig[i as int]));
                }
                let done = children[i].replace_first_token_text(target_kind, new_text);
                proof {
                    lemma_view_nodes(children@);
                    assert(view_nodes(children@) =~= view_nodes(orig).update(
                        i as int,
                        view_node(children@[i as int]),
                    ));
                }
                done
            },
        }
    }

    /// Gives a token the text `t`; a rule is left as it is.
    pub(crate) fn set_token_text(&mut self, t: String)
        ensures
            final(self)@ == match old(self)@ {
                CstV::Token { kind, span, .. } => CstV::Token { kind, text: t@, span },
                CstV::Rule { .. } => old(self)@,
            },
    {
        match self {
            CstNode::Token { text, .. } => {
                *text = t;
            },
            CstNode::Rule { .. } => {},
        }
    }

    /// Whether the tree holds a token of kind `target_kind`.
    #[verifier::loop_isolation(false)]
    fn contains_kind(&self, target_kind: &SyntaxKind, Ghost(t): Ghost<Seq<char>>) -> (r: bool)
        ensures
            r == replace_first(self@, target_kind@, t) is Some,
        decreases self,
    {
        match self {
            CstNode::Token { kind, .. } => kind.same_kind(target_kind),
            CstNode::Rule { children, .. } => {
                proof {
                    lemma_view_nodes(children@);
                }
                let mut i: usize = 0;
                while i < children.len()
                    invariant
                        i <= children.len(),
                        forall|j: int|
                            0 <= j < i ==> (#[trigger] replace_first(
                                view_nodes(children@)[j],
                                target_kind@,
                                t,
                            )) is None,
                    decreases children.len() - i,
                {
                    proof {
                        assert(decreases_to!(*children => children@));
                        assert(decreases_to!(children@ => children@[i as int]));
                    }
                    if children[i].contains_kind(target_kind, Ghost(t)) {
                        proof {
                            lemma_replace_first_in(view_nodes(children@), target_kind@, t, i as int);
                        }
                        return true;
                    }
                    i = i + 1;
                }
                proof {
                    lemma_replace_first_in(view_nodes(children@), target_kind@, t, i as int);
                }
                false
            },
        }
    }

    /// Collects all token texts with the matching kind.
    pub fn collect_token_texts(&self, target_kind: &SyntaxKind) -> (r: Vec<String>)
        ensures
            string_views(r@) == token_texts(self@, target_kind@),
    {
        let mut out: Vec<String> = Vec::new();
        self.collect_token_texts_internal(target_kind, &mut out);
        assert(string_views(out@) =~= Seq::<Seq<char>>::empty() + token_texts(self@, target_kind@));
        out
    }

    #[verifier::loop_isolation(false)]
    fn collect_token_texts_internal(&self, target_kind: &SyntaxKind, out: &mut Vec<String>)
        ensures
            string_views(final(out)@) == string_views(old(out)@) + token_texts(self@, target_kind@),
        decreases self,
    {
        match self {
            CstNode::Token { kind, text, .. } => {
                if kind.same_kind(target_kind) {
                    out.push(text.clone());
                    assert(string_views(out@) =~= string_views(old(out)@) + seq![text@]);
                } else {
                    assert(string_views(out@) =~= string_views(old(out)@) + Seq::<Seq<char>>::empty());
                }
            },
            CstNode::Rule { children, .. } => {
                let ghost start = string_views(out@);
                let mut i: usize = 0;
                proof {
                    lemma_view_nodes(children@);
                }
                while i < children.len()
                    invariant
                        i <= children.len(),
                        string_views(out@) == start + token_texts_in(
                            view_nodes(children@).subrange(0, i as int),
                            target_kind@,
                        ),
                    decreases children.len() - i,
                {
                    proof {
                        assert(decreases_to!(*children => children@));
                        assert(decreases_to!(children@ => children@[i as int]));
                        assert(view_nodes(children@).subrange(0, i + 1).subrange(0, i as int)
                            =~= view_nodes(children@).subrange(0, i as int));
                    }
                    children[i].collect_token_texts_internal(target_kind, out);
                    i = i + 1;
                    proof {
                        let sub = view_nodes(children@).subrange(0, i as int);
                        assert(sub[sub.len() - 1] == view_node(children@[i - 1]));
                        assert(string_views(out@) =~= start + token_texts_in(sub, target_kind@));
                    }
                }
                assert(view_nodes(children@).subrange(0, children.len() as int) =~= view_nodes(
                    children@,
                ));
            },
        }
    }

    /// Serializes this CST node back into text.
    #[verifier::loop_isolation(false)]
    pub fn to_text(&self, out: &mut String)
        ensures
            final(out)@ == old(out)@ + cst_text(self@),
        decreases self,
    {
        match self {
            CstNode::Token { text, .. } => out.append(text.as_str()),
            CstNode::Rule { children, .. } => {
                let ghost start = out@;
                let mut i: usize = 0;
                proof {
                    lemma_view_nodes(children@);
                }
                while i < children.len()
                    invariant
                        i <= children.len(),
                        out@ == start + cst_texts(view_nodes(children@).subrange(0, i as int)),
                    decreases children.len() - i,
                {
                    proof {
                        assert(decreases_to!(*children => children@));
                        assert(decreases_to!(children@ => children@[i as int]));
                        assert(view_nodes(children@).subrange(0, i + 1) =~= view_nodes(
                            children@,
                        ).subrange(0, i as int).push(view_node(children@[i as int])));
                        lemma_cst_texts_push(
                            view_nodes(children@).subrange(0, i as int),
                            view_node(children@[i as int]),
                        );
                    }
                    children[i].to_text(out);
                    i = i + 1;
                }
                assert(view_nodes(children@).subrange(0, children.len() as int) =~= view_nodes(
                    children@,
                ));
            },
        }
    }

    /// Reconstructs the entire text represented by this CST node.
    pub fn to_string_lossless(&self) -> (r: String)
        ensures
            r@ == cst_text(self@),
    {
        let mut s = String::new();
        self.to_text(&mut s);
        assert(s@ =~= cst_text(self@));
        s
    }
}

} // verus!

//! Rows of a document: the line each line node starts at, finding a line
//! node by that number, and the edits every plugin makes the same way.
use vstd::prelude::*;

use crate::cst::{
    cst_children, cst_kind, cst_text, cst_texts, lemma_cst_texts_push, lemma_view_nodes, view_node, view_nodes,
    CstNode, CstV, KindV, Span, SyntaxKind,
};
use crate::edit::{EditError, EditErrorV};
use crate::json::{JsonV, JsonValue};
use crate::schema::json_str;
use crate::text::{chars_of, parse_unsigned, parse_unsigned_exec, string_of};

verus! {

/// How many `\n` characters `s` holds.
pub open spec fn count_nl(s: Seq<char>) -> nat
    decreases s.len(),
{
    if s.len() == 0 {
        0
    } else {
        count_nl(s.drop_last()) + if s.last() == '\n' {
            1nat
        } else {
            0nat
        }
    }
}

pub proof fn lemma_count_nl_concat(a: Seq<char>, b: Seq<char>)
    ensures
        count_nl(a + b) == count_nl(a) + count_nl(b),
    decreases b.len(),
{
    if b.len() == 0 {
        assert(a + b =~= a);
    } else {
        lemma_count_nl_concat(a, b.drop_last());
        assert((a + b).drop_last() =~= a + b.drop_last());
    }
}

/// How many lines a line node takes: its line breaks, and at least one.
pub open spec fn node_lines(v: CstV) -> nat {
    let n = count_nl(cst_text(v));
    if n == 0 {
        1
    } else {
        n
    }
}

/// The line number child `i` of a document starts at: 1 for the first,
/// then each child adds the lines it takes.
pub open spec fn line_no(cs: Seq<CstV>, i: int) -> int
    decreases i,
{
    if i <= 0 {
        1
    } else {
        line_no(cs, i - 1) + node_lines(cs[i - 1])
    }
}

pub proof fn lemma_line_no_mono(cs: Seq<CstV>, i: int, j: int)
    requires
        0 <= i <= j,
    ensures
        line_no(cs, i) + (j - i) <= line_no(cs, j),
        line_no(cs, i) >= 1 + i,
    decreases j,
{
    if j > 0 {
        if i < j {
            lemma_line_no_mono(cs, i, j - 1);
        } else {
            lemma_line_no_mono(cs, i - 1, j - 1);
        }
    }
}

/// The child that starts at line `ln`, if any.
pub open spec fn row_index(cs: Seq<CstV>, ln: int) -> Option<int> {
    if exists|i: int| 0 <= i < cs.len() && #[trigger] line_no(cs, i) == ln {
        Some(choose|i: int| 0 <= i < cs.len() && #[trigger] line_no(cs, i) == ln)
    } else {
        None
    }
}

pub proof fn lemma_row_index(cs: Seq<CstV>, ln: int, i: int)
    requires
        0 <= i < cs.len(),
        line_no(cs, i) == ln,
    ensures
        row_index(cs, ln) == Some(i),
{
    let c = choose|i: int| 0 <= i < cs.len() && #[trigger] line_no(cs, i) == ln;
    assert(0 <= c < cs.len() && line_no(cs, c) == ln);
    if c < i {
        lemma_line_no_mono(cs, c + 1, i);
        lemma_line_no_mono(cs, c, c + 1);
    } else if c > i {
        lemma_line_no_mono(cs, i + 1, c);
        lemma_line_no_mono(cs, i, i + 1);
    }
}

pub open spec fn sat(n: nat) -> usize {
    if n > usize::MAX {
        usize::MAX
    } else {
        n as usize
    }
}

/// The number of line breaks in a node, capped at `usize::MAX`.
#[verifier::loop_isolation(false)]
pub fn count_newlines_in_node(node: &CstNode) -> (r: usize)
    ensures
        r == sat(count_nl(cst_text(node@))),
    decreases node,
{
    match node {
        CstNode::Token { text, .. } => {
            let v = chars_of(text.as_str());
            let mut c: usize = 0;
            let mut i: usize = 0;
            while i < v.len()
                invariant
                    i <= v@.len(),
                    c <= i,
                    c == count_nl(v@.subrange(0, i as int)),
                decreases v@.len() - i,
            {
                assert(v@.subrange(0, i + 1).drop_last() =~= v@.subrange(0, i as int));
                if v[i] == '\n' {
                    c = c + 1;
                }
                i = i + 1;
            }
            assert(v@.subrange(0, v@.len() as int) =~= v@);
            c
        },
        CstNode::Rule { children, .. } => {
            proof {
                lemma_view_nodes(children@);
            }
            let ghost vc = view_nodes(children@);
            let mut acc: usize = 0;
            let mut i: usize = 0;
            while i < children.len()
                invariant
                    i <= children.len(),
                    vc == view_nodes(children@),
                    acc == sat(count_nl(cst_texts(vc.subrange(0, i as int)))),
                decreases children.len() - i,
            {
                proof {
                    assert(decreases_to!(*children => children@));
                    assert(decreases_to!(children@ => children@[i as int]));
                }
                let x = count_newlines_in_node(&children[i]);
                proof {
                    assert(vc.subrange(0, i + 1) =~= vc.subrange(0, i as int).push(view_node(children@[i as int])));
                    lemma_cst_texts_push(vc.subrange(0, i as int), view_node(children@[i as int]));
                    lemma_count_nl_concat(cst_texts(vc.subrange(0, i as int)), cst_text(view_node(children@[i as int])));
                }
                if acc > usize::MAX - x {
                    acc = usize::MAX;
                } else {
                    acc = acc + x;
                }
                i = i + 1;
            }
            assert(vc.subrange(0, children.len() as int) =~= vc);
            acc
        },
    }
}

/// The index of the child that starts at line `target_line_no`.
pub fn find_rule_index_by_line(children: &Vec<CstNode>, target_line_no: usize) -> (r: Option<usize>)
    ensures
        match row_index(view_nodes(children@), target_line_no as int) {
            Some(i) => r matches Some(j) && j as int == i,
            None => r is None,
        },
        r matches Some(i) ==> i < children@.len(),
{
    proof {
        lemma_view_nodes(children@);
    }
    let ghost cs = view_nodes(children@);
    let mut cur: usize = 1;
    let mut i: usize = 0;
    while i < children.len()
        invariant
            i <= children.len(),
            cs == view_nodes(children@),
            cs.len() == children.len(),
            forall|j: int| 0 <= j < cs.len() ==> #[trigger] cs[j] == view_node(children@[j]),
            cur as int == line_no(cs, i as int),
            forall|j: int| 0 <= j < i ==> #[trigger] line_no(cs, j) < target_line_no,
        decreases children.len() - i,
    {
        if cur == target_line_no {
            proof {
                lemma_row_index(cs, target_line_no as int, i as int);
            }
            return Some(i);
        }
        if cur > target_line_no {
            proof {
                assert forall|j: int| 0 <= j < cs.len() implies #[trigger] line_no(cs, j) != target_line_no by {
                    if j >= i {
                        lemma_line_no_mono(cs, i as int, j);
                    }
                }
            }
            return None;
        }
        let nl = count_newlines_in_node(&children[i]);
        let inc: usize = if nl == 0 {
            1
        } else {
            nl
        };
        assert(cs[i as int] == view_node(children@[i as int]));
        if inc > target_line_no - cur {
            proof {
                assert(line_no(cs, i + 1) > target_line_no);
                assert forall|j: int| 0 <= j < cs.len() implies #[trigger] line_no(cs, j) != target_line_no by {
                    if j > i {
                        lemma_line_no_mono(cs, i + 1, j);
                    }
                }
            }
            return None;
        }
        assert(line_no(cs, i + 1) == line_no(cs, i as int) + node_lines(cs[i as int]));
        proof {
            lemma_line_no_mono(cs, i as int, i as int);
        }
        assert(count_nl(cst_text(cs[i as int])) <= usize::MAX);
        cur = cur + inc;
        i = i + 1;
    }
    None
}

/// The line number a row id names: `line-<n>`.
pub open spec fn row_line(id: Seq<char>) -> Option<nat> {
    if id.len() >= 5 && id.subrange(0, 5) == "line-"@ {
        parse_unsigned(id.subrange(5, id.len() as int), usize::MAX as nat)
    } else {
        None
    }
}

/// Reads the line number out of a row id.
pub fn parse_row_id_line(row_id: &str) -> (r: Result<usize, EditError>)
    ensures
        match row_line(row_id@) {
            Some(n) => r matches Ok(m) && m as nat == n,
            None => r matches Err(e) && e@ == EditErrorV::RowNotFound(row_id@),
        },
{
    proof {
        reveal_strlit("line-");
    }
    let v = chars_of(row_id);
    let n = v.len();
    if n >= 5 && v[0] == 'l' && v[1] == 'i' && v[2] == 'n' && v[3] == 'e' && v[4] == '-' {
        assert(v@.subrange(0, 5) =~= "line-"@);
        let rest = string_of(&v, 5, n);
        let digits = chars_of(rest.as_str());
        match parse_unsigned_exec(&digits, usize::MAX as u64) {
            Some(k) => Ok(k as usize),
            None => Err(EditError::RowNotFound(row_id.to_owned())),
        }
    } else {
        proof {
            if n >= 5 {
                assert(v@.subrange(0, 5) != "line-"@) by {
                    if v@.subrange(0, 5) == "line-"@ {
                        assert(v@[0] == v@.subrange(0, 5)[0]);
                        assert(v@[1] == v@.subrange(0, 5)[1]);
                        assert(v@[2] == v@.subrange(0, 5)[2]);
                        assert(v@[3] == v@.subrange(0, 5)[3]);
                        assert(v@[4] == v@.subrange(0, 5)[4]);
                    }
                }
            }
        }
        Err(EditError::RowNotFound(row_id.to_owned()))
    }
}


/// A document node with its children replaced.
pub open spec fn with_children(v: CstV, cs: Seq<CstV>) -> CstV {
    match v {
        CstV::Rule { kind, span, .. } => CstV::Rule { kind, children: cs, span },
        CstV::Token { .. } => v,
    }
}

pub open spec fn root_error() -> EditErrorV {
    EditErrorV::Unsupported("Root is not a rule"@)
}

/// Puts `node` into `cs` before the row `before` names, else after the row
/// `after` names, else at the end.
pub open spec fn place_in(cs: Seq<CstV>, node: CstV, after: Option<Seq<char>>, before: Option<Seq<char>>) -> (Seq<CstV>, Result<(), EditErrorV>) {
    match before {
        Some(b) => match row_line(b) {
            None => (cs, Err(EditErrorV::RowNotFound(b))),
            Some(bl) => match row_index(cs, bl as int) {
                None => (cs, Err(EditErrorV::RowNotFound(b))),
                Some(j) => (cs.insert(j, node), Ok(())),
            },
        },
        None => match after {
            Some(a) => match row_line(a) {
                None => (cs, Err(EditErrorV::RowNotFound(a))),
                Some(al) => match row_index(cs, al as int) {
                    None => (cs, Err(EditErrorV::RowNotFound(a))),
                    Some(j) => (cs.insert(j + 1, node), Ok(())),
                },
            },
            None => (cs.push(node), Ok(())),
        },
    }
}

/// Deleting the row `row_id` names.
pub open spec fn delete_spec(v: CstV, row_id: Seq<char>) -> (CstV, Result<(), EditErrorV>) {
    match row_line(row_id) {
        None => (v, Err(EditErrorV::RowNotFound(row_id))),
        Some(ln) => match v {
            CstV::Token { .. } => (v, Err(root_error())),
            CstV::Rule { children, .. } => match row_index(children, ln as int) {
                None => (v, Err(EditErrorV::RowNotFound(row_id))),
                Some(i) => (with_children(v, children.remove(i)), Ok(())),
            },
        },
    }
}

/// Inserting `node` after the row `after` names, or at the end.
pub open spec fn insert_spec(v: CstV, after: Option<Seq<char>>, node: CstV) -> (CstV, Result<(), EditErrorV>) {
    match v {
        CstV::Token { .. } => (v, Err(root_error())),
        CstV::Rule { children, .. } => {
            let (cs, r) = place_in(children, node, after, None);
            (with_children(v, cs), r)
        },
    }
}

/// Moving the row `row_id` names. The row is taken out first; when the place
/// to put it back cannot be found it stays out.
pub open spec fn move_spec(v: CstV, row_id: Seq<char>, after: Option<Seq<char>>, before: Option<Seq<char>>) -> (CstV, Result<(), EditErrorV>) {
    match row_line(row_id) {
        None => (v, Err(EditErrorV::RowNotFound(row_id))),
        Some(ln) => match v {
            CstV::Token { .. } => (v, Err(root_error())),
            CstV::Rule { children, .. } => match row_index(children, ln as int) {
                None => (v, Err(EditErrorV::RowNotFound(row_id))),
                Some(i) => {
                    let (cs, r) = place_in(children.remove(i), children[i], after, before);
                    (with_children(v, cs), r)
                },
            },
        },
    }
}

/// Editing the line node the row `row_id` names with `f`.
pub open spec fn update_spec(
    v: CstV,
    row_id: Seq<char>,
    f: spec_fn(CstV) -> (CstV, Result<(), EditErrorV>),
) -> (CstV, Result<(), EditErrorV>) {
    match row_line(row_id) {
        None => (v, Err(EditErrorV::RowNotFound(row_id))),
        Some(ln) => match v {
            CstV::Token { .. } => (v, Err(EditErrorV::RowNotFound(row_id))),
            CstV::Rule { children, .. } => match row_index(children, ln as int) {
                None => (v, Err(EditErrorV::RowNotFound(row_id))),
                Some(i) => {
                    let (l2, r) = f(children[i]);
                    (with_children(v, children.update(i, l2)), r)
                },
            },
        },
    }
}

pub proof fn lemma_view_nodes_remove(s: Seq<CstNode>, i: int)
    requires
        0 <= i < s.len(),
    ensures
        view_nodes(s.remove(i)) == view_nodes(s).remove(i),
{
    lemma_view_nodes(s);
    lemma_view_nodes(s.remove(i));
    assert(view_nodes(s.remove(i)) =~= view_nodes(s).remove(i));
}

pub proof fn lemma_view_nodes_insert(s: Seq<CstNode>, i: int, n: CstNode)
    requires
        0 <= i <= s.len(),
    ensures
        view_nodes(s.insert(i, n)) == view_nodes(s).insert(i, n@),
{
    lemma_view_nodes(s);
    lemma_view_nodes(s.insert(i, n));
    assert(view_nodes(s.insert(i, n)) =~= view_nodes(s).insert(i, n@));
}

pub proof fn lemma_view_nodes_concat(a: Seq<CstNode>, b: Seq<CstNode>)
    ensures
        view_nodes(a + b) == view_nodes(a) + view_nodes(b),
{
    lemma_view_nodes(a);
    lemma_view_nodes(b);
    lemma_view_nodes(a + b);
    assert(view_nodes(a + b) =~= view_nodes(a) + view_nodes(b));
}

pub proof fn lemma_view_nodes_push(s: Seq<CstNode>, n: CstNode)
    ensures
        view_nodes(s.push(n)) == view_nodes(s).push(n@),
{
    lemma_view_nodes(s);
    lemma_view_nodes(s.push(n));
    assert(view_nodes(s.push(n)) =~= view_nodes(s).push(n@));
}

pub proof fn lemma_view_nodes_update(s: Seq<CstNode>, i: int, n: CstNode)
    requires
        0 <= i < s.len(),
    ensures
        view_nodes(s.update(i, n)) == view_nodes(s).update(i, n@),
{
    lemma_view_nodes(s);
    lemma_view_nodes(s.update(i, n));
    assert(view_nodes(s.update(i, n)) =~= view_nodes(s).update(i, n@));
}

/// Puts `node` into `children` as [`place_in`] says.
pub fn place_row(
    children: &mut Vec<CstNode>,
    node: CstNode,
    after: &Option<String>,
    before: &Option<String>,
) -> (r: Result<(), EditError>)
    ensures
        (view_nodes(final(children)@), crate::edit::edit_result(r)) == place_in(
            view_nodes(old(children)@),
            node@,
            crate::schema::opt_text(*after),
            crate::schema::opt_text(*before),
        ),
{
    match before {
        Some(b) => {
            let bl = match parse_row_id_line(b.as_str()) {
                Ok(n) => n,
                Err(e) => return Err(e),
            };
            match find_rule_index_by_line(children, bl) {
                None => Err(EditError::RowNotFound(b.clone())),
                Some(j) => {
                    proof {
                        lemma_view_nodes(children@);
                        lemma_view_nodes_insert(children@, j as int, node);
                    }
                    children.insert(j, node);
                    Ok(())
                },
            }
        },
        None => match after {
            Some(a) => {
                let al = match parse_row_id_line(a.as_str()) {
                    Ok(n) => n,
                    Err(e) => return Err(e),
                };
                let n = children.len();
                match find_rule_index_by_line(children, al) {
                    None => Err(EditError::RowNotFound(a.clone())),
                    Some(j) => {
                        assert(j < n);
                        proof {
                            lemma_view_nodes(children@);
                            lemma_view_nodes_insert(children@, j + 1, node);
                        }
                        children.insert(j + 1, node);
                        Ok(())
                    },
                }
            },
            None => {
                proof {
                    lemma_view_nodes_push(children@, node);
                }
                children.push(node);
                Ok(())
            },
        },
    }
}

/// Deletes the row `row_id` names.
pub fn delete_row(cst: &mut CstNode, row_id: &String) -> (r: Result<(), EditError>)
    ensures
        (final(cst)@, crate::edit::edit_result(r)) == delete_spec(old(cst)@, row_id@),
{
    let ln = match parse_row_id_line(row_id.as_str()) {
        Ok(n) => n,
        Err(e) => return Err(e),
    };
    let children = match cst.children_mut() {
        Some(c) => c,
        None => return Err(EditError::Unsupported("Root is not a rule".to_owned())),
    };
    match find_rule_index_by_line(children, ln) {
        None => Err(EditError::RowNotFound(row_id.clone())),
        Some(i) => {
            proof {
                lemma_view_nodes(children@);
                lemma_view_nodes_remove(children@, i as int);
            }
            children.remove(i);
            Ok(())
        },
    }
}

/// Inserts `node` after the row `after` names, or at the end.
pub fn insert_row(cst: &mut CstNode, after: &Option<String>, node: CstNode) -> (r: Result<(), EditError>)
    ensures
        (final(cst)@, crate::edit::edit_result(r)) == insert_spec(old(cst)@, crate::schema::opt_text(*after), node@),
{
    let children = match cst.children_mut() {
        Some(c) => c,
        None => return Err(EditError::Unsupported("Root is not a rule".to_owned())),
    };
    place_row(children, node, after, &None)
}

/// Moves the row `row_id` names before `before`, else after `after`, else
/// to the end.
pub fn move_row(cst: &mut CstNode, row_id: &String, after: &Option<String>, before: &Option<String>) -> (r: Result<(), EditError>)
    ensures
        (final(cst)@, crate::edit::edit_result(r)) == move_spec(
            old(cst)@,
            row_id@,
            crate::schema::opt_text(*after),
            crate::schema::opt_text(*before),
        ),
{
    let ln = match parse_row_id_line(row_id.as_str()) {
        Ok(n) => n,
        Err(e) => return Err(e),
    };
    let children = match cst.children_mut() {
        Some(c) => c,
        None => return Err(EditError::Unsupported("Root is not a rule".to_owned())),
    };
    match find_rule_index_by_line(children, ln) {
        None => Err(EditError::RowNotFound(row_id.clone())),
        Some(i) => {
            proof {
                lemma_view_nodes(children@);
                lemma_view_nodes_remove(children@, i as int);
            }
            let node = children.remove(i);
            place_row(children, node, after, before)
        },
    }
}

/// The line node that starts at line `target_line_no`, for editing in place.
pub fn find_line_node_mut(cst: &mut CstNode, target_line_no: usize) -> (r: Option<&mut CstNode>)
    ensures
        match *old(cst) {
            CstNode::Token { .. } => r is None && *final(cst) == *old(cst),
            CstNode::Rule { kind, children, span } => match row_index(view_nodes(children@), target_line_no as int) {
                None => r is None && *final(cst) == *old(cst),
                Some(i) => r is Some && *r->0 == children@[i] && *final(cst) == (CstNode::Rule {
                    kind,
                    children: (*final(cst))->Rule_children,
                    span,
                }) && (*final(cst))->Rule_children@ == children@.update(i, *final(r->0)),
            },
        },
{
    let children = match cst.children_mut() {
        Some(c) => c,
        None => return None,
    };
    match find_rule_index_by_line(children, target_line_no) {
        None => None,
        Some(i) => Some(&mut children[i]),
    }
}


/// Child `i` is the first of kind `k`.
pub open spec fn is_first_kind(cs: Seq<CstV>, k: KindV, i: int) -> bool {
    &&& 0 <= i < cs.len()
    &&& cst_kind(cs[i]) == k
    &&& forall|j: int| 0 <= j < i ==> cst_kind(#[trigger] cs[j]) != k
}

/// The index of the first child of kind `k`.
pub open spec fn first_kind(cs: Seq<CstV>, k: KindV) -> Option<int> {
    if exists|i: int| #[trigger] is_first_kind(cs, k, i) {
        Some(choose|i: int| #[trigger] is_first_kind(cs, k, i))
    } else {
        None
    }
}

pub proof fn lemma_first_kind(cs: Seq<CstV>, k: KindV, i: int)
    requires
        is_first_kind(cs, k, i),
    ensures
        first_kind(cs, k) == Some(i),
{
    let c = choose|i: int| #[trigger] is_first_kind(cs, k, i);
    assert(is_first_kind(cs, k, c));
    if c < i {
        assert(cst_kind(cs[c]) != k);
    } else if c > i {
        assert(cst_kind(cs[i]) != k);
    }
}

/// Child `i` is the last of kind `k`.
pub open spec fn is_last_kind(cs: Seq<CstV>, k: KindV, i: int) -> bool {
    &&& 0 <= i < cs.len()
    &&& cst_kind(cs[i]) == k
    &&& forall|j: int| i < j < cs.len() ==> cst_kind(#[trigger] cs[j]) != k
}

/// The index of the last child of kind `k`.
pub open spec fn last_kind(cs: Seq<CstV>, k: KindV) -> Option<int> {
    if exists|i: int| #[trigger] is_last_kind(cs, k, i) {
        Some(choose|i: int| #[trigger] is_last_kind(cs, k, i))
    } else {
        None
    }
}

pub proof fn lemma_last_kind(cs: Seq<CstV>, k: KindV, i: int)
    requires
        is_last_kind(cs, k, i),
    ensures
        last_kind(cs, k) == Some(i),
{
    let c = choose|i: int| #[trigger] is_last_kind(cs, k, i);
    assert(is_last_kind(cs, k, c));
    if c < i {
        assert(cst_kind(cs[i]) != k);
    } else if c > i {
        assert(cst_kind(cs[c]) != k);
    }
}

/// The index of the first child of kind `k`.
pub fn position_of_kind(children: &Vec<CstNode>, k: &SyntaxKind) -> (r: Option<usize>)
    ensures
        match first_kind(view_nodes(children@), k@) {
            Some(i) => r matches Some(j) && j as int == i,
            None => r is None,
        },
        r matches Some(j) ==> j < children@.len(),
{
    proof {
        lemma_view_nodes(children@);
    }
    let ghost cs = view_nodes(children@);
    let mut i: usize = 0;
    while i < children.len()
        invariant
            i <= children@.len(),
            cs == view_nodes(children@),
            cs.len() == children@.len(),
            forall|j: int| 0 <= j < cs.len() ==> #[trigger] cs[j] == view_node(children@[j]),
            forall|j: int| 0 <= j < i ==> cst_kind(#[trigger] cs[j]) != k@,
        decreases children@.len() - i,
    {
        assert(cs[i as int] == view_node(children@[i as int]));
        if children[i].kind().same_kind(k) {
            proof {
                lemma_first_kind(cs, k@, i as int);
            }
            return Some(i);
        }
        i = i + 1;
    }
    assert(!exists|i: int| #[trigger] is_first_kind(cs, k@, i));
    None
}

/// The index of the last child of kind `k`.
pub fn rposition_of_kind(children: &Vec<CstNode>, k: &SyntaxKind) -> (r: Option<usize>)
    ensures
        match last_kind(view_nodes(children@), k@) {
            Some(i) => r matches Some(j) && j as int == i,
            None => r is None,
        },
        r matches Some(j) ==> j < children@.len(),
{
    proof {
        lemma_view_nodes(children@);
    }
    let ghost cs = view_nodes(children@);
    let mut i: usize = children.len();
    while i > 0
        invariant
            i <= children@.len(),
            cs == view_nodes(children@),
            cs.len() == children@.len(),
            forall|j: int| 0 <= j < cs.len() ==> #[trigger] cs[j] == view_node(children@[j]),
            forall|j: int| i <= j < cs.len() ==> cst_kind(#[trigger] cs[j]) != k@,
        decreases i,
    {
        assert(cs[i - 1] == view_node(children@[i - 1]));
        if children[i - 1].kind().same_kind(k) {
            proof {
                lemma_last_kind(cs, k@, i - 1);
            }
            return Some(i - 1);
        }
        i = i - 1;
    }
    assert(!exists|i: int| #[trigger] is_last_kind(cs, k@, i));
    None
}

/// A token made by an edit: no place in the source yet.
pub open spec fn plain_tok(k: KindV, t: Seq<char>) -> CstV {
    CstV::Token { kind: k, text: t, span: Span { start: 0, end: 0 } }
}

/// The node with `t` as its text when it is a token.
pub open spec fn set_text(v: CstV, t: Seq<char>) -> CstV {
    match v {
        CstV::Token { kind, span, .. } => CstV::Token { kind, text: t, span },
        CstV::Rule { .. } => v,
    }
}

/// A comment value that removes the comment.
pub open spec fn clears_comment(new: JsonV) -> bool {
    new is Null || new == JsonV::String(Seq::empty())
}

pub open spec fn line_not_rule() -> EditErrorV {
    EditErrorV::Unsupported("Line node is not a rule"@)
}

/// Setting, replacing or removing the comment of a line.
pub open spec fn comment_edit(line: CstV, new: JsonV) -> (CstV, Result<(), EditErrorV>) {
    match line {
        CstV::Token { .. } => (line, Err(line_not_rule())),
        CstV::Rule { kind, children: cs, span } => if clears_comment(new) {
            match first_kind(cs, KindV::Comment) {
                None => (line, Ok(())),
                Some(i) => if i > 0 && cst_kind(cs[i - 1]) == KindV::Whitespace {
                    (CstV::Rule { kind, children: cs.remove(i).remove(i - 1), span }, Ok(()))
                } else {
                    (CstV::Rule { kind, children: cs.remove(i), span }, Ok(()))
                },
            }
        } else {
            match json_str(new) {
                None => (line, Err(EditErrorV::InvalidValue { field: "comment"@, message: "Comment must be a string"@ })),
                Some(t) => {
                    let f = "# "@ + t;
                    match first_kind(cs, KindV::Comment) {
                        Some(i) => (CstV::Rule { kind, children: cs.update(i, set_text(cs[i], f)), span }, Ok(())),
                        None => {
                            let j = match first_kind(cs, KindV::Newline) {
                                Some(j) => j,
                                None => cs.len() as int,
                            };
                            (
                                CstV::Rule {
                                    kind,
                                    children: cs.insert(j, plain_tok(KindV::Whitespace, "  "@)).insert(
                                        j + 1,
                                        plain_tok(KindV::Comment, f),
                                    ),
                                    span,
                                },
                                Ok(()),
                            )
                        },
                    }
                },
            }
        },
    }
}

/// Sets, replaces or (for `null` or `""`) removes the comment of a line.
pub fn replace_or_set_comment_in_line(line_node: &mut CstNode, new_value: &JsonValue) -> (r: Result<(), EditError>)
    ensures
        (final(line_node)@, crate::edit::edit_result(r)) == comment_edit(old(line_node)@, new_value@),
{
    let children = match line_node.children_mut() {
        Some(c) => c,
        None => return Err(EditError::Unsupported("Line node is not a rule".to_owned())),
    };
    proof {
        lemma_view_nodes(children@);
    }
    let clear = new_value.is_null() || match new_value.as_str() {
        Some(s) => s.unicode_len() == 0,
        None => false,
    };
    assert(clear == clears_comment(new_value@)) by {
        if new_value@ is String {
            if new_value@->String_0.len() == 0 {
                assert(new_value@->String_0 =~= Seq::<char>::empty());
            }
        }
    }
    if clear {
        match position_of_kind(children, &SyntaxKind::Comment) {
            None => Ok(()),
            Some(idx) => {
                let ws_before = idx > 0 && children[idx - 1].kind().same_kind(&SyntaxKind::Whitespace);
                proof {
                    if idx > 0 {
                        assert(view_nodes(children@)[idx - 1] == view_node(children@[idx - 1]));
                    }
                    lemma_view_nodes_remove(children@, idx as int);
                    if idx > 0 {
                        lemma_view_nodes_remove(children@.remove(idx as int), idx - 1);
                    }
                }
                children.remove(idx);
                if ws_before {
                    children.remove(idx - 1);
                }
                Ok(())
            },
        }
    } else {
        let text = match new_value.as_str() {
            Some(t) => t,
            None => return Err(
                EditError::InvalidValue { field: "comment".to_owned(), message: "Comment must be a string".to_owned() },
            ),
        };
        let formatted = crate::text::concat3("# ", text, "");
        assert(formatted@ =~= "# "@ + text@) by {
            reveal_strlit("");
        }
        match position_of_kind(children, &SyntaxKind::Comment) {
            Some(i) => {
                proof {
                    lemma_view_nodes(children@);
                }
                children[i].set_token_text(formatted);
                proof {
                    lemma_view_nodes(children@);
                    assert(view_nodes(children@) =~= view_nodes(old(line_node)->Rule_children@).update(
                        i as int,
                        set_text(view_nodes(old(line_node)->Rule_children@)[i as int], "# "@ + text@),
                    ));
                }
                Ok(())
            },
            None => {
                let n = children.len();
                let j = match position_of_kind(children, &SyntaxKind::Newline) {
                    Some(j) => j,
                    None => n,
                };
                let ws = CstNode::token(SyntaxKind::Whitespace, "  ", Span { start: 0, end: 0 });
                let com = CstNode::Token { kind: SyntaxKind::Comment, text: formatted, span: Span { start: 0, end: 0 } };
                proof {
                    lemma_view_nodes_insert(children@, j as int, ws);
                    lemma_view_nodes_insert(children@.insert(j as int, ws), j + 1, com);
                }
                children.insert(j, ws);
                let m = children.len();
                assert(j + 1 <= m);
                children.insert(j + 1, com);
                Ok(())
            },
        }
    }
}

pub open spec fn invalid(field: Seq<char>, message: Seq<char>) -> EditErrorV {
    EditErrorV::InvalidValue { field, message }
}

/// The value the last `(name, value)` pair named `key` carries.
pub open spec fn lookup(fields: Seq<(Seq<char>, JsonV)>, key: Seq<char>) -> Option<JsonV>
    decreases fields.len(),
{
    if fields.len() == 0 {
        None
    } else if fields.last().0 == key {
        Some(fields.last().1)
    } else {
        lookup(fields.drop_last(), key)
    }
}

/// The text value of the field `key`, when it is a string.
pub open spec fn lookup_str(fields: Seq<(Seq<char>, JsonV)>, key: Seq<char>) -> Option<Seq<char>> {
    match lookup(fields, key) {
        Some(v) => json_str(v),
        None => None,
    }
}

/// The optional trailing comment tokens of an inserted line.
pub open spec fn comment_toks(comment: Option<Seq<char>>) -> Seq<CstV> {
    match comment {
        Some(c) => seq![
            plain_tok(KindV::Whitespace, "  "@),
            plain_tok(KindV::Comment, "# "@ + c),
        ],
        None => Seq::empty(),
    }
}

/// An inserted line node with the given tokens and a line break.
pub open spec fn new_entry(toks: Seq<CstV>) -> CstV {
    CstV::Rule {
        kind: KindV::Entry,
        children: toks + seq![plain_tok(KindV::Newline, "\n"@)],
        span: Span { start: 0, end: 0 },
    }
}


pub fn invalid_err(field: &str, message: &str) -> (r: EditError)
    ensures
        r@ == invalid(field@, message@),
{
    EditError::InvalidValue { field: field.to_owned(), message: message.to_owned() }
}

/// The value of the last pair named `key`.
pub fn lookup_field<'a>(fields: &'a Vec<(String, JsonValue)>, key: &str) -> (r: Option<&'a JsonValue>)
    ensures
        match lookup(crate::json::view_members(fields@), key@) {
            Some(v) => r matches Some(x) && x@ == v,
            None => r is None,
        },
{
    proof {
        crate::json::lemma_view_members(fields@);
    }
    let ghost fv = crate::json::view_members(fields@);
    let mut i: usize = fields.len();
    assert(fv.subrange(0, i as int) =~= fv);
    while i > 0
        invariant
            i <= fields@.len(),
            fv == crate::json::view_members(fields@),
            fv.len() == fields@.len(),
            forall|j: int| 0 <= j < fv.len() ==> #[trigger] fv[j] == (fields@[j].0@, fields@[j].1@),
            lookup(fv, key@) == lookup(fv.subrange(0, i as int), key@),
        decreases i,
    {
        let ghost sub = fv.subrange(0, i as int);
        assert(sub.last() == fv[i - 1]);
        assert(sub.drop_last() =~= fv.subrange(0, i - 1));
        if crate::text::str_eq(fields[i - 1].0.as_str(), key) {
            return Some(&fields[i - 1].1);
        }
        i = i - 1;
    }
    None
}

/// The text value of the field `key`, when it is a string.
pub fn lookup_field_str<'a>(fields: &'a Vec<(String, JsonValue)>, key: &str) -> (r: Option<&'a str>)
    ensures
        match lookup_str(crate::json::view_members(fields@), key@) {
            Some(s) => r matches Some(x) && x@ == s,
            None => r is None,
        },
{
    match lookup_field(fields, key) {
        Some(v) => v.as_str(),
        None => None,
    }
}

/// Appends a token made by an edit.
pub fn push_plain(v: &mut Vec<CstNode>, kind: SyntaxKind, text: &str)
    ensures
        view_nodes(final(v)@) == view_nodes(old(v)@).push(plain_tok(kind@, text@)),
{
    let t = CstNode::token(kind, text, Span { start: 0, end: 0 });
    proof {
        lemma_view_nodes_push(v@, t);
    }
    v.push(t);
}

/// Appends a token made by an edit, with an owned text.
pub fn push_plain_string(v: &mut Vec<CstNode>, kind: SyntaxKind, text: String)
    ensures
        view_nodes(final(v)@) == view_nodes(old(v)@).push(plain_tok(kind@, text@)),
{
    let t = CstNode::Token { kind, text, span: Span { start: 0, end: 0 } };
    proof {
        lemma_view_nodes_push(v@, t);
    }
    v.push(t);
}

/// Appends the comment tokens of an inserted line, if there is a comment.
pub fn push_comment(v: &mut Vec<CstNode>, comment: Option<&str>)
    ensures
        view_nodes(final(v)@) == view_nodes(old(v)@) + comment_toks(
            match comment {
                Some(c) => Some(c@),
                None => None,
            },
        ),
{
    match comment {
        Some(c) => {
            push_plain(v, SyntaxKind::Whitespace, "  ");
            let mut f = String::new();
            crate::text::push_str(&mut f, "# ");
            crate::text::push_str(&mut f, c);
            push_plain_string(v, SyntaxKind::Comment, f);
            assert(view_nodes(v@) =~= view_nodes(old(v)@) + comment_toks(Some(c@))) by {
                assert(f@ =~= "# "@ + c@);
            }
        },
        None => {
            assert(view_nodes(v@) =~= view_nodes(old(v)@) + comment_toks(None));
        },
    }
}

/// Ends an inserted line with its line break.
pub fn finish_entry(toks: Vec<CstNode>) -> (r: CstNode)
    ensures
        r@ == new_entry(view_nodes(toks@)),
{
    let ghost t0 = toks@;
    let mut toks = toks;
    push_plain(&mut toks, SyntaxKind::Newline, "\n");
    assert(view_nodes(toks@) =~= view_nodes(t0) + seq![plain_tok(KindV::Newline, "\n"@)]);
    CstNode::rule(SyntaxKind::Entry, toks, Span { start: 0, end: 0 })
}


/// Editing one column of a rule line: the comment, or the token of the
/// column named `field`.
pub open spec fn column_line_edit(field: Seq<char>, row_id: Seq<char>, new: JsonV) -> spec_fn(CstV) -> (CstV, Result<(), EditErrorV>) {
    |line: CstV|
        if field == "comment"@ {
            comment_edit(line, new)
        } else {
            match json_str(new) {
                None => (line, Err(invalid(field, "Expected string value"@))),
                Some(val) => match crate::cst::replace_first(line, KindV::Custom(field), val) {
                    Some(l2) => (l2, Ok(())),
                    None => (line, Err(EditErrorV::FieldNotFound(field, row_id))),
                },
            }
        }
}

fn column_line_update(line: &mut CstNode, row_id: &String, field_name: &String, new_value: &JsonValue) -> (r: Result<(), EditError>)
    ensures
        (final(line)@, crate::edit::edit_result(r)) == (column_line_edit(field_name@, row_id@, new_value@))(old(line)@),
{
    if crate::text::str_eq(field_name.as_str(), "comment") {
        return replace_or_set_comment_in_line(line, new_value);
    }
    let val = match new_value.as_str() {
        Some(s) => s,
        None => return Err(invalid_err(field_name.as_str(), "Expected string value")),
    };
    let target_kind = SyntaxKind::custom(field_name.as_str());
    if !line.replace_first_token_text(&target_kind, val) {
        return Err(EditError::FieldNotFound(field_name.clone(), row_id.clone()));
    }
    Ok(())
}

/// Edits one column of the rule line `row_id` names.
pub fn column_update(cst: &mut CstNode, row_id: &String, field_name: &String, new_value: &JsonValue) -> (r: Result<(), EditError>)
    ensures
        (final(cst)@, crate::edit::edit_result(r)) == update_spec(
            old(cst)@,
            row_id@,
            column_line_edit(field_name@, row_id@, new_value@),
        ),
{
    let ln = match parse_row_id_line(row_id.as_str()) {
        Ok(n) => n,
        Err(e) => return Err(e),
    };
    let ghost old_cst = *cst;
    let line = match find_line_node_mut(cst, ln) {
        Some(l) => l,
        None => return Err(EditError::RowNotFound(row_id.clone())),
    };
    let r = column_line_update(line, row_id, field_name, new_value);
    proof {
        let i = row_index(view_nodes(old_cst->Rule_children@), ln as int)->Some_0;
        lemma_view_nodes(old_cst->Rule_children@);
        lemma_view_nodes_update(old_cst->Rule_children@, i, *final(line));
    }
    r
}

/// A column token made by an edit.
pub open spec fn col(name: Seq<char>, t: Seq<char>) -> CstV {
    plain_tok(KindV::Custom(name), t)
}

pub open spec fn tab() -> CstV {
    plain_tok(KindV::Whitespace, "\t"@)
}

/// The value given, or the default.
pub open spec fn or_default(o: Option<Seq<char>>, d: Seq<char>) -> Seq<char> {
    match o {
        Some(s) => s,
        None => d,
    }
}

/// The text value of the field `key`, or the default.
pub fn field_or<'a>(fields: &'a Vec<(String, JsonValue)>, key: &str, d: &'a str) -> (r: &'a str)
    ensures
        r@ == or_default(lookup_str(crate::json::view_members(fields@), key@), d@),
{
    match lookup_field_str(fields, key) {
        Some(s) => s,
        None => d,
    }
}

/// Appends a column token and a tab.
pub fn push_col_tab(v: &mut Vec<CstNode>, name: &str, text: &str)
    ensures
        view_nodes(final(v)@) == view_nodes(old(v)@) + seq![col(name@, text@), tab()],
{
    push_plain(v, SyntaxKind::custom(name), text);
    push_plain(v, SyntaxKind::Whitespace, "\t");
    assert(view_nodes(v@) =~= view_nodes(old(v)@) + seq![col(name@, text@), tab()]);
}

} // verus!

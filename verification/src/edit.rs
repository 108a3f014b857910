//! Edits: the operations a UI requests, the errors they can meet, and the
//! document that parses text with a plugin, binds it to IR and applies edits.
use vstd::prelude::*;

use crate::cst::{cst_text, CstNode, CstV};
use crate::ir::{ConfigDocumentIr, DocumentIrV};
use crate::json::{view_members, JsonV, JsonValue};
use crate::schema::{opt_text, PluginManifest};
use crate::text::{push_str, utf8_len};

verus! {

#[derive(Debug)]
pub enum ParseError {
    Syntax(String),
}

#[derive(Debug)]
pub enum BindError {
    Mapping(String),
}

#[derive(Debug)]
pub enum EditError {
    RowNotFound(String),
    FieldNotFound(String, String),
    InvalidValue { field: String, message: String },
    Unsupported(String),
}

/// The mathematical value of an [`EditError`].
pub enum EditErrorV {
    RowNotFound(Seq<char>),
    FieldNotFound(Seq<char>, Seq<char>),
    InvalidValue { field: Seq<char>, message: Seq<char> },
    Unsupported(Seq<char>),
}

impl View for EditError {
    type V = EditErrorV;

    open spec fn view(&self) -> EditErrorV {
        match self {
            EditError::RowNotFound(r) => EditErrorV::RowNotFound(r@),
            EditError::FieldNotFound(f, r) => EditErrorV::FieldNotFound(f@, r@),
            EditError::InvalidValue { field, message } => EditErrorV::InvalidValue { field: field@, message: message@ },
            EditError::Unsupported(m) => EditErrorV::Unsupported(m@),
        }
    }
}

pub open spec fn edit_result(r: Result<(), EditError>) -> Result<(), EditErrorV> {
    match r {
        Ok(()) => Ok(()),
        Err(e) => Err(e@),
    }
}

/// The message an edit error is shown with.
pub open spec fn edit_error_text(e: EditErrorV) -> Seq<char> {
    match e {
        EditErrorV::RowNotFound(r) => "Row '"@ + r + "' not found"@,
        EditErrorV::FieldNotFound(f, r) => "Field '"@ + f + "' not found in row '"@ + r + "'"@,
        EditErrorV::InvalidValue { field, message } => "Invalid value for field '"@ + field + "': "@ + message,
        EditErrorV::Unsupported(m) => "Edit operation unsupported: "@ + m,
    }
}

impl EditError {
    /// The message the error is shown with.
    pub fn to_text(&self) -> (r: String)
        ensures
            r@ == edit_error_text(self@),
    {
        let mut s = String::new();
        match self {
            EditError::RowNotFound(r) => {
                push_str(&mut s, "Row '");
                push_str(&mut s, r.as_str());
                push_str(&mut s, "' not found");
            },
            EditError::FieldNotFound(f, r) => {
                push_str(&mut s, "Field '");
                push_str(&mut s, f.as_str());
                push_str(&mut s, "' not found in row '");
                push_str(&mut s, r.as_str());
                push_str(&mut s, "'");
            },
            EditError::InvalidValue { field, message } => {
                push_str(&mut s, "Invalid value for field '");
                push_str(&mut s, field.as_str());
                push_str(&mut s, "': ");
                push_str(&mut s, message.as_str());
            },
            EditError::Unsupported(m) => {
                push_str(&mut s, "Edit operation unsupported: ");
                push_str(&mut s, m.as_str());
            },
        }
        assert(s@ =~= edit_error_text(self@));
        s
    }
}

impl ParseError {
    /// The message the error is shown with.
    pub fn to_text(&self) -> (r: String)
        ensures
            match self {
                ParseError::Syntax(m) => r@ == "Failed to parse config: "@ + m@,
            },
    {
        match self {
            ParseError::Syntax(m) => {
                let mut s = String::new();
                push_str(&mut s, "Failed to parse config: ");
                push_str(&mut s, m.as_str());
                assert(s@ =~= "Failed to parse config: "@ + m@);
                s
            },
        }
    }
}

impl BindError {
    /// The message the error is shown with.
    pub fn to_text(&self) -> (r: String)
        ensures
            match self {
                BindError::Mapping(m) => r@ == "Failed to bind CST to IR: "@ + m@,
            },
    {
        match self {
            BindError::Mapping(m) => {
                let mut s = String::new();
                push_str(&mut s, "Failed to bind CST to IR: ");
                push_str(&mut s, m.as_str());
                assert(s@ =~= "Failed to bind CST to IR: "@ + m@);
                s
            },
        }
    }
}

/// A semantic edit operation on the document. Insertions name their fields
/// as `(name, value)` pairs.
#[derive(Debug, PartialEq)]
pub enum EditOp {
    UpdateField { row_id: String, field_name: String, new_value: JsonValue },
    DeleteRow { row_id: String },
    InsertRow { after_row_id: Option<String>, fields: Vec<(String, JsonValue)> },
    MoveRow { row_id: String, after_row_id: Option<String>, before_row_id: Option<String> },
}

/// The mathematical value of an [`EditOp`].
pub enum EditOpV {
    UpdateField { row_id: Seq<char>, field_name: Seq<char>, new_value: JsonV },
    DeleteRow { row_id: Seq<char> },
    InsertRow { after_row_id: Option<Seq<char>>, fields: Seq<(Seq<char>, JsonV)> },
    MoveRow { row_id: Seq<char>, after_row_id: Option<Seq<char>>, before_row_id: Option<Seq<char>> },
}

impl View for EditOp {
    type V = EditOpV;

    open spec fn view(&self) -> EditOpV {
        match self {
            EditOp::UpdateField { row_id, field_name, new_value } => EditOpV::UpdateField {
                row_id: row_id@,
                field_name: field_name@,
                new_value: new_value@,
            },
            EditOp::DeleteRow { row_id } => EditOpV::DeleteRow { row_id: row_id@ },
            EditOp::InsertRow { after_row_id, fields } => EditOpV::InsertRow {
                after_row_id: opt_text(*after_row_id),
                fields: view_members(fields@),
            },
            EditOp::MoveRow { row_id, after_row_id, before_row_id } => EditOpV::MoveRow {
                row_id: row_id@,
                after_row_id: opt_text(*after_row_id),
                before_row_id: opt_text(*before_row_id),
            },
        }
    }
}

/// A format plugin: parses raw text into a CST, binds the CST to IR, and
/// applies semantic edits directly to the CST.
pub trait ConfigPlugin {
    /// The plugin's manifest.
    spec fn manifest_spec(&self) -> PluginManifest;

    /// The texts `parse` accepts.
    spec fn parses(&self, text: Seq<char>) -> bool;

    /// The tree `parse` makes of `text`.
    spec fn parsed(&self, text: Seq<char>) -> CstV;

    /// The trees whose line numbers all fit in a `usize`.
    spec fn bindable(&self, cst: CstV) -> bool;

    /// The trees `to_ir` binds.
    spec fn binds(&self, cst: CstV) -> bool;

    /// The IR `to_ir` makes of a tree.
    spec fn bound(&self, cst: CstV) -> DocumentIrV;

    /// The tree after `op`, and what `apply_edit` answers.
    spec fn edited(&self, cst: CstV, op: EditOpV) -> (CstV, Result<(), EditErrorV>);

    fn manifest(&self) -> (r: &PluginManifest)
        ensures
            *r == self.manifest_spec(),
    ;

    fn parse(&self, text: &str) -> (r: Result<CstNode, ParseError>)
        requires
            utf8_len(text@) <= usize::MAX,
        ensures
            r is Ok <==> self.parses(text@),
            r matches Ok(c) ==> c@ == self.parsed(text@) && cst_text(c@) == text@,
    ;

    fn to_ir(&self, cst: &CstNode) -> (r: Result<ConfigDocumentIr, BindError>)
        requires
            self.bindable(cst@),
        ensures
            r is Ok <==> self.binds(cst@),
            r matches Ok(d) ==> d@ == self.bound(cst@),
    ;

    fn apply_edit(&self, cst: &mut CstNode, op: &EditOp) -> (r: Result<(), EditError>)
        ensures
            (final(cst)@, edit_result(r)) == self.edited(old(cst)@, op@),
    ;
}

/// An active in-memory configuration document.
pub struct ConfigDocument<'a, P: ConfigPlugin> {
    plugin: &'a P,
    cst: CstNode,
}

impl<'a, P: ConfigPlugin> ConfigDocument<'a, P> {
    /// The document's tree.
    pub closed spec fn tree(&self) -> CstNode {
        self.cst
    }

    /// The plugin the document was parsed with.
    pub closed spec fn plugin_of(&self) -> P {
        *self.plugin
    }

    pub fn parse(plugin: &'a P, text: &str) -> (r: Result<Self, ParseError>)
        requires
            utf8_len(text@) <= usize::MAX,
        ensures
            r is Ok <==> plugin.parses(text@),
            r matches Ok(d) ==> d.plugin_of() == *plugin && d.tree()@ == plugin.parsed(text@) && cst_text(
                d.tree()@,
            ) == text@,
    {
        match plugin.parse(text) {
            Ok(cst) => Ok(ConfigDocument { plugin, cst }),
            Err(e) => Err(e),
        }
    }

    pub fn cst(&self) -> (r: &CstNode)
        ensures
            *r == self.tree(),
    {
        &self.cst
    }

    pub fn cst_mut(&mut self) -> (r: &mut CstNode)
        ensures
            *r == old(self).tree(),
            final(self).tree() == *final(r),
            final(self).plugin_of() == old(self).plugin_of(),
    {
        &mut self.cst
    }

    pub fn to_ir(&self) -> (r: Result<ConfigDocumentIr, BindError>)
        requires
            self.plugin_of().bindable(self.tree()@),
        ensures
            r is Ok <==> self.plugin_of().binds(self.tree()@),
            r matches Ok(d) ==> d@ == self.plugin_of().bound(self.tree()@),
    {
        self.plugin.to_ir(&self.cst)
    }

    pub fn apply_edit(&mut self, op: &EditOp) -> (r: Result<(), EditError>)
        ensures
            (final(self).tree()@, edit_result(r)) == old(self).plugin_of().edited(old(self).tree()@, op@),
            final(self).plugin_of() == old(self).plugin_of(),
    {
        self.plugin.apply_edit(&mut self.cst, op)
    }

    /// Serializes the CST back into the exact text format.
    pub fn serialize(&self) -> (r: String)
        ensures
            r@ == cst_text(self.tree()@),
    {
        self.cst.to_string_lossless()
    }
}

} // verus!

//! The view-binding IR: what a UI renders of a document, row by row.
use vstd::prelude::*;

use crate::cst::SourceSpan;
use crate::json::{JsonV, JsonValue};
use crate::schema::{opt_text, option_views, EnumOption, EnumOptionV, FieldType, FieldTypeV, WidgetKind};
use crate::text::str_eq;

verus! {

/// The full document view-binding IR.
#[derive(Debug, PartialEq)]
pub struct ConfigDocumentIr {
    pub plugin_name: String,
    pub shape: ShapeIr,
    pub rows: Vec<RowIr>,
}

/// Shape metadata attached to the IR to inform generic UI renderers.
#[derive(Debug, Clone, PartialEq, Eq)]
pub struct ShapeIr {
    pub kind: WidgetKind,
    pub order_sensitive: bool,
    pub order_note: Option<String>,
}

/// A single row in the view-binding IR.
#[derive(Debug, PartialEq)]
pub struct RowIr {
    pub row_id: String,
    pub widget: String,
    pub fields: Vec<FieldIr>,
    pub source_span: SourceSpan,
    pub is_comment_only: Option<bool>,
    pub is_blank: Option<bool>,
}

/// A typed field value with optional validation state and metadata.
#[derive(Debug, PartialEq)]
pub struct FieldIr {
    pub name: String,
    pub value: JsonValue,
    pub field_type: FieldType,
    pub valid: Option<bool>,
    pub validation_error: Option<String>,
    pub options: Option<Vec<EnumOption>>,
    pub docs_source: Option<String>,
    pub help: Option<String>,
}

pub struct ShapeIrV {
    pub kind: WidgetKind,
    pub order_sensitive: bool,
    pub order_note: Option<Seq<char>>,
}

pub struct FieldIrV {
    pub name: Seq<char>,
    pub value: JsonV,
    pub field_type: FieldTypeV,
    pub valid: Option<bool>,
    pub validation_error: Option<Seq<char>>,
    pub options: Option<Seq<EnumOptionV>>,
    pub docs_source: Option<Seq<char>>,
    pub help: Option<Seq<char>>,
}

pub struct RowIrV {
    pub row_id: Seq<char>,
    pub widget: Seq<char>,
    pub fields: Seq<FieldIrV>,
    pub source_span: SourceSpan,
    pub is_comment_only: Option<bool>,
    pub is_blank: Option<bool>,
}

pub struct DocumentIrV {
    pub plugin_name: Seq<char>,
    pub shape: ShapeIrV,
    pub rows: Seq<RowIrV>,
}

pub open spec fn opt_options(o: Option<Vec<EnumOption>>) -> Option<Seq<EnumOptionV>> {
    match o {
        Some(v) => Some(option_views(v@)),
        None => None,
    }
}

impl View for ShapeIr {
    type V = ShapeIrV;

    open spec fn view(&self) -> ShapeIrV {
        ShapeIrV { kind: self.kind, order_sensitive: self.order_sensitive, order_note: opt_text(self.order_note) }
    }
}

impl View for FieldIr {
    type V = FieldIrV;

    open spec fn view(&self) -> FieldIrV {
        FieldIrV {
            name: self.name@,
            value: self.value@,
            field_type: self.field_type@,
            valid: self.valid,
            validation_error: opt_text(self.validation_error),
            options: opt_options(self.options),
            docs_source: opt_text(self.docs_source),
            help: opt_text(self.help),
        }
    }
}

pub open spec fn field_views(v: Seq<FieldIr>) -> Seq<FieldIrV> {
    v.map_values(|f: FieldIr| f@)
}

impl View for RowIr {
    type V = RowIrV;

    open spec fn view(&self) -> RowIrV {
        RowIrV {
            row_id: self.row_id@,
            widget: self.widget@,
            fields: field_views(self.fields@),
            source_span: self.source_span,
            is_comment_only: self.is_comment_only,
            is_blank: self.is_blank,
        }
    }
}

pub open spec fn row_views(v: Seq<RowIr>) -> Seq<RowIrV> {
    v.map_values(|r: RowIr| r@)
}

impl View for ConfigDocumentIr {
    type V = DocumentIrV;

    open spec fn view(&self) -> DocumentIrV {
        DocumentIrV { plugin_name: self.plugin_name@, shape: self.shape@, rows: row_views(self.rows@) }
    }
}

/// A field with no validation state or metadata.
pub open spec fn plain_field(name: Seq<char>, t: FieldTypeV, value: JsonV) -> FieldIrV {
    FieldIrV {
        name,
        value,
        field_type: t,
        valid: None,
        validation_error: None,
        options: None,
        docs_source: None,
        help: None,
    }
}

/// The index of the first field named `name`.
pub open spec fn first_field(fields: Seq<FieldIr>, name: Seq<char>, i: int) -> bool {
    0 <= i < fields.len() && fields[i].name@ == name && forall|j: int| 0 <= j < i ==> #[trigger] fields[j].name@ != name
}

impl RowIr {
    pub fn new(row_id: &str, widget: &str, span: SourceSpan) -> (r: Self)
        ensures
            r@ == (RowIrV {
                row_id: row_id@,
                widget: widget@,
                fields: Seq::empty(),
                source_span: span,
                is_comment_only: None,
                is_blank: None,
            }),
    {
        let r = RowIr {
            row_id: row_id.to_owned(),
            widget: widget.to_owned(),
            fields: Vec::new(),
            source_span: span,
            is_comment_only: None,
            is_blank: None,
        };
        assert(field_views(r.fields@) =~= Seq::<FieldIrV>::empty());
        r
    }

    pub fn get_field(&self, name: &str) -> (r: Option<&FieldIr>)
        ensures
            match r {
                Some(f) => exists|i: int| first_field(self.fields@, name@, i) && *f == self.fields@[i],
                None => forall|i: int| 0 <= i < self.fields@.len() ==> #[trigger] self.fields@[i].name@ != name@,
            },
    {
        let mut i: usize = 0;
        while i < self.fields.len()
            invariant
                i <= self.fields@.len(),
                forall|j: int| 0 <= j < i ==> #[trigger] self.fields@[j].name@ != name@,
            decreases self.fields@.len() - i,
        {
            if str_eq(self.fields[i].name.as_str(), name) {
                assert(first_field(self.fields@, name@, i as int));
                return Some(&self.fields[i]);
            }
            i = i + 1;
        }
        None
    }

    pub fn get_field_mut(&mut self, name: &str) -> (r: Option<&mut FieldIr>)
        ensures
            match r {
                Some(f) => exists|i: int|
                    first_field(old(self).fields@, name@, i) && *f == old(self).fields@[i] && final(self).fields@
                        == old(self).fields@.update(i, *final(f)),
                None => forall|i: int| 0 <= i < old(self).fields@.len() ==> #[trigger] old(self).fields@[i].name@ != name@,
            },
            final(self).row_id == old(self).row_id,
            final(self).widget == old(self).widget,
            final(self).source_span == old(self).source_span,
            final(self).is_comment_only == old(self).is_comment_only,
            final(self).is_blank == old(self).is_blank,
    {
        let mut i: usize = 0;
        while i < self.fields.len()
            invariant
                i <= self.fields@.len(),
                *self == *old(self),
                forall|j: int| 0 <= j < i ==> #[trigger] self.fields@[j].name@ != name@,
            decreases self.fields@.len() - i,
        {
            if str_eq(self.fields[i].name.as_str(), name) {
                assert(first_field(self.fields@, name@, i as int));
                return Some(&mut self.fields[i]);
            }
            i = i + 1;
        }
        None
    }
}

impl FieldIr {
    pub fn new(name: &str, field_type: FieldType, value: JsonValue) -> (r: Self)
        ensures
            r@ == plain_field(name@, field_type@, value@),
    {
        FieldIr {
            name: name.to_owned(),
            field_type,
            value,
            valid: None,
            validation_error: None,
            options: None,
            docs_source: None,
            help: None,
        }
    }

    pub fn with_validity(self, valid: bool) -> (r: Self)
        ensures
            r@ == (FieldIrV { valid: Some(valid), ..self@ }),
    {
        let mut s = self;
        s.valid = Some(valid);
        s
    }

    pub fn with_error(self, err: String) -> (r: Self)
        ensures
            r@ == (FieldIrV { valid: Some(false), validation_error: Some(err@), ..self@ }),
    {
        let mut s = self;
        s.valid = Some(false);
        s.validation_error = Some(err);
        s
    }
}

} // verus!

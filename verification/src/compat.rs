//! Reader and writer types with the method names of pypdf / PyPDF2, over a
//! document held in memory.
use vstd::prelude::*;
use crate::appearance::{TextLayout, TextRequest, int_text_ok, layout_ok};
use crate::edit::{add_form_topname, opt_field, reattach_fields, remove_annotations, rename_form_topname, spec_add_form_topname, spec_reattach, spec_remove_annotations, spec_rename_form_topname, subtypes_v};
use crate::error::{PdferError, res_id, res_v};
use crate::fields::{FormField, fmap_opt, get_fields_impl, spec_get_fields};
use crate::fill::{FieldInput, FillReport, SInput, fill_form, req_v, set_need_appearances, spec_fill, spec_set_need_appearances};
use crate::inspect::{FieldSpecifier, get_form_text_fields_impl, get_pages_showing_field_impl, spec_get_form_text_fields, spec_pages_showing, tmap_v};
use crate::model::{PdfDocument, SDoc};
use crate::pages::{PageHandle, PageSelection, page_handle, page_handles, spec_page_handle, spec_page_handles};

verus! {

broadcast use vstd::std_specs::vec::group_vec_axioms;

/// A document opened for reading its form.
pub struct PdfReaderCompat {
    document: PdfDocument,
}

/// A document opened for writing its form.
pub struct PdfWriterCompat {
    document: PdfDocument,
}

impl PdfReaderCompat {
    /// The document's value.
    pub closed spec fn doc(&self) -> SDoc {
        self.document.sv()
    }

    /// A reader over `document`.
    pub fn from_document(document: PdfDocument) -> (r: Self)
        ensures
            r.doc() == document.sv(),
    {
        PdfReaderCompat { document }
    }

    /// The document.
    pub fn document(&self) -> (r: &PdfDocument)
        ensures
            r.sv() == self.doc(),
    {
        &self.document
    }

    /// The document, to change it.
    pub fn document_mut(&mut self) -> (r: &mut PdfDocument)
        ensures
            r.sv() == old(self).doc(),
            final(self).doc() == final(r).sv(),
    {
        &mut self.document
    }

    /// The document.
    pub fn into_inner(self) -> (r: PdfDocument)
        ensures
            r.sv() == self.doc(),
    {
        self.document
    }

    /// The handles of the pages, in page order.
    pub fn pages(&self) -> (r: Vec<PageHandle>)
        ensures
            r@ == spec_page_handles(self.doc()),
    {
        page_handles(&self.document)
    }

    /// The handle of the page with index `index`.
    pub fn page(&self, index: usize) -> (r: Result<PageHandle, PdferError>)
        ensures
            res_id(r) == spec_page_handle(self.doc(), index),
    {
        page_handle(&self.document, index)
    }

    /// Every named field, keyed by qualified name in key order; `None` when
    /// the document has no form or the form no `/Fields`.
    pub fn get_fields(&self) -> (r: Result<Option<Vec<(String, FormField)>>, PdferError>)
        ensures
            res_v(r, |o: Option<Vec<(String, FormField)>>| fmap_opt(o)) == spec_get_fields(
                self.doc(),
            ),
    {
        get_fields_impl(&self.document)
    }

    /// The text fields and their values.
    pub fn get_form_text_fields(&self, full_qualified_name: bool) -> (r: Result<
        Vec<(String, Option<String>)>,
        PdferError,
    >)
        ensures
            res_v(r, |m: Vec<(String, Option<String>)>| tmap_v(m@)) == spec_get_form_text_fields(
                self.doc(),
                full_qualified_name,
            ),
    {
        get_form_text_fields_impl(&self.document, full_qualified_name)
    }

    /// The pages on which the field's widgets appear, in page order.
    pub fn get_pages_showing_field(&self, field: FieldSpecifier) -> (r: Result<
        Vec<PageHandle>,
        PdferError,
    >)
        ensures
            res_v(r, |v: Vec<PageHandle>| v@) == spec_pages_showing(self.doc(), field),
    {
        get_pages_showing_field_impl(&self.document, field)
    }

    /// Groups the top-level fields under a new field named `name`.
    pub fn add_form_topname(&mut self, name: &str) -> (r: Result<Option<FormField>, PdferError>)
        ensures
            (final(self).doc(), res_v(r, |o: Option<FormField>| opt_field(o)))
                == spec_add_form_topname(old(self).doc(), name@),
    {
        add_form_topname(&mut self.document, name)
    }

    /// Renames the first top-level field.
    pub fn rename_form_topname(&mut self, name: &str) -> (r: Result<Option<FormField>, PdferError>)
        ensures
            (final(self).doc(), res_v(r, |o: Option<FormField>| opt_field(o)))
                == spec_rename_form_topname(old(self).doc(), name@),
    {
        rename_form_topname(&mut self.document, name)
    }

    /// `get_fields`, under its PyPDF2 name.
    #[allow(non_snake_case)]
    pub fn getFields(&self) -> (r: Result<Option<Vec<(String, FormField)>>, PdferError>)
        ensures
            res_v(r, |o: Option<Vec<(String, FormField)>>| fmap_opt(o)) == spec_get_fields(
                self.doc(),
            ),
    {
        self.get_fields()
    }

    /// `get_form_text_fields`, under its PyPDF2 name.
    #[allow(non_snake_case)]
    pub fn getFormTextFields(&self, full_qualified_name: bool) -> (r: Result<
        Vec<(String, Option<String>)>,
        PdferError,
    >)
        ensures
            res_v(r, |m: Vec<(String, Option<String>)>| tmap_v(m@)) == spec_get_form_text_fields(
                self.doc(),
                full_qualified_name,
            ),
    {
        self.get_form_text_fields(full_qualified_name)
    }

    /// `get_pages_showing_field`, under its PyPDF2 name.
    #[allow(non_snake_case)]
    pub fn getPagesShowingField(&self, field: FieldSpecifier) -> (r: Result<
        Vec<PageHandle>,
        PdferError,
    >)
        ensures
            res_v(r, |v: Vec<PageHandle>| v@) == spec_pages_showing(self.doc(), field),
    {
        self.get_pages_showing_field(field)
    }

    /// `add_form_topname`, under its PyPDF2 name.
    #[allow(non_snake_case)]
    pub fn addFormTopname(&mut self, name: &str) -> (r: Result<Option<FormField>, PdferError>)
        ensures
            (final(self).doc(), res_v(r, |o: Option<FormField>| opt_field(o)))
                == spec_add_form_topname(old(self).doc(), name@),
    {
        self.add_form_topname(name)
    }

    /// `rename_form_topname`, under its PyPDF2 name.
    #[allow(non_snake_case)]
    pub fn renameFormTopname(&mut self, name: &str) -> (r: Result<Option<FormField>, PdferError>)
        ensures
            (final(self).doc(), res_v(r, |o: Option<FormField>| opt_field(o)))
                == spec_rename_form_topname(old(self).doc(), name@),
    {
        self.rename_form_topname(name)
    }
}

/// The requests of a plain (name, text) list: each text as a text input.
pub open spec fn text_requests(fields: Seq<(String, String)>) -> Seq<(Seq<char>, SInput)> {
    fields.map_values(|e: (String, String)| (e.0@, SInput::Text(e.1@)))
}

impl PdfWriterCompat {
    /// The document's value.
    pub closed spec fn doc(&self) -> SDoc {
        self.document.sv()
    }

    /// A writer over a copy of the reader's document.
    pub fn from_reader(reader: &PdfReaderCompat) -> (r: Self)
        ensures
            r.doc() == reader.doc(),
    {
        PdfWriterCompat { document: reader.document().duplicate() }
    }

    /// A writer over `document`.
    pub fn from_document(document: PdfDocument) -> (r: Self)
        ensures
            r.doc() == document.sv(),
    {
        PdfWriterCompat { document }
    }

    /// The document.
    pub fn document(&self) -> (r: &PdfDocument)
        ensures
            r.sv() == self.doc(),
    {
        &self.document
    }

    /// The document, to change it.
    pub fn document_mut(&mut self) -> (r: &mut PdfDocument)
        ensures
            r.sv() == old(self).doc(),
            final(self).doc() == final(r).sv(),
    {
        &mut self.document
    }

    /// The document.
    pub fn into_inner(self) -> (r: PdfDocument)
        ensures
            r.sv() == self.doc(),
    {
        self.document
    }

    /// The handles of the pages, in page order.
    pub fn pages(&self) -> (r: Vec<PageHandle>)
        ensures
            r@ == spec_page_handles(self.doc()),
    {
        page_handles(&self.document)
    }

    /// The handle of the page with index `index`.
    pub fn page(&self, index: usize) -> (r: Result<PageHandle, PdferError>)
        ensures
            res_id(r) == spec_page_handle(self.doc(), index),
    {
        page_handle(&self.document, index)
    }

    /// Every named field, keyed by qualified name in key order.
    pub fn get_fields(&self) -> (r: Result<Option<Vec<(String, FormField)>>, PdferError>)
        ensures
            res_v(r, |o: Option<Vec<(String, FormField)>>| fmap_opt(o)) == spec_get_fields(
                self.doc(),
            ),
    {
        get_fields_impl(&self.document)
    }

    /// The text fields and their values.
    pub fn get_form_text_fields(&self, full_qualified_name: bool) -> (r: Result<
        Vec<(String, Option<String>)>,
        PdferError,
    >)
        ensures
            res_v(r, |m: Vec<(String, Option<String>)>| tmap_v(m@)) == spec_get_form_text_fields(
                self.doc(),
                full_qualified_name,
            ),
    {
        get_form_text_fields_impl(&self.document, full_qualified_name)
    }

    /// The pages on which the field's widgets appear, in page order.
    pub fn get_pages_showing_field(&self, field: FieldSpecifier) -> (r: Result<
        Vec<PageHandle>,
        PdferError,
    >)
        ensures
            res_v(r, |v: Vec<PageHandle>| v@) == spec_pages_showing(self.doc(), field),
    {
        get_pages_showing_field_impl(&self.document, field)
    }

    /// Sets the form's `/NeedAppearances` flag.
    pub fn set_need_appearances_writer(&mut self, state: bool) -> (r: Result<(), PdferError>)
        ensures
            (final(self).doc(), res_id(r)) == spec_set_need_appearances(old(self).doc(), state),
    {
        set_need_appearances(&mut self.document, state)
    }

    /// Sets the form's `/NeedAppearances` flag to true.
    pub fn set_need_appearances_writer_legacy(&mut self) -> (r: Result<(), PdferError>)
        ensures
            (final(self).doc(), res_id(r)) == spec_set_need_appearances(old(self).doc(), true),
    {
        self.set_need_appearances_writer(true)
    }

    /// Fills the requested fields on the selected pages and reports which
    /// requested names matched a widget. The floating-point layout of text
    /// appearances and the decimal texts of integer coordinates come from
    /// `layout` and `int_text`.
    ///
    /// The requests are a list of (name, input) pairs, tried in the order
    /// given against every widget: a list sorted by name with each name once
    /// (as a map gives it) fills exactly as a map would. A name given twice
    /// is applied twice, the later input last, and is reported once per
    /// request; the report keeps the order of the requests.
    pub fn update_page_form_field_values<
        F: Fn(TextRequest) -> TextLayout,
        G: Fn(i64) -> String,
    >(
        &mut self,
        page: PageSelection,
        fields: &Vec<(String, FieldInput)>,
        flags: u32,
        auto_regenerate: Option<bool>,
        flatten: bool,
        layout: &F,
        int_text: &G,
    ) -> (r: Result<FillReport, PdferError>)
        requires
            layout_ok(*layout),
            int_text_ok(*int_text),
        ensures
            (final(self).doc(), res_v(r, |x: FillReport| x.sv())) == spec_fill(
                old(self).doc(),
                page,
                req_v(fields@),
                flags,
                auto_regenerate,
                flatten,
                *layout,
                *int_text,
            ),
    {
        fill_form(&mut self.document, page, fields, flags, auto_regenerate, flatten, layout, int_text)
    }

    /// Attaches the widgets on the selected pages (all pages for `None`)
    /// that are missing from the field tree; the attached fields.
    pub fn reattach_fields(&mut self, page: Option<PageSelection>) -> (r: Result<
        Vec<FormField>,
        PdferError,
    >)
        ensures
            (final(self).doc(), res_v(r, |v: Vec<FormField>| v@.map_values(|f: FormField| f.sv())))
                == spec_reattach(old(self).doc(), page),
    {
        reattach_fields(&mut self.document, page)
    }

    /// Removes the annotations of the given subtypes (all annotations for
    /// `None`) from every page.
    pub fn remove_annotations(&mut self, subtypes: Option<&Vec<String>>) -> (r: Result<
        (),
        PdferError,
    >)
        ensures
            (final(self).doc(), res_id(r)) == spec_remove_annotations(
                old(self).doc(),
                subtypes_v(subtypes),
            ),
    {
        remove_annotations(&mut self.document, subtypes)
    }

    /// `get_fields`, under its PyPDF2 name.
    #[allow(non_snake_case)]
    pub fn getFields(&self) -> (r: Result<Option<Vec<(String, FormField)>>, PdferError>)
        ensures
            res_v(r, |o: Option<Vec<(String, FormField)>>| fmap_opt(o)) == spec_get_fields(
                self.doc(),
            ),
    {
        self.get_fields()
    }

    /// `get_form_text_fields`, under its PyPDF2 name.
    #[allow(non_snake_case)]
    pub fn getFormTextFields(&self, full_qualified_name: bool) -> (r: Result<
        Vec<(String, Option<String>)>,
        PdferError,
    >)
        ensures
            res_v(r, |m: Vec<(String, Option<String>)>| tmap_v(m@)) == spec_get_form_text_fields(
                self.doc(),
                full_qualified_name,
            ),
    {
        self.get_form_text_fields(full_qualified_name)
    }

    /// `get_pages_showing_field`, under its PyPDF2 name.
    #[allow(non_snake_case)]
    pub fn getPagesShowingField(&self, field: FieldSpecifier) -> (r: Result<
        Vec<PageHandle>,
        PdferError,
    >)
        ensures
            res_v(r, |v: Vec<PageHandle>| v@) == spec_pages_showing(self.doc(), field),
    {
        self.get_pages_showing_field(field)
    }

    /// `set_need_appearances_writer(true)`, under its PyPDF2 name.
    #[allow(non_snake_case)]
    pub fn setNeedAppearancesWriter(&mut self) -> (r: Result<(), PdferError>)
        ensures
            (final(self).doc(), res_id(r)) == spec_set_need_appearances(old(self).doc(), true),
    {
        self.set_need_appearances_writer_legacy()
    }

    /// Fills text values, PyPDF2 style: every value is text,
    /// `/NeedAppearances` is set, nothing is flattened, and no report is
    /// returned.
    #[allow(non_snake_case)]
    pub fn updatePageFormFieldValues<F: Fn(TextRequest) -> TextLayout, G: Fn(i64) -> String>(
        &mut self,
        page: PageSelection,
        fields: &Vec<(String, String)>,
        flags: u32,
        layout: &F,
        int_text: &G,
    ) -> (r: Result<(), PdferError>)
        requires
            layout_ok(*layout),
            int_text_ok(*int_text),
        ensures
            (final(self).doc(), res_v(r, |u: ()| u)) == ({
                let (d, res) = spec_fill(
                    old(self).doc(),
                    page,
                    text_requests(fields@),
                    flags,
                    Some(true),
                    false,
                    *layout,
                    *int_text,
                );
                (
                    d,
                    match res {
                        Ok(_) => Ok(()),
                        Err(e) => Err(e),
                    },
                )
            }),
    {
        let mut converted: Vec<(String, FieldInput)> = Vec::new();
        let mut i: usize = 0;
        while i < fields.len()
            invariant
                i <= fields.len(),
                converted.len() == i,
                forall|j: int|
                    0 <= j < i ==> converted@[j].0@ == fields@[j].0@ && converted@[j].1.sv()
                        == SInput::Text(fields@[j].1@),
            decreases fields.len() - i,
        {
            converted.push((fields[i].0.clone(), FieldInput::Text(fields[i].1.clone())));
            i += 1;
        }
        assert(req_v(converted@) =~= text_requests(fields@));
        match self.update_page_form_field_values(
            page,
            &converted,
            flags,
            Some(true),
            false,
            layout,
            int_text,
        ) {
            Ok(_) => Ok(()),
            Err(e) => Err(e),
        }
    }

    /// `reattach_fields`, under its PyPDF2 name.
    #[allow(non_snake_case)]
    pub fn reattachFields(&mut self, page: Option<PageSelection>) -> (r: Result<
        Vec<FormField>,
        PdferError,
    >)
        ensures
            (final(self).doc(), res_v(r, |v: Vec<FormField>| v@.map_values(|f: FormField| f.sv())))
                == spec_reattach(old(self).doc(), page),
    {
        self.reattach_fields(page)
    }
}

} // verus!

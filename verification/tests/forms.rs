use lopdf::{Dictionary, Document, Object, ObjectId, Stream, StringFormat as LopdfStringFormat};
use pdfer_forms::appearance::{TextLayout, TextRequest};
use pdfer_forms::compat::{PdfReaderCompat, PdfWriterCompat};
use pdfer_forms::fields::{extract_button_states, FieldValue};
use pdfer_forms::fill::{FieldInput, FillReport};
use pdfer_forms::inspect::FieldSpecifier;
use pdfer_forms::model::{PdfDict, PdfDocument, PdfObject, PdfStream, StringFormat};
use pdfer_forms::pages::PageSelection;
use pdfer_forms::text::{
    decode_pdf_text, encode_pdf_text, indexed_key, normalize_name, resolve_button_state, slash_name,
};

const RADIO: u32 = 1 << 15;

// ---------------------------------------------------------------------------
// Converting lopdf documents into the library's document model
// ---------------------------------------------------------------------------

fn conv_dict(d: &Dictionary) -> PdfDict {
    PdfDict { entries: d.iter().map(|(k, v)| (k.clone(), conv_obj(v))).collect() }
}

fn conv_obj(o: &Object) -> PdfObject {
    match o {
        Object::Null => PdfObject::Null,
        Object::Boolean(b) => PdfObject::Boolean(*b),
        Object::Integer(i) => PdfObject::Integer(*i),
        Object::Real(f) => PdfObject::Real(f.to_bits(), format!("{}", f)),
        Object::Name(n) => PdfObject::Name(n.clone()),
        Object::String(b, LopdfStringFormat::Literal) => PdfObject::Str(b.clone(), StringFormat::Literal),
        Object::String(b, LopdfStringFormat::Hexadecimal) => {
            PdfObject::Str(b.clone(), StringFormat::Hexadecimal)
        }
        Object::Array(a) => PdfObject::Array(a.iter().map(conv_obj).collect()),
        Object::Dictionary(d) => PdfObject::Dictionary(conv_dict(d)),
        Object::Stream(s) => PdfObject::Stream(PdfStream {
            dict: conv_dict(&s.dict),
            content: s.content.clone(),
            allows_compression: s.allows_compression,
            start_position: s.start_position,
        }),
        Object::Reference(id) => PdfObject::Reference(*id),
    }
}

fn conv_doc(doc: &Document) -> PdfDocument {
    PdfDocument {
        objects: doc.objects.iter().map(|(id, o)| (*id, conv_obj(o))).collect(),
        trailer: conv_dict(&doc.trailer),
        max_id: doc.max_id,
        pages: doc.get_pages().values().copied().collect(),
    }
}

// ---------------------------------------------------------------------------
// Floating-point layout
// ---------------------------------------------------------------------------

fn number(o: &PdfObject) -> f32 {
    match o {
        PdfObject::Integer(i) => *i as f32,
        PdfObject::Real(bits, _) => f32::from_bits(*bits),
        _ => 0.0,
    }
}

fn parse_default_appearance(da: &str) -> (String, f32) {
    let mut tokens = da.split_whitespace().peekable();
    let mut font_name = "Helv".to_owned();
    let mut font_size = 0.0_f32;
    while let Some(token) = tokens.next() {
        if token == "Tf" {
            continue;
        }
        if token.starts_with('/') {
            let name = token.trim_start_matches('/').to_owned();
            if let Some(next) = tokens.peek() {
                if let Ok(size) = next.parse::<f32>() {
                    font_name = name;
                    font_size = size;
                    let _ = tokens.next();
                    if let Some(op) = tokens.peek() {
                        if *op == "Tf" {
                            let _ = tokens.next();
                        }
                    }
                }
            }
        }
    }
    (font_name, font_size)
}

fn layout(q: TextRequest) -> TextLayout {
    let r: Vec<f32> = q.rect.iter().map(number).collect();
    let width = (r[2] - r[0]).max(1.0);
    let height = (r[3] - r[1]).max(1.0);
    let (dn, ds) = parse_default_appearance(&q.da);
    let (name, size) = match q.font {
        Some((n, bits)) => (n, f32::from_bits(bits)),
        None => (dn, ds),
    };
    let eff = if size <= 0.0 { (height - 4.0).max(4.0) } else { size };
    let baseline = ((height - eff) / 2.0).max(1.5);
    TextLayout {
        font_name: name,
        font_size: format!("{eff}"),
        baseline: format!("{baseline}"),
        width: (width.to_bits(), format!("{width}")),
        height: (height.to_bits(), format!("{height}")),
    }
}

fn int_text(n: i64) -> String {
    format!("{}", n as f32)
}

fn fill(
    writer: &mut PdfWriterCompat,
    page: PageSelection,
    updates: &[(&str, FieldInput)],
    auto: Option<bool>,
    flatten: bool,
) -> FillReport {
    let mut fields: Vec<(String, FieldInput)> = Vec::new();
    for (name, input) in updates {
        let copy = match input {
            FieldInput::KeepCurrent => FieldInput::KeepCurrent,
            FieldInput::Text(t) => FieldInput::Text(t.clone()),
            FieldInput::TextList(l) => FieldInput::TextList(l.clone()),
            FieldInput::TextAppearance { text, font_name, font_size } => FieldInput::TextAppearance {
                text: text.clone(),
                font_name: font_name.clone(),
                font_size: *font_size,
            },
        };
        fields.push((name.to_string(), copy));
    }
    fields.sort_by(|a, b| a.0.cmp(&b.0));
    writer
        .update_page_form_field_values(page, &fields, 0, auto, flatten, &layout, &int_text)
        .unwrap()
}

fn text(t: &str) -> FieldInput {
    FieldInput::Text(t.to_owned())
}

fn field_names(fields: &[(String, pdfer_forms::fields::FormField)]) -> Vec<String> {
    fields.iter().map(|(k, _)| k.clone()).collect()
}

fn lookup<'a>(
    fields: &'a [(String, pdfer_forms::fields::FormField)],
    name: &str,
) -> &'a pdfer_forms::fields::FormField {
    &fields.iter().find(|(k, _)| k == name).unwrap().1
}

// ---------------------------------------------------------------------------
// Documents
// ---------------------------------------------------------------------------

fn name(value: &str) -> Object {
    Object::Name(value.as_bytes().to_vec())
}

fn lit(value: &str) -> Object {
    Object::String(value.as_bytes().to_vec(), LopdfStringFormat::Literal)
}

fn rect(x: i64) -> Object {
    Object::Array(vec![
        Object::Integer(x),
        Object::Integer(0),
        Object::Integer(x + 20),
        Object::Integer(20),
    ])
}

fn appearance_stream(document: &mut Document, marker: &str) -> ObjectId {
    let mut dictionary = Dictionary::new();
    dictionary.set("Type", name("XObject"));
    dictionary.set("Subtype", name("Form"));
    dictionary.set("BBox", Object::Array(vec![0.into(), 0.into(), 20.into(), 20.into()]));
    document.add_object(Object::Stream(Stream::new(dictionary, marker.as_bytes().to_vec())))
}

fn button_appearance(document: &mut Document, on_state: &str, marker: &str) -> Object {
    let off_id = appearance_stream(document, "off");
    let on_id = appearance_stream(document, marker);
    let mut normal = Dictionary::new();
    normal.set("Off", Object::Reference(off_id));
    normal.set(on_state, Object::Reference(on_id));
    let mut appearance = Dictionary::new();
    appearance.set("N", Object::Dictionary(normal));
    Object::Dictionary(appearance)
}

fn finish_document(
    mut document: Document,
    pages_id: ObjectId,
    page_id: ObjectId,
    fields: Vec<Object>,
) -> Document {
    let mut pages = Dictionary::new();
    pages.set("Type", name("Pages"));
    pages.set("Kids", Object::Array(vec![Object::Reference(page_id)]));
    pages.set("Count", Object::Integer(1));
    document.objects.insert(pages_id, Object::Dictionary(pages));

    let mut acroform = Dictionary::new();
    acroform.set("Fields", Object::Array(fields));
    let acroform_id = document.add_object(Object::Dictionary(acroform));

    let mut catalog = Dictionary::new();
    catalog.set("Type", name("Catalog"));
    catalog.set("Pages", Object::Reference(pages_id));
    catalog.set("AcroForm", Object::Reference(acroform_id));
    let catalog_id = document.add_object(Object::Dictionary(catalog));
    document.trailer.set("Root", Object::Reference(catalog_id));
    document
}

fn page_dict(pages_id: ObjectId, annots: Vec<Object>) -> Dictionary {
    let mut page = Dictionary::new();
    page.set("Type", name("Page"));
    page.set("Parent", Object::Reference(pages_id));
    page.set("MediaBox", Object::Array(vec![0.into(), 0.into(), 200.into(), 200.into()]));
    page.set("Annots", Object::Array(annots));
    page
}

fn merged_text_document() -> (Document, ObjectId, ObjectId) {
    let mut document = Document::with_version("1.7");
    let pages_id = document.new_object_id();
    let parent_id = document.new_object_id();
    let widget_id = document.new_object_id();
    let page_id = document.new_object_id();

    let mut parent = Dictionary::new();
    parent.set("T", lit("group"));
    parent.set("Kids", Object::Array(vec![Object::Reference(widget_id)]));
    document.objects.insert(parent_id, Object::Dictionary(parent));

    let mut widget = Dictionary::new();
    widget.set("Type", name("Annot"));
    widget.set("Subtype", name("Widget"));
    widget.set("FT", name("Tx"));
    widget.set("T", lit("name"));
    widget.set("Parent", Object::Reference(parent_id));
    widget.set("Rect", rect(0));
    document.objects.insert(widget_id, Object::Dictionary(widget));

    let page = page_dict(pages_id, vec![Object::Reference(widget_id)]);
    document.objects.insert(page_id, Object::Dictionary(page));

    (
        finish_document(document, pages_id, page_id, vec![Object::Reference(parent_id)]),
        parent_id,
        widget_id,
    )
}

fn radio_document() -> (Document, ObjectId, ObjectId) {
    let mut document = Document::with_version("1.7");
    let pages_id = document.new_object_id();
    let field_id = document.new_object_id();
    let a_id = document.new_object_id();
    let b_id = document.new_object_id();
    let page_id = document.new_object_id();

    let mut field = Dictionary::new();
    field.set("T", lit("choice"));
    field.set("FT", name("Btn"));
    field.set("Ff", Object::Integer(RADIO as i64));
    field.set("Kids", Object::Array(vec![Object::Reference(a_id), Object::Reference(b_id)]));
    document.objects.insert(field_id, Object::Dictionary(field));

    for (widget_id, state, x) in [(a_id, "A", 0), (b_id, "B", 30)] {
        let appearance = button_appearance(&mut document, state, state);
        let mut widget = Dictionary::new();
        widget.set("Type", name("Annot"));
        widget.set("Subtype", name("Widget"));
        widget.set("Parent", Object::Reference(field_id));
        widget.set("Rect", rect(x));
        widget.set("AP", appearance);
        document.objects.insert(widget_id, Object::Dictionary(widget));
    }

    let page = page_dict(pages_id, vec![Object::Reference(b_id), Object::Reference(a_id)]);
    document.objects.insert(page_id, Object::Dictionary(page));

    (
        finish_document(document, pages_id, page_id, vec![Object::Reference(field_id)]),
        field_id,
        page_id,
    )
}

fn separate_checkbox_document(indirect_kids: bool) -> Document {
    let mut document = Document::with_version("1.7");
    let pages_id = document.new_object_id();
    let field_id = document.new_object_id();
    let widget_id = document.new_object_id();
    let page_id = document.new_object_id();

    let kids = Object::Array(vec![Object::Reference(widget_id)]);
    let kids = if indirect_kids { Object::Reference(document.add_object(kids)) } else { kids };
    let mut field = Dictionary::new();
    field.set("T", lit("check"));
    field.set("FT", name("Btn"));
    field.set("Kids", kids);
    document.objects.insert(field_id, Object::Dictionary(field));

    let appearance = button_appearance(&mut document, "Yes", "yes");
    let mut widget = Dictionary::new();
    widget.set("Type", name("Annot"));
    widget.set("Subtype", name("Widget"));
    widget.set("Parent", Object::Reference(field_id));
    widget.set("Rect", rect(0));
    widget.set("AP", appearance);
    document.objects.insert(widget_id, Object::Dictionary(widget));

    let page = page_dict(pages_id, vec![Object::Reference(widget_id)]);
    document.objects.insert(page_id, Object::Dictionary(page));

    finish_document(document, pages_id, page_id, vec![Object::Reference(field_id)])
}

/// One page with a single text widget that is its own top-level field.
fn single_widget_document(t: &str, width: i64) -> (Document, ObjectId, ObjectId) {
    let mut doc = Document::with_version("1.7");
    let pages_id = doc.new_object_id();
    let widget_id = doc.new_object_id();
    let page_id = doc.new_object_id();

    let mut widget = Dictionary::new();
    widget.set("Type", Object::Name(b"Annot".to_vec()));
    widget.set("Subtype", Object::Name(b"Widget".to_vec()));
    widget.set("FT", Object::Name(b"Tx".to_vec()));
    widget.set("T", Object::string_literal(t));
    widget.set(
        "Rect",
        Object::Array(vec![
            Object::Integer(0),
            Object::Integer(0),
            Object::Integer(width),
            Object::Integer(20),
        ]),
    );
    doc.objects.insert(widget_id, Object::Dictionary(widget));

    let mut page = Dictionary::new();
    page.set("Type", Object::Name(b"Page".to_vec()));
    page.set("Parent", Object::Reference(pages_id));
    page.set(
        "MediaBox",
        Object::Array(vec![
            Object::Integer(0),
            Object::Integer(0),
            Object::Integer(612),
            Object::Integer(792),
        ]),
    );
    page.set("Annots", Object::Array(vec![Object::Reference(widget_id)]));
    doc.objects.insert(page_id, Object::Dictionary(page));

    let mut pages = Dictionary::new();
    pages.set("Type", Object::Name(b"Pages".to_vec()));
    pages.set("Kids", Object::Array(vec![Object::Reference(page_id)]));
    pages.set("Count", Object::Integer(1));
    doc.objects.insert(pages_id, Object::Dictionary(pages));

    let mut acro = Dictionary::new();
    acro.set("Fields", Object::Array(vec![Object::Reference(widget_id)]));
    let acro_id = doc.add_object(Object::Dictionary(acro));
    let mut catalog = Dictionary::new();
    catalog.set("Type", Object::Name(b"Catalog".to_vec()));
    catalog.set("Pages", Object::Reference(pages_id));
    catalog.set("AcroForm", Object::Reference(acro_id));
    let catalog_id = doc.add_object(Object::Dictionary(catalog));
    doc.trailer.set("Root", Object::Reference(catalog_id));
    (doc, widget_id, page_id)
}

fn dict_of<'a>(doc: &'a PdfDocument, id: ObjectId) -> &'a PdfDict {
    doc.get_dictionary(id).ok().unwrap()
}

fn entry<'a>(d: &'a PdfDict, key: &[u8]) -> Option<&'a PdfObject> {
    d.get(key)
}

fn text_of(o: &PdfObject) -> String {
    match o {
        PdfObject::Str(b, _) => decode_pdf_text(b),
        other => panic!("not a string: {other:?}"),
    }
}

// ---------------------------------------------------------------------------
// Names, states, text
// ---------------------------------------------------------------------------

#[test]
fn normalize_and_slash_name_roundtrip() {
    assert_eq!(normalize_name("/Yes"), "Yes");
    assert_eq!(slash_name("Yes"), "/Yes");
    assert_eq!(slash_name("/Yes"), "/Yes");
}

#[test]
fn button_state_resolution_prefers_exact_states_and_supports_boolean_aliases() {
    let states = vec!["/Off".to_owned(), "/Selected".to_owned()];

    assert_eq!(resolve_button_state(&states, "/selected"), Some("/Selected".to_owned()));
    assert_eq!(resolve_button_state(&states, "on"), Some("/Selected".to_owned()));
    assert_eq!(resolve_button_state(&states, "true"), Some("/Selected".to_owned()));
    assert_eq!(resolve_button_state(&states, "unchecked"), Some("/Off".to_owned()));
    assert_eq!(resolve_button_state(&states, "unknown"), None);

    let radio_states = vec!["/No".to_owned(), "/Off".to_owned(), "/Yes".to_owned()];
    assert_eq!(resolve_button_state(&radio_states, "no"), Some("/No".to_owned()));
}

#[test]
fn choose_button_state_maps_on_to_the_widgets_non_off_appearance() {
    let mut normal = Dictionary::new();
    normal.set("Yes", Object::Null);
    let mut appearance = Dictionary::new();
    appearance.set("N", Object::Dictionary(normal));
    let mut widget = Dictionary::new();
    widget.set("FT", Object::Name(b"Btn".to_vec()));
    widget.set("AP", Object::Dictionary(appearance));

    assert_eq!(
        pdfer_forms::appearance::choose_button_state(
            &conv_doc(&Document::with_version("1.7")),
            &conv_dict(&widget),
            "on"
        ),
        "/Yes"
    );
}

#[test]
fn decode_pdf_text_handles_utf16be_bom() {
    let bytes = encode_pdf_text("Hello");
    assert_eq!(decode_pdf_text(&bytes), "Hello");
}

#[test]
fn indexed_key_matches_pypdf_suffixing() {
    let mut fields: Vec<(String, Option<String>)> = Vec::new();
    fields.push(("city".to_owned(), Some("Berlin".to_owned())));
    assert_eq!(indexed_key("city", &fields), "city.2");
    fields.push(("city.2".to_owned(), Some("Paris".to_owned())));
    assert_eq!(indexed_key("city", &fields), "city.3");
}

#[test]
fn keep_current_materializes_existing_value() {
    let input = FieldInput::KeepCurrent;
    let resolved = input.materialize(Some("existing"));
    assert_eq!(resolved, FieldInput::Text("existing".to_owned()));
}

// ---------------------------------------------------------------------------
// Filling
// ---------------------------------------------------------------------------

#[test]
fn fills_merged_widget_by_fully_qualified_name() {
    fn set(dict: &mut Dictionary, k: &str, v: Object) {
        dict.set(k, v);
    }
    let mut doc = Document::with_version("1.7");
    let pages_id = doc.new_object_id();
    let top_id = doc.new_object_id();
    let p_id = doc.new_object_id();
    let widget_id = doc.new_object_id();
    let page_id = doc.new_object_id();

    let mut top = Dictionary::new();
    set(&mut top, "T", Object::string_literal("topmostSubform[0]"));
    set(&mut top, "Kids", Object::Array(vec![Object::Reference(p_id)]));
    doc.objects.insert(top_id, Object::Dictionary(top));

    let mut parent = Dictionary::new();
    set(&mut parent, "T", Object::string_literal("Page1[0]"));
    set(&mut parent, "Parent", Object::Reference(top_id));
    set(&mut parent, "Kids", Object::Array(vec![Object::Reference(widget_id)]));
    doc.objects.insert(p_id, Object::Dictionary(parent));

    let mut widget = Dictionary::new();
    set(&mut widget, "Type", Object::Name(b"Annot".to_vec()));
    set(&mut widget, "Subtype", Object::Name(b"Widget".to_vec()));
    set(&mut widget, "FT", Object::Name(b"Tx".to_vec()));
    set(&mut widget, "T", Object::string_literal("f1_07[0]"));
    set(&mut widget, "Parent", Object::Reference(p_id));
    set(
        &mut widget,
        "Rect",
        Object::Array(vec![
            Object::Integer(0),
            Object::Integer(0),
            Object::Integer(150),
            Object::Integer(20),
        ]),
    );
    doc.objects.insert(widget_id, Object::Dictionary(widget));

    let mut page = Dictionary::new();
    set(&mut page, "Type", Object::Name(b"Page".to_vec()));
    set(&mut page, "Parent", Object::Reference(pages_id));
    set(
        &mut page,
        "MediaBox",
        Object::Array(vec![
            Object::Integer(0),
            Object::Integer(0),
            Object::Integer(612),
            Object::Integer(792),
        ]),
    );
    set(&mut page, "Annots", Object::Array(vec![Object::Reference(widget_id)]));
    doc.objects.insert(page_id, Object::Dictionary(page));

    let mut pages = Dictionary::new();
    set(&mut pages, "Type", Object::Name(b"Pages".to_vec()));
    set(&mut pages, "Kids", Object::Array(vec![Object::Reference(page_id)]));
    set(&mut pages, "Count", Object::Integer(1));
    doc.objects.insert(pages_id, Object::Dictionary(pages));

    let mut acro = Dictionary::new();
    set(&mut acro, "Fields", Object::Array(vec![Object::Reference(top_id)]));
    set(&mut acro, "DA", Object::string_literal("/Helv 10 Tf 0 g"));
    let acro_id = doc.add_object(Object::Dictionary(acro));

    let mut catalog = Dictionary::new();
    set(&mut catalog, "Type", Object::Name(b"Catalog".to_vec()));
    set(&mut catalog, "Pages", Object::Reference(pages_id));
    set(&mut catalog, "AcroForm", Object::Reference(acro_id));
    let catalog_id = doc.add_object(Object::Dictionary(catalog));
    doc.trailer.set("Root", Object::Reference(catalog_id));

    let fq = "topmostSubform[0].Page1[0].f1_07[0]".to_owned();
    let reader = PdfReaderCompat::from_document(conv_doc(&doc));
    let fields = reader.get_fields().ok().unwrap().unwrap();
    assert!(field_names(&fields).contains(&fq), "get_fields keys: {:?}", field_names(&fields));

    let mut writer = PdfWriterCompat::from_document(reader.into_inner());
    let report = fill(&mut writer, PageSelection::All, &[(fq.as_str(), text("Maria Garcia"))], Some(true), false);

    assert_eq!(report.unmatched, Vec::<String>::new(), "fully-qualified name must match");
    assert_eq!(report.matched, vec![fq]);
    assert_eq!(report.widgets_updated, 1);
}

#[test]
fn fills_by_leaf_when_group_path_is_mangled() {
    let (doc, _, _) = single_widget_document("f1_07[0]", 150);
    let mut writer = PdfWriterCompat::from_document(conv_doc(&doc));
    let mangled = "topmostSubform[0].Page1[0].Address_ReadOrder[0].f1_07[0]".to_owned();
    let report = fill(&mut writer, PageSelection::All, &[(mangled.as_str(), text("Mary Smith"))], Some(true), false);
    assert_eq!(report.matched, vec![mangled], "leaf `/T` should match a mangled group path");
    assert!(report.unmatched.is_empty());
}

#[test]
fn unmatched_field_is_reported_not_silently_dropped() {
    let (doc, _, _) = single_widget_document("real_field", 100);
    let mut writer = PdfWriterCompat::from_document(conv_doc(&doc));
    let report = fill(
        &mut writer,
        PageSelection::All,
        &[("real_field", text("ok")), ("ghost_field", text("nope"))],
        Some(true),
        false,
    );

    assert_eq!(report.matched, vec!["real_field".to_owned()]);
    assert_eq!(report.unmatched, vec!["ghost_field".to_owned()]);
    assert!(!report.all_matched());
}

#[test]
fn merged_widget_fill_does_not_overwrite_its_nonterminal_parent() {
    let (document, parent_id, widget_id) = merged_text_document();
    let mut writer = PdfWriterCompat::from_document(conv_doc(&document));
    fill(&mut writer, PageSelection::All, &[("group.name", text("Ada"))], Some(false), false);

    let parent = dict_of(writer.document(), parent_id);
    match entry(parent, b"T") {
        Some(PdfObject::Str(b, _)) => assert_eq!(b.as_slice(), b"group"),
        other => panic!("unexpected /T: {other:?}"),
    }
    match entry(parent, b"Kids") {
        Some(PdfObject::Array(items)) => {
            assert_eq!(items.len(), 1);
            assert!(matches!(items[0], PdfObject::Reference(id) if id == widget_id));
        }
        other => panic!("unexpected /Kids: {other:?}"),
    }
    assert!(entry(parent, b"Parent").is_none(), "parent must not become self-referential");
}

#[test]
fn radio_fill_keeps_canonical_value_independent_of_widget_order() {
    let (document, field_id, _) = radio_document();
    let mut writer = PdfWriterCompat::from_document(conv_doc(&document));
    fill(&mut writer, PageSelection::All, &[("choice", text("B"))], Some(false), false);

    let field = dict_of(writer.document(), field_id);
    match entry(field, b"V") {
        Some(PdfObject::Name(n)) => assert_eq!(n.as_slice(), b"B"),
        other => panic!("unexpected /V: {other:?}"),
    }
}

#[test]
fn flatten_uses_a_distinct_xobject_for_each_widget() {
    let (document, _, page_id) = radio_document();
    let mut writer = PdfWriterCompat::from_document(conv_doc(&document));
    fill(&mut writer, PageSelection::All, &[("choice", text("B"))], Some(false), true);

    let page = dict_of(writer.document(), page_id);
    let resources = match entry(page, b"Resources") {
        Some(PdfObject::Dictionary(d)) => d,
        other => panic!("unexpected /Resources: {other:?}"),
    };
    let xobjects = match entry(resources, b"XObject") {
        Some(PdfObject::Dictionary(d)) => d,
        other => panic!("unexpected /XObject: {other:?}"),
    };
    assert_eq!(xobjects.entries.len(), 2, "each placement must retain its own appearance stream");
}

#[test]
fn discovers_checkbox_states_from_separate_child_widget() {
    let reader = PdfReaderCompat::from_document(conv_doc(&separate_checkbox_document(false)));
    let fields = reader.get_fields().ok().unwrap().unwrap();

    assert_eq!(lookup(&fields, "check").states, vec!["/Off", "/Yes"]);
}

#[test]
fn discovers_indirect_kids_and_their_page() {
    let reader = PdfReaderCompat::from_document(conv_doc(&separate_checkbox_document(true)));
    let fields = reader.get_fields().ok().unwrap().unwrap();

    assert_eq!(lookup(&fields, "check").kids.len(), 1);
    assert_eq!(lookup(&fields, "check").states, vec!["/Off", "/Yes"]);
    assert_eq!(
        reader.get_pages_showing_field(FieldSpecifier::Name("check".to_owned())).ok().unwrap().len(),
        1
    );
}

#[test]
fn reattach_fields_does_not_duplicate_an_existing_descendant_widget() {
    let (document, _, _) = merged_text_document();
    let mut writer = PdfWriterCompat::from_document(conv_doc(&document));

    let reattached = writer.reattach_fields(None).ok().unwrap();

    assert!(reattached.is_empty());
    assert_eq!(writer.get_fields().ok().unwrap().unwrap().len(), 2);
}

// ---------------------------------------------------------------------------
// More scenarios
// ---------------------------------------------------------------------------

#[test]
fn filled_text_reads_back_through_get_fields() {
    let (doc, _, _) = single_widget_document("city", 120);
    let mut writer = PdfWriterCompat::from_document(conv_doc(&doc));
    let report = fill(&mut writer, PageSelection::All, &[("city", text("Grüße 😀"))], Some(false), false);
    assert!(report.all_matched());
    let fields = writer.get_fields().ok().unwrap().unwrap();
    assert_eq!(lookup(&fields, "city").value, Some(FieldValue::Text("Grüße 😀".to_owned())));
    let texts = writer.get_form_text_fields(true).ok().unwrap();
    assert_eq!(texts, vec![("city".to_owned(), Some("Grüße 😀".to_owned()))]);
}

#[test]
fn text_appearance_stream_has_exact_content_and_box() {
    let (doc, widget_id, _) = single_widget_document("name", 150);
    let mut writer = PdfWriterCompat::from_document(conv_doc(&doc));
    fill(&mut writer, PageSelection::All, &[("name", text("A(b)"))], None, false);
    let widget = dict_of(writer.document(), widget_id);
    let ap = match entry(widget, b"AP") {
        Some(PdfObject::Dictionary(d)) => d,
        other => panic!("unexpected /AP: {other:?}"),
    };
    let sid = match entry(ap, b"N") {
        Some(PdfObject::Reference(id)) => *id,
        other => panic!("unexpected /N: {other:?}"),
    };
    let stream = match writer.document().get_object(sid).ok().unwrap() {
        PdfObject::Stream(s) => s,
        other => panic!("unexpected stream: {other:?}"),
    };
    assert_eq!(
        String::from_utf8(stream.content.clone()).unwrap(),
        "q\nBT\n/Helv 16 Tf\n2 2 Td\n(A\\(b\\)) Tj\nET\nQ\n"
    );
    match entry(&stream.dict, b"Length") {
        Some(PdfObject::Integer(n)) => assert_eq!(*n as usize, stream.content.len()),
        other => panic!("unexpected /Length: {other:?}"),
    }
    match entry(&stream.dict, b"BBox") {
        Some(PdfObject::Array(items)) => {
            assert!(matches!(items[2], PdfObject::Real(_, ref t) if t == "150"));
            assert!(matches!(items[3], PdfObject::Real(_, ref t) if t == "20"));
        }
        other => panic!("unexpected /BBox: {other:?}"),
    }
    let fields = writer.get_fields().ok().unwrap().unwrap();
    assert_eq!(lookup(&fields, "name").value, Some(FieldValue::Text("A(b)".to_owned())));
}

#[test]
fn checkbox_on_alias_selects_the_widget_state() {
    let document = separate_checkbox_document(false);
    let mut writer = PdfWriterCompat::from_document(conv_doc(&document));
    let report = fill(&mut writer, PageSelection::All, &[("check", text("on"))], Some(true), false);
    assert_eq!(report.widgets_updated, 1);
    let fields = writer.get_fields().ok().unwrap().unwrap();
    assert_eq!(lookup(&fields, "check").value, Some(FieldValue::Name("/Yes".to_owned())));
}

#[test]
fn missing_acroform_is_refused() {
    let mut doc = Document::with_version("1.7");
    let mut catalog = Dictionary::new();
    catalog.set("Type", name("Catalog"));
    let catalog_id = doc.add_object(Object::Dictionary(catalog));
    doc.trailer.set("Root", Object::Reference(catalog_id));
    let mut writer = PdfWriterCompat::from_document(conv_doc(&doc));
    let r = writer.update_page_form_field_values(PageSelection::All, &Vec::new(), 0, None, false, &layout, &int_text);
    assert!(matches!(r, Err(pdfer_forms::error::PdferError::MissingAcroForm)));
    assert!(writer.get_fields().ok().unwrap().is_none());
}

#[test]
fn missing_catalog_is_refused() {
    let doc = Document::with_version("1.7");
    let reader = PdfReaderCompat::from_document(conv_doc(&doc));
    assert!(matches!(reader.get_fields(), Err(pdfer_forms::error::PdferError::MissingCatalog)));
}

#[test]
fn invalid_rect_is_refused() {
    let (mut doc, widget_id, _) = single_widget_document("f", 100);
    if let Ok(Object::Dictionary(d)) = doc.get_object_mut(widget_id) {
        d.set("Rect", Object::Array(vec![Object::Integer(0)]));
    }
    let mut writer = PdfWriterCompat::from_document(conv_doc(&doc));
    let r = writer.update_page_form_field_values(
        PageSelection::All,
        &vec![("f".to_owned(), text("x"))],
        0,
        None,
        false,
        &layout,
        &int_text,
    );
    match r {
        Err(pdfer_forms::error::PdferError::InvalidStructure(m)) => {
            assert_eq!(m, "/Rect must have four numbers")
        }
        other => panic!("unexpected: {other:?}"),
    }
}

#[test]
fn missing_page_index_is_refused() {
    let (doc, _, _) = single_widget_document("f", 100);
    let reader = PdfReaderCompat::from_document(conv_doc(&doc));
    assert!(matches!(reader.page(3), Err(pdfer_forms::error::PdferError::MissingPage(3))));
    assert_eq!(reader.pages().len(), 1);
    assert_eq!(reader.page(0).ok().unwrap().index, 0);
}

#[test]
fn pages_showing_unknown_field_is_missing() {
    let (doc, _, _) = single_widget_document("f", 100);
    let reader = PdfReaderCompat::from_document(conv_doc(&doc));
    match reader.get_pages_showing_field(FieldSpecifier::Name("nope".to_owned())) {
        Err(pdfer_forms::error::PdferError::MissingField(n)) => assert_eq!(n, "nope"),
        other => panic!("unexpected: {other:?}"),
    }
}

#[test]
fn pages_showing_untyped_field_is_invalid() {
    let (document, parent_id, _) = merged_text_document();
    let reader = PdfReaderCompat::from_document(conv_doc(&document));
    match reader.get_pages_showing_field(FieldSpecifier::Id(parent_id)) {
        Err(pdfer_forms::error::PdferError::InvalidField(n)) => assert_eq!(n, format!("{} 0", parent_id.0)),
        other => panic!("unexpected: {other:?}"),
    }
}

#[test]
fn text_fields_by_partial_name_are_suffixed() {
    let (document, _, _) = merged_text_document();
    let reader = PdfReaderCompat::from_document(conv_doc(&document));
    let full = reader.get_form_text_fields(true).ok().unwrap();
    assert_eq!(full, vec![("group.name".to_owned(), None)]);
    let partial = reader.get_form_text_fields(false).ok().unwrap();
    assert_eq!(partial, vec![("name".to_owned(), None)]);
}

#[test]
fn topname_groups_and_renames_fields() {
    let (doc, widget_id, _) = single_widget_document("f", 100);
    let mut reader = PdfReaderCompat::from_document(conv_doc(&doc));
    let top = reader.add_form_topname("form1").ok().unwrap().unwrap();
    assert_eq!(top.qualified_name, "form1");
    assert_eq!(top.kids, vec![widget_id]);
    let fields = reader.get_fields().ok().unwrap().unwrap();
    assert_eq!(field_names(&fields), vec!["form1".to_owned(), "form1.f".to_owned()]);
    let renamed = reader.rename_form_topname("renamed").ok().unwrap().unwrap();
    assert_eq!(renamed.partial_name, Some("renamed".to_owned()));
    let fields = reader.get_fields().ok().unwrap().unwrap();
    assert_eq!(field_names(&fields), vec!["renamed".to_owned(), "renamed.f".to_owned()]);
}

#[test]
fn need_appearances_is_set() {
    let (doc, _, _) = single_widget_document("f", 100);
    let mut writer = PdfWriterCompat::from_document(conv_doc(&doc));
    writer.set_need_appearances_writer(true).ok().unwrap();
    let catalog_id = match writer.document().trailer.get(b"Root") {
        Some(PdfObject::Reference(id)) => *id,
        _ => panic!("no root"),
    };
    let catalog = dict_of(writer.document(), catalog_id);
    let acro_id = match entry(catalog, b"AcroForm") {
        Some(PdfObject::Reference(id)) => *id,
        _ => panic!("no form"),
    };
    let acro = dict_of(writer.document(), acro_id);
    assert!(matches!(entry(acro, b"NeedAppearances"), Some(PdfObject::Boolean(true))));
}

#[test]
fn remove_annotations_drops_widgets_and_nulls_them() {
    let (doc, widget_id, page_id) = single_widget_document("f", 100);
    let mut writer = PdfWriterCompat::from_document(conv_doc(&doc));
    let kinds = vec!["Widget".to_owned()];
    writer.remove_annotations(Some(&kinds)).ok().unwrap();
    let page = dict_of(writer.document(), page_id);
    assert!(matches!(entry(page, b"Annots"), Some(PdfObject::Array(items)) if items.is_empty()));
    assert!(matches!(writer.document().get_object(widget_id), Ok(PdfObject::Null)));
}

#[test]
fn rotate_and_split_pages() {
    let (doc, _, page_id) = single_widget_document("f", 100);
    let mut model = conv_doc(&doc);
    let bad = pdfer_forms::ops::rotate_pages(&mut model, &vec![1], 45);
    match bad {
        Err(pdfer_forms::error::PdferError::Message(m)) => {
            assert_eq!(m, "invalid rotation degrees 45: must be 0, 90, 180, or 270")
        }
        other => panic!("unexpected: {other:?}"),
    }
    assert!(matches!(
        pdfer_forms::ops::rotate_pages(&mut model, &vec![2], 90),
        Err(pdfer_forms::error::PdferError::MissingPage(2))
    ));
    pdfer_forms::ops::rotate_pages(&mut model, &vec![1], 90).ok().unwrap();
    assert!(matches!(entry(dict_of(&model, page_id), b"Rotate"), Some(PdfObject::Integer(90))));

    assert_eq!(pdfer_forms::ops::pages_to_delete(4, &vec![1, 3]).ok().unwrap(), vec![2, 4]);
    assert!(matches!(
        pdfer_forms::ops::pages_to_delete(4, &vec![5]),
        Err(pdfer_forms::error::PdferError::MissingPage(5))
    ));
    assert!(matches!(
        pdfer_forms::ops::pages_to_delete(4, &vec![]),
        Err(pdfer_forms::error::PdferError::Message(_))
    ));
}

#[test]
fn text_encoding_roundtrips_and_decodes_lossily() {
    for s in ["", "Hello", "Grüße", "日本語", "😀 emoji"] {
        assert_eq!(decode_pdf_text(&encode_pdf_text(s)), s);
    }
    // an unpaired surrogate becomes U+FFFD
    assert_eq!(decode_pdf_text(&[0xFE, 0xFF, 0xD8, 0x00, 0x00, 0x41]), "\u{FFFD}A");
    // valid UTF-8 is read as UTF-8, anything else as Latin-1
    assert_eq!(pdfer_forms::text::decode_pdf_doc_encoding("é".as_bytes()), "é");
    assert_eq!(pdfer_forms::text::decode_pdf_doc_encoding(&[0xE9]), "é");
    assert_eq!(pdfer_forms::text::escape_content_text("a(b)\\c\nd€"), "a\\(b\\)\\\\c d?");
}

#[test]
fn field_values_render_as_text() {
    assert_eq!(pdfer_forms::inspect::field_value_to_string(&FieldValue::Text("x".to_owned())), "x");
    assert_eq!(
        pdfer_forms::inspect::field_value_to_string(&FieldValue::List(vec!["A".to_owned(), "C".to_owned()])),
        "A, C"
    );
    assert_eq!(pdfer_forms::inspect::field_value_to_string(&FieldValue::Null), "");
    assert_eq!(FieldValue::Name("/Yes".to_owned()).as_text(), Some("/Yes"));
    assert_eq!(
        pdfer_forms::objects::object_to_text_lossy(&PdfObject::Array(vec![
            PdfObject::Name(vec![0xFF]),
            PdfObject::Integer(-3)
        ])),
        "[/\u{FFFD} -3]"
    );
}

#[test]
fn dictionary_set_get_remove() {
    let mut d = PdfDict::new();
    d.set(b"A".to_vec(), PdfObject::Integer(1));
    d.set(b"B".to_vec(), PdfObject::Integer(2));
    d.set(b"A".to_vec(), PdfObject::Integer(3));
    assert!(matches!(d.get(b"A"), Some(PdfObject::Integer(3))));
    assert_eq!(d.entries[0].0, b"A".to_vec());
    d.remove(b"A");
    assert!(d.get(b"A").is_none());
    assert!(matches!(d.get(b"B"), Some(PdfObject::Integer(2))));
}

#[test]
fn button_states_are_sorted_and_unique() {
    let mut normal = Dictionary::new();
    normal.set("Yes", Object::Null);
    normal.set("Off", Object::Null);
    normal.set("Maybe", Object::Null);
    let mut appearance = Dictionary::new();
    appearance.set("N", Object::Dictionary(normal));
    let mut widget = Dictionary::new();
    widget.set("AP", Object::Dictionary(appearance));
    let states = extract_button_states(&conv_doc(&Document::with_version("1.7")), &conv_dict(&widget)).unwrap();
    assert_eq!(states, vec!["/Maybe", "/Off", "/Yes"]);
}

#[test]
fn serialized_field_summarises_type_value_and_states() {
    let (doc, _, _) = single_widget_document("city", 120);
    let mut writer = PdfWriterCompat::from_document(conv_doc(&doc));
    fill(&mut writer, PageSelection::All, &[("city", text("Paris"))], Some(false), false);
    let fields = writer.get_fields().ok().unwrap().unwrap();
    let info = pdfer_forms::inspect::serialize_field(lookup(&fields, "city"));
    assert_eq!(info.field_type, Some("/Tx".to_owned()));
    assert_eq!(info.value, Some("Paris".to_owned()));
    assert_eq!(info.default_value, None);
    assert_eq!(info.flags, 0);
    assert_eq!(info.states, None);

    let (radio, _, _) = radio_document();
    let reader = PdfReaderCompat::from_document(conv_doc(&radio));
    let fields = reader.get_fields().ok().unwrap().unwrap();
    let (name, field) = fields.iter().find(|(_, f)| !f.states.is_empty()).unwrap();
    let info = pdfer_forms::inspect::serialize_field(field);
    assert_eq!(info.field_type, Some("/Btn".to_owned()), "{name}");
    assert_eq!(info.states.as_ref(), Some(&field.states));
    assert_eq!(info.flags, field.flags);
    assert_eq!(pdfer_forms::field_flags::RADIO, 1 << 15);
}

#[test]
fn object_table_set_and_add_read_back() {
    let mut doc = PdfDocument::new();
    doc.set_object((3, 0), PdfObject::Integer(7));
    doc.set_object((1, 0), PdfObject::Reference((3, 0)));
    assert!(matches!(doc.get_object((1, 0)), Ok(PdfObject::Integer(7))));
    doc.set_object((3, 0), PdfObject::Boolean(true));
    assert!(matches!(doc.get_object((3, 0)), Ok(PdfObject::Boolean(true))));
    assert!(matches!(doc.get_object((1, 0)), Ok(PdfObject::Boolean(true))));
    let id = doc.add_object(PdfObject::Null).unwrap();
    assert_eq!(id, (1, 0));
    assert!(matches!(doc.get_object((1, 0)), Ok(PdfObject::Null)));
    assert!(matches!(
        doc.get_object((9, 0)),
        Err(pdfer_forms::model::DocError::ObjectNotFound((9, 0)))
    ));
}

#[test]
fn field_names_come_sorted_and_once() {
    let (doc, _, _) = radio_document();
    let reader = PdfReaderCompat::from_document(conv_doc(&doc));
    let fields = reader.get_fields().ok().unwrap().unwrap();
    let names = field_names(&fields);
    let mut sorted = names.clone();
    sorted.sort();
    sorted.dedup();
    assert_eq!(names, sorted);
    for (name, field) in &fields {
        assert_eq!(name, &field.qualified_name);
    }
}

#[test]
fn acroform_id_is_found_through_the_catalog() {
    let (doc, _, _) = single_widget_document("f", 100);
    let model = conv_doc(&doc);
    let id = pdfer_forms::access::get_acroform_id(&model).ok().unwrap();
    let catalog_id = doc.trailer.get(b"Root").unwrap().as_reference().unwrap();
    let expected = doc.get_dictionary(catalog_id).unwrap().get(b"AcroForm").unwrap().as_reference().unwrap();
    assert_eq!(id, Some(expected));

    let mut direct = doc.clone();
    direct
        .get_dictionary_mut(catalog_id)
        .unwrap()
        .set("AcroForm", Object::Dictionary(Dictionary::new()));
    assert_eq!(pdfer_forms::access::get_acroform_id(&conv_doc(&direct)).ok().unwrap(), None);

    let mut broken = doc.clone();
    broken.get_dictionary_mut(catalog_id).unwrap().set("AcroForm", Object::Integer(1));
    assert!(matches!(
        pdfer_forms::access::get_acroform_id(&conv_doc(&broken)),
        Err(pdfer_forms::error::PdferError::InvalidStructure("/AcroForm is not a dictionary"))
    ));
}

fn extend_with_lopdf(a: PdfDict, b: PdfDict) -> PdfDict {
    fn back(o: &PdfObject) -> Object {
        match o {
            PdfObject::Null => Object::Null,
            PdfObject::Boolean(b) => Object::Boolean(*b),
            PdfObject::Integer(i) => Object::Integer(*i),
            PdfObject::Real(bits, _) => Object::Real(f32::from_bits(*bits)),
            PdfObject::Name(n) => Object::Name(n.clone()),
            PdfObject::Str(s, StringFormat::Literal) => Object::String(s.clone(), LopdfStringFormat::Literal),
            PdfObject::Str(s, StringFormat::Hexadecimal) => {
                Object::String(s.clone(), LopdfStringFormat::Hexadecimal)
            }
            PdfObject::Array(a) => Object::Array(a.iter().map(back).collect()),
            PdfObject::Dictionary(d) => Object::Dictionary(back_dict(d)),
            PdfObject::Stream(s) => Object::Stream(Stream::new(back_dict(&s.dict), s.content.clone())),
            PdfObject::Reference(id) => Object::Reference(*id),
        }
    }
    fn back_dict(d: &PdfDict) -> Dictionary {
        let mut out = Dictionary::new();
        for (k, v) in &d.entries {
            out.set(k.clone(), back(v));
        }
        out
    }
    let mut d = back_dict(&a);
    d.extend(&back_dict(&b));
    conv_dict(&d)
}

#[test]
fn merge_parts_builds_one_page_tree() {
    let (first, _, first_page) = single_widget_document("a", 100);
    let (mut second, _, _) = single_widget_document("b", 100);
    second.renumber_objects_with(first.max_id + 1);
    let second_page = *second.get_pages().values().next().unwrap();
    let parts = vec![conv_doc(&first), conv_doc(&second)];
    let merged = pdfer_forms::merge::merge_parts(parts, &extend_with_lopdf).ok().unwrap();
    assert_eq!(merged.pages, vec![first_page, second_page]);
    let root_ref = match entry(&merged.trailer, b"Root") {
        Some(PdfObject::Reference(id)) => *id,
        other => panic!("no root: {other:?}"),
    };
    let catalog = dict_of(&merged, root_ref);
    let pages_id = match entry(catalog, b"Pages") {
        Some(PdfObject::Reference(id)) => *id,
        other => panic!("no pages: {other:?}"),
    };
    assert!(entry(catalog, b"Outlines").is_none());
    let root = dict_of(&merged, pages_id);
    assert!(matches!(entry(root, b"Count"), Some(PdfObject::Integer(2))));
    match entry(root, b"Kids") {
        Some(PdfObject::Array(kids)) => {
            assert!(matches!(kids.as_slice(), [PdfObject::Reference(a), PdfObject::Reference(b)]
                if *a == first_page && *b == second_page));
        }
        other => panic!("no kids: {other:?}"),
    }
    for page in [first_page, second_page] {
        assert!(matches!(entry(dict_of(&merged, page), b"Parent"), Some(PdfObject::Reference(p)) if *p == pages_id));
    }

    match pdfer_forms::merge::merge_parts(vec![], &extend_with_lopdf) {
        Err(pdfer_forms::error::PdferError::Message(m)) => assert_eq!(m, "no documents to merge"),
        other => panic!("unexpected: {other:?}"),
    }
    let mut bare = PdfDocument::new();
    bare.set_object((1, 0), PdfObject::Integer(3));
    match pdfer_forms::merge::merge_parts(vec![bare], &extend_with_lopdf) {
        Err(pdfer_forms::error::PdferError::Message(m)) => assert_eq!(m, "no Pages object found"),
        other => panic!("unexpected: {other:?}"),
    }
}

#[test]
fn keep_current_leaves_button_values_alone() {
    let (document, field_id, _) = radio_document();
    let mut writer = PdfWriterCompat::from_document(conv_doc(&document));
    fill(&mut writer, PageSelection::All, &[("choice", FieldInput::KeepCurrent)], Some(false), false);
    let field = dict_of(writer.document(), field_id);
    assert!(entry(field, b"V").is_none());
    let widgets: Vec<ObjectId> = match entry(field, b"Kids") {
        Some(PdfObject::Array(kids)) => kids
            .iter()
            .map(|k| match k {
                PdfObject::Reference(id) => *id,
                other => panic!("not a reference: {other:?}"),
            })
            .collect(),
        other => panic!("no kids: {other:?}"),
    };
    for w in widgets {
        let widget = dict_of(writer.document(), w);
        assert!(entry(widget, b"V").is_none());
        assert!(matches!(entry(widget, b"AS"), Some(PdfObject::Name(n)) if n.as_slice() == b"Off"));
    }
}

#[test]
fn core_font_resource_is_added_once() {
    let (doc, _, _) = single_widget_document("f", 100);
    let mut model = conv_doc(&doc);
    let acro_id = pdfer_forms::access::get_acroform_id(&model).ok().unwrap().unwrap();
    let first = pdfer_forms::appearance::ensure_core_font_resource(&mut model, acro_id, "/Helv").ok().unwrap();
    let after_first = model.duplicate();
    let second = pdfer_forms::appearance::ensure_core_font_resource(&mut model, acro_id, "Helv").ok().unwrap();
    assert_eq!(first, second);
    assert!(model == after_first);
}

#[test]
fn button_requests_ignore_case_and_slashes() {
    let states = vec!["/Off".to_owned(), "/Selected".to_owned()];
    for request in ["selected", "on", "off", "nothing", " true "] {
        let upper = format!("/{}", request.to_ascii_uppercase());
        assert_eq!(resolve_button_state(&states, request), resolve_button_state(&states, &upper));
    }
}

#[test]
fn text_fields_by_qualified_name_are_the_tx_fields() {
    let (doc, _, _) = single_widget_document("city", 120);
    let mut writer = PdfWriterCompat::from_document(conv_doc(&doc));
    fill(&mut writer, PageSelection::All, &[("city", text("Oslo"))], Some(false), false);
    let fields = writer.get_fields().ok().unwrap().unwrap();
    let texts = writer.get_form_text_fields(true).ok().unwrap();
    let expected: Vec<(String, Option<String>)> = fields
        .iter()
        .filter(|(_, f)| f.is_text_field())
        .map(|(k, f)| (k.clone(), f.value.as_ref().map(pdfer_forms::inspect::field_value_to_string)))
        .collect();
    assert_eq!(texts, expected);
}

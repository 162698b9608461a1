//! The assembler's back half: serialize the document model into one paginated
//! PDF. The structural graph — catalog, page collection, one page per image,
//! each page's content placing its full-page image — is built here in verified
//! code from plain values; the PDF container library only stores the objects
//! and serializes them, behind trusted wrappers. The wrappers carry a ghost
//! model of the object graph (`PdfValue`), so what the saved document holds —
//! its page count, kids, media boxes, content placement and save settings —
//! is stated, not assumed. Serialization uses object streams, cross-reference
//! streams and the maximum compression setting.

use vstd::prelude::*;
use vstd::seq_lib::group_to_multiset_ensures;
use vstd::utf8::encode_utf8;
use crate::assemble::{
    build_model, file_tuple, file_tuples, model_tuple, model_tuples, page_tuple, page_tuples,
    parse_pages, sort_pages, AssembleError, DocumentModel, ModelPage,
};
use crate::digits::{dec_digits, u32_to_decimal};
use crate::ident::id_le;
use crate::name::parse_name;
use crate::normalize::{decoded_dims, NamedBytes};
use crate::scale::Dim;

verus! {

broadcast use group_to_multiset_ensures;

#[verifier::external_type_specification]
#[verifier::external_body]
pub struct ExDocument(lopdf::Document);

#[verifier::external_type_specification]
#[verifier::external_body]
pub struct ExObject(lopdf::Object);

#[verifier::external_type_specification]
#[verifier::external_body]
pub struct ExDictionary(lopdf::Dictionary);

#[verifier::external_type_specification]
#[verifier::external_body]
pub struct ExStream(lopdf::Stream);

/// Ghost model of one PDF object: what a stored object holds, as plain values.
/// Dictionary keys and name values are the characters handed to the wrappers;
/// a stream is its dictionary and its content bytes.
pub enum PdfValue {
    Integer(i64),
    Name(Seq<char>),
    Reference((u32, u16)),
    Array(Seq<PdfValue>),
    Dict(Map<Seq<char>, PdfValue>),
    Stream(Map<Seq<char>, PdfValue>, Seq<u8>),
}

/// What a stored `lopdf::Object` holds.
pub uninterp spec fn obj_model(o: lopdf::Object) -> PdfValue;

/// What a `lopdf::Dictionary` holds.
pub uninterp spec fn dict_model(d: lopdf::Dictionary) -> Map<Seq<char>, PdfValue>;

/// What a `lopdf::Stream` holds: its dictionary and its content bytes.
pub uninterp spec fn stream_model(s: lopdf::Stream) -> (Map<Seq<char>, PdfValue>, Seq<u8>);

/// The document's object table: id to stored object.
pub uninterp spec fn doc_objects(d: lopdf::Document) -> Map<(u32, u16), PdfValue>;

/// The document's trailer dictionary.
pub uninterp spec fn doc_trailer(d: lopdf::Document) -> Map<Seq<char>, PdfValue>;

/// The largest object id the document has handed out.
pub uninterp spec fn doc_max_id(d: lopdf::Document) -> u32;

/// The document's container version.
pub uninterp spec fn doc_version(d: lopdf::Document) -> Seq<char>;

/// A document as fresh construction leaves it: the default binary mark and no
/// encryption — the state in which the writer's only non-I/O failure paths
/// cannot be taken, so saving into memory succeeds.
pub uninterp spec fn doc_pristine(d: lopdf::Document) -> bool;

/// Whether the container library can embed these image bytes as an XObject:
/// a function of the bytes alone.
pub uninterp spec fn embed_ok(bytes: Seq<u8>) -> bool;

/// An empty object table.
pub open spec fn empty_objects() -> Map<(u32, u16), PdfValue> {
    Map::empty()
}

/// An empty dictionary model.
pub open spec fn empty_dict() -> Map<Seq<char>, PdfValue> {
    Map::empty()
}

/// The bytes that serializing this document value with these settings yields:
/// a function of the document and the settings alone (objects are iterated in
/// id order).
pub uninterp spec fn saved_pdf(
    d: lopdf::Document,
    object_streams: bool,
    xref_streams: bool,
    linearize: bool,
    compression_level: u32,
    max_objects_per_stream: usize,
) -> Seq<u8>;

/// Relies on lopdf::Document::with_version: a fresh document — no objects, an
/// empty trailer, no ids handed out, the given version, the default binary
/// mark and no encryption.
#[verifier::external_body]
fn doc_with_version(version: &str) -> (r: lopdf::Document)
    ensures
        doc_objects(r) == empty_objects(),
        doc_trailer(r) == empty_dict(),
        doc_max_id(r) == 0,
        doc_version(r) == version@,
        doc_pristine(r),
{
    lopdf::Document::with_version(version)
}

/// Relies on lopdf::Document::new_object_id: increments `max_id` and reserves
/// `(max_id, 0)`; nothing else changes.
#[verifier::external_body]
fn doc_new_object_id(doc: &mut lopdf::Document) -> (r: (u32, u16))
    requires
        doc_max_id(*old(doc)) < u32::MAX,
    ensures
        r == (((doc_max_id(*old(doc)) + 1) as u32), 0u16),
        doc_max_id(*final(doc)) == doc_max_id(*old(doc)) + 1,
        doc_objects(*final(doc)) == doc_objects(*old(doc)),
        doc_trailer(*final(doc)) == doc_trailer(*old(doc)),
        doc_version(*final(doc)) == doc_version(*old(doc)),
        doc_pristine(*old(doc)) ==> doc_pristine(*final(doc)),
{
    doc.new_object_id()
}

/// Relies on lopdf::Document::add_object: stores the object under the next
/// fresh id `(max_id + 1, 0)` and increments `max_id`.
#[verifier::external_body]
fn doc_add_object(doc: &mut lopdf::Document, object: lopdf::Object) -> (r: (u32, u16))
    requires
        doc_max_id(*old(doc)) < u32::MAX,
    ensures
        r == (((doc_max_id(*old(doc)) + 1) as u32), 0u16),
        doc_max_id(*final(doc)) == doc_max_id(*old(doc)) + 1,
        doc_objects(*final(doc)) == doc_objects(*old(doc)).insert(r, obj_model(object)),
        doc_trailer(*final(doc)) == doc_trailer(*old(doc)),
        doc_version(*final(doc)) == doc_version(*old(doc)),
        doc_pristine(*old(doc)) ==> doc_pristine(*final(doc)),
{
    doc.add_object(object)
}

/// Relies on lopdf::Document::set_object: stores the object under the given
/// id; `max_id` and the rest are untouched.
#[verifier::external_body]
fn doc_set_object(doc: &mut lopdf::Document, id: (u32, u16), object: lopdf::Object)
    ensures
        doc_objects(*final(doc)) == doc_objects(*old(doc)).insert(id, obj_model(object)),
        doc_max_id(*final(doc)) == doc_max_id(*old(doc)),
        doc_trailer(*final(doc)) == doc_trailer(*old(doc)),
        doc_version(*final(doc)) == doc_version(*old(doc)),
        doc_pristine(*old(doc)) ==> doc_pristine(*final(doc)),
{
    doc.set_object(id, object);
}

/// Relies on lopdf::Dictionary::set on the document's trailer dictionary:
/// binds the key to a reference. Binding any key but the encryption entry
/// keeps the document saveable.
#[verifier::external_body]
fn doc_trailer_set(doc: &mut lopdf::Document, key: &str, id: (u32, u16))
    ensures
        doc_trailer(*final(doc)) == doc_trailer(*old(doc)).insert(key@, PdfValue::Reference(id)),
        doc_objects(*final(doc)) == doc_objects(*old(doc)),
        doc_max_id(*final(doc)) == doc_max_id(*old(doc)),
        doc_version(*final(doc)) == doc_version(*old(doc)),
        doc_pristine(*old(doc)) && key@ != "Encrypt"@ ==> doc_pristine(*final(doc)),
{
    doc.trailer.set(key, lopdf::Object::Reference(id));
}

/// Relies on lopdf::Document::compress: every stored stream may be compressed
/// in place; every other object, the object table's ids, the trailer, the
/// version and the ids handed out are untouched.
#[verifier::external_body]
fn doc_compress(doc: &mut lopdf::Document)
    ensures
        doc_objects(*final(doc)).dom() == doc_objects(*old(doc)).dom(),
        forall|id: (u32, u16)| doc_objects(*old(doc)).dom().contains(id)
            && !((#[trigger] doc_objects(*old(doc))[id]) is Stream)
            ==> doc_objects(*final(doc))[id] == doc_objects(*old(doc))[id],
        forall|id: (u32, u16)| doc_objects(*old(doc)).dom().contains(id)
            && ((#[trigger] doc_objects(*old(doc))[id]) is Stream)
            ==> (doc_objects(*final(doc))[id]) is Stream,
        doc_trailer(*final(doc)) == doc_trailer(*old(doc)),
        doc_max_id(*final(doc)) == doc_max_id(*old(doc)),
        doc_version(*final(doc)) == doc_version(*old(doc)),
        doc_pristine(*old(doc)) ==> doc_pristine(*final(doc)),
{
    doc.compress();
}

/// Relies on lopdf::Document::save_with_options and lopdf::SaveOptions: the
/// result is the serialization of the document as handed in, under exactly the
/// given settings. Into a memory buffer every write succeeds, and on a
/// pristine document the writer's remaining failure paths (a non-default
/// binary mark; the encrypted-document detour) cannot be taken, so saving
/// succeeds.
#[verifier::external_body]
fn doc_save(
    doc: &mut lopdf::Document,
    linearize: bool,
    object_streams: bool,
    xref_streams: bool,
    compression_level: u32,
    max_objects_per_stream: usize,
) -> (r: Result<Vec<u8>, ()>)
    ensures
        r matches Ok(bytes) ==> bytes@ == saved_pdf(
            *old(doc),
            object_streams,
            xref_streams,
            linearize,
            compression_level,
            max_objects_per_stream,
        ),
        doc_pristine(*old(doc)) ==> r is Ok,
{
    let options = lopdf::SaveOptions::builder()
        .linearize(linearize)
        .use_object_streams(object_streams)
        .use_xref_streams(xref_streams)
        .compression_level(compression_level)
        .max_objects_per_stream(max_objects_per_stream)
        .build();
    let mut buffer: Vec<u8> = Vec::new();
    match doc.save_with_options(&mut buffer, options) {
        Ok(()) => Ok(buffer),
        Err(_) => Err(()),
    }
}

/// Relies on lopdf::Dictionary::new: an empty dictionary.
#[verifier::external_body]
fn dict_new() -> (r: lopdf::Dictionary)
    ensures
        dict_model(r) == empty_dict(),
{
    lopdf::Dictionary::new()
}

/// Relies on lopdf::Dictionary::set: binds the key to the value.
#[verifier::external_body]
fn dict_set(dict: &mut lopdf::Dictionary, key: &str, value: lopdf::Object)
    ensures
        dict_model(*final(dict)) == dict_model(*old(dict)).insert(key@, obj_model(value)),
{
    dict.set(key, value);
}

/// Relies on lopdf::Stream::new: a stream holding the text's bytes as content,
/// whose dictionary is the given one with a Length entry added.
#[verifier::external_body]
fn stream_new(dict: lopdf::Dictionary, content: String) -> (r: lopdf::Stream)
    ensures
        stream_model(r).1 == encode_utf8(content@),
        stream_model(r).0.dom() == dict_model(dict).dom().insert("Length"@),
        forall|k: Seq<char>| dict_model(dict).dom().contains(k) && k != "Length"@
            ==> (#[trigger] stream_model(r).0[k]) == dict_model(dict)[k],
{
    lopdf::Stream::new(dict, content.into_bytes())
}

/// Relies on lopdf::Object::Name (stored as the text's bytes).
#[verifier::external_body]
fn object_name(name: &str) -> (r: lopdf::Object)
    ensures
        obj_model(r) == PdfValue::Name(name@),
{
    lopdf::Object::Name(name.as_bytes().to_vec())
}

/// Relies on lopdf::Object::Integer.
#[verifier::external_body]
fn object_integer(value: i64) -> (r: lopdf::Object)
    ensures
        obj_model(r) == PdfValue::Integer(value),
{
    lopdf::Object::Integer(value)
}

/// Relies on lopdf::Object::Reference.
#[verifier::external_body]
fn object_reference(id: (u32, u16)) -> (r: lopdf::Object)
    ensures
        obj_model(r) == PdfValue::Reference(id),
{
    lopdf::Object::Reference(id)
}

/// The items of an array object model.
pub open spec fn array_items(v: PdfValue) -> Seq<PdfValue> {
    match v {
        PdfValue::Array(vs) => vs,
        _ => Seq::empty(),
    }
}

/// Relies on lopdf::Object::Array.
#[verifier::external_body]
fn object_array(items: Vec<lopdf::Object>) -> (r: lopdf::Object)
    ensures
        obj_model(r) is Array,
        array_items(obj_model(r)) == Seq::new(items@.len(), (|k: int| obj_model(items@[k]))),
{
    lopdf::Object::Array(items)
}

/// Relies on lopdf::Object::Dictionary.
#[verifier::external_body]
fn object_dictionary(dict: lopdf::Dictionary) -> (r: lopdf::Object)
    ensures
        obj_model(r) == PdfValue::Dict(dict_model(dict)),
{
    lopdf::Object::Dictionary(dict)
}

/// Relies on lopdf::Object::Stream.
#[verifier::external_body]
fn object_stream(stream: lopdf::Stream) -> (r: lopdf::Object)
    ensures
        obj_model(r) == PdfValue::Stream(stream_model(stream).0, stream_model(stream).1),
{
    lopdf::Object::Stream(stream)
}

/// Relies on lopdf::xobject::image_from: builds the image XObject stream —
/// dimensions, color space, bits per component, filter and raster data — from
/// the encoded image bytes. Success is a function of the bytes alone; it fails
/// exactly on bytes it cannot decode or represent.
#[verifier::external_body]
fn image_xobject(bytes: &Vec<u8>) -> (r: Result<lopdf::Stream, ()>)
    ensures
        r is Ok <==> embed_ok(bytes@),
{
    match lopdf::xobject::image_from(bytes.clone()) {
        Ok(stream) => Ok(stream),
        Err(_) => Err(()),
    }
}

/// The content stream that places one full-page image: scale the unit square
/// to the page's width and height and draw the page's single XObject. One
/// image pixel is one layout unit.
pub open spec fn page_content_text(width: u32, height: u32) -> Seq<char> {
    "q\n"@ + dec_digits(width as int) + " 0 0 "@ + dec_digits(height as int)
        + " 0 0 cm\n/X0 Do\nQ"@
}

/// Render the content stream text for one page.
pub fn page_content(width: u32, height: u32) -> (r: String)
    ensures
        r@ == page_content_text(width, height),
{
    let mut s = String::from_str("q\n");
    let w = u32_to_decimal(width);
    s.append(w.as_str());
    s.append(" 0 0 ");
    let h = u32_to_decimal(height);
    s.append(h.as_str());
    s.append(" 0 0 cm\n/X0 Do\nQ");
    proof {
        assert(s@ =~= page_content_text(width, height));
    }
    s
}

/// The compression level serialization uses: the maximum available setting.
pub const MAX_COMPRESSION: u32 = 9;

/// The document's object ids are handed out in a fixed order: the page
/// collection first, the catalog second, then per page its image XObject, its
/// content stream and its page dictionary.
pub open spec fn pages_collection_id() -> (u32, u16) {
    (1u32, 0u16)
}

/// The catalog's object id.
pub open spec fn catalog_id() -> (u32, u16) {
    (2u32, 0u16)
}

/// The image XObject id of the page at position `j`.
pub open spec fn image_obj_id(j: int) -> (u32, u16) {
    ((3 + 3 * j) as u32, 0u16)
}

/// The content stream id of the page at position `j`.
pub open spec fn content_obj_id(j: int) -> (u32, u16) {
    ((4 + 3 * j) as u32, 0u16)
}

/// The page dictionary id of the page at position `j`.
pub open spec fn page_obj_id(j: int) -> (u32, u16) {
    ((5 + 3 * j) as u32, 0u16)
}

/// The catalog: the document root, pointing at the page collection.
pub open spec fn catalog_value() -> PdfValue {
    PdfValue::Dict(
        Map::<Seq<char>, PdfValue>::empty()
            .insert("Type"@, PdfValue::Name("Catalog"@))
            .insert("Pages"@, PdfValue::Reference(pages_collection_id())),
    )
}

/// The page collection: one kid per page in order, and a count equal to the
/// number of pages.
pub open spec fn pages_collection_value(n: int) -> PdfValue {
    PdfValue::Dict(
        Map::<Seq<char>, PdfValue>::empty()
            .insert("Type"@, PdfValue::Name("Pages"@))
            .insert("Kids"@, PdfValue::Array(
                Seq::new(n as nat, |j: int| PdfValue::Reference(page_obj_id(j))),
            ))
            .insert("Count"@, PdfValue::Integer(n as i64)),
    )
}

/// One page: sized by its media box to exactly the image's pixel dimensions,
/// drawing its content stream, with the image as its sole XObject resource.
pub open spec fn page_value(j: int, width: u32, height: u32) -> PdfValue {
    PdfValue::Dict(
        Map::<Seq<char>, PdfValue>::empty()
            .insert("Type"@, PdfValue::Name("Page"@))
            .insert("Parent"@, PdfValue::Reference(pages_collection_id()))
            .insert("Contents"@, PdfValue::Reference(content_obj_id(j)))
            .insert("MediaBox"@, PdfValue::Array(seq![
                PdfValue::Integer(0),
                PdfValue::Integer(0),
                PdfValue::Integer(width as i64),
                PdfValue::Integer(height as i64),
            ]))
            .insert("Resources"@, PdfValue::Dict(
                Map::<Seq<char>, PdfValue>::empty().insert("XObject"@, PdfValue::Dict(
                    Map::<Seq<char>, PdfValue>::empty().insert(
                        "X0"@,
                        PdfValue::Reference(image_obj_id(j)),
                    ),
                )),
            )),
    )
}

/// The per-page rows of the object graph for the first `n` pages: each page's
/// dictionary is exactly `page_value`, its content stream holds exactly the
/// placement text, and its image object is a stream.
pub open spec fn graph_rows(
    objs: Map<(u32, u16), PdfValue>,
    pages: Seq<ModelPage>,
    n: int,
) -> bool {
    forall|j: int| 0 <= j < n ==> {
        &&& objs.dom().contains(#[trigger] page_obj_id(j))
        &&& objs.dom().contains(content_obj_id(j))
        &&& objs.dom().contains(image_obj_id(j))
        &&& objs[page_obj_id(j)] == page_value(j, pages[j].width, pages[j].height)
        &&& match objs[content_obj_id(j)] {
            PdfValue::Stream(_, c) => c == encode_utf8(
                page_content_text(pages[j].width, pages[j].height),
            ),
            _ => false,
        }
        &&& objs[image_obj_id(j)] is Stream
    }
}

/// The object graph of the assembled document, before stream compression: the
/// trailer's root points at the catalog, the catalog at the page collection,
/// the page collection counts and lists every page in order, and every page's
/// row is in place.
pub open spec fn page_graph_built(
    objs: Map<(u32, u16), PdfValue>,
    trailer: Map<Seq<char>, PdfValue>,
    version: Seq<char>,
    pages: Seq<ModelPage>,
) -> bool {
    &&& version == "2.0"@
    &&& trailer == Map::<Seq<char>, PdfValue>::empty().insert(
        "Root"@,
        PdfValue::Reference(catalog_id()),
    )
    &&& objs.dom().contains(catalog_id())
    &&& objs[catalog_id()] == catalog_value()
    &&& objs.dom().contains(pages_collection_id())
    &&& objs[pages_collection_id()] == pages_collection_value(pages.len() as int)
    &&& graph_rows(objs, pages, pages.len() as int)
}

/// The object graph as serialization sees it, after stream compression: the
/// same dictionaries — catalog, page collection, every page with its media box
/// — and a stream object wherever a content or image stream was stored.
pub open spec fn page_graph_saved(
    objs: Map<(u32, u16), PdfValue>,
    trailer: Map<Seq<char>, PdfValue>,
    version: Seq<char>,
    pages: Seq<ModelPage>,
) -> bool {
    &&& version == "2.0"@
    &&& trailer == Map::<Seq<char>, PdfValue>::empty().insert(
        "Root"@,
        PdfValue::Reference(catalog_id()),
    )
    &&& objs.dom().contains(catalog_id())
    &&& objs[catalog_id()] == catalog_value()
    &&& objs.dom().contains(pages_collection_id())
    &&& objs[pages_collection_id()] == pages_collection_value(pages.len() as int)
    &&& forall|j: int| 0 <= j < pages.len() ==> {
        &&& objs.dom().contains(#[trigger] page_obj_id(j))
        &&& objs.dom().contains(content_obj_id(j))
        &&& objs.dom().contains(image_obj_id(j))
        &&& objs[page_obj_id(j)] == page_value(j, pages[j].width, pages[j].height)
        &&& objs[content_obj_id(j)] is Stream
        &&& objs[image_obj_id(j)] is Stream
    }
}

/// What a successful render yields: the bytes are the serialization, under the
/// fixed settings — object streams, cross-reference streams, linearization,
/// the maximum compression level, the page count plus two objects per stream —
/// of a document that held the full page graph before compression and the same
/// dictionaries after it.
pub open spec fn rendered_output(
    built: lopdf::Document,
    ready: lopdf::Document,
    bytes: Seq<u8>,
    pages: Seq<ModelPage>,
) -> bool {
    &&& page_graph_built(doc_objects(built), doc_trailer(built), doc_version(built), pages)
    &&& page_graph_saved(doc_objects(ready), doc_trailer(ready), doc_version(ready), pages)
    &&& bytes == saved_pdf(
        ready,
        true,
        true,
        true,
        MAX_COMPRESSION,
        (pages.len() + 2) as usize,
    )
}

/// A successful render's bytes: the fixed-settings serialization of a document
/// that held the full page graph.
pub open spec fn has_rendered_output(bytes: Seq<u8>, pages: Seq<ModelPage>) -> bool {
    exists|built: lopdf::Document, ready: lopdf::Document|
        #[trigger] rendered_output(built, ready, bytes, pages)
}

/// Serialize the document model into one PDF: a catalog, a page collection
/// with one kid per model page, and per page its content stream, its embedded
/// image and a media box of exactly the model page's dimensions. Succeeds
/// whenever the container library can embed every image — an image it cannot
/// embed rejects the run, which is what keeps a partial document from ever
/// being written — and the output bytes are the fixed-settings serialization
/// of exactly that page graph.
pub fn render_pdf(model: &DocumentModel) -> (r: Result<Vec<u8>, AssembleError>)
    requires
        3 * model.pages@.len() + 2 <= u32::MAX,
    ensures
        r matches Err(e) ==> e matches AssembleError::EmbedFailure(_),
        r matches Err(e) ==> exists|j: int| 0 <= j < model.pages@.len()
            && !embed_ok((#[trigger] model.pages@[j]).image@),
        (forall|j: int| 0 <= j < model.pages@.len()
            ==> embed_ok((#[trigger] model.pages@[j]).image@)) ==> r is Ok,
        r matches Ok(bytes) ==> forall|j: int| 0 <= j < model.pages@.len()
            ==> embed_ok((#[trigger] model.pages@[j]).image@),
        r matches Ok(bytes) ==> has_rendered_output(bytes@, model.pages@),
{
    proof {
        broadcast use vstd::string::group_string_axioms;
        reveal_strlit("Root");
        reveal_strlit("Encrypt");
        assert("Root"@.len() == 4);
        assert("Encrypt"@.len() == 7);
        assert("Root"@ != "Encrypt"@);
    }
    let mut doc = doc_with_version("2.0");
    let pages_id = doc_new_object_id(&mut doc);
    let mut catalog = dict_new();
    dict_set(&mut catalog, "Type", object_name("Catalog"));
    dict_set(&mut catalog, "Pages", object_reference(pages_id));
    let ghost catalog_model = dict_model(catalog);
    let catalog_obj = object_dictionary(catalog);
    let cat_id = doc_add_object(&mut doc, catalog_obj);
    doc_trailer_set(&mut doc, "Root", cat_id);
    proof {
        assert(pages_id == pages_collection_id());
        assert(cat_id == catalog_id());
        assert(PdfValue::Dict(catalog_model) == catalog_value());
    }

    let mut kids: Vec<lopdf::Object> = Vec::new();
    let mut i: usize = 0;
    while i < model.pages.len()
        invariant
            0 <= i <= model.pages@.len(),
            3 * model.pages@.len() + 2 <= u32::MAX,
            pages_id == pages_collection_id(),
            doc_pristine(doc),
            doc_version(doc) == "2.0"@,
            doc_max_id(doc) as int == 2 + 3 * i,
            doc_trailer(doc) == empty_dict().insert("Root"@, PdfValue::Reference(catalog_id())),
            doc_objects(doc).dom().contains(catalog_id()),
            doc_objects(doc)[catalog_id()] == catalog_value(),
            !doc_objects(doc).dom().contains(pages_collection_id()),
            graph_rows(doc_objects(doc), model.pages@, i as int),
            kids@.len() == i,
            forall|j: int| 0 <= j < i
                ==> obj_model(#[trigger] kids@[j]) == PdfValue::Reference(page_obj_id(j)),
            forall|j: int| 0 <= j < i ==> embed_ok((#[trigger] model.pages@[j]).image@),
        decreases model.pages@.len() - i,
    {
        let page = &model.pages[i];
        let image_stream = match image_xobject(&page.image) {
            Ok(s) => s,
            Err(()) => {
                return Err(AssembleError::EmbedFailure(page.name.clone()));
            }
        };
        let image_obj = object_stream(image_stream);
        let image_id = doc_add_object(&mut doc, image_obj);

        let content = page_content(page.width, page.height);
        let content_stream = stream_new(dict_new(), content);
        let content_obj = object_stream(content_stream);
        let content_id = doc_add_object(&mut doc, content_obj);

        let mut xobjects = dict_new();
        dict_set(&mut xobjects, "X0", object_reference(image_id));
        let ghost xobjects_model = dict_model(xobjects);
        let mut resources = dict_new();
        dict_set(&mut resources, "XObject", object_dictionary(xobjects));
        let ghost resources_model = dict_model(resources);

        let mut media_box: Vec<lopdf::Object> = Vec::new();
        media_box.push(object_integer(0));
        media_box.push(object_integer(0));
        media_box.push(object_integer(page.width as i64));
        media_box.push(object_integer(page.height as i64));
        let media_obj = object_array(media_box);
        proof {
            assert(array_items(obj_model(media_obj)) =~= seq![
                PdfValue::Integer(0),
                PdfValue::Integer(0),
                PdfValue::Integer(page.width as i64),
                PdfValue::Integer(page.height as i64),
            ]);
            assert(obj_model(media_obj) == PdfValue::Array(seq![
                PdfValue::Integer(0),
                PdfValue::Integer(0),
                PdfValue::Integer(page.width as i64),
                PdfValue::Integer(page.height as i64),
            ]));
        }

        let mut page_dict = dict_new();
        dict_set(&mut page_dict, "Type", object_name("Page"));
        dict_set(&mut page_dict, "Parent", object_reference(pages_id));
        dict_set(&mut page_dict, "Contents", object_reference(content_id));
        dict_set(&mut page_dict, "MediaBox", media_obj);
        dict_set(&mut page_dict, "Resources", object_dictionary(resources));
        let ghost page_model = dict_model(page_dict);
        let page_obj = object_dictionary(page_dict);
        let page_id = doc_add_object(&mut doc, page_obj);
        proof {
            assert(image_id == image_obj_id(i as int));
            assert(content_id == content_obj_id(i as int));
            assert(page_id == page_obj_id(i as int));
            assert(PdfValue::Dict(page_model) == page_value(i as int, page.width, page.height));
            assert(graph_rows(doc_objects(doc), model.pages@, i as int + 1)) by {
                assert(doc_objects(doc)[content_obj_id(i as int)] matches PdfValue::Stream(_, c)
                    && c == encode_utf8(page_content_text(page.width, page.height)));
                assert(forall|j: int| 0 <= j < i ==> #[trigger] page_obj_id(j) != page_obj_id(i as int)
                    && page_obj_id(j) != content_obj_id(i as int)
                    && page_obj_id(j) != image_obj_id(i as int));
                assert(forall|j: int| 0 <= j < i ==> #[trigger] content_obj_id(j) != page_obj_id(i as int)
                    && content_obj_id(j) != content_obj_id(i as int)
                    && content_obj_id(j) != image_obj_id(i as int));
                assert(forall|j: int| 0 <= j < i ==> #[trigger] image_obj_id(j) != page_obj_id(i as int)
                    && image_obj_id(j) != content_obj_id(i as int)
                    && image_obj_id(j) != image_obj_id(i as int));
            }
        }
        kids.push(object_reference(page_id));
        i += 1;
    }

    let count = model.pages.len();
    let kids_obj = object_array(kids);
    proof {
        assert(array_items(obj_model(kids_obj)) =~= Seq::new(
            count as nat,
            |j: int| PdfValue::Reference(page_obj_id(j)),
        ));
        assert(obj_model(kids_obj) == PdfValue::Array(Seq::new(
            count as nat,
            |j: int| PdfValue::Reference(page_obj_id(j)),
        )));
    }
    let mut pages_dict = dict_new();
    dict_set(&mut pages_dict, "Type", object_name("Pages"));
    dict_set(&mut pages_dict, "Kids", kids_obj);
    dict_set(&mut pages_dict, "Count", object_integer(count as i64));
    let ghost pages_model = dict_model(pages_dict);
    let pages_obj = object_dictionary(pages_dict);
    doc_set_object(&mut doc, pages_id, pages_obj);
    proof {
        assert(PdfValue::Dict(pages_model) == pages_collection_value(count as int));
        assert(page_graph_built(
            doc_objects(doc),
            doc_trailer(doc),
            doc_version(doc),
            model.pages@,
        )) by {
            assert(forall|j: int| 0 <= j < count ==> #[trigger] page_obj_id(j) != pages_collection_id()
                && content_obj_id(j) != pages_collection_id()
                && image_obj_id(j) != pages_collection_id());
            assert(catalog_id() != pages_collection_id());
        }
    }
    let ghost built = doc;

    doc_compress(&mut doc);
    proof {
        assert(page_graph_saved(
            doc_objects(doc),
            doc_trailer(doc),
            doc_version(doc),
            model.pages@,
        ));
    }
    let ghost ready = doc;

    let max_per_stream = count + 2;
    match doc_save(&mut doc, true, true, true, MAX_COMPRESSION, max_per_stream) {
        Ok(bytes) => {
            proof {
                assert(rendered_output(built, ready, bytes@, model.pages@));
                assert(has_rendered_output(bytes@, model.pages@));
            }
            Ok(bytes)
        }
        Err(()) => Err(AssembleError::WriteFailure),
    }
}

/// Assemble the normalized images into one paginated document, all-or-nothing
/// and deterministic.
///
/// A filename that does not parse into a page identity rejects the run, and
/// only then; an image that does not decode, or that the container library
/// cannot embed, rejects the run. On inputs where every name parses, every
/// image decodes and every image embeds, a document is produced. On success
/// the model — what the serialized PDF's page graph was built from — holds
/// exactly one page per input, in sorted identity order, each page carrying
/// its input's name and bytes and sized to its image's pixel dimensions; and
/// the bytes are the fixed-settings serialization of exactly that page graph.
pub fn assemble_document(files: Vec<NamedBytes>) -> (r: Result<(DocumentModel, Vec<u8>), AssembleError>)
    requires
        3 * files@.len() + 2 <= u32::MAX,
    ensures
        (exists|i: int| 0 <= i < files@.len()
            && parse_name((#[trigger] files@[i]).name@) is None)
            <==> (r matches Err(e) && e matches AssembleError::MalformedIdentity(_)),
        (r matches Err(e) && e matches AssembleError::DecodeFailure(_))
            ==> exists|i: int| 0 <= i < files@.len()
                && decoded_dims((#[trigger] files@[i]).bytes@) is None
                && parse_name(files@[i].name@) is Some,
        ((forall|i: int| 0 <= i < files@.len()
            ==> parse_name((#[trigger] files@[i]).name@) is Some)
            && (forall|i: int| 0 <= i < files@.len()
                ==> decoded_dims((#[trigger] files@[i]).bytes@) is Some)
            && (forall|i: int| 0 <= i < files@.len()
                ==> embed_ok((#[trigger] files@[i]).bytes@))) ==> r is Ok,
        r matches Ok((model, bytes)) ==> {
            &&& model.pages@.len() == files@.len()
            &&& forall|i: int, j: int| 0 <= i < j < model.pages@.len()
                ==> id_le((#[trigger] model.pages@[i]).id, (#[trigger] model.pages@[j]).id)
            &&& model_tuples(model.pages@).to_multiset() == file_tuples(files@).to_multiset()
            &&& forall|i: int| 0 <= i < model.pages@.len()
                ==> decoded_dims((#[trigger] model.pages@[i]).image@) == Some(
                    Dim { width: model.pages@[i].width, height: model.pages@[i].height },
                )
            &&& forall|i: int| 0 <= i < model.pages@.len()
                ==> parse_name((#[trigger] model.pages@[i]).name@) == Some(model.pages@[i].id)
            &&& forall|i: int| 0 <= i < files@.len()
                ==> parse_name((#[trigger] files@[i]).name@) is Some
            &&& has_rendered_output(bytes@, model.pages@)
        },
{
    let ghost fview = files@;
    let pages = match parse_pages(files) {
        Err(e) => {
            return Err(e);
        }
        Ok(p) => p,
    };
    let ghost pview = pages@;
    let sorted = sort_pages(pages);
    let ghost sview = sorted@;
    proof {
        assert forall|i: int| 0 <= i < sview.len()
            implies parse_name((#[trigger] sview[i]).name@) == Some(sview[i].id) by {
            assert(pview.contains(sview[i]));
            let j = choose|j: int| 0 <= j < pview.len() && pview[j] == sview[i];
            assert(parse_name(pview[j].name@) == Some(pview[j].id));
        }
        // Each sorted page's bytes are some input file's bytes, so hypotheses
        // stated of every input transfer to every sorted page.
        assert forall|i: int| 0 <= i < sview.len()
            implies exists|j: int| 0 <= j < fview.len()
                && (#[trigger] sview[i]).image@ == (#[trigger] fview[j]).bytes@ by {
            let t = page_tuple(sview[i]);
            assert(page_tuples(sview)[i] == t);
            assert(page_tuples(sview).contains(t));
            assert(page_tuples(sview).to_multiset().count(t) > 0);
            assert(file_tuples(fview).to_multiset().count(t) > 0);
            assert(file_tuples(fview).contains(t));
            let j = choose|j: int| 0 <= j < file_tuples(fview).len()
                && file_tuples(fview)[j] == t;
            assert(file_tuple(fview[j]) == t);
            assert(sview[i].image@ == fview[j].bytes@);
        }
    }
    let model = match build_model(sorted) {
        Err(e) => {
            proof {
                let i = choose|i: int| 0 <= i < sview.len()
                    && decoded_dims((#[trigger] sview[i]).image@) is None;
                let j = choose|j: int| 0 <= j < fview.len()
                    && (#[trigger] sview[i]).image@ == (#[trigger] fview[j]).bytes@;
                assert(decoded_dims(fview[j].bytes@) is None);
                assert(parse_name(fview[j].name@) is Some);
            }
            return Err(e);
        }
        Ok(m) => m,
    };
    proof {
        assert(model_tuples(model.pages@) =~= page_tuples(sview));
        // The model's bytes are the sorted pages' bytes, so a hypothesis on
        // every input's bytes transfers to every model page and back.
        assert forall|i: int| 0 <= i < model.pages@.len()
            implies exists|j: int| 0 <= j < fview.len()
                && (#[trigger] model.pages@[i]).image@ == (#[trigger] fview[j]).bytes@ by {
            assert(model_tuple(model.pages@[i]) == page_tuple(sview[i]));
            let j = choose|j: int| 0 <= j < fview.len()
                && (#[trigger] sview[i]).image@ == (#[trigger] fview[j]).bytes@;
            assert(model.pages@[i].image@ == fview[j].bytes@);
        }
        assert forall|i: int| 0 <= i < model.pages@.len()
            && (forall|k: int| 0 <= k < fview.len() ==> embed_ok((#[trigger] fview[k]).bytes@))
            implies embed_ok((#[trigger] model.pages@[i]).image@) by {
            let j = choose|j: int| 0 <= j < fview.len()
                && (#[trigger] model.pages@[i]).image@ == (#[trigger] fview[j]).bytes@;
            assert(embed_ok(fview[j].bytes@));
        }
    }
    let bytes = match render_pdf(&model) {
        Err(e) => {
            proof {
                let i = choose|i: int| 0 <= i < model.pages@.len()
                    && !embed_ok((#[trigger] model.pages@[i]).image@);
                let j = choose|j: int| 0 <= j < fview.len()
                    && (#[trigger] model.pages@[i]).image@ == (#[trigger] fview[j]).bytes@;
                assert(!embed_ok(fview[j].bytes@));
            }
            return Err(e);
        }
        Ok(b) => b,
    };
    Ok((model, bytes))
}

} // verus!

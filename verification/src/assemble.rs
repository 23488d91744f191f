//! The document assembler: composed raster pages into one paginated PDF.
//!
//! Each input raster becomes one page object referencing an embedded,
//! compressed image resource and a content instruction that scales the
//! raster to physical card-sheet size and centers it on the configured
//! page. The document itself is built through the PDF crate, modelled as an
//! opaque store whose construction history (`doc_ops`) the wrappers pin
//! down step by step; the final byte stream is a function of that history
//! alone (`saved_of`), which makes assembly deterministic in its inputs.

use vstd::prelude::*;
use crate::layout::PageOptions;
use crate::compose::Page;
use crate::error::PrintError;

verus! {

#[verifier::external_type_specification]
#[verifier::external_body]
pub struct ExDocument(lopdf::Document);

/// One step in the construction of a document: what was added or set, with
/// the plain values that went in.
pub enum DocOp {
    /// An object id was reserved (for the page-collection root).
    IdAllocated,
    /// A compressed image resource of the given dimensions and raw bytes
    /// was embedded.
    ImageAdded { width: u32, height: u32, data: Seq<u8> },
    /// A resource dictionary referencing the given image was added.
    ResourcesAdded { image_id: (u32, u16) },
    /// A content stream scaling the image to `scaled_w` × `scaled_h` and
    /// translating it by `(tx, ty)` was added.
    ContentAdded { scaled_w: u32, scaled_h: u32, tx: u32, ty: u32 },
    /// A page object with the given parent, content and resources was added.
    PageAdded { parent: (u32, u16), content_id: (u32, u16), resources_id: (u32, u16) },
    /// The page-collection root was filled in: its kids in order, and the
    /// shared media box.
    PagesSet { at: (u32, u16), kids: Seq<(u32, u16)>, page_width: u32, page_height: u32 },
    /// The catalog was added and set as the document root.
    RootSet { pages: (u32, u16) },
}

/// The construction history of a document made by the wrappers below.
pub uninterp spec fn doc_ops(doc: lopdf::Document) -> Seq<DocOp>;

/// The object id the document allocates next, after the given history.
pub uninterp spec fn alloc_of(ops: Seq<DocOp>) -> (u32, u16);

/// The byte stream that saving a document with the given history yields.
pub uninterp spec fn saved_of(ops: Seq<DocOp>) -> Seq<u8>;

/// Relies on `lopdf::Document::new`: a fresh, empty document.
#[verifier::external_body]
pub fn doc_new() -> (r: lopdf::Document)
    ensures
        doc_ops(r) == Seq::<DocOp>::empty(),
{
    lopdf::Document::new()
}

/// Relies on `lopdf::Document::new_object_id`: reserves and returns the
/// next object id, which is a function of the allocations so far.
#[verifier::external_body]
pub fn doc_new_object_id(doc: &mut lopdf::Document) -> (r: (u32, u16))
    ensures
        doc_ops(*final(doc)) == doc_ops(*old(doc)).push(DocOp::IdAllocated),
        r == alloc_of(doc_ops(*old(doc))),
{
    doc.new_object_id()
}

/// Relies on `lopdf::Stream::new`, `Stream::compress` and
/// `Document::add_object`: embeds the bytes as a compressed image stream
/// object of the given dimensions; on a compression failure the document
/// is untouched.
#[verifier::external_body]
pub fn doc_add_image(doc: &mut lopdf::Document, width: u32, height: u32, data: Vec<u8>) -> (r: Result<(u32, u16), PrintError>)
    ensures
        r matches Ok(id) ==> {
            &&& doc_ops(*final(doc)) == doc_ops(*old(doc)).push(DocOp::ImageAdded { width, height, data: data@ })
            &&& id == alloc_of(doc_ops(*old(doc)))
        },
        r matches Err(e) ==> e == PrintError::AssemblyFailure && doc_ops(*final(doc)) == doc_ops(*old(doc)),
{
    let mut dict = lopdf::Dictionary::new();
    dict.set("Type", "XObject");
    dict.set("Subtype", "Image");
    dict.set("Width", lopdf::Object::Integer(width as i64));
    dict.set("Height", lopdf::Object::Integer(height as i64));
    dict.set("ColorSpace", "DeviceRGB");
    dict.set("BitsPerComponent", lopdf::Object::Integer(8));
    let mut stream = lopdf::Stream::new(dict, data);
    if stream.compress().is_err() {
        return Err(PrintError::AssemblyFailure);
    }
    Ok(doc.add_object(stream))
}

/// Relies on `lopdf::Document::add_object`: adds the resource dictionary
/// that exposes the embedded image under the name used by page content.
#[verifier::external_body]
pub fn doc_add_resources(doc: &mut lopdf::Document, image_id: (u32, u16)) -> (r: (u32, u16))
    ensures
        doc_ops(*final(doc)) == doc_ops(*old(doc)).push(DocOp::ResourcesAdded { image_id }),
        r == alloc_of(doc_ops(*old(doc))),
{
    let mut xobjects = lopdf::Dictionary::new();
    xobjects.set("I1", lopdf::Object::Reference(image_id));
    let mut dict = lopdf::Dictionary::new();
    dict.set("ProcSet", vec![lopdf::Object::from("PDF"), lopdf::Object::from("ImageB")]);
    dict.set("XObject", xobjects);
    doc.add_object(dict)
}

/// Relies on `lopdf::content::Content::encode`, `Stream::new` and
/// `Document::add_object`: adds the page content instruction that scales
/// the image to `scaled_w` × `scaled_h` and translates it by `(tx, ty)`;
/// on an encoding failure the document is untouched.
#[verifier::external_body]
pub fn doc_add_content(doc: &mut lopdf::Document, scaled_w: u32, scaled_h: u32, tx: u32, ty: u32) -> (r: Result<(u32, u16), PrintError>)
    ensures
        r matches Ok(id) ==> {
            &&& doc_ops(*final(doc)) == doc_ops(*old(doc)).push(DocOp::ContentAdded { scaled_w, scaled_h, tx, ty })
            &&& id == alloc_of(doc_ops(*old(doc)))
        },
        r matches Err(e) ==> e == PrintError::AssemblyFailure && doc_ops(*final(doc)) == doc_ops(*old(doc)),
{
    let content = lopdf::content::Content {
        operations: vec![
            lopdf::content::Operation::new("cm", vec![
                scaled_w.into(), 0.into(), 0.into(), scaled_h.into(), tx.into(), ty.into(),
            ]),
            lopdf::content::Operation::new("Do", vec!["I1".into()]),
        ],
    };
    let encoded = match content.encode() {
        Ok(bytes) => bytes,
        Err(_) => return Err(PrintError::AssemblyFailure),
    };
    Ok(doc.add_object(lopdf::Stream::new(lopdf::Dictionary::new(), encoded)))
}

/// Relies on `lopdf::Document::add_object`: adds one page object under the
/// given parent with the given content and resources.
#[verifier::external_body]
pub fn doc_add_page(doc: &mut lopdf::Document, parent: (u32, u16), content_id: (u32, u16), resources_id: (u32, u16)) -> (r: (u32, u16))
    ensures
        doc_ops(*final(doc)) == doc_ops(*old(doc)).push(DocOp::PageAdded { parent, content_id, resources_id }),
        r == alloc_of(doc_ops(*old(doc))),
{
    let mut dict = lopdf::Dictionary::new();
    dict.set("Type", "Page");
    dict.set("Parent", lopdf::Object::Reference(parent));
    dict.set("Contents", lopdf::Object::Reference(content_id));
    dict.set("Resources", lopdf::Object::Reference(resources_id));
    doc.add_object(dict)
}

/// Relies on `lopdf::Document::set_object`: fills the reserved
/// page-collection root with the kids in order, their count, and the
/// shared media box of the configured page size.
#[verifier::external_body]
pub fn doc_set_pages(doc: &mut lopdf::Document, at: (u32, u16), kids: &Vec<(u32, u16)>, page_width: u32, page_height: u32)
    ensures
        doc_ops(*final(doc)) == doc_ops(*old(doc)).push(DocOp::PagesSet {
            at,
            kids: kids@,
            page_width,
            page_height,
        }),
{
    let kid_refs: Vec<lopdf::Object> = kids.iter().map(|id| lopdf::Object::Reference(*id)).collect();
    let count = kid_refs.len() as i64;
    let mut dict = lopdf::Dictionary::new();
    dict.set("Type", "Pages");
    dict.set("Kids", kid_refs);
    dict.set("Count", lopdf::Object::Integer(count));
    dict.set("MediaBox", vec![0.into(), 0.into(), page_width.into(), page_height.into()]);
    doc.set_object(at, dict);
}

/// Relies on `lopdf::Document::add_object` and `Dictionary::set` on the
/// trailer: adds the catalog referencing the page collection and sets it
/// as the document root.
#[verifier::external_body]
pub fn doc_set_root(doc: &mut lopdf::Document, pages: (u32, u16))
    ensures
        doc_ops(*final(doc)) == doc_ops(*old(doc)).push(DocOp::RootSet { pages }),
{
    let mut dict = lopdf::Dictionary::new();
    dict.set("Type", "Catalog");
    dict.set("Pages", lopdf::Object::Reference(pages));
    let catalog_id = doc.add_object(dict);
    doc.trailer.set("Root", lopdf::Object::Reference(catalog_id));
}

/// Relies on `lopdf::Document::save_to`: serializes the document to bytes.
/// The writer emits the header, the objects in id order and the cross
/// reference table, with nothing drawn from outside the document, so the
/// bytes are a function of the construction history alone.
#[verifier::external_body]
pub fn doc_save(doc: &mut lopdf::Document) -> (r: Result<Vec<u8>, PrintError>)
    ensures
        r matches Ok(bytes) ==> bytes@ == saved_of(doc_ops(*old(doc))),
        r matches Err(e) ==> e == PrintError::AssemblyFailure,
{
    let mut buffer: Vec<u8> = Vec::new();
    match doc.save_to(&mut buffer) {
        Ok(()) => Ok(buffer),
        Err(_) => Err(PrintError::AssemblyFailure),
    }
}

/// The dimensions and bytes of the composed pages.
pub open spec fn page_views(pages: Seq<Page>) -> Seq<(u32, u32, Seq<u8>)> {
    pages.map_values(|p: Page| (p.width, p.height, p.data@))
}

/// A raster of these dimensions can be scaled and centered on the
/// configured page without the fixed-point arithmetic leaving its types.
pub open spec fn page_fits(width: u32, height: u32, o: PageOptions) -> bool {
    &&& width * 72 <= u32::MAX
    &&& height * 72 <= u32::MAX
    &&& width * 72 / 298 <= o.page_width
    &&& height * 72 / 297 <= o.page_height
}

/// The history after embedding one page: its image, resources, content
/// (scaled by the fixed 72/298 and 72/297 card-stock ratios and centered),
/// and the page object tying them together.
pub open spec fn ops_after_page(pre: Seq<DocOp>, pv: (u32, u32, Seq<u8>), parent: (u32, u16), o: PageOptions) -> Seq<DocOp> {
    let a = pre.push(DocOp::ImageAdded { width: pv.0, height: pv.1, data: pv.2 });
    let b = a.push(DocOp::ResourcesAdded { image_id: alloc_of(pre) });
    let c = b.push(DocOp::ContentAdded {
        scaled_w: (pv.0 * 72 / 298) as u32,
        scaled_h: (pv.1 * 72 / 297) as u32,
        tx: ((o.page_width - pv.0 * 72 / 298) / 2) as u32,
        ty: ((o.page_height - pv.1 * 72 / 297) / 2) as u32,
    });
    c.push(DocOp::PageAdded { parent, content_id: alloc_of(b), resources_id: alloc_of(a) })
}

/// The object id of page `pv` when embedded after history `pre`.
pub open spec fn page_id_of(pre: Seq<DocOp>, pv: (u32, u32, Seq<u8>), o: PageOptions) -> (u32, u16) {
    let a = pre.push(DocOp::ImageAdded { width: pv.0, height: pv.1, data: pv.2 });
    let b = a.push(DocOp::ResourcesAdded { image_id: alloc_of(pre) });
    let c = b.push(DocOp::ContentAdded {
        scaled_w: (pv.0 * 72 / 298) as u32,
        scaled_h: (pv.1 * 72 / 297) as u32,
        tx: ((o.page_width - pv.0 * 72 / 298) / 2) as u32,
        ty: ((o.page_height - pv.1 * 72 / 297) / 2) as u32,
    });
    alloc_of(c)
}

/// The history after the first `k` pages.
pub open spec fn ops_upto(pvs: Seq<(u32, u32, Seq<u8>)>, k: int, parent: (u32, u16), o: PageOptions) -> Seq<DocOp>
    decreases k,
{
    if k <= 0 {
        Seq::empty().push(DocOp::IdAllocated)
    } else {
        ops_after_page(ops_upto(pvs, k - 1, parent, o), pvs[k - 1], parent, o)
    }
}

/// The page object ids of the first `k` pages, in input order.
pub open spec fn kids_upto(pvs: Seq<(u32, u32, Seq<u8>)>, k: int, parent: (u32, u16), o: PageOptions) -> Seq<(u32, u16)>
    decreases k,
{
    if k <= 0 {
        Seq::empty()
    } else {
        kids_upto(pvs, k - 1, parent, o).push(page_id_of(ops_upto(pvs, k - 1, parent, o), pvs[k - 1], o))
    }
}

/// The full construction history of a document over the given pages.
pub open spec fn assembly_ops(pvs: Seq<(u32, u32, Seq<u8>)>, o: PageOptions) -> Seq<DocOp> {
    let parent = alloc_of(Seq::empty());
    let body = ops_upto(pvs, pvs.len() as int, parent, o);
    body.push(DocOp::PagesSet {
        at: parent,
        kids: kids_upto(pvs, pvs.len() as int, parent, o),
        page_width: o.page_width,
        page_height: o.page_height,
    }).push(DocOp::RootSet { pages: parent })
}

/// The document bytes the assembler produces for the given pages.
pub open spec fn pdf_bytes_spec(pvs: Seq<(u32, u32, Seq<u8>)>, o: PageOptions) -> Seq<u8> {
    saved_of(assembly_ops(pvs, o))
}

/// Law: the assembled document holds exactly one page object per input
/// raster, in input order — in particular, zero inputs yield a document
/// whose page collection is empty.
pub proof fn lemma_one_page_object_per_raster(pvs: Seq<(u32, u32, Seq<u8>)>, o: PageOptions)
    ensures
        forall|k: int| 0 <= k <= pvs.len() ==> kids_upto(pvs, k, alloc_of(Seq::empty()), o).len() == k,
{
    assert forall|k: int| 0 <= k <= pvs.len() implies
        kids_upto(pvs, k, alloc_of(Seq::empty()), o).len() == k by {
        lemma_kids_len(pvs, k, alloc_of(Seq::empty()), o);
    }
}

proof fn lemma_kids_len(pvs: Seq<(u32, u32, Seq<u8>)>, k: int, parent: (u32, u16), o: PageOptions)
    requires
        0 <= k,
    ensures
        kids_upto(pvs, k, parent, o).len() == k,
    decreases k,
{
    if k > 0 {
        lemma_kids_len(pvs, k - 1, parent, o);
    }
}

/// Assemble the composed pages, in order, into one paginated document.
/// The result is the byte stream `pdf_bytes_spec` of the pages' dimensions
/// and data; only an encoding, compression or serialization failure inside
/// the PDF crate yields an error, and then it is `AssemblyFailure`.
pub fn assemble_pdf(pages: Vec<Page>, options: &PageOptions) -> (r: Result<Vec<u8>, PrintError>)
    requires
        forall|i: int| 0 <= i < pages@.len() ==> page_fits((#[trigger] pages@[i]).width, pages@[i].height, *options),
    ensures
        r matches Ok(bytes) ==> bytes@ == pdf_bytes_spec(page_views(pages@), *options),
        r matches Err(e) ==> e == PrintError::AssemblyFailure,
{
    let ghost o = *options;
    let ghost pvs = page_views(pages@);
    let mut rest = pages;
    let mut doc = doc_new();
    let pages_id = doc_new_object_id(&mut doc);
    proof {
        assert(pages_id == alloc_of(Seq::<DocOp>::empty()));
        assert(doc_ops(doc) == ops_upto(pvs, 0, pages_id, o));
    }
    let mut page_ids: Vec<(u32, u16)> = Vec::new();
    let total = rest.len();
    let mut i: usize = 0;
    while i < total
        invariant
            0 <= i <= total,
            o == *options,
            total == pvs.len(),
            rest@.len() == total - i,
            forall|l: int| 0 <= l < rest@.len() ==> (#[trigger] rest@[l]).width == pvs[i + l].0
                && rest@[l].height == pvs[i + l].1 && rest@[l].data@ == pvs[i + l].2,
            forall|l: int| 0 <= l < rest@.len() ==> page_fits((#[trigger] rest@[l]).width, rest@[l].height, o),
            pages_id == alloc_of(Seq::<DocOp>::empty()),
            doc_ops(doc) == ops_upto(pvs, i as int, pages_id, o),
            page_ids@ == kids_upto(pvs, i as int, pages_id, o),
        decreases total - i,
    {
        let ghost rest_pre = rest@;
        let page = rest.remove(0);
        proof {
            assert(page == rest_pre[0]);
            assert((page.width, page.height, page.data@) == pvs[i as int]);
            assert(page_fits(page.width, page.height, o));
            assert forall|l: int| 0 <= l < rest@.len() implies (#[trigger] rest@[l]).width == pvs[i + 1 + l].0
                && rest@[l].height == pvs[i + 1 + l].1 && rest@[l].data@ == pvs[i + 1 + l].2 by {
                assert(rest@[l] == rest_pre[l + 1]);
            }
            assert forall|l: int| 0 <= l < rest@.len() implies page_fits((#[trigger] rest@[l]).width, rest@[l].height, o) by {
                assert(rest@[l] == rest_pre[l + 1]);
            }
        }
        let ghost pre = doc_ops(doc);
        let width = page.width;
        let height = page.height;
        let img_id = match doc_add_image(&mut doc, width, height, page.data) {
            Ok(id) => id,
            Err(e) => {
                return Err(e);
            }
        };
        let res_id = doc_add_resources(&mut doc, img_id);
        let scaled_w = width * 72 / 298;
        let scaled_h = height * 72 / 297;
        let tx = (options.page_width - scaled_w) / 2;
        let ty = (options.page_height - scaled_h) / 2;
        let content_id = match doc_add_content(&mut doc, scaled_w, scaled_h, tx, ty) {
            Ok(id) => id,
            Err(e) => {
                return Err(e);
            }
        };
        let page_id = doc_add_page(&mut doc, pages_id, content_id, res_id);
        page_ids.push(page_id);
        proof {
            assert(doc_ops(doc) == ops_after_page(pre, pvs[i as int], pages_id, o));
            assert(doc_ops(doc) == ops_upto(pvs, i as int + 1, pages_id, o));
            assert(page_id == page_id_of(pre, pvs[i as int], o));
            assert(page_ids@ == kids_upto(pvs, i as int + 1, pages_id, o));
        }
        i += 1;
    }
    doc_set_pages(&mut doc, pages_id, &page_ids, options.page_width, options.page_height);
    doc_set_root(&mut doc, pages_id);
    proof {
        assert(doc_ops(doc) == assembly_ops(pvs, o));
    }
    doc_save(&mut doc)
}

} // verus!

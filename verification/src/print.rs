//! The print job orchestrator: an ordered request list and a store of
//! resolved images in, one paginated document out.
//!
//! The request list is flattened by quantity, sliced into page-sized
//! chunks, composed chunk by chunk, and assembled. The produced bytes are
//! pinned to `print_bytes_spec`, a function of the request list, the
//! resolved images and the layout alone: two runs over the same inputs
//! yield byte-identical documents.

use vstd::prelude::*;
use crate::cards::{CardKey, CardOptions, key_of};
use crate::layout::{PageOptions, page_count_of, chunk_at, expanded_keys, lemma_chunk_index, lemma_index_chunk};
use crate::fetch::ImageStore;
use crate::compose::{Page, compose_page, views_of, cell_ok, chunk_ok, page_data_spec};
use crate::assemble::{assemble_pdf, pdf_bytes_spec, page_views, page_fits};
use crate::error::PrintError;

verus! {

/// Every flattened key has resolved image bytes in the store.
pub open spec fn resolved_all(flat: Seq<CardKey>, images: Map<CardKey, Seq<u8>>) -> bool {
    forall|i: int| 0 <= i < flat.len() ==> images.contains_key(#[trigger] flat[i])
}

/// Every flattened key's resolved bytes decode to a card-sized raster.
pub open spec fn cells_ok(flat: Seq<CardKey>, images: Map<CardKey, Seq<u8>>) -> bool {
    forall|i: int| 0 <= i < flat.len() ==> cell_ok(images[#[trigger] flat[i]])
}

/// The image bytes of page `j`: the keys of its chunk looked up in the store.
pub open spec fn chunk_bytes(flat: Seq<CardKey>, images: Map<CardKey, Seq<u8>>, cap: int, j: int) -> Seq<Seq<u8>> {
    chunk_at(flat, cap, j).map_values(|k: CardKey| images[k])
}

/// The composed pages of a job: ⌈flat/capacity⌉ many, each of canvas size,
/// holding the layered composition of its chunk.
pub open spec fn pages_spec(flat: Seq<CardKey>, images: Map<CardKey, Seq<u8>>, o: PageOptions) -> Seq<(u32, u32, Seq<u8>)> {
    Seq::new(
        page_count_of(flat.len() as int, (o.rows * o.cols) as int) as nat,
        |j: int| (
            (o.canvas_width() as u32),
            (o.canvas_height() as u32),
            page_data_spec(chunk_bytes(flat, images, (o.rows * o.cols) as int, j), o),
        ),
    )
}

/// The document bytes of a whole job: a function of the request list, the
/// resolved images and the layout, and of nothing else.
pub open spec fn print_bytes_spec(cards: Seq<CardOptions>, images: Map<CardKey, Seq<u8>>, o: PageOptions) -> Seq<u8> {
    pdf_bytes_spec(pages_spec(expanded_keys(cards), images, o), o)
}

/// Law: printing is deterministic. The document bytes are a function of
/// the request list, the resolved image store and the layout alone, so two
/// runs over identical requests, an identical layout and a store holding
/// the same bytes (a warm cache) agree byte for byte.
pub proof fn lemma_print_deterministic(
    cards1: Seq<CardOptions>,
    cards2: Seq<CardOptions>,
    images1: Map<CardKey, Seq<u8>>,
    images2: Map<CardKey, Seq<u8>>,
    o1: PageOptions,
    o2: PageOptions,
    b1: Seq<u8>,
    b2: Seq<u8>,
)
    requires
        cards1 == cards2,
        images1 == images2,
        o1 == o2,
        b1 == print_bytes_spec(cards1, images1, o1),
        b2 == print_bytes_spec(cards2, images2, o2),
    ensures
        b1 == b2,
{
}

/// Flatten the request list by quantity, preserving input order: each
/// request contributes `quantity` copies of its key, and repeated requests
/// of one key still contribute that many repeated entries.
pub fn expand_keys(cards: &[CardOptions]) -> (r: Vec<CardKey>)
    ensures
        r@ == expanded_keys(cards@),
{
    let mut out: Vec<CardKey> = Vec::new();
    let n = cards.len();
    let mut i: usize = 0;
    while i < n
        invariant
            0 <= i <= n,
            n == cards@.len(),
            out@ == expanded_keys(cards@.subrange(0, i as int)),
        decreases n - i,
    {
        let card = cards[i];
        let key = CardKey::from(card);
        let q = card.quantity;
        let ghost base = out@;
        let mut c: u32 = 0;
        while c < q
            invariant
                0 <= c <= q,
                key == key_of(card),
                out@ == base + Seq::new(c as nat, |x: int| key),
            decreases q - c,
        {
            out.push(key);
            proof {
                assert(base + Seq::new((c + 1) as nat, |x: int| key)
                    =~= (base + Seq::new(c as nat, |x: int| key)).push(key));
            }
            c += 1;
        }
        proof {
            assert(cards@.subrange(0, i + 1).drop_last() == cards@.subrange(0, i as int));
            assert(cards@.subrange(0, i + 1).last() == cards@[i as int]);
            assert(card == cards@[i as int]);
            assert(out@ == expanded_keys(cards@.subrange(0, i + 1)));
        }
        i += 1;
    }
    proof {
        assert(cards@.subrange(0, n as int) == cards@);
    }
    out
}

/// The worker behind `Printer::print`: flatten, gather, compose, assemble.
fn print_document(cards: &[CardOptions], images: &ImageStore, options: &PageOptions) -> (r: Result<Vec<u8>, PrintError>)
    requires
        options.valid(),
        images.wf(),
    ensures
        match r {
            Ok(bytes) => {
                &&& resolved_all(expanded_keys(cards@), images@)
                &&& cells_ok(expanded_keys(cards@), images@)
                &&& bytes@ == print_bytes_spec(cards@, images@, *options)
            },
            Err(e) => {
                ||| (e == PrintError::CompositionFailure && !resolved_all(expanded_keys(cards@), images@))
                ||| (e == PrintError::DecodeFailure && resolved_all(expanded_keys(cards@), images@)
                        && !cells_ok(expanded_keys(cards@), images@))
                ||| (e == PrintError::AssemblyFailure && resolved_all(expanded_keys(cards@), images@)
                        && cells_ok(expanded_keys(cards@), images@))
            },
        },
{
    let ghost o = *options;
    let ghost imap = images@;
    let flat = expand_keys(cards);
    let ghost flatv = flat@;
    let n = flat.len();
    let cap = options.card_count();
    let cap_us = cap as usize;

    // Every flattened key must have resolved bytes.
    let mut i: usize = 0;
    while i < n
        invariant
            0 <= i <= n,
            n == flatv.len(),
            flatv == flat@,
            flatv == expanded_keys(cards@),
            imap == images@,
            images.wf(),
            forall|l: int| 0 <= l < i ==> imap.contains_key(#[trigger] flatv[l]),
        decreases n - i,
    {
        if images.get(flat[i]).is_none() {
            return Err(PrintError::CompositionFailure);
        }
        i += 1;
    }

    // Compose one page per capacity-sized chunk, in order.
    let pc = if n == 0 { 0 } else { (n - 1) / cap_us + 1 };
    proof {
        assert(pc == page_count_of(n as int, cap as int)) by (nonlinear_arith)
            requires
                cap as int >= 1,
                n >= 0,
                pc == if n == 0 { 0int } else { (n as int - 1) / (cap as int) + 1 };
    }
    let mut pages: Vec<Page> = Vec::new();
    let mut j: usize = 0;
    while j < pc
        invariant
            0 <= j <= pc,
            o == *options,
            o.valid(),
            imap == images@,
            images.wf(),
            flatv == flat@,
            flatv == expanded_keys(cards@),
            n == flatv.len(),
            cap == o.rows * o.cols,
            cap_us == cap,
            1 <= cap,
            pc == page_count_of(n as int, cap as int),
            resolved_all(flatv, imap),
            pages@.len() == j,
            forall|jj: int| 0 <= jj < j ==> chunk_ok(chunk_bytes(flatv, imap, cap as int, jj)),
            forall|jj: int| 0 <= jj < j ==> {
                &&& (#[trigger] pages@[jj]).width == o.canvas_width()
                &&& pages@[jj].height == o.canvas_height()
                &&& pages@[jj].data@ == page_data_spec(chunk_bytes(flatv, imap, cap as int, jj), o)
            },
        decreases pc - j,
    {
        proof {
            assert((j as int) * (cap as int) < n && (j as int) * (cap as int) >= 0) by (nonlinear_arith)
                requires
                    0 <= j < pc,
                    cap as int >= 1,
                    pc == (n as int + cap as int - 1) / (cap as int);
        }
        let start = j * cap_us;
        let len = if n - start > cap_us { cap_us } else { n - start };
        proof {
            assert(chunk_at(flatv, cap as int, j as int).len() == len);
        }

        // Gather the chunk's resolved bytes.
        let mut cells: Vec<Vec<u8>> = Vec::new();
        let mut l: usize = 0;
        while l < len
            invariant
                0 <= l <= len,
                flatv == flat@,
                flatv == expanded_keys(cards@),
                imap == images@,
                images.wf(),
                n == flatv.len(),
                1 <= cap,
                cap_us == cap,
                0 <= j,
                start == (j as int) * (cap as int),
                start + len <= n,
                len <= cap,
                resolved_all(flatv, imap),
                chunk_at(flatv, cap as int, j as int).len() == len,
                cells@.len() == l,
                forall|m: int| 0 <= m < l ==> (#[trigger] cells@[m])@ == imap[flatv[start + m]],
            decreases len - l,
        {
            match images.get(flat[start + l]) {
                Some(bytes) => {
                    cells.push(bytes.clone());
                }
                None => {
                    proof {
                        assert(imap.contains_key(flatv[start + l]));
                        assert(false);
                    }
                    return Err(PrintError::CompositionFailure);
                }
            }
            l += 1;
        }
        proof {
            assert forall|m: int| 0 <= m < len implies
                views_of(cells@)[m] == chunk_bytes(flatv, imap, cap as int, j as int)[m] by {
                lemma_chunk_index(flatv, cap as int, j as int, m);
            }
            assert(views_of(cells@) =~= chunk_bytes(flatv, imap, cap as int, j as int));
        }

        match compose_page(&cells, options) {
            Ok(page) => {
                pages.push(page);
            }
            Err(e) => {
                proof {
                    assert(!chunk_ok(chunk_bytes(flatv, imap, cap as int, j as int)));
                    let bad = choose|m: int| 0 <= m < len
                        && !cell_ok(#[trigger] chunk_bytes(flatv, imap, cap as int, j as int)[m]);
                    lemma_chunk_index(flatv, cap as int, j as int, bad);
                    assert(!cell_ok(imap[flatv[(j as int) * (cap as int) + bad]]));
                    assert(!cells_ok(flatv, imap));
                }
                return Err(e);
            }
        }
        j += 1;
    }

    proof {
        assert(cells_ok(flatv, imap)) by {
            assert forall|idx: int| 0 <= idx < flatv.len() implies cell_ok(imap[#[trigger] flatv[idx]]) by {
                lemma_index_chunk(flatv, cap as int, idx);
                let jj = idx / (cap as int);
                let m = idx % (cap as int);
                assert(chunk_ok(chunk_bytes(flatv, imap, cap as int, jj)));
                assert(chunk_bytes(flatv, imap, cap as int, jj)[m] == imap[flatv[idx]]);
            }
        }
        assert(page_views(pages@) =~= pages_spec(flatv, imap, o));
        assert forall|idx: int| 0 <= idx < pages@.len() implies
            page_fits((#[trigger] pages@[idx]).width, pages@[idx].height, o) by {
            assert(pages@[idx].width == o.canvas_width() && pages@[idx].height == o.canvas_height());
        }
    }

    assemble_pdf(pages, options)
}

/// The print job entry point the hosting service drives.
pub struct Printer;

impl Printer {
    /// Produce the printable document for the request list, given the
    /// layout and the resolved image store (`plan_fetches` /
    /// `record_fetched` fill the store beforehand). Fails with
    /// `CompositionFailure` exactly when some requested key has no
    /// resolved image, with `DecodeFailure` exactly when all keys are
    /// resolved but some resolved bytes do not decode to a card-sized
    /// raster, and with `AssemblyFailure` only when the document
    /// serializer itself fails; in every other case it returns exactly
    /// `print_bytes_spec`.
    pub fn print(cards: &[CardOptions], images: &ImageStore, options: &PageOptions) -> (r: Result<Vec<u8>, PrintError>)
        requires
            options.valid(),
            images.wf(),
        ensures
            match r {
                Ok(bytes) => {
                    &&& resolved_all(expanded_keys(cards@), images@)
                    &&& cells_ok(expanded_keys(cards@), images@)
                    &&& bytes@ == print_bytes_spec(cards@, images@, *options)
                },
                Err(e) => {
                    ||| (e == PrintError::CompositionFailure && !resolved_all(expanded_keys(cards@), images@))
                    ||| (e == PrintError::DecodeFailure && resolved_all(expanded_keys(cards@), images@)
                            && !cells_ok(expanded_keys(cards@), images@))
                    ||| (e == PrintError::AssemblyFailure && resolved_all(expanded_keys(cards@), images@)
                            && cells_ok(expanded_keys(cards@), images@))
                },
            },
    {
        print_document(cards, images, options)
    }
}

} // verus!

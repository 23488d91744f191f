//! A self-contained print job over raw image bytes: the caller hands in
//! each card's PNG data and a copy count, and receives the finished
//! document, with human-readable milestone strings collected along the way.
//!
//! This entry point needs no fetcher or cache: it serves hosts that already
//! hold the artwork. It uses the default layout and shares the compositor
//! and assembler with the keyed pipeline, so its output is pinned by the
//! same page and document specifications.

use vstd::prelude::*;
use crate::layout::{PageOptions, default_options, page_count_of, chunk_at, lemma_chunk_index, lemma_index_chunk};
use crate::compose::{Page, compose_page, views_of, cell_ok, chunk_ok, page_data_spec};
use crate::assemble::{assemble_pdf, pdf_bytes_spec, page_views, page_fits};
use crate::error::PrintError;
use crate::text::dec_of;
use crate::text::u64_string;

verus! {

/// The flattened cell sequence of a job: each card's data repeated its
/// count many times, in input order.
pub open spec fn expanded_data(cards: Seq<(u32, Seq<u8>)>) -> Seq<Seq<u8>>
    decreases cards.len(),
{
    if cards.len() == 0 {
        Seq::empty()
    } else {
        expanded_data(cards.drop_last()) + Seq::new(cards.last().0 as nat, |i: int| cards.last().1)
    }
}

/// Every cell's bytes decode to a card-sized raster.
pub open spec fn data_cells_ok(flat: Seq<Seq<u8>>) -> bool {
    forall|i: int| 0 <= i < flat.len() ==> cell_ok(#[trigger] flat[i])
}

/// The composed pages of a job over raw cell data.
pub open spec fn data_pages_spec(flat: Seq<Seq<u8>>, o: PageOptions) -> Seq<(u32, u32, Seq<u8>)> {
    Seq::new(
        page_count_of(flat.len() as int, (o.rows * o.cols) as int) as nat,
        |j: int| (
            (o.canvas_width() as u32),
            (o.canvas_height() as u32),
            page_data_spec(chunk_at(flat, (o.rows * o.cols) as int, j), o),
        ),
    )
}

/// The document bytes of a whole job: a function of the cards alone.
pub open spec fn job_bytes_spec(cards: Seq<(u32, Seq<u8>)>) -> Seq<u8> {
    pdf_bytes_spec(data_pages_spec(expanded_data(cards), default_options()), default_options())
}

/// The milestone string announced before page `i` of `n` is composed.
pub open spec fn page_milestone(i: int, n: int) -> Seq<char> {
    "Generating page images ("@ + dec_of(i as nat) + " / "@ + dec_of(n as nat) + ")"@
}

/// The milestone string announced before the document is assembled.
pub open spec fn assembly_milestone() -> Seq<char> {
    "Compressing pages"@
}

/// A print job being put together: cards with copy counts, and the
/// milestone strings reported so far. Milestones are advisory: they never
/// affect control flow or the produced bytes.
pub struct PrintJob {
    cards: Vec<(u32, Vec<u8>)>,
    progress: Vec<String>,
}

impl PrintJob {
    /// The cards added so far: copy count and image bytes, in order.
    pub closed spec fn cards_view(&self) -> Seq<(u32, Seq<u8>)> {
        self.cards@.map_values(|c: (u32, Vec<u8>)| (c.0, c.1@))
    }

    /// The milestone strings reported so far, in order.
    pub closed spec fn progress_view(&self) -> Seq<Seq<char>> {
        self.progress@.map_values(|s: String| s@)
    }

    /// An empty job.
    pub fn new() -> (r: Self)
        ensures
            r.cards_view() == Seq::<(u32, Seq<u8>)>::empty(),
            r.progress_view() == Seq::<Seq<char>>::empty(),
    {
        let r = PrintJob { cards: Vec::new(), progress: Vec::new() };
        proof {
            assert(r.cards_view() =~= Seq::<(u32, Seq<u8>)>::empty());
            assert(r.progress_view() =~= Seq::<Seq<char>>::empty());
        }
        r
    }

    /// Add `count` copies of a card with the given image bytes.
    pub fn add_card(&mut self, count: u32, data: Vec<u8>)
        ensures
            final(self).cards_view() == old(self).cards_view().push((count, data@)),
            final(self).progress_view() == old(self).progress_view(),
    {
        self.cards.push((count, data));
        proof {
            assert(self.cards_view() =~= old(self).cards_view().push((count, data@)));
        }
    }

    /// The milestone strings reported so far.
    pub fn progress_messages(&self) -> (r: &Vec<String>)
        ensures
            r@.map_values(|s: String| s@) == self.progress_view(),
    {
        &self.progress
    }

    /// Run the job: print and turn a failure into its diagnostic label.
    pub fn run(&mut self) -> (r: Result<Vec<u8>, String>)
        ensures
            final(self).cards_view() == old(self).cards_view(),
            r matches Ok(bytes) ==> {
                &&& data_cells_ok(expanded_data(old(self).cards_view()))
                &&& bytes@ == job_bytes_spec(old(self).cards_view())
            },
            r matches Err(s) ==> {
                ||| (s@ == "could not decode image"@ && !data_cells_ok(expanded_data(old(self).cards_view())))
                ||| (s@ == "could not assemble document"@ && data_cells_ok(expanded_data(old(self).cards_view())))
            },
    {
        match self.print() {
            Ok(bytes) => Ok(bytes),
            Err(e) => Err(e.describe().to_owned()),
        }
    }

    /// Produce the printable document for the cards added so far, with the
    /// default layout. Fails with `DecodeFailure` exactly when some card's
    /// bytes do not decode to a card-sized raster, and with
    /// `AssemblyFailure` only when the document serializer itself fails;
    /// otherwise it returns exactly `job_bytes_spec`. One milestone string
    /// is reported per page and one before assembly.
    pub fn print(&mut self) -> (r: Result<Vec<u8>, PrintError>)
        ensures
            final(self).cards_view() == old(self).cards_view(),
            old(self).progress_view().is_prefix_of(final(self).progress_view()),
            r matches Ok(bytes) ==> {
                &&& data_cells_ok(expanded_data(old(self).cards_view()))
                &&& bytes@ == job_bytes_spec(old(self).cards_view())
                &&& final(self).progress_view() == old(self).progress_view()
                    + Seq::new(
                        data_pages_spec(expanded_data(old(self).cards_view()), default_options()).len(),
                        |j: int| page_milestone(j + 1, data_pages_spec(expanded_data(old(self).cards_view()), default_options()).len() as int),
                    ).push(assembly_milestone())
            },
            r matches Err(e) ==> {
                ||| (e == PrintError::DecodeFailure && !data_cells_ok(expanded_data(old(self).cards_view())))
                ||| (e == PrintError::AssemblyFailure && data_cells_ok(expanded_data(old(self).cards_view())))
            },
    {
        let ghost cv = self.cards_view();
        let options = PageOptions::default();
        let ghost o = default_options();
        let cap = options.card_count();
        let cap_us = cap as usize;

        // Expand counts into the flat cell sequence.
        let mut flat: Vec<Vec<u8>> = Vec::new();
        let m = self.cards.len();
        let mut i: usize = 0;
        while i < m
            invariant
                0 <= i <= m,
                m == self.cards@.len(),
                *self == *old(self),
                cv == self.cards_view(),
                views_of(flat@) == expanded_data(cv.subrange(0, i as int)),
            decreases m - i,
        {
            let count = self.cards[i].0;
            let ghost base = views_of(flat@);
            let mut c: u32 = 0;
            while c < count
                invariant
                    0 <= c <= count,
                    0 <= i < m,
                    m == self.cards@.len(),
                    *self == *old(self),
                    cv == self.cards_view(),
                    count == self.cards@[i as int].0,
                    views_of(flat@) == base + Seq::new(c as nat, |x: int| cv[i as int].1),
                decreases count - c,
            {
                let data = self.cards[i].1.clone();
                let ghost fpre = flat@;
                proof {
                    assert(data@ == cv[i as int].1);
                }
                flat.push(data);
                proof {
                    assert(flat@ == fpre.push(data));
                    assert(views_of(flat@) =~= views_of(fpre).push(data@));
                    assert(views_of(flat@) =~= base + Seq::new((c + 1) as nat, |x: int| cv[i as int].1));
                }
                c += 1;
            }
            proof {
                assert(cv.subrange(0, i + 1).drop_last() == cv.subrange(0, i as int));
                assert(cv.subrange(0, i + 1).last() == cv[i as int]);
                assert(views_of(flat@) == expanded_data(cv.subrange(0, i + 1)));
            }
            i += 1;
        }
        proof {
            assert(cv.subrange(0, m as int) == cv);
        }
        let ghost fv = views_of(flat@);

        // Compose one page per capacity-sized chunk, reporting milestones.
        let n = flat.len();
        let pc = if n == 0 { 0 } else { (n - 1) / cap_us + 1 };
        proof {
            assert(pc == page_count_of(n as int, cap as int)) by (nonlinear_arith)
                requires
                    cap as int >= 1,
                    n >= 0,
                    pc == if n == 0 { 0int } else { (n as int - 1) / (cap as int) + 1 };
            assert(data_pages_spec(fv, o).len() == pc);
        }
        let pc_u64 = pc as u64;
        let ghost base_log = self.progress_view();
        let mut pages: Vec<Page> = Vec::new();
        let mut j: usize = 0;
        while j < pc
            invariant
                0 <= j <= pc,
                o == default_options(),
                options == o,
                o.valid(),
                fv == views_of(flat@),
                fv == expanded_data(cv),
                n == fv.len(),
                cap == o.rows * o.cols,
                cap_us == cap,
                1 <= cap,
                pc == page_count_of(n as int, cap as int),
                pc_u64 == pc,
                self.cards_view() == cv,
                cv == old(self).cards_view(),
                base_log == old(self).progress_view(),
                self.progress_view() == base_log + Seq::new(j as nat, |jj: int| page_milestone(jj + 1, pc as int)),
                pages@.len() == j,
                forall|jj: int| 0 <= jj < j ==> chunk_ok(chunk_at(fv, cap as int, jj)),
                forall|jj: int| 0 <= jj < j ==> {
                    &&& (#[trigger] pages@[jj]).width == o.canvas_width()
                    &&& pages@[jj].height == o.canvas_height()
                    &&& pages@[jj].data@ == page_data_spec(chunk_at(fv, cap as int, jj), o)
                },
            decreases pc - j,
        {
            proof {
                assert((j as int) * (cap as int) < n && (j as int) * (cap as int) >= 0) by (nonlinear_arith)
                    requires
                        0 <= j < pc,
                        cap as int >= 1,
                        pc == (n as int + cap as int - 1) / (cap as int);
            }
            let page_no = j as u64 + 1;
            let mut msg = "Generating page images (".to_owned();
            let num = u64_string(page_no);
            msg.append(num.as_str());
            msg.append(" / ");
            let total = u64_string(pc_u64);
            msg.append(total.as_str());
            msg.append(")");
            proof {
                assert(msg@ == page_milestone(j as int + 1, pc as int));
            }
            let ghost log_pre = self.progress@;
            let ghost msg_view = msg@;
            self.progress.push(msg);
            proof {
                assert(self.progress@ == log_pre.push(msg));
                assert(self.progress_view() =~= log_pre.map_values(|s: String| s@).push(msg_view));
                assert(self.progress_view() =~= base_log
                    + Seq::new((j + 1) as nat, |jj: int| page_milestone(jj + 1, pc as int)));
            }

            let start = j * cap_us;
            let len = if n - start > cap_us { cap_us } else { n - start };
            proof {
                assert(chunk_at(fv, cap as int, j as int).len() == len);
            }
            let mut cells: Vec<Vec<u8>> = Vec::new();
            let mut l: usize = 0;
            while l < len
                invariant
                    0 <= l <= len,
                    fv == views_of(flat@),
                    n == fv.len(),
                    1 <= cap,
                    cap_us == cap,
                    0 <= j,
                    start == (j as int) * (cap as int),
                    start + len <= n,
                    len <= cap,
                    cells@.len() == l,
                    forall|mm: int| 0 <= mm < l ==> (#[trigger] cells@[mm])@ == fv[start + mm],
                decreases len - l,
            {
                let data = flat[start + l].clone();
                proof {
                    assert(data@ == fv[start + l]);
                }
                cells.push(data);
                l += 1;
            }
            proof {
                assert forall|mm: int| 0 <= mm < len implies
                    views_of(cells@)[mm] == chunk_at(fv, cap as int, j as int)[mm] by {
                    lemma_chunk_index(fv, cap as int, j as int, mm);
                }
                assert(views_of(cells@) =~= chunk_at(fv, cap as int, j as int));
            }

            match compose_page(&cells, &options) {
                Ok(page) => {
                    pages.push(page);
                }
                Err(e) => {
                    proof {
                        assert(!chunk_ok(chunk_at(fv, cap as int, j as int)));
                        let bad = choose|mm: int| 0 <= mm < len
                            && !cell_ok(#[trigger] chunk_at(fv, cap as int, j as int)[mm]);
                        lemma_chunk_index(fv, cap as int, j as int, bad);
                        assert(!cell_ok(fv[(j as int) * (cap as int) + bad]));
                        assert(!data_cells_ok(fv));
                    }
                    return Err(e);
                }
            }
            j += 1;
        }

        proof {
            assert(data_cells_ok(fv)) by {
                assert forall|idx: int| 0 <= idx < fv.len() implies cell_ok(#[trigger] fv[idx]) by {
                    lemma_index_chunk(fv, cap as int, idx);
                    let jj = idx / (cap as int);
                    assert(chunk_ok(chunk_at(fv, cap as int, jj)));
                    assert(chunk_at(fv, cap as int, jj)[idx % (cap as int)] == fv[idx]);
                }
            }
            assert(page_views(pages@) =~= data_pages_spec(fv, o));
            assert forall|idx: int| 0 <= idx < pages@.len() implies
                page_fits((#[trigger] pages@[idx]).width, pages@[idx].height, o) by {
                assert(pages@[idx].width == o.canvas_width() && pages@[idx].height == o.canvas_height());
            }
        }

        let final_msg = "Compressing pages".to_owned();
        let ghost final_view = final_msg@;
        let ghost log_pre = self.progress@;
        self.progress.push(final_msg);
        proof {
            assert(self.progress@ == log_pre.push(final_msg));
            assert(self.progress_view() =~= log_pre.map_values(|s: String| s@).push(final_view));
            assert(self.progress_view() =~= base_log
                + Seq::new(pc as nat, |jj: int| page_milestone(jj + 1, pc as int)).push(assembly_milestone()));
            assert(old(self).progress_view().is_prefix_of(self.progress_view()));
        }
        assemble_pdf(pages, &options)
    }
}

} // verus!

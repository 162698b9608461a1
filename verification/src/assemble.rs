//! The assembler's front half: recover each page's identity from its filename,
//! rejecting the whole run on any malformed name, and sort the pages by the
//! numeric chapter/page order — the only mechanism that establishes page order
//! after the concurrent stages wrote files in arbitrary completion order. Then
//! decode each page once to build the document model: one page per image,
//! sized to the image's pixel dimensions.

use vstd::prelude::*;
use vstd::seq_lib::group_to_multiset_ensures;
use vstd::multiset::Multiset;
use crate::ident::{id_le, PageIdentity};
use crate::name::{parse_filename, parse_name};
use crate::normalize::{decode_image, decoded_dims, NamedBytes};
use crate::scale::Dim;

verus! {

broadcast use group_to_multiset_ensures;

/// Why an assembly run was rejected. Assembly is all-or-nothing: any of these
/// aborts the run before an output document is produced.
#[derive(Debug)]
pub enum AssembleError {
    /// This filename does not parse into a chapter/page identity.
    MalformedIdentity(String),
    /// This normalized image failed to decode during assembly.
    DecodeFailure(String),
    /// The container library could not embed this image.
    EmbedFailure(String),
    /// The document could not be serialized.
    WriteFailure,
}

/// One page whose identity was recovered from its filename.
pub struct ParsedPage {
    pub id: PageIdentity,
    pub name: String,
    pub image: Vec<u8>,
}

/// The value of one parsed page: identity, filename and image bytes.
pub open spec fn page_tuple(p: ParsedPage) -> (PageIdentity, Seq<char>, Seq<u8>) {
    (p.id, p.name@, p.image@)
}

/// The values of a sequence of parsed pages.
pub open spec fn page_tuples(s: Seq<ParsedPage>) -> Seq<(PageIdentity, Seq<char>, Seq<u8>)> {
    s.map_values(|p: ParsedPage| page_tuple(p))
}

/// The value one input file contributes once its name parses: the persisted
/// identity, the filename and the image bytes.
pub open spec fn file_tuple(f: NamedBytes) -> (PageIdentity, Seq<char>, Seq<u8>) {
    (
        match parse_name(f.name@) {
            Some(id) => id,
            None => PageIdentity { chapter: 0, page: 0 },
        },
        f.name@,
        f.bytes@,
    )
}

/// The values of a sequence of input files.
pub open spec fn file_tuples(s: Seq<NamedBytes>) -> Seq<(PageIdentity, Seq<char>, Seq<u8>)> {
    s.map_values(|f: NamedBytes| file_tuple(f))
}

/// Recover every page identity, or reject the run: succeeds exactly when every
/// filename parses, and then carries over each file's identity, name and bytes
/// unchanged.
#[verifier::loop_isolation(false)]
pub fn parse_pages(files: Vec<NamedBytes>) -> (r: Result<Vec<ParsedPage>, AssembleError>)
    ensures
        match r {
            Ok(pages) => (forall|i: int| 0 <= i < files@.len()
                    ==> parse_name((#[trigger] files@[i]).name@) is Some)
                && pages@.len() == files@.len()
                && page_tuples(pages@).to_multiset() == file_tuples(files@).to_multiset()
                && (forall|i: int| 0 <= i < pages@.len()
                    ==> parse_name((#[trigger] pages@[i]).name@) == Some(pages@[i].id)),
            Err(e) => (exists|i: int| 0 <= i < files@.len()
                    && parse_name((#[trigger] files@[i]).name@) is None)
                && e matches AssembleError::MalformedIdentity(_),
        },
{
    let ghost orig = files@;
    let mut files = files;
    let mut pages: Vec<ParsedPage> = Vec::new();
    while files.len() > 0
        invariant
            files@ == orig.take(files@.len() as int),
            forall|i: int| files@.len() <= i < orig.len()
                ==> parse_name((#[trigger] orig[i]).name@) is Some,
            page_tuples(pages@).to_multiset()
                == file_tuples(orig.skip(files@.len() as int)).to_multiset(),
            pages@.len() + files@.len() == orig.len(),
            forall|i: int| 0 <= i < pages@.len()
                ==> parse_name((#[trigger] pages@[i]).name@) == Some(pages@[i].id),
        decreases files@.len(),
    {
        let ghost pre = files@;
        let f = files.pop().unwrap();
        proof {
            assert(f == orig[pre.len() - 1]);
            assert(files@ =~= orig.take(files@.len() as int));
        }
        match parse_filename(f.name.as_str()) {
            None => {
                proof {
                    assert(parse_name(orig[pre.len() - 1].name@) is None);
                    assert(exists|i: int| 0 <= i < orig.len()
                        && parse_name((#[trigger] orig[i]).name@) is None);
                }
                return Err(AssembleError::MalformedIdentity(f.name));
            }
            Some(id) => {
                let ghost old_pages = pages@;
                pages.push(ParsedPage { id, name: f.name, image: f.bytes });
                proof {
                    let pt = page_tuple(pages@.last());
                    assert(page_tuples(pages@) =~= page_tuples(old_pages).push(pt));
                    let rest = orig.skip(pre.len() as int);
                    assert(orig.skip(pre.len() - 1) =~= seq![orig[pre.len() - 1]] + rest);
                    assert(file_tuples(orig.skip(pre.len() - 1))
                        =~= seq![file_tuple(orig[pre.len() - 1])] + file_tuples(rest));
                    assert(file_tuple(orig[pre.len() - 1]) == pt);
                    assert((seq![pt] + file_tuples(rest)).to_multiset()
                        =~= file_tuples(rest).to_multiset().insert(pt)) by {
                        assert(seq![pt] + file_tuples(rest) =~= file_tuples(rest).insert(0, pt));
                        vstd::seq_lib::lemma_multiset_commutative(seq![pt], file_tuples(rest));
                        assert(seq![pt].to_multiset() =~= Multiset::empty().insert(pt)) by {
                            assert(seq![pt] =~= Seq::<(PageIdentity, Seq<char>, Seq<u8>)>::empty().push(pt));
                        }
                    }
                }
            }
        }
    }
    proof {
        assert(orig.skip(0) =~= orig);
    }
    Ok(pages)
}

/// Sort pages by the numeric identity order: the result is ordered, holds the
/// same pages (as identity/name/bytes values), and every page of it is one of
/// the input pages.
pub fn sort_pages(pages: Vec<ParsedPage>) -> (r: Vec<ParsedPage>)
    ensures
        r@.len() == pages@.len(),
        forall|i: int, j: int| 0 <= i < j < r@.len()
            ==> id_le((#[trigger] r@[i]).id, (#[trigger] r@[j]).id),
        page_tuples(r@).to_multiset() == page_tuples(pages@).to_multiset(),
        forall|i: int| 0 <= i < r@.len() ==> pages@.contains(#[trigger] r@[i]),
{
    let ghost orig = pages@;
    let mut rest = pages;
    let mut out: Vec<ParsedPage> = Vec::new();
    while rest.len() > 0
        invariant
            out@.len() + rest@.len() == orig.len(),
            forall|i: int, j: int| 0 <= i < j < out@.len()
                ==> id_le((#[trigger] out@[i]).id, (#[trigger] out@[j]).id),
            forall|i: int, j: int| 0 <= i < out@.len() && 0 <= j < rest@.len()
                ==> id_le((#[trigger] out@[i]).id, (#[trigger] rest@[j]).id),
            page_tuples(out@).to_multiset().add(page_tuples(rest@).to_multiset())
                == page_tuples(orig).to_multiset(),
            forall|i: int| 0 <= i < out@.len() ==> orig.contains(#[trigger] out@[i]),
            forall|i: int| 0 <= i < rest@.len() ==> orig.contains(#[trigger] rest@[i]),
        decreases rest@.len(),
    {
        // Find the first minimal identity among the remaining pages.
        let mut m: usize = 0;
        let mut k: usize = 1;
        while k < rest.len()
            invariant
                0 <= m < k <= rest@.len(),
                rest@.len() > 0,
                forall|j: int| 0 <= j < k ==> id_le(rest@[m as int].id, (#[trigger] rest@[j]).id),
            decreases rest@.len() - k,
        {
            if !rest[m].id.le(&rest[k].id) {
                proof {
                    crate::ident::lemma_id_le_total(rest@[m as int].id, rest@[k as int].id);
                    assert forall|j: int| 0 <= j < k + 1
                        implies id_le(rest@[k as int].id, (#[trigger] rest@[j]).id) by {
                        crate::ident::lemma_id_le_transitive(
                            rest@[k as int].id,
                            rest@[m as int].id,
                            rest@[j].id,
                        );
                    }
                }
                m = k;
            }
            k += 1;
        }
        let ghost pre = rest@;
        let e = rest.remove(m);
        proof {
            assert(rest@ == pre.remove(m as int));
            assert(page_tuples(rest@) =~= page_tuples(pre).remove(m as int));
            assert(page_tuples(pre)[m as int] == page_tuple(e));
            assert(page_tuples(rest@).to_multiset()
                == page_tuples(pre).to_multiset().remove(page_tuple(e)));
            assert(page_tuples(pre).to_multiset().contains(page_tuple(e))) by {
                assert(page_tuples(pre).contains(page_tuple(e)));
            }
        }
        let ghost old_out = out@;
        out.push(e);
        proof {
            assert(page_tuples(out@) =~= page_tuples(old_out).push(page_tuple(e)));
            assert(page_tuples(out@).to_multiset()
                == page_tuples(old_out).to_multiset().insert(page_tuple(e)));
            assert(page_tuples(out@).to_multiset().add(page_tuples(rest@).to_multiset())
                =~= page_tuples(orig).to_multiset());
            assert(forall|j: int| 0 <= j < rest@.len()
                ==> #[trigger] rest@[j] == (if j < m { pre[j] } else { pre[j + 1] }));
            assert(orig.contains(e)) by {
                assert(pre[m as int] == e);
            }
        }
    }
    proof {
        assert(page_tuples(rest@).to_multiset() =~= Multiset::empty()) by {
            assert(page_tuples(rest@) =~= Seq::<(PageIdentity, Seq<char>, Seq<u8>)>::empty());
        }
        assert(page_tuples(out@).to_multiset()
            =~= page_tuples(out@).to_multiset().add(page_tuples(rest@).to_multiset()));
    }
    out
}

/// One page of the document model: its identity, source filename, embedded
/// image and the page dimensions — one image pixel is one layout unit.
pub struct ModelPage {
    pub id: PageIdentity,
    pub name: String,
    pub image: Vec<u8>,
    pub width: u32,
    pub height: u32,
}

/// The document model the assembler builds: the flat page list, in sorted
/// identity order, each page sized to its embedded image.
pub struct DocumentModel {
    pub pages: Vec<ModelPage>,
}

/// The value of one model page, dimensions aside.
pub open spec fn model_tuple(p: ModelPage) -> (PageIdentity, Seq<char>, Seq<u8>) {
    (p.id, p.name@, p.image@)
}

/// The values of the model's pages.
pub open spec fn model_tuples(s: Seq<ModelPage>) -> Seq<(PageIdentity, Seq<char>, Seq<u8>)> {
    s.map_values(|p: ModelPage| model_tuple(p))
}

/// Build the document model from the sorted pages: decode each image once and
/// size its page to the image's pixel dimensions. Succeeds exactly when every
/// image decodes; one undecodable image rejects the whole run.
#[verifier::loop_isolation(false)]
pub fn build_model(pages: Vec<ParsedPage>) -> (r: Result<DocumentModel, AssembleError>)
    ensures
        match r {
            Ok(model) => model.pages@.len() == pages@.len()
                && (forall|i: int| 0 <= i < pages@.len()
                    ==> model_tuple(#[trigger] model.pages@[i]) == page_tuple(pages@[i]))
                && (forall|i: int| 0 <= i < model.pages@.len()
                    ==> decoded_dims((#[trigger] model.pages@[i]).image@) == Some(
                        Dim { width: model.pages@[i].width, height: model.pages@[i].height },
                    )),
            Err(e) => (exists|i: int| 0 <= i < pages@.len()
                    && decoded_dims((#[trigger] pages@[i]).image@) is None)
                && e matches AssembleError::DecodeFailure(_),
        },
{
    let ghost orig = pages@;
    let mut rest = pages;
    let mut model_pages: Vec<ModelPage> = Vec::new();
    while rest.len() > 0
        invariant
            model_pages@.len() + rest@.len() == orig.len(),
            rest@ == orig.skip(model_pages@.len() as int),
            forall|j: int| 0 <= j < model_pages@.len()
                ==> model_tuple(#[trigger] model_pages@[j]) == page_tuple(orig[j]),
            forall|j: int| 0 <= j < model_pages@.len()
                ==> decoded_dims((#[trigger] model_pages@[j]).image@) == Some(
                    Dim { width: model_pages@[j].width, height: model_pages@[j].height },
                ),
        decreases rest@.len(),
    {
        let i = model_pages.len();
        let ghost pre = rest@;
        let p = rest.remove(0);
        proof {
            assert(p == orig[i as int]);
            assert(rest@ =~= orig.skip(i as int + 1));
        }
        match decode_image(&p.image) {
            None => {
                proof {
                    assert(decoded_dims(orig[i as int].image@) is None);
                    assert(exists|j: int| 0 <= j < orig.len()
                        && decoded_dims((#[trigger] orig[j]).image@) is None);
                }
                return Err(AssembleError::DecodeFailure(p.name));
            }
            Some(d) => {
                let dim = d.dimensions();
                model_pages.push(ModelPage {
                    id: p.id,
                    name: p.name,
                    image: p.image,
                    width: dim.width,
                    height: dim.height,
                });
            }
        }
    }
    proof {
        assert(rest@ =~= Seq::<ParsedPage>::empty());
    }
    Ok(DocumentModel { pages: model_pages })
}

} // verus!

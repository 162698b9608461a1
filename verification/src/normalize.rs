//! The normalizer: decodes raw page images, determines a target resolution
//! (the modal vote when auto-resize is requested, each image's own size
//! otherwise), rescales by the quality factor, and re-encodes. Outputs whose
//! file already exists are skipped without decoding, which makes a re-run
//! reuse earlier work; a decode or encode failure of one image never aborts
//! the others. The encoder's verdict is outside knowledge, so every encoded
//! output is decoded once more and its dimensions checked before it is
//! reported written: what `Written` promises is verified, not trusted.
//! The filesystem reads and writes stand outside: the stage is handed each
//! input's bytes and hands back one outcome per input.

use vstd::prelude::*;
use crate::name::extension_of;
use crate::plan::contains_name;
use crate::scale::{scale_resolution, scaled_dim, Dim, QUALITY_MAX, QUALITY_MIN};
use crate::vote::{modal_of, modal_resolution};

verus! {

#[verifier::external_type_specification]
#[verifier::external_body]
pub struct ExDynamicImage(image::DynamicImage);

/// What the raster decoder yields on these bytes: the pixel dimensions, or
/// nothing when the bytes are not a decodable image. A function of the bytes
/// alone.
pub uninterp spec fn decoded_dims(bytes: Seq<u8>) -> Option<Dim>;

/// A decoded raster image, carrying its pixel dimensions as plain values. The
/// fields are private: only the decode and resize wrappers construct values,
/// so the dimensions always belong to the raster they accompany.
pub struct DecodedImage {
    img: image::DynamicImage,
    width: u32,
    height: u32,
}

impl DecodedImage {
    /// The image's pixel dimensions.
    pub closed spec fn dim(&self) -> Dim {
        Dim { width: self.width, height: self.height }
    }

    /// The image's pixel dimensions, executably.
    pub fn dimensions(&self) -> (r: Dim)
        ensures
            r == self.dim(),
    {
        Dim { width: self.width, height: self.height }
    }
}

/// Relies on image::load_from_memory: decodes the byte buffer; success and the
/// resulting pixel dimensions are a function of the bytes alone.
#[verifier::external_body]
pub fn decode_image(bytes: &Vec<u8>) -> (r: Option<DecodedImage>)
    ensures
        match r {
            Some(d) => decoded_dims(bytes@) == Some(d.dim()),
            None => decoded_dims(bytes@) is None,
        },
{
    match image::load_from_memory(bytes.as_slice()) {
        Ok(img) => {
            let width = img.width();
            let height = img.height();
            Some(DecodedImage { img, width, height })
        }
        Err(_) => None,
    }
}

/// Relies on image::DynamicImage::resize_exact: the result's dimensions are
/// exactly the requested ones, aspect ratio not preserved. Lanczos3 is the
/// high-quality resampling filter the scale rule calls for.
#[verifier::external_body]
pub fn resize_image(d: &DecodedImage, target: Dim) -> (r: DecodedImage)
    ensures
        r.dim() == target,
{
    let img = d.img.resize_exact(target.width, target.height, image::imageops::FilterType::Lanczos3);
    DecodedImage { img, width: target.width, height: target.height }
}

/// Relies on image::ImageFormat::from_extension and
/// image::DynamicImage::write_to: encodes the image in the format named by the
/// extension. Whether encoding succeeds, and whether the bytes decode back,
/// depend on the format and the raster, which the verifier cannot see, so
/// nothing is claimed of the result: the caller validates it by decoding it.
#[verifier::external_body]
pub fn encode_image(d: &DecodedImage, ext: &str) -> (r: Option<Vec<u8>>)
    requires
        d.dim().width > 0,
        d.dim().height > 0,
{
    let format = match image::ImageFormat::from_extension(ext) {
        Some(f) => f,
        None => {
            return None;
        }
    };
    let mut buf = std::io::Cursor::new(Vec::new());
    match d.img.write_to(&mut buf, format) {
        Ok(()) => Some(buf.into_inner()),
        Err(_) => None,
    }
}

/// One input or output of the stage: a filename and the file's bytes.
pub struct NamedBytes {
    pub name: String,
    pub bytes: Vec<u8>,
}

/// The dimensions of the inputs that decode, in input order: what the
/// resolution vote observes.
pub open spec fn decodable_dims(inputs: Seq<NamedBytes>) -> Seq<Dim>
    decreases inputs.len(),
{
    if inputs.len() == 0 {
        Seq::empty()
    } else {
        decodable_dims(inputs.drop_last()) + match decoded_dims(inputs.last().bytes@) {
            Some(d) => seq![d],
            None => Seq::<Dim>::empty(),
        }
    }
}

/// The target resolution for one image: the vote's modal pair when auto-resize
/// is requested and anything decoded, the image's own dimensions otherwise.
pub open spec fn target_for(auto_resize: bool, inputs: Seq<NamedBytes>, own: Dim) -> Dim {
    if auto_resize {
        match modal_of(decodable_dims(inputs)) {
            Some(m) => m,
            None => own,
        }
    } else {
        own
    }
}

/// How the stage handled one input.
pub enum NormalizeOutcome {
    /// The normalized image to write under the input's filename: it decodes to
    /// exactly the scale law's output dimensions.
    Written(Vec<u8>),
    /// The output already exists; nothing was decoded or written.
    AlreadyDone,
    /// The input did not decode; siblings continue.
    DecodeFailed,
    /// The input decoded, but no valid output could be encoded: a scaled side
    /// was zero, the encoder refused the format or raster, or the encoded
    /// bytes did not decode back to the scaled dimensions; siblings continue.
    EncodeFailed,
}

/// Normalize every input: one outcome per input, in input order.
///
/// An input whose output filename already exists is reported `AlreadyDone`,
/// and only those — re-running on the same inputs re-processes nothing that is
/// already on disk. `DecodeFailed` marks exactly the fresh inputs that do not
/// decode. Every written output decodes to exactly the scale law applied to
/// that input's target resolution — checked by decoding the output, so it
/// holds whatever the encoder returned. `EncodeFailed` is the remainder: the
/// input decoded but the encoder produced no output that decodes back to the
/// scaled dimensions (a zero scaled side is reported this way too, and owed:
/// see the clause on zero sides). No failure aborts the other inputs.
pub fn normalize_images(
    inputs: &Vec<NamedBytes>,
    existing: &Vec<String>,
    quality: u8,
    auto_resize: bool,
) -> (r: Vec<NormalizeOutcome>)
    requires
        QUALITY_MIN <= quality <= QUALITY_MAX,
    ensures
        r@.len() == inputs@.len(),
        forall|i: int| 0 <= i < r@.len() ==> match #[trigger] r@[i] {
            NormalizeOutcome::AlreadyDone => existing.deep_view().contains(inputs@[i].name@),
            NormalizeOutcome::Written(bytes) => decoded_dims(inputs@[i].bytes@) matches Some(own)
                && !existing.deep_view().contains(inputs@[i].name@)
                && decoded_dims(bytes@) == Some(
                    scaled_dim(target_for(auto_resize, inputs@, own), quality),
                ),
            NormalizeOutcome::DecodeFailed => !existing.deep_view().contains(inputs@[i].name@)
                && decoded_dims(inputs@[i].bytes@) is None,
            NormalizeOutcome::EncodeFailed => decoded_dims(inputs@[i].bytes@) matches Some(own)
                && !existing.deep_view().contains(inputs@[i].name@),
        },
        forall|i: int| 0 <= i < r@.len()
            ==> (existing.deep_view().contains(inputs@[i].name@) <==> (#[trigger] r@[i]) is AlreadyDone),
        forall|i: int| 0 <= i < r@.len()
            ==> ((decoded_dims(inputs@[i].bytes@) matches Some(own)
                && !existing.deep_view().contains(inputs@[i].name@)
                && (scaled_dim(target_for(auto_resize, inputs@, own), quality).width == 0
                    || scaled_dim(target_for(auto_resize, inputs@, own), quality).height == 0))
                ==> (#[trigger] r@[i]) is EncodeFailed),
{
    // The vote: decode every input once and observe the decodable dimensions.
    let mut common: Option<Dim> = None;
    if auto_resize {
        let mut dims: Vec<Dim> = Vec::new();
        let mut i: usize = 0;
        while i < inputs.len()
            invariant
                0 <= i <= inputs@.len(),
                dims@ == decodable_dims(inputs@.take(i as int)),
            decreases inputs@.len() - i,
        {
            proof {
                assert(inputs@.take(i as int + 1).drop_last() =~= inputs@.take(i as int));
                assert(inputs@.take(i as int + 1).last() == inputs@[i as int]);
            }
            match decode_image(&inputs[i].bytes) {
                Some(d) => {
                    dims.push(d.dimensions());
                    proof {
                        assert(dims@ =~= decodable_dims(inputs@.take(i as int + 1)));
                    }
                }
                None => {
                    proof {
                        assert(dims@ =~= decodable_dims(inputs@.take(i as int + 1)));
                    }
                }
            }
            i += 1;
        }
        proof {
            assert(inputs@.take(inputs@.len() as int) =~= inputs@);
        }
        common = modal_resolution(&dims);
    }
    proof {
        assert(auto_resize ==> common == modal_of(decodable_dims(inputs@)));
        assert(!auto_resize ==> common is None);
    }

    // Process each input independently; one failure never aborts the others.
    let mut r: Vec<NormalizeOutcome> = Vec::new();
    let mut i: usize = 0;
    while i < inputs.len()
        invariant
            0 <= i <= inputs@.len(),
            r@.len() == i,
            QUALITY_MIN <= quality <= QUALITY_MAX,
            auto_resize ==> common == modal_of(decodable_dims(inputs@)),
            !auto_resize ==> common is None,
            forall|j: int| 0 <= j < i ==> match #[trigger] r@[j] {
                NormalizeOutcome::AlreadyDone => existing.deep_view().contains(inputs@[j].name@),
                NormalizeOutcome::Written(bytes) => decoded_dims(inputs@[j].bytes@) matches Some(own)
                    && !existing.deep_view().contains(inputs@[j].name@)
                    && decoded_dims(bytes@) == Some(
                        scaled_dim(target_for(auto_resize, inputs@, own), quality),
                    ),
                NormalizeOutcome::DecodeFailed => !existing.deep_view().contains(inputs@[j].name@)
                    && decoded_dims(inputs@[j].bytes@) is None,
                NormalizeOutcome::EncodeFailed => decoded_dims(inputs@[j].bytes@) matches Some(own)
                    && !existing.deep_view().contains(inputs@[j].name@),
            },
            forall|j: int| 0 <= j < i
                ==> (existing.deep_view().contains(inputs@[j].name@) <==> (#[trigger] r@[j]) is AlreadyDone),
            forall|j: int| 0 <= j < i
                ==> ((decoded_dims(inputs@[j].bytes@) matches Some(own)
                    && !existing.deep_view().contains(inputs@[j].name@)
                    && (scaled_dim(target_for(auto_resize, inputs@, own), quality).width == 0
                        || scaled_dim(target_for(auto_resize, inputs@, own), quality).height == 0))
                    ==> (#[trigger] r@[j]) is EncodeFailed),
        decreases inputs@.len() - i,
    {
        let input = &inputs[i];
        let outcome: NormalizeOutcome = if contains_name(existing, &input.name) {
            NormalizeOutcome::AlreadyDone
        } else {
            match decode_image(&input.bytes) {
                None => NormalizeOutcome::DecodeFailed,
                Some(d) => {
                    let own = d.dimensions();
                    let target = match common {
                        Some(m) => m,
                        None => own,
                    };
                    proof {
                        assert(target == target_for(auto_resize, inputs@, own));
                    }
                    let scaled = scale_resolution(target, quality);
                    if scaled.width == 0 || scaled.height == 0 {
                        NormalizeOutcome::EncodeFailed
                    } else {
                        let resized = resize_image(&d, scaled);
                        let ext = extension_of(input.name.as_str());
                        match encode_image(&resized, ext) {
                            None => NormalizeOutcome::EncodeFailed,
                            Some(bytes) => {
                                // Validate the encoder's output: only bytes
                                // that decode back to the scaled dimensions
                                // count as written.
                                match decode_image(&bytes) {
                                    Some(check) => {
                                        let got = check.dimensions();
                                        if got.width == scaled.width && got.height == scaled.height {
                                            NormalizeOutcome::Written(bytes)
                                        } else {
                                            NormalizeOutcome::EncodeFailed
                                        }
                                    }
                                    None => NormalizeOutcome::EncodeFailed,
                                }
                            }
                        }
                    }
                }
            }
        };
        r.push(outcome);
        i += 1;
    }
    r
}

} // verus!

use thubook::assemble::AssembleError;
use thubook::normalize::{normalize_images, NamedBytes, NormalizeOutcome};
use thubook::pdf::assemble_document;

fn png_bytes(width: u32, height: u32) -> Vec<u8> {
    let img = image::DynamicImage::ImageRgb8(image::RgbImage::new(width, height));
    let mut buf = std::io::Cursor::new(Vec::new());
    img.write_to(&mut buf, image::ImageFormat::Png).unwrap();
    buf.into_inner()
}

fn dims_of(bytes: &[u8]) -> (u32, u32) {
    let img = image::load_from_memory(bytes).unwrap();
    (img.width(), img.height())
}

fn named(name: &str, bytes: Vec<u8>) -> NamedBytes {
    NamedBytes { name: String::from(name), bytes }
}

#[test]
fn auto_resize_scales_every_image_to_the_modal_resolution() {
    let inputs = vec![
        named("0_0.png", png_bytes(8, 12)),
        named("0_1.png", png_bytes(8, 12)),
        named("0_2.png", png_bytes(4, 4)),
    ];
    let outcomes = normalize_images(&inputs, &Vec::new(), 5, true);
    assert_eq!(outcomes.len(), 3);
    for o in &outcomes {
        match o {
            NormalizeOutcome::Written(bytes) => assert_eq!(dims_of(bytes), (4, 6)),
            _ => panic!("expected a written output"),
        }
    }
}

#[test]
fn without_auto_resize_each_image_keeps_its_own_target() {
    let inputs = vec![
        named("0_0.png", png_bytes(8, 12)),
        named("0_1.png", png_bytes(4, 4)),
    ];
    let outcomes = normalize_images(&inputs, &Vec::new(), 10, false);
    match &outcomes[0] {
        NormalizeOutcome::Written(bytes) => assert_eq!(dims_of(bytes), (8, 12)),
        _ => panic!("expected a written output"),
    }
    match &outcomes[1] {
        NormalizeOutcome::Written(bytes) => assert_eq!(dims_of(bytes), (4, 4)),
        _ => panic!("expected a written output"),
    }
}

#[test]
fn existing_outputs_are_reported_done_and_only_those() {
    let inputs = vec![
        named("0_0.png", png_bytes(8, 12)),
        named("0_1.png", png_bytes(8, 12)),
    ];
    let existing = vec![String::from("0_1.png")];
    let outcomes = normalize_images(&inputs, &existing, 10, false);
    assert!(matches!(outcomes[0], NormalizeOutcome::Written(_)));
    assert!(matches!(outcomes[1], NormalizeOutcome::AlreadyDone));

    // A second run over outputs that all exist re-processes nothing.
    let all = vec![String::from("0_0.png"), String::from("0_1.png")];
    let rerun = normalize_images(&inputs, &all, 10, false);
    assert!(rerun.iter().all(|o| matches!(o, NormalizeOutcome::AlreadyDone)));
}

#[test]
fn undecodable_input_fails_alone() {
    let inputs = vec![
        named("0_0.png", Vec::from(&b"not an image"[..])),
        named("0_1.png", png_bytes(4, 4)),
    ];
    let outcomes = normalize_images(&inputs, &Vec::new(), 10, false);
    assert!(matches!(outcomes[0], NormalizeOutcome::DecodeFailed));
    assert!(matches!(outcomes[1], NormalizeOutcome::Written(_)));
}

#[test]
fn assembled_document_has_one_page_per_image_in_numeric_order() {
    // Deliberately out of order, with chapter 10 sorting after chapter 2.
    let files = vec![
        named("10_1.png", png_bytes(5, 6)),
        named("2_10.png", png_bytes(7, 8)),
        named("2_9.png", png_bytes(3, 4)),
    ];
    let (model, bytes) = assemble_document(files).unwrap();

    assert_eq!(model.pages.len(), 3);
    let order: Vec<(u32, u32)> = model.pages.iter().map(|p| (p.id.chapter, p.id.page)).collect();
    assert_eq!(order, vec![(2, 9), (2, 10), (10, 1)]);
    let sizes: Vec<(u32, u32)> = model.pages.iter().map(|p| (p.width, p.height)).collect();
    assert_eq!(sizes, vec![(3, 4), (7, 8), (5, 6)]);

    // The serialized container is a loadable PDF with exactly three pages.
    let doc = lopdf::Document::load_mem(&bytes).unwrap();
    assert_eq!(doc.get_pages().len(), 3);
}

#[test]
fn malformed_filename_rejects_the_whole_run() {
    let files = vec![
        named("0_0.png", png_bytes(3, 4)),
        named("cover.png", png_bytes(3, 4)),
    ];
    let r = assemble_document(files);
    match r {
        Err(AssembleError::MalformedIdentity(name)) => assert_eq!(name, "cover.png"),
        _ => panic!("expected the malformed name to reject the run"),
    }
}

#[test]
fn undecodable_image_rejects_the_whole_run() {
    let files = vec![
        named("0_0.png", png_bytes(3, 4)),
        named("0_1.png", Vec::from(&b"garbage"[..])),
    ];
    let r = assemble_document(files);
    assert!(matches!(r, Err(AssembleError::DecodeFailure(_))));
}

#[test]
fn empty_input_produces_a_valid_zero_page_document() {
    let r = assemble_document(Vec::new());
    let (model, bytes) = r.unwrap();
    assert_eq!(model.pages.len(), 0);
    let doc = lopdf::Document::load_mem(&bytes).unwrap();
    assert_eq!(doc.get_pages().len(), 0);
}

#[test]
fn zero_scaled_side_is_reported_not_written() {
    // Quality 3 on a 3x3 image scales to 0x0: no valid output can exist.
    let inputs = vec![named("0_0.png", png_bytes(3, 3))];
    let outcomes = normalize_images(&inputs, &Vec::new(), 3, false);
    assert!(matches!(outcomes[0], NormalizeOutcome::EncodeFailed));
}

#[test]
fn output_that_does_not_decode_back_is_not_written() {
    // The TGA container has no magic bytes, so an encoding under that name
    // cannot be decoded back from memory; the normalizer validates every
    // output by decoding it, and reports this one as not encodable.
    let inputs = vec![named("0_0.tga", png_bytes(4, 4))];
    let outcomes = normalize_images(&inputs, &Vec::new(), 10, false);
    assert!(matches!(outcomes[0], NormalizeOutcome::EncodeFailed));
}

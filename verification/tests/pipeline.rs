use avatar_cache::bitmap::Bitmap;
use avatar_cache::codec::{decode_bitmap, encode_bitmap};
use avatar_cache::error::{DecodeError, FetchError};
use avatar_cache::fetch::{choose_source, load_cached_entry, on_net_response, should_persist,
    FetchSource, RawPayload};
use avatar_cache::fonts::NamedFontFamily;
use avatar_cache::key::derive_key;
use avatar_cache::mask::{isqrt64, round_image};
use avatar_cache::process::{parse_img_response, str_starts_with};

fn png_bytes(width: u32, height: u32) -> Vec<u8> {
    let mut img = image::RgbaImage::new(width, height);
    for (x, y, p) in img.enumerate_pixels_mut() {
        *p = image::Rgba([(x % 256) as u8, (y % 256) as u8, ((x + y) % 256) as u8, 255]);
    }
    let mut buf: Vec<u8> = Vec::new();
    image::DynamicImage::ImageRgba8(img)
        .write_to(
            &mut std::io::Cursor::new(&mut buf),
            image::ImageOutputFormat::Png,
        )
        .unwrap();
    buf
}

#[test]
fn derive_key_is_deterministic() {
    let a = derive_key("https://example.com/a.png");
    let b = derive_key("https://example.com/a.png");
    assert_eq!(a.as_bytes(), b.as_bytes());
}

#[test]
fn derive_key_exact_value() {
    let k = derive_key("ab");
    assert_eq!(
        String::from_utf8(k.as_bytes().clone()).unwrap(),
        "img6162"
    );
    let url_key = derive_key("https://example.com/a.png");
    assert_eq!(
        String::from_utf8(url_key.as_bytes().clone()).unwrap(),
        "img68747470733a2f2f6578616d706c652e636f6d2f612e706e67"
    );
}

#[test]
fn derive_key_never_empty() {
    let empty = derive_key("");
    assert_eq!(
        String::from_utf8(empty.as_bytes().clone()).unwrap(),
        "img"
    );
    assert!(!empty.as_bytes().is_empty());
}

#[test]
fn derive_key_distinct_identifiers_distinct_keys() {
    let ids = [
        "https://example.com/a.png",
        "https://example.com/b.png",
        "https://example.com/a.png?s=2",
        "http://example.com/a.png",
        "a",
        "b",
        "ab",
        "ba",
        "",
        "日本語",
    ];
    let keys: Vec<Vec<u8>> = ids.iter().map(|i| derive_key(i).as_bytes().clone()).collect();
    for i in 0..keys.len() {
        for j in 0..keys.len() {
            if i != j {
                assert_ne!(keys[i], keys[j], "keys for {:?} and {:?} collide", ids[i], ids[j]);
            }
        }
    }
}

#[test]
fn derive_key_is_filesystem_safe() {
    let k = derive_key("https://example.com/некто.png?q=1&r=/\\");
    assert!(!k.as_bytes().is_empty());
    for b in k.as_bytes() {
        assert!(b.is_ascii_lowercase() || b.is_ascii_digit());
    }
}

#[test]
fn isqrt_exact_values() {
    assert_eq!(isqrt64(0), 0);
    assert_eq!(isqrt64(1), 1);
    assert_eq!(isqrt64(2), 1);
    assert_eq!(isqrt64(41943040), 6476);
    assert_eq!(isqrt64(u64::MAX), 4294967295);
}

#[test]
fn mask_center_unmodified_corners_transparent() {
    let mut bmp = Bitmap::new(8, 8, vec![255u8; 4 * 8 * 8]);
    round_image(&mut bmp);
    assert_eq!(bmp.width(), 8);
    assert_eq!(bmp.height(), 8);
    assert_eq!(bmp.pixels.len(), 4 * 8 * 8);
    // center pixel (4, 4) is strictly interior: untouched
    let c = 4 * (4 * 8 + 4);
    assert_eq!(&bmp.pixels[c..c + 4], &[255, 255, 255, 255]);
    // all four corner pixels lie outside the circle: fully transparent
    for idx in [0usize, 7, 56, 63] {
        assert_eq!(&bmp.pixels[4 * idx..4 * idx + 4], &[0, 0, 0, 0], "corner {idx}");
    }
}

#[test]
fn mask_fade_band_exact_value() {
    // pixel (1, 3) of an 8-wide bitmap: 4*d^2 = 6^2 + 2^2 = 40, inside the
    // circle and within one pixel of the edge, so every channel of 255
    // becomes 255 * (8192 - isqrt(40 << 20)) / 2048 = 255 * 1716 / 2048 = 213.
    let mut bmp = Bitmap::new(8, 8, vec![255u8; 4 * 8 * 8]);
    round_image(&mut bmp);
    let i = 4 * (3 * 8 + 1);
    assert_eq!(&bmp.pixels[i..i + 4], &[213, 213, 213, 213]);
}

#[test]
fn mask_keeps_size_of_tall_bitmap() {
    let mut bmp = Bitmap::new(4, 9, vec![128u8; 4 * 4 * 9]);
    round_image(&mut bmp);
    assert_eq!(bmp.width(), 4);
    assert_eq!(bmp.height(), 9);
    assert_eq!(bmp.pixels.len(), 4 * 4 * 9);
}

#[test]
fn codec_round_trip_is_lossless() {
    let pixels: Vec<u8> = (0..4 * 5 * 3).map(|i| (i * 7 % 256) as u8).collect();
    let bmp = Bitmap::new(5, 3, pixels.clone());
    let bytes = encode_bitmap(&bmp);
    assert_eq!(bytes.len(), 16 + pixels.len());
    let back = decode_bitmap(&bytes).expect("stored bitmap must decode");
    assert_eq!(back.width(), 5);
    assert_eq!(back.height(), 3);
    assert_eq!(back.pixels, pixels);
}

#[test]
fn codec_round_trip_empty_bitmap() {
    let bmp = Bitmap::new(0, 0, Vec::new());
    let bytes = encode_bitmap(&bmp);
    assert_eq!(bytes.len(), 16);
    let back = decode_bitmap(&bytes).expect("empty bitmap must decode");
    assert_eq!(back.width(), 0);
    assert_eq!(back.height(), 0);
}

#[test]
fn codec_rejects_malformed_entries() {
    assert!(decode_bitmap(&Vec::new()).is_none());
    assert!(decode_bitmap(&vec![0u8; 15]).is_none());
    let bmp = Bitmap::new(2, 2, vec![9u8; 16]);
    let mut bytes = encode_bitmap(&bmp);
    bytes.pop();
    assert!(decode_bitmap(&bytes).is_none());
    bytes.push(0);
    bytes.push(0);
    assert!(decode_bitmap(&bytes).is_none());
}

#[test]
fn load_cached_entry_surfaces_corrupt_entries_as_io() {
    let err = load_cached_entry(&vec![1u8, 2, 3]).unwrap_err();
    assert!(matches!(err, FetchError::Io(_)));
}

#[test]
fn str_prefix_checks() {
    assert!(str_starts_with("image/png", "image/"));
    assert!(str_starts_with("image/svg+xml", "image/svg"));
    assert!(!str_starts_with("image/png", "image/svg"));
    assert!(!str_starts_with("text/html", "image/"));
    assert!(!str_starts_with("im", "image/"));
    assert!(str_starts_with("anything", ""));
}

#[test]
fn raster_path_normalizes_nonsquare_to_target() {
    let bytes = png_bytes(128, 96);
    let bmp = parse_img_response(Some("image/png".to_string()), &bytes, 64)
        .expect("a valid PNG must decode");
    assert_eq!(bmp.width(), 64);
    assert_eq!(bmp.height(), 64);
    assert_eq!(bmp.pixels.len(), 4 * 64 * 64);
    // the mask has been applied: the corners are fully transparent
    assert_eq!(&bmp.pixels[0..4], &[0, 0, 0, 0]);
}

#[test]
fn raster_path_at_target_size_only_masks() {
    let bytes = png_bytes(64, 64);
    let through_pipeline = parse_img_response(Some("image/png".to_string()), &bytes, 64)
        .expect("a valid PNG must decode");
    // the same pixels masked directly, with no crop and no resample
    let decoded = image::load_from_memory(&bytes).unwrap().into_rgba8();
    let mut direct = Bitmap::new(64, 64, decoded.into_raw());
    round_image(&mut direct);
    assert_eq!(through_pipeline.pixels, direct.pixels);
}

#[test]
fn raster_path_rejects_garbage_bytes() {
    let err = parse_img_response(Some("image/png".to_string()), &vec![0u8; 32], 64).unwrap_err();
    assert!(matches!(err, DecodeError::Raster(_)));
}

#[test]
fn vector_path_rasterizes_and_masks() {
    let svg = br##"<svg xmlns="http://www.w3.org/2000/svg" width="10" height="10"><rect width="10" height="10" fill="#ff0000"/></svg>"##;
    let bmp = parse_img_response(Some("image/svg+xml".to_string()), &svg.to_vec(), 64)
        .expect("a valid SVG must rasterize");
    assert_eq!(bmp.width(), 64);
    assert_eq!(bmp.height(), 64);
    // center pixel is interior: the rectangle's red, fully opaque
    let c = 4 * (32 * 64 + 32);
    assert_eq!(&bmp.pixels[c..c + 4], &[255, 0, 0, 255]);
    // corner pixel is outside the circle: transparent
    assert_eq!(&bmp.pixels[0..4], &[0, 0, 0, 0]);
}

#[test]
fn vector_path_centers_nonsquare_markup_on_square_canvas() {
    let svg = br##"<svg xmlns="http://www.w3.org/2000/svg" width="20" height="10"><rect width="20" height="10" fill="#ff0000"/></svg>"##;
    let bmp = parse_img_response(Some("image/svg+xml".to_string()), &svg.to_vec(), 64)
        .expect("a valid SVG must rasterize");
    // the rasterized 64x32 strip sits centered on a 64x64 transparent canvas
    assert_eq!(bmp.width(), 64);
    assert_eq!(bmp.height(), 64);
    let above = 4 * (5 * 64 + 32);
    assert_eq!(&bmp.pixels[above..above + 4], &[0, 0, 0, 0]);
    let center = 4 * (32 * 64 + 32);
    assert_eq!(&bmp.pixels[center..center + 4], &[255, 0, 0, 255]);
}

#[test]
fn vector_path_rejects_malformed_markup() {
    let err =
        parse_img_response(Some("image/svg+xml".to_string()), &b"<svg".to_vec(), 64).unwrap_err();
    assert!(matches!(err, DecodeError::Vector(_)));
}

#[test]
fn unsupported_content_type_is_rejected_without_fallback() {
    let err = parse_img_response(Some("text/html".to_string()), &png_bytes(8, 8), 64).unwrap_err();
    match err {
        DecodeError::UnsupportedContentType(ct) => assert_eq!(ct, "text/html"),
        other => panic!("expected an unsupported content type, got {:?}", other),
    }
}

#[test]
fn missing_content_type_counts_as_empty() {
    let err = parse_img_response(None, &png_bytes(8, 8), 64).unwrap_err();
    match err {
        DecodeError::UnsupportedContentType(ct) => assert_eq!(ct, ""),
        other => panic!("expected an unsupported content type, got {:?}", other),
    }
}

#[test]
fn net_success_decodes_and_persists() {
    let payload = RawPayload {
        content_type: Some("image/png".to_string()),
        bytes: png_bytes(128, 96),
    };
    let outcome = on_net_response(Ok(payload), 64);
    let bmp = outcome.as_ref().expect("scenario resolves Ok");
    assert_eq!(bmp.width(), 64);
    assert_eq!(bmp.height(), 64);
    assert!(should_persist(&outcome));

    // the persisted entry round-trips through the disk-hit path pixel for pixel
    let stored = encode_bitmap(outcome.as_ref().unwrap());
    let reread = load_cached_entry(&stored).expect("a stored entry must read back");
    assert_eq!(reread.pixels, outcome.unwrap().pixels);
}

#[test]
fn second_fetch_takes_disk_path() {
    assert_eq!(choose_source(false), FetchSource::Net);
    assert_eq!(choose_source(true), FetchSource::Disk);
}

#[test]
fn net_unsupported_type_writes_no_file() {
    let payload = RawPayload {
        content_type: Some("text/html".to_string()),
        bytes: b"<html></html>".to_vec(),
    };
    let outcome = on_net_response(Ok(payload), 64);
    match &outcome {
        Err(FetchError::Decode(DecodeError::UnsupportedContentType(ct))) => {
            assert_eq!(ct, "text/html")
        }
        other => panic!("expected an unsupported content type, got {:?}", other),
    }
    assert!(!should_persist(&outcome));
}

#[test]
fn net_failure_resolves_network_error_writes_no_file() {
    let outcome = on_net_response(Err("connection refused".to_string()), 64);
    match &outcome {
        Err(FetchError::Network(msg)) => assert_eq!(msg, "connection refused"),
        other => panic!("expected a network error, got {:?}", other),
    }
    assert!(!should_persist(&outcome));
}

#[test]
fn named_font_family_name() {
    let mut family = NamedFontFamily::Medium;
    assert_eq!(family.as_str(), "medium");
}

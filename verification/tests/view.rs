use base64::Engine;
use xdf_mcp::single::shrunk_height_of;
use xdf_mcp::view::{
    can_render, check_magic, citation_of, encode_view, render, shrunk_size_of, PicImage, ViewError,
};

#[test]
fn pic_files_are_recognised() {
    assert!(check_magic(b"PIC").is_ok());
    assert!(check_magic(b"PIC and more").is_ok());
}

#[test]
fn other_files_are_shown_in_part() {
    for (bytes, shown) in [
        (&b""[..], "[]"),
        (&b"PI"[..], "[50, 49]"),
        (&b"pic"[..], "[70, 69, 63]"),
        (&[0u8, 0x0f, 0xff, 0xab, 1, 2, 3, 4, 5, 6][..], "[00, 0F, FF, AB, 01, 02, 03, 04]"),
    ] {
        match check_magic(bytes) {
            Err(e) => assert_eq!(
                e.message(),
                format!("Not a PIC file (magic mismatch). First bytes: {}", shown)
            ),
            Ok(()) => panic!("accepted"),
        }
    }
    let first = [0x5au8, 7, 255];
    assert_eq!(format!("{:02X?}", &first[..]), "[5A, 07, FF]");
}

#[test]
fn messages_are_told() {
    let failed = ViewError::DecodeFailed { reason: "bad".to_string() };
    assert_eq!(failed.message(), "PIC decode failed: bad");
    assert_eq!(ViewError::BufferMismatch.message(), "RGB buffer size mismatch");
    assert_eq!(ViewError::EncodeFailed { reason: "no".to_string() }.message(), "no");
    assert_eq!(ViewError::TooLarge.message(), "Picture too large");
}

#[test]
fn sources_are_cited() {
    assert_eq!(citation_of("/a.hds", Some(2), "/M/C.PIC"), "/a.hds:2:/M/C.PIC");
    assert_eq!(citation_of("/a.xdf", None, "C.PIC"), "/a.xdf:C.PIC");
}

#[test]
fn heights_agree_with_single_precision() {
    let mut state: u64 = 12345;
    let mut next = |bits: u32| -> u32 {
        state = state.wrapping_mul(6364136223846793005).wrapping_add(1442695040888963407);
        ((state >> 33) as u32) >> (32 - bits.min(31) - 1)
    };
    let check = |width: u32, height: u32, limit: u32| {
        let ratio = limit as f32 / width as f32;
        let expected = (height as f32 * ratio) as u32;
        assert_eq!(shrunk_height_of(width, height, limit), expected, "{} {} {}", width, height, limit);
    };
    for round in 0..200000u32 {
        let bits = 4 + round % 28;
        let width = next(bits).max(1);
        let height = next(4 + (round / 28) % 28);
        check(width, height, next(bits) % width);
    }
    for width in 1..120 {
        for limit in 0..width {
            for height in [0, 1, 2, 3, 100, 256, 511, 512, 65535] {
                check(width, height, limit);
            }
        }
    }
    check(u32::MAX, u32::MAX, u32::MAX - 1);
    check(u32::MAX, u32::MAX, 1);
    check(u32::MAX, 1, 1);
    check(16777217, 16777217, 16777216);
    assert_eq!(shrunk_height_of(768, 512, 512), 341);
    assert_eq!(shrunk_height_of(512, 512, 256), 256);
}

#[test]
fn only_wide_pictures_are_shrunk() {
    assert_eq!(shrunk_size_of(768, 512, None), None);
    assert_eq!(shrunk_size_of(768, 512, Some(768)), None);
    assert_eq!(shrunk_size_of(768, 512, Some(1000)), None);
    assert_eq!(shrunk_size_of(768, 512, Some(512)), Some((512, 341)));
    assert_eq!(shrunk_size_of(10, 10, Some(0)), Some((0, 0)));
}

fn picture(width: u32, height: u32, rgb: Vec<u8>) -> PicImage {
    PicImage { width, height, bit_depth: 15, mode: 0, comment: "表紙".to_string(), rgb }
}

fn decoded(text: &str) -> image::RgbImage {
    let file = base64::engine::general_purpose::STANDARD.decode(text).unwrap();
    assert_eq!(&file[..8], b"\x89PNG\r\n\x1a\n");
    image::load_from_memory(&file).unwrap().to_rgb8()
}

#[test]
fn a_picture_comes_back_from_its_png() {
    let rgb: Vec<u8> = (0..5 * 3 * 3).map(|i| (i * 5) as u8).collect();
    match render(picture(5, 3, rgb.clone()), None, "src".to_string()) {
        Ok((meta, text)) => {
            assert_eq!(meta.format, "PIC");
            assert_eq!(meta.width, 5);
            assert_eq!(meta.height, 3);
            assert_eq!(meta.bit_depth, 15);
            assert_eq!(meta.mode, 0);
            assert_eq!(meta.comment, "表紙");
            assert_eq!(meta.source, "src");
            let shown = decoded(&text);
            assert_eq!((shown.width(), shown.height()), (5, 3));
            assert_eq!(shown.into_raw(), rgb);
        }
        Err(e) => panic!("{}", e.message()),
    }
}

#[test]
fn a_wide_picture_is_shrunk() {
    let pic = picture(64, 48, vec![200; 64 * 48 * 3]);
    match render(pic, Some(16), "src".to_string()) {
        Ok((meta, text)) => {
            assert_eq!((meta.width, meta.height), (64, 48));
            let shown = decoded(&text);
            assert_eq!((shown.width(), shown.height()), (16, 12));
            assert!(shown.into_raw().iter().all(|b| *b == 200));
        }
        Err(e) => panic!("{}", e.message()),
    }
}

#[test]
fn too_few_pixels_are_a_mismatch() {
    let r = render(picture(4, 4, vec![0; 47]), Some(2), "src".to_string());
    assert!(matches!(r, Err(ViewError::BufferMismatch)));
    let huge = render(picture(u32::MAX, u32::MAX, vec![0; 9]), None, "src".to_string());
    assert!(matches!(huge, Err(ViewError::BufferMismatch)));
}

#[test]
fn more_pixels_than_needed_are_cut_off() {
    let mut rgb = vec![9u8; 12];
    rgb.push(1);
    match render(picture(2, 2, rgb), None, "src".to_string()) {
        Ok((_, text)) => assert_eq!(decoded(&text).into_raw(), vec![9u8; 12]),
        Err(e) => panic!("{}", e.message()),
    }
}

#[test]
fn an_empty_picture_has_no_png() {
    let r = render(picture(0, 3, vec![]), None, "src".to_string());
    assert!(matches!(r, Err(ViewError::EncodeFailed { .. })));
    let shrunk = render(picture(4, 4, vec![0; 48]), Some(0), "src".to_string());
    assert!(matches!(shrunk, Err(ViewError::EncodeFailed { .. })));
    let flat = render(picture(4, 1, vec![0; 12]), Some(2), "src".to_string());
    assert!(matches!(flat, Err(ViewError::EncodeFailed { .. })));
}

#[test]
fn pictures_of_ordinary_size_can_be_rendered() {
    assert!(can_render(&picture(768, 512, vec![0; 768 * 512 * 3]), Some(512)));
    assert!(can_render(&picture(768, 512, vec![0; 768 * 512 * 3]), None));
    assert!(can_render(&picture(u32::MAX, u32::MAX, vec![]), Some(7)));
    assert!(can_render(&picture(65535, 1, vec![0; 65535 * 3]), Some(7)));
}

#[test]
fn pictures_beyond_single_precision_are_not_shrunk() {
    let wide = picture(65536, 1, vec![0; 65536 * 3]);
    assert!(!can_render(&wide, Some(65535)));
    let refused = render(picture(65536, 1, vec![0; 65536 * 3]), Some(65535), "src".to_string());
    assert!(matches!(refused, Err(ViewError::TooLarge)));
    assert!(can_render(&wide, Some(65536)));
    assert!(can_render(&wide, None));
    let tall = picture(2, 65536, vec![0; 65536 * 6]);
    assert!(!can_render(&tall, Some(1)));
    assert!(can_render(&tall, None));
}

#[test]
fn rows_beyond_32_bits_are_refused() {
    for width in [0x5555_5555u32, 0x6000_0000, u32::MAX] {
        assert!(!can_render(&picture(width, 0, vec![]), None));
        let r = render(picture(width, 0, vec![]), None, "src".to_string());
        assert!(matches!(r, Err(ViewError::TooLarge)));
        let unfilled = render(picture(width, 1, vec![]), None, "src".to_string());
        assert!(matches!(unfilled, Err(ViewError::BufferMismatch)));
    }
    assert!(can_render(&picture(0x5555_5554, 0, vec![]), None));
}

#[test]
fn the_largest_pictures_are_shrunk() {
    for (width, height, limit) in [(65535, 2, 65534), (65535, 1, 65534), (65535, 3, 1), (2, 65535, 1)] {
        let pic = picture(width, height, vec![90; (width * height * 3) as usize]);
        assert!(can_render(&pic, Some(limit)));
        match render(pic, Some(limit), "src".to_string()) {
            Ok((_, text)) => assert!(decoded(&text).into_raw().iter().all(|b| *b == 90)),
            Err(e) => assert!(matches!(e, ViewError::EncodeFailed { .. })),
        }
    }
}

#[test]
fn a_shrunk_picture_comes_of_its_own_pixels() {
    // The left half is bright, the right half dark.
    let rgb: Vec<u8> = (0..64 * 32 * 3).map(|i| if i / 3 % 64 < 32 { 250 } else { 10 }).collect();
    match render(picture(64, 32, rgb), Some(8), "src".to_string()) {
        Ok((_, text)) => {
            let shown = decoded(&text);
            assert_eq!((shown.width(), shown.height()), (8, 4));
            assert!(shown.get_pixel(1, 2).0[0] > 200);
            assert!(shown.get_pixel(6, 2).0[0] < 60);
        }
        Err(e) => panic!("{}", e.message()),
    }
}

#[test]
fn base64_texts_are_made_of_sextets() {
    let digit = |v: usize| -> char {
        let alphabet = b"ABCDEFGHIJKLMNOPQRSTUVWXYZabcdefghijklmnopqrstuvwxyz0123456789+/";
        alphabet[v] as char
    };
    let at = |file: &[u8], i: usize| -> usize {
        if i < file.len() {
            file[i] as usize
        } else {
            0
        }
    };
    for side in 1..9u32 {
        let rgb: Vec<u8> = (0..side * 3).map(|i| (i * 37) as u8).collect();
        let text = match encode_view(side, 1, rgb) {
            Ok(text) => text,
            Err(e) => panic!("{}", e.message()),
        };
        assert!(text.starts_with("iVBORw0KGgo"));
        let file = base64::engine::general_purpose::STANDARD.decode(&text).unwrap();
        assert_eq!(text.len(), 4 * ((file.len() + 2) / 3));
        for (i, c) in text.chars().enumerate() {
            let k = 3 * (i / 4);
            let sextet = match i % 4 {
                0 => at(&file, k) / 4,
                1 => at(&file, k) % 4 * 16 + at(&file, k + 1) / 16,
                2 => at(&file, k + 1) % 16 * 4 + at(&file, k + 2) / 64,
                _ => at(&file, k + 2) % 64,
            };
            if i % 4 >= 2 && k + i % 4 - 1 >= file.len() {
                assert_eq!(c, '=');
            } else {
                assert_eq!(c, digit(sextet));
            }
        }
    }
}

#[test]
fn pixels_are_encoded_directly() {
    match encode_view(1, 1, vec![1, 2, 3]) {
        Ok(text) => assert_eq!(decoded(&text).into_raw(), vec![1, 2, 3]),
        Err(e) => panic!("{}", e.message()),
    }
}

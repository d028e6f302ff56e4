use qr_svg::codewords::{data_codewords, ec_codewords, full_codewords, gen_poly};
use qr_svg::encoder::{decode_data_codewords, extract_codewords};
use qr_svg::gf::{gf_mul, gf_pow2};
use qr_svg::grid::{build_grid, format_info};
use qr_svg::svg::svg_of_grid;
use qr_svg::{encode_bytes_to_svg, encode_to_svg, generate_qr_code, QrError};

fn rect_count(svg: &str) -> usize {
    svg.matches("<rect ").count()
}

#[test]
fn encoding_is_deterministic() {
    let a = encode_to_svg("HELLO").unwrap();
    let b = encode_to_svg("HELLO").unwrap();
    assert_eq!(a, b);
    let c = encode_bytes_to_svg(b"some bytes").unwrap();
    let d = encode_bytes_to_svg(b"some bytes").unwrap();
    assert_eq!(c, d);
}

#[test]
fn capacity_boundary_is_exact() {
    let at_max = [7u8; 14];
    assert!(encode_bytes_to_svg(&at_max).is_ok());
    let over_max = [7u8; 15];
    match encode_bytes_to_svg(&over_max) {
        Err(QrError::Encoding(reason)) => {
            assert_eq!(reason, "payload exceeds the capacity of a version 1 symbol at level M");
        }
        _ => panic!("a 15-byte payload must be rejected with an encoding error"),
    }
}

#[test]
fn hello_produces_wellformed_svg() {
    let svg = encode_to_svg("HELLO").unwrap();
    assert!(!svg.is_empty());
    assert!(svg.starts_with(
        "<svg xmlns=\"http://www.w3.org/2000/svg\" width=\"29\" height=\"29\" viewBox=\"0 0 29 29\">"
    ));
    assert!(svg.ends_with("</svg>"));
    assert!(svg.contains("width=\"1\" height=\"1\""));
}

#[test]
fn hello_dark_module_count() {
    let svg = encode_to_svg("HELLO").unwrap();
    assert_eq!(rect_count(&svg), 218);
}

#[test]
fn text_and_byte_payloads_agree() {
    let from_text = encode_to_svg("HELLO").unwrap();
    let from_bytes = encode_bytes_to_svg(b"HELLO").unwrap();
    assert_eq!(from_text, from_bytes);
}

#[test]
fn empty_payload_encodes() {
    let svg = encode_bytes_to_svg(b"").unwrap();
    assert!(svg.starts_with("<svg "));
    assert!(svg.ends_with("</svg>"));
}

#[test]
fn generate_qr_code_flattens_errors() {
    let long = "x".repeat(15);
    let err = generate_qr_code(long).unwrap_err();
    assert_eq!(
        err,
        "encoding error: payload exceeds the capacity of a version 1 symbol at level M"
    );
    let ok = generate_qr_code(String::from("HELLO")).unwrap();
    assert_eq!(ok, encode_to_svg("HELLO").unwrap());
}

#[test]
fn utf8_length_counts_for_capacity() {
    // Seven two-byte characters: 14 bytes, exactly at capacity.
    let fits = "äääääää";
    assert_eq!(fits.len(), 14);
    assert!(encode_to_svg(fits).is_ok());
    // Five three-byte characters: 15 bytes, one over.
    let over = "€€€€€";
    assert_eq!(over.len(), 15);
    assert!(encode_to_svg(over).is_err());
}

#[test]
fn error_messages_keep_their_kind() {
    let e = QrError::Encoding(String::from("too long"));
    assert_eq!(e.message(), "encoding error: too long");
    let io = QrError::Io(String::from("permission denied"));
    assert_eq!(io.message(), "io error: permission denied");
}

#[test]
fn payload_round_trips_through_data_codewords() {
    let payload = b"HELLO";
    let cw = data_codewords(payload);
    let back = decode_data_codewords(&cw).unwrap();
    assert_eq!(back, payload);
    let empty = data_codewords(b"");
    assert_eq!(decode_data_codewords(&empty).unwrap(), Vec::<u8>::new());
    let full = full_codewords(b"fourteen bytes");
    assert_eq!(decode_data_codewords(&full).unwrap(), b"fourteen bytes");
}

#[test]
fn format_word_matches_the_standard() {
    // Level M with mask 0 has the well-known format word 0x5412.
    assert_eq!(format_info(), 0x5412);
}

#[test]
fn generator_polynomial_has_the_required_roots() {
    // The degree-10 generator must vanish at alpha^0 .. alpha^9.
    let gen = gen_poly();
    assert_eq!(gen.len(), 11);
    assert_eq!(gen[0], 1);
    for i in 0..10u8 {
        let x = gf_pow2(i);
        let mut acc = 0u8;
        for &coeff in gen.iter() {
            acc = gf_mul(acc, x) ^ coeff;
        }
        assert_eq!(acc, 0, "alpha^{} is not a root", i);
    }
}

#[test]
fn reed_solomon_matches_reference_vector() {
    // Data codewords of "HELLO WORLD" in alphanumeric mode at version 1,
    // level M, and their published error-correction codewords.
    let data: Vec<u8> = vec![
        32, 91, 11, 120, 209, 114, 220, 77, 67, 64, 236, 17, 236, 17, 236, 17,
    ];
    let ec = ec_codewords(&data);
    assert_eq!(ec, vec![196, 35, 39, 119, 235, 215, 231, 226, 93, 23]);
}

#[test]
fn byte_mode_data_codewords_for_hello() {
    // Mode 0100, count 00000101, then the five bytes of "HELLO", the
    // terminator, and alternating pad bytes.
    let cw = data_codewords(b"HELLO");
    assert_eq!(
        cw,
        vec![
            0x40, 0x54, 0x84, 0x54, 0xC4, 0xC4, 0xF0, 0xEC, 0x11, 0xEC, 0x11, 0xEC, 0x11, 0xEC,
            0x11, 0xEC,
        ]
    );
}

#[test]
fn payload_round_trips_through_the_grid() {
    let cw = full_codewords(b"HELLO");
    let grid = build_grid(&cw);
    let back = extract_codewords(&grid);
    assert_eq!(back, cw);
    let payload = decode_data_codewords(&back).unwrap();
    assert_eq!(payload, b"HELLO");
    let empty_cw = full_codewords(b"");
    let empty_grid = build_grid(&empty_cw);
    assert_eq!(extract_codewords(&empty_grid), empty_cw);
    assert_eq!(decode_data_codewords(&empty_cw).unwrap(), Vec::<u8>::new());
}

#[test]
fn all_payload_lengths_round_trip() {
    for n in 0..=14usize {
        let payload = vec![b'a' + (n as u8); n];
        let cw = full_codewords(&payload);
        let grid = build_grid(&cw);
        let recovered = decode_data_codewords(&extract_codewords(&grid)).unwrap();
        assert_eq!(recovered, payload, "length {} failed to round trip", n);
    }
}

#[test]
fn grid_has_fixed_size_and_finder_corners() {
    let cw = full_codewords(b"HELLO");
    let grid = build_grid(&cw);
    assert_eq!(grid.len(), 441);
    // The three finder-pattern corners are dark; the fourth corner is a
    // data module region and the quiet corner cell next to a separator is
    // light.
    assert!(grid[0]); // (0, 0)
    assert!(grid[20]); // (0, 20)
    assert!(grid[20 * 21]); // (20, 0)
    assert!(!grid[7 * 21 + 7]); // (7, 7) separator
    assert!(grid[13 * 21 + 8]); // the dark module
    let svg = svg_of_grid(&grid);
    let dark = grid.iter().filter(|&&m| m).count();
    assert_eq!(rect_count(&svg), dark);
}

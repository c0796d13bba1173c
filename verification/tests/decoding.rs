use pdf_text::encoding::{
    BaseEncodingKind, CMapTable, FontEncodingStrategy, FontInfo, TextDecodeError,
};

fn decode(f: &FontInfo, data: &[u8]) -> Result<String, TextDecodeError> {
    let mut out = String::new();
    f.decode(data, &mut out)?;
    Ok(out)
}

fn diff_font() -> FontInfo {
    FontInfo {
        name: "Helvetica".to_string(),
        strategy: FontEncodingStrategy::DifferenceMap {
            base: BaseEncodingKind::Standard,
            differences: vec![(0x41, "hyphen".to_string())],
        },
    }
}

#[test]
fn difference_override_wins_over_base() {
    // 0x41 maps to "A" in the base table, but the override names the
    // hyphen glyph.
    assert_eq!(decode(&diff_font(), &[0x41]).unwrap(), "-");
}

#[test]
fn difference_falls_back_to_base_table() {
    // 0xD0 is the em dash in the Adobe standard encoding.
    assert_eq!(decode(&diff_font(), &[0xD0]).unwrap(), "\u{2014}");
}

#[test]
fn difference_absent_byte_decodes_to_nothing() {
    // 0x01 is in neither the overrides nor the standard table.
    assert_eq!(decode(&diff_font(), &[0x01]).unwrap(), "");
    assert_eq!(decode(&diff_font(), &[0x41, 0x01, 0xD0]).unwrap(), "-\u{2014}");
}

#[test]
fn winansi_base_maps_high_bytes() {
    let f = FontInfo {
        name: "Arial".to_string(),
        strategy: FontEncodingStrategy::DifferenceMap {
            base: BaseEncodingKind::WinAnsi,
            differences: vec![],
        },
    };
    // 0x80 is the euro sign in WinAnsi, nothing like the input byte.
    assert_eq!(decode(&f, &[0x80]).unwrap(), "\u{20AC}");
}

fn cmap_font(name: &str) -> FontInfo {
    FontInfo {
        name: name.to_string(),
        strategy: FontEncodingStrategy::IdentityCMap {
            cmap: CMapTable {
                entries: vec![
                    (0x41, "A".to_string()),
                    (0x4E2D, "\u{4E2D}".to_string()),
                    (0x42, "B".to_string()),
                ],
            },
        },
    }
}

#[test]
fn cmap_soft_hyphen_sentinel_decodes_to_hyphen() {
    assert_eq!(decode(&cmap_font("F0"), &[0x10, 0x28]).unwrap(), "-");
}

#[test]
fn cmap_single_byte_codes() {
    assert_eq!(decode(&cmap_font("F0"), &[0x41, 0x42, 0x43]).unwrap(), "AB");
}

#[test]
fn cmap_bom_switches_to_byte_pairs() {
    // After the byte-order mark the codes are two-byte big-endian; the
    // mark itself maps to nothing.
    assert_eq!(decode(&cmap_font("F0"), &[0xFE, 0xFF, 0x4E, 0x2D]).unwrap(), "\u{4E2D}");
}

#[test]
fn cmap_gbk_tag_switches_to_byte_pairs() {
    assert_eq!(decode(&cmap_font("Sim-GBK"), &[0x4E, 0x2D, 0x00, 0x41]).unwrap(), "\u{4E2D}A");
    // A trailing odd byte is dropped, not an error.
    assert_eq!(decode(&cmap_font("Sim-GBK"), &[0x4E, 0x2D, 0x00]).unwrap(), "\u{4E2D}");
}

fn raw_font() -> FontInfo {
    FontInfo {
        name: String::new(),
        strategy: FontEncodingStrategy::RawUtf16Be,
    }
}

#[test]
fn raw_utf16be_with_bom_decodes() {
    assert_eq!(decode(&raw_font(), &[0xFE, 0xFF, 0x00, 0x41]).unwrap(), "A");
}

#[test]
fn raw_utf16be_surrogate_pair_decodes() {
    // U+1D11E musical symbol, encoded as the pair D834 DD1E.
    assert_eq!(
        decode(&raw_font(), &[0xFE, 0xFF, 0xD8, 0x34, 0xDD, 0x1E]).unwrap(),
        "\u{1D11E}"
    );
}

#[test]
fn raw_utf16be_unpaired_low_surrogate_fails() {
    assert_eq!(
        decode(&raw_font(), &[0xFE, 0xFF, 0xDC, 0x00]),
        Err(TextDecodeError)
    );
}

#[test]
fn raw_utf16be_unpaired_high_surrogate_fails() {
    assert_eq!(
        decode(&raw_font(), &[0xFE, 0xFF, 0xD8, 0x34]),
        Err(TextDecodeError)
    );
}

#[test]
fn raw_utf16be_odd_tail_fails() {
    assert_eq!(
        decode(&raw_font(), &[0xFE, 0xFF, 0x00, 0x41, 0x00]),
        Err(TextDecodeError)
    );
}

#[test]
fn raw_without_bom_decodes_utf8() {
    assert_eq!(decode(&raw_font(), b"Hello").unwrap(), "Hello");
    assert_eq!(decode(&raw_font(), &[0xC3, 0xA9]).unwrap(), "\u{E9}");
}

#[test]
fn raw_invalid_utf8_fails() {
    assert_eq!(decode(&raw_font(), &[0xFF, 0x41]), Err(TextDecodeError));
}

#[test]
fn raw_failure_leaves_output_untouched() {
    let mut out = String::from("kept");
    assert!(raw_font().decode(&[0xFF], &mut out).is_err());
    assert_eq!(out, "kept");
}

#[test]
fn not_decodable_contributes_nothing() {
    let f = FontInfo {
        name: "Weird".to_string(),
        strategy: FontEncodingStrategy::NotDecodable,
    };
    assert_eq!(decode(&f, b"anything at all").unwrap(), "");
}

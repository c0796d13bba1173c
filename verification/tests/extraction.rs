use pdf_text::encoding::{CMapTable, FontEncodingStrategy};
use pdf_text::fonts::{
    DeclaredBaseEncoding, EncodingDesc, FontCache, FontDesc, GraphicsStateResource, Resources,
};
use pdf_text::layout::{items2text, page_text, LayoutConfig, Rect, TextSpan};
use pdf_text::state::{ops_with_text_state, Matrix, Op, TextItem, TextState};

fn empty_resources() -> Resources {
    Resources { fonts: vec![], graphics_states: vec![] }
}

fn span(text: &str, x0: i64, y0: i64, x1: i64, y1: i64) -> TextSpan {
    TextSpan { text: text.to_string(), rect: Rect { x0, y0, x1, y1 } }
}

fn cfg() -> LayoutConfig {
    LayoutConfig::default_config()
}

#[test]
fn batch_single_fragment_round_trips() {
    // Re-running reconstruction on its own already-joined output, treated
    // as one fragment, returns it unchanged.
    let joined = "Hello World";
    let out = items2text(vec![span(joined, 0, 100, 110, 110)], cfg());
    assert_eq!(out, joined);
    let again = items2text(vec![span(&out, 0, 100, 110, 110)], cfg());
    assert_eq!(again, joined);
}

#[test]
fn batch_two_fragments_same_line_get_one_space() {
    let out = items2text(
        vec![span("Hello", 0, 100, 50, 110), span("World", 60, 100, 110, 110)],
        cfg(),
    );
    assert_eq!(out, "Hello World");
}

#[test]
fn batch_lower_fragment_breaks_the_line() {
    let out = items2text(
        vec![span("Hello", 0, 100, 50, 110), span("World", 0, 50, 50, 60)],
        cfg(),
    );
    assert_eq!(out, "Hello\nWorld");
}

#[test]
fn batch_sorts_into_reading_order() {
    let out = items2text(
        vec![span("World", 0, 50, 50, 60), span("Hello", 0, 100, 50, 110)],
        cfg(),
    );
    assert_eq!(out, "Hello\nWorld");
}

#[test]
fn batch_leftward_jump_breaks_the_line() {
    // The second fragment starts far left of the first one's right edge:
    // a new line or column, not continued text.
    let out = items2text(
        vec![span("Right", 0, 100, 100, 110), span("Left", 20, 100, 40, 110)],
        cfg(),
    );
    assert_eq!(out, "Right\nLeft");
}

#[test]
fn batch_no_space_at_punctuation_boundary() {
    let out = items2text(
        vec![span("Hello,", 0, 100, 50, 110), span("World", 60, 100, 110, 110)],
        cfg(),
    );
    assert_eq!(out, "Hello,World");
}

#[test]
fn streaming_adjusted_show_wide_spacing_inserts_one_space() {
    let cache = FontCache::new(empty_resources());
    let ops = vec![Op::ShowTextAdjusted {
        items: vec![
            TextItem::Text(b"Hello".to_vec()),
            TextItem::Spacing(100),
            TextItem::Text(b"World".to_vec()),
        ],
    }];
    let out = page_text(&cache, &ops, cfg()).unwrap();
    assert_eq!(out, "Hello World");
}

#[test]
fn streaming_adjusted_show_never_doubles_a_space() {
    let cache = FontCache::new(empty_resources());
    let ops = vec![Op::ShowTextAdjusted {
        items: vec![
            TextItem::Text(b"Hello ".to_vec()),
            TextItem::Spacing(100),
            TextItem::Text(b"World".to_vec()),
        ],
    }];
    let out = page_text(&cache, &ops, cfg()).unwrap();
    assert_eq!(out, "Hello World");
}

#[test]
fn streaming_adjusted_show_kerning_is_silent() {
    let cache = FontCache::new(empty_resources());
    let ops = vec![Op::ShowTextAdjusted {
        items: vec![
            TextItem::Text(b"Hel".to_vec()),
            TextItem::Spacing(-30),
            TextItem::Text(b"lo".to_vec()),
        ],
    }];
    let out = page_text(&cache, &ops, cfg()).unwrap();
    assert_eq!(out, "Hello");
}

#[test]
fn streaming_vertical_move_breaks_the_line() {
    let cache = FontCache::new(empty_resources());
    let ops = vec![
        Op::ShowText { text: b"Hello".to_vec() },
        Op::MoveTextPosition { dx: 0, dy: -20 },
        Op::ShowText { text: b"World".to_vec() },
    ];
    let out = page_text(&cache, &ops, cfg()).unwrap();
    assert_eq!(out, "Hello\nWorld");
}

#[test]
fn streaming_horizontal_move_inserts_a_space() {
    let cache = FontCache::new(empty_resources());
    let ops = vec![
        Op::ShowText { text: b"Hello".to_vec() },
        Op::MoveTextPosition { dx: 40, dy: 0 },
        Op::ShowText { text: b"World".to_vec() },
    ];
    let out = page_text(&cache, &ops, cfg()).unwrap();
    assert_eq!(out, "Hello World");
}

#[test]
fn undecodable_font_contributes_nothing_and_no_error() {
    // No ToUnicode CMap, an encoding whose base is unrecognized: the font
    // is kept as not decodable and its text is dropped silently.
    let resources = Resources {
        fonts: vec![(
            "F1".to_string(),
            FontDesc {
                name: Some("Weird".to_string()),
                to_unicode: None,
                encoding: Some(EncodingDesc {
                    base: DeclaredBaseEncoding::Unrecognized,
                    differences: vec![],
                }),
            },
        )],
        graphics_states: vec![],
    };
    let cache = FontCache::new(resources);
    match &cache.get_by_font_name("F1").strategy {
        FontEncodingStrategy::NotDecodable => (),
        _ => panic!("expected the not-decodable strategy"),
    }
    let ops = vec![
        Op::SetFontByName { name: "F1".to_string(), size: 12 },
        Op::ShowText { text: b"dropped".to_vec() },
    ];
    let out = page_text(&cache, &ops, cfg()).unwrap();
    assert_eq!(out, "");
}

#[test]
fn no_base_encoding_is_skipped_not_substituted() {
    let resources = Resources {
        fonts: vec![(
            "F1".to_string(),
            FontDesc {
                name: Some("Plain".to_string()),
                to_unicode: None,
                encoding: Some(EncodingDesc {
                    base: DeclaredBaseEncoding::NoBase,
                    differences: vec![(0x41, "hyphen".to_string())],
                }),
            },
        )],
        graphics_states: vec![],
    };
    let cache = FontCache::new(resources);
    match &cache.get_by_font_name("F1").strategy {
        FontEncodingStrategy::NotDecodable => (),
        _ => panic!("expected the not-decodable strategy"),
    }
}

#[test]
fn to_unicode_cmap_wins_over_encoding() {
    let resources = Resources {
        fonts: vec![(
            "F1".to_string(),
            FontDesc {
                name: Some("Mapped".to_string()),
                to_unicode: Some(CMapTable { entries: vec![(0x01, "x".to_string())] }),
                encoding: Some(EncodingDesc {
                    base: DeclaredBaseEncoding::WinAnsi,
                    differences: vec![],
                }),
            },
        )],
        graphics_states: vec![],
    };
    let cache = FontCache::new(resources);
    let ops = vec![
        Op::SetFontByName { name: "F1".to_string(), size: 10 },
        Op::ShowText { text: vec![0x01, 0x02] },
    ];
    assert_eq!(page_text(&cache, &ops, cfg()).unwrap(), "x");
}

#[test]
fn later_font_under_the_same_name_replaces_the_earlier() {
    let resources = Resources {
        fonts: vec![
            (
                "F1".to_string(),
                FontDesc {
                    name: Some("First".to_string()),
                    to_unicode: Some(CMapTable { entries: vec![(0x41, "a".to_string())] }),
                    encoding: None,
                },
            ),
            (
                "F1".to_string(),
                FontDesc {
                    name: Some("Second".to_string()),
                    to_unicode: Some(CMapTable { entries: vec![(0x41, "b".to_string())] }),
                    encoding: None,
                },
            ),
        ],
        graphics_states: vec![],
    };
    let cache = FontCache::new(resources);
    assert_eq!(cache.get_by_font_name("F1").name, "Second");
}

#[test]
fn unknown_font_falls_back_to_raw_passthrough() {
    let cache = FontCache::new(empty_resources());
    let ops = vec![
        Op::SetFontByName { name: "Missing".to_string(), size: 10 },
        Op::ShowText { text: b"still here".to_vec() },
    ];
    assert_eq!(page_text(&cache, &ops, cfg()).unwrap(), "still here");
}

#[test]
fn graphics_state_sets_font_and_size() {
    let resources = Resources {
        fonts: vec![],
        graphics_states: vec![(
            "G1".to_string(),
            GraphicsStateResource {
                font: Some((
                    FontDesc {
                        name: Some("GsFont".to_string()),
                        to_unicode: Some(CMapTable { entries: vec![(0x41, "Z".to_string())] }),
                        encoding: None,
                    },
                    14,
                )),
            },
        )],
    };
    let cache = FontCache::new(resources);
    let (info, size) = cache.get_by_graphic_state_name("G1").expect("entry expected");
    assert_eq!(size, 14);
    assert_eq!(info.name, "GsFont");
    let ops = vec![
        Op::SetGraphicsStateByName { name: "G1".to_string() },
        Op::ShowText { text: vec![0x41] },
    ];
    assert_eq!(page_text(&cache, &ops, cfg()).unwrap(), "Z");
    assert!(cache.get_by_graphic_state_name("Missing").is_none());
}

#[test]
fn batch_gap_at_threshold_is_not_a_space() {
    // The gap must strictly exceed the horizontal tolerance of 2.
    let out = items2text(
        vec![span("ab", 0, 100, 10, 110), span("cd", 12, 100, 20, 110)],
        cfg(),
    );
    assert_eq!(out, "abcd");
    let out = items2text(
        vec![span("ab", 0, 100, 10, 110), span("cd", 13, 100, 20, 110)],
        cfg(),
    );
    assert_eq!(out, "ab cd");
}

#[test]
fn streaming_spacing_at_threshold_is_kerning() {
    // The scaled magnitude must strictly exceed the word-gap of 50.
    let cache = FontCache::new(empty_resources());
    let ops = vec![Op::ShowTextAdjusted {
        items: vec![
            TextItem::Text(b"ab".to_vec()),
            TextItem::Spacing(-50),
            TextItem::Text(b"cd".to_vec()),
        ],
    }];
    assert_eq!(page_text(&cache, &ops, cfg()).unwrap(), "abcd");
    let ops = vec![Op::ShowTextAdjusted {
        items: vec![
            TextItem::Text(b"ab".to_vec()),
            TextItem::Spacing(-51),
            TextItem::Text(b"cd".to_vec()),
        ],
    }];
    assert_eq!(page_text(&cache, &ops, cfg()).unwrap(), "ab cd");
}

#[test]
fn transform_moves_the_text_offset() {
    // A change of the graphics transform moves where text lands, so a
    // large vertical translation breaks the line like a text-matrix move.
    let cache = FontCache::new(empty_resources());
    let ops = vec![
        Op::ShowText { text: b"Hello".to_vec() },
        Op::SetTransform {
            matrix: Matrix { m11: 1, m12: 0, m21: 0, m22: 1, m31: 0, m32: -30 },
        },
        Op::ShowText { text: b"World".to_vec() },
    ];
    assert_eq!(page_text(&cache, &ops, cfg()).unwrap(), "Hello\nWorld");
}

#[test]
fn empty_operator_list_yields_empty_text() {
    let cache = FontCache::new(empty_resources());
    assert_eq!(page_text(&cache, &vec![], cfg()).unwrap(), "");
    assert_eq!(items2text(vec![], cfg()), "");
}

#[test]
fn tracker_states_follow_the_table() {
    let cache = FontCache::new(empty_resources());
    let ops = vec![
        Op::SetLeading { leading: 5 },
        Op::NextLine,
        Op::MoveTextPosition { dx: 3, dy: 4 },
        Op::Other,
    ];
    let walked = ops_with_text_state(&cache, ops);
    assert_eq!(walked.len(), 4);
    assert_eq!(walked[0].1.text_leading, 5);
    // NextLine pre-translates the text matrix by (0, leading).
    assert_eq!(walked[1].1.text_matrix.m32, 5);
    assert_eq!(walked[1].1.text_matrix.m31, 0);
    // MoveTextPosition pre-translates by (dx, dy).
    assert_eq!(walked[2].1.text_matrix.m31, 3);
    assert_eq!(walked[2].1.text_matrix.m32, 9);
    // Unrecognized operators leave the state unchanged.
    assert_eq!(walked[3].1.text_matrix.m31, 3);
    let off = walked[3].1.text_offset();
    assert_eq!(off, (3, 9));
}

#[test]
fn begin_text_resets_but_keeps_the_graphics_transform() {
    let cache = FontCache::new(empty_resources());
    let m = Matrix { m11: 2, m12: 0, m21: 0, m22: 2, m31: 7, m32: 8 };
    let ops = vec![
        Op::SetTransform { matrix: m },
        Op::SetLeading { leading: 9 },
        Op::SetTextMatrix { matrix: Matrix { m11: 1, m12: 0, m21: 0, m22: 1, m31: 4, m32: 4 } },
        Op::BeginText,
    ];
    let walked = ops_with_text_state(&cache, ops);
    let s: &TextState = &walked[3].1;
    assert_eq!(s.matrix, m);
    assert_eq!(s.text_leading, 0);
    assert_eq!(s.text_matrix, Matrix { m11: 1, m12: 0, m21: 0, m22: 1, m31: 0, m32: 0 });
}

#[test]
fn scaled_text_matrix_scales_the_thresholds() {
    // With a horizontal scale of 10 the 10-unit move stays within the
    // scaled tolerance, so no space appears.
    let cache = FontCache::new(empty_resources());
    let ops = vec![
        Op::SetTextMatrix { matrix: Matrix { m11: 10, m12: 0, m21: 0, m22: 10, m31: 0, m32: 0 } },
        Op::ShowText { text: b"Hello".to_vec() },
        Op::MoveTextPosition { dx: 1, dy: 0 },
        Op::ShowText { text: b"World".to_vec() },
    ];
    assert_eq!(page_text(&cache, &ops, cfg()).unwrap(), "HelloWorld");
}

use pinst::harness::preview::{Preview, MAX_PREVIEW_BYTES};

fn text_of(p: &Preview) -> Option<(&str, usize, bool)> {
    match p {
        Preview::Text {
            body,
            total_bytes,
            truncated,
        } => Some((body.as_str(), *total_bytes, *truncated)),
        _ => None,
    }
}

#[test]
fn plain_utf8_is_text() {
    let p = Preview::classify(b"hello\n");
    assert_eq!(text_of(&p), Some(("hello\n", 6, false)));
}

#[test]
fn nothing_is_empty() {
    assert!(matches!(Preview::classify(b""), Preview::Empty));
}

#[test]
fn nul_or_invalid_utf8_is_binary() {
    assert!(matches!(
        Preview::classify(b"ab\0cd"),
        Preview::Binary { bytes: 5 }
    ));
    assert!(matches!(
        Preview::classify(&[0xff, 0xfe]),
        Preview::Binary { bytes: 2 }
    ));
}

#[test]
fn oversized_content_is_truncated_on_a_char_boundary_with_a_count() {
    let mut bytes = "é".repeat(MAX_PREVIEW_BYTES).into_bytes();
    bytes.extend_from_slice(b"tail");
    let preview = Preview::classify(&bytes);

    match preview {
        Preview::Text {
            body,
            total_bytes,
            truncated,
        } => {
            assert!(truncated);
            assert_eq!(total_bytes, bytes.len());
            assert!(body.len() <= MAX_PREVIEW_BYTES);
            assert!(body.is_char_boundary(body.len()), "must not split a char");
        }
        other => panic!("expected truncated text, got {other:?}"),
    }
}

#[test]
fn a_cut_keeps_as_many_whole_characters_as_fit() {
    let mut bytes = vec![b'a'; MAX_PREVIEW_BYTES - 1];
    bytes.extend_from_slice("é".as_bytes());
    let p = Preview::classify(&bytes);
    let (body, total, truncated) = text_of(&p).unwrap();
    assert!(truncated);
    assert_eq!(total, MAX_PREVIEW_BYTES + 1);
    assert_eq!(body.len(), MAX_PREVIEW_BYTES - 1);
}

#[test]
fn a_failed_read_is_shown_as_its_error() {
    assert!(matches!(Preview::from_bytes(Err("permission denied".to_string())), Preview::Error(m) if m == "permission denied"));
    assert!(matches!(Preview::from_bytes(Ok(Vec::new())), Preview::Empty));
    assert!(matches!(Preview::from_bytes(Ok(vec![0, 1])), Preview::Binary { bytes: 2 }));
}

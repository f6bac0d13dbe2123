use restream::overlay::{byte_covered, stamp, Geometry, PointerEvent, PointerState, Position};

fn hovering(x: usize, y: usize) -> PointerState {
    PointerState { position: Some(Position { x, y }), drawing: false }
}

fn changed(before: &[u8], after: &[u8]) -> Vec<usize> {
    (0..before.len()).filter(|&i| before[i] != after[i]).collect()
}

#[test]
fn same_bytes_inverted_in_every_frame() {
    let g = Geometry { width: 20, height: 30, bytes_per_pixel: 1 };
    let s = hovering(10, 15);
    let a: Vec<u8> = (0..600u32).map(|i| (i % 251) as u8).collect();
    let b: Vec<u8> = (0..600u32).map(|i| (i * 13 % 256) as u8).collect();
    let mut sa = a.clone();
    let mut sb = b.clone();
    stamp(&s, &g, 0, &mut sa, 600);
    stamp(&s, &g, 0, &mut sb, 600);
    let ca = changed(&a, &sa);
    assert_eq!(ca, changed(&b, &sb));
    // a diamond of radius 8: 2 * 8 * 9 + 1 pixels
    assert_eq!(ca.len(), 145);
    for &i in &ca {
        assert_eq!(sa[i], 255 - a[i]);
        assert_eq!(sb[i], 255 - b[i]);
    }
    assert!(ca.contains(&(15 * 20 + 10)));
    assert!(ca.contains(&(7 * 20 + 10)));
    assert!(!ca.contains(&(6 * 20 + 10)));
}

#[test]
fn stamping_in_pieces_matches_stamping_whole() {
    let g = Geometry { width: 20, height: 30, bytes_per_pixel: 1 };
    let s = hovering(3, 4);
    let frame: Vec<u8> = (0..600u32).map(|i| (i % 200) as u8).collect();
    let mut whole = frame.clone();
    stamp(&s, &g, 0, &mut whole, 600);
    let mut pieces = Vec::new();
    for (k, chunk) in frame.chunks(37).enumerate() {
        let mut c = chunk.to_vec();
        let len = c.len();
        stamp(&s, &g, k * 37, &mut c, len);
        pieces.extend_from_slice(&c);
    }
    assert_eq!(whole, pieces);
}

#[test]
fn only_the_given_length_is_touched() {
    let g = Geometry { width: 4, height: 4, bytes_per_pixel: 1 };
    let s = hovering(0, 0);
    let mut buf = vec![0u8; 10];
    stamp(&s, &g, 0, &mut buf, 3);
    assert_eq!(buf, vec![255, 255, 255, 0, 0, 0, 0, 0, 0, 0]);
}

#[test]
fn glyph_clipped_at_column_zero() {
    let g = Geometry { width: 20, height: 30, bytes_per_pixel: 1 };
    let s = hovering(0, 15);
    let before = vec![0u8; 600];
    let mut after = before.clone();
    stamp(&s, &g, 0, &mut after, 600);
    let c = changed(&before, &after);
    assert_eq!(c.len(), 81);
    // nothing wraps round to the far end of the previous rows
    assert!(c.iter().all(|&i| i % 20 <= 8));
}

#[test]
fn glyph_clipped_at_last_row() {
    let g = Geometry { width: 20, height: 30, bytes_per_pixel: 1 };
    let s = hovering(10, 29);
    let before = vec![7u8; 600];
    let mut after = before.clone();
    stamp(&s, &g, 0, &mut after, 600);
    let c = changed(&before, &after);
    assert_eq!(c.len(), 81);
    assert!(c.iter().all(|&i| i / 20 >= 21));
    // a pen past the bottom edge stamps nothing out of the frame
    assert!(!byte_covered(&hovering(10, 40), &g, 600));
    assert!(!byte_covered(&hovering(10, 29), &g, 610));
}

#[test]
fn every_channel_of_a_covered_pixel_is_inverted() {
    let g = Geometry { width: 4, height: 4, bytes_per_pixel: 2 };
    let s = hovering(3, 3);
    assert!(byte_covered(&s, &g, (3 * 4 + 3) * 2));
    assert!(byte_covered(&s, &g, (3 * 4 + 3) * 2 + 1));
    let mut buf = vec![100u8; 32];
    stamp(&s, &g, 0, &mut buf, 32);
    assert_eq!(buf[30], 155);
    assert_eq!(buf[31], 155);
}

#[test]
fn wide_buffer_swaps_and_mirrors_axes() {
    let g = Geometry { width: 40, height: 30, bytes_per_pixel: 1 };
    let s = PointerState { position: Some(Position { x: 5, y: 12 }), drawing: false };
    // column from y, row counted from the bottom by x
    assert!(byte_covered(&s, &g, 25 * 40 + 12));
    assert!(!byte_covered(&s, &g, 5 * 40 + 12));
    let tall = Geometry { width: 30, height: 40, bytes_per_pixel: 1 };
    assert!(byte_covered(&s, &tall, 12 * 30 + 5));
}

#[test]
fn no_glyph_while_drawing_or_without_position() {
    let g = Geometry { width: 8, height: 8, bytes_per_pixel: 1 };
    let mut s = PointerState::new();
    let mut buf = vec![1u8; 64];
    stamp(&s, &g, 0, &mut buf, 64);
    assert_eq!(buf, vec![1u8; 64]);
    s.apply_all(&[PointerEvent::Moved { x: 4, y: 4 }, PointerEvent::ContactStarted]);
    assert!(s.drawing);
    stamp(&s, &g, 0, &mut buf, 64);
    assert_eq!(buf, vec![1u8; 64]);
    s.apply(PointerEvent::ContactEnded);
    stamp(&s, &g, 0, &mut buf, 64);
    assert_eq!(buf[4 * 8 + 4], 254);
}

#[test]
fn leaving_range_clears_the_position() {
    let mut s = PointerState::new();
    s.apply_all(&[
        PointerEvent::Moved { x: 1, y: 2 },
        PointerEvent::Moved { x: 3, y: 4 },
    ]);
    assert_eq!(s.position, Some(Position { x: 3, y: 4 }));
    s.apply(PointerEvent::OutOfRange);
    assert_eq!(s.position, None);
    s.apply_all(&[]);
    assert_eq!(s.position, None);
    assert!(!s.drawing);
}

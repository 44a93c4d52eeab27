use sprite_scene::geom::Frame;
use sprite_scene::geom::Rect;
use sprite_scene::geom::Vector2d;
use sprite_scene::render::RenderData;

const TEMPLATE: [u16; 6] = [0, 1, 3, 1, 2, 3];

fn pattern_holds(index: &[u16]) -> bool {
    index.len() % 6 == 0
        && index
            .iter()
            .enumerate()
            .all(|(i, &v)| v == TEMPLATE[i % 6] + 4 * (i / 6) as u16)
}

#[test]
fn new_batch_starts_with_the_template() {
    let rd = RenderData::new();
    assert_eq!(rd.index, vec![0, 1, 3, 1, 2, 3]);
    assert_eq!(rd.sprite_pos.len(), 0);
    assert_eq!(rd.tex_pos.len(), 0);
}

#[test]
fn ensure_index_len_doubles_with_offset_pattern() {
    let mut rd = RenderData::new();
    rd.ensure_index_len(7);
    assert_eq!(rd.index, vec![0, 1, 3, 1, 2, 3, 4, 5, 7, 5, 6, 7]);
}

#[test]
fn ensure_index_len_reaches_requested_length() {
    let mut rd = RenderData::new();
    rd.ensure_index_len(50);
    // Doubling from 6: 6, 12, 24, 48, 96.
    assert_eq!(rd.index.len(), 96);
    assert!(pattern_holds(&rd.index));
}

#[test]
fn ensure_index_len_never_shrinks() {
    let mut rd = RenderData::new();
    rd.ensure_index_len(50);
    let grown = rd.index.len();
    rd.ensure_index_len(10);
    assert_eq!(rd.index.len(), grown);
    rd.ensure_index_len(0);
    assert_eq!(rd.index.len(), grown);
}

#[test]
fn ensure_index_len_handles_the_largest_batch() {
    let mut rd = RenderData::new();
    rd.ensure_index_len(98304);
    assert_eq!(rd.index.len(), 98304);
    assert!(pattern_holds(&rd.index));
    // The highest entry addresses the last vertex expressible in u16.
    assert_eq!(*rd.index.last().unwrap(), 65535);
}

#[test]
fn clear_keeps_the_index_buffer() {
    let mut rd = RenderData::new();
    let rect = Rect::new_raw(0, 0, 0, 4, 4);
    let frame = Frame {
        top_left: Vector2d { x: 0, y: 0 },
        bottom_left: Vector2d { x: 0, y: 8 },
        bottom_right: Vector2d { x: 8, y: 8 },
        top_right: Vector2d { x: 8, y: 0 },
    };
    rd.load(rect, frame);
    rd.ensure_index_len(12);
    assert_eq!(rd.sprite_pos.len(), 1);
    assert_eq!(rd.tex_pos.len(), 1);
    rd.clear();
    assert_eq!(rd.sprite_pos.len(), 0);
    assert_eq!(rd.tex_pos.len(), 0);
    assert_eq!(rd.index.len(), 12);
}

use ui::interaction::{ResizeCursor, ResizeHandle};

#[test]
fn corners_map_to_quad_corner_indices() {
    assert_eq!(ResizeHandle::nw().corner(), Some(0));
    assert_eq!(ResizeHandle::ne().corner(), Some(1));
    assert_eq!(ResizeHandle::se().corner(), Some(2));
    assert_eq!(ResizeHandle::sw().corner(), Some(3));
    assert_eq!(ResizeHandle::n().corner(), None);
    assert_eq!(ResizeHandle::e().corner(), None);
    assert_eq!(ResizeHandle::s().corner(), None);
    assert_eq!(ResizeHandle::w().corner(), None);
}

#[test]
fn cursors_follow_the_handle_direction() {
    assert_eq!(ResizeHandle::nw().cursor(), ResizeCursor::DiagonallyDown);
    assert_eq!(ResizeHandle::se().cursor(), ResizeCursor::DiagonallyDown);
    assert_eq!(ResizeHandle::ne().cursor(), ResizeCursor::DiagonallyUp);
    assert_eq!(ResizeHandle::sw().cursor(), ResizeCursor::DiagonallyUp);
    assert_eq!(ResizeHandle::n().cursor(), ResizeCursor::Vertically);
    assert_eq!(ResizeHandle::s().cursor(), ResizeCursor::Vertically);
    assert_eq!(ResizeHandle::e().cursor(), ResizeCursor::Horizontally);
    assert_eq!(ResizeHandle::w().cursor(), ResizeCursor::Horizontally);
    let odd = ResizeHandle { left: true, right: true, top: true, bottom: false };
    assert_eq!(odd.cursor(), ResizeCursor::Vertically);
    assert_eq!(odd.corner(), None);
}

use ultrafxr::sourcepos::{Pos, Span};

fn span(start: u32, end: u32) -> Span {
    Span {
        start: Pos(start),
        end: Pos(end),
    }
}

#[test]
fn sub_span_is_relative_to_start() {
    let whole = span(100, 110);
    assert_eq!(whole.sub_span(2, 5), span(102, 105));
    assert_eq!(whole.sub_span(0, 10), whole);
    assert_eq!(whole.sub_span(3, 3), span(103, 103));
    assert_eq!(whole.sub_span_from(4), span(104, 110));
    assert_eq!(whole.sub_span_to(4), span(100, 104));
}

#[test]
fn sub_span_saturates() {
    let whole = span(u32::MAX - 2, u32::MAX);
    assert_eq!(whole.sub_span(1, 2), span(u32::MAX - 1, u32::MAX));
    assert_eq!(whole.sub_span(1, 7), span(u32::MAX - 1, u32::MAX));
    assert_eq!(whole.sub_span(5, 7), span(u32::MAX, u32::MAX));
    assert_eq!(span(1, 2).sub_span(0, usize::MAX), span(1, u32::MAX));
}

#[test]
fn pos_offset() {
    assert_eq!(Pos(1).offset(0), Pos(1));
    assert_eq!(Pos(1).offset(41), Pos(42));
    assert_eq!(Pos(u32::MAX).offset(1), Pos(u32::MAX));
    assert!(Pos(1) < Pos(2));
}

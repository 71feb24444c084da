use ultrafxr::sourcepos::{Pos, Span};
use ultrafxr::sourcetext::{SourceText, TextPos, TextSpan};

fn test_lookup(input: &[u8], outputs: &[(u32, u32)]) {
    assert_eq!(input.len() + 1, outputs.len());
    let text = SourceText::new("<test>", input);
    let mut success = true;
    for (n, &expect) in (1..).zip(outputs.iter()) {
        let expect = Some(match expect {
            (line, byte) => TextPos { line, byte },
        });
        let result = text.pos(Pos(n));
        if result != expect {
            success = false;
            println!("Lookup failed: input={:?}, pos={}", input, n);
            println!("    Got    {:?}", result);
            println!("    Expect {:?}", expect);
        }
    }
    for &offset in [0, input.len() as u32 + 2].iter() {
        if let Some(result) = text.pos(Pos(offset)) {
            success = false;
            println!("lookup({}): got {:?}, expect None", offset, result);
        }
    }
    assert!(success);
}

#[test]
fn lookup_simple() {
    test_lookup(
        b"ab\ncd\n",
        &[(0, 0), (0, 1), (0, 2), (1, 0), (1, 1), (1, 2), (2, 0)],
    );
}

#[test]
fn lookup_no_linebreak_at_end() {
    test_lookup(
        b"abc\n\nd",
        &[(0, 0), (0, 1), (0, 2), (0, 3), (1, 0), (2, 0), (2, 1)],
    );
}

#[test]
fn lookup_empty() {
    test_lookup(&[], &[(0, 0)]);
}

#[test]
fn lookup_crlf() {
    test_lookup(
        b"a\r\nb\r\n",
        &[(0, 0), (0, 1), (0, 2), (1, 0), (1, 1), (1, 2), (2, 0)],
    );
}

#[test]
fn lookup_cr() {
    test_lookup(b"a\rb\r", &[(0, 0), (0, 1), (1, 0), (1, 1), (2, 0)]);
}

#[test]
fn line() {
    let text = SourceText::new("<test>", b"abc\ndef\rghi\r\njkl");
    let lines: &[&'static [u8]] = &[b"abc", b"def", b"ghi", b"jkl"];
    let mut success = true;
    for (n, &line) in lines.iter().enumerate() {
        let got = text.line(n as u32);
        if got != line {
            success = false;
            println!("Line {}: got {:?}, expect {:?}", n, got, line);
        }
    }
    assert!(success);
}

#[test]
fn lookup_mixed_line_ends() {
    test_lookup(
        b"a\n\rb\r\r\nc",
        &[
            (0, 0),
            (0, 1),
            (1, 0),
            (2, 0),
            (2, 1),
            (3, 0),
            (3, 1),
            (4, 0),
            (4, 1),
        ],
    );
}

#[test]
fn lookup_far_outside() {
    let text = SourceText::new("<test>", b"ab\ncd\n");
    assert_eq!(text.pos(Pos(9)), None);
    assert_eq!(text.pos(Pos(u32::MAX)), None);
    assert_eq!(text.pos(Pos(7)), Some(TextPos { line: 2, byte: 0 }));
}

#[test]
fn line_outside_is_empty() {
    let text = SourceText::new("<test>", b"abc\ndef\rghi\r\njkl");
    assert_eq!(text.line(4), b"");
    assert_eq!(text.line(u32::MAX), b"");
    let empty = SourceText::new("<test>", b"");
    assert_eq!(empty.line(0), b"");
    assert_eq!(empty.line(1), b"");
}

#[test]
fn line_after_last_line_end() {
    let text = SourceText::new("<test>", b"ab\ncd\n");
    assert_eq!(text.line(0), b"ab");
    assert_eq!(text.line(1), b"cd");
    assert_eq!(text.line(2), b"");
    assert_eq!(text.line(3), b"");
    let text = SourceText::new("<test>", b"\r\n\n\rx\r");
    assert_eq!(text.line(0), b"");
    assert_eq!(text.line(1), b"");
    assert_eq!(text.line(2), b"");
    assert_eq!(text.line(3), b"x");
    assert_eq!(text.line(4), b"");
    assert_eq!(text.line(5), b"");
}

#[test]
fn span_needs_both_ends() {
    let text = SourceText::new("<test>", b"ab\ncd\n");
    let span = |start: u32, end: u32| Span {
        start: Pos(start),
        end: Pos(end),
    };
    assert_eq!(
        text.span(span(2, 5)),
        Some(TextSpan {
            start: TextPos { line: 0, byte: 1 },
            end: TextPos { line: 1, byte: 1 },
        })
    );
    assert_eq!(
        text.span(span(1, 7)),
        Some(TextSpan {
            start: TextPos { line: 0, byte: 0 },
            end: TextPos { line: 2, byte: 0 },
        })
    );
    assert_eq!(text.span(span(0, 5)), None);
    assert_eq!(text.span(span(2, 8)), None);
    assert_eq!(text.span(span(0, 8)), None);
}

#[test]
fn filename_is_kept() {
    let text = SourceText::new("sounds/drum.sfx", b"x");
    assert_eq!(text.filename(), "sounds/drum.sfx");
}

#[test]
fn text_pos_order() {
    assert!(TextPos { line: 0, byte: 9 } < TextPos { line: 1, byte: 0 });
    assert!(TextPos { line: 1, byte: 0 } < TextPos { line: 1, byte: 1 });
}

#[test]
fn line_count_counts_the_last_line() {
    assert_eq!(SourceText::new("<test>", b"").line_count(), 1);
    assert_eq!(SourceText::new("<test>", b"abc").line_count(), 1);
    assert_eq!(SourceText::new("<test>", b"ab\ncd\n").line_count(), 3);
    assert_eq!(SourceText::new("<test>", b"a\r\nb\r\n").line_count(), 3);
    assert_eq!(SourceText::new("<test>", b"a\rb\r").line_count(), 3);
    assert_eq!(SourceText::new("<test>", b"\n\r\r\n").line_count(), 4);
    assert_eq!(
        SourceText::new("<test>", b"abc\ndef\rghi\r\njkl").line_count(),
        4
    );
}

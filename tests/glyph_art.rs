use front_panel::gfx::fonts::basic_5px;
use front_panel::gfx::glyph_art::parse_bitmap_glyph;

fn check(c: char, art: &str) {
    let font = basic_5px();
    let g = font.find_glyph(c).unwrap();
    let d = parse_bitmap_glyph(art);
    assert_eq!(d.width, g.width, "width of {:?}", c);
    assert_eq!(d.height, g.height, "height of {:?}", c);
    assert_eq!(d.baseline, g.baseline, "baseline of {:?}", c);
    assert_eq!(d.advance, g.advance, "advance of {:?}", c);
    assert_eq!(d.bit_vec, g.bitmap, "bits of {:?}", c);
}

#[test]
fn parse_upper_a() {
    let d = parse_bitmap_glyph("\n * \n* *\n***\n* *\n* *<,\n");
    assert_eq!((d.width, d.height, d.baseline, d.advance), (3, 5, 4, 4));
    // rows " * ", "* *", "***", "* *", "* *" packed LSB first
    assert_eq!(d.bit_vec, vec![0b1110_1010, 0b0101_1011]);
    check('A', "\n * \n* *\n***\n* *\n* *<,\n");
}

#[test]
fn parse_matches_font_data() {
    check('g', "\n **\n* *\n **\n  *<,\n *\n");
    check(',', "\n * <,\n* \n");
    check(' ', "\n<  ,\n");
    check('j', "\n *\n\n *\n *\n *<,\n*\n");
    check('4', "\n* *\n* *\n****\n  *\n  * <,\n");
    check('_', "\n   <,\n***\n");
}

#[test]
fn parse_edge_cases() {
    let d = parse_bitmap_glyph("");
    assert_eq!((d.width, d.height, d.baseline, d.advance), (0, 0, 0, 0));
    assert!(d.bit_vec.is_empty());
    // a single star on the first line: height is the line index, zero
    let d = parse_bitmap_glyph("*");
    assert_eq!((d.width, d.height), (1, 0));
    assert!(d.bit_vec.is_empty());
    // the art runs out of lines before the height is reached
    let d = parse_bitmap_glyph("\n\n*");
    assert_eq!((d.width, d.height), (1, 2));
    assert_eq!(d.bit_vec, vec![1]);
    // the first comma on the last line with one sets the advance
    let d = parse_bitmap_glyph("a,b,\n*  ,x,");
    assert_eq!(d.advance, 3);
    // the marker above the first star gives a negative baseline
    let d = parse_bitmap_glyph("<\n\n*\n*");
    assert_eq!(d.baseline, -2);
    assert_eq!(d.height, 3);
}

use kona::pos::Pos;
use kona::source_file::{FilePath, SourceFile};
use kona::source_map::SourceMap;
use kona::span::Span;

#[test]
fn test_loc_single_file1() {
    let mut mgr = SourceMap::new();
    mgr.load_virtual_file("example.scm".to_string(), "abcdefghi".to_string());
    let loc = mgr.lookup_pos_info(Pos::from_usize(5));

    assert_eq!(loc.line, 1);
    assert_eq!(loc.col, 5);
    assert_eq!(loc.col_display, 5);
}

#[test]
fn test_loc_single_file2() {
    let mut mgr = SourceMap::new();
    mgr.load_virtual_file("example".to_string(), "abc\ndef\nghi".to_string());
    let loc = mgr.lookup_pos_info(Pos::from_usize(5));

    assert_eq!(loc.line, 2);
    assert_eq!(loc.col, 1);
    assert_eq!(loc.col_display, 1);
}

#[test]
fn test_loc_single_file3() {
    let mut mgr = SourceMap::new();
    mgr.load_virtual_file(
        "example".to_string(),
        "\u{1F30A}\u{1F30A}\u{1F30A}\n\u{1F30A}\u{1F30A}\u{1F30A}\n\u{1F30A}\u{1F30A}\u{1F30A}"
            .to_string(),
    );
    let loc = mgr.lookup_pos_info(Pos::from_usize(17));

    assert_eq!(loc.line, 2);
    assert_eq!(loc.col, 1);
    assert_eq!(loc.col_display, 2);
}

#[test]
fn test_lookup_source() {
    let mut mgr = SourceMap::new();
    mgr.load_virtual_file("example".to_string(), "abcdefghijklmn".to_string());

    let str = mgr.lookup_source(Span::new(Pos::from_usize(3), Pos::from_usize(7)));
    assert_eq!(str, "defg");
}

#[test]
fn linkify_unc_test() {
    let path = FilePath::LocalFile("\\\\?\\C:\\example.txt".to_string());
    assert_eq!(path.linkify(), "C:\\example.txt");
}

#[test]
fn linkify_plain_paths() {
    let path = FilePath::LocalFile("/home/user/example.txt".to_string());
    assert_eq!(path.linkify(), "/home/user/example.txt");
    let virt = FilePath::Virtual("example".to_string());
    assert_eq!(virt.linkify(), "example");
    assert_eq!(virt.linkify_with_quotes(), "\"example\"");
}

#[test]
fn reloading_a_file_returns_the_same_file() {
    let mut mgr = SourceMap::new();
    let f1 = mgr.load_virtual_file("repl".to_string(), "one two".to_string());
    // the same name again: the cached file comes back, the new text is
    // ignored, and no new position space is allocated
    let f2 = mgr.load_virtual_file("repl".to_string(), "other text".to_string());
    assert_eq!(f1.start_pos, f2.start_pos);
    assert_eq!(f1.end_pos, f2.end_pos);
    assert_eq!(f1.src, f2.src);
    assert_eq!(mgr.used_pos_space, 7);
    assert_eq!(mgr.files.len(), 1);
}

#[test]
fn files_occupy_disjoint_ascending_ranges() {
    let mut mgr = SourceMap::new();
    let f1 = mgr.load_virtual_file("one".to_string(), "aaaa".to_string());
    let f2 = mgr.load_virtual_file("two".to_string(), "bb".to_string());
    let f3 = mgr.load_virtual_file("three".to_string(), "".to_string());
    assert_eq!(f1.start_pos.index, 0);
    assert_eq!(f1.end_pos.index, 4);
    assert!(f1.end_pos.index <= f2.start_pos.index);
    assert_eq!(f2.end_pos.index, 6);
    assert!(f2.end_pos.index <= f3.start_pos.index);
    assert_eq!(mgr.used_pos_space, 6);

    // positions issued for the first file still resolve after later loads
    let loc = mgr.lookup_pos_info(Pos::from_usize(2));
    assert_eq!(loc.line, 1);
    assert_eq!(loc.col, 2);
}

#[test]
fn lookup_file_finds_the_containing_file() {
    let mut mgr = SourceMap::new();
    mgr.load_virtual_file("one".to_string(), "aaaa".to_string());
    mgr.load_virtual_file("two".to_string(), "bb".to_string());
    let f = mgr.lookup_file(Pos::from_usize(1));
    assert_eq!(f.start_pos.index, 0);
    let g = mgr.lookup_file(Pos::from_usize(5));
    assert_eq!(g.start_pos.index, 4);
}

#[test]
fn source_file_line_index() {
    let f = SourceFile::new(
        FilePath::Virtual("x".to_string()),
        "ab\ncd\r\nef".to_string(),
        Pos::from_usize(0),
    );
    // line starts after each terminator, the CRLF counted as one
    assert_eq!(f.lines.len(), 3);
    assert_eq!(f.lines[0].index, 0);
    assert_eq!(f.lines[1].index, 3);
    assert_eq!(f.lines[2].index, 7);
    assert_eq!(f.lookup_line(Pos::from_usize(0)), Some(0));
    assert_eq!(f.lookup_line(Pos::from_usize(4)), Some(1));
    assert_eq!(f.lookup_line(Pos::from_usize(9)), Some(2));
    let bounds = f.lookup_line_bounds(1);
    assert_eq!(bounds.start().index, 3);
    assert_eq!(bounds.end().index, 7);
    // round trip: the start of every line's bounds looks up to that line
    for i in 0..f.lines.len() {
        let b = f.lookup_line_bounds(i);
        assert_eq!(f.lookup_line(b.start()), Some(i));
    }
}

#[test]
fn empty_file_conventions() {
    let f = SourceFile::new(
        FilePath::Virtual("empty".to_string()),
        "".to_string(),
        Pos::from_usize(0),
    );
    assert!(f.is_empty());
    assert_eq!(f.lookup_line(Pos::from_usize(0)), None);
    assert_eq!(f.lookup_line_and_col(Pos::from_usize(0)), (0, 0));
    assert_eq!(f.lookup_line_col_and_col_display(Pos::from_usize(0)), (0, 0, 0));
    let b = f.lookup_line_bounds(0);
    assert_eq!(b.start(), f.start_pos);
    assert_eq!(b.end(), f.end_pos);
}

#[test]
fn contains_is_end_inclusive() {
    let f = SourceFile::new(
        FilePath::Virtual("x".to_string()),
        "abc".to_string(),
        Pos::from_usize(10),
    );
    assert!(!f.contains(Pos::from_usize(9)));
    assert!(f.contains(Pos::from_usize(10)));
    assert!(f.contains(Pos::from_usize(13)));
    assert!(!f.contains(Pos::from_usize(14)));
}

#[test]
fn display_width_of_tab_and_zero_width() {
    let f = SourceFile::new(
        FilePath::Virtual("x".to_string()),
        "\ta\u{0301}b".to_string(),
        Pos::from_usize(0),
    );
    // tab displays as four columns; the combining accent as none
    let (line, col, col_display) = f.lookup_line_col_and_col_display(Pos::from_usize(4));
    assert_eq!(line, 1);
    assert_eq!(col, 3);
    assert_eq!(col_display, 5);
}

#[test]
fn multi_byte_char_index() {
    let f = SourceFile::new(
        FilePath::Virtual("x".to_string()),
        "a\u{00E9}\u{1F30A}".to_string(),
        Pos::from_usize(0),
    );
    assert_eq!(f.multi_byte_chars.len(), 2);
    assert_eq!(f.multi_byte_chars[0].pos().index, 1);
    assert_eq!(f.multi_byte_chars[0].len(), 2);
    assert_eq!(f.multi_byte_chars[1].pos().index, 3);
    assert_eq!(f.multi_byte_chars[1].len(), 4);
    assert_eq!(f.end_pos.index, 7);
}

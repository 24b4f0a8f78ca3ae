use stat_engine::cells::{cut_cells, delimiter_of, join_cells, lines_of, table_of};

fn texts(items: &[&str]) -> Vec<String> {
    items.iter().map(|s| s.to_string()).collect()
}

#[test]
fn line_is_cut_at_every_delimiter() {
    assert_eq!(cut_cells("a,b,c", ','), texts(&["a", "b", "c"]));
    assert_eq!(cut_cells("a;b,c", ';'), texts(&["a", "b,c"]));
    assert_eq!(cut_cells("one", ','), texts(&["one"]));
    assert_eq!(cut_cells("", ','), texts(&[""]));
    assert_eq!(cut_cells(",", ','), texts(&["", ""]));
    assert_eq!(cut_cells("a,,b,", ','), texts(&["a", "", "b", ""]));
    assert_eq!(cut_cells(",a", ','), texts(&["", "a"]));
}

#[test]
fn cells_lose_the_blanks_around_them() {
    assert_eq!(cut_cells("  a , b\t,\tc  ", ','), texts(&["a", "b", "c"]));
    assert_eq!(cut_cells(" a b , c  d ", ','), texts(&["a b", "c  d"]));
    assert_eq!(cut_cells("   ,   ", ','), texts(&["", ""]));
    assert_eq!(cut_cells("\u{a0}x\u{3000},\r\n", ','), texts(&["x", ""]));
    assert_eq!(cut_cells(" é , 日本 ", ','), texts(&["é", "日本"]));
    assert_eq!(cut_cells("a b", ' '), texts(&["a", "b"]));
}

#[test]
fn cutting_agrees_with_split_and_trim() {
    let lines = [
        "", " ", "a", "a,b", " a , b ", ",,", "x,,y", "\t1\t,\t2\t", "  lead", "trail  ",
        "a , b , c , d", "\u{2003}wide\u{2003},\u{85}next", "no delimiter here",
    ];
    for line in lines {
        for delimiter in [',', ';', ' ', 'a'] {
            let expected: Vec<String> =
                line.split(delimiter).map(|cell| cell.trim().to_string()).collect();
            assert_eq!(cut_cells(line, delimiter), expected, "{:?} at {:?}", line, delimiter);
        }
    }
}

#[test]
fn delimiter_is_the_first_character_or_a_comma() {
    assert_eq!(delimiter_of(None), ',');
    assert_eq!(delimiter_of(Some("")), ',');
    assert_eq!(delimiter_of(Some(";")), ';');
    assert_eq!(delimiter_of(Some("\t")), '\t');
    assert_eq!(delimiter_of(Some("||")), '|');
    assert_eq!(delimiter_of(Some("é;")), 'é');
}

#[test]
fn rows_are_joined_with_the_delimiter() {
    assert_eq!(join_cells(&texts(&["a", "b", "c"]), ','), "a,b,c");
    assert_eq!(join_cells(&texts(&["a"]), ','), "a");
    assert_eq!(join_cells(&texts(&[]), ','), "");
    assert_eq!(join_cells(&texts(&["", ""]), ';'), ";");
    assert_eq!(join_cells(&texts(&[" a ", "b"]), '\t'), " a \tb");
    assert_eq!(join_cells(&texts(&["é", "日本"]), '→'), "é→日本");
}

#[test]
fn joined_rows_cut_back_into_their_cells() {
    let rows = [vec!["a", "b", "c"], vec![""], vec!["", ""], vec!["x y", "z"]];
    for row in rows {
        let cells = texts(&row);
        assert_eq!(cut_cells(&join_cells(&cells, ','), ','), cells);
    }
}

#[test]
fn table_has_headers_and_rows() {
    let lines = texts(&["1, 2", "3,4", ""]);
    let table = table_of(Some("x , y"), &lines, ',');
    assert_eq!(table.headers, texts(&["x", "y"]));
    assert_eq!(table.rows, vec![texts(&["1", "2"]), texts(&["3", "4"]), texts(&[""])]);
    let table = table_of(None, &lines, ',');
    assert!(table.headers.is_empty());
    assert_eq!(table.rows.len(), 3);
    let table = table_of(Some("only"), &Vec::new(), ',');
    assert_eq!(table.headers, texts(&["only"]));
    assert!(table.rows.is_empty());
}

#[test]
fn table_is_written_headers_first() {
    let headers = texts(&["x", "y"]);
    let rows = vec![texts(&["1", "2"]), texts(&["3", "4"])];
    assert_eq!(lines_of(&headers, &rows, ';'), texts(&["x;y", "1;2", "3;4"]));
    assert_eq!(lines_of(&Vec::new(), &rows, ','), texts(&["1,2", "3,4"]));
    assert_eq!(lines_of(&headers, &Vec::new(), ','), texts(&["x,y"]));
    assert_eq!(lines_of(&Vec::new(), &Vec::new(), ','), Vec::<String>::new());
    assert_eq!(lines_of(&Vec::new(), &vec![Vec::new()], ','), texts(&[""]));
}

#[test]
fn blanks_are_the_characters_with_the_white_space_property() {
    let listed = |c: char| {
        let code = c as u32;
        (0x09..=0x0d).contains(&code)
            || [0x20, 0x85, 0xa0, 0x1680, 0x2028, 0x2029, 0x202f, 0x205f, 0x3000].contains(&code)
            || (0x2000..=0x200a).contains(&code)
    };
    let mut blanks = 0;
    for code in 0u32..=0x10ffff {
        if let Some(c) = char::from_u32(code) {
            assert_eq!(c.is_whitespace(), listed(c), "U+{:04X}", code);
            if listed(c) {
                blanks += 1;
            }
        }
    }
    assert_eq!(blanks, 25);
}

#[test]
fn every_blank_is_cut_off_and_nothing_else() {
    let blanks = [
        '\u{9}', '\u{a}', '\u{b}', '\u{c}', '\u{d}', ' ', '\u{85}', '\u{a0}', '\u{1680}',
        '\u{2000}', '\u{2001}', '\u{2002}', '\u{2003}', '\u{2004}', '\u{2005}', '\u{2006}',
        '\u{2007}', '\u{2008}', '\u{2009}', '\u{200a}', '\u{2028}', '\u{2029}', '\u{202f}',
        '\u{205f}', '\u{3000}',
    ];
    for blank in blanks {
        let line = format!("{}a{},{}", blank, blank, blank);
        assert_eq!(cut_cells(&line, ','), texts(&["a", ""]), "U+{:04X}", blank as u32);
    }
    let solid = [
        '\u{8}', '\u{e}', '\u{1f}', '!', '\u{84}', '\u{86}', '\u{9f}', '\u{a1}', '\u{180e}',
        '\u{1fff}', '\u{200b}', '\u{200c}', '\u{2027}', '\u{202a}', '\u{2060}', '\u{2fff}',
        '\u{3001}', '\u{feff}',
    ];
    for other in solid {
        let line = format!("{}a{}", other, other);
        assert_eq!(cut_cells(&line, ','), vec![line.clone()], "U+{:04X}", other as u32);
    }
}

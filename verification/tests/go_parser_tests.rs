use skan_uj_kod::position::{File, FilePos, FileSet};
use skan_uj_kod::token::{Token, TokenData};

#[test]
fn test_position() {
    let p = FilePos {
        filename: "test.gs".to_owned(),
        offset: 0,
        line: 54321,
        column: 8,
    };
    println!("this is the position: {} ", p.display_string());
    let mut fs = FileSet::new();
    let mut f = File::new("test.gs".to_owned());
    f.set_size(12345);
    f.add_line(123);
    f.add_line(133);
    f.add_line(143);
    println!("\nfile: {:?}", f);
    f.merge_line(1);
    println!("\nfile after merge: {:?}", f);

    {
        fs.add_file("testfile1.gs".to_owned(), None, 222);
        fs.add_file("testfile2.gs".to_owned(), None, 222);
        fs.add_file("testfile3.gs".to_owned(), None, 222);
        println!("\nset {:?}", fs);
    }

    for f in fs.iter() {
        println!("\nfiles in set: {:?}", f);
    }
    println!("\nfile at 100: {:?}", fs.file(100))
}

#[test]
fn token_test() {
    println!(
        "testxxxxx \n{}\n{}\n{}\n{}\n. ",
        Token::ILLEGAL(TokenData::from_string("asd".to_owned())).display_string(),
        Token::SWITCH.display_string(),
        Token::IDENT(TokenData::from_string("some_var".to_owned())).display_string(),
        Token::FLOAT(TokenData::from_string("3.14".to_owned())).display_string(),
    );
}

#[test]
fn file_pos_display_leaves_out_what_is_unknown() {
    let p = FilePos { filename: "test.gs".to_owned(), offset: 0, line: 54321, column: 8 };
    assert_eq!(p.display_string(), "test.gs:54321:8");
    let q = FilePos { filename: "a.go".to_owned(), offset: 0, line: 3, column: 0 };
    assert_eq!(q.display_string(), "a.go:3");
    let r = FilePos { filename: String::new(), offset: 0, line: 0, column: 0 };
    assert_eq!(r.display_string(), "-");
    let s = FilePos { filename: String::new(), offset: 0, line: 7, column: 2 };
    assert_eq!(s.display_string(), "7:2");
    assert!(!FilePos::null().is_valid());
    assert_eq!(FilePos::null().display_string(), "[null_file]");
}

#[test]
fn lines_are_added_in_order_and_merged() {
    let mut f = File::new("test.gs".to_owned());
    f.set_size(12345);
    f.add_line(123);
    f.add_line(133);
    f.add_line(100);
    f.add_line(20000);
    f.add_line(143);
    assert_eq!(f.line_count(), 4);
    assert_eq!(f.line_start(2), 123);
    f.merge_line(1);
    assert_eq!(f.line_count(), 3);
    assert_eq!(f.line_start(2), 133);
}

#[test]
fn files_are_found_by_position() {
    let mut fs = FileSet::new();
    fs.add_file("testfile1.gs".to_owned(), None, 222);
    fs.add_file("testfile2.gs".to_owned(), None, 222);
    fs.add_file("testfile3.gs".to_owned(), None, 222);
    assert_eq!(fs.base(), 669);
    assert_eq!(fs.iter().len(), 3);
    assert_eq!(fs.file(100).map(|f| f.name().to_owned()), Some("testfile1.gs".to_owned()));
    assert_eq!(fs.file(223).map(|f| f.name().to_owned()), Some("testfile2.gs".to_owned()));
    assert_eq!(fs.file(1000).map(|f| f.name().to_owned()), None);
    let p = fs.position(230).unwrap();
    assert_eq!(p.filename, "testfile2.gs");
    assert_eq!(p.offset, 7);
    assert_eq!(p.line, 1);
    assert_eq!(p.column, 8);
}

#[test]
fn tokens_display_their_text() {
    assert_eq!(Token::SWITCH.display_string(), "switch");
    assert_eq!(Token::ADD_ASSIGN.display_string(), "+=");
    assert_eq!(Token::IDENT(TokenData::from_string("some_var".to_owned())).display_string(), "some_var");
    assert!(Token::SWITCH.is_keyword());
    assert!(!Token::SWITCH.is_operator());
    assert_eq!(Token::MUL.precedence(), 5);
    assert_eq!(Token::LOR.precedence(), 1);
    assert_eq!(Token::ident_token("for".to_owned()), Token::FOR);
    assert_eq!(Token::ident_token("fork".to_owned()), Token::IDENT(TokenData::from_string("fork".to_owned())));
}

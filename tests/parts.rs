use hathor::{
    decimal_text, join, pattern_content, FileGenerator, FileGeneratorBuilder, FileWriter,
    FilenameGenerator, MemoryFileWriter, OrdinalPathFilenameGenerator, PathFilenameGenerator,
};

#[test]
fn content_of_each_size() {
    assert_eq!(pattern_content(0), Vec::<u8>::new());
    assert_eq!(pattern_content(1), b"0".to_vec());
    assert_eq!(pattern_content(3), b"012".to_vec());
    assert_eq!(pattern_content(10), b"0123456789".to_vec());
    assert_eq!(pattern_content(15), b"012345678901234".to_vec());
    assert_eq!(pattern_content(23), b"01234567890123456789012".to_vec());
}

#[test]
fn content_byte_is_position_mod_ten() {
    let content = pattern_content(1000);
    assert_eq!(content.len(), 1000);
    for (i, b) in content.iter().enumerate() {
        assert_eq!(*b, b"0123456789"[i % 10]);
    }
}

#[test]
fn ordinal_paths_in_order() {
    let mut paths = OrdinalPathFilenameGenerator::from("/base");
    let got: Vec<String> = (0..12).map(|_| paths.generate()).collect();
    let expected: Vec<String> = (0..12).map(|i| format!("/base/{}", i)).collect();
    assert_eq!(got, expected);
}

#[test]
fn ordinal_tokens_and_base() {
    let mut paths = OrdinalPathFilenameGenerator::from("out");
    assert_eq!(paths.base_path(), "out");
    assert_eq!(paths.next_name(), 0);
    assert_eq!(paths.next_name(), 1);
    assert_eq!(OrdinalPathFilenameGenerator::render(&42), "42");
    assert_eq!(paths.generate(), "out/2");
}

#[test]
fn base_with_trailing_separator_or_empty() {
    let mut paths = OrdinalPathFilenameGenerator::from("dir/");
    assert_eq!(paths.generate(), "dir/0");
    let mut bare = OrdinalPathFilenameGenerator::from("");
    assert_eq!(bare.generate(), "0");
}

#[test]
fn decimal_forms() {
    assert_eq!(decimal_text(0), "0");
    assert_eq!(decimal_text(9), "9");
    assert_eq!(decimal_text(10), "10");
    assert_eq!(decimal_text(1234), "1234");
    assert_eq!(decimal_text(usize::MAX), usize::MAX.to_string());
}

#[test]
fn join_forms() {
    assert_eq!(join("/a/b", "c"), "/a/b/c");
    assert_eq!(join("/a/b/", "c"), "/a/b/c");
    assert_eq!(join("", "c"), "c");
    assert_eq!(join("/a", "/abs"), "/abs");
}

#[test]
fn memory_sink_records_in_order() {
    let mut sink = MemoryFileWriter::new();
    assert!(sink.files().is_empty());
    assert!(sink.write("x".to_string(), vec![1, 2]).is_ok());
    FileGeneratorBuilder::with_size(1)
        .repeat(3)
        .write(&mut OrdinalPathFilenameGenerator::from("/test/path"), &mut sink)
        .unwrap();
    assert_eq!(
        sink.files(),
        &vec![
            ("x".to_string(), vec![1, 2]),
            ("/test/path/0".to_string(), b"0".to_vec()),
            ("/test/path/1".to_string(), b"0".to_vec()),
            ("/test/path/2".to_string(), b"0".to_vec())
        ]
    );
}

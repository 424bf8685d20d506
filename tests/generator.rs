use std::io;
use std::path::PathBuf;

use hathor::{FileGenerator, FileGeneratorBuilder, FileWriter, OrdinalPathFilenameGenerator};

struct TestFileGenerator {
    files: Vec<(PathBuf, Vec<u8>)>,
}

impl FileWriter for TestFileGenerator {
    fn write(&mut self, path: String, content: Vec<u8>) -> io::Result<()> {
        self.files.push((PathBuf::from(path), content));
        Ok(())
    }
}

/// Records every request and refuses the one at position `fail_at`
/// (counting from 1).
struct FailingFileWriter {
    fail_at: usize,
    attempts: usize,
    files: Vec<(String, Vec<u8>)>,
}

impl FileWriter for FailingFileWriter {
    fn write(&mut self, path: String, content: Vec<u8>) -> io::Result<()> {
        self.attempts += 1;
        if self.attempts == self.fail_at {
            return Err(io::Error::new(io::ErrorKind::PermissionDenied, "refused"));
        }
        self.files.push((path, content));
        Ok(())
    }
}

#[test]
fn repeated_file_generator() {
    let mut test_file_generator = TestFileGenerator { files: vec![] };

    let _ = FileGeneratorBuilder::with_size(1)
        .repeat(3)
        .write(
            &mut OrdinalPathFilenameGenerator::from("/test/path"),
            &mut test_file_generator,
        )
        .unwrap();

    assert_eq!(
        test_file_generator.files,
        vec![
            (PathBuf::from("/test/path/0"), b"0".to_vec()),
            (PathBuf::from("/test/path/1"), b"0".to_vec()),
            (PathBuf::from("/test/path/2"), b"0".to_vec())
        ]
    );
}

#[test]
fn non_multiple_size_is_same_for_every_file() {
    let mut sink = TestFileGenerator { files: vec![] };
    FileGeneratorBuilder::with_size(15)
        .repeat(4)
        .write(&mut OrdinalPathFilenameGenerator::from("test"), &mut sink)
        .unwrap();
    assert_eq!(sink.files.len(), 4);
    for (i, (path, content)) in sink.files.iter().enumerate() {
        assert_eq!(path, &PathBuf::from(format!("test/{}", i)));
        assert_eq!(content, &b"012345678901234".to_vec());
    }
}

#[test]
fn zero_count_writes_nothing() {
    let mut sink = TestFileGenerator { files: vec![] };
    let result = FileGeneratorBuilder::with_size(7)
        .repeat(0)
        .write(&mut OrdinalPathFilenameGenerator::from("/out"), &mut sink);
    assert!(result.is_ok());
    assert!(sink.files.is_empty());
}

#[test]
fn zero_size_writes_empty_files() {
    let mut sink = TestFileGenerator { files: vec![] };
    FileGeneratorBuilder::with_size(0)
        .repeat(2)
        .write(&mut OrdinalPathFilenameGenerator::from("/out"), &mut sink)
        .unwrap();
    assert_eq!(
        sink.files,
        vec![
            (PathBuf::from("/out/0"), vec![]),
            (PathBuf::from("/out/1"), vec![])
        ]
    );
}

#[test]
fn fails_fast_on_second_write() {
    let mut sink = FailingFileWriter {
        fail_at: 2,
        attempts: 0,
        files: vec![],
    };
    let result = FileGeneratorBuilder::with_size(3)
        .repeat(5)
        .write(&mut OrdinalPathFilenameGenerator::from("/d"), &mut sink);
    let error = result.unwrap_err();
    assert_eq!(error.kind(), io::ErrorKind::PermissionDenied);
    assert_eq!(error.to_string(), "refused");
    assert_eq!(sink.attempts, 2);
    assert_eq!(sink.files, vec![("/d/0".to_string(), b"012".to_vec())]);
}

#[test]
fn fails_on_first_write() {
    let mut sink = FailingFileWriter {
        fail_at: 1,
        attempts: 0,
        files: vec![],
    };
    let result = FileGeneratorBuilder::with_size(3)
        .repeat(4)
        .write(&mut OrdinalPathFilenameGenerator::from("/d"), &mut sink);
    assert!(result.is_err());
    assert_eq!(sink.attempts, 1);
    assert!(sink.files.is_empty());
}

#[test]
fn nested_repeats_multiply_and_keep_numbering() {
    let mut sink = TestFileGenerator { files: vec![] };
    let mut paths = OrdinalPathFilenameGenerator::from("/n");
    FileGeneratorBuilder::with_size(2)
        .repeat(2)
        .repeat(3)
        .write(&mut paths, &mut sink)
        .unwrap();
    let names: Vec<PathBuf> = sink.files.iter().map(|f| f.0.clone()).collect();
    let expected: Vec<PathBuf> = (0..6).map(|i| PathBuf::from(format!("/n/{}", i))).collect();
    assert_eq!(names, expected);
    assert!(sink.files.iter().all(|f| f.1 == b"01".to_vec()));
}

#[test]
fn numbering_continues_across_runs_on_one_sequencer() {
    let mut sink = TestFileGenerator { files: vec![] };
    let mut paths = OrdinalPathFilenameGenerator::from("/c");
    let generator = FileGeneratorBuilder::with_size(1).repeat(2);
    generator.write(&mut paths, &mut sink).unwrap();
    generator.write(&mut paths, &mut sink).unwrap();
    let names: Vec<PathBuf> = sink.files.iter().map(|f| f.0.clone()).collect();
    assert_eq!(
        names,
        vec![
            PathBuf::from("/c/0"),
            PathBuf::from("/c/1"),
            PathBuf::from("/c/2"),
            PathBuf::from("/c/3")
        ]
    );
}

#[test]
fn size_fifteen_content_at_advanced_cursor() {
    let mut sink = TestFileGenerator { files: vec![] };
    let mut paths = OrdinalPathFilenameGenerator::from("/late");
    for _ in 0..7 {
        hathor::FilenameGenerator::generate(&mut paths);
    }
    FileGeneratorBuilder::with_size(15)
        .write(&mut paths, &mut sink)
        .unwrap();
    assert_eq!(
        sink.files,
        vec![(PathBuf::from("/late/7"), b"012345678901234".to_vec())]
    );
}

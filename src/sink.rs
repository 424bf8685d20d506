//! The persistence boundary: where a path and its bytes are handed over to
//! be written.
use vstd::prelude::*;

verus! {

/// std's I/O error, carried through unchanged from a sink to the caller.
#[verifier::external_type_specification]
#[verifier::external_body]
pub struct ExIoError(std::io::Error);

/// One request made of a sink: the path, the bytes, and the sink's answer.
pub type WriteRecord = (Seq<char>, Seq<u8>, std::io::Result<()>);

/// Persists a whole file: a path and its content.
pub trait FileWriter {
    /// Every request this sink has been handed so far, oldest first. A sink
    /// whose `write` is verified must define it: with this default the
    /// `ensures` of `write` cannot hold. The default is there only so that a
    /// sink in plain Rust, which the verifier does not see, compiles; what is
    /// proved of a run does not cover such a sink.
    closed spec fn requests(&self) -> Seq<WriteRecord> {
        Seq::empty()
    }

    /// Writes `content` as the whole file at `path`, and answers whether
    /// that succeeded.
    fn write(&mut self, path: String, content: Vec<u8>) -> (r: std::io::Result<()>)
        ensures
            final(self).requests() == old(self).requests().push((path@, content@, r)),
    ;
}

/// The text and bytes of a stored file.
pub open spec fn file_view(f: (String, Vec<u8>)) -> (Seq<char>, Seq<u8>) {
    (f.0@, f.1@)
}

/// A sink that keeps every file in memory, in the order written, and never
/// fails: a stand-in for the disk where a run is to be observed.
pub struct MemoryFileWriter {
    files: Vec<(String, Vec<u8>)>,
}

impl MemoryFileWriter {
    /// The files written so far, oldest first.
    pub closed spec fn contents(&self) -> Seq<(Seq<char>, Seq<u8>)> {
        self.files@.map_values(|f: (String, Vec<u8>)| file_view(f))
    }

    /// A sink that holds no file.
    pub fn new() -> (r: Self)
        ensures
            r.contents() == Seq::<(Seq<char>, Seq<u8>)>::empty(),
    {
        let r = MemoryFileWriter { files: Vec::new() };
        assert(r.contents() =~= Seq::<(Seq<char>, Seq<u8>)>::empty());
        r
    }

    /// The files written so far, oldest first.
    pub fn files(&self) -> (r: &Vec<(String, Vec<u8>)>)
        ensures
            r@.map_values(|f: (String, Vec<u8>)| file_view(f)) == self.contents(),
    {
        &self.files
    }
}

impl FileWriter for MemoryFileWriter {
    open spec fn requests(&self) -> Seq<WriteRecord> {
        self.contents().map_values(|f: (Seq<char>, Seq<u8>)| (f.0, f.1, Ok(())))
    }

    fn write(&mut self, path: String, content: Vec<u8>) -> (r: std::io::Result<()>) {
        self.files.push((path, content));
        assert(self.contents() =~= old(self).contents().push((path@, content@)));
        assert(self.requests() =~= old(self).requests().push((path@, content@, Ok(()))));
        Ok(())
    }
}

} // verus!

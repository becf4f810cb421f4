//! The emitter: the two segments of generated text.
use vstd::prelude::*;

verus! {

/// Collects the generated text in two segments: the prologue, for what must precede all
/// statements, and the body, for the statements themselves.
pub struct Emitter {
    file_path: String,
    header: String,
    code: String,
}

impl Emitter {
    /// Where the finished text is meant to be written.
    pub closed spec fn path(&self) -> Seq<char> {
        self.file_path@
    }

    /// The prologue segment so far.
    pub closed spec fn prologue(&self) -> Seq<char> {
        self.header@
    }

    /// The body segment so far.
    pub closed spec fn body(&self) -> Seq<char> {
        self.code@
    }

    /// The whole text: the prologue, then the body.
    pub open spec fn artifact(&self) -> Seq<char> {
        self.prologue() + self.body()
    }

    /// An emitter with two empty segments.
    pub fn new(file_path: String) -> (r: Self)
        ensures
            r.path() == file_path@,
            r.prologue() == Seq::<char>::empty(),
            r.body() == Seq::<char>::empty(),
    {
        Emitter { file_path, header: String::new(), code: String::new() }
    }

    /// Appends `code` to the body.
    pub fn emit(&mut self, code: &str)
        ensures
            final(self).body() == old(self).body() + code@,
            final(self).prologue() == old(self).prologue(),
            final(self).path() == old(self).path(),
    {
        self.code.append(code);
    }

    /// Appends `code` and a line break to the body.
    pub fn emit_line(&mut self, code: &str)
        ensures
            final(self).body() == (old(self).body() + code@).push('\n'),
            final(self).prologue() == old(self).prologue(),
            final(self).path() == old(self).path(),
    {
        self.code.append(code);
        self.code.push('\n');
    }

    /// Appends `code` and a line break to the prologue.
    pub fn header_line(&mut self, code: &str)
        ensures
            final(self).prologue() == (old(self).prologue() + code@).push('\n'),
            final(self).body() == old(self).body(),
            final(self).path() == old(self).path(),
    {
        self.header.append(code);
        self.header.push('\n');
    }

    /// The finished text, ready to be written in one piece.
    pub fn finalize(&self) -> (r: String)
        ensures
            r@ == self.artifact(),
    {
        let mut artifact = self.header.clone();
        artifact.append(self.code.as_str());
        artifact
    }

    /// Where the finished text is meant to be written.
    pub fn file_path(&self) -> (r: &str)
        ensures
            r@ == self.path(),
    {
        self.file_path.as_str()
    }
}

} // verus!

//! Protobuf identifier paths: absolute (with a leading dot) or
//! relative, and resolution of a relative path against a package.

use vstd::prelude::*;
use vstd::string::{StrSliceExecFns, StringExecFns};

verus! {

/// Fully qualified path: empty, or starting with a dot.
pub struct ProtobufAbsolutePath {
    pub path: String,
}

/// Path relative to some package: never starts with a dot.
pub struct ProtobufRelativePath {
    pub path: String,
}

impl ProtobufAbsolutePath {
    /// The stored text is empty or starts with a dot.
    pub open spec fn wf(self) -> bool {
        self.path@.len() == 0 || self.path@[0] == '.'
    }

    /// Wraps text already in absolute form; anything else is a
    /// precondition violation.
    pub fn new(path: String) -> (r: ProtobufAbsolutePath)
        requires
            path@.len() == 0 || path@[0] == '.',
        ensures
            r.path == path,
            r.wf(),
    {
        ProtobufAbsolutePath { path }
    }

    /// Appends a relative path under this one: a dot and the
    /// relative text, or nothing when the relative path is empty.
    pub fn push_relative(&mut self, relative: &ProtobufRelativePath)
        ensures
            relative.path@.len() == 0 ==> final(self).path@ == old(self).path@,
            relative.path@.len() > 0 ==> final(self).path@ == old(self).path@ + "."@
                + relative.path@,
            old(self).wf() ==> final(self).wf(),
    {
        if !relative.path.as_str().is_empty() {
            self.path.append(".");
            self.path.append(relative.path.as_str());
            proof {
                reveal_strlit(".");
            }
        }
    }
}

impl ProtobufRelativePath {
    /// The stored text does not start with a dot.
    pub open spec fn wf(self) -> bool {
        self.path@.len() == 0 || self.path@[0] != '.'
    }

    /// Wraps text already in relative form; anything else is a
    /// precondition violation.
    pub fn new(path: String) -> (r: ProtobufRelativePath)
        requires
            path@.len() == 0 || path@[0] != '.',
        ensures
            r.path == path,
            r.wf(),
    {
        ProtobufRelativePath { path }
    }
}

/// Protobuf identifier: absolute or relative.
pub enum ProtobufPath {
    Abs(ProtobufAbsolutePath),
    Rel(ProtobufRelativePath),
}

impl ProtobufPath {
    /// Classifies text by its first character: a leading dot makes
    /// an absolute path, anything else a relative one.
    pub fn new(path: String) -> (r: ProtobufPath)
        ensures
            path@.len() > 0 && path@[0] == '.' ==> (r matches ProtobufPath::Abs(a) && a.path@
                == path@),
            !(path@.len() > 0 && path@[0] == '.') ==> (r matches ProtobufPath::Rel(p)
                && p.path@ == path@),
    {
        if !path.as_str().is_empty() && path.as_str().get_char(0) == '.' {
            ProtobufPath::Abs(ProtobufAbsolutePath::new(path))
        } else {
            ProtobufPath::Rel(ProtobufRelativePath::new(path))
        }
    }

    /// An absolute path resolves to itself; a relative one is
    /// appended to `package`, separated by a dot unless empty.
    pub fn resolve(&self, package: &ProtobufAbsolutePath) -> (r: ProtobufAbsolutePath)
        ensures
            self matches ProtobufPath::Abs(a) ==> r.path@ == a.path@,
            (self matches ProtobufPath::Rel(p) && p.path@.len() == 0) ==> r.path@
                == package.path@,
            (self matches ProtobufPath::Rel(p) && p.path@.len() > 0) ==> r.path@
                == package.path@ + "."@ + self->Rel_0.path@,
            (self matches ProtobufPath::Abs(a2) && a2.wf()) ==> r.wf(),
            (self matches ProtobufPath::Rel(_) && package.wf()) ==> r.wf(),
    {
        match self {
            ProtobufPath::Abs(p) => ProtobufAbsolutePath { path: p.path.clone() },
            ProtobufPath::Rel(p) => {
                let mut out = ProtobufAbsolutePath { path: package.path.clone() };
                out.push_relative(p);
                out
            },
        }
    }
}

} // verus!

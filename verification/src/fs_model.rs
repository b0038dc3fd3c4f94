//! An in-memory model of the destination-side filesystem: a flat list
//! of path-to-object bindings whose meaning is a map from paths to
//! objects, later bindings overriding earlier ones. The copy phase's
//! laws are stated and exercised against this model; the surrounding
//! binary performs the same operations on the real filesystem.

use vstd::prelude::*;
use crate::paths::str_eq;

verus! {

/// A filesystem object: a directory or a file with its bytes.
#[derive(Debug)]
pub enum FsNode {
    /// A directory.
    Dir,
    /// A regular file and its contents.
    File(Vec<u8>),
}

/// Specification-level image of an `FsNode`.
pub ghost enum FsNodeV {
    Dir,
    File(Seq<u8>),
}

impl View for FsNode {
    type V = FsNodeV;

    open spec fn view(&self) -> FsNodeV {
        match self {
            FsNode::Dir => FsNodeV::Dir,
            FsNode::File(data) => FsNodeV::File(data@),
        }
    }
}

/// One binding of a path to an object.
#[derive(Debug)]
pub struct FsBinding {
    /// Absolute path.
    pub path: String,
    /// The object at that path.
    pub node: FsNode,
}

/// The map a binding list denotes: bindings apply left to right, so a
/// later binding for the same path overrides an earlier one.
pub open spec fn map_of(s: Seq<FsBinding>) -> Map<Seq<char>, FsNodeV>
    decreases s.len(),
{
    if s.len() == 0 {
        Map::empty()
    } else {
        map_of(s.drop_last()).insert(s.last().path@, s.last().node@)
    }
}

/// The filesystem model. Its meaning is the map of its bindings; the
/// operations below mirror the existence checks, reads, file writes,
/// and tolerant directory creation the copy phase performs.
#[derive(Debug)]
pub struct FsModel {
    /// The bindings, oldest first.
    pub entries: Vec<FsBinding>,
}

impl View for FsModel {
    type V = Map<Seq<char>, FsNodeV>;

    open spec fn view(&self) -> Map<Seq<char>, FsNodeV> {
        map_of(self.entries@)
    }
}

impl FsModel {
    /// An empty filesystem.
    pub fn new() -> (r: Self)
        ensures
            r@ == Map::<Seq<char>, FsNodeV>::empty(),
    {
        FsModel { entries: Vec::new() }
    }

    /// The object at `path`, if any.
    pub fn lookup(&self, path: &str) -> (r: Option<&FsNode>)
        ensures
            match r {
                Some(n) => self@.contains_key(path@) && n@ == self@[path@],
                None => !self@.contains_key(path@),
            },
    {
        let mut i = self.entries.len();
        proof {
            assert(self.entries@.take(i as int) =~= self.entries@);
        }
        while i > 0
            invariant
                i <= self.entries@.len(),
                self@.contains_key(path@) == map_of(self.entries@.take(i as int)).contains_key(
                    path@,
                ),
                self@.contains_key(path@) ==> self@[path@] == map_of(
                    self.entries@.take(i as int),
                )[path@],
            decreases i,
        {
            i = i - 1;
            proof {
                assert(self.entries@.take(i + 1).drop_last() =~= self.entries@.take(i as int));
                assert(self.entries@.take(i + 1).last() == self.entries@[i as int]);
            }
            if str_eq(self.entries[i].path.as_str(), path) {
                return Some(&self.entries[i].node);
            }
        }
        proof {
            assert(self.entries@.take(0) =~= Seq::<FsBinding>::empty());
        }
        None
    }

    /// Whether any object exists at `path`.
    pub fn contains_path(&self, path: &str) -> (r: bool)
        ensures
            r == self@.contains_key(path@),
    {
        self.lookup(path).is_some()
    }

    /// The bytes of the file at `path`, if a file is there.
    pub fn read_file(&self, path: &str) -> (r: Option<&Vec<u8>>)
        ensures
            match r {
                Some(d) => self@.contains_key(path@) && self@[path@] == FsNodeV::File(d@),
                None => !self@.contains_key(path@) || !(self@[path@] is File),
            },
    {
        match self.lookup(path) {
            Some(FsNode::File(d)) => Some(d),
            _ => None,
        }
    }

    /// Write a file at `path`, replacing whatever was there — the real
    /// copy call overwrites transparently.
    pub fn write_file(&mut self, path: String, data: Vec<u8>)
        ensures
            final(self)@ == old(self)@.insert(path@, FsNodeV::File(data@)),
    {
        self.entries.push(FsBinding { path, node: FsNode::File(data) });
        proof {
            assert(self.entries@.drop_last() =~= old(self).entries@);
        }
    }

    /// Create a directory at `path` if nothing is there; an existing
    /// object is left alone, as concurrent creation of the same new
    /// directory is tolerated by treating "already exists" as success.
    pub fn ensure_dir(&mut self, path: String)
        ensures
            final(self)@ == if old(self)@.contains_key(path@) {
                old(self)@
            } else {
                old(self)@.insert(path@, FsNodeV::Dir)
            },
    {
        if !self.contains_path(path.as_str()) {
            self.entries.push(FsBinding { path, node: FsNode::Dir });
            proof {
                assert(self.entries@.drop_last() =~= old(self).entries@);
            }
        }
    }
}

} // verus!

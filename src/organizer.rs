use vstd::prelude::*;
use vstd::string::StringExecFns;
use crate::camera::{camera_destination, smartphone_file};
use crate::metadata::{
    capture_text, is_photo_file, is_photo_path, metadata_destination, read_jpg_exif, MediaError,
};
use crate::pathname::{is_media_file, is_media_path, join};

verus! {

/// What the command line gives: the directory to sort and whether to walk
/// into its subdirectories.
pub struct Args {
    pub folder: String,
    pub recursive: bool,
}

/// `p` joined with the relative path `frag`.
pub fn join_path(p: &str, frag: &str) -> (r: String)
    ensures
        r@ == join(p@, frag@),
{
    let mut r = p.to_string();
    if p.is_empty() {
        return frag.to_string();
    }
    let n = p.unicode_len();
    if p.get_char(n - 1) != '/' {
        r.append("/");
        proof {
            reveal_strlit("/");
        }
    }
    r.append(frag);
    r
}

/// The root that files are sorted into: `Pictures` under the home directory.
pub fn pictures_dir(home: &str) -> (r: String)
    ensures
        r@ == join(home@, seq!['P', 'i', 'c', 't', 'u', 'r', 'e', 's']),
{
    proof {
        reveal_strlit("Pictures");
    }
    join_path(home, "Pictures")
}

/// A directory entry as the walker sees it.
#[derive(Clone, Copy, Debug, PartialEq, Eq, Structural)]
pub enum EntryKind {
    Directory,
    File,
    Other,
}

/// What the walker does next with an entry.
#[derive(Clone, Copy, Debug, PartialEq, Eq, Structural)]
pub enum Visit {
    /// Walk into the directory.
    Descend,
    /// The file was dated by its name and recorded.
    Added,
    /// The file can only be dated by its metadata: read it and hand the
    /// bytes to `add_from_metadata`.
    ReadMetadata,
    /// Nothing to do.
    Skip,
}

/// What the walker does with an entry at `p`.
pub open spec fn visit_of(p: Seq<char>, kind: EntryKind, recursive: bool) -> Visit {
    match kind {
        EntryKind::Directory => if recursive {
            Visit::Descend
        } else {
            Visit::Skip
        },
        EntryKind::File => if !is_media_path(p) {
            Visit::Skip
        } else if camera_destination(p) is Some {
            Visit::Added
        } else if is_photo_path(p) {
            Visit::ReadMetadata
        } else {
            Visit::Skip
        },
        EntryKind::Other => Visit::Skip,
    }
}

/// The files found so far, each source path with the place, relative to the
/// target root, that it is copied to.
pub struct MediaConfig {
    pub source: String,
    pub target: String,
    files: Vec<(String, String)>,
    found: Ghost<Map<Seq<char>, Seq<char>>>,
}

impl MediaConfig {
    /// Source path to destination fragment, for each file found.
    pub closed spec fn mapping(&self) -> Map<Seq<char>, Seq<char>> {
        self.found@
    }

    /// The directory the files are found in.
    pub closed spec fn source_root(&self) -> Seq<char> {
        self.source@
    }

    /// The directory the files are copied into.
    pub closed spec fn target_root(&self) -> Seq<char> {
        self.target@
    }

    pub closed spec fn wf(&self) -> bool {
        &&& forall|i: int, j: int|
            0 <= i < j < self.files.len() ==> self.files[i].0@ != self.files[j].0@
        &&& forall|i: int|
            0 <= i < self.files.len() ==> self.found@.contains_key(#[trigger] self.files[i].0@)
                && self.found@[self.files[i].0@] == self.files[i].1@
        &&& forall|k: Seq<char>|
            self.found@.contains_key(k) ==> exists|i: int|
                0 <= i < self.files.len() && #[trigger] self.files[i].0@ == k
    }

    /// A configuration with no file found yet.
    pub fn new(source: String, target: String) -> (r: Self)
        ensures
            r.wf(),
            r.source_root() == source@,
            r.target_root() == target@,
            r.mapping() == Map::<Seq<char>, Seq<char>>::empty(),
    {
        MediaConfig { source, target, files: Vec::new(), found: Ghost(Map::empty()) }
    }

    /// Records that `source` goes to `dest`, replacing what it went to before.
    fn insert(&mut self, source: String, dest: String)
        requires
            old(self).wf(),
        ensures
            final(self).wf(),
            final(self).mapping() == old(self).mapping().insert(source@, dest@),
            final(self).source_root() == old(self).source_root(),
            final(self).target_root() == old(self).target_root(),
    {
        let ghost key = source@;
        let mut i: usize = 0;
        while i < self.files.len()
            invariant
                self.wf(),
                *self == *old(self),
                key == source@,
                i <= self.files.len(),
                forall|j: int| 0 <= j < i ==> self.files[j].0@ != key,
            decreases self.files.len() - i,
        {
            let cur: &String = &self.files[i].0;
            let same = cur.eq(&source);
            if same {
                self.files.set(i, (source, dest));
                self.found = Ghost(self.found@.insert(key, dest@));
                assert forall|k: Seq<char>| self.found@.contains_key(k) implies exists|j: int|
                    0 <= j < self.files.len() && #[trigger] self.files[j].0@ == k by {
                    if k != key {
                        let j = choose|j: int|
                            0 <= j < old(self).files.len() && #[trigger] old(self).files[j].0@
                                == k;
                        assert(self.files[j].0@ == k);
                    } else {
                        assert(self.files[i as int].0@ == k);
                    }
                }
                return;
            }
            i = i + 1;
        }
        self.files.push((source, dest));
        self.found = Ghost(self.found@.insert(key, dest@));
        assert forall|k: Seq<char>| self.found@.contains_key(k) implies exists|j: int|
            0 <= j < self.files.len() && #[trigger] self.files[j].0@ == k by {
            if k != key {
                let j = choose|j: int|
                    0 <= j < old(self).files.len() && #[trigger] old(self).files[j].0@ == k;
                assert(self.files[j].0@ == k);
            } else {
                assert(self.files[self.files.len() - 1].0@ == k);
            }
        }
    }

    /// Takes one directory entry at `path`. A directory is walked into only
    /// when `recursive` holds. A photo or video file that a camera-style name
    /// dates is recorded at once; one that only its metadata can date (a
    /// `.jpg` or `.png`) asks for its bytes; anything else is passed over.
    pub fn visit_entry(&mut self, path: &str, kind: EntryKind, recursive: bool) -> (r: Visit)
        requires
            old(self).wf(),
        ensures
            final(self).wf(),
            r == visit_of(path@, kind, recursive),
            final(self).mapping() == if r == Visit::Added {
                old(self).mapping().insert(path@, camera_destination(path@)->0)
            } else {
                old(self).mapping()
            },
            final(self).source_root() == old(self).source_root(),
            final(self).target_root() == old(self).target_root(),
    {
        match kind {
            EntryKind::Directory => if recursive {
                Visit::Descend
            } else {
                Visit::Skip
            },
            EntryKind::File => {
                if !is_media_file(path) {
                    return Visit::Skip;
                }
                match smartphone_file(path) {
                    Some(dest) => {
                        self.insert(path.to_string(), dest);
                        Visit::Added
                    },
                    None => if is_photo_file(path) {
                        Visit::ReadMetadata
                    } else {
                        Visit::Skip
                    },
                }
            },
            EntryKind::Other => Visit::Skip,
        }
    }

    /// Takes the bytes of the file at `path` and records it under the date
    /// of its metadata. Returns whether the file was recorded; an unreadable
    /// metadata container is an error and leaves the files found as they were.
    pub fn add_from_metadata(&mut self, path: &str, contents: &[u8]) -> (r: Result<
        bool,
        MediaError,
    >)
        requires
            old(self).wf(),
        ensures
            final(self).wf(),
            final(self).source_root() == old(self).source_root(),
            final(self).target_root() == old(self).target_root(),
            ({
                let found = if is_photo_path(path@) {
                    metadata_destination(path@, capture_text(contents@))
                } else {
                    Some(None)
                };
                match found {
                    None => r == Err::<bool, MediaError>(MediaError::UnreadableMetadata)
                        && final(self).mapping() == old(self).mapping(),
                    Some(None) => r == Ok::<bool, MediaError>(false) && final(self).mapping()
                        == old(self).mapping(),
                    Some(Some(d)) => r == Ok::<bool, MediaError>(true) && final(self).mapping()
                        == old(self).mapping().insert(path@, d),
                }
            }),
    {
        match read_jpg_exif(path, contents) {
            Err(e) => Err(e),
            Ok(None) => Ok(false),
            Ok(Some(dest)) => {
                self.insert(path.to_string(), dest);
                Ok(true)
            },
        }
    }

    /// The copy jobs of the files found: each source path with its absolute
    /// destination, the target root joined with the file's fragment. Every
    /// file found appears once.
    pub fn copy_media_files(&self) -> (r: Vec<(String, String)>)
        requires
            self.wf(),
        ensures
            forall|i: int, j: int| 0 <= i < j < r.len() ==> r[i].0@ != r[j].0@,
            forall|i: int|
                0 <= i < r.len() ==> self.mapping().contains_key(#[trigger] r[i].0@) && r[i].1@
                    == join(self.target_root(), self.mapping()[r[i].0@]),
            forall|k: Seq<char>|
                self.mapping().contains_key(k) ==> exists|i: int|
                    0 <= i < r.len() && #[trigger] r[i].0@ == k,
    {
        let mut r: Vec<(String, String)> = Vec::new();
        let mut i: usize = 0;
        while i < self.files.len()
            invariant
                self.wf(),
                i <= self.files.len(),
                r.len() == i,
                forall|j: int| 0 <= j < i ==> #[trigger] r[j].0@ == self.files[j].0@,
                forall|j: int|
                    0 <= j < i ==> #[trigger] r[j].1@ == join(self.target@, self.files[j].1@),
            decreases self.files.len() - i,
        {
            let dest = join_path(self.target.as_str(), self.files[i].1.as_str());
            r.push((self.files[i].0.clone(), dest));
            i = i + 1;
        }
        assert forall|k: Seq<char>| self.mapping().contains_key(k) implies exists|i: int|
            0 <= i < r.len() && #[trigger] r[i].0@ == k by {
            let j = choose|j: int| 0 <= j < self.files.len() && #[trigger] self.files[j].0@ == k;
            assert(r[j].0@ == k);
        }
        r
    }
}

} // verus!

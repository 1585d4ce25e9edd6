use vstd::prelude::*;
use vstd::string::*;

use crate::patches::{
    controller_patched, miyoo_patched, patch_controller_input, patch_miyoo_script, ScriptAssets,
};
use crate::text::{
    find, find_bytes, normalize, normalize_path, occurs_at, same_bytes, slice_bytes,
    starts_with_bytes,
};

verus! {

/// `/`.
pub open spec fn slash() -> Seq<u8> {
    seq![47u8]
}

/// The prefix that names the files under directory `dir` of an archive: the directory with
/// slashes for separators and one trailing slash (added unless `dir` already ends in one).
pub open spec fn dir_prefix(dir: Seq<u8>) -> Seq<u8> {
    if dir.len() > 0 && dir.last() == 47u8 {
        normalize_path(dir)
    } else {
        normalize_path(dir) + slash()
    }
}

/// The prefix under which a directory is listed: nothing for the root, else `dir_prefix`.
pub open spec fn list_prefix(dir: Seq<u8>) -> Seq<u8> {
    if dir.len() == 0 {
        Seq::empty()
    } else {
        dir_prefix(dir)
    }
}

/// The entry of a listing that file `key` gives under `prefix`: the part of the rest of its
/// name up to the first slash, or the whole rest where it has none and is not empty.
pub open spec fn child_of(key: Seq<u8>, prefix: Seq<u8>) -> Option<Seq<u8>> {
    if !occurs_at(key, prefix, 0) {
        None
    } else {
        let rest = key.subrange(prefix.len() as int, key.len() as int);
        match find(rest, slash()) {
            Some(p) => Some(rest.subrange(0, p)),
            None => if rest.len() > 0 {
                Some(rest)
            } else {
                None
            },
        }
    }
}

/// No name occurs twice.
pub open spec fn distinct(names: Seq<Seq<u8>>) -> bool {
    forall|i: int, j: int| 0 <= i < j < names.len() ==> names[i] != names[j]
}

/// The files of a game archive, by name with slashes for separators, and the directory that
/// holds the archive.
pub struct ArchiveIndex {
    base_dir: Vec<u8>,
    files: Vec<Vec<u8>>,
}

/// The contents of byte strings.
pub open spec fn names_of(v: Seq<Vec<u8>>) -> Seq<Seq<u8>> {
    Seq::new(v.len(), |i: int| v[i]@)
}

impl View for ArchiveIndex {
    type V = Seq<Seq<u8>>;

    closed spec fn view(&self) -> Seq<Seq<u8>> {
        names_of(self.files@)
    }
}

/// Whether `name` is one of `names`, by content.
fn contains_name(names: &Vec<Vec<u8>>, name: &[u8]) -> (r: bool)
    ensures
        r == names_of(names@).contains(name@),
{
    let mut i: usize = 0;
    while i < names.len()
        invariant
            i <= names.len(),
            forall|k: int| 0 <= k < i ==> names@[k]@ != name@,
        decreases names.len() - i,
    {
        if same_bytes(names[i].as_slice(), name) {
            assert(names_of(names@)[i as int] == name@);
            return true;
        }
        i = i + 1;
    }
    proof {
        if names_of(names@).contains(name@) {
            let k = choose|k: int| 0 <= k < names_of(names@).len() && names_of(names@)[k] == name@;
            assert(names@[k]@ == name@);
        }
    }
    false
}

impl ArchiveIndex {
    pub open spec fn wf(&self) -> bool {
        distinct(self@)
    }

    pub closed spec fn spec_base_dir(&self) -> Seq<u8> {
        self.base_dir@
    }

    /// An index of no files, for an archive in `base_dir`.
    pub fn new(base_dir: Vec<u8>) -> (a: Self)
        ensures
            a.wf(),
            a@ == Seq::<Seq<u8>>::empty(),
            a.spec_base_dir() == base_dir@,
    {
        let a = ArchiveIndex { base_dir, files: Vec::new() };
        assert(a@ =~= Seq::<Seq<u8>>::empty());
        a
    }

    /// Takes in an archive entry: a file is indexed under its name with slashes for
    /// separators, once; a directory entry is left out.
    pub fn add_entry(&mut self, name: &[u8], is_dir: bool)
        requires
            old(self).wf(),
        ensures
            final(self).wf(),
            final(self).spec_base_dir() == old(self).spec_base_dir(),
            final(self)@ == if is_dir || old(self)@.contains(normalize_path(name@)) {
                old(self)@
            } else {
                old(self)@.push(normalize_path(name@))
            },
    {
        if is_dir {
            return;
        }
        let n = normalize(name);
        if contains_name(&self.files, n.as_slice()) {
            return;
        }
        let ghost before = self@;
        self.files.push(n);
        assert(self@ =~= before.push(normalize_path(name@)));
    }

    /// The directory that holds the archive.
    pub fn source_base_directory(&self) -> (d: Vec<u8>)
        ensures
            d@ == self.spec_base_dir(),
    {
        self.base_dir.clone()
    }

    /// Whether the archive holds a file named `path`, read with slashes or as given.
    pub fn file_exists(&self, path: &[u8]) -> (r: bool)
        ensures
            r == (self@.contains(normalize_path(path@)) || self@.contains(path@)),
    {
        let n = normalize(path);
        contains_name(&self.files, n.as_slice()) || contains_name(&self.files, path)
    }

    /// The archive name under which `path` is read: its form with slashes where the archive
    /// has that, else the path as given where the archive has that.
    pub fn archive_name(&self, path: &[u8]) -> (r: Option<Vec<u8>>)
        ensures
            match r {
                Some(n) => if self@.contains(normalize_path(path@)) {
                    n@ == normalize_path(path@)
                } else {
                    self@.contains(path@) && n@ == path@
                },
                None => !self@.contains(normalize_path(path@)) && !self@.contains(path@),
            },
    {
        let n = normalize(path);
        if contains_name(&self.files, n.as_slice()) {
            return Some(n);
        }
        if contains_name(&self.files, path) {
            return Some(slice_bytes(path, 0, path.len()));
        }
        None
    }

    /// Whether some file of the archive lies under directory `dir`.
    pub fn is_directory(&self, dir: &[u8]) -> (r: bool)
        ensures
            r == exists|i: int| 0 <= i < self@.len() && occurs_at(#[trigger] self@[i], dir_prefix(dir@), 0),
    {
        let prefix = prefix_of(dir, false);
        let mut i: usize = 0;
        while i < self.files.len()
            invariant
                i <= self.files.len(),
                prefix@ == dir_prefix(dir@),
                forall|k: int| 0 <= k < i ==> !occurs_at(#[trigger] self@[k], prefix@, 0),
            decreases self.files.len() - i,
        {
            if starts_with_bytes(self.files[i].as_slice(), prefix.as_slice()) {
                assert(self@[i as int] == self.files@[i as int]@);
                return true;
            }
            assert(self@[i as int] == self.files@[i as int]@);
            i = i + 1;
        }
        false
    }

    /// The entries of directory `dir` (the root for an empty `dir`): for each file under it,
    /// the next part of its name; each entry once, in the order the files were indexed.
    pub fn list_directory(&self, dir: &[u8]) -> (items: Vec<Vec<u8>>)
        ensures
            distinct(names_of(items@)),
            forall|name: Seq<u8>|
                names_of(items@).contains(name) <==> exists|i: int|
                    0 <= i < self@.len() && child_of(#[trigger] self@[i], list_prefix(dir@)) == Some(name),
    {
        let prefix = prefix_of(dir, true);
        let mut items: Vec<Vec<u8>> = Vec::new();
        let mut i: usize = 0;
        while i < self.files.len()
            invariant
                i <= self.files.len(),
                prefix@ == list_prefix(dir@),
                distinct(names_of(items@)),
                forall|name: Seq<u8>|
                    names_of(items@).contains(name) <==> exists|k: int|
                        0 <= k < i && child_of(#[trigger] self@[k], prefix@) == Some(name),
            decreases self.files.len() - i,
        {
            let key = self.files[i].as_slice();
            assert(self@[i as int] == key@);
            let child = child_name(key, prefix.as_slice());
            let ghost before = names_of(items@);
            match child {
                Some(name) => {
                    if !contains_name(&items, name.as_slice()) {
                        items.push(name);
                        assert(names_of(items@) =~= before.push(child->0@));
                    }
                },
                None => {},
            }
            proof {
                assert forall|name: Seq<u8>|
                    names_of(items@).contains(name) <==> exists|k: int|
                        0 <= k < i + 1 && child_of(#[trigger] self@[k], prefix@) == Some(name) by {
                    if names_of(items@).contains(name) {
                        if before.contains(name) {
                            let k = choose|k: int| 0 <= k < i && child_of(#[trigger] self@[k], prefix@) == Some(name);
                            assert(0 <= k < i + 1 && child_of(self@[k], prefix@) == Some(name));
                        } else {
                            let j = choose|j: int| 0 <= j < names_of(items@).len() && names_of(items@)[j] == name;
                            assert(child_of(self@[i as int], prefix@) == Some(name));
                        }
                    }
                    if exists|k: int| 0 <= k < i + 1 && child_of(#[trigger] self@[k], prefix@) == Some(name) {
                        let k = choose|k: int| 0 <= k < i + 1 && child_of(#[trigger] self@[k], prefix@) == Some(name);
                        if k < i {
                            assert(before.contains(name));
                            let j = choose|j: int| 0 <= j < before.len() && before[j] == name;
                            assert(names_of(items@)[j] == name);
                        } else {
                            if !before.contains(name) {
                                assert(names_of(items@)[names_of(items@).len() - 1] == name);
                            } else {
                                let j = choose|j: int| 0 <= j < before.len() && before[j] == name;
                                assert(names_of(items@)[j] == name);
                            }
                        }
                    }
                }
            }
            i = i + 1;
        }
        proof {
            assert forall|name: Seq<u8>|
                names_of(items@).contains(name) <==> exists|k: int|
                    0 <= k < self@.len() && child_of(#[trigger] self@[k], list_prefix(dir@)) == Some(name) by {
                assert(self@.len() == self.files.len());
            }
        }
        items
    }
}

/// The prefix for directory `dir`: `list_prefix` for a listing, `dir_prefix` otherwise.
fn prefix_of(dir: &[u8], listing: bool) -> (p: Vec<u8>)
    ensures
        p@ == if listing {
            list_prefix(dir@)
        } else {
            dir_prefix(dir@)
        },
{
    if listing && dir.len() == 0 {
        return Vec::new();
    }
    let mut p = normalize(dir);
    if dir.len() > 0 && dir[dir.len() - 1] == 47u8 {
        return p;
    }
    p.push(47u8);
    p
}

/// `child_of(key, prefix)`.
fn child_name(key: &[u8], prefix: &[u8]) -> (r: Option<Vec<u8>>)
    ensures
        match r {
            Some(n) => child_of(key@, prefix@) == Some(n@),
            None => child_of(key@, prefix@) is None,
        },
{
    if !starts_with_bytes(key, prefix) {
        return None;
    }
    let rest = slice_bytes(key, prefix.len(), key.len());
    let sep: [u8; 1] = [47u8];
    assert(sep@ =~= slash());
    match find_bytes(rest.as_slice(), &sep) {
        Some(p) => {
            proof {
                crate::text::lemma_find_bound(rest@, slash());
            }
            Some(slice_bytes(rest.as_slice(), 0, p))
        },
        None => {
            if rest.len() > 0 {
                Some(rest)
            } else {
                None
            }
        },
    }
}

/// `engine/controller.lua`.
pub open spec fn controller_script() -> Seq<u8> {
    "engine/controller.lua".spec_bytes()
}

/// `resources/fonts/m6x11plus.ttf`.
pub open spec fn game_font() -> Seq<u8> {
    "resources/fonts/m6x11plus.ttf".spec_bytes()
}

/// Whether a read of `file_path` is answered with the bundled handheld font instead: on the
/// handheld, for the game's pixel font.
pub fn uses_bundled_font(file_path: &str, handheld: bool) -> (r: bool)
    ensures
        r == (handheld && normalize_path(file_path.spec_bytes()) == game_font()),
{
    if !handheld {
        return false;
    }
    let n = normalize(file_path.as_bytes());
    same_bytes(n.as_slice(), "resources/fonts/m6x11plus.ttf".as_bytes())
}

/// The contents of a game file as the runtime sees them: the controller script gains the
/// handheld input dispatch, and on the handheld the scripts it changes are patched.
pub open spec fn served_file(path: Seq<u8>, data: Seq<u8>, handheld: bool, assets: &ScriptAssets) -> Seq<u8> {
    let d = if normalize_path(path) == controller_script() {
        controller_patched(data)
    } else {
        data
    };
    if handheld {
        miyoo_patched(path, d, assets)
    } else {
        d
    }
}

/// Turns the bytes read for `file_path` into what the runtime is served.
pub fn serve_file(file_path: &str, data: &mut Vec<u8>, handheld: bool, assets: &ScriptAssets)
    ensures
        final(data)@ == served_file(file_path.spec_bytes(), old(data)@, handheld, assets),
{
    let n = normalize(file_path.as_bytes());
    if same_bytes(n.as_slice(), "engine/controller.lua".as_bytes()) {
        patch_controller_input(data);
    }
    if handheld {
        patch_miyoo_script(file_path, data, assets);
    }
}

} // verus!

use vstd::prelude::*;

use crate::files::loader::{LuminaDirectoryView, LuminaFile, LuminaFileView, Loader};
use crate::text::{split_chars, split_on, string_from_chars, to_chars, views};

verus! {

/// Where a resource lives: its name inside an archive, its path on disk, and whether the
/// disk path is the one to use.
#[derive(Debug)]
pub struct Path {
    new_path: String,
    raw_path: String,
    raw: bool,
}

impl Path {
    /// The name inside an archive.
    pub closed spec fn spec_new_path(&self) -> Seq<char> {
        self.new_path@
    }

    /// The path on disk.
    pub closed spec fn spec_raw_path(&self) -> Seq<char> {
        self.raw_path@
    }

    /// Whether the disk path is the one to use.
    pub closed spec fn spec_raw(&self) -> bool {
        self.raw
    }

    /// An empty path that uses the disk.
    pub fn default() -> (p: Self)
        ensures
            p.spec_new_path() == Seq::<char>::empty(),
            p.spec_raw_path() == Seq::<char>::empty(),
            p.spec_raw(),
    {
        Path { new_path: String::new(), raw_path: String::new(), raw: true }
    }

    /// The name inside an archive.
    pub fn get_new_path(&self) -> (r: &str)
        ensures
            r@ == self.spec_new_path(),
    {
        self.new_path.as_str()
    }

    /// The path on disk.
    pub fn get_raw_path(&self) -> (r: &str)
        ensures
            r@ == self.spec_raw_path(),
    {
        self.raw_path.as_str()
    }

    /// Sets the name inside an archive.
    pub fn set_new_path(&mut self, new_path: &str)
        ensures
            final(self).spec_new_path() == new_path@,
            final(self).spec_raw_path() == old(self).spec_raw_path(),
            final(self).spec_raw() == old(self).spec_raw(),
    {
        self.new_path = new_path.to_owned();
    }

    /// Sets the path on disk.
    pub fn set_raw_path(&mut self, new_path: &str)
        ensures
            final(self).spec_raw_path() == new_path@,
            final(self).spec_new_path() == old(self).spec_new_path(),
            final(self).spec_raw() == old(self).spec_raw(),
    {
        self.raw_path = new_path.to_owned();
    }

    /// Whether the disk path is the one to use.
    pub fn is_raw_path(&self) -> (b: bool)
        ensures
            b == self.spec_raw(),
    {
        self.raw
    }
}

/// The last `/`-separated part of a path.
pub open spec fn file_name_of(path: Seq<char>) -> Seq<char> {
    split_on(path, '/').last()
}

proof fn lemma_split_nonempty(cur: Seq<char>, s: Seq<char>, sep: char)
    ensures
        crate::text::split_from(cur, s, sep).len() > 0,
    decreases s.len(),
{
    if s.len() > 0 {
        if s[0] == sep {
            lemma_split_nonempty(Seq::empty(), s.drop_first(), sep);
        } else {
            lemma_split_nonempty(cur.push(s[0]), s.drop_first(), sep);
        }
    }
}

/// The path of an image file on disk, given whether the file is there: `Some` when it is,
/// named by the last `/`-separated part of its path, to be read from the disk; the disk
/// path and that name are then recorded in `paths`, the images to pack when saving.
pub fn get_raw_image(file_path: &str, file_exists: bool, paths: &mut Vec<(String, String)>) -> (r:
    Option<Path>)
    ensures
        r is Some <==> file_exists,
        r matches Some(p) ==> p.spec_new_path() == file_name_of(file_path@) && p.spec_raw_path()
            == file_path@ && p.spec_raw(),
        file_exists ==> {
            &&& final(paths)@.len() == old(paths)@.len() + 1
            &&& final(paths)@.drop_last() == old(paths)@
            &&& final(paths)@.last().0@ == file_path@
            &&& final(paths)@.last().1@ == file_name_of(file_path@)
        },
        !file_exists ==> final(paths)@ == old(paths)@,
{
    if file_exists {
        let p = path_on_disk(file_path);
        let name = p.new_path.clone();
        paths.push((file_path.to_owned(), name));
        assert(paths@.drop_last() =~= old(paths)@);
        Some(p)
    } else {
        None
    }
}

/// The path of a model file on disk, given whether the file is there, named as
/// `get_raw_image` names it.
pub fn get_raw_model(file_path: &str, file_exists: bool) -> (r: Option<Path>)
    ensures
        r is Some <==> file_exists,
        r matches Some(p) ==> p.spec_new_path() == file_name_of(file_path@) && p.spec_raw_path()
            == file_path@ && p.spec_raw(),
{
    if file_exists {
        Some(path_on_disk(file_path))
    } else {
        None
    }
}

fn path_on_disk(file_path: &str) -> (p: Path)
    ensures
        p.spec_new_path() == file_name_of(file_path@),
        p.spec_raw_path() == file_path@,
        p.spec_raw(),
{
    let chars = to_chars(file_path);
    let parts = split_chars(&chars, '/');
    proof {
        lemma_split_nonempty(Seq::empty(), chars@, '/');
    }
    let last = &parts[parts.len() - 1];
    assert(views(parts@).last() == last@);
    Path { new_path: string_from_chars(last), raw_path: file_path.to_owned(), raw: true }
}

/// The characters of `textures`.
pub open spec fn textures_name() -> Seq<char> {
    seq!['t', 'e', 'x', 't', 'u', 'r', 'e', 's']
}

/// The characters of `sceneData`.
pub open spec fn scene_data_name() -> Seq<char> {
    seq!['s', 'c', 'e', 'n', 'e', 'D', 'a', 't', 'a']
}

/// Some file of the directory is named `name`.
pub open spec fn dir_has_file(d: LuminaDirectoryView, name: Seq<char>) -> bool {
    exists|i: int| 0 <= i < d.1.len() && (#[trigger] d.1[i]).1 == name
}

/// The first file of the directory named `name`.
pub open spec fn first_file_named(d: LuminaDirectoryView, name: Seq<char>) -> LuminaFileView {
    d.1[choose|i: int|
        0 <= i < d.1.len() && (#[trigger] d.1[i]).1 == name && forall|k: int|
            0 <= k < i ==> d.1[k].1 != name]
}

/// The position of the first file named `name` in a directory.
fn position_of_file(files: &Vec<LuminaFile>, name: &String) -> (r: Option<usize>)
    ensures
        match r {
            Some(i) => i < files@.len() && files@[i as int]@.1 == name@ && forall|k: int|
                0 <= k < i ==> (#[trigger] files@[k])@.1 != name@,
            None => forall|k: int| 0 <= k < files@.len() ==> (#[trigger] files@[k])@.1 != name@,
        },
{
    let mut i: usize = 0;
    while i < files.len()
        invariant
            i <= files@.len(),
            forall|k: int| 0 <= k < i ==> (#[trigger] files@[k])@.1 != name@,
        decreases files@.len() - i,
    {
        if files[i].file_name == *name {
            return Some(i);
        }
        i = i + 1;
    }
    None
}

/// A copy of a file.
fn copy_file(f: &LuminaFile) -> (r: LuminaFile)
    ensures
        r@ == f@,
{
    let content = f.file_content.clone();
    assert(content@ =~= f.file_content@);
    LuminaFile { file_type: f.file_type, file_name: f.file_name.clone(), file_content: content }
}

/// The path of an image inside the loaded archive: `Some` when the `textures` directory has
/// a file named `file_path`, naming it, with no disk path.
pub fn get_new_image(file_path: &str, loader: &Loader) -> (r: Option<Path>)
    requires
        loader.spec_directories().contains_key(textures_name()),
    ensures
        r is Some <==> dir_has_file(loader.spec_directories()[textures_name()], file_path@),
        r matches Some(p) ==> p.spec_new_path() == file_path@ && p.spec_raw_path()
            == Seq::<char>::empty() && p.spec_raw(),
{
    proof {
        reveal_strlit("textures");
    }
    assert("textures"@ == textures_name());
    let dir = match loader.get_directory("textures") {
        Some(d) => d,
        None => {
            proof {
                assert(false);
            }
            return None;
        },
    };
    let name = file_path.to_owned();
    match position_of_file(&dir.files, &name) {
        Some(i) => {
            assert(dir@.1[i as int] == dir.files@[i as int]@);
            Some(Path { new_path: name, raw_path: String::new(), raw: true })
        },
        None => {
            assert forall|k: int| 0 <= k < dir@.1.len() implies (#[trigger] dir@.1[k]).1
                != file_path@ by {
                assert(dir@.1[k] == dir.files@[k]@);
            }
            None
        },
    }
}

/// The first file named `file_name` in the directory `dir_name`, which must hold one.
fn find_in_directory(dir_name: &str, file_name: &str, loader: &Loader) -> (f: LuminaFile)
    requires
        loader.spec_directories().contains_key(dir_name@),
        dir_has_file(loader.spec_directories()[dir_name@], file_name@),
    ensures
        f@ == first_file_named(loader.spec_directories()[dir_name@], file_name@),
{
    let dir = match loader.get_directory(dir_name) {
        Some(d) => d,
        None => {
            proof {
                assert(false);
            }
            return LuminaFile::new(
                crate::files::loader::LuminaFileType::Unknown,
                String::new(),
                Vec::new(),
            );
        },
    };
    let name = file_name.to_owned();
    match position_of_file(&dir.files, &name) {
        Some(i) => {
            let ghost d = dir@;
            assert(d.1[i as int] == dir.files@[i as int]@);
            assert forall|k: int| 0 <= k < i implies d.1[k].1 != file_name@ by {
                assert(d.1[k] == dir.files@[k]@);
            }
            let ghost c = choose|j: int|
                0 <= j < d.1.len() && (#[trigger] d.1[j]).1 == file_name@ && forall|k: int|
                    0 <= k < j ==> d.1[k].1 != file_name@;
            assert(c == i as int) by {
                if c < i {
                    assert(d.1[c].1 != file_name@);
                } else if c > i {
                    assert(d.1[i as int].1 != file_name@);
                }
            }
            copy_file(&dir.files[i])
        },
        None => {
            proof {
                let d = dir@;
                let j = choose|j: int| 0 <= j < d.1.len() && (#[trigger] d.1[j]).1 == file_name@;
                assert(d.1[j] == dir.files@[j]@);
            }
            LuminaFile::new(crate::files::loader::LuminaFileType::Unknown, String::new(), Vec::new())
        },
    }
}

/// The image file named `file_name` in the `textures` directory, which must hold it.
pub fn load_image(file_name: &str, loader: Loader) -> (f: LuminaFile)
    requires
        loader.spec_directories().contains_key(textures_name()),
        dir_has_file(loader.spec_directories()[textures_name()], file_name@),
    ensures
        f@ == first_file_named(loader.spec_directories()[textures_name()], file_name@),
{
    proof {
        reveal_strlit("textures");
    }
    assert("textures"@ == textures_name());
    find_in_directory("textures", file_name, &loader)
}

/// The scene file named `file_name` in the `sceneData` directory, which must hold it.
pub fn get_scene_data(file_name: &str, loader: Loader) -> (f: LuminaFile)
    requires
        loader.spec_directories().contains_key(scene_data_name()),
        dir_has_file(loader.spec_directories()[scene_data_name()], file_name@),
    ensures
        f@ == first_file_named(loader.spec_directories()[scene_data_name()], file_name@),
{
    proof {
        reveal_strlit("sceneData");
    }
    assert("sceneData"@ == scene_data_name());
    find_in_directory("sceneData", file_name, &loader)
}

} // verus!

use vstd::prelude::*;

use super::format::{
    decode_archive, decode_frames, dir_frame_views, file_frame_views, DirectoryFrame,
    DirectoryFrameView, FileFrame, FileFrameView,
};
use super::seal::{decrypt, decrypted, key_bytes, lumina_key, string_from_utf8_lossy, text_of_bytes};
use crate::table::NamedTable;

verus! {

/// The kind of a file in an archive.
#[derive(Debug, Clone, Copy, PartialEq, Eq, Structural)]
pub enum LuminaFileType {
    Json,
    Jpg,
    Png,
    Fbx,
    Gltf,
    Unknown,
}

/// The kind that an archive's type byte names: `J` JSON, `P` PNG, `F` FBX, `G` glTF,
/// `E` JPEG, anything else none.
pub open spec fn type_of_byte(b: u8) -> LuminaFileType {
    if b == 74 {
        LuminaFileType::Json
    } else if b == 80 {
        LuminaFileType::Png
    } else if b == 70 {
        LuminaFileType::Fbx
    } else if b == 71 {
        LuminaFileType::Gltf
    } else if b == 69 {
        LuminaFileType::Jpg
    } else {
        LuminaFileType::Unknown
    }
}

/// The type byte that an archive stores for a kind (0 for none).
pub open spec fn byte_of_type(t: LuminaFileType) -> u8 {
    match t {
        LuminaFileType::Json => 74,
        LuminaFileType::Png => 80,
        LuminaFileType::Fbx => 70,
        LuminaFileType::Gltf => 71,
        LuminaFileType::Jpg => 69,
        LuminaFileType::Unknown => 0,
    }
}

/// The kind that a type byte names.
pub fn file_type_from_byte(b: u8) -> (t: LuminaFileType)
    ensures
        t == type_of_byte(b),
{
    if b == 74 {
        LuminaFileType::Json
    } else if b == 80 {
        LuminaFileType::Png
    } else if b == 70 {
        LuminaFileType::Fbx
    } else if b == 71 {
        LuminaFileType::Gltf
    } else if b == 69 {
        LuminaFileType::Jpg
    } else {
        LuminaFileType::Unknown
    }
}

/// The type byte of a kind.
pub fn file_type_byte(t: LuminaFileType) -> (b: u8)
    ensures
        b == byte_of_type(t),
{
    match t {
        LuminaFileType::Json => 74,
        LuminaFileType::Png => 80,
        LuminaFileType::Fbx => 70,
        LuminaFileType::Gltf => 71,
        LuminaFileType::Jpg => 69,
        LuminaFileType::Unknown => 0,
    }
}

/// A file of an archive: its kind, its name and its content.
#[derive(Debug)]
pub struct LuminaFile {
    pub file_type: LuminaFileType,
    pub file_name: String,
    pub file_content: Vec<u8>,
}

/// A file as its kind, the characters of its name and its bytes.
pub type LuminaFileView = (LuminaFileType, Seq<char>, Seq<u8>);

impl View for LuminaFile {
    type V = LuminaFileView;

    open spec fn view(&self) -> LuminaFileView {
        (self.file_type, self.file_name@, self.file_content@)
    }
}

impl LuminaFile {
    /// A file with the given kind, name and content.
    pub fn new(file_type: LuminaFileType, file_name: String, file_content: Vec<u8>) -> (f: Self)
        ensures
            f@ == (file_type, file_name@, file_content@),
    {
        LuminaFile { file_type, file_name, file_content }
    }
}

/// A directory of an archive: its name and its files.
#[derive(Debug)]
pub struct LuminaDirectory {
    pub name: String,
    pub files: Vec<LuminaFile>,
}

/// A directory as the characters of its name and the views of its files.
pub type LuminaDirectoryView = (Seq<char>, Seq<LuminaFileView>);

/// The views of files.
pub open spec fn file_views(fs: Seq<LuminaFile>) -> Seq<LuminaFileView> {
    fs.map_values(|f: LuminaFile| f@)
}

impl View for LuminaDirectory {
    type V = LuminaDirectoryView;

    open spec fn view(&self) -> LuminaDirectoryView {
        (self.name@, file_views(self.files@))
    }
}

/// A file frame opened with the password: its kind from the type byte, its name and content
/// decrypted (the name read as UTF-8, invalid sequences replaced); `None` if either does not
/// decrypt.
pub open spec fn open_file(f: FileFrameView, key: Seq<u8>) -> Option<LuminaFileView> {
    match (decrypted(f.1, key), decrypted(f.2, key)) {
        (Some(n), Some(c)) => Some((type_of_byte(f.0), text_of_bytes(n), c)),
        _ => None,
    }
}

/// The file frames from `i` on, opened.
pub open spec fn open_files_from(fs: Seq<FileFrameView>, i: int, key: Seq<u8>) -> Option<
    Seq<LuminaFileView>,
>
    decreases fs.len() - i,
{
    if i < 0 || i >= fs.len() {
        Some(Seq::empty())
    } else {
        match (open_file(fs[i], key), open_files_from(fs, i + 1, key)) {
            (Some(f), Some(rest)) => Some(seq![f] + rest),
            _ => None,
        }
    }
}

/// A directory frame opened with the password.
pub open spec fn open_dir(d: DirectoryFrameView, key: Seq<u8>) -> Option<LuminaDirectoryView> {
    match (decrypted(d.0, key), open_files_from(d.1, 0, key)) {
        (Some(n), Some(fs)) => Some((text_of_bytes(n), fs)),
        _ => None,
    }
}

/// The directory frames from `i` on, opened.
pub open spec fn open_dirs_from(ds: Seq<DirectoryFrameView>, i: int, key: Seq<u8>) -> Option<
    Seq<LuminaDirectoryView>,
>
    decreases ds.len() - i,
{
    if i < 0 || i >= ds.len() {
        Some(Seq::empty())
    } else {
        match (open_dir(ds[i], key), open_dirs_from(ds, i + 1, key)) {
            (Some(d), Some(rest)) => Some(seq![d] + rest),
            _ => None,
        }
    }
}

/// The directories that an archive holds, in order: `None` if it is cut off or a piece does
/// not decrypt with the archive password.
pub open spec fn load_archive(b: Seq<u8>) -> Option<Seq<LuminaDirectoryView>> {
    match decode_archive(b) {
        Some(ds) => open_dirs_from(ds, 0, lumina_key()),
        None => None,
    }
}

/// A table of directories after each was set under its name, one after another.
pub open spec fn insert_dirs(
    m: Map<Seq<char>, LuminaDirectoryView>,
    ds: Seq<LuminaDirectoryView>,
) -> Map<Seq<char>, LuminaDirectoryView>
    decreases ds.len(),
{
    if ds.len() == 0 {
        m
    } else {
        insert_dirs(m, ds.drop_last()).insert(ds.last().0, ds.last())
    }
}

/// The views of directories.
pub open spec fn dir_views(ds: Seq<LuminaDirectory>) -> Seq<LuminaDirectoryView> {
    ds.map_values(|d: LuminaDirectory| d@)
}

/// Opens a file frame.
fn open_file_frame(f: &FileFrame, key: &Vec<u8>) -> (r: Option<LuminaFile>)
    ensures
        match r {
            Some(x) => open_file(f@, key@) == Some(x@),
            None => open_file(f@, key@) is None,
        },
{
    let name = match decrypt(f.name.as_slice(), key.as_slice()) {
        Some(n) => n,
        None => {
            return None;
        },
    };
    let content = match decrypt(f.content.as_slice(), key.as_slice()) {
        Some(c) => c,
        None => {
            return None;
        },
    };
    let file_type = file_type_from_byte(f.type_byte);
    let file_name = string_from_utf8_lossy(name.as_slice());
    Some(LuminaFile { file_type, file_name, file_content: content })
}

/// Opens a directory frame.
fn open_dir_frame(d: &DirectoryFrame, key: &Vec<u8>) -> (r: Option<LuminaDirectory>)
    ensures
        match r {
            Some(x) => open_dir(d@, key@) == Some(x@),
            None => open_dir(d@, key@) is None,
        },
{
    let name = match decrypt(d.name.as_slice(), key.as_slice()) {
        Some(n) => n,
        None => {
            return None;
        },
    };
    let ghost fs = file_frame_views(d.files@);
    let mut files: Vec<LuminaFile> = Vec::new();
    let mut i: usize = 0;
    while i < d.files.len()
        invariant
            i <= d.files@.len(),
            fs == file_frame_views(d.files@),
            open_files_from(fs, 0, key@) == (match open_files_from(fs, i as int, key@) {
                Some(rest) => Some(file_views(files@) + rest),
                None => None,
            }),
        decreases d.files@.len() - i,
    {
        match open_file_frame(&d.files[i], key) {
            None => {
                return None;
            },
            Some(f) => {
                let ghost before = file_views(files@);
                files.push(f);
                assert(file_views(files@) =~= before.push(f@));
                i = i + 1;
                proof {
                    match open_files_from(fs, i as int, key@) {
                        Some(rest) => {
                            assert(file_views(files@) + rest =~= before + (seq![f@] + rest));
                        },
                        None => {},
                    }
                }
            },
        }
    }
    assert(file_views(files@) + Seq::<LuminaFileView>::empty() =~= file_views(files@));
    let dir_name = string_from_utf8_lossy(name.as_slice());
    Some(LuminaDirectory { name: dir_name, files })
}

/// Opens every directory frame, in order.
pub(crate) fn open_frames(ds: &Vec<DirectoryFrame>, key: &Vec<u8>) -> (r: Option<Vec<LuminaDirectory>>)
    ensures
        match r {
            Some(x) => open_dirs_from(dir_frame_views(ds@), 0, key@) == Some(dir_views(x@)),
            None => open_dirs_from(dir_frame_views(ds@), 0, key@) is None,
        },
{
    let ghost fs = dir_frame_views(ds@);
    let mut dirs: Vec<LuminaDirectory> = Vec::new();
    let mut i: usize = 0;
    while i < ds.len()
        invariant
            i <= ds@.len(),
            fs == dir_frame_views(ds@),
            open_dirs_from(fs, 0, key@) == (match open_dirs_from(fs, i as int, key@) {
                Some(rest) => Some(dir_views(dirs@) + rest),
                None => None,
            }),
        decreases ds@.len() - i,
    {
        match open_dir_frame(&ds[i], key) {
            None => {
                return None;
            },
            Some(d) => {
                let ghost before = dir_views(dirs@);
                dirs.push(d);
                assert(dir_views(dirs@) =~= before.push(d@));
                i = i + 1;
                proof {
                    match open_dirs_from(fs, i as int, key@) {
                        Some(rest) => {
                            assert(dir_views(dirs@) + rest =~= before + (seq![d@] + rest));
                        },
                        None => {},
                    }
                }
            },
        }
    }
    assert(dir_views(dirs@) + Seq::<LuminaDirectoryView>::empty() =~= dir_views(dirs@));
    Some(dirs)
}

/// The directories read from archives, by name.
pub struct Loader {
    directories: NamedTable<LuminaDirectory>,
}

/// The views of a table of directories.
pub open spec fn table_views(m: Map<Seq<char>, LuminaDirectory>) -> Map<
    Seq<char>,
    LuminaDirectoryView,
> {
    m.map_values(|d: LuminaDirectory| d@)
}

impl Loader {
    /// The directories by name.
    pub closed spec fn spec_directories(&self) -> Map<Seq<char>, LuminaDirectoryView> {
        table_views(self.directories@)
    }

    /// A loader with no directories.
    pub fn new() -> (l: Self)
        ensures
            l.spec_directories() == Map::<Seq<char>, LuminaDirectoryView>::empty(),
    {
        let l = Loader { directories: NamedTable::new() };
        assert(l.spec_directories() =~= Map::<Seq<char>, LuminaDirectoryView>::empty());
        l
    }

    /// Reads the directories of an archive's bytes and sets each under its name, in order.
    /// Returns false, leaving the loader as it was, when the archive is cut off or a piece
    /// does not decrypt.
    pub fn load_bytes(&mut self, bytes: &[u8]) -> (ok: bool)
        ensures
            ok == (load_archive(bytes@) is Some),
            ok ==> final(self).spec_directories() == insert_dirs(
                old(self).spec_directories(),
                load_archive(bytes@)->Some_0,
            ),
            !ok ==> final(self).spec_directories() == old(self).spec_directories(),
    {
        let key = key_bytes();
        let frames = match decode_frames(bytes) {
            Some(f) => f,
            None => {
                return false;
            },
        };
        let mut dirs = match open_frames(&frames, &key) {
            Some(d) => d,
            None => {
                return false;
            },
        };
        let ghost all = dir_views(dirs@);
        let ghost start = self.spec_directories();
        let total = dirs.len();
        let mut n: usize = 0;
        while dirs.len() > 0
            invariant
                n + dirs@.len() == all.len(),
                all.len() == total,
                dir_views(dirs@) == all.subrange(n as int, all.len() as int),
                self.spec_directories() == insert_dirs(start, all.take(n as int)),
            decreases dirs@.len(),
        {
            let ghost old_dirs = dirs@;
            let d = dirs.remove(0);
            assert(d@ == dir_views(old_dirs)[0]);
            assert(d@ == all[n as int]);
            let ghost before = self.directories@;
            let name = d.name.clone();
            self.directories.insert(name, d);
            assert(all.take(n + 1).drop_last() =~= all.take(n as int));
            assert(self.spec_directories() =~= insert_dirs(start, all.take(n + 1)));
            let ghost old_n = n;
            n = n + 1;
            assert(dirs@ =~= old_dirs.subrange(1, old_dirs.len() as int));
            assert forall|k: int| 0 <= k < dirs@.len() implies #[trigger] dir_views(dirs@)[k]
                == all.subrange(n as int, all.len() as int)[k] by {
                assert(dirs@[k] == old_dirs[k + 1]);
                assert(dir_views(old_dirs)[k + 1] == all.subrange(old_n as int, all.len() as int)[k
                    + 1]);
            }
            assert(dir_views(dirs@) =~= all.subrange(n as int, all.len() as int));
        }
        assert(all.take(all.len() as int) =~= all);
        true
    }

    /// The directory named `name`, if any.
    pub fn get_directory(&self, name: &str) -> (r: Option<&LuminaDirectory>)
        ensures
            match r {
                Some(d) => self.spec_directories().contains_key(name@) && d@
                    == self.spec_directories()[name@],
                None => !self.spec_directories().contains_key(name@),
            },
    {
        let key = name.to_owned();
        self.directories.get(&key)
    }
}

} // verus!

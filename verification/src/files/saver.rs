use vstd::prelude::*;
use vstd::utf8::{encode_utf8, encode_utf8_decode_utf8, encode_utf8_valid_utf8};

use super::format::{
    decode_archive, dir_frame_views, encode_dirs, encode_frames, frames_fit,
    lemma_decode_encode, DirectoryFrame, DirectoryFrameView, FileFrame, FileFrameView,
};
use super::loader::{
    byte_of_type, file_type_byte, file_views, insert_dirs, load_archive, open_dir,
    open_dirs_from, open_file, open_files_from, table_views, type_of_byte, LuminaDirectory,
    LuminaDirectoryView, LuminaFileView,
};
use super::seal::{decrypted, encrypt, key_bytes, lumina_key, text_of_bytes, SEAL_OVERHEAD};
use super::scene::{
    entities_key, fresh_fields, light_count_key, project_name_key, skybox_key, SceneDocument,
    SceneFieldView,
};
use crate::table::{map_of, unique_names, NamedTable};

pub use super::loader::{LuminaFile, LuminaFileType};

verus! {

/// A file frame seals a file: it stores the file's type byte, and its name (as UTF-8) and its
/// content decrypt with the password to the file's.
pub open spec fn file_sealed(fr: FileFrameView, f: LuminaFileView, key: Seq<u8>) -> bool {
    &&& fr.0 == byte_of_type(f.0)
    &&& decrypted(fr.1, key) == Some(encode_utf8(f.1))
    &&& decrypted(fr.2, key) == Some(f.2)
    &&& fr.1.len() == encode_utf8(f.1).len() + SEAL_OVERHEAD
    &&& fr.2.len() == f.2.len() + SEAL_OVERHEAD
}

/// A directory frame seals a directory: its name decrypts to the directory's name (as UTF-8)
/// and its files seal the directory's files, one for one.
pub open spec fn dir_sealed(fr: DirectoryFrameView, d: LuminaDirectoryView, key: Seq<u8>) -> bool {
    &&& decrypted(fr.0, key) == Some(encode_utf8(d.0))
    &&& fr.0.len() == encode_utf8(d.0).len() + SEAL_OVERHEAD
    &&& fr.1.len() == d.1.len()
    &&& forall|j: int| 0 <= j < fr.1.len() ==> file_sealed(#[trigger] fr.1[j], d.1[j], key)
}

/// Directory frames seal directories, one for one.
pub open spec fn dirs_sealed(
    frs: Seq<DirectoryFrameView>,
    ds: Seq<LuminaDirectoryView>,
    key: Seq<u8>,
) -> bool {
    &&& frs.len() == ds.len()
    &&& forall|i: int| 0 <= i < frs.len() ==> dir_sealed(#[trigger] frs[i], ds[i], key)
}

proof fn lemma_type_byte_roundtrip(t: LuminaFileType)
    ensures
        type_of_byte(byte_of_type(t)) == t,
{
}

proof fn lemma_name_roundtrip(name: Seq<char>)
    ensures
        text_of_bytes(encode_utf8(name)) == name,
{
    encode_utf8_valid_utf8(name);
    encode_utf8_decode_utf8(name);
}

proof fn lemma_open_sealed_files(frs: Seq<FileFrameView>, fs: Seq<LuminaFileView>, i: int, key: Seq<u8>)
    requires
        frs.len() == fs.len(),
        forall|j: int| 0 <= j < frs.len() ==> file_sealed(#[trigger] frs[j], fs[j], key),
        0 <= i <= frs.len(),
    ensures
        open_files_from(frs, i, key) == Some(fs.subrange(i, fs.len() as int)),
    decreases frs.len() - i,
{
    if i < frs.len() {
        lemma_open_sealed_files(frs, fs, i + 1, key);
        assert(file_sealed(frs[i], fs[i], key));
        lemma_type_byte_roundtrip(fs[i].0);
        lemma_name_roundtrip(fs[i].1);
        assert(open_file(frs[i], key) == Some(fs[i]));
        assert(seq![fs[i]] + fs.subrange(i + 1, fs.len() as int) =~= fs.subrange(i, fs.len() as int));
    } else {
        assert(fs.subrange(i, fs.len() as int) =~= Seq::<LuminaFileView>::empty());
    }
}

proof fn lemma_open_sealed_dirs(
    frs: Seq<DirectoryFrameView>,
    ds: Seq<LuminaDirectoryView>,
    i: int,
    key: Seq<u8>,
)
    requires
        dirs_sealed(frs, ds, key),
        0 <= i <= frs.len(),
    ensures
        open_dirs_from(frs, i, key) == Some(ds.subrange(i, ds.len() as int)),
    decreases frs.len() - i,
{
    if i < frs.len() {
        lemma_open_sealed_dirs(frs, ds, i + 1, key);
        assert(dir_sealed(frs[i], ds[i], key));
        lemma_open_sealed_files(frs[i].1, ds[i].1, 0, key);
        assert(ds[i].1.subrange(0, ds[i].1.len() as int) =~= ds[i].1);
        lemma_name_roundtrip(ds[i].0);
        assert(open_dir(frs[i], key) == Some(ds[i]));
        assert(seq![ds[i]] + ds.subrange(i + 1, ds.len() as int) =~= ds.subrange(i, ds.len() as int));
    } else {
        assert(ds.subrange(i, ds.len() as int) =~= Seq::<LuminaDirectoryView>::empty());
    }
}

/// Reading back an archive that seals directories gives those directories, in order, when
/// every length and count fits in 32 bits.
pub proof fn lemma_archive_roundtrip(frs: Seq<DirectoryFrameView>, ds: Seq<LuminaDirectoryView>)
    requires
        frames_fit(frs),
        dirs_sealed(frs, ds, lumina_key()),
    ensures
        load_archive(encode_dirs(frs)) == Some(ds),
{
    lemma_decode_encode(frs);
    lemma_open_sealed_dirs(frs, ds, 0, lumina_key());
    assert(ds.subrange(0, ds.len() as int) =~= ds);
}

/// The directories are small enough for the archive's 32-bit lengths once sealed: every
/// sealed name and content, and every file count, fits in a `u32`.
pub open spec fn archive_fits(ds: Seq<LuminaDirectoryView>) -> bool {
    forall|i: int|
        0 <= i < ds.len() ==> {
            &&& encode_utf8((#[trigger] ds[i]).0).len() + SEAL_OVERHEAD <= u32::MAX
            &&& ds[i].1.len() <= u32::MAX
            &&& forall|j: int|
                0 <= j < ds[i].1.len() ==> encode_utf8((#[trigger] ds[i].1[j]).1).len()
                    + SEAL_OVERHEAD <= u32::MAX && ds[i].1[j].2.len() + SEAL_OVERHEAD <= u32::MAX
        }
}

/// Sealed directories that fit give frames whose lengths fit.
pub proof fn lemma_sealed_frames_fit(frs: Seq<DirectoryFrameView>, ds: Seq<LuminaDirectoryView>)
    requires
        dirs_sealed(frs, ds, lumina_key()),
        archive_fits(ds),
    ensures
        frames_fit(frs),
{
    assert forall|i: int| 0 <= i < frs.len() implies {
        &&& (#[trigger] frs[i]).0.len() <= u32::MAX
        &&& frs[i].1.len() <= u32::MAX
        &&& forall|j: int|
            0 <= j < frs[i].1.len() ==> (#[trigger] frs[i].1[j]).1.len() <= u32::MAX
                && frs[i].1[j].2.len() <= u32::MAX
    } by {
        assert(dir_sealed(frs[i], ds[i], lumina_key()));
        assert forall|j: int| 0 <= j < frs[i].1.len() implies (#[trigger] frs[i].1[j]).1.len()
            <= u32::MAX && frs[i].1[j].2.len() <= u32::MAX by {
            assert(file_sealed(frs[i].1[j], ds[i].1[j], lumina_key()));
            assert(encode_utf8(ds[i].1[j].1).len() + SEAL_OVERHEAD <= u32::MAX);
        }
    }
}

/// What a saver writes, a fresh loader reads back: when the directories, in the saver's
/// order, fit the archive's 32-bit lengths and were sealed into frames, loading the archive's
/// bytes into an empty loader gives the saver's directories by name.
pub proof fn lemma_saved_directories_load_back(
    frs: Seq<DirectoryFrameView>,
    order: Seq<LuminaDirectoryView>,
    dirs: Map<Seq<char>, LuminaDirectoryView>,
)
    requires
        archive_fits(order),
        dirs_sealed(frs, order, lumina_key()),
        insert_dirs(Map::empty(), order) == dirs,
    ensures
        load_archive(encode_dirs(frs)) is Some,
        insert_dirs(Map::empty(), load_archive(encode_dirs(frs))->Some_0) == dirs,
{
    lemma_sealed_frames_fit(frs, order);
    lemma_archive_roundtrip(frs, order);
}

/// Every entry is keyed by its directory's own name.
pub open spec fn keyed_by_name(es: Seq<(String, LuminaDirectory)>) -> bool {
    forall|i: int| 0 <= i < es.len() ==> (#[trigger] es[i]).0@ == es[i].1.name@
}

/// The views of the directories of entries, in order.
pub open spec fn entry_dir_views(es: Seq<(String, LuminaDirectory)>) -> Seq<LuminaDirectoryView> {
    es.map_values(|e: (String, LuminaDirectory)| e.1@)
}

proof fn lemma_insert_dirs_of_entries(es: Seq<(String, LuminaDirectory)>)
    requires
        keyed_by_name(es),
    ensures
        insert_dirs(Map::empty(), entry_dir_views(es)) == table_views(map_of(es)),
    decreases es.len(),
{
    if es.len() == 0 {
        assert(table_views(map_of(es)) =~= Map::<Seq<char>, LuminaDirectoryView>::empty());
    } else {
        let init = es.drop_last();
        assert(keyed_by_name(init)) by {
            assert forall|i: int| 0 <= i < init.len() implies (#[trigger] init[i]).0@
                == init[i].1.name@ by {
                assert(init[i] == es[i]);
            }
        }
        lemma_insert_dirs_of_entries(init);
        assert(entry_dir_views(es).drop_last() =~= entry_dir_views(init));
        assert(es.last() == es[es.len() - 1]);
        assert(entry_dir_views(es).last() == es.last().1@);
        assert(table_views(map_of(es)) =~= table_views(map_of(init)).insert(
            es.last().0@,
            es.last().1@,
        ));
    }
}

/// Collects directories by name and writes them as a sealed archive.
pub struct Saver<V> {
    json: SceneDocument<V>,
    directories: NamedTable<LuminaDirectory>,
}

/// The characters of `gameData`.
pub open spec fn game_data_name() -> Seq<char> {
    seq!['g', 'a', 'm', 'e', 'D', 'a', 't', 'a']
}

/// The characters of `scene.json`.
pub open spec fn scene_file_name() -> Seq<char> {
    seq!['s', 'c', 'e', 'n', 'e', '.', 'j', 's', 'o', 'n']
}

/// Seals a file with the password.
fn seal_file(f: &LuminaFile, key: &Vec<u8>) -> (r: Option<FileFrame>)
    ensures
        r matches Some(fr) ==> file_sealed(fr@, f@, key@),
{
    let name = match encrypt(f.file_name.as_str().as_bytes(), key.as_slice()) {
        Some(n) => n,
        None => {
            return None;
        },
    };
    let content = match encrypt(f.file_content.as_slice(), key.as_slice()) {
        Some(c) => c,
        None => {
            return None;
        },
    };
    Some(FileFrame { type_byte: file_type_byte(f.file_type), name, content })
}

/// Seals a directory with the password.
fn seal_dir(d: &LuminaDirectory, key: &Vec<u8>) -> (r: Option<DirectoryFrame>)
    ensures
        r matches Some(fr) ==> dir_sealed(fr@, d@, key@),
{
    let name = match encrypt(d.name.as_str().as_bytes(), key.as_slice()) {
        Some(n) => n,
        None => {
            return None;
        },
    };
    let mut files: Vec<FileFrame> = Vec::new();
    let mut i: usize = 0;
    while i < d.files.len()
        invariant
            i <= d.files@.len(),
            files@.len() == i,
            forall|j: int|
                0 <= j < i ==> file_sealed(#[trigger] files@[j]@, d.files@[j]@, key@),
        decreases d.files@.len() - i,
    {
        match seal_file(&d.files[i], key) {
            Some(fr) => {
                files.push(fr);
            },
            None => {
                return None;
            },
        }
        i = i + 1;
    }
    let fr = DirectoryFrame { name, files };
    assert forall|j: int| 0 <= j < fr@.1.len() implies file_sealed(
        #[trigger] fr@.1[j],
        d@.1[j],
        key@,
    ) by {
        assert(fr@.1[j] == fr.files@[j]@);
        assert(d@.1[j] == d.files@[j]@);
    }
    Some(fr)
}

impl<V> Saver<V> {
    #[verifier::type_invariant]
    closed spec fn inv(self) -> bool {
        keyed_by_name(self.directories.spec_entries())
    }

    /// The directories by name.
    pub closed spec fn spec_directories(&self) -> Map<Seq<char>, LuminaDirectoryView> {
        table_views(self.directories@)
    }

    /// The directories in the order in which their names first came in.
    pub closed spec fn spec_order(&self) -> Seq<LuminaDirectoryView> {
        entry_dir_views(self.directories.spec_entries())
    }

    /// The scene document's fields.
    pub closed spec fn spec_json(&self) -> Map<Seq<char>, SceneFieldView<V>> {
        self.json.spec_fields()
    }

    /// A saver with a fresh scene document and no directories.
    pub fn new() -> (s: Self)
        ensures
            s.spec_directories() == Map::<Seq<char>, LuminaDirectoryView>::empty(),
            s.spec_json() == fresh_fields::<V>(),
    {
        let s = Saver { json: SceneDocument::new(), directories: NamedTable::new() };
        assert(s.spec_directories() =~= Map::<Seq<char>, LuminaDirectoryView>::empty());
        s
    }

    /// Sets an empty directory under `name`, in the place of any directory of that name.
    pub fn create_directory(&mut self, name: &str)
        ensures
            final(self).spec_json() == old(self).spec_json(),
            final(self).spec_directories() == old(self).spec_directories().insert(
                name@,
                (name@, Seq::<LuminaFileView>::empty()),
            ),
    {
        proof {
            use_type_invariant(&*self);
        }
        let mut table = NamedTable::new();
        std::mem::swap(&mut table, &mut self.directories);
        let ghost es = table.spec_entries();
        let ghost old_map = table@;
        let dir = LuminaDirectory { name: name.to_owned(), files: Vec::new() };
        assert(dir@ =~= (name@, Seq::<LuminaFileView>::empty()));
        let key = name.to_owned();
        table.insert(key, dir);
        proof {
            let now = table.spec_entries();
            if old_map.contains_key(name@) {
                let j = choose|j: int|
                    0 <= j < es.len() && (#[trigger] es[j]).0@ == name@ && now == es.update(
                        j,
                        (es[j].0, dir),
                    );
                assert forall|i: int| 0 <= i < now.len() implies (#[trigger] now[i]).0@
                    == now[i].1.name@ by {
                    if i != j {
                        assert(now[i] == es[i]);
                    }
                }
            } else {
                assert forall|i: int| 0 <= i < now.len() implies (#[trigger] now[i]).0@
                    == now[i].1.name@ by {
                    if i < es.len() {
                        assert(now[i] == es[i]);
                    }
                }
            }
        }
        self.directories = table;
        assert(self.spec_directories() =~= old(self).spec_directories().insert(
            name@,
            (name@, Seq::<LuminaFileView>::empty()),
        ));
    }

    /// Adds a file at the end of the directory `directory_name`, which must exist.
    pub fn insert_file_into_directory(&mut self, directory_name: &str, file: LuminaFile)
        requires
            old(self).spec_directories().contains_key(directory_name@),
        ensures
            final(self).spec_json() == old(self).spec_json(),
            final(self).spec_directories() == old(self).spec_directories().insert(
                directory_name@,
                (
                    directory_name@,
                    old(self).spec_directories()[directory_name@].1.push(file@),
                ),
            ),
    {
        proof {
            use_type_invariant(&*self);
        }
        let mut table = NamedTable::new();
        std::mem::swap(&mut table, &mut self.directories);
        let ghost es = table.spec_entries();
        let _ = table.entries();
        assert(keyed_by_name(es));
        let key = directory_name.to_owned();
        let placeholder = LuminaDirectory { name: directory_name.to_owned(), files: Vec::new() };
        let mut dir = table.replace(&key, placeholder);
        let ghost mid = table.spec_entries();
        assert(dir.name@ == directory_name@) by {
            let j = choose|j: int|
                0 <= j < es.len() && (#[trigger] es[j]).0@ == key@ && mid == es.update(
                    j,
                    (es[j].0, placeholder),
                );
            crate::table::lemma_map_of_value(es, j);
        }
        let ghost before = dir@;
        dir.files.push(file);
        assert(dir@ =~= (before.0, before.1.push(file@)));
        let key2 = directory_name.to_owned();
        let _ = table.replace(&key2, dir);
        proof {
            let now = table.spec_entries();
            let j = choose|j: int|
                0 <= j < es.len() && (#[trigger] es[j]).0@ == key@ && mid == es.update(
                    j,
                    (es[j].0, placeholder),
                );
            let j2 = choose|j2: int|
                0 <= j2 < mid.len() && (#[trigger] mid[j2]).0@ == key2@ && now == mid.update(
                    j2,
                    (mid[j2].0, dir),
                );
            assert forall|i: int| 0 <= i < now.len() implies (#[trigger] now[i]).0@
                == now[i].1.name@ by {
                if i != j && i != j2 {
                    assert(now[i] == es[i]);
                }
            }
        }
        self.directories = table;
        assert(self.spec_directories() =~= old(self).spec_directories().insert(
            directory_name@,
            (directory_name@, old(self).spec_directories()[directory_name@].1.push(file@)),
        ));
    }

    /// The scene document.
    pub fn json(&self) -> (d: &SceneDocument<V>)
        ensures
            d.spec_fields() == self.spec_json(),
    {
        &self.json
    }

    /// Adds a value at the end of the document's list of entities, which must be there.
    pub fn add_entity(&mut self, entity: V)
        requires
            old(self).spec_json().contains_key(entities_key()),
            old(self).spec_json()[entities_key()] is Items,
        ensures
            final(self).spec_json() == old(self).spec_json().insert(
                entities_key(),
                SceneFieldView::Items(old(self).spec_json()[entities_key()]->Items_0.push(entity)),
            ),
            final(self).spec_directories() == old(self).spec_directories(),
            final(self).spec_order() == old(self).spec_order(),
    {
        proof {
            use_type_invariant(&*self);
        }
        let mut doc = SceneDocument::new();
        std::mem::swap(&mut doc, &mut self.json);
        doc.add_entity(entity);
        self.json = doc;
    }

    /// Replaces the document's field `value` with the list `data`, when there is such a field.
    pub fn modify_array_value(&mut self, value: &str, data: Vec<V>)
        ensures
            old(self).spec_json().contains_key(value@) ==> final(self).spec_json() == old(
                self,
            ).spec_json().insert(value@, SceneFieldView::Items(data@)),
            !old(self).spec_json().contains_key(value@) ==> final(self).spec_json() == old(
                self,
            ).spec_json(),
            final(self).spec_directories() == old(self).spec_directories(),
            final(self).spec_order() == old(self).spec_order(),
    {
        proof {
            use_type_invariant(&*self);
        }
        let mut doc = SceneDocument::new();
        std::mem::swap(&mut doc, &mut self.json);
        doc.modify_array_value(value, data);
        self.json = doc;
    }

    /// Sets the project's name in the document.
    pub fn modify_project_name(&mut self, project_name: &str)
        ensures
            final(self).spec_json() == old(self).spec_json().insert(
                project_name_key(),
                SceneFieldView::Text(project_name@),
            ),
            final(self).spec_directories() == old(self).spec_directories(),
            final(self).spec_order() == old(self).spec_order(),
    {
        proof {
            use_type_invariant(&*self);
        }
        let mut doc = SceneDocument::new();
        std::mem::swap(&mut doc, &mut self.json);
        doc.modify_project_name(project_name);
        self.json = doc;
    }

    /// Sets the six faces of the document's skybox (x, -x, y, -y, z, -z); its skybox field
    /// must hold faces.
    pub fn modify_skybox(&mut self, skybox_images: Vec<String>)
        requires
            skybox_images@.len() == 6,
            old(self).spec_json().contains_key(skybox_key()),
            old(self).spec_json()[skybox_key()] is Skybox,
        ensures
            final(self).spec_json() == old(self).spec_json().insert(
                skybox_key(),
                SceneFieldView::Skybox(skybox_images@.map_values(|f: String| f@)),
            ),
            final(self).spec_directories() == old(self).spec_directories(),
            final(self).spec_order() == old(self).spec_order(),
    {
        proof {
            use_type_invariant(&*self);
        }
        let mut doc = SceneDocument::new();
        std::mem::swap(&mut doc, &mut self.json);
        doc.modify_skybox(skybox_images);
        self.json = doc;
    }

    /// Sets the document's count of lights.
    pub fn set_light_count(&mut self, light_count: u32)
        ensures
            final(self).spec_json() == old(self).spec_json().insert(
                light_count_key(),
                SceneFieldView::Count(light_count),
            ),
            final(self).spec_directories() == old(self).spec_directories(),
            final(self).spec_order() == old(self).spec_order(),
    {
        proof {
            use_type_invariant(&*self);
        }
        let mut doc = SceneDocument::new();
        std::mem::swap(&mut doc, &mut self.json);
        doc.set_light_count(light_count);
        self.json = doc;
    }

    /// Seals every directory, in order; `None` if an encryption fails.
    fn seal(&self) -> (r: Option<Vec<DirectoryFrame>>)
        ensures
            r matches Some(frs) ==> dirs_sealed(dir_frame_views(frs@), self.spec_order(), lumina_key()),
    {
        let key = key_bytes();
        let entries = self.directories.entries();
        let mut frames: Vec<DirectoryFrame> = Vec::new();
        let mut i: usize = 0;
        while i < entries.len()
            invariant
                i <= entries@.len(),
                entries@ == self.directories.spec_entries(),
                key@ == lumina_key(),
                frames@.len() == i,
                forall|j: int|
                    0 <= j < i ==> dir_sealed(
                        #[trigger] frames@[j]@,
                        entries@[j].1@,
                        key@,
                    ),
            decreases entries@.len() - i,
        {
            match seal_dir(&entries[i].1, &key) {
                Some(fr) => {
                    frames.push(fr);
                },
                None => {
                    return None;
                },
            }
            i = i + 1;
        }
        assert forall|j: int| 0 <= j < frames@.len() implies dir_sealed(
            #[trigger] dir_frame_views(frames@)[j],
            self.spec_order()[j],
            lumina_key(),
        ) by {
            assert(dir_frame_views(frames@)[j] == frames@[j]@);
            assert(self.spec_order()[j] == entries@[j].1@);
        }
        Some(frames)
    }

    /// Puts the scene file `scene.json` alone into a fresh `gameData` directory, then writes
    /// every directory, sealed, as the bytes of an archive. `None` if an encryption fails.
    pub fn save_data(&mut self, scene_json: Vec<u8>) -> (r: Option<Vec<u8>>)
        ensures
            final(self).spec_json() == old(self).spec_json(),
            final(self).spec_directories() == old(self).spec_directories().insert(
                game_data_name(),
                (game_data_name(), seq![(LuminaFileType::Json, scene_file_name(), scene_json@)]),
            ),
            insert_dirs(Map::empty(), final(self).spec_order()) == final(self).spec_directories(),
            r matches Some(b) ==> exists|frs: Seq<DirectoryFrameView>|
                encode_dirs(frs) == b@ && dirs_sealed(frs, final(self).spec_order(), lumina_key()),
            r matches Some(b) ==> (archive_fits(final(self).spec_order()) ==> load_archive(b@)
                == Some(final(self).spec_order())),
    {
        let ghost json = scene_json@;
        proof {
            reveal_strlit("gameData");
            reveal_strlit("scene.json");
        }
        assert("gameData"@ == game_data_name());
        assert("scene.json"@ == scene_file_name());
        self.create_directory("gameData");
        let file = LuminaFile::new(LuminaFileType::Json, "scene.json".to_owned(), scene_json);
        self.insert_file_into_directory("gameData", file);
        assert(self.spec_directories() =~= old(self).spec_directories().insert(
            game_data_name(),
            (game_data_name(), seq![(LuminaFileType::Json, scene_file_name(), json)]),
        ));
        let entries = self.directories.entries();
        proof {
            use_type_invariant(&*self);
            let es = self.directories.spec_entries();
            lemma_insert_dirs_of_entries(es);
        }
        let frames = match self.seal() {
            Some(f) => f,
            None => {
                return None;
            },
        };
        let bytes = encode_frames(&frames);
        proof {
            if archive_fits(self.spec_order()) {
                lemma_sealed_frames_fit(dir_frame_views(frames@), self.spec_order());
                lemma_archive_roundtrip(dir_frame_views(frames@), self.spec_order());
            }
        }
        Some(bytes)
    }
}

} // verus!

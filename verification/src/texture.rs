use vstd::prelude::*;

use crate::files::loader::Loader;
use crate::path::{dir_has_file, file_name_of, get_new_image, get_raw_image, textures_name, Path};

verus! {

/// An image used as a texture: where it lives, and the pack it belongs to.
pub struct Texture {
    pub texture_path: Path,
    pub pack_id: u32,
}

/// Where a texture's pixels come from: an image file, or the stand-in for a missing texture
/// (opaque black when the texture was to come from the disk, transparent otherwise).
#[derive(Debug)]
pub enum TextureSource {
    File(String),
    Missing(bool),
}

/// The bytes of the stand-in for a missing texture: 64 by 64 pixels of RGBA, black, opaque
/// when `is_raw` and transparent otherwise.
pub open spec fn missing_texture_bytes(is_raw: bool) -> Seq<u8> {
    Seq::new(
        64 * 64 * 4,
        |i: int|
            if is_raw && i % 4 == 3 {
                255u8
            } else {
                0u8
            },
    )
}

/// The stand-in for a missing texture, as RGBA bytes row by row.
pub fn create_missing_texture(is_raw: bool) -> (b: Vec<u8>)
    ensures
        b@ == missing_texture_bytes(is_raw),
{
    let alpha: u8 = if is_raw {
        255
    } else {
        0
    };
    let n: usize = 64 * 64;
    let mut b: Vec<u8> = Vec::new();
    let mut p: usize = 0;
    while p < n
        invariant
            n == 64 * 64,
            p <= n,
            alpha == (if is_raw {
                255u8
            } else {
                0u8
            }),
            b@.len() == 4 * p,
            forall|i: int| 0 <= i < b@.len() ==> b@[i] == missing_texture_bytes(is_raw)[i],
        decreases n - p,
    {
        b.push(0);
        b.push(0);
        b.push(0);
        b.push(alpha);
        proof {
            assert forall|i: int| 0 <= i < b@.len() implies b@[i] == missing_texture_bytes(
                is_raw,
            )[i] by {
                if i >= 4 * p {
                    assert(i % 4 == i - 4 * p);
                }
            }
        }
        p = p + 1;
    }
    assert(b@ =~= missing_texture_bytes(is_raw));
    b
}

impl Texture {
    /// A texture read from the disk at `texture_path`, given whether the file is there; with an
    /// empty path when it is not. A texture on disk is recorded in `paths` as `get_raw_image`
    /// records it.
    pub fn new_raw(texture_path: &str, file_exists: bool, paths: &mut Vec<(String, String)>) -> (t:
        Self)
        ensures
            file_exists ==> {
                &&& final(paths)@.len() == old(paths)@.len() + 1
                &&& final(paths)@.drop_last() == old(paths)@
                &&& final(paths)@.last().0@ == texture_path@
                &&& final(paths)@.last().1@ == file_name_of(texture_path@)
            },
            !file_exists ==> final(paths)@ == old(paths)@,
            t.pack_id == 0,
            file_exists ==> t.texture_path.spec_new_path() == file_name_of(texture_path@)
                && t.texture_path.spec_raw_path() == texture_path@ && t.texture_path.spec_raw(),
            !file_exists ==> t.texture_path.spec_new_path() == Seq::<char>::empty()
                && t.texture_path.spec_raw_path() == Seq::<char>::empty()
                && t.texture_path.spec_raw(),
    {
        match get_raw_image(texture_path, file_exists, paths) {
            Some(p) => Texture { texture_path: p, pack_id: 0 },
            None => Texture { texture_path: Path::default(), pack_id: 0 },
        }
    }

    /// A texture from the `textures` directory of the loaded archive, which must hold a file
    /// named `texture_path`.
    pub fn new(texture_path: &str, loader: &Loader) -> (t: Self)
        requires
            loader.spec_directories().contains_key(textures_name()),
            dir_has_file(loader.spec_directories()[textures_name()], texture_path@),
        ensures
            t.pack_id == 0,
            t.texture_path.spec_new_path() == texture_path@,
            t.texture_path.spec_raw_path() == Seq::<char>::empty(),
            t.texture_path.spec_raw(),
    {
        match get_new_image(texture_path, loader) {
            Some(p) => Texture { texture_path: p, pack_id: 0 },
            None => {
                proof {
                    assert(false);
                }
                Texture { texture_path: Path::default(), pack_id: 0 }
            },
        }
    }

    /// Where the pixels come from: the disk path when it is used and not empty; when the
    /// archive name is used and not empty, the disk path too; the stand-in otherwise.
    pub fn texture_source(&self) -> (s: TextureSource)
        ensures
            self.texture_path.spec_raw() ==> (if self.texture_path.spec_raw_path().len() > 0 {
                s matches TextureSource::File(f) && f@ == self.texture_path.spec_raw_path()
            } else {
                s matches TextureSource::Missing(r) && r
            }),
            !self.texture_path.spec_raw() ==> (if self.texture_path.spec_new_path().len() > 0 {
                s matches TextureSource::File(f) && f@ == self.texture_path.spec_raw_path()
            } else {
                s matches TextureSource::Missing(r) && !r
            }),
    {
        if self.texture_path.is_raw_path() {
            if self.texture_path.get_raw_path().unicode_len() > 0 {
                TextureSource::File(self.texture_path.get_raw_path().to_owned())
            } else {
                TextureSource::Missing(true)
            }
        } else {
            if self.texture_path.get_new_path().unicode_len() > 0 {
                TextureSource::File(self.texture_path.get_raw_path().to_owned())
            } else {
                TextureSource::Missing(false)
            }
        }
    }

    /// The file whose dimensions are the texture's: the path in use when it is not empty;
    /// none, for the 64 by 64 stand-in, otherwise.
    pub fn texture_info_source(&self) -> (r: Option<String>)
        ensures
            self.texture_path.spec_raw() ==> (if self.texture_path.spec_raw_path().len() > 0 {
                r matches Some(f) && f@ == self.texture_path.spec_raw_path()
            } else {
                r is None
            }),
            !self.texture_path.spec_raw() ==> (if self.texture_path.spec_new_path().len() > 0 {
                r matches Some(f) && f@ == self.texture_path.spec_new_path()
            } else {
                r is None
            }),
    {
        if self.texture_path.is_raw_path() {
            if self.texture_path.get_raw_path().unicode_len() > 0 {
                Some(self.texture_path.get_raw_path().to_owned())
            } else {
                None
            }
        } else {
            if self.texture_path.get_new_path().unicode_len() > 0 {
                Some(self.texture_path.get_new_path().to_owned())
            } else {
                None
            }
        }
    }

    /// The name inside an archive.
    pub fn get_new_path(&self) -> (r: String)
        ensures
            r@ == self.texture_path.spec_new_path(),
    {
        self.texture_path.get_new_path().to_owned()
    }

    /// The path on disk.
    pub fn get_raw_path(&self) -> (r: String)
        ensures
            r@ == self.texture_path.spec_raw_path(),
    {
        self.texture_path.get_raw_path().to_owned()
    }
}

} // verus!

use lumina::files::loader::{Loader, LuminaFile, LuminaFileType};
use lumina::files::saver::Saver;
use lumina::path::{get_new_image, get_raw_image, get_raw_model, get_scene_data, load_image, Path};
use lumina::texture::{create_missing_texture, Texture, TextureSource};

fn loader_with_texture() -> Loader {
    let mut saver: Saver<u8> = Saver::new();
    saver.create_directory("textures");
    saver.insert_file_into_directory(
        "textures",
        LuminaFile::new(LuminaFileType::Jpg, "wall.jpg".to_string(), vec![5, 6]),
    );
    saver.create_directory("sceneData");
    saver.insert_file_into_directory(
        "sceneData",
        LuminaFile::new(LuminaFileType::Json, "level.json".to_string(), b"{}".to_vec()),
    );
    let bytes = saver.save_data(b"{}".to_vec()).unwrap();
    let mut loader = Loader::new();
    assert!(loader.load_bytes(&bytes));
    loader
}

#[test]
fn disk_paths_are_named_by_their_last_part() {
    let mut paths = Vec::new();
    let p = get_raw_image("assets/img/wall.png", true, &mut paths).unwrap();
    assert_eq!(p.get_new_path(), "wall.png");
    assert_eq!(p.get_raw_path(), "assets/img/wall.png");
    assert!(p.is_raw_path());
    assert!(get_raw_image("assets/none.png", false, &mut paths).is_none());
    assert_eq!(paths, vec![("assets/img/wall.png".to_string(), "wall.png".to_string())]);
    assert_eq!(get_raw_model("model.fbx", true).unwrap().get_new_path(), "model.fbx");
}

#[test]
fn path_setters() {
    let mut p = Path::default();
    assert_eq!(p.get_new_path(), "");
    p.set_new_path("a");
    p.set_raw_path("b/a");
    assert_eq!(p.get_new_path(), "a");
    assert_eq!(p.get_raw_path(), "b/a");
}

#[test]
fn archive_images_and_scene() {
    let loader = loader_with_texture();
    let p = get_new_image("wall.jpg", &loader).unwrap();
    assert_eq!(p.get_new_path(), "wall.jpg");
    assert!(get_new_image("door.jpg", &loader).is_none());
    let scene = get_scene_data("level.json", loader_with_texture());
    assert_eq!(scene.file_content, b"{}".to_vec());
    let image = load_image("wall.jpg", loader);
    assert_eq!(image.file_content, vec![5, 6]);
    assert_eq!(image.file_type, LuminaFileType::Jpg);
}

#[test]
fn textures_choose_their_source() {
    let mut paths = Vec::new();
    let t = Texture::new_raw("img/brick.png", true, &mut paths);
    assert_eq!(paths.len(), 1);
    assert_eq!(t.get_new_path(), "brick.png");
    match t.texture_source() {
        TextureSource::File(f) => assert_eq!(f, "img/brick.png"),
        _ => panic!("a raw texture reads its file"),
    }
    assert_eq!(t.texture_info_source(), Some("img/brick.png".to_string()));
    let missing = Texture::new_raw("img/none.png", false, &mut paths);
    assert_eq!(paths.len(), 1);
    match missing.texture_source() {
        TextureSource::Missing(raw) => assert!(raw),
        _ => panic!("a missing raw texture is the stand-in"),
    }
    assert_eq!(missing.texture_info_source(), None);
    let packed = Texture::new("wall.jpg", &loader_with_texture());
    assert_eq!(packed.get_new_path(), "wall.jpg");
    assert_eq!(packed.pack_id, 0);
}

#[test]
fn missing_texture_pixels() {
    let opaque = create_missing_texture(true);
    assert_eq!(opaque.len(), 64 * 64 * 4);
    assert_eq!(&opaque[0..8], &[0, 0, 0, 255, 0, 0, 0, 255]);
    let clear = create_missing_texture(false);
    assert!(clear.iter().all(|b| *b == 0));
}

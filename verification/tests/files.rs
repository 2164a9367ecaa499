use lumina::files::format::{decode_frames, encode_frames, DirectoryFrame, FileFrame};
use lumina::files::loader::{file_type_byte, file_type_from_byte, Loader, LuminaFile, LuminaFileType};
use lumina::files::saver::Saver;
use lumina::files::scene::{SceneDocument, SceneField};

#[test]
fn type_bytes() {
    assert_eq!(file_type_byte(LuminaFileType::Json), b'J');
    assert_eq!(file_type_byte(LuminaFileType::Png), b'P');
    assert_eq!(file_type_byte(LuminaFileType::Fbx), b'F');
    assert_eq!(file_type_byte(LuminaFileType::Gltf), b'G');
    assert_eq!(file_type_byte(LuminaFileType::Jpg), b'E');
    assert_eq!(file_type_byte(LuminaFileType::Unknown), 0);
    assert_eq!(file_type_from_byte(b'E'), LuminaFileType::Jpg);
    assert_eq!(file_type_from_byte(b'x'), LuminaFileType::Unknown);
}

#[test]
fn frames_are_length_prefixed_little_endian() {
    let frames = vec![DirectoryFrame {
        name: vec![1, 2],
        files: vec![FileFrame { type_byte: b'J', name: vec![9], content: vec![7, 7, 7] }],
    }];
    let bytes = encode_frames(&frames);
    assert_eq!(
        bytes,
        vec![2, 0, 0, 0, 1, 2, 1, 0, 0, 0, b'J', 1, 0, 0, 0, 3, 0, 0, 0, 9, 7, 7, 7]
    );
    let back = decode_frames(&bytes).unwrap();
    assert_eq!(back.len(), 1);
    assert_eq!(back[0].name, vec![1, 2]);
    assert_eq!(back[0].files[0].content, vec![7, 7, 7]);
}

#[test]
fn truncated_archive_is_rejected() {
    assert!(decode_frames(&[2, 0, 0, 0, 1]).is_none());
    let mut loader = Loader::new();
    assert!(!loader.load_bytes(&[2, 0, 0, 0, 1]));
    assert!(loader.get_directory("gameData").is_none());
}

#[test]
fn short_tail_ends_the_archive() {
    let mut loader = Loader::new();
    assert!(loader.load_bytes(&[5, 0, 0]));
    assert!(loader.get_directory("gameData").is_none());
}

#[test]
fn saved_archive_loads_back() {
    let mut saver: Saver<u32> = Saver::new();
    saver.create_directory("textures");
    saver.insert_file_into_directory(
        "textures",
        LuminaFile::new(LuminaFileType::Png, "brick.png".to_string(), vec![1, 2, 3, 4]),
    );
    let bytes = saver.save_data(b"{\"project_name\":\"demo\"}".to_vec()).unwrap();
    let mut loader = Loader::new();
    assert!(loader.load_bytes(&bytes));
    let game_data = loader.get_directory("gameData").unwrap();
    assert_eq!(game_data.files.len(), 1);
    assert_eq!(game_data.files[0].file_name, "scene.json");
    assert_eq!(game_data.files[0].file_type, LuminaFileType::Json);
    assert_eq!(game_data.files[0].file_content, b"{\"project_name\":\"demo\"}".to_vec());
    let textures = loader.get_directory("textures").unwrap();
    assert_eq!(textures.name, "textures");
    assert_eq!(textures.files[0].file_name, "brick.png");
    assert_eq!(textures.files[0].file_type, LuminaFileType::Png);
    assert_eq!(textures.files[0].file_content, vec![1, 2, 3, 4]);
}

#[test]
fn archive_bytes_are_not_plain() {
    let mut saver: Saver<u32> = Saver::new();
    let bytes = saver.save_data(b"secret-scene".to_vec()).unwrap();
    let plain = b"secret-scene";
    assert!(!bytes.windows(plain.len()).any(|w| w == plain));
}

#[test]
fn scene_document_fields() {
    let mut doc: SceneDocument<u32> = SceneDocument::new();
    assert_eq!(doc.fields.len(), 6);
    doc.modify_project_name("demo");
    assert_eq!(doc.save_file_name(), "./demo.lumin");
    doc.modify_array_value("lights", vec![1, 2, 3]);
    doc.modify_array_value("cameras", vec![9]);
    assert!(!doc.fields.contains_key(&"cameras".to_string()));
    match doc.fields.get(&"lights".to_string()) {
        Some(SceneField::Items(v)) => assert_eq!(*v, vec![1, 2, 3]),
        _ => panic!("lights should be a list"),
    }
    doc.set_light_count(3);
    match doc.fields.get(&"light_count".to_string()) {
        Some(SceneField::Count(n)) => assert_eq!(*n, 3),
        _ => panic!("light_count should be a count"),
    }
    doc.modify_skybox(vec![
        "x".to_string(),
        "-x".to_string(),
        "y".to_string(),
        "-y".to_string(),
        "z".to_string(),
        "-z".to_string(),
    ]);
    match doc.fields.get(&"skybox".to_string()) {
        Some(SceneField::Skybox(faces)) => assert_eq!(faces[1], "-x"),
        _ => panic!("skybox should hold faces"),
    }
}

#[test]
fn saver_tracks_the_project_name() {
    let mut saver: Saver<u32> = Saver::new();
    saver.modify_project_name("level1");
    assert_eq!(saver.json().save_file_name(), "./level1.lumin");
}

#[test]
fn sealing_adds_a_fixed_overhead() {
    let mut saver: Saver<u32> = Saver::new();
    let bytes = saver.save_data(b"{}".to_vec()).unwrap();
    // gameData: name length, sealed name, file count; scene.json: type byte, two lengths,
    // sealed name, sealed content; each sealed piece is 68 bytes longer than its plain form.
    assert_eq!(bytes.len(), 4 + (8 + 68) + 4 + 1 + 4 + 4 + (10 + 68) + (2 + 68));
}

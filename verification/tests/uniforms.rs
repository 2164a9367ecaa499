use lumina::uniforms::{data_type_from_name, default_value, ConvertType, DataType, FieldData, Shader};

fn blocks() -> Vec<(String, Vec<(String, String)>)> {
    vec![
        (
            "Push".to_string(),
            vec![
                ("int".to_string(), "mode".to_string()),
                ("ivec2".to_string(), "cell".to_string()),
                ("float".to_string(), "mode".to_string()),
            ],
        ),
        ("Other".to_string(), vec![("bool".to_string(), "flag".to_string())]),
    ]
}

fn field<'a>(s: &'a Shader, block: &str, i: usize) -> &'a FieldData {
    &s.push_values.get(&block.to_string()).unwrap()[i]
}

#[test]
fn fields_start_without_values() {
    let s = Shader::new("a.vert", "a.frag", &blocks(), &Vec::new(), &Vec::new(), &Vec::new());
    assert_eq!(s.vert_path, "a.vert");
    assert_eq!(s.push_values.len(), 2);
    assert_eq!(s.descriptor_values.len(), 0);
    let f = field(&s, "Push", 1);
    assert_eq!(f.name, "cell");
    assert_eq!(f.data_type, "ivec2");
    assert!(f.value.is_none());
    match Shader::get_field_value(f) {
        Some(ConvertType::IVEC2(v)) => assert_eq!(v, [0, 0]),
        _ => panic!("an unset ivec2 reads as zero"),
    }
}

#[test]
fn set_and_read_back() {
    let mut s = Shader::new("a.vert", "a.frag", &blocks(), &Vec::new(), &Vec::new(), &Vec::new());
    assert!(s.change_uniform_1i("Push.mode", 7).is_ok());
    match Shader::get_field_value(field(&s, "Push", 0)) {
        Some(ConvertType::INT(v)) => assert_eq!(v, 7),
        _ => panic!("mode should read 7"),
    }
    assert!(field(&s, "Push", 2).value.is_none());
    assert!(s.change_uniform("Push.mode", ConvertType::FLOAT(1.5f32.to_bits())).is_ok());
    match Shader::get_field_value(field(&s, "Push", 2)) {
        Some(ConvertType::FLOAT(bits)) => assert_eq!(f32::from_bits(bits), 1.5),
        _ => panic!("the float mode should read 1.5"),
    }
    assert!(s.change_uniform_2i("Push.cell", 1, 2).is_ok());
    match Shader::get_field_value(field(&s, "Push", 1)) {
        Some(ConvertType::IVEC2(v)) => assert_eq!(v, [1, 2]),
        _ => panic!("cell should read (1, 2)"),
    }
    assert!(s.change_uniform_1b("Other.flag", true).is_ok());
}

#[test]
fn unknown_locations_are_errors() {
    let mut s = Shader::new("a.vert", "a.frag", &blocks(), &Vec::new(), &Vec::new(), &Vec::new());
    assert_eq!(s.change_uniform_1u("Push.mode", 3), Err("Failed to get the value!"));
    assert_eq!(s.change_uniform_1i("Missing.mode", 3), Err("Failed to get the value!"));
    assert_eq!(s.change_uniform_1i("Push.nothing", 3), Err("Failed to get the value!"));
    assert_eq!(s.change_uniform_1i("Nowhere", 3), Err("Failed to get the value!"));
    assert!(field(&s, "Push", 0).value.is_none());
}

#[test]
fn type_names() {
    assert_eq!(data_type_from_name(&"mat3".chars().collect()), Some(DataType::MAT3));
    assert_eq!(data_type_from_name(&"vec5".chars().collect()), None);
    let unknown = FieldData { name: "x".to_string(), data_type: "double".to_string(), value: None };
    assert!(Shader::get_field_value(&unknown).is_none());
    match default_value(DataType::MAT4) {
        ConvertType::MAT4(m) => {
            let floats: Vec<f32> = m.iter().map(|b| f32::from_bits(*b)).collect();
            assert_eq!(floats, glam::Mat4::IDENTITY.to_cols_array().to_vec());
        },
        _ => panic!("the default of mat4 is a mat4"),
    }
    match default_value(DataType::MAT2) {
        ConvertType::MAT2(m) => assert_eq!(m, [0x3F80_0000, 0, 0, 0x3F80_0000]),
        _ => panic!("the default of mat2 is a mat2"),
    }
    match default_value(DataType::VEC3) {
        ConvertType::VEC3(v) => assert_eq!(v, [0, 0, 0]),
        _ => panic!("the default of vec3 is a vec3"),
    }
}

#[test]
fn later_blocks_replace_earlier() {
    let bs = vec![
        ("B".to_string(), vec![("int".to_string(), "a".to_string())]),
        ("B".to_string(), vec![("uint".to_string(), "b".to_string())]),
    ];
    let s = Shader::new("v", "f", &bs, &bs, &Vec::new(), &Vec::new());
    assert_eq!(s.push_values.len(), 1);
    assert_eq!(field(&s, "B", 0).name, "b");
    assert_eq!(s.descriptor_values.len(), 1);
}

#[test]
fn values_as_buffer_bytes() {
    let mut b = Vec::new();
    ConvertType::UINT(0x0102_0304).to_bytes(true, &mut b);
    assert_eq!(b, vec![4, 3, 2, 1]);
    let mut b = Vec::new();
    ConvertType::INT(-2).to_bytes(false, &mut b);
    assert_eq!(b, vec![0xff, 0xff, 0xff, 0xfe]);
    let mut b = vec![9];
    ConvertType::BVEC3([true, false, true]).to_bytes(true, &mut b);
    assert_eq!(b, vec![9, 1, 0, 1]);
    let mut b = Vec::new();
    ConvertType::IVEC2([1, -1]).to_bytes(true, &mut b);
    assert_eq!(b, vec![1, 0, 0, 0, 0xff, 0xff, 0xff, 0xff]);
    let mut b = Vec::new();
    ConvertType::MAT2([1, 2, 3, 4]).to_bytes(true, &mut b);
    assert_eq!(b.len(), 16);
    assert_eq!(b[12], 4);
}

#[test]
fn native_order_matches_the_machine() {
    let mut b = Vec::new();
    ConvertType::UVEC2([0x0a0b_0c0d, 7]).to_ne_bytes(&mut b);
    let mut expected = 0x0a0b_0c0du32.to_ne_bytes().to_vec();
    expected.extend_from_slice(&7u32.to_ne_bytes());
    assert_eq!(b, expected);
    let mut f = Vec::new();
    ConvertType::FLOAT(2.5f32.to_bits()).to_ne_bytes(&mut f);
    assert_eq!(f, 2.5f32.to_ne_bytes().to_vec());
}

#[test]
fn vector_setters() {
    let bs = vec![(
        "P".to_string(),
        vec![
            ("uvec2".to_string(), "a".to_string()),
            ("bvec3".to_string(), "b".to_string()),
            ("ivec4".to_string(), "c".to_string()),
            ("uvec3".to_string(), "d".to_string()),
        ],
    )];
    let mut s = Shader::new("v", "f", &bs, &Vec::new(), &Vec::new(), &Vec::new());
    assert!(s.change_uniform_2u("P.a", 1, 2).is_ok());
    assert!(s.change_uniform_bvec3("P.b", [true, false, true]).is_ok());
    assert!(s.change_uniform_4i("P.c", 1, 2, 3, 4).is_ok());
    assert!(s.change_uniform_uvec3("P.d", [7, 8, 9]).is_ok());
    assert!(s.change_uniform_3u("P.a", 1, 2, 3).is_err());
    match Shader::get_field_value(field(&s, "P", 0)) {
        Some(ConvertType::UVEC2(v)) => assert_eq!(v, [1, 2]),
        _ => panic!("a should read (1, 2)"),
    }
    match Shader::get_field_value(field(&s, "P", 2)) {
        Some(ConvertType::IVEC4(v)) => assert_eq!(v, [1, 2, 3, 4]),
        _ => panic!("c should read (1, 2, 3, 4)"),
    }
}

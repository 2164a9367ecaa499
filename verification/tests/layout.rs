use lumina::descriptor::DescriptorKind;
use lumina::layout::{convert_to_size, LayoutField, PushRange, Stages};
use lumina::uniforms::Shader;

fn block(name: &str, pairs: &[(&str, &str)]) -> (String, Vec<(String, String)>) {
    (
        name.to_string(),
        pairs.iter().map(|(t, f)| (t.to_string(), f.to_string())).collect(),
    )
}

fn range(s: &Shader, name: &str) -> Option<PushRange> {
    s.push_fields.get(&name.to_string()).copied()
}

fn layout(s: &Shader, name: &str) -> Option<LayoutField> {
    s.descriptor_fields.get(&name.to_string()).copied()
}

fn size(s: &Shader, key: &str) -> Option<(u8, u16)> {
    s.value_sizes.get(&key.to_string()).copied()
}

#[test]
fn type_sizes() {
    assert_eq!(convert_to_size("float"), 4);
    assert_eq!(convert_to_size("bool"), 4);
    assert_eq!(convert_to_size("ivec2"), 8);
    assert_eq!(convert_to_size("vec3"), 12);
    assert_eq!(convert_to_size("uvec4"), 16);
    assert_eq!(convert_to_size("mat3"), 36);
    assert_eq!(convert_to_size("mat4"), 64);
    assert_eq!(convert_to_size("sampler2D"), 0);
}

#[test]
fn push_ranges_and_offsets() {
    let model = [("mat4", "model"), ("vec3", "color")];
    let vert = vec![block("Model", &model), block("Time", &[("float", "t")])];
    let frag = vec![
        block("Model", &model),
        block("Light", &[("vec4", "c")]),
        block("Empty", &[]),
    ];
    let s = Shader::new("v", "f", &vert, &Vec::new(), &frag, &Vec::new());
    assert_eq!(
        range(&s, "Model"),
        Some(PushRange { stages: Stages::VERTEX_FRAGMENT, offset: 0, size: 76 })
    );
    assert_eq!(range(&s, "Time"), Some(PushRange { stages: Stages::VERTEX, offset: 0, size: 4 }));
    assert_eq!(range(&s, "Light"), Some(PushRange { stages: Stages::FRAGMENT, offset: 0, size: 16 }));
    assert_eq!(range(&s, "Empty"), Some(PushRange { stages: Stages::FRAGMENT, offset: 0, size: 0 }));
    assert_eq!(s.push_fields.len(), 4);
    assert_eq!(size(&s, "PUSH-Model"), Some((76, 0)));
    assert_eq!(size(&s, "PUSH-Time"), Some((4, 76)));
    assert_eq!(size(&s, "PUSH-Light"), Some((16, 80)));
    assert_eq!(size(&s, "PUSH-Empty"), None);
    assert_eq!(s.push_values.len(), 4);
}

#[test]
fn a_fragment_block_unlike_the_vertex_one_takes_over() {
    let vert = vec![block("P", &[("int", "a")])];
    let frag = vec![block("P", &[("vec2", "a")])];
    let s = Shader::new("v", "f", &vert, &Vec::new(), &frag, &Vec::new());
    assert_eq!(range(&s, "P"), Some(PushRange { stages: Stages::FRAGMENT, offset: 0, size: 8 }));
    assert_eq!(size(&s, "PUSH-P"), Some((8, 4)));
    assert_eq!(s.push_values.get(&"P".to_string()).unwrap()[0].data_type, "vec2");
}

#[test]
fn descriptor_layouts_and_sizes() {
    let vert = vec![
        block("Camera", &[("mat4", "view")]),
        block("Tex", &[("sampler2D", "albedo")]),
        block("Shared", &[("vec2", "uv")]),
    ];
    let frag = vec![
        block("Shared", &[("vec2", "uv")]),
        block("Img", &[("samplerCube", "sky")]),
        block("Mat", &[("vec4", "tint")]),
        block("Camera", &[("mat3", "other")]),
        block("Tex", &[("sampler2D", "albedo")]),
    ];
    let s = Shader::new("v", "f", &Vec::new(), &vert, &Vec::new(), &frag);
    let uniform_vertex = LayoutField { kind: DescriptorKind::UNIFORM_BUFFER, stages: Stages::VERTEX };
    assert_eq!(layout(&s, "Camera"), Some(uniform_vertex));
    assert_eq!(
        layout(&s, "Shared"),
        Some(LayoutField { kind: DescriptorKind::UNIFORM_BUFFER, stages: Stages::VERTEX_FRAGMENT })
    );
    assert_eq!(
        layout(&s, "Tex"),
        Some(LayoutField {
            kind: DescriptorKind::COMBINED_IMAGE_SAMPLER,
            stages: Stages::VERTEX_FRAGMENT
        })
    );
    assert_eq!(layout(&s, "Img"), None);
    assert_eq!(layout(&s, "Mat"), Some(uniform_vertex));
    assert_eq!(s.descriptor_fields.len(), 4);
    assert_eq!(size(&s, "DESCRIPTOR-Camera"), Some((36, 0)));
    assert_eq!(size(&s, "DESCRIPTOR-Tex"), Some((0, 0)));
    assert_eq!(size(&s, "DESCRIPTOR-Shared"), Some((8, 0)));
    assert_eq!(size(&s, "DESCRIPTOR-Img"), Some((0, 0)));
    assert_eq!(size(&s, "DESCRIPTOR-Mat"), Some((16, 0)));
    assert_eq!(s.value_sizes.len(), 5);
    assert_eq!(s.descriptor_values.len(), 5);
}

#[test]
fn a_fragment_sampler_keeps_the_vertex_layout() {
    let vert = vec![block("K", &[("vec4", "a")])];
    let frag = vec![block("K", &[("sampler2D", "s")])];
    let s = Shader::new("v", "f", &Vec::new(), &vert, &Vec::new(), &frag);
    assert_eq!(
        layout(&s, "K"),
        Some(LayoutField { kind: DescriptorKind::UNIFORM_BUFFER, stages: Stages::VERTEX })
    );
    assert_eq!(size(&s, "DESCRIPTOR-K"), Some((0, 0)));
    assert_eq!(s.descriptor_values.get(&"K".to_string()).unwrap()[0].data_type, "sampler2D");
}

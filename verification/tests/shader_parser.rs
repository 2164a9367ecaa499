use lumina::shader_parser::{DescriptorData, Parser};

const VERT: &str = "#version 450\n\
layout(location = 0) in vec3 position;\n\
//64\n\
layout(set = 0, binding = 0) uniform GlobalUbo {\n\
    mat4 projection;\n\
} ubo;\n\
layout(push_constant) uniform Push {\n\
    mat4 model;\n\
} push;\n";

const FRAG: &str = "#version 450\n\
//color\n\
layout(binding = 1) uniform sampler2D texSampler;\n\
//cubemap-color\n\
layout(binding = 2) uniform samplerCube sky;\n\
// layout(binding = 3) uniform sampler2D hidden;\n";

#[test]
fn parses_blocks_and_samplers() {
    let mut p = Parser::new();
    assert!(p.parse_shader_sources(VERT, FRAG));
    assert_eq!(p.len(), 3);
    assert_eq!(p.get("GlobalUbo"), Some(DescriptorData { size: 64, binding: 0, value: 0 }));
    assert_eq!(p.get("texSampler"), Some(DescriptorData { size: 0, binding: 1, value: 1 }));
    assert_eq!(p.get("sky"), Some(DescriptorData { size: 0, binding: 2, value: 3 }));
    assert_eq!(p.get("Push"), None);
    assert_eq!(p.get("hidden"), None);
}

#[test]
fn image_kinds_follow_the_annotation() {
    let frag = "//Depth\nlayout(binding = 4) uniform sampler2D shadow;\n\
//cubemap-depth\nlayout(binding = 5) uniform samplerCube far;\n\
//something\nlayout(binding = 6) uniform sampler2D other;\n";
    let mut p = Parser::new();
    assert!(p.parse_shader_sources("", frag));
    assert_eq!(p.get("shadow"), Some(DescriptorData { size: 0, binding: 4, value: 2 }));
    assert_eq!(p.get("far"), Some(DescriptorData { size: 0, binding: 5, value: 4 }));
    assert_eq!(p.get("other"), Some(DescriptorData { size: 0, binding: 6, value: 1 }));
}

#[test]
fn fragment_entries_replace_vertex_entries() {
    let vert = "//16\nlayout(binding = 0) uniform Shared {\n";
    let frag = "//32\nlayout(binding = 3) uniform Shared {\n";
    let mut p = Parser::new();
    assert!(p.parse_shader_sources(vert, frag));
    assert_eq!(p.len(), 1);
    assert_eq!(p.get("Shared"), Some(DescriptorData { size: 32, binding: 3, value: 0 }));
}

#[test]
fn rejected_size_leaves_the_table() {
    let mut p = Parser::new();
    assert!(p.parse_shader_sources(VERT, FRAG));
    let bad = "//big\nlayout(binding = 0) uniform Broken {\n";
    assert!(!p.parse_shader_sources(bad, ""));
    assert_eq!(p.len(), 3);
    assert_eq!(p.get("Broken"), None);
}

#[test]
fn binding_from_words() {
    let words = vec!["layout(set", "=", "0,", "binding", "=", "7)", "uniform", "Ubo", "{"];
    assert_eq!(Parser::get_descriptor_binding(&words), 7);
    let none = vec!["layout(location", "=", "1)", "uniform", "Ubo"];
    assert_eq!(Parser::get_descriptor_binding(&none), 0);
}

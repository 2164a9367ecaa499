use lumina::descriptor::{
    sort_by_binding, BufferPlan, BufferUsage, CurValue, DescriptorKind, DescriptorManager,
    ImageFormat, LayoutBinding, MAX_FRAMES_IN_FLIGHT,
};

fn bindings(m: &DescriptorManager) -> Vec<u32> {
    m.descriptor_positions.iter().map(|p| p.0).collect()
}

#[test]
fn double_loop_sort_orders_by_binding() {
    let mut v = vec![
        (3, true, "c".to_string()),
        (1, false, "a".to_string()),
        (2, true, "b".to_string()),
        (1, true, "d".to_string()),
        (0, false, "e".to_string()),
    ];
    sort_by_binding(&mut v);
    let b: Vec<u32> = v.iter().map(|p| p.0).collect();
    assert_eq!(b, vec![0, 1, 1, 2, 3]);
    let mut names: Vec<String> = v.iter().map(|p| p.2.clone()).collect();
    names.sort();
    assert_eq!(names, vec!["a", "b", "c", "d", "e"]);
}

#[test]
fn new_descriptors_keep_positions_sorted() {
    let mut m = DescriptorManager::new();
    m.add_new_descriptor("light".to_string(), 2, CurValue::UNIFORM_BUFFER, 48, Some(4));
    m.add_new_descriptor("albedo".to_string(), 1, CurValue::COLOR_IMAGE, 0, None);
    m.add_new_descriptor("camera".to_string(), 0, CurValue::UNIFORM_BUFFER, 128, None);
    assert_eq!(bindings(&m), vec![0, 1, 2]);
    assert_eq!(m.descriptor_positions[1], (1, false, "albedo".to_string()));
    assert_eq!(
        m.layout_bindings.get(&2),
        Some(&LayoutBinding { kind: DescriptorKind::UNIFORM_BUFFER, count: 4 })
    );
    assert_eq!(
        m.layout_bindings.get(&1),
        Some(&LayoutBinding { kind: DescriptorKind::COMBINED_IMAGE_SAMPLER, count: 1 })
    );
    let d = m.descriptor_table.get(&"camera".to_string()).unwrap();
    assert_eq!(d.buffer_sizes, (128, 1));
    assert_eq!(d.image_size, (64, 64));
    assert!(d.buffers.is_empty());
}

#[test]
fn a_taken_label_changes_nothing() {
    let mut m = DescriptorManager::new();
    m.add_new_descriptor("ubo".to_string(), 0, CurValue::UNIFORM_BUFFER, 16, None);
    m.add_new_descriptor("ubo".to_string(), 5, CurValue::DEPTH_IMAGE, 0, None);
    assert_eq!(bindings(&m), vec![0]);
    assert_eq!(m.descriptor_table.get(&"ubo".to_string()).unwrap().value, CurValue::UNIFORM_BUFFER);
    assert_eq!(m.layout_bindings.len(), 1);
}

#[test]
fn building_makes_one_buffer_per_frame() {
    let mut m = DescriptorManager::new();
    m.add_new_descriptor("ubo".to_string(), 0, CurValue::UNIFORM_BUFFER, 64, None);
    m.add_new_descriptor("depth".to_string(), 1, CurValue::DEPTH_IMAGE, 0, None);
    m.build_descriptor("ubo", 3);
    m.build_descriptor("depth", 1);
    let u = m.descriptor_table.get(&"ubo".to_string()).unwrap();
    assert_eq!(u.buffers.len(), MAX_FRAMES_IN_FLIGHT);
    assert_eq!(
        u.buffers[0],
        BufferPlan { instance_size: 64, instance_count: 3, usage: BufferUsage::UNIFORM_BUFFER }
    );
    assert_eq!(u.buffer_sizes, (64, 3));
    assert!(u.images.is_empty());
    let d = m.descriptor_table.get(&"depth".to_string()).unwrap();
    assert_eq!(d.buffers[1].instance_size, 64 * 64);
    assert_eq!(d.images.len(), MAX_FRAMES_IN_FLIGHT);
    assert_eq!(d.images[0].format, ImageFormat::D32_SFLOAT);
}

#[test]
fn image_resize_rebuilds_the_image() {
    let mut m = DescriptorManager::new();
    m.add_new_descriptor("sky".to_string(), 0, CurValue::CUBEMAP_COLOR_IMAGE, 0, None);
    m.build_descriptor("sky", 1);
    m.change_image_size("sky", 16, 8);
    let d = m.descriptor_table.get(&"sky".to_string()).unwrap();
    assert_eq!(d.image_size, (16, 8));
    assert_eq!(d.buffers.len(), MAX_FRAMES_IN_FLIGHT);
    assert_eq!(
        d.buffers[0],
        BufferPlan { instance_size: 16 * 8 * 4, instance_count: 6, usage: BufferUsage::TRANSFER_SRC }
    );
    assert!(d.images[0].cubemap);
    assert_eq!(d.images[0].width, 16);
}

#[test]
fn uniform_count_and_writes() {
    let mut m = DescriptorManager::new();
    m.add_new_descriptor("lights".to_string(), 0, CurValue::UNIFORM_BUFFER, 32, None);
    m.build_descriptor("lights", 1);
    m.change_buffer_count("lights", 5);
    assert_eq!(m.layout_bindings.get(&0).unwrap().count, 5);
    let d = m.descriptor_table.get(&"lights".to_string()).unwrap();
    assert_eq!(d.buffers.len(), MAX_FRAMES_IN_FLIGHT);
    assert_eq!(d.buffers[0].instance_count, 5);
    assert_eq!(m.change_buffer_value("lights", 1, 32, 5), Some(true));
    assert_eq!(m.change_buffer_value("lights", 1, 32, 4), Some(false));
    assert_eq!(m.change_buffer_value("missing", 0, 32, 5), None);
}

#[test]
fn value_numbers() {
    assert_eq!(CurValue::CUBEMAP_COLOR_IMAGE.number(), 3);
    assert_eq!(CurValue::from_number(2), Some(CurValue::DEPTH_IMAGE));
    assert_eq!(CurValue::from_number(5), None);
}

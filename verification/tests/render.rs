use andy_clicker_core::registry::ResourceRegistry;
use andy_clicker_core::render::{MainRenderViews, TextureInfo, WgpuData};

#[test]
fn texture_info_keeps_its_size() {
    let info = TextureInfo::new(1600, 900);
    assert_eq!(info, TextureInfo { width: 1600, height: 900 });
    assert_eq!(TextureInfo::default(), TextureInfo { width: 0, height: 0 });
}

#[test]
fn surface_reports_its_size() {
    let gpu = WgpuData::new("device", 1600, 900);
    assert_eq!(gpu.get_screen_size(), (1600, 900));
    assert_eq!(gpu.handles, "device");
}

#[test]
fn resize_takes_a_presentable_size() {
    let mut gpu = WgpuData::new(1u8, 1600, 900);
    assert!(gpu.resize(800, 600));
    assert_eq!(gpu.get_screen_size(), (800, 600));
    assert_eq!(gpu.handles, 1);
    assert!(gpu.resize(1, 1));
    assert_eq!(gpu.get_screen_size(), (1, 1));
}

#[test]
fn resize_ignores_a_zero_side() {
    let mut gpu = WgpuData::new(1u8, 1600, 900);
    assert!(!gpu.resize(0, 600));
    assert_eq!(gpu.get_screen_size(), (1600, 900));
    assert!(!gpu.resize(800, 0));
    assert_eq!(gpu.get_screen_size(), (1600, 900));
    assert!(!gpu.resize(0, 0));
    assert_eq!(gpu.get_screen_size(), (1600, 900));
}

#[test]
fn first_target_is_the_main_screen() {
    let views = MainRenderViews::new("a", "b");
    assert_eq!(*views.get_screen(), "a");
}

#[test]
fn swap_screen_alternates_between_the_two_targets() {
    let mut views = MainRenderViews::new("a", "b");
    {
        let (src, dst) = views.swap_screen();
        assert_eq!((*src, *dst), ("a", "b"));
    }
    assert_eq!(*views.get_screen(), "b");
    {
        let (src, dst) = views.swap_screen();
        assert_eq!((*src, *dst), ("b", "a"));
    }
    assert_eq!(*views.get_screen(), "a");
}

#[test]
fn registry_stores_one_resource_of_each_kind() {
    let mut registry: ResourceRegistry<String> = ResourceRegistry::new();
    assert!(!registry.has_value(1));
    assert_eq!(registry.try_fetch(1), None);
    assert_eq!(registry.insert(1, "invert".to_string()), None);
    assert_eq!(registry.insert(2, "points".to_string()), None);
    assert!(registry.has_value(1));
    assert_eq!(registry.try_fetch(1), Some(&"invert".to_string()));
    assert_eq!(registry.try_fetch(2), Some(&"points".to_string()));
    assert_eq!(registry.try_fetch(3), None);
    assert_eq!(registry.insert(1, "again".to_string()), Some("invert".to_string()));
    assert_eq!(registry.try_fetch(1), Some(&"again".to_string()));
}

#[test]
fn registry_remove_and_clear() {
    let mut registry: ResourceRegistry<u8> = ResourceRegistry::new();
    registry.insert(1, 10);
    registry.insert(2, 20);
    assert_eq!(registry.remove(1), Some(10));
    assert_eq!(registry.remove(1), None);
    assert!(registry.has_value(2));
    registry.clear();
    assert!(!registry.has_value(2));
    assert_eq!(registry.try_fetch(2), None);
}

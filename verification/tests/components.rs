use gloss_renderer::components::{
    CamMode, EnvironmentMap, ImgConfig, LineColorType, MeshColorType, PointColorType, TargetResolution,
    TargetResolutionUpdate,
};
use gloss_renderer::config::{FloorTexture, FloorType, LogLevel, ShadowFilteringMethod};
use gloss_renderer::render::IteratorLight;
use gloss_renderer::selector::{Selector, SelectorPlugin};
use gloss_renderer::serializable::{FromSerializable, SerializableImgConfig, ToSerializable};
use gloss_renderer::window::{WindowPivot, WindowPositionType};

#[test]
fn target_resolution_defaults_to_window_size() {
    let r = TargetResolution::default();
    assert_eq!(r.width, 0);
    assert_eq!(r.height, 0);
    assert_eq!(r.update_mode, TargetResolutionUpdate::WindowSize);
    assert_eq!(TargetResolutionUpdate::default(), TargetResolutionUpdate::WindowSize);
}

#[test]
fn img_config_default_values() {
    let c = ImgConfig::default();
    assert!(c.keep_on_cpu);
    assert!(c.fast_upload);
    assert!(c.generate_mipmaps);
    assert!(!c.mipmap_generation_cpu);
}

#[test]
fn img_config_survives_serialisable_form() {
    let c = ImgConfig { keep_on_cpu: false, fast_upload: true, generate_mipmaps: false, mipmap_generation_cpu: true };
    let s: SerializableImgConfig = c.to_serializable();
    assert_eq!(s, SerializableImgConfig { keep_on_cpu: false, fast_upload: true, generate_mipmaps: false, mipmap_generation_cpu: true });
    let back = ImgConfig::from_serializable(&s);
    assert_eq!(back, c);
}

#[test]
fn mesh_color_codes_roundtrip() {
    let all = [
        MeshColorType::Solid,
        MeshColorType::PerVert,
        MeshColorType::Texture,
        MeshColorType::UV,
        MeshColorType::Normal,
        MeshColorType::NormalViewCoords,
    ];
    for (i, c) in all.iter().enumerate() {
        assert_eq!(c.as_u8() as usize, i);
        assert_eq!(MeshColorType::from_u8(c.as_u8()), Some(*c));
    }
    assert_eq!(MeshColorType::from_u8(6), None);
    assert_eq!(MeshColorType::from_u8(255), None);
}

#[test]
fn point_and_line_color_codes() {
    assert_eq!(PointColorType::Solid.as_u8(), 0);
    assert_eq!(PointColorType::PerVert.as_u8(), 1);
    assert_eq!(PointColorType::from_u8(1), Some(PointColorType::PerVert));
    assert_eq!(PointColorType::from_u8(2), None);
    assert_eq!(LineColorType::Solid.as_u8(), 0);
    assert_eq!(LineColorType::from_u8(0), Some(LineColorType::Solid));
    assert_eq!(LineColorType::from_u8(1), Some(LineColorType::PerVert));
    assert_eq!(LineColorType::from_u8(7), None);
}

#[test]
fn environment_map_keeps_paths() {
    let e = EnvironmentMap::new_from_path("a/diffuse.ktx2", "b/specular.ktx2");
    assert_eq!(e.diffuse_path, "a/diffuse.ktx2");
    assert_eq!(e.specular_path, "b/specular.ktx2");
}

#[test]
fn iterator_light_is_padded_with_zeros() {
    let l = IteratorLight::new(7);
    assert_eq!(l, IteratorLight { light_idx: 7, pad_0: 0, pad_1: 0, pad_2: 0 });
}

#[test]
fn configuration_enums_are_distinct() {
    assert_ne!(CamMode::Rotation, CamMode::Translation);
    assert_ne!(FloorType::Solid, FloorType::Grid);
    assert_ne!(FloorTexture::Untextured, FloorTexture::Checkerboard);
    assert_ne!(ShadowFilteringMethod::Hardware2x2, ShadowFilteringMethod::Castano13);
    assert_ne!(LogLevel::Off, LogLevel::Trace);
    assert_ne!(WindowPivot::LeftTop, WindowPivot::RightBottom);
    assert_ne!(WindowPositionType::Initial, WindowPositionType::Fixed);
}

#[test]
fn selector_starts_empty_and_follows_picks() {
    let mut s = Selector::new();
    assert!(s.current_selected.is_none());
    assert!(Selector::default().current_selected.is_none());
    let o = s.apply_pick(3, Some("mesh".to_string()));
    assert_eq!(o.deselect, None);
    assert_eq!(o.select, Some("mesh".to_string()));
    assert_eq!(s.current_selected, Some("mesh".to_string()));
    let o = s.apply_pick(0, Some("ignored".to_string()));
    assert_eq!(o.deselect, Some("mesh".to_string()));
    assert_eq!(o.select, None);
    assert_eq!(s.current_selected, None);
    let o = s.apply_pick(5, None);
    assert_eq!(o.deselect, None);
    assert_eq!(s.current_selected, None);
}

#[test]
fn selector_plugin_keeps_autorun() {
    assert!(SelectorPlugin::new(true).autorun);
    assert!(!SelectorPlugin::new(false).autorun);
}

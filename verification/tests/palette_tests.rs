use voxelray::palette::{Color, Material, Materials};

#[test]
fn lookup_air_is_fully_transparent() {
    let air = Material::from_id(0);
    assert_eq!(air.color.a, 0);
    assert_eq!(air.color, Color::new(0, 0, 0, 0));
    assert_eq!(Materials::Air.get_properties().color.a, 0);
}

#[test]
fn lookup_is_pure_on_repeated_calls() {
    let mut id: u16 = 0;
    while id < 256 {
        let first = Material::from_id(id as u8);
        let second = Material::from_id(id as u8);
        assert_eq!(first, second);
        id += 1;
    }
}

#[test]
fn unknown_identifiers_resolve_to_air() {
    let mut id: u16 = 7;
    while id < 256 {
        assert_eq!(Material::from_id(id as u8), Material::from_id(0));
        id += 1;
    }
}

#[test]
fn palette_table_matches_lookup() {
    let table = Materials::init_pallete();
    assert_eq!(table.len(), 256);
    let mut id: u16 = 0;
    while id < 256 {
        assert_eq!(table[id as usize], Material::from_id(id as u8));
        id += 1;
    }
}

#[test]
fn assigned_materials_are_opaque() {
    assert_eq!(Materials::Stone.get_properties().color, Color::new(146, 142, 133, 255));
    assert_eq!(Materials::Dirt.get_properties().color, Color::new(139, 69, 19, 255));
    assert_eq!(Materials::Grass.get_properties().color, Color::new(0, 255, 0, 255));
    assert_eq!(Materials::Water.get_properties().color, Color::new(0, 0, 255, 255));
    assert_eq!(Materials::Sand.get_properties().color, Color::new(255, 255, 0, 255));
    assert_eq!(Materials::Wood.get_properties().color, Color::new(216, 181, 137, 255));
}

#[test]
fn weight_mix_averages_by_alpha() {
    let a = Color::new(100, 0, 40, 100);
    let b = Color::new(200, 0, 80, 100);
    let mixed = a.weight_mix(b);
    assert_eq!(mixed, Color::new(150, 0, 60, 200));
}

#[test]
fn weight_mix_saturates_combined_alpha() {
    let a = Color::new(90, 30, 0, 200);
    let b = Color::new(30, 90, 0, 100);
    let mixed = a.weight_mix(b);
    // Channels use the true weights; the combined alpha saturates.
    assert_eq!(mixed.r as u32, (90 * 200 + 30 * 100) / 300);
    assert_eq!(mixed.g as u32, (30 * 200 + 90 * 100) / 300);
    assert_eq!(mixed.a, 255);
}

#[test]
fn weight_mix_of_equal_colors_keeps_channels() {
    let c = Color::new(146, 142, 133, 100);
    let mixed = c.weight_mix(c);
    assert_eq!(mixed.r, 146);
    assert_eq!(mixed.g, 142);
    assert_eq!(mixed.b, 133);
    assert_eq!(mixed.a, 200);
}

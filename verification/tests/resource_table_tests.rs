use newt::drawing::Handle;
use newt::resource_table::ResourceTable;

#[test]
fn resource_table_hands_out_fresh_handles_in_order() {
    let mut table: ResourceTable<String> = ResourceTable::new();

    let surface = table.register_surface("surface".to_string());
    let mask = table.register_mask("mask".to_string());

    assert_eq!(surface, Handle::new(0));
    assert_eq!(mask, Handle::new(1));
    assert_eq!(table.get_surface(surface), "surface".to_string());
    assert_eq!(table.get_mask(mask), "mask".to_string());
}

#[test]
fn resource_table_remembers_glyph_masks() {
    let mut table: ResourceTable<u8> = ResourceTable::new();

    table.register_glyph(65, 1);
    table.register_glyph(66, 2);

    assert_eq!(table.get_mask_id_for_glyph(65), Some(Handle::new(0)));
    assert_eq!(table.get_mask_id_for_glyph(66), Some(Handle::new(1)));
    assert_eq!(table.get_mask_id_for_glyph(67), None);
    assert_eq!(table.get_mask(Handle::new(1)), 2);
}

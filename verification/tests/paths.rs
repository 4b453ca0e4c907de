use relentless_revenge::metadata::asset_loaders::relative_asset_path;

#[test]
fn relative_paths_count_from_the_asset_folder() {
    assert_eq!(relative_asset_path("entities/enemies/goblin.enemy", "goblin.png"), "entities/enemies/goblin.png");
    assert_eq!(relative_asset_path("entities/enemies/goblin.enemy", "../shared/x.png"), "entities/enemies/../shared/x.png");
}

#[test]
fn asset_at_root_has_empty_folder() {
    assert_eq!(relative_asset_path("goblin.enemy", "goblin.png"), "goblin.png");
    assert_eq!(relative_asset_path("", "goblin.png"), "goblin.png");
}

#[test]
fn rooted_paths_count_from_the_asset_root() {
    assert_eq!(relative_asset_path("entities/enemies/goblin.enemy", "/textures/goblin.png"), "textures/goblin.png");
    assert_eq!(relative_asset_path("a.enemy", "/"), "");
}

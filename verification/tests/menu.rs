use bawal_pathfinder::files::select_files;
use bawal_pathfinder::setup::{
    algorithm_options, dropdown_max_scroll, dropdown_visible, select_item, toggle_dropdown,
    ConfigCategory, SelectionItem, SetupConfig,
};
use bawal_pathfinder::states::{AppState, MenuAction, NavStack};
use bawal_pathfinder::text::{replace_text, same_text};

fn names(v: &[&str]) -> Vec<String> {
    v.iter().map(|s| s.to_string()).collect()
}

#[test]
fn select_files_filters_and_sorts() {
    let got = select_files(names(&["b.yaml", "a.urdf", "a.yaml", "C.yaml", "yaml"]), ".yaml");
    assert_eq!(got, names(&["C.yaml", "a.yaml", "b.yaml"]));
}

#[test]
fn select_files_orders_like_string_ord() {
    let input = names(&["ä.urdf", "z.urdf", "ab.urdf", "a.urdf", "é.urdf", "a.urdf"]);
    let mut expected: Vec<String> = input.clone();
    expected.sort();
    assert_eq!(select_files(input, ".urdf"), expected);
    assert!(select_files(Vec::new(), ".urdf").is_empty());
}

#[test]
fn toggle_and_visibility() {
    let open = toggle_dropdown(None, ConfigCategory::MapFile);
    assert_eq!(open, Some(ConfigCategory::MapFile));
    assert!(dropdown_visible(open, ConfigCategory::MapFile));
    assert!(!dropdown_visible(open, ConfigCategory::Urdf));
    assert_eq!(toggle_dropdown(open, ConfigCategory::MapFile), None);
    assert_eq!(toggle_dropdown(open, ConfigCategory::Urdf), Some(ConfigCategory::Urdf));
    assert!(!dropdown_visible(None, ConfigCategory::Algorithm));
}

#[test]
fn toggle_twice_restores_law() {
    for c in [ConfigCategory::Algorithm, ConfigCategory::MapFile, ConfigCategory::Urdf] {
        assert_eq!(toggle_dropdown(toggle_dropdown(None, c), c), None);
        assert_eq!(toggle_dropdown(toggle_dropdown(Some(c), c), c), Some(c));
    }
}

#[test]
fn selecting_items_fills_config_and_closes_dropdown() {
    let mut config = SetupConfig::new();
    let mut active = Some(ConfigCategory::Algorithm);
    assert!(!config.is_ready());
    assert_eq!(config.label(ConfigCategory::Algorithm), "Algorithm : None");
    assert_eq!(config.label(ConfigCategory::MapFile), "Map : None");
    assert_eq!(config.label(ConfigCategory::Urdf), "URDF : None");
    let item = SelectionItem { category: ConfigCategory::Algorithm, value: "UCS".to_string() };
    select_item(&mut config, &mut active, &item);
    assert_eq!(active, None);
    assert_eq!(config.algorithm, "UCS");
    assert!(config.is_item_selected(&item));
    assert!(!config.is_item_selected(&SelectionItem {
        category: ConfigCategory::Algorithm,
        value: "GBFS".to_string()
    }));
    assert!(!config.is_item_selected(&SelectionItem {
        category: ConfigCategory::MapFile,
        value: "UCS".to_string()
    }));
    assert_eq!(config.label(ConfigCategory::Algorithm), "Algorithm : UCS");
    let mut a2 = None;
    select_item(&mut config, &mut a2, &SelectionItem { category: ConfigCategory::MapFile, value: "room.yaml".to_string() });
    assert!(!config.is_ready());
    select_item(&mut config, &mut a2, &SelectionItem { category: ConfigCategory::Urdf, value: "bot.urdf".to_string() });
    assert!(config.is_ready());
    assert_eq!(config.map_name, "room.yaml");
    assert_eq!(config.urdf_model, "bot.urdf");
    assert_eq!(config.algorithm, "UCS");
    assert_eq!(config.label(ConfigCategory::MapFile), "Map : room.yaml");
    assert_eq!(config.value(ConfigCategory::Urdf), "bot.urdf");
}

#[test]
fn algorithms_and_scroll() {
    assert_eq!(algorithm_options(), names(&["AStar", "UCS", "GBFS"]));
    assert_eq!(dropdown_max_scroll(0), 0);
    assert_eq!(dropdown_max_scroll(3), 0);
    assert_eq!(dropdown_max_scroll(5), 0);
    assert_eq!(dropdown_max_scroll(6), 40);
    assert_eq!(dropdown_max_scroll(10), 200);
}

#[test]
fn menu_targets_and_navigation() {
    assert_eq!(MenuAction::Play2D.target(), AppState::AlgorithmSelection2D);
    assert_eq!(MenuAction::Play3D.target(), AppState::Sim3D);
    assert_eq!(AppState::default(), AppState::MainMenu);
    let mut nav = NavStack::new();
    assert_eq!(nav.pop_state(), None);
    assert_eq!(nav.push_state(AppState::AlgorithmSelection2D, AppState::Sim2DLoading), AppState::Sim2DLoading);
    assert_eq!(nav.len(), 1);
    assert_eq!(nav.pop_state(), Some(AppState::AlgorithmSelection2D));
    assert_eq!(nav.len(), 0);
    assert_eq!(nav.pop_state(), None);
}

#[test]
fn text_helpers() {
    assert!(same_text("publish", "publish"));
    assert!(!same_text("publish", "publis"));
    assert!(!same_text("a", "b"));
    assert_eq!(replace_text("a.yaml.yaml", ".yaml", ".png"), "a.png.png");
    assert_eq!(replace_text("aaa", "aa", "b"), "ba");
    assert_eq!(replace_text("plain", ".yaml", ".png"), "plain");
}

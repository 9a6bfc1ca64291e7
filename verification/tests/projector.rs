use projector::data::{default_data, Data};
use projector::path::ancestors;
use projector::projector::Projector;
use projector::table::Table;

fn get_data() -> Data {
    let mut data = default_data();
    data.set("/", "baba".into(), "baz1".into());
    data.set("/", "femto".into(), "is_supreme_soy".into());
    data.set("/baba", "baba".into(), "baz2".into());
    data.set("/baba/baz", "baba".into(), "baz3".into());
    data
}

fn get_projector(pwd: &str) -> Projector {
    Projector::from_config(String::new(), pwd.to_string(), Some(get_data()))
}

fn sorted_entries(table: &Table) -> Vec<(String, String)> {
    let mut entries = table.entries();
    entries.sort();
    entries
}

fn pair(key: &str, value: &str) -> (String, String) {
    (key.to_string(), value.to_string())
}

#[test]
fn get_value() {
    let proj = get_projector("/baba/baz");
    assert_eq!(proj.get_value("baba"), Some(&String::from("baz3")));
    assert_eq!(
        proj.get_value("femto"),
        Some(&String::from("is_supreme_soy"))
    );
}

#[test]
fn set_value() {
    let mut proj = get_projector("/baba/baz");
    proj.set_value("baba".into(), "baz4".into());
    proj.set_value("femto".into(), "is_not_soy".into());

    assert_eq!(proj.get_value("baba"), Some(&String::from("baz4")));
    assert_eq!(proj.get_value("femto"), Some(&String::from("is_not_soy")));
}

#[test]
fn remove_value() {
    let mut proj = get_projector("/baba/baz");
    proj.remove_value("baba");
    proj.remove_value("femto");

    assert_eq!(proj.get_value("baba"), Some(&String::from("baz2")));
    assert_eq!(
        proj.get_value("femto"),
        Some(&String::from("is_supreme_soy"))
    );
}

#[test]
fn get_value_all_merges_deepest_wins() {
    let proj = get_projector("/baba/baz");
    let all = proj.get_value_all();
    assert_eq!(all.len(), 2);
    assert_eq!(
        sorted_entries(&all),
        vec![pair("baba", "baz3"), pair("femto", "is_supreme_soy")]
    );
}

#[test]
fn get_value_all_from_middle_and_root() {
    let all = get_projector("/baba").get_value_all();
    assert_eq!(
        sorted_entries(&all),
        vec![pair("baba", "baz2"), pair("femto", "is_supreme_soy")]
    );
    let all = get_projector("/").get_value_all();
    assert_eq!(
        sorted_entries(&all),
        vec![pair("baba", "baz1"), pair("femto", "is_supreme_soy")]
    );
}

#[test]
fn get_value_missing_key_is_none() {
    let proj = get_projector("/baba/baz");
    assert_eq!(proj.get_value("nothing"), None);
    assert_eq!(proj.get_value("bab"), None);
    assert_eq!(proj.get_value(""), None);
}

#[test]
fn get_value_ignores_descendants_and_siblings() {
    let proj = get_projector("/baba");
    assert_eq!(proj.get_value("baba"), Some(&String::from("baz2")));
    let proj = get_projector("/other/place");
    assert_eq!(proj.get_value("baba"), Some(&String::from("baz1")));
    let proj = get_projector("/bab");
    assert_eq!(proj.get_value("baba"), Some(&String::from("baz1")));
}

#[test]
fn get_value_agrees_with_get_value_all() {
    for pwd in ["/", "/baba", "/baba/baz", "/baba/baz/deeper", "/elsewhere", "relative/dir", ""] {
        let proj = get_projector(pwd);
        let all = proj.get_value_all();
        for key in ["baba", "femto", "absent", ""] {
            assert_eq!(proj.get_value(key), all.get(key));
        }
    }
}

#[test]
fn set_value_shadows_ancestor() {
    let mut proj = get_projector("/baba/baz/new");
    assert_eq!(proj.get_value("baba"), Some(&String::from("baz3")));
    proj.set_value("baba".into(), "mine".into());
    assert_eq!(proj.get_value("baba"), Some(&String::from("mine")));
    assert_eq!(
        proj.data().get("/baba/baz").and_then(|t| t.get("baba")),
        Some(&String::from("baz3"))
    );
    assert_eq!(
        proj.data().get("/baba/baz/new").and_then(|t| t.get("baba")),
        Some(&String::from("mine"))
    );
}

#[test]
fn set_value_touches_current_directory_only() {
    let mut proj = get_projector("/baba");
    proj.set_value("femto".into(), "local".into());
    let data = proj.data();
    assert_eq!(
        data.get("/").and_then(|t| t.get("femto")),
        Some(&String::from("is_supreme_soy"))
    );
    assert_eq!(
        data.get("/baba").and_then(|t| t.get("femto")),
        Some(&String::from("local"))
    );
    assert_eq!(data.get("/baba/baz").and_then(|t| t.get("femto")), None);
}

#[test]
fn remove_value_reveals_closest_ancestor() {
    let mut proj = get_projector("/baba/baz");
    proj.remove_value("baba");
    assert_eq!(proj.get_value("baba"), Some(&String::from("baz2")));
    assert_eq!(
        proj.data().get("/baba").and_then(|t| t.get("baba")),
        Some(&String::from("baz2"))
    );
    assert_eq!(
        proj.data().get("/").and_then(|t| t.get("baba")),
        Some(&String::from("baz1"))
    );
}

#[test]
fn remove_value_of_ancestor_key_changes_nothing() {
    let mut proj = get_projector("/baba/baz");
    let before = sorted_entries(&proj.get_value_all());
    proj.remove_value("femto");
    assert_eq!(
        proj.get_value("femto"),
        Some(&String::from("is_supreme_soy"))
    );
    assert_eq!(sorted_entries(&proj.get_value_all()), before);
    let mut dirs = proj.data().directories();
    dirs.sort();
    assert_eq!(dirs, vec!["/", "/baba", "/baba/baz"]);
}

#[test]
fn remove_value_at_unknown_directory_changes_nothing() {
    let mut proj = get_projector("/nowhere");
    proj.remove_value("baba");
    assert_eq!(proj.get_value("baba"), Some(&String::from("baz1")));
    assert!(proj.data().get("/nowhere").is_none());
}

#[test]
fn remove_value_without_ancestor_definition_gives_none() {
    let mut proj = Projector::from_config(String::new(), "/a/b".to_string(), None);
    proj.set_value("k".into(), "v".into());
    assert_eq!(proj.get_value("k"), Some(&String::from("v")));
    proj.remove_value("k");
    assert_eq!(proj.get_value("k"), None);
}

#[test]
fn from_config_without_stored_data_is_empty() {
    let proj = Projector::from_config("/store.json".to_string(), "/baba".to_string(), None);
    assert_eq!(proj.config(), "/store.json");
    assert_eq!(proj.pwd(), "/baba");
    assert!(proj.data().directories().is_empty());
    assert_eq!(proj.get_value("baba"), None);
    assert_eq!(proj.get_value_all().len(), 0);
}

#[test]
fn from_config_keeps_stored_data() {
    let proj = Projector::from_config("c".to_string(), "/baba".to_string(), Some(get_data()));
    assert_eq!(proj.data().directories().len(), 3);
    assert_eq!(proj.get_value("baba"), Some(&String::from("baz2")));
}

#[test]
fn save_dir_is_parent_of_location() {
    let proj = Projector::from_config(
        "/home/user/projector/projector.json".to_string(),
        "/".to_string(),
        None,
    );
    assert_eq!(proj.save_dir(), Some("/home/user/projector"));
    let proj = Projector::from_config("/".to_string(), "/".to_string(), None);
    assert_eq!(proj.save_dir(), None);
    let proj = Projector::from_config("store.json".to_string(), "/".to_string(), None);
    assert_eq!(proj.save_dir(), Some(""));
}

#[test]
fn ancestors_run_from_directory_to_root() {
    assert_eq!(ancestors("/baba/baz"), vec!["/baba/baz", "/baba", "/"]);
    assert_eq!(ancestors("/"), vec!["/"]);
    assert_eq!(ancestors("a/b"), vec!["a/b", "a", ""]);
    assert_eq!(ancestors(""), vec![""]);
}

#[test]
fn lookup_along_takes_first_defining_directory() {
    let data = get_data();
    let chain = vec!["/baba/baz", "/baba", "/"];
    assert_eq!(data.lookup_along(&chain, "baba"), Some(&String::from("baz3")));
    assert_eq!(
        data.lookup_along(&chain, "femto"),
        Some(&String::from("is_supreme_soy"))
    );
    assert_eq!(data.lookup_along(&chain, "absent"), None);
    let reversed = vec!["/", "/baba", "/baba/baz"];
    assert_eq!(data.lookup_along(&reversed, "baba"), Some(&String::from("baz1")));
    let unknown_first = vec!["/unknown", "/baba"];
    assert_eq!(
        data.lookup_along(&unknown_first, "baba"),
        Some(&String::from("baz2"))
    );
    let none: Vec<&str> = Vec::new();
    assert_eq!(data.lookup_along(&none, "baba"), None);
}

#[test]
fn merge_along_lets_earlier_directory_win() {
    let data = get_data();
    let merged = data.merge_along(&vec!["/baba", "/"]);
    assert_eq!(
        sorted_entries(&merged),
        vec![pair("baba", "baz2"), pair("femto", "is_supreme_soy")]
    );
    let merged = data.merge_along(&vec!["/", "/baba"]);
    assert_eq!(
        sorted_entries(&merged),
        vec![pair("baba", "baz1"), pair("femto", "is_supreme_soy")]
    );
    let merged = data.merge_along(&Vec::new());
    assert_eq!(merged.len(), 0);
}

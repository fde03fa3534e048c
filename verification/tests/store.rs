use dockman::model::{ComposeDir, HostConfig};
use dockman::store::{last_path_segment, HostStore, StoreError};

fn host(id: &str, label: &str) -> HostConfig {
    HostConfig {
        id: id.to_string(),
        ssh_alias: id.to_string(),
        label: label.to_string(),
        compose_dirs: vec![],
    }
}

#[test]
fn get_finds_the_upserted_host() {
    let mut s = HostStore::new(vec![]);
    s.upsert(host("a", "A"));
    s.upsert(host("b", "B"));
    assert_eq!(s.get("a"), Some(host("a", "A")));
    s.upsert(host("a", "A2"));
    assert_eq!(s.get("a"), Some(host("a", "A2")));
    assert_eq!(s.get("b"), Some(host("b", "B")));
    assert_eq!(s.list(), vec![host("a", "A2"), host("b", "B")]);
    assert_eq!(s.get("c"), None);
}

#[test]
fn upsert_twice_is_upsert_once() {
    let mut s = HostStore::new(vec![host("a", "A")]);
    s.upsert(host("b", "B"));
    let once = s.list();
    s.upsert(host("b", "B"));
    assert_eq!(s.list(), once);
}

#[test]
fn remove_drops_every_host_with_the_id() {
    let mut s = HostStore::new(vec![host("a", "1"), host("b", "2"), host("a", "3")]);
    s.remove("a");
    assert_eq!(s.get("a"), None);
    assert_eq!(s.list(), vec![host("b", "2")]);
    s.remove("zzz");
    assert_eq!(s.list(), vec![host("b", "2")]);
}

#[test]
fn replace_all_replaces_the_list() {
    let mut s = HostStore::new(vec![host("a", "1")]);
    s.replace_all(vec![host("x", "X"), host("y", "Y")]);
    assert_eq!(s.list(), vec![host("x", "X"), host("y", "Y")]);
}

#[test]
fn add_host_uses_the_alias_as_id() {
    let mut s = HostStore::new(vec![]);
    s.add_host("cachyos-box".to_string(), "Desktop".to_string());
    assert_eq!(s.get("cachyos-box"), Some(host("cachyos-box", "Desktop")));
}

#[test]
fn add_compose_dir_defaults_the_label_to_the_last_segment() {
    let mut s = HostStore::new(vec![host("a", "A")]);
    assert_eq!(s.add_compose_dir("a", "/home/jim/docker/nextcloud".to_string(), String::new()), Ok(()));
    assert_eq!(s.add_compose_dir("a", "/srv/app".to_string(), "App".to_string()), Ok(()));
    let h = s.get("a").unwrap();
    assert_eq!(
        h.compose_dirs,
        vec![
            ComposeDir {
                id: "/home/jim/docker/nextcloud".to_string(),
                path: "/home/jim/docker/nextcloud".to_string(),
                label: "nextcloud".to_string(),
            },
            ComposeDir {
                id: "/srv/app".to_string(),
                path: "/srv/app".to_string(),
                label: "App".to_string(),
            },
        ]
    );
    assert_eq!(s.add_compose_dir("nope", "/x".to_string(), String::new()), Err(StoreError::UnknownHost));
}

#[test]
fn last_segment_of_paths() {
    assert_eq!(last_path_segment("/a/b/c"), "c");
    assert_eq!(last_path_segment("relative"), "relative");
    assert_eq!(last_path_segment("/a/b/"), "");
}

#[test]
fn remove_compose_dir_keeps_the_others() {
    let mut s = HostStore::new(vec![host("a", "A")]);
    s.add_compose_dir("a", "/x".to_string(), String::new()).unwrap();
    s.add_compose_dir("a", "/y".to_string(), String::new()).unwrap();
    assert_eq!(s.remove_compose_dir("a", "/x"), Ok(()));
    let h = s.get("a").unwrap();
    assert_eq!(h.compose_dirs.len(), 1);
    assert_eq!(h.compose_dirs[0].id, "/y");
    assert_eq!(s.remove_compose_dir("b", "/y"), Err(StoreError::UnknownHost));
}

#[test]
fn find_stack_reports_what_is_unknown() {
    let mut s = HostStore::new(vec![host("a", "A")]);
    s.add_compose_dir("a", "/x".to_string(), "X".to_string()).unwrap();
    let (h, d) = s.find_stack("a", "/x").unwrap();
    assert_eq!(h.id, "a");
    assert_eq!(d.label, "X");
    assert_eq!(s.find_stack("a", "/nope").err(), Some(StoreError::UnknownComposeDir));
    assert_eq!(s.find_stack("b", "/x").err(), Some(StoreError::UnknownHost));
    assert_eq!(StoreError::UnknownHost.message(), "unknown host");
    assert_eq!(StoreError::UnknownComposeDir.message(), "unknown compose dir");
}

#[test]
fn stacks_lists_every_directory_host_by_host() {
    let mut s = HostStore::new(vec![host("a", "A"), host("b", "B"), host("c", "C")]);
    s.add_compose_dir("a", "/1".to_string(), String::new()).unwrap();
    s.add_compose_dir("c", "/2".to_string(), String::new()).unwrap();
    s.add_compose_dir("a", "/3".to_string(), String::new()).unwrap();
    let pairs: Vec<(String, String)> = s.stacks().into_iter().map(|(h, d)| (h.id, d.id)).collect();
    assert_eq!(
        pairs,
        vec![
            ("a".to_string(), "/1".to_string()),
            ("a".to_string(), "/3".to_string()),
            ("c".to_string(), "/2".to_string()),
        ]
    );
}

#[test]
fn removing_a_new_host_gives_back_the_list() {
    let before = vec![host("a", "A"), host("b", "B")];
    let mut s = HostStore::new(before.clone());
    s.add_host("c".to_string(), "c".to_string());
    s.remove("c");
    assert_eq!(s.list(), before);
}

#[test]
fn ids_stay_unique_through_edits() {
    let mut s = HostStore::new(vec![]);
    for (id, label) in [("a", "1"), ("b", "2"), ("a", "3"), ("c", "4"), ("b", "5")] {
        s.upsert(host(id, label));
    }
    s.remove("c");
    let ids: Vec<String> = s.list().into_iter().map(|h| h.id).collect();
    assert_eq!(ids, vec!["a".to_string(), "b".to_string()]);
    assert_eq!(s.get("a").unwrap().label, "3");
    assert_eq!(s.get("b").unwrap().label, "5");
}

#[test]
fn empty_host_label_defaults_to_the_alias() {
    let mut s = HostStore::new(vec![]);
    s.add_host("nas".to_string(), String::new());
    assert_eq!(s.get("nas"), Some(host("nas", "nas")));
}

#[test]
fn adding_a_directory_again_replaces_it() {
    let mut s = HostStore::new(vec![host("a", "A")]);
    s.add_compose_dir("a", "/x".to_string(), "first".to_string()).unwrap();
    s.add_compose_dir("a", "/y".to_string(), String::new()).unwrap();
    s.add_compose_dir("a", "/x".to_string(), "second".to_string()).unwrap();
    let h = s.get("a").unwrap();
    let ids: Vec<&str> = h.compose_dirs.iter().map(|d| d.id.as_str()).collect();
    assert_eq!(ids, vec!["/x", "/y"]);
    assert_eq!(h.compose_dirs[0].label, "second");
}

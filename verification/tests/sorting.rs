use dockman::compose::{unique_images, RawService};
use dockman::sorting::sorted_unique;

#[test]
fn sorted_unique_sorts_like_strings() {
    let items: Vec<String> = ["b", "a", "ab", "a", "", "é", "z"].iter().map(|s| s.to_string()).collect();
    let mut expected = items.clone();
    expected.sort();
    expected.dedup();
    assert_eq!(sorted_unique(items), expected);
}

#[test]
fn images_are_checked_once_each() {
    let svc = |image: &str| {
        RawService {
            name: String::new(),
            service: String::new(),
            image: image.to_string(),
            state: String::new(),
            status: String::new(),
            health: String::new(),
            ports: String::new(),
            publishers: vec![],
        }
        .into_service()
    };
    let services = vec![svc("redis:7"), svc("app:1"), svc("redis:7"), svc("app:1")];
    assert_eq!(unique_images(&services), vec!["app:1", "redis:7"]);
}

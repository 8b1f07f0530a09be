use runix_update::bootctl::Version;
use runix_update::deployment::{
    image_name, kept_names, Action, Deployment, Event, GcStats, Pull, Subject,
};
use std::collections::{HashMap, HashSet};

fn v() -> Version {
    Version::new(7, 0, 11)
}

#[test]
fn images_are_named_by_version() {
    assert_eq!(image_name(&v()), "core-7.0.11");
    let keep = [
        Deployment { version: v(), verity_id: "x".into() },
        Deployment { version: Version::new(7, 1, 0), verity_id: String::new() },
    ];
    assert_eq!(kept_names(&keep), vec!["core-7.0.11".to_string(), "core-7.1.0".to_string()]);
    assert!(kept_names(&[]).is_empty());
}

#[test]
fn mounts_prefer_the_verity_hash() {
    let mut d = Deployment { version: v(), verity_id: "abcd".into() };
    assert_eq!(d.mount_key(), "abcd");
    d.verity_id.clear();
    assert_eq!(d.mount_key(), "refs/core-7.0.11");
}

#[test]
fn gc_stats_begin_at_zero() {
    let s = GcStats::default();
    assert_eq!((s.objects_removed, s.bytes_freed), (0, 0));
}

/// A source of objects and a repository, in memory. The id of an object is its
/// content.
struct World {
    remote: HashMap<String, String>,
    objects: HashSet<String>,
    refs: Vec<String>,
    fetched: Vec<String>,
}

impl World {
    fn fetch(&mut self, id: &str) -> String {
        self.fetched.push(id.to_string());
        let content = self.remote.get(id).cloned().unwrap_or_else(|| id.to_string());
        self.objects.insert(content.clone());
        content
    }

    fn run(&mut self, pull: &mut Pull) -> Action {
        let mut action = pull.action();
        loop {
            let event = match action {
                Action::ImportImage { id, name } => {
                    assert_eq!(name, "core-7.0.11");
                    Event::ImageImported(self.fetch(&id))
                }
                Action::List(id) => {
                    assert_eq!(id, "image");
                    Event::Listed(self.refs.clone())
                }
                Action::Look(id) => Event::Found(self.objects.contains(&id)),
                Action::ImportObject(id) => Event::ObjectImported(self.fetch(&id)),
                done => return done,
            };
            action = pull.step(event);
        }
    }
}

fn world(refs: &[&str], present: &[&str]) -> World {
    World {
        remote: HashMap::new(),
        objects: present.iter().map(|s| s.to_string()).collect(),
        refs: refs.iter().map(|s| s.to_string()).collect(),
        fetched: vec![],
    }
}

#[test]
fn pull_fetches_what_is_missing() {
    let mut w = world(&["a", "b", "c"], &["b"]);
    let mut pull = Pull::new(v(), "image");
    match w.run(&mut pull) {
        Action::Finish(d) => {
            assert_eq!((d.version, d.verity_id.as_str()), (v(), "image"));
        }
        _ => panic!("not finished"),
    }
    assert_eq!(w.fetched, vec!["image", "a", "c"]);
    assert_eq!(pull.summary(), "pull core-7.0.11: 2 fetched, 1 already present, 3 total");
    for id in ["a", "b", "c"] {
        assert!(w.objects.contains(id));
    }
}

#[test]
fn pull_of_an_image_without_objects_finishes() {
    let mut w = world(&[], &[]);
    let mut pull = Pull::new(v(), "image");
    assert!(matches!(w.run(&mut pull), Action::Finish(_)));
    assert_eq!(pull.summary(), "pull core-7.0.11: 0 fetched, 0 already present, 0 total");
}

#[test]
fn pull_refuses_another_image() {
    let mut w = world(&["a"], &[]);
    w.remote.insert("image".into(), "forged".into());
    let mut pull = Pull::new(v(), "image");
    match w.run(&mut pull) {
        Action::Refuse(r) => {
            assert_eq!(r.subject, Subject::Image);
            assert_eq!(
                r.message(),
                "image verity mismatch: got forged, expected image (refusing)"
            );
        }
        _ => panic!("not refused"),
    }
    assert_eq!(w.fetched, vec!["image"]);
}

#[test]
fn pull_refuses_another_object() {
    let mut w = world(&["a", "b", "c"], &[]);
    w.remote.insert("b".into(), "forged".into());
    let mut pull = Pull::new(v(), "image");
    match w.run(&mut pull) {
        Action::Refuse(r) => {
            assert_eq!(r.subject, Subject::Object);
            assert_eq!(r.message(), "object verity mismatch: got forged, expected b (refusing)");
        }
        _ => panic!("not refused"),
    }
    assert_eq!(w.fetched, vec!["image", "a", "b"]);
    assert!(matches!(pull.action(), Action::Refuse(_)));
}

#[test]
fn different_versions_have_different_names() {
    let names: HashSet<String> = [(1, 11, 1), (11, 1, 1), (1, 1, 11), (1, 1, 1)]
        .iter()
        .map(|&(a, b, c)| image_name(&Version::new(a, b, c)))
        .collect();
    assert_eq!(names.len(), 4);
}

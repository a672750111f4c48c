use fabled::synth::{
    front_sign, is_stack_cover, stack_base_stem, uses_back_anchor, StemPlacement, SynthCatalog,
};

fn placement(front: &str, snap: &str, stack_on: Option<&str>) -> StemPlacement {
    StemPlacement {
        class: "prop".to_string(),
        front: front.to_string(),
        snap: snap.to_string(),
        deck_y: "deck".to_string(),
        stack_on: stack_on.map(|s| s.to_string()),
    }
}

fn beds() -> SynthCatalog {
    let mut c = SynthCatalog::new();
    c.insert("bed-single".to_string(), placement("+z", "back_z", None));
    c.insert("bed-single-cover".to_string(), placement("+z", "stack", Some("bed-single")));
    c.insert("chair".to_string(), placement("+z", "cell", None));
    c.insert("locker".to_string(), placement("-z", "back_z", None));
    c
}

#[test]
fn bed_cover_has_no_back_anchor() {
    let catalog = beds();
    assert!(!uses_back_anchor(&catalog, "bed-single-cover"));
    assert!(uses_back_anchor(&catalog, "bed-single"));
}

#[test]
fn cover_stacks_on_its_bed() {
    let catalog = beds();
    assert!(is_stack_cover(&catalog, "bed-single-cover"));
    assert!(!is_stack_cover(&catalog, "bed-single"));
    assert_eq!(stack_base_stem(&catalog, "bed-single-cover"), Some("bed-single"));
    assert_eq!(stack_base_stem(&catalog, "bed-single"), None);
    assert_eq!(stack_base_stem(&catalog, "unknown"), None);
}

#[test]
fn chair_faces_plus_z_at_zero_yaw() {
    let catalog = beds();
    assert_eq!(front_sign(&catalog, "chair"), 1);
}

#[test]
fn front_sign_follows_the_catalogue() {
    let catalog = beds();
    assert_eq!(front_sign(&catalog, "locker"), -1);
    assert_eq!(front_sign(&catalog, "bed-single"), 1);
    assert_eq!(front_sign(&catalog, "unknown"), 1);
}

#[test]
fn later_entry_replaces_earlier() {
    let mut catalog = beds();
    catalog.insert("bed-single".to_string(), placement("+z", "cell", None));
    assert!(!uses_back_anchor(&catalog, "bed-single"));
}

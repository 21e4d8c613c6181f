use buildy::color::{Color, ColorPicker};
use buildy::config::label_targets;
use buildy::target::{RunOptions, Target};

fn target() -> Target {
    Target {
        depends_on: Vec::new(),
        watch_list: Vec::new(),
        build_list: Vec::new(),
        run_list: Vec::new(),
        run_options: RunOptions::default(),
        name: None,
        color: None,
    }
}

fn names(count: usize) -> Vec<String> {
    (0..count).map(|i| format!("target-{}", i)).collect()
}

#[test]
fn new_names_get_the_colors_in_turn() {
    let mut picker = ColorPicker::new();
    assert_eq!(picker.get("a"), Color { red: 2, green: 63, blue: 165 });
    assert_eq!(picker.get("b"), Color { red: 125, green: 135, blue: 185 });
    assert_eq!(picker.get("c"), Color { red: 187, green: 119, blue: 132 });
}

#[test]
fn a_name_keeps_its_color() {
    let mut picker = ColorPicker::new();
    let first = picker.get("a");
    picker.get("b");
    picker.get("c");
    assert_eq!(picker.get("a"), first);
    assert_eq!(picker.get("d"), Color { red: 142, green: 6, blue: 59 });
}

#[test]
fn the_palette_starts_over() {
    let mut picker = ColorPicker::new();
    let colors: Vec<Color> = names(18).iter().map(|name| picker.get(name)).collect();
    assert_eq!(colors[16], Color { red: 247, green: 156, blue: 212 });
    assert_eq!(colors[17], colors[0]);
    assert_eq!(picker.get("target-17"), colors[0]);
}

#[test]
fn names_asked_for_again_use_up_no_color() {
    let mut picker = ColorPicker::new();
    for name in ["a", "b", "a", "a", "b", "c", "a"] {
        picker.get(name);
    }
    assert_eq!(picker.get("d"), Color { red: 142, green: 6, blue: 59 });
    for name in names(14) {
        picker.get(&name);
        picker.get("b");
    }
    assert_eq!(picker.get("e"), picker.get("b"));
}

#[test]
fn as_many_names_as_colors_have_different_colors() {
    let mut picker = ColorPicker::new();
    let colors: Vec<Color> = names(17).iter().map(|name| picker.get(name)).collect();
    for i in 0..17 {
        for j in 0..i {
            assert_ne!(colors[i], colors[j]);
        }
    }
}

#[test]
fn targets_are_labelled_in_the_order_of_their_names() {
    let labelled = label_targets(vec![
        ("web".to_string(), target()),
        ("api".to_string(), target()),
        ("\u{e9}t\u{e9}".to_string(), target()),
        ("Zoo".to_string(), target()),
        ("ap".to_string(), target()),
    ]);
    let order: Vec<&str> = labelled.iter().map(|(name, _)| name.as_str()).collect();
    assert_eq!(order, vec!["Zoo", "ap", "api", "web", "\u{e9}t\u{e9}"]);
    let mut picker = ColorPicker::new();
    for (name, labelled_target) in labelled.iter() {
        assert_eq!(labelled_target.name.as_ref(), Some(name));
        assert_eq!(labelled_target.color, Some(picker.get(name)));
    }
}

#[test]
fn labels_do_not_depend_on_the_order_of_the_targets() {
    let mut api = target();
    api.build_list.push("make api".to_string());
    let one = label_targets(vec![
        ("web".to_string(), target()),
        ("api".to_string(), api.clone()),
    ]);
    let other = label_targets(vec![
        ("api".to_string(), api),
        ("web".to_string(), target()),
    ]);
    assert_eq!(one, other);
    assert_eq!(one[0].1.build_list, vec!["make api".to_string()]);
}

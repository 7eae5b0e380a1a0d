use bootflatten::{
    flatten, flatten_with_notifications, BootSpecification, BootableToplevel, FlattenError,
    Generation, Notification, Specialisation, SpecificationV1,
};

fn spec(label: &str, toplevel: &str, children: Vec<Specialisation>) -> SpecificationV1 {
    SpecificationV1 {
        label: label.to_string(),
        kernel: format!("{toplevel}/kernel"),
        kernel_params: vec!["init=/init".to_string(), "quiet".to_string()],
        init: format!("{toplevel}/init"),
        initrd: Some(format!("{toplevel}/initrd")),
        toplevel: toplevel.to_string(),
        specialisations: children,
    }
}

fn child(name: &str, s: SpecificationV1) -> Specialisation {
    Specialisation { name: name.to_string(), specification: BootSpecification::V1(s) }
}

fn generation(index: u64, profile: &str, s: SpecificationV1) -> Generation {
    Generation { index, profile: profile.to_string(), specification: BootSpecification::V1(s) }
}

fn labels(es: &[BootableToplevel]) -> Vec<String> {
    es.iter().map(|e| e.label.clone()).collect()
}

fn names(es: &[BootableToplevel]) -> Vec<Option<String>> {
    es.iter().map(|e| e.specialisation_name.clone()).collect()
}

#[test]
fn single_generation_without_specialisations() {
    let g = generation(5, "system", spec("Gen5", "/nix/store/gen5", vec![]));
    let es = flatten(vec![g]).unwrap();
    assert_eq!(es.len(), 1);
    let e = &es[0];
    assert_eq!(e.label, "Gen5");
    assert_eq!(e.specialisation_name, None);
    assert_eq!(e.generation_index, 5);
    assert_eq!(e.profile_name, "system");
    assert_eq!(e.kernel, "/nix/store/gen5/kernel");
    assert_eq!(e.kernel_params, vec!["init=/init".to_string(), "quiet".to_string()]);
    assert_eq!(e.init, "/nix/store/gen5/init");
    assert_eq!(e.initrd, Some("/nix/store/gen5/initrd".to_string()));
    assert_eq!(e.toplevel, "/nix/store/gen5");
}

#[test]
fn one_specialisation_follows_its_parent() {
    let root = spec("NixOS", "/nix/store/gen7", vec![child("safe-mode", spec("SafeMode", "/nix/store/safe", vec![]))]);
    let g = generation(7, "system", root);
    let (es, notices) = flatten_with_notifications(&vec![g]).unwrap();
    assert_eq!(labels(&es), vec!["NixOS", "SafeMode"]);
    assert_eq!(names(&es), vec![None, Some("safe-mode".to_string())]);
    assert_eq!(es[0].generation_index, 7);
    assert_eq!(es[1].generation_index, 7);
    assert_eq!(es[1].toplevel, "/nix/store/safe");
    assert_eq!(notices.len(), 1);
    assert_eq!(notices[0].name, "safe-mode");
    assert_eq!(notices[0].parent_toplevel, "/nix/store/gen7");
    assert_eq!(notices[0].toplevel, "/nix/store/safe");
}

#[test]
fn notice_message_text() {
    let n = Notification {
        name: "safe-mode".to_string(),
        parent_toplevel: "/nix/store/gen7".to_string(),
        toplevel: "/nix/store/safe".to_string(),
    };
    assert_eq!(
        n.message(),
        "Flattening specialisation 'safe-mode' of toplevel /nix/store/gen7: /nix/store/safe"
    );
}

#[test]
fn flat_generations_keep_input_order() {
    let gs = vec![
        generation(3, "system", spec("C", "/c", vec![])),
        generation(1, "system", spec("A", "/a", vec![])),
        generation(2, "work", spec("B", "/b", vec![])),
    ];
    let es = flatten(gs).unwrap();
    assert_eq!(labels(&es), vec!["C", "A", "B"]);
    assert_eq!(names(&es), vec![None, None, None]);
    let idx: Vec<u64> = es.iter().map(|e| e.generation_index).collect();
    assert_eq!(idx, vec![3, 1, 2]);
    assert_eq!(es[2].profile_name, "work");
}

#[test]
fn flat_generation_maps_to_its_own_entry() {
    let g = generation(9, "p", spec("L", "/t", vec![]));
    let es = flatten(vec![g]).unwrap();
    assert_eq!(es.len(), 1);
    assert_eq!(es[0].label, "L");
    assert_eq!(es[0].toplevel, "/t");
    assert_eq!(es[0].generation_index, 9);
    assert_eq!(es[0].profile_name, "p");
    assert_eq!(es[0].specialisation_name, None);
}

fn nested_tree() -> Generation {
    // root
    //   a
    //     deep
    //   b
    //     a
    let a = spec("A", "/a", vec![child("deep", spec("Deep", "/deep", vec![]))]);
    let b = spec("B", "/b", vec![child("a", spec("BA", "/ba", vec![]))]);
    generation(42, "gaming", spec("Root", "/root", vec![child("a", a), child("b", b)]))
}

#[test]
fn nested_specialisations_in_preorder() {
    let (es, notices) = flatten_with_notifications(&vec![nested_tree()]).unwrap();
    assert_eq!(es.len(), 5);
    assert_eq!(labels(&es), vec!["Root", "A", "Deep", "B", "BA"]);
    let lines: Vec<String> = notices.iter().map(|n| n.message()).collect();
    assert_eq!(
        lines,
        vec![
            "Flattening specialisation 'a' of toplevel /root: /a".to_string(),
            "Flattening specialisation 'deep' of toplevel /a: /deep".to_string(),
            "Flattening specialisation 'b' of toplevel /root: /b".to_string(),
            "Flattening specialisation 'a' of toplevel /b: /ba".to_string(),
        ]
    );
}

#[test]
fn identity_is_inherited_at_every_depth() {
    let es = flatten(vec![nested_tree(), generation(43, "other", spec("X", "/x", vec![]))]).unwrap();
    assert_eq!(es.len(), 6);
    for e in &es[..5] {
        assert_eq!(e.generation_index, 42);
        assert_eq!(e.profile_name, "gaming");
    }
    assert_eq!(es[5].generation_index, 43);
    assert_eq!(es[5].profile_name, "other");
}

#[test]
fn specialisation_name_is_last_edge_only() {
    let es = flatten(vec![nested_tree()]).unwrap();
    assert_eq!(
        names(&es),
        vec![
            None,
            Some("a".to_string()),
            Some("deep".to_string()),
            Some("b".to_string()),
            Some("a".to_string()),
        ]
    );
}

#[test]
fn unsupported_root_is_refused() {
    let g = Generation {
        index: 1,
        profile: "system".to_string(),
        specification: BootSpecification::Unsupported { version: 2 },
    };
    let ok = generation(0, "system", spec("Fine", "/f", vec![]));
    assert_eq!(flatten(vec![ok, g]).err(), Some(FlattenError::UnsupportedVersion(2)));
}

#[test]
fn unsupported_deep_node_is_refused() {
    let bad = Specialisation {
        name: "future".to_string(),
        specification: BootSpecification::Unsupported { version: 3 },
    };
    let a = spec("A", "/a", vec![bad]);
    let g = generation(1, "system", spec("Root", "/root", vec![child("a", a)]));
    assert_eq!(flatten(vec![g]).err(), Some(FlattenError::UnsupportedVersion(3)));
}

#[test]
fn first_unsupported_in_preorder_is_reported() {
    let bad = |v: u64, name: &str| Specialisation {
        name: name.to_string(),
        specification: BootSpecification::Unsupported { version: v },
    };
    let a = spec("A", "/a", vec![bad(4, "x")]);
    let g = generation(1, "system", spec("Root", "/root", vec![child("a", a), bad(5, "y")]));
    let g2 = Generation {
        index: 2,
        profile: "system".to_string(),
        specification: BootSpecification::Unsupported { version: 6 },
    };
    assert_eq!(flatten_with_notifications(&vec![g, g2]).err(), Some(FlattenError::UnsupportedVersion(4)));
}

#[test]
fn empty_input_gives_no_entries() {
    let es = flatten(vec![]).unwrap();
    assert!(es.is_empty());
    let (es2, notices) = flatten_with_notifications(&vec![]).unwrap();
    assert!(es2.is_empty());
    assert!(notices.is_empty());
}

#[test]
fn missing_initrd_is_kept() {
    let mut s = spec("NoInitrd", "/n", vec![]);
    s.initrd = None;
    s.kernel_params = vec![];
    let es = flatten(vec![generation(0, "system", s)]).unwrap();
    assert_eq!(es[0].initrd, None);
    assert!(es[0].kernel_params.is_empty());
}

use anbennar_wiki::missions::parse_mission_file;
use anbennar_wiki::localisation::LocalisationIndex;

#[test]
fn example_mission_projects_to_typed_record() {
    let data = b"tree = { some_mission = { icon = icon_generic_mission  position = 1  trigger = { tag = ROY }  effect = { add_country_modifier = { name = test_mod duration = 3650 } } } }";
    let trees = parse_mission_file(data, None).unwrap();
    assert_eq!(trees.len(), 1);
    let m = &trees[0].missions[0];
    assert_eq!(m.id, "some_mission");
    assert_eq!(m.icon.as_deref(), Some("icon_generic_mission"));
    assert_eq!(m.position, Some(1));
    assert_eq!(m.trigger.as_ref().unwrap().tag.as_deref(), Some("ROY"));
    let e = m.effect.as_ref().unwrap();
    assert_eq!(e.country_modifiers.len(), 1);
    assert_eq!(e.country_modifiers[0].name, "test_mod");
    assert_eq!(e.country_modifiers[0].duration, Some(3650));
}

#[test]
fn missing_title_is_none() {
    let mut loc = LocalisationIndex::new();
    loc.insert("other_title".to_string(), "Other".to_string());
    let data = b"tree = { some_mission = { position = 2 } }";
    let trees = parse_mission_file(data, Some(&loc)).unwrap();
    assert_eq!(trees[0].missions[0].title, None);
}

use anbennar_wiki::error::ProjectionError;
use anbennar_wiki::missions::tags_with_missions;
use anbennar_wiki::trigger::build_trigger;
use anbennar_wiki::tree::parse_tree;

#[test]
fn last_tag_wins_in_trigger() {
    let nodes = parse_tree(b"t = { tag = A tag = B }").unwrap();
    let t = build_trigger(&nodes[0].value, None, 0).unwrap();
    assert_eq!(t.tag.as_deref(), Some("B"));
}

#[test]
fn nested_triggers_past_cap_fail_cleanly() {
    let mut text = b"t = ".to_vec();
    for _ in 0..40 {
        text.extend_from_slice(b"{ OR = ");
    }
    text.extend_from_slice(b"{ tag = A }");
    for _ in 0..40 {
        text.extend_from_slice(b" }");
    }
    let nodes = parse_tree(&text).unwrap();
    match build_trigger(&nodes[0].value, None, 0) {
        Err(ProjectionError::TooDeep { key_path }) => assert_eq!(key_path.len(), 33),
        other => panic!("expected a depth error, got {:?}", other),
    }
    let shallow = parse_tree(b"t = { OR = { AND = { NOT = { tag = A } } } }").unwrap();
    let t = build_trigger(&shallow[0].value, None, 0).unwrap();
    let inner = t.or.unwrap().and.unwrap().not.unwrap();
    assert_eq!(inner.tag.as_deref(), Some("A"));
}

#[test]
fn trigger_keeps_unmodelled_statements_and_tooltips() {
    let mut loc = LocalisationIndex::new();
    loc.insert("my_tip".to_string(), "A tip".to_string());
    let nodes = parse_tree(b"t = { tooltip = my_tip is_at_war = yes religion = regent_court tag = { x = y } }").unwrap();
    let t = build_trigger(&nodes[0].value, Some(&loc), 0).unwrap();
    assert_eq!(t.tooltip.as_deref(), Some("my_tip"));
    assert_eq!(t.tooltip_desc.as_deref(), Some("A tip"));
    assert_eq!(t.religion.as_deref(), Some("regent_court"));
    assert_eq!(t.misc, Some(b"is_at_war = yes\n".to_vec()));
}

#[test]
fn tree_flags_slot_and_potential() {
    let data = b"my_tree = { slot = 3 generic = yes ai = no has_country_shield = yes potential = { tag = A01 } potential_on_load = { always = yes } }";
    let trees = parse_mission_file(data, None).unwrap();
    let t = &trees[0];
    assert_eq!(t.slot, Some(3));
    assert!(t.generic);
    assert!(!t.ai);
    assert!(t.has_country_shield);
    assert_eq!(t.potential.as_ref().unwrap().tag.as_deref(), Some("A01"));
    assert!(t.missions.is_empty());
}

#[test]
fn mission_fields_and_localised_names() {
    let mut loc = LocalisationIndex::new();
    loc.insert("m1_title".to_string(), "First".to_string());
    loc.insert("m1_desc".to_string(), "Do it".to_string());
    let data = b"tr = { m1 = { position = 2 required_missions = { m0 x0 } ai_weight = { factor = 1 } effect = { set_country_flag = done clr_country_flag = old country_event = { id = ev.1 days = 30 } remove_country_modifier = { name = gone } some_scope = { x = y } add_prestige = 5 } } not_a_mission = { icon = i } }";
    let trees = parse_mission_file(data, Some(&loc)).unwrap();
    let ms = &trees[0].missions;
    assert_eq!(ms.len(), 1);
    let m = &ms[0];
    assert_eq!(m.title.as_deref(), Some("First"));
    assert_eq!(m.desc.as_deref(), Some("Do it"));
    assert_eq!(m.required_missions, vec!["m0".to_string(), "x0".to_string()]);
    let e = m.effect.as_ref().unwrap();
    assert_eq!(e.set_country_flag, vec!["done".to_string()]);
    assert_eq!(e.clr_country_flag, vec!["old".to_string()]);
    assert_eq!(e.country_events[0].id, "ev.1");
    assert_eq!(e.country_events[0].days, Some(30));
    assert_eq!(e.remove_country_modifiers[0].name, "gone");
    assert_eq!(e.scopes, vec![b"some_scope".to_vec()]);
    assert_eq!(e.misc, Some(b"add_prestige = 5\n".to_vec()));
}

#[test]
fn unknown_mission_key_names_its_path() {
    let data = b"tr = { m1 = { position = 1 surprise = yes } }";
    match parse_mission_file(data, None) {
        Err(ProjectionError::UnmodeledStructure { key_path }) => assert_eq!(
            key_path,
            vec![b"tr".to_vec(), b"m1".to_vec(), b"surprise".to_vec()]
        ),
        other => panic!("expected an unmodelled key, got {:?}", other),
    }
}

#[test]
fn bad_position_is_a_decode_failure() {
    let data = b"tr = { m1 = { position = first } }";
    assert!(matches!(parse_mission_file(data, None), Err(ProjectionError::ScalarDecode { .. })));
    let unknown_event_key = b"tr = { m1 = { position = 1 effect = { country_event = { id = a.1 when = now } } } }";
    assert!(matches!(parse_mission_file(unknown_event_key, None), Err(ProjectionError::UnmodeledStructure { .. })));
    assert!(matches!(parse_mission_file(b"tr = {", None), Err(ProjectionError::MalformedSyntax { offset: 6 })));
}

#[test]
fn test_tags_with_missions() {
    let files = vec![
        b"a = { potential = { OR = { tag = Z43 was_tag = U08 } NOT = { tag = X01 } } }".to_vec(),
        b"b = { potential = { tag = Z43 } m = { trigger = { tag = Q00 } position = 1 } }".to_vec(),
    ];
    let mut tags = tags_with_missions(&files).unwrap();
    tags.sort();
    tags.dedup();
    assert_eq!(tags, vec!["U08".to_string(), "Z43".to_string()]);
}

#[test]
fn test_mission_parse() {
    let data = b"adenica_1 = {\n\tslot = 1\n\tgeneric = no\n\tai = yes\n\tpotential = { tag = A02 }\n\tad_mission = {\n\t\ticon = mission_cannorian_1\n\t\tposition = 1\n\t\trequired_missions = { }\n\t\ttrigger = { adm_power = 100 }\n\t\teffect = { add_prestige = 10 }\n\t}\n}\nadenica_2 = {\n\tslot = 2\n\tpotential = { OR = { tag = A02 tag = A03 } }\n}\n";
    let actual = parse_mission_file(data, None).unwrap();
    assert_eq!(actual.len(), 2);
    for tree in actual {
        assert_eq!(tree.generic, false);
    }
}

#[test]
fn unlisted_trigger_keys_go_to_misc() {
    let nodes = parse_tree(b"t = { primary_culture = moon_elf dynasty = Silmuna }").unwrap();
    let t = build_trigger(&nodes[0].value, None, 0).unwrap();
    assert_eq!(t.primary_culture, None);
    assert_eq!(t.dynasty.as_deref(), Some("Silmuna"));
    assert_eq!(t.misc, Some(b"primary_culture = moon_elf\n".to_vec()));
}

#[test]
fn completed_by_is_unmodelled() {
    let data = b"tr = { m1 = { position = 1 completed_by = 1444.11.11 } }";
    match parse_mission_file(data, None) {
        Err(ProjectionError::UnmodeledStructure { key_path }) => assert_eq!(
            key_path,
            vec![b"tr".to_vec(), b"m1".to_vec(), b"completed_by".to_vec()]
        ),
        other => panic!("expected an unmodelled key, got {:?}", other),
    }
}

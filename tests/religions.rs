use anbennar_wiki::bundled_modifiers::parse_modifier_file;
use anbennar_wiki::error::ProjectionError;
use anbennar_wiki::localisation::LocalisationIndex;
use anbennar_wiki::religions::parse_religious_groups_file;

#[test]
fn unknown_modifier_is_dropped() {
    let data = b"cannorian = { regent_court = { country = { tolerance_own = 2 made_up_modifier = 5 } } }";
    let groups = parse_religious_groups_file(data).unwrap();
    let r = &groups[0].religions[0];
    assert_eq!(r.id, "regent_court");
    assert_eq!(r.country_modifiers, vec![(b"tolerance_own".to_vec(), b"2".to_vec())]);
}

#[test]
fn religion_fields_are_read() {
    let data = b"g = { crusade_name = HOLY_WAR harmonized_modifier = harm center_of_religion = 12 can_form_personal_unions = yes \
        r = { icon = 4 color = { 10 20 30 } holy_sites = { 1 2 } aspects = { a b } blessings = { c } heretic = { x y } \
              province = { local_unrest = -1 } country_as_secondary = { discipline = 0.05 } \
              orthodox_icons = { icon_one = { discipline = 0.05 allow = { always = yes } } } \
              papacy = { papal_tag = PAP seat_of_papacy = 118 election_cost = 5 invite = { cost = 50 potential = { } } } } }";
    let groups = parse_religious_groups_file(data).unwrap();
    let g = &groups[0];
    assert_eq!(g.id, "g");
    assert_eq!(g.crusade_name.as_deref(), Some("HOLY_WAR"));
    assert_eq!(g.harmonized_modifier.as_deref(), Some("harm"));
    assert_eq!(g.center_of_religion, Some(12));
    let r = &g.religions[0];
    assert_eq!(r.icon, Some(4));
    assert_eq!(r.color, vec![10, 20, 30]);
    assert_eq!(r.holy_sites, vec![1, 2]);
    assert_eq!(r.aspects, vec!["a".to_string(), "b".to_string()]);
    assert_eq!(r.blessings, vec!["c".to_string()]);
    assert_eq!(r.province_modifiers, vec![(b"local_unrest".to_vec(), b"-1".to_vec())]);
    assert_eq!(r.country_as_secondary_modifiers.len(), 1);
    assert_eq!(r.orthodox_icons[0].id, "icon_one");
    assert_eq!(r.orthodox_icons[0].country_modifiers.len(), 1);
    let p = r.papacy.as_ref().unwrap();
    assert_eq!(p.papal_tag.as_deref(), Some("PAP"));
    assert_eq!(p.seat_of_papacy, Some(118));
    assert_eq!(p.curia_interaction[0].id, "invite");
    assert_eq!(p.curia_interaction[0].cost, Some(50));
}

#[test]
fn schools_have_pictures_and_modifiers() {
    let data = b"g = { religious_schools = { hanafi = { picture = GFX_hanafi potential_invite_scholar = { } global_tax_modifier = 0.1 } } }";
    let groups = parse_religious_groups_file(data).unwrap();
    let schools = groups[0].schools.as_ref().unwrap();
    assert_eq!(schools[0].id, "hanafi");
    assert_eq!(schools[0].picture.as_deref(), Some("GFX_hanafi"));
    assert_eq!(schools[0].country_modifiers, vec![(b"global_tax_modifier".to_vec(), b"0.1".to_vec())]);
}

#[test]
fn unknown_religion_key_fails_fast() {
    let data = b"g = { r = { brand_new_key = 1 } }";
    match parse_religious_groups_file(data) {
        Err(ProjectionError::UnmodeledStructure { key_path }) => {
            assert_eq!(key_path, vec![b"g".to_vec(), b"r".to_vec(), b"brand_new_key".to_vec()])
        },
        other => panic!("expected an unmodelled key, got {:?}", other),
    }
    assert!(matches!(
        parse_religious_groups_file(b"g = { r = { color = { red } } }"),
        Err(ProjectionError::ScalarDecode { .. })
    ));
}

#[test]
fn bundled_modifiers_read_picture_name_and_modifiers() {
    let mut loc = LocalisationIndex::new();
    loc.insert("good_harvest".to_string(), "Good Harvest".to_string());
    let data = b"good_harvest = { picture = Harvest_Icon potential = { } global_tax_modifier = 0.1 mystery = 3 } other = { }";
    let bs = parse_modifier_file(data, Some(&loc)).unwrap();
    assert_eq!(bs.len(), 2);
    assert_eq!(bs[0].id, "good_harvest");
    assert_eq!(bs[0].name.as_deref(), Some("Good Harvest"));
    assert_eq!(bs[0].picture.as_deref(), Some("harvest_icon"));
    assert_eq!(bs[0].modifiers, vec![(b"global_tax_modifier".to_vec(), b"0.1".to_vec())]);
    assert!(bs[0].called_by.is_empty());
    assert_eq!(bs[1].name, None);
    assert!(bs[1].modifiers.is_empty());
}

#[test]
fn repeated_modifier_keeps_last_value() {
    let data = b"g = { r = { country = { tolerance_own = 1 discipline = 0.05 tolerance_own = 3 } country = { discipline = 0.1 } } }";
    let groups = parse_religious_groups_file(data).unwrap();
    let r = &groups[0].religions[0];
    assert_eq!(
        r.country_modifiers,
        vec![(b"tolerance_own".to_vec(), b"3".to_vec()), (b"discipline".to_vec(), b"0.1".to_vec())]
    );
}

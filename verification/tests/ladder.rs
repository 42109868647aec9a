use leveling::error::EngineError;
use leveling::ladder::{milestones_up_to, role_name, RoleEntry, RoleMap};
use leveling::provision::{ProvisionStep, Provisioner};
use leveling::store::{check_encoding, decode_role_map, encode_role_map, is_role_map_key, role_map_key};
use std::collections::HashMap;

fn sample_map() -> RoleMap {
    let mut table = HashMap::new();
    table.insert(0, "r0".to_string());
    table.insert(5, "r5".to_string());
    table.insert(10, "r10".to_string());
    RoleMap::from_table(table)
}

#[test]
fn milestones_are_the_multiples_of_the_step() {
    assert_eq!(milestones_up_to(12, 5), vec![0, 5, 10]);
    assert_eq!(milestones_up_to(10, 5), vec![0, 5, 10]);
    assert_eq!(milestones_up_to(4, 5), vec![0]);
    assert_eq!(milestones_up_to(0, 5), vec![0]);
    assert_eq!(milestones_up_to(3, 1), vec![0, 1, 2, 3]);
    assert_eq!(milestones_up_to(50, 5).len(), 11);
    assert_eq!(milestones_up_to(u32::MAX, u32::MAX), vec![0, u32::MAX]);
    assert_eq!(milestones_up_to(u32::MAX, 1_000_000_000), vec![0, 1_000_000_000, 2_000_000_000, 3_000_000_000, 4_000_000_000]);
}

#[test]
fn role_names_spell_the_milestone() {
    assert_eq!(role_name(0), "Level 0");
    assert_eq!(role_name(5), "Level 5");
    assert_eq!(role_name(10), "Level 10");
    assert_eq!(role_name(50), "Level 50");
    assert_eq!(role_name(1234567890), "Level 1234567890");
    assert_eq!(role_name(u32::MAX), "Level 4294967295");
}

#[test]
fn role_map_answers_for_its_milestones_only() {
    let map = sample_map();
    assert_eq!(map.len(), 3);
    assert_eq!(map.role_for(5), Some("r5".to_string()));
    assert_eq!(map.role_for(10), Some("r10".to_string()));
    assert_eq!(map.role_for(7), None);
    assert_eq!(map.role_for(15), None);
    assert_eq!(map.table().len(), 3);
    let mut entries = map.entries();
    entries.sort_by_key(|e| e.milestone);
    assert_eq!(
        entries,
        vec![
            RoleEntry { milestone: 0, role_id: "r0".to_string() },
            RoleEntry { milestone: 5, role_id: "r5".to_string() },
            RoleEntry { milestone: 10, role_id: "r10".to_string() },
        ]
    );
}

#[test]
fn reserved_key_is_roles() {
    assert_eq!(role_map_key(), "roles");
    assert!(is_role_map_key("roles"));
    assert!(!is_role_map_key("Roles"));
    assert!(!is_role_map_key("role"));
    assert!(!is_role_map_key("roles "));
    assert!(!is_role_map_key(""));
    assert!(!is_role_map_key("815189874478546954"));
}

#[test]
fn stored_map_reads_back() {
    let map = decode_role_map("{0:\"a\",5:\"b\",10:\"c\"}").unwrap();
    assert_eq!(map.len(), 3);
    assert_eq!(map.role_for(0), Some("a".to_string()));
    assert_eq!(map.role_for(5), Some("b".to_string()));
    assert_eq!(map.role_for(10), Some("c".to_string()));
    let empty = decode_role_map("{}").unwrap();
    assert_eq!(empty.len(), 0);
}

#[test]
fn text_that_is_no_map_is_corrupt() {
    for text in ["", "nonsense", "[1,2]", "{\"a\":1}", "{5:6}", "{-1:\"a\"}", "{5:\"a\"", "{4294967296:\"a\"}"] {
        assert_eq!(decode_role_map(text).err(), Some(EngineError::Corruption), "text {:?}", text);
    }
}

#[test]
fn encoded_map_reads_back_as_the_same_map() {
    let map = sample_map();
    let text = encode_role_map(&map).unwrap();
    let back = decode_role_map(&text).unwrap();
    assert_eq!(back.table(), map.table());
    let mut odd = HashMap::new();
    odd.insert(7, "quote \" backslash \\ newline \n tab \t".to_string());
    odd.insert(u32::MAX, "".to_string());
    let odd = RoleMap::from_table(odd);
    let text = encode_role_map(&odd).unwrap();
    assert_eq!(decode_role_map(&text).unwrap().table(), odd.table());
    let empty = RoleMap::from_table(HashMap::new());
    assert_eq!(encode_role_map(&empty).unwrap(), "{}");
}

#[test]
fn check_encoding_accepts_only_what_reads_back() {
    let map = sample_map();
    let good = "{10:\"r10\", 0:\"r0\", 5:\"r5\"}".to_string();
    assert_eq!(check_encoding(&map, good.clone()), Ok(good));
    for bad in ["{0:\"r0\",5:\"r5\"}", "{0:\"r0\",5:\"r5\",10:\"other\"}", "{0:\"r0\",5:\"r5\",10:\"r10\",15:\"r15\"}", "{}", "junk"] {
        assert_eq!(check_encoding(&map, bad.to_string()), Err(EngineError::Corruption), "text {:?}", bad);
    }
}

#[test]
fn provisioning_creates_the_ladder_from_the_top_down() {
    let mut run = Provisioner::begin(false, 50, 5).unwrap();
    let mut asked = Vec::new();
    let mut percents = Vec::new();
    loop {
        percents.push(run.percent_complete());
        match run.next_step() {
            ProvisionStep::CreateRole { milestone, name, ordinal, total } => {
                assert_eq!(total, 11);
                assert_eq!(ordinal as usize, asked.len() + 1);
                assert_eq!(name, format!("Level {}", milestone));
                asked.push(milestone);
                assert_eq!(run.record_created(format!("role-{}", milestone)), Ok(()));
            }
            ProvisionStep::Persist => break,
        }
    }
    assert_eq!(asked, vec![50, 45, 40, 35, 30, 25, 20, 15, 10, 5, 0]);
    assert_eq!(percents, vec![0, 9, 18, 27, 36, 45, 54, 63, 72, 81, 90, 100]);
    assert_eq!(run.record_created("extra".to_string()), Err(EngineError::InvalidInput));
    let map = run.finish().unwrap();
    assert_eq!(map.len(), 11);
    for milestone in (0..=50).step_by(5) {
        assert_eq!(map.role_for(milestone), Some(format!("role-{}", milestone)));
    }
    assert_eq!(map.role_for(55), None);
    assert_eq!(map.role_for(3), None);
}

#[test]
fn second_provisioning_is_refused_and_the_map_reads_back_unchanged() {
    let mut run = Provisioner::begin(false, 10, 5).unwrap();
    while let ProvisionStep::CreateRole { milestone, .. } = run.next_step() {
        run.record_created(format!("id{}", milestone)).unwrap();
    }
    let map = run.finish().unwrap();
    let stored = encode_role_map(&map).unwrap();
    let exists = true;
    assert_eq!(Provisioner::begin(exists, 10, 5).err(), Some(EngineError::AlreadyExists));
    assert_eq!(Provisioner::begin(exists, 99, 0).err(), Some(EngineError::AlreadyExists));
    let back = decode_role_map(&stored).unwrap();
    assert_eq!(back.table(), map.table());
}

#[test]
fn provisioning_refuses_a_step_of_zero() {
    assert_eq!(Provisioner::begin(false, 50, 0).err(), Some(EngineError::InvalidInput));
}

#[test]
fn unfinished_provisioning_leaves_nothing_to_persist() {
    let mut run = Provisioner::begin(false, 20, 10).unwrap();
    assert_eq!(run.is_complete(), false);
    run.record_created("a".to_string()).unwrap();
    run.record_created("b".to_string()).unwrap();
    assert_eq!(run.percent_complete(), 66);
    assert_eq!(run.finish().err(), Some(EngineError::ExternalApiFailure));
}

#[test]
fn ladder_of_one_rung() {
    let mut run = Provisioner::begin(false, 3, 5).unwrap();
    assert_eq!(
        run.next_step(),
        ProvisionStep::CreateRole { milestone: 0, name: "Level 0".to_string(), ordinal: 1, total: 1 }
    );
    run.record_created("only".to_string()).unwrap();
    assert_eq!(run.next_step(), ProvisionStep::Persist);
    assert_eq!(run.percent_complete(), 100);
    let map = run.finish().unwrap();
    assert_eq!(map.entries(), vec![RoleEntry { milestone: 0, role_id: "only".to_string() }]);
}

#[test]
fn widest_ladder_fits() {
    let mut run = Provisioner::begin(false, u32::MAX, u32::MAX).unwrap();
    assert_eq!(
        run.next_step(),
        ProvisionStep::CreateRole { milestone: u32::MAX, name: "Level 4294967295".to_string(), ordinal: 1, total: 2 }
    );
    run.record_created("top".to_string()).unwrap();
    assert_eq!(run.percent_complete(), 50);
}

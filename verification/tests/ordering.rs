use ecs_inspector::entity::Entity;
use ecs_inspector::order::name_le;
use ecs_inspector::registry::NamedType;
use ecs_inspector::sorting::stable_sort;

#[test]
fn names_compare_like_str() {
    let names = ["", "a", "ab", "abc", "abd", "B", "Z", "a b", "é", "z", "Transform", "Time"];
    for a in names {
        for b in names {
            assert_eq!(name_le(a, b), a <= b, "{:?} <= {:?}", a, b);
        }
    }
}

#[test]
fn prefix_comes_first() {
    assert!(name_le("ab", "abc"));
    assert!(!name_le("abc", "ab"));
}

fn named(name: &str, id: u32) -> NamedType<u32> {
    NamedType { name: name.to_string(), type_id: id }
}

fn pairs(v: &[NamedType<u32>]) -> Vec<(String, u32)> {
    v.iter().map(|n| (n.name.clone(), n.type_id)).collect()
}

#[test]
fn sort_keeps_equal_names_in_order() {
    let v = vec![named("B", 1), named("A", 2), named("B", 3), named("A", 4)];
    let out = stable_sort(v);
    assert_eq!(
        pairs(&out),
        vec![
            ("A".to_string(), 2),
            ("A".to_string(), 4),
            ("B".to_string(), 1),
            ("B".to_string(), 3)
        ]
    );
}

#[test]
fn sort_agrees_with_std_stable_sort() {
    let names = ["Time", "Transform", "Name", "Time", "A", "Name", "Visibility", "A"];
    let v: Vec<NamedType<u32>> = names.iter().enumerate().map(|(i, n)| named(n, i as u32)).collect();
    let mut expected = pairs(&v);
    expected.sort_by(|(a, ..), (b, ..)| a.cmp(b));
    assert_eq!(pairs(&stable_sort(v)), expected);
}

#[test]
fn sorting_sorted_input_changes_nothing() {
    let v = vec![named("A", 9), named("A", 1), named("C", 5)];
    let before = pairs(&v);
    assert_eq!(pairs(&stable_sort(v)), before);
}

#[test]
fn sort_of_empty_is_empty() {
    let v: Vec<NamedType<u32>> = Vec::new();
    assert!(stable_sort(v).is_empty());
}

#[test]
fn entities_sort_like_bevy() {
    let raw = [(3u32, 1u32), (1, 2), (2, 1), (0, 0), (7, 0), (1, 1)];
    let ours: Vec<Entity> = raw.iter().map(|&(index, generation)| Entity { index, generation }).collect();
    let mut theirs: Vec<bevy_ecs::entity::Entity> = raw
        .iter()
        .map(|&(index, generation)| bevy_ecs::entity::Entity::from_bits(((generation as u64) << 32) | index as u64))
        .collect();
    theirs.sort();
    let sorted: Vec<(u32, u32)> = stable_sort(ours).iter().map(|e| (e.index, e.generation)).collect();
    let expected: Vec<(u32, u32)> = theirs.iter().map(|e| (e.index(), e.generation())).collect();
    assert_eq!(sorted, expected);
    assert_eq!(sorted[0], (0, 0));
}

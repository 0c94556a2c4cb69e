use runwell::entity::{ComponentMap, ComponentVec, Entry, EntityArena, Idx, Index32, RawIdx};
use runwell::primitive::{Block, Value};

#[test]
fn raw_index_round_trips() {
    for index in [0u32, 1, 41, u32::MAX - 1] {
        let raw = RawIdx::from_u32(index);
        assert_eq!(raw.into_u32(), index);
        assert_eq!(Block::from_raw(raw).into_raw(), raw);
        assert_eq!(Block::from_u32(index).into_u32(), index);
    }
    assert_eq!(Value::from_u32(7), Value::from_raw(RawIdx::from_u32(7)));
    assert_ne!(Value::from_u32(7), Value::from_u32(8));
}

#[test]
fn arena_allocates_dense_indices() {
    let mut arena: EntityArena<u64> = EntityArena::new();
    assert!(arena.is_empty());
    let first = arena.allocate(10);
    let second = arena.allocate(20);
    assert_eq!(first.into_u32(), 0);
    assert_eq!(second.into_u32(), 1);
    assert_eq!(arena.len(), 2);
    assert_eq!(arena.get(first), Some(&10));
    assert_eq!(arena.get(Idx::from_u32(2)), None);
    *arena.index_mut(second) += 1;
    assert_eq!(*arena.index(second), 21);
    assert!(arena.contains_key(second));
    assert_eq!(arena.next_key().into_u32(), 2);
}

#[test]
fn component_vec_pads_with_absent_slots() {
    let mut map: ComponentVec<Block, u32> = ComponentVec::new();
    assert_eq!(map.insert(Block::from_u32(3), 30), None);
    assert!(!map.contains_key(Block::from_u32(0)));
    assert!(!map.contains_key(Block::from_u32(2)));
    assert_eq!(map.get(Block::from_u32(3)), Some(&30));
    assert_eq!(map.get(Block::from_u32(9)), None);
    assert_eq!(map.insert(Block::from_u32(3), 31), Some(30));
    assert_eq!(map.insert(Block::from_u32(1), 10), None);
    *map.index_mut(Block::from_u32(1)) += 5;
    assert_eq!(*map.index(Block::from_u32(1)), 15);
    if let Some(component) = map.get_mut(Block::from_u32(3)) {
        *component = 7;
    }
    assert_eq!(map.remove(Block::from_u32(3)), Some(7));
    assert_eq!(map.remove(Block::from_u32(3)), None);
    assert_eq!(map.get_mut(Block::from_u32(3)), None);
    map.clear();
    assert!(!map.contains_key(Block::from_u32(1)));
}

#[test]
fn component_map_works() {
    let mut map: ComponentMap<Value, u32> = ComponentMap::new();
    assert!(map.is_empty());
    assert_eq!(map.insert(Value::from_u32(5), 50), None);
    assert_eq!(map.insert(Value::from_u32(5), 51), Some(50));
    assert_eq!(map.insert(Value::from_u32(2), 20), None);
    assert_eq!(map.len(), 2);
    assert!(map.contains_key(Value::from_u32(2)));
    assert_eq!(map.get(Value::from_u32(5)), Some(&51));
    assert_eq!(map.get(Value::from_u32(6)), None);
    if let Some(component) = map.get_mut(Value::from_u32(2)) {
        *component += 1;
    }
    assert_eq!(*map.index(Value::from_u32(2)), 21);
    *map.index_mut(Value::from_u32(2)) = 22;
    let mut keys: Vec<u32> = map.keys().into_iter().map(|key| key.into_u32()).collect();
    keys.sort();
    assert_eq!(keys, vec![2, 5]);
    let mut iter = map.iter();
    assert_eq!(iter.len(), 2);
    let mut pairs = Vec::new();
    while let Some((key, component)) = iter.next() {
        pairs.push((key.into_u32(), *component));
    }
    pairs.sort();
    assert_eq!(pairs, vec![(2, 22), (5, 51)]);
    let copy = map.clone();
    assert_eq!(map.remove(Value::from_u32(5)), Some(51));
    assert_eq!(map.remove(Value::from_u32(5)), None);
    assert_eq!(copy.len(), 2);
    map.clear();
    assert!(map.is_empty());
    let empty: ComponentMap<Value, u32> = Default::default();
    assert_eq!(empty.len(), 0);
}

#[test]
fn component_map_entries_work() {
    let mut map: ComponentMap<Value, u32> = ComponentMap::new();
    let key = Value::from_u32(4);
    assert_eq!(map.entry(key).key(), key);
    assert_eq!(*map.entry(key).or_insert(1), 1);
    assert_eq!(*map.entry(key).or_insert(2), 1);
    *map.entry(key).or_insert_with(|| 3) += 10;
    assert_eq!(map.get(key), Some(&11));
    assert_eq!(*map.entry(Value::from_u32(8)).or_insert_with(|| 3), 3);
    assert_eq!(*map.entry(Value::from_u32(9)).or_default(), 0);
    let _ = map.entry(key).and_modify(|component| *component * 2);
    assert_eq!(map.get(key), Some(&22));
    let _ = map.entry(Value::from_u32(10)).and_modify(|component| *component * 2);
    assert!(!map.contains_key(Value::from_u32(10)));
    match map.entry(key) {
        Entry::Occupied(mut occupied) => {
            assert_eq!(occupied.key(), key);
            assert_eq!(*occupied.get(), 22);
            *occupied.get_mut() = 23;
            assert_eq!(occupied.insert(24), 23);
            assert_eq!(*occupied.into_mut(), 24);
        }
        Entry::Vacant(_) => panic!("the key has a component"),
    }
    match map.entry(key) {
        Entry::Occupied(occupied) => assert_eq!(occupied.remove_entry(), (key, 24)),
        Entry::Vacant(_) => panic!("the key has a component"),
    }
    match map.entry(key) {
        Entry::Occupied(_) => panic!("the key has no component"),
        Entry::Vacant(vacant) => {
            assert_eq!(vacant.key(), key);
            assert_eq!(*vacant.insert(5), 5);
        }
    }
    match map.entry(key) {
        Entry::Occupied(occupied) => assert_eq!(occupied.remove(), 5),
        Entry::Vacant(_) => panic!("the key has a component"),
    }
    assert!(!map.contains_key(key));
}

#[test]
fn arena_iterates_in_order_of_allocation() {
    let mut arena: runwell::entity::EntityArena<u64> = runwell::entity::EntityArena::new();
    let first = arena.allocate(10);
    let second = arena.allocate(20);
    let third = arena.allocate(30);
    let items = arena.iter();
    assert_eq!(items.len(), 3);
    assert_eq!(items[0], (first, &10));
    assert_eq!(items[1], (second, &20));
    assert_eq!(items[2], (third, &30));
    match arena.get_mut(second) {
        Some(entity) => *entity = 25,
        None => panic!("the entity was allocated"),
    }
    assert_eq!(arena.get(second), Some(&25));
    assert_eq!(arena.get(first), Some(&10));
    let missing = runwell::entity::Idx::from_raw(runwell::entity::RawIdx::from_u32(3));
    assert!(arena.get_mut(missing).is_none());
}

#[test]
fn dense_map_iterates_in_order_of_keys() {
    let mut arena: runwell::entity::EntityArena<u64> = runwell::entity::EntityArena::new();
    let keys: Vec<_> = (0..5).map(|n| arena.allocate(n)).collect();
    let mut map: runwell::entity::ComponentVec<runwell::entity::Idx<u64>, &'static str> =
        runwell::entity::ComponentVec::new();
    map.insert(keys[3], "three");
    map.insert(keys[1], "one");
    map.insert(keys[4], "four");
    map.remove(keys[4]);
    let items = map.iter();
    assert_eq!(items, vec![(keys[1], &"one"), (keys[3], &"three")]);
}

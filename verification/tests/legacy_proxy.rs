use reactive_multimap::legacy::hash_map::HashMap;
use reactive_multimap::legacy::proxy::Proxy;
use reactive_multimap::legacy::set_modify_message::{SetModifyMessage, ValueSet};
use reactive_multimap::legacy::vec_modify_message::VecModifyMessage;

#[test]
fn test_set() {
    // let synced_vec =  SyncedVec::new();
    // synced_vec.insert(0, "hello");
    // let other_synced_vec=SyncedVec::new();
    // CloneSync::connect(synced_vec, other_synced_vec);
    // other_synced_vec.push("world");
    // assert_eq!("world", synced_vec[1]);
}

#[test]
fn value_set_proxy_tracks_membership() {
    let mut set: Proxy<ValueSet<u32>, SetModifyMessage<u32>> = Proxy::from(ValueSet::new());
    let follower = set.add_follower();
    set.insert(1);
    set.insert(1);
    set.insert(2);
    assert_eq!(set.len(), 2);
    assert_eq!(set.get(&1), Some(&1));
    set.remove(&1);
    assert_eq!(set.get(&1), None);
    set.update(&2, 3);
    assert_eq!(set.get(&3), Some(&3));
    assert_eq!(set.drain_follower(follower).len(), 5);
    set.clear();
    assert_eq!(set.len(), 0);
}

#[test]
fn hash_map_proxy_set_and_remove() {
    let mut map: HashMap<u32, u32> = HashMap::new();
    let follower = map.add_follower();
    map.set(1, 10);
    map.set(2, 20);
    map.set(1, 11);
    assert_eq!(map.len(), 2);
    assert_eq!(map.get(&1), Some(&11));
    assert_eq!(map.get(&2), Some(&20));
    map.remove(&2);
    assert_eq!(map.get(&2), None);
    assert_eq!(map.len(), 1);
    let messages = map.drain_follower(follower);
    assert_eq!(
        messages,
        vec![
            SetModifyMessage::Insert((1, 10)),
            SetModifyMessage::Insert((2, 20)),
            SetModifyMessage::Update((1, 10), (1, 11)),
            SetModifyMessage::Remove((2, 20))
        ]
    );
    map.remove(&7);
    map.clear();
    assert_eq!(map.len(), 0);
}

#[test]
fn vec_proxy_mirrors_every_mutation() {
    let mut vec: Proxy<Vec<u32>, VecModifyMessage<u32>> = Proxy::from(Vec::new());
    let follower = vec.add_follower();
    vec.push(1);
    vec.push(3);
    vec.insert(1, 2);
    assert_eq!(vec.len(), 3);
    assert_eq!(vec.index(0), &1);
    assert_eq!(vec.get(1), Some(&2));
    assert_eq!(vec.get(9), None);
    vec.remove(0);
    assert_eq!(vec.index(0), &2);
    vec.set(vec![7, 8]);
    assert_eq!(vec.len(), 2);
    assert_eq!(vec.index(1), &8);
    // A follower replaying the stream reconstructs the object.
    let mut mirror: Vec<u32> = Vec::new();
    for m in vec.drain_follower(follower) {
        match m {
            VecModifyMessage::ReplaceAll(v) => mirror = v,
            VecModifyMessage::Insert(i, el) => mirror.insert(i, el),
            VecModifyMessage::SetAt(i, el) => mirror[i] = el,
            VecModifyMessage::Push(el) => mirror.push(el),
            VecModifyMessage::Clear() => mirror.clear(),
            VecModifyMessage::Remove(i) => {
                mirror.remove(i);
            }
        }
    }
    assert_eq!(mirror, vec![7, 8]);
    vec.clear();
    assert_eq!(vec.len(), 0);
}

use mellanite::block::index::TextureIndex;

#[test]
fn index_keeps_each_pair_once() {
    let mut index = TextureIndex::new();
    assert!(!index.contains(5, 1));
    assert!(index.insert(5, 1));
    assert!(!index.insert(5, 1));
    assert!(index.contains(5, 1));
    assert!(!index.contains(5, 2));
    assert!(!index.contains(1, 5));
    assert!(index.remove(5, 1));
    assert!(!index.remove(5, 1));
    assert!(!index.contains(5, 1));
}

#[test]
fn faces_of_an_image_come_in_ascending_order() {
    let mut index = TextureIndex::new();
    for (image, face) in
        [(7, 30), (3, 9), (7, 2), (9, 0), (7, u32::MAX), (7, 0), (3, 10), (u64::MAX, 4), (0, 4)]
    {
        assert!(index.insert(image, face));
    }
    assert_eq!(index.faces_of(7), vec![0, 2, 30, u32::MAX]);
    assert_eq!(index.faces_of(3), vec![9, 10]);
    assert_eq!(index.faces_of(0), vec![4]);
    assert_eq!(index.faces_of(u64::MAX), vec![4]);
    assert_eq!(index.faces_of(8), Vec::<u32>::new());
    assert!(index.remove(7, 2));
    assert_eq!(index.faces_of(7), vec![0, 30, u32::MAX]);
}

#[test]
fn removing_an_image_drops_all_its_faces_and_no_others() {
    let mut index = TextureIndex::new();
    for face in 0..100 {
        index.insert(4, face);
        index.insert(5, face * 2);
        index.insert(6, face * 3);
    }
    index.remove_image(5);
    assert_eq!(index.faces_of(5), Vec::<u32>::new());
    assert_eq!(index.faces_of(4), (0..100).collect::<Vec<u32>>());
    assert_eq!(index.faces_of(6), (0..100).map(|f| f * 3).collect::<Vec<u32>>());
    index.remove_image(5);
    index.remove_image(77);
    assert_eq!(index.faces_of(4).len(), 100);
}

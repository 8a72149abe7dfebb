use baryon::{Named, NamedVec};

fn sample() -> NamedVec<u32> {
    NamedVec(vec![
        Named { data: 10, name: Some("cube".to_string()) },
        Named { data: 20, name: None },
        Named { data: 30, name: Some("camera".to_string()) },
        Named { data: 40, name: Some("cube".to_string()) },
    ])
}

#[test]
fn find_returns_the_first_match() {
    let items = sample();
    assert_eq!(items.find("cube"), Some(&10));
    assert_eq!(items.find("camera"), Some(&30));
    assert_eq!(items.find("light"), None);
    assert_eq!(items.find(""), None);
}

#[test]
fn iter_lists_every_item_in_order() {
    let items = sample();
    let all: Vec<u32> = items.iter().into_iter().copied().collect();
    assert_eq!(all, vec![10, 20, 30, 40]);
    assert_eq!(*items.get(2), 30);
    assert!(NamedVec::<u32>::new().iter().is_empty());
}

#[test]
fn sprite_map_cells_tile_the_image() {
    let map = baryon::SpriteMap { origin: (0, 0), cell_size: (16, 24) };
    let first = map.at((0, 0));
    assert_eq!(first.start, (0, 0));
    assert_eq!(first.end, (16, 24));
    let cell = map.at((3, 2));
    assert_eq!(cell.start, (48, 48));
    assert_eq!(cell.end, (64, 72));
}

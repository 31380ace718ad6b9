use youtubeopen::best::{find_first, find_last_largest};

#[test]
fn the_last_of_the_largest_is_found() {
    assert_eq!(find_last_largest(&vec![]), None);
    assert_eq!(find_last_largest(&vec![None, None]), None);
    assert_eq!(find_last_largest(&vec![None, Some(0)]), Some(1));
    assert_eq!(find_last_largest(&vec![Some(3), Some(9), None, Some(9), Some(1)]), Some(3));
}

#[test]
fn the_pick_agrees_with_std() {
    let lists: [&[u32]; 4] = [&[1], &[2, 1], &[1, 2, 2, 1], &[5, 5, 5]];
    for list in lists {
        let keys: Vec<Option<u32>> = list.iter().map(|n| Some(*n)).collect();
        let wanted = list.iter().enumerate().max_by_key(|(_, n)| **n).map(|(i, _)| i);
        assert_eq!(find_last_largest(&keys), wanted);
    }
}

#[test]
fn the_first_match_is_found() {
    assert_eq!(find_first(&vec![], 1), None);
    assert_eq!(find_first(&vec![3, 1, 2, 1], 1), Some(1));
    assert_eq!(find_first(&vec![3, 1, 2, 1], 7), None);
}

use aiocr::components::{component_extents, connected_components};
use std::collections::HashSet;

#[test]
fn test_connected_components_single_region() {
    let binary: Vec<u8> = vec![
        0, 0, 0, 0, 0, //
        0, 1, 1, 0, 0, //
        0, 1, 1, 0, 0, //
        0, 0, 0, 0, 0, //
    ];
    let labels = connected_components(&binary, 5, 4);
    let unique: HashSet<u32> = labels.iter().filter(|&&l| l > 0).copied().collect();
    assert_eq!(unique.len(), 1);
}

#[test]
fn connected_components_separates_regions_and_keeps_background() {
    let binary: Vec<u8> = vec![
        1, 1, 0, 0, 1, //
        0, 1, 0, 0, 1, //
        0, 0, 0, 1, 1, //
        1, 0, 0, 0, 0, //
    ];
    let labels = connected_components(&binary, 5, 4);
    assert_eq!(labels.len(), 20);
    for (i, &b) in binary.iter().enumerate() {
        assert_eq!(b == 0, labels[i] == 0);
    }
    assert_eq!(labels[0], labels[1]);
    assert_eq!(labels[1], labels[6]);
    assert_eq!(labels[4], labels[9]);
    assert_eq!(labels[9], labels[14]);
    assert_eq!(labels[13], labels[14]);
    assert_ne!(labels[0], labels[4]);
    assert_ne!(labels[0], labels[15]);
    assert_ne!(labels[4], labels[15]);
    let unique: HashSet<u32> = labels.iter().filter(|&&l| l > 0).copied().collect();
    assert_eq!(unique.len(), 3);
}

#[test]
fn connected_components_of_empty_mask() {
    let labels = connected_components(&[], 0, 0);
    assert!(labels.is_empty());
    let labels = connected_components(&[0, 0, 0], 3, 1);
    assert_eq!(labels, vec![0, 0, 0]);
}

#[test]
fn component_extents_bound_each_region() {
    let binary: Vec<u8> = vec![
        1, 1, 0, 0, 1, //
        0, 1, 0, 0, 1, //
        0, 0, 0, 1, 1, //
        1, 0, 0, 0, 0, //
    ];
    let labels = connected_components(&binary, 5, 4);
    let extents = component_extents(&labels, 5, 4);
    let max = *labels.iter().max().unwrap() as usize;
    assert_eq!(extents.len(), max + 1);
    assert_eq!(extents[0].count, 0);
    let a = extents[labels[0] as usize];
    assert_eq!((a.x_min, a.y_min, a.x_max, a.y_max, a.count), (0, 0, 1, 1, 3));
    let b = extents[labels[4] as usize];
    assert_eq!((b.x_min, b.y_min, b.x_max, b.y_max, b.count), (3, 0, 4, 2, 4));
    let c = extents[labels[15] as usize];
    assert_eq!((c.x_min, c.y_min, c.x_max, c.y_max, c.count), (0, 3, 0, 3, 1));
    let total: usize = extents.iter().map(|e| e.count).sum();
    assert_eq!(total, 8);
}

#[test]
fn branches_that_meet_later_share_one_label() {
    // Two columns that only join on the last row, and a staircase that
    // joins three provisional labels.
    let binary: Vec<u8> = vec![
        1, 0, 1, 0, 1, //
        1, 0, 1, 0, 1, //
        1, 1, 1, 0, 1, //
        0, 0, 0, 1, 1, //
    ];
    let labels = connected_components(&binary, 5, 4);
    let unique: HashSet<u32> = labels.iter().filter(|&&l| l > 0).copied().collect();
    assert_eq!(unique.len(), 2);
    assert_eq!(labels[0], labels[2]);
    assert_eq!(labels[0], labels[11]);
    assert_eq!(labels[4], labels[18]);
    assert_ne!(labels[0], labels[4]);
}

#[test]
fn connected_components_numbers_by_the_root_of_the_merged_labels() {
    // Provisional labels: 1 at the top right, 2 at the left, 3 beside 1
    // (3 is linked below 1). The bottom row meets 2 and 3; the root of the
    // larger label (1) is linked below 2, so the whole region ends up as 2
    // although its first pixel opened label 1.
    let binary = [0, 0, 0, 1, 1, 0, 1, 1, 1, 1, 1, 0];
    let labels = connected_components(&binary, 4, 3);
    assert_eq!(labels, vec![0, 0, 0, 2, 2, 0, 2, 2, 2, 2, 2, 0]);
}

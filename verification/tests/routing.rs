use lib::routing::{coverage, pooled_by_expert, sorted_desc};

#[test]
fn counts_sort_largest_first() {
    assert_eq!(sorted_desc(&vec![3, 9, 1, 9, 0]), vec![9, 9, 3, 1, 0]);
    assert_eq!(sorted_desc(&vec![]), Vec::<u32>::new());
}

#[test]
fn the_hottest_experts_cover_their_share() {
    let layers = vec![vec![5, 1, 0, 4], vec![0, 0, 10, 0]];
    assert_eq!(coverage(&layers, 1), (15, 20));
    assert_eq!(coverage(&layers, 2), (19, 20));
    assert_eq!(coverage(&layers, 4), (20, 20));
    assert_eq!(coverage(&layers, 8), (20, 20), "a top larger than the layer takes all of it");
    assert_eq!(coverage(&Vec::new(), 3), (0, 0));
}

#[test]
fn pooling_sums_an_index_across_layers() {
    let layers = vec![vec![5, 1, 0, 4], vec![0, 2, 10]];
    assert_eq!(pooled_by_expert(&layers, 4), vec![5, 3, 10, 4]);
    assert_eq!(pooled_by_expert(&Vec::new(), 2), vec![0, 0]);
}

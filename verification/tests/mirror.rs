//! Instance-mirror synchronization: idempotent adds, ignored removes of
//! absent entries, and the mirror matching the grid's solid set.

use voxelgrid::{local_pos_to_translation, GridPos, Translation, WorldProxy};

#[test]
fn adding_same_position_twice_keeps_one_entry() {
    let mut pr = WorldProxy::with_capacity(8);
    pr.add_block(&GridPos::new(2, 3, 4));
    pr.add_block(&GridPos::new(2, 3, 4));
    assert_eq!(pr.translations().len(), 1);
    let t = pr.translations()[0];
    assert_eq!((t.x, t.y, t.z), (1024, 1536, 2048));
}

#[test]
fn removing_absent_position_changes_nothing() {
    let mut pr = WorldProxy::with_capacity(8);
    pr.add_block(&GridPos::new(1, 1, 1));
    pr.remove_block(&GridPos::new(5, 5, 5));
    pr.remove_block(&GridPos::new(9, 9, 9)); // out of bounds too
    assert_eq!(pr.translations().len(), 1);
    assert_eq!(pr.translations()[0], local_pos_to_translation(&GridPos::new(1, 1, 1)));
}

#[test]
fn interleaved_mutations_keep_mirror_equal_to_solid_set() {
    let mut pr = WorldProxy::with_capacity(8);
    pr.add_block(&GridPos::new(3, 3, 3));
    pr.add_block(&GridPos::new(1, 1, 1));
    pr.add_block(&GridPos::new(2, 2, 2));
    pr.remove_block(&GridPos::new(2, 2, 2));
    pr.add_block(&GridPos::new(1, 1, 1));
    pr.add_block(&GridPos::new(9, 9, 9)); // out of bounds: ignored
    pr.remove_block(&GridPos::new(7, 7, 7)); // never added: ignored
    // exactly the translations of the solid cells, in sorted order
    let expected = vec![
        local_pos_to_translation(&GridPos::new(1, 1, 1)),
        local_pos_to_translation(&GridPos::new(3, 3, 3)),
    ];
    let got: Vec<Translation> = pr.translations().clone();
    assert_eq!(got, expected);
    // and those cells really are the solid ones of the grid
    let solids = pr.world.blocks(&GridPos::new(4, 4, 4), 8);
    assert_eq!(solids.len(), 2);
    assert_eq!(solids[0].local_pos(), GridPos::new(1, 1, 1));
    assert_eq!(solids[1].local_pos(), GridPos::new(3, 3, 3));
}

#[test]
fn mirror_list_is_sorted_lexicographically() {
    let mut pr = WorldProxy::with_capacity(8);
    pr.add_block(&GridPos::new(5, 0, 0));
    pr.add_block(&GridPos::new(0, 5, 0));
    pr.add_block(&GridPos::new(0, 0, 5));
    pr.add_block(&GridPos::new(0, 0, 0));
    let ts = pr.translations();
    for i in 1..ts.len() {
        let a = ts[i - 1];
        let b = ts[i];
        assert!(a.lt(&b), "entries must be strictly ascending");
    }
    assert_eq!(ts.len(), 4);
}

#[test]
fn sync_coalesces_mutations_into_one_upload() {
    let mut pr = WorldProxy::with_capacity(8);
    pr.add_block(&GridPos::new(1, 1, 1));
    pr.add_block(&GridPos::new(2, 2, 2));
    pr.remove_block(&GridPos::new(2, 2, 2));
    // many mutations, one reported rewrite
    assert!(pr.sync_for_render());
    assert!(!pr.sync_for_render());
    pr.add_block(&GridPos::new(3, 3, 3));
    assert!(pr.sync_for_render());
    assert!(!pr.sync_for_render());
}

#[test]
fn sync_reports_nothing_for_empty_mirror() {
    let mut pr = WorldProxy::with_capacity(8);
    // dirty but empty: no upload to do
    assert!(!pr.sync_for_render());
}

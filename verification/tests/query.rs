use sdf_physics::query::{
    deepest_collision, deepest_index, earliest_impact, earliest_index, no_impact, KernelReply,
};
use sdf_physics::sdf_controller::{SdfController, CAPACITY};
use sdf_physics::slots::SdfError;
use sdf_physics::vector::Vec4;

const ONE: i32 = 65536;

#[test]
fn collision_batch_carries_points_and_registry() {
    let mut sdf = SdfController::init();
    sdf.set_blend_factor(777);
    let p = Vec4::new(5, 6, 7, 0);
    let q = Vec4::new(1, 1, 1, ONE);
    assert_eq!(sdf.new_shape(p, q, Vec4::new(9, 9, 9, 0)), Ok(0));
    let points = vec![Vec4::new(1, 2, 3, ONE), Vec4::new(4, 5, 6, ONE)];
    let batch = sdf.collision_batch(&points);
    assert_eq!(batch.points, points);
    assert_eq!(batch.positions.len(), CAPACITY);
    assert_eq!(batch.properties.len(), CAPACITY);
    assert_eq!(batch.positions[0], p);
    assert_eq!(batch.properties[0], q);
    assert_eq!(batch.positions[1], Vec4::new(0, 0, 0, 0));
    assert_eq!(batch.params, vec![777]);
    assert_eq!(sdf.active_count(), 1);
}

#[test]
fn shapecast_batch_appends_the_displacement() {
    let sdf = SdfController::init();
    let points = vec![Vec4::new(1, 2, 3, ONE)];
    let batch = sdf.shapecast_batch(&points, Vec4::new(7, 8, 9, 0));
    assert_eq!(batch.points, vec![Vec4::new(1, 2, 3, ONE), Vec4::new(7, 8, 9, 0)]);
    assert_eq!(batch.params, vec![ONE]);
}

#[test]
fn collision_events_come_back_in_point_order() {
    let sdf = SdfController::init();
    let points = vec![Vec4::new(0, 0, 0, ONE), Vec4::new(1, 1, 1, ONE)];
    let reply = KernelReply::Output(vec![1, 2, 3, -4, 5, 6, 7, 8]);
    assert_eq!(
        sdf.compute_collision(&points, &reply),
        Ok(vec![Vec4::new(1, 2, 3, -4), Vec4::new(5, 6, 7, 8)])
    );
}

#[test]
fn collision_reply_of_wrong_size_is_kernel_unavailable() {
    let sdf = SdfController::init();
    let points = vec![Vec4::new(0, 0, 0, ONE), Vec4::new(1, 1, 1, ONE)];
    for len in [0usize, 4, 7, 9, 12] {
        let reply = KernelReply::Output(vec![0; len]);
        assert_eq!(sdf.compute_collision(&points, &reply), Err(SdfError::KernelUnavailable));
    }
    assert_eq!(
        sdf.compute_collision(&points, &KernelReply::Unavailable),
        Err(SdfError::KernelUnavailable)
    );
    assert_eq!(sdf.compute_collision(&vec![], &KernelReply::Output(vec![])), Ok(vec![]));
}

#[test]
fn shapecast_events_drop_the_displacement_group() {
    let sdf = SdfController::init();
    let points = vec![Vec4::new(0, 0, 0, ONE), Vec4::new(1, 1, 1, ONE)];
    let reply = KernelReply::Output(vec![1, 2, 3, 4, 5, 6, 7, 8, 9, 10, 11, 12]);
    assert_eq!(
        sdf.compute_shapecast(&points, &reply),
        Ok(vec![Vec4::new(1, 2, 3, 4), Vec4::new(5, 6, 7, 8)])
    );
    assert_eq!(
        sdf.compute_shapecast(&points, &KernelReply::Output(vec![0; 8])),
        Err(SdfError::KernelUnavailable)
    );
    assert_eq!(
        sdf.compute_shapecast(&points, &KernelReply::Output(vec![0; 13])),
        Err(SdfError::KernelUnavailable)
    );
    assert_eq!(
        sdf.compute_shapecast(&points, &KernelReply::Output(vec![])),
        Err(SdfError::KernelUnavailable)
    );
    assert_eq!(
        sdf.compute_shapecast(&points, &KernelReply::Unavailable),
        Err(SdfError::KernelUnavailable)
    );
    assert_eq!(sdf.compute_shapecast(&vec![], &KernelReply::Output(vec![0; 4])), Ok(vec![]));
}

#[test]
fn no_overlap_means_no_collision_for_every_point() {
    let sdf = SdfController::init();
    let points = vec![Vec4::new(0, 0, 0, ONE); 3];
    let reply = KernelReply::Output(vec![0, ONE, 0, 5, 0, ONE, 0, 0, ONE, 0, 0, 700]);
    let events = sdf.compute_collision(&points, &reply).unwrap();
    assert_eq!(events.len(), 3);
    for e in &events {
        assert!(e.w >= 0);
    }
    assert_eq!(deepest_index(&events), None);
    assert_eq!(deepest_collision(&events), None);
}

#[test]
fn deepest_collision_is_the_most_negative_depth() {
    let n = Vec4::new(0, ONE, 0, 0);
    let events = vec![
        Vec4 { w: 10, ..n },
        Vec4 { w: -3, ..n },
        Vec4 { x: 1, w: -9, ..n },
        Vec4 { x: 2, w: -9, ..n },
        Vec4 { w: -1, ..n },
    ];
    assert_eq!(deepest_index(&events), Some(2));
    assert_eq!(deepest_collision(&events), Some(Vec4::new(1, ONE, 0, -9)));
    assert_eq!(deepest_collision(&vec![]), None);
    assert_eq!(deepest_collision(&vec![Vec4::new(0, 0, 0, 0)]), None);
}

#[test]
fn shapecast_reduction_selects_lowest_fraction() {
    let n1 = (ONE, 0, 0);
    let n2 = (0, ONE, 0);
    let n3 = (0, 0, ONE);
    // Fractions 0.3, 1.0 and 0.6.
    let events = vec![
        Vec4::new(n1.0, n1.1, n1.2, 19661),
        Vec4::new(n2.0, n2.1, n2.2, ONE),
        Vec4::new(n3.0, n3.1, n3.2, 39322),
    ];
    assert_eq!(earliest_impact(&events), Vec4::new(ONE, 0, 0, 19661));
    assert_eq!(earliest_index(&events), Some(0));
    let reordered = vec![events[2], events[1], events[0]];
    assert_eq!(earliest_impact(&reordered), Vec4::new(ONE, 0, 0, 19661));
    assert_eq!(earliest_index(&reordered), Some(2));
}

#[test]
fn shapecast_reduction_skips_degenerate_normals() {
    let events = vec![
        Vec4::new(0, 0, 0, 100),
        Vec4::new(0, ONE, 0, 40000),
        Vec4::new(0, 0, 0, 5),
        Vec4::new(ONE, 0, 0, 40000),
    ];
    assert_eq!(earliest_index(&events), Some(1));
    assert_eq!(earliest_impact(&events), Vec4::new(0, ONE, 0, 40000));
}

#[test]
fn shapecast_reduction_without_impact_is_no_impact() {
    assert_eq!(no_impact(), Vec4::new(0, 0, 0, ONE));
    assert_eq!(earliest_impact(&vec![]), Vec4::new(0, 0, 0, ONE));
    let events = vec![Vec4::new(0, 0, 0, ONE), Vec4::new(5, 5, 5, ONE), Vec4::new(0, 0, 0, 3)];
    assert_eq!(earliest_index(&events), None);
    assert_eq!(earliest_impact(&events), Vec4::new(0, 0, 0, ONE));
}

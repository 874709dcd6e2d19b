use vrrop::geom::{pose_from_quat, pose_from_quat_checked, CameraIntrinsics, Mat3, Point3, Pose,
    Projector};
use vrrop::pointcloud::{Color, ColorImage, DepthImage, GridIndex, ImagesMessage, PointCloud};

fn intrinsics_4x4() -> CameraIntrinsics {
    // 4x4 image, focal length two pixels, center two pixels (millipixels)
    CameraIntrinsics { width: 4, height: 4, fx: 2000, fy: 2000, cx: 2000, cy: 2000 }
}

fn frame(depth_raw: u16) -> ImagesMessage {
    let intr = intrinsics_4x4();
    ImagesMessage {
        odometry: Pose::identity(),
        color: ColorImage {
            width: 4,
            height: 4,
            pixels: vec![Color { r: 128, g: 128, b: 128 }; 16],
        },
        color_intrinsics: intr,
        depth: DepthImage { width: 4, height: 4, pixels: vec![depth_raw; 16] },
        depth_intrinsics: intr,
        depth_unit_um: 1000,
    }
}

fn count_points(cloud: &PointCloud, cells: &[GridIndex]) -> usize {
    let mut seen: Vec<GridIndex> = Vec::new();
    let mut total = 0;
    for g in cells {
        if seen.contains(g) {
            continue;
        }
        seen.push(*g);
        if let Some(points) = cloud.grid_map().points_in_grid(g) {
            total += points.len();
        }
    }
    total
}

#[test]
fn merge_inserts_sixteen_points() {
    // one-meter grid, every depth pixel reads one meter
    let mut cloud = PointCloud::new(1_000_000);
    let modified = cloud.merge_images_msg(&frame(1000));
    assert!(!modified.is_empty());
    assert_eq!(count_points(&cloud, &modified), 16);
    for g in &modified {
        if let Some(points) = cloud.grid_map().points_in_grid(g) {
            for p in points.iter() {
                assert_eq!(p.color, Color { r: 128, g: 128, b: 128 });
                // half a meter: depth over focal length
                assert_eq!(p.size, 500_000);
            }
        }
    }
}

#[test]
fn merge_with_no_return_evicts_nothing() {
    let mut cloud = PointCloud::new(1_000_000);
    let first = cloud.merge_images_msg(&frame(1000));
    assert_eq!(count_points(&cloud, &first), 16);
    // a second frame with no depth returns anywhere: zero is never "behind",
    // so nothing is evicted and nothing is inserted
    let second = cloud.merge_images_msg(&frame(0));
    assert!(second.is_empty());
    assert_eq!(count_points(&cloud, &first), 16);
}

#[test]
fn merge_with_far_wall_evicts_near_points() {
    let mut cloud = PointCloud::new(1_000_000);
    let first = cloud.merge_images_msg(&frame(1000));
    assert_eq!(count_points(&cloud, &first), 16);
    // a second frame seeing a wall at two meters: the old one-meter points
    // are no longer supported (the new reading is deeper than they are)
    let second = cloud.merge_images_msg(&frame(2000));
    assert!(!second.is_empty());
    // the one-meter points are gone; the new two-meter points are present
    let mut all_cells: Vec<GridIndex> = first.clone();
    all_cells.extend_from_slice(&second);
    let mut sizes: Vec<i64> = Vec::new();
    let mut seen: Vec<GridIndex> = Vec::new();
    for g in &all_cells {
        if seen.contains(g) {
            continue;
        }
        seen.push(*g);
        if let Some(points) = cloud.grid_map().points_in_grid(g) {
            for p in points.iter() {
                sizes.push(p.size);
            }
        }
    }
    assert_eq!(sizes.len(), 16);
    for s in sizes {
        assert_eq!(s, 1_000_000);
    }
}

#[test]
fn grid_index_floors_toward_negative() {
    let cloud = PointCloud::new(1_000_000);
    let gm = cloud.grid_map();
    let g = gm.grid_index(&Point3 { x: 1_500_000, y: -1, z: -1_000_001 });
    assert_eq!(g, GridIndex { x: 1, y: -1, z: -2 });
}

#[test]
fn projector_round_trip_identity_pose() {
    let proj = Projector::new(intrinsics_4x4(), Pose::identity());
    for u in 0..4u32 {
        for v in 0..4u32 {
            let p = proj.pixel_to_point(u, v, 1_000_000);
            assert_eq!(proj.point_to_pixel(&p), Some((u, v)));
            assert_eq!(proj.point_depth(&p), 1_000_000);
        }
    }
}

#[test]
fn projector_rejects_points_behind_camera() {
    let proj = Projector::new(intrinsics_4x4(), Pose::identity());
    assert_eq!(proj.point_to_pixel(&Point3 { x: -1_000_000, y: 0, z: 0 }), None);
    assert_eq!(proj.point_to_pixel(&Point3 { x: 0, y: 0, z: 0 }), None);
}

#[test]
fn frustum_bound_contains_origin_and_far_corners() {
    let proj = Projector::new(intrinsics_4x4(), Pose::identity());
    let (lo, hi) = proj.aabb(5_000_000);
    assert!(lo.x <= 0 && 0 <= hi.x);
    assert_eq!(hi.x, 5_000_000);
    // left corner column sees out to a full depth, the right one to half
    assert_eq!(hi.y, 5_000_000);
    assert_eq!(lo.y, -2_500_000);
    let corner = proj.pixel_to_point(0, 0, 5_000_000);
    assert!(lo.y <= corner.y && corner.y <= hi.y);
    assert!(lo.z <= corner.z && corner.z <= hi.z);
}

#[test]
fn pose_from_unit_quaternions() {
    let t = Point3 { x: 1000, y: -2000, z: 0 };
    // the identity quaternion gives the identity rotation
    let p = pose_from_quat(0, 0, 0, 65536, t);
    assert_eq!(p.rot, Mat3::identity());
    assert_eq!(p.trans, t);
    // a half turn about the vertical axis flips the two horizontal axes
    let p = pose_from_quat(0, 0, 65536, 0, t);
    assert_eq!(p.rot.xx, -65536);
    assert_eq!(p.rot.yy, -65536);
    assert_eq!(p.rot.zz, 65536);
    assert_eq!(p.rot.xy, 0);
    assert_eq!(p.rot.yx, 0);
}

#[test]
fn translated_pose_round_trips_through_the_projector() {
    let pose = Pose {
        rot: Mat3::identity(),
        trans: Point3 { x: 250_000, y: -125_000, z: 40_000 },
    };
    let proj = Projector::new(intrinsics_4x4(), pose);
    for u in 0..4u32 {
        let p = proj.pixel_to_point(u, 1, 2_000_000);
        assert_eq!(proj.point_to_pixel(&p), Some((u, 1)));
        assert_eq!(proj.point_depth(&p), 2_000_000);
    }
}

#[test]
fn merge_reports_reobserved_cells() {
    // seeing the same surface again replaces each point with an identical
    // one: contents are unchanged, yet the touched cells are reported so the
    // renderer re-meshes what the frame re-observed
    let mut cloud = PointCloud::new(1_000_000);
    let first = cloud.merge_images_msg(&frame(1000));
    assert_eq!(count_points(&cloud, &first), 16);
    let second = cloud.merge_images_msg(&frame(1000));
    assert!(!second.is_empty());
    assert_eq!(count_points(&cloud, &first), 16);
}

#[test]
fn checked_pose_gate() {
    let t = Point3 { x: 0, y: 0, z: 0 };
    assert!(pose_from_quat_checked(0, 0, 0, 65536, t).is_some());
    // a clearly over-unit quaternion is refused
    assert!(pose_from_quat_checked(65536, 65536, 0, 0, t).is_none());
    assert!(pose_from_quat_checked(0, 0, 0, 70000, t).is_none());
}

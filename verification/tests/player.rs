use sdf_physics::player::{is_floor_like, key_axis, MouseMode, Player, PlayerInput, SpawnRequest};
use sdf_physics::vector::{Vec3, Vec4};

const ONE: i32 = 65536;

fn player(position: Vec3, velocity: Vec3, grounded: bool) -> Player {
    Player { position, velocity, grounded, ..Player::init(position) }
}

fn input() -> PlayerInput {
    PlayerInput {
        forward: false,
        back: false,
        left: false,
        right: false,
        jump: false,
        throw: false,
        basis_x: Vec3::new(ONE, 0, 0),
        basis_z: Vec3::new(0, 0, ONE),
        camera_z: Vec3::new(0, 0, ONE),
    }
}

#[test]
fn slow_slide_keeps_half_of_horizontal_momentum() {
    // Speed 1.5, impact at half the way on a wall at 45 degrees.
    let mut p = player(Vec3::zero(), Vec3::new(98304, 0, 0), false);
    p.on_update_pos(16667, Vec4::new(-46341, 0, 46341, 32768));
    // Free and slid velocity together are (71270, 0, 27034); half of it stays.
    assert_eq!(p.get_velocity(), Vec3::new(35635, 0, 13517));
    assert_eq!(p.get_position(), Vec3::new(593, 0, 225));
    assert!(!p.grounded);
}

#[test]
fn fast_slide_keeps_three_quarters_of_horizontal_momentum() {
    // Speed 3.0, same geometry.
    let mut p = player(Vec3::zero(), Vec3::new(196608, 0, 0), false);
    p.on_update_pos(16667, Vec4::new(-46341, 0, 46341, 32768));
    // Free and slid velocity together are (142541, 0, 54067); three quarters stay.
    assert_eq!(p.get_velocity(), Vec3::new(106905, 0, 40550));
    assert_eq!(p.get_position(), Vec3::new(1781, 0, 675));
    assert!(!p.grounded);
}

#[test]
fn landing_on_a_floor_grounds_the_player() {
    let mut p = player(Vec3::new(0, ONE, 0), Vec3::new(ONE, -ONE, 0), false);
    p.on_update_pos(16667, Vec4::new(0, ONE, 0, 32768));
    assert!(p.grounded);
    assert_eq!(p.get_velocity(), Vec3::new(32768, -29491, 0));
    assert_eq!(p.get_position(), Vec3::new(546, 65045, 0));
}

#[test]
fn a_wall_or_no_impact_leaves_the_player_in_the_air() {
    let mut p = player(Vec3::zero(), Vec3::new(ONE, 2 * ONE, 3 * ONE), true);
    p.on_update_pos(500000, Vec4::new(0, 0, 0, ONE));
    assert!(!p.grounded);
    assert_eq!(p.get_velocity(), Vec3::new(ONE, 2 * ONE, 3 * ONE));
    assert_eq!(p.get_position(), Vec3::new(32768, ONE, 98304));

    let mut q = player(Vec3::zero(), Vec3::new(ONE, 0, 0), true);
    q.on_update_pos(16667, Vec4::new(-ONE, 0, 0, 100));
    assert!(!q.grounded);
}

#[test]
fn floor_takes_a_normal_steeper_than_one_half() {
    assert!(is_floor_like(Vec3::new(0, ONE, 0)));
    assert!(is_floor_like(Vec3::new(0, 3, 0)));
    assert!(!is_floor_like(Vec3::new(0, -ONE, 0)));
    assert!(!is_floor_like(Vec3::new(ONE, 0, 0)));
    assert!(!is_floor_like(Vec3::new(0, 0, 0)));
    // The vertical share must exceed one half: 577/1155 does not, 578/1155 does.
    assert!(!is_floor_like(Vec3::new(2, 1, 0)));
    assert!(is_floor_like(Vec3::new(1000, 600, 0)));
    assert!(!is_floor_like(Vec3::new(1000, 577, 0)));
    assert!(is_floor_like(Vec3::new(1000, 578, 0)));
}

#[test]
fn explosion_pushes_within_reach_only() {
    let mut p = player(Vec3::new(ONE, 2 * ONE, -2 * ONE), Vec3::new(1, 2, 3), false);
    p.explosion(Vec3::zero());
    // The offset has length 3; its direction is (1/3, 2/3, -2/3).
    assert_eq!(p.get_velocity(), Vec3::new(218451, 218452, -436897));

    let mut far = player(Vec3::new(5 * ONE, 0, 0), Vec3::zero(), false);
    far.explosion(Vec3::zero());
    assert_eq!(far.get_velocity(), Vec3::zero());

    let mut near = player(Vec3::new(5 * ONE - 1, 0, 0), Vec3::zero(), false);
    near.explosion(Vec3::zero());
    assert_eq!(near.get_velocity(), Vec3::new(655360, 0, 0));

    // The push does not fall off with the distance.
    let mut close = player(Vec3::new(0, -3, 0), Vec3::zero(), false);
    close.explosion(Vec3::zero());
    assert_eq!(close.get_velocity(), Vec3::new(0, -327680, 0));

    let mut inside = player(Vec3::new(7, 7, 7), Vec3::new(9, 9, 9), true);
    inside.explosion(Vec3::new(7, 7, 7));
    assert_eq!(inside.get_velocity(), Vec3::new(9, 9, 9));
    assert!(inside.grounded);
}

#[test]
fn keys_cancel_out() {
    assert_eq!(key_axis(false, false), 0);
    assert_eq!(key_axis(true, true), 0);
    assert_eq!(key_axis(true, false), -1);
    assert_eq!(key_axis(false, true), 1);
}

#[test]
fn ground_steering_snaps_up_per_axis() {
    let mut p = player(Vec3::zero(), Vec3::new(1000, 5, -200000), true);
    let r = p.physics_process(&PlayerInput { right: true, back: true, ..input() }, 16667);
    assert_eq!(r, None);
    // The wished direction is (46341, 0, 46341); times the ground speed: 92682.
    assert_eq!(p.get_velocity(), Vec3::new(92682, 5, -200000));
    assert!(p.grounded);
    assert_eq!(p.get_position(), Vec3::zero());
}

#[test]
fn ground_steering_without_keys_changes_nothing() {
    let mut p = player(Vec3::zero(), Vec3::new(1000, 5, -2000), true);
    p.physics_process(&PlayerInput { left: true, right: true, ..input() }, 16667);
    assert_eq!(p.get_velocity(), Vec3::new(1000, 5, -2000));
}

#[test]
fn air_steering_below_the_cap() {
    let mut p = player(Vec3::zero(), Vec3::new(ONE, 0, 0), false);
    p.physics_process(&PlayerInput { back: true, ..input() }, 16667);
    // Steering adds (0, 0, 32768), gravity (0, -5461, 0).
    assert_eq!(p.get_velocity(), Vec3::new(ONE, -5461, 32768));
    assert!(!p.grounded);
}

#[test]
fn air_steering_stops_at_the_cap() {
    let mut p = player(Vec3::zero(), Vec3::new(190000, 5, 0), false);
    p.physics_process(&PlayerInput { right: true, ..input() }, 1000000);
    assert_eq!(p.get_velocity(), Vec3::new(196608, 5 - 327680, 0));
}

#[test]
fn air_steering_over_the_cap() {
    // Along the motion only the part across it acts.
    let mut p = player(Vec3::zero(), Vec3::new(4 * ONE, 7, 0), false);
    p.physics_process(&PlayerInput { right: true, back: true, ..input() }, 100000);
    assert_eq!(p.get_velocity(), Vec3::new(4 * ONE, 7 - 32768, 139023));
    // Against the motion three quarters of the force act.
    let mut q = player(Vec3::zero(), Vec3::new(4 * ONE, 7, 0), false);
    q.physics_process(&PlayerInput { left: true, ..input() }, 100000);
    assert_eq!(q.get_velocity(), Vec3::new(114688, 7 - 32768, 0));
}

#[test]
fn jump_only_from_the_ground() {
    let mut p = player(Vec3::zero(), Vec3::new(10, -3, 20), true);
    p.physics_process(&PlayerInput { jump: true, ..input() }, 16667);
    assert_eq!(p.get_velocity(), Vec3::new(10, 131072, 20));
    assert!(!p.grounded);

    let mut q = player(Vec3::zero(), Vec3::new(10, -3, 20), false);
    q.physics_process(&PlayerInput { jump: true, ..input() }, 16667);
    assert_eq!(q.get_velocity(), Vec3::new(10, -3 - 5461, 20));
    assert!(!q.grounded);
}

#[test]
fn gravity_is_suppressed_on_the_ground() {
    let mut p = player(Vec3::zero(), Vec3::new(10, 0, 20), true);
    p.physics_process(&input(), 1000000);
    assert_eq!(p.get_velocity(), Vec3::new(10, 0, 20));
    assert!(p.grounded);
}

#[test]
fn throw_asks_for_a_grenade_along_the_line_of_sight() {
    let mut p = player(Vec3::new(ONE, 2 * ONE, 3 * ONE), Vec3::zero(), true);
    let r = p.physics_process(&PlayerInput { throw: true, ..input() }, 16667);
    assert_eq!(
        r,
        Some(SpawnRequest {
            position: Vec3::new(ONE, 157286, 170394),
            direction: Vec3::new(0, 0, -ONE),
        })
    );
}

#[test]
fn point_cloud_is_feet_and_three_rings() {
    let p = player(Vec3::new(100, 200, 300), Vec3::zero(), false);
    let points = p.get_points();
    assert_eq!(points.len(), 19);
    assert_eq!(points[0], Vec4::new(100, 200, 300, ONE));
    assert_eq!(points[1], Vec4::new(100, 200 + 32768, 300 + 6554, ONE));
    assert_eq!(points[2], Vec4::new(100, 200 + 19661, 300 + 6554, ONE));
    assert_eq!(points[3], Vec4::new(100, 200, 300 + 6554, ONE));
    assert_eq!(points[4], Vec4::new(100 + 5676, 200 + 32768, 300 + 3277, ONE));
    assert_eq!(points[9], Vec4::new(100 + 5676, 200, 300 - 3277, ONE));
    assert_eq!(points[10], Vec4::new(100, 200 + 32768, 300 - 6554, ONE));
    assert_eq!(points[15], Vec4::new(100 - 5676, 200, 300 - 3277, ONE));
    assert_eq!(points[18], Vec4::new(100 - 5676, 200, 300 + 3277, ONE));
}

#[test]
fn update_pos_resolves_against_the_earliest_impact() {
    let events = vec![
        Vec4::new(0, 0, 0, ONE),
        Vec4::new(0, ONE, 0, 50000),
        Vec4::new(-46341, 0, 46341, 32768),
        Vec4::new(0, 0, 0, 100),
    ];
    let mut p = player(Vec3::zero(), Vec3::new(98304, 0, 0), true);
    p.update_pos(16667, &events);
    assert_eq!(p.get_velocity(), Vec3::new(35635, 0, 13517));
    assert!(!p.grounded);

    let mut q = player(Vec3::zero(), Vec3::new(98304, 0, 0), true);
    q.update_pos(1000000, &vec![Vec4::new(0, 0, 0, ONE), Vec4::new(0, 0, 0, 7)]);
    assert_eq!(q.get_velocity(), Vec3::new(98304, 0, 0));
    assert_eq!(q.get_position(), Vec3::new(98304, 0, 0));
    assert!(!q.grounded);
}

#[test]
fn add_position_moves_the_player() {
    let mut p = player(Vec3::new(1, 2, 3), Vec3::new(7, 8, 9), true);
    p.add_position(Vec3::new(10, -20, 30));
    assert_eq!(p.get_position(), Vec3::new(11, -18, 33));
    assert_eq!(p.get_velocity(), Vec3::new(7, 8, 9));
    assert!(p.grounded);
}

#[test]
fn look_turns_and_pitch_is_limited() {
    let mut p = Player::init(Vec3::zero());
    p.rotate_camera(500, -1000);
    assert_eq!(p.look_yaw, -1);
    assert_eq!(p.look_pitch, 2);
    p.rotate_camera(499, 0);
    assert_eq!(p.look_yaw, -1);
    p.rotate_camera(0, -65536000);
    assert_eq!(p.look_pitch, 97224);
    p.rotate_camera(0, i32::MAX);
    assert_eq!(p.look_pitch, -97224);
}

#[test]
fn mouse_capture_follows_click_and_escape() {
    let mut p = Player::init(Vec3::zero());
    assert_eq!(p.unhandled_input(false, false, Some((500, 0))), None);
    assert_eq!(p.look_yaw, 0);
    assert!(!p.mouse_captured);
    assert_eq!(p.unhandled_input(true, true, Some((500, 0))), Some(MouseMode::Captured));
    assert!(p.mouse_captured);
    assert_eq!(p.look_yaw, -1);
    assert_eq!(p.unhandled_input(false, false, Some((500, 0))), None);
    assert_eq!(p.look_yaw, -2);
    assert_eq!(p.unhandled_input(false, true, Some((500, 0))), Some(MouseMode::Visible));
    assert!(!p.mouse_captured);
    assert_eq!(p.look_yaw, -2);
}

use cheatlib::vint3::VInt3;

#[test]
fn test_vint3_constructors() {
    assert_eq!(VInt3::new(1, 2, 3), VInt3 { x: 1, y: 2, z: 3 });
    assert_eq!(VInt3::zero(), VInt3 { x: 0, y: 0, z: 0 });
    assert_eq!(VInt3::one(), VInt3 { x: 1, y: 1, z: 1 });
    assert_eq!(VInt3::up(), VInt3 { x: 0, y: 1, z: 0 });
    assert_eq!(VInt3::down(), VInt3 { x: 0, y: -1, z: 0 });
    assert_eq!(VInt3::left(), VInt3 { x: -1, y: 0, z: 0 });
    assert_eq!(VInt3::right(), VInt3 { x: 1, y: 0, z: 0 });
    assert_eq!(VInt3::forward(), VInt3 { x: 0, y: 0, z: 1 });
    assert_eq!(VInt3::backward(), VInt3 { x: 0, y: 0, z: -1 });
}

#[test]
fn test_vint3_dot_cross() {
    let a = VInt3::new(1, 2, 3);
    let b = VInt3::new(4, 5, 6);
    assert_eq!(VInt3::dot(a, b), 32);
    assert_eq!(VInt3::cross(a, b), VInt3 { x: -3, y: 6, z: -3 });
    assert_eq!(VInt3::scale(a, b), VInt3 { x: 4, y: 10, z: 18 });
    assert_eq!(VInt3::sqr_magnitude(a), 14);
}

#[test]
fn test_vint3_magnitude() {
    assert_eq!(VInt3::magnitude(VInt3::new(3, 4, 0)), 5);
    assert_eq!(VInt3::magnitude(VInt3::new(1, 1, 1)), 1); // floor of sqrt(3)
    assert_eq!(VInt3::magnitude(VInt3::zero()), 0);
    assert_eq!(VInt3::distance(VInt3::new(3, 4, 0), VInt3::zero()), 5);
}

#[test]
fn test_vint3_normalized() {
    assert_eq!(VInt3::normalized(VInt3::new(5, 0, 0)), VInt3 { x: 1, y: 0, z: 0 });
    assert_eq!(VInt3::normalized(VInt3::zero()), VInt3::zero());
    assert_eq!(VInt3::normalized(VInt3::new(-10, 0, 0)), VInt3 { x: -1, y: 0, z: 0 });
}

#[test]
fn test_vint3_lerp() {
    let a = VInt3::new(0, 0, 0);
    let b = VInt3::new(10, 20, 30);
    assert_eq!(VInt3::lerp(a, b, -1), a);
    assert_eq!(VInt3::lerp(a, b, 0), a);
    assert_eq!(VInt3::lerp(a, b, 1), b);
    assert_eq!(VInt3::lerp(a, b, 2), b);
    assert_eq!(VInt3::lerp_unclamped(a, b, 2), VInt3 { x: 20, y: 40, z: 60 });
    assert_eq!(VInt3::slerp(a, b, 1), b);
    assert_eq!(VInt3::slerp_unclamped(a, b, 0), a);
}

#[test]
fn test_vint3_min_max() {
    let a = VInt3::new(1, 5, -3);
    let b = VInt3::new(2, 4, -6);
    assert_eq!(VInt3::max(a, b), VInt3 { x: 2, y: 5, z: -3 });
    assert_eq!(VInt3::min(a, b), VInt3 { x: 1, y: 4, z: -6 });
}

#[test]
fn test_vint3_projection() {
    let a = VInt3::new(3, 4, 0);
    let b = VInt3::new(2, 0, 0);
    // projection scale: dot / mag^2 = 6 / 4 = 1
    assert_eq!(VInt3::project(a, b), VInt3 { x: 2, y: 0, z: 0 });
    assert_eq!(VInt3::reject(a, b), VInt3 { x: 1, y: 4, z: 0 });
    assert_eq!(VInt3::project_on_plane(a, b), VInt3 { x: 1, y: 4, z: 0 });
    assert_eq!(VInt3::reflect(a, b), VInt3 { x: -1, y: 4, z: 0 });
    assert_eq!(VInt3::component(a, b), 3);
}

#[test]
fn test_vint3_clamp_move() {
    let v = VInt3::new(9, 0, 0);
    assert_eq!(VInt3::clamp_magnitude(v, 3), VInt3 { x: 0, y: 0, z: 0 }); // 3/9 truncates
    assert_eq!(VInt3::clamp_magnitude(v, 9), v);
    assert_eq!(VInt3::clamp_magnitude(v, 20), v);

    let target = VInt3::new(10, 0, 0);
    assert_eq!(VInt3::move_towards(VInt3::zero(), target, 20), target);
    assert_eq!(
        VInt3::move_towards(VInt3::zero(), target, 5),
        VInt3 { x: 0, y: 0, z: 0 }  // 5/10 truncates to zero steps
    );
}

#[test]
fn test_vint3_orthogonal() {
    let v = VInt3::new(5, 2, 1);
    assert_eq!(VInt3::orthogonal(v), VInt3 { x: 2, y: -5, z: 0 });
    let w = VInt3::new(1, 2, 5);
    assert_eq!(VInt3::orthogonal(w), VInt3 { x: 0, y: -5, z: 2 });
}

#[test]
fn test_vint3_ortho_normalize() {
    let mut normal = VInt3::new(9, 0, 0);
    let mut tangent = VInt3::new(3, 7, 0);
    let mut binormal = VInt3::new(1, 2, 11);
    VInt3::ortho_normalize(&mut normal, &mut tangent, &mut binormal);
    assert_eq!(normal, VInt3 { x: 1, y: 0, z: 0 });
    assert_eq!(tangent, VInt3 { x: 0, y: 1, z: 0 });
    assert_eq!(binormal, VInt3 { x: 0, y: 0, z: 1 });
}

#[test]
fn test_vector3_operations() {
    let v1 = VInt3::new(1, 2, 3);
    let v2 = VInt3::new(4, 5, 6);

    let sum = VInt3::add(v1, v2);
    assert_eq!(sum.x, 5);
    assert_eq!(sum.y, 7);
    assert_eq!(sum.z, 9);
}

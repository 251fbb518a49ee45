use stacked_worlds::draw::{ShapeClass, Size};
use stacked_worlds::physics::objects::density;
use stacked_worlds::physics::registry::{boundaries, collider_margin, gravity, Boundary};
use stacked_worlds::scalar::Scalar;

fn s(x: f64) -> Scalar {
    Scalar::from_bits(x.to_bits())
}

#[test]
fn the_boundaries_enclose_the_room() {
    let walls = boundaries(&Size { width: s(640.0), height: s(480.0) });
    assert_eq!(
        walls,
        [
            Boundary { normal: (s(0.0), s(1.0)), position: (s(0.0), s(0.0)) },
            Boundary { normal: (s(0.0), s(-1.0)), position: (s(0.0), s(480.0)) },
            Boundary { normal: (s(1.0), s(0.0)), position: (s(0.0), s(0.0)) },
            Boundary { normal: (s(-1.0), s(0.0)), position: (s(640.0), s(0.0)) },
        ]
    );
}

#[test]
fn gravity_pulls_along_y() {
    assert_eq!(gravity(), (s(0.0), s(500.0)));
}

#[test]
fn the_margin_of_a_collision_shape() {
    assert_eq!(collider_margin(), s(0.1));
}

#[test]
fn chain_links_are_lighter_than_balls() {
    assert_eq!(density(ShapeClass::ChainLink), s(0.8));
    assert_eq!(density(ShapeClass::Ball), s(1.0));
    assert!(density(ShapeClass::ChainLink).lt(&density(ShapeClass::Ball)));
}

use rubiks::cube::{Colour, FaceType, Move};
use rubiks::facelet::{Cube, Face, FaceSegment};

fn mv(text: &str) -> Move {
    text.parse().unwrap()
}

#[test]
fn solved_cube_faces_are_plain() {
    let cube: Cube<3> = Cube::new();
    for r in 0..3 {
        for c in 0..3 {
            assert_eq!(cube.face(FaceType::F).get(r, c), Colour::Green);
            assert_eq!(cube.face(FaceType::U).get(r, c), Colour::White);
        }
    }
    assert_eq!(Colour::of_face(FaceType::D).letter(), 'y');
}

#[test]
fn right_turn_moves_front_column_up() {
    let cube: Cube<3> = Cube::new().perform(mv("R"));
    for r in 0..3 {
        assert_eq!(cube.face(FaceType::U).get(r, 2), Colour::Green);
        assert_eq!(cube.face(FaceType::U).get(r, 0), Colour::White);
        assert_eq!(cube.face(FaceType::F).get(r, 2), Colour::Yellow);
        assert_eq!(cube.face(FaceType::B).get(r, 0), Colour::White);
        assert_eq!(cube.face(FaceType::R).get(r, 1), Colour::Red);
    }
}

#[test]
fn four_quarter_turns_restore_the_cube() {
    for text in ["R", "U", "F", "L'", "M", "b", "E2"] {
        let mut cube: Cube<3> = Cube::new();
        for _ in 0..4 {
            cube = cube.perform(mv(text));
        }
        let solved: Cube<3> = Cube::new();
        for face in [FaceType::F, FaceType::R, FaceType::U, FaceType::B, FaceType::L, FaceType::D] {
            for r in 0..3 {
                for c in 0..3 {
                    assert_eq!(cube.face(face).get(r, c), solved.face(face).get(r, c));
                }
            }
        }
    }
}

#[test]
fn face_rotations() {
    let cube: Cube<3> = Cube::new().perform(mv("R"));
    let u = cube.face(FaceType::U);
    let cw = u.rotate_cw();
    assert_eq!(cw.get(2, 0), Colour::Green);
    assert_eq!(cw.get(0, 0), Colour::White);
    let ccw = u.rotate_ccw();
    assert_eq!(ccw.get(0, 0), Colour::Green);
    let double = u.rotate_double();
    assert_eq!(double.get(0, 0), Colour::Green);
    let back = cw.rotate_ccw();
    for r in 0..3 {
        for c in 0..3 {
            assert_eq!(back.get(r, c), u.get(r, c));
        }
    }
    let plain: Face<3> = Face::new(FaceType::L);
    let copied = plain.overwrite_from(0, 1, FaceSegment::Top, u, FaceSegment::Right);
    assert_eq!(copied.get(0, 0), Colour::Green);
    assert_eq!(copied.get(1, 0), Colour::Orange);
}

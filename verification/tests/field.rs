use jigsaw_solver::field::{Field, Place};
use jigsaw_solver::geometry::{Orientation, Rotation, Vector};
use jigsaw_solver::piece::{has_distinct_ids, EdgeShape, JigsawEdge, JigsawPiece};

fn edge(shape: EdgeShape, is_inverted: bool) -> JigsawEdge {
    JigsawEdge { shape, is_inverted, numbers: [String::from("a"), String::from("b")] }
}

fn plain(id: u8) -> JigsawPiece {
    JigsawPiece {
        id,
        top: edge(EdgeShape::Trapeze, false),
        right: edge(EdgeShape::Trapeze, false),
        bottom: edge(EdgeShape::Trapeze, false),
        left: edge(EdgeShape::Trapeze, false),
    }
}

fn with_right(id: u8, right: JigsawEdge) -> JigsawPiece {
    JigsawPiece { right, ..plain(id) }
}

fn with_left(id: u8, left: JigsawEdge) -> JigsawPiece {
    JigsawPiece { left, ..plain(id) }
}

fn side_by_side<'a>(pool: &'a Vec<JigsawPiece>) -> Field<'a> {
    Field {
        pieces: pool,
        places: vec![
            Place { rotation: Rotation::new(), place: Vector { x: 1, y: -1 }, piece: &pool[0] },
            Place { rotation: Rotation::new(), place: Vector { x: 3, y: -1 }, piece: &pool[1] },
        ],
    }
}

#[test]
fn position_to_vector_fills_rows_of_three() {
    let expected: [(i8, i8); 9] =
        [(1, -1), (3, -1), (5, -1), (1, -3), (3, -3), (5, -3), (1, -5), (3, -5), (5, -5)];
    for n in 0..9i8 {
        let v = Field::position_to_vector(n);
        assert_eq!((v.x, v.y), expected[n as usize]);
    }
}

#[test]
fn position_to_vector_at_the_limits() {
    assert_eq!(Field::position_to_vector(63), Vector { x: 1, y: -43 });
    assert_eq!(Field::position_to_vector(62), Vector { x: 5, y: -41 });
    assert_eq!(Field::position_to_vector(-1), Vector { x: -1, y: -1 });
    assert_eq!(Field::position_to_vector(-4), Vector { x: -1, y: 1 });
    assert_eq!(Field::position_to_vector(-64), Vector { x: -1, y: 41 });
}

#[test]
fn empty_field_is_valid() {
    let empty: Vec<JigsawPiece> = Vec::new();
    assert!(Field { pieces: &empty, places: Vec::new() }.is_valid());
    let pool = vec![plain(0), plain(1)];
    assert!(Field { pieces: &pool, places: Vec::new() }.is_valid());
}

#[test]
fn single_piece_is_valid_in_every_rotation() {
    let pool = vec![plain(7)];
    for k in 0..4usize {
        let field = Field {
            pieces: &pool,
            places: vec![Place {
                rotation: Rotation::new().rotate_n(k),
                place: Vector { x: 1, y: -1 },
                piece: &pool[0],
            }],
        };
        assert!(field.is_valid());
    }
}

#[test]
fn tab_meets_blank_of_the_same_shape() {
    let pool = vec![
        with_right(0, edge(EdgeShape::Circle, false)),
        with_left(1, edge(EdgeShape::Circle, true)),
    ];
    assert!(side_by_side(&pool).is_valid());
    let pool = vec![
        with_right(0, edge(EdgeShape::Circle, true)),
        with_left(1, edge(EdgeShape::Circle, false)),
    ];
    assert!(side_by_side(&pool).is_valid());
}

#[test]
fn tab_against_tab_is_invalid() {
    let pool = vec![
        with_right(0, edge(EdgeShape::Circle, false)),
        with_left(1, edge(EdgeShape::Circle, false)),
    ];
    assert!(!side_by_side(&pool).is_valid());
    let pool = vec![
        with_right(0, edge(EdgeShape::Circle, true)),
        with_left(1, edge(EdgeShape::Circle, true)),
    ];
    assert!(!side_by_side(&pool).is_valid());
}

#[test]
fn different_shapes_are_invalid_whatever_the_inversion() {
    for a in [false, true] {
        for b in [false, true] {
            let pool = vec![
                with_right(0, edge(EdgeShape::Circle, a)),
                with_left(1, edge(EdgeShape::Rect, b)),
            ];
            assert!(!side_by_side(&pool).is_valid());
        }
    }
}

#[test]
fn pieces_that_do_not_touch_are_valid() {
    let pool = vec![
        with_right(0, edge(EdgeShape::Circle, false)),
        with_left(1, edge(EdgeShape::Rect, false)),
    ];
    let field = Field {
        pieces: &pool,
        places: vec![
            Place { rotation: Rotation::new(), place: Vector { x: 1, y: -1 }, piece: &pool[0] },
            Place { rotation: Rotation::new(), place: Vector { x: 5, y: -1 }, piece: &pool[1] },
        ],
    };
    assert!(field.is_valid());
}

#[test]
fn rotation_decides_which_edge_touches() {
    // After one quarter turn the top edge of a piece points to the left.
    let mut second = plain(1);
    second.top = edge(EdgeShape::Circle, true);
    second.left = edge(EdgeShape::Rect, true);
    let pool = vec![with_right(0, edge(EdgeShape::Circle, false)), second];
    let field = |turns: usize| Field {
        pieces: &pool,
        places: vec![
            Place { rotation: Rotation::new(), place: Vector { x: 1, y: -1 }, piece: &pool[0] },
            Place {
                rotation: Rotation::new().rotate_n(turns),
                place: Vector { x: 3, y: -1 },
                piece: &pool[1],
            },
        ],
    };
    assert!(!field(0).is_valid());
    assert!(field(1).is_valid());
    assert!(!field(2).is_valid());
    assert!(!field(3).is_valid());
}

#[test]
fn validity_ignores_the_order_of_the_placements() {
    let pools = [
        vec![
            with_right(0, edge(EdgeShape::Circle, false)),
            with_left(1, edge(EdgeShape::Circle, true)),
        ],
        vec![
            with_right(0, edge(EdgeShape::Circle, false)),
            with_left(1, edge(EdgeShape::Triangle, true)),
        ],
    ];
    for (pool, expected) in pools.iter().zip([true, false]) {
        let forward = side_by_side(pool);
        let backward =
            Field { pieces: pool, places: vec![forward.places[1], forward.places[0]] };
        assert_eq!(forward.is_valid(), expected);
        assert_eq!(backward.is_valid(), expected);
    }
}

#[test]
fn three_edges_at_one_point_make_the_field_invalid() {
    // Pieces 0 and 1 lie on the same point and all their own pairs fit;
    // piece 2 lies to the right with an edge that fits the one of piece 0.
    let first = JigsawPiece {
        id: 0,
        top: edge(EdgeShape::Circle, false),
        right: edge(EdgeShape::Circle, false),
        bottom: edge(EdgeShape::Circle, false),
        left: edge(EdgeShape::Circle, false),
    };
    let second = JigsawPiece {
        id: 1,
        top: edge(EdgeShape::Circle, true),
        right: edge(EdgeShape::Circle, true),
        bottom: edge(EdgeShape::Circle, true),
        left: edge(EdgeShape::Circle, true),
    };
    let pool = vec![first, second, with_left(2, edge(EdgeShape::Circle, true))];
    let field = Field {
        pieces: &pool,
        places: vec![
            Place { rotation: Rotation::new(), place: Vector { x: 1, y: -1 }, piece: &pool[0] },
            Place { rotation: Rotation::new(), place: Vector { x: 1, y: -1 }, piece: &pool[1] },
            Place { rotation: Rotation::new(), place: Vector { x: 3, y: -1 }, piece: &pool[2] },
        ],
    };
    assert!(!field.is_valid());
    // Any two of the three alone put no more than two edges on a point,
    // and the two that touch fit.
    let stacked = Field { pieces: &pool, places: vec![field.places[0], field.places[1]] };
    assert!(stacked.is_valid());
    let side_by_side = Field { pieces: &pool, places: vec![field.places[0], field.places[2]] };
    assert!(side_by_side.is_valid());
    // The order of the placements makes no difference.
    let reordered = Field {
        pieces: &pool,
        places: vec![field.places[2], field.places[1], field.places[0]],
    };
    assert!(!reordered.is_valid());
}

#[test]
fn three_pieces_on_one_point_are_invalid() {
    for inverted in [[false, false, false], [false, true, false], [true, true, false]] {
        let pool: Vec<JigsawPiece> = (0..3u8)
            .map(|id| JigsawPiece {
                id,
                top: edge(EdgeShape::Circle, inverted[id as usize]),
                right: edge(EdgeShape::Circle, inverted[id as usize]),
                bottom: edge(EdgeShape::Circle, inverted[id as usize]),
                left: edge(EdgeShape::Circle, inverted[id as usize]),
            })
            .collect();
        let field = Field {
            pieces: &pool,
            places: pool
                .iter()
                .map(|piece| Place {
                    rotation: Rotation::new(),
                    place: Vector { x: 1, y: -1 },
                    piece,
                })
                .collect(),
        };
        assert!(!field.is_valid());
    }
}

#[test]
fn four_edges_at_one_point_are_invalid() {
    // Four pieces one unit from the point (2, -2), one on each side of it,
    // so that each has an edge there.
    let pool: Vec<JigsawPiece> = (0..4u8).map(plain).collect();
    let centres = [(2i8, -1i8), (3, -2), (2, -3), (1, -2)];
    let field = Field {
        pieces: &pool,
        places: (0..4usize)
            .map(|n| Place {
                rotation: Rotation::new(),
                place: Vector { x: centres[n].0, y: centres[n].1 },
                piece: &pool[n],
            })
            .collect(),
    };
    assert!(!field.is_valid());
}

#[test]
fn validity_at_the_limits_of_the_coordinates() {
    let pool = vec![
        with_right(0, edge(EdgeShape::Circle, false)),
        with_left(1, edge(EdgeShape::Circle, true)),
    ];
    let field = Field {
        pieces: &pool,
        places: vec![
            Place { rotation: Rotation::new(), place: Vector { x: 125, y: 127 }, piece: &pool[0] },
            Place { rotation: Rotation::new(), place: Vector { x: 127, y: 127 }, piece: &pool[1] },
        ],
    };
    assert!(field.is_valid());
    // The right edge of a piece at x = 127 lies at 128 and cannot meet the
    // left edge of a piece at x = -127, which lies at -128.
    let pool = vec![
        with_right(0, edge(EdgeShape::Circle, false)),
        with_left(1, edge(EdgeShape::Rect, false)),
    ];
    let field = Field {
        pieces: &pool,
        places: vec![
            Place { rotation: Rotation::new(), place: Vector { x: 127, y: 0 }, piece: &pool[0] },
            Place { rotation: Rotation::new(), place: Vector { x: -127, y: 0 }, piece: &pool[1] },
        ],
    };
    assert!(field.is_valid());
}

#[test]
fn next_move_lays_each_unused_piece_in_each_rotation() {
    let pool = vec![plain(10), plain(11), plain(12)];
    let start = Field { pieces: &pool, places: Vec::new() };
    let first = start.next_move();
    assert_eq!(first.len(), 12);
    for (k, field) in first.iter().enumerate() {
        assert_eq!(field.places.len(), 1);
        assert_eq!(field.pieces.len(), 3);
        let place = field.places[0];
        assert_eq!(place.piece.id, pool[k / 4].id);
        assert_eq!(place.rotation, Rotation::new().rotate_n(k % 4));
        assert_eq!(place.place, Vector { x: 1, y: -1 });
    }
    // Second level, from the state that laid piece 11 after two turns.
    let parent = &first[6];
    let second = parent.next_move();
    assert_eq!(second.len(), 8);
    let expected_ids = [10u8, 10, 10, 10, 12, 12, 12, 12];
    for (k, field) in second.iter().enumerate() {
        assert_eq!(field.places.len(), 2);
        assert_eq!(field.places[0].piece.id, 11);
        assert_eq!(field.places[0].rotation, Rotation::new().rotate_n(2));
        assert_eq!(field.places[0].place, Vector { x: 1, y: -1 });
        assert_eq!(field.places[1].piece.id, expected_ids[k]);
        assert_eq!(field.places[1].rotation.get_turns() as usize, k % 4);
        assert_eq!(field.places[1].place, Vector { x: 3, y: -1 });
    }
    // The parent is left as it was.
    assert_eq!(parent.places.len(), 1);
}

#[test]
fn next_move_pairs_are_distinct_and_share_the_slot() {
    let pool: Vec<JigsawPiece> = (0..5u8).map(plain).collect();
    let start = Field { pieces: &pool, places: Vec::new() };
    let parent = &start.next_move()[9];
    let next = parent.next_move();
    assert_eq!(next.len(), 4 * 4);
    let mut seen: Vec<(u8, u8)> = Vec::new();
    for field in next.iter() {
        assert_eq!(field.places.len(), parent.places.len() + 1);
        let added = field.places[field.places.len() - 1];
        assert_eq!(added.place, Field::position_to_vector(1));
        assert_ne!(added.piece.id, parent.places[0].piece.id);
        let pair = (added.piece.id, added.rotation.get_turns());
        assert!(!seen.contains(&pair));
        seen.push(pair);
    }
}

#[test]
fn next_move_of_a_complete_field_is_empty() {
    let pool = vec![plain(0)];
    let start = Field { pieces: &pool, places: Vec::new() };
    let next = start.next_move();
    assert_eq!(next.len(), 4);
    for field in next.iter() {
        assert!(field.next_move().is_empty());
    }
    let empty: Vec<JigsawPiece> = Vec::new();
    assert!(Field { pieces: &empty, places: Vec::new() }.next_move().is_empty());
}

#[test]
fn next_move_compares_pieces_by_id() {
    // Two pieces with the same id: laying one uses up both.
    let pool = vec![plain(3), plain(3), plain(4)];
    let start = Field { pieces: &pool, places: Vec::new() };
    let first = start.next_move();
    assert_eq!(first.len(), 12);
    let next = first[0].next_move();
    assert_eq!(next.len(), 4);
    for field in next.iter() {
        assert_eq!(field.places[1].piece.id, 4);
    }
}

#[test]
fn next_move_works_up_to_sixty_four_pieces() {
    let pool: Vec<JigsawPiece> = (0..64u8).map(plain).collect();
    let mut places = Vec::new();
    for n in 0..63i8 {
        places.push(Place {
            rotation: Rotation::new(),
            place: Field::position_to_vector(n),
            piece: &pool[n as usize],
        });
    }
    let field = Field { pieces: &pool, places };
    let next = field.next_move();
    assert_eq!(next.len(), 4);
    assert_eq!(next[0].places[63].place, Vector { x: 1, y: -43 });
    assert_eq!(next[0].places[63].piece.id, 63);
    assert!(next[3].next_move().is_empty());
}

#[test]
fn pieces_are_equal_when_their_ids_are() {
    assert!(plain(1) == with_right(1, edge(EdgeShape::Circle, true)));
    assert!(plain(1) != plain(2));
}

#[test]
fn edges_match_on_shape_and_opposite_inversion() {
    let shapes = [EdgeShape::Circle, EdgeShape::Rect, EdgeShape::Triangle, EdgeShape::Trapeze];
    for (i, a) in shapes.iter().enumerate() {
        for (j, b) in shapes.iter().enumerate() {
            for x in [false, true] {
                for y in [false, true] {
                    assert_eq!(edge(*a, x).matches(&edge(*b, y)), i == j && x != y);
                }
            }
        }
    }
}

#[test]
fn distinct_ids_are_told_from_repeated_ones() {
    assert!(has_distinct_ids(&Vec::new()));
    assert!(has_distinct_ids(&vec![plain(3)]));
    assert!(has_distinct_ids(&vec![plain(3), plain(1), plain(2), plain(0)]));
    assert!(!has_distinct_ids(&vec![plain(3), plain(3)]));
    assert!(!has_distinct_ids(&vec![plain(3), plain(1), plain(2), plain(1)]));
    assert!(!has_distinct_ids(&vec![plain(0), plain(1), plain(2), plain(0)]));
}

#[test]
fn edge_returns_the_edge_of_the_side() {
    let piece = JigsawPiece {
        id: 1,
        top: edge(EdgeShape::Circle, false),
        right: edge(EdgeShape::Rect, true),
        bottom: edge(EdgeShape::Triangle, false),
        left: edge(EdgeShape::Trapeze, true),
    };
    assert_eq!(piece.edge(Orientation::Top).shape, EdgeShape::Circle);
    assert!(!piece.edge(Orientation::Top).is_inverted);
    assert_eq!(piece.edge(Orientation::Right).shape, EdgeShape::Rect);
    assert!(piece.edge(Orientation::Right).is_inverted);
    assert_eq!(piece.edge(Orientation::Bottom).shape, EdgeShape::Triangle);
    assert!(!piece.edge(Orientation::Bottom).is_inverted);
    assert_eq!(piece.edge(Orientation::Left).shape, EdgeShape::Trapeze);
    assert!(piece.edge(Orientation::Left).is_inverted);
    assert_eq!(piece.edge(Orientation::Left).numbers, [String::from("a"), String::from("b")]);
}

#[test]
fn from_edges_takes_the_sides_in_any_order() {
    let piece = JigsawPiece::from_edges(
        9,
        vec![
            (Orientation::Left, edge(EdgeShape::Trapeze, true)),
            (Orientation::Top, edge(EdgeShape::Circle, false)),
            (Orientation::Bottom, edge(EdgeShape::Triangle, false)),
            (Orientation::Right, edge(EdgeShape::Rect, true)),
        ],
    )
    .unwrap();
    assert_eq!(piece.id, 9);
    assert_eq!(piece.top.shape, EdgeShape::Circle);
    assert_eq!(piece.right.shape, EdgeShape::Rect);
    assert_eq!(piece.bottom.shape, EdgeShape::Triangle);
    assert_eq!(piece.left.shape, EdgeShape::Trapeze);
    assert!(!piece.top.is_inverted);
    assert!(piece.right.is_inverted);
    assert!(!piece.bottom.is_inverted);
    assert!(piece.left.is_inverted);
}

#[test]
fn from_edges_wants_each_side_once() {
    assert!(JigsawPiece::from_edges(1, Vec::new()).is_none());
    let three = vec![
        (Orientation::Top, edge(EdgeShape::Circle, false)),
        (Orientation::Right, edge(EdgeShape::Circle, false)),
        (Orientation::Bottom, edge(EdgeShape::Circle, false)),
    ];
    assert!(JigsawPiece::from_edges(1, three).is_none());
    let repeated = vec![
        (Orientation::Top, edge(EdgeShape::Circle, false)),
        (Orientation::Right, edge(EdgeShape::Circle, false)),
        (Orientation::Bottom, edge(EdgeShape::Circle, false)),
        (Orientation::Top, edge(EdgeShape::Circle, false)),
    ];
    assert!(JigsawPiece::from_edges(1, repeated).is_none());
    let five = vec![
        (Orientation::Top, edge(EdgeShape::Circle, false)),
        (Orientation::Right, edge(EdgeShape::Circle, false)),
        (Orientation::Bottom, edge(EdgeShape::Circle, false)),
        (Orientation::Left, edge(EdgeShape::Circle, false)),
        (Orientation::Left, edge(EdgeShape::Circle, false)),
    ];
    assert!(JigsawPiece::from_edges(1, five).is_none());
}

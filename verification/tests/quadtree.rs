use nbody::fixed::Fixed;
use nbody::physics::Body;
use nbody::quadtree::{SquareBox, SquareQuadtree};

fn fx(x: f64) -> Fixed {
    Fixed::from_raw((x * 1e9).round() as i64)
}

fn body_at(x: f64, y: f64) -> Body {
    Body {
        position: [fx(x), fx(y)],
        mass: fx(1.0),
        velocity: [fx(0.0), fx(0.0)],
        radius: fx(1.0),
        color: [255; 4],
    }
}

#[test]
fn test_square_box() {
    let square = SquareBox::new([fx(0.0), fx(0.0)], fx(1.0));

    assert_eq!(square.x_min(), fx(-1.0));
    assert_eq!(square.x_max(), fx(1.0));
    assert_eq!(square.y_min(), fx(-1.0));
    assert_eq!(square.y_max(), fx(1.0));

    let point = [fx(0.5), fx(0.5)];
    assert!(square.contains(&point));
    assert_eq!(square.get_quadrant_unchecked(&point), 0);

    let point = [fx(-0.5), fx(0.5)];
    assert!(square.contains(&point));
    assert_eq!(square.get_quadrant_unchecked(&point), 1);

    let point = [fx(-0.5), fx(-0.5)];
    assert!(square.contains(&point));
    assert_eq!(square.get_quadrant_unchecked(&point), 2);

    let point = [fx(0.5), fx(-0.5)];
    assert!(square.contains(&point));
    assert_eq!(square.get_quadrant_unchecked(&point), 3);
}

#[test]
fn test_quadtree() {
    let boundary = SquareBox::new([fx(0.0), fx(0.0)], fx(1.0));
    let mut quadtree = SquareQuadtree::new(boundary).with_capacity(2);
    let bodies = vec![
        body_at(0.5, 0.5),
        body_at(-0.5, 0.5),
        body_at(-0.5, -0.5),
        body_at(0.5, -0.5),
    ];

    for i in 0..bodies.len() {
        quadtree.insert_unchecked(i, &bodies);
    }

    let nodes = quadtree.get_nodes();
    assert_eq!(nodes.len(), 5);

    let root = &nodes[0];
    assert_eq!(root.referenced_indices.len(), 0);
    assert_eq!(root.mass, fx(4.0));

    let ne = &nodes[1];
    assert_eq!(ne.referenced_indices.len(), 1);

    let nw = &nodes[2];
    assert_eq!(nw.referenced_indices.len(), 1);

    let sw = &nodes[3];
    assert_eq!(sw.referenced_indices.len(), 1);

    let se = &nodes[4];
    assert_eq!(se.referenced_indices.len(), 1);

    // Query range
    let boundary = SquareBox::new([fx(0.0), fx(0.0)], fx(1000.0));
    let result = quadtree.query_range(boundary, &bodies);
    assert_eq!(result.len(), bodies.len());

    let boundary = SquareBox::new([fx(0.5), fx(0.5)], fx(0.001));
    let result = quadtree.query_range(boundary, &bodies);
    assert_eq!(result.len(), 1);
}

fn spread(state: &mut u64) -> f64 {
    *state = state.wrapping_mul(6364136223846793005).wrapping_add(1442695040888963407);
    ((*state >> 11) as f64) / ((1u64 << 53) as f64)
}

fn fifty() -> Vec<Body> {
    let mut state: u64 = 12345;
    let mut bodies = Vec::new();
    for _ in 0..50 {
        let x = spread(&mut state) * 200.0 - 100.0;
        let y = spread(&mut state) * 200.0 - 100.0;
        let mass = 1.0 + spread(&mut state) * 9.0;
        let mut body = body_at(x, y);
        body.mass = fx(mass);
        bodies.push(body);
    }
    bodies
}

fn built(bodies: &[Body], capacity: usize) -> SquareQuadtree {
    let mut tree = SquareQuadtree::new(SquareBox::from_bodies(bodies)).with_capacity(capacity);
    for i in 0..bodies.len() {
        tree.insert_unchecked(i, bodies);
    }
    tree
}

#[test]
fn quadrant_ties_go_to_one_quadrant() {
    let square = SquareBox::new([fx(0.0), fx(0.0)], fx(1.0));
    // the center and the horizontal center line go south
    assert_eq!(square.get_quadrant_unchecked(&[fx(0.0), fx(0.0)]), 3);
    assert_eq!(square.get_quadrant_unchecked(&[fx(0.5), fx(0.0)]), 3);
    assert_eq!(square.get_quadrant_unchecked(&[fx(-0.5), fx(0.0)]), 2);
    // the vertical center line goes west in the north, east in the south
    assert_eq!(square.get_quadrant_unchecked(&[fx(0.0), fx(0.5)]), 1);
    assert_eq!(square.get_quadrant_unchecked(&[fx(0.0), fx(-0.5)]), 3);
}

#[test]
fn square_is_closed_on_all_edges() {
    let square = SquareBox::new([fx(1.0), fx(2.0)], fx(0.5));
    assert!(square.contains(&[fx(0.5), fx(1.5)]));
    assert!(square.contains(&[fx(1.5), fx(2.5)]));
    assert!(square.contains(&[fx(0.5), fx(2.5)]));
    assert!(!square.contains(&[fx(0.499999999), fx(2.0)]));
    assert!(!square.contains(&[fx(1.0), fx(2.500000001)]));
    assert_eq!(square.center(), [fx(1.0), fx(2.0)]);
    assert_eq!(square.size(), fx(1.0));
}

#[test]
fn square_contains_box() {
    let outer = SquareBox::new([fx(0.0), fx(0.0)], fx(2.0));
    assert!(outer.contains_box(&outer));
    assert!(outer.contains_box(&SquareBox::new([fx(1.0), fx(-1.0)], fx(1.0))));
    assert!(!outer.contains_box(&SquareBox::new([fx(1.5), fx(0.0)], fx(1.0))));
    assert!(!SquareBox::new([fx(0.0), fx(0.0)], fx(1.0)).contains_box(&outer));
}

#[test]
fn child_squares_cover_the_quadrants() {
    let square = SquareBox::new([fx(1.0), fx(2.0)], fx(4.0));
    let ne = square.north_east();
    assert_eq!(ne.center(), [fx(3.0), fx(4.0)]);
    assert_eq!(ne.size(), fx(4.0));
    assert_eq!(square.north_west().center(), [fx(-1.0), fx(4.0)]);
    assert_eq!(square.south_west().center(), [fx(-1.0), fx(0.0)]);
    assert_eq!(square.south_east().center(), [fx(3.0), fx(0.0)]);
    assert_eq!(square.south_east().size(), fx(4.0));
    // an odd half-size: the shift rounds down, the half-size up
    let odd = SquareBox::new([Fixed::from_raw(0), Fixed::from_raw(0)], Fixed::from_raw(5));
    let sw = odd.south_west();
    assert_eq!(sw.center(), [Fixed::from_raw(-2), Fixed::from_raw(-2)]);
    assert_eq!(sw.x_min(), Fixed::from_raw(-5));
    assert_eq!(sw.x_max(), Fixed::from_raw(1));
    assert!(sw.contains(&[Fixed::from_raw(-5), Fixed::from_raw(-5)]));
}

#[test]
fn bounding_square_of_bodies() {
    let bodies = vec![body_at(-1.0, 0.0), body_at(3.0, 1.0), body_at(0.0, -1.0)];
    let square = SquareBox::from_bodies(&bodies);
    assert_eq!(square.center(), [fx(1.0), fx(0.0)]);
    assert_eq!(square.size(), fx(4.0));
    for body in bodies.iter() {
        assert!(square.contains(&body.position));
    }
    let single = SquareBox::from_bodies(&bodies[1..2]);
    assert_eq!(single.center(), [fx(3.0), fx(1.0)]);
    assert_eq!(single.size(), fx(0.0));
}

#[test]
fn bounding_square_rounds_outward() {
    let mut a = body_at(0.0, 0.0);
    a.position = [Fixed::from_raw(-3), Fixed::from_raw(0)];
    let mut b = body_at(0.0, 0.0);
    b.position = [Fixed::from_raw(4), Fixed::from_raw(2)];
    let square = SquareBox::from_bodies(&[a, b]);
    assert_eq!(square.center(), [Fixed::from_raw(0), Fixed::from_raw(1)]);
    assert_eq!(square.size(), Fixed::from_raw(8));
    assert!(square.contains(&a.position));
    assert!(square.contains(&b.position));
}

#[test]
fn insert_refuses_a_body_outside_the_root() {
    let mut tree = SquareQuadtree::new(SquareBox::new([fx(0.0), fx(0.0)], fx(1.0)));
    let bodies = vec![body_at(0.5, 0.5), body_at(1.5, 0.0), body_at(1.0, -1.0)];
    assert!(tree.insert(0, &bodies));
    assert!(!tree.insert(1, &bodies));
    assert!(tree.insert(2, &bodies));
    let nodes = tree.get_nodes();
    assert_eq!(nodes.len(), 1);
    assert_eq!(nodes[0].referenced_indices(), &[0, 2]);
    assert_eq!(nodes[0].mass(), fx(2.0));
    assert!(nodes[0].is_leaf());
    assert_eq!(nodes[0].children_idx(), 0);
    assert_eq!(nodes[0].boundary().size(), fx(2.0));
}

#[test]
fn new_tree_is_one_empty_leaf() {
    let mut tree = SquareQuadtree::new(SquareBox::new([fx(0.0), fx(0.0)], fx(1.0)));
    assert_eq!(tree.get_nodes().len(), 1);
    assert_eq!(tree.depth(), 0);
    assert_eq!(tree.get_nodes()[0].mass(), fx(0.0));
    let bodies = vec![body_at(0.5, 0.5)];
    tree.insert_unchecked(0, &bodies);
    tree.clear(SquareBox::new([fx(5.0), fx(5.0)], fx(2.0)));
    assert_eq!(tree.get_nodes().len(), 1);
    assert_eq!(tree.get_nodes()[0].referenced_indices().len(), 0);
    assert_eq!(tree.get_nodes()[0].mass(), fx(0.0));
    assert_eq!(tree.get_nodes()[0].boundary().center(), [fx(5.0), fx(5.0)]);
}

#[test]
fn default_capacity_is_thirty_two() {
    let mut tree = SquareQuadtree::new(SquareBox::new([fx(0.0), fx(0.0)], fx(1.0)));
    let mut bodies = Vec::new();
    for i in 0..33 {
        bodies.push(body_at(-0.9 + 0.05 * i as f64, 0.3));
    }
    for i in 0..32 {
        tree.insert_unchecked(i, &bodies);
    }
    assert_eq!(tree.get_nodes().len(), 1);
    tree.insert_unchecked(32, &bodies);
    assert_eq!(tree.get_nodes().len(), 5);
    assert_eq!(tree.depth(), 1);
}

#[test]
fn children_lie_in_quadrant_order() {
    let tree = built(
        &[body_at(0.5, 0.5), body_at(-0.5, 0.5), body_at(-0.5, -0.5), body_at(0.5, -0.5)],
        2,
    );
    let nodes = tree.get_nodes();
    assert_eq!(nodes[0].children_idx(), 1);
    assert_eq!(nodes[1].boundary().center(), [fx(0.25), fx(0.25)]);
    assert_eq!(nodes[2].boundary().center(), [fx(-0.25), fx(0.25)]);
    assert_eq!(nodes[3].boundary().center(), [fx(-0.25), fx(-0.25)]);
    assert_eq!(nodes[4].boundary().center(), [fx(0.25), fx(-0.25)]);
    assert_eq!(nodes[1].referenced_indices(), &[0]);
    assert_eq!(nodes[2].referenced_indices(), &[1]);
    assert_eq!(nodes[3].referenced_indices(), &[2]);
    assert_eq!(nodes[4].referenced_indices(), &[3]);
    for node in nodes[1..].iter() {
        assert_eq!(node.mass(), fx(1.0));
    }
}

#[test]
fn coincident_bodies_end_in_one_leaf() {
    let mut bodies = Vec::new();
    for _ in 0..5 {
        bodies.push(body_at(0.3, 0.3));
    }
    let mut tree = SquareQuadtree::new(SquareBox::new([fx(0.0), fx(0.0)], fx(1.0)))
        .with_capacity(2);
    for i in 0..bodies.len() {
        assert!(tree.insert(i, &bodies));
    }
    // the square is halved until its half-size is below 1e-5
    assert_eq!(tree.depth(), 17);
    assert_eq!(tree.get_nodes().len(), 1 + 4 * 17);
    assert_eq!(tree.get_nodes()[0].mass(), fx(5.0));
    let all = tree.query_range(SquareBox::new([fx(0.0), fx(0.0)], fx(1.0)), &bodies);
    assert_eq!(all, vec![0, 1, 2, 3, 4]);
    let near = tree.query_range(SquareBox::new([fx(0.3), fx(0.3)], fx(0.000001)), &bodies);
    assert_eq!(near.len(), 5);
}

#[test]
fn mass_is_conserved_in_the_tree() {
    let bodies = fifty();
    let tree = built(&bodies, 3);
    let nodes = tree.get_nodes();
    let mut total = fx(0.0);
    for body in bodies.iter() {
        total = total.add(body.mass);
    }
    assert_eq!(nodes[0].mass(), total);
    let mut cells = 0;
    for node in nodes.iter() {
        if !node.is_leaf() {
            cells += 1;
            let first = node.children_idx();
            let sum = nodes[first]
                .mass()
                .add(nodes[first + 1].mass())
                .add(nodes[first + 2].mass())
                .add(nodes[first + 3].mass());
            assert_eq!(node.mass(), sum);
            assert_eq!(node.referenced_indices().len(), 0);
        } else {
            let mut sum = fx(0.0);
            for &i in node.referenced_indices() {
                sum = sum.add(bodies[i].mass);
            }
            assert_eq!(node.mass(), sum);
            assert!(node.referenced_indices().len() <= 3);
        }
    }
    assert!(cells > 5);
    assert_eq!(nodes.len(), 1 + 4 * cells);
}

#[test]
fn every_body_is_reached_by_descent() {
    let bodies = fifty();
    let tree = built(&bodies, 3);
    let nodes = tree.get_nodes();
    for (i, body) in bodies.iter().enumerate() {
        let mut at = 0;
        while !nodes[at].is_leaf() {
            let quadrant = nodes[at].boundary().get_quadrant_unchecked(&body.position);
            at = nodes[at].children_idx() + quadrant;
            assert!(nodes[at].boundary().contains(&body.position));
        }
        let held = nodes[at].referenced_indices();
        assert_eq!(held.iter().filter(|&&j| j == i).count(), 1);
    }
    let held: usize = nodes.iter().map(|node| node.referenced_indices().len()).sum();
    assert_eq!(held, 50);
}

#[test]
fn query_of_a_disjoint_region_is_empty() {
    let bodies = fifty();
    let tree = built(&bodies, 3);
    let far = SquareBox::new([fx(1000.0), fx(1000.0)], fx(10.0));
    assert_eq!(tree.query_range(far, &bodies), Vec::<usize>::new());
    let beside = SquareBox::new([fx(-201.0), fx(0.0)], fx(100.0));
    assert_eq!(tree.query_range(beside, &bodies), Vec::<usize>::new());
}

#[test]
fn query_of_a_covering_region_returns_all() {
    let bodies = fifty();
    let tree = built(&bodies, 3);
    let root = *tree.get_nodes()[0].boundary();
    for region in [root, SquareBox::new([fx(0.0), fx(0.0)], fx(500.0))] {
        let mut found = tree.query_range(region, &bodies);
        assert_eq!(found.len(), 50);
        found.sort();
        let expected: Vec<usize> = (0..50).collect();
        assert_eq!(found, expected);
    }
}

#[test]
fn query_returns_the_bodies_in_the_region() {
    let bodies = fifty();
    let tree = built(&bodies, 3);
    let regions = [
        SquareBox::new([fx(0.0), fx(0.0)], fx(50.0)),
        SquareBox::new([fx(-60.0), fx(40.0)], fx(30.0)),
        SquareBox::new([fx(75.0), fx(-75.0)], fx(25.0)),
        SquareBox::new([fx(10.0), fx(10.0)], fx(1.0)),
    ];
    let mut seen = 0;
    for region in regions {
        let mut found = tree.query_range(region, &bodies);
        found.sort();
        let expected: Vec<usize> =
            (0..50).filter(|&i| region.contains(&bodies[i].position)).collect();
        assert_eq!(found, expected);
        seen += found.len();
    }
    assert!(seen > 10);
}

#[test]
fn query_is_the_same_every_time() {
    let bodies = fifty();
    let tree = built(&bodies, 3);
    let again = built(&bodies, 3);
    let region = SquareBox::new([fx(0.0), fx(0.0)], fx(50.0));
    assert_eq!(tree.query_range(region, &bodies), tree.query_range(region, &bodies));
    assert_eq!(tree.query_range(region, &bodies), again.query_range(region, &bodies));
}

#[test]
fn depth_counts_the_longest_path() {
    let bodies = vec![
        body_at(0.9, 0.9),
        body_at(0.6, 0.9),
        body_at(0.9, 0.6),
        body_at(-0.5, -0.5),
    ];
    let tree = {
        let mut tree = SquareQuadtree::new(SquareBox::new([fx(0.0), fx(0.0)], fx(1.0)))
            .with_capacity(1);
        for i in 0..bodies.len() {
            tree.insert_unchecked(i, &bodies);
        }
        tree
    };
    // root -> NE [0, 1]^2 -> NE [0.5, 1]^2 -> its quadrants
    assert_eq!(tree.depth(), 3);
    assert_eq!(tree.get_nodes().len(), 13);
}

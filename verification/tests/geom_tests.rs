use barnes_hut::geom::Rectangle;

#[test]
fn contains_is_closed_on_all_edges() {
    let r = Rectangle::new(0, 0, 100, 100);
    assert!(r.contains(0, 0));
    assert!(r.contains(100, 100));
    assert!(r.contains(0, 100));
    assert!(r.contains(100, 0));
    assert!(r.contains(50, 50));
    assert!(!r.contains(101, 50));
    assert!(!r.contains(-1, 50));
    assert!(!r.contains(50, 101));
    assert!(!r.contains(50, -1));
}

#[test]
fn intersects_is_closed_overlap() {
    let a = Rectangle::new(0, 0, 10, 10);
    let b = Rectangle::new(10, 10, 5, 5);
    // Touching at one corner counts as overlap of the closed regions.
    assert!(a.intersects(&b));
    assert!(b.intersects(&a));
    let c = Rectangle::new(11, 0, 5, 5);
    assert!(!a.intersects(&c));
    assert!(!c.intersects(&a));
    let d = Rectangle::new(3, 3, 2, 2);
    assert!(a.intersects(&d));
}

#[test]
fn quadrants_tile_odd_extents() {
    let r = Rectangle::new(0, 0, 101, 51);
    let nw = r.nw_quadrant();
    let ne = r.ne_quadrant();
    let sw = r.sw_quadrant();
    let se = r.se_quadrant();
    assert_eq!((nw.x, nw.y, nw.width, nw.height), (0, 0, 50, 25));
    assert_eq!((ne.x, ne.y, ne.width, ne.height), (50, 0, 51, 25));
    assert_eq!((sw.x, sw.y, sw.width, sw.height), (0, 25, 50, 26));
    assert_eq!((se.x, se.y, se.width, se.height), (50, 25, 51, 26));
}

#[test]
fn edge_point_lies_in_adjoining_quadrants() {
    let r = Rectangle::new(0, 0, 100, 100);
    // The midpoint belongs to all four closed quadrants; insertion
    // routes it to the first (NW) so it is stored exactly once.
    assert!(r.nw_quadrant().contains(50, 50));
    assert!(r.ne_quadrant().contains(50, 50));
    assert!(r.sw_quadrant().contains(50, 50));
    assert!(r.se_quadrant().contains(50, 50));
}

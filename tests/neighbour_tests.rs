use planisphere::grid::{GridAddress, Planisphere};

fn cos_table(height: usize, divisions: usize) -> Vec<usize> {
    (0..height)
        .map(|j| {
            let rank = (2.0 * j as f64 - height as f64).abs();
            let lat = rank * 90.0 / height as f64;
            (divisions as f64 * lat.to_radians().cos()).round().max(1.0) as usize
        })
        .collect()
}

fn world() -> Planisphere {
    Planisphere::new(360, 180, 8, cos_table(180, 8)).unwrap()
}

#[test]
fn step_inside_pixel() {
    let p = world();
    let a = GridAddress::new(10, 90, 3 * 8 + 4);
    assert_eq!(p.get_neighbour_subpixel(a, 1, -1), GridAddress::new(10, 90, 4 * 8 + 3));
}

#[test]
fn east_step_enters_next_pixel_at_first_column() {
    let p = world();
    let a = GridAddress::new(10, 90, 7 * 8 + 4);
    assert_eq!(p.get_neighbour_subpixel(a, 1, 0), GridAddress::new(11, 90, 4));
}

#[test]
fn west_step_wraps_at_date_line() {
    let p = world();
    let a = GridAddress::new(0, 90, 4);
    assert_eq!(p.get_neighbour_subpixel(a, -1, 0), GridAddress::new(359, 90, 7 * 8 + 4));
}

#[test]
fn north_pole_crossing_mirrors_and_turns() {
    let p = world();
    let a = GridAddress::new(10, 179, 7);
    let r = p.get_neighbour_subpixel(a, 0, 1);
    assert_eq!(r.j, 179);
    assert_eq!(r.i, 190);
    assert_eq!(r.k, 0);
    let b = GridAddress::new(300, 179, 7);
    assert_eq!(p.get_neighbour_subpixel(b, 0, 1).i, (300 + 180) % 360);
}

#[test]
fn south_pole_crossing_mirrors_and_turns() {
    let p = world();
    let a = GridAddress::new(200, 0, 0);
    let r = p.get_neighbour_subpixel(a, 0, -1);
    assert_eq!(r.j, 1);
    assert_eq!(r.i, 20);
    assert_eq!(r.k, 7);
}

#[test]
fn vertical_step_rescales_column() {
    let p = world();
    // rows 154 and 155 differ in subdivisions
    let l154 = p.get_lon_subdivisons(154);
    let l155 = p.get_lon_subdivisons(155);
    assert_eq!((l154, l155), (4, 3));
    let a = GridAddress::new(5, 154, (l154 - 1) * 8 + 7);
    let r = p.get_neighbour_subpixel(a, 0, 1);
    assert_eq!(r, GridAddress::new(5, 155, ((l154 - 1) * l155 / l154) * 8));
}

#[test]
fn diagonal_west_step_stays_inside_target_row() {
    let p = world();
    let l154 = p.get_lon_subdivisons(154);
    let l155 = p.get_lon_subdivisons(155);
    let a = GridAddress::new(5, 154, 7);
    let r = p.get_neighbour_subpixel(a, -1, 1);
    assert_eq!(r, GridAddress::new(4, 155, (l154.min(l155) - 1) * 8));
}

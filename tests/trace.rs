use raytracer::trace::{advance, begin, Action, Bounce};

#[test]
fn no_depth_is_black() {
    assert_eq!(begin(0), Action::Black);
}

#[test]
fn depth_left_queries() {
    assert_eq!(begin(50), Action::Query { depth: 50 });
}

#[test]
fn miss_shows_background() {
    assert_eq!(advance(3, Bounce::Missed), Action::Background);
    assert_eq!(advance(1, Bounce::Missed), Action::Background);
}

#[test]
fn absorbed_is_black() {
    assert_eq!(advance(3, Bounce::Absorbed), Action::Black);
}

#[test]
fn scattered_uses_one_bounce() {
    assert_eq!(advance(3, Bounce::Scattered), Action::Query { depth: 2 });
    assert_eq!(advance(1, Bounce::Scattered), Action::Black);
}

#[test]
fn endless_scattering_stops_at_depth() {
    let mut queries = 0u32;
    let mut action = begin(50);
    while let Action::Query { depth } = action {
        queries += 1;
        action = advance(depth, Bounce::Scattered);
    }
    assert_eq!(queries, 50);
    assert_eq!(action, Action::Black);
}

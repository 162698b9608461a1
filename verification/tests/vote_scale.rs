use thubook::scale::{scale_resolution, Dim};
use thubook::vote::modal_resolution;

fn d(width: u32, height: u32) -> Dim {
    Dim { width, height }
}

#[test]
fn modal_pair_wins_the_vote() {
    let dims = vec![
        d(800, 1200),
        d(800, 600),
        d(800, 1200),
        d(800, 1200),
        d(800, 600),
        d(800, 1200),
        d(800, 1200),
    ];
    assert_eq!(modal_resolution(&dims), Some(d(800, 1200)));
}

#[test]
fn ties_break_towards_the_first_pair_reaching_the_maximum() {
    let dims = vec![d(1, 1), d(2, 2)];
    assert_eq!(modal_resolution(&dims), Some(d(1, 1)));
    let dims = vec![d(2, 2), d(1, 1), d(1, 1), d(2, 2)];
    assert_eq!(modal_resolution(&dims), Some(d(1, 1)));
}

#[test]
fn empty_vote_selects_nothing() {
    let dims: Vec<Dim> = Vec::new();
    assert_eq!(modal_resolution(&dims), None);
}

#[test]
fn scale_law_halves_at_quality_five() {
    assert_eq!(scale_resolution(d(800, 1200), 5), d(400, 600));
}

#[test]
fn scale_law_is_identity_at_quality_ten() {
    assert_eq!(scale_resolution(d(800, 1200), 10), d(800, 1200));
    assert_eq!(scale_resolution(d(801, 1201), 10), d(801, 1201));
}

#[test]
fn scale_law_floors() {
    assert_eq!(scale_resolution(d(5, 7), 3), d(1, 2));
    assert_eq!(scale_resolution(d(3, 3), 3), d(0, 0));
}

use rice::score::Score;

#[test]
fn draw_equals_zero() {
    assert!(Score::Playing(0) == Score::Draw);
    assert!(Score::Draw == Score::Playing(0));
    assert!(Score::Draw == Score::Draw);
    assert!(Score::Playing(1) != Score::Draw);
}

#[test]
fn scores_are_ordered() {
    assert!(Score::Checkmate((true, 2)) > Score::Checkmate((true, 5)));
    assert!(Score::Checkmate((true, 5)) > Score::Playing(10_000));
    assert!(Score::Playing(10_000) > Score::Playing(-10_000));
    assert!(Score::Playing(-10_000) > Score::Checkmate((false, 5)));
    assert!(Score::Checkmate((false, 5)) > Score::Checkmate((false, 2)));
}

#[test]
fn draw_is_ordered_as_zero() {
    assert!(Score::Draw < Score::Playing(1));
    assert!(Score::Draw > Score::Playing(-1));
    assert!(Score::Playing(3) > Score::Draw);
    assert!(Score::Draw <= Score::Playing(0));
    assert!(Score::Draw >= Score::Playing(0));
    assert!(Score::Checkmate((true, 9)) > Score::Draw);
    assert!(Score::Checkmate((false, 9)) < Score::Draw);
}

#[test]
fn equal_mates_are_equal() {
    assert!(Score::Checkmate((true, 3)) == Score::Checkmate((true, 3)));
    assert!(Score::Checkmate((true, 3)) != Score::Checkmate((false, 3)));
    assert!(Score::Checkmate((true, 3)) != Score::Checkmate((true, 4)));
    assert!(Score::Checkmate((true, 3)) != Score::Playing(3));
}

#[test]
fn negation_changes_sides() {
    assert!(-Score::Checkmate((true, 4)) == Score::Checkmate((false, 4)));
    assert!(-Score::Checkmate((false, 4)) == Score::Checkmate((true, 4)));
    assert!(-Score::Playing(25) == Score::Playing(-25));
    assert!(-Score::Draw == Score::Draw);
}

#[test]
fn negation_reverses_order() {
    let low = Score::Playing(-7);
    let high = Score::Checkmate((true, 1));
    assert!(low < high);
    assert!(-low > -high);
}

#[test]
fn least_and_greatest_bound_all() {
    for score in [
        Score::Checkmate((false, 0)),
        Score::Checkmate((false, 17)),
        Score::Playing(i32::MIN + 1),
        Score::Draw,
        Score::Playing(i32::MAX),
        Score::Checkmate((true, u32::MAX)),
        Score::Checkmate((true, 0)),
    ] {
        assert!(Score::least() <= score);
        assert!(score <= Score::greatest());
    }
}

use seamingly_epic::report::correction_warnings;

#[test]
fn nothing_accepted_is_the_only_warning_about_acceptance() {
    assert_eq!(
        correction_warnings(0, 17, false, false),
        vec!["No boundary passed the confidence threshold; RGB samples were left unchanged."]
    );
}

#[test]
fn partial_acceptance_names_both_counts() {
    assert_eq!(
        correction_warnings(12, 17, true, false),
        vec!["Accepted 12 of 17 boundary segments; rejected segments were left unchanged."]
    );
    assert!(correction_warnings(17, 17, true, false).is_empty());
}

#[test]
fn disconnection_and_overlap_are_reported_after_acceptance() {
    assert_eq!(
        correction_warnings(3, 4, false, true),
        vec![
            "Accepted 3 of 4 boundary segments; rejected segments were left unchanged.",
            "Accepted constraints do not connect every tile; global tile gains were disabled while accepted full-resolution seam constraints remained active.",
            "Local correction ramps overlap because blend width exceeds half a tile; the combined gain remains clamped.",
        ]
    );
    assert_eq!(
        correction_warnings(0, 4, false, true),
        vec![
            "No boundary passed the confidence threshold; RGB samples were left unchanged.",
            "Local correction ramps overlap because blend width exceeds half a tile; the combined gain remains clamped.",
        ]
    );
}

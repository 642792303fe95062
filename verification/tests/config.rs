use seamingly_epic::config::{GridSpec, SeamSpec, TransferFunction};

#[test]
fn defaults_are_a_two_by_two_grid_and_srgb() {
    assert_eq!(GridSpec::default(), GridSpec { columns: 2, rows: 2 });
    let spec = SeamSpec::default();
    assert!(spec.x.is_empty());
    assert!(spec.y.is_empty());
    assert!(spec.grid.is_none());
    assert_eq!(TransferFunction::default(), TransferFunction::Srgb);
}

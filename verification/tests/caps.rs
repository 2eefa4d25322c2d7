use alander::caps::{filterable, HardwareCaps, HdrFormat};

#[test]
fn half_float_preferred_when_filterable() {
    let c = HardwareCaps::from_support(filterable(true, true), filterable(true, true));
    assert_eq!(c.preferred_hdr_format, HdrFormat::Rgba16Float);
    let c = HardwareCaps::from_support(filterable(true, false), true);
    assert!(!c.hdr_16_filterable);
    assert_eq!(c.preferred_hdr_format, HdrFormat::Rgba32Float);
    assert!(!filterable(false, true));
}

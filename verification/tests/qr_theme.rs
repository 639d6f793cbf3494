use bysqr::error::Error;
use bysqr::qr::{
    check_raster, frame_clearance, LogoColor, LogoLayout, LogoPosition, LogoTheme, CONTAINER_WIDTH_UNITS,
    INVOICE_QR_MAX_DIMENSION, ITEMS_QR_MAX_DIMENSION, PAY_QR_MAX_DIMENSION,
};

#[test]
fn invoice_qr_dimension_preserves_frame_clearance_around_the_quiet_zone() {
    let clearance = (CONTAINER_WIDTH_UNITS - INVOICE_QR_MAX_DIMENSION) / 2;
    assert_eq!(clearance, 4);
}

#[test]
fn pay_qr_dimension_preserves_frame_clearance_around_the_quiet_zone() {
    let clearance = (CONTAINER_WIDTH_UNITS - PAY_QR_MAX_DIMENSION) / 2;
    assert_eq!(clearance, 4);
}

#[test]
fn frame_clearance_of_each_family() {
    assert_eq!(frame_clearance(PAY_QR_MAX_DIMENSION), 4);
    assert_eq!(frame_clearance(INVOICE_QR_MAX_DIMENSION), 4);
    assert_eq!(frame_clearance(ITEMS_QR_MAX_DIMENSION), 48);
}

#[test]
fn themes_have_expected_dimensions_and_colors() {
    for layout in [LogoLayout::Print, LogoLayout::Electronic] {
        for position in [LogoPosition::Bottom, LogoPosition::Top, LogoPosition::Left, LogoPosition::Right] {
            for color in [LogoColor::Light, LogoColor::Dark, LogoColor::Gray, LogoColor::Black] {
                let theme = LogoTheme::new(layout, position, color);
                let expected = match position {
                    LogoPosition::Bottom | LogoPosition::Top => (512, 600),
                    LogoPosition::Left | LogoPosition::Right => (600, 512),
                };
                assert_eq!(theme.dimensions(), expected);
            }
        }
    }
    assert_eq!(LogoColor::Dark.pay_hex(), "#6FA4D7");
    assert_eq!(LogoColor::Light.invoice_hex(), "#FAB65B");
    assert_eq!(LogoColor::Gray.pay_hex(), LogoColor::Gray.invoice_hex());
    let default = LogoTheme::default();
    assert_eq!(default, LogoTheme::new(LogoLayout::Print, LogoPosition::Bottom, LogoColor::Dark));
    assert_eq!(LogoTheme::new(LogoLayout::Print, LogoPosition::Top, LogoColor::Dark).qr_center(), (256, 344));
    assert_eq!(LogoTheme::from_parts(None, None, None), None);
    assert_eq!(
        LogoTheme::from_parts(None, Some(LogoPosition::Left), None),
        Some(LogoTheme::new(LogoLayout::Print, LogoPosition::Left, LogoColor::Dark))
    );
}

#[test]
fn raster_sides_and_quality_are_limited() {
    assert!(check_raster(1024, 1200, None).is_ok());
    assert!(check_raster(8192, 8192, Some(1)).is_ok());
    assert!(check_raster(512, 600, Some(100)).is_ok());
    assert!(matches!(check_raster(8193, 100, None), Err(Error::InvalidInput { field: "size", .. })));
    assert!(matches!(check_raster(8000, 9600, Some(90)), Err(Error::InvalidInput { field: "size", .. })));
    assert!(matches!(check_raster(0, 0, None), Err(Error::InvalidInput { field: "size", .. })));
    assert!(matches!(check_raster(512, 600, Some(0)), Err(Error::InvalidInput { field: "quality", .. })));
    assert!(matches!(check_raster(512, 600, Some(101)), Err(Error::InvalidInput { field: "quality", .. })));
}

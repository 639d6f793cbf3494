//! The approved by square logo themes around a QR matrix: composition,
//! placement and colour, and the canvas they need.

use vstd::prelude::*;

verus! {

/// Width of the portrait canvas, in SVG units.
pub const CONTAINER_WIDTH_UNITS: u32 = 512;

/// Height of the portrait canvas, in SVG units.
pub const CONTAINER_HEIGHT_UNITS: u32 = 600;

/// Largest PAY QR matrix, quiet zone included: four canvas units remain
/// between the quiet zone and the frame.
pub const PAY_QR_MAX_DIMENSION: u32 = 504;

/// Largest INVOICE QR matrix, quiet zone included.
pub const INVOICE_QR_MAX_DIMENSION: u32 = 504;

/// Largest INVOICE ITEMS QR matrix.
pub const ITEMS_QR_MAX_DIMENSION: u32 = 416;

/// The largest side of a raster image, in pixels.
pub const MAX_RASTER_DIMENSION: u32 = 8192;

/// Checks the size of a raster image and, for JPEG, its quality: each side
/// from 1 to 8,192 pixels, and a quality from 1 to 100.
pub fn check_raster(width: u32, height: u32, quality: Option<u8>) -> (r: crate::error::Result<()>)
    ensures
        r is Ok <==> 1 <= width <= MAX_RASTER_DIMENSION && 1 <= height <= MAX_RASTER_DIMENSION && (
        quality is Some ==> 1 <= quality->0 <= 100),
        !(1 <= width <= MAX_RASTER_DIMENSION && 1 <= height <= MAX_RASTER_DIMENSION) ==> (r matches Err(
            crate::error::Error::InvalidInput { field, .. },
        ) && field == "size"),
        1 <= width <= MAX_RASTER_DIMENSION && 1 <= height <= MAX_RASTER_DIMENSION && quality is Some && !(1
            <= quality->0 <= 100) ==> (r matches Err(crate::error::Error::InvalidInput { field, .. }) && field
            == "quality"),
{
    if width < 1 || width > MAX_RASTER_DIMENSION || height < 1 || height > MAX_RASTER_DIMENSION {
        return Err(crate::error::Error::invalid("size", "raster sides must be from 1 to 8192 pixels"));
    }
    match quality {
        Some(q) => {
            if q < 1 || q > 100 {
                return Err(crate::error::Error::invalid("quality", "JPEG quality must be from 1 to 100"));
            }
        },
        None => {},
    }
    Ok(())
}

/// The space left on each side of a matrix of `dimension` units across the
/// portrait canvas width.
pub fn frame_clearance(dimension: u32) -> (r: u32)
    requires
        dimension <= CONTAINER_WIDTH_UNITS,
    ensures
        r == (CONTAINER_WIDTH_UNITS - dimension) / 2,
{
    (CONTAINER_WIDTH_UNITS - dimension) / 2
}

/// Approved by square logo composition.
#[derive(Clone, Copy, Debug, Eq, PartialEq, Structural)]
pub enum LogoLayout {
    /// Framed composition intended for print and general-purpose output.
    Print,
    /// Compact composition without the surrounding frame, for screens.
    Electronic,
}

/// Approved placement of the branding around the QR matrix.
#[derive(Clone, Copy, Debug, Eq, PartialEq, Structural)]
pub enum LogoPosition {
    Bottom,
    Top,
    Left,
    Right,
}

/// Approved colour variation. PAY and INVOICE use different brand colours
/// for the light and dark variants; gray and black are shared.
#[derive(Clone, Copy, Debug, Eq, PartialEq, Structural)]
pub enum LogoColor {
    Light,
    Dark,
    Gray,
    Black,
}

/// The PAY brand colour of a variation.
pub open spec fn pay_color(c: LogoColor) -> Seq<char> {
    match c {
        LogoColor::Light => "#A1C7E9"@,
        LogoColor::Dark => "#6FA4D7"@,
        LogoColor::Gray => "#5F6062"@,
        LogoColor::Black => "#000000"@,
    }
}

/// The INVOICE brand colour of a variation.
pub open spec fn invoice_color(c: LogoColor) -> Seq<char> {
    match c {
        LogoColor::Light => "#FAB65B"@,
        LogoColor::Dark => "#F5871F"@,
        LogoColor::Gray => "#5F6062"@,
        LogoColor::Black => "#000000"@,
    }
}

impl LogoColor {
    /// The PAY brand colour as `#RRGGBB`.
    pub fn pay_hex(self) -> (r: &'static str)
        ensures
            r@ == pay_color(self),
    {
        match self {
            LogoColor::Light => "#A1C7E9",
            LogoColor::Dark => "#6FA4D7",
            LogoColor::Gray => "#5F6062",
            LogoColor::Black => "#000000",
        }
    }

    /// The INVOICE brand colour as `#RRGGBB`.
    pub fn invoice_hex(self) -> (r: &'static str)
        ensures
            r@ == invoice_color(self),
    {
        match self {
            LogoColor::Light => "#FAB65B",
            LogoColor::Dark => "#F5871F",
            LogoColor::Gray => "#5F6062",
            LogoColor::Black => "#000000",
        }
    }
}

/// One approved PAY or INVOICE visual theme.
#[derive(Clone, Copy, Debug, Eq, PartialEq, Structural)]
pub struct LogoTheme {
    pub layout: LogoLayout,
    pub position: LogoPosition,
    pub color: LogoColor,
}

/// Whether a placement puts the branding beside the matrix.
pub open spec fn is_side(p: LogoPosition) -> bool {
    p is Left || p is Right
}

impl LogoTheme {
    /// A theme of the given composition, placement and colour.
    pub fn new(layout: LogoLayout, position: LogoPosition, color: LogoColor) -> (r: Self)
        ensures
            r.layout == layout,
            r.position == position,
            r.color == color,
    {
        LogoTheme { layout, position, color }
    }

    /// The canvas width and height; side branding turns the portrait canvas
    /// on its side.
    pub fn dimensions(self) -> (r: (u32, u32))
        ensures
            !is_side(self.position) ==> r == (CONTAINER_WIDTH_UNITS, CONTAINER_HEIGHT_UNITS),
            is_side(self.position) ==> r == (CONTAINER_HEIGHT_UNITS, CONTAINER_WIDTH_UNITS),
    {
        match self.position {
            LogoPosition::Bottom | LogoPosition::Top => (CONTAINER_WIDTH_UNITS, CONTAINER_HEIGHT_UNITS),
            LogoPosition::Left | LogoPosition::Right => (CONTAINER_HEIGHT_UNITS, CONTAINER_WIDTH_UNITS),
        }
    }

    /// Where the centre of the square QR area lies on the canvas: half the
    /// short side from the edges that do not carry the branding.
    pub fn qr_center(self) -> (r: (u32, u32))
        ensures
            self.position is Bottom ==> r == (256u32, 256u32),
            self.position is Right ==> r == (256u32, 256u32),
            self.position is Top ==> r == (256u32, 344u32),
            self.position is Left ==> r == (344u32, 256u32),
    {
        let half = CONTAINER_WIDTH_UNITS / 2;
        let far = CONTAINER_HEIGHT_UNITS - half;
        match self.position {
            LogoPosition::Bottom | LogoPosition::Right => (half, half),
            LogoPosition::Top => (half, far),
            LogoPosition::Left => (far, half),
        }
    }

    /// A theme in which each part left open takes its default; `None` when
    /// every part is left open.
    pub fn from_parts(layout: Option<LogoLayout>, position: Option<LogoPosition>, color: Option<LogoColor>) -> (r: Option<Self>)
        ensures
            layout is None && position is None && color is None <==> r is None,
            r matches Some(t) ==> t.layout == (match layout {
                Some(l) => l,
                None => LogoLayout::Print,
            }) && t.position == (match position {
                Some(p) => p,
                None => LogoPosition::Bottom,
            }) && t.color == (match color {
                Some(c) => c,
                None => LogoColor::Dark,
            }),
    {
        if layout.is_none() && position.is_none() && color.is_none() {
            return None;
        }
        let default = LogoTheme::default();
        Some(
            LogoTheme::new(
                match layout {
                    Some(l) => l,
                    None => default.layout,
                },
                match position {
                    Some(p) => p,
                    None => default.position,
                },
                match color {
                    Some(c) => c,
                    None => default.color,
                },
            ),
        )
    }
}

impl Default for LogoTheme {
    /// The standard theme: framed, branding below, dark colour.
    fn default() -> (r: Self)
        ensures
            r.layout == LogoLayout::Print,
            r.position == LogoPosition::Bottom,
            r.color == LogoColor::Dark,
    {
        LogoTheme::new(LogoLayout::Print, LogoPosition::Bottom, LogoColor::Dark)
    }
}

} // verus!

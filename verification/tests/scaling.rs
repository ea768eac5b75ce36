use dji_fpv_video_tool::osd::dji::file::font_variant::FontVariant;
use dji_fpv_video_tool::osd::dji::Kind;
use dji_fpv_video_tool::osd::overlay::scaling::{NoAcceptableScaling, Scaling};
use dji_fpv_video_tool::osd::region::Dimensions;
use dji_fpv_video_tool::osd::tile::{PixelDimensions, TileKind};

fn target(width: u32, height: u32) -> Option<PixelDimensions> {
    Some(PixelDimensions::new(width, height))
}

fn unscaled(tile_kind: TileKind) -> Result<Scaling, NoAcceptableScaling> {
    Ok(Scaling { tile_kind, tile_dimensions: None })
}

fn scaled(tile_kind: TileKind, width: u32, height: u32) -> Result<Scaling, NoAcceptableScaling> {
    Ok(Scaling { tile_kind, tile_dimensions: Some(PixelDimensions::new(width, height)) })
}

#[test]
fn layouts_and_their_tiles() {
    assert_eq!(Kind::SD.dimensions_tiles(), Dimensions::new(30, 15));
    assert_eq!(Kind::FakeHD.dimensions_tiles(), Dimensions::new(60, 22));
    assert_eq!(Kind::HD.dimensions_tiles(), Dimensions::new(50, 18));
    assert_eq!(Kind::SD.tile_kind(), TileKind::SD);
    assert_eq!(Kind::FakeHD.tile_kind(), TileKind::HD);
    assert_eq!(Kind::HD.tile_kind(), TileKind::HD);
    assert_eq!(TileKind::SD.dimensions(), PixelDimensions::new(36, 54));
    assert_eq!(TileKind::HD.dimensions(), PixelDimensions::new(24, 36));
    assert_eq!(TileKind::SD.unit(), 18);
    assert_eq!(TileKind::HD.unit(), 12);
}

#[test]
fn layout_from_dimensions() {
    assert_eq!(Kind::from_dimensions_tiles(Dimensions::new(30, 15)), Some(Kind::SD));
    assert_eq!(Kind::from_dimensions_tiles(Dimensions::new(60, 22)), Some(Kind::FakeHD));
    assert_eq!(Kind::from_dimensions_tiles(Dimensions::new(50, 18)), Some(Kind::HD));
    assert_eq!(Kind::from_dimensions_tiles(Dimensions::new(50, 22)), None);
    assert_eq!(Kind::from_dimensions_tiles(Dimensions::new(15, 30)), None);
    assert_eq!(Kind::from_dimensions_tiles(Dimensions::new(0, 0)), None);
}

#[test]
fn font_variants() {
    assert_eq!(FontVariant::from_id(0), FontVariant::Generic);
    assert_eq!(FontVariant::from_id(1), FontVariant::Betaflight);
    assert_eq!(FontVariant::from_id(2), FontVariant::INAV);
    assert_eq!(FontVariant::from_id(3), FontVariant::Ardupilot);
    assert_eq!(FontVariant::from_id(4), FontVariant::KISSUltra);
    assert_eq!(FontVariant::from_id(5), FontVariant::Unknown);
    assert_eq!(FontVariant::from_id(255), FontVariant::Unknown);
    assert_eq!(FontVariant::Generic.name(), "Generic");
    assert_eq!(FontVariant::Betaflight.name(), "Betaflight");
    assert_eq!(FontVariant::INAV.name(), "INAV");
    assert_eq!(FontVariant::Ardupilot.name(), "Ardupilot");
    assert_eq!(FontVariant::KISSUltra.name(), "KISS Ultra");
    assert_eq!(FontVariant::Unknown.name(), "Unknown");
}

#[test]
fn no_scaling_without_target() {
    assert_eq!(Scaling::for_target(Kind::SD, None), unscaled(TileKind::SD));
    assert_eq!(Scaling::for_target(Kind::FakeHD, None), unscaled(TileKind::HD));
    assert_eq!(Scaling::for_target(Kind::HD, None), unscaled(TileKind::HD));
}

#[test]
fn no_scaling_where_tiles_fit_as_they_are() {
    assert_eq!(Scaling::for_target(Kind::FakeHD, target(1440, 792)), unscaled(TileKind::HD));
    assert_eq!(Scaling::for_target(Kind::HD, target(1200, 648)), unscaled(TileKind::HD));
    assert_eq!(Scaling::for_target(Kind::SD, target(1080, 810)), unscaled(TileKind::SD));
    assert_eq!(Scaling::for_target(Kind::SD, target(1139, 854)), unscaled(TileKind::SD));
    assert_eq!(Scaling::for_target(Kind::SD, target(720, 540)), unscaled(TileKind::HD));
    assert_eq!(Scaling::for_target(Kind::HD, target(1800, 972)), unscaled(TileKind::SD));
    assert_eq!(Scaling::for_target(Kind::HD, target(1800, 4000)), unscaled(TileKind::SD));
}

#[test]
fn tiles_grow_to_fill_the_target() {
    assert_eq!(Scaling::for_target(Kind::HD, target(1920, 1080)), scaled(TileKind::SD, 38, 57));
    assert_eq!(Scaling::for_target(Kind::FakeHD, target(1920, 1080)), scaled(TileKind::HD, 32, 48));
    assert_eq!(Scaling::for_target(Kind::SD, target(1280, 720)), scaled(TileKind::HD, 32, 48));
    assert_eq!(Scaling::for_target(Kind::HD, target(3840, 2160)), scaled(TileKind::SD, 76, 114));
    assert_eq!(Scaling::for_target(Kind::FakeHD, target(2040, 1122)), scaled(TileKind::HD, 34, 51));
    assert_eq!(Scaling::for_target(Kind::FakeHD, target(2160, 1188)), unscaled(TileKind::SD));
}

#[test]
fn tiles_of_the_layout_shrink_where_none_fits() {
    assert_eq!(Scaling::for_target(Kind::SD, target(640, 480)), scaled(TileKind::SD, 20, 30));
    assert_eq!(Scaling::for_target(Kind::FakeHD, target(640, 480)), scaled(TileKind::HD, 10, 15));
    assert_eq!(Scaling::for_target(Kind::HD, target(1199, 648)), scaled(TileKind::HD, 22, 33));
    assert_eq!(Scaling::for_target(Kind::FakeHD, target(120, 66)), scaled(TileKind::HD, 2, 3));
    assert_eq!(Scaling::for_target(Kind::SD, target(60, 45)), scaled(TileKind::SD, 2, 3));
}

#[test]
fn no_acceptable_scaling_for_a_target_too_small() {
    let narrow = PixelDimensions::new(119, 1000);
    assert_eq!(
        Scaling::for_target(Kind::FakeHD, Some(narrow)),
        Err(NoAcceptableScaling { kind: Kind::FakeHD, target_resolution: narrow })
    );
    let low = PixelDimensions::new(1000, 65);
    assert_eq!(
        Scaling::for_target(Kind::FakeHD, Some(low)),
        Err(NoAcceptableScaling { kind: Kind::FakeHD, target_resolution: low })
    );
    let none = PixelDimensions::new(0, 0);
    assert_eq!(
        Scaling::for_target(Kind::SD, Some(none)),
        Err(NoAcceptableScaling { kind: Kind::SD, target_resolution: none })
    );
    assert!(Scaling::for_target(Kind::HD, target(99, 54)).is_err());
    assert!(Scaling::for_target(Kind::HD, target(100, 53)).is_err());
    assert!(Scaling::for_target(Kind::HD, target(100, 54)).is_ok());
}

#[test]
fn largest_target() {
    assert_eq!(
        Scaling::for_target(Kind::SD, target(u32::MAX, u32::MAX)),
        scaled(TileKind::SD, 143165576, 214748364)
    );
}

#[test]
fn scaling_depends_on_its_arguments_only() {
    for kind in [Kind::SD, Kind::FakeHD, Kind::HD] {
        for width in (0..4000).step_by(97) {
            for height in (0..2500).step_by(89) {
                let first = Scaling::for_target(kind, target(width, height));
                let second = Scaling::for_target(kind, target(width, height));
                assert_eq!(first, second);
            }
        }
        assert_eq!(Scaling::for_target(kind, None), Scaling::for_target(kind, None));
    }
}

#[test]
fn chosen_tiles_fit_and_larger_ones_do_not() {
    for kind in [Kind::SD, Kind::FakeHD, Kind::HD] {
        let columns = kind.dimensions_tiles().width as u32;
        let rows = kind.dimensions_tiles().height as u32;
        for width in (0..4000).step_by(61) {
            for height in (0..2500).step_by(53) {
                match Scaling::for_target(kind, target(width, height)) {
                    Ok(scaling) => {
                        let tile = scaling.tile_dimensions();
                        assert_eq!(tile.height * 2, tile.width * 3);
                        assert!(columns * tile.width <= width && rows * tile.height <= height);
                        assert!(
                            columns * (tile.width + 2) > width
                                || rows * (tile.height + 3) > height
                        );
                        let native = scaling.tile_kind().dimensions();
                        assert_eq!(scaling.is_scaled(), tile != native);
                        if columns * 24 <= width && rows * 36 <= height {
                            assert!(tile.width >= native.width);
                        } else {
                            assert_eq!(scaling.tile_kind(), kind.tile_kind());
                            assert!(tile.width < native.width);
                        }
                    },
                    Err(error) => {
                        assert!(columns * 2 > width || rows * 3 > height);
                        assert_eq!(error.kind, kind);
                        assert_eq!(error.target_resolution, PixelDimensions::new(width, height));
                    },
                }
            }
        }
    }
}

#[test]
fn tile_dimensions_of_a_scaling() {
    let native = Scaling { tile_kind: TileKind::SD, tile_dimensions: None };
    assert_eq!(native.tile_dimensions(), PixelDimensions::new(36, 54));
    assert!(!native.is_scaled());
    assert_eq!(native.tile_kind(), TileKind::SD);
    let resized =
        Scaling { tile_kind: TileKind::HD, tile_dimensions: Some(PixelDimensions::new(30, 45)) };
    assert_eq!(resized.tile_dimensions(), PixelDimensions::new(30, 45));
    assert!(resized.is_scaled());
}

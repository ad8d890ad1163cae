use luty::cache::{FileStamp, LutCache};
use luty::imaging::{
    check_export, export_format, needs_thumbnail, oriented_dimensions, preview_file_name, source_preview_file_name,
    ExportError, ImageKind, Orientation,
};
use luty::paths::{check_lut_location, has_cube_extension, starts_with_path, LutLocationError};
use luty::settings::{AppSettings, SettingsError};
use std::path::Path;

#[test]
fn cache_gives_back_values_for_the_same_stamp() {
    let mut cache: LutCache<u32> = LutCache::new();
    let stamp = FileStamp { modified: Some(10), file_size: 5 };
    let newer = FileStamp { modified: Some(11), file_size: 5 };
    assert_eq!(cache.get("/a.cube", stamp), None);
    cache.insert(String::from("/a.cube"), stamp, 1);
    cache.insert(String::from("/b.cube"), stamp, 2);
    assert_eq!(cache.get("/a.cube", stamp), Some(&1));
    assert_eq!(cache.get("/a.cube", newer), None);
    assert_eq!(cache.get("/a.cube", FileStamp { modified: None, file_size: 5 }), None);
    cache.insert(String::from("/a.cube"), newer, 3);
    assert_eq!(cache.get("/a.cube", newer), Some(&3));
    assert_eq!(cache.get("/a.cube", stamp), None);
    assert_eq!(cache.get("/b.cube", stamp), Some(&2));
    cache.clear();
    assert_eq!(cache.get("/b.cube", stamp), None);
}

#[test]
fn cache_compares_paths_by_component() {
    let mut cache: LutCache<u32> = LutCache::new();
    let stamp = FileStamp { modified: None, file_size: 1 };
    cache.insert(String::from("/a//b.cube"), stamp, 1);
    assert_eq!(cache.get("/a/b.cube", stamp), Some(&1));
    assert_eq!(cache.get("/a/./b.cube/", stamp), Some(&1));
    assert_eq!(cache.get("a/b.cube", stamp), None);
    cache.insert(String::from("/a/b.cube"), stamp, 2);
    assert_eq!(cache.get("/a//b.cube", stamp), Some(&2));
}

#[test]
fn swaps_dimensions_for_quarter_turns() {
    assert_eq!(oriented_dimensions(2, 3, Orientation::Rotate90), (3, 2));
    assert_eq!(oriented_dimensions(2, 3, Orientation::Rotate270FlipH), (3, 2));
    assert_eq!(oriented_dimensions(2, 3, Orientation::Rotate180), (2, 3));
    assert_eq!(oriented_dimensions(2, 3, Orientation::FlipVertical), (2, 3));
    assert_eq!(oriented_dimensions(2, 3, Orientation::NoTransforms), (2, 3));
}

#[test]
fn names_previews_by_hash() {
    assert_eq!(preview_file_name(0), "0000000000000000.png");
    assert_eq!(preview_file_name(0xdead_beef), format!("{:016x}.png", 0xdead_beefu64));
    assert_eq!(preview_file_name(u64::MAX), "ffffffffffffffff.png");
    assert_eq!(source_preview_file_name(0x0123_4567_89ab_cdef), "source-0123456789abcdef.png");
    assert!(needs_thumbnail(1601, 10));
    assert!(needs_thumbnail(10, 1601));
    assert!(!needs_thumbnail(1600, 1600));
}

#[test]
fn picks_export_format_by_extension() {
    assert_eq!(export_format("/out/a.png").unwrap(), ImageKind::Png);
    assert_eq!(export_format("/out/a.APNG").unwrap(), ImageKind::Png);
    assert_eq!(export_format("/out/a.JPG").unwrap(), ImageKind::Jpeg);
    assert_eq!(export_format("/out/a.jfif").unwrap(), ImageKind::Jpeg);
    assert_eq!(export_format("b.tiff").unwrap(), ImageKind::Tiff);
    assert_eq!(export_format("b.exr").unwrap(), ImageKind::OpenExr);
    assert_eq!(export_format("b.ff").unwrap(), ImageKind::Farbfeld);
    assert_eq!(export_format("b.PGM").unwrap(), ImageKind::Pnm);
    assert_eq!(export_format("/out/a.txt").err(), Some(ExportError::UnsupportedExtension));
    assert_eq!(export_format("/out/png").err(), Some(ExportError::UnsupportedExtension));
    assert_eq!(export_format("/out/.png").err(), Some(ExportError::UnsupportedExtension));
    for p in [
        "x.webp", "x.QOI", "x.tga", "x.bmp", "x.avif", "dir.png/", "x.png/.", "x.", "..", "x.exr",
        "x.dds", "x.Ico", "x.hdr", "x.pbm", "x.pam", "x.ppm", "x.pnm", "x.gif", "x.tif", "x.jpeg",
        "x.pcx", "x.jpe",
    ] {
        assert_eq!(
            format!("{:?}", export_format(p).ok()),
            format!("{:?}", image::ImageFormat::from_path(p).ok()),
            "{}",
            p
        );
    }
    assert_eq!(
        ExportError::UnsupportedExtension.message(),
        "Unsupported output extension. Use PNG, JPEG, WebP, AVIF, TIFF, BMP, QOI, or TGA."
    );
}

const PATHS: [&str; 22] = [
    "", "/", "a", "a.cube", "a.CuBe", "/x/y.cube", "/x/y.cube/", "/x/y.cube/.", "/x/..", "..",
    ".", "./a.cube", ".cube", "a..cube", "dir/.hidden.cube", "//x//y", "/x/y", "x/y",
    "/x/yz", "./x", "/x/./y", "a.cube.bak",
];

#[test]
fn reads_paths_as_std_does() {
    for p in PATHS {
        let std_cube = Path::new(p)
            .extension()
            .is_some_and(|e| e.eq_ignore_ascii_case("cube"));
        assert_eq!(has_cube_extension(p), std_cube, "{}", p);
        for q in PATHS {
            assert_eq!(starts_with_path(p, q), Path::new(p).starts_with(q), "{} {}", p, q);
        }
    }
}

#[test]
fn keeps_luts_inside_the_directory() {
    assert_eq!(check_lut_location("/luts", "/luts/a/b.cube"), Ok(()));
    assert_eq!(check_lut_location("/luts", "/luts/a/b.CUBE"), Ok(()));
    assert_eq!(
        check_lut_location("/luts", "/lutsx/b.cube"),
        Err(LutLocationError::OutsideDirectory)
    );
    assert_eq!(check_lut_location("/luts", "/luts/b.png"), Err(LutLocationError::NotCube));
    assert_eq!(
        LutLocationError::OutsideDirectory.message(),
        "The selected LUT is outside the configured LUT directory"
    );
    assert_eq!(LutLocationError::NotCube.message(), "Only .cube LUT files are supported");
}

#[test]
fn settings_need_a_directory() {
    let s = AppSettings::default();
    assert_eq!(s.configured_lut_directory(), Err(SettingsError::NoLutDirectory));
    assert_eq!(SettingsError::NoLutDirectory.message(), "Choose a LUT directory first");
    let s = AppSettings::with_lut_directory(String::from("/luts"));
    assert_eq!(s.clone().configured_lut_directory(), Ok(String::from("/luts")));
}

#[test]
fn different_hashes_name_different_previews() {
    assert_ne!(preview_file_name(1), preview_file_name(16));
    assert_ne!(source_preview_file_name(255), source_preview_file_name(256));
}

#[test]
fn export_checks_come_in_order() {
    assert_eq!(
        check_export("/img/a.png", Some(String::from("/img//a.png")), true, "/img/a.png").err(),
        Some(ExportError::SameAsInput)
    );
    assert_eq!(
        check_export("/img/a.png", None, false, "/nowhere/b.txt").err(),
        Some(ExportError::NoOutputDirectory)
    );
    assert_eq!(
        check_export("/img/a.png", None, true, "/out/b.txt").err(),
        Some(ExportError::UnsupportedExtension)
    );
    assert_eq!(
        check_export("/img/a.png", Some(String::from("/out/b.webp")), true, "/out/b.webp").unwrap(),
        ImageKind::WebP
    );
    assert_eq!(ExportError::SameAsInput.message(), "Input and output paths must be different");
    assert_eq!(ExportError::NoOutputDirectory.message(), "The output directory does not exist");
}

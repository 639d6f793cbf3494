use bysqr::output::{
    is_generated_items_output, items_output_name, parse_image_format, plan_items_outputs, ImageFormat,
};

#[test]
fn recognizes_only_deterministic_batch_output_names() {
    for name in [
        "invoice-items-001.svg",
        "invoice-items-999.svg",
        "invoice-items-1000.svg",
    ] {
        assert!(is_generated_items_output(name, "svg"), "{name}");
    }

    for name in [
        "invoice-items-000.svg",
        "invoice-items-01.svg",
        "invoice-items-0001.svg",
        "invoice-items-one.svg",
        "invoice-items-001.png",
        "other-001.svg",
    ] {
        assert!(!is_generated_items_output(name, "svg"), "{name}");
    }
}

#[test]
fn written_batch_names_are_recognized() {
    assert_eq!(items_output_name(1, "svg"), "invoice-items-001.svg");
    assert_eq!(items_output_name(1234, "png"), "invoice-items-1234.png");
    for index in [1usize, 7, 42, 999, 1000, 65536] {
        for extension in ["svg", "png", "jpeg"] {
            let name = items_output_name(index, extension);
            assert!(is_generated_items_output(&name, extension), "{name}");
        }
    }
    assert!(!is_generated_items_output("invoice-items-.svg", "svg"));
    assert!(!is_generated_items_output("invoice-items-+01.svg", "svg"));
}

#[test]
fn image_formats_are_named_case_insensitively() {
    assert_eq!(parse_image_format("SVG"), Some(ImageFormat::Svg));
    assert_eq!(parse_image_format("png"), Some(ImageFormat::Png));
    assert_eq!(parse_image_format("Jpg"), Some(ImageFormat::Jpeg));
    assert_eq!(parse_image_format("jpeg"), Some(ImageFormat::Jpeg));
    assert_eq!(parse_image_format("gif"), None);
    assert_eq!(ImageFormat::Jpeg.extension(), "jpeg");
}

fn names(list: &[&str]) -> Vec<String> {
    list.iter().map(|name| name.to_string()).collect()
}

#[test]
fn plans_a_fresh_batch() {
    let plan = plan_items_outputs(3, "svg", &names(&["notes.txt"]), false).unwrap();
    assert_eq!(
        plan.destinations,
        names(&["invoice-items-001.svg", "invoice-items-002.svg", "invoice-items-003.svg"])
    );
    assert!(plan.stale.is_empty());
}

#[test]
fn refuses_an_earlier_batch_without_overwrite() {
    let existing = names(&["notes.txt", "invoice-items-004.png", "invoice-items-002.svg", "invoice-items-007.svg"]);
    assert_eq!(
        plan_items_outputs(3, "svg", &existing, false).err(),
        Some("invoice-items-002.svg".to_string())
    );
}

#[test]
fn removes_only_the_earlier_files_a_smaller_batch_leaves() {
    let existing = names(&[
        "invoice-items-007.svg",
        "notes.txt",
        "invoice-items-002.svg",
        "invoice-items-004.png",
        "invoice-items-004.svg",
    ]);
    let plan = plan_items_outputs(3, "svg", &existing, true).unwrap();
    assert_eq!(plan.destinations.len(), 3);
    assert_eq!(plan.stale, names(&["invoice-items-007.svg", "invoice-items-004.svg"]));
}

use stem_split::splitter::{existing_models, SpleeterModelInfo};

#[test]
fn existing_models_lists_all_six() {
    let names = existing_models();
    assert_eq!(
        names,
        vec!["2stems", "4stems", "5stems", "2stems-16kHz", "4stems-16kHz", "5stems-16kHz"]
    );
}

#[test]
fn get_by_name_two_stems() {
    let info = SpleeterModelInfo::get_by_name("2stems").unwrap();
    assert_eq!(info.name, "2stems");
    assert_eq!(info.output_count, 2);
    assert_eq!(info.output_names, vec!["strided_slice_13", "strided_slice_23"]);
    assert_eq!(info.track_names, vec!["vocals", "accompaniment"]);
}

#[test]
fn get_by_name_five_stems() {
    let info = SpleeterModelInfo::get_by_name("5stems").unwrap();
    assert_eq!(info.output_count, 5);
    assert_eq!(
        info.output_names,
        vec![
            "strided_slice_18",
            "strided_slice_38",
            "strided_slice_48",
            "strided_slice_28",
            "strided_slice_58"
        ]
    );
    assert_eq!(info.track_names, vec!["vocals", "drums", "bass", "piano", "other"]);
}

#[test]
fn get_by_name_every_catalog_entry() {
    for (name, stems) in [
        ("2stems", 2usize),
        ("4stems", 4),
        ("5stems", 5),
        ("2stems-16kHz", 2),
        ("4stems-16kHz", 4),
        ("5stems-16kHz", 5),
    ] {
        let info = SpleeterModelInfo::get_by_name(name).unwrap();
        assert_eq!(info.name, name);
        assert_eq!(info.output_count, stems);
        assert_eq!(info.output_names.len(), stems);
        assert_eq!(info.track_names.len(), stems);
    }
}

#[test]
fn get_by_name_unknown_is_none() {
    assert!(SpleeterModelInfo::get_by_name("3stems").is_none());
    assert!(SpleeterModelInfo::get_by_name("").is_none());
    assert!(SpleeterModelInfo::get_by_name("2STEMS").is_none());
}
